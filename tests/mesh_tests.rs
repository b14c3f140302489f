use lsystem_scene::mesh::{gen_cylinder_data, MeshBuffer, RimPoint};

#[test]
fn appended_indices_are_offset() {
    let mut m: MeshBuffer<u8> = MeshBuffer::new();
    m.append_primitive(vec![10, 11, 12], vec![0, 1, 2]);
    m.append_primitive(vec![20, 21, 22, 23], vec![0, 1, 2, 2, 3, 0]);
    assert_eq!(m.vertices(), &vec![10, 11, 12, 20, 21, 22, 23]);
    assert_eq!(m.indices(), &vec![0, 1, 2, 3, 4, 5, 5, 6, 3]);
}

#[test]
fn concatenated_indices_stay_below_vertex_count() {
    let mut m: MeshBuffer<RimPoint> = MeshBuffer::new();
    for _ in 0..5 {
        let (v, i) = gen_cylinder_data(5).into_parts();
        m.append_primitive(v, i);
    }
    assert_eq!(m.vertex_count(), 50);
    let max = m.indices().iter().copied().max().unwrap();
    assert!((max as usize) < m.vertex_count());
    assert_eq!(max, 49);
}

#[test]
fn empty_primitive_changes_nothing() {
    let mut m: MeshBuffer<u8> = MeshBuffer::new();
    m.append_primitive(vec![1], vec![0, 0, 0]);
    m.append_primitive(Vec::new(), Vec::new());
    assert_eq!(m.vertex_count(), 1);
    assert_eq!(m.indices(), &vec![0, 0, 0]);
}

#[test]
fn triangular_cylinder_template() {
    let m = gen_cylinder_data(3);
    assert_eq!(m.vertex_count(), 6);
    assert_eq!(m.vertices()[3], RimPoint { top: true, segment: 1 });
    assert_eq!(m.vertices()[4], RimPoint { top: false, segment: 2 });
    assert_eq!(m.indices().len(), 24);
    assert!(m.indices().iter().all(|i| *i < 6));
    assert_eq!(&m.indices()[0..6], &[0, 2, 1, 1, 2, 3]);
    assert_eq!(&m.indices()[12..18], &[4, 0, 5, 5, 0, 1]);
    assert_eq!(&m.indices()[18..24], &[0, 2, 4, 1, 5, 3]);
}
