use lsystem_scene::grid::{key_in_window, CellKey, PlantGrid};

fn key(x: i32, z: i32) -> CellKey {
    CellKey { x, z }
}

fn keys(g: &PlantGrid<u32>) -> Vec<CellKey> {
    g.cells().iter().map(|c| c.key).collect()
}

#[test]
fn first_refresh_asks_for_whole_window() {
    let mut g: PlantGrid<u32> = PlantGrid::new();
    let missing = g.refresh(0, 0);
    assert_eq!(missing.len(), 16);
    assert_eq!(missing[0], key(-6, -6));
    assert_eq!(missing[1], key(-6, -3));
    assert_eq!(missing[4], key(-3, -6));
    assert_eq!(missing[15], key(3, 3));
}

#[test]
fn moving_one_cell_evicts_one_row() {
    let mut g: PlantGrid<u32> = PlantGrid::new();
    for (n, k) in g.refresh(0, 0).into_iter().enumerate() {
        assert!(g.insert(k, n as u32));
    }
    let missing = g.refresh(1, 0);
    assert_eq!(g.len(), 12);
    assert!(keys(&g).iter().all(|k| k.x != -6));
    assert_eq!(missing, vec![key(6, -6), key(6, -3), key(6, 0), key(6, 3)]);
    for k in missing {
        assert!(g.insert(k, 0));
    }
    assert_eq!(g.len(), 16);
    assert!(keys(&g).iter().all(|k| (k.x - 3).abs() <= 6 && k.z.abs() <= 6));
}

#[test]
fn window_boundary_is_inclusive() {
    let mut g: PlantGrid<u32> = PlantGrid::new();
    assert!(g.insert(key(6, -6), 1));
    assert!(g.insert(key(7, 0), 2));
    assert!(g.insert(key(0, -7), 3));
    let missing = g.refresh(0, 0);
    assert_eq!(keys(&g), vec![key(6, -6)]);
    assert_eq!(missing.len(), 16);
    let again = g.refresh(0, 0);
    assert_eq!(keys(&g), vec![key(6, -6)]);
    assert_eq!(again, missing);
}

#[test]
fn one_plant_per_cell() {
    let mut g: PlantGrid<u32> = PlantGrid::new();
    assert!(g.insert(key(0, 0), 1));
    assert!(!g.insert(key(0, 0), 2));
    assert_eq!(g.len(), 1);
    assert_eq!(g.cells()[0].plant, 1);
    assert!(g.contains_key(key(0, 0)));
    assert!(!g.contains_key(key(3, 0)));
}

#[test]
fn window_membership() {
    assert!(key_in_window(key(-6, 6), 0, 0));
    assert!(!key_in_window(key(-7, 0), 0, 0));
    assert!(key_in_window(key(12, -3), 2, -1));
    assert!(!key_in_window(key(12, -10), 2, -1));
}
