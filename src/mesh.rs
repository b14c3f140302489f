use vstd::prelude::*;

verus! {

/// Largest vertex count a buffer may reach: every index must fit in a `u32`.
pub const MAX_VERTICES: usize = 0xffff_ffff;

/// Largest number of sides accepted for the cylinder template.
pub const MAX_CYLINDER_SIDES: u32 = 0x10_0000;

/// A vertex buffer with triangle indices into it.
pub struct MeshBuffer<V> {
    vertices: Vec<V>,
    indices: Vec<u32>,
}

/// Every index refers to one of `n` vertices.
pub open spec fn indices_below(idx: Seq<u32>, n: int) -> bool {
    forall|i: int| 0 <= i < idx.len() ==> (#[trigger] idx[i]) < n
}

/// The indices of one primitive shifted past `offset` earlier vertices.
pub open spec fn shifted(idx: Seq<u32>, offset: int) -> Seq<u32> {
    Seq::new(idx.len(), |i: int| (idx[i] + offset) as u32)
}

impl<V> MeshBuffer<V> {
    pub closed spec fn vertices_view(&self) -> Seq<V> {
        self.vertices@
    }

    pub closed spec fn indices_view(&self) -> Seq<u32> {
        self.indices@
    }

    /// Well-formed: every index is below the vertex count, which fits in a `u32` index.
    pub open spec fn wf(&self) -> bool {
        &&& self.vertices_view().len() <= MAX_VERTICES
        &&& indices_below(self.indices_view(), self.vertices_view().len() as int)
    }

    /// An empty buffer.
    pub fn new() -> (r: Self)
        ensures
            r.wf(),
            r.vertices_view() == Seq::<V>::empty(),
            r.indices_view() == Seq::<u32>::empty(),
    {
        MeshBuffer { vertices: Vec::new(), indices: Vec::new() }
    }

    pub fn vertices(&self) -> (r: &Vec<V>)
        ensures
            r@ == self.vertices_view(),
    {
        &self.vertices
    }

    pub fn indices(&self) -> (r: &Vec<u32>)
        ensures
            r@ == self.indices_view(),
    {
        &self.indices
    }

    pub fn vertex_count(&self) -> (r: usize)
        ensures
            r == self.vertices_view().len(),
    {
        self.vertices.len()
    }

    /// Hands out the vertex and index lists.
    pub fn into_parts(self) -> (r: (Vec<V>, Vec<u32>))
        ensures
            r.0@ == self.vertices_view(),
            r.1@ == self.indices_view(),
    {
        (self.vertices, self.indices)
    }

    /// Appends one primitive's vertices and its local indices, offsetting the
    /// indices by the number of vertices already held so they keep pointing
    /// at the primitive's own vertices.
    pub fn append_primitive(&mut self, vertices: Vec<V>, indices: Vec<u32>)
        requires
            old(self).wf(),
            indices_below(indices@, vertices@.len() as int),
            old(self).vertices_view().len() + vertices@.len() <= MAX_VERTICES,
        ensures
            final(self).wf(),
            final(self).vertices_view() == old(self).vertices_view() + vertices@,
            final(self).indices_view() == old(self).indices_view() + shifted(
                indices@,
                old(self).vertices_view().len() as int,
            ),
    {
        let offset = self.vertices.len() as u32;
        let ghost old_idx = self.indices@;
        let ghost n = vertices@.len();
        let mut i: usize = 0;
        while i < indices.len()
            invariant
                0 <= i <= indices@.len(),
                offset == old(self).vertices_view().len(),
                offset + n <= MAX_VERTICES,
                n == vertices@.len(),
                indices_below(indices@, n as int),
                self.vertices@ == old(self).vertices_view(),
                self.indices@ == old_idx + shifted(indices@, offset as int).take(i as int),
            decreases indices@.len() - i,
        {
            let k = indices[i];
            self.indices.push(k + offset);
            i = i + 1;
            assert(self.indices@ =~= old_idx + shifted(indices@, offset as int).take(i as int));
        }
        assert(shifted(indices@, offset as int).take(i as int) =~= shifted(
            indices@,
            offset as int,
        ));
        let mut vs = vertices;
        self.vertices.append(&mut vs);
        proof {
            let total = self.vertices@.len() as int;
            assert forall|j: int| 0 <= j < self.indices@.len() implies (
            #[trigger] self.indices@[j]) < total by {
                if j >= old_idx.len() {
                    assert(self.indices@[j] == indices@[j - old_idx.len()] + offset);
                }
            }
        }
    }
}

/// Proves that appending a primitive whose indices stay below its own vertex
/// count to a well-formed buffer leaves every index below the grown vertex count.
pub proof fn lemma_append_keeps_indices_in_range(
    vs: Seq<u32>,
    n_old: int,
    idx: Seq<u32>,
    n_new: int,
)
    requires
        n_old >= 0,
        n_new >= 0,
        n_old + n_new <= MAX_VERTICES,
        indices_below(vs, n_old),
        indices_below(idx, n_new),
    ensures
        indices_below(vs + shifted(idx, n_old), n_old + n_new),
{
    let r = vs + shifted(idx, n_old);
    assert forall|j: int| 0 <= j < r.len() implies (#[trigger] r[j]) < n_old + n_new by {
        if j >= vs.len() {
            assert(r[j] == shifted(idx, n_old)[j - vs.len()]);
        }
    }
}

/// A vertex of the unit cylinder template: on the bottom or top rim, at one
/// of the evenly spaced angular segments.
#[derive(Clone, Copy, Debug, PartialEq, Eq, Structural)]
pub struct RimPoint {
    pub top: bool,
    pub segment: u32,
}

/// The template vertex stored at index `i`: bottom and top rim alternate.
pub open spec fn rim_point_at(i: int) -> RimPoint {
    RimPoint { top: i % 2 == 1, segment: (i / 2) as u32 }
}

/// Number of triangles of a closed cylinder with `sides` sides: two per side
/// face and `sides - 2` per cap.
pub open spec fn cylinder_triangles(sides: int) -> int {
    4 * sides - 4
}

/// Builds the closed cylinder template with `sides` sides: vertex `2k` is the
/// bottom rim at segment `k`, vertex `2k + 1` the top rim at segment `k`;
/// each side face is two triangles and each cap a fan.
pub fn gen_cylinder_data(sides: u32) -> (r: MeshBuffer<RimPoint>)
    requires
        3 <= sides <= MAX_CYLINDER_SIDES,
    ensures
        r.wf(),
        r.vertices_view().len() == 2 * sides,
        forall|i: int| 0 <= i < 2 * sides ==> #[trigger] r.vertices_view()[i] == rim_point_at(i),
        r.indices_view().len() == 3 * cylinder_triangles(sides as int),
{
    let mut vertices: Vec<RimPoint> = Vec::new();
    let mut k: u32 = 0;
    while k < sides
        invariant
            k <= sides <= MAX_CYLINDER_SIDES,
            vertices@.len() == 2 * k,
            forall|i: int| 0 <= i < 2 * k ==> #[trigger] vertices@[i] == rim_point_at(i),
        decreases sides - k,
    {
        vertices.push(RimPoint { top: false, segment: k });
        vertices.push(RimPoint { top: true, segment: k });
        k = k + 1;
    }
    let n = 2 * sides;
    let mut indices: Vec<u32> = Vec::new();
    let mut k: u32 = 0;
    while k < sides
        invariant
            k <= sides <= MAX_CYLINDER_SIDES,
            n == 2 * sides,
            indices@.len() == 6 * k,
            indices_below(indices@, n as int),
        decreases sides - k,
    {
        let next = if k + 1 == sides { 0 } else { k + 1 };
        indices.push(2 * k);
        indices.push(2 * next);
        indices.push(2 * k + 1);
        indices.push(2 * k + 1);
        indices.push(2 * next);
        indices.push(2 * next + 1);
        k = k + 1;
    }
    let mut k: u32 = 1;
    while k + 1 < sides
        invariant
            1 <= k <= sides - 1,
            sides <= MAX_CYLINDER_SIDES,
            n == 2 * sides,
            indices@.len() == 6 * sides + 6 * (k - 1),
            indices_below(indices@, n as int),
        decreases sides - k,
    {
        indices.push(0);
        indices.push(2 * k);
        indices.push(2 * k + 2);
        indices.push(1);
        indices.push(2 * k + 3);
        indices.push(2 * k + 1);
        k = k + 1;
    }
    MeshBuffer { vertices, indices }
}

} // verus!
