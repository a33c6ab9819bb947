//! Batches of vertices and triangle indices collected before they go to the GPU.
use vstd::prelude::*;

verus! {

/// One entry of an index buffer.
pub type Index = u32;

/// The vertices and indices gathered for one draw call. `offset` is the number of
/// vertices added so far: each batch's indices are shifted by it so that they keep
/// pointing at that batch's own vertices.
pub struct DrawData<V> {
    vertecies: Vec<V>,
    indicies: Vec<Index>,
    offset: usize,
}

/// The indices of a batch, each shifted by `offset` read as a `u32`.
pub open spec fn shifted_indices(offset: usize, indicies: Seq<Index>) -> Seq<Index> {
    Seq::new(indicies.len(), |i: int| ((offset as u32) + indicies[i]) as u32)
}

impl<V> DrawData<V> {
    /// The vertices gathered so far.
    pub closed spec fn vertex_seq(&self) -> Seq<V> {
        self.vertecies@
    }

    /// The indices gathered so far.
    pub closed spec fn index_seq(&self) -> Seq<Index> {
        self.indicies@
    }

    /// The shift that the next batch's indices receive.
    pub closed spec fn offset_value(&self) -> usize {
        self.offset
    }

    /// The offset counts the vertices gathered so far.
    pub open spec fn wf(&self) -> bool {
        self.offset_value() == self.vertex_seq().len()
    }

    /// An empty batch.
    pub fn new() -> (d: Self)
        ensures
            d.vertex_seq() == Seq::<V>::empty(),
            d.index_seq() == Seq::<Index>::empty(),
            d.offset_value() == 0,
            d.wf(),
    {
        Self { vertecies: Vec::new(), indicies: Vec::new(), offset: 0 }
    }

    /// Drops everything gathered, as after a draw call.
    pub fn reset(&mut self)
        ensures
            final(self).vertex_seq() == Seq::<V>::empty(),
            final(self).index_seq() == Seq::<Index>::empty(),
            final(self).offset_value() == 0,
            final(self).wf(),
    {
        self.offset = 0;
        self.vertecies.clear();
        self.indicies.clear();
    }

    /// Appends a batch: its vertices as they are, its indices shifted by the offset,
    /// which then grows by the number of vertices in the batch.
    pub fn add_data<const VI: usize>(&mut self, vertecies: Vec<V>, indicies: [Index; VI])
        requires
            forall|i: int| 0 <= i < VI ==> (old(self).offset_value() as u32) + #[trigger] indicies@[i] <= u32::MAX,
            old(self).offset_value() + vertecies@.len() <= usize::MAX,
        ensures
            final(self).vertex_seq() == old(self).vertex_seq() + vertecies@,
            final(self).index_seq() == old(self).index_seq() + shifted_indices(old(self).offset_value(), indicies@),
            final(self).offset_value() == old(self).offset_value() + vertecies@.len(),
            old(self).wf() ==> final(self).wf(),
            // each index that pointed at a vertex of the batch still points at that vertex
            old(self).wf() && old(self).offset_value() <= u32::MAX ==> forall|k: int|
                0 <= k < VI && #[trigger] indicies@[k] < vertecies@.len() ==> final(self).vertex_seq()[
                final(self).index_seq()[old(self).index_seq().len() + k] as int] == vertecies@[indicies@[k] as int],
    {
        let mut vertecies = vertecies;
        let ghost batch = vertecies@;
        let added: usize = vertecies.len();
        self.vertecies.append(&mut vertecies);
        let base: u32 = self.offset as u32;
        let ghost start = self.indicies@;
        let mut i: usize = 0;
        while i < VI
            invariant
                i <= VI,
                base == self.offset as u32,
                self.offset == old(self).offset,
                self.vertecies@ == old(self).vertecies@ + batch,
                forall|j: int| 0 <= j < VI ==> base + #[trigger] indicies@[j] <= u32::MAX,
                self.indicies@ == start + shifted_indices(self.offset, indicies@).take(i as int),
            decreases VI - i,
        {
            self.indicies.push(base + indicies[i]);
            proof {
                assert(shifted_indices(self.offset, indicies@).take(i + 1) =~= shifted_indices(
                    self.offset,
                    indicies@,
                ).take(i as int).push((base + indicies@[i as int]) as u32));
            }
            i = i + 1;
        }
        proof {
            assert(shifted_indices(self.offset, indicies@).take(VI as int) =~= shifted_indices(
                self.offset,
                indicies@,
            ));
        }
        self.offset = self.offset + added;
    }

    /// The vertices gathered so far.
    pub fn vertecies(&self) -> (v: &Vec<V>)
        ensures
            v@ == self.vertex_seq(),
    {
        &self.vertecies
    }

    /// The indices gathered so far.
    pub fn indicies(&self) -> (v: &Vec<Index>)
        ensures
            v@ == self.index_seq(),
    {
        &self.indicies
    }

    /// The shift that the next batch's indices receive.
    pub fn offset(&self) -> (o: usize)
        ensures
            o == self.offset_value(),
    {
        self.offset
    }
}

} // verus!
