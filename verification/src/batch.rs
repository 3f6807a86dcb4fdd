use vstd::prelude::*;
use vstd::arithmetic::div_mod::lemma_fundamental_div_mod_converse;
use crate::tile::Tile;

verus! {

/// Accumulates generated tiles into fixed-size batches. `add` hands a
/// full batch back to the caller the moment the pending batch reaches
/// capacity; at the end of a worker's row range a `flush` hands back
/// whatever remains, so no trailing partial batch is lost. The caller
/// persists each batch it is handed as one atomic operation.
pub struct BatchWriter {
    pub capacity: usize,
    pub pending: Vec<Tile>,
    pub batches_issued: usize,
    pub tiles_issued: usize,
    pub tiles_added: usize,
}

impl BatchWriter {
    /// The accounting invariant: every tile added is either in an
    /// issued batch or still pending, the pending batch is always
    /// strictly below capacity, and no issued batch was empty.
    pub open spec fn wf(self) -> bool {
        &&& 1 <= self.capacity
        &&& self.pending.len() < self.capacity
        &&& self.tiles_added == self.tiles_issued + self.pending.len()
        &&& self.batches_issued <= self.tiles_issued
    }

    /// Whether every batch issued so far was exactly full: true until
    /// the first flush of a partial trailing batch.
    pub open spec fn only_full_batches(self) -> bool {
        self.tiles_issued == self.batches_issued * self.capacity
    }

    pub fn new(capacity: usize) -> (w: BatchWriter)
        requires
            1 <= capacity,
        ensures
            w.wf(),
            w.only_full_batches(),
            w.capacity == capacity,
            w.tiles_added == 0,
            w.batches_issued == 0,
            w.pending.len() == 0,
    {
        BatchWriter {
            capacity,
            pending: Vec::new(),
            batches_issued: 0,
            tiles_issued: 0,
            tiles_added: 0,
        }
    }

    /// Adds one tile. Returns the full batch to persist when the
    /// pending batch reaches capacity, and nothing otherwise.
    pub fn add(&mut self, t: Tile) -> (out: Option<Vec<Tile>>)
        requires
            old(self).wf(),
            old(self).tiles_added < usize::MAX,
        ensures
            final(self).wf(),
            old(self).only_full_batches() ==> final(self).only_full_batches(),
            final(self).capacity == old(self).capacity,
            final(self).tiles_added == old(self).tiles_added + 1,
            match out {
                Some(batch) => {
                    &&& batch@ == old(self).pending@.push(t)
                    &&& batch.len() == final(self).capacity
                    &&& final(self).pending.len() == 0
                    &&& final(self).batches_issued == old(self).batches_issued + 1
                },
                None => {
                    &&& final(self).pending@ == old(self).pending@.push(t)
                    &&& final(self).batches_issued == old(self).batches_issued
                },
            },
    {
        proof {
            let b = old(self).batches_issued as int;
            let c = old(self).capacity as int;
            assert((b + 1) * c == b * c + c) by (nonlinear_arith);
        }
        self.pending.push(t);
        self.tiles_added = self.tiles_added + 1;
        if self.pending.len() >= self.capacity {
            let mut batch: Vec<Tile> = Vec::new();
            std::mem::swap(&mut batch, &mut self.pending);
            self.batches_issued = self.batches_issued + 1;
            self.tiles_issued = self.tiles_issued + batch.len();
            Some(batch)
        } else {
            None
        }
    }

    /// Hands back the trailing partial batch, leaving nothing pending.
    /// On an empty pending batch this is a no-op and hands back
    /// nothing, so no empty persistence call is ever issued.
    pub fn flush(&mut self) -> (out: Option<Vec<Tile>>)
        requires
            old(self).wf(),
        ensures
            final(self).wf(),
            final(self).capacity == old(self).capacity,
            final(self).tiles_added == old(self).tiles_added,
            final(self).pending.len() == 0,
            match out {
                Some(batch) => {
                    &&& old(self).pending.len() > 0
                    &&& batch@ == old(self).pending@
                    &&& final(self).batches_issued == old(self).batches_issued + 1
                },
                None => {
                    &&& old(self).pending.len() == 0
                    &&& final(self).batches_issued == old(self).batches_issued
                    &&& *final(self) == *old(self)
                },
            },
    {
        if self.pending.len() == 0 {
            return None;
        }
        let mut batch: Vec<Tile> = Vec::new();
        std::mem::swap(&mut batch, &mut self.pending);
        self.batches_issued = self.batches_issued + 1;
        self.tiles_issued = self.tiles_issued + batch.len();
        Some(batch)
    }

    /// A number of `add` calls that is an exact multiple of the
    /// capacity leaves nothing pending and has issued exactly that
    /// many tiles in full batches: `tiles_added / capacity` of them.
    pub proof fn lemma_full_batches_leave_nothing_pending(self)
        requires
            self.wf(),
            self.only_full_batches(),
            self.tiles_added % self.capacity == 0,
        ensures
            self.pending.len() == 0,
            self.batches_issued == self.tiles_added / self.capacity,
    {
        lemma_fundamental_div_mod_converse(self.tiles_added as int, self.capacity as int,
            self.batches_issued as int, self.pending.len() as int);
        assert(self.batches_issued * self.capacity == self.capacity * self.batches_issued)
            by (nonlinear_arith);
        if self.pending.len() != 0 {
            assert(self.tiles_added % self.capacity == self.pending.len());
        }
    }
}

} // verus!
