use vstd::prelude::*;
use crate::errors::PipelineError;
use crate::tile::Tile;

verus! {

/// Whether a batch can be accepted into a store already holding
/// `stored`: the batch's ids collide neither with each other nor with
/// a stored id.
pub open spec fn batch_ok(stored: Seq<Tile>, batch: Seq<Tile>) -> bool {
    &&& forall|i: int, j: int|
        0 <= i < j < batch.len() ==> #[trigger] batch[i].id != #[trigger] batch[j].id
    &&& forall|i: int, j: int|
        0 <= i < batch.len() && 0 <= j < stored.len() ==> #[trigger] batch[i].id
            != #[trigger] stored[j].id
}

/// The persistent tile store, modeled in memory: an append-only table
/// of tiles keyed by unique integer id. Batches are accepted or
/// rejected atomically, and a duplicate id is rejected defensively.
pub struct TileStore {
    pub tiles: Vec<Tile>,
}

impl TileStore {
    /// Ids are unique: every tile id is present at most once.
    pub open spec fn wf(self) -> bool {
        forall|i: int, j: int|
            0 <= i < j < self.tiles.len() ==> #[trigger] self.tiles[i].id
                != #[trigger] self.tiles[j].id
    }

    pub open spec fn contains_id(self, id: u32) -> bool {
        exists|i: int| 0 <= i < self.tiles.len() && #[trigger] self.tiles[i].id == id
    }

    pub fn new() -> (s: TileStore)
        ensures
            s.wf(),
            s.tiles.len() == 0,
    {
        TileStore { tiles: Vec::new() }
    }

    pub fn len(&self) -> (n: usize)
        ensures
            n == self.tiles.len(),
    {
        self.tiles.len()
    }

    /// One atomic multi-row insert. Succeeds, appending the whole
    /// batch in order, if and only if no id in the batch duplicates
    /// another or an already stored one; otherwise the store is left
    /// untouched and the batch is rejected.
    pub fn insert_batch(&mut self, batch: Vec<Tile>) -> (r: Result<(), PipelineError>)
        requires
            old(self).wf(),
        ensures
            final(self).wf(),
            match r {
                Ok(()) => {
                    &&& batch_ok(old(self).tiles@, batch@)
                    &&& final(self).tiles@ == old(self).tiles@ + batch@
                },
                Err(e) => {
                    &&& e == PipelineError::Persistence
                    &&& !batch_ok(old(self).tiles@, batch@)
                    &&& final(self).tiles@ == old(self).tiles@
                },
            },
    {
        let mut bi: usize = 0;
        while bi < batch.len()
            invariant
                bi <= batch.len(),
                forall|i: int, j: int|
                    0 <= i < j < batch.len() && j < bi ==> #[trigger] batch[i].id
                        != #[trigger] batch[j].id,
                forall|i: int, j: int|
                    0 <= i < bi && 0 <= j < self.tiles.len() ==> #[trigger] batch[i].id
                        != #[trigger] self.tiles[j].id,
                *self == *old(self),
                old(self).wf(),
            decreases batch.len() - bi,
        {
            let mut j: usize = 0;
            while j < self.tiles.len()
                invariant
                    j <= self.tiles.len(),
                    bi < batch.len(),
                    forall|k: int|
                        0 <= k < j ==> #[trigger] self.tiles[k].id != batch[bi as int].id,
                    *self == *old(self),
                    old(self).wf(),
                decreases self.tiles.len() - j,
            {
                if self.tiles[j].id == batch[bi].id {
                    return Err(PipelineError::Persistence);
                }
                j = j + 1;
            }
            let mut k: usize = 0;
            while k < bi
                invariant
                    k <= bi < batch.len(),
                    forall|i: int| 0 <= i < k ==> #[trigger] batch[i].id != batch[bi as int].id,
                    *self == *old(self),
                    old(self).wf(),
                decreases bi - k,
            {
                if batch[k].id == batch[bi].id {
                    return Err(PipelineError::Persistence);
                }
                k = k + 1;
            }
            bi = bi + 1;
        }
        let mut batch = batch;
        self.tiles.append(&mut batch);
        Ok(())
    }

    /// The tile with the given id, if one is stored.
    pub fn get_by_id(&self, id: u32) -> (r: Option<&Tile>)
        ensures
            match r {
                Some(t) => {
                    &&& t.id == id
                    &&& exists|i: int|
                        0 <= i < self.tiles.len() && #[trigger] self.tiles[i] == *t
                },
                None => !self.contains_id(id),
            },
    {
        let mut i: usize = 0;
        while i < self.tiles.len()
            invariant
                i <= self.tiles.len(),
                forall|k: int| 0 <= k < i ==> #[trigger] self.tiles[k].id != id,
            decreases self.tiles.len() - i,
        {
            if self.tiles[i].id == id {
                return Some(&self.tiles[i]);
            }
            i = i + 1;
        }
        None
    }

    /// The elevation block of the tile with the given id, without the
    /// imagery payload.
    pub fn get_elevation_by_id(&self, id: u32) -> (r: Option<crate::tile::TileOnlyElevation>)
        ensures
            match r {
                Some(t) => {
                    &&& t.id == id
                    &&& exists|i: int|
                        0 <= i < self.tiles.len() && #[trigger] self.tiles[i].id == id
                            && t.elevation_data@ == self.tiles[i].elevation_data@
                },
                None => !self.contains_id(id),
            },
    {
        match self.get_by_id(id) {
            Some(t) => Some(crate::tile::TileOnlyElevation {
                id: t.id,
                elevation_data: clone_bytes(&t.elevation_data),
            }),
            None => None,
        }
    }

    /// The imagery block of the tile with the given id, without the
    /// elevation payload.
    pub fn get_imagery_by_id(&self, id: u32) -> (r: Option<crate::tile::TileOnlyImagery>)
        ensures
            match r {
                Some(t) => {
                    &&& t.id == id
                    &&& exists|i: int|
                        0 <= i < self.tiles.len() && #[trigger] self.tiles[i].id == id
                            && t.imagery_data@ == self.tiles[i].imagery_data@
                },
                None => !self.contains_id(id),
            },
    {
        match self.get_by_id(id) {
            Some(t) => Some(crate::tile::TileOnlyImagery {
                id: t.id,
                imagery_data: clone_bytes(&t.imagery_data),
            }),
            None => None,
        }
    }
}

/// A byte-for-byte copy of a byte vector.
pub fn clone_bytes(src: &Vec<u8>) -> (out: Vec<u8>)
    ensures
        out@ == src@,
{
    let mut out: Vec<u8> = Vec::new();
    let mut i: usize = 0;
    while i < src.len()
        invariant
            i <= src.len(),
            out@ == src@.take(i as int),
        decreases src.len() - i,
    {
        out.push(src[i]);
        proof {
            assert(out@ =~= src@.take(i + 1));
        }
        i = i + 1;
    }
    proof {
        assert(out@ =~= src@);
    }
    out
}

} // verus!
