use vstd::prelude::*;

verus! {

/// The record, for one peer, of the last of its transactions that this node
/// has taken over.
#[derive(Clone, Copy, Debug)]
pub struct Watermark {
    pub owner_id: u128,
    pub transaction_id: u128,
}

/// The watermarks table: at most one row for each peer.
pub struct Watermarks {
    rows: Vec<Watermark>,
}

impl View for Watermarks {
    type V = Map<u128, u128>;

    closed spec fn view(&self) -> Map<u128, u128> {
        Map::new(
            |owner: u128|
                exists|i: int| 0 <= i < self.rows@.len() && #[trigger] self.rows@[i].owner_id == owner,
            |owner: u128|
                self.rows@[choose|i: int|
                    0 <= i < self.rows@.len() && #[trigger] self.rows@[i].owner_id == owner].transaction_id,
        )
    }
}

impl Watermarks {
    /// The table's invariant: no peer has two rows.
    pub closed spec fn wf(&self) -> bool {
        forall|i: int, j: int|
            0 <= i < j < self.rows@.len() ==> (#[trigger] self.rows@[i]).owner_id != (
            #[trigger] self.rows@[j]).owner_id
    }

    /// A table without rows.
    pub fn new() -> (table: Watermarks)
        ensures
            table.wf(),
            table@ == Map::<u128, u128>::empty(),
    {
        let table = Watermarks { rows: Vec::new() };
        assert(table@ =~= Map::<u128, u128>::empty());
        table
    }

    fn find(&self, owner_id: u128) -> (res: Option<usize>)
        requires
            self.wf(),
        ensures
            match res {
                Some(i) => i < self.rows@.len() && self.rows@[i as int].owner_id == owner_id
                    && self@.contains_key(owner_id) && self@[owner_id] == self.rows@[i as int].transaction_id,
                None => !self@.contains_key(owner_id),
            },
    {
        let mut i: usize = 0;
        while i < self.rows.len()
            invariant
                self.wf(),
                i <= self.rows.len(),
                forall|k: int| 0 <= k < i ==> (#[trigger] self.rows@[k]).owner_id != owner_id,
            decreases self.rows.len() - i,
        {
            if self.rows[i].owner_id == owner_id {
                proof {
                    let c = choose|c: int|
                        0 <= c < self.rows@.len() && #[trigger] self.rows@[c].owner_id == owner_id;
                    assert(c == i);
                }
                return Some(i);
            }
            i += 1;
        }
        None
    }

    /// The peer's watermark, if it has one.
    pub fn get(&self, owner_id: u128) -> (res: Option<u128>)
        requires
            self.wf(),
        ensures
            match res {
                Some(id) => self@.contains_key(owner_id) && self@[owner_id] == id,
                None => !self@.contains_key(owner_id),
            },
    {
        match self.find(owner_id) {
            Some(i) => Some(self.rows[i].transaction_id),
            None => None,
        }
    }

    /// Replaces the peer's watermark.
    pub fn set(&mut self, owner_id: u128, transaction_id: u128)
        requires
            old(self).wf(),
        ensures
            final(self).wf(),
            final(self)@ == old(self)@.insert(owner_id, transaction_id),
    {
        let ghost before = self.rows@;
        let row = Watermark { owner_id, transaction_id };
        match self.find(owner_id) {
            Some(i) => {
                self.rows.set(i, row);
                proof {
                    assert(self.rows@ == before.update(i as int, row));
                    assert forall|a: int, b: int| 0 <= a < b < self.rows@.len() implies (
                    #[trigger] self.rows@[a]).owner_id != (#[trigger] self.rows@[b]).owner_id by {
                        assert(before[a].owner_id != before[b].owner_id);
                    }
                    assert forall|k: u128| self@.contains_key(k) <==> old(self)@.insert(
                        owner_id,
                        transaction_id,
                    ).contains_key(k) by {
                        if self@.contains_key(k) {
                            let c = choose|c: int|
                                0 <= c < self.rows@.len() && #[trigger] self.rows@[c].owner_id == k;
                            assert(before[c].owner_id == k);
                        }
                        if old(self)@.contains_key(k) {
                            let c = choose|c: int| 0 <= c < before.len() && #[trigger] before[c].owner_id == k;
                            assert(self.rows@[c].owner_id == k);
                        }
                        if k == owner_id {
                            assert(self.rows@[i as int].owner_id == k);
                        }
                    }
                    assert forall|k: u128| self@.contains_key(k) implies self@[k] == old(self)@.insert(
                        owner_id,
                        transaction_id,
                    )[k] by {
                        let c = choose|c: int|
                            0 <= c < self.rows@.len() && #[trigger] self.rows@[c].owner_id == k;
                        if k != owner_id {
                            let d = choose|d: int| 0 <= d < before.len() && #[trigger] before[d].owner_id == k;
                            assert(before[c].owner_id == k);
                            assert(c == d);
                        } else {
                            assert(before[c].owner_id == k);
                            assert(c == i);
                        }
                    }
                    assert(self@ =~= old(self)@.insert(owner_id, transaction_id));
                }
            },
            None => {
                self.rows.push(row);
                proof {
                    assert(self.rows@ == before.push(row));
                    assert forall|k: u128| self@.contains_key(k) <==> old(self)@.insert(
                        owner_id,
                        transaction_id,
                    ).contains_key(k) by {
                        if self@.contains_key(k) {
                            let c = choose|c: int|
                                0 <= c < self.rows@.len() && #[trigger] self.rows@[c].owner_id == k;
                            if c < before.len() {
                                assert(before[c].owner_id == k);
                            }
                        }
                        if old(self)@.contains_key(k) {
                            let c = choose|c: int| 0 <= c < before.len() && #[trigger] before[c].owner_id == k;
                            assert(self.rows@[c].owner_id == k);
                        }
                        if k == owner_id {
                            assert(self.rows@[before.len() as int].owner_id == k);
                        }
                    }
                    assert forall|k: u128| self@.contains_key(k) implies self@[k] == old(self)@.insert(
                        owner_id,
                        transaction_id,
                    )[k] by {
                        let c = choose|c: int|
                            0 <= c < self.rows@.len() && #[trigger] self.rows@[c].owner_id == k;
                        if k != owner_id {
                            let d = choose|d: int| 0 <= d < before.len() && #[trigger] before[d].owner_id == k;
                            assert(self.rows@[d].owner_id == k);
                            assert(c == d);
                        } else {
                            assert(c == before.len());
                        }
                    }
                    assert(self@ =~= old(self)@.insert(owner_id, transaction_id));
                }
            },
        }
    }

    /// The rows, for whoever persists the table.
    pub fn rows(&self) -> (rows: &Vec<Watermark>)
        requires
            self.wf(),
        ensures
            forall|i: int|
                0 <= i < rows@.len() ==> self@.contains_key((#[trigger] rows@[i]).owner_id)
                    && self@[rows@[i].owner_id] == rows@[i].transaction_id,
            forall|owner: u128|
                self@.contains_key(owner) ==> exists|i: int|
                    0 <= i < rows@.len() && (#[trigger] rows@[i]).owner_id == owner,
    {
        proof {
            assert forall|i: int| 0 <= i < self.rows@.len() implies self@.contains_key(
                (#[trigger] self.rows@[i]).owner_id,
            ) && self@[self.rows@[i].owner_id] == self.rows@[i].transaction_id by {
                let owner = self.rows@[i].owner_id;
                let c = choose|c: int| 0 <= c < self.rows@.len() && #[trigger] self.rows@[c].owner_id == owner;
                assert(c == i);
            }
        }
        &self.rows
    }
}

/// The awaited blobs without the blob `blob_id`, whichever peer it was
/// awaited from.
pub open spec fn arrived(needed: Set<(u128, u128)>, blob_id: u128) -> Set<(u128, u128)> {
    needed.filter(|p: (u128, u128)| p.1 != blob_id)
}

/// The blobs that accepted transactions name and that have not arrived yet,
/// each with the peer that holds it.
pub struct NeededBlobs {
    rows: Vec<(u128, u128)>,
}

impl View for NeededBlobs {
    type V = Set<(u128, u128)>;

    closed spec fn view(&self) -> Set<(u128, u128)> {
        self.rows@.to_set()
    }
}

impl NeededBlobs {
    /// The table's invariant: no blob is awaited twice from one peer.
    pub closed spec fn wf(&self) -> bool {
        self.rows@.no_duplicates()
    }

    /// A table without rows.
    pub fn new() -> (table: NeededBlobs)
        ensures
            table.wf(),
            table@ == Set::<(u128, u128)>::empty(),
    {
        let table = NeededBlobs { rows: Vec::new() };
        assert(table@ =~= Set::<(u128, u128)>::empty());
        table
    }

    /// Whether the blob is awaited from the peer.
    pub fn contains(&self, owner_id: u128, blob_id: u128) -> (found: bool)
        ensures
            found == self@.contains((owner_id, blob_id)),
    {
        let mut i: usize = 0;
        while i < self.rows.len()
            invariant
                i <= self.rows.len(),
                forall|k: int| 0 <= k < i ==> self.rows@[k] != (owner_id, blob_id),
            decreases self.rows.len() - i,
        {
            if self.rows[i].0 == owner_id && self.rows[i].1 == blob_id {
                assert(self.rows@[i as int] == (owner_id, blob_id));
                return true;
            }
            i += 1;
        }
        false
    }

    /// Notes that the blob is awaited from the peer.
    pub fn insert(&mut self, owner_id: u128, blob_id: u128)
        requires
            old(self).wf(),
        ensures
            final(self).wf(),
            final(self)@ == old(self)@.insert((owner_id, blob_id)),
    {
        if !self.contains(owner_id, blob_id) {
            let ghost before = self.rows@;
            self.rows.push((owner_id, blob_id));
            proof {
                assert(self.rows@ == before.push((owner_id, blob_id)));
                assert forall|a: int, b: int|
                    0 <= a < self.rows@.len() && 0 <= b < self.rows@.len() && a != b implies self.rows@[a]
                    != self.rows@[b] by {
                    if a < before.len() && b < before.len() {
                        assert(before[a] != before[b]);
                    }
                }
                assert forall|p: (u128, u128)| self@.contains(p) <==> old(self)@.insert(
                    (owner_id, blob_id),
                ).contains(p) by {
                    if self@.contains(p) {
                        let k = choose|k: int| 0 <= k < self.rows@.len() && self.rows@[k] == p;
                        if k < before.len() {
                            assert(before[k] == p);
                        }
                    }
                    if before.contains(p) {
                        let k = choose|k: int| 0 <= k < before.len() && before[k] == p;
                        assert(self.rows@[k] == p);
                    }
                    if p == (owner_id, blob_id) {
                        assert(self.rows@[before.len() as int] == p);
                    }
                }
                assert(self@ =~= old(self)@.insert((owner_id, blob_id)));
            }
        } else {
            assert(self@ =~= old(self)@.insert((owner_id, blob_id)));
        }
    }

    /// Notes that the blob has arrived, from whichever peer.
    pub fn remove_blob(&mut self, blob_id: u128)
        requires
            old(self).wf(),
        ensures
            final(self).wf(),
            final(self)@ == arrived(old(self)@, blob_id),
    {
        let ghost before = self.rows@;
        let mut kept: Vec<(u128, u128)> = Vec::new();
        let mut i: usize = 0;
        while i < self.rows.len()
            invariant
                i <= self.rows.len(),
                self.rows@ == before,
                before.no_duplicates(),
                kept@.no_duplicates(),
                forall|p: (u128, u128)|
                    kept@.contains(p) <==> (exists|k: int| 0 <= k < i && before[k] == p) && p.1 != blob_id,
            decreases self.rows.len() - i,
        {
            let row = self.rows[i];
            let ghost kept_before = kept@;
            if row.1 != blob_id {
                kept.push(row);
            }
            proof {
                if row.1 != blob_id {
                    if kept_before.contains(row) {
                        let m = choose|m: int| 0 <= m < i && before[m] == row;
                        assert(before[m] == before[i as int]);
                    }
                    assert forall|a: int, b: int|
                        0 <= a < kept@.len() && 0 <= b < kept@.len() && a != b implies kept@[a]
                        != kept@[b] by {
                        if a < kept_before.len() && b < kept_before.len() {
                            assert(kept_before[a] != kept_before[b]);
                        } else if a < kept_before.len() {
                            assert(kept_before.contains(kept_before[a]));
                        } else {
                            assert(kept_before.contains(kept_before[b]));
                        }
                    }
                }
                assert forall|p: (u128, u128)|
                    kept@.contains(p) <==> (exists|k: int| 0 <= k < i + 1 && before[k] == p) && p.1
                        != blob_id by {
                    if kept@.contains(p) {
                        let k = choose|k: int| 0 <= k < kept@.len() && kept@[k] == p;
                        if k < kept_before.len() {
                            assert(kept_before[k] == p);
                            assert(kept_before.contains(p));
                            let m = choose|m: int| 0 <= m < i && before[m] == p;
                            assert(0 <= m < i + 1 && before[m] == p);
                        } else {
                            assert(before[i as int] == p);
                        }
                    }
                    if (exists|k: int| 0 <= k < i + 1 && before[k] == p) && p.1 != blob_id {
                        let m = choose|m: int| 0 <= m < i + 1 && before[m] == p;
                        if m < i {
                            assert(kept_before.contains(p));
                            let k = choose|k: int| 0 <= k < kept_before.len() && kept_before[k] == p;
                            assert(kept@[k] == p);
                        } else {
                            assert(kept@[kept@.len() - 1] == p);
                        }
                    }
                }
            }
            i += 1;
        }
        self.rows = kept;
        proof {
            assert forall|p: (u128, u128)| self@.contains(p) <==> arrived(old(self)@, blob_id).contains(
                p,
            ) by {
                if before.contains(p) {
                    let k = choose|k: int| 0 <= k < before.len() && before[k] == p;
                }
            }
            assert(self@ =~= arrived(old(self)@, blob_id));
        }
    }

    /// The blobs awaited from the peer, each once.
    pub fn of(&self, owner_id: u128) -> (blob_ids: Vec<u128>)
        requires
            self.wf(),
        ensures
            forall|blob_id: u128| blob_ids@.contains(blob_id) <==> self@.contains((owner_id, blob_id)),
            blob_ids@.no_duplicates(),
    {
        let mut blob_ids: Vec<u128> = Vec::new();
        let mut i: usize = 0;
        while i < self.rows.len()
            invariant
                i <= self.rows.len(),
                self.wf(),
                blob_ids@.no_duplicates(),
                forall|blob_id: u128|
                    blob_ids@.contains(blob_id) <==> exists|k: int|
                        0 <= k < i && self.rows@[k] == (owner_id, blob_id),
            decreases self.rows.len() - i,
        {
            let row = self.rows[i];
            let ghost out_before = blob_ids@;
            if row.0 == owner_id {
                blob_ids.push(row.1);
            }
            proof {
                if row.0 == owner_id {
                    if out_before.contains(row.1) {
                        let m = choose|m: int| 0 <= m < i && self.rows@[m] == (owner_id, row.1);
                        assert(self.rows@[m] == self.rows@[i as int]);
                    }
                    assert forall|a: int, b: int|
                        0 <= a < blob_ids@.len() && 0 <= b < blob_ids@.len() && a != b implies blob_ids@[a]
                        != blob_ids@[b] by {
                        if a < out_before.len() && b < out_before.len() {
                            assert(out_before[a] != out_before[b]);
                        } else if a < out_before.len() {
                            assert(out_before.contains(out_before[a]));
                        } else {
                            assert(out_before.contains(out_before[b]));
                        }
                    }
                }
                assert forall|blob_id: u128|
                    blob_ids@.contains(blob_id) <==> exists|k: int|
                        0 <= k < i + 1 && self.rows@[k] == (owner_id, blob_id) by {
                    if blob_ids@.contains(blob_id) {
                        let k = choose|k: int| 0 <= k < blob_ids@.len() && blob_ids@[k] == blob_id;
                        if k < out_before.len() {
                            assert(out_before[k] == blob_id);
                            assert(out_before.contains(blob_id));
                            let m = choose|m: int| 0 <= m < i && self.rows@[m] == (owner_id, blob_id);
                            assert(0 <= m < i + 1 && self.rows@[m] == (owner_id, blob_id));
                        } else {
                            assert(self.rows@[i as int] == (owner_id, blob_id));
                        }
                    }
                    if exists|k: int| 0 <= k < i + 1 && self.rows@[k] == (owner_id, blob_id) {
                        let m = choose|m: int| 0 <= m < i + 1 && self.rows@[m] == (owner_id, blob_id);
                        if m < i {
                            assert(out_before.contains(blob_id));
                            let k = choose|k: int| 0 <= k < out_before.len() && out_before[k] == blob_id;
                            assert(blob_ids@[k] == blob_id);
                        } else {
                            assert(blob_ids@[blob_ids@.len() - 1] == blob_id);
                        }
                    }
                }
            }
            i += 1;
        }
        proof {
            assert forall|blob_id: u128| blob_ids@.contains(blob_id) <==> self@.contains(
                (owner_id, blob_id),
            ) by {
                if self@.contains((owner_id, blob_id)) {
                    let k = choose|k: int|
                        0 <= k < self.rows@.len() && self.rows@[k] == (owner_id, blob_id);
                }
            }
        }
        blob_ids
    }
}

} // verus!
