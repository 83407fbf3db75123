use vstd::prelude::*;
use crate::datatypes::{FormSummary, SummaryView};
use crate::error::Error;
use crate::ids::{digest_hex, format_uuid, fresh_id, hyphenated, sha256_hex};

verus! {

/// A blob as a mathematical value: its bytes, and the summary of the form
/// they hold where they hold one.
pub struct BlobView {
    pub data: Seq<u8>,
    pub summary: Option<SummaryView>,
}

/// An immutable payload under the identifier it was stored with.
pub struct Blob {
    id: u128,
    data: Vec<u8>,
    summary: Option<FormSummary>,
}

impl View for Blob {
    type V = BlobView;

    closed spec fn view(&self) -> BlobView {
        BlobView {
            data: self.data@,
            summary: match self.summary {
                Some(s) => Some(s@),
                None => None,
            },
        }
    }
}

/// The name of the file that holds the blob `id`: the SHA-256 digest of the
/// identifier's printable form.
pub open spec fn file_name_of(id: u128) -> Seq<char> {
    sha256_hex(hyphenated(id))
}

/// The name of the file that holds the blob `id`.
pub fn file_name(id: u128) -> (name: String)
    ensures
        name@ == file_name_of(id),
{
    let text = format_uuid(id);
    digest_hex(text.as_str())
}

/// The write-once store of payloads, each under its own identifier.
pub struct BlobStore {
    blobs: Vec<Blob>,
}

impl View for BlobStore {
    type V = Map<u128, BlobView>;

    closed spec fn view(&self) -> Map<u128, BlobView> {
        Map::new(
            |id: u128| exists|i: int| 0 <= i < self.blobs@.len() && #[trigger] self.blobs@[i].id == id,
            |id: u128|
                self.blobs@[choose|i: int| 0 <= i < self.blobs@.len() && #[trigger] self.blobs@[i].id == id]@,
        )
    }
}

impl BlobStore {
    /// The store's invariant: no identifier stands for two blobs.
    pub closed spec fn wf(&self) -> bool {
        forall|i: int, j: int|
            0 <= i < j < self.blobs@.len() ==> (#[trigger] self.blobs@[i]).id != (
            #[trigger] self.blobs@[j]).id
    }

    /// A store without blobs.
    pub fn new() -> (store: BlobStore)
        ensures
            store.wf(),
            store@ == Map::<u128, BlobView>::empty(),
    {
        let store = BlobStore { blobs: Vec::new() };
        assert(store@ =~= Map::<u128, BlobView>::empty());
        store
    }

    /// The position of the blob `id`.
    fn find(&self, id: u128) -> (res: Option<usize>)
        requires
            self.wf(),
        ensures
            match res {
                Some(i) => i < self.blobs@.len() && self.blobs@[i as int].id == id && self@.contains_key(
                    id,
                ) && self@[id] == self.blobs@[i as int]@,
                None => !self@.contains_key(id),
            },
    {
        let mut i: usize = 0;
        while i < self.blobs.len()
            invariant
                self.wf(),
                i <= self.blobs.len(),
                forall|k: int| 0 <= k < i ==> (#[trigger] self.blobs@[k]).id != id,
            decreases self.blobs.len() - i,
        {
            if self.blobs[i].id == id {
                proof {
                    let c = choose|c: int| 0 <= c < self.blobs@.len() && #[trigger] self.blobs@[c].id == id;
                    assert(c == i);
                }
                return Some(i);
            }
            i += 1;
        }
        None
    }

    /// Whether the store holds the blob `id`.
    pub fn contains(&self, id: u128) -> (found: bool)
        requires
            self.wf(),
        ensures
            found == self@.contains_key(id),
    {
        self.find(id).is_some()
    }

    /// The bytes of the blob `id`: `NotFound` when the store does not hold it.
    pub fn get(&self, id: u128) -> (res: Result<&Vec<u8>, Error>)
        requires
            self.wf(),
        ensures
            match res {
                Ok(data) => self@.contains_key(id) && data@ == self@[id].data,
                Err(e) => e == Error::NotFound && !self@.contains_key(id),
            },
    {
        match self.find(id) {
            Some(i) => Ok(&self.blobs[i].data),
            None => Err(Error::NotFound),
        }
    }

    /// The summary of the form that the blob `id` holds, where the store
    /// holds the blob and knows it for a form.
    pub fn summary(&self, id: u128) -> (res: Option<&FormSummary>)
        requires
            self.wf(),
        ensures
            match res {
                Some(s) => self@.contains_key(id) && self@[id].summary == Some(s@),
                None => !self@.contains_key(id) || self@[id].summary is None,
            },
    {
        match self.find(id) {
            Some(i) => self.blobs[i].summary.as_ref(),
            None => None,
        }
    }

    /// Stores `data` under the identifier `id`. A blob is written once: where
    /// the store holds a blob under `id` already, it refuses with `Storage`
    /// and keeps what it has.
    pub fn put_at(&mut self, id: u128, data: Vec<u8>, summary: Option<FormSummary>) -> (res: Result<
        (),
        Error,
    >)
        requires
            old(self).wf(),
        ensures
            final(self).wf(),
            match res {
                Ok(_) => !old(self)@.contains_key(id) && final(self)@ == old(self)@.insert(
                    id,
                    BlobView {
                        data: data@,
                        summary: match summary {
                            Some(s) => Some(s@),
                            None => None,
                        },
                    },
                ),
                Err(e) => e == Error::Storage && old(self)@.contains_key(id) && final(self)@ == old(
                    self,
                )@,
            },
    {
        if self.find(id).is_some() {
            return Err(Error::Storage);
        }
        let blob = Blob { id, data, summary };
        let ghost added = blob;
        let ghost before = self.blobs@;
        self.blobs.push(blob);
        proof {
            assert(self.blobs@ == before.push(added));
            assert(self.wf());
            assert forall|k: u128| self@.contains_key(k) <==> old(self)@.insert(id, added@).contains_key(
                k,
            ) by {
                if self@.contains_key(k) {
                    let i = choose|i: int| 0 <= i < self.blobs@.len() && #[trigger] self.blobs@[i].id == k;
                    if i < before.len() {
                        assert(before[i].id == k);
                    }
                }
                if old(self)@.contains_key(k) {
                    let i = choose|i: int| 0 <= i < before.len() && #[trigger] before[i].id == k;
                    assert(self.blobs@[i].id == k);
                }
                if k == id {
                    assert(self.blobs@[before.len() as int].id == k);
                }
            }
            assert forall|k: u128| self@.contains_key(k) implies self@[k] == old(self)@.insert(
                id,
                added@,
            )[k] by {
                let i = choose|i: int| 0 <= i < self.blobs@.len() && #[trigger] self.blobs@[i].id == k;
                if k != id {
                    let j = choose|j: int| 0 <= j < before.len() && #[trigger] before[j].id == k;
                    assert(self.blobs@[j].id == k);
                    assert(i == j);
                } else {
                    assert(i == before.len());
                }
            }
            assert(self@ =~= old(self)@.insert(id, added@));
        }
        Ok(())
    }

    /// Stores `data` under a fresh random identifier and returns the
    /// identifier; `Storage` in the event that the identifier drawn is taken,
    /// which cannot be while the store holds no blob.
    pub fn put(&mut self, data: Vec<u8>, summary: Option<FormSummary>) -> (res: Result<u128, Error>)
        requires
            old(self).wf(),
        ensures
            final(self).wf(),
            match res {
                Ok(id) => !old(self)@.contains_key(id) && final(self)@ == old(self)@.insert(
                    id,
                    BlobView {
                        data: data@,
                        summary: match summary {
                            Some(s) => Some(s@),
                            None => None,
                        },
                    },
                ),
                Err(e) => e == Error::Storage && final(self)@ == old(self)@ && exists|id: u128|
                    #[trigger] old(self)@.contains_key(id),
            },
    {
        let id = fresh_id();
        match self.put_at(id, data, summary) {
            Ok(_) => Ok(id),
            Err(e) => Err(e),
        }
    }

    /// The number of blobs.
    pub fn len(&self) -> (n: usize)
        requires
            self.wf(),
        ensures
            n == self@.dom().len(),
            self@.dom().finite(),
    {
        proof {
            self.lemma_domain();
        }
        self.blobs.len()
    }

    /// The store holds as many blobs as its table has entries.
    proof fn lemma_domain(&self)
        requires
            self.wf(),
        ensures
            self@.dom().finite(),
            self@.dom().len() == self.blobs@.len(),
    {
        let ids = self.blobs@.map_values(|b: Blob| b.id);
        assert(ids.no_duplicates());
        assert forall|id: u128| ids.to_set().contains(id) <==> self@.dom().contains(id) by {
            if ids.to_set().contains(id) {
                let i = choose|i: int| 0 <= i < ids.len() && ids[i] == id;
                assert(self.blobs@[i].id == id);
            }
            if self@.dom().contains(id) {
                let i = choose|i: int| 0 <= i < self.blobs@.len() && #[trigger] self.blobs@[i].id == id;
                assert(ids[i] == id);
            }
        }
        assert(ids.to_set() =~= self@.dom());
        ids.unique_seq_to_set();
    }
}

} // verus!
