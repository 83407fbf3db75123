use vstd::prelude::*;
use crate::blob_store::{BlobStore, BlobView};
use crate::datatypes::{DBForm, Filter, FilterView, FormSummary, SummaryView};
use crate::log::{latest, references, TransactionLog};
use crate::transactions::{DataType, Transaction, TransactionView};

verus! {

/// An entry of the forms index as a mathematical value: a live form, the blob
/// of its current version, and that version's summary.
pub struct EntryView {
    pub form: Seq<char>,
    pub blob_id: u128,
    pub summary: SummaryView,
}

impl EntryView {
    /// The entry's row: the blob and the attributes the form is found by.
    pub open spec fn row(self) -> crate::datatypes::RowView {
        self.summary.row(self.blob_id)
    }
}

/// An entry of the forms index.
pub struct IndexEntry {
    pub form: String,
    pub blob_id: u128,
    pub summary: FormSummary,
}

impl View for IndexEntry {
    type V = EntryView;

    open spec fn view(&self) -> EntryView {
        EntryView { form: self.form@, blob_id: self.blob_id, summary: self.summary@ }
    }
}

/// No form has two entries.
pub open spec fn distinct_forms(index: Seq<EntryView>) -> bool {
    forall|i: int, j: int| 0 <= i < j < index.len() ==> index[i].form != index[j].form
}

/// Whether the index holds an entry for `form`.
pub open spec fn indexes(index: Seq<EntryView>, form: Seq<char>) -> bool {
    exists|i: int| 0 <= i < index.len() && #[trigger] index[i].form == form
}

/// The index without the entries for `form`.
pub open spec fn without(index: Seq<EntryView>, form: Seq<char>) -> Seq<EntryView>
    decreases index.len(),
{
    if index.len() == 0 {
        index
    } else if index.last().form == form {
        without(index.drop_last(), form)
    } else {
        without(index.drop_last(), form).push(index.last())
    }
}

/// The index without the entries for the blob `blob_id`.
pub open spec fn without_blob(index: Seq<EntryView>, blob_id: u128) -> Seq<EntryView>
    decreases index.len(),
{
    if index.len() == 0 {
        index
    } else if index.last().blob_id == blob_id {
        without_blob(index.drop_last(), blob_id)
    } else {
        without_blob(index.drop_last(), blob_id).push(index.last())
    }
}

/// Removing a blob's entries leaves no form with two entries.
pub proof fn lemma_without_blob(index: Seq<EntryView>, blob_id: u128)
    requires
        distinct_forms(index),
    ensures
        distinct_forms(without_blob(index, blob_id)),
        forall|e: EntryView| #[trigger]
            without_blob(index, blob_id).contains(e) <==> index.contains(e) && e.blob_id != blob_id,
    decreases index.len(),
{
    let out = without_blob(index, blob_id);
    if index.len() > 0 {
        let rest = index.drop_last();
        let last = index.last();
        assert forall|i: int, j: int| 0 <= i < j < rest.len() implies rest[i].form != rest[j].form by {
            assert(rest[i] == index[i] && rest[j] == index[j]);
        }
        lemma_without_blob(rest, blob_id);
        let out_rest = without_blob(rest, blob_id);
        assert forall|e: EntryView| #[trigger]
            out.contains(e) <==> index.contains(e) && e.blob_id != blob_id by {
            if out.contains(e) {
                let k = choose|k: int| 0 <= k < out.len() && out[k] == e;
                if k < out_rest.len() {
                    assert(out_rest[k] == e);
                    assert(out_rest.contains(e));
                    assert(rest.contains(e));
                    let m = choose|m: int| 0 <= m < rest.len() && rest[m] == e;
                    assert(index[m] == e);
                } else {
                    assert(index[index.len() - 1] == e);
                }
            }
            if index.contains(e) && e.blob_id != blob_id {
                let m = choose|m: int| 0 <= m < index.len() && index[m] == e;
                if m < rest.len() {
                    assert(rest[m] == e);
                    assert(rest.contains(e));
                    assert(out_rest.contains(e));
                    let k = choose|k: int| 0 <= k < out_rest.len() && out_rest[k] == e;
                    assert(out[k] == e);
                } else {
                    assert(out[out.len() - 1] == e);
                }
            }
        }
        if last.blob_id != blob_id {
            assert forall|i: int, j: int| 0 <= i < j < out.len() implies out[i].form != out[j].form by {
                if j == out_rest.len() {
                    assert(out_rest.contains(out_rest[i]));
                    assert(rest.contains(out_rest[i]));
                    let m = choose|m: int| 0 <= m < rest.len() && rest[m] == out_rest[i];
                    assert(index[m].form != index[index.len() - 1].form);
                }
            }
        }
    } else {
        assert forall|e: EntryView| #[trigger] out.contains(e) implies false by {
            let k = choose|k: int| 0 <= k < out.len() && out[k] == e;
        }
    }
}

/// Whether a transaction leaves its form indexed: it is a form's add or edit,
/// and the store holds its blob and knows the blob for a form.
pub open spec fn indexable(t: TransactionView, blobs: Map<u128, BlobView>) -> bool {
    &&& t.data_type == DataType::Form
    &&& t.action.is_live()
    &&& blobs.contains_key(t.blob_id)
    &&& blobs[t.blob_id].summary is Some
}

/// The entry that an indexable transaction leaves.
pub open spec fn entry_of(t: TransactionView, blobs: Map<u128, BlobView>) -> EntryView {
    EntryView { form: t.alt_key, blob_id: t.blob_id, summary: blobs[t.blob_id].summary.unwrap() }
}

/// The index after one more transaction. A form's transaction removes the
/// entry of the form's earlier version, and an add or an edit whose blob is a
/// known form then inserts the entry of the new version. Transactions of
/// other kinds leave the index as it is.
pub open spec fn reindexed(index: Seq<EntryView>, t: TransactionView, blobs: Map<u128, BlobView>) -> Seq<
    EntryView,
> {
    if t.data_type != DataType::Form {
        index
    } else if indexable(t, blobs) {
        without(index, t.alt_key).push(entry_of(t, blobs))
    } else {
        without(index, t.alt_key)
    }
}

/// The index that replaying a log over a blob store builds, from nothing.
pub open spec fn replay(log: Seq<TransactionView>, blobs: Map<u128, BlobView>) -> Seq<EntryView>
    decreases log.len(),
{
    if log.len() == 0 {
        Seq::empty()
    } else {
        reindexed(replay(log.drop_last(), blobs), log.last(), blobs)
    }
}

/// The blobs of the entries filed under `template` that pass `filter`, in the
/// order of the entries.
pub open spec fn hits(index: Seq<EntryView>, template: Seq<char>, filter: FilterView) -> Seq<u128>
    decreases index.len(),
{
    if index.len() == 0 {
        Seq::empty()
    } else if index.last().summary.passes(template, filter) {
        hits(index.drop_last(), template, filter).push(index.last().blob_id)
    } else {
        hits(index.drop_last(), template, filter)
    }
}

/// The forms filed under `template`, in the order of the entries.
pub open spec fn listed(index: Seq<EntryView>, template: Seq<char>) -> Seq<Seq<char>>
    decreases index.len(),
{
    if index.len() == 0 {
        Seq::empty()
    } else if index.last().summary.template == template {
        listed(index.drop_last(), template).push(index.last().form)
    } else {
        listed(index.drop_last(), template)
    }
}

/// What removing a form's entries leaves: the other entries, each as it was
/// and in the same order, and none for the form.
pub proof fn lemma_without(index: Seq<EntryView>, form: Seq<char>)
    ensures
        !indexes(without(index, form), form),
        without(index, form).len() <= index.len(),
        forall|e: EntryView| #[trigger]
            without(index, form).contains(e) <==> index.contains(e) && e.form != form,
        distinct_forms(index) ==> distinct_forms(without(index, form)),
        !indexes(index, form) ==> without(index, form) == index,
    decreases index.len(),
{
    let out = without(index, form);
    if index.len() == 0 {
    } else {
        let rest = index.drop_last();
        let last = index.last();
        lemma_without(rest, form);
        let out_rest = without(rest, form);
        assert forall|e: EntryView| #[trigger] out.contains(e) <==> index.contains(e) && e.form != form by {
            if out.contains(e) {
                let k = choose|k: int| 0 <= k < out.len() && out[k] == e;
                if k < out_rest.len() {
                    assert(out_rest[k] == e);
                    assert(out_rest.contains(e));
                    assert(rest.contains(e));
                    let m = choose|m: int| 0 <= m < rest.len() && rest[m] == e;
                    assert(index[m] == e);
                } else {
                    assert(e == last);
                    assert(index[index.len() - 1] == e);
                }
            }
            if index.contains(e) && e.form != form {
                let m = choose|m: int| 0 <= m < index.len() && index[m] == e;
                if m < rest.len() {
                    assert(rest[m] == e);
                    assert(rest.contains(e));
                    assert(out_rest.contains(e));
                    let k = choose|k: int| 0 <= k < out_rest.len() && out_rest[k] == e;
                    assert(out[k] == e);
                } else {
                    assert(out[out.len() - 1] == e);
                }
            }
        }
        assert(!indexes(out, form)) by {
            if indexes(out, form) {
                let k = choose|k: int| 0 <= k < out.len() && #[trigger] out[k].form == form;
                assert(out.contains(out[k]));
            }
        }
        if distinct_forms(index) {
            assert forall|i: int, j: int| 0 <= i < j < rest.len() implies rest[i].form != rest[j].form by {
                assert(rest[i] == index[i] && rest[j] == index[j]);
            }
            if last.form != form {
                assert forall|i: int, j: int| 0 <= i < j < out.len() implies out[i].form != out[j].form by {
                    if j == out_rest.len() {
                        assert(out_rest.contains(out_rest[i]));
                        assert(rest.contains(out_rest[i]));
                        let m = choose|m: int| 0 <= m < rest.len() && rest[m] == out_rest[i];
                        assert(index[m].form != index[index.len() - 1].form);
                    }
                }
            }
        }
        if !indexes(index, form) {
            assert(index[index.len() - 1].form != form);
            assert(!indexes(rest, form)) by {
                if indexes(rest, form) {
                    let k = choose|k: int| 0 <= k < rest.len() && #[trigger] rest[k].form == form;
                    assert(index[k].form == form);
                }
            }
            assert(out =~= index);
        }
    }
}

/// Where the form's one entry stands at `i`, removing the form's entries
/// removes the entry at `i`.
pub proof fn lemma_without_is_remove(index: Seq<EntryView>, i: int)
    requires
        distinct_forms(index),
        0 <= i < index.len(),
    ensures
        without(index, index[i].form) == index.remove(i),
    decreases index.len(),
{
    let form = index[i].form;
    let rest = index.drop_last();
    if i == index.len() - 1 {
        assert(!indexes(rest, form)) by {
            if indexes(rest, form) {
                let k = choose|k: int| 0 <= k < rest.len() && #[trigger] rest[k].form == form;
                assert(index[k].form == form);
            }
        }
        lemma_without(rest, form);
        assert(index.remove(i) =~= rest);
    } else {
        assert(index[i].form != index[index.len() - 1].form);
        assert forall|a: int, b: int| 0 <= a < b < rest.len() implies rest[a].form != rest[b].form by {
            assert(rest[a] == index[a] && rest[b] == index[b]);
        }
        assert(rest[i] == index[i]);
        lemma_without_is_remove(rest, i);
        assert(index.remove(i) =~= rest.remove(i).push(index.last()));
    }
}

/// What a replayed index holds: one entry for each form whose most recent
/// transaction leaves it indexed, made from that transaction, and no other.
pub proof fn lemma_replay(log: Seq<TransactionView>, blobs: Map<u128, BlobView>)
    ensures
        distinct_forms(replay(log, blobs)),
        forall|e: EntryView| #[trigger]
            replay(log, blobs).contains(e) <==> (latest(log, DataType::Form, e.form) matches Some(t)
                && indexable(t, blobs) && e == entry_of(t, blobs)),
    decreases log.len(),
{
    let index = replay(log, blobs);
    if log.len() == 0 {
        assert forall|e: EntryView| #[trigger]
            index.contains(e) <==> (latest(log, DataType::Form, e.form) matches Some(t) && indexable(
                t,
                blobs,
            ) && e == entry_of(t, blobs)) by {
            if index.contains(e) {
                let k = choose|k: int| 0 <= k < index.len() && index[k] == e;
            }
        }
    } else {
        let rest = log.drop_last();
        let t = log.last();
        let before = replay(rest, blobs);
        lemma_replay(rest, blobs);
        if t.data_type != DataType::Form {
            assert forall|e: EntryView| #[trigger]
                index.contains(e) <==> (latest(log, DataType::Form, e.form) matches Some(u)
                    && indexable(u, blobs) && e == entry_of(u, blobs)) by {
                assert(latest(log, DataType::Form, e.form) == latest(rest, DataType::Form, e.form));
            }
        } else {
            let kept = without(before, t.alt_key);
            lemma_without(before, t.alt_key);
            assert forall|e: EntryView| #[trigger]
                index.contains(e) <==> (latest(log, DataType::Form, e.form) matches Some(u)
                    && indexable(u, blobs) && e == entry_of(u, blobs)) by {
                if e.form != t.alt_key {
                    assert(latest(log, DataType::Form, e.form) == latest(rest, DataType::Form, e.form));
                    if index.contains(e) {
                        let k = choose|k: int| 0 <= k < index.len() && index[k] == e;
                        if k < kept.len() {
                            assert(kept[k] == e);
                        }
                        assert(kept.contains(e));
                    }
                    if before.contains(e) {
                        assert(kept.contains(e));
                        let k = choose|k: int| 0 <= k < kept.len() && kept[k] == e;
                        assert(index[k] == e);
                    }
                } else {
                    assert(latest(log, DataType::Form, e.form) == Some(t));
                    if index.contains(e) {
                        let k = choose|k: int| 0 <= k < index.len() && index[k] == e;
                        if k < kept.len() {
                            assert(kept[k].form == t.alt_key);
                            assert(indexes(kept, t.alt_key));
                        }
                    }
                    if indexable(t, blobs) && e == entry_of(t, blobs) {
                        assert(index[index.len() - 1] == e);
                    }
                }
            }
            if indexable(t, blobs) {
                assert forall|i: int, j: int| 0 <= i < j < index.len() implies index[i].form
                    != index[j].form by {
                    if j == kept.len() {
                        assert(kept[i].form != t.alt_key) by {
                            if kept[i].form == t.alt_key {
                                assert(indexes(kept, t.alt_key));
                            }
                        }
                    } else {
                        assert(kept[i].form != kept[j].form);
                    }
                }
            }
        }
    }
}

/// A blob that no form's transaction names does not show in the index.
pub proof fn lemma_replay_ignores(
    log: Seq<TransactionView>,
    blobs: Map<u128, BlobView>,
    blob_id: u128,
    blob: BlobView,
)
    requires
        !references(log, blob_id),
    ensures
        replay(log, blobs.insert(blob_id, blob)) == replay(log, blobs),
    decreases log.len(),
{
    if log.len() > 0 {
        let rest = log.drop_last();
        let t = log.last();
        assert(!references(rest, blob_id)) by {
            if references(rest, blob_id) {
                let i = choose|i: int|
                    0 <= i < rest.len() && (#[trigger] rest[i]).data_type == DataType::Form
                        && rest[i].blob_id == blob_id;
                assert(log[i] == rest[i]);
            }
        }
        lemma_replay_ignores(rest, blobs, blob_id, blob);
        if t.data_type == DataType::Form {
            assert(log[log.len() - 1] == t);
            assert(t.blob_id != blob_id);
        }
    }
}

/// The blobs that a search returns are those of the entries that pass it.
pub proof fn lemma_hits(index: Seq<EntryView>, template: Seq<char>, filter: FilterView)
    ensures
        forall|blob_id: u128| #[trigger]
            hits(index, template, filter).contains(blob_id) <==> exists|i: int|
                0 <= i < index.len() && (#[trigger] index[i]).blob_id == blob_id
                    && index[i].summary.passes(template, filter),
        hits(index, template, filter).len() <= index.len(),
    decreases index.len(),
{
    let out = hits(index, template, filter);
    if index.len() > 0 {
        let rest = index.drop_last();
        let last = index.last();
        let out_rest = hits(rest, template, filter);
        lemma_hits(rest, template, filter);
        assert forall|blob_id: u128| #[trigger]
            out.contains(blob_id) <==> exists|i: int|
                0 <= i < index.len() && (#[trigger] index[i]).blob_id == blob_id
                    && index[i].summary.passes(template, filter) by {
            if out.contains(blob_id) {
                let k = choose|k: int| 0 <= k < out.len() && out[k] == blob_id;
                if k < out_rest.len() {
                    assert(out_rest[k] == blob_id);
                    assert(out_rest.contains(blob_id));
                    let i = choose|i: int|
                        0 <= i < rest.len() && (#[trigger] rest[i]).blob_id == blob_id
                            && rest[i].summary.passes(template, filter);
                    assert(index[i] == rest[i]);
                } else {
                    assert(index[index.len() - 1] == last);
                }
            }
            if exists|i: int|
                0 <= i < index.len() && (#[trigger] index[i]).blob_id == blob_id
                    && index[i].summary.passes(template, filter) {
                let i = choose|i: int|
                    0 <= i < index.len() && (#[trigger] index[i]).blob_id == blob_id
                        && index[i].summary.passes(template, filter);
                if i < rest.len() {
                    assert(rest[i] == index[i]);
                    assert(out_rest.contains(blob_id));
                    let k = choose|k: int| 0 <= k < out_rest.len() && out_rest[k] == blob_id;
                    assert(out[k] == blob_id);
                } else {
                    assert(out[out.len() - 1] == blob_id);
                }
            }
        }
    } else {
        assert forall|blob_id: u128| #[trigger] out.contains(blob_id) implies false by {
            let k = choose|k: int| 0 <= k < out.len() && out[k] == blob_id;
        }
    }
}

/// The forms that a listing holds are those with an entry filed under the
/// template, each once.
pub proof fn lemma_listed(index: Seq<EntryView>, template: Seq<char>)
    requires
        distinct_forms(index),
    ensures
        forall|form: Seq<char>| #[trigger]
            listed(index, template).contains(form) <==> exists|i: int|
                0 <= i < index.len() && (#[trigger] index[i]).form == form && index[i].summary.template
                    == template,
        listed(index, template).no_duplicates(),
    decreases index.len(),
{
    let out = listed(index, template);
    if index.len() > 0 {
        let rest = index.drop_last();
        let last = index.last();
        let out_rest = listed(rest, template);
        assert forall|i: int, j: int| 0 <= i < j < rest.len() implies rest[i].form != rest[j].form by {
            assert(rest[i] == index[i] && rest[j] == index[j]);
        }
        lemma_listed(rest, template);
        assert forall|form: Seq<char>| #[trigger]
            out.contains(form) <==> exists|i: int|
                0 <= i < index.len() && (#[trigger] index[i]).form == form && index[i].summary.template
                    == template by {
            if out.contains(form) {
                let k = choose|k: int| 0 <= k < out.len() && out[k] == form;
                if k < out_rest.len() {
                    assert(out_rest[k] == form);
                    assert(out_rest.contains(form));
                    let i = choose|i: int|
                        0 <= i < rest.len() && (#[trigger] rest[i]).form == form
                            && rest[i].summary.template == template;
                    assert(index[i] == rest[i]);
                } else {
                    assert(index[index.len() - 1] == last);
                }
            }
            if exists|i: int|
                0 <= i < index.len() && (#[trigger] index[i]).form == form && index[i].summary.template
                    == template {
                let i = choose|i: int|
                    0 <= i < index.len() && (#[trigger] index[i]).form == form
                        && index[i].summary.template == template;
                if i < rest.len() {
                    assert(rest[i] == index[i]);
                    assert(out_rest.contains(form));
                    let k = choose|k: int| 0 <= k < out_rest.len() && out_rest[k] == form;
                    assert(out[k] == form);
                } else {
                    assert(out[out.len() - 1] == form);
                }
            }
        }
        if out.len() > out_rest.len() {
            if out_rest.contains(last.form) {
                let i = choose|i: int|
                    0 <= i < rest.len() && (#[trigger] rest[i]).form == last.form
                        && rest[i].summary.template == template;
                assert(index[i].form != index[index.len() - 1].form);
            }
            assert forall|a: int, b: int| 0 <= a < out.len() && 0 <= b < out.len() && a != b implies out[a]
                != out[b] by {
                if a < out_rest.len() && b < out_rest.len() {
                    assert(out_rest[a] != out_rest[b]);
                } else if a < out_rest.len() {
                    assert(out_rest.contains(out_rest[a]));
                } else {
                    assert(out_rest.contains(out_rest[b]));
                }
            }
        }
    } else {
        assert forall|form: Seq<char>| #[trigger] out.contains(form) implies false by {
            let k = choose|k: int| 0 <= k < out.len() && out[k] == form;
        }
    }
}

/// The forms index: for each live form, the blob of its current version and
/// the attributes it is found by.
pub struct FormsIndex {
    entries: Vec<IndexEntry>,
}

impl View for FormsIndex {
    type V = Seq<EntryView>;

    closed spec fn view(&self) -> Seq<EntryView> {
        Seq::new(self.entries@.len(), |i: int| self.entries@[i]@)
    }
}

impl FormsIndex {
    /// The index's invariant: no form has two entries.
    pub open spec fn wf(&self) -> bool {
        distinct_forms(self@)
    }

    /// An index without entries.
    pub fn new() -> (index: FormsIndex)
        ensures
            index.wf(),
            index@ == Seq::<EntryView>::empty(),
    {
        let index = FormsIndex { entries: Vec::new() };
        assert(index@ =~= Seq::<EntryView>::empty());
        index
    }

    /// The number of entries.
    pub fn len(&self) -> (n: usize)
        ensures
            n == self@.len(),
    {
        self.entries.len()
    }

    /// The entry at a position.
    pub fn entry(&self, i: usize) -> (entry: &IndexEntry)
        requires
            i < self@.len(),
        ensures
            entry@ == self@[i as int],
    {
        &self.entries[i]
    }

    /// The row at a position: what the forms table holds for the entry.
    pub fn row(&self, i: usize) -> (row: DBForm)
        requires
            i < self@.len(),
        ensures
            row@ == self@[i as int].row(),
    {
        let e = &self.entries[i];
        DBForm {
            blob_id: e.blob_id,
            team: e.summary.team,
            match_number: e.summary.match_number,
            event_key: e.summary.event_key.clone(),
            template: e.summary.template.clone(),
        }
    }

    /// The position of the entry for `form`.
    fn position(&self, form: &String) -> (res: Option<usize>)
        ensures
            match res {
                Some(i) => i < self@.len() && self@[i as int].form == form@,
                None => !indexes(self@, form@),
            },
    {
        let mut i: usize = 0;
        while i < self.entries.len()
            invariant
                i <= self.entries.len(),
                forall|k: int| 0 <= k < i ==> (#[trigger] self@[k].form) != form@,
            decreases self.entries.len() - i,
        {
            if self.entries[i].form == *form {
                assert(self@[i as int].form == form@);
                return Some(i);
            }
            i += 1;
        }
        None
    }

    /// Removes the entry for `form`, if there is one.
    pub fn remove(&mut self, form: &str)
        requires
            old(self).wf(),
        ensures
            final(self).wf(),
            final(self)@ == without(old(self)@, form@),
    {
        let key = form.to_owned();
        proof {
            lemma_without(self@, form@);
        }
        match self.position(&key) {
            Some(i) => {
                proof {
                    lemma_without_is_remove(self@, i as int);
                }
                let ghost before = self@;
                self.entries.remove(i);
                assert(self@ =~= before.remove(i as int));
            },
            None => {},
        }
    }

    /// Whether some entry's blob is `blob_id`.
    pub fn contains_blob(&self, blob_id: u128) -> (found: bool)
        ensures
            found == exists|i: int| 0 <= i < self@.len() && (#[trigger] self@[i]).blob_id == blob_id,
    {
        let mut i: usize = 0;
        while i < self.entries.len()
            invariant
                i <= self.entries.len(),
                forall|k: int| 0 <= k < i ==> (#[trigger] self@[k]).blob_id != blob_id,
            decreases self.entries.len() - i,
        {
            if self.entries[i].blob_id == blob_id {
                assert(self@[i as int].blob_id == blob_id);
                return true;
            }
            i += 1;
        }
        false
    }

    /// Removes the entries whose blob is `blob_id`.
    pub fn remove_blob(&mut self, blob_id: u128)
        requires
            old(self).wf(),
        ensures
            final(self).wf(),
            final(self)@ == without_blob(old(self)@, blob_id),
    {
        let ghost before = self@;
        let mut i: usize = self.entries.len();
        assert(before.take(i as int) =~= before);
        assert(before.skip(i as int) =~= Seq::<EntryView>::empty());
        while i > 0
            invariant
                i <= before.len(),
                i <= self.entries.len(),
                self@.take(i as int) == before.take(i as int),
                without_blob(before, blob_id) == without_blob(before.take(i as int), blob_id) + self@.skip(
                    i as int,
                ),
            decreases i,
        {
            let ghost now = self@;
            proof {
                let prefix = before.take(i as int);
                assert(prefix.last() == before[i - 1]);
                assert(prefix.drop_last() =~= before.take(i - 1));
                assert(now[i - 1] == now.take(i as int)[i - 1]);
            }
            if self.entries[i - 1].blob_id == blob_id {
                self.entries.remove(i - 1);
                proof {
                    assert(self@ =~= now.remove(i - 1));
                    assert(self@.skip(i - 1) =~= now.skip(i as int));
                    assert(self@.take(i - 1) =~= before.take(i - 1));
                }
            } else {
                proof {
                    assert(self@.skip(i - 1) =~= seq![now[i - 1]] + now.skip(i as int));
                    assert(without_blob(before.take(i as int), blob_id) + now.skip(i as int) =~= without_blob(
                        before.take(i - 1),
                        blob_id,
                    ) + self@.skip(i - 1));
                    assert(self@.take(i - 1) =~= before.take(i - 1));
                }
            }
            i -= 1;
        }
        proof {
            assert(before.take(0) =~= Seq::<EntryView>::empty());
            assert(self@.skip(0) =~= self@);
            assert(without_blob(before, blob_id) =~= self@);
            lemma_without_blob(before, blob_id);
        }
    }

    /// Inserts the entry for a form's current version, in place of the entry
    /// for its earlier version.
    pub fn upsert(&mut self, form: String, blob_id: u128, summary: FormSummary)
        requires
            old(self).wf(),
        ensures
            final(self).wf(),
            final(self)@ == without(old(self)@, form@).push(
                EntryView { form: form@, blob_id, summary: summary@ },
            ),
    {
        self.remove(form.as_str());
        let ghost kept = self@;
        let ghost added = EntryView { form: form@, blob_id, summary: summary@ };
        proof {
            lemma_without(old(self)@, form@);
        }
        self.entries.push(IndexEntry { form, blob_id, summary });
        assert(self@ =~= kept.push(added));
        assert forall|i: int, j: int| 0 <= i < j < self@.len() implies self@[i].form != self@[j].form by {
            if j == kept.len() {
                if kept[i].form == added.form {
                    assert(indexes(kept, added.form));
                }
            } else {
                assert(kept[i].form != kept[j].form);
            }
        }
    }

    /// Brings the index up to date with one more transaction of the log.
    pub fn apply(&mut self, txn: &Transaction, blobs: &BlobStore)
        requires
            old(self).wf(),
            blobs.wf(),
        ensures
            final(self).wf(),
            final(self)@ == reindexed(old(self)@, txn@, blobs@),
    {
        match txn.data_type {
            DataType::Form => {
                if txn.action.is_live() {
                    match blobs.summary(txn.blob_id) {
                        Some(summary) => {
                            self.upsert(txn.alt_key.clone(), txn.blob_id, summary.duplicate());
                            return ;
                        },
                        None => {},
                    }
                }
                self.remove(txn.alt_key.as_str());
            },
            _ => {},
        }
    }

    /// Builds the index from nothing by replaying a log over a blob store.
    pub fn rebuild(log: &TransactionLog, blobs: &BlobStore) -> (index: FormsIndex)
        requires
            blobs.wf(),
        ensures
            index.wf(),
            index@ == replay(log@, blobs@),
    {
        let mut index = FormsIndex::new();
        let mut i: usize = 0;
        assert(log@.take(0) =~= Seq::<TransactionView>::empty());
        while i < log.len()
            invariant
                i <= log@.len(),
                blobs.wf(),
                index.wf(),
                index@ == replay(log@.take(i as int), blobs@),
            decreases log@.len() - i,
        {
            proof {
                let next = log@.take(i + 1);
                assert(next.last() == log@[i as int]);
                assert(next.drop_last() =~= log@.take(i as int));
            }
            index.apply(log.entry(i), blobs);
            i += 1;
        }
        assert(log@.take(log@.len() as int) =~= log@);
        index
    }

    /// The blobs of the forms filed under `template` that pass `filter`.
    pub fn filter(&self, template: &String, filter: &Filter) -> (blob_ids: Vec<u128>)
        ensures
            blob_ids@ == hits(self@, template@, filter@),
    {
        let mut blob_ids: Vec<u128> = Vec::new();
        let mut i: usize = 0;
        assert(self@.take(0) =~= Seq::<EntryView>::empty());
        while i < self.entries.len()
            invariant
                i <= self.entries.len(),
                blob_ids@ == hits(self@.take(i as int), template@, filter@),
            decreases self.entries.len() - i,
        {
            proof {
                let next = self@.take(i + 1);
                assert(next.last() == self@[i as int]);
                assert(next.drop_last() =~= self@.take(i as int));
            }
            if self.entries[i].summary.passes(template, filter) {
                blob_ids.push(self.entries[i].blob_id);
            }
            i += 1;
        }
        assert(self@.take(self@.len() as int) =~= self@);
        blob_ids
    }

    /// The forms filed under `template`.
    pub fn list(&self, template: &String) -> (forms: Vec<String>)
        ensures
            forms@.len() == listed(self@, template@).len(),
            forall|k: int| 0 <= k < forms@.len() ==> (#[trigger] forms@[k])@ == listed(self@, template@)[k],
    {
        let mut forms: Vec<String> = Vec::new();
        let mut i: usize = 0;
        assert(self@.take(0) =~= Seq::<EntryView>::empty());
        while i < self.entries.len()
            invariant
                i <= self.entries.len(),
                forms@.len() == listed(self@.take(i as int), template@).len(),
                forall|k: int|
                    0 <= k < forms@.len() ==> (#[trigger] forms@[k])@ == listed(
                        self@.take(i as int),
                        template@,
                    )[k],
            decreases self.entries.len() - i,
        {
            proof {
                let next = self@.take(i + 1);
                assert(next.last() == self@[i as int]);
                assert(next.drop_last() =~= self@.take(i as int));
            }
            if self.entries[i].summary.template == *template {
                forms.push(self.entries[i].form.clone());
            }
            i += 1;
        }
        assert(self@.take(self@.len() as int) =~= self@);
        forms
    }
}

} // verus!
