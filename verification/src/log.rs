use vstd::prelude::*;
use vstd::utf8::encode_utf8;
use crate::error::Error;
use crate::transactions::{Action, DataType, Transaction, TransactionView};

verus! {

/// Timestamps grow strictly along the log: the order of the entries is the
/// order in time.
pub open spec fn chronological(log: Seq<TransactionView>) -> bool {
    forall|i: int, j: int| 0 <= i < j < log.len() ==> log[i].timestamp < log[j].timestamp
}

/// No two entries share an identifier.
pub open spec fn distinct_ids(log: Seq<TransactionView>) -> bool {
    forall|i: int, j: int| 0 <= i < j < log.len() ==> log[i].id != log[j].id
}

/// Whether some entry has the identifier `id`.
pub open spec fn has_id(log: Seq<TransactionView>, id: u128) -> bool {
    exists|i: int| 0 <= i < log.len() && #[trigger] log[i].id == id
}

/// Whether some entry is about the entity `(data_type, alt_key)`.
pub open spec fn mentions(log: Seq<TransactionView>, data_type: DataType, alt_key: Seq<char>) -> bool {
    exists|i: int| 0 <= i < log.len() && #[trigger] log[i].concerns(data_type, alt_key)
}

/// The most recent entry about the entity `(data_type, alt_key)`.
pub open spec fn latest(log: Seq<TransactionView>, data_type: DataType, alt_key: Seq<char>) -> Option<
    TransactionView,
>
    decreases log.len(),
{
    if log.len() == 0 {
        None
    } else if log.last().concerns(data_type, alt_key) {
        Some(log.last())
    } else {
        latest(log.drop_last(), data_type, alt_key)
    }
}

/// Whether the entity is live: its most recent entry is an add or an edit.
pub open spec fn is_live(log: Seq<TransactionView>, data_type: DataType, alt_key: Seq<char>) -> bool {
    match latest(log, data_type, alt_key) {
        Some(t) => t.action.is_live(),
        None => false,
    }
}

/// The most recent entry whose payload is the blob `blob_id`.
pub open spec fn latest_for_blob(log: Seq<TransactionView>, blob_id: u128) -> Option<TransactionView>
    decreases log.len(),
{
    if log.len() == 0 {
        None
    } else if log.last().blob_id == blob_id {
        Some(log.last())
    } else {
        latest_for_blob(log.drop_last(), blob_id)
    }
}

/// Whether the most recent entry for the blob is a delete.
pub open spec fn is_deleted(log: Seq<TransactionView>, blob_id: u128) -> bool {
    match latest_for_blob(log, blob_id) {
        Some(t) => t.action == Action::Delete,
        None => false,
    }
}

/// The position of the entry with the identifier `id`.
pub open spec fn position_of(log: Seq<TransactionView>, id: u128) -> Option<int>
    decreases log.len(),
{
    if log.len() == 0 {
        None
    } else if log.last().id == id {
        Some(log.len() - 1)
    } else {
        position_of(log.drop_last(), id)
    }
}

/// The entry with the identifier `id`.
pub open spec fn by_id(log: Seq<TransactionView>, id: u128) -> Option<TransactionView> {
    match position_of(log, id) {
        Some(i) => Some(log[i]),
        None => None,
    }
}

/// The entry that follows the one with the identifier `id`, if that one is not
/// the last.
pub open spec fn successor(log: Seq<TransactionView>, id: u128) -> Option<TransactionView> {
    match position_of(log, id) {
        Some(i) => if i + 1 < log.len() {
            Some(log[i + 1])
        } else {
            None
        },
        None => None,
    }
}

/// How many entries are about the entity `(data_type, alt_key)`.
pub open spec fn count(log: Seq<TransactionView>, data_type: DataType, alt_key: Seq<char>) -> nat
    decreases log.len(),
{
    if log.len() == 0 {
        0
    } else {
        count(log.drop_last(), data_type, alt_key) + if log.last().concerns(data_type, alt_key) {
            1nat
        } else {
            0nat
        }
    }
}

/// Whether entry `i` is the most recent one about its entity.
pub open spec fn is_current(log: Seq<TransactionView>, i: int) -> bool {
    forall|j: int| i < j < log.len() ==> !(#[trigger] log[j]).concerns(log[i].data_type, log[i].alt_key)
}

/// The alt-keys of the live entities of a kind among the first `n` entries'
/// entities, in the order of their most recent entries.
pub open spec fn live_keys_upto(log: Seq<TransactionView>, data_type: DataType, n: int) -> Seq<Seq<char>>
    decreases n,
{
    if n <= 0 {
        Seq::empty()
    } else {
        let before = live_keys_upto(log, data_type, n - 1);
        let t = log[n - 1];
        if t.data_type == data_type && t.action.is_live() && is_current(log, n - 1) {
            before.push(t.alt_key)
        } else {
            before
        }
    }
}

/// The alt-keys of the live entities of a kind, in the order of their most
/// recent entries.
pub open spec fn live_keys(log: Seq<TransactionView>, data_type: DataType) -> Seq<Seq<char>> {
    live_keys_upto(log, data_type, log.len() as int)
}

/// Whether some form's transaction names the blob `blob_id`.
pub open spec fn references(log: Seq<TransactionView>, blob_id: u128) -> bool {
    exists|i: int|
        0 <= i < log.len() && (#[trigger] log[i]).data_type == DataType::Form && log[i].blob_id
            == blob_id
}

/// The timestamp that the clock's reading `now` gives the next entry: the
/// reading itself, or one past the last entry where the clock has not moved on.
pub open spec fn next_timestamp(log: Seq<TransactionView>, now: i64) -> int {
    if log.len() > 0 && now <= log.last().timestamp {
        log.last().timestamp + 1
    } else {
        now as int
    }
}

/// Whether `txn` may be appended: its identifier is new and its timestamp is
/// past every entry's.
pub open spec fn accepts(log: Seq<TransactionView>, txn: TransactionView) -> bool {
    &&& !has_id(log, txn.id)
    &&& log.len() > 0 ==> log.last().timestamp < txn.timestamp
}

/// The most recent entry about an entity is about it, is in the log, and no
/// entry about the entity has a greater timestamp; there is none exactly when
/// the log does not mention the entity.
pub proof fn lemma_latest_has_max_timestamp(
    log: Seq<TransactionView>,
    data_type: DataType,
    alt_key: Seq<char>,
)
    requires
        chronological(log),
    ensures
        match latest(log, data_type, alt_key) {
            Some(t) => {
                &&& log.contains(t)
                &&& t.concerns(data_type, alt_key)
                &&& forall|i: int|
                    0 <= i < log.len() && (#[trigger] log[i]).concerns(data_type, alt_key)
                        ==> log[i].timestamp <= t.timestamp
            },
            None => !mentions(log, data_type, alt_key),
        },
    decreases log.len(),
{
    if log.len() == 0 {
    } else if log.last().concerns(data_type, alt_key) {
        assert(log[log.len() - 1] == log.last());
    } else {
        let rest = log.drop_last();
        lemma_latest_has_max_timestamp(rest, data_type, alt_key);
        match latest(rest, data_type, alt_key) {
            Some(t) => {
                let k = choose|k: int| 0 <= k < rest.len() && rest[k] == t;
                assert(log[k] == t);
                assert forall|i: int|
                    0 <= i < log.len() && (#[trigger] log[i]).concerns(
                        data_type,
                        alt_key,
                    ) implies log[i].timestamp <= t.timestamp by {
                    assert(rest[i] == log[i]);
                }
            },
            None => {
                assert forall|i: int| 0 <= i < log.len() implies !(#[trigger] log[i]).concerns(
                    data_type,
                    alt_key,
                ) by {
                    if i < rest.len() {
                        assert(rest[i] == log[i]);
                    }
                }
            },
        }
    }
}


/// Where the entry with an identifier stands: at a position of the log, with
/// that identifier; there is none exactly when no entry has the identifier.
pub proof fn lemma_position_of(log: Seq<TransactionView>, id: u128)
    ensures
        match position_of(log, id) {
            Some(i) => 0 <= i < log.len() && log[i].id == id,
            None => !has_id(log, id),
        },
    decreases log.len(),
{
    if log.len() == 0 {
    } else if log.last().id == id {
    } else {
        let rest = log.drop_last();
        lemma_position_of(rest, id);
        match position_of(rest, id) {
            Some(i) => {
                assert(rest[i] == log[i]);
            },
            None => {
                assert forall|i: int| 0 <= i < log.len() implies (#[trigger] log[i].id) != id by {
                    if i < rest.len() {
                        assert(rest[i] == log[i]);
                    }
                }
            },
        }
    }
}

/// The entry that re-asserts `t` when the clock reads `now`: a new identifier,
/// the next timestamp, and an add where the entity is tombstoned, an edit
/// where it is live.
pub open spec fn restored(log: Seq<TransactionView>, t: TransactionView, new_id: u128, now: i64) -> TransactionView {
    TransactionView {
        id: new_id,
        data_type: t.data_type,
        action: if is_live(log, t.data_type, t.alt_key) {
            Action::Edit
        } else {
            Action::Add
        },
        blob_id: t.blob_id,
        alt_key: t.alt_key,
        timestamp: next_timestamp(log, now) as i64,
    }
}

/// An entry after which none is about the same entity is the most recent one
/// about that entity.
pub proof fn lemma_current_is_latest(log: Seq<TransactionView>, i: int)
    requires
        0 <= i < log.len(),
        is_current(log, i),
    ensures
        latest(log, log[i].data_type, log[i].alt_key) == Some(log[i]),
    decreases log.len(),
{
    if i == log.len() - 1 {
    } else {
        let rest = log.drop_last();
        assert(!log[log.len() - 1].concerns(log[i].data_type, log[i].alt_key));
        assert(rest[i] == log[i]);
        assert forall|j: int| i < j < rest.len() implies !(#[trigger] rest[j]).concerns(
            rest[i].data_type,
            rest[i].alt_key,
        ) by {
            assert(rest[j] == log[j]);
        }
        lemma_current_is_latest(rest, i);
    }
}

/// The most recent entry about an entity stands at a position after which no
/// entry is about that entity.
pub proof fn lemma_latest_is_current(log: Seq<TransactionView>, data_type: DataType, alt_key: Seq<char>)
    ensures
        match latest(log, data_type, alt_key) {
            Some(t) => exists|i: int|
                0 <= i < log.len() && #[trigger] log[i] == t && t.concerns(data_type, alt_key)
                    && is_current(log, i),
            None => !mentions(log, data_type, alt_key),
        },
    decreases log.len(),
{
    if log.len() == 0 {
    } else if log.last().concerns(data_type, alt_key) {
        assert(log[log.len() - 1] == log.last());
        assert(is_current(log, log.len() - 1));
    } else {
        let rest = log.drop_last();
        lemma_latest_is_current(rest, data_type, alt_key);
        match latest(rest, data_type, alt_key) {
            Some(t) => {
                let i = choose|i: int|
                    0 <= i < rest.len() && #[trigger] rest[i] == t && t.concerns(data_type, alt_key)
                        && is_current(rest, i);
                assert(log[i] == t);
                assert forall|j: int| i < j < log.len() implies !(#[trigger] log[j]).concerns(
                    log[i].data_type,
                    log[i].alt_key,
                ) by {
                    if j < rest.len() {
                        assert(rest[j] == log[j]);
                    }
                }
            },
            None => {
                assert forall|i: int| 0 <= i < log.len() implies !(#[trigger] log[i]).concerns(
                    data_type,
                    alt_key,
                ) by {
                    if i < rest.len() {
                        assert(rest[i] == log[i]);
                    }
                }
            },
        }
    }
}

/// What the first `n` entries contribute to the live keys: the key of each
/// live entry of the kind that is the most recent one about its entity.
pub proof fn lemma_live_keys_upto(log: Seq<TransactionView>, data_type: DataType, n: int)
    requires
        0 <= n <= log.len(),
    ensures
        forall|key: Seq<char>|
            live_keys_upto(log, data_type, n).contains(key) <==> exists|i: int|
                0 <= i < n && (#[trigger] log[i]).concerns(data_type, key) && log[i].action.is_live()
                    && is_current(log, i),
        live_keys_upto(log, data_type, n).no_duplicates(),
    decreases n,
{
    if n > 0 {
        lemma_live_keys_upto(log, data_type, n - 1);
        let before = live_keys_upto(log, data_type, n - 1);
        let now = live_keys_upto(log, data_type, n);
        let t = log[n - 1];
        let taken = t.data_type == data_type && t.action.is_live() && is_current(log, n - 1);
        assert forall|key: Seq<char>| now.contains(key) <==> exists|i: int|
            0 <= i < n && (#[trigger] log[i]).concerns(data_type, key) && log[i].action.is_live()
                && is_current(log, i) by {
            if now.contains(key) {
                if before.contains(key) {
                    let i = choose|i: int|
                        0 <= i < n - 1 && (#[trigger] log[i]).concerns(data_type, key)
                            && log[i].action.is_live() && is_current(log, i);
                    assert(0 <= i < n && log[i].concerns(data_type, key));
                } else {
                    let k = choose|k: int| 0 <= k < now.len() && now[k] == key;
                    if k < before.len() {
                        assert(before[k] == key);
                    }
                    assert(taken && key == t.alt_key);
                    assert(log[n - 1].concerns(data_type, key));
                }
            }
            if exists|i: int|
                0 <= i < n && (#[trigger] log[i]).concerns(data_type, key) && log[i].action.is_live()
                    && is_current(log, i) {
                let i = choose|i: int|
                    0 <= i < n && (#[trigger] log[i]).concerns(data_type, key)
                        && log[i].action.is_live() && is_current(log, i);
                if i < n - 1 {
                    assert(before.contains(key));
                    let k = choose|k: int| 0 <= k < before.len() && before[k] == key;
                    assert(now[k] == key);
                } else {
                    assert(taken);
                    assert(now[now.len() - 1] == key);
                }
            }
        }
        if taken {
            if before.contains(t.alt_key) {
                let i = choose|i: int|
                    0 <= i < n - 1 && (#[trigger] log[i]).concerns(data_type, t.alt_key)
                        && log[i].action.is_live() && is_current(log, i);
                assert(log[n - 1].concerns(log[i].data_type, log[i].alt_key));
                assert(false);
            }
            assert forall|a: int, b: int| 0 <= a < now.len() && 0 <= b < now.len() && a != b implies now[a]
                != now[b] by {
                if a < before.len() && b < before.len() {
                    assert(before[a] != before[b]);
                } else if a < before.len() {
                    assert(before.contains(before[a]));
                } else {
                    assert(before.contains(before[b]));
                }
            }
        }
    }
}

/// The live keys of a kind are, each once, the alt-keys of that kind whose
/// most recent entry is an add or an edit.
pub proof fn lemma_live_keys(log: Seq<TransactionView>, data_type: DataType)
    ensures
        forall|key: Seq<char>| #[trigger]
            live_keys(log, data_type).contains(key) <==> is_live(log, data_type, key),
        live_keys(log, data_type).no_duplicates(),
{
    lemma_live_keys_upto(log, data_type, log.len() as int);
    assert forall|key: Seq<char>| #[trigger]
        live_keys(log, data_type).contains(key) <==> is_live(log, data_type, key) by {
        lemma_latest_is_current(log, data_type, key);
        if live_keys(log, data_type).contains(key) {
            let i = choose|i: int|
                0 <= i < log.len() && (#[trigger] log[i]).concerns(data_type, key)
                    && log[i].action.is_live() && is_current(log, i);
            lemma_current_is_latest(log, i);
        }
        if is_live(log, data_type, key) {
            let t = latest(log, data_type, key).unwrap();
            let i = choose|i: int|
                0 <= i < log.len() && #[trigger] log[i] == t && t.concerns(data_type, key)
                    && is_current(log, i);
            assert(log[i].concerns(data_type, key));
        }
    }
}

/// The entry that follows another is the next in time: among the entries
/// with a greater timestamp than the given one's it has the least, and where
/// none follows, no entry has a greater timestamp.
pub proof fn lemma_successor_is_next_in_time(log: Seq<TransactionView>, id: u128)
    requires
        chronological(log),
        by_id(log, id) is Some,
    ensures
        ({
            let given = by_id(log, id).unwrap();
            match successor(log, id) {
                Some(t) => {
                    &&& log.contains(t)
                    &&& given.timestamp < t.timestamp
                    &&& forall|i: int|
                        0 <= i < log.len() && given.timestamp < (#[trigger] log[i]).timestamp
                            ==> t.timestamp <= log[i].timestamp
                },
                None => forall|i: int| 0 <= i < log.len() ==> (#[trigger] log[i]).timestamp <= given.timestamp,
            }
        }),
{
    lemma_position_of(log, id);
    let k = position_of(log, id).unwrap();
    if k + 1 < log.len() {
        assert(log[k].timestamp < log[k + 1].timestamp);
        assert forall|i: int|
            0 <= i < log.len() && log[k].timestamp < (#[trigger] log[i]).timestamp implies log[k
            + 1].timestamp <= log[i].timestamp by {
            if i < k {
                assert(log[i].timestamp < log[k].timestamp);
            } else if i > k + 1 {
                assert(log[k + 1].timestamp < log[i].timestamp);
            }
        }
    } else {
        assert forall|i: int| 0 <= i < log.len() implies (#[trigger] log[i]).timestamp <= log[k].timestamp by {
            if i < k {
                assert(log[i].timestamp < log[k].timestamp);
            }
        }
    }
}

/// Whether the bytes of `needle` stand in `hay`, one after the other.
pub open spec fn contains_bytes(hay: Seq<u8>, needle: Seq<u8>) -> bool {
    exists|i: int|
        0 <= i && i + needle.len() <= hay.len() && #[trigger] hay.subrange(i, i + needle.len()) == needle
}

/// Whether an alt-key matches a search: the pattern's UTF-8 form stands in
/// the alt-key's. Letters match in their own case only, and every alt-key
/// matches the empty pattern.
pub open spec fn key_matches(alt_key: Seq<char>, pattern: Seq<char>) -> bool {
    contains_bytes(encode_utf8(alt_key), encode_utf8(pattern))
}

/// Whether entry `i` is the most recent one under its alt-key, whatever the
/// kind.
pub open spec fn is_newest(log: Seq<TransactionView>, i: int) -> bool {
    forall|j: int| i < j < log.len() ==> (#[trigger] log[j]).alt_key != log[i].alt_key
}

/// What a search finds among the first `n` entries: the most recent entry
/// under each alt-key that matches the pattern, in the log's order.
pub open spec fn found_upto(log: Seq<TransactionView>, pattern: Seq<char>, n: int) -> Seq<TransactionView>
    decreases n,
{
    if n <= 0 {
        Seq::empty()
    } else {
        let before = found_upto(log, pattern, n - 1);
        if is_newest(log, n - 1) && key_matches(log[n - 1].alt_key, pattern) {
            before.push(log[n - 1])
        } else {
            before
        }
    }
}

/// What a search finds: for each alt-key that matches the pattern, the most
/// recent entry under it, in the log's order.
pub open spec fn found(log: Seq<TransactionView>, pattern: Seq<char>) -> Seq<TransactionView> {
    found_upto(log, pattern, log.len() as int)
}

/// Whether entry `i` is one that a search finds: the most recent entry under
/// an alt-key that matches the pattern.
pub open spec fn is_hit(log: Seq<TransactionView>, pattern: Seq<char>, i: int) -> bool {
    0 <= i < log.len() && is_newest(log, i) && key_matches(log[i].alt_key, pattern)
}

/// A search finds one entry for each matching alt-key of the log: an entry
/// is found exactly when it is the most recent one under its alt-key and the
/// alt-key matches, and no two entries found share an alt-key.
pub proof fn lemma_found(log: Seq<TransactionView>, pattern: Seq<char>, n: int)
    requires
        0 <= n <= log.len(),
    ensures
        found_upto(log, pattern, n).len() <= n,
        forall|t: TransactionView| #[trigger]
            found_upto(log, pattern, n).contains(t) <==> exists|i: int|
                i < n && #[trigger] is_hit(log, pattern, i) && log[i] == t,
        forall|a: int, b: int|
            0 <= a < b < found_upto(log, pattern, n).len() ==> (#[trigger] found_upto(
                log,
                pattern,
                n,
            )[a]).alt_key != (#[trigger] found_upto(log, pattern, n)[b]).alt_key,
    decreases n,
{
    let now = found_upto(log, pattern, n);
    if n > 0 {
        lemma_found(log, pattern, n - 1);
        let before = found_upto(log, pattern, n - 1);
        let taken = is_hit(log, pattern, n - 1);
        assert forall|t: TransactionView| #[trigger]
            now.contains(t) <==> exists|i: int|
                i < n && #[trigger] is_hit(log, pattern, i) && log[i] == t by {
            if now.contains(t) {
                let k = choose|k: int| 0 <= k < now.len() && now[k] == t;
                if k < before.len() {
                    assert(before[k] == t);
                    assert(before.contains(t));
                    let i = choose|i: int| i < n - 1 && #[trigger] is_hit(log, pattern, i) && log[i] == t;
                    assert(i < n && is_hit(log, pattern, i) && log[i] == t);
                } else {
                    assert(is_hit(log, pattern, n - 1) && log[n - 1] == t);
                }
            }
            if exists|i: int| i < n && #[trigger] is_hit(log, pattern, i) && log[i] == t {
                let i = choose|i: int| i < n && #[trigger] is_hit(log, pattern, i) && log[i] == t;
                if i < n - 1 {
                    assert(before.contains(t));
                    let k = choose|k: int| 0 <= k < before.len() && before[k] == t;
                    assert(now[k] == t);
                } else {
                    assert(now[now.len() - 1] == t);
                }
            }
        }
        assert forall|a: int, b: int| 0 <= a < b < now.len() implies (#[trigger] now[a]).alt_key != (
        #[trigger] now[b]).alt_key by {
            if b == before.len() {
                assert(before.contains(before[a]));
                let i = choose|i: int|
                    i < n - 1 && #[trigger] is_hit(log, pattern, i) && log[i] == before[a];
                assert(log[n - 1].alt_key != log[i].alt_key);
            } else {
                assert(before[a].alt_key != before[b].alt_key);
            }
        }
    } else {
        assert forall|t: TransactionView| #[trigger] now.contains(t) implies false by {
            let k = choose|k: int| 0 <= k < now.len() && now[k] == t;
        }
    }
}

/// Whether `needle` stands in `hay` at position `at`.
fn stands_at(hay: &[u8], needle: &[u8], at: usize) -> (stands: bool)
    requires
        at + needle@.len() <= hay@.len(),
    ensures
        stands == (hay@.subrange(at as int, at + needle@.len()) == needle@),
{
    let limit = hay.len();
    let mut k: usize = 0;
    while k < needle.len()
        invariant
            k <= needle@.len(),
            at + needle@.len() <= hay@.len(),
            limit == hay@.len(),
            forall|m: int| 0 <= m < k ==> hay@[at + m] == needle@[m],
        decreases needle@.len() - k,
    {
        if hay[at + k] != needle[k] {
            assert(hay@.subrange(at as int, at + needle@.len())[k as int] != needle@[k as int]);
            return false;
        }
        k += 1;
    }
    assert(hay@.subrange(at as int, at + needle@.len()) =~= needle@);
    true
}

/// Whether the pattern's bytes stand in the text's.
pub fn text_matches(text: &str, pattern: &str) -> (matches: bool)
    ensures
        matches == key_matches(text@, pattern@),
{
    let hay = text.as_bytes();
    let needle = pattern.as_bytes();
    assert(hay@ == encode_utf8(text@) && needle@ == encode_utf8(pattern@));
    if needle.len() > hay.len() {
        return false;
    }
    let last: usize = hay.len() - needle.len();
    let mut at: usize = 0;
    loop
        invariant
            at <= last,
            last == hay@.len() - needle@.len(),
            hay@ == encode_utf8(text@),
            needle@ == encode_utf8(pattern@),
            forall|i: int| 0 <= i < at ==> (#[trigger] hay@.subrange(i, i + needle@.len())) != needle@,
        decreases last - at,
    {
        if stands_at(hay, needle, at) {
            assert(hay@.subrange(at as int, at + needle@.len()) == needle@);
            return true;
        }
        if at == last {
            return false;
        }
        at += 1;
    }
}

/// The append-only record of mutations, oldest entry first.
pub struct TransactionLog {
    entries: Vec<Transaction>,
}

impl View for TransactionLog {
    type V = Seq<TransactionView>;

    closed spec fn view(&self) -> Seq<TransactionView> {
        Seq::new(self.entries@.len(), |i: int| self.entries@[i]@)
    }
}

impl TransactionLog {
    /// The log's invariant: timestamps grow strictly and identifiers are
    /// unique.
    pub open spec fn wf(&self) -> bool {
        chronological(self@) && distinct_ids(self@)
    }

    /// An empty log.
    pub fn new() -> (log: TransactionLog)
        ensures
            log@ == Seq::<TransactionView>::empty(),
            log.wf(),
    {
        let log = TransactionLog { entries: Vec::new() };
        assert(log@ =~= Seq::<TransactionView>::empty());
        log
    }

    /// The number of entries.
    pub fn len(&self) -> (n: usize)
        ensures
            n == self@.len(),
    {
        self.entries.len()
    }

    /// The entry at a position, oldest first.
    pub fn entry(&self, i: usize) -> (txn: &Transaction)
        requires
            i < self@.len(),
        ensures
            txn@ == self@[i as int],
    {
        &self.entries[i]
    }

    /// Whether an entry has the identifier `id`.
    pub fn contains_id(&self, id: u128) -> (found: bool)
        ensures
            found == has_id(self@, id),
    {
        let mut i: usize = 0;
        while i < self.entries.len()
            invariant
                i <= self.entries.len(),
                forall|k: int| 0 <= k < i ==> (#[trigger] self@[k].id) != id,
            decreases self.entries.len() - i,
        {
            if self.entries[i].id == id {
                assert(self@[i as int].id == id);
                return true;
            }
            i += 1;
        }
        false
    }

    /// The timestamp for the next entry when the clock reads `now`; `Storage`
    /// when the last entry already stands at the end of time.
    pub fn tick(&self, now: i64) -> (res: Result<i64, Error>)
        ensures
            match res {
                Ok(t) => t == next_timestamp(self@, now),
                Err(e) => e == Error::Storage && next_timestamp(self@, now) > i64::MAX,
            },
    {
        let n = self.entries.len();
        if n > 0 {
            let last = self.entries[n - 1].timestamp;
            assert(self@.last().timestamp == last);
            if now <= last {
                if last == i64::MAX {
                    return Err(Error::Storage);
                }
                return Ok(last + 1);
            }
        }
        Ok(now)
    }

    /// Appends an entry whose timestamp its writer has set. The log takes it
    /// when its identifier is new and its timestamp is past every entry's, and
    /// refuses it with `Storage` otherwise.
    pub fn append(&mut self, txn: Transaction) -> (res: Result<(), Error>)
        requires
            old(self).wf(),
        ensures
            final(self).wf(),
            match res {
                Ok(_) => accepts(old(self)@, txn@) && final(self)@ == old(self)@.push(txn@),
                Err(e) => e == Error::Storage && !accepts(old(self)@, txn@) && final(self)@ == old(
                    self,
                )@,
            },
    {
        if self.contains_id(txn.id) {
            return Err(Error::Storage);
        }
        let n = self.entries.len();
        if n > 0 {
            assert(self@.last().timestamp == self.entries@[n - 1].timestamp);
            if self.entries[n - 1].timestamp >= txn.timestamp {
                return Err(Error::Storage);
            }
        }
        let ghost before = self@;
        let ghost added = txn@;
        self.entries.push(txn);
        assert(self@ =~= before.push(added));
        assert(chronological(self@)) by {
            assert forall|i: int, j: int| 0 <= i < j < self@.len() implies self@[i].timestamp
                < self@[j].timestamp by {
                if j == before.len() {
                    if i < before.len() - 1 {
                        assert(before[i].timestamp < before[before.len() - 1].timestamp);
                    }
                }
            }
        }
        assert(distinct_ids(self@)) by {
            assert forall|i: int, j: int| 0 <= i < j < self@.len() implies self@[i].id != self@[j].id by {
                if j == before.len() {
                    assert(before[i].id != added.id);
                }
            }
        }
        Ok(())
    }

    /// The most recent entry about the entity `(data_type, alt_key)`:
    /// `NotFound` when the log does not mention it.
    pub fn latest(&self, data_type: DataType, alt_key: &str) -> (res: Result<&Transaction, Error>)
        ensures
            match res {
                Ok(t) => latest(self@, data_type, alt_key@) == Some(t@),
                Err(e) => e == Error::NotFound && latest(self@, data_type, alt_key@) is None,
            },
    {
        let key = alt_key.to_owned();
        let mut i: usize = self.entries.len();
        assert(self@.take(i as int) =~= self@);
        while i > 0
            invariant
                i <= self.entries.len(),
                key@ == alt_key@,
                latest(self@, data_type, alt_key@) == latest(
                    self@.take(i as int),
                    data_type,
                    alt_key@,
                ),
            decreases i,
        {
            let t = &self.entries[i - 1];
            proof {
                let prefix = self@.take(i as int);
                assert(prefix.last() == t@);
                assert(prefix.drop_last() =~= self@.take(i - 1));
            }
            if t.data_type == data_type && t.alt_key == key {
                return Ok(t);
            }
            i -= 1;
        }
        Err(Error::NotFound)
    }

    /// The action of the most recent entry about the entity.
    pub fn latest_action(&self, data_type: DataType, alt_key: &str) -> (res: Result<Action, Error>)
        ensures
            match res {
                Ok(action) => latest(self@, data_type, alt_key@) matches Some(t) && t.action
                    == action,
                Err(e) => e == Error::NotFound && latest(self@, data_type, alt_key@) is None,
            },
    {
        match self.latest(data_type, alt_key) {
            Ok(t) => Ok(t.action),
            Err(e) => Err(e),
        }
    }

    /// The entry with the identifier `id`: `NotFound` when there is none.
    pub fn get(&self, id: u128) -> (res: Result<&Transaction, Error>)
        ensures
            match res {
                Ok(t) => by_id(self@, id) == Some(t@),
                Err(e) => e == Error::NotFound && by_id(self@, id) is None,
            },
    {
        match self.find(id) {
            Some(i) => Ok(&self.entries[i]),
            None => Err(Error::NotFound),
        }
    }

    /// The position of the entry with the identifier `id`.
    pub fn find(&self, id: u128) -> (res: Option<usize>)
        ensures
            match res {
                Some(i) => position_of(self@, id) == Some(i as int) && i < self@.len(),
                None => position_of(self@, id) is None,
            },
    {
        let mut i: usize = self.entries.len();
        assert(self@.take(i as int) =~= self@);
        while i > 0
            invariant
                i <= self.entries.len(),
                position_of(self@, id) == position_of(self@.take(i as int), id),
            decreases i,
        {
            proof {
                let prefix = self@.take(i as int);
                assert(prefix.last() == self.entries@[i - 1]@);
                assert(prefix.drop_last() =~= self@.take(i - 1));
            }
            if self.entries[i - 1].id == id {
                return Some(i - 1);
            }
            i -= 1;
        }
        None
    }

    /// The blob of the entry with the identifier `id`.
    pub fn blob_of(&self, id: u128) -> (res: Result<u128, Error>)
        ensures
            match res {
                Ok(blob_id) => by_id(self@, id) matches Some(t) && t.blob_id == blob_id,
                Err(e) => e == Error::NotFound && by_id(self@, id) is None,
            },
    {
        match self.get(id) {
            Ok(t) => Ok(t.blob_id),
            Err(e) => Err(e),
        }
    }

    /// Whether the most recent entry whose payload is the blob `blob_id` is a
    /// delete.
    pub fn is_deleted(&self, blob_id: u128) -> (deleted: bool)
        ensures
            deleted == is_deleted(self@, blob_id),
    {
        let mut i: usize = self.entries.len();
        assert(self@.take(i as int) =~= self@);
        while i > 0
            invariant
                i <= self.entries.len(),
                latest_for_blob(self@, blob_id) == latest_for_blob(self@.take(i as int), blob_id),
            decreases i,
        {
            let t = &self.entries[i - 1];
            proof {
                let prefix = self@.take(i as int);
                assert(prefix.last() == t@);
                assert(prefix.drop_last() =~= self@.take(i - 1));
            }
            if t.blob_id == blob_id {
                return match t.action {
                    Action::Delete => true,
                    _ => false,
                };
            }
            i -= 1;
        }
        false
    }

    /// How many entries are about the entity `(data_type, alt_key)`.
    pub fn count_by_alt_key(&self, alt_key: &str, data_type: DataType) -> (n: usize)
        ensures
            n == count(self@, data_type, alt_key@),
    {
        let key = alt_key.to_owned();
        let mut n: usize = 0;
        let mut i: usize = 0;
        while i < self.entries.len()
            invariant
                i <= self.entries.len(),
                key@ == alt_key@,
                n <= i,
                n == count(self@.take(i as int), data_type, alt_key@),
            decreases self.entries.len() - i,
        {
            let t = &self.entries[i];
            proof {
                let next = self@.take(i + 1);
                assert(next.last() == t@);
                assert(next.drop_last() =~= self@.take(i as int));
            }
            if t.data_type == data_type && t.alt_key == key {
                n += 1;
            }
            i += 1;
        }
        proof {
            assert(self@.take(self@.len() as int) =~= self@);
        }
        n
    }

    /// The oldest entry.
    pub fn first(&self) -> (res: Option<&Transaction>)
        ensures
            match res {
                Some(t) => self@.len() > 0 && t@ == self@[0],
                None => self@.len() == 0,
            },
    {
        if self.entries.len() == 0 {
            None
        } else {
            Some(&self.entries[0])
        }
    }

    /// The entry that follows the one with the identifier `id`: nothing when
    /// that one is the last, `NotFound` when no entry has the identifier.
    pub fn after(&self, id: u128) -> (res: Result<Option<&Transaction>, Error>)
        ensures
            match res {
                Ok(Some(t)) => successor(self@, id) == Some(t@),
                Ok(None) => by_id(self@, id) is Some && successor(self@, id) is None,
                Err(e) => e == Error::NotFound && by_id(self@, id) is None,
            },
    {
        match self.find(id) {
            Some(i) => {
                if i < self.entries.len() - 1 {
                    Ok(Some(&self.entries[i + 1]))
                } else {
                    Ok(None)
                }
            },
            None => Err(Error::NotFound),
        }
    }

    /// Whether the entry at position `i` is the most recent one about its
    /// entity.
    pub fn is_current_at(&self, i: usize) -> (current: bool)
        requires
            i < self@.len(),
        ensures
            current == is_current(self@, i as int),
    {
        assert(self@.len() == self.entries@.len());
        let n = self.entries.len();
        let t = &self.entries[i];
        let mut j: usize = i + 1;
        while j < self.entries.len()
            invariant
                i < j <= self.entries.len(),
                t@ == self@[i as int],
                forall|k: int|
                    i < k < j ==> !(#[trigger] self@[k]).concerns(
                        self@[i as int].data_type,
                        self@[i as int].alt_key,
                    ),
            decreases self.entries.len() - j,
        {
            let u = &self.entries[j];
            if u.data_type == t.data_type && u.alt_key == t.alt_key {
                assert(self@[j as int].concerns(self@[i as int].data_type, self@[i as int].alt_key));
                return false;
            }
            j += 1;
        }
        true
    }

    /// The alt-keys of the live entities of a kind: each alt-key whose most
    /// recent entry is an add or an edit, once, in the order of those entries.
    pub fn list_live(&self, data_type: DataType) -> (keys: Vec<String>)
        ensures
            keys@.len() == live_keys(self@, data_type).len(),
            forall|k: int| 0 <= k < keys@.len() ==> (#[trigger] keys@[k])@ == live_keys(self@, data_type)[k],
            forall|key: Seq<char>| #[trigger]
                live_keys(self@, data_type).contains(key) <==> is_live(self@, data_type, key),
            live_keys(self@, data_type).no_duplicates(),
    {
        let mut keys: Vec<String> = Vec::new();
        let mut i: usize = 0;
        while i < self.entries.len()
            invariant
                i <= self.entries.len(),
                keys@.len() == live_keys_upto(self@, data_type, i as int).len(),
                forall|k: int|
                    0 <= k < keys@.len() ==> (#[trigger] keys@[k])@ == live_keys_upto(
                        self@,
                        data_type,
                        i as int,
                    )[k],
            decreases self.entries.len() - i,
        {
            let t = &self.entries[i];
            assert(t@ == self@[i as int]);
            if t.data_type == data_type && t.action.is_live() && self.is_current_at(i) {
                keys.push(t.alt_key.clone());
            }
            i += 1;
        }
        proof {
            lemma_live_keys(self@, data_type);
        }
        keys
    }

    /// Re-asserts the entry with the identifier `id` under the new identifier
    /// `new_id`: appends an add where the entity is tombstoned and an edit
    /// where it is live, for the same blob. `NotFound` when no entry has the
    /// identifier `id`; `Storage` when `new_id` is taken or time has run out.
    pub fn restore(&mut self, id: u128, new_id: u128, now: i64) -> (res: Result<(), Error>)
        requires
            old(self).wf(),
        ensures
            final(self).wf(),
            match res {
                Ok(_) => by_id(old(self)@, id) matches Some(t) && !has_id(old(self)@, new_id)
                    && next_timestamp(old(self)@, now) <= i64::MAX && final(self)@ == old(self)@.push(
                    restored(old(self)@, t, new_id, now),
                ),
                Err(e) => final(self)@ == old(self)@ && match e {
                    Error::NotFound => by_id(old(self)@, id) is None,
                    Error::Storage => by_id(old(self)@, id) is Some && (has_id(old(self)@, new_id)
                        || next_timestamp(old(self)@, now) > i64::MAX),
                    _ => false,
                },
            },
    {
        let (data_type, blob_id, alt_key) = match self.get(id) {
            Ok(t) => (t.data_type, t.blob_id, t.alt_key.clone()),
            Err(e) => {
                return Err(e);
            },
        };
        let timestamp = match self.tick(now) {
            Ok(t) => t,
            Err(e) => {
                return Err(e);
            },
        };
        let action = match self.latest_action(data_type, alt_key.as_str()) {
            Ok(Action::Delete) => Action::Add,
            Ok(_) => Action::Edit,
            Err(_) => Action::Add,
        };
        let txn = Transaction { id: new_id, data_type, action, blob_id, alt_key, timestamp };
        self.append(txn)
    }

    /// Whether some form's transaction names the blob `blob_id`.
    pub fn names_form_blob(&self, blob_id: u128) -> (named: bool)
        ensures
            named == references(self@, blob_id),
    {
        let mut i: usize = 0;
        while i < self.entries.len()
            invariant
                i <= self.entries.len(),
                forall|k: int|
                    0 <= k < i ==> !((#[trigger] self@[k]).data_type == DataType::Form && self@[k].blob_id
                        == blob_id),
            decreases self.entries.len() - i,
        {
            let t = &self.entries[i];
            if t.data_type == DataType::Form && t.blob_id == blob_id {
                assert(self@[i as int].data_type == DataType::Form && self@[i as int].blob_id == blob_id);
                return true;
            }
            i += 1;
        }
        false
    }

    /// Whether the entry at position `i` is the most recent one under its
    /// alt-key, whatever the kind.
    pub fn is_newest_at(&self, i: usize) -> (newest: bool)
        requires
            i < self@.len(),
        ensures
            newest == is_newest(self@, i as int),
    {
        assert(self@.len() == self.entries@.len());
        let n = self.entries.len();
        let t = &self.entries[i];
        let mut j: usize = i + 1;
        while j < self.entries.len()
            invariant
                i < j <= self.entries.len(),
                t@ == self@[i as int],
                forall|k: int| i < k < j ==> (#[trigger] self@[k]).alt_key != self@[i as int].alt_key,
            decreases self.entries.len() - j,
        {
            if self.entries[j].alt_key == t.alt_key {
                assert(self@[j as int].alt_key == self@[i as int].alt_key);
                return false;
            }
            j += 1;
        }
        true
    }

    /// Searches the alt-keys: for each alt-key in which the pattern stands,
    /// the most recent entry under it, in the log's order.
    pub fn search(&self, pattern: &str) -> (entries: Vec<Transaction>)
        ensures
            entries@.len() == found(self@, pattern@).len(),
            forall|k: int| 0 <= k < entries@.len() ==> (#[trigger] entries@[k])@ == found(self@, pattern@)[k],
    {
        let mut entries: Vec<Transaction> = Vec::new();
        let mut i: usize = 0;
        while i < self.entries.len()
            invariant
                i <= self.entries.len(),
                entries@.len() == found_upto(self@, pattern@, i as int).len(),
                forall|k: int|
                    0 <= k < entries@.len() ==> (#[trigger] entries@[k])@ == found_upto(
                        self@,
                        pattern@,
                        i as int,
                    )[k],
            decreases self.entries.len() - i,
        {
            let t = &self.entries[i];
            assert(t@ == self@[i as int]);
            if self.is_newest_at(i) && text_matches(t.alt_key.as_str(), pattern) {
                entries.push(t.duplicate());
            }
            i += 1;
        }
        entries
    }

    /// How many alt-keys a search matches: the number of entries it finds.
    pub fn search_count(&self, pattern: &str) -> (n: usize)
        ensures
            n == found(self@, pattern@).len(),
    {
        let mut n: usize = 0;
        let mut i: usize = 0;
        while i < self.entries.len()
            invariant
                i <= self.entries.len(),
                n == found_upto(self@, pattern@, i as int).len(),
                n <= i,
            decreases self.entries.len() - i,
        {
            let t = &self.entries[i];
            assert(t@ == self@[i as int]);
            proof {
                lemma_found(self@, pattern@, i as int);
            }
            if self.is_newest_at(i) && text_matches(t.alt_key.as_str(), pattern) {
                n += 1;
            }
            i += 1;
        }
        n
    }
}

} // verus!
