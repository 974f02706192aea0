//! The model of the clipboard log: rows of key and entry in rising key order.

use crate::db::EntryView;
use vstd::prelude::*;

verus! {

/// A log: its rows, oldest key first.
pub type LogSeq = Seq<(u128, EntryView)>;

/// The keys of the rows rise strictly, so no key occurs twice.
pub open spec fn ascending(log: LogSeq) -> bool {
    forall|i: int, j: int| 0 <= i < j < log.len() ==> log[i].0 < log[j].0
}

/// Some row of the log has this key.
pub open spec fn has_key(log: LogSeq, key: u128) -> bool {
    exists|i: int| 0 <= i < log.len() && #[trigger] log[i].0 == key
}

/// Row `i` has the key, and no other row has it.
pub open spec fn sole_row(log: LogSeq, key: u128, i: int) -> bool {
    &&& 0 <= i < log.len()
    &&& log[i].0 == key
    &&& forall|j: int| 0 <= j < log.len() && #[trigger] log[j].0 == key ==> j == i
}

/// The log with the row `(key, entry)` put at its place in key order. A log
/// that already has the key stays as it is.
pub open spec fn with_row(log: LogSeq, key: u128, entry: EntryView) -> LogSeq
    decreases log.len(),
{
    if log.len() == 0 {
        seq![(key, entry)]
    } else if log.last().0 < key {
        log.push((key, entry))
    } else if log.last().0 == key {
        log
    } else {
        with_row(log.drop_last(), key, entry).push(log.last())
    }
}

/// The newest key of the log, if it has a row.
pub open spec fn newest(log: LogSeq) -> Option<u128> {
    if log.len() == 0 {
        None
    } else {
        Some(log.last().0)
    }
}

/// The row that is `offset` places behind the newest one.
pub open spec fn row_back(log: LogSeq, offset: int) -> (u128, EntryView) {
    log[log.len() - 1 - offset]
}

/// How many rows a listing of at most `limit` rows has.
pub open spec fn capped(limit: nat, len: nat) -> nat {
    if limit < len {
        limit
    } else {
        len
    }
}

/// The `limit` newest rows, newest first, each as entry and key.
pub open spec fn recent(log: LogSeq, limit: nat) -> Seq<(EntryView, u128)> {
    Seq::new(capped(limit, log.len()), |i: int| (row_back(log, i).1, row_back(log, i).0))
}

/// One more row at position `p`, between the smaller keys and the larger
/// ones, is what `with_row` gives, and the log still rises.
pub proof fn lemma_with_row_insert(log: LogSeq, p: int, key: u128, entry: EntryView)
    requires
        ascending(log),
        0 <= p <= log.len(),
        forall|i: int| 0 <= i < p ==> (#[trigger] log[i]).0 < key,
        forall|i: int| p <= i < log.len() ==> key < (#[trigger] log[i]).0,
    ensures
        with_row(log, key, entry) == log.insert(p, (key, entry)),
        ascending(log.insert(p, (key, entry))),
    decreases log.len(),
{
    let row = (key, entry);
    if log.len() == 0 {
        assert(log.insert(p, row) =~= seq![row]);
    } else if p == log.len() {
        assert(log.insert(p, row) =~= log.push(row));
    } else {
        let front = log.drop_last();
        assert(ascending(front));
        lemma_with_row_insert(front, p, key, entry);
        assert(front.insert(p, row).push(log.last()) =~= log.insert(p, row));
        assert(key < log[log.len() - 1].0);
    }
    let longer = log.insert(p, row);
    assert forall|i: int, j: int| 0 <= i < j < longer.len() implies longer[i].0 < longer[j].0 by {
        if i < p {
            assert(longer[i] == log[i]);
        } else if i > p {
            assert(longer[i] == log[i - 1]);
        }
        if j < p {
            assert(longer[j] == log[j]);
        } else if j > p {
            assert(longer[j] == log[j - 1]);
        }
    }
}

/// A log that has the key is left as it is.
pub proof fn lemma_with_row_present(log: LogSeq, key: u128, entry: EntryView)
    requires
        ascending(log),
        has_key(log, key),
    ensures
        with_row(log, key, entry) == log,
    decreases log.len(),
{
    let p = choose|p: int| 0 <= p < log.len() && #[trigger] log[p].0 == key;
    if log.last().0 == key {
    } else {
        assert(p < log.len() - 1);
        let front = log.drop_last();
        assert(ascending(front));
        assert(front[p].0 == key);
        lemma_with_row_present(front, key, entry);
        assert(log[p].0 < log[log.len() - 1].0);
        assert(front.push(log.last()) =~= log);
    }
}

/// What `with_row` does to a rising log: it still rises, it has the key, it
/// has every key it had and no other, and the rows it had are still in it.
/// Where the key is new, the row `(key, entry)` is in it and it is one longer.
pub proof fn lemma_with_row(log: LogSeq, key: u128, entry: EntryView)
    requires
        ascending(log),
    ensures
        ascending(with_row(log, key, entry)),
        has_key(with_row(log, key, entry), key),
        forall|other: u128|
            has_key(with_row(log, key, entry), other) <==> (other == key || has_key(log, other)),
        forall|i: int|
            0 <= i < log.len() ==> with_row(log, key, entry).contains(#[trigger] log[i]),
        !has_key(log, key) ==> with_row(log, key, entry).contains((key, entry)) && with_row(
            log,
            key,
            entry,
        ).len() == log.len() + 1,
        has_key(log, key) ==> with_row(log, key, entry) == log,
    decreases log.len(),
{
    let out = with_row(log, key, entry);
    if has_key(log, key) {
        lemma_with_row_present(log, key, entry);
        assert forall|i: int| 0 <= i < log.len() implies out.contains(#[trigger] log[i]) by {
            assert(out[i] == log[i]);
        }
    } else {
        let p = first_above(log, key);
        lemma_first_above(log, key);
        lemma_with_row_insert(log, p, key, entry);
        assert(out[p] == (key, entry));
        assert(out[p].0 == key);
        assert forall|other: u128| has_key(out, other) <==> (other == key || has_key(
            log,
            other,
        )) by {
            if has_key(out, other) {
                let i = choose|i: int| 0 <= i < out.len() && #[trigger] out[i].0 == other;
                if i < p {
                    assert(log[i].0 == other);
                } else if i > p {
                    assert(log[i - 1].0 == other);
                }
            }
            if has_key(log, other) {
                let i = choose|i: int| 0 <= i < log.len() && #[trigger] log[i].0 == other;
                if i < p {
                    assert(out[i].0 == other);
                } else {
                    assert(out[i + 1].0 == other);
                }
            }
        }
        assert forall|i: int| 0 <= i < log.len() implies out.contains(#[trigger] log[i]) by {
            if i < p {
                assert(out[i] == log[i]);
            } else {
                assert(out[i + 1] == log[i]);
            }
        }
    }
}

/// The number of rows whose key is below `key`: in a rising log, the place
/// where a row of that key belongs.
pub open spec fn first_above(log: LogSeq, key: u128) -> int
    decreases log.len(),
{
    if log.len() == 0 {
        0
    } else if log.last().0 < key {
        log.len() as int
    } else {
        first_above(log.drop_last(), key)
    }
}

/// In a rising log, `first_above` parts the keys below `key` from the others.
pub proof fn lemma_first_above(log: LogSeq, key: u128)
    requires
        ascending(log),
    ensures
        0 <= first_above(log, key) <= log.len(),
        forall|i: int| 0 <= i < first_above(log, key) ==> (#[trigger] log[i]).0 < key,
        forall|i: int| first_above(log, key) <= i < log.len() ==> key <= (#[trigger] log[i]).0,
        !has_key(log, key) ==> forall|i: int|
            first_above(log, key) <= i < log.len() ==> key < (#[trigger] log[i]).0,
    decreases log.len(),
{
    if log.len() == 0 {
    } else if log.last().0 < key {
        assert forall|i: int| 0 <= i < log.len() implies (#[trigger] log[i]).0 < key by {
            if i < log.len() - 1 {
                assert(log[i].0 < log[log.len() - 1].0);
            }
        }
    } else {
        let front = log.drop_last();
        assert(ascending(front));
        lemma_first_above(front, key);
        assert forall|i: int| 0 <= i < first_above(log, key) implies (#[trigger] log[i]).0
            < key by {
            assert(front[i] == log[i]);
        }
        assert forall|i: int| first_above(log, key) <= i < log.len() implies key <= (
        #[trigger] log[i]).0 by {
            if i < log.len() - 1 {
                assert(front[i] == log[i]);
            }
        }
    }
    if !has_key(log, key) {
        assert forall|i: int| first_above(log, key) <= i < log.len() implies key < (
        #[trigger] log[i]).0 by {
            assert(log[i].0 != key);
        }
    }
}

/// A row whose key is above every key of the log goes to its end.
pub proof fn lemma_with_row_newest(log: LogSeq, key: u128, entry: EntryView)
    requires
        ascending(log),
        newest(log) matches Some(top) ==> top < key,
    ensures
        with_row(log, key, entry) == log.push((key, entry)),
        ascending(log.push((key, entry))),
        !has_key(log, key),
{
    assert forall|i: int| 0 <= i < log.len() implies (#[trigger] log[i]).0 < key by {
        if i < log.len() - 1 {
            assert(log[i].0 < log[log.len() - 1].0);
        }
    }
    lemma_with_row_insert(log, log.len() as int, key, entry);
    assert(log.insert(log.len() as int, (key, entry)) =~= log.push((key, entry)));
}

/// The log after each row of the listing, in order, is written as a replica.
pub open spec fn with_rows(log: LogSeq, keyed: Seq<(EntryView, u128)>) -> LogSeq
    decreases keyed.len(),
{
    if keyed.len() == 0 {
        log
    } else {
        with_row(with_rows(log, keyed.drop_last()), keyed.last().1, keyed.last().0)
    }
}

/// Writing rows as replicas keeps the log rising, loses no row and leaves
/// every key of the listing in the log.
pub proof fn lemma_with_rows(log: LogSeq, keyed: Seq<(EntryView, u128)>)
    requires
        ascending(log),
    ensures
        ascending(with_rows(log, keyed)),
        forall|i: int| 0 <= i < log.len() ==> with_rows(log, keyed).contains(#[trigger] log[i]),
        forall|key: u128| has_key(log, key) ==> has_key(with_rows(log, keyed), key),
        forall|i: int|
            0 <= i < keyed.len() ==> has_key(with_rows(log, keyed), (#[trigger] keyed[i]).1),
        forall|i: int|
            0 <= i < keyed.len() && !has_key(log, (#[trigger] keyed[i]).1) && (forall|j: int|
                0 <= j < i ==> (#[trigger] keyed[j]).1 != keyed[i].1) ==> with_rows(
                log,
                keyed,
            ).contains((keyed[i].1, keyed[i].0)),
    decreases keyed.len(),
{
    if keyed.len() > 0 {
        let front = keyed.drop_last();
        let last = keyed.last();
        lemma_with_rows(log, front);
        let middle = with_rows(log, front);
        lemma_with_row(middle, last.1, last.0);
        let out = with_rows(log, keyed);
        assert forall|i: int| 0 <= i < log.len() implies out.contains(#[trigger] log[i]) by {
            assert(middle.contains(log[i]));
            let k = choose|k: int| 0 <= k < middle.len() && middle[k] == log[i];
            assert(out.contains(middle[k]));
        }
        assert forall|i: int| 0 <= i < keyed.len() implies has_key(
            out,
            (#[trigger] keyed[i]).1,
        ) by {
            if i < front.len() {
                assert(front[i] == keyed[i]);
            }
        }
        assert forall|i: int|
            0 <= i < keyed.len() && !has_key(log, (#[trigger] keyed[i]).1) && (forall|j: int|
                0 <= j < i ==> (#[trigger] keyed[j]).1 != keyed[i].1) implies out.contains(
            (keyed[i].1, keyed[i].0),
        ) by {
            if i < front.len() {
                assert(front[i] == keyed[i]);
                assert forall|j: int| 0 <= j < i implies (#[trigger] front[j]).1 != front[i].1 by {
                    assert(front[j] == keyed[j]);
                }
                assert(middle.contains((keyed[i].1, keyed[i].0)));
                let k = choose|k: int| 0 <= k < middle.len() && middle[k] == (keyed[i].1, keyed[i].0);
                assert(out.contains(middle[k]));
            } else {
                if has_key(middle, last.1) {
                    lemma_key_source(log, front, last.1);
                    let j = choose|j: int| 0 <= j < front.len() && (#[trigger] front[j]).1 == last.1;
                    assert(keyed[j] == front[j]);
                }
            }
        }
    }
}

/// A key in the log after rows were written was in the log before or is the
/// key of one of the rows.
pub proof fn lemma_key_source(log: LogSeq, keyed: Seq<(EntryView, u128)>, key: u128)
    requires
        ascending(log),
        has_key(with_rows(log, keyed), key),
    ensures
        has_key(log, key) || exists|j: int|
            0 <= j < keyed.len() && (#[trigger] keyed[j]).1 == key,
    decreases keyed.len(),
{
    if keyed.len() > 0 {
        let front = keyed.drop_last();
        let last = keyed.last();
        lemma_with_rows(log, front);
        lemma_with_row(with_rows(log, front), last.1, last.0);
        if key == last.1 {
            assert(keyed[keyed.len() - 1].1 == key);
        } else {
            lemma_key_source(log, front, key);
            if !has_key(log, key) {
                let j = choose|j: int| 0 <= j < front.len() && (#[trigger] front[j]).1 == key;
                assert(keyed[j] == front[j]);
            }
        }
    }
}

/// The entry under a key, if the log has the key.
pub open spec fn entry_of(log: LogSeq, key: u128) -> Option<EntryView> {
    if has_key(log, key) {
        Some(log[choose|i: int| 0 <= i < log.len() && #[trigger] log[i].0 == key].1)
    } else {
        None
    }
}

/// In a rising log, the row of a key is the only one with it.
pub proof fn lemma_entry_of(log: LogSeq, i: int)
    requires
        ascending(log),
        0 <= i < log.len(),
    ensures
        entry_of(log, log[i].0) == Some(log[i].1),
{
    let key = log[i].0;
    let j = choose|j: int| 0 <= j < log.len() && #[trigger] log[j].0 == key;
    if j < i {
        assert(log[j].0 < log[i].0);
    } else if i < j {
        assert(log[i].0 < log[j].0);
    }
}

/// The keys of the log, oldest first.
pub open spec fn keys(log: LogSeq) -> Seq<u128> {
    log.map_values(|row: (u128, EntryView)| row.0)
}

} // verus!
