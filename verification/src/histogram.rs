//! The histogram of game lengths: how many games took how many turns, its
//! table as text, and its compact binary form.

use vstd::prelude::*;
use vstd::seq_lib::*;
use vstd::std_specs::hash::*;
use vstd::std_specs::iter::IteratorSpec;
use vstd::string::StringExecFns;
use std::collections::HashMap;
use crate::text::{decimal, push_decimal};

verus! {

/// The new count of the games that took `turns` turns, after one more such
/// game.
pub open spec fn counted(counts: Map<usize, usize>, turns: usize) -> int {
    if counts.contains_key(turns) {
        counts[turns] + 1
    } else {
        1
    }
}

/// Counts one more game that took `turns` turns.
pub fn record_game(counts: &mut HashMap<usize, usize>, turns: usize)
    requires
        counted(old(counts)@, turns) <= usize::MAX,
    ensures
        final(counts)@ == old(counts)@.insert(turns, counted(old(counts)@, turns) as usize),
{
    broadcast use group_hash_axioms;

    let before: Option<usize> = match counts.get(&turns) {
        Some(count) => Some(*count),
        None => None,
    };
    match before {
        Some(count) => {
            counts.insert(turns, count + 1);
        },
        None => {
            counts.insert(turns, 1);
        },
    }
}

/// Whether `rows` is the table of a histogram: one row for each length
/// that occurred, with its count, the shortest length first.
pub open spec fn is_table(rows: Seq<(usize, usize)>, counts: Map<usize, usize>) -> bool {
    &&& forall|i: int, j: int| 0 <= i < j < rows.len() ==> rows[i].0 < rows[j].0
    &&& forall|i: int|
        0 <= i < rows.len() ==> counts.contains_key(#[trigger] rows[i].0) && counts[rows[i].0]
            == rows[i].1
    &&& forall|turns: usize|
        counts.contains_key(turns) ==> exists|i: int|
            0 <= i < rows.len() && #[trigger] rows[i].0 == turns
}

/// A histogram has one table only.
pub proof fn lemma_table_unique(
    rows: Seq<(usize, usize)>,
    other: Seq<(usize, usize)>,
    counts: Map<usize, usize>,
)
    requires
        is_table(rows, counts),
        is_table(other, counts),
    ensures
        rows == other,
    decreases rows.len(),
{
    if rows.len() == 0 {
        if other.len() > 0 {
            assert(counts.contains_key(other[0].0));
        }
        assert(rows =~= other);
    } else {
        let last = rows.last();
        assert(counts.contains_key(rows[rows.len() - 1].0));
        let at = choose|i: int| 0 <= i < other.len() && #[trigger] other[i].0 == last.0;
        if at < other.len() - 1 {
            let beyond = other[other.len() - 1].0;
            assert(counts.contains_key(beyond));
            let back = choose|i: int| 0 <= i < rows.len() && #[trigger] rows[i].0 == beyond;
            assert(rows[back].0 <= last.0);
        }
        let rest = counts.remove(last.0);
        assert forall|turns: usize| rest.contains_key(turns) implies exists|i: int|
            0 <= i < rows.drop_last().len() && #[trigger] rows.drop_last()[i].0 == turns by {
            let i = choose|i: int| 0 <= i < rows.len() && #[trigger] rows[i].0 == turns;
            assert(rows.drop_last()[i].0 == turns);
        }
        assert forall|turns: usize| rest.contains_key(turns) implies exists|i: int|
            0 <= i < other.drop_last().len() && #[trigger] other.drop_last()[i].0 == turns by {
            let i = choose|i: int| 0 <= i < other.len() && #[trigger] other[i].0 == turns;
            assert(other.drop_last()[i].0 == turns);
        }
        assert(is_table(rows.drop_last(), rest)) by {
            assert forall|i: int| 0 <= i < rows.drop_last().len() implies rest.contains_key(
                #[trigger] rows.drop_last()[i].0,
            ) && rest[rows.drop_last()[i].0] == rows.drop_last()[i].1 by {
                assert(rows[i].0 < rows[rows.len() - 1].0);
                assert(counts.contains_key(rows[i].0));
            }
        }
        assert(is_table(other.drop_last(), rest)) by {
            assert forall|i: int| 0 <= i < other.drop_last().len() implies rest.contains_key(
                #[trigger] other.drop_last()[i].0,
            ) && rest[other.drop_last()[i].0] == other.drop_last()[i].1 by {
                assert(other[i].0 < other[other.len() - 1].0);
                assert(counts.contains_key(other[i].0));
            }
        }
        lemma_table_unique(rows.drop_last(), other.drop_last(), rest);
        assert(counts.contains_key(other[at].0));
        assert(rows =~= rows.drop_last().push(last));
        assert(other =~= other.drop_last().push(other[at]));
    }
}

/// `sort_by_key` of std's slices, with the length as the key: it puts the
/// rows in ascending order of their lengths and keeps each row as often as
/// it was there.
#[verifier::external_body]
fn sort_rows(rows: &mut Vec<(usize, usize)>)
    ensures
        final(rows)@.to_multiset() == old(rows)@.to_multiset(),
        forall|i: int, j: int|
            0 <= i <= j < final(rows)@.len() ==> final(rows)@[i].0 <= final(rows)@[j].0,
{
    rows.sort_by_key(|(k, _)| *k);
}

/// The table of a histogram.
pub fn table_rows(counts: &HashMap<usize, usize>) -> (rows: Vec<(usize, usize)>)
    ensures
        is_table(rows@, counts@),
{
    broadcast use group_hash_axioms;

    let mut rows: Vec<(usize, usize)> = Vec::new();
    let ghost entries = counts.iter().remaining();
    for entry in it: counts.iter()
        invariant
            it.seq() == entries,
            rows@.len() == it.index(),
            forall|i: int|
                0 <= i < rows@.len() ==> #[trigger] rows@[i] == (*entries[i].0, *entries[i].1),
    {
        rows.push((*entry.0, *entry.1));
    }
    let ghost unsorted = rows@;
    proof {
        assert(entries.no_duplicates());
        assert forall|i: int, j: int|
            0 <= i < unsorted.len() && 0 <= j < unsorted.len() && i != j implies unsorted[i]
            != unsorted[j] by {
            assert(entries[i] != entries[j]);
        }
        unsorted.lemma_multiset_has_no_duplicates();
    }
    sort_rows(&mut rows);
    proof {
        let sorted = rows@;
        sorted.lemma_multiset_has_no_duplicates_conv();
        assert forall|i: int| 0 <= i < sorted.len() implies counts@.contains_key(
            #[trigger] sorted[i].0,
        ) && counts@[sorted[i].0] == sorted[i].1 by {
            to_multiset_contains(sorted, sorted[i]);
            to_multiset_contains(unsorted, sorted[i]);
            assert(sorted.contains(sorted[i]));
            let at = choose|at: int| 0 <= at < unsorted.len() && unsorted[at] == sorted[i];
            assert(counts@.contains_key(*entries[at].0));
        }
        assert forall|i: int, j: int| 0 <= i < j < sorted.len() implies sorted[i].0
            < sorted[j].0 by {
            assert(counts@.contains_key(sorted[i].0) && counts@.contains_key(sorted[j].0));
            assert(sorted[i] != sorted[j]);
        }
        assert forall|turns: usize| counts@.contains_key(turns) implies exists|i: int|
            0 <= i < sorted.len() && #[trigger] sorted[i].0 == turns by {
            let pair = (&turns, &counts@[turns]);
            assert(entries.contains(pair));
            let at = choose|at: int| 0 <= at < entries.len() && entries[at] == pair;
            assert(unsorted[at] == (turns, counts@[turns]));
            assert(unsorted.contains(unsorted[at]));
            to_multiset_contains(unsorted, unsorted[at]);
            to_multiset_contains(sorted, unsorted[at]);
            let i = choose|i: int| 0 <= i < sorted.len() && sorted[i] == unsorted[at];
            assert(sorted[i].0 == turns);
        }
    }
    rows
}

/// The rows of a table as lines of text: a length, a comma and the count.
pub open spec fn rows_text(rows: Seq<(usize, usize)>) -> Seq<char>
    decreases rows.len(),
{
    if rows.len() == 0 {
        Seq::empty()
    } else {
        rows_text(rows.drop_last()) + decimal(rows.last().0 as nat) + ", "@ + decimal(
            rows.last().1 as nat,
        ) + "\n"@
    }
}

/// A table as text: a line of headings, then the rows.
pub open spec fn table_text(rows: Seq<(usize, usize)>) -> Seq<char> {
    "length, count\n"@ + rows_text(rows)
}

/// Writes a table out as text, row by row, under a line of headings.
pub fn print_table(rows: &Vec<(usize, usize)>) -> (text: String)
    ensures
        text@ == table_text(rows@),
{
    let mut text = String::new();
    text.append("length, count\n");
    let mut i: usize = 0;
    assert(rows@.take(0) =~= Seq::empty());
    while i < rows.len()
        invariant
            i <= rows.len(),
            text@ == table_text(rows@.take(i as int)),
        decreases rows.len() - i,
    {
        let ghost before = text@;
        let row = rows[i];
        push_decimal(&mut text, row.0);
        text.append(", ");
        push_decimal(&mut text, row.1);
        text.append("\n");
        assert(rows@.take(i + 1).drop_last() == rows@.take(i as int));
        assert(text@ =~= table_text(rows@.take(i + 1)));
        i = i + 1;
    }
    assert(rows@.take(i as int) == rows@);
    text
}

/// The table of a histogram as text.
pub fn csv_table(counts: &HashMap<usize, usize>) -> (text: String)
    ensures
        exists|rows: Seq<(usize, usize)>| #[trigger] is_table(rows, counts@),
        forall|rows: Seq<(usize, usize)>| #[trigger]
            is_table(rows, counts@) ==> text@ == table_text(rows),
{
    let rows = table_rows(counts);
    proof {
        assert forall|other: Seq<(usize, usize)>| #[trigger]
            is_table(other, counts@) implies other == rows@ by {
            lemma_table_unique(other, rows@, counts@);
        }
    }
    print_table(&rows)
}

/// `rmp_serde::decode::Error`, the reason why bytes could not be read.
#[verifier::external_type_specification]
#[verifier::external_body]
pub struct ExDecodeError(rmp_serde::decode::Error);

/// `rmp_serde::encode::Error`, the reason why a value could not be written.
#[verifier::external_type_specification]
#[verifier::external_body]
pub struct ExEncodeError(rmp_serde::encode::Error);

/// The histogram that `rmp_serde::from_slice` reads out of MessagePack
/// bytes, or `None` where it reports an error.
pub uninterp spec fn msgpack_counts(bytes: Seq<u8>) -> Option<Map<usize, usize>>;

/// `rmp_serde::from_slice`, reading a histogram: what it returns depends on
/// the bytes alone and has the name `msgpack_counts`.
#[verifier::external_body]
fn from_msgpack(bytes: &[u8]) -> (decoded: Result<HashMap<usize, usize>, rmp_serde::decode::Error>)
    ensures
        decoded is Ok ==> msgpack_counts(bytes@) == Some(decoded.unwrap()@),
        decoded is Err ==> msgpack_counts(bytes@) is None,
{
    rmp_serde::from_slice::<HashMap<usize, usize>>(bytes)
}

/// `rmp_serde::to_vec`, writing a histogram as a MessagePack map. The
/// order of the entries follows the map's own, so the bytes themselves get
/// no name. What is claimed is the pairing that the crate documents:
/// `rmp_serde::from_slice` reads out of these bytes the histogram that was
/// written. The length of the map is written in 32 bits, so this is
/// claimed of histograms with no more entries than that. Whether the
/// bytes can be had at all is left open: `to_vec` fails when it gets no
/// memory for them.
#[verifier::external_body]
fn to_msgpack(counts: &HashMap<usize, usize>) -> (encoded: Result<
    Vec<u8>,
    rmp_serde::encode::Error,
>)
    ensures
        encoded is Ok && counts@.len() <= u32::MAX ==> msgpack_counts(encoded.unwrap()@) == Some(
            counts@,
        ),
{
    rmp_serde::to_vec(counts)
}

/// A histogram could not be written as bytes.
#[derive(Debug, Clone, Copy, PartialEq, Eq, Structural)]
pub struct EncodingFailed;

/// Reads a histogram from its binary form, if the bytes hold one.
pub fn decode_state(bytes: &[u8]) -> (counts: Option<HashMap<usize, usize>>)
    ensures
        counts is Some ==> msgpack_counts(bytes@) == Some(counts.unwrap()@),
        counts is None ==> msgpack_counts(bytes@) is None,
{
    match from_msgpack(bytes) {
        Ok(counts) => Some(counts),
        Err(_) => None,
    }
}

/// The histogram to go on with: the one that was read, or an empty one
/// where none could be read.
pub fn state_or_empty(loaded: Option<HashMap<usize, usize>>) -> (counts: HashMap<usize, usize>)
    ensures
        counts@ == match loaded {
            Some(read) => read@,
            None => Map::empty(),
        },
{
    match loaded {
        Some(read) => read,
        None => HashMap::new(),
    }
}

/// The histogram that was stored before: `stored` holds the bytes that
/// were found, if any. Without bytes, or with bytes that hold no
/// histogram, counting starts anew.
pub fn load_state(stored: Option<Vec<u8>>) -> (counts: HashMap<usize, usize>)
    ensures
        counts@ == match stored {
            Some(bytes) => match msgpack_counts(bytes@) {
                Some(read) => read,
                None => Map::empty(),
            },
            None => Map::empty(),
        },
{
    let loaded = match stored {
        Some(bytes) => decode_state(bytes.as_slice()),
        None => None,
    };
    state_or_empty(loaded)
}

/// What is handed on after an attempt to write a histogram: the bytes,
/// or the failure without its reason.
pub fn encoded_or_failed(encoded: Result<Vec<u8>, rmp_serde::encode::Error>) -> (bytes: Result<
    Vec<u8>,
    EncodingFailed,
>)
    ensures
        encoded is Ok ==> bytes == Ok::<Vec<u8>, EncodingFailed>(encoded.unwrap()),
        encoded is Err ==> bytes == Err::<Vec<u8>, EncodingFailed>(EncodingFailed),
{
    match encoded {
        Ok(bytes) => Ok(bytes),
        Err(_) => Err(EncodingFailed),
    }
}

/// Writes a histogram in its binary form: bytes out of which
/// `decode_state` and `load_state` read the same histogram again, as long
/// as it has no more than `u32::MAX` entries.
pub fn encode_state(counts: &HashMap<usize, usize>) -> (bytes: Result<Vec<u8>, EncodingFailed>)
    ensures
        bytes is Ok && counts@.len() <= u32::MAX ==> msgpack_counts(bytes.unwrap()@) == Some(
            counts@,
        ),
{
    encoded_or_failed(to_msgpack(counts))
}

} // verus!
