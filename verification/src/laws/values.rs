//! Values: identities, references, records and files, by what they consist of.

use vstd::prelude::*;

use crate::block::{decodes, distinct, lemma_distinct_index, null_hash, BlockView, History};
use crate::capture::{
    capture_begins, capture_continues, Argument, Capture, Captured, Outcome, Task,
};
use crate::chain::said;
use crate::effect::{Effect, EffectView};
use crate::error::{ChainError, ErrorKind};
use crate::file::{conflicts, empty_file, ChainFile, FileView};
use crate::frame::{accepted, flat, framed, intact, payload_of, sha256_of, total};
use crate::laws::history::{
    law_finalization_drops_exactly_the_covered_transactions,
    law_publication_adds_exactly_one_transaction,
};
use crate::map::{ascending, entry_map, entry_of, has_entry, lemma_entry_map_index};
use crate::path::{from_root, has_empty_segment, SubjectPath};
use crate::record::{Element, ElementRef, MutationRecord};
use crate::scalar::{hex, is_identity, law_identity_is_unambiguous, stored, CollectionRef, Scalar};
use crate::store::{
    all_records, any_malformed, captured, captures, identities,
    law_captures_are_exactly_the_references, malformed, orphaned, resolution_refusal, resolved,
    text_before, texts, Resolution, Resolved,
};
use crate::txn::{covered, TxnId};

verus! {

/// A transaction comes before another if its time is earlier; at one time, if its nonce is less;
/// with one nonce, if its trace is less as one big-endian number.
pub proof fn law_replay_order_is_lexicographic(a: TxnId, b: TxnId)
    ensures
        a.time < b.time ==> a.before(b),
        a.time == b.time && a.nonce < b.nonce ==> a.before(b),
        a.time == b.time && a.nonce == b.nonce ==> {
            let width = 0x1_0000_0000_0000_0000_0000_0000_0000_0000int;
            a.before(b) <==> a.trace_high * width + a.trace_low < b.trace_high * width
                + b.trace_low
        },
        b.time < a.time ==> !a.before(b),
        a.time == b.time && b.nonce < a.nonce ==> !a.before(b),
{
}

/// A cutoff covers itself and every transaction before it, and no other. Without a cutoff nothing
/// is covered.
pub proof fn law_cutoffs_cover_what_does_not_come_after(cutoff: TxnId, id: TxnId)
    ensures
        covered(Some(cutoff), id) <==> id == cutoff || id.before(cutoff),
        !covered(None, id),
{
}

/// The value of a lower-case hexadecimal digit.
pub open spec fn digit_value(c: char) -> Option<int> {
    if '0' <= c && c <= '9' {
        Some(c as int - '0' as int)
    } else if 'a' <= c && c <= 'f' {
        Some(c as int - 'a' as int + 10)
    } else {
        None
    }
}

/// A name has two lower-case hexadecimal digits for each byte of the hash, the higher one first.
pub proof fn law_names_spell_hashes(hash: Seq<u8>, i: int)
    requires
        0 <= i < hash.len(),
    ensures
        hex(hash).len() == 2 * hash.len(),
        digit_value(hex(hash)[2 * i]) matches Some(high) && digit_value(
            hex(hash)[2 * i + 1],
        ) matches Some(low) && 16 * high + low == hash[i],
{
}

/// The hash which a name spells.
spec fn spelled(name: Seq<char>) -> Seq<u8> {
    Seq::new(
        name.len() / 2,
        |i: int| (16 * digit_value(name[2 * i])->0 + digit_value(name[2 * i + 1])->0) as u8,
    )
}

/// The identities are the names of the hashes of 32 bytes.
pub proof fn law_identities_are_the_names_of_hashes(name: Seq<char>)
    ensures
        is_identity(name) <==> exists|hash: Seq<u8>| hash.len() == 32 && #[trigger] hex(hash)
            == name,
{
    if is_identity(name) {
        let hash = spelled(name);
        assert forall|i: int| 0 <= i < name.len() implies hex(hash)[i] == name[i] by {
            let j = i / 2;
            let high = digit_value(name[2 * j])->0;
            let low = digit_value(name[2 * j + 1])->0;
            assert(digit_value(name[2 * j]) is Some);
            assert(digit_value(name[2 * j + 1]) is Some);
            assert(hash[j] == 16 * high + low);
        }
        assert(hex(hash) =~= name);
    }
    if exists|hash: Seq<u8>| hash.len() == 32 && #[trigger] hex(hash) == name {
        let hash = choose|hash: Seq<u8>| hash.len() == 32 && #[trigger] hex(hash) == name;
        law_identity_is_unambiguous(hash, hash);
    }
}

/// A literal is no reference. A GET reference is one to a stored collection exactly if it is scoped
/// to the name of a hash; every other reference is refused.
pub proof fn law_only_references_to_hashes_are_stored(text: String, found: CollectionRef)
    ensures
        stored(Scalar::Literal(text)) == Ok::<_, ChainError>(None::<CollectionRef>),
        stored(Scalar::Ref(text)) == Err::<Option<CollectionRef>, _>(ChainError::InvalidReference),
        stored(Scalar::Get(found)) == if exists|hash: Seq<u8>|
            hash.len() == 32 && #[trigger] hex(hash) == found.name@ {
            Ok(Some(found))
        } else {
            Err(ChainError::InvalidReference)
        },
{
    law_identities_are_the_names_of_hashes(found.name@);
}

/// A PUT is persisted as its route, its key and its value, a DELETE as its route and its key, and a
/// restoration as its reference, in this order; and it is read from just these.
pub proof fn law_records_are_persisted_field_by_field(
    path: SubjectPath,
    key: Scalar,
    value: Scalar,
)
    ensures
        ({
            let put = MutationRecord::Put(path, key, value).elements();
            &&& put.len() == 3
            &&& put[0] == Element::Path(path)
            &&& put[1] == Element::Value(key)
            &&& put[2] == Element::Value(value)
            &&& MutationRecord::decoded(put) == Ok::<_, ChainError>(
                MutationRecord::Put(path, key, value),
            )
        }),
        ({
            let delete = MutationRecord::Delete(path, key).elements();
            &&& delete.len() == 2
            &&& delete[0] == Element::Path(path)
            &&& delete[1] == Element::Value(key)
            &&& MutationRecord::decoded(delete) == Ok::<_, ChainError>(
                MutationRecord::Delete(path, key),
            )
        }),
        ({
            let restore = MutationRecord::Restore(value).elements();
            &&& restore.len() == 1
            &&& restore[0] == Element::Value(value)
            &&& !misrefers(MutationRecord::Restore(value)) && !(value is Literal)
                ==> MutationRecord::decoded(restore) == Ok::<_, ChainError>(
                MutationRecord::Restore(value),
            )
        }),
        MutationRecord::Put(path, key, value).spec_value() == Some(value),
        MutationRecord::Delete(path, key).spec_value() is None,
        MutationRecord::Restore(value).spec_value() == Some(value),
{
    let put = MutationRecord::Put(path, key, value).elements();
    assert(put[0] == Element::Path(path) && put[1] == Element::Value(key));
    let delete = MutationRecord::Delete(path, key).elements();
    assert(delete[0] == Element::Path(path));
    let restore = MutationRecord::Restore(value).elements();
    assert(restore[0] == Element::Value(value));
}

/// Only the elements of a PUT, of a DELETE or of a restoration are read as a record, and what is
/// read is persisted as those elements.
pub proof fn law_only_persisted_records_are_read(elements: Seq<Element>)
    ensures
        MutationRecord::decoded(elements) matches Ok(record) ==> record.elements() == elements,
        MutationRecord::decoded(elements) is Ok <==> {
            ||| elements.len() == 1 && (elements[0] matches Element::Value(Scalar::Get(found))
                && is_identity(found.name@))
            ||| elements.len() == 2 && elements[0] is Path && elements[1] is Value
            ||| elements.len() == 3 && elements[0] is Path && elements[1] is Value && elements[2]
                is Value
        },
        MutationRecord::decoded(elements) matches Err(error) ==> {
            &&& error is InvalidLength || error == ChainError::InvalidRecord
            &&& elements.len() > 0 && elements[0] is Value ==> error == ChainError::InvalidRecord
            &&& elements.len() == 0 ==> error == ChainError::InvalidLength(0)
            &&& elements.len() == 1 && elements[0] is Path ==> error == ChainError::InvalidLength(1)
            &&& elements.len() > 3 && elements[0] is Path && elements[1] is Value && elements[2]
                is Value ==> error == ChainError::InvalidLength(4)
        },
{
    if let Ok(record) = MutationRecord::decoded(elements) {
        assert(record.elements() =~= elements);
    }
}

/// The stored collection which a record names, if its value is a GET reference.
pub open spec fn refers(record: MutationRecord) -> Option<CollectionRef> {
    match record {
        MutationRecord::Put(_, _, Scalar::Get(found)) => Some(found),
        MutationRecord::Restore(Scalar::Get(found)) => Some(found),
        _ => None,
    }
}

/// Whether the value of a record is a reference which names no stored collection.
pub open spec fn misrefers(record: MutationRecord) -> bool {
    match record {
        MutationRecord::Put(_, _, Scalar::Ref(_)) => true,
        MutationRecord::Restore(Scalar::Ref(_)) => true,
        _ => refers(record) matches Some(found) && !exists|hash: Seq<u8>|
            hash.len() == 32 && #[trigger] hex(hash) == found.name@,
    }
}

/// A record captures the collection to which its value refers, unless the reference is malformed.
pub proof fn law_records_capture_what_they_refer_to(record: MutationRecord)
    ensures
        malformed(record) <==> misrefers(record),
        !misrefers(record) ==> captured(record) == refers(record),
        misrefers(record) ==> captured(record) is None,
{
    if let Some(found) = refers(record) {
        law_identities_are_the_names_of_hashes(found.name@);
    }
}

/// Whether a record belongs to a transaction of a history.
pub open spec fn holds(history: History, record: MutationRecord) -> bool {
    exists|i: int, j: int|
        0 <= i < history.len() && 0 <= j < history[i].1.len() && #[trigger] history[i].1[j]
            == record
}

/// Every record of every transaction is among the records of a history, and no other is.
proof fn lemma_all_records(history: History, record: MutationRecord)
    ensures
        all_records(history).contains(record) <==> holds(history, record),
    decreases history.len(),
{
    if history.len() > 0 {
        let init = history.drop_last();
        let records = history.last().1;
        let before = all_records(init);
        let all = all_records(history);
        lemma_all_records(init, record);
        if all.contains(record) {
            let n = choose|n: int| 0 <= n < all.len() && all[n] == record;
            if n < before.len() {
                assert(before[n] == record);
                let (i, j) = choose|i: int, j: int|
                    0 <= i < init.len() && 0 <= j < init[i].1.len() && #[trigger] init[i].1[j]
                        == record;
                assert(history[i].1[j] == record);
            } else {
                assert(history[history.len() - 1].1[n - before.len()] == record);
            }
        }
        if holds(history, record) {
            let (i, j) = choose|i: int, j: int|
                0 <= i < history.len() && 0 <= j < history[i].1.len()
                    && #[trigger] history[i].1[j] == record;
            if i < init.len() {
                assert(init[i].1[j] == record);
                let n = choose|n: int| 0 <= n < before.len() && before[n] == record;
                assert(all[n] == record);
            } else {
                assert(all[before.len() + j] == record);
            }
        }
    }
}

/// A history names exactly the captures to which a record of one of its transactions refers, and it
/// is malformed exactly if a record of one of its transactions is.
pub proof fn law_histories_name_every_capture(history: History, name: Seq<char>)
    ensures
        any_malformed(all_records(history)) <==> exists|i: int, j: int|
            0 <= i < history.len() && 0 <= j < history[i].1.len() && misrefers(
                #[trigger] history[i].1[j],
            ),
        !any_malformed(all_records(history)) ==> (captures(all_records(history)).contains(name)
            <==> exists|i: int, j: int|
            0 <= i < history.len() && 0 <= j < history[i].1.len() && (refers(
                #[trigger] history[i].1[j],
            ) matches Some(found) && found.name@ == name)),
{
    let all = all_records(history);
    law_requests_name_every_capture(all, name);
    assert forall|record: MutationRecord| #[trigger] all.contains(record) == holds(
        history,
        record,
    ) by {
        lemma_all_records(history, record);
    }
    if any_malformed(all) {
        let n = choose|n: int| 0 <= n < all.len() && misrefers(#[trigger] all[n]);
        assert(all.contains(all[n]));
        let (i, j) = choose|i: int, j: int|
            0 <= i < history.len() && 0 <= j < history[i].1.len() && #[trigger] history[i].1[j]
                == all[n];
        assert(misrefers(history[i].1[j]));
    }
    assert forall|i: int, j: int|
        0 <= i < history.len() && 0 <= j < history[i].1.len() implies exists|n: int|
        0 <= n < all.len() && #[trigger] all[n] == #[trigger] history[i].1[j] by {
        assert(holds(history, history[i].1[j]));
        assert(all.contains(history[i].1[j]));
    }
    if !any_malformed(all) && captures(all).contains(name) {
        let n = choose|n: int|
            0 <= n < all.len() && (refers(#[trigger] all[n]) matches Some(found) && found.name@
                == name);
        assert(all.contains(all[n]));
        let (i, j) = choose|i: int, j: int|
            0 <= i < history.len() && 0 <= j < history[i].1.len() && #[trigger] history[i].1[j]
                == all[n];
        assert(refers(history[i].1[j]) matches Some(found) && found.name@ == name);
    }
}

/// Requests name exactly the captures to which one of them refers, and they are malformed exactly
/// if one of them is.
pub proof fn law_requests_name_every_capture(records: Seq<MutationRecord>, name: Seq<char>)
    ensures
        any_malformed(records) <==> exists|i: int|
            0 <= i < records.len() && misrefers(#[trigger] records[i]),
        !any_malformed(records) ==> (captures(records).contains(name) <==> exists|i: int|
            0 <= i < records.len() && (refers(#[trigger] records[i]) matches Some(found)
                && found.name@ == name)),
{
    law_captures_are_exactly_the_references(records);
    assert forall|i: int| 0 <= i < records.len() implies malformed(#[trigger] records[i])
        == misrefers(records[i]) && (!misrefers(records[i]) ==> captured(records[i]) == refers(
        records[i],
    )) by {
        law_records_capture_what_they_refer_to(records[i]);
    }
}

/// The captures of requests are in ascending order of their names, compared character by character,
/// and none is named twice.
pub proof fn law_captures_are_sorted(records: Seq<MutationRecord>, i: int, j: int)
    requires
        0 <= i < j < captures(records).len(),
    ensures
        ({
            let a = captures(records)[i];
            let b = captures(records)[j];
            exists|k: int|
                0 <= k <= a.len() && k < b.len() && #[trigger] a.take(k) == b.take(k) && (k
                    == a.len() || a[k] < b[k])
        }),
{
    law_captures_are_exactly_the_references(records);
    lemma_text_before(captures(records)[i], captures(records)[j]);
}

/// Where a text comes before another, they first differ.
proof fn lemma_text_before(a: Seq<char>, b: Seq<char>) -> (k: int)
    requires
        text_before(a, b),
    ensures
        0 <= k <= a.len(),
        k < b.len(),
        a.take(k) == b.take(k),
        k == a.len() || a[k] < b[k],
    decreases b.len(),
{
    if a.len() == 0 || a[0] != b[0] {
        assert(a.take(0) =~= b.take(0));
        0
    } else {
        let rest = lemma_text_before(a.drop_first(), b.drop_first());
        let k = rest + 1;
        assert forall|i: int| 0 <= i < k implies a[i] == b[i] by {
            if i > 0 {
                assert(a.drop_first().take(rest)[i - 1] == b.drop_first().take(rest)[i - 1]);
            }
        }
        assert(a.take(k) =~= b.take(k));
        k
    }
}

/// A stored collection may be used under a name exactly if it was loaded, and the name is the one
/// of its hash. Otherwise it is said what was wrong.
pub proof fn law_collections_are_used_only_under_their_names(name: Seq<char>, hash: Vec<u8>)
    ensures
        resolution_refusal(name, Resolution::Loaded(hash)) is None <==> name == hex(hash@),
        resolution_refusal(name, Resolution::Loaded(hash)) matches Some(e) ==> e
            == ChainError::CollectionChecksum,
        resolution_refusal(name, Resolution::Missing) == Some(ChainError::MissingCollection),
        resolution_refusal(name, Resolution::InvalidSchema) == Some(ChainError::InvalidSchema),
{
}

/// A name is an orphan exactly if it is listed and not retained; the orphans keep the order of the
/// list.
pub proof fn law_orphans_are_what_is_not_retained(
    names: Seq<Seq<char>>,
    retained: Seq<Seq<char>>,
    last: Seq<char>,
)
    ensures
        orphaned(Seq::empty(), retained) == Seq::<Seq<char>>::empty(),
        orphaned(names.push(last), retained) == if retained.contains(last) {
            orphaned(names, retained)
        } else {
            orphaned(names, retained).push(last)
        },
{
    reveal(Seq::filter);
    assert(names.push(last).drop_last() =~= names);
}

/// A new file has no cutoff, no unfinished update, no predecessor and no history.
pub proof fn law_new_files_are_empty()
    ensures
        empty_file().frontier is None,
        empty_file().materializing is None,
        empty_file().history().len() == 0,
        empty_file().block.previous_hash.len() == 32,
        forall|i: int| 0 <= i < 32 ==> #[trigger] empty_file().block.previous_hash[i] == 0,
{
}

/// A file may be loaded exactly if no canonical update is unfinished, its predecessor is null, and
/// each retained transaction has a record and comes after the finalized cutoff. An unfinished
/// update is reported before a predecessor, and a predecessor before a conflicting transaction.
pub proof fn law_files_are_refused_for_a_reason(file: FileView)
    ensures
        file.refusal() is None <==> {
            &&& file.materializing is None
            &&& file.block.previous_hash == Seq::new(32, |i: int| 0u8)
            &&& forall|i: int|
                0 <= i < file.block.history.len() ==> {
                    &&& (#[trigger] file.block.history[i]).1.len() > 0
                    &&& file.frontier matches Some(cutoff) ==> cutoff.before(
                        file.block.history[i].0,
                    )
                }
        },
        file.materializing is Some <==> file.refusal() == Some(ChainError::RecoveryRequired),
        file.materializing is None && file.block.previous_hash != Seq::new(32, |i: int| 0u8)
            <==> file.refusal() == Some(ChainError::InvalidPredecessor),
        file.refusal() matches Some(e) ==> e == ChainError::RecoveryRequired || e
            == ChainError::InvalidPredecessor || e == ChainError::ConflictingTransaction,
{
    assert(null_hash() =~= Seq::new(32, |i: int| 0u8));
    if file.refusal() is None {
        assert forall|i: int| 0 <= i < file.block.history.len() implies {
            &&& (#[trigger] file.block.history[i]).1.len() > 0
            &&& file.frontier matches Some(cutoff) ==> cutoff.before(file.block.history[i].0)
        } by {
            assert(!conflicts(file.frontier, file.history()[i]));
        }
    }
}

/// A file covers a cutoff exactly if it retains a transaction at or before it.
pub proof fn law_files_cover_what_they_retain(file: FileView, cutoff: TxnId)
    ensures
        file.covers(cutoff) <==> exists|i: int|
            0 <= i < file.block.history.len() && !cutoff.before(
                (#[trigger] file.block.history[i]).0,
            ),
{
    if file.covers(cutoff) {
        let i = choose|i: int|
            0 <= i < file.history().len() && covered(
                Some(cutoff),
                (#[trigger] file.history()[i]).0,
            );
        assert(!cutoff.before(file.block.history[i].0));
    }
    if exists|i: int|
        0 <= i < file.block.history.len() && !cutoff.before((#[trigger] file.block.history[i]).0) {
        let i = choose|i: int|
            0 <= i < file.block.history.len() && !cutoff.before(
                (#[trigger] file.block.history[i]).0,
            );
        assert(covered(Some(cutoff), file.history()[i].0));
    }
}

/// A published file differs from the one before only by the transaction, with just its records.
pub proof fn law_publication_changes_nothing_else(
    file: FileView,
    id: TxnId,
    records: Seq<MutationRecord>,
    other: TxnId,
)
    requires
        ascending(file.block.history),
        !has_entry(file.block.history, id),
    ensures
        ({
            let next = file.with_transaction(id, records);
            &&& next.frontier == file.frontier
            &&& next.materializing == file.materializing
            &&& next.block.previous_hash == file.block.previous_hash
            &&& next.block.history.len() == file.block.history.len() + 1
            &&& ascending(next.block.history)
            &&& next.block.history.contains((id, records))
            &&& other != id ==> has_entry(next.block.history, other) == has_entry(
                file.block.history,
                other,
            )
            &&& other != id && has_entry(file.block.history, other) ==> entry_of(
                next.block.history,
                other,
            ) == entry_of(file.block.history, other)
        }),
{
    law_publication_adds_exactly_one_transaction(file.history(), id, records);
    let all = file.with_transaction(id, records).block.history;
    assert(has_entry(all, other) || !has_entry(all, other));
    let k = choose|k: int| 0 <= k < all.len() && (#[trigger] all[k]).0 == id;
    assert(all[k] == (id, records));
}

/// A finalized file has the cutoff, no unfinished update, and of its history just what comes after
/// the cutoff. A file with an intent differs by the intent alone.
pub proof fn law_finalization_changes_nothing_else(file: FileView, cutoff: TxnId, id: TxnId)
    requires
        ascending(file.block.history),
    ensures
        ({
            let next = file.finalized(cutoff);
            &&& next.frontier == Some(cutoff)
            &&& next.materializing is None
            &&& next.block.previous_hash == file.block.previous_hash
            &&& ascending(next.block.history)
            &&& has_entry(next.block.history, id) <==> has_entry(file.block.history, id)
                && cutoff.before(id)
            &&& has_entry(next.block.history, id) ==> entry_of(next.block.history, id)
                == entry_of(file.block.history, id)
        }),
        ({
            let intent = file.with_intent(cutoff);
            &&& intent.frontier == file.frontier
            &&& intent.materializing == Some(cutoff)
            &&& intent.block == file.block
        }),
{
    law_finalization_drops_exactly_the_covered_transactions(file.history(), cutoff);
    let rest = file.finalized(cutoff).block.history;
    assert(has_entry(rest, id) || !has_entry(rest, id));
}

/// A transaction has an entry exactly if it occurs among the identities of the entries, and the
/// entry holds the records which stand beside it. Each transaction stands before all which come
/// after it.
pub proof fn law_entries_belong_to_their_transactions(
    history: History,
    id: TxnId,
    records: Seq<MutationRecord>,
)
    requires
        ascending(history),
    ensures
        has_entry(history, id) <==> history.map_values(
            |e: (TxnId, Seq<MutationRecord>)| e.0,
        ).contains(id),
        history.contains((id, records)) <==> has_entry(history, id) && entry_of(history, id)
            == records,
        forall|i: int, j: int|
            0 <= i < j < history.len() ==> (#[trigger] history[i]).0.before(
                (#[trigger] history[j]).0,
            ),
{
    let ids = history.map_values(|e: (TxnId, Seq<MutationRecord>)| e.0);
    if has_entry(history, id) {
        let k = choose|k: int| 0 <= k < history.len() && (#[trigger] history[k]).0 == id;
        assert(ids[k] == id);
        lemma_entry_map_index(history, k);
        assert(history[k] == (id, entry_of(history, id)));
    }
    if ids.contains(id) {
        let k = choose|k: int| 0 <= k < ids.len() && ids[k] == id;
        assert(history[k].0 == id);
    }
    if history.contains((id, records)) {
        let k = choose|k: int| 0 <= k < history.len() && history[k] == (id, records);
        lemma_entry_map_index(history, k);
    }
}

/// The bytes of a stream are those of its chunks, one after the other, and its length is the sum of
/// theirs.
pub proof fn law_streams_are_their_chunks(
    chunks: Seq<Vec<u8>>,
    next: Vec<u8>,
    lengths: Seq<usize>,
    length: usize,
)
    ensures
        flat(Seq::empty()) == Seq::<u8>::empty(),
        flat(chunks.push(next)) == flat(chunks) + next@,
        total(Seq::empty()) == 0,
        total(lengths.push(length)) == total(lengths) + length,
{
    assert(chunks.push(next).drop_last() =~= chunks);
    assert(lengths.push(length).drop_last() =~= lengths);
}

/// A file is intact exactly if it is the digest of some payload followed by that payload.
pub proof fn law_intact_files_begin_with_the_digest(bytes: Seq<u8>)
    ensures
        intact(bytes) <==> exists|digest: Seq<u8>, payload: Seq<u8>|
            digest.len() == 32 && bytes == #[trigger] (digest + payload) && digest == sha256_of(
                payload,
            ),
        bytes.len() >= 32 ==> bytes.take(32) + payload_of(bytes) == bytes,
        framed(bytes) == sha256_of(bytes) + bytes,
{
    if bytes.len() >= 32 {
        assert(bytes.take(32) + payload_of(bytes) =~= bytes);
    }
    if exists|digest: Seq<u8>, payload: Seq<u8>|
        digest.len() == 32 && bytes == #[trigger] (digest + payload) && digest == sha256_of(
            payload,
        ) {
        let (digest, payload) = choose|digest: Seq<u8>, payload: Seq<u8>|
            digest.len() == 32 && bytes == #[trigger] (digest + payload) && digest == sha256_of(
                payload,
            );
        assert(payload_of(bytes) =~= payload);
        assert(bytes.take(32) =~= digest);
    }
}

/// A file is shown with its own fields.
pub proof fn law_files_are_shown_as_they_are(file: ChainFile)
    ensures
        file@.frontier == file.frontier,
        file@.materializing == file.materializing,
        file@.block.previous_hash == file.block.previous_hash@,
        file@.block.history.len() == file.block.mutations.entries().len(),
        forall|i: int|
            0 <= i < file@.block.history.len() ==> {
                &&& (#[trigger] file@.block.history[i]).0 == file.block.mutations.entries()[i].0
                &&& file@.block.history[i].1 == file.block.mutations.entries()[i].1@
            },
{
}

/// What a scalar or another value is captured as: a literal is kept, a reference to a stored
/// collection is verified, a collection is identified, and everything else is refused.
pub proof fn law_captures_begin_by_kind(text: String, found: CollectionRef)
    ensures
        capture_begins(Argument::Scalar(Scalar::Literal(text))) == Ok::<_, ChainError>(
            Captured::Value(Scalar::Literal(text)),
        ),
        capture_begins(Argument::Scalar(Scalar::Ref(text))) == Err::<Captured, _>(
            ChainError::InvalidReference,
        ),
        capture_begins(Argument::Scalar(Scalar::Get(found))) == if exists|hash: Seq<u8>|
            hash.len() == 32 && #[trigger] hex(hash) == found.name@ {
            Ok(Captured::Pending(Capture::Verifying(found), Task::Resolve(found)))
        } else {
            Err(ChainError::InvalidReference)
        },
        capture_begins(Argument::Collection) == Ok::<_, ChainError>(
            Captured::Pending(Capture::Identifying, Task::Identify),
        ),
        capture_begins(Argument::Other) == Err::<Captured, _>(ChainError::UnsupportedValue),
{
    law_identities_are_the_names_of_hashes(found.name@);
}

/// A collection is looked for under the name of its hash, with its own class and schema.
pub proof fn law_collections_are_named_by_their_hash(
    hash: Vec<u8>,
    path: SubjectPath,
    schema: String,
    res: Result<Captured, ChainError>,
)
    requires
        capture_continues(
            Capture::Identifying,
            Outcome::Identified { hash, path, schema },
            res,
        ),
    ensures
        ({
            &&& res matches Ok(Captured::Pending(Capture::Probing(found), Task::Probe(name)))
            &&& found.path == path
            &&& found.schema == schema
            &&& found.name@ == name@
            &&& resolution_refusal(name@, Resolution::Loaded(hash)) is None
        }),
{
}

/// A collection of that name which is there already is not copied; one which is not there is copied
/// under that name. In either case it is verified before its reference is recorded, and what is
/// recorded is the reference by which it was looked for.
pub proof fn law_captures_are_copied_once_and_verified(
    found: CollectionRef,
    hash: Vec<u8>,
    res: Result<Captured, ChainError>,
)
    requires
        is_identity(found.name@),
    ensures
        capture_continues(Capture::Probing(found), Outcome::Probed(true), res) ==> res == Ok::<
            _,
            ChainError,
        >(Captured::Pending(Capture::Verifying(found), Task::Resolve(found))),
        capture_continues(Capture::Probing(found), Outcome::Probed(false), res) ==> {
            &&& res matches Ok(Captured::Pending(Capture::Copying(kept), Task::Copy(name)))
            &&& kept == found
            &&& name@ == found.name@
        },
        capture_continues(Capture::Copying(found), Outcome::Done, res) ==> res == Ok::<
            _,
            ChainError,
        >(Captured::Pending(Capture::Verifying(found), Task::Resolve(found))),
        capture_continues(
            Capture::Verifying(found),
            Outcome::Resolved(Resolution::Loaded(hash)),
            res,
        ) ==> res == if hex(hash@) == found.name@ {
            Ok(Captured::Value(Scalar::Get(found)))
        } else {
            Err(ChainError::CollectionChecksum)
        },
        capture_continues(
            Capture::Verifying(found),
            Outcome::Resolved(Resolution::Missing),
            res,
        ) ==> res == Err::<Captured, _>(ChainError::MissingCollection),
        capture_continues(
            Capture::Verifying(found),
            Outcome::Resolved(Resolution::InvalidSchema),
            res,
        ) ==> res == Err::<Captured, _>(ChainError::InvalidSchema),
{
}

/// A capture goes on only if its task was performed: a failure is reported as it is, and an outcome
/// of another task is refused. Only a collection named by a hash is verified.
pub proof fn law_captures_fail_with_their_tasks(
    capture: Capture,
    outcome: Outcome,
    res: Result<Captured, ChainError>,
)
    requires
        capture_continues(capture, outcome, res),
    ensures
        outcome matches Outcome::Failed(error) ==> res == Err::<Captured, _>(error),
        res is Ok ==> match capture {
            Capture::Identifying => outcome is Identified,
            Capture::Probing(_) => outcome is Probed,
            Capture::Copying(_) => outcome is Done,
            Capture::Verifying(found) => outcome matches Outcome::Resolved(
                Resolution::Loaded(hash),
            ) && hex(hash@) == found.name@,
        },
        res matches Ok(Captured::Value(value)) ==> capture matches Capture::Verifying(found)
            && value == Scalar::Get(found),
        res matches Ok(Captured::Pending(Capture::Verifying(found), _)) ==> exists|hash: Seq<u8>|
            hash.len() == 32 && #[trigger] hex(hash) == found.name@,
{
    if let Ok(Captured::Pending(Capture::Verifying(found), _)) = res {
        law_identities_are_the_names_of_hashes(found.name@);
    }
}

/// Which errors are conflicts, which say that data is invalid, and which say that the resource
/// cannot be used. A delegated error has the category and the text with which it was reported.
pub proof fn law_errors_have_categories(error: ChainError, kind: ErrorKind, text: String)
    ensures
        ChainError::Delegated(kind, text).spec_kind() == kind,
        ChainError::Delegated(kind, text).spec_message() == text@,
        ChainError::Invalid(text).spec_kind() == ErrorKind::InvalidData,
        ChainError::Invalid(text).spec_message() == text@,
        !(error is Delegated) ==> {
            &&& error.spec_kind() == ErrorKind::Conflict <==> (error is AlreadyPublished || error
                is Busy || error is Outdated || error is Committed || error is RolledBack || error
                is Failed || error is Unfinished || error is CapacityExhausted)
            &&& error.spec_kind() == ErrorKind::InvalidData <==> (error is InvalidLength || error
                is InvalidRecord || error is InvalidPath || error is DuplicateTransaction || error
                is PredecessorLength || error is FileChecksum || error is Invalid)
            &&& error.spec_kind() == ErrorKind::Unavailable <==> (error is Interrupted || error
                is RecoveryRequired)
            &&& error.spec_kind() == ErrorKind::UnexpectedEof <==> error is UnexpectedEof
            &&& error.spec_kind() == ErrorKind::Conflict || error.spec_kind()
                == ErrorKind::InvalidData || error.spec_kind() == ErrorKind::Unavailable
                || error.spec_kind() == ErrorKind::UnexpectedEof || error.spec_kind()
                == ErrorKind::BadRequest
        },
{
}

/// Each error is reported by its own text.
pub proof fn law_errors_have_texts(error: ChainError)
    ensures
        error is NotPersistent ==> error.spec_message()
            == "SyncChain requires a persistent collection owner"@,
        error is StorageNotEmpty ==> error.spec_message() == "creation requires empty WAL storage"@,
        error is QueueNotFresh ==> error.spec_message()
            == "the transaction queue has been used before"@,
        error is MissingBlock ==> error.spec_message() == "missing committed SyncChain block"@,
        error is InvalidPredecessor ==> error.spec_message() == "invalid SyncChain predecessor"@,
        error is RecoveryRequired ==> error.spec_message()
            == "unfinished materialization requires authoritative recovery"@,
        error is ConflictingTransaction ==> error.spec_message()
            == "conflicting or empty WAL transaction"@,
        error is IdentityMismatch ==> error.spec_message()
            == "recovery transaction identity mismatch"@,
        error is AlreadyPublished ==> error.spec_message() == "transaction already published"@,
        error is InvalidReference ==> error.spec_message()
            == "invalid stored collection reference"@,
        error is UnsupportedValue ==> error.spec_message()
            == "mutation values must be scalars or collections"@,
        error is InvalidSchema ==> error.spec_message() == "invalid collection schema"@,
        error is SchemaMismatch ==> error.spec_message()
            == "snapshot class and schema must match the subject"@,
        error is MissingCollection ==> error.spec_message() == "missing stored collection"@,
        error is CollectionChecksum ==> error.spec_message()
            == "stored collection checksum mismatch"@,
        error is InvalidLength || error is InvalidRecord ==> error.spec_message()
            == "expected a DELETE (path, key), a PUT (path, key, value) or a restoration (reference)"@,
        error is InvalidPath ==> error.spec_message() == "invalid mutation path"@,
        error is DuplicateTransaction ==> error.spec_message() == "duplicate block transaction ID"@,
        error is PredecessorLength ==> error.spec_message() == "invalid predecessor hash length"@,
        error is UnexpectedEof ==> error.spec_message() == "unexpected end of WAL file"@,
        error is FileChecksum ==> error.spec_message() == "WAL file checksum mismatch"@,
        error is SizeOverflow ==> error.spec_message() == "WAL file size overflow"@,
        error is Interrupted ==> error.spec_message()
            == "the resource was interrupted and must be loaded again"@,
        error is Busy ==> error.spec_message() == "another request is being prepared"@,
        error is Outdated ==> error.spec_message() == "the transaction is already finalized"@,
        error is Committed ==> error.spec_message() == "the transaction is already committed"@,
        error is RolledBack ==> error.spec_message() == "the transaction is already rolled back"@,
        error is Failed ==> error.spec_message() == "a request of the transaction failed"@,
        error is Unfinished ==> error.spec_message()
            == "a request of the transaction is unfinished"@,
        error is CapacityExhausted ==> error.spec_message()
            == "transaction queue capacity exhausted"@,
        error is UnexpectedReply ==> error.spec_message() == "unexpected reply"@,
{
}

/// A file which was read is accepted exactly if it is the digest of a payload followed by that
/// payload, and was decoded; it is then what was decoded. Otherwise it is said what was wrong: the
/// file is too short, or what the decoder reported, or the digest is not that of the payload.
pub proof fn law_damaged_files_are_refused(bytes: Seq<u8>, decoded: Result<ChainFile, ChainError>)
    ensures
        ({
            let whole = exists|digest: Seq<u8>, payload: Seq<u8>|
                digest.len() == 32 && bytes == #[trigger] (digest + payload) && digest == sha256_of(
                    payload,
                );
            let res = accepted(bytes, decoded);
            &&& res is Ok <==> whole && decoded is Ok
            &&& res is Ok ==> res == decoded
            &&& bytes.len() < 32 ==> res == Err::<ChainFile, _>(ChainError::UnexpectedEof)
            &&& bytes.len() >= 32 && decoded is Err ==> res == decoded
            &&& bytes.len() >= 32 && decoded is Ok && !whole ==> res == Err::<ChainFile, _>(
                ChainError::FileChecksum,
            )
        }),
{
    law_intact_files_begin_with_the_digest(bytes);
}

/// A literal is resolved to itself. A reference to a stored collection is resolved to that
/// collection, exactly if it was loaded and has the hash by which it is named.
pub proof fn law_values_are_resolved_to_what_they_name(
    text: String,
    get: CollectionRef,
    found: Resolution,
    hash: Vec<u8>,
)
    requires
        is_identity(get.name@),
    ensures
        resolved(Scalar::Literal(text), found) == Ok::<_, ChainError>(
            Resolved::Scalar(Scalar::Literal(text)),
        ),
        resolved(Scalar::Ref(text), found) == Err::<Resolved, _>(ChainError::InvalidReference),
        resolved(Scalar::Get(get), Resolution::Loaded(hash)) == if hex(hash@) == get.name@ {
            Ok(Resolved::Collection(get))
        } else {
            Err(ChainError::CollectionChecksum)
        },
        resolved(Scalar::Get(get), Resolution::Missing) == Err::<Resolved, _>(
            ChainError::MissingCollection,
        ),
        resolved(Scalar::Get(get), Resolution::InvalidSchema) == Err::<Resolved, _>(
            ChainError::InvalidSchema,
        ),
{
}

/// A block is decoded exactly if no transaction stands in it twice and its hash has 32 bytes. It
/// then has that hash, and each transaction with just the records which were given for it, in
/// replay order.
pub proof fn law_blocks_hold_what_was_given(
    previous_hash: Seq<u8>,
    given: History,
    res: Result<BlockView, ChainError>,
    id: TxnId,
    records: Seq<MutationRecord>,
)
    requires
        decodes(previous_hash, given, res),
    ensures
        ({
            let twice = exists|i: int, j: int|
                #![trigger given[i], given[j]]
                0 <= i < j < given.len() && given[i].0 == given[j].0;
            &&& res is Ok <==> !twice && previous_hash.len() == 32
            &&& twice ==> res == Err::<BlockView, _>(ChainError::DuplicateTransaction)
            &&& !twice && previous_hash.len() != 32 ==> res == Err::<BlockView, _>(
                ChainError::PredecessorLength,
            )
            &&& res matches Ok(block) ==> {
                &&& block.previous_hash == previous_hash
                &&& block.history.contains((id, records)) <==> given.contains((id, records))
                &&& forall|i: int, j: int|
                    0 <= i < j < block.history.len() ==> (#[trigger] block.history[i]).0.before(
                        (#[trigger] block.history[j]).0,
                    )
            }
        }),
{
    if let Ok(block) = res {
        law_entries_belong_to_their_transactions(block.history, id, records);
        assert(entry_map(block.history).dom().contains(id) == entry_map(given).dom().contains(id));
        if has_entry(given, id) {
            let k = choose|k: int| 0 <= k < given.len() && (#[trigger] given[k]).0 == id;
            lemma_distinct_index(given, k);
            assert(entry_map(block.history)[id] == given[k].1);
            assert(given.contains((id, given[k].1)));
            if given.contains((id, records)) {
                let m = choose|m: int| 0 <= m < given.len() && given[m] == (id, records);
                lemma_distinct_index(given, m);
            }
        }
        if given.contains((id, records)) {
            let m = choose|m: int| 0 <= m < given.len() && given[m] == (id, records);
            assert(given[m].0 == id);
        }
    }
}

/// An effect is shown as it is, with its name or its file by value.
pub proof fn law_effects_are_shown_as_they_are(effect: Effect)
    ensures
        match effect {
            Effect::ReadCommitted => effect@ is ReadCommitted,
            Effect::CreateCommitted(file) => effect@ == EffectView::CreateCommitted(file@),
            Effect::Publish(file) => effect@ == EffectView::Publish(file@),
            Effect::SyncCapture(name) => effect@ == EffectView::SyncCapture(name@),
            Effect::LoadSubject => effect@ is LoadSubject,
            Effect::SyncSubject => effect@ is SyncSubject,
            Effect::InitializeCutoff(cutoff) => effect@ == EffectView::InitializeCutoff(cutoff),
            Effect::CommitSubject(id) => effect@ == EffectView::CommitSubject(id),
            Effect::RollbackSubject(id) => effect@ == EffectView::RollbackSubject(id),
            Effect::FinalizeSubject(cutoff) => effect@ == EffectView::FinalizeSubject(cutoff),
            Effect::Resolve(id, found) => effect@ == EffectView::Resolve(id, found),
            Effect::RequestTransaction(id) => effect@ == EffectView::RequestTransaction(id),
            Effect::Apply(id, record) => effect@ == EffectView::Apply(id, record),
            Effect::ListCaptures => effect@ is ListCaptures,
            Effect::DeleteCapture(name) => effect@ == EffectView::DeleteCapture(name@),
            Effect::SyncDeleted => effect@ is SyncDeleted,
        },
        said(Ok(Some(effect))) == Ok::<_, ChainError>(Some(effect@)),
        said(Ok(None)) == Ok::<_, ChainError>(None::<EffectView>),
{
}

/// Names are shown one by one. They are identities exactly if each is the name of a hash.
pub proof fn law_names_are_shown_one_by_one(names: Seq<String>, i: int)
    requires
        0 <= i < names.len(),
    ensures
        texts(names).len() == names.len(),
        texts(names)[i] == names[i]@,
        identities(names) ==> exists|hash: Seq<u8>|
            hash.len() == 32 && #[trigger] hex(hash) == names[i]@,
        !identities(names) ==> exists|k: int|
            0 <= k < names.len() && !exists|hash: Seq<u8>|
                hash.len() == 32 && #[trigger] hex(hash) == (#[trigger] names[k])@,
{
    law_identities_are_the_names_of_hashes(names[i]@);
    if !identities(names) {
        let k = choose|k: int| 0 <= k < names.len() && !is_identity(#[trigger] names[k]@);
        law_identities_are_the_names_of_hashes(names[k]@);
    }
}

/// An element which is encoded without being copied is the same element.
pub proof fn law_borrowed_elements_are_the_elements(
    path: SubjectPath,
    value: Scalar,
)
    ensures
        ElementRef::Path(&path).owned() == Element::Path(path),
        ElementRef::Value(&value).owned() == Element::Value(value),
{
}

/// A history is distinct exactly if equal transactions stand at equal places.
pub proof fn law_distinct_transactions_stand_once(history: History)
    ensures
        distinct(history) <==> forall|i: int, j: int|
            #![trigger history[i], history[j]]
            0 <= i < history.len() && 0 <= j < history.len() && history[i].0 == history[j].0 ==> i
                == j,
{
}

/// A route from the root begins with a slash and ends with the text from which it was read, and is
/// read from itself. An empty segment lies between two slashes which follow one another.
pub proof fn law_routes_begin_at_the_root(text: Seq<char>, before: Seq<char>, after: Seq<char>)
    ensures
        from_root(text).len() > 0,
        from_root(text)[0] == '/',
        from_root(text) == text || from_root(text).drop_first() == text,
        from_root(from_root(text)) == from_root(text),
        has_empty_segment(before + seq!['/', '/'] + after),
        has_empty_segment(text) ==> exists|k: int|
            0 <= k <= text.len() && #[trigger] text.skip(k).len() >= 2 && text.skip(k)[0] == '/'
                && text.skip(k)[1] == '/',
{
    let joined = before + seq!['/', '/'] + after;
    let n = before.len() as int;
    assert(joined[n] == '/' && joined[n + 1] == '/');
    assert(from_root(text) == text || from_root(text).drop_first() =~= text);
    if has_empty_segment(text) {
        let k = choose|k: int|
            0 <= k < text.len() - 1 && #[trigger] text[k] == '/' && text[k + 1] == '/';
        assert(text.skip(k).len() >= 2 && text.skip(k)[0] == '/' && text.skip(k)[1] == '/');
    }
}

} // verus!
