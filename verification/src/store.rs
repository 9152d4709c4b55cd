//! The store of captured collections.

use vstd::prelude::*;

use crate::block::History;
use crate::error::ChainError;
use crate::file::ChainFile;
use crate::record::MutationRecord;
use crate::scalar::{
    hex, identity, is_identity, reference, stored, CollectionRef, Scalar, IDENTITY_LEN,
};

verus! {

/// Names as texts.
pub open spec fn texts(names: Seq<String>) -> Seq<Seq<char>> {
    names.map_values(|name: String| name@)
}

/// Whether each name is an identity.
pub open spec fn identities(names: Seq<String>) -> bool {
    forall|i: int| 0 <= i < names.len() ==> is_identity(#[trigger] names[i]@)
}

/// The stored collection to which a request refers, if it refers to one.
pub open spec fn captured(record: MutationRecord) -> Option<CollectionRef> {
    match record.spec_value() {
        Some(value) => match stored(value) {
            Ok(found) => found,
            Err(_) => None,
        },
        None => None,
    }
}

/// Whether the value of a request is a reference, but not to a stored collection.
pub open spec fn malformed(record: MutationRecord) -> bool {
    record.spec_value() matches Some(value) && stored(value) is Err
}

/// Whether one of the requests is malformed.
pub open spec fn any_malformed(records: Seq<MutationRecord>) -> bool {
    exists|i: int| 0 <= i < records.len() && malformed(#[trigger] records[i])
}

/// Whether a text comes before another: at the first place where they differ it has the lesser
/// character, or it ends there.
pub open spec fn text_before(a: Seq<char>, b: Seq<char>) -> bool
    decreases b.len(),
{
    if b.len() == 0 {
        false
    } else if a.len() == 0 {
        true
    } else if a[0] != b[0] {
        a[0] < b[0]
    } else {
        text_before(a.drop_first(), b.drop_first())
    }
}

/// Whether names are in strictly ascending order (so that none occurs twice).
pub open spec fn sorted(names: Seq<Seq<char>>) -> bool {
    forall|i: int, j: int|
        #![trigger names[i], names[j]]
        0 <= i < j < names.len() ==> text_before(names[i], names[j])
}

/// Sorted names with one more name in its place, unless it is there already.
pub open spec fn inserted(names: Seq<Seq<char>>, name: Seq<char>) -> Seq<Seq<char>>
    decreases names.len(),
{
    if names.len() == 0 {
        seq![name]
    } else if names.last() == name {
        names
    } else if text_before(names.last(), name) {
        names.push(name)
    } else {
        inserted(names.drop_last(), name).push(names.last())
    }
}

/// The names of the stored collections to which requests refer, each once, in ascending order.
pub open spec fn captures(records: Seq<MutationRecord>) -> Seq<Seq<char>>
    decreases records.len(),
{
    if records.len() == 0 {
        Seq::empty()
    } else {
        let before = captures(records.drop_last());
        match captured(records.last()) {
            Some(found) => inserted(before, found.name@),
            None => before,
        }
    }
}

/// No text comes before itself.
proof fn lemma_text_order_irreflexive(a: Seq<char>)
    ensures
        !text_before(a, a),
    decreases a.len(),
{
    if a.len() > 0 {
        lemma_text_order_irreflexive(a.drop_first());
    }
}

/// No text comes before itself, and of two different texts one comes before the other.
proof fn lemma_text_order(a: Seq<char>, b: Seq<char>)
    ensures
        !text_before(a, a),
        a == b || text_before(a, b) || text_before(b, a),
    decreases a.len(),
{
    lemma_text_order_irreflexive(a);
    if a.len() > 0 && b.len() > 0 {
        if a[0] == b[0] {
            lemma_text_order(a.drop_first(), b.drop_first());
            if a.drop_first() == b.drop_first() {
                assert(a =~= seq![a[0]] + a.drop_first());
                assert(b =~= seq![b[0]] + b.drop_first());
            }
        }
    } else if a.len() == 0 && b.len() == 0 {
        assert(a =~= b);
    }
}

/// What comes before a text comes before all that follow it.
proof fn lemma_text_order_transitive(a: Seq<char>, b: Seq<char>, c: Seq<char>)
    requires
        text_before(a, b),
        text_before(b, c),
    ensures
        text_before(a, c),
    decreases b.len(),
{
    if a.len() > 0 && a[0] == b[0] && b[0] == c[0] {
        lemma_text_order_transitive(a.drop_first(), b.drop_first(), c.drop_first());
    }
}

/// A name is inserted in its place.
proof fn lemma_inserted(names: Seq<Seq<char>>, name: Seq<char>)
    requires
        sorted(names),
    ensures
        sorted(inserted(names, name)),
        forall|other: Seq<char>| #[trigger]
            inserted(names, name).contains(other) <==> names.contains(other) || other == name,
    decreases names.len(),
{
    let all = inserted(names, name);
    if names.len() == 0 {
        assert(all[0] == name);
    } else {
        let last = names.last();
        let init = names.drop_last();
        lemma_text_order(last, name);
        assert(names[names.len() - 1] == last);
        if last == name {
        } else if text_before(last, name) {
            assert forall|i: int, j: int|
                #![trigger all[i], all[j]]
                0 <= i < j < all.len() implies text_before(all[i], all[j]) by {
                if j == names.len() && i < names.len() - 1 {
                    assert(text_before(names[i], names[names.len() - 1]));
                    lemma_text_order_transitive(names[i], last, name);
                }
            }
            assert forall|other: Seq<char>| #[trigger]
                all.contains(other) <==> names.contains(other) || other == name by {
                if names.contains(other) {
                    let k = choose|k: int| 0 <= k < names.len() && names[k] == other;
                    assert(all[k] == other);
                }
                assert(all[names.len() as int] == name);
            }
        } else {
            assert(sorted(init)) by {
                assert forall|i: int, j: int|
                    #![trigger init[i], init[j]]
                    0 <= i < j < init.len() implies text_before(init[i], init[j]) by {
                    assert(text_before(names[i], names[j]));
                }
            }
            lemma_inserted(init, name);
            let first = inserted(init, name);
            assert forall|i: int| 0 <= i < first.len() implies text_before(
                #[trigger] first[i],
                last,
            ) by {
                assert(first.contains(first[i]));
                if init.contains(first[i]) {
                    let k = choose|k: int| 0 <= k < init.len() && init[k] == first[i];
                    assert(text_before(names[k], names[names.len() - 1]));
                }
            }
            assert forall|i: int, j: int|
                #![trigger all[i], all[j]]
                0 <= i < j < all.len() implies text_before(all[i], all[j]) by {
                assert(all[i] == first[i]);
                if j < first.len() {
                    assert(all[j] == first[j]);
                }
            }
            assert forall|other: Seq<char>| #[trigger]
                all.contains(other) <==> names.contains(other) || other == name by {
                if all.contains(other) {
                    let k = choose|k: int| 0 <= k < all.len() && all[k] == other;
                    if k < first.len() {
                        assert(first[k] == other);
                        assert(first.contains(other));
                        if init.contains(other) {
                            let m = choose|m: int| 0 <= m < init.len() && init[m] == other;
                            assert(names[m] == other);
                        }
                    }
                }
                if names.contains(other) || other == name {
                    if other == last {
                        assert(all[first.len() as int] == last);
                    } else {
                        if names.contains(other) {
                            let m = choose|m: int| 0 <= m < names.len() && names[m] == other;
                            assert(init[m] == other);
                        }
                        assert(first.contains(other));
                        let k = choose|k: int| 0 <= k < first.len() && first[k] == other;
                        assert(all[k] == other);
                    }
                }
            }
        }
    }
}

/// The names after the place of a name stay where they are.
proof fn lemma_inserted_before(names: Seq<Seq<char>>, name: Seq<char>, i: int)
    requires
        0 <= i <= names.len(),
        forall|k: int| i <= k < names.len() ==> text_before(name, #[trigger] names[k]),
    ensures
        inserted(names, name) == inserted(names.take(i), name) + names.skip(i),
    decreases names.len(),
{
    if i == names.len() {
        assert(names.take(i) =~= names);
        assert(inserted(names, name) =~= inserted(names.take(i), name) + names.skip(i));
    } else {
        let init = names.drop_last();
        let last = names.last();
        assert(text_before(name, names[names.len() - 1]));
        lemma_text_order(name, name);
        if text_before(last, name) {
            lemma_text_order_transitive(name, last, name);
        }
        assert forall|k: int| i <= k < init.len() implies text_before(name, #[trigger] init[k]) by {
            assert(init[k] == names[k]);
        }
        lemma_inserted_before(init, name, i);
        assert(init.take(i) =~= names.take(i));
        assert(inserted(names, name) =~= inserted(names.take(i), name) + names.skip(i));
    }
}

/// All records of a history, in replay order.
pub open spec fn all_records(history: History) -> Seq<MutationRecord>
    decreases history.len(),
{
    if history.len() == 0 {
        Seq::empty()
    } else {
        all_records(history.drop_last()) + history.last().1
    }
}

/// Every capture to which a request refers is named, no other is, and the names are in strictly
/// ascending order, so that none is named twice.
pub proof fn law_captures_are_exactly_the_references(records: Seq<MutationRecord>)
    ensures
        forall|name: Seq<char>| #[trigger]
            captures(records).contains(name) <==> exists|i: int|
                0 <= i < records.len() && (captured(#[trigger] records[i]) matches Some(found)
                    && found.name@ == name),
        sorted(captures(records)),
        captures(records).no_duplicates(),
    decreases records.len(),
{
    let names = captures(records);
    if records.len() > 0 {
        let init = records.drop_last();
        law_captures_are_exactly_the_references(init);
        let before = captures(init);
        if let Some(found) = captured(records.last()) {
            lemma_inserted(before, found.name@);
        }
        assert forall|name: Seq<char>| #[trigger]
            names.contains(name) <==> exists|i: int|
                0 <= i < records.len() && (captured(#[trigger] records[i]) matches Some(found)
                    && found.name@ == name) by {
            if names.contains(name) {
                if before.contains(name) {
                    let i = choose|i: int|
                        0 <= i < init.len() && (captured(#[trigger] init[i]) matches Some(found)
                            && found.name@ == name);
                    assert(captured(records[i]) matches Some(found) && found.name@ == name);
                } else {
                    assert(captured(records[records.len() - 1]) matches Some(found) && found.name@
                        == name);
                }
            }
            if exists|i: int|
                0 <= i < records.len() && (captured(#[trigger] records[i]) matches Some(found)
                    && found.name@ == name) {
                let i = choose|i: int|
                    0 <= i < records.len() && (captured(#[trigger] records[i]) matches Some(found)
                        && found.name@ == name);
                if i < init.len() {
                    assert(captured(init[i]) matches Some(found) && found.name@ == name);
                    assert(before.contains(name));
                }
            }
        }
    }
    assert forall|i: int, j: int| 0 <= i < names.len() && 0 <= j < names.len() && i != j implies
        names[i] != names[j] by {
        lemma_text_order(names[i], names[j]);
        if i < j {
            assert(text_before(names[i], names[j]));
        } else {
            assert(text_before(names[j], names[i]));
        }
    }
}

/// What the value store found when it was asked for a collection.
#[derive(Debug)]
pub enum Resolution {
    /// The class or the schema of the reference cannot be read.
    InvalidSchema,
    /// There is no collection of that name.
    Missing,
    /// The collection was loaded strictly, and has this hash.
    Loaded(Vec<u8>),
}

/// Why a stored collection may not be used, if there is a reason.
pub open spec fn resolution_refusal(name: Seq<char>, found: Resolution) -> Option<ChainError> {
    match found {
        Resolution::InvalidSchema => Some(ChainError::InvalidSchema),
        Resolution::Missing => Some(ChainError::MissingCollection),
        Resolution::Loaded(hash) => if hex(hash@) == name {
            None
        } else {
            Some(ChainError::CollectionChecksum)
        },
    }
}

/// A value which was stored by a mutation.
#[derive(Debug)]
pub enum Resolved {
    /// The value is the scalar itself.
    Scalar(Scalar),
    /// The value is the stored collection.
    Collection(CollectionRef),
}

/// What a stored value is resolved to, given what the value store found where the value is a
/// reference.
pub open spec fn resolved(value: Scalar, found: Resolution) -> Result<Resolved, ChainError> {
    match stored(value) {
        Err(e) => Err(e),
        Ok(None) => Ok(Resolved::Scalar(value)),
        Ok(Some(get)) => match resolution_refusal(get.name@, found) {
            Some(e) => Err(e),
            None => Ok(Resolved::Collection(get)),
        },
    }
}

/// The decisions about captured collections. The storage itself is delegated by the caller.
pub struct Store;

impl Store {
    /// Whether a name is among others.
    fn has_name(names: &Vec<String>, name: &String) -> (res: bool)
        ensures
            res == texts(names@).contains(name@),
    {
        let mut i: usize = 0;
        while i < names.len()
            invariant
                i <= names@.len(),
                forall|k: int| 0 <= k < i ==> texts(names@)[k] != name@,
            decreases names@.len() - i,
        {
            if names[i] == *name {
                assert(texts(names@)[i as int] == name@);
                return true;
            }
            i += 1;
        }
        false
    }

    /// Whether an identity comes before another.
    fn name_precedes(a: &String, b: &String) -> (res: bool)
        requires
            is_identity(a@),
            is_identity(b@),
        ensures
            res == text_before(a@, b@),
    {
        let left = a.as_str();
        let right = b.as_str();
        proof {
            assert(vstd::utf8::is_ascii_chars(a@));
            assert(vstd::utf8::is_ascii_chars(b@));
            vstd::string::is_ascii_spec_bytes(left);
            vstd::string::is_ascii_spec_bytes(right);
        }
        let left = left.as_bytes();
        let right = right.as_bytes();
        let mut i: usize = 0;
        assert(a@.skip(0) =~= a@);
        assert(b@.skip(0) =~= b@);
        while i < IDENTITY_LEN
            invariant
                i <= IDENTITY_LEN,
                a@.len() == IDENTITY_LEN,
                b@.len() == IDENTITY_LEN,
                left@.len() == IDENTITY_LEN,
                right@.len() == IDENTITY_LEN,
                forall|k: int|
                    #![trigger a@[k]]
                    0 <= k < IDENTITY_LEN ==> left@[k] as int == a@[k] as int,
                forall|k: int|
                    #![trigger b@[k]]
                    0 <= k < IDENTITY_LEN ==> right@[k] as int == b@[k] as int,
                text_before(a@, b@) == text_before(a@.skip(i as int), b@.skip(i as int)),
            decreases IDENTITY_LEN - i,
        {
            proof {
                let rest_a = a@.skip(i as int);
                let rest_b = b@.skip(i as int);
                assert(rest_a[0] == a@[i as int]);
                assert(rest_b[0] == b@[i as int]);
                assert(rest_a.drop_first() =~= a@.skip(i + 1));
                assert(rest_b.drop_first() =~= b@.skip(i + 1));
            }
            if left[i] != right[i] {
                return left[i] < right[i];
            }
            i += 1;
        }
        false
    }

    /// Add the name of the collection to which a request refers, unless it is there already.
    fn add_reference(names: &mut Vec<String>, record: &MutationRecord) -> (res: Result<
        (),
        ChainError,
    >)
        requires
            identities(old(names)@),
        ensures
            identities(final(names)@),
            match res {
                Ok(()) => {
                    &&& !malformed(*record)
                    &&& texts(final(names)@) == match captured(*record) {
                        Some(found) => inserted(texts(old(names)@), found.name@),
                        None => texts(old(names)@),
                    }
                },
                Err(e) => malformed(*record) && e == ChainError::InvalidReference,
            },
    {
        let found = match record.value() {
            Some(value) => match reference(value) {
                Ok(Some(found)) => found,
                Ok(None) => { return Ok(()); },
                Err(e) => { return Err(e); },
            },
            None => { return Ok(()); },
        };
        let ghost before = texts(names@);
        let mut i: usize = names.len();
        while i > 0 && Self::name_precedes(&found.name, &names[i - 1])
            invariant
                i <= names@.len(),
                before == texts(names@),
                identities(names@),
                is_identity(found.name@),
                forall|k: int|
                    i <= k < before.len() ==> text_before(found.name@, #[trigger] before[k]),
            decreases i,
        {
            assert(before[i - 1] == names@[i - 1]@);
            i -= 1;
        }
        proof {
            lemma_inserted_before(before, found.name@, i as int);
            assert(before.take(i as int) + before.skip(i as int) =~= before);
        }
        if i > 0 && names[i - 1] == found.name {
            assert(before.take(i as int).last() == found.name@);
            return Ok(());
        }
        proof {
            if i > 0 {
                assert(before.take(i as int).last() == names@[i - 1]@);
                lemma_text_order(found.name@, names@[i - 1]@);
            }
            assert(inserted(before.take(i as int), found.name@) =~= before.take(i as int).push(
                found.name@,
            ));
        }
        let ghost old_names = names@;
        names.insert(i, found.name.clone());
        assert(texts(names@) =~= before.take(i as int).push(found.name@) + before.skip(i as int));
        assert forall|k: int| 0 <= k < names@.len() implies is_identity(
            #[trigger] names@[k]@,
        ) by {
            if k < i {
                assert(names@[k] == old_names[k]);
            } else if k > i {
                assert(names@[k] == old_names[k - 1]);
            }
        }
        Ok(())
    }

    /// The names of the stored collections to which requests refer.
    pub fn references(records: &Vec<MutationRecord>) -> (res: Result<Vec<String>, ChainError>)
        ensures
            match res {
                Ok(names) => !any_malformed(records@) && texts(names@) == captures(records@),
                Err(e) => any_malformed(records@) && e == ChainError::InvalidReference,
            },
    {
        let mut names: Vec<String> = Vec::new();
        let mut i: usize = 0;
        assert(texts(names@) =~= captures(records@.take(0)));
        while i < records.len()
            invariant
                i <= records@.len(),
                identities(names@),
                texts(names@) == captures(records@.take(i as int)),
                forall|k: int| 0 <= k < i ==> !malformed(#[trigger] records@[k]),
            decreases records@.len() - i,
        {
            match Self::add_reference(&mut names, &records[i]) {
                Ok(()) => {},
                Err(e) => {
                    assert(malformed(records@[i as int]));
                    return Err(e);
                },
            }
            assert(records@.take(i + 1).drop_last() =~= records@.take(i as int));
            i += 1;
        }
        assert(records@.take(records@.len() as int) =~= records@);
        Ok(names)
    }

    /// The collections which have to be synchronized before requests are published.
    pub fn sync(records: &Vec<MutationRecord>) -> (res: Result<Vec<String>, ChainError>)
        ensures
            match res {
                Ok(names) => !any_malformed(records@) && texts(names@) == captures(records@),
                Err(e) => any_malformed(records@) && e == ChainError::InvalidReference,
            },
    {
        Self::references(records)
    }

    /// The collections to which a published history refers.
    pub fn published(file: &ChainFile) -> (res: Result<Vec<String>, ChainError>)
        ensures
            match res {
                Ok(names) => {
                    &&& !any_malformed(all_records(file@.history()))
                    &&& texts(names@) == captures(all_records(file@.history()))
                },
                Err(e) => {
                    &&& any_malformed(all_records(file@.history()))
                    &&& e == ChainError::InvalidReference
                },
            },
    {
        let ghost history = file@.history();
        let mut names: Vec<String> = Vec::new();
        let mut i: usize = 0;
        assert(history.take(0) =~= Seq::empty());
        assert(texts(names@) =~= captures(all_records(history.take(0))));
        while i < file.block.mutations.len()
            invariant
                i <= history.len(),
                history == file@.history(),
                history.len() == file.block.mutations.entries().len(),
                identities(names@),
                texts(names@) == captures(all_records(history.take(i as int))),
                !any_malformed(all_records(history.take(i as int))),
            decreases history.len() - i,
        {
            let (_, records) = file.block.mutations.at(i);
            let ghost done = all_records(history.take(i as int));
            proof {
                assert(history[i as int].1 == records@);
                assert(history.take(i + 1).drop_last() =~= history.take(i as int));
                assert(all_records(history.take(i + 1)) == done + records@);
                assert(done + records@.take(0) =~= done);
            }
            let mut j: usize = 0;
            while j < records.len()
                invariant
                    j <= records@.len(),
                    i < history.len(),
                    history == file@.history(),
                    all_records(history.take(i + 1)) == done + records@,
                    identities(names@),
                    texts(names@) == captures(done + records@.take(j as int)),
                    !any_malformed(done + records@.take(j as int)),
                decreases records@.len() - j,
            {
                let ghost so_far = done + records@.take(j as int);
                let ghost with_next = done + records@.take(j + 1);
                proof {
                    assert(with_next.drop_last() =~= so_far);
                    assert(with_next.last() == records@[j as int]);
                }
                match Self::add_reference(&mut names, &records[j]) {
                    Ok(()) => {},
                    Err(e) => {
                        proof {
                            let n = (done.len() + j) as int;
                            assert((done + records@)[n] == records@[j as int]);
                            lemma_all_records_prefix(history, i + 1);
                            assert(all_records(history)[n] == records@[j as int]);
                            assert(malformed(all_records(history)[n]));
                        }
                        return Err(e);
                    },
                }
                assert(!any_malformed(with_next)) by {
                    assert forall|k: int| 0 <= k < with_next.len() implies !malformed(
                        #[trigger] with_next[k],
                    ) by {
                        if k < so_far.len() {
                            assert(so_far[k] == with_next[k]);
                        }
                    }
                }
                j += 1;
            }
            assert(done + records@.take(records@.len() as int) =~= done + records@);
            i += 1;
        }
        assert(history.take(history.len() as int) =~= history);
        Ok(names)
    }

    /// The stored collections which no published request refers to.
    pub fn orphans(names: Vec<String>, retained: &Vec<String>) -> (res: Vec<String>)
        ensures
            texts(res@) == orphaned(texts(names@), texts(retained@)),
    {
        let mut res: Vec<String> = Vec::new();
        let mut i: usize = 0;
        reveal(Seq::filter);
        assert(texts(res@) =~= orphaned(texts(names@).take(0), texts(retained@)));
        while i < names.len()
            invariant
                i <= names@.len(),
                texts(res@) == orphaned(texts(names@).take(i as int), texts(retained@)),
            decreases names@.len() - i,
        {
            let ghost before = res@;
            let ghost all = texts(names@);
            if !Self::has_name(retained, &names[i]) {
                res.push(names[i].clone());
                assert(texts(res@) =~= texts(before).push(all[i as int]));
            }
            proof {
                reveal(Seq::filter);
                assert(all.take(i + 1).drop_last() =~= all.take(i as int));
                assert(all.take(i + 1).last() == all[i as int]);
            }
            i += 1;
        }
        assert(texts(names@).take(names@.len() as int) =~= texts(names@));
        res
    }

    /// Check that a stored collection may be used under its name.
    pub fn verify(name: &String, found: &Resolution) -> (res: Result<(), ChainError>)
        ensures
            match res {
                Ok(()) => resolution_refusal(name@, *found) is None,
                Err(e) => resolution_refusal(name@, *found) == Some(e),
            },
    {
        match found {
            Resolution::InvalidSchema => Err(ChainError::InvalidSchema),
            Resolution::Missing => Err(ChainError::MissingCollection),
            Resolution::Loaded(hash) => if identity(hash.as_slice()) == *name {
                Ok(())
            } else {
                Err(ChainError::CollectionChecksum)
            },
        }
    }

    /// Resolve a stored value, given what the value store found where the value is a reference.
    pub fn resolve(value: Scalar, found: &Resolution) -> (res: Result<Resolved, ChainError>)
        ensures
            res == resolved(value, *found),
    {
        match reference(&value) {
            Err(e) => Err(e),
            Ok(None) => Ok(Resolved::Scalar(value)),
            Ok(Some(get)) => match Self::verify(&get.name, found) {
                Ok(()) => Ok(Resolved::Collection(get.clone())),
                Err(e) => Err(e),
            },
        }
    }
}

/// The names which are not retained, in the order given.
pub open spec fn orphaned(names: Seq<Seq<char>>, retained: Seq<Seq<char>>) -> Seq<Seq<char>> {
    names.filter(|name: Seq<char>| !retained.contains(name))
}

/// The records of the first transactions come first.
proof fn lemma_all_records_prefix(history: History, n: int)
    requires
        0 <= n <= history.len(),
    ensures
        all_records(history.take(n)).len() <= all_records(history).len(),
        forall|k: int|
            0 <= k < all_records(history.take(n)).len() ==> all_records(history.take(n))[k]
                == #[trigger] all_records(history)[k],
    decreases history.len(),
{
    if n < history.len() {
        lemma_all_records_prefix(history.drop_last(), n);
        assert(history.drop_last().take(n) =~= history.take(n));
    } else {
        assert(history.take(n) =~= history);
    }
}

} // verus!
