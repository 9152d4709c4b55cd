//! An ordered map from transaction identities.

use vstd::prelude::*;

use crate::txn::TxnId;

verus! {

/// Whether the entries are in strictly ascending replay order (so that no identity occurs twice).
pub open spec fn ascending<V>(entries: Seq<(TxnId, V)>) -> bool {
    forall|i: int, j: int|
        #![trigger entries[i], entries[j]]
        0 <= i < j < entries.len() ==> entries[i].0.before(entries[j].0)
}

/// Whether one of the entries belongs to the transaction.
pub open spec fn has_entry<V>(entries: Seq<(TxnId, V)>, id: TxnId) -> bool {
    exists|i: int| 0 <= i < entries.len() && (#[trigger] entries[i]).0 == id
}

/// What the entries hold for the transaction.
pub open spec fn entry_of<V>(entries: Seq<(TxnId, V)>, id: TxnId) -> V {
    let i = choose|i: int| 0 <= i < entries.len() && (#[trigger] entries[i]).0 == id;
    entries[i].1
}

/// The entries as a map.
pub open spec fn entry_map<V>(entries: Seq<(TxnId, V)>) -> Map<TxnId, V> {
    Map::new(|id: TxnId| has_entry(entries, id), |id: TxnId| entry_of(entries, id))
}

/// In ascending entries, an entry is what the map holds for its identity.
pub proof fn lemma_entry_map_index<V>(entries: Seq<(TxnId, V)>, i: int)
    requires
        ascending(entries),
        0 <= i < entries.len(),
    ensures
        entry_map(entries).dom().contains(entries[i].0),
        entry_map(entries)[entries[i].0] == entries[i].1,
{
    let id = entries[i].0;
    assert(has_entry(entries, id));
    let j = choose|j: int| 0 <= j < entries.len() && (#[trigger] entries[j]).0 == id;
    if i < j {
        assert(entries[i].0.before(entries[j].0));
    } else if j < i {
        assert(entries[j].0.before(entries[i].0));
    }
}

/// Ascending entries are determined by the map they stand for.
pub proof fn lemma_entry_map_determines<V>(a: Seq<(TxnId, V)>, b: Seq<(TxnId, V)>)
    requires
        ascending(a),
        ascending(b),
        entry_map(a) == entry_map(b),
    ensures
        a == b,
    decreases a.len(),
{
    if a.len() == 0 {
        if b.len() > 0 {
            lemma_entry_map_index(b, 0);
            assert(has_entry(a, b[0].0));
        }
        assert(a =~= b);
    } else {
        lemma_entry_map_index(a, 0);
        assert(has_entry(b, a[0].0));
        let j = choose|j: int| 0 <= j < b.len() && (#[trigger] b[j]).0 == a[0].0;
        lemma_entry_map_index(b, j);
        lemma_entry_map_index(b, 0);
        assert(has_entry(a, b[0].0));
        let i = choose|i: int| 0 <= i < a.len() && (#[trigger] a[i]).0 == b[0].0;
        if 0 < j {
            assert(b[0].0.before(b[j].0));
            if 0 < i {
                assert(a[0].0.before(a[i].0));
            }
        }
        assert(a[0] == b[0]);
        let ta = a.drop_first();
        let tb = b.drop_first();
        assert(ascending(ta)) by {
            assert forall|x: int, y: int| 0 <= x < y < ta.len() implies ta[x].0.before(ta[y].0) by {
                assert(a[x + 1].0.before(a[y + 1].0));
            }
        }
        assert(ascending(tb)) by {
            assert forall|x: int, y: int| 0 <= x < y < tb.len() implies tb[x].0.before(tb[y].0) by {
                assert(b[x + 1].0.before(b[y + 1].0));
            }
        }
        lemma_entry_map_rest(a);
        lemma_entry_map_rest(b);
        lemma_entry_map_determines(ta, tb);
        assert(a =~= seq![a[0]] + ta);
        assert(b =~= seq![b[0]] + tb);
    }
}

/// Dropping the first entry takes its identity out of the map.
proof fn lemma_entry_map_rest<V>(entries: Seq<(TxnId, V)>)
    requires
        ascending(entries),
        0 < entries.len(),
    ensures
        ascending(entries.drop_first()),
        entry_map(entries.drop_first()) == entry_map(entries).remove(entries[0].0),
{
    let rest = entries.drop_first();
    assert forall|x: int, y: int| 0 <= x < y < rest.len() implies rest[x].0.before(rest[y].0) by {
        assert(entries[x + 1].0.before(entries[y + 1].0));
    }
    let m = entry_map(entries).remove(entries[0].0);
    assert forall|id: TxnId| #[trigger]
        entry_map(rest).dom().contains(id) == m.dom().contains(id) by {
        if has_entry(rest, id) {
            let k = choose|k: int| 0 <= k < rest.len() && (#[trigger] rest[k]).0 == id;
            assert(entries[k + 1].0 == id);
            assert(entries[0].0.before(entries[k + 1].0));
        }
        if has_entry(entries, id) && id != entries[0].0 {
            let k = choose|k: int| 0 <= k < entries.len() && (#[trigger] entries[k]).0 == id;
            assert(rest[k - 1].0 == id);
        }
    }
    assert forall|id: TxnId| #[trigger] entry_map(rest).dom().contains(id) implies entry_map(
        rest,
    )[id] == m[id] by {
        let k = choose|k: int| 0 <= k < rest.len() && (#[trigger] rest[k]).0 == id;
        lemma_entry_map_index(rest, k);
        lemma_entry_map_index(entries, k + 1);
        assert(entries[0].0.before(entries[k + 1].0));
    }
    assert(entry_map(rest) =~= m);
}

/// The entries with the value of one transaction set: those before it, then it, then those after
/// it.
pub open spec fn placed<V>(entries: Seq<(TxnId, V)>, id: TxnId, value: V) -> Seq<(TxnId, V)> {
    entries.filter(|e: (TxnId, V)| e.0.before(id)).push((id, value)) + entries.filter(
        |e: (TxnId, V)| id.before(e.0),
    )
}

/// A map from transaction identities, walked in replay order.
pub struct TxnMap<V> {
    entries: Vec<(TxnId, V)>,
}

impl<V> View for TxnMap<V> {
    type V = Map<TxnId, V>;

    open spec fn view(&self) -> Map<TxnId, V> {
        entry_map(self.entries())
    }
}

impl<V> TxnMap<V> {
    /// The entries in replay order.
    pub closed spec fn entries(self) -> Seq<(TxnId, V)> {
        self.entries@
    }

    /// Each identity occurs once, and the entries are in replay order.
    pub open spec fn wf(self) -> bool {
        ascending(self.entries())
    }

    /// An empty map.
    pub fn new() -> (res: Self)
        ensures
            res.wf(),
            res.entries() == Seq::<(TxnId, V)>::empty(),
            res@ == Map::<TxnId, V>::empty(),
    {
        let res = TxnMap { entries: Vec::new() };
        assert(res@ =~= Map::<TxnId, V>::empty());
        res
    }

    /// The number of entries.
    pub fn len(&self) -> (res: usize)
        ensures
            res == self.entries().len(),
    {
        self.entries.len()
    }

    /// Whether there are no entries.
    pub fn is_empty(&self) -> (res: bool)
        ensures
            res == (self.entries().len() == 0),
    {
        self.entries.len() == 0
    }

    /// The entry at an index in replay order.
    pub fn at(&self, index: usize) -> (res: (TxnId, &V))
        requires
            index < self.entries().len(),
        ensures
            res.0 == self.entries()[index as int].0,
            *res.1 == self.entries()[index as int].1,
    {
        (self.entries[index].0, &self.entries[index].1)
    }

    /// The entries in replay order.
    pub fn into_entries(self) -> (res: Vec<(TxnId, V)>)
        ensures
            res@ == self.entries(),
    {
        self.entries
    }

    /// How many entries come before the transaction.
    fn position(&self, id: &TxnId) -> (res: usize)
        requires
            self.wf(),
        ensures
            res <= self.entries().len(),
            forall|k: int|
                #![trigger self.entries()[k]]
                0 <= k < res ==> self.entries()[k].0.before(*id),
            forall|k: int|
                #![trigger self.entries()[k]]
                res <= k < self.entries().len() ==> !self.entries()[k].0.before(*id),
    {
        let mut low: usize = 0;
        let mut high: usize = self.entries.len();
        while low < high
            invariant
                low <= high <= self.entries@.len(),
                ascending(self.entries@),
                forall|k: int|
                    #![trigger self.entries@[k]]
                    0 <= k < low ==> self.entries@[k].0.before(*id),
                forall|k: int|
                    #![trigger self.entries@[k]]
                    high <= k < self.entries@.len() ==> !self.entries@[k].0.before(*id),
            decreases high - low,
        {
            let mid: usize = low + (high - low) / 2;
            if self.entries[mid].0.precedes(id) {
                assert forall|k: int|
                    #![trigger self.entries@[k]]
                    0 <= k <= mid implies self.entries@[k].0.before(*id) by {
                    if k < mid {
                        assert(self.entries@[k].0.before(self.entries@[mid as int].0));
                    }
                }
                low = mid + 1;
            } else {
                assert forall|k: int|
                    #![trigger self.entries@[k]]
                    mid <= k < self.entries@.len() implies !self.entries@[k].0.before(*id) by {
                    if mid < k {
                        assert(self.entries@[mid as int].0.before(self.entries@[k].0));
                    }
                }
                high = mid;
            }
        }
        low
    }

    /// The value of a transaction, if it has one.
    pub fn get(&self, id: &TxnId) -> (res: Option<&V>)
        requires
            self.wf(),
        ensures
            match res {
                Some(v) => self@.dom().contains(*id) && *v == self@[*id],
                None => !self@.dom().contains(*id),
            },
    {
        let i = self.position(id);
        if i < self.entries.len() && self.entries[i].0 == *id {
            proof {
                lemma_entry_map_index(self.entries@, i as int);
            }
            Some(&self.entries[i].1)
        } else {
            assert(!has_entry(self.entries@, *id)) by {
                if has_entry(self.entries@, *id) {
                    let k = choose|k: int|
                        0 <= k < self.entries@.len() && (#[trigger] self.entries@[k]).0 == *id;
                    if i < k {
                        assert(self.entries@[i as int].0.before(self.entries@[k].0));
                    }
                }
            }
            None
        }
    }

    /// Set the value of a transaction; returns the value which it replaces, if any.
    pub fn insert(&mut self, id: TxnId, value: V) -> (res: Option<V>)
        requires
            old(self).wf(),
        ensures
            final(self).wf(),
            final(self)@ == old(self)@.insert(id, value),
            final(self).entries() == placed(old(self).entries(), id, value),
            match res {
                Some(v) => old(self)@.dom().contains(id) && v == old(self)@[id],
                None => !old(self)@.dom().contains(id),
            },
    {
        let i = self.position(&id);
        let present = i < self.entries.len() && self.entries[i].0 == id;
        let ghost before = self.entries@;
        proof {
            if present {
                lemma_entry_map_index(before, i as int);
            } else if has_entry(before, id) {
                let k = choose|k: int| 0 <= k < before.len() && (#[trigger] before[k]).0 == id;
                if i < k {
                    assert(before[i as int].0.before(before[k].0));
                }
            }
        }
        let res = if present {
            Some(self.entries.remove(i).1)
        } else {
            None
        };
        self.entries.insert(i, (id, value));
        proof {
            let after = self.entries@;
            // where an entry of `before` stands in `after`
            let shift = if present { 0int } else { 1int };
            assert(after.len() == before.len() + shift);
            assert forall|k: int| 0 <= k < i implies after[k] == before[k] by {}
            assert(after[i as int] == (id, value));
            assert forall|k: int| i < k < after.len() implies #[trigger] after[k] == before[k
                - shift] by {}
            assert(ascending(after)) by {
                assert forall|a: int, b: int|
                    #![trigger after[a], after[b]]
                    0 <= a < b < after.len() implies after[a].0.before(after[b].0) by {
                    if a < i && b < i {
                        assert(before[a].0.before(before[b].0));
                    } else if a < i && b == i {
                        assert(before[a].0.before(id));
                    } else if a < i && i < b {
                        assert(before[a].0.before(before[b - shift].0));
                    } else if a == i {
                        let c = b - shift;
                        assert(!before[c].0.before(id));
                        if present {
                            assert(before[i as int].0.before(before[c].0));
                        } else if before[c].0 == id {
                            assert(has_entry(before, id));
                            assert(false) by {
                                if i < c {
                                    assert(before[i as int].0.before(before[c].0));
                                }
                            }
                        }
                    } else {
                        assert(before[a - shift].0.before(before[b - shift].0));
                    }
                }
            }
            let target = entry_map(before).insert(id, value);
            assert forall|x: TxnId| #[trigger]
                entry_map(after).dom().contains(x) == target.dom().contains(x) by {
                if has_entry(before, x) && x != id {
                    let k = choose|k: int| 0 <= k < before.len() && (#[trigger] before[k]).0 == x;
                    if k < i {
                        assert(after[k].0 == x);
                    } else {
                        assert(after[k + shift].0 == x);
                    }
                }
                if has_entry(after, x) && x != id {
                    let k = choose|k: int| 0 <= k < after.len() && (#[trigger] after[k]).0 == x;
                    if k < i {
                        assert(before[k].0 == x);
                    } else {
                        assert(before[k - shift].0 == x);
                    }
                }
                if x == id {
                    assert(after[i as int].0 == x);
                }
            }
            assert forall|x: TxnId| #[trigger] entry_map(after).dom().contains(x) implies entry_map(
                after,
            )[x] == target[x] by {
                let k = choose|k: int| 0 <= k < after.len() && (#[trigger] after[k]).0 == x;
                lemma_entry_map_index(after, k);
                if k < i {
                    lemma_entry_map_index(before, k);
                    assert(after[k].0.before(after[i as int].0));
                } else if i < k {
                    lemma_entry_map_index(before, k - shift);
                    assert(after[i as int].0.before(after[k].0));
                }
            }
            assert(entry_map(after) =~= target);
            let from = if present { i + 1 } else { i as int };
            assert forall|k: int| from <= k < before.len() implies id.before(
                (#[trigger] before[k]).0,
            ) by {
                assert(after[k + shift] == before[k]);
                assert(after[i as int].0.before(after[k + shift].0));
            }
            lemma_filter_prefix(before, |e: (TxnId, V)| e.0.before(id), i as int);
            lemma_filter_suffix(before, |e: (TxnId, V)| id.before(e.0), from);
            assert(after =~= placed(before, id, value));
        }
        res
    }

    /// Append an entry which comes after all others.
    pub fn append(&mut self, id: TxnId, value: V)
        requires
            old(self).wf(),
            forall|k: int|
                #![trigger old(self).entries()[k]]
                0 <= k < old(self).entries().len() ==> old(self).entries()[k].0.before(id),
        ensures
            final(self).wf(),
            final(self).entries() == old(self).entries().push((id, value)),
    {
        self.entries.push((id, value));
    }

    /// Drop the entries at and before a cutoff.
    pub fn retain_after(&mut self, cutoff: &TxnId)
        requires
            old(self).wf(),
        ensures
            final(self).wf(),
            final(self).entries() == old(self).entries().filter(
                |e: (TxnId, V)| cutoff.before(e.0),
            ),
            final(self)@ == old(self)@.restrict(
                Set::new(|id: TxnId| cutoff.before(id)),
            ),
    {
        let ghost before = self.entries@;
        let mut i = self.position(cutoff);
        if i < self.entries.len() && self.entries[i].0 == *cutoff {
            i += 1;
        }
        let tail = self.entries.split_off(i);
        self.entries = tail;
        proof {
            let after = self.entries@;
            let keep = |e: (TxnId, V)| cutoff.before(e.0);
            assert(after =~= before.subrange(i as int, before.len() as int));
            assert forall|k: int| 0 <= k < i implies !keep(#[trigger] before[k]) by {}
            assert forall|k: int| i <= k < before.len() implies keep(#[trigger] before[k]) by {
                assert(!before[k].0.before(*cutoff));
                if before[k].0 == *cutoff {
                    if i < k {
                        assert(before[i as int].0.before(before[k].0));
                    }
                    if 0 < i {
                        assert(before[i - 1].0.before(before[k].0));
                    }
                }
            }
            assert(ascending(after)) by {
                assert forall|a: int, b: int|
                    #![trigger after[a], after[b]]
                    0 <= a < b < after.len() implies after[a].0.before(after[b].0) by {
                    assert(before[a + i].0.before(before[b + i].0));
                }
            }
            lemma_filter_suffix(before, keep, i as int);
            let target = entry_map(before).restrict(Set::new(|id: TxnId| cutoff.before(id)));
            assert forall|x: TxnId| #[trigger]
                entry_map(after).dom().contains(x) == target.dom().contains(x) by {
                if has_entry(before, x) && cutoff.before(x) {
                    let k = choose|k: int| 0 <= k < before.len() && (#[trigger] before[k]).0 == x;
                    assert(after[k - i].0 == x);
                }
                if has_entry(after, x) {
                    let k = choose|k: int| 0 <= k < after.len() && (#[trigger] after[k]).0 == x;
                    assert(before[k + i].0 == x);
                    assert(keep(before[k + i]));
                }
            }
            assert forall|x: TxnId| #[trigger] entry_map(after).dom().contains(x) implies entry_map(
                after,
            )[x] == target[x] by {
                let k = choose|k: int| 0 <= k < after.len() && (#[trigger] after[k]).0 == x;
                lemma_entry_map_index(after, k);
                lemma_entry_map_index(before, k + i);
            }
            assert(entry_map(after) =~= target);
        }
    }
}

/// Filtering a sequence whose kept elements are exactly those up to an index.
pub proof fn lemma_filter_prefix<A>(s: Seq<A>, keep: spec_fn(A) -> bool, to: int)
    requires
        0 <= to <= s.len(),
        forall|k: int| 0 <= k < to ==> keep(#[trigger] s[k]),
        forall|k: int| to <= k < s.len() ==> !keep(#[trigger] s[k]),
    ensures
        s.filter(keep) == s.subrange(0, to),
    decreases s.len(),
{
    reveal(Seq::filter);
    if s.len() > 0 {
        let init = s.drop_last();
        if to == s.len() {
            lemma_filter_prefix(init, keep, to - 1);
            assert(keep(s[s.len() - 1]));
        } else {
            lemma_filter_prefix(init, keep, to);
            assert(!keep(s[s.len() - 1]));
        }
    }
    assert(s.filter(keep) =~= s.subrange(0, to));
}

/// Filtering a sequence whose kept elements are exactly those from an index on.
pub proof fn lemma_filter_suffix<A>(s: Seq<A>, keep: spec_fn(A) -> bool, from: int)
    requires
        0 <= from <= s.len(),
        forall|k: int| 0 <= k < from ==> !keep(#[trigger] s[k]),
        forall|k: int| from <= k < s.len() ==> keep(#[trigger] s[k]),
    ensures
        s.filter(keep) == s.subrange(from, s.len() as int),
    decreases s.len(),
{
    reveal(Seq::filter);
    if s.len() == 0 {
        assert(s.filter(keep) =~= s.subrange(from, s.len() as int));
    } else {
        let init = s.drop_last();
        if from == s.len() {
            lemma_filter_suffix(init, keep, from - 1);
            assert(!keep(s[s.len() - 1]));
        } else {
            lemma_filter_suffix(init, keep, from);
            assert(keep(s[s.len() - 1]));
        }
        assert(s.filter(keep) =~= s.subrange(from, s.len() as int));
    }
}

/// Filtering mapped elements, or mapping filtered ones.
pub proof fn lemma_filter_map<A, B>(
    s: Seq<A>,
    f: spec_fn(A) -> B,
    on_mapped: spec_fn(B) -> bool,
    on_given: spec_fn(A) -> bool,
)
    requires
        forall|a: A| #[trigger] on_given(a) == on_mapped(f(a)),
    ensures
        s.map_values(f).filter(on_mapped) == s.filter(on_given).map_values(f),
    decreases s.len(),
{
    reveal(Seq::filter);
    if s.len() > 0 {
        let init = s.drop_last();
        lemma_filter_map(init, f, on_mapped, on_given);
        assert(s.map_values(f).drop_last() =~= init.map_values(f));
        assert(on_given(s.last()) == on_mapped(f(s.last())));
        if on_given(s.last()) {
            assert(s.filter(on_given) == init.filter(on_given).push(s.last()));
        }
    }
    assert(s.map_values(f).filter(on_mapped) =~= s.filter(on_given).map_values(f));
}

} // verus!
