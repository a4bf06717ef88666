//! Amounts keyed by resource: the supply and the debt of a position, a
//! priced snapshot, a request to borrow.
//!
//! A value map holds at most one amount per resource and keeps its entries
//! in the order in which their resources first arrived. Its model is the
//! sequence of its entries; the functions at the top of this file read such
//! a sequence as a map.
use crate::address::ResourceAddress;
use crate::decimal::Decimal;
use vstd::prelude::*;

verus! {

/// A resource and an amount of it.
pub type ValueTuple = (ResourceAddress, Decimal);

/// Whether some entry of `s` is for `a`.
pub open spec fn has_key(s: Seq<ValueTuple>, a: ResourceAddress) -> bool {
    exists|i: int| 0 <= i < s.len() && (#[trigger] s[i]).0 == a
}

/// The place of an entry for `a` in `s`, where there is one.
pub open spec fn index_of(s: Seq<ValueTuple>, a: ResourceAddress) -> int {
    choose|i: int| 0 <= i < s.len() && (#[trigger] s[i]).0 == a
}

/// No two entries of `s` are for the same resource.
pub open spec fn distinct_keys(s: Seq<ValueTuple>) -> bool {
    forall|i: int, j: int| 0 <= i < j < s.len() ==> (#[trigger] s[i]).0 != (#[trigger] s[j]).0
}

/// The amount that `s` holds for `a`.
pub open spec fn value_of(s: Seq<ValueTuple>, a: ResourceAddress) -> Option<Decimal> {
    if has_key(s, a) {
        Some(s[index_of(s, a)].1)
    } else {
        None
    }
}

/// `s` with the amount for `a` set to `v`: in place where `s` has an entry
/// for `a`, at the end where it has none.
pub open spec fn with_value(s: Seq<ValueTuple>, a: ResourceAddress, v: Decimal) -> Seq<
    ValueTuple,
> {
    if has_key(s, a) {
        s.update(index_of(s, a), (a, v))
    } else {
        s.push((a, v))
    }
}

/// `s` without its entry for `a`, the others in their order.
pub open spec fn without_key(s: Seq<ValueTuple>, a: ResourceAddress) -> Seq<ValueTuple> {
    if has_key(s, a) {
        s.remove(index_of(s, a))
    } else {
        s
    }
}

/// Every amount in `s` is above zero.
pub open spec fn all_positive(s: Seq<ValueTuple>) -> bool {
    forall|i: int| 0 <= i < s.len() ==> (#[trigger] s[i]).1.attos > 0
}

/// The map that the entries `s` stand for.
pub open spec fn as_map(s: Seq<ValueTuple>) -> Map<ResourceAddress, Decimal> {
    Map::new(|a: ResourceAddress| has_key(s, a), |a: ResourceAddress| s[index_of(s, a)].1)
}

/// Where keys are distinct, the entry found at `i` is the entry for its key.
pub proof fn lemma_index_of(s: Seq<ValueTuple>, i: int)
    requires
        distinct_keys(s),
        0 <= i < s.len(),
    ensures
        has_key(s, s[i].0),
        index_of(s, s[i].0) == i,
        value_of(s, s[i].0) == Some(s[i].1),
{
    let a = s[i].0;
    let j = index_of(s, a);
    assert(0 <= j < s.len() && s[j].0 == a);
    if j < i {
        assert(s[j].0 != s[i].0);
    } else if i < j {
        assert(s[i].0 != s[j].0);
    }
}

/// Setting a value keeps keys distinct, and reads back as a map would.
pub proof fn lemma_with_value(s: Seq<ValueTuple>, a: ResourceAddress, v: Decimal)
    requires
        distinct_keys(s),
    ensures
        distinct_keys(with_value(s, a, v)),
        value_of(with_value(s, a, v), a) == Some(v),
        forall|b: ResourceAddress|
            b != a ==> #[trigger] value_of(with_value(s, a, v), b) == value_of(s, b),
        forall|b: ResourceAddress|
            #[trigger] has_key(with_value(s, a, v), b) <==> b == a || has_key(s, b),
        as_map(with_value(s, a, v)) == as_map(s).insert(a, v),
{
    let t = with_value(s, a, v);
    let k: int = if has_key(s, a) {
        index_of(s, a)
    } else {
        s.len() as int
    };
    assert(t.len() > k && t[k] == (a, v));
    assert(forall|i: int| 0 <= i < t.len() && i != k ==> t[i] == s[i]);
    assert(forall|i: int| 0 <= i < s.len() && i != k ==> (#[trigger] s[i]).0 != a) by {
        if has_key(s, a) {
            assert forall|i: int| 0 <= i < s.len() && i != k implies (#[trigger] s[i]).0
                != a by {
                lemma_index_of(s, i);
            }
        }
    }
    assert(distinct_keys(t));
    lemma_index_of(t, k);
    assert forall|b: ResourceAddress| #[trigger]
        has_key(t, b) <==> b == a || has_key(s, b) by {
        if has_key(t, b) {
            let i = index_of(t, b);
            if i != k {
                assert(s[i].0 == b);
            }
        }
        if has_key(s, b) && b != a {
            let i = index_of(s, b);
            assert(t[i].0 == b);
        }
    }
    assert forall|b: ResourceAddress| b != a implies #[trigger] value_of(t, b) == value_of(
        s,
        b,
    ) by {
        if has_key(s, b) {
            let i = index_of(s, b);
            assert(t[i] == s[i]);
            lemma_index_of(t, i);
        }
    }
    assert(as_map(t) =~= as_map(s).insert(a, v));
}

/// Dropping a key keeps keys distinct, and reads back as a map would.
pub proof fn lemma_without_key(s: Seq<ValueTuple>, a: ResourceAddress)
    requires
        distinct_keys(s),
    ensures
        distinct_keys(without_key(s, a)),
        !has_key(without_key(s, a), a),
        forall|b: ResourceAddress|
            b != a ==> #[trigger] value_of(without_key(s, a), b) == value_of(s, b),
        forall|b: ResourceAddress|
            #[trigger] has_key(without_key(s, a), b) <==> b != a && has_key(s, b),
        as_map(without_key(s, a)) == as_map(s).remove(a),
        all_positive(s) ==> all_positive(without_key(s, a)),
{
    let t = without_key(s, a);
    if has_key(s, a) {
        let k = index_of(s, a);
        assert(forall|i: int| 0 <= i < k ==> t[i] == s[i]);
        assert(forall|i: int| k <= i < t.len() ==> t[i] == s[i + 1]);
        assert forall|i: int| 0 <= i < t.len() implies (#[trigger] t[i]).0 != a by {
            if i < k {
                lemma_index_of(s, i);
            } else {
                lemma_index_of(s, i + 1);
            }
        }
        assert forall|b: ResourceAddress| #[trigger]
            has_key(t, b) <==> b != a && has_key(s, b) by {
            if has_key(t, b) {
                let i = index_of(t, b);
                if i < k {
                    assert(s[i].0 == b);
                } else {
                    assert(s[i + 1].0 == b);
                }
            }
            if has_key(s, b) && b != a {
                let i = index_of(s, b);
                if i < k {
                    assert(t[i].0 == b);
                } else {
                    assert(t[i - 1].0 == b);
                }
            }
        }
        assert(distinct_keys(t));
        assert forall|b: ResourceAddress| b != a implies #[trigger] value_of(t, b) == value_of(
            s,
            b,
        ) by {
            if has_key(s, b) {
                let i = index_of(s, b);
                if i < k {
                    assert(t[i] == s[i]);
                    lemma_index_of(t, i);
                } else {
                    assert(t[i - 1] == s[i]);
                    lemma_index_of(t, i - 1);
                }
            }
        }
    }
    assert(as_map(t) =~= as_map(s).remove(a));
}

/// `entry` added into `into`: summed with the amount that `into` holds for
/// its resource, or set where it holds none. `None` where the sum overflows.
pub open spec fn add_entry(into: Seq<ValueTuple>, entry: ValueTuple) -> Option<Seq<ValueTuple>> {
    match value_of(into, entry.0) {
        Some(amount) => match amount.add_spec(entry.1) {
            Some(sum) => Some(with_value(into, entry.0, sum)),
            None => None,
        },
        None => Some(with_value(into, entry.0, entry.1)),
    }
}

/// The entries of `held` added into `new`, one after the other.
pub open spec fn merge(new: Seq<ValueTuple>, held: Seq<ValueTuple>) -> Option<Seq<ValueTuple>>
    decreases held.len(),
{
    if held.len() == 0 {
        Some(new)
    } else {
        match merge(new, held.drop_last()) {
            Some(merged) => add_entry(merged, held.last()),
            None => None,
        }
    }
}

/// Setting an amount above zero keeps every amount above zero.
pub proof fn lemma_with_value_positive(s: Seq<ValueTuple>, a: ResourceAddress, v: Decimal)
    requires
        all_positive(s),
        v.attos > 0,
    ensures
        all_positive(with_value(s, a, v)),
{
}

/// Adding an entry keeps a value map duplicate-free, and free of amounts
/// that are not above zero where the entry's is above zero.
pub proof fn lemma_add_entry(into: Seq<ValueTuple>, entry: ValueTuple)
    requires
        distinct_keys(into),
    ensures
        add_entry(into, entry) matches Some(sum) ==> {
            &&& distinct_keys(sum)
            &&& (all_positive(into) && entry.1.attos > 0 ==> all_positive(sum))
            &&& sum.len() >= into.len()
            &&& sum.len() > 0
        },
{
    if let Some(sum) = add_entry(into, entry) {
        match value_of(into, entry.0) {
            Some(amount) => {
                let i = index_of(into, entry.0);
                assert(into[i].1 == amount);
                let total = amount.add_spec(entry.1)->Some_0;
                lemma_with_value(into, entry.0, total);
                if all_positive(into) && entry.1.attos > 0 {
                    lemma_with_value_positive(into, entry.0, total);
                }
            },
            None => {
                lemma_with_value(into, entry.0, entry.1);
                if all_positive(into) && entry.1.attos > 0 {
                    lemma_with_value_positive(into, entry.0, entry.1);
                }
            },
        }
    }
}

/// Merging keeps value maps duplicate-free and free of amounts that are not
/// above zero, and the result is empty only where both sides are.
pub proof fn lemma_merge(new: Seq<ValueTuple>, held: Seq<ValueTuple>)
    requires
        distinct_keys(new),
    ensures
        merge(new, held) matches Some(merged) ==> {
            &&& distinct_keys(merged)
            &&& (all_positive(new) && all_positive(held) ==> all_positive(merged))
            &&& merged.len() >= new.len()
            &&& (held.len() > 0 ==> merged.len() > 0)
        },
    decreases held.len(),
{
    if held.len() > 0 {
        lemma_merge(new, held.drop_last());
        if let Some(front) = merge(new, held.drop_last()) {
            lemma_add_entry(front, held.last());
            if all_positive(held) {
                assert forall|i: int| 0 <= i < held.drop_last().len() implies (
                #[trigger] held.drop_last()[i]).1.attos > 0 by {
                    assert(held.drop_last()[i] == held[i]);
                }
                assert(held[held.len() - 1].1.attos > 0);
            }
        }
    }
}

/// Once merging a front part of `held` overflows, merging all of it does.
pub proof fn lemma_merge_prefix(new: Seq<ValueTuple>, held: Seq<ValueTuple>, k: int)
    requires
        0 <= k <= held.len(),
        merge(new, held.take(k)) is None,
    ensures
        merge(new, held) is None,
    decreases held.len() - k,
{
    if k < held.len() {
        assert(held.take(k + 1).drop_last() == held.take(k));
        lemma_merge_prefix(new, held, k + 1);
    } else {
        assert(held.take(k) == held);
    }
}

/// The amount, in attos, that `s` holds for `a`: nothing where it holds no
/// entry.
pub open spec fn amount_of(s: Seq<ValueTuple>, a: ResourceAddress) -> int {
    match value_of(s, a) {
        Some(amount) => amount.attos as int,
        None => 0,
    }
}

/// The sum, in attos, of all entries of `s` that are for `a`. Here `s` may
/// hold several entries for one resource.
pub open spec fn total_of(s: Seq<ValueTuple>, a: ResourceAddress) -> int
    decreases s.len(),
{
    if s.len() == 0 {
        0
    } else if s.last().0 == a {
        total_of(s.drop_last(), a) + s.last().1.attos
    } else {
        total_of(s.drop_last(), a)
    }
}

/// Merging adds up: the merged map holds for each resource what `new` held
/// for it and the sum of all entries of `held` for it, whether `held` has
/// one entry for the resource, several or none. It holds an entry for
/// exactly the resources for which either side does.
pub proof fn lemma_merge_total(new: Seq<ValueTuple>, held: Seq<ValueTuple>, a: ResourceAddress)
    requires
        distinct_keys(new),
    ensures
        merge(new, held) matches Some(merged) ==> {
            &&& amount_of(merged, a) == amount_of(new, a) + total_of(held, a)
            &&& has_key(merged, a) <==> has_key(new, a) || has_key(held, a)
        },
    decreases held.len(),
{
    if held.len() > 0 {
        if let Some(merged) = merge(new, held) {
            let rest = held.drop_last();
            let last = held.last();
            let front = merge(new, rest)->Some_0;
            lemma_merge_total(new, rest, a);
            lemma_merge(new, rest);
            assert(has_key(held, a) <==> has_key(rest, a) || last.0 == a) by {
                if has_key(held, a) {
                    let i = choose|i: int| 0 <= i < held.len() && (#[trigger] held[i]).0 == a;
                    if i < rest.len() {
                        assert(rest[i].0 == a);
                    }
                }
                if has_key(rest, a) {
                    let i = choose|i: int| 0 <= i < rest.len() && (#[trigger] rest[i]).0 == a;
                    assert(held[i].0 == a);
                }
                if last.0 == a {
                    assert(held[held.len() - 1].0 == a);
                }
            }
            match value_of(front, last.0) {
                Some(amount) => {
                    lemma_with_value(front, last.0, amount.add_spec(last.1)->Some_0);
                },
                None => {
                    lemma_with_value(front, last.0, last.1);
                },
            }
        }
    } else {
        assert(!has_key(held, a));
    }
}

/// What two sides hold for a resource together: the sum where both hold
/// something, and what one holds where the other holds nothing.
pub open spec fn sum_of(x: Option<Decimal>, y: Option<Decimal>) -> Option<Decimal> {
    match (x, y) {
        (Some(a), Some(b)) => a.add_spec(b),
        (Some(a), None) => Some(a),
        (None, Some(b)) => Some(b),
        (None, None) => None,
    }
}

/// The last entry of a duplicate-free list is the entry for its resource;
/// for any other resource the list holds what its front part holds.
pub proof fn lemma_value_of_last(s: Seq<ValueTuple>, a: ResourceAddress)
    requires
        distinct_keys(s),
        s.len() > 0,
    ensures
        distinct_keys(s.drop_last()),
        s.last().0 == a ==> value_of(s, a) == Some(s.last().1) && !has_key(s.drop_last(), a),
        s.last().0 != a ==> value_of(s, a) == value_of(s.drop_last(), a),
{
    let front = s.drop_last();
    assert(forall|i: int| 0 <= i < front.len() ==> front[i] == s[i]);
    lemma_index_of(s, s.len() - 1);
    if s.last().0 == a {
        if has_key(front, a) {
            let i = index_of(front, a);
            assert(s[i].0 == s[s.len() - 1].0);
        }
    } else {
        if has_key(s, a) {
            let i = index_of(s, a);
            assert(front[i].0 == a);
            lemma_index_of(front, i);
        }
        if has_key(front, a) {
            let i = index_of(front, a);
            assert(s[i].0 == a);
            lemma_index_of(s, i);
        }
    }
}

/// Merging is additive per resource: the merged map holds for each
/// resource what the two sides hold for it together.
pub proof fn lemma_merge_values(new: Seq<ValueTuple>, held: Seq<ValueTuple>, a: ResourceAddress)
    requires
        distinct_keys(new),
        distinct_keys(held),
    ensures
        merge(new, held) matches Some(merged) ==> value_of(merged, a) == sum_of(
            value_of(new, a),
            value_of(held, a),
        ),
    decreases held.len(),
{
    if held.len() > 0 {
        if let Some(merged) = merge(new, held) {
            let front = merge(new, held.drop_last())->Some_0;
            let last = held.last();
            lemma_value_of_last(held, a);
            lemma_value_of_last(held, last.0);
            lemma_merge_values(new, held.drop_last(), a);
            lemma_merge_values(new, held.drop_last(), last.0);
            lemma_merge(new, held.drop_last());
            match value_of(front, last.0) {
                Some(amount) => {
                    lemma_with_value(front, last.0, amount.add_spec(last.1)->Some_0);
                },
                None => {
                    lemma_with_value(front, last.0, last.1);
                },
            }
        }
    }
}

/// A duplicate-free list of amounts by resource, in order of arrival.
#[derive(Debug)]
pub struct ValueMap {
    entries: Vec<ValueTuple>,
}

impl View for ValueMap {
    type V = Seq<ValueTuple>;

    closed spec fn view(&self) -> Seq<ValueTuple> {
        self.entries@
    }
}

impl Clone for ValueMap {
    fn clone(&self) -> (r: Self)
        ensures
            r@ == self@,
    {
        let mut entries: Vec<ValueTuple> = Vec::new();
        let mut i: usize = 0;
        while i < self.entries.len()
            invariant
                i <= self.entries.len(),
                entries@ == self.entries@.take(i as int),
            decreases self.entries.len() - i,
        {
            entries.push(self.entries[i]);
            assert(self.entries@.take(i + 1) == self.entries@.take(i as int).push(
                self.entries@[i as int],
            ));
            i += 1;
        }
        assert(self.entries@.take(i as int) == self.entries@);
        ValueMap { entries }
    }
}

impl ValueMap {
    /// The invariant of the type: one entry per resource at most.
    pub open spec fn wf(&self) -> bool {
        distinct_keys(self@)
    }

    /// An empty map.
    pub fn new() -> (r: ValueMap)
        ensures
            r@ == Seq::<ValueTuple>::empty(),
            r.wf(),
    {
        ValueMap { entries: Vec::new() }
    }

    /// The number of entries.
    pub fn len(&self) -> (r: usize)
        ensures
            r == self@.len(),
    {
        self.entries.len()
    }

    /// Whether the map holds no entry.
    pub fn is_empty(&self) -> (r: bool)
        ensures
            r == (self@.len() == 0),
    {
        self.entries.len() == 0
    }

    /// The entry at place `i`, in order of arrival.
    pub fn entry(&self, i: usize) -> (r: ValueTuple)
        requires
            i < self@.len(),
        ensures
            r == self@[i as int],
    {
        self.entries[i]
    }

    /// The place of the entry for `a`.
    pub fn find(&self, a: &ResourceAddress) -> (r: Option<usize>)
        ensures
            match r {
                Some(i) => i < self@.len() && self@[i as int].0 == *a,
                None => !has_key(self@, *a),
            },
            self.wf() ==> r == (if has_key(self@, *a) {
                Some(index_of(self@, *a) as usize)
            } else {
                None
            }),
    {
        let mut i: usize = 0;
        while i < self.entries.len()
            invariant
                i <= self.entries.len(),
                forall|j: int| 0 <= j < i ==> (#[trigger] self.entries@[j]).0 != *a,
            decreases self.entries.len() - i,
        {
            if self.entries[i].0 == *a {
                proof {
                    if self.wf() {
                        lemma_index_of(self@, i as int);
                    }
                }
                return Some(i);
            }
            i += 1;
        }
        None
    }

    /// Whether the map holds an entry for `a`.
    pub fn contains_key(&self, a: &ResourceAddress) -> (r: bool)
        ensures
            r == has_key(self@, *a),
    {
        self.find(a).is_some()
    }

    /// The amount held for `a`.
    pub fn get(&self, a: &ResourceAddress) -> (r: Option<Decimal>)
        requires
            self.wf(),
        ensures
            r == value_of(self@, *a),
    {
        match self.find(a) {
            Some(i) => Some(self.entries[i].1),
            None => None,
        }
    }

    /// Sets the amount for `a`, and returns the amount that it replaces.
    pub fn insert(&mut self, a: ResourceAddress, v: Decimal) -> (r: Option<Decimal>)
        requires
            old(self).wf(),
        ensures
            final(self)@ == with_value(old(self)@, a, v),
            final(self).wf(),
            r == value_of(old(self)@, a),
    {
        proof {
            lemma_with_value(self@, a, v);
        }
        match self.find(&a) {
            Some(i) => {
                let previous = self.entries[i].1;
                self.entries.set(i, (a, v));
                Some(previous)
            },
            None => {
                self.entries.push((a, v));
                None
            },
        }
    }

    /// Drops the entry for `a`, and returns the amount that it held.
    pub fn remove(&mut self, a: &ResourceAddress) -> (r: Option<Decimal>)
        requires
            old(self).wf(),
        ensures
            final(self)@ == without_key(old(self)@, *a),
            final(self).wf(),
            r == value_of(old(self)@, *a),
    {
        proof {
            lemma_without_key(self@, *a);
        }
        match self.find(a) {
            Some(i) => {
                let removed = self.entries.remove(i);
                Some(removed.1)
            },
            None => None,
        }
    }

    /// The entries of `held` added into `new`, one after the other. `None`
    /// where a sum overflows.
    pub fn merge(new: ValueMap, held: &ValueMap) -> (r: Option<ValueMap>)
        requires
            new.wf(),
        ensures
            match merge(new@, held@) {
                Some(merged) => r matches Some(map) && map@ == merged && map.wf(),
                None => r is None,
            },
    {
        let ghost start = new@;
        let mut map = new;
        let mut i: usize = 0;
        assert(held@.take(0) == Seq::<ValueTuple>::empty());
        while i < held.len()
            invariant
                i <= held@.len(),
                start == new@,
                map.wf(),
                merge(start, held@.take(i as int)) == Some(map@),
            decreases held@.len() - i,
        {
            assert(held@.take(i + 1).drop_last() == held@.take(i as int));
            assert(held@.take(i + 1).last() == held@[i as int]);
            let (asset, amount) = held.entry(i);
            let sum = match map.get(&asset) {
                Some(sum_so_far) => match sum_so_far.checked_add(amount) {
                    Some(sum) => sum,
                    None => {
                        proof {
                            lemma_merge_prefix(start, held@, i + 1);
                        }
                        return None;
                    },
                },
                None => amount,
            };
            map.insert(asset, sum);
            i += 1;
        }
        assert(held@.take(i as int) == held@);
        Some(map)
    }
}

} // verus!
