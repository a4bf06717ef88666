//! The list of tracked assets: a duplicate-free list in order of arrival,
//! with membership answered in constant time.
use crate::address::ResourceAddress;
use std::collections::HashSet;
use vstd::prelude::*;

verus! {

/// The keys of the members of `s`.
pub open spec fn keys_of(s: Seq<ResourceAddress>) -> Set<u128> {
    Set::new(|k: u128| exists|i: int| 0 <= i < s.len() && (#[trigger] s[i]).key() == k)
}

proof fn lemma_keys_contains(s: Seq<ResourceAddress>, a: ResourceAddress)
    ensures
        keys_of(s).contains(a.key()) <==> s.contains(a),
{
    if keys_of(s).contains(a.key()) {
        let i = choose|i: int| 0 <= i < s.len() && (#[trigger] s[i]).key() == a.key();
        ResourceAddress::lemma_key_injective(s[i], a);
    }
    if s.contains(a) {
        let i = choose|i: int| 0 <= i < s.len() && s[i] == a;
        assert(s[i].key() == a.key());
    }
}

proof fn lemma_keys_push(s: Seq<ResourceAddress>, a: ResourceAddress)
    ensures
        keys_of(s.push(a)) == keys_of(s).insert(a.key()),
{
    let t = s.push(a);
    assert forall|k: u128| keys_of(t).contains(k) <==> keys_of(s).insert(a.key()).contains(
        k,
    ) by {
        if keys_of(t).contains(k) {
            let i = choose|i: int| 0 <= i < t.len() && (#[trigger] t[i]).key() == k;
            if i < s.len() {
                assert(s[i].key() == k);
            }
        }
        if keys_of(s).contains(k) {
            let i = choose|i: int| 0 <= i < s.len() && (#[trigger] s[i]).key() == k;
            assert(t[i].key() == k);
        }
        if k == a.key() {
            assert(t[s.len() as int].key() == k);
        }
    }
    assert(keys_of(t) =~= keys_of(s).insert(a.key()));
}

proof fn lemma_keys_remove(s: Seq<ResourceAddress>, at: int)
    requires
        s.no_duplicates(),
        0 <= at < s.len(),
    ensures
        keys_of(s.remove(at)) == keys_of(s).remove(s[at].key()),
        s.remove(at).no_duplicates(),
        !s.remove(at).contains(s[at]),
{
    let t = s.remove(at);
    assert(forall|i: int| 0 <= i < at ==> t[i] == s[i]);
    assert(forall|i: int| at <= i < t.len() ==> t[i] == s[i + 1]);
    assert forall|k: u128| keys_of(t).contains(k) <==> keys_of(s).remove(s[at].key()).contains(
        k,
    ) by {
        if keys_of(t).contains(k) {
            let i = choose|i: int| 0 <= i < t.len() && (#[trigger] t[i]).key() == k;
            let j = if i < at {
                i
            } else {
                i + 1
            };
            assert(s[j].key() == k);
            ResourceAddress::lemma_key_injective(s[j], s[at]);
        }
        if keys_of(s).contains(k) && k != s[at].key() {
            let j = choose|j: int| 0 <= j < s.len() && (#[trigger] s[j]).key() == k;
            let i = if j < at {
                j
            } else {
                j - 1
            };
            assert(t[i].key() == k);
        }
    }
    assert(keys_of(t) =~= keys_of(s).remove(s[at].key()));
    assert forall|i: int, j: int| 0 <= i < t.len() && 0 <= j < t.len() && i != j implies t[i]
        != t[j] by {
        let i2 = if i < at {
            i
        } else {
            i + 1
        };
        let j2 = if j < at {
            j
        } else {
            j + 1
        };
        assert(s[i2] != s[j2]);
    }
    if t.contains(s[at]) {
        let i = choose|i: int| 0 <= i < t.len() && t[i] == s[at];
        let i2 = if i < at {
            i
        } else {
            i + 1
        };
        assert(s[i2] == s[at]);
    }
}

/// A duplicate-free list of assets in order of arrival. Its model is the
/// sequence of its members.
pub struct LazyVec {
    items: Vec<ResourceAddress>,
    members: HashSet<u128>,
}

impl View for LazyVec {
    type V = Seq<ResourceAddress>;

    closed spec fn view(&self) -> Seq<ResourceAddress> {
        self.items@
    }
}

impl Clone for LazyVec {
    fn clone(&self) -> (r: Self)
        ensures
            r@ == self@,
            self.wf() ==> r.wf(),
    {
        broadcast use vstd::std_specs::hash::group_hash_axioms;

        let mut items: Vec<ResourceAddress> = Vec::new();
        let mut members: HashSet<u128> = HashSet::new();
        assert(keys_of(items@) =~= members@);
        let mut i: usize = 0;
        while i < self.items.len()
            invariant
                i <= self.items.len(),
                items@ == self.items@.take(i as int),
                members@ == keys_of(items@),
            decreases self.items.len() - i,
        {
            proof {
                lemma_keys_push(items@, self.items@[i as int]);
                assert(self.items@.take(i + 1) == self.items@.take(i as int).push(
                    self.items@[i as int],
                ));
            }
            items.push(self.items[i]);
            members.insert(self.items[i].key());
            i += 1;
        }
        assert(self.items@.take(i as int) == self.items@);
        LazyVec { items, members }
    }
}

impl LazyVec {
    /// The invariant of the type: no member occurs twice, and the index of
    /// members agrees with the list.
    pub closed spec fn wf(&self) -> bool {
        &&& self.items@.no_duplicates()
        &&& self.members@ == keys_of(self.items@)
    }

    /// A well-formed list holds nothing twice.
    pub proof fn lemma_no_duplicates(&self)
        requires
            self.wf(),
        ensures
            self@.no_duplicates(),
    {
    }

    /// An empty list.
    pub fn new() -> (r: LazyVec)
        ensures
            r@ == Seq::<ResourceAddress>::empty(),
            r.wf(),
    {
        let r = LazyVec { items: Vec::new(), members: HashSet::new() };
        assert(keys_of(r.items@) =~= r.members@);
        r
    }

    /// The number of members.
    pub fn get_length(&self) -> (r: usize)
        ensures
            r == self@.len(),
    {
        self.items.len()
    }

    /// The member at place `i`.
    pub fn get(&self, i: usize) -> (r: Option<ResourceAddress>)
        ensures
            r == (if i < self@.len() {
                Some(self@[i as int])
            } else {
                None
            }),
    {
        if i < self.items.len() {
            Some(self.items[i])
        } else {
            None
        }
    }

    /// Whether `el` is a member, without walking the list.
    pub fn contains(&self, el: &ResourceAddress) -> (r: bool)
        requires
            self.wf(),
        ensures
            r == self@.contains(*el),
    {
        broadcast use vstd::std_specs::hash::group_hash_axioms;

        let key = el.key();
        proof {
            lemma_keys_contains(self.items@, *el);
        }
        self.members.contains(&key)
    }

    /// Adds `el` at the end and returns its place; where `el` is a member
    /// already, changes nothing and returns `None`.
    pub fn append(&mut self, el: ResourceAddress) -> (r: Option<usize>)
        requires
            old(self).wf(),
        ensures
            final(self).wf(),
            match r {
                Some(i) => {
                    &&& !old(self)@.contains(el)
                    &&& i == old(self)@.len()
                    &&& final(self)@ == old(self)@.push(el)
                },
                None => old(self)@.contains(el) && final(self)@ == old(self)@,
            },
    {
        broadcast use vstd::std_specs::hash::group_hash_axioms;

        if self.contains(&el) {
            return None;
        }
        let place = self.items.len();
        proof {
            lemma_keys_push(self.items@, el);
        }
        self.items.push(el);
        self.members.insert(el.key());
        proof {
            let s = old(self)@;
            let t = s.push(el);
            assert forall|i: int, j: int| 0 <= i < t.len() && 0 <= j < t.len() && i != j implies t[i]
                != t[j] by {
                if i < s.len() && j < s.len() {
                    assert(s[i] != s[j]);
                } else if i < s.len() {
                    assert(s.contains(s[i]));
                } else {
                    assert(s.contains(s[j]));
                }
            }
        }
        Some(place)
    }

    /// The place of `flag` in the list.
    pub fn find(&self, flag: &ResourceAddress) -> (r: Option<usize>)
        ensures
            match r {
                Some(i) => i < self@.len() && self@[i as int] == *flag && forall|j: int|
                    0 <= j < i ==> self@[j] != *flag,
                None => !self@.contains(*flag),
            },
    {
        let mut i: usize = 0;
        while i < self.items.len()
            invariant
                i <= self.items.len(),
                forall|j: int| 0 <= j < i ==> self.items@[j] != *flag,
            decreases self.items.len() - i,
        {
            if self.items[i] == *flag {
                return Some(i);
            }
            i += 1;
        }
        None
    }

    /// Takes the member at place `i` out of the list; the members after it
    /// move up by one.
    pub fn remove(&mut self, i: usize) -> (r: Option<ResourceAddress>)
        requires
            old(self).wf(),
        ensures
            final(self).wf(),
            match r {
                Some(el) => {
                    &&& i < old(self)@.len()
                    &&& el == old(self)@[i as int]
                    &&& final(self)@ == old(self)@.remove(i as int)
                    &&& !final(self)@.contains(el)
                },
                None => i >= old(self)@.len() && final(self)@ == old(self)@,
            },
    {
        broadcast use vstd::std_specs::hash::group_hash_axioms;

        if i >= self.items.len() {
            return None;
        }
        proof {
            lemma_keys_remove(self.items@, i as int);
        }
        let el = self.items.remove(i);
        let key = el.key();
        self.members.remove(&key);
        Some(el)
    }

    /// Takes `flag` out of the list and returns the place that it had.
    pub fn pop(&mut self, flag: ResourceAddress) -> (r: Option<usize>)
        requires
            old(self).wf(),
        ensures
            final(self).wf(),
            match r {
                Some(i) => {
                    &&& i < old(self)@.len()
                    &&& old(self)@[i as int] == flag
                    &&& final(self)@ == old(self)@.remove(i as int)
                    &&& !final(self)@.contains(flag)
                },
                None => !old(self)@.contains(flag) && final(self)@ == old(self)@,
            },
    {
        match self.find(&flag) {
            Some(i) => {
                self.remove(i);
                Some(i)
            },
            None => None,
        }
    }

    /// As `pop`, in one pass over the list and with no early exit.
    pub fn pop_2(&mut self, flag: ResourceAddress) -> (r: Option<usize>)
        requires
            old(self).wf(),
        ensures
            final(self).wf(),
            match r {
                Some(i) => {
                    &&& i < old(self)@.len()
                    &&& old(self)@[i as int] == flag
                    &&& final(self)@ == old(self)@.remove(i as int)
                    &&& !final(self)@.contains(flag)
                },
                None => !old(self)@.contains(flag) && final(self)@ == old(self)@,
            },
    {
        broadcast use vstd::std_specs::hash::group_hash_axioms;

        let mut kept: Vec<ResourceAddress> = Vec::new();
        let mut found: Option<usize> = None;
        let mut i: usize = 0;
        while i < self.items.len()
            invariant
                i <= self.items.len(),
                self.items@.no_duplicates(),
                match found {
                    Some(at) => at < i && self.items@[at as int] == flag && kept@
                        == self.items@.take(i as int).remove(at as int),
                    None => kept@ == self.items@.take(i as int) && forall|j: int|
                        0 <= j < i ==> self.items@[j] != flag,
                },
            decreases self.items.len() - i,
        {
            let ghost before = self.items@.take(i as int);
            let ghost after = self.items@.take(i + 1);
            assert(after == before.push(self.items@[i as int]));
            if self.items[i] == flag {
                proof {
                    if let Some(at) = found {
                        assert(self.items@[at as int] == self.items@[i as int]);
                    }
                    assert(after.remove(i as int) =~= before);
                }
                found = Some(i);
            } else {
                kept.push(self.items[i]);
                proof {
                    if let Some(at) = found {
                        assert(after.remove(at as int) =~= before.remove(at as int).push(
                            self.items@[i as int],
                        ));
                    }
                }
            }
            i += 1;
        }
        assert(self.items@.take(i as int) == self.items@);
        match found {
            Some(at) => {
                proof {
                    lemma_keys_remove(self.items@, at as int);
                }
                self.items = kept;
                let key = flag.key();
                self.members.remove(&key);
                Some(at)
            },
            None => {
                proof {
                    if self.items@.contains(flag) {
                        let j = choose|j: int| 0 <= j < self.items@.len() && self.items@[j] == flag;
                        assert(self.items@[j] != flag);
                    }
                }
                None
            },
        }
    }

    /// The members, in order.
    pub fn to_vec(&self) -> (r: Vec<ResourceAddress>)
        ensures
            r@ == self@,
    {
        let mut list: Vec<ResourceAddress> = Vec::new();
        let mut i: usize = 0;
        while i < self.items.len()
            invariant
                i <= self.items.len(),
                list@ == self.items@.take(i as int),
            decreases self.items.len() - i,
        {
            list.push(self.items[i]);
            assert(self.items@.take(i + 1) == self.items@.take(i as int).push(
                self.items@[i as int],
            ));
            i += 1;
        }
        assert(self.items@.take(i as int) == self.items@);
        list
    }
}

} // verus!
