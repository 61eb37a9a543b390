//! Sets and maps of project paths. Each path occurs once; what came first
//! stays first.

use vstd::prelude::*;

use crate::path::FilePath;

verus! {

/// The components of each path of a list.
pub open spec fn keys_of(list: Seq<FilePath>) -> Seq<Seq<Seq<u8>>> {
    list.map_values(|p: FilePath| p@)
}

/// A set of paths.
pub struct PathSet {
    pub items: Vec<FilePath>,
}

impl View for PathSet {
    type V = Set<Seq<Seq<u8>>>;

    open spec fn view(&self) -> Set<Seq<Seq<u8>>> {
        self.list().to_set()
    }
}

impl PathSet {
    /// The paths in the order they came.
    pub open spec fn list(self) -> Seq<Seq<Seq<u8>>> {
        keys_of(self.items@)
    }

    pub open spec fn wf(self) -> bool {
        self.list().no_duplicates()
    }

    pub fn new() -> (s: PathSet)
        ensures
            s.wf(),
            s@ == Set::<Seq<Seq<u8>>>::empty(),
            s.list() == Seq::<Seq<Seq<u8>>>::empty(),
    {
        let s = PathSet { items: Vec::new() };
        assert(s.list() == Seq::<Seq<Seq<u8>>>::empty());
        assert(s@ == Set::<Seq<Seq<u8>>>::empty());
        s
    }

    pub fn is_empty(&self) -> (r: bool)
        ensures
            r == (self@ == Set::<Seq<Seq<u8>>>::empty()),
            r == (self.list().len() == 0),
    {
        let r = self.items.len() == 0;
        proof {
            if r {
                assert(self@ == Set::<Seq<Seq<u8>>>::empty());
            } else {
                assert(self.list().contains(self.list()[0]));
                assert(self@.contains(self.list()[0]));
            }
        }
        r
    }

    pub fn contains(&self, path: &FilePath) -> (r: bool)
        ensures
            r == self@.contains(path@),
    {
        let mut i: usize = 0;
        while i < self.items.len()
            invariant
                i <= self.items@.len(),
                forall|k: int| 0 <= k < i ==> self.list()[k] != path@,
            decreases self.items@.len() - i,
        {
            assert(self.list()[i as int] == self.items@[i as int]@);
            if self.items[i].same(path) {
                assert(self.list().contains(path@));
                return true;
            }
            i = i + 1;
        }
        false
    }

    /// Add a path, which stays where it was if it is in the set already.
    pub fn insert(&mut self, path: FilePath)
        requires
            old(self).wf(),
        ensures
            final(self).wf(),
            final(self)@ == old(self)@.insert(path@),
            final(self).list() == (if old(self)@.contains(path@) { old(self).list() } else { old(self).list().push(path@) }),
    {
        if self.contains(&path) {
            assert(self@ == old(self)@.insert(path@));
            return;
        }
        let ghost key = path@;
        let ghost before = self.list();
        self.items.push(path);
        assert(self.list() == before.push(key));
        proof {
            push_key(before, key);
        }
    }

    /// Everything out of the list, once.
    pub fn from_list(list: Vec<FilePath>) -> (s: PathSet)
        ensures
            s.wf(),
            s@ == keys_of(list@).to_set(),
    {
        let mut s = PathSet::new();
        let mut i: usize = 0;
        while i < list.len()
            invariant
                i <= list@.len(),
                s.wf(),
                s@ == keys_of(list@).take(i as int).to_set(),
            decreases list@.len() - i,
        {
            let ghost all = keys_of(list@);
            s.insert(list[i].duplicate());
            i = i + 1;
            proof {
                assert(all.take(i as int) == all.take(i - 1).push(all[i - 1]));
                push_key(all.take(i - 1), all[i - 1]);
            }
        }
        assert(keys_of(list@).take(i as int) == keys_of(list@));
        assert(keys_of(list@).take(0).to_set() == Set::<Seq<Seq<u8>>>::empty());
        s
    }
}

/// One more key, seen as a set.
pub proof fn push_key(list: Seq<Seq<Seq<u8>>>, key: Seq<Seq<u8>>)
    ensures
        list.push(key).to_set() == list.to_set().insert(key),
        !list.contains(key) && list.no_duplicates() ==> list.push(key).no_duplicates(),
{
    let all = list.push(key);
    assert(all.to_set() =~= list.to_set().insert(key)) by {
        assert forall|k: Seq<Seq<u8>>| all.to_set().contains(k) == list.to_set().insert(key).contains(k) by {
            if list.contains(k) {
                let i = choose|i: int| 0 <= i < list.len() && list[i] == k;
                assert(all[i] == k);
            }
            if k == key {
                assert(all[list.len() as int] == k);
            }
            if all.contains(k) {
                let i = choose|i: int| 0 <= i < all.len() && all[i] == k;
                if i < list.len() {
                    assert(list[i] == k);
                }
            }
        }
    }
}

/// A map from paths.
pub struct PathMap<V> {
    pub entries: Vec<(FilePath, V)>,
}

impl<V> PathMap<V> {
    pub open spec fn keys(self) -> Seq<Seq<Seq<u8>>> {
        self.entries@.map_values(|e: (FilePath, V)| e.0@)
    }

    pub open spec fn wf(self) -> bool {
        self.keys().no_duplicates()
    }
}

impl<V> View for PathMap<V> {
    type V = Map<Seq<Seq<u8>>, V>;

    open spec fn view(&self) -> Map<Seq<Seq<u8>>, V> {
        Map::new(|k: Seq<Seq<u8>>| self.keys().contains(k), |k: Seq<Seq<u8>>| self.entries@[self.keys().index_of(k)].1)
    }
}

impl<V> PathMap<V> {
    proof fn entry(self, i: int)
        requires
            self.wf(),
            0 <= i < self.entries@.len(),
        ensures
            self@.dom().contains(self.entries@[i].0@),
            self@[self.entries@[i].0@] == self.entries@[i].1,
    {
        let key = self.entries@[i].0@;
        assert(self.keys()[i] == key);
        assert(self.keys().contains(key));
        let j = self.keys().index_of(key);
        assert(0 <= j < self.keys().len() && self.keys()[j] == key);
        assert(i == j);
    }

    pub fn new() -> (m: PathMap<V>)
        ensures
            m.wf(),
            m@ == Map::<Seq<Seq<u8>>, V>::empty(),
    {
        let m = PathMap { entries: Vec::new() };
        assert(m@ == Map::<Seq<Seq<u8>>, V>::empty());
        m
    }

    fn position(&self, path: &FilePath) -> (at: Option<usize>)
        requires
            self.wf(),
        ensures
            match at {
                Some(i) => i < self.entries@.len() && self.entries@[i as int].0@ == path@,
                None => !self@.dom().contains(path@),
            },
    {
        let mut i: usize = 0;
        while i < self.entries.len()
            invariant
                i <= self.entries@.len(),
                forall|k: int| 0 <= k < i ==> self.keys()[k] != path@,
            decreases self.entries@.len() - i,
        {
            assert(self.keys()[i as int] == self.entries@[i as int].0@);
            if self.entries[i].0.same(path) {
                return Some(i);
            }
            i = i + 1;
        }
        None
    }

    pub fn get(&self, path: &FilePath) -> (v: Option<&V>)
        requires
            self.wf(),
        ensures
            match v {
                Some(v) => self@.dom().contains(path@) && *v == self@[path@],
                None => !self@.dom().contains(path@),
            },
    {
        match self.position(path) {
            Some(i) => {
                proof {
                    self.entry(i as int);
                }
                Some(&self.entries[i].1)
            },
            None => None,
        }
    }

    pub fn insert(&mut self, path: FilePath, value: V)
        requires
            old(self).wf(),
        ensures
            final(self).wf(),
            final(self)@ == old(self)@.insert(path@, value),
    {
        let ghost key = path@;
        let at = self.position(&path);
        let ghost entries = self.entries@;
        match at {
            Some(i) => {
                self.entries.set(i, (path, value));
                assert(self.keys() == old(self).keys());
            },
            None => {
                self.entries.push((path, value));
                assert(self.keys() == old(self).keys().push(key));
                proof {
                    push_key(old(self).keys(), key);
                }
            },
        }
        proof {
            let target = match at {
                Some(i) => i as int,
                None => entries.len() as int,
            };
            self.entry(target);
            assert forall|k: Seq<Seq<u8>>| #[trigger] self@.dom().contains(k) implies old(self)@.insert(key, value).dom().contains(k)
                && self@[k] == old(self)@.insert(key, value)[k] by {
                let i = self.keys().index_of(k);
                assert(0 <= i < self.keys().len() && self.keys()[i] == k);
                self.entry(i);
                if k != key {
                    assert(self.entries@[i] == entries[i]);
                    old(self).entry(i);
                }
            }
            assert forall|k: Seq<Seq<u8>>| #[trigger] old(self)@.insert(key, value).dom().contains(k) implies self@.dom().contains(k) by {
                if k != key {
                    let i = old(self).keys().index_of(k);
                    assert(0 <= i < old(self).keys().len() && old(self).keys()[i] == k);
                    if i != target {
                        assert(self.entries@[i] == entries[i]);
                    }
                    self.entry(i);
                }
            }
            assert(self@ =~= old(self)@.insert(key, value));
        }
    }

    pub fn remove(&mut self, path: &FilePath)
        requires
            old(self).wf(),
        ensures
            final(self).wf(),
            final(self)@ == old(self)@.remove(path@),
    {
        match self.position(path) {
            None => {
                assert(self@ =~= old(self)@.remove(path@));
            },
            Some(at) => {
                let ghost entries = self.entries@;
                self.entries.remove(at);
                proof {
                    assert(self.keys() == old(self).keys().remove(at as int));
                    assert forall|i: int, j: int| 0 <= i < j < self.keys().len() implies self.keys()[i] != self.keys()[j] by {
                        let oi = if i < at { i } else { i + 1 };
                        let oj = if j < at { j } else { j + 1 };
                        assert(old(self).keys()[oi] != old(self).keys()[oj]);
                    }
                    assert forall|k: Seq<Seq<u8>>| #[trigger] self@.dom().contains(k) implies old(self)@.remove(path@).dom().contains(k)
                        && self@[k] == old(self)@[k] by {
                        let i = self.keys().index_of(k);
                        assert(0 <= i < self.keys().len() && self.keys()[i] == k);
                        let oi = if i < at { i } else { i + 1 };
                        assert(self.entries@[i] == entries[oi]);
                        self.entry(i);
                        old(self).entry(oi);
                        assert(old(self).keys()[at as int] == path@);
                        assert(old(self).keys()[oi] == k);
                    }
                    assert forall|k: Seq<Seq<u8>>| #[trigger] old(self)@.remove(path@).dom().contains(k) implies self@.dom().contains(k) by {
                        let oi = old(self).keys().index_of(k);
                        assert(0 <= oi < old(self).keys().len() && old(self).keys()[oi] == k);
                        let i = if oi < at { oi } else { oi - 1 };
                        assert(oi != at);
                        assert(self.entries@[i] == entries[oi]);
                        self.entry(i);
                    }
                    assert(self@ =~= old(self)@.remove(path@));
                }
            },
        }
    }

    pub fn len(&self) -> (n: usize)
        ensures
            n == self.keys().len(),
    {
        self.entries.len()
    }

    /// Of the first `n` entries those whose flag is set.
    pub open spec fn flagged(self, keep: Seq<bool>, n: int) -> Seq<(FilePath, V)>
        decreases n,
    {
        if n <= 0 {
            seq![]
        } else if keep[n - 1] {
            self.flagged(keep, n - 1).push(self.entries@[n - 1])
        } else {
            self.flagged(keep, n - 1)
        }
    }

    /// Keep the entries whose flag is set, in entry order.
    pub fn retain(&mut self, keep: &Vec<bool>)
        requires
            old(self).wf(),
            keep@.len() == old(self).keys().len(),
        ensures
            final(self).wf(),
            final(self).entries@ == old(self).flagged(keep@, keep@.len() as int),
            forall|k: Seq<Seq<u8>>| #[trigger] final(self)@.dom().contains(k) ==> old(self)@.dom().contains(k) && final(self)@[k] == old(self)@[k],
            forall|i: int|
                0 <= i < keep@.len() ==> final(self)@.dom().contains(#[trigger] old(self).keys()[i]) == keep@[i],
    {
        let ghost all = *self;
        // Taken from the back, so that both passes keep the order.
        let mut reversed: Vec<(FilePath, V)> = Vec::new();
        let mut left: usize = self.entries.len();
        while left > 0
            invariant
                left <= all.entries@.len(),
                self.entries@ == all.entries@.take(left as int),
                reversed@ == all.entries@.skip(left as int).reverse(),
            decreases left,
        {
            let entry = self.entries.pop();
            left = left - 1;
            if let Some(e) = entry {
                reversed.push(e);
                assert(reversed@ == all.entries@.skip(left as int).reverse());
            }
            assert(self.entries@ == all.entries@.take(left as int));
        }
        // The entry that each kept one was.
        let ghost mut from: Seq<int> = Seq::empty();
        let mut kept: Vec<(FilePath, V)> = Vec::new();
        let total: usize = reversed.len();
        let mut i: usize = 0;
        assert(all.entries@.skip(0) == all.entries@);
        while i < total
            invariant
                i <= total,
                total == all.entries@.len(),
                keep@.len() == all.entries@.len(),
                reversed@ == all.entries@.skip(i as int).reverse(),
                kept@ == all.flagged(keep@, i as int),
                kept@.len() == from.len(),
                forall|n: int| 0 <= n < from.len() ==> 0 <= #[trigger] from[n] < i && keep@[from[n]] && kept@[n] == all.entries@[from[n]],
                forall|m: int, n: int| 0 <= m < n < from.len() ==> #[trigger] from[m] < #[trigger] from[n],
                forall|k: int| 0 <= k < i && keep@[k] ==> #[trigger] from.contains(k),
            decreases total - i,
        {
            let ghost before = from;
            let entry = reversed.pop();
            if let Some(e) = entry {
                assert(e == all.entries@[i as int]);
                if keep[i] {
                    kept.push(e);
                    proof {
                        from = from.push(i as int);
                        assert(from[before.len() as int] == i as int);
                        assert forall|k: int| 0 <= k < i + 1 && keep@[k] implies #[trigger] from.contains(k) by {
                            if k < i {
                                assert(before.contains(k));
                                let n = choose|n: int| 0 <= n < before.len() && before[n] == k;
                                assert(from[n] == k);
                            }
                        }
                    }
                }
            }
            i = i + 1;
            assert(reversed@ == all.entries@.skip(i as int).reverse());
        }
        self.entries = kept;
        proof {
            assert forall|m: int, n: int| 0 <= m < n < self.keys().len() implies self.keys()[m] != self.keys()[n] by {
                assert(all.keys()[from[m]] != all.keys()[from[n]]);
            }
            assert forall|k: Seq<Seq<u8>>| #[trigger] self@.dom().contains(k) implies all@.dom().contains(k) && self@[k] == all@[k] by {
                let n = self.keys().index_of(k);
                assert(0 <= n < self.keys().len() && self.keys()[n] == k);
                self.entry(n);
                all.entry(from[n]);
            }
            assert forall|i: int| 0 <= i < keep@.len() implies self@.dom().contains(#[trigger] all.keys()[i]) == keep@[i] by {
                if keep@[i] {
                    assert(from.contains(i));
                    let n = choose|n: int| 0 <= n < from.len() && from[n] == i;
                    self.entry(n);
                } else if self@.dom().contains(all.keys()[i]) {
                    let n = self.keys().index_of(all.keys()[i]);
                    assert(0 <= n < self.keys().len() && self.keys()[n] == all.keys()[i]);
                    assert(all.keys()[from[n]] == all.keys()[i]);
                    assert(from[n] == i);
                }
            }
        }
    }
}

/// A path that was added is in the set, once and in the order it came; whether
/// another is in it does not change.
pub proof fn added_paths_are_held(set: &mut PathSet, then: &PathSet, path: FilePath, other: &FilePath, before: bool, after: bool, empty: bool)
    requires
        old(set).wf(),
        call_ensures(PathSet::insert, (set, path), ()),
        *then == *final(set),
        call_ensures(PathSet::contains, (&*old(set), other), before),
        call_ensures(PathSet::contains, (then, other), after),
        call_ensures(PathSet::is_empty, (then,), empty),
    ensures
        other@ == path@ ==> after,
        other@ != path@ ==> after == before,
        !empty,
        other@ == path@ && before ==> final(set).items@.len() == old(set).items@.len(),
        other@ == path@ && !before ==> final(set).items@.len() == old(set).items@.len() + 1 && final(set).items@[old(set).items@.len() as int]@
            == path@,
{
    assert(final(set).list().len() == final(set).items@.len());
    assert(old(set).list().len() == old(set).items@.len());
    if other@ == path@ && !before {
        let n = old(set).items@.len() as int;
        assert(final(set).list()[n] == final(set).items@[n]@);
    }
}

/// A set is empty at first, and one made of a list holds what the list does.
pub proof fn sets_hold_their_list(fresh: &PathSet, empty: bool, list: Vec<FilePath>, set: &PathSet, path: &FilePath, r: bool)
    requires
        call_ensures(PathSet::new, (), *fresh),
        call_ensures(PathSet::is_empty, (fresh,), empty),
        call_ensures(PathSet::from_list, (list,), *set),
        call_ensures(PathSet::contains, (set, path), r),
    ensures
        empty && fresh.items@.len() == 0,
        r <==> exists|i: int| 0 <= i < list@.len() && (#[trigger] list@[i])@ == path@,
{
    assert(fresh.list().len() == fresh.items@.len());
    let keys = keys_of(list@);
    if keys.contains(path@) {
        let i = choose|i: int| 0 <= i < keys.len() && keys[i] == path@;
        assert(list@[i]@ == path@);
    }
    if exists|i: int| 0 <= i < list@.len() && (#[trigger] list@[i])@ == path@ {
        let i = choose|i: int| 0 <= i < list@.len() && (#[trigger] list@[i])@ == path@;
        assert(keys[i] == path@);
    }
}

/// What was put under a path is got from it, and what is under another path
/// stays.
pub proof fn put_values_are_got<V>(map: &mut PathMap<V>, then: &PathMap<V>, path: FilePath, value: V, other: &FilePath, before: Option<&V>, after: Option<&V>)
    requires
        call_ensures(PathMap::<V>::insert, (map, path, value), ()),
        *then == *final(map),
        call_ensures(PathMap::<V>::get, (&*old(map), other), before),
        call_ensures(PathMap::<V>::get, (then, other), after),
    ensures
        other@ == path@ ==> after is Some && *after->0 == value,
        other@ != path@ ==> after == before,
{
}

/// What was removed is gone, and what is under another path stays.
pub proof fn removed_values_are_gone<V>(map: &mut PathMap<V>, then: &PathMap<V>, path: &FilePath, other: &FilePath, before: Option<&V>, after: Option<&V>)
    requires
        call_ensures(PathMap::<V>::remove, (map, path), ()),
        *then == *final(map),
        call_ensures(PathMap::<V>::get, (&*old(map), other), before),
        call_ensures(PathMap::<V>::get, (then, other), after),
    ensures
        other@ == path@ ==> after is None,
        other@ != path@ ==> after == before,
{
}

/// A map has nothing at first, and counts its entries.
pub proof fn maps_start_empty<V>(fresh: &PathMap<V>, n: usize, path: &FilePath, v: Option<&V>)
    requires
        call_ensures(PathMap::<V>::new, (), *fresh),
        call_ensures(PathMap::<V>::get, (fresh, path), v),
        call_ensures(PathMap::<V>::len, (fresh,), n),
    ensures
        v is None,
        n == fresh.entries@.len(),
{
    assert(fresh.keys().len() == fresh.entries@.len());
}

/// Of a map those entries are kept whose flag is set, with their values.
pub proof fn flagged_entries_are_kept<V>(map: &mut PathMap<V>, then: &PathMap<V>, keep: &Vec<bool>, i: int, path: &FilePath, before: Option<&V>, after: Option<&V>)
    requires
        old(map).wf(),
        keep@.len() == old(map).entries@.len(),
        call_ensures(PathMap::<V>::retain, (map, keep), ()),
        *then == *final(map),
        0 <= i < keep@.len(),
        path@ == old(map).entries@[i].0@,
        call_ensures(PathMap::<V>::get, (&*old(map), path), before),
        call_ensures(PathMap::<V>::get, (then, path), after),
    ensures
        keep@[i] ==> after == before && after is Some,
        !keep@[i] ==> after is None,
{
    assert(old(map).keys()[i] == path@);
    old(map).entry(i);
}

} // verus!
