//! A string-keyed dictionary backed by an association vector, with a
//! mathematical `Map` view. It stands in for a hash map: keys are unique in
//! the view, lookups find the first matching entry, and insertion replaces
//! the first matching entry or appends a new one.

use vstd::prelude::*;

use crate::util::str_eq;

verus! {

/// A mapping from string keys to values of type `T`, viewed as a
/// `Map<Seq<char>, T::V>`.
pub struct Dict<T> {
    entries: Vec<(String, T)>,
}

/// The map denoted by an association sequence; the first entry for a key
/// wins.
pub open spec fn assoc_view<T: View>(s: Seq<(String, T)>) -> Map<Seq<char>, T::V>
    decreases s.len(),
{
    if s.len() == 0 {
        Map::empty()
    } else {
        assoc_view(s.skip(1)).insert(s[0].0@, s[0].1@)
    }
}

impl<T: View> View for Dict<T> {
    type V = Map<Seq<char>, T::V>;

    closed spec fn view(&self) -> Map<Seq<char>, T::V> {
        assoc_view(self.entries@)
    }
}

/// If `k` first occurs at index `i`, the association view maps `k` to the
/// value stored there.
proof fn lemma_assoc_view_first<T: View>(s: Seq<(String, T)>, i: int, k: Seq<char>)
    requires
        0 <= i < s.len(),
        s[i].0@ == k,
        forall|j: int| 0 <= j < i ==> s[j].0@ != k,
    ensures
        assoc_view(s).contains_key(k),
        assoc_view(s)[k] == s[i].1@,
    decreases s.len(),
{
    if i == 0 {
    } else {
        lemma_assoc_view_first(s.skip(1), i - 1, k);
    }
}

/// A key that occurs nowhere in the entries is absent from the view.
proof fn lemma_assoc_view_absent<T: View>(s: Seq<(String, T)>, k: Seq<char>)
    requires
        forall|j: int| 0 <= j < s.len() ==> s[j].0@ != k,
    ensures
        !assoc_view(s).contains_key(k),
    decreases s.len(),
{
    if s.len() > 0 {
        lemma_assoc_view_absent(s.skip(1), k);
    }
}

/// Replacing the value at the first occurrence of `k` updates the view at
/// `k` alone.
proof fn lemma_assoc_view_update<T: View>(
    s: Seq<(String, T)>,
    i: int,
    k: Seq<char>,
    e: (String, T),
)
    requires
        0 <= i < s.len(),
        s[i].0@ == k,
        e.0@ == k,
        forall|j: int| 0 <= j < i ==> s[j].0@ != k,
    ensures
        assoc_view(s.update(i, e)) =~= assoc_view(s).insert(k, e.1@),
    decreases s.len(),
{
    let su = s.update(i, e);
    if i == 0 {
        assert(su.skip(1) =~= s.skip(1));
    } else {
        lemma_assoc_view_update(s.skip(1), i - 1, k, e);
        assert(su.skip(1) =~= s.skip(1).update(i - 1, e));
        assert(su[0] == s[0]);
    }
}

/// Entry sequences equal view-by-view denote the same map.
proof fn lemma_assoc_view_congruent<T: View>(s1: Seq<(String, T)>, s2: Seq<(String, T)>)
    requires
        s1.len() == s2.len(),
        forall|j: int|
            0 <= j < s1.len() ==> (#[trigger] s1[j]).0@ == s2[j].0@ && s1[j].1@ == s2[j].1@,
    ensures
        assoc_view(s1) == assoc_view(s2),
    decreases s1.len(),
{
    if s1.len() > 0 {
        lemma_assoc_view_congruent(s1.skip(1), s2.skip(1));
        assert(s1[0].0@ == s2[0].0@ && s1[0].1@ == s2[0].1@);
        assert(assoc_view(s1) =~= assoc_view(s2));
    } else {
        assert(assoc_view(s1) =~= assoc_view(s2));
    }
}

/// Appending an entry whose key is absent inserts it into the view.
proof fn lemma_assoc_view_push<T: View>(s: Seq<(String, T)>, e: (String, T))
    requires
        forall|j: int| 0 <= j < s.len() ==> s[j].0@ != e.0@,
    ensures
        assoc_view(s.push(e)) =~= assoc_view(s).insert(e.0@, e.1@),
    decreases s.len(),
{
    let sp = s.push(e);
    if s.len() == 0 {
        assert(sp.skip(1) =~= Seq::<(String, T)>::empty());
        assert(sp[0] == e);
        assert(assoc_view(sp) == assoc_view(sp.skip(1)).insert(sp[0].0@, sp[0].1@));
        assert(assoc_view(sp.skip(1)) == Map::<Seq<char>, T::V>::empty());
        assert(assoc_view(s) == Map::<Seq<char>, T::V>::empty());
    } else {
        lemma_assoc_view_push(s.skip(1), e);
        assert(sp.skip(1) =~= s.skip(1).push(e));
        assert(sp[0] == s[0]);
        assert(s[0].0@ != e.0@);
        assert(assoc_view(sp) == assoc_view(s.skip(1)).insert(e.0@, e.1@).insert(
            s[0].0@,
            s[0].1@,
        ));
        assert(assoc_view(s.skip(1)).insert(e.0@, e.1@).insert(s[0].0@, s[0].1@)
            =~= assoc_view(s.skip(1)).insert(s[0].0@, s[0].1@).insert(e.0@, e.1@));
        assert(assoc_view(s) == assoc_view(s.skip(1)).insert(s[0].0@, s[0].1@));
    }
}

impl<T: View> Dict<T> {
    /// An empty dictionary.
    pub fn new() -> (r: Dict<T>)
        ensures
            r@ == Map::<Seq<char>, T::V>::empty(),
    {
        Dict { entries: Vec::new() }
    }

    /// The value stored under `name`, if any.
    pub fn get(&self, name: &str) -> (r: Option<&T>)
        ensures
            r is Some <==> self@.contains_key(name@),
            r matches Some(v) ==> v@ == self@[name@],
    {
        let n = self.entries.len();
        let mut i: usize = 0;
        while i < n
            invariant
                n == self.entries@.len(),
                i <= n,
                forall|j: int| 0 <= j < i ==> self.entries@[j].0@ != name@,
            decreases n - i,
        {
            if str_eq(self.entries[i].0.as_str(), name) {
                proof {
                    lemma_assoc_view_first(self.entries@, i as int, name@);
                }
                return Some(&self.entries[i].1);
            }
            i = i + 1;
        }
        proof {
            lemma_assoc_view_absent(self.entries@, name@);
        }
        None
    }

    /// Binds `name` to `value`, replacing any earlier binding.
    pub fn insert(&mut self, name: String, value: T)
        ensures
            final(self)@ == old(self)@.insert(name@, value@),
    {
        let n = self.entries.len();
        let mut i: usize = 0;
        while i < n
            invariant
                n == self.entries@.len(),
                i <= n,
                self.entries@ == old(self).entries@,
                forall|j: int| 0 <= j < i ==> self.entries@[j].0@ != name@,
            decreases n - i,
        {
            if str_eq(self.entries[i].0.as_str(), name.as_str()) {
                proof {
                    lemma_assoc_view_update(
                        self.entries@,
                        i as int,
                        name@,
                        (name, value),
                    );
                }
                self.entries[i] = (name, value);
                return ;
            }
            i = i + 1;
        }
        proof {
            lemma_assoc_view_push(self.entries@, (name, value));
        }
        self.entries.push((name, value));
    }
}

impl<T: View + Clone> Dict<T> {
    /// A copy of the entries with the same views, values cloned.
    fn dup_entries(&self) -> (r: Vec<(String, T)>)
        requires
            forall|x: &T, y: T| call_ensures(T::clone, (x,), y) ==> y@ == x@,
        ensures
            r@.len() == self.entries@.len(),
            forall|j: int|
                0 <= j < r@.len() ==> (#[trigger] r@[j]).0@ == self.entries@[j].0@
                    && r@[j].1@ == self.entries@[j].1@,
    {
        let n = self.entries.len();
        let mut out: Vec<(String, T)> = Vec::new();
        let mut i: usize = 0;
        while i < n
            invariant
                n == self.entries@.len(),
                i <= n,
                out@.len() == i,
                forall|x: &T, y: T| call_ensures(T::clone, (x,), y) ==> y@ == x@,
                forall|j: int|
                    0 <= j < i ==> (#[trigger] out@[j]).0@ == self.entries@[j].0@
                        && out@[j].1@ == self.entries@[j].1@,
            decreases n - i,
        {
            let name = self.entries[i].0.clone();
            let value = self.entries[i].1.clone();
            out.push((name, value));
            i = i + 1;
        }
        out
    }

    /// A copy of the dictionary with the same view.
    pub fn clone_dict(&self) -> (r: Self)
        requires
            forall|x: &T, y: T| call_ensures(T::clone, (x,), y) ==> y@ == x@,
        ensures
            r@ == self@,
    {
        let entries = self.dup_entries();
        proof {
            lemma_assoc_view_congruent(entries@, self.entries@);
        }
        Dict { entries }
    }
}

} // verus!
