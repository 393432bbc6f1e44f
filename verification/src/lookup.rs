//! Name-keyed tables over ordered sequences.
//!
//! Events, functions, actors, child states and transition groups are all
//! held in declaration order and found by name.  A name resolves to its
//! first entry; the builders never create a second entry under one name, so
//! the tables behave as maps while keeping the order the laws need.

use vstd::prelude::*;

verus! {

/// An entry of a name-keyed table.
pub trait Keyed: Sized {
    /// The name this entry is filed under.
    spec fn key(self) -> Seq<char>;

    /// Decides whether this entry is filed under `name`.
    fn key_matches(&self, name: &String) -> (r: bool)
        ensures
            r == (self.key() == name@),
    ;
}

/// Resolves `name` to the first entry filed under it.
pub open spec fn lookup_keyed<T: Keyed>(s: Seq<T>, name: Seq<char>) -> Option<T>
    decreases s.len(),
{
    if s.len() == 0 {
        None
    } else if s[0].key() == name {
        Some(s[0])
    } else {
        lookup_keyed(s.drop_first(), name)
    }
}

/// Finds the index of the first entry filed under `name`.
pub fn find_keyed<T: Keyed>(v: &Vec<T>, name: &String) -> (r: Option<usize>)
    ensures
        match r {
            Some(i) => i < v@.len() && v@[i as int].key() == name@
                && (forall|j: int| 0 <= j < i ==> v@[j].key() != name@)
                && lookup_keyed(v@, name@) == Some(v@[i as int]),
            None => lookup_keyed(v@, name@) is None,
        },
{
    let n = v.len();
    let mut i: usize = 0;
    while i < n
        invariant
            n == v@.len(),
            i <= n,
            forall|j: int| 0 <= j < i ==> v@[j].key() != name@,
        decreases n - i,
    {
        if v[i].key_matches(name) {
            proof {
                lemma_keyed_at(v@, name@, i as int);
            }
            return Some(i);
        }
        i = i + 1;
    }
    proof {
        lemma_keyed_absent(v@, name@);
    }
    None
}

/// With no entry of `name` before index `i` and one at `i`, resolution finds
/// the entry at `i`.
pub proof fn lemma_keyed_at<T: Keyed>(s: Seq<T>, name: Seq<char>, i: int)
    requires
        0 <= i < s.len(),
        forall|j: int| 0 <= j < i ==> s[j].key() != name,
        s[i].key() == name,
    ensures
        lookup_keyed(s, name) == Some(s[i]),
    decreases i,
{
    if i > 0 {
        lemma_keyed_at(s.drop_first(), name, i - 1);
    }
}

/// What resolution finds is one of the entries.
pub proof fn lemma_keyed_found<T: Keyed>(s: Seq<T>, name: Seq<char>)
    requires
        lookup_keyed(s, name) is Some,
    ensures
        exists|i: int| 0 <= i < s.len() && #[trigger] s[i] == lookup_keyed(s, name).unwrap(),
    decreases s.len(),
{
    if s.len() > 0 && s[0].key() != name {
        lemma_keyed_found(s.drop_first(), name);
        let i = choose|i: int|
            0 <= i < s.drop_first().len() && #[trigger] s.drop_first()[i] == lookup_keyed(
                s.drop_first(),
                name,
            ).unwrap();
        assert(s[i + 1] == s.drop_first()[i]);
    }
}

/// When resolution fails, no entry at all is filed under `name`.
pub proof fn lemma_keyed_none<T: Keyed>(s: Seq<T>, name: Seq<char>)
    requires
        lookup_keyed(s, name) is None,
    ensures
        forall|j: int| 0 <= j < s.len() ==> s[j].key() != name,
    decreases s.len(),
{
    if s.len() > 0 {
        lemma_keyed_none(s.drop_first(), name);
        assert forall|j: int| 0 <= j < s.len() implies s[j].key() != name by {
            if j > 0 {
                assert(s[j] == s.drop_first()[j - 1]);
            }
        }
    }
}

/// With no entry of `name` at all, resolution fails.
pub proof fn lemma_keyed_absent<T: Keyed>(s: Seq<T>, name: Seq<char>)
    requires
        forall|j: int| 0 <= j < s.len() ==> s[j].key() != name,
    ensures
        lookup_keyed(s, name) is None,
    decreases s.len(),
{
    if s.len() > 0 {
        lemma_keyed_absent(s.drop_first(), name);
    }
}

/// Replacing the first entry of a name with another entry of the same name
/// re-files that name and leaves every other name's resolution unchanged.
pub proof fn lemma_keyed_update<T: Keyed>(s: Seq<T>, i: int, e: T)
    requires
        0 <= i < s.len(),
        forall|j: int| 0 <= j < i ==> s[j].key() != e.key(),
        s[i].key() == e.key(),
    ensures
        lookup_keyed(s.update(i, e), e.key()) == Some(e),
        forall|m: Seq<char>| m != e.key() ==> lookup_keyed(s.update(i, e), m) == lookup_keyed(s, m),
    decreases i,
{
    let t = s.update(i, e);
    if i == 0 {
        assert(t.drop_first() =~= s.drop_first());
        assert forall|m: Seq<char>| m != e.key() implies lookup_keyed(t, m) == lookup_keyed(s, m) by {
            assert(lookup_keyed(t, m) == lookup_keyed(t.drop_first(), m));
            assert(lookup_keyed(s, m) == lookup_keyed(s.drop_first(), m));
        }
    } else {
        assert(t.drop_first() =~= s.drop_first().update(i - 1, e));
        lemma_keyed_update(s.drop_first(), i - 1, e);
        assert(t[0] == s[0]);
        assert(lookup_keyed(t, e.key()) == lookup_keyed(t.drop_first(), e.key()));
        assert forall|m: Seq<char>| m != e.key() implies lookup_keyed(t, m) == lookup_keyed(s, m) by {
            if m == s[0].key() {
                assert(lookup_keyed(t, m) == Some(t[0]));
                assert(lookup_keyed(s, m) == Some(s[0]));
            } else {
                assert(lookup_keyed(t, m) == lookup_keyed(t.drop_first(), m));
                assert(lookup_keyed(s, m) == lookup_keyed(s.drop_first(), m));
            }
        }
    }
}

/// Appending an entry of an unfiled name files it and leaves every other
/// name's resolution unchanged.
pub proof fn lemma_keyed_push<T: Keyed>(s: Seq<T>, e: T)
    requires
        forall|j: int| 0 <= j < s.len() ==> s[j].key() != e.key(),
    ensures
        lookup_keyed(s.push(e), e.key()) == Some(e),
        forall|m: Seq<char>| m != e.key() ==> lookup_keyed(s.push(e), m) == lookup_keyed(s, m),
    decreases s.len(),
{
    let t = s.push(e);
    if s.len() == 0 {
        assert(t[0] == e);
        assert(t.drop_first() =~= Seq::<T>::empty());
        assert forall|m: Seq<char>| m != e.key() implies lookup_keyed(t, m) == lookup_keyed(s, m) by {
            assert(lookup_keyed(t, m) == lookup_keyed(t.drop_first(), m));
        }
    } else {
        assert(t[0] == s[0]);
        assert(t.drop_first() =~= s.drop_first().push(e));
        lemma_keyed_push(s.drop_first(), e);
        assert(lookup_keyed(t, e.key()) == lookup_keyed(t.drop_first(), e.key()));
        assert forall|m: Seq<char>| m != e.key() implies lookup_keyed(t, m) == lookup_keyed(s, m) by {
            if m == s[0].key() {
                assert(lookup_keyed(t, m) == Some(t[0]));
                assert(lookup_keyed(s, m) == Some(s[0]));
            } else {
                assert(lookup_keyed(t, m) == lookup_keyed(t.drop_first(), m));
                assert(lookup_keyed(s, m) == lookup_keyed(s.drop_first(), m));
            }
        }
    }
}

} // verus!
