//! The variable environment owned by an actor, a state, or a local scope.
//!
//! One explicit component, reused wherever the model needs a name-to-value
//! store.  An environment is an ordered list of bindings; a name is resolved
//! to its first binding, and re-binding a name updates that binding in
//! place, so at most one binding per name is ever visible.

use vstd::prelude::*;
use vstd::pervasive::VecAdditionalExecFns;

use crate::ast::VarType;
use crate::value::Value;

verus! {

/// One binding: a variable name with its declared type and current value.
pub type VarEntry = (String, (VarType, Value));

/// Resolves `name` to the typed value of its first binding in `entries`.
pub open spec fn lookup_var(entries: Seq<VarEntry>, name: Seq<char>) -> Option<(VarType, Value)>
    decreases entries.len(),
{
    if entries.len() == 0 {
        None
    } else if entries[0].0@ == name {
        Some(entries[0].1)
    } else {
        lookup_var(entries.drop_first(), name)
    }
}

/// A name-to-typed-value store with first-match resolution.
#[derive(Debug)]
pub struct Env {
    pub entries: Vec<VarEntry>,
}

impl Env {
    /// The bindings this environment resolves, as a partial map from a
    /// variable name to its declared type and current value.
    pub open spec fn resolves(self, name: Seq<char>) -> Option<(VarType, Value)> {
        lookup_var(self.entries@, name)
    }

    /// Creates an empty environment: no name resolves.
    pub fn new() -> (r: Env)
        ensures
            r.entries@ == Seq::<VarEntry>::empty(),
            forall|n: Seq<char>| r.resolves(n) is None,
    {
        Env { entries: Vec::new() }
    }

    /// Looks a variable up by name.
    pub fn get_var(&self, name: &String) -> (r: Option<&(VarType, Value)>)
        ensures
            match r {
                Some(p) => self.resolves(name@) == Some(*p),
                None => self.resolves(name@) is None,
            },
    {
        let n = self.entries.len();
        let mut i: usize = 0;
        while i < n
            invariant
                n == self.entries@.len(),
                i <= n,
                forall|j: int| 0 <= j < i ==> self.entries@[j].0@ != name@,
            decreases n - i,
        {
            if self.entries[i].0 == *name {
                proof {
                    lemma_lookup_at(self.entries@, name@, i as int);
                }
                return Some(&self.entries[i].1);
            }
            i = i + 1;
        }
        proof {
            lemma_lookup_absent(self.entries@, name@);
        }
        None
    }

    /// Binds `name` to `(typ, val)`: updates the binding in place if the name
    /// already resolves, appends a fresh binding otherwise.  Every other
    /// name resolves exactly as before.
    pub fn set_var(&mut self, name: String, typ: VarType, val: Value)
        ensures
            final(self).resolves(name@) == Some((typ, val)),
            forall|m: Seq<char>|
                m != name@ ==> final(self).resolves(m) == old(self).resolves(m),
            final(self).entries@.len() <= old(self).entries@.len() + 1,
    {
        let n = self.entries.len();
        let mut i: usize = 0;
        while i < n
            invariant
                self.entries@ == old(self).entries@,
                n == self.entries@.len(),
                i <= n,
                forall|j: int| 0 <= j < i ==> self.entries@[j].0@ != name@,
            decreases n - i,
        {
            if self.entries[i].0 == name {
                proof {
                    lemma_lookup_update(self.entries@, i as int, (name, (typ, val)));
                }
                self.entries.set(i, (name, (typ, val)));
                return ;
            }
            i = i + 1;
        }
        proof {
            lemma_lookup_push(self.entries@, (name, (typ, val)));
        }
        self.entries.push((name, (typ, val)));
    }
}

/// With no binding of `name` before index `i` and one at `i`, resolution
/// finds the binding at `i`.
proof fn lemma_lookup_at(s: Seq<VarEntry>, name: Seq<char>, i: int)
    requires
        0 <= i < s.len(),
        forall|j: int| 0 <= j < i ==> s[j].0@ != name,
        s[i].0@ == name,
    ensures
        lookup_var(s, name) == Some(s[i].1),
    decreases i,
{
    if i > 0 {
        lemma_lookup_at(s.drop_first(), name, i - 1);
    }
}

/// With no binding of `name` at all, resolution fails.
proof fn lemma_lookup_absent(s: Seq<VarEntry>, name: Seq<char>)
    requires
        forall|j: int| 0 <= j < s.len() ==> s[j].0@ != name,
    ensures
        lookup_var(s, name) is None,
    decreases s.len(),
{
    if s.len() > 0 {
        lemma_lookup_absent(s.drop_first(), name);
    }
}

/// Replacing the first binding of a name re-binds that name and leaves every
/// other name's resolution unchanged.
proof fn lemma_lookup_update(s: Seq<VarEntry>, i: int, e: VarEntry)
    requires
        0 <= i < s.len(),
        forall|j: int| 0 <= j < i ==> s[j].0@ != e.0@,
        s[i].0@ == e.0@,
    ensures
        lookup_var(s.update(i, e), e.0@) == Some(e.1),
        forall|m: Seq<char>| m != e.0@ ==> lookup_var(s.update(i, e), m) == lookup_var(s, m),
    decreases i,
{
    let t = s.update(i, e);
    if i == 0 {
        assert(t.drop_first() =~= s.drop_first());
        assert(lookup_var(t, e.0@) == Some(e.1));
        assert forall|m: Seq<char>| m != e.0@ implies lookup_var(t, m) == lookup_var(s, m) by {
            assert(lookup_var(t, m) == lookup_var(t.drop_first(), m));
            assert(lookup_var(s, m) == lookup_var(s.drop_first(), m));
        }
    } else {
        assert(t.drop_first() =~= s.drop_first().update(i - 1, e));
        lemma_lookup_update(s.drop_first(), i - 1, e);
        assert(t[0] == s[0]);
        assert(lookup_var(t, e.0@) == lookup_var(t.drop_first(), e.0@));
        assert forall|m: Seq<char>| m != e.0@ implies lookup_var(t, m) == lookup_var(s, m) by {
            if m == s[0].0@ {
                assert(lookup_var(t, m) == Some(t[0].1));
                assert(lookup_var(s, m) == Some(s[0].1));
            } else {
                assert(lookup_var(t, m) == lookup_var(t.drop_first(), m));
                assert(lookup_var(s, m) == lookup_var(s.drop_first(), m));
            }
        }
    }
}

/// Appending a binding of an unbound name binds it and leaves every other
/// name's resolution unchanged.
proof fn lemma_lookup_push(s: Seq<VarEntry>, e: VarEntry)
    requires
        forall|j: int| 0 <= j < s.len() ==> s[j].0@ != e.0@,
    ensures
        lookup_var(s.push(e), e.0@) == Some(e.1),
        forall|m: Seq<char>| m != e.0@ ==> lookup_var(s.push(e), m) == lookup_var(s, m),
    decreases s.len(),
{
    let t = s.push(e);
    if s.len() == 0 {
        assert(t[0] == e);
        assert(t.drop_first() =~= Seq::<VarEntry>::empty());
        assert forall|m: Seq<char>| m != e.0@ implies lookup_var(t, m) == lookup_var(s, m) by {
            assert(lookup_var(t, m) == lookup_var(t.drop_first(), m));
        }
    } else {
        assert(t[0] == s[0]);
        assert(t.drop_first() =~= s.drop_first().push(e));
        lemma_lookup_push(s.drop_first(), e);
        assert(lookup_var(t, e.0@) == lookup_var(t.drop_first(), e.0@));
        assert forall|m: Seq<char>| m != e.0@ implies lookup_var(t, m) == lookup_var(s, m) by {
            if m == s[0].0@ {
                assert(lookup_var(t, m) == Some(t[0].1));
                assert(lookup_var(s, m) == Some(s[0].1));
            } else {
                assert(lookup_var(t, m) == lookup_var(t.drop_first(), m));
                assert(lookup_var(s, m) == lookup_var(s.drop_first(), m));
            }
        }
    }
}

} // verus!
