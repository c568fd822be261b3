//! Console variables.
//!
//! A registry of named, runtime-settable configuration values, each either
//! a fixed-point number (`Float`, in micro-units) or an integer (`Int`).
//! `init` creates a variable and fails if the name is taken; `set` updates
//! one and fails if the name is absent or the kind differs; `get` looks one
//! up.  Entries keep their creation order.

use vstd::prelude::*;
use crate::fixed::{spec_fmt_fixed, spec_fmt_int, fmt_fixed, fmt_int};
use crate::text::str_eq;

verus! {

/// A console variable value: a fixed-point number in micro-units, or an
/// integer.
#[derive(Clone, Copy, PartialEq, Eq, Structural, Debug)]
pub enum CVarValue {
    Float(i64),
    Int(i64),
}

impl CVarValue {
    /// Whether two values are of the same kind.
    pub open spec fn same_kind(self, other: CVarValue) -> bool {
        match (self, other) {
            (CVarValue::Float(_), CVarValue::Float(_)) => true,
            (CVarValue::Int(_), CVarValue::Int(_)) => true,
            _ => false,
        }
    }

    /// The default textual form of a value: fixed-point numbers with their
    /// fractional digits, integers plain.
    pub open spec fn spec_format(self) -> Seq<char> {
        match self {
            CVarValue::Float(v) => spec_fmt_fixed(v as int),
            CVarValue::Int(v) => spec_fmt_int(v as int),
        }
    }

    /// Renders the value in its default textual form.
    pub fn format(&self) -> (s: String)
        ensures
            s@ == self.spec_format(),
    {
        match self {
            CVarValue::Float(v) => fmt_fixed(*v),
            CVarValue::Int(v) => fmt_int(*v),
        }
    }
}

/// One registered variable.
pub struct CVarEntry {
    pub name: String,
    pub value: CVarValue,
}

/// The mathematical model of a registry: name/value pairs in creation
/// order.
pub open spec fn entry_model(e: CVarEntry) -> (Seq<char>, CVarValue) {
    (e.name@, e.value)
}

/// Whether a name is registered.
pub open spec fn model_contains(m: Seq<(Seq<char>, CVarValue)>, n: Seq<char>) -> bool {
    exists|i: int| 0 <= i < m.len() && (#[trigger] m[i]).0 == n
}

/// The value registered under a name (the first entry with that name).
pub open spec fn model_lookup(m: Seq<(Seq<char>, CVarValue)>, n: Seq<char>) -> Option<CVarValue>
    decreases m.len(),
{
    if m.len() == 0 {
        None
    } else if m[0].0 == n {
        Some(m[0].1)
    } else {
        model_lookup(m.drop_first(), n)
    }
}

/// The model after updating the first entry with the given name.
pub open spec fn model_set(
    m: Seq<(Seq<char>, CVarValue)>,
    n: Seq<char>,
    v: CVarValue,
) -> Seq<(Seq<char>, CVarValue)>
    decreases m.len(),
{
    if m.len() == 0 {
        m
    } else if m[0].0 == n {
        m.update(0, (n, v))
    } else {
        seq![m[0]] + model_set(m.drop_first(), n, v)
    }
}

/// A name is registered exactly when looking it up yields a value.
pub proof fn lemma_contains_lookup(m: Seq<(Seq<char>, CVarValue)>, n: Seq<char>)
    ensures
        model_contains(m, n) <==> model_lookup(m, n) is Some,
    decreases m.len(),
{
    if m.len() > 0 && m[0].0 != n {
        lemma_contains_lookup(m.drop_first(), n);
        assert forall|i: int| 0 <= i < m.len() && (#[trigger] m[i]).0 == n implies
            model_lookup(m, n) is Some by {
            assert(m.drop_first()[i - 1] == m[i]);
        }
        if model_contains(m.drop_first(), n) {
            let i = choose|i: int|
                0 <= i < m.drop_first().len() && (#[trigger] m.drop_first()[i]).0 == n;
            assert(m[i + 1] == m.drop_first()[i]);
        }
    }
}

/// Setting a registered name stores exactly that value; setting an
/// unregistered one changes nothing.
pub proof fn lemma_lookup_after_set(m: Seq<(Seq<char>, CVarValue)>, n: Seq<char>, v: CVarValue)
    ensures
        model_lookup(model_set(m, n, v), n) == if model_contains(m, n) {
            Some(v)
        } else {
            None::<CVarValue>
        },
    decreases m.len(),
{
    lemma_contains_lookup(m, n);
    if m.len() == 0 {
    } else if m[0].0 == n {
        assert(model_set(m, n, v)[0] == (n, v));
    } else {
        lemma_lookup_after_set(m.drop_first(), n, v);
        lemma_contains_lookup(m.drop_first(), n);
        let s = seq![m[0]] + model_set(m.drop_first(), n, v);
        assert(s[0] == m[0]);
        assert(s.drop_first() =~= model_set(m.drop_first(), n, v));
        assert forall|i: int| 0 <= i < m.len() && (#[trigger] m[i]).0 == n implies
            model_contains(m.drop_first(), n) by {
            assert(m.drop_first()[i - 1] == m[i]);
        }
        if model_contains(m.drop_first(), n) {
            let i = choose|i: int|
                0 <= i < m.drop_first().len() && (#[trigger] m.drop_first()[i]).0 == n;
            assert(m[i + 1] == m.drop_first()[i]);
        }
    }
}

/// A lookup of one name is blind to every entry with another name.
pub proof fn lemma_lookup_other_name(
    m: Seq<(Seq<char>, CVarValue)>,
    n: Seq<char>,
    other: Seq<char>,
    v: CVarValue,
)
    requires
        n != other,
    ensures
        model_lookup(model_set(m, other, v), n) == model_lookup(m, n),
    decreases m.len(),
{
    if m.len() == 0 {
    } else if m[0].0 == other {
        assert(model_set(m, other, v) == m.update(0, (other, v)));
        assert(model_set(m, other, v)[0] == (other, v));
        assert(model_set(m, other, v).drop_first() =~= m.drop_first());
    } else {
        lemma_lookup_other_name(m.drop_first(), n, other, v);
        let s = seq![m[0]] + model_set(m.drop_first(), other, v);
        assert(s[0] == m[0]);
        assert(s.drop_first() =~= model_set(m.drop_first(), other, v));
    }
}

/// The error text for a lookup of an unregistered name.
pub open spec fn msg_not_found(n: Seq<char>) -> Seq<char> {
    "Variable not found: "@ + n
}

/// The error text for initializing a name twice.
pub open spec fn msg_already_defined(n: Seq<char>) -> Seq<char> {
    "Variable already defined: "@ + n
}

/// The error text for setting a variable to a value of the other kind.
pub open spec fn msg_type_mismatch(n: Seq<char>) -> Seq<char> {
    "Type mismatch: "@ + n
}

/// A registry of console variables, in creation order.
pub struct CVarRegistry {
    entries: Vec<CVarEntry>,
}

impl CVarRegistry {
    /// The registry's model: its name/value pairs in order.
    pub closed spec fn model(self) -> Seq<(Seq<char>, CVarValue)> {
        self.entries@.map_values(|e: CVarEntry| entry_model(e))
    }

    /// An empty registry.
    pub fn new() -> (r: CVarRegistry)
        ensures
            r.model() =~= Seq::<(Seq<char>, CVarValue)>::empty(),
    {
        CVarRegistry { entries: Vec::new() }
    }

    /// How many variables are registered.
    pub fn len(&self) -> (n: usize)
        ensures
            n == self.model().len(),
    {
        self.entries.len()
    }

    /// The index of the first entry with the given name, if any.
    fn find(&self, name: &str) -> (r: Option<usize>)
        ensures
            match r {
                Some(i) => {
                    &&& 0 <= i < self.model().len()
                    &&& self.model()[i as int].0 == name@
                    &&& forall|j: int| 0 <= j < i ==> (#[trigger] self.model()[j]).0 != name@
                },
                None => !model_contains(self.model(), name@),
            },
    {
        let mut i: usize = 0;
        while i < self.entries.len()
            invariant
                0 <= i <= self.entries@.len(),
                self.model().len() == self.entries@.len(),
                forall|j: int| 0 <= j < i ==> (#[trigger] self.model()[j]).0 != name@,
            decreases self.entries@.len() - i,
        {
            if str_eq(self.entries[i].name.as_str(), name) {
                proof {
                    assert(self.model()[i as int].0 == name@);
                }
                return Some(i);
            }
            proof {
                assert(self.model()[i as int].0 != name@);
            }
            i += 1;
        }
        None
    }

    /// Registers a new variable.  Fails, leaving the registry unchanged,
    /// if the name is already taken.
    pub fn init(&mut self, name: &str, value: CVarValue) -> (r: Result<(), String>)
        ensures
            match r {
                Ok(_) => {
                    &&& !model_contains(old(self).model(), name@)
                    &&& final(self).model() =~= old(self).model().push((name@, value))
                },
                Err(e) => {
                    &&& model_contains(old(self).model(), name@)
                    &&& final(self).model() == old(self).model()
                    &&& e@ == msg_already_defined(name@)
                },
            },
    {
        match self.find(name) {
            Some(_) => {
                let mut e = String::from_str("Variable already defined: ");
                e.append(name);
                Err(e)
            },
            None => {
                let entry = CVarEntry { name: String::from_str(name), value };
                self.entries.push(entry);
                proof {
                    assert(self.model() =~= old(self).model().push((name@, value)));
                }
                Ok(())
            },
        }
    }

    /// Updates a registered variable.  Fails, leaving the registry
    /// unchanged, if the name is absent or the value is of the other kind.
    pub fn set(&mut self, name: &str, value: CVarValue) -> (r: Result<(), String>)
        ensures
            match r {
                Ok(_) => {
                    &&& model_lookup(old(self).model(), name@) matches Some(prev)
                        && prev.same_kind(value)
                    &&& final(self).model() =~= model_set(old(self).model(), name@, value)
                },
                Err(e) => {
                    &&& final(self).model() == old(self).model()
                    &&& match model_lookup(old(self).model(), name@) {
                        None => e@ == msg_not_found(name@),
                        Some(prev) => !prev.same_kind(value) && e@ == msg_type_mismatch(name@),
                    }
                },
            },
    {
        proof {
            lemma_contains_lookup(self.model(), name@);
        }
        match self.find(name) {
            Some(i) => {
                proof {
                    lemma_lookup_at_first(self.model(), name@, i as int);
                }
                let same = match (&self.entries[i].value, &value) {
                    (CVarValue::Float(_), CVarValue::Float(_)) => true,
                    (CVarValue::Int(_), CVarValue::Int(_)) => true,
                    _ => false,
                };
                if same {
                    let ghost pre = self.model();
                    self.entries[i].value = value;
                    proof {
                        lemma_set_at_first(pre, name@, i as int, value);
                        assert(self.model() =~= pre.update(i as int, (name@, value)));
                    }
                    Ok(())
                } else {
                    let mut e = String::from_str("Type mismatch: ");
                    e.append(name);
                    Err(e)
                }
            },
            None => {
                let mut e = String::from_str("Variable not found: ");
                e.append(name);
                Err(e)
            },
        }
    }

    /// Looks a variable up by name.
    pub fn get(&self, name: &str) -> (r: Option<CVarValue>)
        ensures
            r == model_lookup(self.model(), name@),
    {
        proof {
            lemma_contains_lookup(self.model(), name@);
        }
        match self.find(name) {
            Some(i) => {
                proof {
                    lemma_lookup_at_first(self.model(), name@, i as int);
                }
                Some(self.entries[i].value)
            },
            None => None,
        }
    }

    /// All variables, as fresh name/value pairs in creation order.
    pub fn list(&self) -> (r: Vec<(String, CVarValue)>)
        ensures
            r@.len() == self.model().len(),
            forall|i: int|
                0 <= i < r@.len() ==> (#[trigger] r@[i]).0@ == self.model()[i].0
                    && r@[i].1 == self.model()[i].1,
    {
        let mut r: Vec<(String, CVarValue)> = Vec::new();
        let mut i: usize = 0;
        while i < self.entries.len()
            invariant
                0 <= i <= self.entries@.len(),
                self.model().len() == self.entries@.len(),
                r@.len() == i,
                forall|j: int|
                    0 <= j < i ==> (#[trigger] r@[j]).0@ == self.model()[j].0
                        && r@[j].1 == self.model()[j].1,
            decreases self.entries@.len() - i,
        {
            let name = String::from_str(self.entries[i].name.as_str());
            let value = self.entries[i].value;
            r.push((name, value));
            i += 1;
        }
        r
    }
}

impl Default for CVarRegistry {
    /// An empty registry.
    fn default() -> (r: CVarRegistry)
        ensures
            r.model() =~= Seq::<(Seq<char>, CVarValue)>::empty(),
    {
        CVarRegistry::new()
    }
}

/// When the first `i` entries miss the name and entry `i` carries it,
/// `model_lookup` returns entry `i`'s value.
proof fn lemma_lookup_at_first(m: Seq<(Seq<char>, CVarValue)>, n: Seq<char>, i: int)
    requires
        0 <= i < m.len(),
        m[i].0 == n,
        forall|j: int| 0 <= j < i ==> (#[trigger] m[j]).0 != n,
    ensures
        model_lookup(m, n) == Some(m[i].1),
    decreases m.len(),
{
    if i > 0 {
        assert(m.drop_first()[i - 1] == m[i]);
        assert forall|j: int| 0 <= j < i - 1 implies (#[trigger] m.drop_first()[j]).0 != n by {
            assert(m.drop_first()[j] == m[j + 1]);
        }
        lemma_lookup_at_first(m.drop_first(), n, i - 1);
    }
}

/// When the first `i` entries miss the name and entry `i` carries it,
/// `model_set` updates exactly entry `i`.
proof fn lemma_set_at_first(m: Seq<(Seq<char>, CVarValue)>, n: Seq<char>, i: int, v: CVarValue)
    requires
        0 <= i < m.len(),
        m[i].0 == n,
        forall|j: int| 0 <= j < i ==> (#[trigger] m[j]).0 != n,
    ensures
        model_set(m, n, v) =~= m.update(i, (n, v)),
    decreases m.len(),
{
    if i > 0 {
        assert(m.drop_first()[i - 1] == m[i]);
        assert forall|j: int| 0 <= j < i - 1 implies (#[trigger] m.drop_first()[j]).0 != n by {
            assert(m.drop_first()[j] == m[j + 1]);
        }
        lemma_set_at_first(m.drop_first(), n, i - 1, v);
        assert((seq![m[0]] + m.drop_first().update(i - 1, (n, v))) =~= m.update(i, (n, v)));
    }
}

} // verus!
