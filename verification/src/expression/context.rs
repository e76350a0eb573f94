//! Bindings of columns to values.

use vstd::prelude::*;
use crate::text::{lower, same_text, to_lower};
use crate::types::{Datum, Value};

verus! {

/// Whether a name stands at a position of a list.
pub open spec fn named_at(entries: Seq<(String, Value)>, name: Seq<char>, i: int) -> bool {
    0 <= i < entries.len() && entries[i].0@ == name
}

/// The map that a list of distinct names and values stands for.
pub open spec fn map_of(entries: Seq<(String, Value)>) -> Map<Seq<char>, Datum> {
    Map::new(
        |name: Seq<char>| exists|i: int| named_at(entries, name, i),
        |name: Seq<char>| entries[choose|i: int| named_at(entries, name, i)].1@,
    )
}

/// Whether no name occurs twice.
pub open spec fn distinct(entries: Seq<(String, Value)>) -> bool {
    forall|i: int, j: int|
        0 <= i < j < entries.len() ==> (#[trigger] entries[i]).0@ != (#[trigger] entries[j]).0@
}

proof fn entries_grow(a: Seq<(String, Value)>, b: Seq<(String, Value)>, key: Seq<char>, p: int)
    requires
        distinct(a),
        distinct(b),
        named_at(b, key, p),
        a.len() <= b.len(),
        forall|i: int| 0 <= i < b.len() && i != p ==> i < a.len() && a[i] == #[trigger] b[i],
        forall|i: int| 0 <= i < a.len() && i != p ==> (#[trigger] a[i]).0@ != key,
        p < a.len() ==> a[p].0@ == key,
    ensures
        map_of(b) == map_of(a).insert(key, b[p].1@),
{
    let left = map_of(b);
    let right = map_of(a).insert(key, b[p].1@);
    assert forall|k: Seq<char>| #[trigger] left.dom().contains(k) == right.dom().contains(k) && (
    left.dom().contains(k) ==> left[k] == right[k]) by {
        if k != key {
            if left.dom().contains(k) {
                let i = choose|i: int| named_at(b, k, i);
                assert(named_at(b, k, i));
                assert(b[i] == a[i]);
                assert(named_at(a, k, i));
            }
            if map_of(a).dom().contains(k) {
                let i = choose|i: int| named_at(a, k, i);
                assert(named_at(a, k, i));
                assert(b[i] == a[i]);
                assert(named_at(b, k, i));
                let j = choose|j: int| named_at(b, k, j);
                assert(named_at(b, k, j));
                assert(i == j);
            }
        } else {
            assert(named_at(b, k, p));
            let j = choose|j: int| named_at(b, k, j);
            assert(named_at(b, k, j));
            assert(p == j);
        }
    }
    assert(left =~= right);
}

#[derive(Debug, Clone)]
struct Entries {
    list: Vec<(String, Value)>,
}

impl Entries {
    spec fn wf(&self) -> bool {
        distinct(self.list@)
    }

    spec fn map(&self) -> Map<Seq<char>, Datum> {
        map_of(self.list@)
    }

    fn find(&self, name: &str) -> (r: Option<usize>)
        ensures
            match r {
                Some(i) => named_at(self.list@, name@, i as int),
                None => !self.map().contains_key(name@),
            },
    {
        let mut i: usize = 0;
        while i < self.list.len()
            invariant
                i <= self.list.len(),
                forall|k: int| 0 <= k < i ==> (#[trigger] self.list@[k]).0@ != name@,
            decreases self.list.len() - i,
        {
            if same_text(self.list[i].0.as_str(), name) {
                return Some(i);
            }
            i = i + 1;
        }
        assert(forall|k: int| !named_at(self.list@, name@, k));
        None
    }

    proof fn found(&self, name: Seq<char>, i: int)
        requires
            self.wf(),
            named_at(self.list@, name, i),
        ensures
            self.map().contains_key(name),
            self.map()[name] == self.list@[i].1@,
    {
        let j = choose|j: int| named_at(self.list@, name, j);
        assert(named_at(self.list@, name, j));
        assert(i == j);
    }

    fn get(&self, name: &str) -> (r: Option<&Value>)
        requires
            self.wf(),
        ensures
            match r {
                Some(value) => self.map().contains_key(name@) && self.map()[name@] == value@,
                None => !self.map().contains_key(name@),
            },
    {
        match self.find(name) {
            Some(i) => {
                proof {
                    self.found(name@, i as int);
                }
                Some(&self.list[i].1)
            },
            None => None,
        }
    }

    fn insert(&mut self, name: String, value: Value) -> (before: Option<Value>)
        requires
            old(self).wf(),
        ensures
            final(self).wf(),
            final(self).map() == old(self).map().insert(name@, value@),
            match before {
                Some(v) => old(self).map().contains_key(name@) && old(self).map()[name@] == v@,
                None => !old(self).map().contains_key(name@),
            },
    {
        let ghost start = *self;
        let ghost key = name@;
        match self.find(name.as_str()) {
            Some(i) => {
                let mut entry = (name, value);
                let ghost fresh = entry;
                std::mem::swap(&mut entry, &mut self.list[i]);
                proof {
                    start.found(key, i as int);
                    assert(self.list@ =~= start.list@.update(i as int, fresh));
                    entries_grow(start.list@, self.list@, key, i as int);
                }
                Some(entry.1)
            },
            None => {
                self.list.push((name, value));
                proof {
                    assert forall|k: int| 0 <= k < start.list@.len() implies (
                    #[trigger] start.list@[k]).0@ != key by {
                        assert(!named_at(start.list@, key, k));
                    }
                    entries_grow(start.list@, self.list@, key, start.list@.len() as int);
                }
                None
            },
        }
    }
}

/// Column bindings by exact name, with case-folded lookup of unquoted names.
#[derive(Debug, Clone)]
pub struct EvaluationContext {
    values: Entries,
    unquoted_names: Entries,
}

/// The content of a context: the values by exact name, and the exact name that an unquoted
/// name in lower case stands for.
#[verifier::ext_equal]
pub struct Bindings {
    pub values: Map<Seq<char>, Datum>,
    pub names: Map<Seq<char>, Datum>,
}

/// The bindings behind an insertion.
///
/// An unquoted name stands for the exact name in lower case where that is bound, and for
/// the exact name that was bound last where it is not.
pub open spec fn bound(b: Bindings, name: Seq<char>, value: Datum) -> Bindings {
    let folded = lower(name);
    let canonical = b.names.contains_key(folded) && b.names[folded] == Datum::Text(folded);
    Bindings {
        values: b.values.insert(name, value),
        names: if name == folded || !canonical {
            b.names.insert(folded, Datum::Text(name))
        } else {
            b.names
        },
    }
}

/// The value of an exact name.
pub open spec fn quoted_value(b: Bindings, name: Seq<char>) -> Option<Datum> {
    if b.values.contains_key(name) {
        Some(b.values[name])
    } else {
        None
    }
}

/// The value of an unquoted name.
pub open spec fn unquoted_value(b: Bindings, name: Seq<char>) -> Option<Datum> {
    let folded = lower(name);
    if b.names.contains_key(folded) && b.names[folded] is Text {
        quoted_value(b, b.names[folded]->Text_0)
    } else {
        None
    }
}

/// The content of a value that was found.
pub open spec fn seen(r: Option<&Value>) -> Option<Datum> {
    match r {
        Some(value) => Some(value@),
        None => None,
    }
}

impl View for EvaluationContext {
    type V = Bindings;

    closed spec fn view(&self) -> Bindings {
        Bindings { values: self.values.map(), names: self.unquoted_names.map() }
    }
}

impl EvaluationContext {
    /// Whether no name is bound twice.
    pub closed spec fn wf(&self) -> bool {
        self.values.wf() && self.unquoted_names.wf()
    }

    /// Makes a context without bindings.
    pub fn new() -> (context: EvaluationContext)
        ensures
            context.wf(),
            context@ == (Bindings { values: Map::empty(), names: Map::empty() }),
    {
        let context = EvaluationContext {
            values: Entries { list: Vec::new() },
            unquoted_names: Entries { list: Vec::new() },
        };
        assert(context@ =~= (Bindings { values: Map::empty(), names: Map::empty() }));
        context
    }

    /// Binds a name, and hands the context back.
    pub fn with_value(self, name: &str, value: Value) -> (context: EvaluationContext)
        requires
            self.wf(),
        ensures
            context.wf(),
            context@ == bound(self@, name@, value@),
    {
        let mut context = self;
        let _ = context.insert(name, value);
        context
    }

    /// Binds a name, and hands back the value that it had.
    pub fn insert(&mut self, name: &str, value: Value) -> (before: Option<Value>)
        requires
            old(self).wf(),
        ensures
            final(self).wf(),
            final(self)@ == bound(old(self)@, name@, value@),
            match before {
                Some(v) => quoted_value(old(self)@, name@) == Some(v@),
                None => quoted_value(old(self)@, name@) is None,
            },
    {
        let folded = to_lower(name);
        let canonical = match self.unquoted_names.get(folded.as_str()) {
            Some(Value::String(current)) => same_text(current.as_str(), folded.as_str()),
            _ => false,
        };
        if same_text(name, folded.as_str()) || !canonical {
            let _ = self.unquoted_names.insert(folded, Value::String(name.to_owned()));
        }
        self.values.insert(name.to_owned(), value)
    }

    /// The value of an unquoted name, whatever its case.
    pub fn get(&self, name: &str) -> (r: Option<&Value>)
        requires
            self.wf(),
        ensures
            seen(r) == unquoted_value(self@, name@),
    {
        match self.unquoted_names.get(to_lower(name).as_str()) {
            Some(Value::String(exact)) => self.values.get(exact.as_str()),
            _ => None,
        }
    }

    /// The value of an exact name.
    pub fn get_quoted(&self, name: &str) -> (r: Option<&Value>)
        requires
            self.wf(),
        ensures
            seen(r) == quoted_value(self@, name@),
    {
        self.values.get(name)
    }
}

impl Default for EvaluationContext {
    fn default() -> (context: EvaluationContext)
        ensures
            context.wf(),
            context@ == (Bindings { values: Map::empty(), names: Map::empty() }),
    {
        EvaluationContext::new()
    }
}

} // verus!
