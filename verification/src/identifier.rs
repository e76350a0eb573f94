//! SQL identifiers. Quoting makes their case significant.

use vstd::prelude::*;
use crate::text::{joined_from, lower, same_ignoring_case, same_text, to_lower};

verus! {

/// An identifier.
#[derive(Clone, Debug)]
pub struct Identifier {
    pub value: String,
    pub quoted: bool,
}

impl Identifier {
    /// The text by which the identifier is looked up.
    pub open spec fn key(&self) -> Seq<char> {
        if self.quoted {
            self.value@
        } else {
            lower(self.value@)
        }
    }

    /// Makes an identifier without quotes.
    pub fn unquoted(value: String) -> (identifier: Identifier)
        ensures
            identifier == (Identifier { value, quoted: false }),
    {
        Identifier { value, quoted: false }
    }

    /// Makes an identifier in quotes.
    pub fn quoted(value: String) -> (identifier: Identifier)
        ensures
            identifier == (Identifier { value, quoted: true }),
    {
        Identifier { value, quoted: true }
    }

    /// The text by which the identifier is looked up.
    pub fn lookup_key(&self) -> (key: String)
        ensures
            key@ == self.key(),
    {
        if self.quoted {
            self.value.clone()
        } else {
            to_lower(self.value.as_str())
        }
    }
}

impl PartialEq for Identifier {
    fn eq(&self, other: &Self) -> (r: bool) {
        if self.quoted {
            same_text(self.value.as_str(), other.lookup_key().as_str())
        } else if other.quoted {
            same_text(self.lookup_key().as_str(), other.value.as_str())
        } else {
            same_ignoring_case(self.value.as_str(), other.value.as_str())
        }
    }
}

impl vstd::std_specs::cmp::PartialEqSpecImpl for Identifier {
    open spec fn obeys_eq_spec() -> bool {
        true
    }

    open spec fn eq_spec(&self, other: &Self) -> bool {
        self.key() == other.key()
    }
}

impl Eq for Identifier {

}

/// A name of several parts.
#[derive(Clone, Debug, PartialEq, Eq)]
pub struct QualifiedName(pub Vec<Identifier>);

/// The texts of the parts of a name.
pub open spec fn part_texts(parts: Seq<Identifier>) -> Seq<Seq<char>> {
    Seq::new(parts.len(), |i: int| parts[i].value@)
}

impl QualifiedName {
    /// The parts of the name with dots between them.
    #[verifier::loop_isolation(false)]
    pub fn display(&self) -> (s: String)
        ensures
            s@ == joined_from(part_texts(self.0@), "."@, 0),
    {
        let ghost list = part_texts(self.0@);
        let ghost goal = joined_from(list, "."@, 0);
        let mut s = String::new();
        assert(s@ =~= Seq::<char>::empty());
        assert(goal =~= s@ + goal);
        let mut i: usize = 0;
        while i < self.0.len()
            invariant
                i <= self.0.len(),
                goal == s@ + joined_from(list, "."@, i as int),
            decreases self.0.len() - i,
        {
            let ghost before = s@;
            s.append(self.0[i].value.as_str());
            if i + 1 < self.0.len() {
                s.append(".");
            }
            assert(goal =~= s@ + joined_from(list, "."@, i + 1));
            i = i + 1;
        }
        assert(s@ + Seq::<char>::empty() =~= s@);
        s
    }
}

} // verus!
