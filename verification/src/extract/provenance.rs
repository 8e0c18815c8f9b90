//! How an identifier was obtained.

use vstd::prelude::*;

verus! {

/// The evidential basis of a cited identifier. The variants are declared from
/// the weakest to the strongest, so the derived order is `Mined < Crossref <
/// Publisher`.
#[derive(Debug, Clone, Copy, PartialEq, Eq, PartialOrd, Ord, Hash, Structural)]
pub enum Provenance {
    /// Mined from free-form text.
    Mined,
    /// Attributed by the registry.
    Crossref,
    /// Asserted by the publisher.
    Publisher,
}

impl Provenance {
    /// The position of the variant in the order `Mined < Crossref < Publisher`.
    pub open spec fn rank_spec(self) -> nat {
        match self {
            Provenance::Mined => 0,
            Provenance::Crossref => 1,
            Provenance::Publisher => 2,
        }
    }

    /// The lowercase name of the variant.
    pub open spec fn name(self) -> Seq<char> {
        match self {
            Provenance::Publisher => "publisher"@,
            Provenance::Crossref => "crossref"@,
            Provenance::Mined => "mined"@,
        }
    }

    /// Whether the variant is `Publisher` or `Crossref`.
    pub open spec fn asserted(self) -> bool {
        self != Provenance::Mined
    }

    /// The variant whose name is `s`, if there is one.
    pub open spec fn from_name_spec(s: Seq<char>) -> Option<Provenance> {
        if s == "publisher"@ {
            Some(Provenance::Publisher)
        } else if s == "crossref"@ {
            Some(Provenance::Crossref)
        } else if s == "mined"@ {
            Some(Provenance::Mined)
        } else {
            None
        }
    }

    /// The rank of the variant: 0 for `Mined`, 1 for `Crossref`, 2 for `Publisher`.
    pub fn rank(&self) -> (r: u8)
        ensures
            r == self.rank_spec(),
    {
        match self {
            Provenance::Mined => 0,
            Provenance::Crossref => 1,
            Provenance::Publisher => 2,
        }
    }

    /// The lowercase name of the variant.
    pub fn as_str(&self) -> (r: &'static str)
        ensures
            r@ == self.name(),
    {
        match self {
            Provenance::Publisher => "publisher",
            Provenance::Crossref => "crossref",
            Provenance::Mined => "mined",
        }
    }

    /// Whether this is an asserted provenance (publisher or crossref).
    pub fn is_asserted(&self) -> (r: bool)
        ensures
            r == self.asserted(),
            r == (self.rank_spec() > 0),
    {
        match self {
            Provenance::Mined => false,
            _ => true,
        }
    }

    /// Reads a provenance back from its name.
    pub fn from_name(s: &str) -> (r: Option<Provenance>)
        ensures
            r == Provenance::from_name_spec(s@),
    {
        if crate::text::str_eq(s, "publisher") {
            Some(Provenance::Publisher)
        } else if crate::text::str_eq(s, "crossref") {
            Some(Provenance::Crossref)
        } else if crate::text::str_eq(s, "mined") {
            Some(Provenance::Mined)
        } else {
            None
        }
    }

    /// The stronger of two provenances; `self` when they are equal.
    pub fn stronger(self, other: Provenance) -> (r: Provenance)
        ensures
            r == (if other.rank_spec() > self.rank_spec() {
                other
            } else {
                self
            }),
    {
        if other.rank() > self.rank() {
            other
        } else {
            self
        }
    }
}

/// The three names are distinct, so a name determines its variant.
pub proof fn lemma_provenance_name_roundtrip(p: Provenance)
    ensures
        Provenance::from_name_spec(p.name()) == Some(p),
{
    reveal_strlit("publisher");
    reveal_strlit("crossref");
    reveal_strlit("mined");
    assert("publisher"@.len() == 9);
    assert("crossref"@.len() == 8);
    assert("mined"@.len() == 5);
}

} // verus!
