use vstd::prelude::*;
use vstd::string::StrSliceExecFns;

verus! {

/// The declared interpretation applied uniformly to every packet's bytes:
/// it fixes the width of one element and how its bytes are read.
#[derive(Clone, Copy, PartialEq, Eq, Structural, Debug)]
pub enum ElementType {
    Bool,
    U8,
    U16,
    I8,
    I16,
}

impl ElementType {
    /// Number of bytes one element occupies in a packet.
    pub open spec fn spec_width(self) -> nat {
        match self {
            ElementType::U16 | ElementType::I16 => 2,
            _ => 1,
        }
    }

    /// How many decoded values one element yields: eight bit-values per byte
    /// for `Bool`, one integer for the numeric types.
    pub open spec fn values_per_elem(self) -> nat {
        match self {
            ElementType::Bool => 8,
            _ => 1,
        }
    }

    pub fn width(self) -> (w: usize)
        ensures
            w == self.spec_width(),
    {
        match self {
            ElementType::U16 | ElementType::I16 => 2,
            _ => 1,
        }
    }

    pub open spec fn spec_name(self) -> Seq<char> {
        match self {
            ElementType::Bool => "bool"@,
            ElementType::U8 => "u8"@,
            ElementType::U16 => "u16"@,
            ElementType::I8 => "i8"@,
            ElementType::I16 => "i16"@,
        }
    }

    /// Lower-case display name of the element type.
    pub fn name(self) -> (r: &'static str)
        ensures
            r@ == self.spec_name(),
    {
        match self {
            ElementType::Bool => "bool",
            ElementType::U8 => "u8",
            ElementType::U16 => "u16",
            ElementType::I8 => "i8",
            ElementType::I16 => "i16",
        }
    }

    /// Parses a configuration name, taking upper and lower case letters
    /// interchangeably; `Bool` also answers to the alias `boolean`.
    pub fn parse_name(s: &str) -> (r: Option<ElementType>)
        ensures
            r == spec_parse_name(s@),
    {
        proof {
            reveal_strlit("BOOLEAN");
            reveal_strlit("boolean");
            reveal_strlit("BOOL");
            reveal_strlit("bool");
            reveal_strlit("U8");
            reveal_strlit("u8");
            reveal_strlit("U16");
            reveal_strlit("u16");
            reveal_strlit("I8");
            reveal_strlit("i8");
            reveal_strlit("I16");
            reveal_strlit("i16");
        }
        if eq_ci(s, "BOOLEAN", "boolean") {
            Some(ElementType::Bool)
        } else if eq_ci(s, "BOOL", "bool") {
            Some(ElementType::Bool)
        } else if eq_ci(s, "U8", "u8") {
            Some(ElementType::U8)
        } else if eq_ci(s, "U16", "u16") {
            Some(ElementType::U16)
        } else if eq_ci(s, "I8", "i8") {
            Some(ElementType::I8)
        } else if eq_ci(s, "I16", "i16") {
            Some(ElementType::I16)
        } else {
            None
        }
    }
}

/// `s` spells the same word as `upper`/`lower`, taking at each position
/// either the upper-case or the lower-case letter.
pub open spec fn matches_ci(s: Seq<char>, upper: Seq<char>, lower: Seq<char>) -> bool {
    &&& s.len() == upper.len()
    &&& s.len() == lower.len()
    &&& forall|i: int| 0 <= i < s.len() ==> s[i] == upper[i] || s[i] == lower[i]
}

/// The element type a configuration name denotes, if any.
pub open spec fn spec_parse_name(s: Seq<char>) -> Option<ElementType> {
    if matches_ci(s, "BOOLEAN"@, "boolean"@) {
        Some(ElementType::Bool)
    } else if matches_ci(s, "BOOL"@, "bool"@) {
        Some(ElementType::Bool)
    } else if matches_ci(s, "U8"@, "u8"@) {
        Some(ElementType::U8)
    } else if matches_ci(s, "U16"@, "u16"@) {
        Some(ElementType::U16)
    } else if matches_ci(s, "I8"@, "i8"@) {
        Some(ElementType::I8)
    } else if matches_ci(s, "I16"@, "i16"@) {
        Some(ElementType::I16)
    } else {
        None
    }
}

fn eq_ci(s: &str, upper: &str, lower: &str) -> (r: bool)
    requires
        upper@.len() == lower@.len(),
    ensures
        r == matches_ci(s@, upper@, lower@),
{
    let n = s.unicode_len();
    if n != upper.unicode_len() {
        return false;
    }
    let mut i: usize = 0;
    while i < n
        invariant
            n == s@.len(),
            s@.len() == upper@.len(),
            s@.len() == lower@.len(),
            i <= n,
            forall|j: int| 0 <= j < i ==> s@[j] == upper@[j] || s@[j] == lower@[j],
        decreases n - i,
    {
        let c = s.get_char(i);
        if c != upper.get_char(i) && c != lower.get_char(i) {
            return false;
        }
        i += 1;
    }
    true
}

} // verus!
