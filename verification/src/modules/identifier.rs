//! Dotted lowercase identifiers for modules and capabilities.
use vstd::prelude::*;

use crate::text::chars_of;

use super::manifest::ManifestError;

verus! {

pub open spec fn is_lower(c: char) -> bool {
    'a' <= c && c <= 'z'
}

pub open spec fn is_digit(c: char) -> bool {
    '0' <= c && c <= '9'
}

/// A character allowed after the first one of a segment.
pub open spec fn is_segment_char(c: char) -> bool {
    is_lower(c) || is_digit(c) || c == '_'
}

/// At least two `.`-separated segments, each a lowercase ASCII letter followed by
/// lowercase ASCII letters, digits or underscores.
pub open spec fn valid_identifier(s: Seq<char>) -> bool {
    &&& s.len() > 0
    &&& is_lower(s[0])
    &&& forall|i: int| 0 <= i < s.len() ==> (#[trigger] s[i] == '.' || is_segment_char(s[i]))
    &&& forall|i: int|
        0 <= i < s.len() && #[trigger] s[i] == '.' ==> i + 1 < s.len() && is_lower(s[i + 1])
    &&& exists|i: int| 0 <= i < s.len() && #[trigger] s[i] == '.'
}

/// Checks a module, capability or knowledge identifier.
pub fn validate_identifier(value: &str) -> (r: Result<(), ManifestError>)
    ensures
        r is Ok <==> valid_identifier(value@),
        r matches Err(e) ==> (e matches ManifestError::InvalidIdentifier { value: v } && v@ == value@),
{
    let chars = chars_of(value);
    let n = chars.len();
    let mut ok = n > 0 && 'a' <= chars[0] && chars[0] <= 'z';
    let mut seen_dot = false;
    let mut i: usize = 0;
    while ok && i < n
        invariant
            n == chars.len(),
            chars@ == value@,
            i <= n,
            ok ==> n > 0 && is_lower(chars@[0]),
            ok ==> forall|j: int| 0 <= j < i ==> (#[trigger] chars@[j] == '.' || is_segment_char(chars@[j])),
            ok ==> forall|j: int|
                0 <= j < i && #[trigger] chars@[j] == '.' ==> j + 1 < n && is_lower(chars@[j + 1]),
            ok ==> (seen_dot <==> exists|j: int| 0 <= j < i && #[trigger] chars@[j] == '.'),
            !ok ==> !valid_identifier(value@),
        decreases n - i,
    {
        let c = chars[i];
        if c == '.' {
            if i + 1 < n && 'a' <= chars[i + 1] && chars[i + 1] <= 'z' {
                seen_dot = true;
                assert(chars@[i as int] == '.');
            } else {
                ok = false;
                assert(chars@[i as int] == '.');
            }
        } else if !(('a' <= c && c <= 'z') || ('0' <= c && c <= '9') || c == '_') {
            ok = false;
            assert(!(chars@[i as int] == '.' || is_segment_char(chars@[i as int])));
        }
        proof {
            if chars@[i as int] != '.' {
                if exists|j: int| 0 <= j < i + 1 && #[trigger] chars@[j] == '.' {
                    let j = choose|j: int| 0 <= j < i + 1 && #[trigger] chars@[j] == '.';
                    assert(j < i);
                }
            }
        }
        i += 1;
    }
    if ok && seen_dot {
        Ok(())
    } else {
        proof {
            if ok {
                assert(!exists|j: int| 0 <= j < n && #[trigger] chars@[j] == '.');
            }
        }
        Err(ManifestError::InvalidIdentifier { value: value.to_owned() })
    }
}

/// The identifier of an installable module, such as `org.axiom.practice`.
#[derive(Debug, PartialEq, Eq, Hash)]
pub struct ModuleId(String);

/// The identifier of a capability a module provides, such as `math.verify`.
#[derive(Debug, PartialEq, Eq, Hash)]
pub struct CapabilityId(String);

impl View for ModuleId {
    type V = Seq<char>;

    closed spec fn view(&self) -> Seq<char> {
        self.0@
    }
}

impl View for CapabilityId {
    type V = Seq<char>;

    closed spec fn view(&self) -> Seq<char> {
        self.0@
    }
}

impl Clone for ModuleId {
    fn clone(&self) -> (r: Self)
        ensures
            r@ == self@,
    {
        ModuleId(self.0.clone())
    }
}

impl ModuleId {
    /// Whether both identifiers hold the same text.
    pub fn same(&self, other: &ModuleId) -> (r: bool)
        ensures
            r == (self@ == other@),
    {
        self.0 == other.0
    }

    /// Accepts `value` exactly when it is a valid identifier.
    pub fn new(value: &str) -> (r: Result<Self, ManifestError>)
        ensures
            r is Ok <==> valid_identifier(value@),
            r matches Ok(id) ==> id@ == value@,
            r matches Err(e) ==> (e matches ManifestError::InvalidIdentifier { value: v } && v@ == value@),
    {
        validate_identifier(value)?;
        Ok(ModuleId(value.to_owned()))
    }

    pub fn as_str(&self) -> (r: &str)
        ensures
            r@ == self@,
    {
        self.0.as_str()
    }
}

impl Clone for CapabilityId {
    fn clone(&self) -> (r: Self)
        ensures
            r@ == self@,
    {
        CapabilityId(self.0.clone())
    }
}

impl CapabilityId {
    /// Whether both identifiers hold the same text.
    pub fn same(&self, other: &CapabilityId) -> (r: bool)
        ensures
            r == (self@ == other@),
    {
        self.0 == other.0
    }

    /// Accepts `value` exactly when it is a valid identifier.
    pub fn new(value: &str) -> (r: Result<Self, ManifestError>)
        ensures
            r is Ok <==> valid_identifier(value@),
            r matches Ok(id) ==> id@ == value@,
            r matches Err(e) ==> (e matches ManifestError::InvalidIdentifier { value: v } && v@ == value@),
    {
        validate_identifier(value)?;
        Ok(CapabilityId(value.to_owned()))
    }

    pub fn as_str(&self) -> (r: &str)
        ensures
            r@ == self@,
    {
        self.0.as_str()
    }
}

} // verus!
