use unic_langid::LanguageIdentifier;
use vstd::prelude::*;

verus! {

#[verifier::external_type_specification]
#[verifier::external_body]
pub struct ExLanguageIdentifier(LanguageIdentifier);

/// The canonical text of the language identifier that `s` spells, or `None`
/// where `s` is no valid identifier.
pub uninterp spec fn canonical_langid(s: Seq<char>) -> Option<Seq<char>>;

/// A validated language identifier, together with its canonical text
/// (language lower case, region upper case, subtags joined by `-`).
pub struct LanguageTag {
    pub(crate) langid: LanguageIdentifier,
    pub(crate) text: String,
}

impl View for LanguageTag {
    type V = Seq<char>;

    closed spec fn view(&self) -> Seq<char> {
        self.text@
    }
}

/// Relies on `LanguageIdentifier::from_str` to validate and canonicalize `s`,
/// and on its `Display` to print the canonical text.
#[verifier::external_body]
fn parse_langid(s: &str) -> (r: Option<LanguageTag>)
    ensures
        r is Some <==> canonical_langid(s@) is Some,
        r matches Some(t) ==> canonical_langid(s@) == Some(t@),
{
    s.parse::<LanguageIdentifier>().ok().map(|langid| LanguageTag { text: langid.to_string(), langid })
}

impl PartialEq for LanguageTag {
    /// Two tags are equal when their canonical texts are.
    fn eq(&self, other: &LanguageTag) -> (r: bool) {
        self.text.eq(&other.text)
    }
}

impl vstd::std_specs::cmp::PartialEqSpecImpl for LanguageTag {
    open spec fn obeys_eq_spec() -> bool {
        true
    }

    open spec fn eq_spec(&self, other: &LanguageTag) -> bool {
        self@ == other@
    }
}

impl LanguageTag {
    /// Parses a language identifier such as `en-US` or `hr_hr`.
    pub fn parse(s: &str) -> (r: Option<LanguageTag>)
        ensures
            r is Some <==> canonical_langid(s@) is Some,
            r matches Some(t) ==> canonical_langid(s@) == Some(t@),
    {
        parse_langid(s)
    }

    /// The canonical text of the identifier.
    pub fn as_str(&self) -> (r: &str)
        ensures
            r@ == self@,
    {
        self.text.as_str()
    }

    /// The canonical text of the identifier, as an owned string.
    pub fn to_text(&self) -> (r: String)
        ensures
            r@ == self@,
    {
        self.text.clone()
    }
}

} // verus!
