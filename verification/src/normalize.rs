//! Usernames in their comparison form: Unicode Normalization Form C.

use unicode_normalization::UnicodeNormalization;
use vstd::prelude::*;

verus! {

/// What `UnicodeNormalization::nfc` yields for `text`: the text in Unicode
/// Normalization Form C, canonical decomposition followed by canonical
/// composition.
pub uninterp spec fn nfc(text: Seq<char>) -> Seq<char>;

/// `UnicodeNormalization::nfc` on a string, its characters collected into a
/// string.
///
/// The result is the text in Normalization Form C. Text in that form is its
/// own normal form: that is what the crate's `is_nfc` tests.
#[verifier::external_body]
fn to_nfc(text: &str) -> (r: String)
    ensures
        r@ == nfc(text@),
        nfc(r@) == r@,
{
    text.nfc().collect()
}

/// A username in its comparison form.
///
/// It serves to compare and to look up; the name as its owner wrote it stays
/// the display name. Every value is in Normalization Form C.
#[derive(Debug, PartialEq, Eq)]
pub struct NormalizedName {
    text: String,
}

impl View for NormalizedName {
    type V = Seq<char>;

    closed spec fn view(&self) -> Seq<char> {
        self.text@
    }
}

impl NormalizedName {
    /// What holds of every normalized name: it is its own normal form.
    #[verifier::type_invariant]
    pub open spec fn well_formed(self) -> bool {
        nfc(self@) == self@
    }

    /// The name's text.
    pub fn as_str(&self) -> (s: &str)
        ensures
            s@ == self@,
            nfc(self@) == self@,
    {
        proof {
            use_type_invariant(self);
        }
        self.text.as_str()
    }
}

/// Brings a candidate username into its comparison form.
///
/// Strings that differ only in how they compose their characters get the same
/// form. Normalizing is idempotent: the form of a form is that form.
pub fn normalize(candidate: &str) -> (name: NormalizedName)
    ensures
        name@ == nfc(candidate@),
        nfc(nfc(candidate@)) == nfc(candidate@),
{
    NormalizedName { text: to_nfc(candidate) }
}

} // verus!
