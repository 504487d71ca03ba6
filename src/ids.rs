//! Job identifiers: 128-bit time-sortable values written as 26 Crockford
//! base32 characters.

use vstd::arithmetic::power::pow;
use vstd::prelude::*;

verus! {

/// The Crockford base32 alphabet used by the identifier text.
pub open spec fn crockford_alphabet() -> Seq<char> {
    seq![
        '0', '1', '2', '3', '4', '5', '6', '7', '8', '9', 'A', 'B', 'C', 'D', 'E', 'F',
        'G', 'H', 'J', 'K', 'M', 'N', 'P', 'Q', 'R', 'S', 'T', 'V', 'W', 'X', 'Y', 'Z',
    ]
}

/// The canonical text of a 128-bit identifier: 26 base32 digits, most
/// significant first (the first digit carries the top three bits).
pub open spec fn ulid_text(v: u128) -> Seq<char> {
    Seq::new(26, |i: int| crockford_alphabet()[((v as nat) / (pow(32, (25 - i) as nat) as nat)) as int % 32])
}

/// Relies on `ulid::Ulid::to_string` (base32 encoding of the 128-bit value,
/// 26 characters from the alphabet above, most significant digit first).
#[verifier::external_body]
fn ulid_encode(v: u128) -> (r: String)
    ensures
        r@ == ulid_text(v),
{
    ulid::Ulid(v).to_string()
}

/// Relies on `ulid::Ulid::from_string`: the canonical text of a value decodes
/// to that value, and a successful decode read exactly 26 characters.
#[verifier::external_body]
fn ulid_decode(s: &str) -> (r: Option<u128>)
    ensures
        forall|v: u128| #[trigger] ulid_text(v) == s@ ==> r == Some(v),
        r is Some ==> s@.len() == 26,
{
    match ulid::Ulid::from_string(s) {
        Ok(u) => Some(u.0),
        Err(_) => None,
    }
}

/// Relies on `ulid::Ulid::new`: a fresh identifier from the clock and a random
/// source. Nothing is promised of its value.
#[verifier::external_body]
fn ulid_fresh() -> (r: u128) {
    ulid::Ulid::new().0
}

/// Identity of a check job.
#[derive(Debug, Clone, Copy, PartialEq, Eq, Hash, Structural)]
pub struct JobId {
    pub value: u128,
}

impl JobId {
    /// The identifier's textual form.
    pub open spec fn text(&self) -> Seq<char> {
        ulid_text(self.value)
    }

    /// A fresh, time-sortable identifier.
    pub fn generate() -> (r: JobId) {
        JobId { value: ulid_fresh() }
    }

    pub fn from_value(value: u128) -> (r: JobId)
        ensures
            r.value == value,
    {
        JobId { value }
    }

    /// The 26-character base32 text of the identifier.
    pub fn to_string(&self) -> (r: String)
        ensures
            r@ == self.text(),
            r@.len() == 26,
    {
        ulid_encode(self.value)
    }

    /// Reads an identifier from its text. The text of every identifier reads
    /// back as that same identifier.
    pub fn from_string(s: &str) -> (r: Option<JobId>)
        ensures
            forall|id: JobId| #[trigger] id.text() == s@ ==> r == Some(id),
            r is Some ==> s@.len() == 26,
    {
        match ulid_decode(s) {
            Some(v) => Some(JobId { value: v }),
            None => None,
        }
    }
}

/// Display name of a job; the registry keys jobs by it.
#[derive(Debug, Clone, PartialEq, Eq, Hash)]
pub struct JobPrettyName {
    pub inner: String,
}

impl View for JobPrettyName {
    type V = Seq<char>;

    open spec fn view(&self) -> Seq<char> {
        self.inner@
    }
}

impl JobPrettyName {
    pub fn new(inner: String) -> (r: JobPrettyName)
        ensures
            r@ == inner@,
    {
        JobPrettyName { inner }
    }

    pub fn as_str(&self) -> (r: &str)
        ensures
            r@ == self@,
    {
        self.inner.as_str()
    }
}

} // verus!
