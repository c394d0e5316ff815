//! Transport encoding for the foreign boundary.
//!
//! Text crosses the boundary as a nul-terminated character sequence. A piece
//! of text is encodable iff it contains no nul of its own; the encoded form
//! appends exactly one terminator, and decoding strips it again.

use vstd::prelude::*;
use vstd::string::*;

verus! {

/// Text can cross the boundary iff none of its characters is the terminator.
pub open spec fn encodable(s: Seq<char>) -> bool {
    forall|i: int| 0 <= i < s.len() ==> s[i] != '\0'
}

/// The nul-terminated transport form of `s`.
pub open spec fn encoded(s: Seq<char>) -> Seq<char> {
    s.push('\0')
}

/// A well-formed transport string: non-empty, terminated by exactly one nul,
/// with no interior nul.
pub open spec fn wf_encoded(t: Seq<char>) -> bool {
    &&& t.len() > 0
    &&& t.last() == '\0'
    &&& encodable(t.drop_last())
}

/// The text a well-formed transport string carries.
pub open spec fn payload(t: Seq<char>) -> Seq<char> {
    t.drop_last()
}

/// Encoding any encodable text yields a well-formed transport string whose
/// payload is the original text: the round trip loses nothing.
pub proof fn lemma_encode_round_trip(s: Seq<char>)
    requires
        encodable(s),
    ensures
        wf_encoded(encoded(s)),
        payload(encoded(s)) == s,
{
    assert(encoded(s).drop_last() =~= s);
}

/// Whether `s` holds a character that the transport encoding cannot carry.
pub fn has_embedded_nul(s: &str) -> (r: bool)
    ensures
        r == !encodable(s@),
{
    let n = s.unicode_len();
    let mut i: usize = 0;
    while i < n
        invariant
            n == s@.len(),
            0 <= i <= n,
            forall|j: int| 0 <= j < i ==> s@[j] != '\0',
        decreases n - i,
    {
        if s.get_char(i) == '\0' {
            return true;
        }
        i += 1;
    }
    false
}

/// Encode `s` for the boundary: append the terminator, rejecting text that
/// already contains one.
pub fn encode_arg(s: &str) -> (r: Result<String, crate::outcome::HostError>)
    ensures
        match r {
            Ok(t) => encodable(s@) && t@ == encoded(s@),
            Err(e) => e == crate::outcome::HostError::EncodingError && !encodable(s@),
        },
{
    if has_embedded_nul(s) {
        return Err(crate::outcome::HostError::EncodingError);
    }
    let t = String::from_str(s).concat("\u{0}");
    proof {
        reveal_strlit("\u{0}");
        assert(t@ =~= encoded(s@));
    }
    Ok(t)
}

/// Decode a well-formed transport string back into the text it carries.
pub fn decode_arg(t: &str) -> (r: String)
    requires
        wf_encoded(t@),
    ensures
        r@ == payload(t@),
{
    let n = t.unicode_len();
    let p = t.substring_char(0, n - 1);
    proof {
        assert(p@ =~= payload(t@));
    }
    String::from_str(p)
}

} // verus!
