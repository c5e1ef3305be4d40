//! Timestamps for workspace records: creation times are carried as RFC 3339
//! text, validated and produced through chrono, and reformatted for display.

use crate::strutil::push_char;
use vstd::prelude::*;
use vstd::string::StrSliceExecFns;
use vstd::string::StringExecFns;

verus! {

/// Whether chrono's RFC 3339 parser accepts `s`; the answer depends on the
/// characters alone.
pub uninterp spec fn rfc3339_valid(s: Seq<char>) -> bool;

/// Relies on chrono's `DateTime::parse_from_rfc3339`: acceptance of `s` is a
/// function of its characters alone.
#[verifier::external_body]
pub fn rfc3339_parses(s: &str) -> (b: bool)
    ensures
        b == rfc3339_valid(s@),
{
    chrono::DateTime::parse_from_rfc3339(s).is_ok()
}

/// Relies on chrono's `Utc::now` and `DateTime::to_rfc3339`: the current UTC
/// time as RFC 3339 text, which chrono's own RFC 3339 parser accepts back.
#[verifier::external_body]
pub fn now_rfc3339() -> (r: String)
    ensures
        rfc3339_valid(r@),
{
    chrono::Utc::now().to_rfc3339()
}

/// An RFC 3339 timestamp reformatted for display: date, a space, and the
/// seconds-precision clock time. Text not shaped like a timestamp is shown
/// as it is.
pub fn display_timestamp(s: &str) -> (r: String)
    ensures
        if s@.len() >= 19 && s@[10] == 'T' {
            r@ == s@.subrange(0, 10) + " "@ + s@.subrange(11, 19)
        } else {
            r@ == s@
        },
{
    let n = s.unicode_len();
    if n >= 19 && s.get_char(10) == 'T' {
        let mut out = s.substring_char(0, 10).to_owned();
        push_char(&mut out, ' ');
        let out2 = out.concat(s.substring_char(11, 19));
        proof {
            reveal_strlit(" ");
            assert(out2@ =~= s@.subrange(0, 10) + " "@ + s@.subrange(11, 19));
        }
        out2
    } else {
        s.to_owned()
    }
}

} // verus!
