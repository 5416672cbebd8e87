//! Message text: UTF-8 payloads and the rendering of a hot count.

use crate::error::{FelgensError, FelgensResult};
use vstd::prelude::*;
use vstd::string::StringExecFns;
use vstd::utf8::{decode_utf8, encode_utf8, encode_utf8_decode_utf8, valid_utf8};

verus! {

#[verifier::external_type_specification]
#[verifier::external_body]
pub struct ExUtf8Error(core::str::Utf8Error);

/// `from_utf8` of std.
///
/// Trusted: the call succeeds exactly on well-formed UTF-8, and the string
/// slice it then hands out consists of the very bytes it was given.
pub assume_specification[ core::str::from_utf8 ](v: &[u8]) -> (r: Result<&str, core::str::Utf8Error>)
    ensures
        r is Ok <==> valid_utf8(v@),
        r matches Ok(s) ==> encode_utf8(s@) == v@,
;

/// The text that `bytes` encode, or `InvalidUtf8`.
pub open spec fn text_of(bytes: Seq<u8>) -> FelgensResult<Seq<char>> {
    if valid_utf8(bytes) {
        Ok(decode_utf8(bytes))
    } else {
        Err(FelgensError::InvalidUtf8)
    }
}

/// Decodes the payload of one frame.
pub fn message_text(bytes: &[u8]) -> (r: FelgensResult<String>)
    ensures
        match r {
            Ok(s) => text_of(bytes@) == Ok::<_, FelgensError>(s@),
            Err(e) => text_of(bytes@) == Err::<Seq<char>, _>(e),
        },
{
    match std::str::from_utf8(bytes) {
        Ok(s) => {
            proof {
                encode_utf8_decode_utf8(s@);
            }
            Ok(s.to_owned())
        },
        Err(_) => Err(FelgensError::InvalidUtf8),
    }
}

/// The character of one decimal digit.
pub open spec fn digit_char(d: nat) -> char
    recommends
        d < 10,
{
    (d + 0x30) as char
}

/// `n` in decimal, without sign or leading zeros.
pub open spec fn decimal_digits(n: nat) -> Seq<char>
    decreases n,
{
    if n < 10 {
        seq![digit_char(n)]
    } else {
        decimal_digits(n / 10).push(digit_char(n % 10))
    }
}

/// The text of a hot-count message: `{"count": N}` with `N` in decimal.
pub open spec fn count_text(count: u32) -> Seq<char> {
    seq!['{', '"', 'c', 'o', 'u', 'n', 't', '"', ':', ' '] + decimal_digits(count as nat) + seq!['}']
}

fn digit_str(d: u32) -> (s: &'static str)
    requires
        d < 10,
    ensures
        s@ == seq![digit_char(d as nat)],
{
    proof {
        reveal_strlit("0");
        reveal_strlit("1");
        reveal_strlit("2");
        reveal_strlit("3");
        reveal_strlit("4");
        reveal_strlit("5");
        reveal_strlit("6");
        reveal_strlit("7");
        reveal_strlit("8");
        reveal_strlit("9");
    }
    let s = match d {
        0 => "0",
        1 => "1",
        2 => "2",
        3 => "3",
        4 => "4",
        5 => "5",
        6 => "6",
        7 => "7",
        8 => "8",
        _ => "9",
    };
    assert(s@ =~= seq![digit_char(d as nat)]);
    s
}

/// Writes `n` in decimal.
pub fn decimal(n: u32) -> (s: String)
    ensures
        s@ == decimal_digits(n as nat),
    decreases n,
{
    if n < 10 {
        String::from_str(digit_str(n))
    } else {
        let s = decimal(n / 10).concat(digit_str(n % 10));
        assert(s@ =~= decimal_digits(n as nat));
        s
    }
}

/// Renders a hot count as its message.
pub fn hot_count_text(count: u32) -> (s: String)
    ensures
        s@ == count_text(count),
{
    proof {
        reveal_strlit("{\"count\": ");
        reveal_strlit("}");
    }
    let s = String::from_str("{\"count\": ").concat(decimal(count).as_str()).concat("}");
    assert(s@ =~= count_text(count));
    s
}

} // verus!
