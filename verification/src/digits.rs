//! Decimal rendering and parsing for the small numeric values that appear in
//! file contents and socket paths.

use vstd::prelude::*;

verus! {

/// The ASCII byte of a single decimal digit.
pub open spec fn spec_digit_byte(d: int) -> u8 {
    (0x30 + d) as u8
}

/// The ASCII bytes of a natural number written in decimal, most significant
/// digit first, without leading zeros (zero itself is one `0`).
pub open spec fn spec_dec_bytes(n: nat) -> Seq<u8>
    decreases n,
{
    if n < 10 {
        seq![spec_digit_byte(n as int)]
    } else {
        spec_dec_bytes(n / 10) + seq![spec_digit_byte((n % 10) as int)]
    }
}

/// The characters of an integer written in decimal, with a leading minus for
/// negative values.
pub open spec fn spec_dec_chars(n: int) -> Seq<char> {
    if n < 0 {
        seq!['-'] + spec_dec_bytes((-n) as nat).map_values(|b: u8| b as char)
    } else {
        spec_dec_bytes(n as nat).map_values(|b: u8| b as char)
    }
}

/// Renders a number in decimal, as ASCII bytes.
pub fn u64_dec_bytes(n: u64) -> (r: Vec<u8>)
    ensures
        r@ == spec_dec_bytes(n as nat),
{
    let mut out: Vec<u8> = Vec::new();
    let mut v: u64 = n;
    proof {
        assert(spec_dec_bytes(n as nat) =~= spec_dec_bytes(v as nat) + out@);
    }
    loop
        invariant_except_break
            spec_dec_bytes(n as nat) == spec_dec_bytes(v as nat) + out@,
        ensures
            out@ == spec_dec_bytes(n as nat),
        decreases v,
    {
        let d: u8 = (v % 10) as u8;
        out.insert(0, 0x30 + d);
        v = v / 10;
        if v == 0 {
            proof {
                assert(out@ =~= spec_dec_bytes(n as nat));
            }
            break ;
        }
        proof {
            assert(spec_dec_bytes(n as nat) =~= spec_dec_bytes(v as nat) + out@);
        }
    }
    out
}

/// All decimal digit bytes are ASCII.
pub proof fn lemma_dec_bytes_ascii(n: nat)
    ensures
        forall|i: int| 0 <= i < spec_dec_bytes(n).len() ==> spec_dec_bytes(n)[i] < 0x80,
    decreases n,
{
    if n >= 10 {
        lemma_dec_bytes_ascii(n / 10);
        let prefix = spec_dec_bytes(n / 10);
        let whole = spec_dec_bytes(n);
        assert(whole == prefix + seq![spec_digit_byte((n % 10) as int)]);
        assert forall|i: int| 0 <= i < whole.len() implies whole[i] < 0x80 by {
            if i < prefix.len() {
                assert(whole[i] == prefix[i]);
            } else {
                assert(whole[i] == spec_digit_byte((n % 10) as int));
            }
        }
    }
}

/// Relies on String::from_utf8: bytes below 0x80 are ASCII and decode to the
/// characters with the same values; on ASCII input the call cannot fail.
#[verifier::external_body]
pub(crate) fn string_from_ascii(bytes: Vec<u8>) -> (r: String)
    requires
        forall|i: int| 0 <= i < bytes@.len() ==> bytes@[i] < 0x80,
    ensures
        r@ == bytes@.map_values(|b: u8| b as char),
{
    String::from_utf8(bytes).expect("ascii bytes are valid utf-8")
}

/// Relies on String::push: appends exactly the one character.
#[verifier::external_body]
pub(crate) fn string_push(s: &mut String, c: char)
    ensures
        final(s)@ == old(s)@.push(c),
{
    s.push(c);
}

/// Relies on str's PartialEq: two string slices are equal exactly when their
/// character sequences are.
#[verifier::external_body]
pub(crate) fn str_eq(a: &str, b: &str) -> (r: bool)
    ensures
        r == (a@ == b@),
{
    a == b
}

/// Renders an integer in decimal, as a string.
pub fn i64_dec_string(n: i64) -> (r: String)
    ensures
        r@ == spec_dec_chars(n as int),
{
    if n < 0 {
        let mag: u64 = if n == i64::MIN {
            0x8000_0000_0000_0000u64
        } else {
            (-n) as u64
        };
        let mut bytes = u64_dec_bytes(mag);
        bytes.insert(0, 0x2D);
        proof {
            lemma_dec_bytes_ascii(mag as nat);
            assert(bytes@.map_values(|b: u8| b as char) =~= seq!['-'] + spec_dec_bytes(
                mag as nat,
            ).map_values(|b: u8| b as char));
        }
        string_from_ascii(bytes)
    } else {
        let bytes = u64_dec_bytes(n as u64);
        proof {
            lemma_dec_bytes_ascii(n as nat);
        }
        string_from_ascii(bytes)
    }
}

} // verus!
