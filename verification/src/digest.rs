//! MD5 digests and their hexadecimal rendering.

use vstd::prelude::*;
use vstd::string::*;

verus! {

/// The MD5 digest of a byte string, as the `md5` crate computes it.
pub uninterp spec fn md5_digest(data: Seq<u8>) -> Seq<u8>;

/// Calls `md5::compute` and hands back the sixteen digest bytes. The contract
/// only names the digest: it is a function of the input bytes alone.
#[verifier::external_body]
pub(crate) fn md5_compute(data: &[u8]) -> (digest: [u8; 16])
    ensures
        digest@ == md5_digest(data@),
{
    md5::compute(data).0
}

/// Appends `more` to `out`.
pub fn append_bytes(out: &mut Vec<u8>, more: &[u8])
    ensures
        final(out)@ == old(out)@ + more@,
{
    let mut i: usize = 0;
    while i < more.len()
        invariant
            i <= more@.len(),
            out@ == old(out)@ + more@.take(i as int),
        decreases more@.len() - i,
    {
        out.push(more[i]);
        proof {
            assert(more@.take(i + 1) =~= more@.take(i as int).push(more@[i as int]));
            assert(out@ =~= old(out)@ + more@.take(i + 1));
        }
        i += 1;
    }
    proof {
        assert(more@.take(i as int) =~= more@);
    }
}

/// The sixteen hexadecimal digits, lower case.
pub open spec fn lower_digits() -> Seq<char> {
    seq!['0', '1', '2', '3', '4', '5', '6', '7', '8', '9', 'a', 'b', 'c', 'd', 'e', 'f']
}

/// The sixteen hexadecimal digits, upper case.
pub open spec fn upper_digits() -> Seq<char> {
    seq!['0', '1', '2', '3', '4', '5', '6', '7', '8', '9', 'A', 'B', 'C', 'D', 'E', 'F']
}

/// Two lower-case hexadecimal digits for one byte.
pub open spec fn lower_hex_byte(b: u8) -> Seq<char> {
    seq![lower_digits()[b as int / 16], lower_digits()[b as int % 16]]
}

/// Lower-case hexadecimal rendering of a byte string, two digits per byte.
pub open spec fn lower_hex(bytes: Seq<u8>) -> Seq<char>
    decreases bytes.len(),
{
    if bytes.len() == 0 {
        Seq::empty()
    } else {
        lower_hex(bytes.drop_last()) + lower_hex_byte(bytes.last())
    }
}

/// Upper-case hexadecimal rendering of a number, without leading zeros
/// (a single `0` for zero).
pub open spec fn upper_hex(n: nat) -> Seq<char>
    decreases n,
{
    if n < 16 {
        seq![upper_digits()[n as int]]
    } else {
        upper_hex(n / 16).push(upper_digits()[(n % 16) as int])
    }
}

/// Upper-case hexadecimal rendering of a number, padded with a zero to at
/// least two digits.
pub open spec fn upper_hex_padded(n: nat) -> Seq<char> {
    if n < 16 {
        seq!['0'] + upper_hex(n)
    } else {
        upper_hex(n)
    }
}

/// One lower-case hexadecimal digit.
pub fn lower_digit(n: u8) -> (s: &'static str)
    requires
        n < 16,
    ensures
        s@ == seq![lower_digits()[n as int]],
{
    proof {
        reveal_strlit("0");
        reveal_strlit("1");
        reveal_strlit("2");
        reveal_strlit("3");
        reveal_strlit("4");
        reveal_strlit("5");
        reveal_strlit("6");
        reveal_strlit("7");
        reveal_strlit("8");
        reveal_strlit("9");
        reveal_strlit("a");
        reveal_strlit("b");
        reveal_strlit("c");
        reveal_strlit("d");
        reveal_strlit("e");
        reveal_strlit("f");
    }
    let s = match n {
        0 => "0",
        1 => "1",
        2 => "2",
        3 => "3",
        4 => "4",
        5 => "5",
        6 => "6",
        7 => "7",
        8 => "8",
        9 => "9",
        10 => "a",
        11 => "b",
        12 => "c",
        13 => "d",
        14 => "e",
        _ => "f",
    };
    assert(s@ =~= seq![lower_digits()[n as int]]);
    s
}

/// One upper-case hexadecimal digit.
pub fn upper_digit(n: u8) -> (s: &'static str)
    requires
        n < 16,
    ensures
        s@ == seq![upper_digits()[n as int]],
{
    proof {
        reveal_strlit("0");
        reveal_strlit("1");
        reveal_strlit("2");
        reveal_strlit("3");
        reveal_strlit("4");
        reveal_strlit("5");
        reveal_strlit("6");
        reveal_strlit("7");
        reveal_strlit("8");
        reveal_strlit("9");
        reveal_strlit("A");
        reveal_strlit("B");
        reveal_strlit("C");
        reveal_strlit("D");
        reveal_strlit("E");
        reveal_strlit("F");
    }
    let s = match n {
        0 => "0",
        1 => "1",
        2 => "2",
        3 => "3",
        4 => "4",
        5 => "5",
        6 => "6",
        7 => "7",
        8 => "8",
        9 => "9",
        10 => "A",
        11 => "B",
        12 => "C",
        13 => "D",
        14 => "E",
        _ => "F",
    };
    assert(s@ =~= seq![upper_digits()[n as int]]);
    s
}

/// Appends the two lower-case hexadecimal digits of `b` to `out`.
pub fn push_lower_hex_byte(out: &mut String, b: u8)
    ensures
        final(out)@ == old(out)@ + lower_hex_byte(b),
{
    out.append(lower_digit(b / 16));
    out.append(lower_digit(b % 16));
    assert(out@ =~= old(out)@ + lower_hex_byte(b));
}

/// Lower-case hexadecimal rendering of `bytes`.
pub fn to_lower_hex(bytes: &[u8]) -> (s: String)
    ensures
        s@ == lower_hex(bytes@),
{
    let mut out = String::new();
    let mut i: usize = 0;
    while i < bytes.len()
        invariant
            i <= bytes@.len(),
            out@ == lower_hex(bytes@.take(i as int)),
        decreases bytes@.len() - i,
    {
        push_lower_hex_byte(&mut out, bytes[i]);
        proof {
            assert(bytes@.take(i + 1).drop_last() =~= bytes@.take(i as int));
        }
        i += 1;
    }
    proof {
        assert(bytes@.take(i as int) =~= bytes@);
    }
    out
}

/// Upper-case hexadecimal rendering of `n`, padded to at least two digits.
pub fn to_upper_hex_padded(n: u32) -> (s: String)
    ensures
        s@ == upper_hex_padded(n as nat),
{
    let mut out = String::new();
    if n < 16 {
        out.append("0");
        proof {
            reveal_strlit("0");
            assert(out@ =~= seq!['0']);
        }
    }
    push_upper_hex(&mut out, n);
    out
}

/// Appends the upper-case hexadecimal rendering of `n` to `out`.
pub fn push_upper_hex(out: &mut String, n: u32)
    ensures
        final(out)@ == old(out)@ + upper_hex(n as nat),
    decreases n,
{
    if n < 16 {
        out.append(upper_digit(n as u8));
    } else {
        push_upper_hex(out, n / 16);
        out.append(upper_digit((n % 16) as u8));
        assert(out@ =~= old(out)@ + upper_hex(n as nat));
    }
}

} // verus!
