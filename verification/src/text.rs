use vstd::prelude::*;

verus! {

/// The decimal digit or lowercase hexadecimal digit for `d` below 16.
pub open spec fn hex_char(d: nat) -> char {
    if d < 10 {
        (48 + d) as char
    } else {
        (87 + d) as char
    }
}

/// `n` in decimal, without leading zeros.
pub open spec fn dec_text(n: nat) -> Seq<char>
    decreases n,
{
    if n < 10 {
        seq![hex_char(n)]
    } else {
        dec_text(n / 10).push(hex_char(n % 10))
    }
}

/// `n` in lowercase hexadecimal, without leading zeros.
pub open spec fn hex_text(n: nat) -> Seq<char>
    decreases n,
{
    if n < 16 {
        seq![hex_char(n)]
    } else {
        hex_text(n / 16).push(hex_char(n % 16))
    }
}

/// `n` in lowercase hexadecimal, padded with zeros to at least two digits.
pub open spec fn hex_text_min2(n: nat) -> Seq<char> {
    if n < 16 {
        seq!['0', hex_char(n)]
    } else {
        hex_text(n)
    }
}

/// Every byte as two lowercase hexadecimal digits.
pub open spec fn hex_bytes(s: Seq<u8>) -> Seq<char>
    decreases s.len(),
{
    if s.len() == 0 {
        Seq::empty()
    } else {
        hex_bytes(s.drop_last()) + seq![hex_char((s.last() / 16) as nat), hex_char((s.last() % 16) as nat)]
    }
}

/// The digit for `d`.
pub fn hex_digit(d: u64) -> (c: char)
    requires
        d < 16,
    ensures
        c == hex_char(d as nat),
{
    if d < 10 {
        (48u8 + d as u8) as char
    } else {
        (87u8 + d as u8) as char
    }
}

/// Appends the characters of `s`.
pub fn push_str(out: &mut Vec<char>, s: &str)
    ensures
        final(out)@ == old(out)@ + s@,
{
    let n = s.unicode_len();
    let mut i: usize = 0;
    while i < n
        invariant
            n == s@.len(),
            i <= n,
            out@ == old(out)@ + s@.take(i as int),
        decreases n - i,
    {
        let c = s.get_char(i);
        proof {
            assert(s@.take(i + 1) =~= s@.take(i as int).push(c));
        }
        out.push(c);
        i = i + 1;
    }
    proof {
        assert(s@.take(n as int) =~= s@);
    }
}

/// Appends all of `s`.
pub fn push_chars(out: &mut Vec<char>, s: &Vec<char>)
    ensures
        final(out)@ == old(out)@ + s@,
{
    let n = s.len();
    let mut i: usize = 0;
    while i < n
        invariant
            n == s@.len(),
            i <= n,
            out@ == old(out)@ + s@.take(i as int),
        decreases n - i,
    {
        proof {
            assert(s@.take(i + 1) =~= s@.take(i as int).push(s@[i as int]));
        }
        out.push(s[i]);
        i = i + 1;
    }
    proof {
        assert(s@.take(n as int) =~= s@);
    }
}

/// Appends `v` in decimal.
pub fn push_decimal(out: &mut Vec<char>, v: u64)
    ensures
        final(out)@ == old(out)@ + dec_text(v as nat),
    decreases v,
{
    if v >= 10 {
        push_decimal(out, v / 10);
    }
    out.push(hex_digit(v % 10));
    proof {
        assert(final(out)@ =~= old(out)@ + dec_text(v as nat));
    }
}

/// Appends a byte `v` in decimal.
pub fn push_decimal_u8(out: &mut Vec<char>, v: u8)
    ensures
        final(out)@ == old(out)@ + dec_text(v as nat),
{
    push_decimal(out, v as u64);
}

/// Appends `v` in lowercase hexadecimal.
fn push_hex(out: &mut Vec<char>, v: u64)
    ensures
        final(out)@ == old(out)@ + hex_text(v as nat),
    decreases v,
{
    if v >= 16 {
        push_hex(out, v / 16);
    }
    out.push(hex_digit(v % 16));
    proof {
        assert(final(out)@ =~= old(out)@ + hex_text(v as nat));
    }
}

/// Appends `v` in lowercase hexadecimal, with at least two digits.
pub fn push_hex_min2(out: &mut Vec<char>, v: u64)
    ensures
        final(out)@ == old(out)@ + hex_text_min2(v as nat),
{
    if v < 16 {
        out.push('0');
        out.push(hex_digit(v));
        proof {
            assert(final(out)@ =~= old(out)@ + hex_text_min2(v as nat));
        }
    } else {
        push_hex(out, v);
    }
}

/// Appends every byte of `s` as two lowercase hexadecimal digits.
pub fn push_hex_bytes(out: &mut Vec<char>, s: &[u8])
    ensures
        final(out)@ == old(out)@ + hex_bytes(s@),
{
    let n = s.len();
    let mut i: usize = 0;
    while i < n
        invariant
            n == s@.len(),
            i <= n,
            out@ == old(out)@ + hex_bytes(s@.take(i as int)),
        decreases n - i,
    {
        let b = s[i];
        out.push(hex_digit((b / 16) as u64));
        out.push(hex_digit((b % 16) as u64));
        proof {
            assert(s@.take(i + 1).drop_last() =~= s@.take(i as int));
            assert(out@ =~= old(out)@ + hex_bytes(s@.take(i + 1)));
        }
        i = i + 1;
    }
    proof {
        assert(s@.take(n as int) =~= s@);
    }
}

/// Collects characters into a `String` (std's `FromIterator<&char>` for
/// `String`, which keeps them in order).
#[verifier::external_body]
pub(crate) fn chars_to_string(v: &Vec<char>) -> (s: String)
    ensures
        s@ == v@,
{
    v.iter().collect()
}

} // verus!
