//! Writing text: characters, decimal and hexadecimal numbers.

use vstd::prelude::*;

verus! {


/// Appends one character to a string.
///
/// Calls `String::push`, which the standard library documents as appending the given `char` to the
/// end of the string; the contract says exactly that of the string's characters.
#[verifier::external_body]
pub(crate) fn push_char(text: &mut String, c: char)
    ensures
        final(text)@ == old(text)@.push(c),
{
    text.push(c);
}

/// The lower-case hexadecimal digit for `d`, which is below sixteen.
pub open spec fn spec_digit(d: int) -> char {
    if d == 0 {
        '0'
    } else if d == 1 {
        '1'
    } else if d == 2 {
        '2'
    } else if d == 3 {
        '3'
    } else if d == 4 {
        '4'
    } else if d == 5 {
        '5'
    } else if d == 6 {
        '6'
    } else if d == 7 {
        '7'
    } else if d == 8 {
        '8'
    } else if d == 9 {
        '9'
    } else if d == 10 {
        'a'
    } else if d == 11 {
        'b'
    } else if d == 12 {
        'c'
    } else if d == 13 {
        'd'
    } else if d == 14 {
        'e'
    } else {
        'f'
    }
}

/// The digit for `d` as a character.
pub fn digit(d: u64) -> (c: char)
    requires
        d < 16,
    ensures
        c == spec_digit(d as int),
{
    if d == 0 {
        '0'
    } else if d == 1 {
        '1'
    } else if d == 2 {
        '2'
    } else if d == 3 {
        '3'
    } else if d == 4 {
        '4'
    } else if d == 5 {
        '5'
    } else if d == 6 {
        '6'
    } else if d == 7 {
        '7'
    } else if d == 8 {
        '8'
    } else if d == 9 {
        '9'
    } else if d == 10 {
        'a'
    } else if d == 11 {
        'b'
    } else if d == 12 {
        'c'
    } else if d == 13 {
        'd'
    } else if d == 14 {
        'e'
    } else {
        'f'
    }
}

/// A number written in decimal, without leading zeros.
pub open spec fn decimal(n: nat) -> Seq<char>
    decreases n,
{
    if n < 10 {
        seq![spec_digit(n as int)]
    } else {
        decimal(n / 10).push(spec_digit((n % 10) as int))
    }
}

/// Appends `n` in decimal to `out`.
pub fn push_decimal(n: u64, out: &mut Vec<char>)
    ensures
        final(out)@ == old(out)@ + decimal(n as nat),
    decreases n,
{
    if n >= 10 {
        push_decimal(n / 10, out);
    }
    let d = digit(n % 10);
    out.push(d);
    assert(final(out)@ =~= old(out)@ + decimal(n as nat));
}

/// The sixteen hexadecimal digits of `v`, most significant first, zero-padded.
pub open spec fn hex16(v: u64) -> Seq<char> {
    Seq::new(16, |i: int| spec_digit(((v >> (4 * (15 - i)) as u64) & 0xf) as int))
}

/// Appends the sixteen hexadecimal digits of `v` to `out`.
pub fn push_hex16(v: u64, out: &mut String)
    ensures
        final(out)@ == old(out)@ + hex16(v),
{
    let mut i: u64 = 0;
    while i < 16
        invariant
            i <= 16,
            out@ == old(out)@ + hex16(v).take(i as int),
        decreases 16 - i,
    {
        let shift: u64 = 4 * (15 - i);
        let nibble = (v >> shift) & 0xf;
        assert(nibble < 16) by (bit_vector)
            requires
                nibble == (v >> shift) & 0xf,
        ;
        let c = digit(nibble);
        push_char(out, c);
        assert(hex16(v).take(i as int + 1) =~= hex16(v).take(i as int).push(c));
        i = i + 1;
    }
    assert(hex16(v).take(16) =~= hex16(v));
}

/// Appends every character of `chars` to `out`.
pub fn push_chars(chars: &Vec<char>, out: &mut String)
    ensures
        final(out)@ == old(out)@ + chars@,
{
    let mut i: usize = 0;
    while i < chars.len()
        invariant
            i <= chars.len(),
            out@ == old(out)@ + chars@.take(i as int),
        decreases chars.len() - i,
    {
        push_char(out, chars[i]);
        assert(chars@.take(i as int + 1) =~= chars@.take(i as int).push(chars@[i as int]));
        i = i + 1;
    }
    assert(chars@.take(chars.len() as int) =~= chars@);
}

/// Appends `n` in decimal to a string.
pub fn push_decimal_str(n: u64, out: &mut String)
    ensures
        final(out)@ == old(out)@ + decimal(n as nat),
{
    let mut digits: Vec<char> = Vec::new();
    push_decimal(n, &mut digits);
    assert(digits@ =~= decimal(n as nat));
    push_chars(&digits, out);
}

/// The `sep`-separated parts of `s`, in order; there is always at least one.
pub open spec fn split_on(s: Seq<char>, sep: char) -> Seq<Seq<char>>
    decreases s.len(),
{
    if s.len() == 0 {
        seq![Seq::empty()]
    } else {
        let parts = split_on(s.drop_last(), sep);
        if s.last() == sep {
            parts.push(Seq::empty())
        } else {
            parts.update(parts.len() - 1, parts.last().push(s.last()))
        }
    }
}

/// One character more of `s`: a separator starts a new part, anything else extends the last one.
pub proof fn lemma_split_on_step(s: Seq<char>, sep: char, i: int)
    requires
        0 <= i < s.len(),
    ensures
        s[i] == sep ==> split_on(s.take(i + 1), sep) == split_on(s.take(i), sep).push(Seq::empty()),
        s[i] != sep ==> split_on(s.take(i + 1), sep) == split_on(s.take(i), sep).update(
            split_on(s.take(i), sep).len() - 1,
            split_on(s.take(i), sep).last().push(s[i]),
        ),
{
    assert(s.take(i + 1).drop_last() =~= s.take(i));
}

} // verus!
