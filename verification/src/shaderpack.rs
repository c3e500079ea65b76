//! The shader pack's version check.

use vstd::prelude::*;
use crate::text::{lemma_split_on_step, split_on};

verus! {

/// The format version this renderer reads, as written in a pack's `version` field.
pub const CONFIG_VERSION: &'static str = "v0.0.1";

/// The format version as (major, minor, patch).
pub const CONFIG_VERSION_TRIPLE: (u32, u32, u32) = (0, 0, 1);

/// What the version check reads of a shader pack's configuration.
pub struct ShaderPackConfig {
    pub version: String,
    pub support: String,
}

pub open spec fn is_digit(c: char) -> bool {
    '0' <= c <= '9'
}

/// The number that a run of decimal digits stands for.
pub open spec fn digits_value(d: Seq<char>) -> nat
    decreases d.len(),
{
    if d.len() == 0 {
        0
    } else {
        digits_value(d.drop_last()) * 10 + ((d.last() as nat) - ('0' as nat)) as nat
    }
}

/// `s` without a leading `+`.
pub open spec fn without_plus(s: Seq<char>) -> Seq<char> {
    if s.len() > 0 && s[0] == '+' {
        s.drop_first()
    } else {
        s
    }
}

/// Whether every character of `d` is a decimal digit.
pub open spec fn all_digits(d: Seq<char>) -> bool {
    forall|i: int| 0 <= i < d.len() ==> is_digit(#[trigger] d[i])
}

/// What `u32`'s `FromStr` makes of `s`: an optional `+`, then one or more decimal digits whose
/// value fits in a `u32`; anything else is an error.
pub open spec fn parse_u32(s: Seq<char>) -> Option<u32> {
    let d = without_plus(s);
    if d.len() > 0 && all_digits(d) && digits_value(d) <= u32::MAX {
        Some(digits_value(d) as u32)
    } else {
        None
    }
}

/// The number a version part stands for: the part without its last character, parsed, with
/// `u32::MAX` standing for a part that does not parse.
pub open spec fn part_number(part: Seq<char>) -> u32 {
    match parse_u32(part.drop_last()) {
        Some(n) => n,
        None => u32::MAX,
    }
}

/// The numbers of a version string: the parts after the leading `v`.
pub open spec fn version_numbers(version: Seq<char>) -> Seq<u32> {
    split_on(version.drop_first(), '.').map_values(|part: Seq<char>| part_number(part))
}

/// Whether every part of the version can lose its last character: the string starts with `v`,
/// and no part after it is empty or ends in a character that takes more than one byte.
pub open spec fn version_is_sliceable(version: Seq<char>) -> bool {
    &&& version.len() >= 2
    &&& version[0] == 'v'
    &&& forall|i: int|
        1 <= i < version.len() && #[trigger] version[i] == '.' ==> i >= 2 && version[i - 1] != '.'
            && (version[i - 1] as u32) < 0x80
    &&& version.last() != '.'
    &&& (version.last() as u32) < 0x80
}

/// The check: three numbers, the first two those of this renderer's format, and the third one
/// that parsed.
pub open spec fn spec_is_correct_version(version: Seq<char>) -> bool {
    let numbers = version_numbers(version);
    &&& numbers.len() == 3
    &&& numbers[0] == CONFIG_VERSION_TRIPLE.0
    &&& numbers[1] == CONFIG_VERSION_TRIPLE.1
    &&& numbers[2] != u32::MAX
}

proof fn lemma_digits_value_grows(d: Seq<char>, k: int)
    requires
        0 <= k <= d.len(),
        all_digits(d),
    ensures
        digits_value(d.take(k)) <= digits_value(d),
    decreases d.len() - k,
{
    if k < d.len() {
        lemma_digits_value_grows(d, k + 1);
        assert(d.take(k + 1).drop_last() =~= d.take(k));
        assert(is_digit(d[k]));
    } else {
        assert(d.take(k) =~= d);
    }
}

/// `u32`'s `FromStr` on the characters `s[from..to]`.
pub(crate) fn parse_part(s: &str, from: usize, to: usize) -> (n: Option<u32>)
    requires
        from <= to <= s@.len(),
    ensures
        n == parse_u32(s@.subrange(from as int, to as int)),
{
    let ghost p = s@.subrange(from as int, to as int);
    let mut start = from;
    if from < to && s.get_char(from) == '+' {
        start = from + 1;
    }
    let ghost d = s@.subrange(start as int, to as int);
    assert(d =~= without_plus(p));
    if start == to {
        return None;
    }
    let mut value: u64 = 0;
    let mut i: usize = start;
    while i < to
        invariant
            from <= start <= i <= to <= s@.len(),
            d == s@.subrange(start as int, to as int),
            p == s@.subrange(from as int, to as int),
            d == without_plus(p),
            forall|j: int| 0 <= j < i - start ==> is_digit(#[trigger] d[j]),
            value == digits_value(d.take(i - start)),
            value <= u32::MAX,
        decreases to - i,
    {
        let c = s.get_char(i);
        if !('0' <= c && c <= '9') {
            assert(!is_digit(d[i - start]));
            return None;
        }
        let digit = (c as u32 - '0' as u32) as u64;
        assert(d.take(i - start + 1).drop_last() =~= d.take(i - start));
        value = value * 10 + digit;
        i = i + 1;
        if value > 0xffff_ffff {
            proof {
                if all_digits(d) {
                    lemma_digits_value_grows(d, i - start);
                }
            }
            return None;
        }
    }
    assert(d.take(to - start) =~= d);
    Some(value as u32)
}

impl ShaderPackConfig {
    /// Returns true if the version has three numbers, the first two (major and minor) are this
    /// renderer's and the third parsed; every part loses its last character before it is parsed.
    /// Each part after the leading `v` must have a last character to lose, one byte long.
    pub fn is_correct_version(&self) -> (ok: bool)
        requires
            version_is_sliceable(self.version@),
        ensures
            ok == spec_is_correct_version(self.version@),
    {
        let s = self.version.as_str();
        let n = s.unicode_len();
        let ghost rest = s@.drop_first();
        let mut numbers: Vec<u32> = Vec::new();
        let ghost mut done: Seq<Seq<char>> = Seq::empty();
        let mut start: usize = 1;
        let mut i: usize = 1;
        proof {
            assert(rest.take(0) =~= Seq::<char>::empty());
            assert(s@.subrange(1, 1) =~= Seq::<char>::empty());
        }
        while i < n
            invariant
                n == s@.len(),
                s@ == self.version@,
                version_is_sliceable(s@),
                rest == s@.drop_first(),
                1 <= start <= i <= n,
                start == 1 || s@[start - 1] == '.',
                forall|j: int| start <= j < i ==> s@[j] != '.',
                split_on(rest.take(i - 1), '.') == done.push(s@.subrange(start as int, i as int)),
                numbers@ == done.map_values(|part: Seq<char>| part_number(part)),
            decreases n - i,
        {
            let c = s.get_char(i);
            proof {
                lemma_split_on_step(rest, '.', i - 1);
                assert(rest[i - 1] == c);
            }
            if c == '.' {
                assert(i >= 2 && s@[i - 1] != '.' && (s@[i - 1] as u32) < 0x80);
                assert(start < i);
                let value = parse_part(s, start, i - 1);
                let number = match value {
                    Some(v) => v,
                    None => u32::MAX,
                };
                let ghost part = s@.subrange(start as int, i as int);
                assert(part.drop_last() =~= s@.subrange(start as int, i - 1));
                numbers.push(number);
                proof {
                    done = done.push(part);
                    assert(numbers@ =~= done.map_values(|part: Seq<char>| part_number(part)));
                    assert(s@.subrange(i + 1, i + 1) =~= Seq::<char>::empty());
                }
                start = i + 1;
            } else {
                assert(s@.subrange(start as int, i + 1) =~= s@.subrange(start as int, i as int).push(
                    c,
                ));
                assert(done.push(s@.subrange(start as int, i as int)).update(
                    done.len() as int,
                    s@.subrange(start as int, i as int).push(c),
                ) =~= done.push(s@.subrange(start as int, i + 1)));
            }
            i = i + 1;
        }
        assert(rest.take(n - 1) =~= rest);
        assert(start < n) by {
            if start == n {
                assert(s@[n - 1] == '.');
            }
        }
        let value = parse_part(s, start, n - 1);
        let number = match value {
            Some(v) => v,
            None => u32::MAX,
        };
        let ghost part = s@.subrange(start as int, n as int);
        assert(part.drop_last() =~= s@.subrange(start as int, n - 1));
        numbers.push(number);
        proof {
            assert(numbers@ =~= done.push(part).map_values(|part: Seq<char>| part_number(part)));
        }
        numbers.len() == 3 && numbers[0] == CONFIG_VERSION_TRIPLE.0 && numbers[1]
            == CONFIG_VERSION_TRIPLE.1 && numbers[2] != u32::MAX
    }
}

} // verus!
