//! How the adapter introduces itself: the four lines the F3 overlay shows in place of the OpenGL
//! driver strings.

use vstd::prelude::*;
use crate::text::{push_char, push_chars, spec_digit, digit};

verus! {

/// The graphics API an adapter is driven through.
#[derive(Clone, Copy, Debug, PartialEq, Eq, Structural)]
pub enum Backend {
    Vulkan,
    Dx12,
    Metal,
    Gl,
    BrowserWebGpu,
    Noop,
}

/// What the renderer reads of the adapter it runs on.
pub struct AdapterInfo {
    /// The PCI vendor id the driver reports.
    pub vendor: u32,
    /// The adapter's own name.
    pub name: String,
    pub backend: Backend,
    /// The driver's name, or its version on some backends.
    pub driver: String,
    /// More about the driver, often its version; empty on some backends.
    pub driver_info: String,
}

/// The name a listed PCI vendor id goes by; empty for an id that is not listed.
pub open spec fn spec_vendor_name(vendor: u32) -> Seq<char> {
    if vendor == 0x10DE {
        "NVIDIA"@
    } else if vendor == 0x1002 || vendor == 0x1022 {
        "AMD"@
    } else if vendor == 0x8086 || vendor == 0x8087 {
        "Intel"@
    } else if vendor == 0x106B {
        "Apple"@
    } else if vendor == 0x13B5 {
        "ARM"@
    } else if vendor == 0x5143 {
        "Qualcomm"@
    } else if vendor == 0x1010 {
        "Imagination Technologies"@
    } else if vendor == 0x1AE0 {
        "Google"@
    } else {
        ""@
    }
}

/// PCI vendor ids, as the names the drivers use for themselves; an id that is not listed is
/// empty, and the caller falls back to printing the number.
pub fn vendor_name(vendor: u32) -> (name: &'static str)
    ensures
        name@ == spec_vendor_name(vendor),
{
    if vendor == 0x10DE {
        "NVIDIA"
    } else if vendor == 0x1002 || vendor == 0x1022 {
        "AMD"
    } else if vendor == 0x8086 || vendor == 0x8087 {
        "Intel"
    } else if vendor == 0x106B {
        "Apple"
    } else if vendor == 0x13B5 {
        "ARM"
    } else if vendor == 0x5143 {
        "Qualcomm"
    } else if vendor == 0x1010 {
        "Imagination Technologies"
    } else if vendor == 0x1AE0 {
        "Google"
    } else {
        ""
    }
}

/// The API's own name.
pub open spec fn spec_backend_name(backend: Backend) -> Seq<char> {
    match backend {
        Backend::Vulkan => "Vulkan"@,
        Backend::Dx12 => "DirectX 12"@,
        Backend::Metal => "Metal"@,
        Backend::Gl => "OpenGL"@,
        Backend::BrowserWebGpu => "WebGPU"@,
        Backend::Noop => "no backend"@,
    }
}

/// The API's own name, rather than the identifier the backend goes by in code.
pub fn backend_name(backend: Backend) -> (name: &'static str)
    ensures
        name@ == spec_backend_name(backend),
{
    match backend {
        Backend::Vulkan => "Vulkan",
        Backend::Dx12 => "DirectX 12",
        Backend::Metal => "Metal",
        Backend::Gl => "OpenGL",
        Backend::BrowserWebGpu => "WebGPU",
        Backend::Noop => "no backend",
    }
}

/// Whether `c` has the Unicode `White_Space` property.
pub open spec fn is_whitespace(c: char) -> bool {
    ||| '\u{9}' <= c <= '\u{d}'
    ||| c == ' '
    ||| c == '\u{85}'
    ||| c == '\u{a0}'
    ||| c == '\u{1680}'
    ||| '\u{2000}' <= c <= '\u{200a}'
    ||| c == '\u{2028}'
    ||| c == '\u{2029}'
    ||| c == '\u{202f}'
    ||| c == '\u{205f}'
    ||| c == '\u{3000}'
}

/// `s` without its leading whitespace.
pub open spec fn trim_start(s: Seq<char>) -> Seq<char>
    decreases s.len(),
{
    if s.len() > 0 && is_whitespace(s[0]) {
        trim_start(s.drop_first())
    } else {
        s
    }
}

/// `s` without its trailing whitespace.
pub open spec fn trim_end(s: Seq<char>) -> Seq<char>
    decreases s.len(),
{
    if s.len() > 0 && is_whitespace(s.last()) {
        trim_end(s.drop_last())
    } else {
        s
    }
}

/// `s` without leading and trailing whitespace.
pub open spec fn trim(s: Seq<char>) -> Seq<char> {
    trim_end(trim_start(s))
}

/// The hexadecimal digits of `n`, lower case, without leading zeros.
pub open spec fn hex_digits(n: nat) -> Seq<char>
    decreases n,
{
    if n < 16 {
        seq![spec_digit(n as int)]
    } else {
        hex_digits(n / 16).push(spec_digit((n % 16) as int))
    }
}

/// `n` in lower-case hexadecimal, padded with zeros to at least four digits.
pub open spec fn hex_min4(n: nat) -> Seq<char> {
    let digits = hex_digits(n);
    if digits.len() < 4 {
        Seq::new((4 - digits.len()) as nat, |i: int| '0') + digits
    } else {
        digits
    }
}

/// The first line: the vendor's name, or its id where the id is not listed.
pub open spec fn vendor_line(vendor: u32) -> Seq<char> {
    if spec_vendor_name(vendor).len() == 0 {
        "vendor 0x"@ + hex_min4(vendor as nat)
    } else {
        spec_vendor_name(vendor)
    }
}

/// `s` on one line: every line feed and carriage return becomes a space.
pub open spec fn one_line(s: Seq<char>) -> Seq<char> {
    s.map_values(|c: char| if c == '\n' || c == '\r' { ' ' } else { c })
}

/// A field as a line shows it: on one line, without leading and trailing whitespace.
pub open spec fn field(s: Seq<char>) -> Seq<char> {
    trim(one_line(s))
}

/// The second line: the adapter's own name as it reports it, on one line, or "unknown adapter"
/// where the name is empty.
pub open spec fn name_line(name: Seq<char>) -> Seq<char> {
    if name.len() == 0 {
        "unknown adapter"@
    } else {
        one_line(name)
    }
}

/// The last line: the driver and its version, the non-empty ones of the two fields joined by a
/// space, or "unknown driver" where both are blank.
pub open spec fn driver_line(driver: Seq<char>, driver_info: Seq<char>) -> Seq<char> {
    let a = field(driver);
    let b = field(driver_info);
    if a.len() == 0 && b.len() == 0 {
        "unknown driver"@
    } else if a.len() == 0 {
        b
    } else if b.len() == 0 {
        a
    } else {
        a + seq![' '] + b
    }
}

/// The four lines, joined by newlines: vendor, adapter name, API, driver.
pub open spec fn spec_adapter_description(info: AdapterInfo) -> Seq<char> {
    vendor_line(info.vendor) + seq!['\n'] + name_line(info.name@) + seq!['\n']
        + spec_backend_name(info.backend) + seq!['\n'] + driver_line(info.driver@, info.driver_info@)
}

/// A line as the overlay needs it: not empty, and not broken over two.
pub open spec fn is_line(l: Seq<char>) -> bool {
    l.len() > 0 && !l.contains('\n')
}

/// Appends the hexadecimal digits of `n` to `out`.
fn push_hex_digits(n: u32, out: &mut Vec<char>)
    ensures
        final(out)@ == old(out)@ + hex_digits(n as nat),
    decreases n,
{
    if n >= 16 {
        push_hex_digits(n / 16, out);
    }
    let d = digit((n % 16) as u64);
    out.push(d);
    assert(final(out)@ =~= old(out)@ + hex_digits(n as nat));
}

/// Appends every character of `s` to `out`.
fn push_str(s: &str, out: &mut String)
    ensures
        final(out)@ == old(out)@ + s@,
{
    let n = s.unicode_len();
    let mut i: usize = 0;
    while i < n
        invariant
            n == s@.len(),
            i <= n,
            out@ == old(out)@ + s@.take(i as int),
        decreases n - i,
    {
        let c = s.get_char(i);
        push_char(out, c);
        assert(s@.take(i as int + 1) =~= s@.take(i as int).push(c));
        i = i + 1;
    }
    assert(s@.take(n as int) =~= s@);
}

proof fn lemma_trim_start_is_suffix(s: Seq<char>)
    ensures
        exists|k: int| 0 <= k <= s.len() && trim_start(s) == s.subrange(k, s.len() as int) && (
        forall|j: int| 0 <= j < k ==> is_whitespace(#[trigger] s[j])) && (k < s.len()
            ==> !is_whitespace(s[k])),
    decreases s.len(),
{
    if s.len() > 0 && is_whitespace(s[0]) {
        lemma_trim_start_is_suffix(s.drop_first());
        let t = s.drop_first();
        let k = choose|k: int|
            0 <= k <= t.len() && trim_start(t) == t.subrange(k, t.len() as int) && (forall|j: int|
                0 <= j < k ==> is_whitespace(#[trigger] t[j])) && (k < t.len() ==> !is_whitespace(
                t[k],
            ));
        assert(t.subrange(k, t.len() as int) =~= s.subrange(k + 1, s.len() as int));
        assert forall|j: int| 0 <= j < k + 1 implies is_whitespace(#[trigger] s[j]) by {
            if j > 0 {
                assert(s[j] == t[j - 1]);
            }
        }
        assert(k + 1 < s.len() ==> s[k + 1] == t[k]);
    } else {
        assert(s.subrange(0, s.len() as int) =~= s);
    }
}

proof fn lemma_trim_end_is_prefix(s: Seq<char>)
    ensures
        exists|k: int| 0 <= k <= s.len() && trim_end(s) == s.subrange(0, k) && (forall|j: int|
            k <= j < s.len() ==> is_whitespace(#[trigger] s[j])) && (k > 0 ==> !is_whitespace(
            s[k - 1],
        )),
    decreases s.len(),
{
    if s.len() > 0 && is_whitespace(s.last()) {
        lemma_trim_end_is_prefix(s.drop_last());
        let t = s.drop_last();
        let k = choose|k: int|
            0 <= k <= t.len() && trim_end(t) == t.subrange(0, k) && (forall|j: int|
                k <= j < t.len() ==> is_whitespace(#[trigger] t[j])) && (k > 0 ==> !is_whitespace(
                t[k - 1],
            ));
        assert(t.subrange(0, k) =~= s.subrange(0, k));
        assert forall|j: int| k <= j < s.len() implies is_whitespace(#[trigger] s[j]) by {
            if j < s.len() - 1 {
                assert(s[j] == t[j]);
            }
        }
    } else {
        assert(s.subrange(0, s.len() as int) =~= s);
    }
}

/// `trim(s)` is the stretch of `s` from its first to its last character that is not whitespace.
proof fn lemma_trim_bounds(s: Seq<char>, start: int, end: int)
    requires
        0 <= start <= end <= s.len(),
        forall|j: int| 0 <= j < start ==> is_whitespace(#[trigger] s[j]),
        forall|j: int| end <= j < s.len() ==> is_whitespace(#[trigger] s[j]),
        start < end ==> !is_whitespace(s[start]) && !is_whitespace(s[end - 1]),
        start == end ==> end == s.len(),
    ensures
        trim(s) == s.subrange(start, end),
{
    lemma_trim_start_is_suffix(s);
    let k = choose|k: int|
        0 <= k <= s.len() && trim_start(s) == s.subrange(k, s.len() as int) && (forall|j: int|
            0 <= j < k ==> is_whitespace(#[trigger] s[j])) && (k < s.len() ==> !is_whitespace(
            s[k],
        ));
    assert(k == start) by {
        if k < start {
            assert(is_whitespace(s[k]));
        }
        if k > start {
            assert(is_whitespace(s[start]));
            if start == end {
                assert(end == s.len());
            }
        }
    }
    let u = s.subrange(start, s.len() as int);
    lemma_trim_end_is_prefix(u);
    let m = choose|m: int|
        0 <= m <= u.len() && trim_end(u) == u.subrange(0, m) && (forall|j: int|
            m <= j < u.len() ==> is_whitespace(#[trigger] u[j])) && (m > 0 ==> !is_whitespace(
            u[m - 1],
        ));
    assert(m == end - start) by {
        if m < end - start {
            assert(u[end - start - 1] == s[end - 1]);
            assert(is_whitespace(u[end - start - 1]));
        }
        if m > end - start {
            assert(u[m - 1] == s[start + m - 1]);
            assert(is_whitespace(s[start + m - 1]));
        }
    }
    assert(u.subrange(0, m) =~= s.subrange(start, end));
}

/// Whether `c` has the Unicode `White_Space` property.
fn whitespace(c: char) -> (b: bool)
    ensures
        b == is_whitespace(c),
{
    ('\u{9}' <= c && c <= '\u{d}') || c == ' ' || c == '\u{85}' || c == '\u{a0}' || c
        == '\u{1680}' || ('\u{2000}' <= c && c <= '\u{200a}') || c == '\u{2028}' || c
        == '\u{2029}' || c == '\u{202f}' || c == '\u{205f}' || c == '\u{3000}'
}

/// The characters of `s` without leading and trailing whitespace.
pub fn trimmed(s: &str) -> (t: Vec<char>)
    ensures
        t@ == trim(s@),
{
    let n = s.unicode_len();
    let mut start: usize = 0;
    while start < n && whitespace(s.get_char(start))
        invariant
            n == s@.len(),
            start <= n,
            forall|j: int| 0 <= j < start ==> is_whitespace(#[trigger] s@[j]),
        decreases n - start,
    {
        start = start + 1;
    }
    let mut end: usize = n;
    while end > start && whitespace(s.get_char(end - 1))
        invariant
            n == s@.len(),
            start <= end <= n,
            forall|j: int| end <= j < n ==> is_whitespace(#[trigger] s@[j]),
        decreases end,
    {
        end = end - 1;
    }
    proof {
        if start == end && end < n {
            assert(!is_whitespace(s@[start as int]));
            assert(is_whitespace(s@[end as int]));
        }
        lemma_trim_bounds(s@, start as int, end as int);
    }
    let mut t: Vec<char> = Vec::new();
    let mut i: usize = start;
    while i < end
        invariant
            n == s@.len(),
            start <= i <= end <= n,
            t@ == s@.subrange(start as int, i as int),
        decreases end - i,
    {
        t.push(s.get_char(i));
        assert(t@ =~= s@.subrange(start as int, i as int + 1));
        i = i + 1;
    }
    t
}

/// The characters of `s` on one line: every line feed and carriage return becomes a space.
pub fn one_line_chars(s: &str) -> (v: Vec<char>)
    ensures
        v@ == one_line(s@),
{
    let n = s.unicode_len();
    let mut v: Vec<char> = Vec::new();
    let mut i: usize = 0;
    while i < n
        invariant
            n == s@.len(),
            i <= n,
            v@ == one_line(s@).take(i as int),
        decreases n - i,
    {
        let c = s.get_char(i);
        let d = if c == '\n' || c == '\r' {
            ' '
        } else {
            c
        };
        v.push(d);
        assert(v@ =~= one_line(s@).take(i as int + 1));
        i = i + 1;
    }
    assert(v@ =~= one_line(s@));
    v
}

/// The characters of `s` on one line and without leading and trailing whitespace.
pub fn single_line(s: &str) -> (t: Vec<char>)
    ensures
        t@ == field(s@),
{
    let v = one_line_chars(s);
    trim_chars(&v)
}

/// `v` without leading and trailing whitespace.
fn trim_chars(v: &Vec<char>) -> (t: Vec<char>)
    ensures
        t@ == trim(v@),
{
    let n = v.len();
    let mut start: usize = 0;
    while start < n && whitespace(v[start])
        invariant
            n == v@.len(),
            start <= n,
            forall|j: int| 0 <= j < start ==> is_whitespace(#[trigger] v@[j]),
        decreases n - start,
    {
        start = start + 1;
    }
    let mut end: usize = n;
    while end > start && whitespace(v[end - 1])
        invariant
            n == v@.len(),
            start <= end <= n,
            forall|j: int| end <= j < n ==> is_whitespace(#[trigger] v@[j]),
        decreases end,
    {
        end = end - 1;
    }
    proof {
        if start == end && end < n {
            assert(!is_whitespace(v@[start as int]));
            assert(is_whitespace(v@[end as int]));
        }
        lemma_trim_bounds(v@, start as int, end as int);
    }
    let mut t: Vec<char> = Vec::new();
    let mut i: usize = start;
    while i < end
        invariant
            n == v@.len(),
            start <= i <= end <= n,
            t@ == v@.subrange(start as int, i as int),
        decreases end - i,
    {
        t.push(v[i]);
        assert(t@ =~= v@.subrange(start as int, i as int + 1));
        i = i + 1;
    }
    t
}

/// Every character of `trim(s)` is a character of `s`.
proof fn lemma_trim_within(s: Seq<char>)
    ensures
        forall|j: int| 0 <= j < trim(s).len() ==> s.contains(#[trigger] trim(s)[j]),
{
    lemma_trim_start_is_suffix(s);
    let k = choose|k: int|
        0 <= k <= s.len() && trim_start(s) == s.subrange(k, s.len() as int) && (forall|j: int|
            0 <= j < k ==> is_whitespace(#[trigger] s[j])) && (k < s.len() ==> !is_whitespace(
            s[k],
        ));
    let u = trim_start(s);
    lemma_trim_end_is_prefix(u);
    let m = choose|m: int|
        0 <= m <= u.len() && trim_end(u) == u.subrange(0, m) && (forall|j: int|
            m <= j < u.len() ==> is_whitespace(#[trigger] u[j])) && (m > 0 ==> !is_whitespace(
            u[m - 1],
        ));
    assert forall|j: int| 0 <= j < trim(s).len() implies s.contains(#[trigger] trim(s)[j]) by {
        assert(trim(s)[j] == s[k + j]);
    }
}

/// A string put on one line has no line feed in it.
proof fn lemma_one_line_unbroken(s: Seq<char>)
    ensures
        !one_line(s).contains('\n'),
{
    if one_line(s).contains('\n') {
        let j = choose|j: int| 0 <= j < one_line(s).len() && one_line(s)[j] == '\n';
        assert(one_line(s)[j] != '\n');
    }
}

/// A field has no line feed in it.
proof fn lemma_field_unbroken(s: Seq<char>)
    ensures
        !field(s).contains('\n'),
{
    lemma_trim_within(one_line(s));
    if field(s).contains('\n') {
        let j = choose|j: int| 0 <= j < field(s).len() && field(s)[j] == '\n';
        assert(one_line(s).contains(field(s)[j]));
        let i = choose|i: int| 0 <= i < one_line(s).len() && one_line(s)[i] == field(s)[j];
        assert(one_line(s)[i] != '\n');
    }
}

/// The hexadecimal digits of a number are not a line feed.
proof fn lemma_hex_unbroken(n: nat)
    ensures
        !hex_digits(n).contains('\n'),
    decreases n,
{
    if n >= 16 {
        lemma_hex_unbroken(n / 16);
        let h = hex_digits(n);
        if h.contains('\n') {
            let j = choose|j: int| 0 <= j < h.len() && h[j] == '\n';
            if j < h.len() - 1 {
                assert(hex_digits(n / 16)[j] == '\n');
            }
        }
    }
}

/// The description is four lines in this order, none of them empty: the vendor, the adapter's
/// name, the API and the driver, each on a line of its own.
pub proof fn lemma_four_lines(info: AdapterInfo)
    ensures
        spec_adapter_description(info) == vendor_line(info.vendor) + seq!['\n'] + name_line(
            info.name@,
        ) + seq!['\n'] + spec_backend_name(info.backend) + seq!['\n'] + driver_line(
            info.driver@,
            info.driver_info@,
        ),
        is_line(vendor_line(info.vendor)),
        is_line(name_line(info.name@)),
        is_line(spec_backend_name(info.backend)),
        is_line(driver_line(info.driver@, info.driver_info@)),
{
    reveal_strlit("NVIDIA");
    reveal_strlit("AMD");
    reveal_strlit("Intel");
    reveal_strlit("Apple");
    reveal_strlit("ARM");
    reveal_strlit("Qualcomm");
    reveal_strlit("Imagination Technologies");
    reveal_strlit("Google");
    reveal_strlit("");
    reveal_strlit("vendor 0x");
    reveal_strlit("Vulkan");
    reveal_strlit("DirectX 12");
    reveal_strlit("Metal");
    reveal_strlit("OpenGL");
    reveal_strlit("WebGPU");
    reveal_strlit("no backend");
    reveal_strlit("unknown adapter");
    reveal_strlit("unknown driver");
    lemma_hex_unbroken(info.vendor as nat);
    lemma_one_line_unbroken(info.name@);
    lemma_field_unbroken(info.driver@);
    lemma_field_unbroken(info.driver_info@);
    let v = vendor_line(info.vendor);
    if v.contains('\n') {
        let j = choose|j: int| 0 <= j < v.len() && v[j] == '\n';
        if spec_vendor_name(info.vendor).len() == 0 {
            let digits = hex_digits(info.vendor as nat);
            let h = hex_min4(info.vendor as nat);
            if j >= 9 {
                assert(h[j - 9] == '\n');
                if digits.len() < 4 {
                    let pad = 4 - digits.len();
                    if j - 9 >= pad {
                        assert(digits[j - 9 - pad] == '\n');
                    }
                } else {
                    assert(digits[j - 9] == '\n');
                }
            }
        }
    }
    let a = field(info.driver@);
    let b = field(info.driver_info@);
    let d = driver_line(info.driver@, info.driver_info@);
    if a.len() > 0 && b.len() > 0 && d.contains('\n') {
        let j = choose|j: int| 0 <= j < d.len() && d[j] == '\n';
        if j < a.len() {
            assert(a[j] == '\n');
        } else if j > a.len() {
            assert(b[j - a.len() - 1] == '\n');
        }
    }
}

/// How the adapter introduces itself, one field per line: the vendor, named from the PCI id (or
/// `vendor 0x` and the id in at least four hexadecimal digits where it is not listed); the
/// adapter's own name as it reports it, or `unknown adapter` where it is empty; the API it is
/// driven through; and the driver, the non-empty ones of its two fields, trimmed, joined by a
/// space, or `unknown driver` where both are blank. A line break in the name or in a driver field
/// becomes a space, so that there are four lines and none is empty.
pub fn get_adapter_description(info: &AdapterInfo) -> (description: String)
    ensures
        description@ == spec_adapter_description(*info),
{
    let mut out = String::new();
    let name = vendor_name(info.vendor);
    if name.unicode_len() == 0 {
        push_str("vendor 0x", &mut out);
        let mut digits: Vec<char> = Vec::new();
        push_hex_digits(info.vendor, &mut digits);
        let ghost hex = hex_digits(info.vendor as nat);
        assert(digits@ =~= hex);
        if digits.len() < 4 {
            let mut zeros: Vec<char> = Vec::new();
            let pad = 4 - digits.len();
            while zeros.len() < pad
                invariant
                    pad <= 4,
                    zeros.len() <= pad,
                    zeros@ =~= Seq::new(zeros.len() as nat, |i: int| '0'),
                decreases pad - zeros.len(),
            {
                zeros.push('0');
            }
            push_chars(&zeros, &mut out);
        }
        push_chars(&digits, &mut out);
        proof {
            reveal_strlit("vendor 0x");
            assert(out@ =~= "vendor 0x"@ + hex_min4(info.vendor as nat));
        }
    } else {
        push_str(name, &mut out);
    }
    assert(out@ =~= vendor_line(info.vendor));
    push_char(&mut out, '\n');
    let ghost before_name = out@;
    let name = one_line_chars(info.name.as_str());
    if name.len() == 0 {
        push_str("unknown adapter", &mut out);
    } else {
        push_chars(&name, &mut out);
    }
    assert(out@ =~= before_name + name_line(info.name@));
    push_char(&mut out, '\n');
    push_str(backend_name(info.backend), &mut out);
    push_char(&mut out, '\n');
    let ghost head = out@;
    let driver = single_line(info.driver.as_str());
    let driver_info = single_line(info.driver_info.as_str());
    if driver.len() == 0 && driver_info.len() == 0 {
        push_str("unknown driver", &mut out);
    } else if driver.len() == 0 {
        push_chars(&driver_info, &mut out);
    } else if driver_info.len() == 0 {
        push_chars(&driver, &mut out);
    } else {
        push_chars(&driver, &mut out);
        push_char(&mut out, ' ');
        push_chars(&driver_info, &mut out);
    }
    assert(out@ =~= head + driver_line(info.driver@, info.driver_info@));
    assert(out@ =~= spec_adapter_description(*info));
    out
}

} // verus!
