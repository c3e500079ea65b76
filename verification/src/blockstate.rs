//! Blockstate variant keys: reading a variant's id (`facing=north,lit=true`) into its properties,
//! writing properties back as such a key, and finding the variant a block's properties select.

use vstd::prelude::*;
use crate::lookup::lookup;
use crate::text::{lemma_split_on_step, push_char, split_on};

verus! {

/// The value of one blockstate property.
#[derive(Debug)]
pub enum StateValue {
    Bool(bool),
    String(String),
}

/// A property value as plain values.
pub enum StateValueView {
    Bool(bool),
    Text(Seq<char>),
}

impl View for StateValue {
    type V = StateValueView;

    open spec fn view(&self) -> StateValueView {
        match self {
            StateValue::Bool(b) => StateValueView::Bool(*b),
            StateValue::String(s) => StateValueView::Text(s@),
        }
    }
}

/// A list of properties as plain values.
pub open spec fn key_view(key: Seq<(String, StateValue)>) -> Seq<(Seq<char>, StateValueView)> {
    key.map_values(|p: (String, StateValue)| (p.0@, p.1@))
}

/// The text a value is written as.
pub open spec fn value_text(v: StateValueView) -> Seq<char> {
    match v {
        StateValueView::Bool(b) => if b {
            "true"@
        } else {
            "false"@
        },
        StateValueView::Text(t) => t,
    }
}

/// What a value written as `text` is: `true` and `false` are booleans, anything else is text.
pub open spec fn value_of(text: Seq<char>) -> StateValueView {
    if text == "true"@ {
        StateValueView::Bool(true)
    } else if text == "false"@ {
        StateValueView::Bool(false)
    } else {
        StateValueView::Text(text)
    }
}

/// The index of the first `c` in `s`, or the length of `s` where there is none.
pub open spec fn index_of_char(s: Seq<char>, c: char) -> int
    decreases s.len(),
{
    if s.len() == 0 {
        0
    } else if s[0] == c {
        0
    } else {
        1 + index_of_char(s.drop_first(), c)
    }
}

/// One `name=value` part: the name up to the first `=`, the value up to the next `=` or the end.
pub open spec fn property_of(part: Seq<char>) -> (Seq<char>, StateValueView) {
    let e = index_of_char(part, '=');
    let rest = part.skip(e + 1);
    (part.take(e), value_of(rest.take(index_of_char(rest, '='))))
}

/// The non-empty ones of `parts`, in order.
pub open spec fn non_empty(parts: Seq<Seq<char>>) -> Seq<Seq<char>>
    decreases parts.len(),
{
    if parts.len() == 0 {
        parts
    } else if parts.last().len() > 0 {
        non_empty(parts.drop_last()).push(parts.last())
    } else {
        non_empty(parts.drop_last())
    }
}

/// The properties a variant's id names: its comma-separated parts, empty ones skipped, in order.
pub open spec fn spec_variant_key(id: Seq<char>) -> Seq<(Seq<char>, StateValueView)> {
    non_empty(split_on(id, ',')).map_values(|p: Seq<char>| property_of(p))
}

/// Whether every non-empty comma-separated part of `id` has an `=` in it.
pub open spec fn variant_id_readable(id: Seq<char>) -> bool {
    forall|k: int|
        0 <= k < split_on(id, ',').len() && (#[trigger] split_on(id, ',')[k]).len() > 0
            ==> split_on(id, ',')[k].contains('=')
}

pub(crate) proof fn lemma_index_of_char(s: Seq<char>, c: char, k: int)
    requires
        0 <= k <= s.len(),
        forall|j: int| 0 <= j < k ==> s[j] != c,
        k < s.len() ==> s[k] == c,
    ensures
        index_of_char(s, c) == k,
    decreases k,
{
    if k > 0 {
        lemma_index_of_char(s.drop_first(), c, k - 1);
    }
}

/// The parts of a prefix of `s`: all but its last are parts of `s`, and so is its last where a
/// separator follows the prefix.
proof fn lemma_split_prefix(s: Seq<char>, sep: char, j: int)
    requires
        0 <= j <= s.len(),
    ensures
        ({
            let a = split_on(s.take(j), sep);
            let b = split_on(s, sep);
            &&& 1 <= a.len() <= b.len()
            &&& forall|k: int| 0 <= k < a.len() - 1 ==> #[trigger] b[k] == a[k]
            &&& j < s.len() && s[j] == sep ==> b.len() > a.len() && b[a.len() - 1] == a.last()
            &&& j == s.len() ==> b == a
        }),
    decreases s.len(),
{
    let a = split_on(s.take(j), sep);
    if j == s.len() {
        assert(s.take(j) =~= s);
        lemma_split_len(s, sep);
    } else {
        let t = s.drop_last();
        assert(t.take(j) =~= s.take(j));
        lemma_split_prefix(t, sep, j);
        lemma_split_len(t, sep);
        let b1 = split_on(t, sep);
        let b = split_on(s, sep);
        if j == t.len() {
            assert(t =~= s.take(j));
        }
        assert forall|k: int| 0 <= k < a.len() - 1 implies #[trigger] b[k] == a[k] by {
            assert(b1[k] == a[k]);
        }
    }
}

proof fn lemma_split_len(s: Seq<char>, sep: char)
    ensures
        split_on(s, sep).len() >= 1,
    decreases s.len(),
{
    if s.len() > 0 {
        lemma_split_len(s.drop_last(), sep);
    }
}

/// Whether the characters `chars[from..to]` are the word `word`.
fn is_word(chars: &Vec<char>, word: &str) -> (r: bool)
    ensures
        r == (chars@ == word@),
{
    let n = word.unicode_len();
    if chars.len() != n {
        return false;
    }
    let mut i: usize = 0;
    while i < n
        invariant
            n == word@.len(),
            chars@.len() == n,
            i <= n,
            forall|j: int| 0 <= j < i ==> chars@[j] == word@[j],
        decreases n - i,
    {
        if chars[i] != word.get_char(i) {
            return false;
        }
        i = i + 1;
    }
    assert(chars@ =~= word@);
    true
}

/// The characters `s[from..to]`.
fn chars_of(s: &str, from: usize, to: usize) -> (chars: Vec<char>)
    requires
        from <= to <= s@.len(),
    ensures
        chars@ == s@.subrange(from as int, to as int),
{
    let mut chars: Vec<char> = Vec::new();
    let mut i = from;
    while i < to
        invariant
            from <= i <= to <= s@.len(),
            chars@ == s@.subrange(from as int, i as int),
        decreases to - i,
    {
        chars.push(s.get_char(i));
        assert(chars@ =~= s@.subrange(from as int, i as int + 1));
        i = i + 1;
    }
    chars
}

/// A string holding `chars`.
fn string_of(chars: &Vec<char>) -> (s: String)
    ensures
        s@ == chars@,
{
    let mut s = String::new();
    let mut i: usize = 0;
    while i < chars.len()
        invariant
            i <= chars.len(),
            s@ == chars@.take(i as int),
        decreases chars.len() - i,
    {
        push_char(&mut s, chars[i]);
        assert(chars@.take(i as int + 1) =~= chars@.take(i as int).push(chars@[i as int]));
        i = i + 1;
    }
    assert(chars@.take(chars.len() as int) =~= chars@);
    s
}

/// The value written as `text`.
fn value_from(text: &Vec<char>) -> (v: StateValue)
    ensures
        v@ == value_of(text@),
{
    if is_word(text, "true") {
        StateValue::Bool(true)
    } else if is_word(text, "false") {
        StateValue::Bool(false)
    } else {
        StateValue::String(string_of(text))
    }
}

/// The first index in `s[from..to]` that holds `c`, or `to`.
pub(crate) fn find_char(s: &str, c: char, from: usize, to: usize) -> (k: usize)
    requires
        from <= to <= s@.len(),
    ensures
        from <= k <= to,
        forall|j: int| from <= j < k ==> s@[j] != c,
        k < to ==> s@[k as int] == c,
{
    let mut k = from;
    while k < to
        invariant
            from <= k <= to <= s@.len(),
            forall|j: int| from <= j < k ==> s@[j] != c,
        decreases to - k,
    {
        if s.get_char(k) == c {
            return k;
        }
        k = k + 1;
    }
    k
}

/// The property the part `s[from..to]` names.
fn property_at(s: &str, from: usize, to: usize) -> (p: (String, StateValue))
    requires
        from <= to <= s@.len(),
        s@.subrange(from as int, to as int).contains('='),
    ensures
        (p.0@, p.1@) == property_of(s@.subrange(from as int, to as int)),
{
    let ghost part = s@.subrange(from as int, to as int);
    let e = find_char(s, '=', from, to);
    assert(e < to) by {
        if e == to {
            let w = choose|w: int| 0 <= w < part.len() && part[w] == '=';
            assert(s@[from + w] == '=');
        }
    }
    proof {
        lemma_index_of_char(part, '=', e - from);
    }
    let f = find_char(s, '=', e + 1, to);
    let ghost rest = part.skip(e - from + 1);
    assert(rest =~= s@.subrange(e + 1, to as int));
    proof {
        lemma_index_of_char(rest, '=', f - e - 1);
    }
    let name = chars_of(s, from, e);
    let text = chars_of(s, e + 1, f);
    assert(name@ =~= part.take(e - from));
    assert(text@ =~= rest.take(f - e - 1));
    (string_of(&name), value_from(&text))
}

proof fn lemma_push_part(
    done: Seq<Seq<char>>,
    part: Seq<char>,
    old_key: Seq<(String, StateValue)>,
    key: Seq<(String, StateValue)>,
)
    requires
        key_view(old_key) == non_empty(done).map_values(|p: Seq<char>| property_of(p)),
        part.len() > 0 ==> key.len() == old_key.len() + 1 && key.drop_last() == old_key && (
        key.last().0@, key.last().1@) == property_of(part),
        part.len() == 0 ==> key == old_key,
    ensures
        key_view(key) == non_empty(done.push(part)).map_values(|p: Seq<char>| property_of(p)),
{
    assert(done.push(part).drop_last() =~= done);
    if part.len() > 0 {
        assert(key_view(key) =~= key_view(old_key).push(property_of(part)));
        assert(non_empty(done).push(part).map_values(|p: Seq<char>| property_of(p)) =~= non_empty(
            done,
        ).map_values(|p: Seq<char>| property_of(p)).push(property_of(part)));
    }
}

/// Reads a variant's id into the properties it names: its comma-separated parts, empty ones
/// skipped, each read as `name=value` with `true` and `false` read as booleans. Every non-empty
/// part must have an `=`.
pub fn variant_key(id: &str) -> (key: Vec<(String, StateValue)>)
    requires
        variant_id_readable(id@),
    ensures
        key_view(key@) == spec_variant_key(id@),
{
    let n = id.unicode_len();
    let mut key: Vec<(String, StateValue)> = Vec::new();
    let ghost mut done: Seq<Seq<char>> = Seq::empty();
    let mut start: usize = 0;
    let mut i: usize = 0;
    proof {
        assert(id@.take(0) =~= Seq::<char>::empty());
        assert(id@.subrange(0, 0) =~= Seq::<char>::empty());
    }
    while i < n
        invariant
            n == id@.len(),
            variant_id_readable(id@),
            start <= i <= n,
            split_on(id@.take(i as int), ',') == done.push(id@.subrange(start as int, i as int)),
            key_view(key@) == non_empty(done).map_values(|p: Seq<char>| property_of(p)),
        decreases n - i,
    {
        let c = id.get_char(i);
        proof {
            lemma_split_on_step(id@, ',', i as int);
        }
        if c == ',' {
            let ghost part = id@.subrange(start as int, i as int);
            proof {
                lemma_split_prefix(id@, ',', i as int);
                let b = split_on(id@, ',');
                let a = split_on(id@.take(i as int), ',');
                assert(b[a.len() - 1] == part);
            }
            let ghost old_key = key@;
            if start < i {
                let p = property_at(id, start, i);
                key.push(p);
                assert(key@.drop_last() =~= old_key);
            }
            proof {
                let before = done;
                done = done.push(part);
                assert(done.drop_last() =~= before);
                lemma_push_part(before, part, old_key, key@);
                assert(id@.subrange(i + 1, i + 1) =~= Seq::<char>::empty());
            }
            start = i + 1;
        } else {
            assert(id@.subrange(start as int, i + 1) =~= id@.subrange(start as int, i as int).push(c));
            assert(done.push(id@.subrange(start as int, i as int)).update(
                done.len() as int,
                id@.subrange(start as int, i as int).push(c),
            ) =~= done.push(id@.subrange(start as int, i + 1)));
        }
        i = i + 1;
    }
    let ghost part = id@.subrange(start as int, n as int);
    proof {
        assert(id@.take(n as int) =~= id@);
        let b = split_on(id@, ',');
        assert(b[b.len() - 1] == part);
    }
    let ghost old_key = key@;
    if start < n {
        let p = property_at(id, start, n);
        key.push(p);
        assert(key@.drop_last() =~= old_key);
    }
    proof {
        let all = done.push(part);
        assert(all.drop_last() =~= done);
        lemma_push_part(done, part, old_key, key@);
    }
    key
}

/// Whether a part of a variant's id can be read: it is empty, or it has an `=`.
pub open spec fn part_readable(part: Seq<char>) -> bool {
    part.len() > 0 ==> part.contains('=')
}

/// Whether [`variant_key`] can read `id`: every non-empty comma-separated part has an `=`.
pub fn variant_id_is_readable(id: &str) -> (r: bool)
    ensures
        r == variant_id_readable(id@),
{
    let n = id.unicode_len();
    let ghost mut done: Seq<Seq<char>> = Seq::empty();
    let mut start: usize = 0;
    let mut has_eq = false;
    let mut i: usize = 0;
    proof {
        assert(id@.take(0) =~= Seq::<char>::empty());
        assert(id@.subrange(0, 0) =~= Seq::<char>::empty());
        lemma_split_len(id@, ',');
    }
    while i < n
        invariant
            n == id@.len(),
            start <= i <= n,
            split_on(id@.take(i as int), ',') == done.push(id@.subrange(start as int, i as int)),
            forall|k: int| 0 <= k < done.len() ==> part_readable(#[trigger] done[k]),
            has_eq == id@.subrange(start as int, i as int).contains('='),
            forall|k: int| 0 <= k < done.len() ==> #[trigger] split_on(id@, ',')[k] == done[k],
            done.len() < split_on(id@, ',').len(),
        decreases n - i,
    {
        let c = id.get_char(i);
        proof {
            lemma_split_on_step(id@, ',', i as int);
            lemma_split_prefix(id@, ',', i as int);
        }
        let ghost part = id@.subrange(start as int, i as int);
        if c == ',' {
            proof {
                let b = split_on(id@, ',');
                let a = split_on(id@.take(i as int), ',');
                assert(b[a.len() - 1] == part);
                lemma_split_prefix(id@, ',', i as int + 1);
            }
            if start < i && !has_eq {
                proof {
                    let b = split_on(id@, ',');
                    assert(b[done.len() as int] == part);
                    assert(!part_readable(b[done.len() as int]));
                }
                return false;
            }
            proof {
                let before = done;
                done = done.push(part);
                assert(done.drop_last() =~= before);
                assert(id@.subrange(i + 1, i + 1) =~= Seq::<char>::empty());
                let b = split_on(id@, ',');
                let a2 = split_on(id@.take(i as int + 1), ',');
                assert(a2 == done.push(Seq::<char>::empty()));
                assert(b.len() >= a2.len());
                assert forall|k: int| 0 <= k < done.len() implies #[trigger] b[k] == done[k] by {
                    if k < before.len() {
                    } else {
                        assert(k == a2.len() - 2);
                        assert(b[k] == a2[k]);
                    }
                }
            }
            start = i + 1;
            has_eq = false;
        } else {
            let ghost next = id@.subrange(start as int, i + 1);
            assert(next =~= part.push(c));
            assert(next.contains('=') == (part.contains('=') || c == '=')) by {
                if part.contains('=') {
                    let j = choose|j: int| 0 <= j < part.len() && part[j] == '=';
                    assert(next[j] == '=');
                }
                if c == '=' {
                    assert(next[next.len() - 1] == '=');
                }
                if next.contains('=') {
                    let j = choose|j: int| 0 <= j < next.len() && next[j] == '=';
                    if j < part.len() {
                        assert(part[j] == '=');
                    }
                }
            }
            assert(done.push(part).update(done.len() as int, part.push(c)) =~= done.push(next));
            if c == '=' {
                has_eq = true;
            }
        }
        i = i + 1;
    }
    let ghost part = id@.subrange(start as int, n as int);
    proof {
        assert(id@.take(n as int) =~= id@);
    }
    let ok = start == n || has_eq;
    proof {
        let b = split_on(id@, ',');
        assert(b == done.push(part));
        if ok {
            assert forall|k: int|
                0 <= k < b.len() && (#[trigger] b[k]).len() > 0 implies b[k].contains('=') by {
                if k < done.len() {
                    assert(part_readable(done[k]));
                }
            }
        } else {
            assert(b[done.len() as int] == part);
            assert(part.len() > 0);
        }
    }
    ok
}

/// Reads a variant's id into the properties it names, or nothing when a non-empty part has no `=`.
pub fn read_variant_key(id: &str) -> (key: Option<Vec<(String, StateValue)>>)
    ensures
        variant_id_readable(id@) <==> key is Some,
        key matches Some(k) ==> key_view(k@) == spec_variant_key(id@),
{
    if variant_id_is_readable(id) {
        Some(variant_key(id))
    } else {
        None
    }
}

/// One property written as `name=value`.
pub open spec fn property_text(p: (Seq<char>, StateValueView)) -> Seq<char> {
    p.0 + seq!['='] + value_text(p.1)
}

/// Properties written as a key: each as `name=value`, joined by commas.
pub open spec fn key_text(key: Seq<(Seq<char>, StateValueView)>) -> Seq<char>
    decreases key.len(),
{
    if key.len() == 0 {
        Seq::empty()
    } else if key.len() == 1 {
        property_text(key[0])
    } else {
        key_text(key.drop_last()) + seq![','] + property_text(key.last())
    }
}

/// Appends the characters of `s`.
fn push_str(s: &str, out: &mut String)
    ensures
        final(out)@ == old(out)@ + s@,
{
    let n = s.unicode_len();
    let mut i: usize = 0;
    while i < n
        invariant
            n == s@.len(),
            i <= n,
            out@ == old(out)@ + s@.take(i as int),
        decreases n - i,
    {
        let c = s.get_char(i);
        push_char(out, c);
        assert(s@.take(i as int + 1) =~= s@.take(i as int).push(c));
        i = i + 1;
    }
    assert(s@.take(n as int) =~= s@);
}

/// Writes properties as a key: each as `name=value`, joined by commas.
pub fn key_string(key: &Vec<(String, StateValue)>) -> (s: String)
    ensures
        s@ == key_text(key_view(key@)),
{
    let ghost k = key_view(key@);
    let mut out = String::new();
    let mut i: usize = 0;
    while i < key.len()
        invariant
            i <= key.len(),
            k == key_view(key@),
            out@ == key_text(k.take(i as int)),
        decreases key.len() - i,
    {
        let ghost before = out@;
        if i > 0 {
            push_char(&mut out, ',');
        }
        push_str(key[i].0.as_str(), &mut out);
        push_char(&mut out, '=');
        match &key[i].1 {
            StateValue::Bool(b) => {
                if *b {
                    push_str("true", &mut out);
                } else {
                    push_str("false", &mut out);
                }
            },
            StateValue::String(text) => {
                push_str(text.as_str(), &mut out);
            },
        }
        proof {
            let t = k.take(i as int + 1);
            assert(t.drop_last() =~= k.take(i as int));
            assert(t.last() == k[i as int]);
            if i == 0 {
                assert(out@ =~= property_text(k[0]));
            } else {
                assert(out@ =~= before + seq![','] + property_text(k[i as int]));
            }
        }
        i = i + 1;
    }
    assert(k.take(key.len() as int) =~= k);
    out
}

/// Whether a value survives being written and read back: a boolean, or text that holds neither a
/// `,` nor an `=` and does not read as a boolean.
pub open spec fn value_plain(v: StateValueView) -> bool {
    match v {
        StateValueView::Bool(_) => true,
        StateValueView::Text(t) => !t.contains(',') && !t.contains('=') && t != "true"@ && t
            != "false"@,
    }
}

/// Whether a property survives being written and read back: a name that is not empty and holds
/// neither a `,` nor an `=`, and a plain value.
pub open spec fn property_plain(p: (Seq<char>, StateValueView)) -> bool {
    &&& p.0.len() > 0
    &&& !p.0.contains(',')
    &&& !p.0.contains('=')
    &&& value_plain(p.1)
}

proof fn lemma_split_one(b: Seq<char>, sep: char)
    requires
        !b.contains(sep),
    ensures
        split_on(b, sep) == seq![b],
    decreases b.len(),
{
    if b.len() > 0 {
        assert(!b.drop_last().contains(sep)) by {
            if b.drop_last().contains(sep) {
                let w = choose|w: int| 0 <= w < b.drop_last().len() && b.drop_last()[w] == sep;
                assert(b[w] == sep);
            }
        }
        lemma_split_one(b.drop_last(), sep);
        assert(b.last() != sep) by {
            assert(b[b.len() - 1] == b.last());
        }
        assert(b.drop_last().push(b.last()) =~= b);
        assert(seq![b.drop_last()].update(0, b.drop_last().push(b.last())) =~= seq![b]);
    } else {
        assert(b =~= Seq::<char>::empty());
    }
}

proof fn lemma_split_concat(a: Seq<char>, b: Seq<char>, sep: char)
    requires
        !b.contains(sep),
    ensures
        split_on(a + seq![sep] + b, sep) == split_on(a, sep).push(b),
    decreases b.len(),
{
    let x = a + seq![sep] + b;
    if b.len() == 0 {
        assert(x.drop_last() =~= a);
        assert(x.last() == sep);
        assert(b =~= Seq::<char>::empty());
    } else {
        assert(!b.drop_last().contains(sep)) by {
            if b.drop_last().contains(sep) {
                let w = choose|w: int| 0 <= w < b.drop_last().len() && b.drop_last()[w] == sep;
                assert(b[w] == sep);
            }
        }
        lemma_split_concat(a, b.drop_last(), sep);
        assert(x.drop_last() =~= a + seq![sep] + b.drop_last());
        let parts = split_on(x.drop_last(), sep);
        assert(parts == split_on(a, sep).push(b.drop_last()));
        assert(x.last() == b.last());
        assert(b.last() != sep) by {
            assert(b[b.len() - 1] == b.last());
        }
        assert(b.drop_last().push(b.last()) =~= b);
        assert(split_on(a, sep).push(b.drop_last()).update(
            split_on(a, sep).len() as int,
            b.drop_last().push(b.last()),
        ) =~= split_on(a, sep).push(b));
    }
}

proof fn lemma_property_text(p: (Seq<char>, StateValueView))
    requires
        property_plain(p),
    ensures
        !property_text(p).contains(','),
        property_text(p).len() > 0,
        property_of(property_text(p)) == p,
{
    reveal_strlit("true");
    reveal_strlit("false");
    let name = p.0;
    let vt = value_text(p.1);
    let t = property_text(p);
    assert(!vt.contains(',') && !vt.contains('=')) by {
        match p.1 {
            StateValueView::Bool(b) => {
                if b {
                    assert(vt =~= seq!['t', 'r', 'u', 'e']);
                } else {
                    assert(vt =~= seq!['f', 'a', 'l', 's', 'e']);
                }
            },
            StateValueView::Text(_) => {},
        }
    }
    assert(!t.contains(',')) by {
        if t.contains(',') {
            let w = choose|w: int| 0 <= w < t.len() && t[w] == ',';
            if w < name.len() {
                assert(name[w] == ',');
            } else if w > name.len() {
                assert(vt[w - name.len() - 1] == ',');
            }
        }
    }
    assert forall|j: int| 0 <= j < name.len() implies t[j] != '=' by {
        assert(t[j] == name[j]);
        if name[j] == '=' {
            assert(name.contains('='));
        }
    }
    lemma_index_of_char(t, '=', name.len() as int);
    let rest = t.skip(name.len() as int + 1);
    assert(rest =~= vt);
    assert forall|j: int| 0 <= j < vt.len() implies vt[j] != '=' by {
        if vt[j] == '=' {
            assert(vt.contains('='));
        }
    }
    lemma_index_of_char(vt, '=', vt.len() as int);
    assert(vt.take(vt.len() as int) =~= vt);
    assert(t.take(name.len() as int) =~= name);
    match p.1 {
        StateValueView::Bool(b) => {
            assert("true"@ != "false"@) by {
                assert("true"@.len() != "false"@.len());
            }
        },
        StateValueView::Text(_) => {},
    }
}

proof fn lemma_split_key_text(key: Seq<(Seq<char>, StateValueView)>)
    requires
        key.len() > 0,
        forall|i: int| 0 <= i < key.len() ==> property_plain(#[trigger] key[i]),
    ensures
        split_on(key_text(key), ',') == key.map_values(|p: (Seq<char>, StateValueView)| property_text(p)),
    decreases key.len(),
{
    lemma_property_text(key.last());
    if key.len() == 1 {
        lemma_split_one(property_text(key[0]), ',');
        assert(key.map_values(|p: (Seq<char>, StateValueView)| property_text(p)) =~= seq![property_text(key[0])]);
    } else {
        lemma_split_key_text(key.drop_last());
        lemma_split_concat(key_text(key.drop_last()), property_text(key.last()), ',');
        assert(key.map_values(|p: (Seq<char>, StateValueView)| property_text(p)) =~= key.drop_last().map_values(
            |p: (Seq<char>, StateValueView)| property_text(p),
        ).push(property_text(key.last())));
    }
}

proof fn lemma_non_empty_all(parts: Seq<Seq<char>>)
    requires
        forall|i: int| 0 <= i < parts.len() ==> (#[trigger] parts[i]).len() > 0,
    ensures
        non_empty(parts) == parts,
    decreases parts.len(),
{
    if parts.len() > 0 {
        lemma_non_empty_all(parts.drop_last());
        assert(parts.drop_last().push(parts.last()) =~= parts);
    }
}

/// Writing properties as a key and reading the key back gives the same properties, where every
/// name is non-empty, no name or text value holds a `,` or an `=`, and no text value reads as a
/// boolean.
pub proof fn lemma_key_round_trip(key: Seq<(Seq<char>, StateValueView)>)
    requires
        forall|i: int| 0 <= i < key.len() ==> property_plain(#[trigger] key[i]),
    ensures
        spec_variant_key(key_text(key)) == key,
        variant_id_readable(key_text(key)),
{
    if key.len() == 0 {
        assert(key_text(key) =~= Seq::<char>::empty());
        assert(non_empty(split_on(Seq::<char>::empty(), ',')) =~= Seq::<Seq<char>>::empty()) by {
            let one = seq![Seq::<char>::empty()];
            assert(split_on(Seq::<char>::empty(), ',') == one);
            assert(one.drop_last() =~= Seq::<Seq<char>>::empty());
            assert(non_empty(one.drop_last()) =~= Seq::<Seq<char>>::empty());
            assert(one.last().len() == 0);
        }
        assert(spec_variant_key(key_text(key)) =~= key);
    } else {
        lemma_split_key_text(key);
        let parts = key.map_values(|p: (Seq<char>, StateValueView)| property_text(p));
        assert forall|i: int| 0 <= i < parts.len() implies (#[trigger] parts[i]).len() > 0
            && parts[i].contains('=') && property_of(parts[i]) == key[i] by {
            lemma_property_text(key[i]);
            assert(parts[i][key[i].0.len() as int] == '=');
        }
        lemma_non_empty_all(parts);
        assert(parts.map_values(|p: Seq<char>| property_of(p)) =~= key);
    }
}

/// Whether every property a variant names has the same value in `key`, as a map collected from
/// `key` reads it.
pub open spec fn variant_matches(
    variant: Seq<(Seq<char>, StateValueView)>,
    key: Seq<(Seq<char>, StateValueView)>,
) -> bool {
    forall|j: int| 0 <= j < variant.len() ==> lookup(key, (#[trigger] variant[j]).0) == Some(variant[j].1)
}

/// Whether variant `i` of `variants` can be drawn for `key`: it has a model, and every property it
/// names has that value in `key`.
pub open spec fn variant_selected<M>(
    variants: Seq<(Vec<(String, StateValue)>, Vec<M>)>,
    key: Seq<(Seq<char>, StateValueView)>,
    i: int,
) -> bool {
    &&& variants[i].1@.len() > 0
    &&& variant_matches(key_view(variants[i].0@), key)
}

/// Whether two values are the same.
fn same_value(a: &StateValue, b: &StateValue) -> (r: bool)
    ensures
        r == (a@ == b@),
{
    match (a, b) {
        (StateValue::Bool(x), StateValue::Bool(y)) => *x == *y,
        (StateValue::String(x), StateValue::String(y)) => *x == *y,
        _ => false,
    }
}

/// The value the last property named `name` in `key` has.
fn lookup_value<'a>(key: &'a Vec<(String, StateValue)>, name: &String) -> (r: Option<&'a StateValue>)
    ensures
        match r {
            Some(v) => lookup(key_view(key@), name@) == Some(v@),
            None => lookup(key_view(key@), name@) is None,
        },
{
    let ghost k = key_view(key@);
    let mut i = key.len();
    assert(k.take(i as int) =~= k);
    while i > 0
        invariant
            i <= key.len(),
            k == key_view(key@),
            lookup(k, name@) == lookup(k.take(i as int), name@),
        decreases i,
    {
        let ghost prefix = k.take(i as int);
        assert(prefix.drop_last() =~= k.take(i as int - 1));
        if key[i - 1].0 == *name {
            return Some(&key[i - 1].1);
        }
        i = i - 1;
    }
    assert(k.take(0) =~= Seq::<(Seq<char>, StateValueView)>::empty());
    None
}

/// The first variant, in order, that can be drawn for a block with properties `key`: one with a
/// model, every property of which has that value in `key` (the last value `key` gives a name).
pub fn find_variant<M>(variants: &Vec<(Vec<(String, StateValue)>, Vec<M>)>, key: &Vec<(String, StateValue)>) -> (found: Option<usize>)
    ensures
        match found {
            Some(i) => i < variants@.len() && variant_selected(variants@, key_view(key@), i as int)
                && forall|j: int| 0 <= j < i ==> !variant_selected(variants@, key_view(key@), j),
            None => forall|j: int|
                0 <= j < variants@.len() ==> !variant_selected(variants@, key_view(key@), j),
        },
{
    let mut i: usize = 0;
    while i < variants.len()
        invariant
            i <= variants@.len(),
            forall|j: int| 0 <= j < i ==> !variant_selected(variants@, key_view(key@), j),
        decreases variants.len() - i,
    {
        if variants[i].1.len() > 0 {
            let props = &variants[i].0;
            let ghost pv = key_view(props@);
            let mut all = true;
            let mut j: usize = 0;
            while j < props.len()
                invariant
                    j <= props@.len(),
                    pv == key_view(props@),
                    all <==> forall|m: int|
                        0 <= m < j ==> lookup(key_view(key@), (#[trigger] pv[m]).0) == Some(pv[m].1),
                decreases props.len() - j,
            {
                let ghost before = all;
                match lookup_value(key, &props[j].0) {
                    Some(v) => {
                        if !same_value(v, &props[j].1) {
                            all = false;
                        }
                    },
                    None => {
                        all = false;
                    },
                }
                assert(pv[j as int] == (props@[j as int].0@, props@[j as int].1@));
                assert(all <==> before && lookup(key_view(key@), pv[j as int].0) == Some(pv[j as int].1));
                j = j + 1;
            }
            if all {
                return Some(i);
            }
        }
        i = i + 1;
    }
    None
}

/// The properties that select a block's model: all of them but `waterlogged`, which is drawn by
/// the fluid rather than by the block.
pub open spec fn spec_model_key(key: Seq<(Seq<char>, StateValueView)>) -> Seq<(Seq<char>, StateValueView)>
    decreases key.len(),
{
    if key.len() == 0 {
        key
    } else if key.last().0 == "waterlogged"@ {
        spec_model_key(key.drop_last())
    } else {
        spec_model_key(key.drop_last()).push(key.last())
    }
}

/// A copy of a value.
fn copy_value(v: &StateValue) -> (c: StateValue)
    ensures
        c@ == v@,
{
    match v {
        StateValue::Bool(b) => StateValue::Bool(*b),
        StateValue::String(s) => StateValue::String(s.clone()),
    }
}

/// Whether `name` is `waterlogged`.
fn is_waterlogged(name: &String) -> (r: bool)
    ensures
        r == (name@ == "waterlogged"@),
{
    let chars = chars_of(name.as_str(), 0, name.as_str().unicode_len());
    assert(chars@ =~= name@);
    is_word(&chars, "waterlogged")
}

/// The properties that select a block's model: see [`spec_model_key`].
pub fn model_key(key: &Vec<(String, StateValue)>) -> (out: Vec<(String, StateValue)>)
    ensures
        key_view(out@) == spec_model_key(key_view(key@)),
{
    let ghost k = key_view(key@);
    let mut out: Vec<(String, StateValue)> = Vec::new();
    let mut i: usize = 0;
    proof {
        assert(k.take(0) =~= Seq::<(Seq<char>, StateValueView)>::empty());
    }
    while i < key.len()
        invariant
            i <= key.len(),
            k == key_view(key@),
            key_view(out@) == spec_model_key(k.take(i as int)),
        decreases key.len() - i,
    {
        proof {
            assert(k.take(i as int + 1).drop_last() =~= k.take(i as int));
        }
        if !is_waterlogged(&key[i].0) {
            let ghost before = out@;
            out.push((key[i].0.clone(), copy_value(&key[i].1)));
            assert(key_view(out@) =~= key_view(before).push(k[i as int]));
        }
        i = i + 1;
    }
    assert(k.take(key.len() as int) =~= k);
    out
}

// ---------------------------------------------------------------------------------------------
// Mapping the game's block states onto the registry
// ---------------------------------------------------------------------------------------------

/// The block every state without a model is drawn as, which is what the game itself falls back to.
pub const FALLBACK_BLOCK: &'static str = "minecraft:bedrock";

/// Where a block state is drawn from: its block's index in the registry and its model's augment.
#[derive(Clone, Copy, Debug, PartialEq, Eq, Structural)]
pub struct StateSlot {
    pub block: u16,
    pub augment: u16,
}

/// The registry's block names as plain text.
pub open spec fn names_view(blocks: Seq<String>) -> Seq<Seq<char>> {
    blocks.map_values(|b: String| b@)
}

/// The index of the first of `names` that is `name`, if one is.
pub open spec fn first_index(names: Seq<Seq<char>>, name: Seq<char>) -> Option<int>
    decreases names.len(),
{
    if names.len() == 0 {
        None
    } else {
        match first_index(names.drop_last(), name) {
            Some(i) => Some(i),
            None => if names.last() == name {
                Some(names.len() - 1)
            } else {
                None
            },
        }
    }
}

/// The block a state without a model is drawn as: bedrock's index, or the first block when the
/// registry has no bedrock.
pub open spec fn spec_fallback(names: Seq<Seq<char>>) -> int {
    match first_index(names, FALLBACK_BLOCK@) {
        Some(i) => i,
        None => 0,
    }
}

/// Where one state is drawn from, and whether it took the fallback: a state whose block is in the
/// registry and whose model was found is drawn from that block with the model's augment; any other
/// state is drawn as the fallback block with augment zero. An index past what a `u16` holds is cut
/// to its low bits, as the registry's keys store it.
pub open spec fn spec_state_slot(names: Seq<Seq<char>>, state: (Seq<char>, Option<u16>)) -> (
    StateSlot,
    bool,
) {
    let fallback = StateSlot { block: spec_fallback(names) as u16, augment: 0 };
    match first_index(names, state.0) {
        Some(i) => match state.1 {
            Some(augment) => (StateSlot { block: i as u16, augment }, false),
            None => (fallback, true),
        },
        None => (fallback, true),
    }
}

/// The states as plain values: each block's name and what its model lookup gave.
pub open spec fn states_view(states: Seq<(String, Option<u16>)>) -> Seq<(Seq<char>, Option<u16>)> {
    states.map_values(|s: (String, Option<u16>)| (s.0@, s.1))
}

/// How many of `states` take the fallback.
pub open spec fn fallback_count(names: Seq<Seq<char>>, states: Seq<(Seq<char>, Option<u16>)>) -> nat
    decreases states.len(),
{
    if states.len() == 0 {
        0
    } else {
        fallback_count(names, states.drop_last()) + if spec_state_slot(names, states.last()).1 {
            1nat
        } else {
            0nat
        }
    }
}

/// The index of the first block named `name`, if the registry has one.
pub fn block_index(blocks: &Vec<String>, name: &String) -> (r: Option<usize>)
    ensures
        r matches Some(i) ==> first_index(names_view(blocks@), name@) == Some(i as int),
        r is None ==> first_index(names_view(blocks@), name@) is None,
{
    let ghost names = names_view(blocks@);
    let mut i: usize = 0;
    assert(names.take(0) =~= Seq::<Seq<char>>::empty());
    while i < blocks.len()
        invariant
            i <= blocks.len(),
            names == names_view(blocks@),
            first_index(names.take(i as int), name@) is None,
        decreases blocks.len() - i,
    {
        assert(names.take(i as int + 1).drop_last() =~= names.take(i as int));
        if blocks[i] == *name {
            assert(names.take(i as int + 1).last() == name@);
            proof {
                lemma_first_index_prefix(names, name@, i as int + 1);
            }
            return Some(i);
        }
        i = i + 1;
    }
    assert(names.take(i as int) =~= names);
    None
}

/// A prefix that already holds `name` has the same first index as the whole list.
proof fn lemma_first_index_prefix(names: Seq<Seq<char>>, name: Seq<char>, n: int)
    requires
        0 <= n <= names.len(),
        first_index(names.take(n), name) is Some,
    ensures
        first_index(names, name) == first_index(names.take(n), name),
    decreases names.len() - n,
{
    if n < names.len() {
        assert(names.take(n + 1).drop_last() =~= names.take(n));
        lemma_first_index_prefix(names, name, n + 1);
    } else {
        assert(names.take(n) =~= names);
    }
}

/// Maps the game's block states onto the registry, saying where each one is drawn from and how
/// many had to be drawn as the fallback block.
///
/// Each state comes with its block's name and what looking its model up gave, the model's augment
/// or nothing. An empty registry maps nothing, since there is no block to fall back to.
pub fn map_block_states(blocks: &Vec<String>, states: &Vec<(String, Option<u16>)>) -> (r: Option<
    (Vec<StateSlot>, usize),
>)
    ensures
        blocks@.len() == 0 <==> r is None,
        r matches Some((slots, unmodelled)) ==> {
            &&& slots@.len() == states@.len()
            &&& forall|i: int|
                0 <= i < states@.len() ==> #[trigger] slots@[i] == spec_state_slot(
                    names_view(blocks@),
                    states_view(states@)[i],
                ).0
            &&& unmodelled == fallback_count(names_view(blocks@), states_view(states@))
        },
{
    if blocks.len() == 0 {
        return None;
    }
    let ghost names = names_view(blocks@);
    let ghost all = states_view(states@);
    let bedrock = FALLBACK_BLOCK.to_owned();
    let fallback_id: usize = match block_index(blocks, &bedrock) {
        Some(i) => i,
        None => 0,
    };
    assert(fallback_id == spec_fallback(names));
    let fallback = StateSlot { block: fallback_id as u16, augment: 0 };
    let mut slots: Vec<StateSlot> = Vec::new();
    let mut unmodelled: usize = 0;
    let mut i: usize = 0;
    assert(all.take(0) =~= Seq::<(Seq<char>, Option<u16>)>::empty());
    while i < states.len()
        invariant
            i <= states.len(),
            names == names_view(blocks@),
            all == states_view(states@),
            fallback == (StateSlot { block: spec_fallback(names) as u16, augment: 0 }),
            slots@.len() == i,
            forall|k: int| 0 <= k < i ==> #[trigger] slots@[k] == spec_state_slot(names, all[k]).0,
            unmodelled == fallback_count(names, all.take(i as int)),
            unmodelled <= i,
        decreases states.len() - i,
    {
        assert(all[i as int] == (states@[i as int].0@, states@[i as int].1));
        let (slot, fell_back) = match block_index(blocks, &states[i].0) {
            None => (fallback, true),
            Some(id) => match states[i].1 {
                Some(augment) => (StateSlot { block: id as u16, augment }, false),
                None => (fallback, true),
            },
        };
        assert((slot, fell_back) == spec_state_slot(names, all[i as int]));
        slots.push(slot);
        assert(all.take(i as int + 1).drop_last() =~= all.take(i as int));
        if fell_back {
            unmodelled = unmodelled + 1;
        }
        i = i + 1;
    }
    assert(all.take(i as int) =~= all);
    Some((slots, unmodelled))
}

} // verus!
