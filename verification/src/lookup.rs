//! Lists of named values read as maps.
//!
//! Several inputs arrive as `(name, value)` lists that the renderer reads by name: the sampler kinds
//! and block sizes a translation reports, the bindings a shader was annotated with. Read as a map, a
//! name that occurs twice means its last value, which is what collecting the list into a map keeps.

use vstd::prelude::*;

verus! {

/// The names and values of a list, by the characters of each name.
pub open spec fn named<V>(entries: Seq<(String, V)>) -> Seq<(Seq<char>, V)> {
    entries.map_values(|e: (String, V)| (e.0@, e.1))
}

/// Whether `name` is the name of some entry of `entries`.
pub open spec fn has_name<V>(entries: Seq<(Seq<char>, V)>, name: Seq<char>) -> bool {
    exists|j: int| 0 <= j < entries.len() && (#[trigger] entries[j]).0 == name
}

/// The first `n` entries without those whose name comes again later in the whole list.
pub open spec fn kept_prefix<V>(entries: Seq<(Seq<char>, V)>, n: int) -> Seq<(Seq<char>, V)>
    decreases n,
{
    if n <= 0 {
        Seq::empty()
    } else {
        let before = kept_prefix(entries, n - 1);
        if has_name(entries.skip(n), entries[n - 1].0) {
            before
        } else {
            before.push(entries[n - 1])
        }
    }
}

/// What a map collected from `entries` holds: each name once, with the value it was given last, in
/// the order of those last occurrences.
pub open spec fn last_entries<V>(entries: Seq<(Seq<char>, V)>) -> Seq<(Seq<char>, V)> {
    kept_prefix(entries, entries.len() as int)
}

/// The value the last entry named `name` carries, if there is one.
pub open spec fn lookup<V>(entries: Seq<(Seq<char>, V)>, name: Seq<char>) -> Option<V>
    decreases entries.len(),
{
    if entries.len() == 0 {
        None
    } else if entries.last().0 == name {
        Some(entries.last().1)
    } else {
        lookup(entries.drop_last(), name)
    }
}

/// Whether some entry after index `i` has the same name as entry `i`.
fn named_again<V>(entries: &Vec<(String, V)>, i: usize) -> (r: bool)
    requires
        i < entries.len(),
    ensures
        r == has_name(named(entries@).skip(i as int + 1), entries@[i as int].0@),
{
    let ghost rest = named(entries@).skip(i as int + 1);
    let mut j = i + 1;
    while j < entries.len()
        invariant
            i < j <= entries.len(),
            rest == named(entries@).skip(i as int + 1),
            forall|k: int| 0 <= k < j - i - 1 ==> (#[trigger] rest[k]).0 != entries@[i as int].0@,
        decreases entries.len() - j,
    {
        if entries[j].0 == entries[i].0 {
            assert(rest[j - i - 1].0 == entries@[i as int].0@);
            return true;
        }
        j = j + 1;
    }
    false
}

/// The entries a map collected from `entries` would hold, in the order of their last occurrences.
pub fn last_entries_of<V: Copy>(entries: &Vec<(String, V)>) -> (out: Vec<(String, V)>)
    ensures
        named(out@) == last_entries(named(entries@)),
{
    let ghost all = named(entries@);
    let mut out: Vec<(String, V)> = Vec::new();
    let mut i: usize = 0;
    while i < entries.len()
        invariant
            i <= entries.len(),
            all == named(entries@),
            named(out@) == kept_prefix(all, i as int),
        decreases entries.len() - i,
    {
        let again = named_again(entries, i);
        assert(all.skip(i as int + 1) =~= named(entries@).skip(i as int + 1));
        if !again {
            let name = entries[i].0.clone();
            out.push((name, entries[i].1));
            assert(named(out@) =~= kept_prefix(all, i as int).push(all[i as int]));
        }
        i = i + 1;
    }
    out
}

/// The value the last entry named `name` carries, if any entry is named so.
pub fn lookup_in<V: Copy>(entries: &Vec<(String, V)>, name: &String) -> (r: Option<V>)
    ensures
        r == lookup(named(entries@), name@),
{
    let mut i = entries.len();
    assert(named(entries@).take(i as int) =~= named(entries@));
    while i > 0
        invariant
            i <= entries.len(),
            lookup(named(entries@), name@) == lookup(named(entries@).take(i as int), name@),
        decreases i,
    {
        let ghost prefix = named(entries@).take(i as int);
        assert(prefix.drop_last() =~= named(entries@).take(i as int - 1));
        if entries[i - 1].0 == *name {
            return Some(entries[i - 1].1);
        }
        i = i - 1;
    }
    assert(named(entries@).take(0) =~= Seq::<(Seq<char>, V)>::empty());
    None
}

} // verus!
