//! The profiles that can be had, as a list.
use crate::order;
use crate::order::goes_first;
use crate::text;
use crate::text::{chars_of, push_run};
use vstd::prelude::*;

verus! {

/// A profile that can be had.
#[derive(Debug)]
pub struct Entry {
    pub name: String,
    pub description: String,
    pub rules: usize,
}

/// What is known of a profile that can be had.
pub struct EntryModel {
    pub name: Seq<char>,
    pub description: Seq<char>,
    pub rules: usize,
}

impl View for Entry {
    type V = EntryModel;

    open spec fn view(&self) -> EntryModel {
        EntryModel { name: self.name@, description: self.description@, rules: self.rules }
    }
}

/// Whether a file is a profile, by the extension of its name.
pub fn is_profile(extension: Option<&str>) -> (b: bool)
    ensures
        b == (text::shown_str(extension) == Some("toml"@)),
{
    match extension {
        Some(e) => text::same_text(e, "toml"),
        None => false,
    }
}

/// Whether an entry comes before another: by name, then by description, then by
/// the number of rules.
pub open spec fn comes_before(a: EntryModel, b: EntryModel) -> bool {
    if a.name != b.name {
        order::precedes(a.name, b.name)
    } else if a.description != b.description {
        order::precedes(a.description, b.description)
    } else {
        a.rules < b.rules
    }
}

/// What is known of several entries.
pub open spec fn listed(entries: Seq<Entry>) -> Seq<EntryModel> {
    entries.map_values(|e: Entry| e@)
}

/// Whether no entry comes before one in front of it.
pub open spec fn in_order(entries: Seq<EntryModel>) -> bool {
    forall|i: int, j: int|
        0 <= i < j < entries.len() ==> !comes_before(#[trigger] entries[j], #[trigger] entries[i])
}

proof fn not_after_carries_over(a: EntryModel, b: EntryModel, c: EntryModel)
    requires
        !comes_before(b, a),
        !comes_before(c, b),
    ensures
        !comes_before(c, a),
{
    order::texts_are_ordered(a.name, b.name);
    order::texts_are_ordered(b.name, c.name);
    order::texts_are_ordered(a.name, c.name);
    order::texts_are_ordered(a.description, b.description);
    order::texts_are_ordered(b.description, c.description);
    order::texts_are_ordered(a.description, c.description);
    if order::precedes(a.name, b.name) && order::precedes(b.name, c.name) {
        order::precedence_carries_over(a.name, b.name, c.name);
    }
    if order::precedes(a.description, b.description) && order::precedes(b.description, c.description) {
        order::precedence_carries_over(a.description, b.description, c.description);
    }
}

fn entry_first(a: &Entry, b: &Entry) -> (first: bool)
    ensures
        first == comes_before(a@, b@),
{
    if !text::same_text(a.name.as_str(), b.name.as_str()) {
        goes_first(a.name.as_str(), b.name.as_str())
    } else if !text::same_text(a.description.as_str(), b.description.as_str()) {
        goes_first(a.description.as_str(), b.description.as_str())
    } else {
        a.rules < b.rules
    }
}

fn first_of(entries: &Vec<Entry>) -> (at: usize)
    requires
        entries@.len() > 0,
    ensures
        at < entries@.len(),
        forall|j: int|
            0 <= j < entries@.len() ==> !comes_before(
                #[trigger] listed(entries@)[j],
                listed(entries@)[at as int],
            ),
{
    let mut at: usize = 0;
    let mut i: usize = 1;
    proof {
        let e = entries@[0]@;
        order::texts_are_ordered(e.name, e.name);
        order::texts_are_ordered(e.description, e.description);
    }
    while i < entries.len()
        invariant
            at < i <= entries@.len(),
            forall|j: int|
                0 <= j < i ==> !comes_before(
                    #[trigger] listed(entries@)[j],
                    listed(entries@)[at as int],
                ),
        decreases entries.len() - i,
    {
        if entry_first(&entries[i], &entries[at]) {
            proof {
                let now = listed(entries@)[i as int];
                let before = listed(entries@)[at as int];
                order::texts_are_ordered(now.name, before.name);
                order::texts_are_ordered(now.description, before.description);
                order::texts_are_ordered(now.name, now.name);
                order::texts_are_ordered(now.description, now.description);
                assert forall|j: int| 0 <= j < i + 1 implies !comes_before(
                    #[trigger] listed(entries@)[j],
                    now,
                ) by {
                    if j < i {
                        not_after_carries_over(now, before, listed(entries@)[j]);
                    }
                }
            }
            at = i;
        }
        i += 1;
    }
    at
}

/// Puts the entries in order.
pub fn sort(entries: Vec<Entry>) -> (out: Vec<Entry>)
    ensures
        in_order(listed(out@)),
        out@.to_multiset() == entries@.to_multiset(),
{
    broadcast use vstd::seq_lib::group_to_multiset_ensures;

    let ghost all = entries@;
    let mut rest = entries;
    let mut out: Vec<Entry> = Vec::new();
    assert(out@.to_multiset() =~= vstd::multiset::Multiset::empty());
    while rest.len() > 0
        invariant
            out@.to_multiset().add(rest@.to_multiset()) == all.to_multiset(),
            in_order(listed(out@)),
            forall|i: int, j: int|
                0 <= i < out@.len() && 0 <= j < rest@.len() ==> !comes_before(
                    #[trigger] listed(rest@)[j],
                    #[trigger] listed(out@)[i],
                ),
        decreases rest.len(),
    {
        broadcast use vstd::seq_lib::group_to_multiset_ensures;

        let at: usize = first_of(&rest);
        let ghost before = rest@;
        let ghost done = out@;
        let e = rest.remove(at);
        out.push(e);
        proof {
            assert(before.contains(e));
            assert(out@.to_multiset() =~= done.to_multiset().insert(e));
            assert(rest@.to_multiset() =~= before.to_multiset().remove(e));
            assert(out@.to_multiset().add(rest@.to_multiset()) =~= all.to_multiset());
            assert(listed(before)[at as int] == e@);
            assert(listed(out@) =~= listed(done).push(e@));
            assert(listed(rest@) =~= listed(before).remove(at as int));
        }
    }
    assert(rest@ =~= Seq::<Entry>::empty());
    assert(out@.to_multiset().add(rest@.to_multiset()) =~= out@.to_multiset());
    out
}

/// The line of an entry: its name and the number of its rules in columns, and what
/// it is.
pub open spec fn line_of(e: EntryModel) -> Seq<char> {
    text::pad_right(e.name, 14, ' ') + " "@ + text::pad_left(text::decimal(e.rules as nat), 3, ' ')
        + " rules  "@ + e.description
}

/// The line of an entry.
pub fn entry_line(e: &Entry) -> (out: String)
    ensures
        out@ == line_of(e@),
{
    let name = chars_of(e.name.as_str());
    let mut out = String::new();
    out.append(e.name.as_str());
    if name.len() < 14 {
        push_run(&mut out, ' ', 14 - name.len());
    }
    assert(out@ =~= text::pad_right(e.name@, 14, ' '));
    out.append(" ");
    let rules = text::decimal_chars(e.rules as u64);
    text::push_padded(&mut out, rules.as_slice(), 3, ' ');
    out.append(" rules  ");
    out.append(e.description.as_str());
    assert(out@ =~= line_of(e@));
    out
}

// ------------------------------------------------------------- laws

/// Sorting puts the entries in the order of their names, loses none and adds none.
pub proof fn entries_are_sorted_by_name(entries: Vec<Entry>, out: Vec<Entry>, i: int, j: int)
    requires
        call_ensures(sort, (entries,), out),
        0 <= i < j < out@.len(),
    ensures
        out@.to_multiset() == entries@.to_multiset(),
        out@[i].name@ == out@[j].name@ || order::precedes(out@[i].name@, out@[j].name@),
        out@[i].name@ == out@[j].name@ ==> out@[i].description@ == out@[j].description@
            || order::precedes(out@[i].description@, out@[j].description@),
        out@[i].name@ == out@[j].name@ && out@[i].description@ == out@[j].description@ ==> out@[i].rules
            <= out@[j].rules,
{
    let a = listed(out@)[i];
    let b = listed(out@)[j];
    assert(a == out@[i]@ && b == out@[j]@);
    order::texts_are_ordered(a.name, b.name);
    order::texts_are_ordered(a.description, b.description);
}

/// A line has the name in fourteen columns or more, the number of rules in three or
/// more, and the description last.
pub proof fn an_entry_has_its_columns(e: &Entry, out: String)
    requires
        call_ensures(entry_line, (e,), out),
    ensures
        ({
            let w = if e.name@.len() < 14 {
                14
            } else {
                e.name@.len() as int
            };
            &&& out@.take(e.name@.len() as int) == e.name@
            &&& forall|i: int| e.name@.len() <= i <= w ==> #[trigger] out@[i] == ' '
            &&& out@.skip(w + 1) == text::pad_left(text::decimal(e.rules as nat), 3, ' ')
                + " rules  "@ + e.description@
        }),
{
    reveal_strlit(" ");
    let n = text::pad_right(e.name@, 14, ' ');
    let rest = text::pad_left(text::decimal(e.rules as nat), 3, ' ') + " rules  "@
        + e.description@;
    text::padding_fills_up(e.name@, 14, ' ');
    assert(out@ =~= n + " "@ + rest);
    assert(out@.take(e.name@.len() as int) =~= n.take(e.name@.len() as int));
    assert(out@.skip(n.len() as int + 1) =~= rest);
}

/// A file is a profile by its extension, `toml`, and by nothing else.
pub proof fn profiles_are_told_by_their_extension(extension: Option<&str>, b: bool)
    requires
        call_ensures(is_profile, (extension,), b),
    ensures
        b <==> extension is Some && extension->0@ == "toml"@,
{
}

} // verus!
