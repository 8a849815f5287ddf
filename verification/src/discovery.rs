//! Which animations of a unit an export holds, told from its file names.

use vstd::prelude::*;
use vstd::string::*;
use crate::error::FfbeError;
use crate::text::{chars_of, decimal, holds_at, push_decimal};

verus! {

/// An animation of a unit and the file that holds its sequence table.
#[derive(Debug, Clone)]
pub struct DiscoveredAnimation {
    pub name: String,
    pub file_path: String,
}

/// The model of a discovered animation: its name and its path.
pub struct AnimationView {
    pub name: Seq<char>,
    pub file_path: Seq<char>,
}

impl View for DiscoveredAnimation {
    type V = AnimationView;

    open spec fn view(&self) -> AnimationView {
        AnimationView { name: self.name@, file_path: self.file_path@ }
    }
}

/// What every sequence table of a unit is called after the name of its
/// animation.
pub open spec fn cgs_suffix(unit_id: u32) -> Seq<char> {
    "_cgs_"@ + decimal(unit_id as nat) + ".csv"@
}

/// The name of the animation whose sequence table, for the unit `unit_id`,
/// is the file called `filename`: what stands between `unit_` and
/// `_cgs_<unit_id>.csv`, if the file is called so and that is not empty.
pub open spec fn animation_name(filename: Seq<char>, unit_id: u32) -> Option<Seq<char>> {
    let prefix = "unit_"@;
    let suffix = cgs_suffix(unit_id);
    if filename.len() > prefix.len() + suffix.len() && filename.take(prefix.len() as int) == prefix
        && filename.skip(filename.len() - suffix.len()) == suffix {
        Some(filename.subrange(prefix.len() as int, filename.len() - suffix.len()))
    } else {
        None
    }
}

/// The name of the animation whose sequence table is called `filename`.
pub fn extract_animation_name(filename: &str, unit_id: u32) -> (res: Option<String>)
    ensures
        match animation_name(filename@, unit_id) {
            Some(name) => res matches Some(s) && s@ == name,
            None => res is None,
        },
{
    let chars = chars_of(filename);
    let prefix = chars_of("unit_");
    let mut ending = String::from_str("_cgs_");
    push_decimal(&mut ending, unit_id as u128);
    ending.append(".csv");
    let suffix = chars_of(ending.as_str());
    let total = chars.len();
    if prefix.len() > total || suffix.len() >= total - prefix.len() {
        return None;
    }
    let end = total - suffix.len();
    proof {
        assert(chars@.take(prefix@.len() as int) =~= chars@.subrange(0int, 0int + prefix@.len()));
        assert(chars@.skip(end as int) =~= chars@.subrange(end as int, end + suffix@.len()));
    }
    if holds_at(&chars, 0, &prefix) && holds_at(&chars, end, &suffix) {
        Some(String::from_str(filename.substring_char(prefix.len(), end)))
    } else {
        None
    }
}

/// Whether `a` comes before `b`, or is `b`, in dictionary order.
pub open spec fn in_order(a: Seq<char>, b: Seq<char>) -> bool
    decreases a.len(),
{
    if a.len() == 0 {
        true
    } else if b.len() == 0 {
        false
    } else if a[0] != b[0] {
        a[0] < b[0]
    } else {
        in_order(a.drop_first(), b.drop_first())
    }
}

/// Of two names, one comes before the other or they are the same.
pub proof fn lemma_order_total(a: Seq<char>, b: Seq<char>)
    ensures
        in_order(a, b) || in_order(b, a),
    decreases a.len(),
{
    if a.len() > 0 && b.len() > 0 && a[0] == b[0] {
        lemma_order_total(a.drop_first(), b.drop_first());
    }
}

/// Dictionary order carries through a name in the middle.
pub proof fn lemma_order_transitive(a: Seq<char>, b: Seq<char>, c: Seq<char>)
    requires
        in_order(a, b),
        in_order(b, c),
    ensures
        in_order(a, c),
    decreases a.len(),
{
    if a.len() > 0 && b.len() > 0 && c.len() > 0 && a[0] == b[0] && b[0] == c[0] {
        lemma_order_transitive(a.drop_first(), b.drop_first(), c.drop_first());
    }
}

/// Whether `a` comes before `b`, or is `b`, in dictionary order.
pub fn name_in_order(a: &str, b: &str) -> (ok: bool)
    ensures
        ok == in_order(a@, b@),
{
    let left = chars_of(a);
    let right = chars_of(b);
    let mut i: usize = 0;
    proof {
        assert(left@.skip(0) =~= left@);
        assert(right@.skip(0) =~= right@);
    }
    while i < left.len() && i < right.len()
        invariant
            left@ == a@,
            right@ == b@,
            i <= left@.len(),
            i <= right@.len(),
            in_order(left@, right@) == in_order(left@.skip(i as int), right@.skip(i as int)),
        decreases left@.len() - i,
    {
        proof {
            assert(left@.skip(i as int).drop_first() =~= left@.skip(i + 1));
            assert(right@.skip(i as int).drop_first() =~= right@.skip(i + 1));
            assert(left@.skip(i as int)[0] == left@[i as int]);
            assert(right@.skip(i as int)[0] == right@[i as int]);
        }
        if left[i] != right[i] {
            proof {
                let ls = left@.skip(i as int);
                let rs = right@.skip(i as int);
                assert(in_order(ls, rs) == (ls[0] < rs[0]));
            }
            return left[i] < right[i];
        }
        proof {
            let ls = left@.skip(i as int);
            let rs = right@.skip(i as int);
            assert(in_order(ls, rs) == in_order(ls.drop_first(), rs.drop_first()));
        }
        i += 1;
    }
    proof {
        let ls = left@.skip(i as int);
        let rs = right@.skip(i as int);
        assert(in_order(ls, rs) == (ls.len() == 0));
    }
    i == left.len()
}

/// Whether the names of `list` stand in dictionary order.
pub open spec fn sorted_by_name(list: Seq<AnimationView>) -> bool {
    forall|i: int, j: int| 0 <= i <= j < list.len() ==> in_order(list[i].name, list[j].name)
}

/// The models of discovered animations.
pub open spec fn animation_views(list: Seq<DiscoveredAnimation>) -> Seq<AnimationView> {
    Seq::new(list.len(), |i: int| list[i]@)
}

/// Of the first `n` directory entries, each a file name and a path, those
/// that are sequence tables of the unit, in the order of the entries.
pub open spec fn tables_among(
    entries: Seq<(Seq<char>, Seq<char>)>,
    unit_id: u32,
    n: nat,
) -> Seq<AnimationView>
    decreases n,
{
    if n == 0 {
        Seq::empty()
    } else {
        let before = tables_among(entries, unit_id, (n - 1) as nat);
        match animation_name(entries[n - 1].0, unit_id) {
            Some(name) => before.push(AnimationView { name, file_path: entries[n - 1].1 }),
            None => before,
        }
    }
}

/// The texts of directory entries.
pub open spec fn entry_texts(entries: Seq<(String, String)>) -> Seq<(Seq<char>, Seq<char>)> {
    Seq::new(entries.len(), |i: int| (entries[i].0@, entries[i].1@))
}

/// The report for a directory without sequence tables of the unit.
pub open spec fn nothing_found_text(unit_id: u32, input_dir: Seq<char>) -> Seq<char> {
    "No CGS animation files found for unit "@ + decimal(unit_id as nat) + " in directory '"@
        + input_dir + "'"@
}

/// Where an animation called `name` goes in `list`: behind the leading
/// animations whose names do not come after its own.
pub open spec fn place_of(list: Seq<AnimationView>, name: Seq<char>) -> nat
    decreases list.len(),
{
    if list.len() == 0 || !in_order(list[0].name, name) {
        0
    } else {
        1 + place_of(list.drop_first(), name)
    }
}

/// `tables` put in the dictionary order of their names, one after the
/// other: each goes behind those already placed whose names do not come
/// after its own, so that tables of one name keep their order.
pub open spec fn arranged(tables: Seq<AnimationView>) -> Seq<AnimationView>
    decreases tables.len(),
{
    if tables.len() == 0 {
        Seq::empty()
    } else {
        let before = arranged(tables.drop_last());
        before.insert(place_of(before, tables.last().name) as int, tables.last())
    }
}

/// `place_of` is the position of the first animation whose name comes
/// after `name`.
pub proof fn lemma_place(list: Seq<AnimationView>, name: Seq<char>, pos: nat)
    requires
        pos <= list.len(),
        forall|k: int| 0 <= k < pos ==> in_order(list[k].name, name),
        pos == list.len() || !in_order(list[pos as int].name, name),
    ensures
        place_of(list, name) == pos,
    decreases pos,
{
    if pos > 0 {
        let tail = list.drop_first();
        assert forall|k: int| 0 <= k < pos - 1 implies in_order(tail[k].name, name) by {
            assert(tail[k] == list[k + 1]);
        }
        assert(in_order(list[0].name, name));
        lemma_place(tail, name, (pos - 1) as nat);
    }
}

/// What `place_of` says of the animations before and at the place.
pub proof fn lemma_place_splits(list: Seq<AnimationView>, name: Seq<char>)
    ensures
        place_of(list, name) <= list.len(),
        forall|k: int| 0 <= k < place_of(list, name) ==> in_order(list[k].name, name),
        place_of(list, name) < list.len() ==> !in_order(
            list[place_of(list, name) as int].name,
            name,
        ),
    decreases list.len(),
{
    if list.len() > 0 && in_order(list[0].name, name) {
        let tail = list.drop_first();
        lemma_place_splits(tail, name);
        assert forall|k: int| 0 <= k < place_of(list, name) implies in_order(
            list[k].name,
            name,
        ) by {
            if k > 0 {
                assert(tail[k - 1] == list[k]);
            }
        }
    }
}

/// Putting an animation at its place keeps a sorted list sorted.
pub proof fn lemma_insert_sorted(list: Seq<AnimationView>, item: AnimationView)
    requires
        sorted_by_name(list),
    ensures
        sorted_by_name(list.insert(place_of(list, item.name) as int, item)),
{
    lemma_place_splits(list, item.name);
    let pos = place_of(list, item.name) as int;
    let after = list.insert(pos, item);
    assert forall|i: int, j: int| 0 <= i <= j < after.len() implies in_order(
        after[i].name,
        after[j].name,
    ) by {
        if i == j {
            lemma_order_total(after[i].name, after[i].name);
        } else if j < pos {
            assert(after[i] == list[i] && after[j] == list[j]);
        } else if j == pos {
            assert(after[i] == list[i]);
        } else if i < pos {
            assert(after[i] == list[i] && after[j] == list[j - 1]);
        } else if i == pos {
            lemma_order_total(list[pos].name, item.name);
            assert(after[j] == list[j - 1]);
            lemma_order_transitive(item.name, list[pos].name, list[j - 1].name);
        } else {
            assert(after[i] == list[i - 1] && after[j] == list[j - 1]);
        }
    }
}

/// Arranging puts the tables in the dictionary order of their names and
/// neither drops nor adds any.
pub proof fn lemma_arranged(tables: Seq<AnimationView>)
    ensures
        sorted_by_name(arranged(tables)),
        arranged(tables).to_multiset() == tables.to_multiset(),
        arranged(tables).len() == tables.len(),
    decreases tables.len(),
{
    broadcast use vstd::seq_lib::group_to_multiset_ensures;

    if tables.len() > 0 {
        let front = tables.drop_last();
        let before = arranged(front);
        lemma_arranged(front);
        lemma_place_splits(before, tables.last().name);
        lemma_insert_sorted(before, tables.last());
        vstd::seq_lib::to_multiset_insert(
            before,
            place_of(before, tables.last().name) as int,
            tables.last(),
        );
        vstd::seq_lib::to_multiset_build(front, tables.last());
        assert(front.push(tables.last()) =~= tables);
    }
}

/// Puts `item` into `list` at its place.
fn insert_sorted(list: &mut Vec<DiscoveredAnimation>, item: DiscoveredAnimation)
    ensures
        animation_views(final(list)@) == animation_views(old(list)@).insert(
            place_of(animation_views(old(list)@), item@.name) as int,
            item@,
        ),
{
    let n = list.len();
    let mut pos: usize = 0;
    while pos < n && name_in_order(list[pos].name.as_str(), item.name.as_str())
        invariant
            n == list@.len(),
            pos <= n,
            list@ == old(list)@,
            forall|k: int| 0 <= k < pos ==> in_order(list@[k].name@, item.name@),
        decreases n - pos,
    {
        pos += 1;
    }
    let ghost before = animation_views(list@);
    proof {
        lemma_place(before, item@.name, pos as nat);
    }
    list.insert(pos, item);
    assert(animation_views(list@) =~= before.insert(pos as int, item@));
}

/// Picks the sequence tables of the unit `unit_id` among the entries of
/// the directory `input_dir`, each given as a file name and a path, and
/// puts them in the dictionary order of their animations' names.
///
/// Fails with a file-not-found error where the directory holds none.
pub fn discover_among(unit_id: u32, input_dir: &str, entries: &Vec<(String, String)>) -> (res:
    Result<Vec<DiscoveredAnimation>, FfbeError>)
    ensures
        ({
            let tables = tables_among(entry_texts(entries@), unit_id, entries@.len());
            match res {
                Ok(list) => {
                    &&& tables.len() > 0
                    &&& animation_views(list@) == arranged(tables)
                    &&& sorted_by_name(animation_views(list@))
                    &&& animation_views(list@).to_multiset() == tables.to_multiset()
                },
                Err(e) => tables.len() == 0 && (e matches FfbeError::FileNotFound(m) && m@
                    == nothing_found_text(unit_id, input_dir@)),
            }
        }),
{
    let mut animations: Vec<DiscoveredAnimation> = Vec::new();
    let n = entries.len();
    let mut i: usize = 0;
    let ghost texts = entry_texts(entries@);
    proof {
        assert(animation_views(animations@) =~= arranged(tables_among(texts, unit_id, 0)));
    }
    while i < n
        invariant
            n == entries@.len(),
            i <= n,
            texts == entry_texts(entries@),
            animation_views(animations@) == arranged(tables_among(texts, unit_id, i as nat)),
        decreases n - i,
    {
        proof {
            assert(texts[i as int] == (entries@[i as int].0@, entries@[i as int].1@));
        }
        if let Some(animation_name) = extract_animation_name(entries[i].0.as_str(), unit_id) {
            let item = DiscoveredAnimation { name: animation_name, file_path: entries[i].1.clone() };
            proof {
                let before = tables_among(texts, unit_id, i as nat);
                assert(before.push(item@).drop_last() =~= before);
            }
            insert_sorted(&mut animations, item);
        }
        i += 1;
    }
    proof {
        lemma_arranged(tables_among(texts, unit_id, n as nat));
    }
    if animations.is_empty() {
        let mut m = String::from_str("No CGS animation files found for unit ");
        push_decimal(&mut m, unit_id as u128);
        m.append(" in directory '");
        m.append(input_dir);
        m.append("'");
        return Err(FfbeError::FileNotFound(m));
    }
    Ok(animations)
}

} // verus!
