//! The character database: unit numbers and the characters they belong
//! to, searched by name.

use std::collections::HashMap;
use vstd::prelude::*;
use vstd::std_specs::hash::*;
use vstd::std_specs::iter::IteratorSpec;
use crate::cli::UnitIdentifier;
use crate::error::FfbeError;
use crate::text::{chars_of, holds_at};

verus! {

/// What is known of one character.
#[derive(Default, Debug, Clone, PartialEq)]
pub struct CharacterInfo {
    pub kind: String,
    pub name: String,
    pub rarity: Option<String>,
}

/// What a search by name found.
pub enum LookupResult {
    /// Exactly one character has the name: this is its unit number.
    Found(u32),
    /// The characters whose names are like the one asked for.
    Multiple(Vec<(u32, CharacterInfo)>),
    NotFound,
}

/// The characters of the game by unit number.
#[derive(Default)]
pub struct Db(HashMap<u32, CharacterInfo>);

impl View for Db {
    type V = Map<u32, CharacterInfo>;

    closed spec fn view(&self) -> Map<u32, CharacterInfo> {
        self.0@
    }
}

/// The lower-case form of an ASCII capital; any other character itself.
pub open spec fn lowered(c: char) -> char {
    if 'A' <= c <= 'Z' {
        ((c as u32 + 32) as u8) as char
    } else {
        c
    }
}

/// `s` with its ASCII capitals in lower case.
pub open spec fn folded(s: Seq<char>) -> Seq<char> {
    Seq::new(s.len(), |i: int| lowered(s[i]))
}

/// Whether `needle` stands somewhere in `hay`, in one piece.
pub open spec fn occurs_in(needle: Seq<char>, hay: Seq<char>) -> bool {
    exists|i: int| #[trigger] found_at(needle, hay, i)
}

/// Whether `needle` stands in `hay` from position `i` on.
pub open spec fn found_at(needle: Seq<char>, hay: Seq<char>, i: int) -> bool {
    0 <= i && i + needle.len() <= hay.len() && hay.subrange(i, i + needle.len()) == needle
}

/// Whether `candidate` is `name` but for the case of ASCII letters.
pub open spec fn is_exact(candidate: Seq<char>, name: Seq<char>) -> bool {
    folded(candidate) == folded(name)
}

/// Whether `candidate` is not `name` but, the case of ASCII letters
/// aside, one of the two stands within the other.
pub open spec fn is_similar(candidate: Seq<char>, name: Seq<char>) -> bool {
    !is_exact(candidate, name) && (occurs_in(folded(name), folded(candidate)) || occurs_in(
        folded(candidate),
        folded(name),
    ))
}

/// `s` with its ASCII capitals in lower case.
fn fold_chars(s: &str) -> (out: Vec<char>)
    ensures
        out@ == folded(s@),
{
    let chars = chars_of(s);
    let mut out: Vec<char> = Vec::new();
    let n = chars.len();
    let mut i: usize = 0;
    while i < n
        invariant
            n == chars@.len(),
            chars@ == s@,
            i <= n,
            out@.len() == i,
            forall|k: int| 0 <= k < i ==> out@[k] == lowered(chars@[k]),
        decreases n - i,
    {
        let c = chars[i];
        let lower = if c >= 'A' && c <= 'Z' {
            ((c as u32 + 32) as u8) as char
        } else {
            c
        };
        out.push(lower);
        i += 1;
    }
    assert(out@ =~= folded(s@));
    out
}

/// Whether `needle` stands somewhere in `hay`.
fn occurs(needle: &Vec<char>, hay: &Vec<char>) -> (ok: bool)
    ensures
        ok == occurs_in(needle@, hay@),
{
    let n = needle.len();
    let h = hay.len();
    if n > h {
        assert forall|i: int| !#[trigger] found_at(needle@, hay@, i) by {}
        return false;
    }
    let last = h - n;
    let mut i: usize = 0;
    while i < last
        invariant
            n == needle@.len(),
            h == hay@.len(),
            last == h - n,
            i <= last,
            forall|k: int| 0 <= k < i ==> !#[trigger] found_at(needle@, hay@, k),
        decreases last - i,
    {
        if holds_at(hay, i, needle) {
            assert(found_at(needle@, hay@, i as int));
            return true;
        }
        i += 1;
    }
    let ok = holds_at(hay, last, needle);
    proof {
        if ok {
            assert(found_at(needle@, hay@, last as int));
        } else {
            assert forall|k: int| !#[trigger] found_at(needle@, hay@, k) by {}
        }
    }
    ok
}

/// Whether two runs of characters are the same.
fn same_chars(a: &Vec<char>, b: &Vec<char>) -> (ok: bool)
    ensures
        ok == (a@ == b@),
{
    if a.len() != b.len() {
        return false;
    }
    let ok = holds_at(a, 0, b);
    proof {
        assert(a@.subrange(0, 0 + b@.len() as int) =~= a@);
    }
    ok
}

impl CharacterInfo {
    /// A copy of this record.
    pub fn duplicate(&self) -> (out: CharacterInfo)
        ensures
            out == *self,
    {
        CharacterInfo {
            kind: self.kind.clone(),
            name: self.name.clone(),
            rarity: match &self.rarity {
                Some(r) => Some(r.clone()),
                None => None,
            },
        }
    }
}

/// Whether the character with unit number `k` has the name `name`, the
/// case of ASCII letters aside.
pub open spec fn exact_at(db: Map<u32, CharacterInfo>, name: Seq<char>, k: u32) -> bool {
    db.contains_key(k) && is_exact(db[k].name@, name)
}

/// Whether the character with unit number `k` has a name like `name`.
pub open spec fn similar_at(db: Map<u32, CharacterInfo>, name: Seq<char>, k: u32) -> bool {
    db.contains_key(k) && is_similar(db[k].name@, name)
}

/// Whether exactly one character has the name `name`.
pub open spec fn one_exact(db: Map<u32, CharacterInfo>, name: Seq<char>) -> bool {
    exists|uid: u32| #[trigger]
        exact_at(db, name, uid) && forall|k: u32| #[trigger] exact_at(db, name, k) ==> k == uid
}

/// Whether `list` holds the characters whose names are, or are like,
/// `name`: each of them once, with what the database knows of it, and
/// those that only have a name like it before those that have the name.
pub open spec fn lists_matches(
    list: Seq<(u32, CharacterInfo)>,
    db: Map<u32, CharacterInfo>,
    name: Seq<char>,
) -> bool {
    &&& forall|i: int|
        0 <= i < list.len() ==> (exact_at(db, name, (#[trigger] list[i]).0) || similar_at(
            db,
            name,
            list[i].0,
        )) && list[i].1 == db[list[i].0]
    &&& forall|i: int, j: int| 0 <= i < j < list.len() ==> list[i].0 != list[j].0
    &&& forall|k: u32|
        #![trigger exact_at(db, name, k)]
        #![trigger similar_at(db, name, k)]
        exact_at(db, name, k) || similar_at(db, name, k) ==> exists|i: int|
            0 <= i < list.len() && (#[trigger] list[i]).0 == k
    &&& forall|i: int, j: int|
        0 <= i < j < list.len() && exact_at(db, name, list[i].0) ==> exact_at(db, name, list[j].0)
}

/// Whether `entries` lists the database: every character once, with what
/// the database knows of it.
pub open spec fn lists_all(entries: Seq<(u32, CharacterInfo)>, db: Map<u32, CharacterInfo>) -> bool {
    &&& forall|i: int|
        0 <= i < entries.len() ==> db.contains_key((#[trigger] entries[i]).0) && db[entries[i].0]
            == entries[i].1
    &&& forall|i: int, j: int| 0 <= i < j < entries.len() ==> entries[i].0 != entries[j].0
    &&& forall|k: u32|
        db.contains_key(k) ==> exists|i: int| 0 <= i < entries.len() && (#[trigger] entries[i]).0 == k
}

impl Db {
    /// A database without characters.
    pub fn new() -> (db: Db)
        ensures
            db@ == Map::<u32, CharacterInfo>::empty(),
    {
        Self(HashMap::<u32, CharacterInfo>::new())
    }

    /// Records `val` as the character with the unit number `key`, in place
    /// of what was known of that number.
    pub fn insert(&mut self, key: u32, val: CharacterInfo)
        ensures
            final(self)@ == old(self)@.insert(key, val),
    {
        self.0.insert(key, val);
    }

    /// Walks the database: every character once, with its unit number, in
    /// no particular order.
    pub fn iter(&self) -> (it: std::collections::hash_map::Iter<'_, u32, CharacterInfo>)
        ensures
            ({
                let items = it.remaining();
                &&& items.len() == self@.dom().len()
                &&& items.no_duplicates()
                &&& forall|i: int|
                    0 <= i < items.len() ==> self@.contains_key(*(#[trigger] items[i]).0)
                        && self@[*items[i].0] == *items[i].1
                &&& forall|k: u32| #[trigger]
                    self@.contains_key(k) ==> items.contains((&k, &self@[k]))
            }),
    {
        self.0.iter()
    }

    /// The characters of the database, each once, in no particular order.
    pub fn entries(&self) -> (out: Vec<(u32, CharacterInfo)>)
        ensures
            lists_all(out@, self@),
    {
        let mut out: Vec<(u32, CharacterInfo)> = Vec::new();
        let ghost db = self.0@;
        for pair in it: self.0.iter()
            invariant
                db == self.0@,
                it.seq() == spec_hash_map_iter(&self.0).remaining(),
                it.seq().no_duplicates(),
                out@.len() == it.index(),
                forall|j: int|
                    0 <= j < out@.len() ==> (#[trigger] out@[j]).0 == *it.seq()[j].0 && out@[j].1
                        == *it.seq()[j].1,
        {
            let (uid, info) = pair;
            out.push((*uid, info.duplicate()));
        }
        proof {
            let s = spec_hash_map_iter(&self.0).remaining();
            assert forall|i: int, j: int| 0 <= i < j < out@.len() implies out@[i].0 != out@[j].0 by {
                if out@[i].0 == out@[j].0 {
                    assert(db.contains_key(*s[i].0) && db[*s[i].0] == *s[i].1);
                    assert(db.contains_key(*s[j].0) && db[*s[j].0] == *s[j].1);
                    assert(s[i] == s[j]);
                }
            }
            assert forall|k: u32| db.contains_key(k) implies exists|i: int|
                0 <= i < out@.len() && (#[trigger] out@[i]).0 == k by {
                assert(s.contains((&k, &db[k])));
                let i = choose|i: int| 0 <= i < s.len() && s[i] == (&k, &db[k]);
                assert(out@[i].0 == k);
            }
            assert forall|i: int| 0 <= i < out@.len() implies db.contains_key(
                (#[trigger] out@[i]).0,
            ) && db[out@[i].0] == out@[i].1 by {
                assert(db.contains_key(*s[i].0) && db[*s[i].0] == *s[i].1);
            }
        }
        out
    }

    /// Searches the database for the character called `name`, the case of
    /// ASCII letters aside.
    ///
    /// Where exactly one character has the name, its unit number is found.
    /// Otherwise the answer lists every character that has the name or a
    /// name like it, or says that there is none.
    pub fn find_by_name(&self, name: &str) -> (res: LookupResult)
        ensures
            match res {
                LookupResult::Found(uid) => exact_at(self@, name@, uid) && forall|k: u32| #[trigger]
                    exact_at(self@, name@, k) ==> k == uid,
                LookupResult::NotFound => forall|k: u32|
                    #![trigger exact_at(self@, name@, k)]
                    #![trigger similar_at(self@, name@, k)]
                    !exact_at(self@, name@, k) && !similar_at(self@, name@, k),
                LookupResult::Multiple(list) => {
                    &&& !one_exact(self@, name@)
                    &&& list@.len() > 0
                    &&& lists_matches(list@, self@, name@)
                },
            },
    {
        let wanted = fold_chars(name);
        let entries = self.entries();
        let ghost db = self@;
        let ghost q = name@;
        let mut exact_matches: Vec<(u32, CharacterInfo)> = Vec::new();
        let mut similar_matches: Vec<(u32, CharacterInfo)> = Vec::new();
        let ghost mut exact_from: Seq<int> = Seq::empty();
        let ghost mut similar_from: Seq<int> = Seq::empty();
        let n = entries.len();
        let mut i: usize = 0;
        while i < n
            invariant
                n == entries@.len(),
                i <= n,
                db == self@,
                q == name@,
                wanted@ == folded(q),
                lists_all(entries@, db),
                exact_from.len() == exact_matches@.len(),
                similar_from.len() == similar_matches@.len(),
                forall|e: int|
                    0 <= e < exact_from.len() ==> 0 <= #[trigger] exact_from[e] < i
                        && exact_matches@[e] == entries@[exact_from[e]] && is_exact(
                        entries@[exact_from[e]].1.name@,
                        q,
                    ),
                forall|e: int|
                    0 <= e < similar_from.len() ==> 0 <= #[trigger] similar_from[e] < i
                        && similar_matches@[e] == entries@[similar_from[e]] && is_similar(
                        entries@[similar_from[e]].1.name@,
                        q,
                    ),
                forall|a: int, b: int|
                    0 <= a < b < exact_from.len() ==> exact_from[a] < exact_from[b],
                forall|a: int, b: int|
                    0 <= a < b < similar_from.len() ==> similar_from[a] < similar_from[b],
                forall|j: int|
                    0 <= j < i && is_exact((#[trigger] entries@[j]).1.name@, q) ==> exists|e: int|
                        0 <= e < exact_from.len() && #[trigger] exact_from[e] == j,
                forall|j: int|
                    0 <= j < i && is_similar((#[trigger] entries@[j]).1.name@, q) ==> exists|
                        e: int,
                    | 0 <= e < similar_from.len() && #[trigger] similar_from[e] == j,
            decreases n - i,
        {
            let candidate = fold_chars(entries[i].1.name.as_str());
            let ghost old_exact = exact_from;
            let ghost old_similar = similar_from;
            if same_chars(&candidate, &wanted) {
                exact_matches.push((entries[i].0, entries[i].1.duplicate()));
                proof {
                    exact_from = exact_from.push(i as int);
                    assert forall|j: int|
                        0 <= j < i + 1 && is_exact(
                            (#[trigger] entries@[j]).1.name@,
                            q,
                        ) implies exists|e: int|
                        0 <= e < exact_from.len() && #[trigger] exact_from[e] == j by {
                        if j < i {
                            let e = choose|e: int|
                                0 <= e < old_exact.len() && #[trigger] old_exact[e] == j;
                            assert(exact_from[e] == j);
                        } else {
                            assert(exact_from[old_exact.len() as int] == j);
                        }
                    }
                }
            } else if occurs(&wanted, &candidate) || occurs(&candidate, &wanted) {
                similar_matches.push((entries[i].0, entries[i].1.duplicate()));
                proof {
                    similar_from = similar_from.push(i as int);
                    assert forall|j: int|
                        0 <= j < i + 1 && is_similar(
                            (#[trigger] entries@[j]).1.name@,
                            q,
                        ) implies exists|e: int|
                        0 <= e < similar_from.len() && #[trigger] similar_from[e] == j by {
                        if j < i {
                            let e = choose|e: int|
                                0 <= e < old_similar.len() && #[trigger] old_similar[e] == j;
                            assert(similar_from[e] == j);
                        } else {
                            assert(similar_from[old_similar.len() as int] == j);
                        }
                    }
                }
            }
            i += 1;
        }
        if exact_matches.len() == 1 {
            let uid = exact_matches[0].0;
            proof {
                assert(exact_matches@[0] == entries@[exact_from[0]]);
                assert(db.contains_key(entries@[exact_from[0]].0));
                assert forall|k: u32| #[trigger] exact_at(db, q, k) implies k == uid by {
                    let j = choose|j: int| 0 <= j < entries@.len() && (#[trigger] entries@[j]).0 == k;
                    assert(db[k] == entries@[j].1);
                    let e = choose|e: int| 0 <= e < exact_from.len() && #[trigger] exact_from[e] == j;
                }
            }
            return LookupResult::Found(uid);
        }
        if exact_matches.len() == 0 && similar_matches.len() == 0 {
            proof {
                assert forall|k: u32|
                    #![trigger exact_at(db, q, k)]
                    #![trigger similar_at(db, q, k)]
                    !exact_at(db, q, k) && !similar_at(db, q, k) by {
                    if db.contains_key(k) {
                        let j = choose|j: int|
                            0 <= j < entries@.len() && (#[trigger] entries@[j]).0 == k;
                        assert(db[k] == entries@[j].1);
                        if is_exact(entries@[j].1.name@, q) {
                            let e = choose|e: int|
                                0 <= e < exact_from.len() && #[trigger] exact_from[e] == j;
                        }
                        if is_similar(entries@[j].1.name@, q) {
                            let e = choose|e: int|
                                0 <= e < similar_from.len() && #[trigger] similar_from[e] == j;
                        }
                    }
                }
            }
            return LookupResult::NotFound;
        }
        let ghost similar_part = similar_matches@;
        let ghost exact_part = exact_matches@;
        similar_matches.append(&mut exact_matches);
        proof {
            let list = similar_matches@;
            let split = similar_part.len() as int;
            assert(list =~= similar_part + exact_part);
            let from = similar_from + exact_from;
            assert forall|p: int| 0 <= p < list.len() implies 0 <= #[trigger] from[p] < n && list[p]
                == entries@[from[p]] && (if p < split {
                is_similar(entries@[from[p]].1.name@, q)
            } else {
                is_exact(entries@[from[p]].1.name@, q)
            }) by {
                if p < split {
                    assert(from[p] == similar_from[p]);
                } else {
                    assert(from[p] == exact_from[p - split]);
                }
            }
            assert forall|a: int, b: int| 0 <= a < b < list.len() implies from[a] != from[b] by {
                if a < split && b >= split {
                    assert(is_similar(entries@[from[a]].1.name@, q));
                    assert(is_exact(entries@[from[b]].1.name@, q));
                } else if b < split {
                    assert(from[a] == similar_from[a] && from[b] == similar_from[b]);
                } else {
                    assert(from[a] == exact_from[a - split] && from[b] == exact_from[b - split]);
                }
            }
            assert forall|p: int| 0 <= p < list.len() implies (exact_at(
                db,
                q,
                (#[trigger] list[p]).0,
            ) || similar_at(db, q, list[p].0)) && list[p].1 == db[list[p].0] by {
                assert(list[p] == entries@[from[p]]);
                assert(db.contains_key(entries@[from[p]].0));
            }
            assert forall|a: int, b: int| 0 <= a < b < list.len() implies list[a].0 != list[b].0 by {
                assert(from[a] != from[b]);
                assert(list[a] == entries@[from[a]] && list[b] == entries@[from[b]]);
                if from[a] < from[b] {
                    assert(entries@[from[a]].0 != entries@[from[b]].0);
                } else {
                    assert(entries@[from[b]].0 != entries@[from[a]].0);
                }
            }
            assert forall|k: u32|
                #![trigger exact_at(db, q, k)]
                #![trigger similar_at(db, q, k)]
                exact_at(db, q, k) || similar_at(db, q, k) implies exists|p: int|
                0 <= p < list.len() && (#[trigger] list[p]).0 == k by {
                let j = choose|j: int| 0 <= j < entries@.len() && (#[trigger] entries@[j]).0 == k;
                assert(db[k] == entries@[j].1);
                if is_exact(entries@[j].1.name@, q) {
                    let e = choose|e: int| 0 <= e < exact_from.len() && #[trigger] exact_from[e] == j;
                    assert(from[split + e] == j);
                    assert(list[split + e].0 == k);
                } else {
                    let e = choose|e: int|
                        0 <= e < similar_from.len() && #[trigger] similar_from[e] == j;
                    assert(from[e] == j);
                    assert(list[e].0 == k);
                }
            }
            assert forall|a: int, b: int|
                0 <= a < b < list.len() && exact_at(db, q, list[a].0) implies exact_at(
                db,
                q,
                list[b].0,
            ) by {
                assert(list[a] == entries@[from[a]] && list[b] == entries@[from[b]]);
                assert(db[list[a].0] == entries@[from[a]].1);
                assert(db[list[b].0] == entries@[from[b]].1);
                assert(db.contains_key(list[b].0));
                if a < split {
                    assert(is_similar(entries@[from[a]].1.name@, q));
                } else {
                    assert(is_exact(entries@[from[b]].1.name@, q));
                }
            }
            if one_exact(db, q) {
                let uid = choose|uid: u32| #[trigger]
                    exact_at(db, q, uid) && forall|k: u32| #[trigger]
                        exact_at(db, q, k) ==> k == uid;
                let j = choose|j: int| 0 <= j < entries@.len() && (#[trigger] entries@[j]).0 == uid;
                assert(db[uid] == entries@[j].1);
                let e = choose|e: int| 0 <= e < exact_from.len() && #[trigger] exact_from[e] == j;
                assert(exact_from.len() >= 2);
                let other = if e == 0 {
                    1int
                } else {
                    0int
                };
                let jo = exact_from[other];
                assert(exact_part[other] == entries@[jo]);
                assert(db.contains_key(entries@[jo].0) && db[entries@[jo].0] == entries@[jo].1);
                assert(exact_at(db, q, entries@[jo].0));
                if jo < j {
                    assert(entries@[jo].0 != entries@[j].0);
                } else {
                    assert(jo != j);
                    assert(entries@[j].0 != entries@[jo].0);
                }
            }
        }
        LookupResult::Multiple(similar_matches)
    }
}

/// The unit number that `identifier` stands for: the number itself, or
/// that of the one character of `db` that has the name.
///
/// Fails with a character-not-found error, carrying the name, where no
/// character or more than one has it.
pub fn resolve_unit_id(identifier: &UnitIdentifier, db: &Db) -> (res: Result<u32, FfbeError>)
    ensures
        match *identifier {
            UnitIdentifier::Id(id) => res == Ok::<u32, FfbeError>(id),
            UnitIdentifier::Name(name) => if one_exact(db@, name@) {
                res matches Ok(uid) && exact_at(db@, name@, uid)
            } else {
                res matches Err(FfbeError::CharacterNotFound(n)) && n@ == name@
            },
        },
{
    match identifier {
        UnitIdentifier::Id(id) => Ok(*id),
        UnitIdentifier::Name(name) => match db.find_by_name(name.as_str()) {
            LookupResult::Found(uid) => {
                assert(one_exact(db@, name@));
                Ok(uid)
            },
            LookupResult::NotFound => {
                assert(!one_exact(db@, name@));
                Err(FfbeError::CharacterNotFound(name.clone()))
            },
            LookupResult::Multiple(_) => Err(FfbeError::CharacterNotFound(name.clone())),
        },
    }
}

} // verus!
