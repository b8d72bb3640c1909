//! The table handle and the mutation layer.
//!
//! Every mutating operation works on a full snapshot of the file: the
//! caller reads the current content, hands it in, and writes the returned
//! content back.  Upsert is keyed on whole-record equality; removal is
//! keyed on the device field alone.  That asymmetry is deliberate and
//! preserved.

use vstd::prelude::*;
use vstd::string::*;
use crate::chars::str_eq;
use crate::entry::{entry_views, EntryV, FsEntry};
use crate::reader::{parse_str, parse_table, ParseError};
use crate::writer::{encode_entries, encode_table};

verus! {

/// The index of the first record structurally equal to `e`.
pub open spec fn find_equal(t: Seq<EntryV>, e: EntryV) -> Option<int>
    decreases t.len(),
{
    if t.len() == 0 {
        None
    } else if t[0] == e {
        Some(0int)
    } else {
        match find_equal(t.drop_first(), e) {
            None => None,
            Some(i) => Some(i + 1),
        }
    }
}

/// `find_equal` returns the first structurally equal record, or `None`
/// when there is none.
pub proof fn lemma_find_equal(t: Seq<EntryV>, e: EntryV)
    ensures
        match find_equal(t, e) {
            Some(i) => 0 <= i < t.len() && t[i] == e && (forall|j: int| 0 <= j < i ==> t[j] != e),
            None => forall|j: int| 0 <= j < t.len() ==> t[j] != e,
        },
    decreases t.len(),
{
    if t.len() > 0 && t[0] != e {
        lemma_find_equal(t.drop_first(), e);
        match find_equal(t.drop_first(), e) {
            None => {
                assert forall|j: int| 0 <= j < t.len() implies t[j] != e by {
                    if j > 0 {
                        assert(t.drop_first()[j - 1] == t[j]);
                    }
                }
            },
            Some(i) => {
                assert(t.drop_first()[i] == t[i + 1]);
                assert forall|j: int| 0 <= j < i + 1 implies t[j] != e by {
                    if j > 0 {
                        assert(t.drop_first()[j - 1] == t[j]);
                    }
                }
            },
        }
    }
}

/// The table after the upsert of `e`: the first structurally equal record,
/// if any, leaves its place, and `e` goes to the end either way.
pub open spec fn upserted(t: Seq<EntryV>, e: EntryV) -> Seq<EntryV> {
    match find_equal(t, e) {
        None => t.push(e),
        Some(i) => t.remove(i).push(e),
    }
}

/// Whether the upsert of `e` into `t` is a fresh insert rather than a
/// replacement.
pub open spec fn upsert_is_fresh(t: Seq<EntryV>, e: EntryV) -> bool {
    find_equal(t, e) is None
}

/// The table after upserting each record of `es`, in order.
pub open spec fn upserted_all(t: Seq<EntryV>, es: Seq<EntryV>) -> Seq<EntryV>
    decreases es.len(),
{
    if es.len() == 0 {
        t
    } else {
        upserted_all(upserted(t, es[0]), es.drop_first())
    }
}

/// The index of the first record whose device field is `key`.
pub open spec fn find_device(t: Seq<EntryV>, key: Seq<char>) -> Option<int>
    decreases t.len(),
{
    if t.len() == 0 {
        None
    } else if t[0].fs_spec == key {
        Some(0int)
    } else {
        match find_device(t.drop_first(), key) {
            None => None,
            Some(i) => Some(i + 1),
        }
    }
}

/// `find_device` returns the first record keyed by `key`, or `None` when
/// there is none.
pub proof fn lemma_find_device(t: Seq<EntryV>, key: Seq<char>)
    ensures
        match find_device(t, key) {
            Some(i) => 0 <= i < t.len() && t[i].fs_spec == key && (forall|j: int|
                0 <= j < i ==> t[j].fs_spec != key),
            None => forall|j: int| 0 <= j < t.len() ==> t[j].fs_spec != key,
        },
    decreases t.len(),
{
    if t.len() > 0 && t[0].fs_spec != key {
        lemma_find_device(t.drop_first(), key);
        match find_device(t.drop_first(), key) {
            None => {
                assert forall|j: int| 0 <= j < t.len() implies t[j].fs_spec != key by {
                    if j > 0 {
                        assert(t.drop_first()[j - 1] == t[j]);
                    }
                }
            },
            Some(i) => {
                assert(t.drop_first()[i] == t[i + 1]);
                assert forall|j: int| 0 <= j < i + 1 implies t[j].fs_spec != key by {
                    if j > 0 {
                        assert(t.drop_first()[j - 1] == t[j]);
                    }
                }
            },
        }
    }
}

/// The table after removing the first record keyed by `key`, if any.
pub open spec fn removed_device(t: Seq<EntryV>, key: Seq<char>) -> Seq<EntryV> {
    match find_device(t, key) {
        None => t,
        Some(i) => t.remove(i),
    }
}

/// Replaces the first structurally equal record or appends the new one;
/// the record stands at the end afterwards either way.  Returns `true`
/// when no equal record existed.
pub fn upsert_entry(table: &mut Vec<FsEntry>, entry: FsEntry) -> (fresh: bool)
    ensures
        entry_views(final(table)@) == upserted(entry_views(old(table)@), entry@),
        fresh == upsert_is_fresh(entry_views(old(table)@), entry@),
{
    let ghost t0 = entry_views(table@);
    let n = table.len();
    let mut i: usize = 0;
    while i < n
        invariant
            0 <= i <= n,
            n == table@.len(),
            table@ == old(table)@,
            t0 == entry_views(old(table)@),
            forall|j: int| 0 <= j < i ==> t0[j] != entry@,
        decreases n - i,
    {
        if table[i] == entry {
            proof {
                assert(t0[i as int] == table@[i as int]@);
                lemma_find_equal(t0, entry@);
                assert(find_equal(t0, entry@) == Some(i as int));
            }
            let _ = table.remove(i);
            table.push(entry);
            proof {
                assert(entry_views(table@) =~= t0.remove(i as int).push(entry@));
            }
            return false;
        }
        proof {
            assert(t0[i as int] == table@[i as int]@);
        }
        i += 1;
    }
    proof {
        lemma_find_equal(t0, entry@);
    }
    table.push(entry);
    proof {
        assert(entry_views(table@) =~= t0.push(entry@));
    }
    true
}

/// Upserts each record in order against one working copy of the table.
pub fn upsert_entries(table: &mut Vec<FsEntry>, new_entries: Vec<FsEntry>)
    ensures
        entry_views(final(table)@) == upserted_all(
            entry_views(old(table)@),
            entry_views(new_entries@),
        ),
{
    let ghost t0 = entry_views(table@);
    let ghost all = entry_views(new_entries@);
    let mut pending = new_entries;
    while pending.len() > 0
        invariant
            upserted_all(t0, all) == upserted_all(
                entry_views(table@),
                entry_views(pending@),
            ),
        decreases pending@.len(),
    {
        let ghost pv = entry_views(pending@);
        let ghost cur = entry_views(table@);
        let e = pending.remove(0);
        upsert_entry(table, e);
        proof {
            assert(entry_views(pending@) =~= pv.drop_first());
            assert(pv[0] == e@);
            assert(upserted_all(cur, pv) == upserted_all(upserted(cur, pv[0]), pv.drop_first()));
        }
    }
    proof {
        assert(entry_views(pending@) =~= Seq::<EntryV>::empty());
        assert(upserted_all(entry_views(table@), Seq::<EntryV>::empty()) == entry_views(table@));
    }
}

/// Removes the first record whose device field equals `device`; later
/// records with the same device stay.  Returns whether one was found.
pub fn remove_matching(table: &mut Vec<FsEntry>, device: &str) -> (found: bool)
    ensures
        entry_views(final(table)@) == removed_device(entry_views(old(table)@), device@),
        found == (find_device(entry_views(old(table)@), device@) is Some),
{
    let ghost t0 = entry_views(table@);
    let n = table.len();
    let mut i: usize = 0;
    while i < n
        invariant
            0 <= i <= n,
            n == table@.len(),
            table@ == old(table)@,
            t0 == entry_views(old(table)@),
            forall|j: int| 0 <= j < i ==> (#[trigger] t0[j]).fs_spec != device@,
        decreases n - i,
    {
        if str_eq(table[i].fs_spec.as_str(), device) {
            proof {
                assert(t0[i as int] == table@[i as int]@);
                lemma_find_device(t0, device@);
                assert(find_device(t0, device@) == Some(i as int));
            }
            let _ = table.remove(i);
            proof {
                assert(entry_views(table@) =~= t0.remove(i as int));
            }
            return true;
        }
        proof {
            assert(t0[i as int] == table@[i as int]@);
        }
        i += 1;
    }
    proof {
        lemma_find_device(t0, device@);
    }
    false
}

/// A handle on one mount table: the location of its backing file.  The
/// handle itself holds no table state; every operation works on the file
/// content the caller passes in.
#[derive(Debug)]
pub struct FsTab {
    location: String,
}

impl FsTab {
    /// The path of the backing file, as given at construction.
    pub closed spec fn loc(&self) -> Seq<char> {
        self.location@
    }

    /// Makes a handle for the table stored at `fstab`.
    pub fn new(fstab: &str) -> (r: FsTab)
        ensures
            r.loc() == fstab@,
    {
        FsTab { location: String::from_str(fstab) }
    }

    /// The location this handle was made for.
    pub fn location(&self) -> (r: &str)
        ensures
            r@ == self.loc(),
    {
        self.location.as_str()
    }

    /// Parses table file content into the ordered entry list.  Comments and
    /// lines without exactly six fields are skipped; a six-field line whose
    /// check column is not a number below 65536 fails the whole parse.
    pub fn parse_entries(&self, content: &str) -> (r: Result<Vec<FsEntry>, ParseError>)
        ensures
            match r {
                Ok(v) => parse_table(content@) == Ok::<Seq<EntryV>, ()>(entry_views(v@)),
                Err(_) => parse_table(content@) is Err,
            },
    {
        parse_str(content)
    }

    /// The upsert of one record on the table text.  The new content holds
    /// the parsed table with the record moved or added at the end; the flag
    /// is `true` when no structurally equal record existed before.
    pub fn add_entry(&self, content: &str, entry: FsEntry) -> (r: Result<
        (String, bool),
        ParseError,
    >)
        ensures
            match r {
                Ok(out) => parse_table(content@) matches Ok(t) && out.0@ == encode_table(
                    upserted(t, entry@),
                ) && out.1 == upsert_is_fresh(t, entry@),
                Err(_) => parse_table(content@) is Err,
            },
    {
        match parse_str(content) {
            Err(e) => Err(e),
            Ok(mut table) => {
                let fresh = upsert_entry(&mut table, entry);
                let out = encode_entries(&table);
                Ok((out, fresh))
            },
        }
    }

    /// The upsert of a batch of records on the table text, each applied in
    /// order against one working copy, with a single rewrite at the end.
    pub fn add_entries(&self, content: &str, new_entries: Vec<FsEntry>) -> (r: Result<
        String,
        ParseError,
    >)
        ensures
            match r {
                Ok(out) => parse_table(content@) matches Ok(t) && out@ == encode_table(
                    upserted_all(t, entry_views(new_entries@)),
                ),
                Err(_) => parse_table(content@) is Err,
            },
    {
        match parse_str(content) {
            Err(e) => Err(e),
            Ok(mut table) => {
                upsert_entries(&mut table, new_entries);
                Ok(encode_entries(&table))
            },
        }
    }

    /// The removal of the first record whose device field equals `device`.
    /// `Ok(Some(content))` carries the rewritten table; `Ok(None)` means no
    /// record matched and the file needs no rewrite.
    pub fn remove_entry(&self, content: &str, device: &str) -> (r: Result<
        Option<String>,
        ParseError,
    >)
        ensures
            match r {
                Ok(Some(out)) => parse_table(content@) matches Ok(t) && find_device(t, device@)
                    is Some && out@ == encode_table(removed_device(t, device@)),
                Ok(None) => parse_table(content@) matches Ok(t) && find_device(t, device@)
                    is None,
                Err(_) => parse_table(content@) is Err,
            },
    {
        match parse_str(content) {
            Err(e) => Err(e),
            Ok(mut table) => {
                if remove_matching(&mut table, device) {
                    Ok(Some(encode_entries(&table)))
                } else {
                    Ok(None)
                }
            },
        }
    }
}

impl Default for FsTab {
    /// The conventional table location on Linux-like systems.
    fn default() -> (r: FsTab)
        ensures
            r.loc() == "/etc/fstab"@,
    {
        FsTab { location: String::from_str("/etc/fstab") }
    }
}

} // verus!
