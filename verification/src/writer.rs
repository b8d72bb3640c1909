//! Serializing the ordered entry list back to file content.
//!
//! Writing always regenerates the whole file from the structured model:
//! comments, blank lines and original spacing are never reproduced.

use vstd::prelude::*;
use vstd::string::*;
use crate::chars::{dec_str, format_u16};
use crate::entry::{entry_views, str_views, EntryV, FsEntry};
use crate::text::join_ch;

verus! {

/// The six columns of a record on the wire, in order: device, mount point,
/// type, comma-joined options, dump flag as `0`/`1`, check order.
pub open spec fn wire_tokens(e: EntryV) -> Seq<Seq<char>> {
    seq![
        e.fs_spec,
        e.mountpoint,
        e.vfs_type,
        join_ch(e.mount_options, ','),
        if e.dump {
            seq!['1']
        } else {
            seq!['0']
        },
        dec_str(e.fsck_order as nat),
    ]
}

/// One record as its line: the six columns joined by single spaces.
pub open spec fn encode_line(e: EntryV) -> Seq<char> {
    join_ch(wire_tokens(e), ' ')
}

/// A table as file content: each record's line, newline-terminated, in
/// order.
pub open spec fn encode_table(es: Seq<EntryV>) -> Seq<char>
    decreases es.len(),
{
    if es.len() == 0 {
        Seq::empty()
    } else {
        encode_line(es[0]) + seq!['\n'] + encode_table(es.drop_first())
    }
}

/// A line is the plain concatenation of its columns with single spaces.
pub proof fn lemma_encode_line_concat(e: EntryV)
    ensures
        encode_line(e) == e.fs_spec + seq![' '] + e.mountpoint + seq![' '] + e.vfs_type
            + seq![' '] + join_ch(e.mount_options, ',') + seq![' '] + (if e.dump {
            seq!['1']
        } else {
            seq!['0']
        }) + seq![' '] + dec_str(e.fsck_order as nat),
{
    let ts = wire_tokens(e);
    let dumptok: Seq<char> = if e.dump {
        seq!['1']
    } else {
        seq!['0']
    };
    let fsck = dec_str(e.fsck_order as nat);
    let t5 = seq![fsck];
    let t4 = seq![dumptok, fsck];
    let t3 = seq![join_ch(e.mount_options, ','), dumptok, fsck];
    let t2 = seq![e.vfs_type, join_ch(e.mount_options, ','), dumptok, fsck];
    let t1 = seq![e.mountpoint, e.vfs_type, join_ch(e.mount_options, ','), dumptok, fsck];
    assert(ts.drop_first() =~= t1);
    assert(t1.drop_first() =~= t2);
    assert(t2.drop_first() =~= t3);
    assert(t3.drop_first() =~= t4);
    assert(t4.drop_first() =~= t5);
    assert(join_ch(t5, ' ') == fsck);
    assert(join_ch(t4, ' ') == dumptok + seq![' '] + fsck);
    assert(join_ch(t3, ' ') == join_ch(e.mount_options, ',') + seq![' '] + join_ch(t4, ' '));
    assert(join_ch(t2, ' ') == e.vfs_type + seq![' '] + join_ch(t3, ' '));
    assert(join_ch(t1, ' ') == e.mountpoint + seq![' '] + join_ch(t2, ' '));
    assert(join_ch(ts, ' ') == e.fs_spec + seq![' '] + join_ch(t1, ' '));
    assert(join_ch(ts, ' ') =~= e.fs_spec + seq![' '] + e.mountpoint + seq![' '] + e.vfs_type
        + seq![' '] + join_ch(e.mount_options, ',') + seq![' '] + dumptok + seq![' '] + fsck);
}

/// Joins the options from index `i` on with commas.
fn join_commas_from(opts: &Vec<String>, i: usize) -> (r: String)
    requires
        i < opts@.len(),
    ensures
        r@ == join_ch(str_views(opts@).skip(i as int), ','),
    decreases opts@.len() - i,
{
    let n = opts.len();
    let mut s = String::from_str(opts[i].as_str());
    let ghost v = str_views(opts@);
    proof {
        assert(v.skip(i as int)[0] == v[i as int]);
    }
    if i + 1 < n {
        s.append(",");
        let rest = join_commas_from(opts, i + 1);
        s.append(rest.as_str());
        proof {
            reveal_strlit(",");
            assert(v.skip(i as int).drop_first() =~= v.skip(i as int + 1));
            assert(s@ =~= join_ch(v.skip(i as int), ','));
        }
    } else {
        proof {
            assert(v.skip(i as int) =~= seq![v[i as int]]);
            assert(s@ =~= join_ch(v.skip(i as int), ','));
        }
    }
    s
}

/// Joins an options list with commas; an empty list joins to nothing.
pub fn join_options(opts: &Vec<String>) -> (r: String)
    ensures
        r@ == join_ch(str_views(opts@), ','),
{
    if opts.len() == 0 {
        let r = String::new();
        proof {
            assert(str_views(opts@) =~= Seq::<Seq<char>>::empty());
        }
        r
    } else {
        let r = join_commas_from(opts, 0);
        proof {
            assert(str_views(opts@).skip(0) =~= str_views(opts@));
        }
        r
    }
}

/// Serializes one record as its wire line.
pub fn render_line(e: &FsEntry) -> (r: String)
    ensures
        r@ == encode_line(e@),
{
    let mut s = String::from_str(e.fs_spec.as_str());
    s.append(" ");
    s.append(e.mountpoint.as_str());
    s.append(" ");
    s.append(e.vfs_type.as_str());
    s.append(" ");
    let opts = join_options(&e.mount_options);
    s.append(opts.as_str());
    s.append(" ");
    if e.dump {
        s.append("1");
    } else {
        s.append("0");
    }
    s.append(" ");
    let k = format_u16(e.fsck_order);
    s.append(k.as_str());
    proof {
        reveal_strlit(" ");
        reveal_strlit("1");
        reveal_strlit("0");
        lemma_encode_line_concat(e@);
        assert(s@ =~= encode_line(e@));
    }
    s
}

/// Serializes the records from index `i` on.
fn encode_from(entries: &Vec<FsEntry>, i: usize) -> (r: String)
    requires
        i <= entries@.len(),
    ensures
        r@ == encode_table(entry_views(entries@).skip(i as int)),
    decreases entries@.len() - i,
{
    if i == entries.len() {
        let r = String::new();
        proof {
            assert(entry_views(entries@).skip(i as int) =~= Seq::<EntryV>::empty());
        }
        r
    } else {
        let mut s = render_line(&entries[i]);
        s.append("\n");
        let rest = encode_from(entries, i + 1);
        s.append(rest.as_str());
        proof {
            reveal_strlit("\n");
            let v = entry_views(entries@);
            assert(v.skip(i as int)[0] == v[i as int]);
            assert(v.skip(i as int).drop_first() =~= v.skip(i as int + 1));
            assert(s@ =~= encode_table(v.skip(i as int)));
        }
        s
    }
}

/// Serializes the ordered entry list as full file content: one line per
/// record, in list order, nothing else.
pub fn encode_entries(entries: &Vec<FsEntry>) -> (r: String)
    ensures
        r@ == encode_table(entry_views(entries@)),
{
    let r = encode_from(entries, 0);
    proof {
        assert(entry_views(entries@).skip(0) =~= entry_views(entries@));
    }
    r
}

} // verus!
