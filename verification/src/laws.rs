//! The guarantees the library gives, each stated and proved once.

use vstd::prelude::*;
use crate::chars::{
    dec_str, dec_u16, is_wspace, lemma_dec_str_digits, lemma_dec_u16_round_trip,
    lemma_digit_not_wspace,
};
use crate::entry::{entry_wf, EntryV};
use crate::reader::{line_class, parse_lines, parse_table, LineClass};
use crate::table::{
    find_device, find_equal, lemma_find_device, lemma_find_equal, removed_device, upsert_is_fresh,
    upserted, upserted_all,
};
use crate::text::{
    has_ch, join_ch, lemma_join_no_ch, lemma_split_ch_step, lemma_split_ch_whole,
    lemma_split_join, lemma_tokenize_join, no_ws, split_ch, tokenize,
};
use crate::writer::{encode_line, encode_table, wire_tokens};

verus! {

/// A sequence without white space cannot hold a white-space character.
proof fn lemma_no_ws_no_ch(s: Seq<char>, x: char)
    requires
        no_ws(s),
        is_wspace(x),
    ensures
        !has_ch(s, x),
{
    if has_ch(s, x) {
        let i = choose|i: int| 0 <= i < s.len() && s[i] == x;
        assert(!is_wspace(s[i]));
    }
}

/// Joining white-space-free parts with a non-white-space separator yields
/// a white-space-free sequence.
proof fn lemma_join_no_ws(parts: Seq<Seq<char>>, c: char)
    requires
        !is_wspace(c),
        forall|i: int| 0 <= i < parts.len() ==> no_ws(#[trigger] parts[i]),
    ensures
        no_ws(join_ch(parts, c)),
    decreases parts.len(),
{
    if parts.len() == 0 {
    } else if parts.len() == 1 {
    } else {
        let rest = parts.drop_first();
        assert(forall|i: int| 0 <= i < rest.len() ==> no_ws(#[trigger] rest[i])) by {
            assert(forall|i: int| 0 <= i < rest.len() ==> rest[i] == parts[i + 1]);
        }
        lemma_join_no_ws(rest, c);
        let s = join_ch(parts, c);
        assert forall|i: int| 0 <= i < s.len() implies !is_wspace(s[i]) by {
            if i < parts[0].len() {
                assert(s[i] == parts[0][i]);
            } else if i == parts[0].len() {
                assert(s[i] == c);
            } else {
                assert(s[i] == join_ch(rest, c)[i - parts[0].len() - 1]);
            }
        }
    }
}

/// A decimal numeral holds no white space.
proof fn lemma_dec_str_no_ws(n: nat)
    ensures
        dec_str(n).len() >= 1,
        no_ws(dec_str(n)),
{
    lemma_dec_str_digits(n);
    assert forall|i: int| 0 <= i < dec_str(n).len() implies !is_wspace(dec_str(n)[i]) by {
        lemma_digit_not_wspace(dec_str(n)[i]);
    }
}

/// Every wire column of a well-formed record is non-empty and free of
/// white space.
proof fn lemma_wire_tokens_wf(e: EntryV)
    requires
        entry_wf(e),
    ensures
        forall|i: int|
            0 <= i < wire_tokens(e).len() ==> (#[trigger] wire_tokens(e)[i]).len() > 0 && no_ws(
                wire_tokens(e)[i],
            ),
{
    let ts = wire_tokens(e);
    assert(!is_wspace(','));
    lemma_join_no_ws(e.mount_options, ',');
    if e.mount_options.len() > 1 {
        assert(join_ch(e.mount_options, ',').len() >= e.mount_options[0].len() + 1);
    } else {
        assert(join_ch(e.mount_options, ',') == e.mount_options[0]);
    }
    lemma_dec_str_no_ws(e.fsck_order as nat);
    assert(ts[3] == join_ch(e.mount_options, ','));
    assert(ts[4].len() == 1 && !is_wspace(ts[4][0]));
    assert forall|i: int| 0 <= i < ts.len() implies (#[trigger] ts[i]).len() > 0 && no_ws(
        ts[i],
    ) by {
        if i == 4 {
            assert forall|j: int| 0 <= j < ts[4].len() implies !is_wspace(ts[4][j]) by {
                assert(j == 0);
            }
        }
    }
}

/// The line of a well-formed record holds no newline.
proof fn lemma_line_no_nl(e: EntryV)
    requires
        entry_wf(e),
    ensures
        !has_ch(encode_line(e), '\n'),
{
    let ts = wire_tokens(e);
    lemma_wire_tokens_wf(e);
    assert(is_wspace('\n'));
    assert forall|i: int| 0 <= i < ts.len() implies !has_ch(#[trigger] ts[i], '\n') by {
        lemma_no_ws_no_ch(ts[i], '\n');
    }
    lemma_join_no_ch(ts, ' ', '\n');
}

/// The line of a well-formed record decodes back to exactly that record.
proof fn lemma_line_round_trip(e: EntryV)
    requires
        entry_wf(e),
    ensures
        line_class(encode_line(e)) == LineClass::Data(e),
{
    let ts = wire_tokens(e);
    let l = encode_line(e);
    lemma_wire_tokens_wf(e);
    lemma_tokenize_join(ts);
    assert(tokenize(l) == ts);
    assert(l == ts[0] + seq![' '] + join_ch(ts.drop_first(), ' '));
    assert(l[0] == e.fs_spec[0]);
    assert(l.len() > 0);
    assert(l[0] != '#');
    lemma_dec_u16_round_trip(e.fsck_order as nat);
    assert(ts[5] == dec_str(e.fsck_order as nat));
    assert(dec_u16(ts[5]) == Some(e.fsck_order));
    lemma_split_join(e.mount_options, ',');
    assert(split_ch(join_ch(e.mount_options, ','), ',') == e.mount_options);
    assert(seq!['1'] != seq!['0']) by {
        assert(seq!['1'][0] == '1');
        assert(seq!['0'][0] == '0');
    }
    assert((ts[4] != seq!['0']) == e.dump);
    let ev = line_class(l)->Data_0;
    assert(ev =~= e);
}

/// Decoding what the writer produced yields the same table: the round
/// trip is lossless for well-formed records, in field values, option
/// order and record order alike.
pub proof fn lemma_round_trip(es: Seq<EntryV>)
    requires
        forall|i: int| 0 <= i < es.len() ==> entry_wf(#[trigger] es[i]),
    ensures
        parse_table(encode_table(es)) == Ok::<Seq<EntryV>, ()>(es),
    decreases es.len(),
{
    if es.len() == 0 {
        let empty = Seq::<char>::empty();
        assert(!has_ch(empty, '\n'));
        lemma_split_ch_whole(empty, '\n');
        assert(tokenize(empty).len() == 0);
        assert(line_class(empty) == LineClass::Skip);
        assert(seq![empty].drop_first() =~= Seq::<Seq<char>>::empty());
        assert(parse_lines(Seq::<Seq<char>>::empty()) == Ok::<Seq<EntryV>, ()>(seq![]));
        assert(parse_lines(seq![empty]) == Ok::<Seq<EntryV>, ()>(seq![]));
        assert(seq![] =~= es);
    } else {
        let line0 = encode_line(es[0]);
        let rest = es.drop_first();
        let rest_enc = encode_table(rest);
        assert(forall|i: int| 0 <= i < rest.len() ==> entry_wf(#[trigger] rest[i])) by {
            assert(forall|i: int| 0 <= i < rest.len() ==> rest[i] == es[i + 1]);
        }
        lemma_round_trip(rest);
        lemma_line_no_nl(es[0]);
        assert(encode_table(es) == line0 + seq!['\n'] + rest_enc);
        lemma_split_ch_step(line0, rest_enc, '\n');
        let ls = split_ch(encode_table(es), '\n');
        assert(ls == seq![line0] + split_ch(rest_enc, '\n'));
        assert(ls[0] == line0);
        assert(ls.drop_first() =~= split_ch(rest_enc, '\n'));
        lemma_line_round_trip(es[0]);
        assert(parse_lines(ls.drop_first()) == Ok::<Seq<EntryV>, ()>(rest));
        assert(parse_lines(ls) == Ok::<Seq<EntryV>, ()>(seq![es[0]] + rest));
        assert(seq![es[0]] + rest =~= es);
    }
}

/// A comment line — one whose first character is `#` — is always skipped,
/// whatever else it holds.
pub proof fn lemma_comment_skipped(l: Seq<char>)
    requires
        l.len() > 0,
        l[0] == '#',
    ensures
        line_class(l) == LineClass::Skip,
{
}

/// A non-comment line without exactly six fields — five, seven, none —
/// is skipped, never an error.
pub proof fn lemma_wrong_width_skipped(l: Seq<char>)
    requires
        l.len() > 0 ==> l[0] != '#',
        tokenize(l).len() != 6,
    ensures
        line_class(l) == LineClass::Skip,
{
}

/// A skipped line contributes nothing: parsing with it and without it
/// agree, in result and in error alike.
pub proof fn lemma_skipped_line_ignored(ls: Seq<Seq<char>>, i: int)
    requires
        0 <= i < ls.len(),
        line_class(ls[i]) == LineClass::Skip,
    ensures
        parse_lines(ls) == parse_lines(ls.remove(i)),
    decreases ls.len(),
{
    if i == 0 {
        assert(ls.remove(0) =~= ls.drop_first());
    } else {
        let tail = ls.drop_first();
        assert(tail[i - 1] == ls[i]);
        lemma_skipped_line_ignored(tail, i - 1);
        assert(ls.remove(i)[0] == ls[0]);
        assert(ls.remove(i).drop_first() =~= tail.remove(i - 1));
        assert(ls.remove(i).len() > 0);
    }
}

/// A six-field line whose check column is not a number below 65536 is
/// fatal.
pub proof fn lemma_bad_check_order_fatal(l: Seq<char>)
    requires
        l.len() > 0 ==> l[0] != '#',
        tokenize(l).len() == 6,
        dec_u16(tokenize(l)[5]) is None,
    ensures
        line_class(l) == LineClass::Fatal,
{
}

/// One fatal line fails the whole parse, however many lines around it are
/// well formed.
pub proof fn lemma_fatal_line_fails(ls: Seq<Seq<char>>, i: int)
    requires
        0 <= i < ls.len(),
        line_class(ls[i]) == LineClass::Fatal,
    ensures
        parse_lines(ls) is Err,
    decreases ls.len(),
{
    if i > 0 {
        let tail = ls.drop_first();
        assert(tail[i - 1] == ls[i]);
        lemma_fatal_line_fails(tail, i - 1);
    }
}

/// Upsert of a record equal to none present appends it at the end and is
/// a fresh insert: the table grows by exactly one.
pub proof fn lemma_upsert_fresh(t: Seq<EntryV>, e: EntryV)
    requires
        forall|i: int| 0 <= i < t.len() ==> t[i] != e,
    ensures
        upsert_is_fresh(t, e),
        upserted(t, e) == t.push(e),
        upserted(t, e).len() == t.len() + 1,
{
    lemma_find_equal(t, e);
}

/// Upsert of a record structurally equal to one present removes the first
/// equal occurrence and appends the record: the length is unchanged and
/// the record now stands last.
pub proof fn lemma_upsert_replace(t: Seq<EntryV>, e: EntryV)
    requires
        exists|i: int| 0 <= i < t.len() && t[i] == e,
    ensures
        !upsert_is_fresh(t, e),
        find_equal(t, e) matches Some(i) && upserted(t, e) == t.remove(i).push(e),
        upserted(t, e).len() == t.len(),
        upserted(t, e).last() == e,
{
    lemma_find_equal(t, e);
    if find_equal(t, e) is None {
        let w = choose|i: int| 0 <= i < t.len() && t[i] == e;
        assert(t[w] != e);
    }
}

/// The documented quirk: a record that shares its device field with an
/// existing one but differs in any other field does not replace it.  Both
/// records coexist afterwards, the old one in place, the new one last.
pub proof fn lemma_upsert_same_device_keeps_old(t: Seq<EntryV>, e: EntryV, j: int)
    requires
        0 <= j < t.len(),
        t[j].fs_spec == e.fs_spec,
        t[j] != e,
        forall|i: int| 0 <= i < t.len() ==> t[i] != e,
    ensures
        upsert_is_fresh(t, e),
        upserted(t, e).len() == t.len() + 1,
        upserted(t, e)[j] == t[j],
        forall|i: int| 0 <= i < t.len() ==> upserted(t, e)[i] == t[i],
        upserted(t, e).last() == e,
{
    lemma_find_equal(t, e);
}

/// Removing by device takes out exactly the first record with that device
/// and nothing else; the table shrinks by one.
pub proof fn lemma_remove_found(t: Seq<EntryV>, key: Seq<char>)
    requires
        exists|i: int| 0 <= i < t.len() && t[i].fs_spec == key,
    ensures
        find_device(t, key) matches Some(i) && removed_device(t, key) == t.remove(i)
            && t[i].fs_spec == key && (forall|j: int| 0 <= j < i ==> t[j].fs_spec != key),
        removed_device(t, key).len() == t.len() - 1,
{
    lemma_find_device(t, key);
    if find_device(t, key) is None {
        let w = choose|i: int| 0 <= i < t.len() && t[i].fs_spec == key;
        assert(t[w].fs_spec != key);
    }
}

/// Removing an unknown device leaves the table untouched.
pub proof fn lemma_remove_absent(t: Seq<EntryV>, key: Seq<char>)
    requires
        forall|i: int| 0 <= i < t.len() ==> (#[trigger] t[i]).fs_spec != key,
    ensures
        find_device(t, key) is None,
        removed_device(t, key) == t,
{
    lemma_find_device(t, key);
    if find_device(t, key) is Some {
        let w = find_device(t, key)->Some_0;
        assert(t[w].fs_spec != key);
    }
}

/// A bulk upsert applies the single upserts in order: splitting a batch
/// anywhere changes nothing in the final table.
pub proof fn lemma_bulk_split(t: Seq<EntryV>, a: Seq<EntryV>, b: Seq<EntryV>)
    ensures
        upserted_all(t, a + b) == upserted_all(upserted_all(t, a), b),
    decreases a.len(),
{
    if a.len() == 0 {
        assert(a + b =~= b);
    } else {
        assert((a + b)[0] == a[0]);
        assert((a + b).drop_first() =~= a.drop_first() + b);
        lemma_bulk_split(upserted(t, a[0]), a.drop_first(), b);
    }
}

/// A bulk upsert of two records equals the two single upserts in order.
pub proof fn lemma_bulk_pair(t: Seq<EntryV>, e1: EntryV, e2: EntryV)
    ensures
        upserted_all(t, seq![e1, e2]) == upserted(upserted(t, e1), e2),
{
    let pair = seq![e1, e2];
    assert(pair.drop_first() =~= seq![e2]);
    assert(seq![e2].drop_first() =~= Seq::<EntryV>::empty());
    assert(pair[0] == e1);
    assert(seq![e2][0] == e2);
    assert(upserted_all(upserted(upserted(t, e1), e2), Seq::<EntryV>::empty()) == upserted(
        upserted(t, e1),
        e2,
    ));
    assert(upserted_all(upserted(t, e1), seq![e2]) == upserted(upserted(t, e1), e2));
    assert(upserted_all(t, pair) == upserted_all(upserted(t, e1), seq![e2]));
}

} // verus!
