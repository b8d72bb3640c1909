//! Splitting, joining and tokenizing character sequences.

use vstd::prelude::*;
use crate::chars::is_wspace;

verus! {

/// Whether `c` occurs in `s`.
pub open spec fn has_ch(s: Seq<char>, c: char) -> bool {
    exists|i: int| 0 <= i < s.len() && s[i] == c
}

/// The index of the first occurrence of `c` in `s`.
pub open spec fn find_ch(s: Seq<char>, c: char) -> Option<int>
    decreases s.len(),
{
    if s.len() == 0 {
        None
    } else if s[0] == c {
        Some(0int)
    } else {
        match find_ch(s.drop_first(), c) {
            None => None,
            Some(i) => Some(i + 1),
        }
    }
}

/// `find_ch` returns the first occurrence of `c`, or `None` when there is
/// none.
pub proof fn lemma_find_ch(s: Seq<char>, c: char)
    ensures
        match find_ch(s, c) {
            Some(i) => 0 <= i < s.len() && s[i] == c && (forall|j: int| 0 <= j < i ==> s[j] != c),
            None => !has_ch(s, c),
        },
    decreases s.len(),
{
    if s.len() > 0 && s[0] != c {
        lemma_find_ch(s.drop_first(), c);
        match find_ch(s.drop_first(), c) {
            None => {
                assert forall|i: int| 0 <= i < s.len() implies s[i] != c by {
                    if i > 0 {
                        assert(s.drop_first()[i - 1] == s[i]);
                    }
                }
            },
            Some(i) => {
                assert(s.drop_first()[i] == s[i + 1]);
                assert forall|j: int| 0 <= j < i + 1 implies s[j] != c by {
                    if j > 0 {
                        assert(s.drop_first()[j - 1] == s[j]);
                    }
                }
            },
        }
    }
}

/// The parts of `s` between occurrences of the separator `c`: every
/// occurrence separates, so there is one part more than there are
/// separators, and parts may be empty.
pub open spec fn split_ch(s: Seq<char>, c: char) -> Seq<Seq<char>>
    decreases s.len(),
    via split_ch_dec
{
    match find_ch(s, c) {
        None => seq![s],
        Some(i) => seq![s.subrange(0, i)] + split_ch(s.subrange(i + 1, s.len() as int), c),
    }
}

#[via_fn]
proof fn split_ch_dec(s: Seq<char>, c: char) {
    lemma_find_ch(s, c);
}

/// The parts joined with the separator `c` between each two.
pub open spec fn join_ch(parts: Seq<Seq<char>>, c: char) -> Seq<char>
    decreases parts.len(),
{
    if parts.len() == 0 {
        Seq::empty()
    } else if parts.len() == 1 {
        parts[0]
    } else {
        parts[0] + seq![c] + join_ch(parts.drop_first(), c)
    }
}

/// In a sequence starting with separator-free `a`, then `c`, the first
/// occurrence of `c` is right after `a`.
pub proof fn lemma_find_ch_concat(a: Seq<char>, b: Seq<char>, c: char)
    requires
        !has_ch(a, c),
    ensures
        find_ch(a + seq![c] + b, c) == Some(a.len() as int),
    decreases a.len(),
{
    let s = a + seq![c] + b;
    if a.len() == 0 {
        assert(s[0] == c);
    } else {
        assert(s[0] == a[0]);
        assert(s[0] != c);
        assert(s.drop_first() =~= a.drop_first() + seq![c] + b);
        assert(!has_ch(a.drop_first(), c)) by {
            assert forall|i: int| 0 <= i < a.drop_first().len() implies a.drop_first()[i] != c by {
                assert(a.drop_first()[i] == a[i + 1]);
            }
        }
        lemma_find_ch_concat(a.drop_first(), b, c);
    }
}

/// Splitting on a separator that never occurs yields the whole sequence.
pub proof fn lemma_split_ch_whole(s: Seq<char>, c: char)
    requires
        !has_ch(s, c),
    ensures
        split_ch(s, c) == seq![s],
{
    lemma_find_ch(s, c);
}

/// Splitting a sequence that starts with separator-free `a`, then the
/// separator, peels off `a` as the first part.
pub proof fn lemma_split_ch_step(a: Seq<char>, b: Seq<char>, c: char)
    requires
        !has_ch(a, c),
    ensures
        split_ch(a + seq![c] + b, c) == seq![a] + split_ch(b, c),
{
    let s = a + seq![c] + b;
    lemma_find_ch_concat(a, b, c);
    assert(s.subrange(0, a.len() as int) =~= a);
    assert(s.subrange(a.len() as int + 1, s.len() as int) =~= b);
}

/// Splitting undoes joining, as long as no part contains the separator.
pub proof fn lemma_split_join(parts: Seq<Seq<char>>, c: char)
    requires
        parts.len() >= 1,
        forall|i: int| 0 <= i < parts.len() ==> !has_ch(#[trigger] parts[i], c),
    ensures
        split_ch(join_ch(parts, c), c) == parts,
    decreases parts.len(),
{
    if parts.len() == 1 {
        lemma_split_ch_whole(parts[0], c);
        assert(seq![parts[0]] =~= parts);
    } else {
        let rest = parts.drop_first();
        assert(forall|i: int| 0 <= i < rest.len() ==> !has_ch(#[trigger] rest[i], c)) by {
            assert(forall|i: int| 0 <= i < rest.len() ==> rest[i] == parts[i + 1]);
        }
        lemma_split_join(rest, c);
        assert(join_ch(parts, c) =~= parts[0] + seq![c] + join_ch(rest, c));
        lemma_split_ch_step(parts[0], join_ch(rest, c), c);
        assert(seq![parts[0]] + rest =~= parts);
    }
}

/// Sequences with no white space in them.
pub open spec fn no_ws(s: Seq<char>) -> bool {
    forall|i: int| 0 <= i < s.len() ==> !is_wspace(s[i])
}

/// The length of the leading run of non-white-space characters.
pub open spec fn token_len(s: Seq<char>) -> nat
    decreases s.len(),
{
    if s.len() == 0 || is_wspace(s[0]) {
        0
    } else {
        1 + token_len(s.drop_first())
    }
}

pub proof fn lemma_token_len_le(s: Seq<char>)
    ensures
        token_len(s) <= s.len(),
    decreases s.len(),
{
    if s.len() > 0 && !is_wspace(s[0]) {
        lemma_token_len_le(s.drop_first());
    }
}

/// The leading token of non-white-space `t` followed by nothing, or by
/// white space, is exactly `t`.
pub proof fn lemma_token_len_concat(t: Seq<char>, r: Seq<char>)
    requires
        no_ws(t),
        r.len() == 0 || is_wspace(r[0]),
    ensures
        token_len(t + r) == t.len(),
    decreases t.len(),
{
    if t.len() == 0 {
        assert(t + r =~= r);
    } else {
        assert((t + r)[0] == t[0]);
        assert((t + r).drop_first() =~= t.drop_first() + r);
        assert(no_ws(t.drop_first())) by {
            assert(forall|i: int|
                0 <= i < t.drop_first().len() ==> t.drop_first()[i] == t[i + 1]);
        }
        lemma_token_len_concat(t.drop_first(), r);
    }
}

/// The leading token runs to the first white-space character, or to the
/// end when there is none.
pub proof fn lemma_token_len_char(s: Seq<char>)
    ensures
        token_len(s) <= s.len(),
        forall|i: int| 0 <= i < token_len(s) ==> !is_wspace(s[i]),
        token_len(s) < s.len() ==> is_wspace(s[token_len(s) as int]),
    decreases s.len(),
{
    if s.len() > 0 && !is_wspace(s[0]) {
        lemma_token_len_char(s.drop_first());
        assert forall|i: int| 0 <= i < token_len(s) implies !is_wspace(s[i]) by {
            if i > 0 {
                assert(s.drop_first()[i - 1] == s[i]);
            }
        }
        if token_len(s) < s.len() {
            assert(s.drop_first()[token_len(s) - 1] == s[token_len(s) as int]);
        }
    }
}

/// The fields of a line: maximal runs of non-white-space characters,
/// separated by any amount of white space.
pub open spec fn tokenize(s: Seq<char>) -> Seq<Seq<char>>
    decreases s.len(),
    via tokenize_dec
{
    if s.len() == 0 {
        seq![]
    } else if is_wspace(s[0]) {
        tokenize(s.drop_first())
    } else {
        seq![s.subrange(0, token_len(s) as int)] + tokenize(
            s.subrange(token_len(s) as int, s.len() as int),
        )
    }
}

#[via_fn]
proof fn tokenize_dec(s: Seq<char>) {
    lemma_token_len_le(s);
}

/// Tokenizing undoes joining with single spaces, as long as every token is
/// non-empty and free of white space.
pub proof fn lemma_tokenize_join(ts: Seq<Seq<char>>)
    requires
        forall|i: int| 0 <= i < ts.len() ==> (#[trigger] ts[i]).len() > 0 && no_ws(ts[i]),
    ensures
        tokenize(join_ch(ts, ' ')) == ts,
    decreases ts.len(),
{
    if ts.len() == 0 {
    } else if ts.len() == 1 {
        let t = ts[0];
        lemma_token_len_concat(t, Seq::<char>::empty());
        assert(t + Seq::<char>::empty() =~= t);
        assert(token_len(t) == t.len());
        assert(!is_wspace(t[0]));
        assert(t.subrange(0, t.len() as int) =~= t);
        assert(t.subrange(t.len() as int, t.len() as int) =~= Seq::<char>::empty());
        assert(tokenize(t) =~= seq![t] + tokenize(Seq::<char>::empty()));
        assert(seq![t] + tokenize(Seq::<char>::empty()) =~= ts);
    } else {
        let t = ts[0];
        let rest = ts.drop_first();
        assert(forall|i: int|
            0 <= i < rest.len() ==> (#[trigger] rest[i]).len() > 0 && no_ws(rest[i])) by {
            assert(forall|i: int| 0 <= i < rest.len() ==> rest[i] == ts[i + 1]);
        }
        lemma_tokenize_join(rest);
        let s = join_ch(ts, ' ');
        let tail = seq![' '] + join_ch(rest, ' ');
        assert(s =~= t + tail);
        assert(is_wspace(tail[0]));
        lemma_token_len_concat(t, tail);
        assert(!is_wspace(s[0])) by {
            assert(s[0] == t[0]);
        }
        assert(s.subrange(0, t.len() as int) =~= t);
        assert(s.subrange(t.len() as int, s.len() as int) =~= tail);
        assert(tail.drop_first() =~= join_ch(rest, ' '));
        assert(tokenize(tail) == tokenize(join_ch(rest, ' ')));
        assert(tokenize(s) =~= seq![t] + rest);
        assert(seq![t] + rest =~= ts);
    }
}

/// A join contains a character only where a part or the separator holds it.
pub proof fn lemma_join_no_ch(parts: Seq<Seq<char>>, c: char, x: char)
    requires
        x != c,
        forall|i: int| 0 <= i < parts.len() ==> !has_ch(#[trigger] parts[i], x),
    ensures
        !has_ch(join_ch(parts, c), x),
    decreases parts.len(),
{
    if parts.len() == 0 {
    } else if parts.len() == 1 {
    } else {
        let rest = parts.drop_first();
        assert(forall|i: int| 0 <= i < rest.len() ==> !has_ch(#[trigger] rest[i], x)) by {
            assert(forall|i: int| 0 <= i < rest.len() ==> rest[i] == parts[i + 1]);
        }
        lemma_join_no_ch(rest, c, x);
        let s = join_ch(parts, c);
        assert forall|i: int| 0 <= i < s.len() implies s[i] != x by {
            if i < parts[0].len() {
                assert(s[i] == parts[0][i]);
            } else if i == parts[0].len() {
                assert(s[i] == c);
            } else {
                assert(s[i] == join_ch(rest, c)[i - parts[0].len() - 1]);
            }
        }
    }
}

} // verus!
