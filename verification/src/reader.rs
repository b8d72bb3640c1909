//! Turning file content into the ordered entry list.
//!
//! Parsing is lenient about line shape — comments and lines that do not
//! have exactly six fields are skipped — but strict about the numeric check
//! column: a six-field line whose last field is not a sixteen-bit number
//! aborts the whole parse.

use vstd::prelude::*;
use vstd::string::*;
use crate::chars::{dec_u16, is_wspace, is_wspace_char, parse_u16, str_eq};
use crate::entry::{entry_views, str_views, EntryV, FsEntry};
use crate::text::{
    find_ch, lemma_find_ch, lemma_token_len_char, split_ch, token_len, tokenize,
};

verus! {

/// Why a parse failed: the sixth column of a data line was not a
/// non-negative number below 65536.
#[derive(Clone, Copy, Debug, PartialEq, Eq)]
pub enum ParseError {
    InvalidCheckOrder,
}

/// What one line of the file means.
#[verifier::ext_equal]
pub ghost enum LineClass {
    /// A comment, a blank line, or a line without exactly six fields.
    Skip,
    /// A data line carrying one record.
    Data(EntryV),
    /// A six-field line whose check column is not a number: fatal.
    Fatal,
}

/// Classifies one line, as [`crate::FsTab::parse_entries`] treats it.
pub open spec fn line_class(l: Seq<char>) -> LineClass {
    if l.len() > 0 && l[0] == '#' {
        LineClass::Skip
    } else {
        let ts = tokenize(l);
        if ts.len() != 6 {
            LineClass::Skip
        } else {
            match dec_u16(ts[5]) {
                None => LineClass::Fatal,
                Some(k) => LineClass::Data(
                    EntryV {
                        fs_spec: ts[0],
                        mountpoint: ts[1],
                        vfs_type: ts[2],
                        mount_options: split_ch(ts[3], ','),
                        dump: ts[4] != seq!['0'],
                        fsck_order: k,
                    },
                ),
            }
        }
    }
}

/// The records of the given lines in order, or an error at the first
/// fatal line.
pub open spec fn parse_lines(ls: Seq<Seq<char>>) -> Result<Seq<EntryV>, ()>
    decreases ls.len(),
{
    if ls.len() == 0 {
        Ok(seq![])
    } else {
        match line_class(ls[0]) {
            LineClass::Fatal => Err(()),
            LineClass::Skip => parse_lines(ls.drop_first()),
            LineClass::Data(e) => match parse_lines(ls.drop_first()) {
                Ok(t) => Ok(seq![e] + t),
                Err(x) => Err(x),
            },
        }
    }
}

/// The records of a whole file: its lines are the parts between newlines.
pub open spec fn parse_table(s: Seq<char>) -> Result<Seq<EntryV>, ()> {
    parse_lines(split_ch(s, '\n'))
}

/// The index of the first occurrence of `c` in `s`, if any.
pub fn find_char(s: &str, c: char) -> (r: Option<usize>)
    ensures
        match r {
            Some(i) => i < s@.len() && s@[i as int] == c && find_ch(s@, c) == Some(i as int),
            None => find_ch(s@, c) is None,
        },
{
    let n = s.unicode_len();
    let mut i: usize = 0;
    while i < n
        invariant
            0 <= i <= n,
            n == s@.len(),
            forall|j: int| 0 <= j < i ==> s@[j] != c,
        decreases n - i,
    {
        if s.get_char(i) == c {
            proof {
                lemma_find_ch(s@, c);
            }
            return Some(i);
        }
        i += 1;
    }
    proof {
        lemma_find_ch(s@, c);
    }
    None
}

/// Splits a line into its white-space-separated fields.
pub fn tokenize_line(line: &str) -> (r: Vec<String>)
    ensures
        str_views(r@) == tokenize(line@),
    decreases line@.len(),
{
    let n = line.unicode_len();
    if n == 0 {
        let r: Vec<String> = Vec::new();
        proof {
            assert(str_views(r@) =~= tokenize(line@));
        }
        return r;
    }
    if is_wspace_char(line.get_char(0)) {
        let rest = line.substring_char(1, n);
        proof {
            assert(rest@ =~= line@.drop_first());
        }
        let r = tokenize_line(rest);
        return r;
    }
    let mut j: usize = 0;
    while j < n && !is_wspace_char(line.get_char(j))
        invariant
            0 <= j <= n,
            n == line@.len(),
            forall|k: int| 0 <= k < j ==> !is_wspace(#[trigger] line@[k]),
        decreases n - j,
    {
        j += 1;
    }
    proof {
        lemma_token_len_char(line@);
        assert(j == token_len(line@));
    }
    let tok = line.substring_char(0, j);
    let rest = line.substring_char(j, n);
    let mut r: Vec<String> = Vec::new();
    r.push(String::from_str(tok));
    let mut tail = tokenize_line(rest);
    r.append(&mut tail);
    proof {
        assert(str_views(r@) =~= tokenize(line@));
    }
    r
}

/// Splits an options column on every comma.
pub fn split_commas(s: &str) -> (r: Vec<String>)
    ensures
        str_views(r@) == split_ch(s@, ','),
    decreases s@.len(),
{
    let n = s.unicode_len();
    match find_char(s, ',') {
        None => {
            let mut r: Vec<String> = Vec::new();
            r.push(String::from_str(s));
            proof {
                assert(str_views(r@) =~= split_ch(s@, ','));
            }
            r
        },
        Some(i) => {
            let head = s.substring_char(0, i);
            let rest = s.substring_char(i + 1, n);
            let mut r: Vec<String> = Vec::new();
            r.push(String::from_str(head));
            let mut tail = split_commas(rest);
            r.append(&mut tail);
            proof {
                assert(head@ == s@.subrange(0, i as int));
                assert(rest@ == s@.subrange(i as int + 1, n as int));
                assert(str_views(r@) =~= split_ch(s@, ','));
            }
            r
        },
    }
}

/// Decodes one line: a record, a skip, or the fatal numeric error.
fn classify_line(line: &str) -> (r: Result<Option<FsEntry>, ParseError>)
    ensures
        match r {
            Ok(Some(e)) => line_class(line@) == LineClass::Data(e@),
            Ok(None) => line_class(line@) == LineClass::Skip,
            Err(_) => line_class(line@) == LineClass::Fatal,
        },
{
    let n = line.unicode_len();
    if n > 0 && line.get_char(0) == '#' {
        return Ok(None);
    }
    let mut toks = tokenize_line(line);
    if toks.len() != 6 {
        proof {
            assert(tokenize(line@).len() != 6);
        }
        return Ok(None);
    }
    match parse_u16(toks[5].as_str()) {
        None => {
            proof {
                assert(str_views(toks@)[5] == toks@[5]@);
            }
            Err(ParseError::InvalidCheckOrder)
        },
        Some(k) => {
            let mount_options = split_commas(toks[3].as_str());
            let dump = !str_eq(toks[4].as_str(), "0");
            proof {
                reveal_strlit("0");
                assert("0"@ =~= seq!['0']);
            }
            let ghost old_toks = toks@;
            let fs_spec = toks.remove(0);
            let mountpoint = toks.remove(0);
            let vfs_type = toks.remove(0);
            let e = FsEntry { fs_spec, mountpoint, vfs_type, mount_options, dump, fsck_order: k };
            proof {
                let ts = tokenize(line@);
                assert(fs_spec@ == ts[0] && mountpoint@ == ts[1] && vfs_type@ == ts[2]) by {
                    assert(str_views(old_toks)[0] == old_toks[0]@);
                    assert(str_views(old_toks)[1] == old_toks[1]@);
                    assert(str_views(old_toks)[2] == old_toks[2]@);
                }
                assert(str_views(old_toks)[3] == old_toks[3]@);
                assert(str_views(old_toks)[4] == old_toks[4]@);
                assert(str_views(old_toks)[5] == old_toks[5]@);
                assert(line_class(line@) matches LineClass::Data(ev) && e@ =~= ev);
            }
            Ok(Some(e))
        },
    }
}

/// Parses whole file content into the ordered entry list, or fails at the
/// first six-field line whose check column is not a number.
pub fn parse_str(content: &str) -> (r: Result<Vec<FsEntry>, ParseError>)
    ensures
        match r {
            Ok(v) => parse_table(content@) == Ok::<Seq<EntryV>, ()>(entry_views(v@)),
            Err(_) => parse_table(content@) is Err,
        },
    decreases content@.len(),
{
    let n = content.unicode_len();
    match find_char(content, '\n') {
        None => {
            match classify_line(content) {
                Err(e) => {
                    proof {
                        assert(split_ch(content@, '\n') == seq![content@]);
                    }
                    Err(e)
                },
                Ok(head) => {
                    let mut v: Vec<FsEntry> = Vec::new();
                    if let Some(e) = head {
                        v.push(e);
                    }
                    proof {
                        assert(split_ch(content@, '\n') == seq![content@]);
                        assert(seq![content@].drop_first() =~= Seq::<Seq<char>>::empty());
                        assert(parse_lines(Seq::<Seq<char>>::empty()) == Ok::<Seq<EntryV>, ()>(
                            seq![],
                        ));
                        assert(entry_views(v@) =~= (match line_class(content@) {
                            LineClass::Data(ev) => seq![ev],
                            _ => Seq::<EntryV>::empty(),
                        }));
                        if line_class(content@) is Data {
                            let ev = line_class(content@)->Data_0;
                            assert(parse_table(content@) == Ok::<Seq<EntryV>, ()>(seq![ev] + Seq::<EntryV>::empty()));
                            assert(seq![ev] + Seq::<EntryV>::empty() =~= seq![ev]);
                        }
                    }
                    Ok(v)
                },
            }
        },
        Some(i) => {
            let line = content.substring_char(0, i);
            let rest = content.substring_char(i + 1, n);
            proof {
                assert(line@ == content@.subrange(0, i as int));
                assert(rest@ == content@.subrange(i as int + 1, n as int));
                assert(split_ch(content@, '\n') == seq![line@] + split_ch(rest@, '\n'));
                assert((seq![line@] + split_ch(rest@, '\n')).drop_first() =~= split_ch(
                    rest@,
                    '\n',
                ));
                assert((seq![line@] + split_ch(rest@, '\n'))[0] == line@);
            }
            match classify_line(line) {
                Err(e) => Err(e),
                Ok(head) => {
                    match parse_str(rest) {
                        Err(e) => Err(e),
                        Ok(mut tail) => {
                            match head {
                                None => Ok(tail),
                                Some(e) => {
                                    let ghost tail0 = tail@;
                                    tail.insert(0, e);
                                    proof {
                                        assert(entry_views(tail@) =~= seq![e@] + entry_views(
                                            tail0,
                                        ));
                                    }
                                    Ok(tail)
                                },
                            }
                        },
                    }
                },
            }
        },
    }
}

} // verus!
