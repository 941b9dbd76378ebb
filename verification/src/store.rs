//! The conversation store: listing the saved conversations of a directory,
//! the interactive selection rule, and the save path of an identifier.
//!
//! Reading the directory and the terminal is the surrounding program's work;
//! it hands in what it found (`EntryInfo`) and each input line, and this
//! module makes every decision.

use vstd::prelude::*;

use crate::ident::{file_name_of, ConvId};
use crate::strutil::{chars_to_string, str_chars, trim, trim_spec};

verus! {

/// One directory entry as the surrounding program reports it: its path and
/// whether it is a regular file.
pub struct EntryInfo {
    pub path: String,
    pub is_regular: bool,
}

/// The paths of the regular files among the entries, in enumeration order.
pub open spec fn regular_paths(s: Seq<EntryInfo>) -> Seq<Seq<char>>
    decreases s.len(),
{
    if s.len() == 0 {
        Seq::empty()
    } else {
        let rest = regular_paths(s.drop_last());
        if s.last().is_regular {
            rest.push(s.last().path@)
        } else {
            rest
        }
    }
}

/// The listing of a store directory: the regular files among the entries,
/// in enumeration order; `None` when there is none to offer. Directories
/// and other non-regular entries are never listed.
pub fn list_files_in_dir(entries: &Vec<EntryInfo>) -> (r: Option<Vec<String>>)
    ensures
        match r {
            Option::Some(l) => l.deep_view() == regular_paths(entries@) && l@.len() > 0,
            Option::None => regular_paths(entries@).len() == 0,
        },
{
    let mut out: Vec<String> = Vec::new();
    let mut i: usize = 0;
    proof {
        assert(entries@.subrange(0, 0) =~= Seq::<EntryInfo>::empty());
        assert(out.deep_view() =~= regular_paths(entries@.subrange(0, 0)));
    }
    while i < entries.len()
        invariant
            0 <= i <= entries@.len(),
            out.deep_view() == regular_paths(entries@.subrange(0, i as int)),
            out@.len() <= i,
        decreases entries@.len() - i,
    {
        let ghost pre = out.deep_view();
        if entries[i].is_regular {
            out.push(entries[i].path.clone());
            proof {
                assert(out.deep_view() =~= pre.push(entries@[i as int].path@));
            }
        }
        proof {
            assert(entries@.subrange(0, i as int + 1).drop_last() =~= entries@.subrange(
                0,
                i as int,
            ));
            assert(entries@.subrange(0, i as int + 1).last() == entries@[i as int]);
        }
        i = i + 1;
    }
    proof {
        assert(entries@.subrange(0, entries@.len() as int) =~= entries@);
    }
    if out.len() == 0 {
        proof {
            assert(regular_paths(entries@).len() == out.deep_view().len());
        }
        Option::None
    } else {
        Option::Some(out)
    }
}

/// The decimal value of a digit character, or -1 for any other character.
pub open spec fn digit_of(c: char) -> int {
    if c == '0' {
        0
    } else if c == '1' {
        1
    } else if c == '2' {
        2
    } else if c == '3' {
        3
    } else if c == '4' {
        4
    } else if c == '5' {
        5
    } else if c == '6' {
        6
    } else if c == '7' {
        7
    } else if c == '8' {
        8
    } else if c == '9' {
        9
    } else {
        -1
    }
}

pub open spec fn is_digit(c: char) -> bool {
    digit_of(c) >= 0
}

pub open spec fn all_digits(s: Seq<char>) -> bool {
    forall|i: int| 0 <= i < s.len() ==> is_digit(#[trigger] s[i])
}

/// The value of a sequence of decimal digits, most significant first.
pub open spec fn index_value(s: Seq<char>) -> int
    decreases s.len(),
{
    if s.len() == 0 {
        0
    } else {
        index_value(s.drop_last()) * 10 + digit_of(s.last())
    }
}

/// The digits of a selection line: an optional leading plus sign is
/// allowed, as Rust's unsigned parsing allows it, and everything after it
/// must be decimal digits.
pub open spec fn digit_seq_of(s: Seq<char>) -> Seq<char> {
    if s.len() > 0 && s[0] == '+' {
        s.drop_first()
    } else {
        s
    }
}

/// How a selection line is read: an optional leading plus sign, then one or
/// more decimal digits — however many, leading zeros included; the value
/// decides. Anything else is not an index.
pub open spec fn parse_index(s: Seq<char>) -> Option<int> {
    if digit_seq_of(s).len() > 0 && all_digits(digit_seq_of(s)) {
        Option::Some(index_value(digit_seq_of(s)))
    } else {
        Option::None
    }
}

fn digit_value(c: char) -> (d: u64)
    ensures
        is_digit(c) ==> d == digit_of(c),
        !is_digit(c) ==> d == 10,
{
    if c == '0' {
        0
    } else if c == '1' {
        1
    } else if c == '2' {
        2
    } else if c == '3' {
        3
    } else if c == '4' {
        4
    } else if c == '5' {
        5
    } else if c == '6' {
        6
    } else if c == '7' {
        7
    } else if c == '8' {
        8
    } else if c == '9' {
        9
    } else {
        10
    }
}

/// One round of the interactive selection: trim the line, read it as a
/// zero-based decimal index, and accept it only when it falls inside the
/// listing. Anything else — not a number, or an index at or past `count`,
/// however large — is refused, and the caller asks again.
pub fn select_step(input: &str, count: usize) -> (r: Option<usize>)
    ensures
        match r {
            Option::Some(i) => parse_index(trim_spec(input@)) == Option::Some(i as int) && i
                < count,
            Option::None => (parse_index(trim_spec(input@)) matches Option::Some(v) ==> v
                >= count),
        },
{
    let t = trim(input);
    let v = str_chars(t.as_str());
    let start: usize = if v.len() > 0 && v[0] == '+' {
        1
    } else {
        0
    };
    let ghost ds = digit_seq_of(v@);
    proof {
        if v@.len() > 0 && v@[0] == '+' {
            assert(ds =~= v@.skip(1));
        } else {
            assert(ds =~= v@.skip(0));
        }
        assert(ds =~= v@.skip(start as int));
    }
    if v.len() == start {
        return Option::None;
    }
    let mut acc: u64 = 0;
    let mut over = false;
    let mut j: usize = start;
    proof {
        assert(ds.subrange(0, 0) =~= Seq::<char>::empty());
    }
    while j < v.len()
        invariant
            v@ == trim_spec(input@),
            ds == digit_seq_of(v@),
            ds == v@.skip(start as int),
            start <= j <= v@.len(),
            start < v@.len(),
            forall|k: int| 0 <= k < j - start ==> is_digit(#[trigger] ds[k]),
            !over ==> acc as int == index_value(ds.subrange(0, j - start)),
            over ==> index_value(ds.subrange(0, j - start)) > u64::MAX as int,
        decreases v@.len() - j,
    {
        let d = digit_value(v[j]);
        proof {
            assert(ds[j as int - start as int] == v@[j as int]);
        }
        if d >= 10 {
            proof {
                assert(!is_digit(ds[j as int - start as int]));
                assert(!all_digits(ds));
            }
            return Option::None;
        }
        let ghost prefix = ds.subrange(0, j as int - start as int);
        let ghost prefix1 = ds.subrange(0, j as int - start as int + 1);
        proof {
            assert(prefix1.drop_last() =~= prefix);
            assert(prefix1.last() == ds[j as int - start as int]);
            assert(index_value(prefix1) == index_value(prefix) * 10 + d as int);
        }
        if over {
            proof {
                let pv = index_value(prefix);
                assert(pv * 10 >= pv) by (nonlinear_arith)
                    requires
                        pv >= 0,
                ;
                assert(index_value(prefix1) > u64::MAX as int);
            }
        } else if acc > 1844674407370955161u64 || (acc == 1844674407370955161u64 && d > 5) {
            over = true;
            proof {
                assert(acc as int * 10 + d as int > u64::MAX as int);
            }
        } else {
            proof {
                assert(acc as int * 10 + d as int <= u64::MAX as int);
            }
            acc = acc * 10 + d;
        }
        j = j + 1;
    }
    proof {
        assert(ds.subrange(0, v@.len() - start as int) =~= ds);
        assert(all_digits(ds));
        assert(ds.len() > 0);
        assert(parse_index(trim_spec(input@)) == Option::Some(index_value(ds)));
    }
    if over {
        proof {
            assert(count as int <= u64::MAX as int);
        }
        return Option::None;
    }
    if acc < count as u64 {
        Option::Some(acc as usize)
    } else {
        Option::None
    }
}

/// The path under which the conversation with this identifier is saved:
/// the store directory, a path separator, and the identifier's file name.
pub fn resolve_save_path(dir: &str, id: &ConvId) -> (r: String)
    ensures
        r@ == dir@ + seq!['/'] + file_name_of(*id),
{
    let mut out = str_chars(dir);
    out.push('/');
    let name = crate::ident::encode(id);
    let nc = str_chars(name.as_str());
    let mut i: usize = 0;
    proof {
        assert(out@ =~= dir@ + seq!['/'] + nc@.subrange(0, 0));
    }
    while i < nc.len()
        invariant
            nc@ == file_name_of(*id),
            0 <= i <= nc@.len(),
            out@ == dir@ + seq!['/'] + nc@.subrange(0, i as int),
        decreases nc@.len() - i,
    {
        out.push(nc[i]);
        proof {
            assert(out@ =~= dir@ + seq!['/'] + nc@.subrange(0, i as int + 1));
        }
        i = i + 1;
    }
    proof {
        assert(nc@.subrange(0, nc@.len() as int) =~= nc@);
    }
    chars_to_string(out)
}

} // verus!
