//! Characters, trimming, and the two conversions between `&str` and
//! `Vec<char>` that the rest of the library builds on.

use vstd::prelude::*;
use vstd::string::StrSliceExecFns;

verus! {

/// Whitespace as `str::trim` strips it: the characters with Unicode's
/// White_Space property.
pub open spec fn is_space(c: char) -> bool {
    let u = c as u32;
    (0x09 <= u && u <= 0x0D) || u == 0x20 || u == 0x85 || u == 0xA0 || u == 0x1680 || (0x2000 <= u
        && u <= 0x200A) || u == 0x2028 || u == 0x2029 || u == 0x202F || u == 0x205F || u == 0x3000
}

/// The sequence with leading whitespace removed.
pub open spec fn trim_start_spec(s: Seq<char>) -> Seq<char>
    decreases s.len(),
{
    if s.len() > 0 && is_space(s[0]) {
        trim_start_spec(s.drop_first())
    } else {
        s
    }
}

/// The sequence with trailing whitespace removed.
pub open spec fn trim_end_spec(s: Seq<char>) -> Seq<char>
    decreases s.len(),
{
    if s.len() > 0 && is_space(s.last()) {
        trim_end_spec(s.drop_last())
    } else {
        s
    }
}

/// The sequence with leading and trailing whitespace removed.
pub open spec fn trim_spec(s: Seq<char>) -> Seq<char> {
    trim_end_spec(trim_start_spec(s))
}

/// The characters of a string, in order, as a vector.
pub(crate) fn str_chars(s: &str) -> (r: Vec<char>)
    ensures
        r@ == s@,
{
    let n = s.unicode_len();
    let mut out: Vec<char> = Vec::new();
    let mut i: usize = 0;
    proof {
        assert(out@ =~= s@.subrange(0, 0));
    }
    while i < n
        invariant
            n == s@.len(),
            0 <= i <= n,
            out@ == s@.subrange(0, i as int),
        decreases n - i,
    {
        out.push(s.get_char(i));
        proof {
            assert(out@ =~= s@.subrange(0, i as int + 1));
        }
        i = i + 1;
    }
    proof {
        assert(s@.subrange(0, n as int) =~= s@);
    }
    out
}

/// Relies on `String: FromIterator<char>`: collecting characters builds the
/// string of exactly those characters, in order.
#[verifier::external_body]
pub(crate) fn chars_to_string(v: Vec<char>) -> (r: String)
    ensures
        r@ == v@,
{
    v.into_iter().collect()
}

fn space(c: char) -> (b: bool)
    ensures
        b == is_space(c),
{
    let u = c as u32;
    (0x09 <= u && u <= 0x0D) || u == 0x20 || u == 0x85 || u == 0xA0 || u == 0x1680 || (0x2000 <= u
        && u <= 0x200A) || u == 0x2028 || u == 0x2029 || u == 0x202F || u == 0x205F || u == 0x3000
}

/// The input with leading and trailing whitespace removed, as `str::trim`
/// strips it from interactive input lines.
pub fn trim(s: &str) -> (r: String)
    ensures
        r@ == trim_spec(s@),
{
    let v = str_chars(s);
    let n = v.len();
    let mut start: usize = 0;
    proof {
        assert(s@.skip(0) =~= s@);
    }
    while start < n && space(v[start])
        invariant
            v@ == s@,
            n == v@.len(),
            0 <= start <= n,
            trim_start_spec(s@) == trim_start_spec(s@.skip(start as int)),
        decreases n - start,
    {
        proof {
            assert(s@.skip(start as int).drop_first() =~= s@.skip(start as int + 1));
        }
        start = start + 1;
    }
    proof {
        if start < n {
            assert(trim_start_spec(s@.skip(start as int)) == s@.skip(start as int));
        } else {
            assert(s@.skip(start as int) =~= Seq::<char>::empty());
        }
        assert(trim_start_spec(s@) == s@.skip(start as int));
    }
    let mut end: usize = n;
    while end > start && space(v[end - 1])
        invariant
            v@ == s@,
            n == v@.len(),
            0 <= start <= end <= n,
            trim_start_spec(s@) == s@.skip(start as int),
            trim_end_spec(s@.skip(start as int)) == trim_end_spec(
                s@.subrange(start as int, end as int),
            ),
        decreases end,
    {
        proof {
            assert(s@.subrange(start as int, end as int).drop_last() =~= s@.subrange(
                start as int,
                end as int - 1,
            ));
        }
        end = end - 1;
    }
    proof {
        if end > start {
            assert(trim_end_spec(s@.subrange(start as int, end as int)) == s@.subrange(
                start as int,
                end as int,
            ));
        } else {
            assert(s@.subrange(start as int, end as int) =~= Seq::<char>::empty());
        }
        assert(trim_spec(s@) == s@.subrange(start as int, end as int));
    }
    let mut out: Vec<char> = Vec::new();
    let mut i: usize = start;
    while i < end
        invariant
            v@ == s@,
            start <= i <= end <= v@.len(),
            out@ == s@.subrange(start as int, i as int),
        decreases end - i,
    {
        out.push(v[i]);
        proof {
            assert(out@ =~= s@.subrange(start as int, i as int + 1));
        }
        i = i + 1;
    }
    chars_to_string(out)
}

} // verus!
