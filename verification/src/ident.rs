//! Conversation identifiers and their on-disk file names.
//!
//! An identifier is a 128-bit value; its file name is
//! `convo-<identifier>.txt`, the identifier written in its canonical
//! textual form: 32 lowercase hexadecimal digits in groups of 8-4-4-4-12
//! separated by hyphens. `encode` is total; `decode` accepts exactly the
//! names that `encode` produces and rejects everything else, so the two
//! form a bijection between identifiers and well-formed names.

use vstd::prelude::*;

use crate::strutil::{chars_to_string, str_chars};

verus! {

/// A conversation identifier: a 128-bit value held as two 64-bit halves,
/// most significant half first.
#[derive(Clone, Copy, PartialEq, Eq, Structural, Debug)]
pub struct ConvId {
    pub hi: u64,
    pub lo: u64,
}

/// A stored file name does not have the form `convo-<identifier>.txt`
/// with the identifier in canonical textual form.
#[derive(Clone, Copy, PartialEq, Eq, Structural, Debug)]
pub struct FormatError;

/// The lowercase hexadecimal digit for a value below 16.
pub open spec fn hex_char(d: u64) -> char {
    if d == 0 {
        '0'
    } else if d == 1 {
        '1'
    } else if d == 2 {
        '2'
    } else if d == 3 {
        '3'
    } else if d == 4 {
        '4'
    } else if d == 5 {
        '5'
    } else if d == 6 {
        '6'
    } else if d == 7 {
        '7'
    } else if d == 8 {
        '8'
    } else if d == 9 {
        '9'
    } else if d == 10 {
        'a'
    } else if d == 11 {
        'b'
    } else if d == 12 {
        'c'
    } else if d == 13 {
        'd'
    } else if d == 14 {
        'e'
    } else {
        'f'
    }
}

/// The value of a lowercase hexadecimal digit, or 16 for any other character.
pub open spec fn hex_val(c: char) -> u64 {
    if c == '0' {
        0
    } else if c == '1' {
        1
    } else if c == '2' {
        2
    } else if c == '3' {
        3
    } else if c == '4' {
        4
    } else if c == '5' {
        5
    } else if c == '6' {
        6
    } else if c == '7' {
        7
    } else if c == '8' {
        8
    } else if c == '9' {
        9
    } else if c == 'a' {
        10
    } else if c == 'b' {
        11
    } else if c == 'c' {
        12
    } else if c == 'd' {
        13
    } else if c == 'e' {
        14
    } else if c == 'f' {
        15
    } else {
        16
    }
}

pub proof fn lemma_hex_val_of_hex_char(d: u64)
    requires
        d < 16,
    ensures
        hex_val(hex_char(d)) == d,
{
}

pub proof fn lemma_hex_char_of_hex_val(c: char)
    requires
        hex_val(c) < 16,
    ensures
        hex_char(hex_val(c)) == c,
{
}

/// The `d`-th hexadecimal digit of the identifier, most significant first.
pub open spec fn nibble(id: ConvId, d: int) -> u64
    recommends
        0 <= d < 32,
{
    if d < 16 {
        (id.hi >> ((60 - 4 * d) as u64)) & 0xf
    } else {
        (id.lo >> ((124 - 4 * d) as u64)) & 0xf
    }
}

/// The positions of the hyphens inside the canonical 36-character form.
pub open spec fn is_hyphen_pos(j: int) -> bool {
    j == 8 || j == 13 || j == 18 || j == 23
}

/// Which hexadecimal digit stands at position `j` of the canonical form.
pub open spec fn digit_index(j: int) -> int
    recommends
        0 <= j < 36 && !is_hyphen_pos(j),
{
    if j < 8 {
        j
    } else if j < 13 {
        j - 1
    } else if j < 18 {
        j - 2
    } else if j < 23 {
        j - 3
    } else {
        j - 4
    }
}

/// Position of hexadecimal digit `k` inside the whole file name.
pub open spec fn gpos(k: int) -> int
    recommends
        0 <= k < 32,
{
    6 + k + if k < 8 {
        0int
    } else if k < 12 {
        1int
    } else if k < 16 {
        2int
    } else if k < 20 {
        3int
    } else {
        4int
    }
}

/// The canonical textual form of an identifier: 32 lowercase hexadecimal
/// digits in groups of 8-4-4-4-12, separated by hyphens.
pub open spec fn canonical_of(id: ConvId) -> Seq<char> {
    Seq::new(
        36,
        |j: int|
            if is_hyphen_pos(j) {
                '-'
            } else {
                hex_char(nibble(id, digit_index(j)))
            },
    )
}

pub open spec fn prefix_seq() -> Seq<char> {
    seq!['c', 'o', 'n', 'v', 'o', '-']
}

pub open spec fn suffix_seq() -> Seq<char> {
    seq!['.', 't', 'x', 't']
}

/// The on-disk file name of an identifier: `convo-<canonical form>.txt`.
pub open spec fn file_name_of(id: ConvId) -> Seq<char> {
    prefix_seq() + canonical_of(id) + suffix_seq()
}

proof fn lemma_gpos(k: int)
    requires
        0 <= k < 32,
    ensures
        6 <= gpos(k) < 42,
        !is_hyphen_pos(gpos(k) - 6),
        digit_index(gpos(k) - 6) == k,
{
}

proof fn lemma_pos_cover(j: int)
    requires
        0 <= j < 36,
        !is_hyphen_pos(j),
    ensures
        0 <= digit_index(j) < 32,
        gpos(digit_index(j)) == j + 6,
{
}

/// The fixed characters of every well-formed file name, and where the
/// canonical form sits inside it.
proof fn lemma_file_name_chars(id: ConvId)
    ensures
        file_name_of(id).len() == 46,
        file_name_of(id)[0] == 'c',
        file_name_of(id)[1] == 'o',
        file_name_of(id)[2] == 'n',
        file_name_of(id)[3] == 'v',
        file_name_of(id)[4] == 'o',
        file_name_of(id)[5] == '-',
        file_name_of(id)[14] == '-',
        file_name_of(id)[19] == '-',
        file_name_of(id)[24] == '-',
        file_name_of(id)[29] == '-',
        file_name_of(id)[42] == '.',
        file_name_of(id)[43] == 't',
        file_name_of(id)[44] == 'x',
        file_name_of(id)[45] == 't',
        forall|j: int| 6 <= j < 42 ==> file_name_of(id)[j] == canonical_of(id)[j - 6],
{
    assert(canonical_of(id).len() == 36);
    assert forall|j: int| 6 <= j < 42 implies file_name_of(id)[j] == canonical_of(id)[j - 6] by {
        assert((prefix_seq() + canonical_of(id))[j] == canonical_of(id)[j - 6]);
    }
    assert(file_name_of(id)[14] == canonical_of(id)[8]);
    assert(file_name_of(id)[19] == canonical_of(id)[13]);
    assert(file_name_of(id)[24] == canonical_of(id)[18]);
    assert(file_name_of(id)[29] == canonical_of(id)[23]);
}

proof fn lemma_nib_bound(h: u64, s: u64)
    ensures
        ((h >> s) & 0xf) < 16,
{
    assert(((h >> s) & 0xf) < 16) by (bit_vector);
}

proof fn lemma_nib_new(a: u64, x: u64)
    requires
        x < 16,
    ensures
        ((a << 4u64) | x) & 0xf == x,
{
    assert((((a << 4u64) | x) & 0xf) == x) by (bit_vector)
        requires
            x < 16,
    ;
}

proof fn lemma_shr_zero(a: u64)
    ensures
        a >> 0u64 == a,
{
    assert(a >> 0u64 == a) by (bit_vector);
}

proof fn lemma_nib_keep(a: u64, x: u64, s: u64, t: u64)
    requires
        s <= 56,
        t == s + 4,
        x < 16,
    ensures
        (((a << 4u64) | x) >> t) & 0xf == (a >> s) & 0xf,
{
    assert(((((a << 4u64) | x) >> t) & 0xf) == ((a >> s) & 0xf)) by (bit_vector)
        requires
            s <= 56 && t == s + 4 && x < 16,
    ;
}

/// The low `m` digits parsed so far sit packed at the low end of `acc`.
spec fn packed(acc: u64, v: Seq<char>, off: int, m: int) -> bool {
    forall|k: int|
        0 <= k < m ==> ((acc >> ((4 * (m - 1 - k)) as u64)) & 0xf) == hex_val(
            #[trigger] v[gpos(off + k)],
        )
}

fn hex_digit(d: u64) -> (c: char)
    requires
        d < 16,
    ensures
        c == hex_char(d),
{
    if d == 0 {
        '0'
    } else if d == 1 {
        '1'
    } else if d == 2 {
        '2'
    } else if d == 3 {
        '3'
    } else if d == 4 {
        '4'
    } else if d == 5 {
        '5'
    } else if d == 6 {
        '6'
    } else if d == 7 {
        '7'
    } else if d == 8 {
        '8'
    } else if d == 9 {
        '9'
    } else if d == 10 {
        'a'
    } else if d == 11 {
        'b'
    } else if d == 12 {
        'c'
    } else if d == 13 {
        'd'
    } else if d == 14 {
        'e'
    } else {
        'f'
    }
}

fn hex_value(c: char) -> (d: u64)
    ensures
        d == hex_val(c),
{
    if c == '0' {
        0
    } else if c == '1' {
        1
    } else if c == '2' {
        2
    } else if c == '3' {
        3
    } else if c == '4' {
        4
    } else if c == '5' {
        5
    } else if c == '6' {
        6
    } else if c == '7' {
        7
    } else if c == '8' {
        8
    } else if c == '9' {
        9
    } else if c == 'a' {
        10
    } else if c == 'b' {
        11
    } else if c == 'c' {
        12
    } else if c == 'd' {
        13
    } else if c == 'e' {
        14
    } else if c == 'f' {
        15
    } else {
        16
    }
}

fn nibble_x(id: &ConvId, d: usize) -> (r: u64)
    requires
        d < 32,
    ensures
        r == nibble(*id, d as int),
        r < 16,
{
    if d < 16 {
        let sh: u64 = (60 - 4 * d) as u64;
        proof {
            lemma_nib_bound(id.hi, sh);
        }
        (id.hi >> sh) & 0xf
    } else {
        let sh: u64 = (124 - 4 * d) as u64;
        proof {
            lemma_nib_bound(id.lo, sh);
        }
        (id.lo >> sh) & 0xf
    }
}

fn digit_index_x(j: usize) -> (r: usize)
    requires
        j < 36,
        !is_hyphen_pos(j as int),
    ensures
        r as int == digit_index(j as int),
        r < 32,
{
    if j < 8 {
        j
    } else if j < 13 {
        j - 1
    } else if j < 18 {
        j - 2
    } else if j < 23 {
        j - 3
    } else {
        j - 4
    }
}

fn gpos_x(k: usize) -> (g: usize)
    requires
        k < 32,
    ensures
        g as int == gpos(k as int),
        6 <= g < 42,
{
    6 + k + if k < 8 {
        0
    } else if k < 12 {
        1
    } else if k < 16 {
        2
    } else if k < 20 {
        3
    } else {
        4
    }
}

/// The file name under which a conversation with this identifier is stored:
/// `convo-<identifier>.txt`. Total; every identifier has exactly one name.
pub fn encode(id: &ConvId) -> (r: String)
    ensures
        r@ == file_name_of(*id),
{
    let mut out: Vec<char> = Vec::new();
    out.push('c');
    out.push('o');
    out.push('n');
    out.push('v');
    out.push('o');
    out.push('-');
    proof {
        assert(out@ =~= prefix_seq());
        assert(canonical_of(*id).subrange(0, 0) =~= Seq::<char>::empty());
        assert(out@ =~= prefix_seq() + canonical_of(*id).subrange(0, 0));
    }
    let mut j: usize = 0;
    while j < 36
        invariant
            0 <= j <= 36,
            out@ == prefix_seq() + canonical_of(*id).subrange(0, j as int),
        decreases 36 - j,
    {
        if j == 8 || j == 13 || j == 18 || j == 23 {
            out.push('-');
            proof {
                assert(canonical_of(*id)[j as int] == '-');
            }
        } else {
            let k = digit_index_x(j);
            let d = nibble_x(id, k);
            let c = hex_digit(d);
            out.push(c);
            proof {
                assert(canonical_of(*id)[j as int] == hex_char(nibble(*id, digit_index(j as int))));
            }
        }
        proof {
            assert(out@ =~= prefix_seq() + canonical_of(*id).subrange(0, j as int + 1));
        }
        j = j + 1;
    }
    out.push('.');
    out.push('t');
    out.push('x');
    out.push('t');
    proof {
        assert(canonical_of(*id).subrange(0, 36) =~= canonical_of(*id));
        assert(out@ =~= file_name_of(*id));
    }
    chars_to_string(out)
}

/// The identifier a file name stands for. Succeeds exactly on the names
/// `encode` produces: the literal prefix `convo-`, the canonical 36-character
/// identifier, the literal suffix `.txt`. Everything else is a `FormatError`;
/// a malformed name never resolves to a default identifier.
pub fn decode(name: &str) -> (r: Result<ConvId, FormatError>)
    ensures
        match r {
            Result::Ok(id) => name@ == file_name_of(id),
            Result::Err(_) => forall|id: ConvId| name@ != file_name_of(id),
        },
{
    let v = str_chars(name);
    if v.len() != 46 {
        proof {
            assert forall|id: ConvId| name@ != file_name_of(id) by {
                lemma_file_name_chars(id);
            }
        }
        return Result::Err(FormatError);
    }
    if v[0] != 'c' || v[1] != 'o' || v[2] != 'n' || v[3] != 'v' || v[4] != 'o' || v[5] != '-'
        || v[42] != '.' || v[43] != 't' || v[44] != 'x' || v[45] != 't' || v[14] != '-' || v[19]
        != '-' || v[24] != '-' || v[29] != '-' {
        proof {
            assert forall|id: ConvId| name@ != file_name_of(id) by {
                lemma_file_name_chars(id);
            }
        }
        return Result::Err(FormatError);
    }
    let mut hi: u64 = 0;
    let mut lo: u64 = 0;
    let mut d: usize = 0;
    while d < 32
        invariant
            v@ == name@,
            v@.len() == 46,
            v@[0] == 'c' && v@[1] == 'o' && v@[2] == 'n' && v@[3] == 'v' && v@[4] == 'o' && v@[5]
                == '-',
            v@[42] == '.' && v@[43] == 't' && v@[44] == 'x' && v@[45] == 't',
            v@[14] == '-' && v@[19] == '-' && v@[24] == '-' && v@[29] == '-',
            0 <= d <= 32,
            forall|k: int| 0 <= k < d ==> hex_val(#[trigger] v@[gpos(k)]) < 16,
            packed(hi, v@, 0, if d < 16 { d as int } else { 16 }),
            packed(lo, v@, 16, if d < 16 { 0int } else { d as int - 16 }),
        decreases 32 - d,
    {
        proof {
            lemma_gpos(d as int);
        }
        let g = gpos_x(d);
        let hd = hex_value(v[g]);
        if hd >= 16 {
            proof {
                assert forall|id: ConvId| name@ != file_name_of(id) by {
                    if name@ == file_name_of(id) {
                        lemma_file_name_chars(id);
                        assert(name@[gpos(d as int)] == canonical_of(id)[gpos(d as int) - 6]);
                        assert(canonical_of(id)[gpos(d as int) - 6] == hex_char(
                            nibble(id, d as int),
                        ));
                        if d < 16 {
                            lemma_nib_bound(id.hi, (60 - 4 * d as int) as u64);
                        } else {
                            lemma_nib_bound(id.lo, (124 - 4 * d as int) as u64);
                        }
                        lemma_hex_val_of_hex_char(nibble(id, d as int));
                    }
                }
            }
            return Result::Err(FormatError);
        }
        if d < 16 {
            let ghost prev = hi;
            hi = (hi << 4u64) | hd;
            proof {
                lemma_nib_new(prev, hd);
                lemma_shr_zero(hi);
                assert forall|k: int| 0 <= k < d as int + 1 implies ((hi >> ((4 * (d as int + 1 - 1
                    - k)) as u64)) & 0xf) == hex_val(#[trigger] v@[gpos(0 + k)]) by {
                    if k < d as int {
                        assert(((prev >> ((4 * (d as int - 1 - k)) as u64)) & 0xf) == hex_val(
                            v@[gpos(0 + k)],
                        ));
                        lemma_nib_keep(
                            prev,
                            hd,
                            (4 * (d as int - 1 - k)) as u64,
                            (4 * (d as int - k)) as u64,
                        );
                    } else {
                        assert((4 * (d as int + 1 - 1 - k)) as u64 == 0u64);
                    }
                }
                assert(packed(hi, v@, 0, d as int + 1));
            }
        } else {
            let ghost prev = lo;
            lo = (lo << 4u64) | hd;
            proof {
                lemma_nib_new(prev, hd);
                lemma_shr_zero(lo);
                assert forall|k: int| 0 <= k < d as int - 16 + 1 implies ((lo >> ((4 * (d as int
                    - 16 + 1 - 1 - k)) as u64)) & 0xf) == hex_val(#[trigger] v@[gpos(16 + k)]) by {
                    if k < d as int - 16 {
                        assert(((prev >> ((4 * (d as int - 16 - 1 - k)) as u64)) & 0xf) == hex_val(
                            v@[gpos(16 + k)],
                        ));
                        lemma_nib_keep(
                            prev,
                            hd,
                            (4 * (d as int - 16 - 1 - k)) as u64,
                            (4 * (d as int - 16 - k)) as u64,
                        );
                    } else {
                        assert((4 * (d as int - 16 + 1 - 1 - k)) as u64 == 0u64);
                    }
                }
                assert(packed(lo, v@, 16, d as int - 16 + 1));
            }
        }
        d = d + 1;
    }
    let id = ConvId { hi, lo };
    proof {
        lemma_file_name_chars(id);
        assert forall|j: int| 0 <= j < 46 implies name@[j] == file_name_of(id)[j] by {
            if 6 <= j < 42 {
                let c = j - 6;
                assert(file_name_of(id)[j] == canonical_of(id)[c]);
                if !is_hyphen_pos(c) {
                    lemma_pos_cover(c);
                    let k = digit_index(c);
                    assert(gpos(k) == j);
                    if k < 16 {
                        assert(((hi >> ((4 * (16 - 1 - k)) as u64)) & 0xf) == hex_val(
                            v@[gpos(0 + k)],
                        ));
                        assert((4 * (16 - 1 - k)) as u64 == (60 - 4 * k) as u64);
                        assert(nibble(id, k) == hex_val(v@[j]));
                    } else {
                        assert(((lo >> ((4 * (16 - 1 - (k - 16))) as u64)) & 0xf) == hex_val(
                            v@[gpos(16 + (k - 16))],
                        ));
                        assert((4 * (16 - 1 - (k - 16))) as u64 == (124 - 4 * k) as u64);
                        assert(nibble(id, k) == hex_val(v@[j]));
                    }
                    assert(hex_val(v@[gpos(k)]) < 16);
                    lemma_hex_char_of_hex_val(v@[j]);
                    assert(canonical_of(id)[c] == hex_char(nibble(id, k)));
                }
            }
        }
        assert(name@ =~= file_name_of(id));
    }
    Result::Ok(id)
}

proof fn lemma_nibbles_eq(x: u64, y: u64)
    requires
        forall|k: int| 0 <= k < 16 ==> #[trigger] ((x >> ((60 - 4 * k) as u64)) & 0xf) == ((y >> ((
        60 - 4 * k) as u64)) & 0xf),
    ensures
        x == y,
{
    assert(((x >> ((60 - 4 * 0) as u64)) & 0xf) == ((y >> ((60 - 4 * 0) as u64)) & 0xf));
    assert(((x >> ((60 - 4 * 1) as u64)) & 0xf) == ((y >> ((60 - 4 * 1) as u64)) & 0xf));
    assert(((x >> ((60 - 4 * 2) as u64)) & 0xf) == ((y >> ((60 - 4 * 2) as u64)) & 0xf));
    assert(((x >> ((60 - 4 * 3) as u64)) & 0xf) == ((y >> ((60 - 4 * 3) as u64)) & 0xf));
    assert(((x >> ((60 - 4 * 4) as u64)) & 0xf) == ((y >> ((60 - 4 * 4) as u64)) & 0xf));
    assert(((x >> ((60 - 4 * 5) as u64)) & 0xf) == ((y >> ((60 - 4 * 5) as u64)) & 0xf));
    assert(((x >> ((60 - 4 * 6) as u64)) & 0xf) == ((y >> ((60 - 4 * 6) as u64)) & 0xf));
    assert(((x >> ((60 - 4 * 7) as u64)) & 0xf) == ((y >> ((60 - 4 * 7) as u64)) & 0xf));
    assert(((x >> ((60 - 4 * 8) as u64)) & 0xf) == ((y >> ((60 - 4 * 8) as u64)) & 0xf));
    assert(((x >> ((60 - 4 * 9) as u64)) & 0xf) == ((y >> ((60 - 4 * 9) as u64)) & 0xf));
    assert(((x >> ((60 - 4 * 10) as u64)) & 0xf) == ((y >> ((60 - 4 * 10) as u64)) & 0xf));
    assert(((x >> ((60 - 4 * 11) as u64)) & 0xf) == ((y >> ((60 - 4 * 11) as u64)) & 0xf));
    assert(((x >> ((60 - 4 * 12) as u64)) & 0xf) == ((y >> ((60 - 4 * 12) as u64)) & 0xf));
    assert(((x >> ((60 - 4 * 13) as u64)) & 0xf) == ((y >> ((60 - 4 * 13) as u64)) & 0xf));
    assert(((x >> ((60 - 4 * 14) as u64)) & 0xf) == ((y >> ((60 - 4 * 14) as u64)) & 0xf));
    assert(((x >> ((60 - 4 * 15) as u64)) & 0xf) == ((y >> ((60 - 4 * 15) as u64)) & 0xf));
    assert(x == y) by (bit_vector)
        requires
            ((x >> 60u64) & 0xf) == ((y >> 60u64) & 0xf) && ((x >> 56u64) & 0xf) == ((y >> 56u64)
                & 0xf) && ((x >> 52u64) & 0xf) == ((y >> 52u64) & 0xf) && ((x >> 48u64) & 0xf) == ((
            y >> 48u64) & 0xf) && ((x >> 44u64) & 0xf) == ((y >> 44u64) & 0xf) && ((x >> 40u64)
                & 0xf) == ((y >> 40u64) & 0xf) && ((x >> 36u64) & 0xf) == ((y >> 36u64) & 0xf) && ((
            x >> 32u64) & 0xf) == ((y >> 32u64) & 0xf) && ((x >> 28u64) & 0xf) == ((y >> 28u64)
                & 0xf) && ((x >> 24u64) & 0xf) == ((y >> 24u64) & 0xf) && ((x >> 20u64) & 0xf) == ((
            y >> 20u64) & 0xf) && ((x >> 16u64) & 0xf) == ((y >> 16u64) & 0xf) && ((x >> 12u64)
                & 0xf) == ((y >> 12u64) & 0xf) && ((x >> 8u64) & 0xf) == ((y >> 8u64) & 0xf) && ((x
                >> 4u64) & 0xf) == ((y >> 4u64) & 0xf) && ((x >> 0u64) & 0xf) == ((y >> 0u64)
                & 0xf),
    ;
}

/// Law: the identifier-to-file-name mapping is lossless. Two identifiers
/// with the same file name are the same identifier, so decoding the encoded
/// name of any identifier gives that identifier back.
pub proof fn lemma_file_name_injective(a: ConvId, b: ConvId)
    requires
        file_name_of(a) == file_name_of(b),
    ensures
        a == b,
{
    lemma_file_name_chars(a);
    lemma_file_name_chars(b);
    assert forall|k: int| 0 <= k < 32 implies nibble(a, k) == nibble(b, k) by {
        lemma_gpos(k);
        let j = gpos(k);
        assert(6 <= j < 42);
        assert(file_name_of(a)[j] == canonical_of(a)[j - 6]);
        assert(file_name_of(b)[j] == canonical_of(b)[j - 6]);
        assert(canonical_of(a)[j - 6] == canonical_of(b)[j - 6]);
        assert(hex_char(nibble(a, k)) == hex_char(nibble(b, k)));
        if k < 16 {
            lemma_nib_bound(a.hi, (60 - 4 * k) as u64);
            lemma_nib_bound(b.hi, (60 - 4 * k) as u64);
        } else {
            lemma_nib_bound(a.lo, (124 - 4 * k) as u64);
            lemma_nib_bound(b.lo, (124 - 4 * k) as u64);
        }
        lemma_hex_val_of_hex_char(nibble(a, k));
        lemma_hex_val_of_hex_char(nibble(b, k));
    }
    assert forall|k: int| 0 <= k < 16 implies #[trigger] ((a.hi >> ((60 - 4 * k) as u64)) & 0xf)
        == ((b.hi >> ((60 - 4 * k) as u64)) & 0xf) by {
        assert(nibble(a, k) == nibble(b, k));
    }
    assert forall|k: int| 0 <= k < 16 implies #[trigger] ((a.lo >> ((60 - 4 * k) as u64)) & 0xf)
        == ((b.lo >> ((60 - 4 * k) as u64)) & 0xf) by {
        assert(nibble(a, k + 16) == nibble(b, k + 16));
        assert((124 - 4 * (k + 16)) as u64 == (60 - 4 * k) as u64);
    }
    lemma_nibbles_eq(a.hi, b.hi);
    lemma_nibbles_eq(a.lo, b.lo);
}

/// Relies on `uuid::Uuid::new_v4` and `Uuid::as_u64_pair`: a freshly minted
/// random identifier, returned as its two 64-bit halves, most significant
/// half first. Nothing is promised of a random value.
#[verifier::external_body]
fn mint_uuid_pair() -> (r: (u64, u64)) {
    uuid::Uuid::new_v4().as_u64_pair()
}

/// A freshly minted random identifier for a new conversation.
pub fn fresh_id() -> (r: ConvId) {
    let p = mint_uuid_pair();
    ConvId { hi: p.0, lo: p.1 }
}

} // verus!
