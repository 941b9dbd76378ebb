//! Rendering a message as a bordered, word-wrapped, padded block.
//!
//! A block is a top border, one content line per wrapped line of the
//! message (an empty message still yields one empty content line), and a
//! bottom border. Interior text is padded with spaces so that every content
//! line spans the same visible width, measured in the same terminal columns
//! the wrapping itself goes by; a line that would not fit gets zero padding
//! rather than a negative amount.

use vstd::prelude::*;

use crate::strutil::{chars_to_string, str_chars};

verus! {

/// What `textwrap::wrap`, run with this crate's fixed first-fit options,
/// returns for a text at a width. Wrapping is stateless: the same text and
/// width always name the same lines.
pub uninterp spec fn wrap_of(text: Seq<char>, width: int) -> Seq<Seq<char>>;

/// Text made of printable ASCII characters only, each one column wide.
pub open spec fn ascii_printable(s: Seq<char>) -> bool {
    forall|i: int| 0 <= i < s.len() ==> 32 <= (#[trigger] s[i]) as u32 <= 126
}

/// Relies on `textwrap::wrap` with the first-fit algorithm: stateless word
/// wrapping at a given display width. The same text and width always give
/// the same lines. A line takes words only while it stays within the width,
/// and a word wider than a whole line is broken first, so no line is wider —
/// in the columns the crate itself measures by — than the requested width,
/// as long as the width can hold any one character (its width tables give
/// no character more than three columns). On printable ASCII — one column
/// per character — the same bound holds of the character count. Empty text
/// wraps to a single line, itself empty.
#[verifier::external_body]
fn wrap_lines(text: &str, width: usize) -> (r: Vec<String>)
    ensures
        r.deep_view() == wrap_of(text@, width as int),
        width >= 3 ==> forall|i: int|
            0 <= i < r.deep_view().len() ==> columns_of(#[trigger] r.deep_view()[i]) <= width,
        (ascii_printable(text@) && width >= 1) ==> forall|i: int|
            0 <= i < r.deep_view().len() ==> #[trigger] r.deep_view()[i].len() <= width,
        text@.len() == 0 ==> r.deep_view().len() <= 1 && forall|i: int|
            0 <= i < r.deep_view().len() ==> (#[trigger] r.deep_view()[i]).len() == 0,
{
    let options = textwrap::Options::new(width).wrap_algorithm(textwrap::WrapAlgorithm::FirstFit);
    textwrap::wrap(text, options).into_iter().map(|line| line.into_owned()).collect()
}

/// What `textwrap::core::display_width` returns for a text: its visible
/// width in terminal columns, the same measure the wrapping goes by.
pub uninterp spec fn columns_of(s: Seq<char>) -> int;

/// Relies on `textwrap::core::display_width`: the visible width of a text
/// in terminal columns — the measure `textwrap::wrap` wraps by. A printable
/// ASCII character is one column, so on such text the measure is the
/// character count.
#[verifier::external_body]
fn display_width(s: &str) -> (w: usize)
    ensures
        w as int == columns_of(s@),
        ascii_printable(s@) ==> w as int == s@.len(),
{
    textwrap::core::display_width(s)
}

/// `n` copies of one character; none when `n` is not positive.
pub open spec fn repeat_char(c: char, n: int) -> Seq<char> {
    if n <= 0 {
        Seq::empty()
    } else {
        Seq::new(n as nat, |i: int| c)
    }
}

/// The width messages are wrapped at: the frame reserves two border columns
/// and one interior space on each side. Below the workable minimum of five
/// columns, wrapping falls back to one column rather than failing.
pub open spec fn inner_width(width: int) -> int {
    if width >= 5 {
        width - 4
    } else {
        1
    }
}

/// How many spaces pad a content line whose text spans `cols` visible
/// columns. A line wider than the interior is given zero padding, never a
/// negative amount.
pub open spec fn pad_len(cols: int, width: int) -> int {
    if width - 4 >= cols {
        width - 4 - cols
    } else {
        0
    }
}

/// One content line: left border, a space, the text, enough padding spaces
/// to fill the interior's visible columns, a space, right border, line
/// break.
pub open spec fn content_line_spec(line: Seq<char>, width: int) -> Seq<char> {
    seq!['│', ' '] + line + repeat_char(' ', pad_len(columns_of(line), width)) + seq![
        ' ',
        '│',
        '\n',
    ]
}

/// The top border: corner, a rule of `width - 2` columns, corner.
pub open spec fn top_border_spec(width: int) -> Seq<char> {
    seq!['\n', '╭'] + repeat_char('─', width - 2) + seq!['╮', '\n']
}

/// The bottom border, mirroring the top.
pub open spec fn bottom_border_spec(width: int) -> Seq<char> {
    seq!['╰'] + repeat_char('─', width - 2) + seq!['╯', '\n']
}

/// All content lines, in order.
pub open spec fn content_lines_spec(lines: Seq<Seq<char>>, width: int) -> Seq<char>
    decreases lines.len(),
{
    if lines.len() == 0 {
        Seq::empty()
    } else {
        content_lines_spec(lines.drop_last(), width) + content_line_spec(lines.last(), width)
    }
}

/// A whole framed block around already-wrapped lines.
pub open spec fn frame_spec(lines: Seq<Seq<char>>, width: int) -> Seq<char> {
    top_border_spec(width) + content_lines_spec(lines, width) + bottom_border_spec(width)
}

/// An empty message still fills one empty content line.
pub open spec fn padded_lines(ls: Seq<Seq<char>>) -> Seq<Seq<char>> {
    if ls.len() == 0 {
        seq![Seq::<char>::empty()]
    } else {
        ls
    }
}

/// The block a message renders to at a width: the message wrapped at the
/// interior width, framed and padded.
pub open spec fn render_spec(message: Seq<char>, width: int) -> Seq<char> {
    frame_spec(padded_lines(wrap_of(message, inner_width(width))), width)
}

/// Every line wrapped out of the message fits the interior of the frame,
/// counted in characters.
pub open spec fn wrapped_fit(message: Seq<char>, width: int) -> bool {
    forall|i: int|
        0 <= i < wrap_of(message, width - 4).len() ==> (#[trigger] wrap_of(message, width - 4)[i]).len()
            <= width - 4
}

/// Every line wrapped out of the message fits the interior of the frame,
/// counted in visible columns.
pub open spec fn wrapped_fit_columns(message: Seq<char>, width: int) -> bool {
    forall|i: int|
        0 <= i < wrap_of(message, width - 4).len() ==> columns_of(
            #[trigger] wrap_of(message, width - 4)[i],
        ) <= width - 4
}

fn push_repeat(out: &mut Vec<char>, c: char, n: usize)
    ensures
        final(out)@ == old(out)@ + repeat_char(c, n as int),
{
    let mut i: usize = 0;
    proof {
        assert(out@ =~= old(out)@ + repeat_char(c, 0));
    }
    while i < n
        invariant
            0 <= i <= n,
            out@ == old(out)@ + repeat_char(c, i as int),
        decreases n - i,
    {
        out.push(c);
        proof {
            assert(out@ =~= old(out)@ + repeat_char(c, i as int + 1));
        }
        i = i + 1;
    }
}

fn push_content_line(out: &mut Vec<char>, line: &String, width: usize)
    ensures
        final(out)@ == old(out)@ + content_line_spec(line@, width as int),
        ascii_printable(line@) ==> columns_of(line@) == line@.len(),
{
    out.push('│');
    out.push(' ');
    let lc = str_chars(line.as_str());
    let n = lc.len();
    let mut i: usize = 0;
    proof {
        assert(out@ =~= old(out)@ + seq!['│', ' '] + line@.subrange(0, 0));
    }
    while i < n
        invariant
            lc@ == line@,
            n == lc@.len(),
            0 <= i <= n,
            out@ == old(out)@ + seq!['│', ' '] + line@.subrange(0, i as int),
        decreases n - i,
    {
        out.push(lc[i]);
        proof {
            assert(out@ =~= old(out)@ + seq!['│', ' '] + line@.subrange(0, i as int + 1));
        }
        i = i + 1;
    }
    proof {
        assert(line@.subrange(0, n as int) =~= line@);
    }
    let cols = display_width(line.as_str());
    let pad: usize = if width >= 4 && width - 4 >= cols {
        width - 4 - cols
    } else {
        0
    };
    proof {
        assert(pad as int == pad_len(columns_of(line@), width as int));
    }
    push_repeat(out, ' ', pad);
    out.push(' ');
    out.push('│');
    out.push('\n');
    proof {
        assert(out@ =~= old(out)@ + content_line_spec(line@, width as int));
    }
}

/// A framed block around already-wrapped lines: borders above and below,
/// one padded content line per given line. Printable-ASCII lines span one
/// column per character.
pub fn frame_lines(lines: &Vec<String>, width: usize) -> (r: String)
    ensures
        r@ == frame_spec(lines.deep_view(), width as int),
        forall|i: int|
            0 <= i < lines.deep_view().len() ==> (ascii_printable(
                #[trigger] lines.deep_view()[i],
            ) ==> columns_of(lines.deep_view()[i]) == lines.deep_view()[i].len()),
{
    let mut out: Vec<char> = Vec::new();
    out.push('\n');
    out.push('╭');
    let reps: usize = if width >= 2 {
        width - 2
    } else {
        0
    };
    push_repeat(&mut out, '─', reps);
    out.push('╮');
    out.push('\n');
    proof {
        assert(repeat_char('─', reps as int) =~= repeat_char('─', width as int - 2));
        assert(out@ =~= top_border_spec(width as int));
        assert(lines.deep_view().subrange(0, 0) =~= Seq::<Seq<char>>::empty());
        assert(out@ =~= top_border_spec(width as int) + content_lines_spec(
            lines.deep_view().subrange(0, 0),
            width as int,
        ));
    }
    let mut i: usize = 0;
    while i < lines.len()
        invariant
            0 <= i <= lines@.len(),
            lines.deep_view().len() == lines@.len(),
            out@ == top_border_spec(width as int) + content_lines_spec(
                lines.deep_view().subrange(0, i as int),
                width as int,
            ),
            forall|k: int|
                0 <= k < i ==> (ascii_printable(#[trigger] lines.deep_view()[k]) ==> columns_of(
                    lines.deep_view()[k],
                ) == lines.deep_view()[k].len()),
        decreases lines@.len() - i,
    {
        push_content_line(&mut out, &lines[i], width);
        proof {
            assert(lines.deep_view().subrange(0, i as int + 1).drop_last() =~= lines.deep_view(
            ).subrange(0, i as int));
            assert(lines.deep_view().subrange(0, i as int + 1).last() == lines@[i as int]@);
            assert(out@ =~= top_border_spec(width as int) + content_lines_spec(
                lines.deep_view().subrange(0, i as int + 1),
                width as int,
            ));
        }
        i = i + 1;
    }
    proof {
        assert(lines.deep_view().subrange(0, lines@.len() as int) =~= lines.deep_view());
    }
    out.push('╰');
    push_repeat(&mut out, '─', reps);
    out.push('╯');
    out.push('\n');
    proof {
        assert(out@ =~= frame_spec(lines.deep_view(), width as int));
    }
    chars_to_string(out)
}

/// A message rendered as a framed block at a given width: wrapped at the
/// interior width, framed, every line padded. At a width whose interior can
/// hold any one character — three columns suffice — no wrapped line of any
/// message exceeds the interior in visible columns; for a printable-ASCII
/// message the same holds of the character count. An empty message renders
/// as one empty content line.
pub fn render_block(message: &str, width: usize) -> (r: String)
    ensures
        r@ == render_spec(message@, width as int),
        width >= 7 ==> wrapped_fit_columns(message@, width as int),
        (ascii_printable(message@) && width >= 5) ==> wrapped_fit(message@, width as int),
        message@.len() == 0 ==> r@ == frame_spec(seq![Seq::<char>::empty()], width as int)
            && columns_of(Seq::<char>::empty()) == 0,
{
    let iw: usize = if width >= 5 {
        width - 4
    } else {
        1
    };
    proof {
        assert(iw as int == inner_width(width as int));
    }
    let mut lines = wrap_lines(message, iw);
    proof {
        if message@.len() == 0 {
            assert(padded_lines(wrap_of(message@, inner_width(width as int))) =~~= seq![
                Seq::<char>::empty(),
            ]);
        }
    }
    if lines.len() == 0 {
        lines.push(String::new());
        proof {
            assert(lines.deep_view() =~= padded_lines(
                wrap_of(message@, inner_width(width as int)),
            ));
        }
    } else {
        proof {
            assert(lines.deep_view() =~= padded_lines(
                wrap_of(message@, inner_width(width as int)),
            ));
        }
    }
    let r = frame_lines(&lines, width);
    proof {
        if message@.len() == 0 {
            assert(lines.deep_view()[0] =~= Seq::<char>::empty());
            assert(ascii_printable(lines.deep_view()[0]));
            assert(columns_of(Seq::<char>::empty()) == 0);
        }
    }
    r
}

/// Relies on `crossterm::terminal::size`: the terminal's current dimensions,
/// when they can be determined. The answer depends on the live terminal, so
/// nothing is promised of it.
#[verifier::external_body]
fn query_terminal_size() -> (r: Option<(u16, u16)>) {
    match crossterm::terminal::size() {
        Ok(wh) => Option::Some(wh),
        Err(_) => Option::None,
    }
}

/// The width a block is rendered at, from what the terminal reported:
/// the reported width capped at 100 columns, or 80 when unknown.
pub open spec fn effective_width_spec(q: Option<u16>) -> int {
    match q {
        Option::Some(w) => if w > 100 {
            100
        } else {
            w as int
        },
        Option::None => 80,
    }
}

pub fn effective_width(q: Option<u16>) -> (w: usize)
    ensures
        w as int == effective_width_spec(q),
        w <= 100,
{
    match q {
        Option::Some(c) => if c > 100 {
            100
        } else {
            c as usize
        },
        Option::None => 80,
    }
}

/// The dimensions the session works with, from what the terminal reported:
/// the reported pair itself, or the fixed fallback of 80 columns and 24
/// rows when the size is unknown.
pub open spec fn size_or_default_spec(q: Option<(u16, u16)>) -> (int, int) {
    match q {
        Option::Some(wh) => (wh.0 as int, wh.1 as int),
        Option::None => (80, 24),
    }
}

pub fn size_or_default(q: Option<(u16, u16)>) -> (r: (usize, usize))
    ensures
        (r.0 as int, r.1 as int) == size_or_default_spec(q),
        r.0 <= 65535,
        r.1 <= 65535,
{
    match q {
        Option::Some(wh) => (wh.0 as usize, wh.1 as usize),
        Option::None => (80, 24),
    }
}

/// The terminal's current dimensions, with the fixed fallback of 80 columns
/// and 24 rows when they cannot be determined. Read afresh at every call —
/// a resize between calls changes the next answer — so only bounds can be
/// promised here; `size_or_default` fixes the pair for each query answer.
pub fn terminal_size() -> (r: (usize, usize))
    ensures
        r.0 <= 65535,
        r.1 <= 65535,
{
    size_or_default(query_terminal_size())
}

/// A message rendered for the live terminal: framed at the current terminal
/// width capped at 100 columns, at 80 columns when the width is unknown.
pub fn render_for_terminal(message: &str) -> (r: String)
    ensures
        exists|w: int| 0 <= w <= 100 && r@ == render_spec(message@, w),
{
    let q = query_terminal_size();
    let qw = match q {
        Option::Some(wh) => Option::Some(wh.0),
        Option::None => Option::None,
    };
    let w = effective_width(qw);
    let out = render_block(message, w);
    proof {
        assert(0 <= w as int <= 100 && out@ == render_spec(message@, w as int));
    }
    out
}

/// Law: every content line of a block has the same visible width. When a
/// line's text fits the interior, the text's columns and one column per
/// padding space together span exactly `width - 4` columns; and when each
/// of its characters is one column wide — printable ASCII is such text —
/// the whole content line, borders, interior spaces and final line break
/// included, is exactly `width + 1` characters: the border lines' width
/// plus the line break.
pub proof fn lemma_padding_invariant(line: Seq<char>, width: int)
    requires
        width >= 5,
        columns_of(line) <= width - 4,
    ensures
        columns_of(line) + pad_len(columns_of(line), width) == width - 4,
        columns_of(line) == line.len() ==> content_line_spec(line, width).len() == width + 1,
{
}

/// Law: wrap correctness in visible columns. Rendering any message at a
/// width whose interior holds any one character — at least seven columns in
/// all — establishes that every wrapped line fits the interior; each such
/// line plus its padding then spans exactly `width - 4` interior columns.
pub proof fn lemma_wrap_padding(message: Seq<char>, width: int, i: int)
    requires
        wrapped_fit_columns(message, width),
        width >= 5,
        0 <= i < wrap_of(message, width - 4).len(),
    ensures
        columns_of(wrap_of(message, width - 4)[i]) <= width - 4,
        columns_of(wrap_of(message, width - 4)[i]) + pad_len(
            columns_of(wrap_of(message, width - 4)[i]),
            width,
        ) == width - 4,
{
    lemma_padding_invariant(wrap_of(message, width - 4)[i], width);
}

/// Law: wrap correctness in characters. For text whose characters are one
/// column each, once every wrapped line fits the interior — which rendering
/// a printable-ASCII message at a workable width establishes — each wrapped
/// line spans at most `width - 4` characters and its content line spans
/// exactly the frame width.
pub proof fn lemma_wrap_padding_chars(message: Seq<char>, width: int, i: int)
    requires
        wrapped_fit(message, width),
        width >= 5,
        0 <= i < wrap_of(message, width - 4).len(),
        columns_of(wrap_of(message, width - 4)[i]) == wrap_of(message, width - 4)[i].len(),
    ensures
        wrap_of(message, width - 4)[i].len() <= width - 4,
        content_line_spec(wrap_of(message, width - 4)[i], width).len() == width + 1,
{
    lemma_padding_invariant(wrap_of(message, width - 4)[i], width);
}

/// Law: with every line fitting the interior and spanning one column per
/// character, the content section of a block is exactly one
/// `width + 1`-character piece per wrapped line — all content lines have
/// identical width, whatever the lines' own lengths.
pub proof fn lemma_content_section_length(lines: Seq<Seq<char>>, width: int)
    requires
        width >= 5,
        forall|i: int|
            0 <= i < lines.len() ==> (#[trigger] lines[i]).len() <= width - 4 && columns_of(
                lines[i],
            ) == lines[i].len(),
    ensures
        content_lines_spec(lines, width).len() == lines.len() * (width + 1),
    decreases lines.len(),
{
    if lines.len() > 0 {
        lemma_content_section_length(lines.drop_last(), width);
        lemma_padding_invariant(lines.last(), width);
        assert((lines.len() - 1) * (width + 1) + (width + 1) == lines.len() * (width + 1))
            by (nonlinear_arith);
    }
}

/// Law: rendering is deterministic. Any two results of rendering the same
/// message at the same width are the same block, character for character.
pub proof fn lemma_render_deterministic(
    message: Seq<char>,
    width: int,
    r1: Seq<char>,
    r2: Seq<char>,
)
    requires
        r1 == render_spec(message, width),
        r2 == render_spec(message, width),
    ensures
        r1 == r2,
{
}

} // verus!
