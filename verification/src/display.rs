//! Layout of the text dashboard: the width that a piece of styled text
//! takes on screen, the padding that aligns it, and the pan and volume
//! bars.
//!
//! Styled text carries ANSI escape sequences. A sequence starts at the
//! escape character and ends at the next `m`; none of it is visible.

use vstd::prelude::*;
use vstd::string::StringExecFns;
use vstd::utf8::encode_utf8;

verus! {

/// The escape character that starts a styling sequence.
pub const ESCAPE: char = '\x1B';

/// The letter that ends a styling sequence.
pub const SEQUENCE_END: char = 'm';

/// The number of columns that a visible character takes: two for the
/// pictographs of the section headers, one for anything else.
pub open spec fn glyph_width(c: char) -> nat {
    if c == '🎧' || c == '📊' || c == '🔊' || c == '📈' {
        2
    } else {
        1
    }
}

/// The number of columns that `s` takes when the reader is inside a styling
/// sequence at its start (`inside == true`) or not.
pub open spec fn visible_from(s: Seq<char>, inside: bool) -> nat
    decreases s.len(),
{
    if s.len() == 0 {
        0
    } else if s[0] == ESCAPE {
        visible_from(s.skip(1), true)
    } else if inside {
        visible_from(s.skip(1), s[0] != SEQUENCE_END)
    } else {
        glyph_width(s[0]) + visible_from(s.skip(1), false)
    }
}

/// The number of columns that `s` takes on screen.
pub open spec fn visible_width(s: Seq<char>) -> nat {
    visible_from(s, false)
}

/// The padding that brings a text of `visible` columns to `target` columns.
pub open spec fn padding(visible: nat, target: nat) -> nat {
    if target > visible {
        (target - visible) as nat
    } else {
        0
    }
}

/// `count` spaces.
pub open spec fn spaces(count: nat) -> Seq<char> {
    Seq::new(count, |i: int| ' ')
}

/// A text never takes more columns than its UTF-8 encoding has bytes.
pub proof fn lemma_visible_within_bytes(s: Seq<char>, inside: bool)
    ensures
        visible_from(s, inside) <= encode_utf8(s).len(),
    decreases s.len(),
{
    if s.len() > 0 {
        assert(s.drop_first() =~= s.skip(1));
        if s[0] == ESCAPE {
            lemma_visible_within_bytes(s.skip(1), true);
        } else if inside {
            lemma_visible_within_bytes(s.skip(1), s[0] != SEQUENCE_END);
        } else {
            lemma_visible_within_bytes(s.skip(1), false);
        }
    }
}

/// Whether a reader of `s` is inside a styling sequence at its end, given
/// whether it was inside one at its start.
pub open spec fn open_after(s: Seq<char>, inside: bool) -> bool
    decreases s.len(),
{
    if s.len() == 0 {
        inside
    } else if s[0] == ESCAPE {
        open_after(s.skip(1), true)
    } else if inside {
        open_after(s.skip(1), s[0] != SEQUENCE_END)
    } else {
        open_after(s.skip(1), false)
    }
}

/// Whether `s` takes exactly `columns` columns and leaves no styling
/// sequence open, read from outside any sequence.
pub open spec fn takes(s: Seq<char>, columns: nat) -> bool {
    visible_from(s, false) == columns && !open_after(s, false)
}

/// The width of two texts in a row is the sum of their widths, the second
/// one read from where the first one leaves off.
pub proof fn lemma_visible_concat(a: Seq<char>, b: Seq<char>, inside: bool)
    ensures
        visible_from(a + b, inside) == visible_from(a, inside) + visible_from(
            b,
            open_after(a, inside),
        ),
        open_after(a + b, inside) == open_after(b, open_after(a, inside)),
    decreases a.len(),
{
    if a.len() == 0 {
        assert(a + b =~= b);
    } else {
        assert((a + b).skip(1) =~= a.skip(1) + b);
        assert((a + b)[0] == a[0]);
        if a[0] == ESCAPE {
            lemma_visible_concat(a.skip(1), b, true);
        } else if inside {
            lemma_visible_concat(a.skip(1), b, a[0] != SEQUENCE_END);
        } else {
            lemma_visible_concat(a.skip(1), b, false);
        }
    }
}

/// Two texts that leave no sequence open take, in a row, the sum of their
/// columns.
pub proof fn lemma_takes_concat(a: Seq<char>, m: nat, b: Seq<char>, n: nat)
    requires
        takes(a, m),
        takes(b, n),
    ensures
        takes(a + b, m + n),
{
    lemma_visible_concat(a, b, false);
}

/// `count` spaces take `count` columns.
pub proof fn lemma_spaces_take(count: nat)
    ensures
        takes(spaces(count), count),
    decreases count,
{
    if count > 0 {
        assert(spaces(count).skip(1) =~= spaces((count - 1) as nat));
        lemma_spaces_take((count - 1) as nat);
    }
}

/// Measures the width of `s` on screen, ignoring styling sequences.
pub fn get_visible_width(s: &str) -> (width: usize)
    ensures
        width == visible_width(s@),
{
    // The width is at most the length in bytes, so the count cannot overflow.
    let _byte_len: usize = s.as_bytes().len();
    proof {
        lemma_visible_within_bytes(s@, false);
        assert(s@.skip(0) =~= s@);
    }
    let mut width: usize = 0;
    let mut inside_ansi = false;
    for c in it: s.chars()
        invariant
            it.seq() == s@,
            visible_width(s@) <= _byte_len,
            width + visible_from(s@.skip(it.index() as int), inside_ansi) == visible_width(s@),
    {
        assert(s@.skip(it.index() as int).skip(1) =~= s@.skip(it.index() + 1));
        if c == ESCAPE {
            inside_ansi = true;
        } else if inside_ansi {
            if c == SEQUENCE_END {
                inside_ansi = false;
            }
        } else if c == '🎧' || c == '📊' || c == '🔊' || c == '📈' {
            width += 2;
        } else {
            width += 1;
        }
    }
    width
}

/// The number of spaces that pad `content` to `target` columns: none if it
/// is that wide already.
pub fn padding_for(content: &str, target: usize) -> (pad: usize)
    ensures
        pad == padding(visible_width(content@), target as nat),
{
    let visible: usize = get_visible_width(content);
    if target > visible {
        target - visible
    } else {
        0
    }
}

/// Appends `count` spaces to `out`.
pub fn push_spaces(out: &mut String, count: usize)
    ensures
        final(out)@ == old(out)@ + spaces(count as nat),
{
    let mut i: usize = 0;
    assert(out@ =~= old(out)@ + spaces(0));
    while i < count
        invariant
            i <= count,
            out@ == old(out)@ + spaces(i as nat),
        decreases count - i,
    {
        out.push(' ');
        assert(out@ =~= old(out)@ + spaces((i + 1) as nat));
        i += 1;
    }
}

/// A text that leaves no styling sequence open, padded to `width` columns,
/// takes `width` columns, unless it was wider before.
pub proof fn lemma_padded_takes(text: Seq<char>, width: nat)
    requires
        !open_after(text, false),
    ensures
        takes(
            text + spaces(padding(visible_width(text), width)),
            if visible_width(text) > width {
                visible_width(text)
            } else {
                width
            },
        ),
{
    let pad = padding(visible_width(text), width);
    lemma_spaces_take(pad);
    lemma_takes_concat(text, visible_width(text), spaces(pad), pad);
}

/// Pads `text` with spaces on the right to `width` columns. Styling
/// sequences in `text` are kept and do not count.
pub fn pad_field(text: &str, width: usize) -> (out: String)
    ensures
        out@ == text@ + spaces(padding(visible_width(text@), width as nat)),
        !open_after(text@, false) && visible_width(text@) <= width ==> visible_width(out@)
            == width,
{
    proof {
        if !open_after(text@, false) {
            lemma_padded_takes(text@, width as nat);
        }
    }
    let pad: usize = padding_for(text, width);
    let mut out = String::new();
    out.append(text);
    assert(out@ =~= text@);
    push_spaces(&mut out, pad);
    out
}

/// The styled vertical border that stands at both ends of a dashboard row.
pub open spec fn border() -> Seq<char> {
    "\x1B[1;96m║\x1B[0m"@
}

/// A dashboard row: `content` between two borders, padded on the right to
/// `inner` columns.
pub open spec fn framed(content: Seq<char>, inner: nat) -> Seq<char> {
    border() + content + spaces(padding(visible_width(content), inner)) + border()
}

/// A dashboard row with `content` in the middle of `inner` columns. Of an
/// odd number of padding columns the larger half stands on the right.
pub open spec fn centered(content: Seq<char>, inner: nat) -> Seq<char> {
    let pad = padding(visible_width(content), inner);
    border() + spaces(pad / 2) + content + spaces((pad - pad / 2) as nat) + border()
}

/// The border of a row takes one column.
pub proof fn lemma_border_takes()
    ensures
        takes(border(), 1),
{
    reveal_strlit("\x1B[1;96m║\x1B[0m");
    reveal_with_fuel(visible_from, 14);
    reveal_with_fuel(open_after, 14);
}

/// The columns of a row whose content takes `visible` columns: the content
/// or the inner width, whichever is larger, and the two borders.
pub open spec fn row_width(visible: nat, inner: nat) -> nat {
    if visible > inner {
        visible + 2
    } else {
        inner + 2
    }
}

/// A row whose content leaves no styling sequence open is as wide as its
/// inner width and borders, unless the content alone is wider.
pub proof fn lemma_framed_takes(content: Seq<char>, inner: nat)
    requires
        !open_after(content, false),
    ensures
        takes(framed(content, inner), row_width(visible_width(content), inner)),
{
    let visible = visible_width(content);
    let pad = padding(visible, inner);
    lemma_border_takes();
    lemma_spaces_take(pad);
    lemma_takes_concat(border(), 1, content, visible);
    lemma_takes_concat(border() + content, 1 + visible, spaces(pad), pad);
    lemma_takes_concat(border() + content + spaces(pad), 1 + visible + pad, border(), 1);
}

/// A centred row is as wide as a row with the same content on the left.
pub proof fn lemma_centered_takes(content: Seq<char>, inner: nat)
    requires
        !open_after(content, false),
    ensures
        takes(centered(content, inner), row_width(visible_width(content), inner)),
{
    let visible = visible_width(content);
    let pad = padding(visible, inner);
    let left = pad / 2;
    let right = (pad - pad / 2) as nat;
    lemma_border_takes();
    lemma_spaces_take(left);
    lemma_spaces_take(right);
    lemma_takes_concat(border(), 1, spaces(left), left);
    lemma_takes_concat(border() + spaces(left), 1 + left, content, visible);
    lemma_takes_concat(border() + spaces(left) + content, 1 + left + visible, spaces(right), right);
    lemma_takes_concat(
        border() + spaces(left) + content + spaces(right),
        1 + left + visible + right,
        border(),
        1,
    );
}

/// Builds a dashboard row with `content` on the left.
pub fn frame_row(content: &str, inner: usize) -> (row: String)
    ensures
        row@ == framed(content@, inner as nat),
        !open_after(content@, false) ==> visible_width(row@) == row_width(
            visible_width(content@),
            inner as nat,
        ),
{
    proof {
        if !open_after(content@, false) {
            lemma_framed_takes(content@, inner as nat);
        }
    }
    let pad: usize = padding_for(content, inner);
    let mut row = String::new();
    row.append("\x1B[1;96m║\x1B[0m");
    row.append(content);
    push_spaces(&mut row, pad);
    row.append("\x1B[1;96m║\x1B[0m");
    assert(row@ =~= framed(content@, inner as nat));
    row
}

/// Builds a dashboard row with `content` in the middle.
pub fn center_row(content: &str, inner: usize) -> (row: String)
    ensures
        row@ == centered(content@, inner as nat),
        !open_after(content@, false) ==> visible_width(row@) == row_width(
            visible_width(content@),
            inner as nat,
        ),
{
    proof {
        if !open_after(content@, false) {
            lemma_centered_takes(content@, inner as nat);
        }
    }
    let pad: usize = padding_for(content, inner);
    let left: usize = pad / 2;
    let mut row = String::new();
    row.append("\x1B[1;96m║\x1B[0m");
    push_spaces(&mut row, left);
    row.append(content);
    push_spaces(&mut row, pad - left);
    row.append("\x1B[1;96m║\x1B[0m");
    assert(row@ =~= centered(content@, inner as nat));
    row
}

/// The text of cell `i` of a pan bar whose marker stands at cell `pos` and
/// whose centre is cell `half`.
///
/// The centre cell shows a centre mark, highlighted when the marker stands
/// on it. Elsewhere the marker is an arrow that points away from the
/// centre, the cells between the marker and the centre are filled, and the
/// remaining cells show the empty track.
pub open spec fn pan_cell(i: int, pos: int, half: int) -> Seq<char> {
    if i == half {
        if pos == half {
            "\x1B[1;33m┃\x1B[0m"@
        } else {
            "│"@
        }
    } else if i == pos {
        if i < half {
            "\x1B[1;33m◀\x1B[0m"@
        } else {
            "\x1B[1;35m▶\x1B[0m"@
        }
    } else if pos < i < half {
        "\x1B[33m━\x1B[0m"@
    } else if half < i < pos {
        "\x1B[35m━\x1B[0m"@
    } else {
        "─"@
    }
}

/// The first `upto` cells of a pan bar of `width` cells, one after another.
pub open spec fn pan_cells(pos: int, width: int, upto: int) -> Seq<char>
    decreases upto,
{
    if upto <= 0 {
        Seq::empty()
    } else {
        pan_cells(pos, width, upto - 1) + pan_cell(upto - 1, pos, width / 2)
    }
}

/// A pan bar of `width` cells between square brackets, with its marker at
/// cell `pos`.
pub open spec fn pan_bar(pos: int, width: int) -> Seq<char> {
    "["@ + pan_cells(pos, width, width) + "]"@
}

/// The text of cell `i` of a volume bar of `width` cells of which the first
/// `filled` are lit: green in the first half of the bar, yellow up to four
/// fifths of it, red beyond.
pub open spec fn volume_cell(i: int, filled: int, width: int) -> Seq<char> {
    if i >= filled {
        "░"@
    } else if 2 * i < width {
        "\x1B[32m█\x1B[0m"@
    } else if 5 * i < 4 * width {
        "\x1B[33m█\x1B[0m"@
    } else {
        "\x1B[31m█\x1B[0m"@
    }
}

/// The first `upto` cells of a volume bar, one after another.
pub open spec fn volume_cells(filled: int, width: int, upto: int) -> Seq<char>
    decreases upto,
{
    if upto <= 0 {
        Seq::empty()
    } else {
        volume_cells(filled, width, upto - 1) + volume_cell(upto - 1, filled, width)
    }
}

/// A volume bar of `width` cells between square brackets, of which the
/// first `filled` are lit.
pub open spec fn volume_bar(filled: int, width: int) -> Seq<char> {
    "["@ + volume_cells(filled, width, width) + "]"@
}

/// Every cell of a pan bar takes one column.
pub proof fn lemma_pan_cell_takes(i: int, pos: int, half: int)
    ensures
        takes(pan_cell(i, pos, half), 1),
{
    reveal_strlit("\x1B[1;33m┃\x1B[0m");
    reveal_strlit("│");
    reveal_strlit("\x1B[1;33m◀\x1B[0m");
    reveal_strlit("\x1B[1;35m▶\x1B[0m");
    reveal_strlit("\x1B[33m━\x1B[0m");
    reveal_strlit("\x1B[35m━\x1B[0m");
    reveal_strlit("─");
    reveal_with_fuel(visible_from, 14);
    reveal_with_fuel(open_after, 14);
}

/// Every cell of a volume bar takes one column.
pub proof fn lemma_volume_cell_takes(i: int, filled: int, width: int)
    ensures
        takes(volume_cell(i, filled, width), 1),
{
    reveal_strlit("░");
    reveal_strlit("\x1B[32m█\x1B[0m");
    reveal_strlit("\x1B[33m█\x1B[0m");
    reveal_strlit("\x1B[31m█\x1B[0m");
    reveal_with_fuel(visible_from, 12);
    reveal_with_fuel(open_after, 12);
}

/// The first `upto` cells of a pan bar take `upto` columns.
pub proof fn lemma_pan_cells_take(pos: int, width: int, upto: int)
    requires
        0 <= upto,
    ensures
        takes(pan_cells(pos, width, upto), upto as nat),
    decreases upto,
{
    if upto > 0 {
        lemma_pan_cells_take(pos, width, upto - 1);
        lemma_pan_cell_takes(upto - 1, pos, width / 2);
        lemma_takes_concat(
            pan_cells(pos, width, upto - 1),
            (upto - 1) as nat,
            pan_cell(upto - 1, pos, width / 2),
            1,
        );
    }
}

/// The first `upto` cells of a volume bar take `upto` columns.
pub proof fn lemma_volume_cells_take(filled: int, width: int, upto: int)
    requires
        0 <= upto,
    ensures
        takes(volume_cells(filled, width, upto), upto as nat),
    decreases upto,
{
    if upto > 0 {
        lemma_volume_cells_take(filled, width, upto - 1);
        lemma_volume_cell_takes(upto - 1, filled, width);
        lemma_takes_concat(
            volume_cells(filled, width, upto - 1),
            (upto - 1) as nat,
            volume_cell(upto - 1, filled, width),
            1,
        );
    }
}

/// A square bracket takes one column.
proof fn lemma_brackets_take()
    ensures
        takes("["@, 1),
        takes("]"@, 1),
{
    reveal_strlit("[");
    reveal_strlit("]");
    reveal_with_fuel(visible_from, 2);
    reveal_with_fuel(open_after, 2);
}

/// A pan bar of `width` cells takes `width` columns and two more for its
/// brackets, wherever the marker stands.
pub proof fn lemma_pan_bar_takes(pos: int, width: int)
    requires
        0 <= width,
    ensures
        takes(pan_bar(pos, width), (width + 2) as nat),
{
    lemma_brackets_take();
    lemma_pan_cells_take(pos, width, width);
    lemma_takes_concat("["@, 1, pan_cells(pos, width, width), width as nat);
    lemma_takes_concat("["@ + pan_cells(pos, width, width), (1 + width) as nat, "]"@, 1);
}

/// A volume bar of `width` cells takes `width` columns and two more for its
/// brackets, however many cells are lit.
pub proof fn lemma_volume_bar_takes(filled: int, width: int)
    requires
        0 <= width,
    ensures
        takes(volume_bar(filled, width), (width + 2) as nat),
{
    lemma_brackets_take();
    lemma_volume_cells_take(filled, width, width);
    lemma_takes_concat("["@, 1, volume_cells(filled, width, width), width as nat);
    lemma_takes_concat("["@ + volume_cells(filled, width, width), (1 + width) as nat, "]"@, 1);
}

/// Picks the text of one cell of a pan bar.
fn pan_cell_text(i: usize, pos: usize, half: usize) -> (cell: &'static str)
    ensures
        cell@ == pan_cell(i as int, pos as int, half as int),
{
    if i == half {
        if pos == i {
            "\x1B[1;33m┃\x1B[0m"
        } else {
            "│"
        }
    } else if i == pos {
        if i < half {
            "\x1B[1;33m◀\x1B[0m"
        } else {
            "\x1B[1;35m▶\x1B[0m"
        }
    } else if i < half {
        if i >= pos && pos < half {
            "\x1B[33m━\x1B[0m"
        } else {
            "─"
        }
    } else {
        if i <= pos && pos > half {
            "\x1B[35m━\x1B[0m"
        } else {
            "─"
        }
    }
}

/// Picks the text of one cell of a volume bar.
fn volume_cell_text(i: usize, filled: usize, width: usize) -> (cell: &'static str)
    requires
        i < width,
    ensures
        cell@ == volume_cell(i as int, filled as int, width as int),
{
    if i >= filled {
        "░"
    } else if i < width - i {
        "\x1B[32m█\x1B[0m"
    } else if 5 * (i as u128) < 4 * (width as u128) {
        "\x1B[33m█\x1B[0m"
    } else {
        "\x1B[31m█\x1B[0m"
    }
}

/// Draws a pan bar of `width` cells with its marker at cell `pos`.
pub fn render_pan_bar(pos: usize, width: usize) -> (bar: String)
    ensures
        bar@ == pan_bar(pos as int, width as int),
        visible_width(bar@) == width + 2,
{
    proof {
        lemma_pan_bar_takes(pos as int, width as int);
    }
    let half: usize = width / 2;
    let mut bar = String::new();
    bar.append("[");
    let mut i: usize = 0;
    assert(bar@ =~= "["@ + pan_cells(pos as int, width as int, 0));
    while i < width
        invariant
            i <= width,
            half == width / 2,
            bar@ == "["@ + pan_cells(pos as int, width as int, i as int),
        decreases width - i,
    {
        bar.append(pan_cell_text(i, pos, half));
        i += 1;
        assert(bar@ =~= "["@ + pan_cells(pos as int, width as int, i as int));
    }
    bar.append("]");
    bar
}

/// Draws a volume bar of `width` cells of which the first `filled` are lit.
pub fn render_volume_bar(filled: usize, width: usize) -> (bar: String)
    ensures
        bar@ == volume_bar(filled as int, width as int),
        visible_width(bar@) == width + 2,
{
    proof {
        lemma_volume_bar_takes(filled as int, width as int);
    }
    let mut bar = String::new();
    bar.append("[");
    let mut i: usize = 0;
    assert(bar@ =~= "["@ + volume_cells(filled as int, width as int, 0));
    while i < width
        invariant
            i <= width,
            bar@ == "["@ + volume_cells(filled as int, width as int, i as int),
        decreases width - i,
    {
        bar.append(volume_cell_text(i, filled, width));
        i += 1;
        assert(bar@ =~= "["@ + volume_cells(filled as int, width as int, i as int));
    }
    bar.append("]");
    bar
}

} // verus!
