//! The board: the 25 slots as bars, with the seated values above them.
use vstd::prelude::*;
use vstd::string::*;

use crate::compute::shuffle;
use crate::decimal;
use crate::text;
use crate::tui::layout;
use crate::tui::layout::{Area, Axis, Extent};
use crate::tui::paint;
use crate::tui::paint::{Align, Paint, PaintMark, Widget};
use crate::tui::palette;
use crate::tui::palette::Tone;
use crate::tui::piece;
use crate::tui::piece::{Mark, Piece};

verus! {

broadcast use {piece::group_marks, paint::group_paints};

/// The title over the board.
pub open spec fn title_text(score: i32) -> Seq<char> {
    if score >= 0 {
        " board - "@ + text::decimal(score as nat) + " of 25 seated correctly "@
    } else {
        " board - awaiting first result "@
    }
}

pub fn board_title(score: i32) -> (r: String)
    ensures
        r@ == title_text(score),
{
    if score >= 0 {
        let mut out: String = " board - ".to_owned();
        text::push_decimal(&mut out, score as u64);
        out.append(" of 25 seated correctly ");
        out
    } else {
        " board - awaiting first result ".to_owned()
    }
}

/// How thick a bar is: what is left of the width beside the 24 gaps, shared by
/// the 25 bars, and at least one column.
pub open spec fn thickness(width: nat) -> nat {
    if width < 49 {
        1
    } else {
        ((width - 24) / 25) as nat
    }
}

pub fn bar_width(width: u16) -> (w: usize)
    ensures
        w == thickness(width as nat),
{
    let gap_cols: usize = 24;
    let columns: usize = width as usize;
    let shared: usize = if columns > gap_cols {
        (columns - gap_cols) / 25
    } else {
        0
    };
    if shared > 1 {
        shared
    } else {
        1
    }
}

/// Law: 25 bars and the gaps between them never take more columns than there
/// are, once there is one column for each.
pub proof fn law_bars_fit(width: u16)
    requires
        width >= 49,
    ensures
        25 * thickness(width as nat) + 24 <= width,
        width < 25 * (thickness(width as nat) + 1) + 24,
{
}

/// `v` with blanks before it, to fill `width` columns.
pub open spec fn right_aligned(v: u8, width: nat) -> Seq<char> {
    let digits = text::decimal(v as nat);
    if digits.len() < width {
        piece::repeated(' ', (width - digits.len()) as nat) + digits
    } else {
        digits
    }
}

/// The label over a bar: the value, or its last digit where the bar is too
/// narrow for two.
pub open spec fn label_text(v: u8, width: nat) -> Seq<char> {
    if width >= 2 {
        right_aligned(v, width)
    } else {
        text::decimal((v % 10) as nat)
    }
}

pub open spec fn label_cells(arr: Seq<u8>, width: nat) -> Seq<Mark> {
    Seq::new(
        25,
        |i: int|
            piece::bold(label_text(arr[i], width), palette::seat_tone(shuffle::seated(arr, i))),
    )
}

/// The line of seated values over the bars.
pub open spec fn label_marks(arr: Seq<u8>, width: nat) -> Seq<Mark> {
    piece::spaced(label_cells(arr, width), piece::raw(" "@))
}

proof fn lemma_decimal_digits(v: nat)
    requires
        v < 256,
    ensures
        v < 10 ==> text::decimal(v).len() == 1,
        10 <= v < 100 ==> text::decimal(v).len() == 2,
        100 <= v ==> text::decimal(v).len() == 3,
{
    reveal_with_fuel(text::decimal, 4);
}

fn label(v: u8, width: usize) -> (s: String)
    ensures
        s@ == label_text(v, width as nat),
{
    if width >= 2 {
        let digits: usize = if v < 10 {
            1
        } else if v < 100 {
            2
        } else {
            3
        };
        proof {
            lemma_decimal_digits(v as nat);
        }
        let blanks: usize = if digits < width {
            width - digits
        } else {
            0
        };
        let mut out: String = piece::repeat_char(' ', blanks);
        text::push_decimal(&mut out, v as u64);
        proof {
            assert(out@ =~= label_text(v, width as nat));
        }
        out
    } else {
        let mut out: String = String::new();
        text::push_decimal(&mut out, (v % 10) as u64);
        proof {
            assert(out@ =~= label_text(v, width as nat));
        }
        out
    }
}

/// The tone of slot `i`, which holds `v`.
fn slot_tone(v: u8, i: usize) -> (t: Tone)
    requires
        i < 25,
    ensures
        t == palette::seat_tone(v == i + 1),
{
    if v == (i + 1) as u8 {
        Tone::Correct
    } else {
        Tone::Wrong
    }
}

/// One line of seated values, right-aligned over each bar's column.
pub fn build_value_labels(arr: &[u8; 25], bar_width: usize) -> (line: Vec<Piece>)
    ensures
        piece::marks(line@) == label_marks(arr@, bar_width as nat),
{
    let ghost cells = label_cells(arr@, bar_width as nat);
    let ghost gap = piece::raw(" "@);
    let mut line: Vec<Piece> = Vec::new();
    let mut i: usize = 0;
    while i < 25
        invariant
            i <= 25,
            gap == piece::raw(" "@),
            cells == label_cells(arr@, bar_width as nat),
            piece::marks(line@) == piece::spaced(cells.take(i as int), gap),
        decreases 25 - i,
    {
        if i > 0 {
            line.push(Piece::raw(" ".to_owned()));
        }
        line.push(Piece::bold(label(arr[i], bar_width), slot_tone(arr[i], i)));
        proof {
            piece::lemma_spaced_push(cells.take(i as int), cells[i as int], gap);
            assert(cells.take(i + 1) =~= cells.take(i as int).push(cells[i as int]));
            assert(piece::marks(line@) =~= piece::spaced(cells.take(i + 1), gap));
        }
        i = i + 1;
    }
    proof {
        assert(cells.take(25) =~= cells);
    }
    line
}

/// How many rows a bar for `v` fills, out of `rows` for 25.
pub open spec fn filled(v: u8, rows: nat) -> nat {
    let seat: nat = if v < 25 {
        v as nat
    } else {
        25
    };
    (seat * rows * 2 + 25) / 50
}

/// Law: a bar's height is the nearest to its value's share of the rows, stays
/// within them, and is all of them for 25 and none for 0.
pub proof fn law_bar_height(v: u8, rows: nat)
    requires
        v <= 25,
    ensures
        filled(v, rows) <= rows,
        -25 <= 50 * filled(v, rows) - 2 * v * rows <= 25,
        v == 25 ==> filled(v, rows) == rows,
        v == 0 ==> filled(v, rows) == 0,
{
    let x = v as nat * rows;
    assert(x * 2 == 2 * v * rows) by (nonlinear_arith)
        requires
            x == v * rows,
    ;
    assert(x <= 25 * rows) by (nonlinear_arith)
        requires
            x == v * rows,
            v <= 25,
    ;
    if v == 25 {
        assert(x == 25 * rows);
    }
    if v == 0 {
        assert(x == 0) by (nonlinear_arith)
            requires
                x == v * rows,
                v == 0,
        ;
    }
}

/// Row `r` from the top of the bar in slot `i`.
pub open spec fn bar_cell(arr: Seq<u8>, rows: nat, width: nat, r: int, i: int) -> Mark {
    piece::bold(
        piece::repeated(
            if rows - 1 - r < filled(arr[i], rows) {
                '#'
            } else {
                ' '
            },
            width,
        ),
        palette::seat_tone(shuffle::seated(arr, i)),
    )
}

pub open spec fn bar_cells(arr: Seq<u8>, rows: nat, width: nat, r: int) -> Seq<Mark> {
    Seq::new(25, |i: int| bar_cell(arr, rows, width, r, i))
}

pub open spec fn bar_row(arr: Seq<u8>, rows: nat, width: nat, r: int) -> Seq<Mark> {
    piece::spaced(bar_cells(arr, rows, width, r), piece::raw(" "@))
}

/// `n`, but at least one.
pub open spec fn one_or_more(n: nat) -> nat {
    if n == 0 {
        1
    } else {
        n
    }
}

/// The bars, row by row from the top.
pub open spec fn bar_page(arr: Seq<u8>, rows: nat, width: nat) -> Seq<Seq<Mark>> {
    Seq::new(
        one_or_more(rows),
        |r: int| bar_row(arr, one_or_more(rows), one_or_more(width), r),
    )
}

/// The rows that the bar for `v` fills.
fn bar_height(v: u8, rows: usize) -> (h: usize)
    requires
        rows * 50 + 25 <= usize::MAX,
    ensures
        h == filled(v, rows as nat),
{
    let seat: usize = if v < 25 {
        v as usize
    } else {
        25
    };
    proof {
        assert(seat * rows * 2 + 25 <= rows * 50 + 25) by (nonlinear_arith)
            requires
                seat <= 25,
        ;
        assert(0 <= seat * rows <= seat * rows * 2) by (nonlinear_arith);
    }
    (seat * rows * 2 + 25) / 50
}

/// The 25 slots as vertical bars of `#`, one per slot, `bar_width` characters
/// thick, as high as the value seated there.
pub fn build_ascii_bars(arr: &[u8; 25], rows: usize, bar_width: usize) -> (lines: Vec<Vec<Piece>>)
    requires
        rows * 50 + 25 <= usize::MAX,
    ensures
        piece::page(lines@) == bar_page(arr@, rows as nat, bar_width as nat),
{
    let rows: usize = if rows > 1 {
        rows
    } else {
        1
    };
    let bar_width: usize = if bar_width > 1 {
        bar_width
    } else {
        1
    };
    let ghost gap = piece::raw(" "@);
    let ghost whole = Seq::new(
        rows as nat,
        |r: int| bar_row(arr@, rows as nat, bar_width as nat, r),
    );
    let mut lines: Vec<Vec<Piece>> = Vec::new();
    let mut r: usize = 0;
    while r < rows
        invariant
            r <= rows,
            rows * 50 + 25 <= usize::MAX,
            gap == piece::raw(" "@),
            whole == Seq::new(
                rows as nat,
                |r: int| bar_row(arr@, rows as nat, bar_width as nat, r),
            ),
            piece::page(lines@) == whole.take(r as int),
        decreases rows - r,
    {
        let level: usize = rows - 1 - r;
        let ghost cells = bar_cells(arr@, rows as nat, bar_width as nat, r as int);
        let mut line: Vec<Piece> = Vec::new();
        let mut i: usize = 0;
        while i < 25
            invariant
                i <= 25,
                rows * 50 + 25 <= usize::MAX,
                r < rows,
                level == rows - 1 - r,
                gap == piece::raw(" "@),
                cells == bar_cells(arr@, rows as nat, bar_width as nat, r as int),
                piece::marks(line@) == piece::spaced(cells.take(i as int), gap),
            decreases 25 - i,
        {
            if i > 0 {
                line.push(Piece::raw(" ".to_owned()));
            }
            let ch: char = if level < bar_height(arr[i], rows) {
                '#'
            } else {
                ' '
            };
            line.push(Piece::bold(piece::repeat_char(ch, bar_width), slot_tone(arr[i], i)));
            proof {
                piece::lemma_spaced_push(cells.take(i as int), cells[i as int], gap);
                assert(cells.take(i + 1) =~= cells.take(i as int).push(cells[i as int]));
                assert(piece::marks(line@) =~= piece::spaced(cells.take(i + 1), gap));
            }
            i = i + 1;
        }
        proof {
            assert(cells.take(25) =~= cells);
            assert(whole.take(r + 1) =~= whole.take(r as int).push(piece::marks(line@)));
        }
        lines.push(line);
        r = r + 1;
    }
    proof {
        assert(whole.take(r as int) =~= whole);
        assert(whole =~= bar_page(arr@, rows as nat, bar_width as nat));
    }
    lines
}

/// Law: a bar has the tone of the label over it, row by row, and that is the
/// tone for correct exactly where the slot holds the value that belongs there.
pub proof fn law_tones_show_the_seats(arr: Seq<u8>, rows: nat, width: nat, r: int, i: int)
    requires
        0 <= i < 25,
    ensures
        bar_cell(arr, rows, width, r, i).tone == label_cells(arr, width)[i].tone,
        bar_cell(arr, rows, width, r, i).tone == Some(Tone::Correct) <==> shuffle::seated(arr, i),
{
}

/// A label fills the columns of its bar, and its last character is the last
/// digit of the value.
proof fn lemma_label_width(v: u8, width: nat)
    requires
        v <= 25,
    ensures
        label_text(v, width).len() == one_or_more(width),
        label_text(v, width).last() == text::digit((v % 10) as nat),
{
    lemma_decimal_digits(v as nat);
    lemma_decimal_digits((v % 10) as nat);
    reveal_with_fuel(text::decimal, 3);
}

/// Law: the labels line up with the bars, column for column. The line of labels
/// is as long as every row of bars. Label `i` and bar `i` fill the same columns,
/// the last digit of the label stands over the last column of the bar, and both
/// have one tone. A width of zero counts as one.
pub proof fn law_labels_line_up(arr: Seq<u8>, rows: nat, width: nat, r: int, i: int, j: int)
    requires
        forall|k: int| 0 <= k < 25 ==> #[trigger] arr[k] <= 25,
        0 <= r < one_or_more(rows),
        0 <= i < 25,
        0 <= j < one_or_more(width),
    ensures
        ({
            let w = one_or_more(width) as int;
            let labels = piece::text_of(label_marks(arr, width));
            let bars = piece::text_of(bar_page(arr, rows, width)[r]);
            let label = label_cells(arr, width)[i];
            let bar = bar_cell(arr, one_or_more(rows), one_or_more(width), r, i);
            &&& labels.len() == 25 * w + 24
            &&& bars.len() == labels.len()
            &&& label.text.len() == w
            &&& bar.text.len() == w
            &&& labels[i * (w + 1) + j] == label.text[j]
            &&& bars[i * (w + 1) + j] == bar.text[j]
            &&& labels[i * (w + 1) + w - 1] == text::digit((arr[i] % 10) as nat)
            &&& label.tone == bar.tone
        }),
        label_marks(arr, 0) == label_marks(arr, 1),
{
    let w = one_or_more(width) as int;
    let gap = piece::raw(" "@);
    reveal_strlit(" ");
    let labels = label_cells(arr, width);
    let bars = bar_cells(arr, one_or_more(rows), one_or_more(width), r);
    assert forall|k: int| 0 <= k < labels.len() implies (#[trigger] labels[k]).text.len() == w by {
        assert(arr[k] <= 25);
        lemma_label_width(arr[k], width);
    }
    piece::lemma_columns(labels, gap, w);
    piece::lemma_columns(bars, gap, w);
    assert(arr[i] <= 25);
    lemma_label_width(arr[i], width);
    assert(labels[i].text[w - 1] == labels[i].text.last());
    assert(bars[i].text[j] == bar_cell(arr, one_or_more(rows), one_or_more(width), r, i).text[j]);
    assert(labels[i].text[j] == label_cells(arr, width)[i].text[j]);
    assert(label_cells(arr, 0) =~= label_cells(arr, 1));
}

/// The line under the bars.
pub open spec fn legend_marks() -> Seq<Mark> {
    seq![
        piece::bold("# "@, Tone::Correct),
        piece::plain("seated correctly      "@, Tone::Dim),
        piece::bold("# "@, Tone::Wrong),
        piece::plain("out of place      "@, Tone::Dim),
        piece::plain("(bar height = seated value, slots 1-25 left to right)"@, Tone::Dim),
    ]
}

pub fn legend_line() -> (line: Vec<Piece>)
    ensures
        piece::marks(line@) == legend_marks(),
{
    let mut line: Vec<Piece> = Vec::new();
    line.push(Piece::bold("# ".to_owned(), Tone::Correct));
    line.push(Piece::plain("seated correctly      ".to_owned(), Tone::Dim));
    line.push(Piece::bold("# ".to_owned(), Tone::Wrong));
    line.push(Piece::plain("out of place      ".to_owned(), Tone::Dim));
    line.push(
        Piece::plain(
            "(bar height = seated value, slots 1-25 left to right)".to_owned(),
            Tone::Dim,
        ),
    );
    proof {
        assert(piece::marks(line@) =~= legend_marks());
    }
    line
}

/// The rows: the labels, the bars, and the legend.
pub open spec fn board_rows() -> Seq<Extent> {
    seq![Extent::Length(1), Extent::Min(6), Extent::Length(1)]
}

/// What the board says before the first report.
pub open spec fn waiting_mark() -> Mark {
    piece::plain("the furnace hasn't reported a shuffle yet..."@, Tone::Dim)
}

/// The board before the first report.
pub open spec fn waiting_paints(area: Area, score: i32) -> Seq<PaintMark> {
    seq![
        paint::titled_frame(area, piece::plain(title_text(score), Tone::White)),
        paint::text_line(
            layout::middle(layout::inside(area)),
            seq![waiting_mark()],
            Align::Center,
        ),
    ]
}

/// The board in its three rows. The bars share the width inside the frame, and
/// have the height of their row.
pub open spec fn chart_paints(area: Area, rows: Seq<Area>, arr: Seq<u8>, score: i32) -> Seq<
    PaintMark,
> {
    let width = thickness(layout::inside(area).width as nat);
    seq![
        paint::titled_frame(area, piece::plain(title_text(score), Tone::White)),
        paint::text_line(rows[0], label_marks(arr, width), Align::Center),
        paint::text_page(rows[1], bar_page(arr, rows[1].height as nat, width), Align::Center),
        paint::text_line(rows[2], legend_marks(), Align::Center),
    ]
}

/// The board, in rows that the inside of its frame was cut into, or the word
/// that there is none yet.
pub open spec fn is_board(area: Area, arr: Seq<u8>, score: i32, paints: Seq<PaintMark>) -> bool {
    if score < 0 {
        paints == waiting_paints(area, score)
    } else {
        exists|rows: Seq<Area>| #[trigger]
            layout::is_split(layout::inside(area), Axis::Vertical, board_rows(), rows) && paints
                == chart_paints(area, rows, arr, score)
    }
}

/// The board, in the rows given.
pub fn paint_chart(area: Area, rows: &Vec<Area>, arr: &[u8; 25], score: i32) -> (paints: Vec<Paint>)
    requires
        area.fits(),
        rows.len() == 3,
    ensures
        paint::marks(paints@) == chart_paints(area, rows@, arr@, score),
{
    let inner: Area = layout::frame_inner(area);
    let width: usize = bar_width(inner.width);
    let mut paints: Vec<Paint> = Vec::new();
    paints.push(
        paint::frame_with_title(area, Piece::plain(board_title(score), Tone::White)),
    );
    paints.push(paint::line_of_text(rows[0], build_value_labels(arr, width), Align::Center));
    let bars: Vec<Vec<Piece>> = build_ascii_bars(arr, rows[1].height as usize, width);
    paints.push(paint::page_of_text(rows[1], bars, Align::Center));
    paints.push(paint::line_of_text(rows[2], legend_line(), Align::Center));
    proof {
        assert(paint::marks(paints@) =~= chart_paints(area, rows@, arr@, score));
    }
    paints
}

/// The latest board. A negative score stands for none.
pub fn draw_board(area: Area, arr: &[u8; 25], score: i32) -> (paints: Vec<Paint>)
    requires
        area.fits(),
    ensures
        is_board(area, arr@, score, paint::marks(paints@)),
{
    let inner: Area = layout::frame_inner(area);
    if score < 0 {
        let waiting: Piece = Piece::plain(
            "the furnace hasn't reported a shuffle yet...".to_owned(),
            Tone::Dim,
        );
        let row: Area = layout::centered_row(inner);
        let mut paints: Vec<Paint> = Vec::new();
        paints.push(
            paint::frame_with_title(area, Piece::plain(board_title(score), Tone::White)),
        );
        paints.push(paint::line_of_text(row, piece::single(waiting), Align::Center));
        proof {
            assert(paint::marks(paints@) =~= waiting_paints(area, score));
        }
        return paints;
    }
    let mut extents: Vec<Extent> = Vec::new();
    extents.push(Extent::Length(1));
    extents.push(Extent::Min(6));
    extents.push(Extent::Length(1));
    proof {
        assert(extents@ =~= board_rows());
    }
    let rows: Vec<Area> = layout::split(inner, Axis::Vertical, &extents);
    paint_chart(area, &rows, arr, score)
}

/// Law: with two columns or more, the label over slot `i` is the value seated
/// there, in full: blanks, and then the value in decimal, which reads back as
/// the value. It fills the columns, is bold, and has the tone for correct where
/// the slot holds its own number.
pub proof fn law_label_is_the_seated_value(
    arr: &[u8; 25],
    bar_width: usize,
    line: Vec<Piece>,
    i: int,
)
    requires
        call_ensures(build_value_labels, (arr, bar_width), line),
        bar_width >= 2,
        0 <= i < 25,
    ensures
        line@.len() == 49,
        ({
            let t = line@[2 * i].text@;
            let d = text::decimal(arr@[i] as nat);
            &&& t.len() == (if d.len() < bar_width {
                bar_width as nat
            } else {
                d.len()
            })
            &&& forall|k: int| 0 <= k < t.len() - d.len() ==> #[trigger] t[k] == ' '
            &&& t.skip(t.len() - d.len()) == d
            &&& decimal::value_of(t.skip(t.len() - d.len())) == arr@[i]
        }),
        line@[2 * i].bold,
        line@[2 * i].tone == Some(
            if arr@[i] == i + 1 {
                Tone::Correct
            } else {
                Tone::Wrong
            },
        ),
        i < 24 ==> line@[2 * i + 1].text@ == seq![' '],
{
    let whole = piece::marks(line@);
    assert(label_cells(arr@, bar_width as nat).len() == 25);
    assert(whole.len() == 49);
    assert(whole[2 * i] == line@[2 * i].mark());
    let t = line@[2 * i].text@;
    let d = text::decimal(arr@[i] as nat);
    assert(t == label_text(arr@[i], bar_width as nat));
    decimal::law_decimal_reads_back(arr@[i] as nat);
    assert(t.skip(t.len() - d.len()) =~= d);
    if i < 24 {
        assert(whole[2 * i + 1] == line@[2 * i + 1].mark());
        reveal_strlit(" ");
        assert(" "@ =~= seq![' ']);
    }
}

/// Law: slots with different values have different labels, wherever there are
/// two columns or more for each.
pub proof fn law_labels_tell_values_apart(
    arr: &[u8; 25],
    bar_width: usize,
    line: Vec<Piece>,
    i: int,
    j: int,
)
    requires
        call_ensures(build_value_labels, (arr, bar_width), line),
        bar_width >= 2,
        0 <= i < 25,
        0 <= j < 25,
        arr@[i] != arr@[j],
    ensures
        line@[2 * i].text@ != line@[2 * j].text@,
{
    law_label_is_the_seated_value(arr, bar_width, line, i);
    law_label_is_the_seated_value(arr, bar_width, line, j);
    let t = line@[2 * i].text@;
    let a = text::decimal(arr@[i] as nat);
    let b = text::decimal(arr@[j] as nat);
    if t == line@[2 * j].text@ {
        decimal::law_decimal_reads_back(arr@[i] as nat);
        decimal::law_decimal_reads_back(arr@[j] as nat);
        text::law_decimal_has_the_digits(arr@[i] as nat);
        text::law_decimal_has_the_digits(arr@[j] as nat);
        if a.len() < b.len() {
            assert(t.skip(t.len() - b.len())[0] == t[t.len() - b.len()]);
            assert(decimal::is_digit(b[0]));
        } else if b.len() < a.len() {
            assert(t.skip(t.len() - a.len())[0] == t[t.len() - a.len()]);
            assert(decimal::is_digit(a[0]));
        }
    }
}

/// Law: with one column, or none, the label over slot `i` is the last digit of
/// the value seated there.
pub proof fn law_narrow_label_is_the_last_digit(
    arr: &[u8; 25],
    bar_width: usize,
    line: Vec<Piece>,
    i: int,
)
    requires
        call_ensures(build_value_labels, (arr, bar_width), line),
        bar_width < 2,
        0 <= i < 25,
    ensures
        line@.len() == 49,
        line@[2 * i].text@.len() == 1,
        line@[2 * i].text@[0] as int == 48 + arr@[i] as int % 10,
        line@[2 * i].bold,
        line@[2 * i].tone == Some(
            if arr@[i] == i + 1 {
                Tone::Correct
            } else {
                Tone::Wrong
            },
        ),
{
    assert(label_cells(arr@, bar_width as nat).len() == 25);
    assert(piece::marks(line@).len() == 49);
    assert(piece::marks(line@)[2 * i] == line@[2 * i].mark());
    assert(line@[2 * i].text@ == label_text(arr@[i], bar_width as nat));
}

/// Law: the bar in slot `i` stands on the bottom row and is as high as the share
/// of 25 that its value is, to the nearest row. A cell of the bar is filled with
/// `#`, any other cell with blanks; both are as wide as the bar, bold, and have
/// the tone for correct where the slot holds its own number.
pub proof fn law_bar_is_as_high_as_its_value(
    arr: &[u8; 25],
    rows: usize,
    bar_width: usize,
    lines: Vec<Vec<Piece>>,
    r: int,
    i: int,
    k: int,
    height: int,
    width: int,
)
    requires
        call_ensures(build_ascii_bars, (arr, rows, bar_width), lines),
        height == (if rows == 0 {
            1
        } else {
            rows as int
        }),
        width == (if bar_width == 0 {
            1
        } else {
            bar_width as int
        }),
        0 <= r < height,
        0 <= i < 25,
        0 <= k < width,
    ensures
        lines@.len() == height,
        lines@[r]@.len() == 49,
        lines@[r]@[2 * i].text@.len() == width,
        lines@[r]@[2 * i].text@[k] == '#' <==> 50 * (height - r) <= 2 * (if arr@[i] < 25 {
            arr@[i] as int
        } else {
            25
        }) * height + 25,
        lines@[r]@[2 * i].text@[k] == '#' || lines@[r]@[2 * i].text@[k] == ' ',
        lines@[r]@[2 * i].bold,
        lines@[r]@[2 * i].tone == Some(
            if arr@[i] == i + 1 {
                Tone::Correct
            } else {
                Tone::Wrong
            },
        ),
        i < 24 ==> lines@[r]@[2 * i + 1].text@ == seq![' '],
{
    let whole = piece::page(lines@);
    assert(whole.len() == height);
    assert(whole[r] == piece::marks(lines@[r]@));
    assert(whole[r] == bar_row(arr@, height as nat, width as nat, r));
    assert(bar_cells(arr@, height as nat, width as nat, r).len() == 25);
    assert(whole[r].len() == 49);
    assert(piece::marks(lines@[r]@)[2 * i] == lines@[r]@[2 * i].mark());
    if i < 24 {
        assert(piece::marks(lines@[r]@)[2 * i + 1] == lines@[r]@[2 * i + 1].mark());
        reveal_strlit(" ");
        assert(" "@ =~= seq![' ']);
    }
    let seat = if arr@[i] < 25 {
        arr@[i] as int
    } else {
        25
    };
    assert(seat * height * 2 == 2 * seat * height) by (nonlinear_arith);
    let top = 2 * seat * height + 25;
    assert(height - 1 - r < top / 50 <==> 50 * (height - r) <= top);
}

/// Law: bars share the width beside 24 gaps evenly, as thick as they can be, and
/// have one column each where there is too little for that.
pub proof fn law_bars_share_the_width(width: u16, w: usize)
    requires
        call_ensures(bar_width, (width,), w),
    ensures
        w >= 1,
        w > 1 ==> 25 * w + 24 <= width,
        width < 25 * (w + 1) + 24,
{
}

/// Law: the title tells the score in full, and none where there is none.
pub proof fn law_title_tells_the_score(score: i32, r: String)
    requires
        call_ensures(board_title, (score,), r),
    ensures
        score >= 0 ==> r@ == " board - "@ + text::decimal(score as nat)
            + " of 25 seated correctly "@,
        score < 0 ==> r@ == " board - awaiting first result "@,
{
}

/// Law: the legend shows what the two tones stand for.
pub proof fn law_legend_explains_the_tones(line: Vec<Piece>)
    requires
        call_ensures(legend_line, (), line),
    ensures
        line@.len() == 5,
        line@[0].text@ == "# "@ && line@[0].tone == Some(Tone::Correct) && line@[0].bold,
        line@[1].text@ == "seated correctly      "@ && line@[1].tone == Some(Tone::Dim),
        line@[2].text@ == "# "@ && line@[2].tone == Some(Tone::Wrong) && line@[2].bold,
        line@[3].text@ == "out of place      "@ && line@[3].tone == Some(Tone::Dim),
        line@[4].tone == Some(Tone::Dim),
        line@[4].text@ == "(bar height = seated value, slots 1-25 left to right)"@,
{
    let whole = piece::marks(line@);
    assert(whole.len() == 5);
    assert(whole[0] == line@[0].mark());
    assert(whole[1] == line@[1].mark());
    assert(whole[2] == line@[2].mark());
    assert(whole[3] == line@[3].mark());
    assert(whole[4] == line@[4].mark());
}

/// Law: where there is room, the labels have the first row inside the frame, the
/// legend the last, and the bars have all rows between them.
pub proof fn law_bars_stand_between_labels_and_legend(inner: Area, rows: Seq<Area>)
    requires
        layout::is_split(inner, Axis::Vertical, board_rows(), rows),
        inner.height >= 8,
    ensures
        rows.len() == 3,
        rows[0] == (Area { x: inner.x, y: inner.y, width: inner.width, height: 1 }),
        rows[1].x == inner.x && rows[1].width == inner.width,
        rows[1].y == inner.y + 1,
        rows[1].height == inner.height - 2,
        rows[2].x == inner.x && rows[2].width == inner.width,
        rows[2].y == inner.y + inner.height - 1,
        rows[2].height == 1,
{
    let extents = board_rows();
    reveal_with_fuel(layout::least_of, 4);
    assert(extents.drop_last() =~= seq![Extent::Length(1), Extent::Min(6)]);
    assert(extents.drop_last().drop_last() =~= seq![Extent::Length(1)]);
    assert(layout::has_room(extents, 1, inner.height as int));
    assert(rows[0].is_level(inner, Axis::Vertical));
    assert(rows[1].start(Axis::Vertical) == rows[0].start(Axis::Vertical) + rows[0].size(
        Axis::Vertical,
    ));
    assert(rows[2].start(Axis::Vertical) == rows[1].start(Axis::Vertical) + rows[1].size(
        Axis::Vertical,
    ));
}

/// Law: a board with a score is drawn as a frame with its title, the labels of
/// its values over the bars of its values, and the legend. The bars are as thick
/// as the width inside the frame lets them be, and as high as their row.
pub proof fn law_board_is_drawn_from_its_values(
    area: Area,
    rows: Vec<Area>,
    arr: &[u8; 25],
    score: i32,
    paints: Vec<Paint>,
    w: usize,
    title: String,
    labels: Vec<Piece>,
    bars: Vec<Vec<Piece>>,
    legend: Vec<Piece>,
)
    requires
        call_ensures(paint_chart, (area, &rows, arr, score), paints),
        rows@.len() == 3,
        area.width >= 2,
        call_ensures(bar_width, ((area.width - 2) as u16,), w),
        call_ensures(board_title, (score,), title),
        call_ensures(build_value_labels, (arr, w), labels),
        call_ensures(build_ascii_bars, (arr, rows@[1].height as usize, w), bars),
        call_ensures(legend_line, (), legend),
    ensures
        paints@.len() == 4,
        paints@[0].area == area,
        paints@[0].widget matches Widget::Frame(Some(p)) && p.text@ == title@ && p.tone == Some(
            Tone::White,
        ),
        paints@[1].area == rows@[0],
        paints@[1].widget matches Widget::Text(lines, align) && align == Align::Center
            && lines@.len() == 1 && piece::marks(lines@[0]@) == piece::marks(labels@),
        paints@[2].area == rows@[1],
        paints@[2].widget matches Widget::Text(lines, align) && align == Align::Center
            && piece::page(lines@) == piece::page(bars@),
        paints@[3].area == rows@[2],
        paints@[3].widget matches Widget::Text(lines, align) && align == Align::Center
            && lines@.len() == 1 && piece::marks(lines@[0]@) == piece::marks(legend@),
{
    let whole = paint::marks(paints@);
    assert(whole.len() == 4);
    assert(whole[0] == paints@[0].mark());
    assert(whole[1] == paints@[1].mark());
    assert(whole[2] == paints@[2].mark());
    assert(whole[3] == paints@[3].mark());
    if let Widget::Text(lines, align) = paints@[1].widget {
        assert(piece::page(lines@).len() == 1);
        assert(piece::page(lines@)[0] == piece::marks(lines@[0]@));
    }
    if let Widget::Text(lines, align) = paints@[3].widget {
        assert(piece::page(lines@).len() == 1);
        assert(piece::page(lines@)[0] == piece::marks(lines@[0]@));
    }
}

/// Law: before the first report the board says that there is none, in the middle
/// row.
pub proof fn law_board_waits_for_a_report(
    area: Area,
    arr: &[u8; 25],
    score: i32,
    paints: Vec<Paint>,
)
    requires
        call_ensures(draw_board, (area, arr, score), paints),
        score < 0,
        area.fits(),
        area.width >= 2,
        area.height >= 2,
    ensures
        paints@.len() == 2,
        paints@[0].area == area,
        paints@[0].widget matches Widget::Frame(Some(p)) && p.text@
            == " board - awaiting first result "@,
        paints@[1].area == (Area {
            x: (area.x + 1) as u16,
            y: (area.y + 1 + (area.height - 2) / 2) as u16,
            width: (area.width - 2) as u16,
            height: 1,
        }),
        paints@[1].widget matches Widget::Text(lines, align) && align == Align::Center
            && lines@.len() == 1 && lines@[0]@.len() == 1 && lines@[0]@[0].text@
            == "the furnace hasn't reported a shuffle yet..."@,
{
    let whole = paint::marks(paints@);
    assert(whole.len() == 2);
    assert(whole[0] == paints@[0].mark());
    assert(whole[1] == paints@[1].mark());
    if let Widget::Text(lines, align) = paints@[1].widget {
        assert(piece::page(lines@).len() == 1);
        assert(piece::page(lines@)[0] == piece::marks(lines@[0]@));
        assert(piece::marks(lines@[0]@).len() == 1);
        assert(piece::marks(lines@[0]@)[0] == lines@[0]@[0].mark());
    }
}

/// Law: a board with a score is drawn in three rows that the inside of its frame
/// is cut into: one, at least six, and one.
pub proof fn law_board_has_three_rows(
    area: Area,
    arr: &[u8; 25],
    score: i32,
    paints: Vec<Paint>,
    extents: Seq<Extent>,
)
    requires
        call_ensures(draw_board, (area, arr, score), paints),
        score >= 0,
        extents == seq![Extent::Length(1), Extent::Min(6), Extent::Length(1)],
    ensures
        exists|rows: Seq<Area>| #[trigger]
            layout::is_split(layout::inside(area), Axis::Vertical, extents, rows) && paint::marks(
                paints@,
            ) == chart_paints(area, rows, arr@, score),
{
}

} // verus!
