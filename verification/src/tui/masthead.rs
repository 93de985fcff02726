//! The masthead: the name of the program, its status, and the latest score.
use vstd::prelude::*;
use vstd::string::*;

use crate::text;
use crate::tui::layout;
use crate::tui::layout::{Area, Axis, Extent};
use crate::tui::paint;
use crate::tui::paint::{Align, Paint, PaintMark, Widget};
use crate::tui::palette;
use crate::tui::palette::Tone;
use crate::tui::piece;
use crate::tui::piece::{Mark, Piece};
use crate::tui::view;

verus! {

broadcast use {piece::group_marks, paint::group_paints};

/// The title with the status, and what the keys do.
pub open spec fn title_marks(status: Seq<char>, view: view::View) -> Seq<Mark> {
    seq![
        piece::plain(":: "@, Tone::Accent),
        piece::bold("BOGOFORGE"@, Tone::White),
        piece::plain("  shuffle furnace  "@, Tone::Dim),
        piece::plain("["@, Tone::Dim),
        piece::plain(status, Tone::Accent),
        piece::plain("]  "@, Tone::Dim),
        piece::plain("("@ + view.hint_text() + ")"@, Tone::Dim),
    ]
}

pub fn title_line(status: String, view: view::View) -> (line: Vec<Piece>)
    ensures
        piece::marks(line@) == title_marks(status@, view),
{
    let mut hint: String = "(".to_owned();
    hint.append(view.hint());
    hint.append(")");
    let mut line: Vec<Piece> = Vec::new();
    line.push(Piece::plain(":: ".to_owned(), Tone::Accent));
    line.push(Piece::bold("BOGOFORGE".to_owned(), Tone::White));
    line.push(Piece::plain("  shuffle furnace  ".to_owned(), Tone::Dim));
    line.push(Piece::plain("[".to_owned(), Tone::Dim));
    line.push(Piece::plain(status, Tone::Accent));
    line.push(Piece::plain("]  ".to_owned(), Tone::Dim));
    line.push(Piece::plain(hint, Tone::Dim));
    proof {
        assert(piece::marks(line@) =~= title_marks(status@, view));
    }
    line
}

/// The latest score out of 25, or that there is none yet.
pub open spec fn badge_marks(last_best: i32) -> Seq<Mark> {
    if last_best >= 0 {
        seq![
            piece::bold(text::decimal(last_best as nat), palette::score_tone(last_best)),
            piece::plain("/25 latest "@, Tone::Dim),
            piece::plain("#"@, palette::score_tone(last_best)),
        ]
    } else {
        seq![piece::plain("warming up ."@, Tone::Dim)]
    }
}

pub fn badge_line(last_best: i32) -> (line: Vec<Piece>)
    ensures
        piece::marks(line@) == badge_marks(last_best),
{
    let mut line: Vec<Piece> = Vec::new();
    if last_best >= 0 {
        let tone: Tone = palette::badge_color(last_best);
        let mut score: String = String::new();
        text::push_decimal(&mut score, last_best as u64);
        proof {
            assert(score@ =~= text::decimal(last_best as nat));
        }
        line.push(Piece::bold(score, tone));
        line.push(Piece::plain("/25 latest ".to_owned(), Tone::Dim));
        line.push(Piece::plain("#".to_owned(), tone));
    } else {
        line.push(Piece::plain("warming up .".to_owned(), Tone::Dim));
    }
    proof {
        assert(piece::marks(line@) =~= badge_marks(last_best));
    }
    line
}

/// The columns: the title, and the latest score.
pub open spec fn masthead_columns() -> Seq<Extent> {
    seq![Extent::Min(20), Extent::Length(34)]
}

/// The masthead in its two columns.
pub open spec fn masthead_paints(
    area: Area,
    columns: Seq<Area>,
    status: Seq<char>,
    last_best: i32,
    view: view::View,
) -> Seq<PaintMark> {
    seq![
        paint::plain_frame(area),
        paint::text_line(columns[0], title_marks(status, view), Align::Left),
        paint::text_line(columns[1], badge_marks(last_best), Align::Right),
    ]
}

/// The masthead, in columns that the inside of its frame was cut into.
pub open spec fn is_masthead(
    area: Area,
    status: Seq<char>,
    last_best: i32,
    view: view::View,
    paints: Seq<PaintMark>,
) -> bool {
    exists|columns: Seq<Area>| #[trigger]
        layout::is_split(layout::inside(area), Axis::Horizontal, masthead_columns(), columns)
            && paints == masthead_paints(area, columns, status, last_best, view)
}

/// The masthead, in the columns given.
pub fn paint_masthead(
    area: Area,
    columns: &Vec<Area>,
    status: String,
    last_best: i32,
    view: view::View,
) -> (paints: Vec<Paint>)
    requires
        columns.len() == 2,
    ensures
        paint::marks(paints@) == masthead_paints(area, columns@, status@, last_best, view),
{
    let mut paints: Vec<Paint> = Vec::new();
    paints.push(paint::frame(area));
    paints.push(paint::line_of_text(columns[0], title_line(status, view), Align::Left));
    paints.push(paint::line_of_text(columns[1], badge_line(last_best), Align::Right));
    proof {
        assert(paint::marks(paints@) =~= masthead_paints(
            area,
            columns@,
            status@,
            last_best,
            view,
        ));
    }
    paints
}

pub fn draw_masthead(area: Area, status: String, last_best: i32, view: view::View) -> (paints: Vec<
    Paint,
>)
    requires
        area.fits(),
    ensures
        is_masthead(area, status@, last_best, view, paint::marks(paints@)),
{
    let mut extents: Vec<Extent> = Vec::new();
    extents.push(Extent::Min(20));
    extents.push(Extent::Length(34));
    proof {
        assert(extents@ =~= masthead_columns());
    }
    let inner: Area = layout::frame_inner(area);
    let columns: Vec<Area> = layout::split(inner, Axis::Horizontal, &extents);
    paint_masthead(area, &columns, status, last_best, view)
}

/// Law: the title shows the status as it is, between brackets, and what the keys
/// lead to.
pub proof fn law_title_shows_the_status(
    status: String,
    v: view::View,
    line: Vec<Piece>,
    hint: &'static str,
)
    requires
        call_ensures(title_line, (status, v), line),
        call_ensures(view::View::hint, (v,), hint),
    ensures
        line@.len() == 7,
        line@[0].text@ == ":: "@ && line@[1].text@ == "BOGOFORGE"@ && line@[1].bold,
        line@[2].text@ == "  shuffle furnace  "@,
        line@[3].text@ == "["@ && line@[4].text@ == status@ && line@[5].text@ == "]  "@,
        line@[6].text@ == "("@ + hint@ + ")"@,
        line@[0].tone == Some(Tone::Accent) && line@[1].tone == Some(Tone::White),
        line@[4].tone == Some(Tone::Accent),
        line@[2].tone == Some(Tone::Dim) && line@[3].tone == Some(Tone::Dim),
        line@[5].tone == Some(Tone::Dim) && line@[6].tone == Some(Tone::Dim),
{
    let whole = piece::marks(line@);
    assert(whole.len() == 7);
    assert(forall|i: int| 0 <= i < 7 ==> whole[i] == (#[trigger] line@[i]).mark());
}

/// Law: the badge shows the latest score in full, in the tone of its grade, or
/// that there is none yet.
pub proof fn law_badge_shows_the_latest_score(last_best: i32, line: Vec<Piece>)
    requires
        call_ensures(badge_line, (last_best,), line),
    ensures
        last_best >= 0 ==> {
            let tone = if last_best < 12 {
                Tone::Wrong
            } else if last_best < 20 {
                Tone::Accent
            } else {
                Tone::Correct
            };
            &&& line@.len() == 3
            &&& line@[0].text@ == text::decimal(last_best as nat)
            &&& line@[0].tone == Some(tone)
            &&& line@[0].bold
            &&& line@[1].text@ == "/25 latest "@
            &&& line@[2].text@ == "#"@
            &&& line@[2].tone == Some(tone)
        },
        last_best < 0 ==> line@.len() == 1 && line@[0].text@ == "warming up ."@,
{
    let whole = piece::marks(line@);
    assert(whole.len() == line@.len());
    assert(forall|i: int| 0 <= i < line@.len() ==> whole[i] == (#[trigger] line@[i]).mark());
}

/// Law: where there is room, the badge has 34 columns on the right and the title
/// the rest.
pub proof fn law_badge_stands_on_the_right(inner: Area, columns: Seq<Area>)
    requires
        layout::is_split(inner, Axis::Horizontal, masthead_columns(), columns),
        inner.width >= 54,
    ensures
        columns.len() == 2,
        columns[0].x == inner.x && columns[0].width == inner.width - 34,
        columns[1].x == inner.x + inner.width - 34 && columns[1].width == 34,
        forall|i: int|
            0 <= i < 2 ==> (#[trigger] columns[i]).y == inner.y && columns[i].height == inner.height,
{
    let extents = masthead_columns();
    reveal_with_fuel(layout::least_of, 3);
    assert(extents.drop_last() =~= seq![Extent::Min(20)]);
    assert(layout::has_room(extents, 0, inner.width as int));
    assert(columns[0].is_level(inner, Axis::Horizontal));
    assert(columns[1].start(Axis::Horizontal) == columns[0].start(Axis::Horizontal)
        + columns[0].size(Axis::Horizontal));
}

/// Law: the masthead is a frame with the title on the left and the badge on the
/// right.
pub proof fn law_masthead_is_drawn(
    area: Area,
    columns: Vec<Area>,
    status: String,
    last_best: i32,
    v: view::View,
    paints: Vec<Paint>,
    title: Vec<Piece>,
    badge: Vec<Piece>,
)
    requires
        call_ensures(paint_masthead, (area, &columns, status, last_best, v), paints),
        columns@.len() == 2,
        call_ensures(title_line, (status, v), title),
        call_ensures(badge_line, (last_best,), badge),
    ensures
        paints@.len() == 3,
        paints@[0].area == area && paints@[0].widget == Widget::Frame(None),
        paints@[1].area == columns@[0],
        paints@[1].widget matches Widget::Text(lines, align) && align == Align::Left && lines@.len()
            == 1 && piece::marks(lines@[0]@) == piece::marks(title@),
        paints@[2].area == columns@[1],
        paints@[2].widget matches Widget::Text(lines, align) && align == Align::Right && lines@.len()
            == 1 && piece::marks(lines@[0]@) == piece::marks(badge@),
{
    let whole = paint::marks(paints@);
    assert(whole.len() == 3);
    assert(forall|i: int| 0 <= i < 3 ==> whole[i] == (#[trigger] paints@[i]).mark());
    if let Widget::Text(lines, align) = paints@[1].widget {
        assert(piece::page(lines@).len() == 1);
        assert(piece::page(lines@)[0] == piece::marks(lines@[0]@));
    }
    if let Widget::Text(lines, align) = paints@[2].widget {
        assert(piece::page(lines@).len() == 1);
        assert(piece::page(lines@)[0] == piece::marks(lines@[0]@));
    }
}

/// Law: the masthead is drawn in two columns that the inside of its frame is cut
/// into: at least twenty, and 34.
pub proof fn law_masthead_has_two_columns(
    area: Area,
    status: String,
    last_best: i32,
    v: view::View,
    paints: Vec<Paint>,
    extents: Seq<Extent>,
)
    requires
        call_ensures(draw_masthead, (area, status, last_best, v), paints),
        extents == seq![Extent::Min(20), Extent::Length(34)],
    ensures
        exists|columns: Seq<Area>| #[trigger]
            layout::is_split(layout::inside(area), Axis::Horizontal, extents, columns)
                && paint::marks(paints@) == masthead_paints(area, columns, status@, last_best, v),
{
}

} // verus!
