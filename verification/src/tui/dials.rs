//! The dials: how close the latest board is, the recent trend, and the headline
//! figures.
use vstd::prelude::*;
use vstd::string::*;

use crate::float::Float;
use crate::text;
use crate::tui::figures;
use crate::tui::layout;
use crate::tui::layout::{Area, Axis, Extent};
use crate::tui::paint;
use crate::tui::paint::{Align, GaugeDial, Paint, PaintMark, Widget, WidgetMark};
use crate::tui::palette;
use crate::tui::palette::Tone;
use crate::tui::piece;
use crate::tui::piece::{Mark, Piece};

verus! {

broadcast use {piece::group_marks, paint::group_paints};

/// How many 25ths of the gauge a score fills.
pub open spec fn gauge_share(score: i32) -> u8 {
    if score < 0 {
        0
    } else if score < 25 {
        score as u8
    } else {
        25
    }
}

/// What stands on the gauge.
pub open spec fn gauge_text(score: i32) -> Seq<char> {
    if score >= 0 {
        text::decimal(score as nat) + "/25"@
    } else {
        "-"@
    }
}

pub fn gauge(score: i32) -> (g: GaugeDial)
    ensures
        g.filled == gauge_share(score),
        g.label@ == gauge_text(score),
        g.tone == palette::score_tone(score),
{
    let tone: Tone = palette::badge_color(score);
    if score >= 0 {
        let mut label: String = String::new();
        text::push_decimal(&mut label, score as u64);
        label.append("/25");
        proof {
            assert(label@ =~= gauge_text(score));
        }
        let filled: u8 = if score < 25 {
            score as u8
        } else {
            25
        };
        GaugeDial { filled, label, tone }
    } else {
        GaugeDial { filled: 0, label: "-".to_owned(), tone }
    }
}

/// The mark of one score on the trend strip.
pub open spec fn trend_mark(v: i32) -> Mark {
    piece::bold(seq![figures::ramp_mark(v)], palette::score_tone(v))
}

/// The recent scores, one mark each, or a dash where there are none.
pub open spec fn trend_marks(history: Seq<i32>) -> Seq<Mark> {
    if history.len() == 0 {
        seq![piece::plain("-"@, Tone::Dim)]
    } else {
        history.map_values(|v: i32| trend_mark(v))
    }
}

pub fn trend_line(history: &Vec<i32>) -> (line: Vec<Piece>)
    ensures
        piece::marks(line@) == trend_marks(history@),
{
    if history.len() == 0 {
        return piece::single(Piece::plain("-".to_owned(), Tone::Dim));
    }
    let ghost whole = history@.map_values(|v: i32| trend_mark(v));
    let mut line: Vec<Piece> = Vec::new();
    let mut i: usize = 0;
    while i < history.len()
        invariant
            i <= history.len(),
            whole == history@.map_values(|v: i32| trend_mark(v)),
            piece::marks(line@) == whole.take(i as int),
        decreases history.len() - i,
    {
        let v: i32 = history[i];
        let mut one: String = String::new();
        one.push(figures::ascii_ramp_char(v));
        proof {
            assert(one@ =~= seq![figures::ramp_mark(v)]);
            assert(whole.take(i + 1) =~= whole.take(i as int).push(trend_mark(v)));
        }
        line.push(Piece::bold(one, palette::badge_color(v)));
        i = i + 1;
    }
    proof {
        assert(whole.take(i as int) =~= whole);
    }
    line
}

/// The seed, or a dash where there is none.
pub open spec fn seed_text(seed: Seq<char>) -> Seq<char> {
    if seed.len() == 0 {
        "-"@
    } else {
        seed
    }
}

pub fn seed_or_dash(seed: String) -> (r: String)
    ensures
        r@ == seed_text(seed@),
{
    if seed.as_str().is_empty() {
        "-".to_owned()
    } else {
        seed
    }
}

/// The headline figures of a run.
#[derive(Debug)]
pub struct Figures {
    pub uptime_secs: u64,
    pub rate: Float,
    pub session: u64,
    pub lifetime: u64,
    pub all_best: i32,
    pub seed: String,
}

/// A label, its figure in a tone, and a blank line.
pub open spec fn figure(label: Seq<char>, value: Mark) -> Seq<Seq<Mark>> {
    seq![seq![piece::plain(label, Tone::Dim)], seq![value], seq![piece::raw(""@)]]
}

/// The headline figures, line by line.
pub open spec fn figure_page(f: Figures) -> Seq<Seq<Mark>> {
    figure("uptime"@, piece::bold(figures::uptime_text(f.uptime_secs), Tone::White)) + figure(
        "throughput"@,
        piece::bold(figures::rate_text(f.rate), Tone::Accent),
    ) + figure("session shuffles"@, piece::bold(figures::count_text(f.session), Tone::White))
        + figure("lifetime shuffles"@, piece::bold(figures::count_text(f.lifetime), Tone::White))
        + figure("personal best"@, piece::bold(figures::best_text(f.all_best), Tone::Wrong)) + seq![
        seq![piece::plain("seed"@, Tone::Dim)],
        seq![piece::plain(seed_text(f.seed@), Tone::White)],
    ]
}

/// Appends a label and its figure.
fn push_figure(lines: &mut Vec<Vec<Piece>>, label: &str, value: Piece)
    ensures
        piece::page(final(lines)@) == piece::page(old(lines)@) + seq![
            seq![piece::plain(label@, Tone::Dim)],
            seq![value.mark()],
        ],
{
    lines.push(piece::single(Piece::plain(label.to_owned(), Tone::Dim)));
    lines.push(piece::single(value));
    proof {
        assert(piece::page(lines@) =~= piece::page(old(lines)@) + seq![
            seq![piece::plain(label@, Tone::Dim)],
            seq![value.mark()],
        ]);
    }
}

/// Appends a label, its figure and a blank line.
fn push_figure_and_gap(lines: &mut Vec<Vec<Piece>>, label: &str, value: Piece)
    ensures
        piece::page(final(lines)@) == piece::page(old(lines)@) + figure(label@, value.mark()),
{
    push_figure(lines, label, value);
    lines.push(piece::single(Piece::raw("".to_owned())));
    proof {
        assert(piece::page(lines@) =~= piece::page(old(lines)@) + figure(label@, value.mark()));
    }
}

pub fn figure_lines(f: Figures) -> (lines: Vec<Vec<Piece>>)
    ensures
        piece::page(lines@) == figure_page(f),
{
    let mut lines: Vec<Vec<Piece>> = Vec::new();
    push_figure_and_gap(
        &mut lines,
        "uptime",
        Piece::bold(figures::fmt_uptime(f.uptime_secs), Tone::White),
    );
    push_figure_and_gap(
        &mut lines,
        "throughput",
        Piece::bold(figures::fmt_rate(f.rate), Tone::Accent),
    );
    push_figure_and_gap(
        &mut lines,
        "session shuffles",
        Piece::bold(figures::fmt_count(f.session), Tone::White),
    );
    push_figure_and_gap(
        &mut lines,
        "lifetime shuffles",
        Piece::bold(figures::fmt_count(f.lifetime), Tone::White),
    );
    push_figure_and_gap(
        &mut lines,
        "personal best",
        Piece::bold(figures::fmt_best(f.all_best), Tone::Wrong),
    );
    push_figure(&mut lines, "seed", Piece::plain(seed_or_dash(f.seed), Tone::White));
    proof {
        assert(piece::page(lines@) =~= figure_page(f));
    }
    lines
}

/// The rows: the gauge, the trend, and the figures.
pub open spec fn dial_rows() -> Seq<Extent> {
    seq![Extent::Length(4), Extent::Length(6), Extent::Min(10)]
}

/// The dials in their three rows.
pub open spec fn dial_paints(
    rows: Seq<Area>,
    score: i32,
    history: Seq<i32>,
    figures: Figures,
) -> Seq<PaintMark> {
    seq![
        PaintMark {
            area: rows[0],
            widget: WidgetMark::Gauge {
                title: piece::plain(" closeness to a clean board "@, Tone::Dim),
                filled: gauge_share(score),
                label: gauge_text(score),
                tone: palette::score_tone(score),
            },
        },
        paint::titled_frame(rows[1], piece::plain(" recent trend "@, Tone::Dim)),
        paint::text_line(
            layout::middle(layout::inside(rows[1])),
            trend_marks(history),
            Align::Center,
        ),
        paint::plain_frame(rows[2]),
        paint::text_page(layout::inside(rows[2]), figure_page(figures), Align::Left),
    ]
}

/// The dials, in rows that the area was cut into.
pub open spec fn are_dials(
    area: Area,
    score: i32,
    history: Seq<i32>,
    figures: Figures,
    paints: Seq<PaintMark>,
) -> bool {
    exists|rows: Seq<Area>| #[trigger]
        layout::is_split(area, Axis::Vertical, dial_rows(), rows) && paints == dial_paints(
            rows,
            score,
            history,
            figures,
        )
}

/// The dials, in the rows given.
pub fn paint_dials(rows: &Vec<Area>, score: i32, history: &Vec<i32>, figures: Figures) -> (paints:
    Vec<Paint>)
    requires
        rows.len() == 3,
        rows[1].fits(),
        rows[2].fits(),
    ensures
        paint::marks(paints@) == dial_paints(rows@, score, history@, figures),
{
    let mut paints: Vec<Paint> = Vec::new();
    paints.push(
        Paint {
            area: rows[0],
            widget: Widget::Gauge(
                Piece::plain(" closeness to a clean board ".to_owned(), Tone::Dim),
                gauge(score),
            ),
        },
    );
    paints.push(
        paint::frame_with_title(rows[1], Piece::plain(" recent trend ".to_owned(), Tone::Dim)),
    );
    let trend_row: Area = layout::centered_row(layout::frame_inner(rows[1]));
    paints.push(paint::line_of_text(trend_row, trend_line(history), Align::Center));
    paints.push(paint::frame(rows[2]));
    let figure_area: Area = layout::frame_inner(rows[2]);
    paints.push(paint::page_of_text(figure_area, figure_lines(figures), Align::Left));
    proof {
        assert(paint::marks(paints@) =~= dial_paints(rows@, score, history@, figures));
    }
    paints
}

pub fn draw_dials(area: Area, score: i32, history: &Vec<i32>, figures: Figures) -> (paints: Vec<
    Paint,
>)
    requires
        area.fits(),
    ensures
        are_dials(area, score, history@, figures, paint::marks(paints@)),
{
    let mut extents: Vec<Extent> = Vec::new();
    extents.push(Extent::Length(4));
    extents.push(Extent::Length(6));
    extents.push(Extent::Min(10));
    proof {
        assert(extents@ =~= dial_rows());
    }
    let rows: Vec<Area> = layout::split(area, Axis::Vertical, &extents);
    paint_dials(&rows, score, history, figures)
}

/// Law: the gauge is filled by as many 25ths as the score has points, never more
/// than all of it, and tells the score in full, in the tone of its grade.
pub proof fn law_gauge_shows_the_score(score: i32, g: GaugeDial)
    requires
        call_ensures(gauge, (score,), g),
    ensures
        0 <= score <= 25 ==> g.filled == score,
        score > 25 ==> g.filled == 25,
        score < 0 ==> g.filled == 0,
        score >= 0 ==> g.label@ == text::decimal(score as nat) + "/25"@,
        score < 0 ==> g.label@ == "-"@,
        g.tone == (if score < 0 {
            Tone::Dim
        } else if score < 12 {
            Tone::Wrong
        } else if score < 20 {
            Tone::Accent
        } else {
            Tone::Correct
        }),
{
}

/// Law: the trend has one mark for each score of the history, in its order, each
/// the mark of that score in the tone of its grade.
pub proof fn law_trend_marks_every_score(history: Vec<i32>, line: Vec<Piece>, i: int, c: char)
    requires
        call_ensures(trend_line, (&history,), line),
        0 <= i < history@.len(),
        call_ensures(figures::ascii_ramp_char, (history@[i],), c),
    ensures
        line@.len() == history@.len(),
        line@[i].text@ == seq![c],
        line@[i].bold,
        line@[i].tone == Some(
            if history@[i] < 0 {
                Tone::Dim
            } else if history@[i] < 12 {
                Tone::Wrong
            } else if history@[i] < 20 {
                Tone::Accent
            } else {
                Tone::Correct
            },
        ),
{
    let whole = piece::marks(line@);
    assert(whole.len() == history@.len());
    assert(whole[i] == line@[i].mark());
    assert(whole[i] == trend_mark(history@[i]));
}

/// Law: each headline figure stands under its label: the uptime, the throughput,
/// the shuffles of the session and of the lifetime, the personal best, and the
/// seed, or a dash where there is none.
pub proof fn law_figures_stand_under_their_labels(
    f: Figures,
    lines: Vec<Vec<Piece>>,
    uptime: String,
    rate: String,
    session: String,
    lifetime: String,
    best: String,
)
    requires
        call_ensures(figure_lines, (f,), lines),
        call_ensures(figures::fmt_uptime, (f.uptime_secs,), uptime),
        call_ensures(figures::fmt_rate, (f.rate,), rate),
        call_ensures(figures::fmt_count, (f.session,), session),
        call_ensures(figures::fmt_count, (f.lifetime,), lifetime),
        call_ensures(figures::fmt_best, (f.all_best,), best),
    ensures
        lines@.len() == 17,
        lines@[0]@[0].text@ == "uptime"@ && lines@[1]@[0].text@ == uptime@,
        lines@[3]@[0].text@ == "throughput"@ && lines@[4]@[0].text@ == rate@,
        lines@[6]@[0].text@ == "session shuffles"@ && lines@[7]@[0].text@ == session@,
        lines@[9]@[0].text@ == "lifetime shuffles"@ && lines@[10]@[0].text@ == lifetime@,
        lines@[12]@[0].text@ == "personal best"@ && lines@[13]@[0].text@ == best@,
        lines@[15]@[0].text@ == "seed"@,
        f.seed@.len() > 0 ==> lines@[16]@[0].text@ == f.seed@,
        f.seed@.len() == 0 ==> lines@[16]@[0].text@ == "-"@,
        forall|i: int|
            0 <= i < 17 ==> (#[trigger] lines@[i])@.len() == 1 && (i % 3 == 2 ==> lines@[i]@[0].text@
                == ""@) && (i % 3 == 0 ==> lines@[i]@[0].tone == Some(Tone::Dim)),
        lines@[1]@[0].tone == Some(Tone::White) && lines@[1]@[0].bold,
        lines@[4]@[0].tone == Some(Tone::Accent) && lines@[4]@[0].bold,
        lines@[7]@[0].tone == Some(Tone::White) && lines@[7]@[0].bold,
        lines@[10]@[0].tone == Some(Tone::White) && lines@[10]@[0].bold,
        lines@[13]@[0].tone == Some(Tone::Wrong) && lines@[13]@[0].bold,
        lines@[16]@[0].tone == Some(Tone::White) && !lines@[16]@[0].bold,
{
    let whole = piece::page(lines@);
    assert(whole.len() == 17);
    assert forall|i: int| 0 <= i < 17 implies whole[i] == piece::marks((#[trigger] lines@[i])@)
        && lines@[i]@.len() == 1 && whole[i][0] == lines@[i]@[0].mark() by {
        assert(whole[i] == piece::marks(lines@[i]@));
        assert(whole[i].len() == 1);
    }
}

/// Law: where there is room, the gauge has four rows, the trend six, and the
/// figures have the rest below them.
pub proof fn law_dials_stand_one_over_another(area: Area, rows: Seq<Area>)
    requires
        layout::is_split(area, Axis::Vertical, dial_rows(), rows),
        area.height >= 20,
    ensures
        rows.len() == 3,
        rows[0].y == area.y && rows[0].height == 4,
        rows[1].y == area.y + 4 && rows[1].height == 6,
        rows[2].y == area.y + 10 && rows[2].height == area.height - 10,
        forall|i: int|
            0 <= i < 3 ==> (#[trigger] rows[i]).x == area.x && rows[i].width == area.width,
{
    let extents = dial_rows();
    reveal_with_fuel(layout::least_of, 4);
    assert(extents.drop_last() =~= seq![Extent::Length(4), Extent::Length(6)]);
    assert(extents.drop_last().drop_last() =~= seq![Extent::Length(4)]);
    assert(layout::has_room(extents, 2, area.height as int));
    assert(rows[0].is_level(area, Axis::Vertical));
    assert(rows[1].start(Axis::Vertical) == rows[0].start(Axis::Vertical) + rows[0].size(
        Axis::Vertical,
    ));
    assert(rows[2].start(Axis::Vertical) == rows[1].start(Axis::Vertical) + rows[1].size(
        Axis::Vertical,
    ));
}

/// Law: the dials are the gauge of the score, the trend of the history in the
/// middle of its frame, and the figures inside theirs.
pub proof fn law_dials_are_drawn(
    rows: Vec<Area>,
    score: i32,
    history: Vec<i32>,
    f: Figures,
    paints: Vec<Paint>,
    g: GaugeDial,
    trend: Vec<Piece>,
    lines: Vec<Vec<Piece>>,
)
    requires
        call_ensures(paint_dials, (&rows, score, &history, f), paints),
        rows@.len() == 3,
        rows@[1].fits(),
        rows@[1].width >= 2,
        rows@[1].height >= 2,
        rows@[2].fits(),
        rows@[2].width >= 2,
        rows@[2].height >= 2,
        call_ensures(gauge, (score,), g),
        call_ensures(trend_line, (&history,), trend),
        call_ensures(figure_lines, (f,), lines),
    ensures
        paints@.len() == 5,
        paints@[0].area == rows@[0],
        paints@[0].widget matches Widget::Gauge(title, dial) && title.text@
            == " closeness to a clean board "@ && dial.filled == g.filled && dial.label@ == g.label@
            && dial.tone == g.tone,
        paints@[1].area == rows@[1],
        paints@[1].widget matches Widget::Frame(Some(p)) && p.text@ == " recent trend "@,
        paints@[2].widget matches Widget::Text(shown, align) && align == Align::Center
            && shown@.len() == 1 && piece::marks(shown@[0]@) == piece::marks(trend@),
        paints@[2].area == (Area {
            x: (rows@[1].x + 1) as u16,
            y: (rows@[1].y + 1 + (rows@[1].height - 2) / 2) as u16,
            width: (rows@[1].width - 2) as u16,
            height: 1,
        }),
        paints@[3].area == rows@[2] && paints@[3].widget == Widget::Frame(None),
        paints@[4].area == (Area {
            x: (rows@[2].x + 1) as u16,
            y: (rows@[2].y + 1) as u16,
            width: (rows@[2].width - 2) as u16,
            height: (rows@[2].height - 2) as u16,
        }),
        paints@[4].widget matches Widget::Text(shown, align) && align == Align::Left && piece::page(
            shown@,
        ) == piece::page(lines@),
{
    let whole = paint::marks(paints@);
    assert(whole.len() == 5);
    assert(whole[0] == paints@[0].mark());
    assert(whole[1] == paints@[1].mark());
    assert(whole[2] == paints@[2].mark());
    assert(whole[3] == paints@[3].mark());
    assert(whole[4] == paints@[4].mark());
    if let Widget::Text(shown, align) = paints@[2].widget {
        assert(piece::page(shown@).len() == 1);
        assert(piece::page(shown@)[0] == piece::marks(shown@[0]@));
    }
}

/// Law: the dials are drawn in three rows that their area is cut into: four, six,
/// and at least ten.
pub proof fn law_dials_have_three_rows(
    area: Area,
    score: i32,
    history: Vec<i32>,
    f: Figures,
    paints: Vec<Paint>,
    extents: Seq<Extent>,
)
    requires
        call_ensures(draw_dials, (area, score, &history, f), paints),
        extents == seq![Extent::Length(4), Extent::Length(6), Extent::Min(10)],
    ensures
        exists|rows: Seq<Area>| #[trigger]
            layout::is_split(area, Axis::Vertical, extents, rows) && paint::marks(paints@)
                == dial_paints(rows, score, history@, f),
{
}

/// Law: without any score the trend is a dash.
pub proof fn law_trend_without_scores_is_a_dash(history: Vec<i32>, line: Vec<Piece>)
    requires
        call_ensures(trend_line, (&history,), line),
        history@.len() == 0,
    ensures
        line@.len() == 1,
        line@[0].text@ == "-"@,
        line@[0].tone == Some(Tone::Dim),
{
    let whole = piece::marks(line@);
    assert(whole.len() == 1);
    assert(whole[0] == line@[0].mark());
}

} // verus!
