//! The ticker: one line of recent results and their running average.
use vstd::prelude::*;
use vstd::string::*;

use crate::double;
use crate::text;
use crate::tui::figures;
use crate::tui::history;
use crate::tui::layout;
use crate::tui::layout::Area;
use crate::tui::paint;
use crate::tui::paint::{Align, Paint, PaintMark, Widget};
use crate::tui::palette;
use crate::tui::palette::Tone;
use crate::tui::piece;
use crate::tui::piece::{Mark, Piece};

verus! {

broadcast use {piece::group_marks, paint::group_paints};

/// One score of the history.
pub open spec fn entry_mark(v: i32) -> Mark {
    piece::bold(figures::score_text(v), palette::score_tone(v))
}

/// The average with one decimal, zero where there is no score.
pub open spec fn average_text(scores: Seq<i32>) -> Seq<char> {
    match history::mean(scores) {
        Some(q) => q.printed(1),
        None => "0.0"@,
    }
}

/// The recent scores from the oldest on, and their average.
pub open spec fn ticker_marks(scores: Seq<i32>) -> Seq<Mark> {
    if scores.len() == 0 {
        seq![
            piece::plain(
                " quiet so far - the first results will scroll through here "@,
                Tone::Dim,
            ),
        ]
    } else {
        seq![piece::bold(" history "@, Tone::Accent), piece::plain(">> "@, Tone::Dim)]
            + piece::spaced(
            scores.map_values(|v: i32| entry_mark(v)),
            piece::plain(" | "@, Tone::Dim),
        ) + seq![
            piece::plain("   running avg "@, Tone::Dim),
            piece::bold(average_text(scores), Tone::White),
        ]
    }
}

pub fn ticker_line(scores: &Vec<i32>) -> (line: Vec<Piece>)
    requires
        history::total(scores@) <= i32::MAX,
    ensures
        piece::marks(line@) == ticker_marks(scores@),
{
    if scores.len() == 0 {
        return piece::single(
            Piece::plain(
                " quiet so far - the first results will scroll through here ".to_owned(),
                Tone::Dim,
            ),
        );
    }
    let mut avg: String = String::new();
    match history::average(scores) {
        Some(q) => {
            q.push_printed(&mut avg, 1);
        },
        None => {
            avg.append("0.0");
        },
    }
    proof {
        assert(avg@ =~= average_text(scores@));
    }
    let ghost cells = scores@.map_values(|v: i32| entry_mark(v));
    let ghost gap = piece::plain(" | "@, Tone::Dim);
    let ghost head = seq![
        piece::bold(" history "@, Tone::Accent),
        piece::plain(">> "@, Tone::Dim),
    ];
    let mut line: Vec<Piece> = Vec::new();
    line.push(Piece::bold(" history ".to_owned(), Tone::Accent));
    line.push(Piece::plain(">> ".to_owned(), Tone::Dim));
    let mut i: usize = 0;
    proof {
        assert(piece::marks(line@) =~= head + piece::spaced(cells.take(0), gap));
    }
    while i < scores.len()
        invariant
            i <= scores.len(),
            cells == scores@.map_values(|v: i32| entry_mark(v)),
            gap == piece::plain(" | "@, Tone::Dim),
            piece::marks(line@) == head + piece::spaced(cells.take(i as int), gap),
        decreases scores.len() - i,
    {
        let v: i32 = scores[i];
        if i > 0 {
            line.push(Piece::plain(" | ".to_owned(), Tone::Dim));
        }
        line.push(Piece::bold(figures::fmt_score(v), palette::badge_color(v)));
        proof {
            piece::lemma_spaced_push(cells.take(i as int), cells[i as int], gap);
            assert(cells.take(i + 1) =~= cells.take(i as int).push(cells[i as int]));
            assert(piece::marks(line@) =~= head + piece::spaced(cells.take(i + 1), gap));
        }
        i = i + 1;
    }
    line.push(Piece::plain("   running avg ".to_owned(), Tone::Dim));
    line.push(Piece::bold(avg, Tone::White));
    proof {
        assert(cells.take(i as int) =~= cells);
        assert(piece::marks(line@) =~= ticker_marks(scores@));
    }
    line
}

/// The ticker in its frame.
pub open spec fn ticker_paints(area: Area, scores: Seq<i32>) -> Seq<PaintMark> {
    seq![
        paint::plain_frame(area),
        paint::text_line(layout::inside(area), ticker_marks(scores), Align::Left),
    ]
}

pub fn draw_ticker(area: Area, scores: &Vec<i32>) -> (paints: Vec<Paint>)
    requires
        area.fits(),
        history::total(scores@) <= i32::MAX,
    ensures
        paint::marks(paints@) == ticker_paints(area, scores@),
{
    let mut paints: Vec<Paint> = Vec::new();
    paints.push(paint::frame(area));
    let inner: Area = layout::frame_inner(area);
    paints.push(paint::line_of_text(inner, ticker_line(scores), Align::Left));
    proof {
        assert(paint::marks(paints@) =~= ticker_paints(area, scores@));
    }
    paints
}

/// Law: the ticker shows every score of the history, from the oldest on, each in
/// the tone of its grade, a dash where there was none, with bars between them.
/// It ends with the average of the scores to the nearest tenth.
pub proof fn law_ticker_shows_the_history(scores: Vec<i32>, line: Vec<Piece>, i: int)
    requires
        call_ensures(ticker_line, (&scores,), line),
        history::total(scores@) <= i32::MAX,
        scores@.len() < 0x20_0000_0000_0000,
        0 <= i < scores@.len(),
    ensures
        line@.len() == 2 * scores@.len() + 3,
        line@[0].text@ == " history "@ && line@[1].text@ == ">> "@,
        scores@[i] >= 0 ==> line@[2 + 2 * i].text@ == text::decimal(scores@[i] as nat),
        scores@[i] < 0 ==> line@[2 + 2 * i].text@ == "-"@,
        line@[2 + 2 * i].bold,
        line@[2 + 2 * i].tone == Some(
            if scores@[i] < 0 {
                Tone::Dim
            } else if scores@[i] < 12 {
                Tone::Wrong
            } else if scores@[i] < 20 {
                Tone::Accent
            } else {
                Tone::Correct
            },
        ),
        i + 1 < scores@.len() ==> line@[3 + 2 * i].text@ == " | "@,
        line@[line@.len() - 2].text@ == "   running avg "@,
        history::reported(scores@) > 0 ==> exists|u: nat|
            double::nearly(u, 10, history::total(scores@), history::reported(scores@)) && line@[
            line@.len() - 1].text@ == #[trigger] double::fixed_point(u, 1),
        history::reported(scores@) == 0 ==> line@[line@.len() - 1].text@ == "0.0"@,
{
    let n = scores@.len() as int;
    let whole = piece::marks(line@);
    let cells = scores@.map_values(|v: i32| entry_mark(v));
    let gap = piece::plain(" | "@, Tone::Dim);
    assert(piece::spaced(cells, gap).len() == 2 * n - 1);
    assert(whole.len() == 2 * n + 3);
    assert(whole[0] == line@[0].mark());
    assert(whole[1] == line@[1].mark());
    assert(whole[2 + 2 * i] == line@[2 + 2 * i].mark());
    assert(whole[2 + 2 * i] == piece::spaced(cells, gap)[2 * i]);
    assert(cells[i] == entry_mark(scores@[i]));
    if i + 1 < n {
        assert(whole[3 + 2 * i] == line@[3 + 2 * i].mark());
        assert(whole[3 + 2 * i] == piece::spaced(cells, gap)[2 * i + 1]);
    }
    assert(whole[2 * n + 1] == line@[2 * n + 1].mark());
    assert(whole[2 * n + 2] == line@[2 * n + 2].mark());
    history::lemma_reported_bound(scores@);
    if history::reported(scores@) > 0 {
        let u = history::lemma_average_printed(scores@);
    }
}

/// Law: without any result the ticker says so.
pub proof fn law_ticker_is_quiet_at_first(scores: Vec<i32>, line: Vec<Piece>)
    requires
        call_ensures(ticker_line, (&scores,), line),
        scores@.len() == 0,
    ensures
        line@.len() == 1,
        line@[0].text@ == " quiet so far - the first results will scroll through here "@,
{
    let whole = piece::marks(line@);
    assert(whole.len() == 1);
    assert(whole[0] == line@[0].mark());
}

/// Law: the ticker is one line inside a frame around its area.
pub proof fn law_ticker_stands_in_a_frame(
    area: Area,
    scores: Vec<i32>,
    paints: Vec<Paint>,
    line: Vec<Piece>,
)
    requires
        call_ensures(draw_ticker, (area, &scores), paints),
        call_ensures(ticker_line, (&scores,), line),
        area.width >= 2,
        area.height >= 2,
        area.fits(),
    ensures
        paints@.len() == 2,
        paints@[0].area == area,
        paints@[0].widget == Widget::Frame(None),
        paints@[1].area == (Area {
            x: (area.x + 1) as u16,
            y: (area.y + 1) as u16,
            width: (area.width - 2) as u16,
            height: (area.height - 2) as u16,
        }),
        paints@[1].widget matches Widget::Text(lines, align) && align == Align::Left && lines@.len()
            == 1 && piece::marks(lines@[0]@) == piece::marks(line@),
{
    let whole = paint::marks(paints@);
    assert(whole.len() == 2);
    assert(whole[0] == paints@[0].mark());
    assert(whole[1] == paints@[1].mark());
    if let Widget::Text(lines, align) = paints@[1].widget {
        assert(piece::page(lines@).len() == 1);
        assert(piece::page(lines@)[0] == piece::marks(lines@[0]@));
    }
}

} // verus!
