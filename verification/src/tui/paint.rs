//! Widgets: what is drawn where.
use vstd::prelude::*;

use crate::tui::layout::Area;
use crate::tui::palette::Tone;
use crate::tui::piece;
use crate::tui::piece::{Mark, Piece};

verus! {

/// How lines stand in their area.
#[derive(Clone, Copy, Debug, PartialEq, Eq, Structural)]
pub enum Align {
    Left,
    Center,
    Right,
}

/// The gauge: how many 25ths of it are filled, its label and its tone.
#[derive(Debug)]
pub struct GaugeDial {
    pub filled: u8,
    pub label: String,
    pub tone: Tone,
}

#[derive(Debug)]
pub enum Widget {
    /// A dim frame around the area, which may have a title.
    Frame(Option<Piece>),
    /// Lines of text.
    Text(Vec<Vec<Piece>>, Align),
    /// A framed gauge with a title.
    Gauge(Piece, GaugeDial),
}

/// A widget and its place.
#[derive(Debug)]
pub struct Paint {
    pub area: Area,
    pub widget: Widget,
}

/// A widget as mathematics has it.
pub enum WidgetMark {
    Frame(Option<Mark>),
    Text(Seq<Seq<Mark>>, Align),
    Gauge { title: Mark, filled: u8, label: Seq<char>, tone: Tone },
}

/// A widget and its place, as mathematics has them.
pub struct PaintMark {
    pub area: Area,
    pub widget: WidgetMark,
}

impl Widget {
    pub open spec fn mark(self) -> WidgetMark {
        match self {
            Widget::Frame(title) => WidgetMark::Frame(
                match title {
                    Some(p) => Some(p.mark()),
                    None => None,
                },
            ),
            Widget::Text(lines, align) => WidgetMark::Text(piece::page(lines@), align),
            Widget::Gauge(title, dial) => WidgetMark::Gauge {
                title: title.mark(),
                filled: dial.filled,
                label: dial.label@,
                tone: dial.tone,
            },
        }
    }
}

impl Paint {
    pub open spec fn mark(self) -> PaintMark {
        PaintMark { area: self.area, widget: self.widget.mark() }
    }
}

/// Widgets as mathematics has them, from the first drawn to the last.
pub open spec fn marks(paints: Seq<Paint>) -> Seq<PaintMark> {
    paints.map_values(|p: Paint| p.mark())
}

pub broadcast proof fn lemma_paints_push(paints: Seq<Paint>, p: Paint)
    ensures
        #[trigger] marks(paints.push(p)) == marks(paints).push(p.mark()),
{
    assert(marks(paints.push(p)) =~= marks(paints).push(p.mark()));
}

pub broadcast proof fn lemma_no_paints(paints: Seq<Paint>)
    requires
        paints.len() == 0,
    ensures
        #[trigger] marks(paints) == Seq::<PaintMark>::empty(),
{
    assert(marks(paints) =~= Seq::<PaintMark>::empty());
}

pub broadcast group group_paints {
    lemma_paints_push,
    lemma_no_paints,
}

/// A frame without a title.
pub open spec fn plain_frame(area: Area) -> PaintMark {
    PaintMark { area, widget: WidgetMark::Frame(None) }
}

/// A frame with a title.
pub open spec fn titled_frame(area: Area, title: Mark) -> PaintMark {
    PaintMark { area, widget: WidgetMark::Frame(Some(title)) }
}

/// One line of text.
pub open spec fn text_line(area: Area, line: Seq<Mark>, align: Align) -> PaintMark {
    PaintMark { area, widget: WidgetMark::Text(seq![line], align) }
}

/// Lines of text.
pub open spec fn text_page(area: Area, lines: Seq<Seq<Mark>>, align: Align) -> PaintMark {
    PaintMark { area, widget: WidgetMark::Text(lines, align) }
}

pub fn frame(area: Area) -> (p: Paint)
    ensures
        p.mark() == plain_frame(area),
{
    Paint { area, widget: Widget::Frame(None) }
}

pub fn frame_with_title(area: Area, title: Piece) -> (p: Paint)
    ensures
        p.mark() == titled_frame(area, title.mark()),
{
    Paint { area, widget: Widget::Frame(Some(title)) }
}

pub fn line_of_text(area: Area, line: Vec<Piece>, align: Align) -> (p: Paint)
    ensures
        p.mark() == text_line(area, piece::marks(line@), align),
{
    let mut lines: Vec<Vec<Piece>> = Vec::new();
    lines.push(line);
    proof {
        assert(piece::page(lines@) =~= seq![piece::marks(line@)]);
    }
    Paint { area, widget: Widget::Text(lines, align) }
}

pub fn page_of_text(area: Area, lines: Vec<Vec<Piece>>, align: Align) -> (p: Paint)
    ensures
        p.mark() == text_page(area, piece::page(lines@), align),
{
    Paint { area, widget: Widget::Text(lines, align) }
}

/// Moves all of `more` to the end of `paints`.
pub fn put_all(paints: &mut Vec<Paint>, more: Vec<Paint>)
    ensures
        marks(final(paints)@) == marks(old(paints)@) + marks(more@),
{
    let mut more: Vec<Paint> = more;
    let ghost all = marks(more@);
    paints.append(&mut more);
    proof {
        assert(marks(paints@) =~= marks(old(paints)@) + all);
    }
}

} // verus!
