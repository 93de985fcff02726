//! The whole screen: a masthead, a body that can be switched, and a ticker.
use vstd::prelude::*;

use crate::tui::board;
use crate::tui::dials;
use crate::tui::dials::Figures;
use crate::tui::layout;
use crate::tui::layout::{Area, Axis, Extent};
use crate::tui::masthead;
use crate::tui::paint;
use crate::tui::paint::{Paint, PaintMark};
use crate::tui::stats;
use crate::tui::stats::Readings;
use crate::tui::ticker;
use crate::tui::view;

verus! {

broadcast use paint::group_paints;

/// Everything that the screen is drawn from.
#[derive(Debug)]
pub struct Scene {
    pub status: String,
    pub seed: String,
    pub last_best: i32,
    pub last_arr: [u8; 25],
    pub readings: Readings,
}

impl Scene {
    /// The headline figures of the run.
    pub open spec fn is_headline(self, f: Figures) -> bool {
        &&& f.uptime_secs == self.readings.uptime_secs
        &&& f.rate == self.readings.rate
        &&& f.session == self.readings.session
        &&& f.lifetime == self.readings.lifetime
        &&& f.all_best == self.readings.all_best
        &&& f.seed@ == self.seed@
    }

    fn headline(&self) -> (f: Figures)
        ensures
            self.is_headline(f),
    {
        Figures {
            uptime_secs: self.readings.uptime_secs,
            rate: self.readings.rate,
            session: self.readings.session,
            lifetime: self.readings.lifetime,
            all_best: self.readings.all_best,
            seed: self.seed.clone(),
        }
    }
}

/// The rows of the screen.
pub open spec fn screen_rows() -> Seq<Extent> {
    seq![Extent::Length(3), Extent::Min(18), Extent::Length(3)]
}

/// The columns of the body with the board.
pub open spec fn body_columns() -> Seq<Extent> {
    seq![Extent::Min(46), Extent::Length(32)]
}

/// The board with the dials beside it.
pub open spec fn is_board_body(area: Area, scene: Scene, paints: Seq<PaintMark>) -> bool {
    exists|columns: Seq<Area>, left: Seq<PaintMark>, right: Seq<PaintMark>, f: Figures|
        {
            &&& #[trigger] layout::is_split(area, Axis::Horizontal, body_columns(), columns)
            &&& #[trigger] board::is_board(columns[0], scene.last_arr@, scene.last_best, left)
            &&& scene.is_headline(f)
            &&& #[trigger] dials::are_dials(
                columns[1],
                scene.last_best,
                scene.readings.history@,
                f,
                right,
            )
            &&& paints == left + right
        }
}

/// The body that the view names.
pub open spec fn is_body(area: Area, scene: Scene, view: view::View, paints: Seq<PaintMark>) -> bool {
    match view {
        view::View::Board => is_board_body(area, scene, paints),
        view::View::Stats => stats::are_stats(area, scene.readings, scene.seed@, paints),
    }
}

/// The screen, in rows that its area was cut into.
pub open spec fn is_screen(area: Area, scene: Scene, view: view::View, paints: Seq<PaintMark>) -> bool {
    exists|rows: Seq<Area>, head: Seq<PaintMark>, body: Seq<PaintMark>|
        {
            &&& #[trigger] layout::is_split(area, Axis::Vertical, screen_rows(), rows)
            &&& #[trigger] masthead::is_masthead(
                rows[0],
                scene.status@,
                scene.last_best,
                view,
                head,
            )
            &&& #[trigger] is_body(rows[1], scene, view, body)
            &&& paints == head + body + ticker::ticker_paints(rows[2], scene.readings.history@)
        }
}

fn draw_board_body(area: Area, scene: &Scene) -> (paints: Vec<Paint>)
    requires
        area.fits(),
        scene.readings.is_valid(),
    ensures
        is_board_body(area, *scene, paint::marks(paints@)),
{
    let mut extents: Vec<Extent> = Vec::new();
    extents.push(Extent::Min(46));
    extents.push(Extent::Length(32));
    proof {
        assert(extents@ =~= body_columns());
    }
    let columns: Vec<Area> = layout::split(area, Axis::Horizontal, &extents);
    let mut paints: Vec<Paint> = board::draw_board(columns[0], &scene.last_arr, scene.last_best);
    let ghost left = paint::marks(paints@);
    let figures: Figures = scene.headline();
    let more: Vec<Paint> = dials::draw_dials(
        columns[1],
        scene.last_best,
        &scene.readings.history,
        figures,
    );
    let ghost right = paint::marks(more@);
    paint::put_all(&mut paints, more);
    proof {
        assert(layout::is_split(area, Axis::Horizontal, body_columns(), columns@));
        assert(board::is_board(columns@[0], scene.last_arr@, scene.last_best, left));
        assert(dials::are_dials(
            columns@[1],
            scene.last_best,
            scene.readings.history@,
            figures,
            right,
        ));
    }
    paints
}

/// The screen, widget by widget.
pub fn draw(area: Area, scene: &Scene, view: view::View) -> (paints: Vec<Paint>)
    requires
        area.fits(),
        scene.readings.is_valid(),
    ensures
        is_screen(area, *scene, view, paint::marks(paints@)),
{
    let mut extents: Vec<Extent> = Vec::new();
    extents.push(Extent::Length(3));
    extents.push(Extent::Min(18));
    extents.push(Extent::Length(3));
    proof {
        assert(extents@ =~= screen_rows());
    }
    let rows: Vec<Area> = layout::split(area, Axis::Vertical, &extents);
    let mut paints: Vec<Paint> = masthead::draw_masthead(
        rows[0],
        scene.status.clone(),
        scene.last_best,
        view,
    );
    let ghost head = paint::marks(paints@);
    let body: Vec<Paint> = match view {
        view::View::Board => draw_board_body(rows[1], scene),
        view::View::Stats => stats::draw_stats(rows[1], &scene.readings, scene.seed.clone()),
    };
    let ghost middle = paint::marks(body@);
    paint::put_all(&mut paints, body);
    let foot: Vec<Paint> = ticker::draw_ticker(rows[2], &scene.readings.history);
    paint::put_all(&mut paints, foot);
    proof {
        assert(layout::is_split(area, Axis::Vertical, screen_rows(), rows@));
        assert(masthead::is_masthead(rows@[0], scene.status@, scene.last_best, view, head));
        assert(is_body(rows@[1], *scene, view, middle));
    }
    paints
}

/// Law: on a screen with room for all of it, the masthead and the ticker have
/// three rows each, and the body has the rest between them.
pub proof fn law_body_has_the_rest(area: Area, rows: Seq<Area>)
    requires
        layout::is_split(area, Axis::Vertical, screen_rows(), rows),
        area.height >= 24,
    ensures
        rows[0] == (Area { x: area.x, y: area.y, width: area.width, height: 3 }),
        rows[1].y == area.y + 3,
        rows[1].height == area.height - 6,
        rows[2].y == area.y + area.height - 3,
        rows[2].height == 3,
{
    let extents = screen_rows();
    reveal_with_fuel(layout::least_of, 4);
    assert(extents.drop_last() =~= seq![Extent::Length(3), Extent::Min(18)]);
    assert(extents.drop_last().drop_last() =~= seq![Extent::Length(3)]);
    assert(layout::has_room(extents, 1, area.height as int));
    assert(rows[0].is_level(area, Axis::Vertical));
    assert(rows[1].start(Axis::Vertical) == rows[0].start(Axis::Vertical) + rows[0].size(
        Axis::Vertical,
    ));
    assert(rows[2].start(Axis::Vertical) == rows[1].start(Axis::Vertical) + rows[1].size(
        Axis::Vertical,
    ));
}

/// Law: the screen is a masthead with the status and the latest score, the body
/// in view, and the ticker of the history, from top to bottom. The body is the
/// latest board with its dials beside it, or the performance page.
pub proof fn law_screen_shows_the_scene(
    area: Area,
    scene: Scene,
    v: view::View,
    paints: Vec<Paint>,
    extents: Seq<Extent>,
)
    requires
        call_ensures(draw, (area, &scene, v), paints),
        extents == seq![Extent::Length(3), Extent::Min(18), Extent::Length(3)],
    ensures
        exists|rows: Seq<Area>, head: Seq<PaintMark>, body: Seq<PaintMark>|
            {
                &&& #[trigger] layout::is_split(area, Axis::Vertical, extents, rows)
                &&& #[trigger] masthead::is_masthead(
                    rows[0],
                    scene.status@,
                    scene.last_best,
                    v,
                    head,
                )
                &&& v == view::View::Board ==> is_board_body(rows[1], scene, body)
                &&& v == view::View::Stats ==> stats::are_stats(
                    rows[1],
                    scene.readings,
                    scene.seed@,
                    body,
                )
                &&& paint::marks(paints@) == head + #[trigger] (body + ticker::ticker_paints(
                    rows[2],
                    scene.readings.history@,
                ))
            },
{
    let (rows, head, body) = choose|
        rows: Seq<Area>,
        head: Seq<PaintMark>,
        body: Seq<PaintMark>,
    |
        {
            &&& #[trigger] layout::is_split(area, Axis::Vertical, screen_rows(), rows)
            &&& #[trigger] masthead::is_masthead(
                rows[0],
                scene.status@,
                scene.last_best,
                v,
                head,
            )
            &&& #[trigger] is_body(rows[1], scene, v, body)
            &&& paint::marks(paints@) == head + body + ticker::ticker_paints(
                rows[2],
                scene.readings.history@,
            )
        };
    let foot = ticker::ticker_paints(rows[2], scene.readings.history@);
    assert(head + body + foot =~= head + (body + foot));
    assert(layout::is_split(area, Axis::Vertical, extents, rows));
}

/// Law: where there is room, the dials have 32 columns on the right of the board,
/// which has the rest.
pub proof fn law_dials_stand_beside_the_board(area: Area, columns: Seq<Area>)
    requires
        layout::is_split(area, Axis::Horizontal, body_columns(), columns),
        area.width >= 78,
    ensures
        columns.len() == 2,
        columns[0].x == area.x && columns[0].width == area.width - 32,
        columns[1].x == area.x + area.width - 32 && columns[1].width == 32,
        forall|i: int|
            0 <= i < 2 ==> (#[trigger] columns[i]).y == area.y && columns[i].height == area.height,
{
    let extents = body_columns();
    reveal_with_fuel(layout::least_of, 3);
    assert(extents.drop_last() =~= seq![Extent::Min(46)]);
    assert(layout::has_room(extents, 0, area.width as int));
    assert(columns[0].is_level(area, Axis::Horizontal));
    assert(columns[1].start(Axis::Horizontal) == columns[0].start(Axis::Horizontal)
        + columns[0].size(Axis::Horizontal));
}

/// Law: the board body draws the latest board with the latest score, and beside
/// it the dials of that score, of the history and of the run.
pub proof fn law_board_body_shows_the_latest(
    area: Area,
    scene: Scene,
    paints: Seq<PaintMark>,
    extents: Seq<Extent>,
)
    requires
        is_board_body(area, scene, paints),
        extents == seq![Extent::Min(46), Extent::Length(32)],
    ensures
        exists|columns: Seq<Area>, left: Seq<PaintMark>, right: Seq<PaintMark>, f: Figures|
            {
                &&& #[trigger] layout::is_split(area, Axis::Horizontal, extents, columns)
                &&& #[trigger] board::is_board(columns[0], scene.last_arr@, scene.last_best, left)
                &&& #[trigger] dials::are_dials(
                    columns[1],
                    scene.last_best,
                    scene.readings.history@,
                    f,
                    right,
                )
                &&& f.uptime_secs == scene.readings.uptime_secs
                &&& f.rate == scene.readings.rate
                &&& f.session == scene.readings.session
                &&& f.lifetime == scene.readings.lifetime
                &&& f.all_best == scene.readings.all_best
                &&& f.seed@ == scene.seed@
                &&& paints == left + right
            },
{
}

} // verus!
