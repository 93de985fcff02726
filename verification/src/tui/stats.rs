//! The performance page: a grid of nine cards and the seed.
use vstd::prelude::*;
use vstd::string::*;

use crate::double;
use crate::double::Double;
use crate::float::Float;
use crate::text;
use crate::tui::dials;
use crate::tui::figures;
use crate::tui::history;
use crate::tui::layout;
use crate::tui::layout::{Area, Axis, Extent};
use crate::tui::paint;
use crate::tui::paint::{Align, Paint, PaintMark, Widget};
use crate::tui::palette;
use crate::tui::palette::Tone;
use crate::tui::piece;
use crate::tui::piece::{Mark, Piece};

verus! {

broadcast use {piece::group_marks, paint::group_paints};

/// What the page is drawn from: the run so far, and the last telemetry of the
/// host and of its GPU.
#[derive(Debug)]
pub struct Readings {
    pub rate: Float,
    pub session: u64,
    pub lifetime: u64,
    pub session_best: i32,
    pub all_best: i32,
    pub uptime_secs: u64,
    pub history: Vec<i32>,
    pub cpu_pct: Float,
    pub mem_used: u64,
    pub mem_total: u64,
    pub gpu_name: Option<String>,
    pub gpu_util: i32,
    pub gpu_mem_used: u64,
    pub gpu_mem_total: u64,
    pub gpu_temp: i32,
}

impl Readings {
    pub open spec fn is_valid(self) -> bool {
        history::total(self.history@) <= i32::MAX
    }
}

/// A card: its label, and a value that may stand on several lines.
#[derive(Debug)]
pub struct Card {
    pub label: String,
    pub value: String,
    pub tone: Tone,
}

/// A card as mathematics has it.
pub struct CardFace {
    pub label: Seq<char>,
    pub value: Seq<char>,
    pub tone: Tone,
}

impl Card {
    pub open spec fn face(self) -> CardFace {
        CardFace { label: self.label@, value: self.value@, tone: self.tone }
    }
}

pub open spec fn faces(cards: Seq<Card>) -> Seq<CardFace> {
    cards.map_values(|c: Card| c.face())
}

/// The title over the page.
pub open spec fn title_text(gpu_name: Option<String>) -> Seq<char> {
    match gpu_name {
        Some(name) => " performance - "@ + name@ + " "@,
        None => " performance "@,
    }
}

pub fn stats_title(gpu_name: &Option<String>) -> (r: String)
    ensures
        r@ == title_text(*gpu_name),
{
    match gpu_name {
        Some(name) => {
            let mut out: String = " performance - ".to_owned();
            out.append(name.as_str());
            out.append(" ");
            out
        },
        None => " performance ".to_owned(),
    }
}

/// The shuffles per second since the start.
pub open spec fn session_rate(session: u64, uptime_secs: u64) -> Double {
    if uptime_secs > 0 {
        double::ratio(session as nat, uptime_secs as nat)
    } else {
        Double { mant: 0, shift: 0 }
    }
}

pub fn average_rate(session: u64, uptime_secs: u64) -> (r: Double)
    ensures
        r == session_rate(session, uptime_secs),
        r.is_valid(),
{
    if uptime_secs > 0 {
        Double::ratio_of(session, uptime_secs)
    } else {
        Double { mant: 0, shift: 0 }
    }
}

/// The average of the recent scores.
pub open spec fn recent_face(scores: Seq<i32>) -> CardFace {
    match history::mean(scores) {
        Some(q) => CardFace {
            label: "avg of recent ticks"@,
            value: q.printed(1) + " / 25"@,
            tone: palette::score_tone(whole_score(q)),
        },
        None => CardFace { label: "avg of recent ticks"@, value: "- / 25"@, tone: Tone::Dim },
    }
}

/// A score that was averaged, rounded to a whole one.
pub open spec fn whole_score(q: Double) -> i32 {
    if q.rounded() > i32::MAX {
        i32::MAX
    } else {
        q.rounded() as i32
    }
}

fn recent_card(scores: &Vec<i32>) -> (c: Card)
    requires
        history::total(scores@) <= i32::MAX,
    ensures
        c.face() == recent_face(scores@),
{
    let label: String = "avg of recent ticks".to_owned();
    match history::average(scores) {
        Some(q) => {
            let mut value: String = String::new();
            q.push_printed(&mut value, 1);
            value.append(" / 25");
            proof {
                assert(value@ =~= q.printed(1) + " / 25"@);
            }
            let r: u64 = q.round();
            let whole: i32 = if r > i32::MAX as u64 {
                i32::MAX
            } else {
                r as i32
            };
            Card { label, value, tone: palette::badge_color(whole) }
        },
        None => Card { label, value: "- / 25".to_owned(), tone: Tone::Dim },
    }
}

/// The load of the host.
pub open spec fn host_face(r: Readings) -> CardFace {
    CardFace {
        label: "host cpu / ram"@,
        value: r.cpu_pct.text(0) + "% cpu\n"@ + figures::bytes_text(r.mem_used) + " / "@
            + figures::bytes_text(r.mem_total) + " ram"@,
        tone: palette::load_tone(r.cpu_pct),
    }
}

fn host_card(r: &Readings) -> (c: Card)
    ensures
        c.face() == host_face(*r),
{
    let mut value: String = String::new();
    r.cpu_pct.push_text(&mut value, 0);
    value.append("% cpu\n");
    value.append(figures::fmt_bytes(r.mem_used).as_str());
    value.append(" / ");
    value.append(figures::fmt_bytes(r.mem_total).as_str());
    value.append(" ram");
    proof {
        assert(value@ =~= host_face(*r).value);
    }
    Card { label: "host cpu / ram".to_owned(), value, tone: palette::load_color(r.cpu_pct) }
}

/// The load of the GPU, where there is one that tells it.
pub open spec fn gpu_load_face(r: Readings) -> CardFace {
    if r.gpu_name is None {
        CardFace {
            label: "gpu load"@,
            value: "no telemetry\n(nvidia-smi or rocm-smi not found)"@,
            tone: Tone::Dim,
        }
    } else if r.gpu_util < 0 {
        CardFace { label: "gpu load"@, value: "n/a"@, tone: Tone::Dim }
    } else {
        CardFace {
            label: "gpu load"@,
            value: text::decimal(r.gpu_util as nat) + "% util\n"@ + text::signed(r.gpu_temp as int)
                + "C"@,
            tone: palette::tone_of_load(r.gpu_util >= 90, r.gpu_util >= 60),
        }
    }
}

fn gpu_load_card(r: &Readings) -> (c: Card)
    ensures
        c.face() == gpu_load_face(*r),
{
    let label: String = "gpu load".to_owned();
    match &r.gpu_name {
        Some(_) => {
            if r.gpu_util >= 0 {
                let mut value: String = String::new();
                text::push_decimal(&mut value, r.gpu_util as u64);
                value.append("% util\n");
                text::push_signed(&mut value, r.gpu_temp);
                value.append("C");
                proof {
                    assert(value@ =~= gpu_load_face(*r).value);
                }
                let tone: Tone = palette::percent_color(r.gpu_util);
                Card { label, value, tone }
            } else {
                Card { label, value: "n/a".to_owned(), tone: Tone::Dim }
            }
        },
        None => Card {
            label,
            value: "no telemetry\n(nvidia-smi or rocm-smi not found)".to_owned(),
            tone: Tone::Dim,
        },
    }
}

/// The memory of the GPU, where it is known.
pub open spec fn gpu_memory_face(r: Readings) -> CardFace {
    if r.gpu_name is Some && r.gpu_mem_total > 0 {
        CardFace {
            label: "gpu memory"@,
            value: text::decimal(r.gpu_mem_used as nat) + " / "@ + text::decimal(
                r.gpu_mem_total as nat,
            ) + " MB"@,
            tone: Tone::White,
        }
    } else {
        CardFace { label: "gpu memory"@, value: "n/a"@, tone: Tone::Dim }
    }
}

fn gpu_memory_card(r: &Readings) -> (c: Card)
    ensures
        c.face() == gpu_memory_face(*r),
{
    let label: String = "gpu memory".to_owned();
    match &r.gpu_name {
        Some(_) => {
            if r.gpu_mem_total > 0 {
                let mut value: String = String::new();
                text::push_decimal(&mut value, r.gpu_mem_used);
                value.append(" / ");
                text::push_decimal(&mut value, r.gpu_mem_total);
                value.append(" MB");
                proof {
                    assert(value@ =~= gpu_memory_face(*r).value);
                }
                Card { label, value, tone: Tone::White }
            } else {
                Card { label, value: "n/a".to_owned(), tone: Tone::Dim }
            }
        },
        None => Card { label, value: "n/a".to_owned(), tone: Tone::Dim },
    }
}

/// The better one of two scores.
pub open spec fn better(a: i32, b: i32) -> i32 {
    if a < b {
        b
    } else {
        a
    }
}

/// The cards, row by row.
pub open spec fn card_faces(r: Readings) -> Seq<CardFace> {
    seq![
        CardFace {
            label: "live throughput"@,
            value: figures::rate_text(r.rate),
            tone: Tone::Accent,
        },
        CardFace {
            label: "session avg rate"@,
            value: figures::double_rate_text(session_rate(r.session, r.uptime_secs)),
            tone: Tone::Accent,
        },
        CardFace {
            label: "shuffles (session / lifetime)"@,
            value: figures::count_text(r.session) + "\n"@ + figures::count_text(r.lifetime),
            tone: Tone::White,
        },
        CardFace {
            label: "session best / all-time"@,
            value: figures::score_text(r.session_best) + " / "@ + figures::score_text(r.all_best),
            tone: palette::score_tone(better(r.session_best, r.all_best)),
        },
        recent_face(r.history@),
        CardFace {
            label: "uptime"@,
            value: figures::uptime_text(r.uptime_secs),
            tone: Tone::White,
        },
        host_face(r),
        gpu_load_face(r),
        gpu_memory_face(r),
    ]
}

pub fn stat_cards(r: &Readings) -> (cards: Vec<Card>)
    requires
        r.is_valid(),
    ensures
        faces(cards@) == card_faces(*r),
{
    let mut shuffles: String = figures::fmt_count(r.session);
    shuffles.append("\n");
    shuffles.append(figures::fmt_count(r.lifetime).as_str());
    let mut bests: String = figures::fmt_score(r.session_best);
    bests.append(" / ");
    bests.append(figures::fmt_score(r.all_best).as_str());
    let best: i32 = if r.session_best < r.all_best {
        r.all_best
    } else {
        r.session_best
    };
    let mut cards: Vec<Card> = Vec::new();
    cards.push(
        Card {
            label: "live throughput".to_owned(),
            value: figures::fmt_rate(r.rate),
            tone: Tone::Accent,
        },
    );
    cards.push(
        Card {
            label: "session avg rate".to_owned(),
            value: figures::fmt_double_rate(average_rate(r.session, r.uptime_secs)),
            tone: Tone::Accent,
        },
    );
    cards.push(
        Card {
            label: "shuffles (session / lifetime)".to_owned(),
            value: shuffles,
            tone: Tone::White,
        },
    );
    cards.push(
        Card {
            label: "session best / all-time".to_owned(),
            value: bests,
            tone: palette::badge_color(best),
        },
    );
    cards.push(recent_card(&r.history));
    cards.push(
        Card {
            label: "uptime".to_owned(),
            value: figures::fmt_uptime(r.uptime_secs),
            tone: Tone::White,
        },
    );
    cards.push(host_card(r));
    cards.push(gpu_load_card(r));
    cards.push(gpu_memory_card(r));
    proof {
        assert(faces(cards@) =~= card_faces(*r));
    }
    cards
}

/// One line of a card's value, with a blank before it.
pub open spec fn value_line(part: Seq<char>, tone: Tone) -> Seq<Mark> {
    seq![piece::bold(" "@ + part, tone)]
}

/// The lines of a card: the label, a blank line, and the lines of the value.
pub open spec fn card_page(card: CardFace) -> Seq<Seq<Mark>> {
    seq![seq![piece::plain(" "@ + card.label, Tone::Dim)], seq![piece::raw(""@)]] + text::split(
        card.value,
        '\n',
    ).map_values(|part: Seq<char>| value_line(part, card.tone))
}

pub fn stat_card(card: &Card) -> (lines: Vec<Vec<Piece>>)
    ensures
        piece::page(lines@) == card_page(card.face()),
{
    let mut head: String = " ".to_owned();
    head.append(card.label.as_str());
    let mut lines: Vec<Vec<Piece>> = Vec::new();
    lines.push(piece::single(Piece::plain(head, Tone::Dim)));
    lines.push(piece::single(Piece::raw("".to_owned())));
    let parts: Vec<Vec<char>> = text::split_chars(&text::chars_of(card.value.as_str()), '\n');
    let ghost split = text::split(card.value@, '\n');
    let ghost first = seq![
        seq![piece::plain(" "@ + card.label@, Tone::Dim)],
        seq![piece::raw(""@)],
    ];
    let ghost rest = split.map_values(|part: Seq<char>| value_line(part, card.tone));
    let mut i: usize = 0;
    proof {
        assert(piece::page(lines@) =~= first + rest.take(0));
    }
    while i < parts.len()
        invariant
            i <= parts.len(),
            split == text::split(card.value@, '\n'),
            text::parts_view(parts@) == split,
            rest == split.map_values(|part: Seq<char>| value_line(part, card.tone)),
            piece::page(lines@) == first + rest.take(i as int),
        decreases parts.len() - i,
    {
        let mut shown: String = " ".to_owned();
        shown.append(text::string_of(&parts[i]).as_str());
        proof {
            assert(text::parts_view(parts@)[i as int] == parts@[i as int]@);
            assert(rest.take(i + 1) =~= rest.take(i as int).push(
                value_line(split[i as int], card.tone),
            ));
        }
        lines.push(piece::single(Piece::bold(shown, card.tone)));
        proof {
            assert(piece::page(lines@) =~= first + rest.take(i + 1));
        }
        i = i + 1;
    }
    proof {
        assert(rest.take(i as int) =~= rest);
    }
    lines
}

/// The line with the seed.
pub open spec fn seed_marks(seed: Seq<char>) -> Seq<Mark> {
    seq![
        piece::plain("seed "@, Tone::Dim),
        piece::plain(dials::seed_text(seed), Tone::White),
    ]
}

pub fn seed_line(seed: String) -> (line: Vec<Piece>)
    ensures
        piece::marks(line@) == seed_marks(seed@),
{
    let mut line: Vec<Piece> = Vec::new();
    line.push(Piece::plain("seed ".to_owned(), Tone::Dim));
    line.push(Piece::plain(dials::seed_or_dash(seed), Tone::White));
    proof {
        assert(piece::marks(line@) =~= seed_marks(seed@));
    }
    line
}

/// The rows: the grid of cards, and the seed.
pub open spec fn stats_rows() -> Seq<Extent> {
    seq![Extent::Min(12), Extent::Length(2)]
}

/// Cards in their cells, each a frame with its lines inside.
pub open spec fn card_paints(cells: Seq<Area>, cards: Seq<CardFace>) -> Seq<PaintMark>
    decreases cards.len(),
{
    if cards.len() == 0 {
        seq![]
    } else {
        let last = cards.len() - 1;
        card_paints(cells, cards.drop_last()) + seq![
            paint::plain_frame(cells[last]),
            paint::text_page(layout::inside(cells[last]), card_page(cards[last]), Align::Left),
        ]
    }
}

/// The page with its cards in the cells given, and the seed below them.
pub open spec fn stats_paints(
    area: Area,
    cells: Seq<Area>,
    info: Area,
    r: Readings,
    seed: Seq<char>,
) -> Seq<PaintMark> {
    seq![paint::titled_frame(area, piece::plain(title_text(r.gpu_name), Tone::White))]
        + card_paints(cells, card_faces(r)) + seq![
        paint::text_line(info, seed_marks(seed), Align::Center),
    ]
}

/// The page, in a grid that the inside of its frame was cut into.
pub open spec fn are_stats(area: Area, r: Readings, seed: Seq<char>, paints: Seq<PaintMark>) -> bool {
    exists|parts: Seq<Area>, rows: Seq<Area>, cells: Seq<Area>|
        {
            &&& #[trigger] layout::is_split(
                layout::inside(area),
                Axis::Vertical,
                stats_rows(),
                parts,
            )
            &&& layout::is_split(parts[0], Axis::Vertical, layout::thirds(), rows)
            &&& #[trigger] layout::is_grid(rows, cells)
            &&& paints == stats_paints(area, cells, parts[1], r, seed)
        }
}

/// The page, with its cards in the cells given.
pub fn paint_stats(area: Area, cells: &Vec<Area>, info: Area, r: &Readings, seed: String) -> (paints:
    Vec<Paint>)
    requires
        cells.len() == 9,
        forall|i: int| 0 <= i < 9 ==> (#[trigger] cells[i]).fits(),
        r.is_valid(),
    ensures
        paint::marks(paints@) == stats_paints(area, cells@, info, *r, seed@),
{
    let title: Piece = Piece::plain(stats_title(&r.gpu_name), Tone::White);
    let ghost head = paint::titled_frame(area, title.mark());
    let mut paints: Vec<Paint> = Vec::new();
    paints.push(paint::frame_with_title(area, title));
    let cards: Vec<Card> = stat_cards(r);
    let ghost all = card_faces(*r);
    let mut i: usize = 0;
    proof {
        assert(faces(cards@).len() == cards@.len());
        assert(paint::marks(paints@) =~= seq![head] + card_paints(cells@, all.take(0)));
    }
    while i < 9
        invariant
            i <= 9,
            cells.len() == 9,
            forall|i: int| 0 <= i < 9 ==> (#[trigger] cells[i]).fits(),
            all.len() == 9,
            cards.len() == 9,
            faces(cards@) == all,
            paint::marks(paints@) == seq![head] + card_paints(cells@, all.take(i as int)),
        decreases 9 - i,
    {
        let cell: Area = cells[i];
        proof {
            assert(all.take(i + 1).drop_last() =~= all.take(i as int));
            assert(faces(cards@)[i as int] == cards@[i as int].face());
        }
        paints.push(paint::frame(cell));
        paints.push(
            paint::page_of_text(layout::frame_inner(cell), stat_card(&cards[i]), Align::Left),
        );
        proof {
            assert(paint::marks(paints@) =~= seq![head] + card_paints(cells@, all.take(i + 1)));
        }
        i = i + 1;
    }
    paints.push(paint::line_of_text(info, seed_line(seed), Align::Center));
    proof {
        assert(all.take(9) =~= all);
        assert(paint::marks(paints@) =~= stats_paints(area, cells@, info, *r, seed@));
    }
    paints
}

pub fn draw_stats(area: Area, r: &Readings, seed: String) -> (paints: Vec<Paint>)
    requires
        area.fits(),
        r.is_valid(),
    ensures
        are_stats(area, *r, seed@, paint::marks(paints@)),
{
    let mut extents: Vec<Extent> = Vec::new();
    extents.push(Extent::Min(12));
    extents.push(Extent::Length(2));
    proof {
        assert(extents@ =~= stats_rows());
    }
    let inner: Area = layout::frame_inner(area);
    let parts: Vec<Area> = layout::split(inner, Axis::Vertical, &extents);
    let cells: Vec<Area> = layout::nine_cells(parts[0]);
    paint_stats(area, &cells, parts[1], r, seed)
}

/// Law: the average rate is the shuffles of the session over the seconds since
/// the start, but for one part in 2 to the power of 49, and nothing in the first
/// second.
pub proof fn law_average_rate_is_shuffles_over_seconds(session: u64, uptime_secs: u64, q: Double)
    requires
        call_ensures(average_rate, (session, uptime_secs), q),
    ensures
        uptime_secs == 0 ==> q.num() == 0,
        uptime_secs > 0 ==> ({
            let off = q.num() * uptime_secs - session * q.den();
            &&& q.den() > 0
            &&& -(session * q.den()) <= 0x2_0000_0000_0000 * off <= session * q.den()
        }),
{
    if uptime_secs > 0 {
        let s = session as nat;
        let t = uptime_secs as nat;
        let a = double::of_integer(s).num();
        let b = double::of_integer(t).num();
        double::law_integers_are_nearly_doubles(s);
        double::law_integers_are_nearly_doubles(t);
        double::lemma_exp2_is_pow(1200);
        double::lemma_exp2_values();
        double::lemma_exp2_add(64, 12);
        double::lemma_exp2_bound(76, 1200);
        double::lemma_quotient_is_close(a, b);
        lemma_three_roundings(
            s as int,
            t as int,
            a as int,
            b as int,
            q.num() as int,
            q.den() as int,
        );
    }
}

/// What three roundings of one part in 2 to the power of 53 amount to.
proof fn lemma_three_roundings(s: int, t: int, a: int, b: int, n: int, d: int)
    requires
        0 <= s,
        0 < t,
        0 < b,
        0 <= a,
        0 < d,
        0 <= n,
        -s <= 0x20_0000_0000_0000 * (a - s) <= s,
        -t <= 0x20_0000_0000_0000 * (b - t) <= t,
        -(a * d) <= 0x20_0000_0000_0000 * (n * b - a * d) <= a * d,
    ensures
        -(s * d) <= 0x2_0000_0000_0000 * (n * t - s * d) <= s * d,
{
    let nb = n * b;
    let nt = n * t;
    let ad = a * d;
    let sd = s * d;
    assert(-nt <= 0x20_0000_0000_0000 * (nb - nt) <= nt) by (nonlinear_arith)
        requires
            -t <= 0x20_0000_0000_0000 * (b - t) <= t,
            nb == n * b,
            nt == n * t,
            n >= 0,
    ;
    assert(-sd <= 0x20_0000_0000_0000 * (ad - sd) <= sd) by (nonlinear_arith)
        requires
            -s <= 0x20_0000_0000_0000 * (a - s) <= s,
            ad == a * d,
            sd == s * d,
            d > 0,
    ;
    assert(sd >= 0 && nt >= 0) by (nonlinear_arith)
        requires
            sd == s * d,
            nt == n * t,
            s >= 0,
            d > 0,
            n >= 0,
            t > 0,
    ;
}

proof fn lemma_faces(cards: Vec<Card>, r: Readings, i: int)
    requires
        faces(cards@) == card_faces(r),
        0 <= i < 9,
    ensures
        cards@.len() == 9,
        cards@[i].label@ == card_faces(r)[i].label,
        cards@[i].value@ == card_faces(r)[i].value,
        cards@[i].tone == card_faces(r)[i].tone,
{
    assert(faces(cards@).len() == cards@.len());
    assert(faces(cards@)[i] == cards@[i].face());
}

/// Law: the first cards show the run: its rate now and on average, the shuffles
/// of the session over those of the lifetime, both bests in the tone of the
/// better one, and the uptime.
pub proof fn law_cards_show_the_run(
    r: Readings,
    cards: Vec<Card>,
    rate: String,
    average: Double,
    average_text: String,
    session: String,
    lifetime: String,
    best: String,
    all_best: String,
    uptime: String,
)
    requires
        call_ensures(stat_cards, (&r,), cards),
        r.is_valid(),
        call_ensures(figures::fmt_rate, (r.rate,), rate),
        call_ensures(average_rate, (r.session, r.uptime_secs), average),
        call_ensures(figures::fmt_double_rate, (average,), average_text),
        call_ensures(figures::fmt_count, (r.session,), session),
        call_ensures(figures::fmt_count, (r.lifetime,), lifetime),
        call_ensures(figures::fmt_score, (r.session_best,), best),
        call_ensures(figures::fmt_score, (r.all_best,), all_best),
        call_ensures(figures::fmt_uptime, (r.uptime_secs,), uptime),
    ensures
        cards@.len() == 9,
        cards@[0].label@ == "live throughput"@ && cards@[0].value@ == rate@ && cards@[0].tone
            == Tone::Accent,
        cards@[1].label@ == "session avg rate"@ && cards@[1].value@ == average_text@
            && cards@[1].tone == Tone::Accent,
        cards@[2].label@ == "shuffles (session / lifetime)"@ && cards@[2].value@ == session@ + "\n"@
            + lifetime@ && cards@[2].tone == Tone::White,
        cards@[3].label@ == "session best / all-time"@ && cards@[3].value@ == best@ + " / "@
            + all_best@,
        cards@[3].tone == Tone::Correct <==> r.session_best >= 20 || r.all_best >= 20,
        cards@[3].tone == Tone::Dim <==> r.session_best < 0 && r.all_best < 0,
        cards@[3].tone == Tone::Wrong <==> (r.session_best >= 0 || r.all_best >= 0)
            && r.session_best < 12 && r.all_best < 12,
        cards@[3].tone == Tone::Accent <==> (r.session_best >= 12 || r.all_best >= 12)
            && r.session_best < 20 && r.all_best < 20,
        cards@[5].label@ == "uptime"@ && cards@[5].value@ == uptime@ && cards@[5].tone
            == Tone::White,
{
    lemma_faces(cards, r, 0);
    lemma_faces(cards, r, 1);
    lemma_faces(cards, r, 2);
    lemma_faces(cards, r, 3);
    lemma_faces(cards, r, 5);
}

/// Law: the card of the recent scores shows their average to the nearest tenth,
/// in the tone of the average to the nearest point, or a dash where there is no
/// score.
pub proof fn law_card_shows_the_recent_average(
    r: Readings,
    cards: Vec<Card>,
    average: Option<Double>,
)
    requires
        call_ensures(stat_cards, (&r,), cards),
        r.is_valid(),
        r.history@.len() < 0x20_0000_0000_0000,
        call_ensures(history::average, (&r.history,), average),
    ensures
        cards@.len() == 9,
        cards@[4].label@ == "avg of recent ticks"@,
        average is None ==> cards@[4].value@ == "- / 25"@ && cards@[4].tone == Tone::Dim,
        average matches Some(q) ==> {
            &&& exists|u: nat|
                double::nearly(u, 10, history::total(r.history@), history::reported(r.history@))
                    && cards@[4].value@ == #[trigger] double::fixed_point(u, 1) + " / 25"@
            &&& cards@[4].tone == Tone::Correct <==> 2 * q.num() >= 39 * q.den()
            &&& cards@[4].tone == Tone::Accent <==> 23 * q.den() <= 2 * q.num() < 39 * q.den()
            &&& cards@[4].tone == Tone::Wrong <==> 2 * q.num() < 23 * q.den()
        },
{
    lemma_faces(cards, r, 4);
    history::lemma_reported_bound(r.history@);
    if let Some(q) = average {
        let u = history::lemma_average_printed(r.history@);
        double::law_double_is_mantissa_over_power(q);
        double::law_rounding_up_from_the_middle(q.num(), q.den());
        let w = q.rounded() as int;
        let d = q.den() as int;
        let n = q.num() as int;
        assert(w >= 20 <==> 2 * n >= 39 * d) by (nonlinear_arith)
            requires
                -d < 2 * (w * d - n) <= d,
                d > 0,
        ;
        assert(w >= 12 <==> 2 * n >= 23 * d) by (nonlinear_arith)
            requires
                -d < 2 * (w * d - n) <= d,
                d > 0,
        ;
    }
}

/// Law: the last cards show the machine: the load and the memory of the host, and
/// the load, the temperature and the memory of the GPU where there is one that
/// tells them.
pub proof fn law_cards_show_the_machine(
    r: Readings,
    cards: Vec<Card>,
    used: String,
    total: String,
    host: Tone,
    gpu: Tone,
)
    requires
        call_ensures(stat_cards, (&r,), cards),
        r.is_valid(),
        call_ensures(figures::fmt_bytes, (r.mem_used,), used),
        call_ensures(figures::fmt_bytes, (r.mem_total,), total),
        call_ensures(palette::load_color, (r.cpu_pct,), host),
        call_ensures(palette::percent_color, (r.gpu_util,), gpu),
    ensures
        cards@.len() == 9,
        cards@[6].label@ == "host cpu / ram"@,
        cards@[6].value@ == r.cpu_pct.text(0) + "% cpu\n"@ + used@ + " / "@ + total@ + " ram"@,
        cards@[6].tone == host,
        cards@[7].label@ == "gpu load"@,
        r.gpu_name is Some && r.gpu_util >= 0 ==> cards@[7].value@ == text::decimal(
            r.gpu_util as nat,
        ) + "% util\n"@ + text::signed(r.gpu_temp as int) + "C"@ && cards@[7].tone == gpu,
        r.gpu_name is Some && r.gpu_util < 0 ==> cards@[7].value@ == "n/a"@ && cards@[7].tone
            == Tone::Dim,
        r.gpu_name is None ==> cards@[7].value@
            == "no telemetry\n(nvidia-smi or rocm-smi not found)"@ && cards@[7].tone == Tone::Dim,
        cards@[8].label@ == "gpu memory"@,
        r.gpu_name is Some && r.gpu_mem_total > 0 ==> cards@[8].value@ == text::decimal(
            r.gpu_mem_used as nat,
        ) + " / "@ + text::decimal(r.gpu_mem_total as nat) + " MB"@ && cards@[8].tone
            == Tone::White,
        r.gpu_name is None || r.gpu_mem_total == 0 ==> cards@[8].value@ == "n/a"@ && cards@[8].tone
            == Tone::Dim,
{
    lemma_faces(cards, r, 6);
    lemma_faces(cards, r, 7);
    lemma_faces(cards, r, 8);
}

/// Law: the title names the GPU where there is one.
pub proof fn law_title_names_the_gpu(gpu_name: Option<String>, r: String)
    requires
        call_ensures(stats_title, (&gpu_name,), r),
    ensures
        gpu_name matches Some(name) ==> r@ == " performance - "@ + name@ + " "@,
        gpu_name is None ==> r@ == " performance "@,
{
}

/// Law: a card has its label on the first line, a blank line, and then its value,
/// one line for each part between line feeds, in its tone.
pub proof fn law_card_stacks_its_value(card: Card, lines: Vec<Vec<Piece>>, i: int)
    requires
        call_ensures(stat_card, (&card,), lines),
        0 <= i < text::split(card.value@, '\n').len(),
    ensures
        lines@.len() == 2 + text::split(card.value@, '\n').len(),
        lines@[0]@.len() == 1 && lines@[0]@[0].text@ == " "@ + card.label@ && lines@[0]@[0].tone
            == Some(Tone::Dim),
        lines@[1]@.len() == 1 && lines@[1]@[0].text@ == ""@,
        lines@[2 + i]@.len() == 1,
        lines@[2 + i]@[0].text@ == " "@ + text::split(card.value@, '\n')[i],
        lines@[2 + i]@[0].tone == Some(card.tone),
        lines@[2 + i]@[0].bold,
{
    let whole = piece::page(lines@);
    let parts = text::split(card.value@, '\n');
    let rest = parts.map_values(|part: Seq<char>| value_line(part, card.tone));
    assert(rest.len() == parts.len());
    assert(whole.len() == 2 + parts.len());
    assert(whole[0] == piece::marks(lines@[0]@) && whole[0].len() == 1);
    assert(whole[0][0] == lines@[0]@[0].mark());
    assert(whole[1] == piece::marks(lines@[1]@) && whole[1].len() == 1);
    assert(whole[1][0] == lines@[1]@[0].mark());
    assert(whole[2 + i] == piece::marks(lines@[2 + i]@));
    assert(rest[i] == value_line(parts[i], card.tone));
    assert(whole[2 + i] == rest[i]);
    assert(whole[2 + i].len() == 1);
    assert(whole[2 + i][0] == lines@[2 + i]@[0].mark());
}

/// Law: the seed stands after its label, and a dash where there is none.
pub proof fn law_seed_line_shows_the_seed(seed: String, line: Vec<Piece>)
    requires
        call_ensures(seed_line, (seed,), line),
    ensures
        line@.len() == 2,
        line@[0].text@ == "seed "@,
        seed@.len() > 0 ==> line@[1].text@ == seed@,
        seed@.len() == 0 ==> line@[1].text@ == "-"@,
{
    let whole = piece::marks(line@);
    assert(whole.len() == 2);
    assert(whole[0] == line@[0].mark());
    assert(whole[1] == line@[1].mark());
}

proof fn lemma_card_paints(cells: Seq<Area>, cards: Seq<CardFace>, i: int)
    requires
        0 <= i < cards.len(),
    ensures
        card_paints(cells, cards).len() == 2 * cards.len(),
        card_paints(cells, cards)[2 * i] == paint::plain_frame(cells[i]),
        card_paints(cells, cards)[2 * i + 1] == paint::text_page(
            layout::inside(cells[i]),
            card_page(cards[i]),
            Align::Left,
        ),
    decreases cards.len(),
{
    let init = cards.drop_last();
    if init.len() > 0 {
        lemma_card_paints(cells, init, if i < init.len() {
            i
        } else {
            0
        });
    } else {
        assert(card_paints(cells, init) =~= Seq::<PaintMark>::empty());
    }
}

/// Law: card `i` stands in cell `i`, inside a frame of its own, and the seed
/// below all of them.
pub proof fn law_cards_stand_in_their_cells(
    area: Area,
    cells: Vec<Area>,
    info: Area,
    r: Readings,
    seed: String,
    paints: Vec<Paint>,
    cards: Vec<Card>,
    page: Vec<Vec<Piece>>,
    line: Vec<Piece>,
    i: int,
)
    requires
        call_ensures(paint_stats, (area, &cells, info, &r, seed), paints),
        cells@.len() == 9,
        r.is_valid(),
        0 <= i < 9,
        cells@[i].width >= 2,
        cells@[i].height >= 2,
        cells@[i].fits(),
        call_ensures(stat_cards, (&r,), cards),
        call_ensures(stat_card, (&cards@[i],), page),
        call_ensures(seed_line, (seed,), line),
    ensures
        paints@.len() == 20,
        paints@[0].area == area,
        paints@[1 + 2 * i].area == cells@[i] && paints@[1 + 2 * i].widget == Widget::Frame(None),
        paints@[2 + 2 * i].area == (Area {
            x: (cells@[i].x + 1) as u16,
            y: (cells@[i].y + 1) as u16,
            width: (cells@[i].width - 2) as u16,
            height: (cells@[i].height - 2) as u16,
        }),
        paints@[2 + 2 * i].widget matches Widget::Text(lines, align) && align == Align::Left
            && piece::page(lines@) == piece::page(page@),
        paints@[19].area == info,
        paints@[19].widget matches Widget::Text(lines, align) && align == Align::Center
            && lines@.len() == 1 && piece::marks(lines@[0]@) == piece::marks(line@),
{
    let whole = paint::marks(paints@);
    let all = card_faces(r);
    lemma_card_paints(cells@, all, i);
    lemma_faces(cards, r, i);
    assert(cards@[i].face() == all[i]);
    assert(whole.len() == 20);
    assert(whole[0] == paints@[0].mark());
    assert(whole[1 + 2 * i] == paints@[1 + 2 * i].mark());
    assert(whole[1 + 2 * i] == card_paints(cells@, all)[2 * i]);
    assert(whole[2 + 2 * i] == paints@[2 + 2 * i].mark());
    assert(whole[2 + 2 * i] == card_paints(cells@, all)[2 * i + 1]);
    assert(whole[19] == paints@[19].mark());
    if let Widget::Text(lines, align) = paints@[19].widget {
        assert(piece::page(lines@).len() == 1);
        assert(piece::page(lines@)[0] == piece::marks(lines@[0]@));
    }
}

/// Law: where there is room, the seed has the last two rows and the cards have
/// the rest above it.
pub proof fn law_cards_stand_over_the_seed(inner: Area, parts: Seq<Area>)
    requires
        layout::is_split(inner, Axis::Vertical, stats_rows(), parts),
        inner.height >= 14,
    ensures
        parts.len() == 2,
        parts[0].y == inner.y && parts[0].height == inner.height - 2,
        parts[1].y == inner.y + inner.height - 2 && parts[1].height == 2,
        forall|i: int|
            0 <= i < 2 ==> (#[trigger] parts[i]).x == inner.x && parts[i].width == inner.width,
{
    let extents = stats_rows();
    reveal_with_fuel(layout::least_of, 3);
    assert(extents.drop_last() =~= seq![Extent::Min(12)]);
    assert(layout::has_room(extents, 0, inner.height as int));
    assert(parts[0].is_level(inner, Axis::Vertical));
    assert(parts[1].start(Axis::Vertical) == parts[0].start(Axis::Vertical) + parts[0].size(
        Axis::Vertical,
    ));
}

/// Law: the page is drawn in a grid of three rows with three cells each over the
/// seed, all inside its frame.
pub proof fn law_page_is_a_grid_over_the_seed(
    area: Area,
    r: Readings,
    seed: String,
    paints: Vec<Paint>,
    extents: Seq<Extent>,
)
    requires
        call_ensures(draw_stats, (area, &r, seed), paints),
        extents == seq![Extent::Min(12), Extent::Length(2)],
    ensures
        exists|parts: Seq<Area>, rows: Seq<Area>, cells: Seq<Area>|
            {
                &&& #[trigger] layout::is_split(
                    layout::inside(area),
                    Axis::Vertical,
                    extents,
                    parts,
                )
                &&& layout::is_split(parts[0], Axis::Vertical, layout::thirds(), rows)
                &&& #[trigger] layout::is_grid(rows, cells)
                &&& paint::marks(paints@) == stats_paints(area, cells, parts[1], r, seed@)
            },
{
}

} // verus!
