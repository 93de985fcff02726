use bogoforge::float::Float;
use bogoforge::tui::board::{
    bar_width, board_title, build_ascii_bars, build_value_labels, draw_board, legend_line,
    paint_chart,
};
use bogoforge::tui::dials::{draw_dials, figure_lines, gauge, trend_line, Figures};
use bogoforge::tui::history::average;
use bogoforge::tui::layout::{centered_row, nine_cells, Area};
use bogoforge::tui::masthead::{badge_line, draw_masthead, title_line};
use bogoforge::tui::paint::{Align, Paint, Widget};
use bogoforge::tui::palette::Tone;
use bogoforge::tui::piece::Piece;
use bogoforge::tui::scene::{draw, Scene};
use bogoforge::tui::screen::{
    Key, KeyEdge, KeyName, ScreenCall, ScreenEvent, ScreenLoop, Wish,
};
use bogoforge::tui::stats::{
    average_rate, draw_stats, seed_line, stat_card, stat_cards, stats_title, Card, Readings,
};
use bogoforge::tui::ticker::{draw_ticker, ticker_line};
use bogoforge::tui::view::View;

const SORTED: [u8; 25] = [
    1, 2, 3, 4, 5, 6, 7, 8, 9, 10, 11, 12, 13, 14, 15, 16, 17, 18, 19, 20, 21, 22, 23, 24, 25,
];

fn text(line: &[Piece]) -> String {
    line.iter().map(|p| p.text.as_str()).collect()
}

fn styles(line: &[Piece]) -> Vec<(String, Option<Tone>, bool)> {
    line.iter().map(|p| (p.text.clone(), p.tone, p.bold)).collect()
}

#[test]
fn views_toggle() {
    assert_eq!(View::Board.toggled(), View::Stats);
    assert_eq!(View::Stats.toggled(), View::Board);
    assert_eq!(View::Board.toggled().toggled(), View::Board);
    assert_eq!(View::Board.hint(), "p/tab: performance view");
    assert_eq!(View::Stats.hint(), "p/tab: board view");
}

#[test]
fn masthead_shows_status_and_badge() {
    let line = title_line("connected".to_string(), View::Board);
    assert_eq!(
        text(&line),
        ":: BOGOFORGE  shuffle furnace  [connected]  (p/tab: performance view)"
    );
    assert_eq!(line[1].tone, Some(Tone::White));
    assert!(line[1].bold);
    assert_eq!(line[4].tone, Some(Tone::Accent));
    assert_eq!(
        styles(&badge_line(21)),
        vec![
            ("21".to_string(), Some(Tone::Correct), true),
            ("/25 latest ".to_string(), Some(Tone::Dim), false),
            ("#".to_string(), Some(Tone::Correct), false),
        ]
    );
    assert_eq!(
        styles(&badge_line(-1)),
        vec![("warming up .".to_string(), Some(Tone::Dim), false)]
    );
}

#[test]
fn board_titles() {
    assert_eq!(board_title(7), " board - 7 of 25 seated correctly ");
    assert_eq!(board_title(-1), " board - awaiting first result ");
}

#[test]
fn bars_share_the_width() {
    for (width, expected) in [(0u16, 1usize), (24, 1), (48, 1), (49, 1), (73, 1), (74, 2), (99, 3), (65535, 2620)] {
        assert_eq!(bar_width(width), expected);
        assert_eq!(((width as usize).saturating_sub(24) / 25).max(1), expected);
        if width >= 49 {
            assert!(25 * expected + 24 <= width as usize);
        }
    }
}

#[test]
fn labels_stand_over_the_bars() {
    let line = build_value_labels(&SORTED, 3);
    assert_eq!(line.len(), 49);
    assert_eq!(line[0].text, "  1");
    assert_eq!(line[1].text, " ");
    assert_eq!(line[1].tone, None);
    assert_eq!(line[48].text, " 25");
    assert_eq!(line[48].tone, Some(Tone::Correct));
    let line = build_value_labels(&SORTED, 1);
    assert_eq!(line[0].text, "1");
    assert_eq!(line[18].text, "0");
    assert_eq!(line[48].text, "5");
    let line = build_value_labels(&[200u8; 25], 2);
    assert_eq!(line[0].text, "200");
    assert_eq!(line[0].tone, Some(Tone::Wrong));
    for width in 0..6usize {
        let w = width.max(1);
        let expected: Vec<String> = SORTED
            .iter()
            .map(|v| if w >= 2 { format!("{v:>w$}") } else { format!("{}", v % 10) })
            .collect();
        let labels = text(&build_value_labels(&SORTED, width));
        assert_eq!(labels, expected.join(" "));
        assert_eq!(labels.len(), text(&build_ascii_bars(&SORTED, 3, width)[0]).len());
    }
}

#[test]
fn bars_are_as_high_as_their_values() {
    let mut arr = SORTED;
    arr.swap(0, 24);
    for rows in [0usize, 1, 2, 5, 6, 17, 40] {
        for width in [0usize, 1, 3] {
            let lines = build_ascii_bars(&arr, rows, width);
            let n = rows.max(1);
            assert_eq!(lines.len(), n);
            for (r, line) in lines.iter().enumerate() {
                assert_eq!(line.len(), 49);
                for i in 0..25 {
                    let filled = ((arr[i] as usize).min(25) * n * 2 + 25) / 50;
                    let ch = if n - 1 - r < filled { "#" } else { " " };
                    assert_eq!(line[2 * i].text, ch.repeat(width.max(1)));
                    assert!(line[2 * i].bold);
                    let right = arr[i] as usize == i + 1;
                    let tone = if right { Tone::Correct } else { Tone::Wrong };
                    assert_eq!(line[2 * i].tone, Some(tone));
                    if i < 24 {
                        assert_eq!(line[2 * i + 1].text, " ");
                    }
                }
            }
        }
    }
    // The bar for 25 is full and the one for 1 is empty, three rows high.
    let lines = build_ascii_bars(&SORTED, 3, 1);
    assert_eq!(lines[0][48].text, "#");
    assert_eq!(lines[2][0].text, " ");
    // A value too large counts as 25.
    let lines = build_ascii_bars(&[255u8; 25], 4, 1);
    assert!(lines.iter().all(|l| text(l) == "# ".repeat(24) + "#"));
}

fn at(x: u16, y: u16, width: u16, height: u16) -> Area {
    Area { x, y, width, height }
}

/// A widget in one line: what it is, where, and what it says.
fn shown(p: &Paint) -> (Area, String) {
    let what = match &p.widget {
        Widget::Frame(None) => "frame".to_string(),
        Widget::Frame(Some(title)) => format!("frame {:?}", title.text),
        Widget::Text(lines, align) => {
            let lines: Vec<String> = lines.iter().map(|l| text(l)).collect();
            format!("{align:?} {}", lines.join("/"))
        }
        Widget::Gauge(title, dial) => format!("gauge {:?} {} {}", title.text, dial.filled, dial.label),
    };
    (p.area, what)
}

fn all_shown(paints: &[Paint]) -> Vec<(Area, String)> {
    paints.iter().map(shown).collect()
}

fn areas(paints: &[Paint]) -> Vec<Area> {
    paints.iter().map(|p| p.area).collect()
}

#[test]
fn boards_wait_for_a_score() {
    let paints = draw_board(at(0, 3, 88, 34), &SORTED, -1);
    assert_eq!(
        all_shown(&paints),
        vec![
            (at(0, 3, 88, 34), "frame \" board - awaiting first result \"".to_string()),
            (
                at(1, 20, 86, 1),
                "Center the furnace hasn't reported a shuffle yet...".to_string()
            ),
        ]
    );
    let paints = draw_board(at(0, 3, 88, 34), &SORTED, 25);
    assert_eq!(
        areas(&paints),
        vec![at(0, 3, 88, 34), at(1, 4, 86, 1), at(1, 5, 86, 30), at(1, 35, 86, 1)]
    );
    match &paints[2].widget {
        Widget::Text(lines, Align::Center) => {
            let expected = build_ascii_bars(&SORTED, 30, 2);
            assert_eq!(lines.len(), 30);
            for (a, b) in lines.iter().zip(&expected) {
                assert_eq!(styles(a), styles(b));
            }
        }
        other => panic!("{other:?}"),
    }
    assert_eq!(shown(&paints[1]).1, format!("Center {}", text(&build_value_labels(&SORTED, 2))));
    assert_eq!(shown(&paints[3]).1, format!("Center {}", text(&legend_line())));
    assert_eq!(
        text(&legend_line()),
        "# seated correctly      # out of place      (bar height = seated value, slots 1-25 left to right)"
    );
}

/// The bars follow the rows they are given, however the inside was cut up.
#[test]
fn charts_take_any_rows() {
    let rows = vec![at(1, 1, 50, 2), at(1, 3, 50, 1), at(9, 9, 0, 0)];
    let paints = paint_chart(at(0, 0, 52, 9), &rows, &SORTED, 3);
    assert_eq!(areas(&paints)[1..], rows[..]);
    assert_eq!(shown(&paints[2]).1, format!("Center {}", text(&build_ascii_bars(&SORTED, 1, 1)[0])));
}

fn scene() -> Scene {
    Scene {
        status: "ok".to_string(),
        seed: "42".to_string(),
        last_best: 7,
        last_arr: SORTED,
        readings: readings(),
    }
}

#[test]
fn screens_are_laid_out() {
    let paints = draw(at(0, 0, 120, 40), &scene(), View::Board);
    assert_eq!(
        areas(&paints),
        vec![
            // the masthead
            at(0, 0, 120, 3),
            at(1, 1, 84, 1),
            at(85, 1, 34, 1),
            // the board
            at(0, 3, 88, 34),
            at(1, 4, 86, 1),
            at(1, 5, 86, 30),
            at(1, 35, 86, 1),
            // the dials
            at(88, 3, 32, 4),
            at(88, 7, 32, 6),
            at(89, 10, 30, 1),
            at(88, 13, 32, 24),
            at(89, 14, 30, 22),
            // the ticker
            at(0, 37, 120, 3),
            at(1, 38, 118, 1),
        ]
    );
    let says = all_shown(&paints);
    assert_eq!(says[1].1, "Left :: BOGOFORGE  shuffle furnace  [ok]  (p/tab: performance view)");
    assert_eq!(says[2].1, "Right 7/25 latest #");
    assert_eq!(says[3].1, "frame \" board - 7 of 25 seated correctly \"");
    assert_eq!(says[7].1, "gauge \" closeness to a clean board \" 7 7/25");
    assert_eq!(says[8].1, "frame \" recent trend \"");
    assert_eq!(says[9].1, "Center ...");
    assert!(says[11].1.starts_with("Left uptime/1h 0m 0s//throughput/1.50M/s//"));
    assert_eq!(says[13].1, "Left  history >> 4 | 5 | -   running avg 4.5");
}

#[test]
fn cards_stand_in_a_grid() {
    let paints = draw(at(0, 0, 120, 40), &scene(), View::Stats);
    let body = &paints[3..paints.len() - 2];
    assert_eq!(body.len(), 1 + 18 + 1);
    assert_eq!(shown(&body[0]), (at(0, 3, 120, 34), "frame \" performance - Radeon \"".to_string()));
    let cells = [
        at(1, 4, 39, 10),
        at(40, 4, 40, 10),
        at(80, 4, 39, 10),
        at(1, 14, 39, 10),
        at(40, 14, 40, 10),
        at(80, 14, 39, 10),
        at(1, 24, 39, 10),
        at(40, 24, 40, 10),
        at(80, 24, 39, 10),
    ];
    for (i, cell) in cells.iter().enumerate() {
        assert_eq!(shown(&body[1 + 2 * i]), (*cell, "frame".to_string()));
        let inner = at(cell.x + 1, cell.y + 1, cell.width - 2, cell.height - 2);
        assert_eq!(body[2 + 2 * i].area, inner);
    }
    assert_eq!(shown(&body[16]).1, "Left  gpu load// 97% util/ -3C");
    assert_eq!(shown(&body[19]), (at(1, 34, 118, 2), "Center seed 42".to_string()));
    let alone = draw_stats(at(0, 3, 120, 34), &readings(), "42".to_string());
    assert_eq!(all_shown(&alone), all_shown(body));
}

/// Thirds end at the nearest cell, whatever there is to share.
#[test]
fn thirds_are_rounded() {
    for width in (0..200u16).chain([999, 1000, 1001, 21845, 32767, 32768, 65529, 65530]) {
        let cells = nine_cells(at(5, 7, width, 30));
        assert_eq!(cells.len(), 9);
        for r in 0..3u16 {
            for c in 0..3u16 {
                let cell = cells[(3 * r + c) as usize];
                let cut = |i: u16| ((i as f64) * (width as f64) / 3.0).round() as u16;
                assert_eq!(cell, at(5 + cut(c), 7 + 10 * r, cut(c + 1) - cut(c), 10));
            }
        }
    }
}

/// Where there is room, fixed parts have their length and the other has the
/// rest; elsewhere every part still lies in the area.
#[test]
fn parts_lie_in_their_area() {
    for height in 0..60u16 {
        for y in [0u16, 9] {
            let paints = draw_dials(at(4, y, 32, height), 3, &vec![1], figures());
            let rows = [paints[0].area, paints[1].area, paints[3].area];
            for row in rows {
                assert_eq!((row.x, row.width), (4, 32));
                assert!(row.y >= y && row.y + row.height <= y + height);
            }
            if height >= 20 {
                assert_eq!(
                    rows,
                    [at(4, y, 32, 4), at(4, y + 4, 32, 6), at(4, y + 10, 32, height - 10)]
                );
            }
        }
    }
    for width in 0..200u16 {
        let paints = draw_masthead(at(0, 0, width, 3), "x".to_string(), 1, View::Stats);
        let inner = width.saturating_sub(2);
        for p in &paints[1..] {
            assert!(p.area.x + p.area.width <= width);
            assert_eq!((p.area.y, p.area.height), (1, 1));
        }
        if inner >= 54 {
            assert_eq!(paints[1].area, at(1, 1, inner - 34, 1));
            assert_eq!(paints[2].area, at(1 + inner - 34, 1, 34, 1));
        }
    }
}

/// A frame takes what cells there are.
#[test]
fn frames_take_one_cell_on_each_side() {
    for (area, inner) in [
        (at(3, 5, 10, 4), at(4, 6, 8, 2)),
        (at(3, 5, 2, 2), at(4, 6, 0, 0)),
        (at(3, 5, 1, 1), at(4, 6, 0, 0)),
        (at(3, 5, 0, 0), at(3, 5, 0, 0)),
        (at(65535, 65534, 0, 1), at(65535, 65535, 0, 0)),
    ] {
        let paints = draw_ticker(area, &vec![]);
        assert_eq!(areas(&paints), vec![area, inner]);
    }
}

#[test]
fn small_screens_are_drawn() {
    for width in [0u16, 1, 2, 5, 20, 46, 79] {
        for height in [0u16, 1, 2, 5, 10, 23] {
            for view in [View::Board, View::Stats] {
                let paints = draw(at(0, 0, width, height), &scene(), view);
                assert_eq!(paints.len(), if view == View::Board { 14 } else { 25 });
                for p in paints {
                    assert!(p.area.x + p.area.width <= width);
                }
            }
        }
    }
}

#[test]
fn middle_rows() {
    let area = Area { x: 3, y: 10, width: 20, height: 7 };
    assert_eq!(centered_row(area), Area { x: 3, y: 13, width: 20, height: 1 });
    let area = Area { x: 0, y: 0, width: 1, height: 0 };
    assert_eq!(centered_row(area), Area { x: 0, y: 0, width: 1, height: 1 });
}

#[test]
fn gauges_show_the_score() {
    let g = gauge(13);
    assert_eq!((g.filled, g.label.as_str(), g.tone), (13, "13/25", Tone::Accent));
    let g = gauge(-1);
    assert_eq!((g.filled, g.label.as_str(), g.tone), (0, "-", Tone::Dim));
    let g = gauge(40);
    assert_eq!((g.filled, g.label.as_str(), g.tone), (25, "40/25", Tone::Correct));
}

#[test]
fn trends_have_a_mark_for_each_score() {
    assert_eq!(
        styles(&trend_line(&vec![])),
        vec![("-".to_string(), Some(Tone::Dim), false)]
    );
    assert_eq!(
        styles(&trend_line(&vec![3, -1, 25])),
        vec![
            (".".to_string(), Some(Tone::Wrong), true),
            (".".to_string(), Some(Tone::Dim), true),
            ("@".to_string(), Some(Tone::Correct), true),
        ]
    );
}

fn figures() -> Figures {
    Figures {
        uptime_secs: 61,
        rate: Float { bits: 2_500f64.to_bits() },
        session: 1_000,
        lifetime: 2_000_000,
        all_best: 9,
        seed: String::new(),
    }
}

#[test]
fn figures_are_listed() {
    let lines = figure_lines(figures());
    let texts: Vec<String> = lines.iter().map(|l| text(l)).collect();
    assert_eq!(
        texts,
        [
            "uptime", "0h 1m 1s", "", "throughput", "2.50K/s", "", "session shuffles", "1.0K", "",
            "lifetime shuffles", "2.00M", "", "personal best", "9 / 25", "", "seed", "-",
        ]
    );
    assert_eq!(lines[4][0].tone, Some(Tone::Accent));
    assert_eq!(lines[13][0].tone, Some(Tone::Wrong));
    assert_eq!(lines[16][0].tone, Some(Tone::White));
    assert!(!lines[16][0].bold);
}

#[test]
fn averages_leave_out_what_is_no_score() {
    assert!(average(&vec![]).is_none());
    assert!(average(&vec![-1, -5]).is_none());
    for scores in [vec![1, 2], vec![3, -1, 4], vec![1, 1, 2], vec![25; 40], vec![0], vec![1, 0, 0, 0]] {
        let valid: Vec<i32> = scores.iter().copied().filter(|&v| v >= 0).collect();
        let a = valid.iter().sum::<i32>() as f64 / valid.len() as f64;
        let d = average(&scores).unwrap();
        let mut s = String::new();
        d.push_printed(&mut s, 1);
        assert_eq!(s, format!("{a:.1}"));
        assert_eq!(d.round() as f64, a.round());
    }
}

#[test]
fn ticker_scrolls() {
    assert_eq!(
        text(&ticker_line(&vec![])),
        " quiet so far - the first results will scroll through here "
    );
    let line = ticker_line(&vec![5, -1, 12]);
    assert_eq!(text(&line), " history >> 5 | - | 12   running avg 8.5");
    assert_eq!(
        styles(&line)[2..7],
        [
            ("5".to_string(), Some(Tone::Wrong), true),
            (" | ".to_string(), Some(Tone::Dim), false),
            ("-".to_string(), Some(Tone::Dim), true),
            (" | ".to_string(), Some(Tone::Dim), false),
            ("12".to_string(), Some(Tone::Accent), true),
        ]
    );
    assert_eq!(text(&ticker_line(&vec![-1])), " history >> -   running avg 0.0");
}

fn readings() -> Readings {
    Readings {
        rate: Float { bits: 1_500_000f64.to_bits() },
        session: 7_200_000,
        lifetime: 9_000_000_000,
        session_best: 11,
        all_best: 12,
        uptime_secs: 3_600,
        history: vec![4, 5, -1],
        cpu_pct: Float { bits: 62.5f64.to_bits() },
        mem_used: 3 << 30,
        mem_total: 16 << 30,
        gpu_name: Some("Radeon".to_string()),
        gpu_util: 97,
        gpu_mem_used: 1_024,
        gpu_mem_total: 16_384,
        gpu_temp: -3,
    }
}

fn faces(cards: &[Card]) -> Vec<(String, String, Tone)> {
    cards.iter().map(|c| (c.label.clone(), c.value.clone(), c.tone)).collect()
}

#[test]
fn cards_show_the_readings() {
    let cards = stat_cards(&readings());
    let expected = [
        ("live throughput", "1.50M/s", Tone::Accent),
        ("session avg rate", "2.00K/s", Tone::Accent),
        ("shuffles (session / lifetime)", "7.20M\n9.00B", Tone::White),
        ("session best / all-time", "11 / 12", Tone::Accent),
        ("avg of recent ticks", "4.5 / 25", Tone::Wrong),
        ("uptime", "1h 0m 0s", Tone::White),
        ("host cpu / ram", "62% cpu\n3.0 GB / 16.0 GB ram", Tone::Accent),
        ("gpu load", "97% util\n-3C", Tone::Wrong),
        ("gpu memory", "1024 / 16384 MB", Tone::White),
    ];
    let expected: Vec<(String, String, Tone)> =
        expected.iter().map(|(l, v, t)| (l.to_string(), v.to_string(), *t)).collect();
    assert_eq!(faces(&cards), expected);
}

#[test]
fn cards_without_readings() {
    let mut r = readings();
    r.gpu_util = -1;
    r.gpu_mem_total = 0;
    r.history = vec![];
    r.uptime_secs = 0;
    r.session_best = -1;
    r.all_best = -1;
    let cards = faces(&stat_cards(&r));
    assert_eq!(cards[1].1, "-");
    assert_eq!(cards[3], ("session best / all-time".to_string(), "- / -".to_string(), Tone::Dim));
    assert_eq!(cards[4], ("avg of recent ticks".to_string(), "- / 25".to_string(), Tone::Dim));
    assert_eq!(cards[7], ("gpu load".to_string(), "n/a".to_string(), Tone::Dim));
    assert_eq!(cards[8], ("gpu memory".to_string(), "n/a".to_string(), Tone::Dim));
    r.gpu_name = None;
    r.gpu_util = 50;
    r.gpu_mem_total = 10;
    let cards = faces(&stat_cards(&r));
    assert_eq!(cards[7].1, "no telemetry\n(nvidia-smi or rocm-smi not found)");
    assert_eq!(cards[8].1, "n/a");
    assert_eq!(stats_title(&r.gpu_name), " performance ");
    assert_eq!(stats_title(&Some("A B".to_string())), " performance - A B ");
    let mut s = String::new();
    average_rate(10, 4).push_printed(&mut s, 2);
    assert_eq!(s, "2.50");
}

#[test]
fn cards_stack_their_values() {
    let card = Card { label: "gpu load".to_string(), value: "97% util\n60C".to_string(), tone: Tone::Wrong };
    let lines = stat_card(&card);
    let texts: Vec<String> = lines.iter().map(|l| text(l)).collect();
    assert_eq!(texts, [" gpu load", "", " 97% util", " 60C"]);
    assert_eq!(lines[0][0].tone, Some(Tone::Dim));
    assert_eq!(lines[3][0].tone, Some(Tone::Wrong));
    assert!(lines[3][0].bold);
    let card = Card { label: String::new(), value: String::new(), tone: Tone::White };
    assert_eq!(stat_card(&card).len(), 3);
    assert_eq!(text(&seed_line("abc".to_string())), "seed abc");
    assert_eq!(text(&seed_line(String::new())), "seed -");
}

fn key(name: KeyName, edge: KeyEdge, control_alone: bool) -> Key {
    Key { name, edge, control_alone }
}

#[test]
fn keys_act_on_the_way_down() {
    for c in ['q', 'Q'] {
        assert_eq!(key(KeyName::Char(c), KeyEdge::Press, false).asks(), Wish::Quit);
        assert_eq!(key(KeyName::Char(c), KeyEdge::Repeat, true).asks(), Wish::Quit);
        assert_eq!(key(KeyName::Char(c), KeyEdge::Release, false).asks(), Wish::Nothing);
    }
    assert_eq!(key(KeyName::Char('c'), KeyEdge::Press, true).asks(), Wish::Quit);
    assert_eq!(key(KeyName::Char('c'), KeyEdge::Press, false).asks(), Wish::Nothing);
    assert_eq!(key(KeyName::Char('C'), KeyEdge::Press, true).asks(), Wish::Nothing);
    for n in [KeyName::Char('p'), KeyName::Char('P'), KeyName::Tab] {
        assert_eq!(key(n, KeyEdge::Press, false).asks(), Wish::Toggle);
        assert_eq!(key(n, KeyEdge::Release, false).asks(), Wish::Nothing);
    }
    assert_eq!(key(KeyName::Other, KeyEdge::Press, false).asks(), Wish::Nothing);
    assert_eq!(key(KeyName::Char('x'), KeyEdge::Press, false).asks(), Wish::Nothing);
}

#[test]
fn render_loop_takes_turns() {
    let s = ScreenLoop::start();
    assert_eq!((s.view, s.call), (View::Board, ScreenCall::CheckCancel));
    let s = s.advance(ScreenEvent::Cancelled(false));
    assert_eq!(s.call, ScreenCall::Draw(View::Board));
    let s = s.advance(ScreenEvent::Drawn);
    assert_eq!(s.call, ScreenCall::Poll(100));
    let s = s.advance(ScreenEvent::Ready(true));
    assert_eq!(s.call, ScreenCall::Read);
    let t = s.advance(ScreenEvent::Pressed(key(KeyName::Tab, KeyEdge::Press, false)));
    assert_eq!((t.view, t.call), (View::Stats, ScreenCall::CheckCancel));
    let t = t.advance(ScreenEvent::Cancelled(false));
    assert_eq!(t.call, ScreenCall::Draw(View::Stats));
    // The same key going up leaves the view alone.
    let t = t.advance(ScreenEvent::Drawn).advance(ScreenEvent::Ready(true));
    let t = t.advance(ScreenEvent::Pressed(key(KeyName::Tab, KeyEdge::Release, false)));
    assert_eq!((t.view, t.call), (View::Stats, ScreenCall::CheckCancel));
    assert_eq!(t.advance(ScreenEvent::Cancelled(true)).call, ScreenCall::Finish);
    let quit = s.advance(ScreenEvent::Pressed(key(KeyName::Char('q'), KeyEdge::Press, false)));
    assert_eq!(quit.call, ScreenCall::Finish);
    assert_eq!(s.advance(ScreenEvent::OtherInput).call, ScreenCall::CheckCancel);
    assert_eq!(s.advance(ScreenEvent::Failed).call, ScreenCall::Finish);
    let idle = ScreenLoop { view: View::Board, call: ScreenCall::Poll(100) };
    assert_eq!(idle.advance(ScreenEvent::Ready(false)).call, ScreenCall::CheckCancel);
}
