//! Styled text: what a line on the screen is made of.
use vstd::prelude::*;

use crate::tui::palette::Tone;

verus! {

/// Text in one style. Without a tone it has the terminal's own colour.
#[derive(Debug)]
pub struct Piece {
    pub text: String,
    pub tone: Option<Tone>,
    pub bold: bool,
}

/// A piece as mathematics has it.
pub struct Mark {
    pub text: Seq<char>,
    pub tone: Option<Tone>,
    pub bold: bool,
}

/// Text in a tone, not bold.
pub open spec fn plain(text: Seq<char>, tone: Tone) -> Mark {
    Mark { text, tone: Some(tone), bold: false }
}

/// Text in a tone, bold.
pub open spec fn bold(text: Seq<char>, tone: Tone) -> Mark {
    Mark { text, tone: Some(tone), bold: true }
}

/// Text in the terminal's own colour.
pub open spec fn raw(text: Seq<char>) -> Mark {
    Mark { text, tone: None, bold: false }
}

impl Piece {
    pub open spec fn mark(self) -> Mark {
        Mark { text: self.text@, tone: self.tone, bold: self.bold }
    }

    pub fn plain(text: String, tone: Tone) -> (p: Piece)
        ensures
            p.mark() == plain(text@, tone),
    {
        Piece { text, tone: Some(tone), bold: false }
    }

    pub fn bold(text: String, tone: Tone) -> (p: Piece)
        ensures
            p.mark() == bold(text@, tone),
    {
        Piece { text, tone: Some(tone), bold: true }
    }

    pub fn raw(text: String) -> (p: Piece)
        ensures
            p.mark() == raw(text@),
    {
        Piece { text, tone: None, bold: false }
    }
}

/// A line as mathematics has it.
pub open spec fn marks(line: Seq<Piece>) -> Seq<Mark> {
    line.map_values(|p: Piece| p.mark())
}

/// Lines as mathematics has them.
pub open spec fn page(lines: Seq<Vec<Piece>>) -> Seq<Seq<Mark>> {
    lines.map_values(|l: Vec<Piece>| marks(l@))
}

/// A line with one more piece.
pub broadcast proof fn lemma_marks_push(line: Seq<Piece>, p: Piece)
    ensures
        #[trigger] marks(line.push(p)) == marks(line).push(p.mark()),
{
    assert(marks(line.push(p)) =~= marks(line).push(p.mark()));
}

/// A page with one more line.
pub broadcast proof fn lemma_page_push(lines: Seq<Vec<Piece>>, l: Vec<Piece>)
    ensures
        #[trigger] page(lines.push(l)) == page(lines).push(marks(l@)),
{
    assert(page(lines.push(l)) =~= page(lines).push(marks(l@)));
}

pub broadcast proof fn lemma_no_marks(line: Seq<Piece>)
    requires
        line.len() == 0,
    ensures
        #[trigger] marks(line) == Seq::<Mark>::empty(),
{
    assert(marks(line) =~= Seq::<Mark>::empty());
}

pub broadcast proof fn lemma_no_page(lines: Seq<Vec<Piece>>)
    requires
        lines.len() == 0,
    ensures
        #[trigger] page(lines) == Seq::<Seq<Mark>>::empty(),
{
    assert(page(lines) =~= Seq::<Seq<Mark>>::empty());
}

pub broadcast group group_marks {
    lemma_marks_push,
    lemma_page_push,
    lemma_no_marks,
    lemma_no_page,
}

/// The cells with a gap between each two.
pub open spec fn spaced(cells: Seq<Mark>, gap: Mark) -> Seq<Mark> {
    if cells.len() == 0 {
        seq![]
    } else {
        Seq::new(
            (2 * cells.len() - 1) as nat,
            |j: int|
                if j % 2 == 0 {
                    cells[j / 2]
                } else {
                    gap
                },
        )
    }
}

pub proof fn lemma_spaced_push(cells: Seq<Mark>, c: Mark, gap: Mark)
    ensures
        cells.len() == 0 ==> spaced(cells.push(c), gap) == seq![c],
        cells.len() > 0 ==> spaced(cells.push(c), gap) == spaced(cells, gap).push(gap).push(c),
{
    if cells.len() == 0 {
        assert(spaced(cells.push(c), gap) =~= seq![c]);
    } else {
        assert(spaced(cells.push(c), gap) =~= spaced(cells, gap).push(gap).push(c));
    }
}

/// The text of a line, without its styles.
pub open spec fn text_of(line: Seq<Mark>) -> Seq<char>
    decreases line.len(),
{
    if line.len() == 0 {
        seq![]
    } else {
        text_of(line.drop_last()) + line.last().text
    }
}

proof fn lemma_text_push(line: Seq<Mark>, m: Mark)
    ensures
        text_of(line.push(m)) == text_of(line) + m.text,
{
    assert(line.push(m).drop_last() =~= line);
}

/// Cells of one width with a gap of one column between them stand in columns of
/// that width.
pub proof fn lemma_columns(cells: Seq<Mark>, gap: Mark, width: int)
    requires
        cells.len() > 0,
        width >= 0,
        gap.text.len() == 1,
        forall|i: int| 0 <= i < cells.len() ==> (#[trigger] cells[i]).text.len() == width,
    ensures
        text_of(spaced(cells, gap)).len() == cells.len() * (width + 1) - 1,
        forall|i: int, j: int|
            #![trigger cells[i].text[j]]
            0 <= i < cells.len() && 0 <= j < width ==> text_of(spaced(cells, gap))[i * (width + 1)
                + j] == cells[i].text[j],
    decreases cells.len(),
{
    let init = cells.drop_last();
    let last = cells.last();
    let n = init.len() as int;
    let whole = text_of(spaced(cells, gap));
    assert(cells =~= init.push(last));
    lemma_spaced_push(init, last, gap);
    if n == 0 {
        let none = Seq::<Mark>::empty();
        lemma_text_push(none, last);
        assert(none.push(last) =~= seq![last]);
        assert(whole =~= last.text);
        assert(1 * (width + 1) == width + 1) by (nonlinear_arith);
    } else {
        assert forall|i: int| 0 <= i < init.len() implies (#[trigger] init[i]).text.len()
            == width by {
            assert(cells[i] == init[i]);
        }
        lemma_columns(init, gap, width);
        let before = text_of(spaced(init, gap));
        lemma_text_push(spaced(init, gap), gap);
        lemma_text_push(spaced(init, gap).push(gap), last);
        assert(whole == before + gap.text + last.text);
        assert((n + 1) * (width + 1) == n * (width + 1) + width + 1) by (nonlinear_arith);
    }
    assert forall|i: int, j: int|
        #![trigger cells[i].text[j]]
        0 <= i < cells.len() && 0 <= j < width implies whole[i * (width + 1) + j]
        == cells[i].text[j] by {
        if i == n {
            assert(n == 0 ==> i * (width + 1) == 0) by (nonlinear_arith)
                requires
                    i == n,
            ;
        } else {
            assert(init[i].text[j] == cells[i].text[j]);
            assert((i + 1) * (width + 1) <= n * (width + 1)) by (nonlinear_arith)
                requires
                    i + 1 <= n,
                    width >= 0,
            ;
            assert((i + 1) * (width + 1) == i * (width + 1) + width + 1) by (nonlinear_arith);
            assert(i * (width + 1) >= 0) by (nonlinear_arith)
                requires
                    i >= 0,
                    width >= 0,
            ;
        }
    }
}

/// A line of one piece.
pub fn single(p: Piece) -> (line: Vec<Piece>)
    ensures
        marks(line@) == seq![p.mark()],
{
    let mut line: Vec<Piece> = Vec::new();
    line.push(p);
    proof {
        assert(marks(line@) =~= seq![p.mark()]);
    }
    line
}

/// `n` times the character `c`.
pub open spec fn repeated(c: char, n: nat) -> Seq<char> {
    Seq::new(n, |i: int| c)
}

pub fn repeat_char(c: char, n: usize) -> (s: String)
    ensures
        s@ == repeated(c, n as nat),
{
    let mut s: String = String::new();
    let mut i: usize = 0;
    proof {
        assert(s@ =~= repeated(c, 0));
    }
    while i < n
        invariant
            i <= n,
            s@ == repeated(c, i as nat),
        decreases n - i,
    {
        s.push(c);
        i = i + 1;
        proof {
            assert(s@ =~= repeated(c, i as nat));
        }
    }
    s
}

/// Law: a piece is its text in its style, and a line or a page shows its pieces
/// one by one.
pub proof fn law_marks_show_the_pieces(lines: Seq<Vec<Piece>>, i: int, j: int)
    requires
        0 <= i < lines.len(),
        0 <= j < lines[i]@.len(),
    ensures
        page(lines).len() == lines.len(),
        page(lines)[i].len() == lines[i]@.len(),
        page(lines)[i][j].text == lines[i]@[j].text@,
        page(lines)[i][j].tone == lines[i]@[j].tone,
        page(lines)[i][j].bold == lines[i]@[j].bold,
{
}

/// Law: a piece that is made holds the text that it was made of, in the style
/// asked for.
pub proof fn law_pieces_are_made_as_asked(text: String, tone: Tone, p: Piece, b: Piece, r: Piece)
    requires
        call_ensures(Piece::plain, (text, tone), p),
        call_ensures(Piece::bold, (text, tone), b),
        call_ensures(Piece::raw, (text,), r),
    ensures
        p.text@ == text@ && p.tone == Some(tone) && !p.bold,
        b.text@ == text@ && b.tone == Some(tone) && b.bold,
        r.text@ == text@ && r.tone is None && !r.bold,
{
}

/// Law: cells with a gap between each two stand at the even places, and the gaps
/// at the odd ones.
pub proof fn law_gaps_stand_between_cells(cells: Seq<Mark>, gap: Mark, i: int)
    requires
        0 <= i < cells.len(),
    ensures
        spaced(cells, gap).len() == 2 * cells.len() - 1,
        spaced(cells, gap)[2 * i] == cells[i],
        i + 1 < cells.len() ==> spaced(cells, gap)[2 * i + 1] == gap,
{
}

} // verus!
