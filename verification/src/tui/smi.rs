//! GPU telemetry: what `nvidia-smi` and `rocm-smi` print, as numbers.
use vstd::prelude::*;
use vstd::string::*;

use crate::decimal;
use crate::text;

verus! {

/// One reading of a GPU: its name, its load in percent, its memory in megabytes
/// and its temperature in degrees Celsius.
#[derive(Debug)]
pub struct GpuSample {
    pub name: String,
    pub util: i32,
    pub used_mb: u64,
    pub total_mb: u64,
    pub temp: i32,
}

/// A reading as mathematics has it.
pub struct Reading {
    pub name: Seq<char>,
    pub util: i32,
    pub used_mb: u64,
    pub total_mb: u64,
    pub temp: i32,
}

pub open spec fn reading(sample: Option<GpuSample>) -> Option<Reading> {
    match sample {
        Some(s) => Some(
            Reading {
                name: s.name@,
                util: s.util,
                used_mb: s.used_mb,
                total_mb: s.total_mb,
                temp: s.temp,
            },
        ),
        None => None,
    }
}

/// The text that bytes stand for, with a replacement character for what is no
/// UTF-8.
pub uninterp spec fn lossy_text(bytes: Seq<u8>) -> Seq<char>;

/// `String::from_utf8_lossy`: the text depends on the bytes alone, and bytes
/// that are UTF-8 give the characters that they encode.
#[verifier::external_body]
fn decode(bytes: &Vec<u8>) -> (s: String)
    ensures
        s@ == lossy_text(bytes@),
        vstd::utf8::valid_utf8(bytes@) ==> s@ == vstd::utf8::decode_utf8(bytes@),
{
    String::from_utf8_lossy(bytes).into_owned()
}

/// The arguments that ask `nvidia-smi` for one line of a reading.
pub open spec fn nvidia_arguments() -> Seq<Seq<char>> {
    seq![
        "--query-gpu=name,utilization.gpu,memory.used,memory.total,temperature.gpu"@,
        "--format=csv,noheader,nounits"@,
    ]
}

pub fn nvidia_args() -> (a: Vec<&'static str>)
    ensures
        a@.map_values(|s: &'static str| s@) == nvidia_arguments(),
{
    let mut a: Vec<&'static str> = Vec::new();
    a.push("--query-gpu=name,utilization.gpu,memory.used,memory.total,temperature.gpu");
    a.push("--format=csv,noheader,nounits");
    proof {
        assert(a@.map_values(|s: &'static str| s@) =~= nvidia_arguments());
    }
    a
}

/// The arguments that ask `rocm-smi` for a table of readings.
pub open spec fn rocm_arguments() -> Seq<Seq<char>> {
    seq![
        "--showproductname"@,
        "--showuse"@,
        "--showmeminfo"@,
        "vram"@,
        "--showtemp"@,
        "--csv"@,
    ]
}

pub fn rocm_args() -> (a: Vec<&'static str>)
    ensures
        a@.map_values(|s: &'static str| s@) == rocm_arguments(),
{
    let mut a: Vec<&'static str> = Vec::new();
    a.push("--showproductname");
    a.push("--showuse");
    a.push("--showmeminfo");
    a.push("vram");
    a.push("--showtemp");
    a.push("--csv");
    proof {
        assert(a@.map_values(|s: &'static str| s@) =~= rocm_arguments());
    }
    a
}

/// Field `i` of a line of comma-separated values, without blank space around it.
pub open spec fn field(line: Seq<char>, i: int) -> Seq<char> {
    text::trimmed(text::split(line, ',')[i])
}

/// The reading on the first line: name, load, memory in use, memory, and
/// temperature.
pub open spec fn nvidia_reading(out: Seq<char>) -> Option<Reading> {
    let line = text::lines(out)[0];
    if text::lines(out).len() == 0 || text::split(line, ',').len() < 5 {
        None
    } else {
        match (
            decimal::read_i32(field(line, 1)),
            decimal::read_u64(field(line, 2)),
            decimal::read_u64(field(line, 3)),
            decimal::read_i32(field(line, 4)),
        ) {
            (Some(util), Some(used_mb), Some(total_mb), Some(temp)) => Some(
                Reading { name: field(line, 0), util, used_mb, total_mb, temp },
            ),
            _ => None,
        }
    }
}

/// Reads what `nvidia-smi` printed.
pub fn parse_nvidia(out: &str) -> (r: Option<GpuSample>)
    ensures
        reading(r) == nvidia_reading(out@),
{
    let lines: Vec<Vec<char>> = text::lines_of(&text::chars_of(out));
    proof {
        assert(text::lines(out@).len() == lines@.len());
    }
    if lines.len() == 0 {
        return None;
    }
    let parts: Vec<Vec<char>> = text::split_chars(&lines[0], ',');
    let ghost line = text::lines(out@)[0];
    proof {
        assert(line == lines@[0]@);
        assert(text::split(line, ',').len() == parts@.len());
        assert(forall|i: int|
            0 <= i < parts@.len() ==> text::split(line, ',')[i] == (#[trigger] parts@[i])@);
    }
    if parts.len() < 5 {
        return None;
    }
    let name: String = text::string_of(&text::trim_chars(&parts[0]));
    let util: i32 = match decimal::parse_i32(&text::trim_chars(&parts[1])) {
        Some(v) => v,
        None => {
            return None;
        },
    };
    let used_mb: u64 = match decimal::parse_u64(&text::trim_chars(&parts[2])) {
        Some(v) => v,
        None => {
            return None;
        },
    };
    let total_mb: u64 = match decimal::parse_u64(&text::trim_chars(&parts[3])) {
        Some(v) => v,
        None => {
            return None;
        },
    };
    let temp: i32 = match decimal::parse_i32(&text::trim_chars(&parts[4])) {
        Some(v) => v,
        None => {
            return None;
        },
    };
    Some(GpuSample { name, util, used_mb, total_mb, temp })
}

/// The reading in the output of one run of `nvidia-smi`, where the run went
/// well.
pub fn sample_nvidia_smi(success: bool, stdout: &Vec<u8>) -> (r: Option<GpuSample>)
    ensures
        reading(r) == (if success {
            nvidia_reading(lossy_text(stdout@))
        } else {
            None
        }),
        success && vstd::utf8::valid_utf8(stdout@) ==> reading(r) == nvidia_reading(
            vstd::utf8::decode_utf8(stdout@),
        ),
{
    if !success {
        return None;
    }
    let out: String = decode(stdout);
    parse_nvidia(out.as_str())
}

/// What a column of the table holds.
#[derive(Clone, Copy, Debug, PartialEq, Eq, Structural)]
pub enum Column {
    Name,
    Use,
    UsedMemory,
    TotalMemory,
    Temperature,
}

/// What a column holds, by its header in lower case.
pub open spec fn column_of(header: Seq<char>) -> Option<Column> {
    let h = text::lowered(header);
    if text::has_phrase(h, "card series"@) || text::has_phrase(h, "product"@) {
        Some(Column::Name)
    } else if text::has_phrase(h, "use (%)"@) {
        Some(Column::Use)
    } else if text::has_phrase(h, "used memory"@) {
        Some(Column::UsedMemory)
    } else if text::has_phrase(h, "total memory"@) {
        Some(Column::TotalMemory)
    } else if text::has_phrase(h, "temp"@) && text::has_phrase(h, "edge"@) {
        Some(Column::Temperature)
    } else {
        None
    }
}

fn classify(header: &Vec<char>) -> (c: Option<Column>)
    ensures
        c == column_of(header@),
{
    let h: Vec<char> = text::to_lower(header);
    if text::contains_phrase(&h, "card series") || text::contains_phrase(&h, "product") {
        Some(Column::Name)
    } else if text::contains_phrase(&h, "use (%)") {
        Some(Column::Use)
    } else if text::contains_phrase(&h, "used memory") {
        Some(Column::UsedMemory)
    } else if text::contains_phrase(&h, "total memory") {
        Some(Column::TotalMemory)
    } else if text::contains_phrase(&h, "temp") && text::contains_phrase(&h, "edge") {
        Some(Column::Temperature)
    } else {
        None
    }
}

/// The last column that holds `wanted`.
pub open spec fn last_column(headers: Seq<Seq<char>>, wanted: Column) -> Option<int>
    decreases headers.len(),
{
    if headers.len() == 0 {
        None
    } else if column_of(headers.last()) == Some(wanted) {
        Some(headers.len() - 1)
    } else {
        last_column(headers.drop_last(), wanted)
    }
}

/// The cell of a row that stands in the column for `wanted`.
pub open spec fn cell(headers: Seq<Seq<char>>, row: Seq<Seq<char>>, wanted: Column) -> Option<
    Seq<char>,
> {
    match last_column(headers, wanted) {
        Some(i) => if i < row.len() {
            Some(row[i])
        } else {
            None
        },
        None => None,
    }
}

/// The index of the cell of a row that stands in the column for `wanted`.
fn find_cell(headers: &Vec<Vec<char>>, row: &Vec<Vec<char>>, wanted: Column) -> (r: Option<usize>)
    ensures
        r matches Some(i) ==> i < row.len() && cell(
            text::parts_view(headers@),
            text::parts_view(row@),
            wanted,
        ) == Some(row@[i as int]@),
        r is None ==> cell(text::parts_view(headers@), text::parts_view(row@), wanted) is None,
{
    let ghost all = text::parts_view(headers@);
    let mut i: usize = headers.len();
    proof {
        assert(all.take(i as int) =~= all);
    }
    while i > 0
        invariant
            i <= headers.len(),
            all == text::parts_view(headers@),
            last_column(all, wanted) == last_column(all.take(i as int), wanted),
        decreases i,
    {
        proof {
            assert(all.take(i as int).last() == headers@[i - 1]@);
            assert(all.take(i as int).drop_last() =~= all.take(i - 1));
        }
        let c: Option<Column> = classify(&headers[i - 1]);
        if is_column(c, wanted) {
            if i - 1 < row.len() {
                return Some(i - 1);
            }
            return None;
        }
        i = i - 1;
    }
    None
}

fn is_column(c: Option<Column>, wanted: Column) -> (b: bool)
    ensures
        b == (c == Some(wanted)),
{
    match c {
        Some(k) => k == wanted,
        None => false,
    }
}

/// The characters of `s` that belong to a number: its digits, and with `point`
/// its decimal points.
pub open spec fn figures_in(s: Seq<char>, point: bool) -> Seq<char>
    decreases s.len(),
{
    if s.len() == 0 {
        seq![]
    } else if decimal::is_digit(s.last()) || (point && s.last() == '.') {
        figures_in(s.drop_last(), point).push(s.last())
    } else {
        figures_in(s.drop_last(), point)
    }
}

fn keep_figures(s: &Vec<char>, point: bool) -> (r: Vec<char>)
    ensures
        r@ == figures_in(s@, point),
{
    let mut r: Vec<char> = Vec::new();
    let mut i: usize = 0;
    while i < s.len()
        invariant
            i <= s.len(),
            r@ == figures_in(s@.take(i as int), point),
        decreases s.len() - i,
    {
        let c: char = s[i];
        proof {
            assert(s@.take(i + 1).drop_last() =~= s@.take(i as int));
        }
        if decimal::is_ascii_digit(c) || (point && c == '.') {
            r.push(c);
        }
        i = i + 1;
    }
    proof {
        assert(s@.take(i as int) =~= s@);
    }
    r
}

/// `s` without its quotation marks.
pub open spec fn unquoted(s: Seq<char>) -> Seq<char>
    decreases s.len(),
{
    if s.len() == 0 {
        seq![]
    } else if s.last() == '"' {
        unquoted(s.drop_last())
    } else {
        unquoted(s.drop_last()).push(s.last())
    }
}

fn drop_quotes(s: &Vec<char>) -> (r: Vec<char>)
    ensures
        r@ == unquoted(s@),
{
    let mut r: Vec<char> = Vec::new();
    let mut i: usize = 0;
    while i < s.len()
        invariant
            i <= s.len(),
            r@ == unquoted(s@.take(i as int)),
        decreases s.len() - i,
    {
        let c: char = s[i];
        proof {
            assert(s@.take(i + 1).drop_last() =~= s@.take(i as int));
        }
        if c != '"' {
            r.push(c);
        }
        i = i + 1;
    }
    proof {
        assert(s@.take(i as int) =~= s@);
    }
    r
}

/// How many bytes a megabyte has.
pub const MEGABYTE: u64 = 0x10_0000;

/// The reading in the first row under the headers. Numbers are made of the
/// digits of their cells, memory is counted in bytes, and degrees may have
/// decimals.
pub open spec fn row_reading(headers: Seq<Seq<char>>, row: Seq<Seq<char>>) -> Option<Reading> {
    match (
        cell(headers, row, Column::Name),
        cell(headers, row, Column::Use),
        cell(headers, row, Column::UsedMemory),
        cell(headers, row, Column::TotalMemory),
        cell(headers, row, Column::Temperature),
    ) {
        (Some(name), Some(load), Some(used), Some(all), Some(heat)) => match (
            decimal::read_i32(figures_in(load, false)),
            decimal::read_u64(figures_in(used, false)),
            decimal::read_u64(figures_in(all, false)),
            decimal::read_whole_part(figures_in(heat, true)),
        ) {
            (Some(util), Some(used_bytes), Some(total_bytes), Some(temp)) => Some(
                Reading {
                    name: text::trimmed(unquoted(name)),
                    util,
                    used_mb: used_bytes / MEGABYTE,
                    total_mb: total_bytes / MEGABYTE,
                    temp,
                },
            ),
            _ => None,
        },
        _ => None,
    }
}

/// The reading in a table: a line of headers, and a line of values under them.
pub open spec fn rocm_reading(out: Seq<char>) -> Option<Reading> {
    let lines = text::lines(out);
    if lines.len() < 2 {
        None
    } else {
        row_reading(text::split(lines[0], ','), text::split(lines[1], ','))
    }
}

fn read_row(headers: &Vec<Vec<char>>, row: &Vec<Vec<char>>) -> (r: Option<GpuSample>)
    ensures
        reading(r) == row_reading(text::parts_view(headers@), text::parts_view(row@)),
{
    let name: usize = match find_cell(headers, row, Column::Name) {
        Some(i) => i,
        None => {
            return None;
        },
    };
    let load: usize = match find_cell(headers, row, Column::Use) {
        Some(i) => i,
        None => {
            return None;
        },
    };
    let used: usize = match find_cell(headers, row, Column::UsedMemory) {
        Some(i) => i,
        None => {
            return None;
        },
    };
    let all: usize = match find_cell(headers, row, Column::TotalMemory) {
        Some(i) => i,
        None => {
            return None;
        },
    };
    let heat: usize = match find_cell(headers, row, Column::Temperature) {
        Some(i) => i,
        None => {
            return None;
        },
    };
    let util: i32 = match decimal::parse_i32(&keep_figures(&row[load], false)) {
        Some(v) => v,
        None => {
            return None;
        },
    };
    let used_bytes: u64 = match decimal::parse_u64(&keep_figures(&row[used], false)) {
        Some(v) => v,
        None => {
            return None;
        },
    };
    let total_bytes: u64 = match decimal::parse_u64(&keep_figures(&row[all], false)) {
        Some(v) => v,
        None => {
            return None;
        },
    };
    let temp: i32 = match decimal::parse_whole_part(&keep_figures(&row[heat], true)) {
        Some(v) => v,
        None => {
            return None;
        },
    };
    Some(
        GpuSample {
            name: text::string_of(&text::trim_chars(&drop_quotes(&row[name]))),
            util,
            used_mb: used_bytes / MEGABYTE,
            total_mb: total_bytes / MEGABYTE,
            temp,
        },
    )
}

/// Reads what `rocm-smi` printed.
pub fn parse_rocm(out: &str) -> (r: Option<GpuSample>)
    ensures
        reading(r) == rocm_reading(out@),
{
    let lines: Vec<Vec<char>> = text::lines_of(&text::chars_of(out));
    proof {
        assert(text::lines(out@).len() == lines@.len());
    }
    if lines.len() < 2 {
        return None;
    }
    proof {
        assert(text::lines(out@)[0] == lines@[0]@);
        assert(text::lines(out@)[1] == lines@[1]@);
    }
    let headers: Vec<Vec<char>> = text::split_chars(&lines[0], ',');
    let row: Vec<Vec<char>> = text::split_chars(&lines[1], ',');
    read_row(&headers, &row)
}

/// The reading in the output of one run of `rocm-smi`, where the run went well.
pub fn sample_rocm_smi(success: bool, stdout: &Vec<u8>) -> (r: Option<GpuSample>)
    ensures
        reading(r) == (if success {
            rocm_reading(lossy_text(stdout@))
        } else {
            None
        }),
        success && vstd::utf8::valid_utf8(stdout@) ==> reading(r) == rocm_reading(
            vstd::utf8::decode_utf8(stdout@),
        ),
{
    if !success {
        return None;
    }
    let out: String = decode(stdout);
    parse_rocm(out.as_str())
}

/// The headers of a table, each with the cell under it where the row has one.
pub open spec fn columns(headers: Seq<Seq<char>>, row: Seq<Seq<char>>) -> Seq<
    (Seq<char>, Option<Seq<char>>),
> {
    Seq::new(
        headers.len(),
        |i: int|
            (
                headers[i],
                if i < row.len() {
                    Some(row[i])
                } else {
                    None
                },
            ),
    )
}

/// No two headers name the same column.
pub open spec fn one_header_each(headers: Seq<Seq<char>>) -> bool {
    forall|i: int, j: int|
        0 <= i < headers.len() && 0 <= j < headers.len() && column_of(#[trigger] headers[i]) is Some
            && column_of(headers[i]) == column_of(#[trigger] headers[j]) ==> i == j
}

proof fn lemma_last_column(headers: Seq<Seq<char>>, wanted: Column)
    ensures
        match last_column(headers, wanted) {
            Some(i) => 0 <= i < headers.len() && column_of(headers[i]) == Some(wanted),
            None => forall|i: int|
                0 <= i < headers.len() ==> column_of(#[trigger] headers[i]) != Some(wanted),
        },
    decreases headers.len(),
{
    if headers.len() > 0 {
        lemma_last_column(headers.drop_last(), wanted);
        assert forall|i: int| last_column(headers, wanted) is None && 0 <= i < headers.len()
            implies column_of(#[trigger] headers[i]) != Some(wanted) by {
            if i < headers.len() - 1 {
                assert(headers.drop_last()[i] == headers[i]);
            }
        }
    }
}

proof fn lemma_cell_moves(
    headers: Seq<Seq<char>>,
    row: Seq<Seq<char>>,
    other_headers: Seq<Seq<char>>,
    other_row: Seq<Seq<char>>,
    wanted: Column,
)
    requires
        one_header_each(headers),
        columns(headers, row).to_multiset() == columns(other_headers, other_row).to_multiset(),
    ensures
        cell(headers, row, wanted) == cell(other_headers, other_row, wanted),
{
    let here = columns(headers, row);
    let there = columns(other_headers, other_row);
    lemma_last_column(headers, wanted);
    lemma_last_column(other_headers, wanted);
    here.to_multiset_ensures();
    there.to_multiset_ensures();
    match last_column(headers, wanted) {
        Some(i) => {
            assert(here.contains(here[i]));
            assert(here.to_multiset().count(here[i]) > 0);
            assert(there.contains(here[i]));
            let k = choose|k: int| 0 <= k < there.len() && there[k] == here[i];
            assert(column_of(other_headers[k]) == Some(wanted));
            let j = last_column(other_headers, wanted).unwrap();
            assert(there.contains(there[j]));
            assert(there.to_multiset().count(there[j]) > 0);
            assert(here.contains(there[j]));
            let h = choose|h: int| 0 <= h < here.len() && here[h] == there[j];
            assert(column_of(headers[h]) == Some(wanted));
            assert(h == i);
        },
        None => {
            if last_column(other_headers, wanted) is Some {
                let j = last_column(other_headers, wanted).unwrap();
                assert(there.contains(there[j]));
                assert(there.to_multiset().count(there[j]) > 0);
                assert(here.contains(there[j]));
                let h = choose|h: int| 0 <= h < here.len() && here[h] == there[j];
                assert(column_of(headers[h]) == Some(wanted));
            }
        },
    }
}

/// Law: columns are found by their headers, not by where they stand. The same
/// headers over the same cells in another order give the same reading.
pub proof fn law_columns_stand_in_any_order(
    headers: Seq<Seq<char>>,
    row: Seq<Seq<char>>,
    other_headers: Seq<Seq<char>>,
    other_row: Seq<Seq<char>>,
)
    requires
        one_header_each(headers),
        columns(headers, row).to_multiset() == columns(other_headers, other_row).to_multiset(),
    ensures
        row_reading(headers, row) == row_reading(other_headers, other_row),
{
    lemma_cell_moves(headers, row, other_headers, other_row, Column::Name);
    lemma_cell_moves(headers, row, other_headers, other_row, Column::Use);
    lemma_cell_moves(headers, row, other_headers, other_row, Column::UsedMemory);
    lemma_cell_moves(headers, row, other_headers, other_row, Column::TotalMemory);
    lemma_cell_moves(headers, row, other_headers, other_row, Column::Temperature);
}

/// Law: the figures of a text are the figures of its parts, one after the other.
/// A digit is one, a point is one where points count, and nothing else is.
pub proof fn law_figures_are_picked(a: Seq<char>, b: Seq<char>, c: char, point: bool)
    ensures
        figures_in(a + b, point) == figures_in(a, point) + figures_in(b, point),
        48 <= c as int <= 57 || (point && c == '.') ==> figures_in(seq![c], point) == seq![c],
        !(48 <= c as int <= 57 || (point && c == '.')) ==> figures_in(seq![c], point)
            == Seq::<char>::empty(),
    decreases b.len(),
{
    reveal_with_fuel(figures_in, 2);
    let one = seq![c];
    assert(one.drop_last() =~= Seq::<char>::empty());
    assert(figures_in(one, point) =~= if 48 <= c as int <= 57 || (point && c == '.') {
        one
    } else {
        seq![]
    });
    if b.len() == 0 {
        assert(a + b =~= a);
        assert(figures_in(a + b, point) =~= figures_in(a, point) + figures_in(b, point));
    } else {
        law_figures_are_picked(a, b.drop_last(), c, point);
        assert((a + b).drop_last() =~= a + b.drop_last());
        assert(figures_in(a + b, point) =~= figures_in(a, point) + figures_in(b, point));
    }
}

/// Law: quotation marks are taken out of a text, and nothing else.
pub proof fn law_quotes_are_dropped(a: Seq<char>, b: Seq<char>, c: char)
    ensures
        unquoted(a + b) == unquoted(a) + unquoted(b),
        c != '"' ==> unquoted(seq![c]) == seq![c],
        unquoted(seq!['"']) == Seq::<char>::empty(),
    decreases b.len(),
{
    reveal_with_fuel(unquoted, 2);
    assert(seq![c].drop_last() =~= Seq::<char>::empty());
    assert(seq!['"'].drop_last() =~= Seq::<char>::empty());
    assert(c != '"' ==> unquoted(seq![c]) =~= seq![c]);
    if b.len() == 0 {
        assert(a + b =~= a);
        assert(unquoted(a + b) =~= unquoted(a) + unquoted(b));
    } else {
        law_quotes_are_dropped(a, b.drop_last(), c);
        assert((a + b).drop_last() =~= a + b.drop_last());
        assert(unquoted(a + b) =~= unquoted(a) + unquoted(b));
    }
}

/// Law: what a column holds is told by words in its header, in any case of
/// letters. The name goes before the load, the load before the memory in use,
/// that before all memory, and the temperature at the edge comes last.
pub proof fn law_headers_tell_their_columns(header: Seq<char>, h: Seq<char>)
    requires
        h == text::lowered(header),
    ensures
        ({
            let name = text::has_phrase(h, "card series"@) || text::has_phrase(h, "product"@);
            let load = text::has_phrase(h, "use (%)"@);
            let used = text::has_phrase(h, "used memory"@);
            let all = text::has_phrase(h, "total memory"@);
            let heat = text::has_phrase(h, "temp"@) && text::has_phrase(h, "edge"@);
            &&& column_of(header) == Some(Column::Name) <==> name
            &&& column_of(header) == Some(Column::Use) <==> load && !name
            &&& column_of(header) == Some(Column::UsedMemory) <==> used && !load && !name
            &&& column_of(header) == Some(Column::TotalMemory) <==> all && !used && !load && !name
            &&& column_of(header) == Some(Column::Temperature) <==> heat && !all && !used && !load
                && !name
        }),
{
}

/// Column `i` is the last one whose header says that it holds `wanted`, and the
/// row reaches that far.
pub open spec fn is_last_column(
    headers: Seq<Seq<char>>,
    row: Seq<Seq<char>>,
    wanted: Column,
    i: int,
) -> bool {
    &&& 0 <= i < headers.len()
    &&& i < row.len()
    &&& column_of(headers[i]) == Some(wanted)
    &&& forall|k: int| i < k < headers.len() ==> column_of(#[trigger] headers[k]) != Some(wanted)
}

proof fn lemma_cell_of(headers: Seq<Seq<char>>, row: Seq<Seq<char>>, wanted: Column, i: int)
    requires
        is_last_column(headers, row, wanted, i),
    ensures
        cell(headers, row, wanted) == Some(row[i]),
    decreases headers.len(),
{
    let last = headers.len() - 1;
    if i < last {
        let init = headers.drop_last();
        assert(column_of(headers[last]) != Some(wanted));
        assert forall|k: int| i < k < init.len() implies column_of(#[trigger] init[k]) != Some(
            wanted,
        ) by {
            assert(init[k] == headers[k]);
        }
        lemma_cell_of(init, row, wanted, i);
    }
}

/// Law: a table of `rocm-smi` is read cell by cell. Memory in use and all memory
/// come out as the whole megabytes in the numbers of bytes that their cells
/// hold, load as the number in its cell, temperature as the whole part of the
/// one in its cell, and the name without quotation marks and blanks around it.
pub proof fn law_rocm_table_is_read(
    out: &str,
    r: Option<GpuSample>,
    headers: Seq<Seq<char>>,
    row: Seq<Seq<char>>,
    at: (int, int, int, int, int),
    used: u64,
    total: u64,
    load: u32,
)
    requires
        call_ensures(parse_rocm, (out,), r),
        text::lines(out@).len() >= 2,
        headers == text::split(text::lines(out@)[0], ','),
        row == text::split(text::lines(out@)[1], ','),
        is_last_column(headers, row, Column::Name, at.0),
        is_last_column(headers, row, Column::Use, at.1),
        is_last_column(headers, row, Column::UsedMemory, at.2),
        is_last_column(headers, row, Column::TotalMemory, at.3),
        is_last_column(headers, row, Column::Temperature, at.4),
        load <= i32::MAX,
        figures_in(row[at.1], false) == text::decimal(load as nat),
        figures_in(row[at.2], false) == text::decimal(used as nat),
        figures_in(row[at.3], false) == text::decimal(total as nat),
        decimal::read_whole_part(figures_in(row[at.4], true)) is Some,
    ensures
        r matches Some(s) && {
            &&& s.used_mb * 0x10_0000 <= used < (s.used_mb + 1) * 0x10_0000
            &&& s.total_mb * 0x10_0000 <= total < (s.total_mb + 1) * 0x10_0000
            &&& s.util == load
            &&& Some(s.temp) == decimal::read_whole_part(figures_in(row[at.4], true))
            &&& s.name@ == text::trimmed(unquoted(row[at.0]))
        },
{
    lemma_cell_of(headers, row, Column::Name, at.0);
    lemma_cell_of(headers, row, Column::Use, at.1);
    lemma_cell_of(headers, row, Column::UsedMemory, at.2);
    lemma_cell_of(headers, row, Column::TotalMemory, at.3);
    lemma_cell_of(headers, row, Column::Temperature, at.4);
    lemma_reads_decimal(used as nat);
    lemma_reads_decimal(total as nat);
    lemma_reads_decimal(load as nat);
}

proof fn lemma_reads_decimal(n: nat)
    requires
        n <= u64::MAX,
    ensures
        decimal::read_u64(text::decimal(n)) == Some(n as u64),
        n <= i32::MAX ==> decimal::read_i32(text::decimal(n)) == Some(n as i32),
{
    let s = text::decimal(n);
    decimal::law_decimal_reads_back(n);
    text::law_decimal_has_the_digits(n);
    assert(s.skip(0) =~= s);
    assert(decimal::is_digit(s[0]));
}

/// Law: more bytes in use never give fewer megabytes, whatever the bytes, and
/// the megabytes of a cell depend on that cell alone.
pub proof fn law_more_bytes_are_no_fewer_megabytes(
    headers: Seq<Seq<char>>,
    row: Seq<Seq<char>>,
    other: Seq<Seq<char>>,
    i: int,
    bytes: u64,
    more: u64,
)
    requires
        is_last_column(headers, row, Column::UsedMemory, i),
        is_last_column(headers, other, Column::UsedMemory, i),
        figures_in(row[i], false) == text::decimal(bytes as nat),
        figures_in(other[i], false) == text::decimal(more as nat),
        bytes <= more,
        row_reading(headers, row) is Some,
        row_reading(headers, other) is Some,
    ensures
        row_reading(headers, row).unwrap().used_mb <= row_reading(headers, other).unwrap().used_mb,
        more - bytes >= 0x10_0000 ==> row_reading(headers, row).unwrap().used_mb < row_reading(
            headers,
            other,
        ).unwrap().used_mb,
{
    lemma_cell_of(headers, row, Column::UsedMemory, i);
    lemma_cell_of(headers, other, Column::UsedMemory, i);
    lemma_reads_decimal(bytes as nat);
    lemma_reads_decimal(more as nat);
}

/// Law: a table is read only where each of the five columns has a header and a
/// cell.
pub proof fn law_rocm_table_lacks_nothing(out: &str, r: Option<GpuSample>, wanted: Column)
    requires
        call_ensures(parse_rocm, (out,), r),
        r is Some,
    ensures
        text::lines(out@).len() >= 2,
        ({
            let headers = text::split(text::lines(out@)[0], ',');
            let row = text::split(text::lines(out@)[1], ',');
            exists|i: int|
                0 <= i < headers.len() && i < row.len() && column_of(#[trigger] headers[i]) == Some(
                    wanted,
                )
        }),
{
    let headers = text::split(text::lines(out@)[0], ',');
    let row = text::split(text::lines(out@)[1], ',');
    lemma_last_column(headers, wanted);
    assert(cell(headers, row, wanted) is Some);
    let i = last_column(headers, wanted).unwrap();
    assert(column_of(headers[i]) == Some(wanted));
}

/// Law: a line of `nvidia-smi` is read field by field: the name, then the load,
/// the memory in use, all memory and the temperature, each without the blanks
/// around it. What follows the fifth field does not matter.
pub proof fn law_nvidia_line_is_read(
    out: &str,
    r: Option<GpuSample>,
    fields: Seq<Seq<char>>,
    util: i32,
    used: u64,
    total: u64,
    temp: i32,
)
    requires
        call_ensures(parse_nvidia, (out,), r),
        text::lines(out@).len() > 0,
        fields == text::split(text::lines(out@)[0], ','),
        fields.len() >= 5,
        text::trimmed(fields[1]) == text::signed(util as int),
        text::trimmed(fields[2]) == text::decimal(used as nat),
        text::trimmed(fields[3]) == text::decimal(total as nat),
        text::trimmed(fields[4]) == text::signed(temp as int),
    ensures
        r matches Some(s) && {
            &&& s.name@ == text::trimmed(fields[0])
            &&& s.util == util
            &&& s.used_mb == used
            &&& s.total_mb == total
            &&& s.temp == temp
        },
{
    lemma_reads_decimal(used as nat);
    lemma_reads_decimal(total as nat);
    lemma_reads_signed(util);
    lemma_reads_signed(temp);
}

proof fn lemma_reads_signed(v: i32)
    ensures
        decimal::read_i32(text::signed(v as int)) == Some(v),
{
    if v < 0 {
        let n = (-v) as nat;
        let s = text::signed(v as int);
        decimal::law_decimal_reads_back(n);
        text::law_decimal_has_the_digits(n);
        assert(s.skip(1) =~= text::decimal(n));
    } else {
        lemma_reads_decimal(v as nat);
    }
}

/// Law: a line of `nvidia-smi` is read exactly where it has five fields, and the
/// last four of them are numbers, which are then those of the reading.
pub proof fn law_nvidia_line_lacks_nothing(out: &str, r: Option<GpuSample>, fields: Seq<Seq<char>>)
    requires
        call_ensures(parse_nvidia, (out,), r),
        fields == text::split(text::lines(out@)[0], ','),
    ensures
        r is Some <==> {
            &&& text::lines(out@).len() > 0
            &&& fields.len() >= 5
            &&& decimal::read_i32(text::trimmed(fields[1])) is Some
            &&& decimal::read_u64(text::trimmed(fields[2])) is Some
            &&& decimal::read_u64(text::trimmed(fields[3])) is Some
            &&& decimal::read_i32(text::trimmed(fields[4])) is Some
        },
        r matches Some(s) ==> {
            &&& s.name@ == text::trimmed(fields[0])
            &&& decimal::read_i32(text::trimmed(fields[1])) == Some(s.util)
            &&& decimal::read_u64(text::trimmed(fields[2])) == Some(s.used_mb)
            &&& decimal::read_u64(text::trimmed(fields[3])) == Some(s.total_mb)
            &&& decimal::read_i32(text::trimmed(fields[4])) == Some(s.temp)
        },
{
}

/// Law: a table is read exactly where the four numbers in the last column of
/// each kind are numbers, and the load and the temperature are those numbers.
pub proof fn law_rocm_numbers_must_be_numbers(
    out: &str,
    r: Option<GpuSample>,
    headers: Seq<Seq<char>>,
    row: Seq<Seq<char>>,
    at: (int, int, int, int, int),
)
    requires
        call_ensures(parse_rocm, (out,), r),
        text::lines(out@).len() >= 2,
        headers == text::split(text::lines(out@)[0], ','),
        row == text::split(text::lines(out@)[1], ','),
        is_last_column(headers, row, Column::Name, at.0),
        is_last_column(headers, row, Column::Use, at.1),
        is_last_column(headers, row, Column::UsedMemory, at.2),
        is_last_column(headers, row, Column::TotalMemory, at.3),
        is_last_column(headers, row, Column::Temperature, at.4),
    ensures
        ({
            let load = decimal::read_i32(figures_in(row[at.1], false));
            let used = decimal::read_u64(figures_in(row[at.2], false));
            let total = decimal::read_u64(figures_in(row[at.3], false));
            let heat = decimal::read_whole_part(figures_in(row[at.4], true));
            &&& r is Some <==> load is Some && used is Some && total is Some && heat is Some
            &&& r matches Some(s) ==> {
                &&& load == Some(s.util)
                &&& heat == Some(s.temp)
                &&& s.used_mb * 0x10_0000 <= used.unwrap() < (s.used_mb + 1) * 0x10_0000
                &&& s.total_mb * 0x10_0000 <= total.unwrap() < (s.total_mb + 1) * 0x10_0000
                &&& s.name@ == text::trimmed(unquoted(row[at.0]))
            }
        }),
{
    lemma_cell_of(headers, row, Column::Name, at.0);
    lemma_cell_of(headers, row, Column::Use, at.1);
    lemma_cell_of(headers, row, Column::UsedMemory, at.2);
    lemma_cell_of(headers, row, Column::TotalMemory, at.3);
    lemma_cell_of(headers, row, Column::Temperature, at.4);
}

/// Law: a run of a tool that failed tells nothing, and one that went well tells
/// what its output reads as.
pub proof fn law_failed_runs_tell_nothing(
    stdout: Vec<u8>,
    nvidia: Option<GpuSample>,
    rocm: Option<GpuSample>,
)
    requires
        call_ensures(sample_nvidia_smi, (false, &stdout), nvidia),
        call_ensures(sample_rocm_smi, (false, &stdout), rocm),
    ensures
        nvidia is None,
        rocm is None,
{
}

/// Law: the output of a run that went well, where it is UTF-8, is read as the
/// text that it encodes.
pub proof fn law_output_is_read_as_text(
    stdout: Vec<u8>,
    out: &str,
    nvidia: Option<GpuSample>,
    rocm: Option<GpuSample>,
    from_text: Option<GpuSample>,
    from_table: Option<GpuSample>,
)
    requires
        vstd::utf8::valid_utf8(stdout@),
        out@ == vstd::utf8::decode_utf8(stdout@),
        call_ensures(sample_nvidia_smi, (true, &stdout), nvidia),
        call_ensures(sample_rocm_smi, (true, &stdout), rocm),
        call_ensures(parse_nvidia, (out,), from_text),
        call_ensures(parse_rocm, (out,), from_table),
    ensures
        nvidia is Some <==> from_text is Some,
        nvidia matches Some(s) ==> s.name@ == from_text.unwrap().name@ && s.util
            == from_text.unwrap().util && s.used_mb == from_text.unwrap().used_mb && s.total_mb
            == from_text.unwrap().total_mb && s.temp == from_text.unwrap().temp,
        rocm is Some <==> from_table is Some,
        rocm matches Some(s) ==> s.name@ == from_table.unwrap().name@ && s.util
            == from_table.unwrap().util && s.used_mb == from_table.unwrap().used_mb && s.total_mb
            == from_table.unwrap().total_mb && s.temp == from_table.unwrap().temp,
{
}

} // verus!
