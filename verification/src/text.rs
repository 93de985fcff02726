//! Text: numbers in decimal, and pieces put together.
use vstd::arithmetic::div_mod;
use vstd::arithmetic::power;
use vstd::prelude::*;
use vstd::string::*;

verus! {

/// `String::push` appends the character.
pub assume_specification[ String::push ](s: &mut String, c: char)
    ensures
        final(s)@ == old(s)@.push(c),
;

/// The decimal digit `d`, for `d < 10`.
pub open spec fn digit(d: nat) -> char {
    (48 + d) as char
}

/// `n` in decimal, without leading zeros.
pub open spec fn decimal(n: nat) -> Seq<char>
    decreases n,
{
    if n < 10 {
        seq![digit(n)]
    } else {
        decimal(n / 10).push(digit(n % 10))
    }
}

/// `v` in decimal, with a minus sign where it is negative.
pub open spec fn signed(v: int) -> Seq<char> {
    if v < 0 {
        seq!['-'] + decimal((-v) as nat)
    } else {
        decimal(v as nat)
    }
}

/// Appends `n` in decimal.
pub fn push_decimal(out: &mut String, n: u64)
    ensures
        final(out)@ == old(out)@ + decimal(n as nat),
    decreases n,
{
    if n >= 10 {
        push_decimal(out, n / 10);
    }
    let d: u8 = (n % 10) as u8;
    out.push((48 + d) as char);
    proof {
        assert(out@ =~= old(out)@ + decimal(n as nat));
    }
}

/// Appends `v` in decimal.
pub fn push_signed(out: &mut String, v: i32)
    ensures
        final(out)@ == old(out)@ + signed(v as int),
{
    if v < 0 {
        out.push('-');
        push_decimal(out, (-(v as i64)) as u64);
        proof {
            assert(out@ =~= old(out)@ + signed(v as int));
        }
    } else {
        push_decimal(out, v as u64);
    }
}

/// The characters of a text.
pub fn chars_of(s: &str) -> (v: Vec<char>)
    ensures
        v@ == s@,
{
    let mut v: Vec<char> = Vec::new();
    for c in it: s.chars()
        invariant
            it.seq() == s@,
            v@ == it.seq().take(it.index() as int),
    {
        v.push(c);
        proof {
            assert(v@ =~= it.seq().take(it.index() + 1));
        }
    }
    proof {
        assert(v@ =~= s@);
    }
    v
}

/// The text of the characters.
pub fn string_of(v: &Vec<char>) -> (s: String)
    ensures
        s@ == v@,
{
    let mut s: String = String::new();
    let mut i: usize = 0;
    proof {
        assert(s@ =~= v@.take(0));
    }
    while i < v.len()
        invariant
            i <= v.len(),
            s@ == v@.take(i as int),
        decreases v.len() - i,
    {
        s.push(v[i]);
        i = i + 1;
        proof {
            assert(s@ =~= v@.take(i as int));
        }
    }
    proof {
        assert(s@ =~= v@);
    }
    s
}

/// The parts of `s` between the separators: one more than there are separators.
pub open spec fn split(s: Seq<char>, sep: char) -> Seq<Seq<char>>
    decreases s.len(),
{
    if s.len() == 0 {
        seq![Seq::<char>::empty()]
    } else {
        let parts = split(s.drop_last(), sep);
        if s.last() == sep {
            parts.push(Seq::<char>::empty())
        } else {
            parts.drop_last().push(parts.last().push(s.last()))
        }
    }
}

/// The parts put together again with the separator between them.
pub open spec fn joined(parts: Seq<Seq<char>>, sep: char) -> Seq<char>
    decreases parts.len(),
{
    if parts.len() == 0 {
        seq![]
    } else if parts.len() == 1 {
        parts[0]
    } else {
        joined(parts.drop_last(), sep).push(sep) + parts.last()
    }
}

/// Law: the parts of a text, joined again, are the text, and the separator
/// stands in none of them.
pub proof fn law_split_rejoins(s: Seq<char>, sep: char)
    ensures
        split(s, sep).len() >= 1,
        joined(split(s, sep), sep) == s,
        forall|i: int| 0 <= i < split(s, sep).len() ==> !(#[trigger] split(s, sep)[i]).contains(sep),
    decreases s.len(),
{
    if s.len() > 0 {
        let init = s.drop_last();
        law_split_rejoins(init, sep);
        let parts = split(init, sep);
        assert(s =~= init.push(s.last()));
        if s.last() == sep {
            let longer = parts.push(Seq::<char>::empty());
            assert(longer.drop_last() =~= parts);
            assert(joined(longer, sep) =~= s);
        } else {
            let longer = parts.drop_last().push(parts.last().push(s.last()));
            assert(longer.drop_last() =~= parts.drop_last());
            assert(joined(longer, sep) =~= s);
            assert forall|i: int| 0 <= i < longer.len() implies !(#[trigger] longer[i]).contains(
                sep,
            ) by {
                if i == longer.len() - 1 {
                    assert(!parts[i].contains(sep));
                    let last = parts.last();
                    assert forall|j: int| 0 <= j < longer[i].len() implies longer[i][j] != sep by {
                        if j < last.len() {
                            assert(last[j] != sep);
                        }
                    }
                } else {
                    assert(longer[i] == parts[i]);
                }
            }
        }
    } else {
        assert(joined(split(s, sep), sep) =~= s);
    }
}

/// Parts as mathematics has them.
pub open spec fn parts_view(parts: Seq<Vec<char>>) -> Seq<Seq<char>> {
    parts.map_values(|p: Vec<char>| p@)
}

pub fn split_chars(s: &Vec<char>, sep: char) -> (parts: Vec<Vec<char>>)
    ensures
        parts_view(parts@) == split(s@, sep),
        parts.len() >= 1,
{
    let mut done: Vec<Vec<char>> = Vec::new();
    let mut part: Vec<char> = Vec::new();
    let mut i: usize = 0;
    proof {
        assert(parts_view(done@).push(part@) =~= split(s@.take(0), sep));
    }
    while i < s.len()
        invariant
            i <= s.len(),
            parts_view(done@).push(part@) == split(s@.take(i as int), sep),
        decreases s.len() - i,
    {
        let c: char = s[i];
        let ghost before = s@.take(i as int);
        proof {
            assert(s@.take(i + 1).drop_last() =~= before);
            assert(split(before, sep).drop_last() =~= parts_view(done@));
        }
        if c == sep {
            let ghost old_done = done@;
            let ghost old_part = part@;
            done.push(part);
            part = Vec::new();
            proof {
                assert(parts_view(done@) =~= parts_view(old_done).push(old_part));
                assert(parts_view(done@).push(part@) =~= split(s@.take(i + 1), sep));
            }
        } else {
            part.push(c);
            proof {
                assert(parts_view(done@).push(part@) =~= split(s@.take(i + 1), sep));
            }
        }
        i = i + 1;
    }
    proof {
        assert(s@.take(i as int) =~= s@);
        assert(parts_view(done@.push(part)) =~= parts_view(done@).push(part@));
    }
    done.push(part);
    done
}

/// A line without the carriage return before its line feed.
pub open spec fn without_return(line: Seq<char>) -> Seq<char> {
    if line.len() > 0 && line.last() == '\r' {
        line.drop_last()
    } else {
        line
    }
}

/// The lines of a text: each ends in a line feed or in a carriage return and a
/// line feed, which the last one may lack.
pub open spec fn lines(s: Seq<char>) -> Seq<Seq<char>> {
    let parts = split(s, '\n');
    let ended = parts.drop_last().map_values(|part: Seq<char>| without_return(part));
    if parts.last().len() == 0 {
        ended
    } else {
        ended.push(parts.last())
    }
}

pub fn lines_of(s: &Vec<char>) -> (r: Vec<Vec<char>>)
    ensures
        parts_view(r@) == lines(s@),
{
    let mut parts: Vec<Vec<char>> = split_chars(s, '\n');
    let ghost all = split(s@, '\n');
    let ghost ended = all.drop_last().map_values(|part: Seq<char>| without_return(part));
    let n: usize = parts.len();
    let mut i: usize = 0;
    while i + 1 < n
        invariant
            n >= 1,
            i + 1 <= n,
            parts.len() == n,
            all.len() == n,
            ended == all.drop_last().map_values(|part: Seq<char>| without_return(part)),
            forall|k: int| i <= k < n ==> (#[trigger] parts@[k])@ == all[k],
            forall|k: int| 0 <= k < i ==> (#[trigger] parts@[k])@ == ended[k],
        decreases n - i,
    {
        let part: &Vec<char> = &parts[i];
        let len: usize = part.len();
        if len > 0 && part[len - 1] == '\r' {
            let cut: Vec<char> = cut_out(part, 0, len - 1);
            proof {
                assert(cut@ =~= parts@[i as int]@.drop_last());
            }
            parts.set(i, cut);
        }
        i = i + 1;
    }
    let last: Vec<char> = match parts.pop() {
        Some(p) => p,
        None => Vec::new(),
    };
    proof {
        assert(parts_view(parts@) =~= ended);
    }
    if last.len() > 0 {
        let ghost before = parts@;
        parts.push(last);
        proof {
            assert(parts_view(parts@) =~= parts_view(before).push(last@));
        }
    }
    parts
}

/// The characters from `from` up to `to`.
pub fn cut_out(s: &Vec<char>, from: usize, to: usize) -> (r: Vec<char>)
    requires
        from <= to <= s.len(),
    ensures
        r@ == s@.subrange(from as int, to as int),
{
    let mut r: Vec<char> = Vec::new();
    let mut i: usize = from;
    while i < to
        invariant
            from <= i <= to <= s.len(),
            r@ == s@.subrange(from as int, i as int),
        decreases to - i,
    {
        r.push(s[i]);
        i = i + 1;
        proof {
            assert(r@ =~= s@.subrange(from as int, i as int));
        }
    }
    r
}

/// Blank space, as Unicode has it.
pub open spec fn is_blank(c: char) -> bool {
    let n = c as int;
    ||| 0x9 <= n <= 0xd
    ||| n == 0x20
    ||| n == 0x85
    ||| n == 0xa0
    ||| n == 0x1680
    ||| 0x2000 <= n <= 0x200a
    ||| n == 0x2028
    ||| n == 0x2029
    ||| n == 0x202f
    ||| n == 0x205f
    ||| n == 0x3000
}

fn blank(c: char) -> (b: bool)
    ensures
        b == is_blank(c),
{
    let n: u32 = c as u32;
    (0x9 <= n && n <= 0xd) || n == 0x20 || n == 0x85 || n == 0xa0 || n == 0x1680 || (0x2000 <= n
        && n <= 0x200a) || n == 0x2028 || n == 0x2029 || n == 0x202f || n == 0x205f || n == 0x3000
}

/// `s` without the blank space before and after it.
pub open spec fn trimmed(s: Seq<char>) -> Seq<char>
    decreases s.len(),
{
    if s.len() > 0 && is_blank(s[0]) {
        trimmed(s.drop_first())
    } else if s.len() > 0 && is_blank(s.last()) {
        trimmed(s.drop_last())
    } else {
        s
    }
}

pub fn trim_chars(s: &Vec<char>) -> (r: Vec<char>)
    ensures
        r@ == trimmed(s@),
{
    let mut from: usize = 0;
    let mut to: usize = s.len();
    proof {
        assert(s@.subrange(0, to as int) =~= s@);
    }
    while from < to && blank(s[from])
        invariant
            from <= to <= s.len(),
            trimmed(s@) == trimmed(s@.subrange(from as int, to as int)),
        decreases to - from,
    {
        proof {
            let rest = s@.subrange(from as int, to as int);
            assert(rest.drop_first() =~= s@.subrange(from + 1, to as int));
        }
        from = from + 1;
    }
    while from < to && blank(s[to - 1])
        invariant
            from <= to <= s.len(),
            from < to ==> !is_blank(s@[from as int]),
            trimmed(s@) == trimmed(s@.subrange(from as int, to as int)),
        decreases to - from,
    {
        proof {
            let rest = s@.subrange(from as int, to as int);
            assert(rest[0] == s@[from as int]);
            assert(rest.last() == s@[to - 1]);
            assert(rest.drop_last() =~= s@.subrange(from as int, to - 1));
        }
        to = to - 1;
    }
    cut_out(s, from, to)
}

/// A letter of ASCII in lower case, any other character as it is.
pub open spec fn lower(c: char) -> char {
    if 'A' <= c <= 'Z' {
        (c as int + 32) as char
    } else {
        c
    }
}

pub open spec fn lowered(s: Seq<char>) -> Seq<char> {
    s.map_values(|c: char| lower(c))
}

pub fn to_lower(s: &Vec<char>) -> (r: Vec<char>)
    ensures
        r@ == lowered(s@),
{
    let mut r: Vec<char> = Vec::new();
    let mut i: usize = 0;
    while i < s.len()
        invariant
            i <= s.len(),
            r@ == lowered(s@.take(i as int)),
        decreases s.len() - i,
    {
        let c: char = s[i];
        if 'A' <= c && c <= 'Z' {
            r.push((c as u8 + 32) as char);
        } else {
            r.push(c);
        }
        i = i + 1;
        proof {
            assert(r@ =~= lowered(s@.take(i as int)));
        }
    }
    proof {
        assert(s@.take(i as int) =~= s@);
    }
    r
}

/// The phrase stands somewhere in `s`.
pub open spec fn has_phrase(s: Seq<char>, phrase: Seq<char>) -> bool {
    exists|at: int| #[trigger] phrase_at(s, phrase, at)
}

pub open spec fn phrase_at(s: Seq<char>, phrase: Seq<char>, at: int) -> bool {
    0 <= at && at + phrase.len() <= s.len() && s.subrange(at, at + phrase.len()) == phrase
}

pub fn contains_phrase(s: &Vec<char>, phrase: &str) -> (b: bool)
    ensures
        b == has_phrase(s@, phrase@),
{
    let p: Vec<char> = chars_of(phrase);
    let mut at: usize = 0;
    while at <= s.len() && p.len() <= s.len() - at
        invariant
            at <= s.len() + 1,
            p@ == phrase@,
            forall|k: int| 0 <= k < at ==> !phrase_at(s@, phrase@, k),
        decreases s.len() + 1 - at,
    {
        let mut k: usize = 0;
        while k < p.len() && s[at + k] == p[k]
            invariant
                k <= p.len(),
                at + p.len() <= s.len(),
                forall|m: int| 0 <= m < k ==> s@[at + m] == p@[m],
            decreases p.len() - k,
        {
            k = k + 1;
        }
        if k == p.len() {
            proof {
                assert(s@.subrange(at as int, at + p@.len()) =~= p@);
                assert(phrase_at(s@, phrase@, at as int));
            }
            return true;
        }
        proof {
            if phrase_at(s@, phrase@, at as int) {
                assert(s@.subrange(at as int, at + p@.len())[k as int] == p@[k as int]);
            }
        }
        if at == s.len() {
            return false;
        }
        at = at + 1;
    }
    false
}

/// Law: a number is written digit by digit. The digit with `j` others behind it
/// counts the powers of ten with exponent `j`, and the first digit is not zero
/// unless it stands alone.
pub proof fn law_decimal_has_the_digits(n: nat)
    ensures
        decimal(n).len() > 0,
        forall|i: int|
            0 <= i < decimal(n).len() ==> #[trigger] decimal(n)[i] as int == 48 + (n as int
                / power::pow(10, (decimal(n).len() - 1 - i) as nat)) % 10,
        (n as int) < power::pow(10, decimal(n).len()),
        decimal(n).len() > 1 ==> n as int >= power::pow(10, (decimal(n).len() - 1) as nat),
    decreases n,
{
    let s = decimal(n);
    power::lemma_pow0(10);
    power::lemma_pow1(10);
    if n >= 10 {
        let m = n / 10;
        let t = decimal(m);
        law_decimal_has_the_digits(m);
        power::lemma_pow_adds(10, 1, t.len());
        power::lemma_pow_adds(10, 1, (t.len() - 1) as nat);
        if t.len() == 1 {
            assert(power::pow(10, (t.len() - 1) as nat) == 1);
        }
        assert forall|i: int| 0 <= i < s.len() implies #[trigger] s[i] as int == 48 + (n as int
            / power::pow(10, (s.len() - 1 - i) as nat)) % 10 by {
            if i < t.len() {
                let j = (t.len() - 1 - i) as nat;
                assert(s[i] == t[i]);
                power::lemma_pow_adds(10, 1, j);
                power::lemma_pow_positive(10, j);
                div_mod::lemma_div_denominator(n as int, 10, power::pow(10, j));
                assert(m as int / power::pow(10, j) == n as int / power::pow(10, j + 1));
                assert((s.len() - 1 - i) as nat == j + 1);
            } else {
                assert(s[i] == digit(n % 10));
                assert((s.len() - 1 - i) as nat == 0);
                assert(n as int / 1 == n);
            }
        }
    }
}

/// Law: a negative number is its absolute value after a minus sign, any other
/// number has no sign.
pub proof fn law_signed_has_the_sign(v: int)
    ensures
        v >= 0 ==> signed(v) == decimal(v as nat),
        v < 0 ==> signed(v).len() > 0 && signed(v)[0] == '-' && signed(v).skip(1) == decimal(
            (-v) as nat,
        ),
{
    if v < 0 {
        assert(signed(v).skip(1) =~= decimal((-v) as nat));
    }
}

/// Law: a separator cuts a text in two, and a text without one is a single
/// part.
pub proof fn law_split_cuts_at_separators(a: Seq<char>, b: Seq<char>, sep: char)
    ensures
        split(a.push(sep) + b, sep) == split(a, sep) + split(b, sep),
        !a.contains(sep) ==> split(a, sep) == seq![a],
    decreases b.len(), a.len(),
{
    let whole = a.push(sep) + b;
    let pa = split(a, sep);
    law_split_rejoins(a, sep);
    law_split_rejoins(b, sep);
    if b.len() == 0 {
        assert(whole =~= a.push(sep));
        assert(whole.drop_last() =~= a);
        assert(split(whole, sep) =~= pa + split(b, sep));
    } else {
        let init = b.drop_last();
        law_split_cuts_at_separators(a, init, sep);
        law_split_rejoins(init, sep);
        assert(whole.drop_last() =~= a.push(sep) + init);
        let pi = split(init, sep);
        assert((pa + pi).last() == pi.last());
        assert((pa + pi).drop_last() =~= pa + pi.drop_last());
        assert(split(whole, sep) =~= pa + split(b, sep));
    }
    if !a.contains(sep) {
        lemma_one_part(a, sep);
    }
}

proof fn lemma_one_part(a: Seq<char>, sep: char)
    requires
        !a.contains(sep),
    ensures
        split(a, sep) == seq![a],
    decreases a.len(),
{
    if a.len() > 0 {
        let init = a.drop_last();
        assert(a.contains(a.last()));
        assert forall|i: int| 0 <= i < init.len() implies init[i] != sep by {
            assert(a.contains(a[i]));
        }
        lemma_one_part(init, sep);
        assert(init.push(a.last()) =~= a);
        assert(split(a, sep) =~= seq![a]);
    } else {
        assert(a =~= Seq::<char>::empty());
        assert(split(a, sep) =~= seq![a]);
    }
}

/// Law: a line feed ends a line, and takes a carriage return before it along.
/// What follows the last one is a line too, unless it is empty.
pub proof fn law_lines_end_at_line_feeds(a: Seq<char>, rest: Seq<char>)
    requires
        !a.contains('\n'),
    ensures
        a.len() == 0 || a.last() != '\r' ==> lines(a.push('\n') + rest) == seq![a] + lines(rest),
        lines(a.push('\r').push('\n') + rest) == seq![a] + lines(rest),
        a.len() > 0 ==> lines(a) == seq![a],
        lines(Seq::<char>::empty()) == Seq::<Seq<char>>::empty(),
{
    lemma_line_first(a, rest);
    let r = a.push('\r');
    assert forall|i: int| 0 <= i < r.len() implies r[i] != '\n' by {
        if i < a.len() {
            assert(a.contains(a[i]));
        }
    }
    lemma_line_first(r, rest);
    assert(r.drop_last() =~= a);
    lemma_one_part(a, '\n');
    assert(lines(a) =~= if a.len() > 0 {
        seq![a]
    } else {
        seq![]
    });
    let none = Seq::<char>::empty();
    lemma_one_part(none, '\n');
    assert(lines(none) =~= Seq::<Seq<char>>::empty());
}

proof fn lemma_line_first(a: Seq<char>, rest: Seq<char>)
    requires
        !a.contains('\n'),
    ensures
        lines(a.push('\n') + rest) == seq![without_return(a)] + lines(rest),
{
    law_split_cuts_at_separators(a, rest, '\n');
    law_split_rejoins(rest, '\n');
    let pr = split(rest, '\n');
    let parts = seq![a] + pr;
    assert(parts.drop_last() =~= seq![a] + pr.drop_last());
    assert(parts.last() == pr.last());
    assert(lines(a.push('\n') + rest) =~= seq![without_return(a)] + lines(rest));
}

/// `t` is what is left of `s` without its first `i` characters and those from
/// `j` on, all of which are blank.
pub open spec fn leaves(s: Seq<char>, i: int, j: int, t: Seq<char>) -> bool {
    &&& 0 <= i <= j <= s.len()
    &&& t == s.subrange(i, j)
    &&& forall|k: int| 0 <= k < i ==> is_blank(#[trigger] s[k])
    &&& forall|k: int| j <= k < s.len() ==> is_blank(#[trigger] s[k])
}

proof fn lemma_leaves_without_first(s: Seq<char>, i: int, j: int, t: Seq<char>)
    requires
        s.len() > 0,
        is_blank(s[0]),
        leaves(s.drop_first(), i, j, t),
    ensures
        leaves(s, i + 1, j + 1, t),
{
    let r = s.drop_first();
    assert(s.subrange(i + 1, j + 1) =~= r.subrange(i, j));
    assert forall|k: int| 0 <= k < i + 1 implies is_blank(#[trigger] s[k]) by {
        if k > 0 {
            assert(is_blank(r[k - 1]));
        }
    }
    assert forall|k: int| j + 1 <= k < s.len() implies is_blank(#[trigger] s[k]) by {
        assert(is_blank(r[k - 1]));
    }
}

proof fn lemma_leaves_without_last(s: Seq<char>, i: int, j: int, t: Seq<char>)
    requires
        s.len() > 0,
        is_blank(s.last()),
        leaves(s.drop_last(), i, j, t),
    ensures
        leaves(s, i, j, t),
{
    let r = s.drop_last();
    assert(s.subrange(i, j) =~= r.subrange(i, j));
    assert forall|k: int| 0 <= k < i implies is_blank(#[trigger] s[k]) by {
        assert(is_blank(r[k]));
    }
    assert forall|k: int| j <= k < s.len() implies is_blank(#[trigger] s[k]) by {
        if k < r.len() {
            assert(is_blank(r[k]));
        }
    }
}

/// Law: trimming takes blank space off both ends and nothing else. What is left
/// is a stretch of the text that begins and ends with something else, where
/// there is anything left.
pub proof fn law_trimming_takes_blanks_only(s: Seq<char>)
    ensures
        exists|i: int, j: int| #[trigger] leaves(s, i, j, trimmed(s)),
        trimmed(s).len() > 0 ==> !is_blank(trimmed(s)[0]) && !is_blank(trimmed(s).last()),
    decreases s.len(),
{
    if s.len() > 0 && is_blank(s[0]) {
        let r = s.drop_first();
        law_trimming_takes_blanks_only(r);
        let (i, j) = choose|i: int, j: int| #[trigger] leaves(r, i, j, trimmed(r));
        lemma_leaves_without_first(s, i, j, trimmed(r));
        assert(leaves(s, i + 1, j + 1, trimmed(s)));
    } else if s.len() > 0 && is_blank(s.last()) {
        let r = s.drop_last();
        law_trimming_takes_blanks_only(r);
        let (i, j) = choose|i: int, j: int| #[trigger] leaves(r, i, j, trimmed(r));
        lemma_leaves_without_last(s, i, j, trimmed(r));
        assert(leaves(s, i, j, trimmed(s)));
    } else {
        assert(s.subrange(0, s.len() as int) =~= s);
        assert(leaves(s, 0, s.len() as int, trimmed(s)));
    }
}

/// Law: lower case changes the letters of ASCII alone, each to the one 32
/// further on, and keeps the length.
pub proof fn law_lower_case_moves_capitals(s: Seq<char>, i: int)
    requires
        0 <= i < s.len(),
    ensures
        lowered(s).len() == s.len(),
        0x41 <= s[i] as int <= 0x5a ==> lowered(s)[i] as int == s[i] as int + 32,
        !(0x41 <= s[i] as int <= 0x5a) ==> lowered(s)[i] == s[i],
{
}

/// Law: a phrase is found exactly where the text is something, the phrase, and
/// something more.
pub proof fn law_phrases_stand_between(before: Seq<char>, phrase: Seq<char>, behind: Seq<char>)
    ensures
        has_phrase(before + phrase + behind, phrase),
        forall|s: Seq<char>| #[trigger]
            has_phrase(s, phrase) ==> exists|at: int|
                0 <= at <= s.len() - phrase.len() && s == #[trigger] s.take(at) + phrase + s.skip(
                    at + phrase.len(),
                ),
{
    let whole = before + phrase + behind;
    assert(whole.subrange(before.len() as int, (before.len() + phrase.len()) as int) =~= phrase);
    assert(phrase_at(whole, phrase, before.len() as int));
    assert forall|s: Seq<char>| #[trigger] has_phrase(s, phrase) implies exists|at: int|
        0 <= at <= s.len() - phrase.len() && s == #[trigger] s.take(at) + phrase + s.skip(
            at + phrase.len(),
        ) by {
        let at = choose|at: int| #[trigger] phrase_at(s, phrase, at);
        assert(s =~= s.take(at) + phrase + s.skip(at + phrase.len()));
    }
}


} // verus!
