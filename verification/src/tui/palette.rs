//! The colours of the screen: cyan for right, hot pink for wrong, amber as the
//! accent.
use vstd::prelude::*;

use crate::double;
use crate::float::Float;

verus! {

#[derive(Clone, Copy, Debug, PartialEq, Eq, Structural)]
pub enum Tone {
    Correct,
    Wrong,
    Accent,
    Dim,
    Ink,
    White,
}

impl Tone {
    /// Red, green and blue; `None` is the terminal's own white.
    pub open spec fn channels(self) -> Option<(u8, u8, u8)> {
        match self {
            Tone::Correct => Some((56, 224, 196)),
            Tone::Wrong => Some((255, 92, 141)),
            Tone::Accent => Some((255, 184, 76)),
            Tone::Dim => Some((96, 100, 112)),
            Tone::Ink => Some((18, 19, 24)),
            Tone::White => None,
        }
    }

    pub fn rgb(self) -> (c: Option<(u8, u8, u8)>)
        ensures
            c == self.channels(),
    {
        match self {
            Tone::Correct => Some((56, 224, 196)),
            Tone::Wrong => Some((255, 92, 141)),
            Tone::Accent => Some((255, 184, 76)),
            Tone::Dim => Some((96, 100, 112)),
            Tone::Ink => Some((18, 19, 24)),
            Tone::White => None,
        }
    }
}

/// The tone of a slot: whether it holds its own number.
pub open spec fn seat_tone(correct: bool) -> Tone {
    if correct {
        Tone::Correct
    } else {
        Tone::Wrong
    }
}

/// The tone of a score out of 25; a negative one stands for none.
pub open spec fn score_tone(best: i32) -> Tone {
    if best < 0 {
        Tone::Dim
    } else if best < 12 {
        Tone::Wrong
    } else if best < 20 {
        Tone::Accent
    } else {
        Tone::Correct
    }
}

pub fn badge_color(best: i32) -> (t: Tone)
    ensures
        t == score_tone(best),
{
    if best < 0 {
        Tone::Dim
    } else if best >= 20 {
        Tone::Correct
    } else if best >= 12 {
        Tone::Accent
    } else {
        Tone::Wrong
    }
}

/// The tone of a load: pink from 90 percent on, amber from 60 percent on.
pub open spec fn tone_of_load(pegged: bool, busy: bool) -> Tone {
    if pegged {
        Tone::Wrong
    } else if busy {
        Tone::Accent
    } else {
        Tone::Correct
    }
}

/// The tone of a load in percent: calm when idle, amber when busy, pink when
/// pegged.
pub open spec fn load_tone(pct: Float) -> Tone {
    tone_of_load(pct.reaches(90), pct.reaches(60))
}

pub fn load_color(pct: Float) -> (t: Tone)
    ensures
        t == load_tone(pct),
{
    if pct.at_least(90) {
        Tone::Wrong
    } else if pct.at_least(60) {
        Tone::Accent
    } else {
        Tone::Correct
    }
}

/// The tone of a load in whole percents.
pub fn percent_color(pct: i32) -> (t: Tone)
    ensures
        t == tone_of_load(pct >= 90, pct >= 60),
{
    if pct >= 90 {
        Tone::Wrong
    } else if pct >= 60 {
        Tone::Accent
    } else {
        Tone::Correct
    }
}

/// Law: the tone of a score is the one for correct from 20 on, the accent from 12
/// on, the one for wrong below, and dim where there is no score.
pub proof fn law_tones_grade_the_score(best: i32, t: Tone)
    requires
        call_ensures(badge_color, (best,), t),
    ensures
        t == Tone::Correct <==> best >= 20,
        t == Tone::Accent <==> 12 <= best < 20,
        t == Tone::Wrong <==> 0 <= best < 12,
        t == Tone::Dim <==> best < 0,
{
}

/// Law: a load is pegged from 90 percent on and busy from 60 percent on, in whole
/// percents as in fractions of them. What is no number is calm.
pub proof fn law_tones_grade_the_load(pct: Float, whole: i32, t: Tone, w: Tone)
    requires
        call_ensures(load_color, (pct,), t),
        call_ensures(percent_color, (whole,), w),
    ensures
        w == Tone::Wrong <==> whole >= 90,
        w == Tone::Accent <==> 60 <= whole < 90,
        w == Tone::Correct <==> whole < 60,
        pct.bits < 0x7ff0_0000_0000_0000 ==> {
            &&& t == Tone::Wrong <==> pct.size().num() >= pct.size().den() * 90
            &&& t == Tone::Accent <==> pct.size().num() >= pct.size().den() * 60
                && pct.size().num() < pct.size().den() * 90
            &&& t == Tone::Correct <==> pct.size().num() < pct.size().den() * 60
        },
        pct.bits == 0x7ff0_0000_0000_0000 ==> t == Tone::Wrong,
        pct.bits > 0x7ff0_0000_0000_0000 ==> t == Tone::Correct,
{
    double::law_double_is_mantissa_over_power(pct.size());
    let d = pct.size().den();
    assert(d * 60 <= d * 90) by (nonlinear_arith)
        requires
            d > 0,
    ;
}

} // verus!
