//! Shuffles: the numbers that deal them, the boards, and the backends that work
//! through ranges of them.
//!
//! That drawing a number below a bound comes to an end rests on the generator's
//! orbit: `transition` has one step of it, `linear` its algebra, `powers` many
//! steps at once, and `orbit` what follows: from every state but zero the
//! generator comes to every other. `cycle` and `primes` hold the arithmetic that
//! this takes.
pub mod amd;
pub mod batch;
pub mod cpu;
pub mod cycle;
pub mod linear;
pub mod orbit;
pub mod powers;
pub mod primes;
pub mod range;
pub mod rng;
pub mod shuffle;
pub mod transition;
