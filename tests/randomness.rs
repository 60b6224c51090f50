use vstd::seq::Seq;
use std::cell::Cell;

use lottery_engine::randomness::{
    choose_from_draws, choose_ticket, draw_from_output, generate_random_number, Randomness,
};

/// Hands out a crafted value per seed and counts the draws made.
struct Scripted {
    values: Vec<u32>,
    calls: Cell<usize>,
}

impl Scripted {
    fn new(values: Vec<u32>) -> Self {
        Scripted { values, calls: Cell::new(0) }
    }
}

impl Randomness for Scripted {
    fn output(&self, _subject: Seq<u8>) -> Seq<u8> {
        unreachable!("the source's value is a proof-only view")
    }

    fn random(&self, subject: &[u8]) -> [u8; 32] {
        self.calls.set(self.calls.get() + 1);
        assert_eq!(subject.len(), 12);
        let seed = u32::from_le_bytes([subject[8], subject[9], subject[10], subject[11]]);
        let mut out = [0u8; 32];
        out[..4].copy_from_slice(&self.values[seed as usize].to_le_bytes());
        out
    }
}

/// Echoes the subject back, so the encoding can be observed.
struct Echo;

impl Randomness for Echo {
    fn output(&self, _subject: Seq<u8>) -> Seq<u8> {
        unreachable!("the source's value is a proof-only view")
    }

    fn random(&self, subject: &[u8]) -> [u8; 32] {
        let mut out = [0u8; 32];
        out[..subject.len()].copy_from_slice(subject);
        out
    }
}

const ID: [u8; 8] = *b"py/lotto";

#[test]
fn output_is_read_little_endian() {
    let mut out = [0u8; 32];
    out[0] = 1;
    out[1] = 2;
    out[2] = 3;
    out[3] = 4;
    out[4] = 9;
    assert_eq!(draw_from_output(&out), 0x0403_0201);
}

#[test]
fn subject_is_identifier_then_seed() {
    // The echoed subject starts with the identifier "py/l".
    assert_eq!(generate_random_number(&Echo, ID, 7), u32::from_le_bytes(*b"py/l"));
    let seeded = Scripted::new(vec![11, 22, 33]);
    assert_eq!(generate_random_number(&seeded, ID, 2), 33);
}

#[test]
fn empty_population_has_no_winner() {
    assert_eq!(choose_from_draws(0, &[5, 6]), None);
    let rng = Scripted::new(vec![1]);
    let r = choose_ticket(&rng, ID, 0, 4);
    assert_eq!(r.ticket, None);
    assert_eq!(rng.calls.get(), 0);
}

#[test]
fn fair_first_draw_is_used() {
    assert_eq!(choose_from_draws(10, &[17, 99]), Some(7));
}

#[test]
fn biased_draws_are_skipped() {
    // u32::MAX % 10 == 5, so draws of 4294967290 and above are redrawn.
    assert_eq!(choose_from_draws(10, &[4294967295, 4294967291, 17, 99]), Some(7));
    assert_eq!(choose_from_draws(10, &[4294967295, 4294967292]), Some(2));
    assert_eq!(choose_from_draws(10, &[]), None);
}

#[test]
fn retries_stop_at_first_fair_draw() {
    let rng = Scripted::new(vec![4294967295, 4294967293, 23, 1, 2]);
    let r = choose_ticket(&rng, ID, 10, 5);
    assert_eq!(r.ticket, Some(3));
    assert_eq!(r.draws, vec![4294967295, 4294967293, 23]);
    assert_eq!(rng.calls.get(), 3);
}

#[test]
fn exhausted_retries_keep_last_draw() {
    let rng = Scripted::new(vec![4294967295, 4294967293, 23]);
    let r = choose_ticket(&rng, ID, 10, 2);
    assert_eq!(r.ticket, Some(3));
    assert_eq!(rng.calls.get(), 2);
    let once = Scripted::new(vec![4294967295, 1]);
    let r = choose_ticket(&once, ID, 10, 0);
    assert_eq!(r.ticket, Some(5));
    assert_eq!(r.draws.len(), 1);
}

#[test]
fn replayed_choice_is_identical() {
    let a = choose_ticket(&Scripted::new(vec![4294967294, 8, 9]), ID, 7, 3);
    let b = choose_ticket(&Scripted::new(vec![4294967294, 8, 9]), ID, 7, 3);
    assert_eq!(a.ticket, b.ticket);
    assert_eq!(a.draws, b.draws);
}
