//! The generator, and the rolls made with it.
use goodomen::brain::{goto_core, goto_directly, retreat, side_of};
use goodomen::brain::{Clock, Look, Manner, Orders, Wait, Way, RUN, STILL, WALK};
use goodomen::measure::rank;
use goodomen::rand::{roll_beats, roll_meets, Odds, Random, DEFAULT_SEED, WHOLE};

fn m(x: f64) -> i64 {
    rank(x.to_bits())
}

#[test]
fn the_sequence_is_the_original_s() {
    let mut r = Random::default();
    r.seed(127);
    let got: Vec<u32> = (0..8).map(|_| r.next_u32()).collect();
    assert_eq!(
        got,
        [
            3447130821, 3921056250, 1835579211, 3772296893, 231824126, 2956236577, 1185653816,
            2379096476
        ]
    );
}

#[test]
fn the_default_seed_is_the_reference_implementation_s() {
    let mut named = Random::default();
    named.next_u32();
    named.seed(DEFAULT_SEED);
    let mut default = Random::default();
    assert_eq!(named.next_u32(), default.next_u32());
}

#[test]
fn the_range_is_closed_at_both_ends() {
    assert_eq!(u32::MAX as f64 / 4_294_967_295.0, 1.0);
    assert_eq!(WHOLE as f64, 4_294_967_295.0);
    let mut r = Random::default();
    r.seed(1);
    for _ in 0..10_000 {
        assert!((0.0..=1.0).contains(&(r.next_u32() as f64 / WHOLE as f64)));
    }
}

#[test]
fn a_seed_starts_the_sequence_again() {
    let mut r = Random::default();
    r.seed(99);
    let first: Vec<u32> = (0..2000).map(|_| r.next_u32()).collect();
    r.seed(99);
    let again: Vec<u32> = (0..2000).map(|_| r.next_u32()).collect();
    assert_eq!(first, again);
    r.seed(100);
    assert_ne!(first[0], r.next_u32());
}

#[test]
fn odds_are_kept_exactly() {
    for (num, den) in [(0u32, 1u32), (1, 1), (1, 2), (2, 5), (7, 10), (1, 3), (99, 100)] {
        let odds = Odds::of(num, den);
        let (mut a, mut b, mut c) = (Random::default(), Random::default(), Random::default());
        for _ in 0..2000 {
            let draw = c.next_u32() as u128;
            let beats = draw * (den as u128) < (num as u128) * (WHOLE as u128);
            let meets = draw * (den as u128) <= (num as u128) * (WHOLE as u128);
            assert_eq!(roll_beats(&mut a, &odds), beats);
            assert_eq!(roll_meets(&mut b, &odds), meets);
        }
    }
}

#[test]
fn a_side_is_tossed_once() {
    let mut r = Random::default();
    let mut twin = Random::default();
    let side = side_of(None, &mut r);
    assert_eq!(side, (twin.next_u32() as f64 / WHOLE as f64) < 0.5);
    assert_eq!(side_of(Some(side), &mut r), side);
    assert_eq!(side_of(Some(!side), &mut r), !side);
    assert_eq!(r.next_u32(), twin.next_u32(), "a side that is known costs no draw");
}

#[test]
fn a_retreat_is_two_seconds_and_up_to_three_more() {
    let mut r = Random::default();
    let mut twin = Random::default();
    let o = retreat(&mut r);
    let draw = twin.next_u32();
    assert_eq!(o.gait, Some(RUN));
    assert_eq!(o.look, Look::Away);
    assert_eq!(o.clock, Clock::Drawn(Wait { draw, times: 3, tenths: 20 }));
    assert!(o.avoid);
    assert_eq!(Orders { gait: None, look: Look::Keep, clock: Clock::Leave, avoid: false, ..o }, Orders::none());
}

/// The walker faces +y at the origin; the waypoint is due +x, ten out and three
/// up.
#[test]
fn a_goto_orders_the_gait_and_the_direct_one_turns_first() {
    let mut r = Random::default();
    let (wp, at) = ([10.0f64, 0.0, 3.0], [0.0f64, 0.0, 0.0]);
    let flat = |at: [f64; 3]| ((wp[0] - at[0]).powi(2) + (wp[1] - at[1]).powi(2)).sqrt();
    let solid = |at: [f64; 3]| (flat(at).powi(2) + (wp[2] - at[2]).powi(2)).sqrt();
    let run = Manner { run: true, must_face: false, avoid: false };
    let way = |at: [f64; 3]| Way {
        off: m(flat(at)),
        radius: m(4.0),
        height: 0,
        keep: 0,
        square: false,
    };
    assert!(!goto_core(&way(at), &run, &mut r).arrived, "ten units is not four");
    assert_eq!(goto_directly(solid(at) < 4.0, false, true), Some(STILL), "not facing yet");
    // now square on the waypoint's x and y
    let at = [10.0f64, 0.0, 0.0];
    assert!(goto_core(&way(at), &run, &mut r).arrived, "arrived in the plane");
    assert!(goto_directly(solid(at) < 2.0, false, true).is_some(), "three up is not two");
    assert_eq!(goto_directly(true, false, true), None);
    assert_eq!(goto_directly(false, true, true), Some(RUN));
    assert_eq!(goto_directly(false, true, false), Some(WALK));
}

#[test]
fn a_walker_on_its_way_aims_and_then_walks() {
    let mut r = Random::default();
    let mut twin = Random::default();
    let walk = Manner { run: false, must_face: true, avoid: true };
    let way = Way { off: m(50.0), radius: m(4.0), height: 0, keep: 0, square: false };
    // far out and off its clock it aims a little off: two draws
    let s = goto_core(&way, &walk, &mut r);
    let (off, keep) = (twin.next_u32(), twin.next_u32());
    assert_eq!(s.gait, None);
    assert_eq!(s.aim, Some(Some(off)));
    assert_eq!(s.keep, Some(Wait { draw: keep, times: 3, tenths: 10 }));
    // near by it aims straight: one draw
    let s = goto_core(&Way { off: m(8.0), ..way }, &walk, &mut r);
    assert_eq!(s.aim, Some(None));
    assert_eq!(s.keep.map(|k| k.draw), Some(twin.next_u32()));
    // with time left it turns on the spot, and then walks
    let timed = Way { keep: m(0.5), ..way };
    let s = goto_core(&timed, &walk, &mut r);
    assert_eq!((s.gait, s.avoid), (Some(STILL), true));
    let s = goto_core(&Way { square: true, ..timed }, &walk, &mut r);
    assert_eq!((s.gait, s.avoid), (Some(WALK), true));
    assert_eq!(r.next_u32(), twin.next_u32(), "walking on draws nothing");
    // a flier inside the radius but too low waits there
    let low = Way { off: m(1.0), height: m(0.5), ..way };
    let s = goto_core(&low, &walk, &mut r);
    assert_eq!((s.arrived, s.gait), (false, Some(STILL)));
    let s = goto_core(&Way { height: m(0.4), ..low }, &walk, &mut r);
    assert_eq!((s.arrived, s.gait), (true, None));
}
