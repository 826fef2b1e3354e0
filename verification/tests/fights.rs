//! How the walkers decide, asked over and over.
use goodomen::brain::{birdbrain, BirdSenses, Clock, Look, Orders, Way, ANIM_SHOOT};
use goodomen::brain::{BACK, BIRD_CLIMB, RUN, STILL};
use goodomen::crowd::{civilian_bolts, civilian_chooses, civilian_goes_on, civilian_hears};
use goodomen::crowd::{civilian_minds, samsmite, samsmite_idles, Heard, Homing, Mind, SamSenses};
use goodomen::crowd::{CIV_LOOK, CIV_RUN, CIV_STAND, CIV_WANDER, DOC, KNOCKDOWN, SAM_BLAST};
use goodomen::anim::{stroke, struck, Anims, Stretch, Stroke};
use goodomen::damage::{blast, deal_damage, fired};
use goodomen::doganboy::{fight, idles, stays, Fight, Senses, Step, Temper};
use goodomen::measure::rank;
use goodomen::rand::{Odds, Random, WHOLE};
use goodomen::walkers::{due, faces, line_of_sight, look_ahead, may_fire, on_spot, turns};
use goodomen::walkers::{Path, Walkers};
use goodomen::world::{Gob, World};

fn m(x: f64) -> i64 {
    rank(x.to_bits())
}

/// A doganboy's temper.
fn doganboy() -> Temper {
    Temper {
        act: Odds::of(3, 10),
        taunt: Odds::of(1, 10),
        close: Odds::of(3, 10),
        scared: Odds::of(1, 2),
        burst: 3,
        near: m(10.0),
        reach: m(100.0),
        leap: m(30.0),
    }
}

/// What a doganboy senses that looks straight at a target so far off, with
/// nothing on its mind.
fn senses(dist: f64) -> Senses {
    Senses {
        kind: 207,
        hitpoints: 100,
        turret: false,
        clock: 0,
        dist: m(dist),
        left: 0,
        running: false,
        fleeing: false,
        homing: false,
        homing_pen: false,
        back: false,
        out: false,
        may_leap: false,
        leaps: Odds::of(0, 1),
        square: true,
        hurt: false,
        temper: Some(doganboy()),
        shows: vec![],
    }
}

fn does(f: Fight) -> Step {
    match f {
        Fight::Does(step) => step,
        Fight::Leaps(..) => panic!("it leaps"),
    }
}

#[test]
fn an_enemy_faces_what_it_is_fighting_and_backs_off_when_crowded() {
    let mut r = Random::default();
    let mut w = Walkers::new();
    let mut clock = 0.0f64;
    let mut turn = |w: &mut Walkers, clock: &mut f64, dist: f64| {
        let s = Senses {
            left: w.burst.get("d").copied().unwrap_or(0),
            clock: m(*clock),
            running: w.gait.get("d") == Some(&RUN),
            fleeing: w.fleeing.has("d"),
            // its type may leap, and its own chance of it is nought
            may_leap: true,
            ..senses(dist)
        };
        let step = does(fight(&s, &mut r));
        w.obey_step("d", &step);
        match step.orders.clock {
            Clock::Leave => {}
            Clock::Tenths(n) => *clock = n as f64 / 10.0,
            Clock::Drawn(d) => {
                *clock = d.draw as f64 / WHOLE as f64 * d.times as f64 + d.tenths as f64 / 10.0
            }
            Clock::Interval => *clock = 0.5,
            Clock::Length(_) => panic!("it shows nothing"),
        }
        step.orders.look
    };
    // forty out is past its near of ten, so the chooser is free to send it in
    assert_eq!(turn(&mut w, &mut clock, 40.0), Look::Target);
    assert_ne!(w.gait.get("d"), Some(&BACK), "forty out is not crowded");
    // now stand on top of it. It is in the middle of a burst, so it holds its
    // ground until the round's second is up
    turn(&mut w, &mut clock, 5.0);
    assert_eq!(w.gait.get("d"), Some(&STILL), "in the middle of a burst it does not step back");
    // four seconds, which outlasts the three the chooser's advance costs
    for _ in 0..120 {
        clock = (clock - 1.0 / 30.0).max(0.0);
    }
    turn(&mut w, &mut clock, 5.0);
    assert_eq!(w.gait.get("d"), Some(&BACK), "five is inside a doganboy's ten");
}

#[test]
fn a_doganboy_ends_its_burst_with_a_grenade() {
    let mut r = Random::default();
    let mut left = 0;
    let mut thrown = 0;
    let mut shot = 0;
    for _ in 0..900 {
        // thirty-five units apart, which is inside the throwing band
        let step = does(fight(&Senses { left, ..senses(35.0) }, &mut r));
        left = step.orders.rounds.unwrap_or(left);
        shot += (step.orders.play == Some(ANIM_SHOOT)) as i32;
        if step.throws {
            thrown += 1;
            assert_eq!(left, 0, "the last round of the burst");
            break;
        }
    }
    assert_eq!(thrown, 1, "the last round of the burst should be a grenade");
    assert!(shot > 0);
    // out of the band it never is
    for _ in 0..200 {
        let step = does(fight(&Senses { left: 1, ..senses(46.0) }, &mut r));
        assert!(!step.throws);
        let step = does(fight(&Senses { left: 1, kind: 205, ..senses(35.0) }, &mut r));
        assert!(!step.throws, "nobody else throws");
    }
}

#[test]
fn an_enemy_shoots_what_its_own_animation_names() {
    let mut r = Random::default();
    // OBJ_HOSER: its reach is 75, so twenty out is well in
    let hoser = Temper { burst: 5, reach: m(75.0), ..doganboy() };
    // the one key hoser.mod carries
    let keys = vec![(56, m(0.742), 428)];
    let mut w: World<f64> = World::new(0.0);
    let mut anims = Anims::new();
    let (mut left, mut since, mut cool) = (0, 0.0f64, 0.0f64);
    let mut aimed = false;
    let mut shots = 0;
    for _ in 0..900 {
        let s = Senses { kind: 205, left, clock: m(cool), temper: Some(hoser), ..senses(20.0) };
        let step = does(fight(&s, &mut r));
        left = step.orders.rounds.unwrap_or(left);
        if let Some(anim) = step.orders.play {
            anims.pose("h", anim);
            since = 0.0;
        }
        cool = match step.orders.clock {
            Clock::Leave => (cool - 1.0 / 30.0).max(0.0),
            _ => 1.0,
        };
        aimed |= anims.playing("h") == Some(ANIM_SHOOT);
        // the tick runs the animation on, and strikes its keys
        let now = since + 1.0 / 30.0;
        let stretch = Stretch {
            was: m(since),
            now: m(now),
            span: 0,
            before: m(now),
            behind: m(now),
            backwards: false,
        };
        since = now;
        let Some(anim) = anims.playing("h") else { continue };
        for code in struck(&keys, anim, &stretch) {
            if let Stroke::Object(kind) = stroke(code) {
                if let Some(shot) = fired("h", kind, [0.0; 3], 0.0) {
                    assert!(shot.at_player, "almost every enemy shot is");
                    w.register(shot.gob, 0);
                    shots += 1;
                }
            }
        }
    }
    assert!(shots > 0, "it should have fired by now");
    assert!(aimed, "and the shot came off ANIM_SHOOT");
    assert!(
        (0..w.len()).any(|i| w.get(i as u32).unwrap().kind == 428),
        "and a hosershot exists, which only hoser.mod could have named"
    );
    assert!(w.find("h_key428").is_some());
}

#[test]
fn a_penned_walker_goes_home_before_it_fights() {
    let mut r = Random::default();
    let mut twin = Random::default();
    let step = does(fight(&Senses { out: true, ..senses(5.0) }, &mut r));
    assert_eq!(step.orders.gait, Some(RUN), "it runs");
    assert_eq!(step.orders.clock, Clock::Tenths(30), "for three seconds");
    assert_eq!(step.orders.look, Look::Home, "and towards the pen, not the player");
    assert_eq!(step.homing, Homing::Pen);
    assert_eq!(r.next_u32(), twin.next_u32(), "and nothing was rolled for");
    // back within half its leash it has its clock stopped
    let back = Senses { homing: true, homing_pen: true, back: true, clock: m(1.0), ..senses(5.0) };
    let step = does(fight(&back, &mut r));
    assert_eq!((step.homing, step.orders.look), (Homing::Drop, Look::Home));
}

#[test]
fn an_enemy_leaps_past_you_when_its_own_chance_says_so() {
    let mut r = Random::default();
    let leaper = Senses { may_leap: true, leaps: Odds::of(1, 1), ..senses(15.0) };
    let draw = match fight(&leaper, &mut r) {
        Fight::Leaps(draw, _) => draw,
        Fight::Does(_) => panic!("a doganboy whose chance is 1 leaps"),
    };
    // half to all of the thirty-unit leap beyond
    let past = 30.0 * (0.5 + 0.5 * draw as f64 / WHOLE as f64);
    assert!((15.0..=30.0).contains(&past));
    // not square it only turns, too far off it does not leap, and a leap that
    // does not come off goes on with the rest
    let step = does(fight(&Senses { square: false, ..leaper }, &mut r));
    assert_eq!(step.orders.gait, None);
    let far = Senses { may_leap: true, leaps: Odds::of(1, 1), ..senses(31.0) };
    assert!(matches!(fight(&far, &mut r), Fight::Does(_)));
    let crowded = Senses { may_leap: true, leaps: Odds::of(1, 1), ..senses(5.0) };
    if let Fight::Leaps(_, b) = fight(&crowded, &mut r) {
        assert!(stays(&crowded, b, &mut r).orders.gait.is_some());
    }
}

#[test]
fn a_turret_never_moves() {
    let mut r = Random::default();
    let mut w = Walkers::new();
    w.set_turret("d", true);
    for _ in 0..200 {
        let s = Senses { turret: w.turret.has("d"), ..senses(5.0) };
        let step = does(fight(&s, &mut r));
        w.obey_step("d", &step);
        assert_eq!(w.gait.get("d"), Some(&STILL), "a turret holds its ground");
        assert_eq!(w.fleeing.len(), 0);
        assert_eq!(step.homing, Homing::Drop);
    }
    // and clearing the flag hands the walker back its legs
    w.set_turret("d", false);
    let mut tries = 0;
    loop {
        let s = Senses { turret: w.turret.has("d"), ..senses(5.0) };
        w.obey_step("d", &does(fight(&s, &mut r)));
        if w.gait.get("d") != Some(&STILL) || w.fleeing.len() > 0 {
            break;
        }
        tries += 1;
        assert!(tries < 100, "an unpinned doganboy inside `near` gives ground");
    }
}

#[test]
fn giving_ground_costs_three_seconds() {
    let mut r = Random::default();
    let mut tries = 0;
    let step = loop {
        let step = does(fight(&Senses { left: 1, ..senses(5.0) }, &mut r));
        if step.orders.gait == Some(BACK) {
            break step;
        }
        tries += 1;
        assert!(tries < 100, "a doganboy inside `near` should give ground");
    };
    assert_eq!(step.orders.clock, Clock::Tenths(30), "give ground, then wait");
    let waiting = does(fight(&Senses { clock: m(3.0), ..senses(5.0) }, &mut r));
    assert_eq!(waiting.orders.gait, Some(STILL), "still waiting, so it stands");
    // three seconds later it gives ground again, on its feet or at a run
    let again = does(fight(&Senses { left: 1, ..senses(5.0) }, &mut r));
    assert!(matches!(again.orders.gait, Some(RUN) | Some(BACK)));
}

#[test]
fn a_waiting_walker_draws_nothing_at_all() {
    let (mut r, mut twin) = (Random::default(), Random::default());
    let s = Senses { clock: m(0.1), left: 3, hurt: true, ..senses(35.0) };
    let step = does(fight(&s, &mut r));
    assert_eq!((step.orders.play, step.orders.rounds), (None, None));
    assert_eq!(r.next_u32(), twin.next_u32());
    assert_eq!(idles(), Orders { gait: Some(STILL), clock: Clock::Tenths(3), ..Orders::none() });
}

#[test]
fn a_hurt_doganboy_takes_to_its_heels() {
    let mut r = Random::default();
    let brave = Temper { act: Odds::of(1, 1), ..doganboy() };
    let limping = Senses { hitpoints: 20, temper: Some(brave), ..senses(50.0) };
    let step = does(fight(&limping, &mut r));
    assert_eq!((step.orders.gait, step.orders.look), (Some(RUN), Look::Away));
    assert_eq!(step.fleeing, Some(true));
    assert!(matches!(step.orders.clock, Clock::Drawn(w) if w.times == 3 && w.tenths == 20));
}

#[test]
fn a_taunt_is_shown_where_the_model_has_it() {
    let mut r = Random::default();
    let loud = Temper { act: Odds::of(0, 1), taunt: Odds::of(1, 1), ..doganboy() };
    let s = Senses { temper: Some(loud), shows: vec![0x70, 0x71], ..senses(50.0) };
    let mut seen = [0, 0];
    for _ in 0..100 {
        let step = does(fight(&s, &mut r));
        if let Some(anim) = step.orders.play {
            assert!(anim == 0x70 || anim == 0x71);
            assert_eq!(step.orders.clock, Clock::Length(anim));
            seen[(anim - 0x70) as usize] += 1;
        }
    }
    assert!(seen[0] > 0 && seen[1] > 0, "one as well as the other");
    let bare = Senses { temper: Some(loud), ..senses(50.0) };
    for _ in 0..100 {
        assert_eq!(does(fight(&bare, &mut r)).orders.play, None, "it has no such animation");
    }
}

/// What a birdbrain senses of a target so far off, that it looks at.
fn bird(dist: f64) -> BirdSenses {
    let way = Way { off: m(dist), radius: m(4.0), height: 0, keep: 0, square: true };
    BirdSenses {
        roused: true,
        dist: m(dist),
        ahead: true,
        sees: true,
        friend: false,
        clock: 0,
        home: 0,
        leash: 0,
        half_leash: 0,
        height: 0,
        square: true,
        shoots_from: m(10.0),
        way_home: way,
        way_there: way,
    }
}

#[test]
fn a_birdbrain_shoots_and_then_moves() {
    let mut r = Random::default();
    let mut w = Walkers::new();
    let mut shots = 0;
    let mut climbed = false;
    let dist = (20.0f64 * 20.0 + 4.0 * 4.0).sqrt();
    for _ in 0..40 {
        let state = w.state.get("bb").copied();
        let left = w.burst.get("bb").copied();
        let step = birdbrain(state, left, Some(bird(dist)), &mut r);
        w.obey("bb", &step.orders);
        shots += (step.orders.play == Some(ANIM_SHOOT)) as i32;
        if step.climb {
            climbed = true;
            assert_eq!(step.orders.state, Some(BIRD_CLIMB));
        }
    }
    assert!(shots > 0, "twenty units out is past its ten, so it shoots");
    assert!(climbed, "and it changes height");
    assert_eq!(w.gait.get("bb"), Some(&STILL), "and it hovers to do it");
}

#[test]
fn a_birdbrain_minds_its_leash_and_its_line() {
    let mut r = Random::default();
    let out = BirdSenses { leash: m(30.0), home: m(31.0), half_leash: m(15.0), sees: false, ..bird(20.0) };
    let step = birdbrain(None, None, Some(out), &mut r);
    assert_eq!((step.orders.state, step.orders.clock), (Some(1), Clock::Tenths(30)));
    // on its way home it goes on until it is back within half its leash
    let step = birdbrain(Some(1), None, Some(out), &mut r);
    assert!(step.steer.is_some() && step.orders.state.is_none());
    let home = BirdSenses { home: m(14.0), ..out };
    let step = birdbrain(Some(1), None, Some(home), &mut r);
    assert_eq!((step.orders.state, step.orders.rounds), (Some(4), Some(3)));
    // up close it swipes, and waits longer
    let step = birdbrain(None, None, Some(bird(9.0)), &mut r);
    assert_eq!((step.orders.play, step.orders.clock), (Some(15), Clock::Tenths(30)));
    // what has not noticed anything does nothing
    let asleep = BirdSenses { roused: false, ahead: false, ..bird(20.0) };
    let step = birdbrain(None, None, Some(asleep), &mut r);
    assert!(!step.roused && step.orders == Orders::none());
    let step = birdbrain(None, None, None, &mut r);
    assert_eq!(step.orders.gait, Some(STILL));
    // chasing, it gives up inside thirty units
    let step = birdbrain(Some(5), None, Some(BirdSenses { clock: m(2.0), ..bird(29.0) }), &mut r);
    assert_eq!((step.orders.state, step.orders.clock), (Some(4), Clock::Tenths(10)));
    // climbing, it is there within half a unit
    let step = birdbrain(Some(14), None, Some(BirdSenses { height: m(0.5), ..bird(29.0) }), &mut r);
    assert_eq!((step.orders.state, step.orders.rounds), (Some(4), Some(1)));
}

/// What a samsmite senses of a target so far off, straight ahead.
fn sam(kind: i64, dist: f64) -> SamSenses {
    SamSenses {
        kind,
        dist: m(dist),
        above: 0,
        clear_charge: true,
        clear_prowl: true,
        out: false,
        clock: 0,
        in_patch: true,
        ahead: true,
        sees: true,
        side: None,
    }
}

#[test]
fn a_samsmite_charges_and_goes_off() {
    let charge = |kind: i64| {
        let mut r = Random::default();
        let mut walkers = Walkers::new();
        let mut w: World<f64> = World::new(0.0);
        w.register(Gob { name: "s".to_string(), kind, ..Gob::blank(0.0) }, 10);
        let kurt = Gob { name: "kurt".to_string(), kind: 100, ..Gob::blank(0.0) };
        let kurt = w.register(kurt, 0);
        let full = w.get(kurt).unwrap().hitpoints;
        let mut died: Vec<String> = Vec::new();
        // the first call only claims the state; the second decides, and one unit
        // away is inside contact, so the third arrives
        for _ in 0..4 {
            let step = samsmite(walkers.state.get("s").copied(), &sam(kind, 1.0), &mut r);
            if let Some(damage) = step.blast {
                let near = vec![(m(0.0), 0), (m(1.0), 1)];
                let s = "s".to_string();
                for (who, n) in blast(&w, &s, &near, m(SAM_BLAST as f64), damage) {
                    deal_damage(&mut w, &who, n, KNOCKDOWN, false);
                }
            }
            walkers.obey("s", &step.orders);
            if step.dies {
                walkers.state.remove("s");
                died.push("s".to_string());
            }
        }
        (full - w.get(kurt).unwrap().hitpoints, died)
    };
    let (hurt, died) = charge(201);
    assert_eq!(hurt, 14, "fifteen at the centre, less the one unit");
    assert_eq!(died, vec!["s".to_string()], "and it goes with the blast");
    let (hurt, died) = charge(215);
    assert_eq!(hurt, 6, "a flaming one spends seven");
    assert!(died.is_empty(), "and walks away from it");
}

#[test]
fn a_samsmite_prowls_until_it_sees_something() {
    let (mut r, mut twin) = (Random::default(), Random::default());
    // too high up to be worth a charge: it walks on, astray
    let high = SamSenses { above: m(0.5), ..sam(201, 10.0) };
    let step = samsmite(Some(18), &high, &mut r);
    let (wait, astray) = (twin.next_u32(), twin.next_u32());
    assert_eq!(step.orders.look, Look::Astray(astray));
    assert!(matches!(step.orders.clock, Clock::Drawn(w) if w.draw == wait && w.tenths == 3));
    // out of its patch it makes for a spot in it
    let step = samsmite(Some(18), &SamSenses { in_patch: false, ..high }, &mut r);
    twin.next_u32();
    assert_eq!(step.orders.look, Look::Spot(twin.next_u32(), twin.next_u32()));
    // with a wall in its way it turns to one side, and keeps to it
    let wall = SamSenses { clock: m(1.0), clear_prowl: false, ..high };
    let step = samsmite(Some(18), &wall, &mut r);
    let side = step.side.unwrap();
    assert_eq!(step.orders.look, Look::Aside(side));
    let step = samsmite(Some(18), &SamSenses { side: Some(side), ..wall }, &mut r);
    assert_eq!(step.side, Some(side));
    // a charge that loses its way turns round
    let step = samsmite(Some(19), &SamSenses { clear_charge: false, ..sam(201, 10.0) }, &mut r);
    assert_eq!((step.orders.state, step.orders.look), (Some(18), Look::Behind));
    let step = samsmite(Some(19), &SamSenses { out: true, ..sam(201, 10.0) }, &mut r);
    assert_eq!((step.orders.state, step.orders.look), (Some(18), Look::Keep));
    let step = samsmite(Some(19), &sam(201, 36.0), &mut r);
    assert_eq!(step.orders.gait, Some(RUN));
    assert_eq!(samsmite_idles().gait, Some(STILL));
}

#[test]
fn a_civilian_looks_at_kurt_and_ignores_doc() {
    let civilian = |player: i64| {
        let mut r = Random::default();
        let mut w = Walkers::new();
        let way = Way { off: m(10.0), radius: m(4.0), height: 0, keep: 0, square: true };
        // five units away is well inside the twenty
        let near = civilian_minds(Some((player, m(5.0))));
        let mut looked = false;
        for _ in 0..200 {
            let mind = civilian_chooses(w.state.get("cc").copied(), near, &mut r);
            let step = civilian_goes_on(mind, true, near, 0, &way, &mut r);
            w.obey("cc", &step.orders);
            looked |= w.state.get("cc") == Some(&CIV_LOOK);
        }
        looked
    };
    assert!(civilian(100), "OBJ_KURT is worth looking at");
    assert!(!civilian(102), "OBJ_DOC is not");
    assert_eq!(DOC, 102);
    assert!(!civilian_minds(Some((100, m(20.0)))), "nor is anybody twenty units off");
    assert!(!civilian_minds(None));
}

#[test]
fn a_noise_moves_a_civilian_on() {
    let mut r = Random::default();
    match civilian_hears(Some(CIV_STAND), &mut r) {
        Heard::Looks(o) => assert_eq!(o.state, Some(CIV_LOOK), "standing, it looks up"),
        _ => panic!("standing, it looks up"),
    }
    assert!(matches!(civilian_hears(Some(CIV_WANDER), &mut r), Heard::Bolts(..)));
    let (o, homing) = civilian_bolts(true).unwrap();
    assert_eq!((o.state, homing), (Some(CIV_RUN), Homing::Spot), "walking, it runs");
    assert!(civilian_bolts(false).is_none(), "unless it cannot get there");
    assert_eq!(civilian_hears(Some(CIV_RUN), &mut r), Heard::Nothing);
    assert_eq!(civilian_hears(None, &mut r), Heard::Nothing);
}

#[test]
fn a_civilian_goes_on_until_its_clock_runs_out() {
    let mut r = Random::default();
    let way = Way { off: m(10.0), radius: m(4.0), height: 0, keep: m(1.0), square: true };
    let step = civilian_goes_on(Mind::Busy(CIV_RUN), false, false, m(5.0), &way, &mut r);
    assert_eq!(step.steer.unwrap().gait, Some(RUN));
    assert_eq!((step.orders.state, step.homing), (Some(CIV_RUN), Homing::Keep));
    let there = Way { off: m(1.0), ..way };
    let step = civilian_goes_on(Mind::Busy(CIV_WANDER), false, false, m(5.0), &there, &mut r);
    assert_eq!((step.orders.state, step.homing), (Some(3), Homing::Drop), "it is there");
    let step = civilian_goes_on(Mind::Busy(CIV_LOOK), false, true, 0, &way, &mut r);
    assert_eq!((step.orders.state, step.homing), (Some(3), Homing::Drop));
    let step = civilian_goes_on(Mind::Wander(1, 2), false, false, 0, &way, &mut r);
    assert_eq!(step.orders.state, Some(CIV_STAND), "the spot cannot be reached");
}

#[test]
fn a_walker_stops_at_the_wall_its_probe_finds() {
    let mut r = Random::default();
    let mut w = Walkers::new();
    w.avoiding.insert("d".to_string(), ());
    w.gait.insert("d".to_string(), 2);
    assert!(due(w.gait.get("d").copied(), None, m(0.0)), "it moves, and has not looked yet");
    w.meet("d", &Path::Free);
    assert_eq!(w.gait.get("d"), Some(&2), "nothing is in the way");
    let path = look_ahead(true, false, w.side.get("d").copied(), &mut r);
    w.meet("d", &path);
    let (side, draw) = match path {
        Path::Blocked(side, draw) => (side, draw),
        Path::Free => panic!("there is a wall"),
    };
    assert_eq!(w.gait.get("d"), Some(&0), "the probe found the wall, so it stops");
    assert_eq!(w.side.get("d"), Some(&side), "and keeps its side");
    let next = 1.0 + 3.0 * draw as f64 / WHOLE as f64;
    assert!(next >= 1.0, "and waits a second or more before looking again");
    assert!(!due(w.gait.get("d").copied(), Some(m(next)), m(5.0)), "nobody looks who stands");
    assert!(!due(Some(2), Some(m(next)), m(0.5)) && due(Some(2), Some(m(next)), m(4.0)));
    assert_eq!(look_ahead(false, false, None, &mut r), Path::Free);
    assert!(matches!(look_ahead(false, true, Some(true), &mut r), Path::Blocked(true, _)));
}

/// How far off a heading somebody is that looks along `yaw`, to be compared.
fn turn(yaw: f64, heading: f64) -> i64 {
    let mut d = yaw - heading;
    if d < -std::f64::consts::PI {
        d += std::f64::consts::TAU;
    } else if d > std::f64::consts::PI {
        d -= std::f64::consts::TAU;
    }
    m(d.abs())
}

#[test]
fn heading_records_the_want_and_answers_whether_it_is_met() {
    let bearing = |dx: f64, dy: f64| (-dx).atan2(dy);
    assert!(faces(turn(0.0, bearing(0.0, 10.0))));
    assert!(faces(turn(0.0, bearing(-1.4, 10.0))), "8 degrees is inside 9.7");
    assert!(!faces(turn(0.0, bearing(10.0, 0.0))), "a right angle is not");
    assert!((bearing(10.0, 0.0) + std::f64::consts::FRAC_PI_2).abs() < 1e-9, "due +x");
}

#[test]
fn a_walker_turns_until_it_is_square() {
    assert!(!turns(false, m(0.17)) && turns(false, m(0.18)));
    assert!(turns(true, m(0.1)) && turns(true, m(0.021)) && !turns(true, m(0.02)));
}

#[test]
fn line_of_sight_is_a_full_angle_and_a_range() {
    // the watcher faces +y; one target is straight ahead, one straight behind
    let sees = |dy: f64, fov: f64, range: f64| {
        line_of_sight(m(dy.abs()), m(range), m(dy / dy.abs()), m((fov * 0.5).cos()), true)
    };
    assert!(sees(10.0, 0.3927, 100.0));
    assert!(!sees(-10.0, 0.3927, 100.0), "PI/8 is the whole cone");
    assert!(sees(-10.0, 6.283185307179586, 100.0), "2*PI really is all round");
    assert!(!sees(10.0, 6.283185307179586, 5.0), "ten units, five of range");
    assert!(!line_of_sight(m(10.0), m(100.0), m(1.0), m(0.5), false), "a wall");
    assert!(!line_of_sight(m(0.0), m(100.0), m(1.0), m(0.5), true), "nobody sees itself");
}

#[test]
fn a_gob_is_on_a_magic_spot_only_when_close_and_facing_right() {
    // a metre from the spot, turned a tenth of a radian
    let yaw = 2.0 * 0.04998f64.atan2(0.99875);
    let spot = |degrees: f64| turn(yaw, degrees.to_radians());
    assert!(on_spot(m(1.0), m(3.0), spot(0.0), m(1.0)));
    assert!(!on_spot(m(1.0), m(0.5), spot(0.0), m(1.0)), "distance is strict");
    assert!(!on_spot(m(1.0), m(3.0), spot(0.0), m(0.01)), "so is the angle");
    assert!(on_spot(m(1.0), m(3.0), spot(5.72958), m(0.001)), "a waypoint's f is degrees");
    assert!(!on_spot(m(3.0), m(3.0), spot(0.0), m(1.0)));
}

#[test]
fn a_weapon_has_its_own_pace() {
    assert_eq!(may_fire(None, None), (true, false));
    assert_eq!(may_fire(Some(m(0.5)), None), (true, true));
    assert_eq!(may_fire(Some(m(0.5)), Some(m(0.6))), (true, true));
    assert_eq!(may_fire(Some(m(0.5)), Some(m(0.5))), (false, false));
}

#[test]
fn what_a_walker_remembers_is_its_own() {
    let mut w = Walkers::new();
    let o = Orders { gait: Some(RUN), state: Some(5), rounds: Some(2), avoid: true, ..Orders::none() };
    w.obey("a", &o);
    w.obey("b", &Orders::none());
    assert_eq!((w.gait.get("a"), w.gait.get("b")), (Some(&RUN), None));
    assert_eq!((w.state.get("a"), w.burst.get("a")), (Some(&5), Some(&2)));
    assert!(w.avoiding.has("a"));
    w.stop("a");
    assert_eq!(w.gait.get("a"), Some(&STILL));
    assert!(!w.avoiding.has("a"));
    w.fighting.insert("a".to_string(), ());
    w.bury("a");
    assert!(!w.gait.has("a") && !w.fighting.has("a"));
}
