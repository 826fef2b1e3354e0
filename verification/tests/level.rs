//! What happens in a level: animations, doors, spawners, rooms and the rest.
use goodomen::anim::{struck, stroke, walk_animation, Anims, Stretch, Stroke};
use goodomen::boot::{key_name, recorders, waiting_on, Answer, Boot, Fog};
use goodomen::damage::fired;
use goodomen::doors::{lock, prox_doors, push, switch_blower, Draught, ANIM_CLOSE, ANIM_OPEN};
use goodomen::inventory::{Bank, NOTHING, SLOTS};
use goodomen::level::{dofile_key, drawn_from, event_slots, model_for_type, model_of, placement};
use goodomen::level::{graph_placements, lights, place_of, placements, places, room_of};
use goodomen::level::{start_chunk, visibility, Loaded, Place, OBJ_CHECKPOINT, OBJ_ROOM};
use goodomen::level::OBJ_STATICLIGHT;
use goodomen::measure::rank;
use goodomen::modes::PlayModes;
use goodomen::names::Names;
use goodomen::rooms::{entry, rooms_around, Checkpoints, Entry, Rooms, Setting, Visibility};
use goodomen::script::Scripts;
use goodomen::sounds::{Parts, Sense, Sounds};
use goodomen::spawners::{spawn_name, spawned, Definition, Spawners};
use goodomen::stasis::running;
use goodomen::streaming::{destroy_rooms, homeless, stream};
use goodomen::tables::{bullet, item};
use goodomen::tick::{next, Stage, STAGES};
use goodomen::timers::Timers;
use goodomen::world::{Gob, World};

fn m(x: f64) -> i64 {
    rank(x.to_bits())
}

fn gob(name: &str, kind: i64, at: [f64; 3]) -> Gob<f64> {
    Gob { name: name.to_string(), kind, position: at, ..Gob::blank(0.0) }
}

#[test]
fn locomotion_picks_the_direction_it_is_going() {
    let walk = |f: f64, r: f64| walk_animation(m(f), m(r));
    assert_eq!(walk(1.0, 0.0), "ANIM_RUNF");
    assert_eq!(walk(-1.0, 0.0), "ANIM_RUNB");
    assert_eq!(walk(0.0, 1.0), "ANIM_RUNR");
    assert_eq!(walk(0.0, -1.0), "ANIM_RUNL");
    assert_eq!(walk(1.0, 1.0), "ANIM_RUNFR");
    assert_eq!(walk(-1.0, -1.0), "ANIM_RUNBL");
    assert_eq!(walk(0.0, 0.0), "ANIM_DEFAULT");
    // a twitch is not a walk
    assert_eq!(walk(0.01, -0.01), "ANIM_DEFAULT");
    assert_eq!(walk(1.0, -1.0), "ANIM_RUNFL");
    assert_eq!(walk(-1.0, 1.0), "ANIM_RUNBR");
}

/// The clock of an animation, forwards: it moves by a thirtieth of a second.
struct Played {
    at: f64,
    span: f64,
}

impl Played {
    fn advance(&mut self) -> Stretch {
        let was = self.at;
        let now = was + 1.0 / 30.0;
        let s = Stretch {
            was: m(was),
            now: m(now),
            span: m(self.span),
            before: m(now - self.span),
            behind: m(now + self.span),
            backwards: false,
        };
        self.at = if s.wraps() { now - self.span } else { now };
        s
    }
}

#[test]
fn an_animation_key_fires_the_shot_the_model_names() {
    // one shot, and one custom key beside it to show the other half of the split
    let keys = vec![(56, m(0.513), 421), (56, m(0.6), 12)];
    let mut clock = Played { at: 0.0, span: 0.0 };
    let mut codes = Vec::new();
    for _ in 0..30 {
        codes.extend(struck(&keys, 56, &clock.advance()));
    }
    assert_eq!(codes, [421, 12], "one shot and one custom key, once each");
    assert_eq!(stroke(12), Stroke::Custom(12));
    // the shot exists, carries hansshot's numbers, and is flying
    let mut w: World<f64> = World::new(0.0);
    let mut shots = 0;
    for code in codes {
        if let Stroke::Object(kind) = stroke(code) {
            let shot = fired("h", kind, [1.0, 2.0, 3.0], 0.0).unwrap();
            assert_eq!(Some(shot.filter), bullet(421).map(|b| b.1));
            assert_eq!(Some(shot.damage), bullet(421).map(|b| b.2));
            assert_eq!(Some(shot.speed), bullet(421).map(|b| b.4));
            assert_eq!(shot.shooter, "h");
            w.register(shot.gob, 0);
            shots += 1;
        }
    }
    assert_eq!(shots, 1, "and the shot is a real one");
    assert_eq!(key_name("h", 421), "h_key421");
    let id = w.find("h_key421").expect("the key made a bullet");
    assert_eq!(w.get(id).unwrap().kind, 421);
    assert_eq!(w.get(id).unwrap().position, [1.0, 2.0, 3.0]);
    assert!(fired("h", 100, [0.0; 3], 0.0).is_none(), "Kurt is no shot");
}

#[test]
fn every_code_does_what_its_range_says() {
    assert_eq!(stroke(0), Stroke::Nothing);
    assert_eq!(stroke(19), Stroke::Custom(19));
    assert_eq!(stroke(20), Stroke::Earthquake(1));
    assert_eq!(stroke(29), Stroke::Earthquake(10));
    assert_eq!(stroke(30), Stroke::ScreenFlash(1));
    assert_eq!(stroke(99), Stroke::ScreenFlash(70));
    assert_eq!(stroke(100), Stroke::Object(100));
    assert_eq!(stroke(-1), Stroke::Nothing);
}

#[test]
fn an_animation_comes_round_and_its_key_fires_again() {
    let keys = vec![(56, m(0.3), 421)];
    let mut anims = Anims::new();
    anims.play("h", 56);
    let mut clock = Played { at: 0.0, span: 1.0 };
    let (mut hits, mut loops) = (0usize, 0usize);
    // 95 ticks is 3.167 seconds: three wraps, and three passes of a key at 0.3
    for _ in 0..95 {
        anims.begin();
        let s = clock.advance();
        hits += struck(&keys, 56, &s).len();
        if s.wraps() {
            anims.came_round("h", 56, false);
            loops += 1;
            assert!(anims.just_looped("h", Some(56)), "the one that looped");
            assert!(!anims.just_looped("h", Some(57)), "and not one that did not");
        } else {
            assert!(!anims.just_looped("h", Some(56)));
        }
    }
    assert_eq!(loops, 3, "three seconds of a one-second loop wraps three times");
    assert_eq!(hits, 3, "and the key comes round with it");
}

#[test]
fn an_animation_runs_backwards_too() {
    let keys = vec![(1, m(0.5), 7), (1, m(0.95), 8)];
    let back = |was: f64, now: f64| Stretch {
        was: m(was),
        now: m(now),
        span: m(1.0),
        before: m(now - 1.0),
        behind: m(now + 1.0),
        backwards: true,
    };
    assert_eq!(struck(&keys, 1, &back(0.6, 0.4)), [7]);
    assert_eq!(struck(&keys, 1, &back(0.1, -0.1)), [8], "over the wrap");
    assert_eq!(struck(&keys, 2, &back(0.6, 0.4)), []);
    assert!(back(0.1, -0.1).wraps() && !back(0.6, 0.4).wraps());
}

#[test]
fn a_one_shot_animation_ends_and_a_loop_does_not() {
    let mut anims = Anims::new();
    anims.play("a", 17);
    anims.play("b", 6);
    let (mut a, mut b) = (Played { at: 0.0, span: 0.5 }, Played { at: 0.0, span: 0.5 });
    for _ in 0..30 {
        anims.begin();
        if a.advance().wraps() {
            anims.came_round("a", 17, true);
        }
        if b.advance().wraps() {
            anims.came_round("b", 6, false);
        }
    }
    assert!(!anims.is_playing("a", Some(17)), "a one-shot has stopped");
    assert!(anims.is_playing("b", Some(6)), "and a loop has not");
    anims.play("a", 17);
    assert!(anims.is_playing("a", Some(17)), "asking again starts it");
    assert!(anims.is_playing("a", None) && !anims.is_playing("a", Some(6)));
    anims.stop("a");
    assert!(!anims.is_playing("a", None));
}

#[test]
fn legs_do_not_take_a_pose_back_before_it_has_come_round() {
    let mut anims = Anims::new();
    assert_eq!(anims.legs("w", 207, 1, 100), Some(6));
    anims.pose("w", 6);
    assert_eq!(anims.legs("w", 207, 1, 100), None, "it is up already");
    assert!(anims.walker_play("w", 56, true), "a gait may be replaced");
    assert!(!anims.walker_play("w", 57, true), "and a pose may not");
    assert_eq!(anims.legs("w", 207, 0, 100), None, "while it stands the pose is held");
    assert_eq!(anims.legs("w", 207, 2, 100), Some(7), "moving, it is not");
    anims.came_round("w", 56, false);
    assert_eq!(anims.legs("w", 207, 0, 100), Some(107));
    assert!(!anims.walker_play("w", 57, false), "its model does not have it");
    assert!(anims.walker_play("w", 57, true));
    assert_eq!(anims.playing("w"), Some(57));
}

#[test]
fn a_prox_door_opens_when_the_player_is_inside_its_radius() {
    let mut w: World<f64> = World::new(0.0);
    let mut near = gob("near", 700, [0.0; 3]);
    near.payload = [8.0, 0.0, 0.0, 0.0];
    w.register(near, 0);
    w.register(gob("far", 700, [0.0; 3]), 0);
    let (mut anims, mut locked) = (Anims::new(), Names::new());
    let doors = |at: [f64; 3], anims: &mut Anims, locked: &Names<()>| {
        let d = (at[0] * at[0] + at[1] * at[1] + at[2] * at[2]).sqrt();
        let from: Vec<(i64, i64)> =
            (0..2).map(|i| (m(d), m(w.get(i).unwrap().payload[0]))).collect();
        prox_doors(&w, &from, locked, anims)
    };
    // fifteen units out: inside the usual 20, outside the payload's 8
    assert_eq!(doors([15.0, 0.0, 0.0], &mut anims, &locked), 1);
    assert_eq!(anims.playing("near"), None, "8 away is not 15");
    assert_eq!(anims.playing("far"), Some(ANIM_OPEN), "a payload of 0 reaches 20");
    // walk in, and the near one opens too
    doors([0.0, 5.0, 0.0], &mut anims, &locked);
    assert_eq!(anims.playing("near"), Some(ANIM_OPEN));
    // walk out, and both shut
    assert_eq!(doors([100.0, 0.0, 0.0], &mut anims, &locked), 2);
    assert_eq!(anims.playing("near"), Some(ANIM_CLOSE));
    assert_eq!(anims.playing("far"), Some(ANIM_CLOSE));
    assert_eq!(doors([100.0, 0.0, 0.0], &mut anims, &locked), 0, "once a crossing");
    // a locked door stays shut however near he stands
    lock("near", true, &mut locked, &mut anims);
    doors([0.0, 0.0, 0.0], &mut anims, &locked);
    assert_eq!(anims.playing("near"), Some(ANIM_CLOSE), "locked");
    assert_eq!(anims.playing("far"), Some(ANIM_OPEN), "and the other is not");
    // and unlocking lets the next tick notice him
    lock("near", false, &mut locked, &mut anims);
    doors([0.0, 0.0, 0.0], &mut anims, &locked);
    assert_eq!(anims.playing("near"), Some(ANIM_OPEN));
    // one that is open shuts when it is locked
    lock("near", true, &mut locked, &mut anims);
    assert_eq!(anims.playing("near"), Some(ANIM_CLOSE));
}

/// What a blower at the origin knows that points up, five across and blows up
/// to ten units a second.
fn draught(at: [f64; 3], v: [f64; 3], length: f64) -> Draught {
    Draught {
        along: m(at[2]),
        back: m(0.0),
        end: m(length),
        aside: m(at[0] * at[0] + at[1] * at[1]),
        wide: m(25.0),
        speed: m(v[2]),
        strength: m(10.0),
    }
}

#[test]
fn a_blower_pushes_up_its_own_tube_until_the_speed_it_names() {
    let still = [0.0; 3];
    let up = |at: [f64; 3], v: [f64; 3]| 40.0 * push(&draught(at, v, 35.0)) as f64;
    assert_eq!(up([0.0, 0.0, 10.0], still), 40.0, "up the middle");
    assert_eq!(up([4.9, 0.0, 10.0], still), 40.0, "just inside the radius");
    assert_eq!(up([5.1, 0.0, 10.0], still), 0.0, "just outside it");
    assert_eq!(up([0.0, 0.0, 34.9], still), 40.0, "just inside the length");
    assert_eq!(up([0.0, 0.0, 35.1], still), 0.0, "past the end");
    assert_eq!(up([0.0, 0.0, -0.1], still), 0.0, "behind the mouth");
    // and it lets go once he is going that fast along the axis
    assert_eq!(up([0.0, 0.0, 10.0], [0.0, 0.0, 9.9]), 40.0);
    assert_eq!(up([0.0, 0.0, 10.0], [0.0, 0.0, 10.0]), 0.0, "at the strength");
    assert_eq!(up([0.0, 0.0, 10.0], [99.0, 0.0, 0.0]), 40.0, "sideways is not along");
    // a script can switch it off and lengthen it
    let (mut off, mut anims) = (Names::new(), Anims::new());
    switch_blower("fan", false, &mut off, &mut anims);
    assert!(off.has("fan"), "off");
    assert_eq!(anims.playing("fan"), Some(62));
    switch_blower("fan", true, &mut off, &mut anims);
    assert!(!off.has("fan"));
    assert_eq!(anims.playing("fan"), Some(61));
    assert_eq!(push(&draught([0.0, 0.0, 40.0], still, 50.0)), 1, "longer than it was");
    let sucks = Draught { strength: m(-10.0), ..draught([0.0, 0.0, 10.0], still, 35.0) };
    assert_eq!(push(&sucks), -1);
}

fn define(kind: i64, waypoint: Option<&str>, payload: [f64; 4], interval: f64) -> Definition<f64> {
    let waypoint = waypoint.map(|w| w.to_string());
    Definition { kind, waypoint, payload, interval, room: None }
}

/// A tick of so many seconds.
fn spawn_tick(s: &mut Spawners<f64>, dt: f64) -> Vec<String> {
    let after: Vec<(f64, bool)> = (0..s.list.len())
        .map(|i| {
            let less = s.list.at(i).1.timer - dt;
            (less, less <= 0.0)
        })
        .collect();
    s.tick(&after)
}

#[test]
fn a_queued_spawner_makes_one_object_per_interval() {
    let mut w: World<f64> = World::new(0.0);
    let gen = Gob { rotation: [1.0, 0.0, 0.0, 0.0], ..gob("gen", 0, [5.0, 6.0, 7.0]) };
    w.register(gen, 0);
    let mut s: Spawners<f64> = Spawners::new();
    s.define("gen".to_string(), define(207, Some("wp"), [60.0, 0.7, 0.0, 0.0], 3.0), 0.0);
    s.queue("gen", 2, 0.0);
    let mut made: Vec<String> = Vec::new();
    let mut step = |s: &mut Spawners<f64>, w: &mut World<f64>| -> usize {
        for name in spawn_tick(s, 1.0) {
            let g = spawned(s, w, &name, 0.0, 1.0).unwrap();
            made.push(g.name.clone());
            // the base of a doganboy, on Hard
            w.register(g, 100);
        }
        made.len()
    };
    // the queue was empty, so the countdown was reset and the first one arrives
    // on the tick after the call rather than an interval later
    assert_eq!(step(&mut s, &mut w), 1, "the first comes at once");
    for _ in 0..2 {
        assert_eq!(step(&mut s, &mut w), 1, "and the next waits out the 3s");
    }
    assert_eq!(step(&mut s, &mut w), 2);
    // nothing is owed now, so the clock may run without making any more
    for _ in 0..10 {
        assert_eq!(step(&mut s, &mut w), 2);
    }
    assert_eq!(made[0], "gen_spawn", "named after the spawner, once");
    assert_eq!(spawn_name("gen"), "gen_spawn");
    // it stands where the spawner stands, wears the waypoint, carries the four
    // numbers, and has hitpoints
    let g = w.get(w.find("gen_spawn").unwrap()).unwrap();
    assert_eq!(g.position, [5.0, 6.0, 7.0]);
    assert_eq!(g.rotation, [1.0, 0.0, 0.0, 0.0]);
    assert_eq!(g.resource.as_deref(), Some("wp"));
    assert_eq!(g.payload, [60.0, 0.7, 0.0, 0.0]);
    assert_eq!(g.hitpoints, 100, "OBJ_DOGANBOY, on Hard");
    // a spawner that was never told makes nothing, and one that is nowhere makes
    // it at the origin
    assert!(spawned(&s, &w, "nobody", 0.0, 1.0).is_none());
    s.define("void".to_string(), define(202, None, [0.0; 4], 1.0), 0.0);
    let g = spawned(&s, &w, "void", 0.0, 1.0).unwrap();
    assert_eq!((g.position, g.rotation), ([0.0; 3], [1.0, 0.0, 0.0, 0.0]));
    assert_eq!((g.name.as_str(), g.kind, g.resource), ("void_spawn", 202, None));
}

#[test]
fn a_spawner_that_has_been_shut_off_stays_off() {
    let mut s: Spawners<f64> = Spawners::new();
    let grunt = || define(202, None, [0.0; 4], 1.0);
    s.define("gen".to_string(), grunt(), 0.0);
    s.queue("gen", 5, 0.0);
    s.shut_off("gen");
    s.queue("gen", 5, 0.0);
    s.define("gen".to_string(), grunt(), 0.0);
    s.queue("gen", 5, 0.0);
    for _ in 0..20 {
        assert!(spawn_tick(&mut s, 1.0).is_empty());
    }
}

#[test]
fn spawning_by_hand_ignores_the_queue_and_the_clock() {
    let mut s: Spawners<f64> = Spawners::new();
    s.define("gen".to_string(), define(260, None, [0.0; 4], 99.0), 0.0);
    let mut w: World<f64> = World::new(0.0);
    let mut made = Vec::new();
    for _ in 0..3 {
        let kind = s.makes_of("gen").unwrap().kind;
        let id = w.register(gob(&spawn_name("gen"), kind, [0.0; 3]), 2000);
        made.push(w.get(id).unwrap().hitpoints);
    }
    assert_eq!(made.len(), 3, "three calls, three objects");
    assert!(made.iter().all(|hp| *hp == 2000), "zizzy on Hard");
    assert_eq!(s.list.get("gen").unwrap().queue, 0);
}

#[test]
fn an_unconfigured_spawner_makes_nothing() {
    let mut s: Spawners<f64> = Spawners::new();
    assert!(s.makes_of("gen").is_none());
    s.queue("gen", 3, 0.0);
    assert!(spawn_tick(&mut s, 1.0).is_empty());
    s.define("gen".to_string(), define(0, Some(""), [0.0; 4], 1.0), 0.0);
    assert!(s.makes_of("gen").is_none(), "a type of nought is none");
    assert_eq!(s.list.get("gen").unwrap().waypoint, None, "and so is a waypoint with no name");
}

/// Give so many of an item; its bank is the lowest bit of what the table says.
fn slots(b: &Bank) -> Vec<(i64, i64)> {
    (0..SLOTS).filter_map(|i| b.slot(i)).collect()
}

#[test]
fn what_a_character_carries_is_counted_and_two_handed() {
    // 317 grenade and 329 toaster are one bank, 328 loaf is the other
    let (mut one, mut other) = (Bank::new(), Bank::new());
    one.give(317, 5, None);
    one.give(317, 5, None);
    other.give(328, 1, Some(-1));
    one.give(329, 1, None);
    assert_eq!(slots(&one), [(317, 10), (329, 1)]);
    assert_eq!(slots(&other), [(328, -1)], "a loaf is unlimited");
    assert!(other.contains(328));
    assert!(!one.contains(330) && !other.contains(330), "booze it never had");
    assert_eq!(other.held(), 328, "the other hand");
    one.remove(329, 1);
    assert_eq!(slots(&one), [(317, 10)], "the slot goes with the last one");
    assert!(item(317).is_some());
}

#[test]
fn a_bank_has_seven_slots() {
    let mut b = Bank::new();
    b.give(0, 1, None);
    b.give(NOTHING, 1, None);
    assert_eq!(slots(&b), [], "nothing is never given");
    assert_eq!(b.held(), 0);
    for kind in 301..310 {
        b.give(kind, 2, None);
    }
    assert_eq!(slots(&b).len(), SLOTS);
    assert!(b.contains(307) && !b.contains(308), "there is no place for it");
    b.remove(301, 1);
    assert_eq!(b.slot(0), Some((301, 1)));
    b.remove(301, 5);
    assert_eq!(b.slot(0), Some((302, 2)), "the rest move down");
    b.give(302, 1, Some(-1));
    assert_eq!(b.slot(0), Some((302, -1)));
    b.remove(302, 1);
    assert_eq!(b.slot(0), Some((302, -1)), "what is unlimited is not taken from");
    b.give(302, 4, None);
    assert_eq!(b.slot(0), Some((302, -1)));
}

#[test]
fn the_mode_switch_reaches_the_room() {
    let mut modes = PlayModes::new();
    let mut heard = 0;
    let mut switch = |modes: &mut PlayModes, mode: i64| {
        if modes.ask(mode) {
            heard += mode;
        }
        modes.commit(mode);
        heard
    };
    assert_eq!(switch(&mut modes, 4), 4, "the scope reaches the room that asked");
    assert_eq!(switch(&mut modes, 4), 4, "and only on a change");
    assert_eq!(switch(&mut modes, 1), 5, "coming back out is a switch too");
    assert_eq!(modes.mode, 1);
    modes.set_gob(2, "max".to_string());
    modes.set_gob(1, "kurt".to_string());
    modes.commit(2);
    assert_eq!(modes.player.as_deref(), Some("max"));
    assert!(!modes.commit(7), "nobody plays that");
    assert_eq!(modes.player.as_deref(), Some("max"));
    modes.set_gob(2, "hyde".to_string());
    assert_eq!(modes.player_in(2).map(|s| s.as_str()), Some("hyde"));
}

#[test]
fn the_three_fog_calls_make_one_state() {
    let mut fog: Fog<f32> = Fog::new(0.0);
    assert!(!fog.on, "off until asked");
    fog.start_end(50.0, 200.0);
    fog.tint([0.0, 0.1, 0.2]);
    fog.switch(true);
    assert_eq!((fog.near, fog.far), (50.0, 200.0));
    assert_eq!(fog.colour, [0.0, 0.1, 0.2]);
    assert!(fog.on);
    // and it is turned off again without disturbing the distances
    fog.switch(false);
    assert!(!fog.on);
    assert_eq!((fog.near, fog.far), (50.0, 200.0));
}

#[test]
fn a_task_list_gets_past_a_wait() {
    let scripts = Scripts::new().unwrap();
    let chunk = scripts
        .prepare(
            "wait",
            "g = {}\n\
             past = 0\n\
             delta = 0\n\
             function ScriptUpdate(self) past = past + delta end",
        )
        .unwrap();
    Scripts::ran(chunk.call(())).unwrap();
    let mut w: World<f64> = World::new(0.0);
    w.register(gob("g", 800, [0.0; 3]), 0);
    let mut boot: Boot<f64> = Boot::new();
    boot.enable_script("g", true);
    let globals = scripts.lua.globals();
    for _ in 0..60 {
        globals.set("delta", 1.0 / 30.0).unwrap();
        for name in running(&w, &boot.stasis, &boot.scripted) {
            let g: mlua::Table = globals.get(name.as_str()).unwrap();
            let update: mlua::Function = globals.get("ScriptUpdate").unwrap();
            update.call::<()>(g).unwrap();
        }
    }
    let past = globals.get::<f64>("past").unwrap();
    assert!((past - 2.0).abs() < 1e-6, "sixty thirtieths of a second: {past}");
    boot.enable_script("g", false);
    assert!(running(&w, &boot.stasis, &boot.scripted).is_empty());
    assert!(boot.ever_scripted.has("g"));
}

#[test]
fn the_doctor_has_a_model() {
    assert_eq!(model_for_type(100, Some("OBJ_KURT")).as_deref(), Some("kurt"));
    assert_eq!(model_for_type(101, Some("OBJ_MAX")).as_deref(), Some("max"));
    assert_eq!(model_for_type(103, Some("OBJ_HYDE")).as_deref(), Some("hyde"));
    assert_eq!(
        model_for_type(102, Some("OBJ_DOC")).as_deref(),
        Some("dr"),
        "`doc.mod` is not a file in the game"
    );
}

#[test]
fn a_model_is_what_the_tables_say_or_what_was_asked_for() {
    assert_eq!(model_of(204, Some("wp3"), Some("OBJ_HANS")).as_deref(), Some("hans"));
    assert_eq!(model_of(800, Some("dr1"), Some("OBJ_SCENERY")).as_deref(), Some("dr1"));
    assert_eq!(model_of(800, Some("hum.WAV"), Some("OBJ_SCENERY")).as_deref(), Some("scenery"));
    assert_eq!(model_of(800, None, None), None);
    assert_eq!(model_for_type(OBJ_CHECKPOINT, Some("OBJ_CHECKPOINT")), None);
    assert_eq!(placement(800, Some("dr1"), None), Some(("dr1".to_string(), false)));
    assert_eq!(placement(204, None, None), Some(("hans".to_string(), true)));
    assert_eq!(placement(800, Some("x.wav"), None), None);
}

#[test]
fn what_names_a_model_is_placed_in_its_room() {
    let mut w: World<f64> = World::new(0.0);
    let mut rooms: Rooms<f64> = Rooms::new();
    rooms.add("hall".to_string());
    let hall = w.register(gob("hall", OBJ_ROOM, [0.0; 3]), 0);
    let mut add = |name: &str, kind: i64, resource: Option<&str>| {
        w.register(
            Gob {
                parent: Some(hall),
                resource: resource.map(str::to_string),
                ..gob(name, kind, [0.0; 3])
            },
            0,
        )
    };
    let chair = add("chair", 800, Some("chair1"));
    add("hum", 800, Some("HUM.wav"));
    let lamp = add("lamp", OBJ_STATICLIGHT, None);
    let hans = add("hans", 204, None);
    let sun = add("sun", OBJ_STATICLIGHT, Some("sun1"));
    let labels: Vec<Option<String>> = vec![None; w.len()];
    let list = placements(&w, &rooms, &labels);
    let seen: Vec<_> =
        list.iter().map(|p| (p.id, p.model.as_str(), p.by_type, p.room)).collect();
    assert_eq!(
        seen,
        [
            (chair, "chair1", false, Some(0)),
            (hans, "hans", true, Some(0)),
            (sun, "sun1", false, Some(0)),
        ]
    );
    // a sound is placed where the graph alone is drawn, and counted as no model
    let graph: Vec<_> =
        graph_placements(&w).into_iter().map(|p| (p.model, p.by_type, p.room)).collect();
    assert_eq!(
        graph,
        ["chair1", "HUM.wav", "sun1"].map(|n| (n.to_string(), false, None)).to_vec()
    );
    assert_eq!(lights(&w), [lamp, sun]);
    // what could be had of the models: one that stands still, one that moves
    let found = vec![Some(false), Some(true), None];
    assert_eq!(places(&found), [Some(Place::World), Some(Place::Object), None]);
    let l = Loaded::count(&w, &list, &found, 120);
    assert_eq!((l.objects, l.placed, l.without_a_model, l.by_type), (6, 2, 1, 1));
    assert_eq!(l.triangles, 120);
}

#[test]
fn only_an_animated_model_is_moved_to_its_object() {
    assert_eq!(place_of(true), Place::Object);
    assert_eq!(place_of(false), Place::World);
}

#[test]
fn what_has_no_behaviour_is_counted_and_answers() {
    let functions = ["mdkNewMenu", "mdkShake", "mdkDie"].map(|s| s.to_string()).to_vec();
    let mut behaved: Names<()> = Names::new();
    behaved.insert("mdkDie".to_string(), ());
    let recorded = recorders(&functions, &behaved);
    assert_eq!(recorded.all(), ["mdkNewMenu", "mdkShake"]);
    let mut boot: Boot<f64> = Boot::new();
    for _ in 0..5 {
        assert_eq!(boot.call(&recorded, "mdkShake"), Some(Answer::Nothing));
        assert_eq!(boot.call(&recorded, "mdkDie"), None, "it behaves");
    }
    assert_eq!(boot.call(&recorded, "mdkNewMenu"), Some(Answer::Fresh));
    assert_eq!(boot.unimplemented.get("mdkShake"), Some(&5));
    assert_eq!(boot.unimplemented.get("mdkNewMenu"), Some(&1));
    assert_eq!(boot.unimplemented.get("mdkDie"), None);
}

#[test]
fn a_level_is_started_by_a_chunk() {
    assert_eq!(
        start_chunk(4, 11, "b"),
        "levelchanged, sectionchanged = 1, 1\nlevel(4, 11, \"b\")"
    );
    assert_eq!(dofile_key("Level1"), "level1.lua");
    assert_eq!(dofile_key("MDK2.LUA"), "mdk2.lua");
    let all = ["OnUpdate", "x", "OnCreate", "OnDie", "On"].map(|s| s.to_string()).to_vec();
    assert_eq!(event_slots(all), ["On", "OnDie", "OnUpdate"]);
}

/// Three rooms in a row, ten units long each, the middle one drawing the last.
fn rooms() -> Rooms<f64> {
    let mut rooms: Rooms<f64> = Rooms::new();
    for (i, name) in ["a", "b", "c"].iter().enumerate() {
        assert_eq!(rooms.add(name.to_string()), i);
        let x = 10.0 * i as f64;
        rooms.set_box(i, [m(x), m(0.0), m(0.0), m(x + 10.0), m(10.0), m(10.0)]);
    }
    rooms.add_visible(1, &"c".to_string());
    rooms
}

#[test]
fn rooms_are_numbered_and_hold_points() {
    let mut r = rooms();
    assert_eq!(r.add("b".to_string()), 1, "a name that is there keeps its room");
    assert_eq!(r.len(), 3);
    assert_eq!(r.number(&"c".to_string()), Some(2));
    assert_eq!(r.number(&"z".to_string()), None);
    r.add_visible(1, &"c".to_string());
    r.add_visible(1, &"z".to_string());
    assert_eq!(r.get(1).unwrap().visible, [2]);
    r.set(2, Setting::Env, Some(0.5));
    r.set(9, Setting::Music, Some(0.5));
    assert_eq!(r.get(2).unwrap().env, Some(0.5));
    assert!(r.get(2).unwrap().music.is_none());
    assert_eq!(drawn_from(&r, 0), [0]);
    assert_eq!(drawn_from(&r, 1), [1, 2]);
    let v = visibility(&r, &vec![None, None, None]);
    assert_eq!(v.visible, [vec![0], vec![1, 2], vec![2]]);
    assert_eq!(v.at(&[m(5.0), m(5.0), m(5.0)]), [0]);
    assert_eq!(v.at(&[m(10.0), m(5.0), m(5.0)]), [0, 1], "boxes do overlap");
    assert_eq!(v.at(&[m(99.0), m(5.0), m(5.0)]), []);
    assert_eq!(rooms_around(&r, &[m(15.0), m(1.0), m(1.0)]), ["b"]);
}

#[test]
fn a_room_is_entered_when_it_changes() {
    assert_eq!(entry(None, None), Entry::Same);
    assert_eq!(entry(Some(1), Some(1)), Entry::Same);
    assert_eq!(entry(Some(1), Some(2)), Entry::Entered(2));
    assert_eq!(entry(None, Some(0)), Entry::Entered(0));
    assert_eq!(entry(Some(1), None), Entry::Left);
}

/// A world of those rooms, with a thing in each.
fn furnished() -> World<f64> {
    let mut w: World<f64> = World::new(0.0);
    for name in ["a", "b", "c"] {
        let id = w.register(gob(name, OBJ_ROOM, [0.0; 3]), 0);
        let mut thing = gob(&format!("{name}_thing"), 800, [0.0; 3]);
        thing.parent = Some(id);
        w.register(thing, 0);
    }
    w
}

#[test]
fn a_level_is_streamed_from_its_checkpoints() {
    let mut points: Checkpoints<f64> = Checkpoints::new();
    let at = |x: f64| [m(x), m(5.0), m(5.0)];
    points.set(1, [5.0, 5.0, 5.0], at(5.0), 0.0, None);
    points.set(2, [15.0, 5.0, 5.0], at(15.0), 0.0, None);
    points.delete_room(2, "a".to_string());
    points.set_prev(2, Some(0));
    points.delete_room(9, "b".to_string());
    assert_eq!(points.gone_at(1), Vec::<String>::new());
    assert_eq!(points.gone_at(2), ["a"]);
    assert_eq!(points.get(1).unwrap().prev, Some(0));
    let mut w = furnished();
    let (mut gone, lost) = stream(&mut w, &rooms(), &points, 2);
    gone.sort();
    assert_eq!(gone, ["a", "a_thing"]);
    assert!(!lost);
    assert!(w.find("a_thing").is_none() && w.find("b_thing").is_some());
    // a checkpoint whose own room is on its list leaves nowhere to start
    points.delete_room(2, "b".to_string());
    let (_, lost) = stream(&mut w, &rooms(), &points, 2);
    assert!(lost);
    assert!(homeless(&w, &vec!["a".to_string()]));
    assert!(!homeless(&w, &vec!["a".to_string(), "c".to_string()]));
}

#[test]
fn rooms_go_one_after_the_other() {
    let mut w = furnished();
    let thing = w.find("c_thing").unwrap();
    assert_eq!(room_of(&w, &rooms(), thing), Some(2));
    let gone = destroy_rooms(&mut w, &vec!["c".to_string(), "z".to_string(), "a".to_string()]);
    assert_eq!(gone.len(), 4);
    assert!(w.find("c").is_none() && w.find("b").is_some());
    let other = w.find("b_thing").unwrap();
    assert_eq!(room_of(&w, &rooms(), other), Some(1));
}

#[test]
fn a_timer_is_called_once() {
    let mut t = Timers::new();
    t.set("b".to_string(), m(1.0));
    t.set("a".to_string(), m(0.5));
    t.set("c".to_string(), m(9.0));
    assert!(t.take_due(m(0.4)).is_empty());
    assert_eq!(t.take_due(m(1.0)), ["a", "b"]);
    assert!(t.take_due(m(1.0)).is_empty());
    t.set("c".to_string(), m(2.0));
    assert_eq!(t.take_due(m(3.0)), ["c"], "the later word counts");
}

#[test]
fn sounds_and_parts_have_handles() {
    let mut s = Sounds::new();
    assert_eq!(s.add_sound("door".to_string(), "creak".to_string(), 1), 0);
    assert_eq!(s.add_sound("door".to_string(), "slam".to_string(), 0), 1);
    s.play(1);
    s.play(7);
    s.play(0);
    s.play(1);
    assert_eq!(s.listen(), [1, 0, 1]);
    assert!(s.listen().is_empty());
    assert_eq!((s.list[0].played, s.list[1].played), (1, 2));
    let mut p = Parts::new();
    assert_eq!((p.intern("arm".to_string()), p.intern("leg".to_string())), (0, 1));
    assert_eq!(p.intern("arm".to_string()), 0);
    assert_eq!(p.part_name(1), Some("leg"));
    assert_eq!((p.part_name(-1), p.part_name(2)), (None, None));
    p.set(1, Sense::Sight, false);
    p.set(0, Sense::Touch, false);
    assert_eq!(p.off(Sense::Sight), ["leg"]);
    assert_eq!(p.off(Sense::Touch), ["arm"]);
    p.set(1, Sense::Sight, true);
    assert!(p.off(Sense::Sight).is_empty());
}

#[test]
fn a_boot_keeps_what_was_asked_for() {
    let mut b: Boot<f64> = Boot::new();
    b.preload("Kurt.MOD");
    b.preload("kurt.mod");
    b.preload_sound("Step.WAV");
    assert_eq!(b.resources.all(), ["kurt.mod"]);
    assert!(b.hard_coded.has("step.wav"));
    for name in ["chFade", "chText", "chFade"] {
        b.record(name);
    }
    let list: Vec<(String, usize)> = b.work_list().into_iter().map(|w| (w.name, w.calls)).collect();
    assert_eq!(list, [("chFade".to_string(), 2), ("chText".to_string(), 1)]);
    b.walkers.gait.insert("g".to_string(), 2);
    b.bury("g", 202);
    b.bury("crate", 800);
    assert_eq!(b.died, ["g", "crate"]);
    assert_eq!(b.anims.playing("g"), Some(17), "it falls over where it stood");
    assert_eq!(b.anims.playing("crate"), None);
    assert!(!b.walkers.gait.has("g"));
    assert_eq!(waiting_on(Some("Wait"), true, "", Some("2.0")), "Wait [2.0 left]");
    assert_eq!(
        waiting_on(None, false, "g", None),
        "an anonymous function (untouched)(g)"
    );
}

#[test]
fn a_tick_goes_through_its_stages_in_order() {
    let mut stages = Vec::new();
    let mut at = next(None);
    while let Some(s) = at {
        stages.push(s);
        at = next(Some(s));
    }
    assert_eq!(stages.len(), STAGES);
    let place = |s: Stage| stages.iter().position(|x| *x == s).unwrap();
    assert_eq!(place(Stage::Player), 0);
    assert!(place(Stage::Room) < place(Stage::Timers));
    assert!(place(Stage::Timers) < place(Stage::Updates));
    assert_eq!(place(Stage::Scripts), STAGES - 1);
}

#[test]
fn a_point_is_told_by_the_rooms_it_is_in() {
    let v: Visibility<f64> = Visibility {
        names: vec!["hall".to_string(), "yard".to_string(), "loft".to_string(), String::new()],
        boxes: vec![
            Some([0, 0, 0, 10, 10, 10]),
            None,
            Some([5, 0, 0, 15, 10, 10]),
            Some([20, 0, 0, 30, 10, 10]),
        ],
        visible: vec![vec![0, 1, 2], vec![1], vec![2], vec![3, 0]],
        env: vec![None; 4],
        music: vec![None; 4],
    };
    assert_eq!(v.whereabouts(&[1, 1, 1]), ("hall".to_string(), 3));
    assert_eq!(v.whereabouts(&[7, 1, 1]), ("hall, loft".to_string(), 3));
    assert_eq!(v.whereabouts(&[12, 1, 1]), ("loft".to_string(), 1));
    assert_eq!(v.whereabouts(&[25, 1, 1]), ("no room".to_string(), 2));
    assert_eq!(v.whereabouts(&[99, 1, 1]), ("no room".to_string(), 0));
}
