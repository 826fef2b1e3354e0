//! The world: objects, damage, shots and what is frozen.
use goodomen::body::{fall_damage, gives_back, way_round, Rest, Stance, LAND_SAFE};
use goodomen::damage::{blast, deal_damage, gun_damage, hearers, hitscan, shot_ends, shot_hits};
use goodomen::damage::{falls_over, is_damage_type, Dealt, DAMAGE_FALLING, DAMAGE_GOODGUY};
use goodomen::measure::rank;
use goodomen::names::Names;
use goodomen::stasis::{awake, create_once, freeze_flagged, fresh, frozen, running};
use goodomen::streaming::{are_parents_first, destroy_room, is_ringless};
use goodomen::tables::{base_hitpoints, bullet, FILTER_GOODGUY_SNIPER};
use goodomen::walkers::Walkers;
use goodomen::world::{Gob, Hit, World};

fn m(x: f64) -> i64 {
    rank(x.to_bits())
}

/// An object of a type, at a place.
fn gob(name: &str, kind: i64, at: [f64; 3]) -> Gob<f64> {
    Gob { name: name.to_string(), kind, position: at, ..Gob::blank(0.0) }
}

/// Register an object on the difficulty that the world is at, which is Hard
/// until it is told otherwise.
fn add(w: &mut World<f64>, g: Gob<f64>) -> u32 {
    let base = base_hitpoints(g.kind).unwrap_or(0);
    let scaled = (2.0 * w.difficulty(0.5) * base as f64) as i32;
    w.register(g, scaled)
}

fn hitpoints(w: &World<f64>, name: &str) -> i16 {
    w.get(w.find(name).unwrap()).unwrap().hitpoints
}

fn off(a: [f64; 3], b: [f64; 3]) -> f64 {
    ((a[0] - b[0]).powi(2) + (a[1] - b[1]).powi(2) + (a[2] - b[2]).powi(2)).sqrt()
}

/// The square of how far each object is from a point, to be compared.
fn squares(w: &World<f64>, at: [f64; 3]) -> Vec<i64> {
    (0..w.len()).map(|i| m(off(w.get(i as u32).unwrap().position, at).powi(2))).collect()
}

#[test]
fn a_registration_makes_a_global_and_an_arena_entry() {
    let mut world: World<f64> = World::new(0.0);
    let mut room = gob("l1_r1", 803, [1.0, 2.0, 3.0]);
    room.bbox_min = Some([-1.0, -2.0, -3.0]);
    room.bbox_max = Some([4.0, 5.0, 6.0]);
    let first = add(&mut world, room);
    let mut door = gob("dr2", 800, [7.0, 8.0, 9.0]);
    door.parent = Some(first);
    add(&mut world, door);
    assert_eq!(world.len(), 2);
    let room = world.get(world.find("l1_r1").unwrap()).unwrap();
    assert_eq!(room.kind, 803);
    assert_eq!(room.position, [1.0, 2.0, 3.0]);
    assert_eq!(room.bbox_min, Some([-1.0, -2.0, -3.0]));
    let door = world.get(world.find("dr2").unwrap()).unwrap();
    assert_eq!(door.kind, 800);
    assert_eq!(door.parent, Some(0));
    assert_eq!(door.bbox_min, None);
}

#[test]
fn a_repeated_name_keeps_both_objects_and_the_last_global() {
    let mut world: World<f64> = World::new(0.0);
    add(&mut world, gob("d", 0, [1.0, 0.0, 0.0]));
    add(&mut world, gob("d", 0, [2.0, 0.0, 0.0]));
    assert_eq!(world.len(), 2);
    assert_eq!(world.get(world.find("d").unwrap()).unwrap().position[0], 2.0);
}

#[test]
fn an_enemy_is_registered_whole() {
    let mut world: World<f64> = World::new(0.0);
    world.set_difficulty(1.0); // Jinkies!
    let id = add(&mut world, gob("z", 260, [0.0; 3]));
    let zizzy = world.get(id).unwrap();
    assert_eq!(zizzy.max_hitpoints, 4000);
    assert_eq!(zizzy.hitpoints, zizzy.max_hitpoints, "a thing starts whole");
    assert_eq!(zizzy.damage_filter, FILTER_GOODGUY_SNIPER);

    // and a door is not an enemy
    let d = add(&mut world, gob("d", 800, [0.0; 3]));
    assert_eq!(world.get(d).unwrap().max_hitpoints, 0);
}

#[test]
fn a_destructable_takes_the_base_a_script_gives_it() {
    let mut world: World<f64> = World::new(0.0); // Hard, so 350 stays 350
    let id = add(&mut world, gob("heart", 0, [0.0; 3]));
    world.make_destructable(id, 350, 350);
    assert_eq!(world.get(id).unwrap().hitpoints, 350);
    assert!(world.hurt(id, 349) == false && world.hurt(id, 1), "and 350 hits kill it");
}

#[test]
fn the_gui_scene_is_not_the_world() {
    let mut w: World<f64> = World::new(0.0);
    add(&mut w, gob("inworld", 800, [0.0; 3]));
    let mut panel = gob("panel", 800, [0.0; 3]);
    panel.gui = true;
    let panel = add(&mut w, panel);
    let mut dial = gob("dial", 800, [0.0; 3]);
    dial.parent = Some(panel);
    add(&mut w, dial);
    let gui = |n: &str| w.get(w.find(n).unwrap()).unwrap().gui;
    assert!(!gui("inworld"));
    assert!(gui("panel"), "registered into the GUI scene");
    assert!(gui("dial"), "and a child of it is GUI whatever it was told");
}

#[test]
fn the_dead_are_neither_healed_nor_hit() {
    let mut w: World<f64> = World::new(0.0);
    let g = add(&mut w, gob("g", 202, [0.0; 3]));
    assert_eq!(hitpoints(&w, "g"), 40);
    w.heal(g, 100);
    assert_eq!(hitpoints(&w, "g"), 40, "up to the maximum");
    assert_eq!(w.take_damage(g, 30), Hit::Hurt);
    w.heal(g, 5);
    assert_eq!(hitpoints(&w, "g"), 15);
    assert_eq!(w.take_damage(g, 15), Hit::Died);
    assert_eq!(w.take_damage(g, 1), Hit::Ignored);
    w.heal(g, 5);
    assert_eq!(hitpoints(&w, "g"), 0);
    assert!(!w.hurt(99, 1), "there is nobody there");
}

#[test]
fn moving_is_counted_and_standing_still_is_not() {
    let mut w: World<f64> = World::new(0.0);
    let g = add(&mut w, gob("g", 202, [0.0; 3]));
    let before = w.generation();
    w.set_position(g, [1.0, 0.0, 0.0], false);
    assert_eq!(w.generation(), before + 1);
    w.set_position(g, [1.0, 0.0, 0.0], true);
    assert_eq!(w.generation(), before + 1);
    w.set_rotation(g, [0.0, 0.0, 0.0, 1.0], false);
    assert_eq!(w.generation(), before + 2);
    assert_eq!(w.get(g).unwrap().position, [1.0, 0.0, 0.0]);
    w.clear();
    assert!(w.is_empty() && w.find("g").is_none());
}

#[test]
fn damage_takes_hitpoints_and_the_last_of_them_kills() {
    let mut w: World<f64> = World::new(0.0);
    add(&mut w, gob("g", 202, [0.0; 3]));
    let mut died = 0;
    for (amount, left) in [(39, 1), (1, 0), (100, 0)] {
        let r = deal_damage(&mut w, "g", amount, DAMAGE_GOODGUY, false);
        died += (r == Dealt::Taken(Hit::Died)) as i32;
        assert_eq!(hitpoints(&w, "g"), left);
    }
    assert_eq!(died, 1, "the third hit found it already dead");
}

#[test]
fn the_filter_and_the_amount_both_gate_the_built_in() {
    const DAMAGE_BADGUY: i64 = 2;
    let mut w: World<f64> = World::new(0.0);
    let g = add(&mut w, gob("g", 202, [0.0; 3]));
    deal_damage(&mut w, "g", 10, DAMAGE_BADGUY, false);
    assert_eq!(hitpoints(&w, "g"), 40, "the wrong kind");
    assert_eq!(deal_damage(&mut w, "g", 0, DAMAGE_GOODGUY, false), Dealt::Nothing);
    assert_eq!(hitpoints(&w, "g"), 40, "no amount");
    w.get_mut(g).unwrap().damage_filter = 0;
    let r = deal_damage(&mut w, "g", 10, DAMAGE_GOODGUY, false);
    assert_eq!(r, Dealt::Taken(Hit::Ignored));
    assert_eq!(hitpoints(&w, "g"), 40, "invulnerable");
    assert!(is_damage_type(9, DAMAGE_GOODGUY) && !is_damage_type(9, DAMAGE_BADGUY));
}

#[test]
fn a_scripted_handler_takes_the_damage_instead_of_the_engine() {
    const DAMAGE_BADGUY: i64 = 2;
    let mut w: World<f64> = World::new(0.0);
    add(&mut w, gob("g", 202, [0.0; 3]));
    let r = deal_damage(&mut w, "g", 7, DAMAGE_BADGUY, true);
    assert_eq!(r, Dealt::Scripted, "the handler is to run");
    assert_eq!(hitpoints(&w, "g"), 40, "and the engine did not");
    // and the default that the handler can call back into does hit
    deal_damage(&mut w, "g", 7, DAMAGE_GOODGUY, false);
    assert_eq!(hitpoints(&w, "g"), 33);
}

/// The damage of a landing at a speed.
fn landing(speed: f64) -> i64 {
    let steps = ((speed - 45.0) / 5.0).floor().max(0.0) as i64;
    fall_damage(m(speed), steps)
}

#[test]
fn a_landing_costs_ten_hitpoints_every_five_units_a_second() {
    const GRAVITY: f64 = 29.8;
    assert_eq!(landing(0.0), 0);
    assert_eq!(LAND_SAFE, m(45.0));
    assert_eq!(landing(45.0), 0, "45 itself takes the quiet branch");
    assert_eq!(landing(49.9), 0);
    assert_eq!(landing(50.0), 10);
    assert_eq!(landing(55.0), 20);
    assert_eq!(landing(95.0), 100, "and that is the whole of him");
    // the fall out of level 1 room 7, 687 units onto the floor below
    assert_eq!(landing((2.0f64 * GRAVITY * 687.0).sqrt()), 310);
}

#[test]
fn a_fall_takes_the_player_s_hitpoints() {
    let mut w: World<f64> = World::new(0.0);
    add(&mut w, gob("kurt", 100, [0.0; 3]));
    assert_eq!(hitpoints(&w, "kurt"), 100);
    // a fall of 95 units a second, which is exactly the whole of him
    let r = deal_damage(&mut w, "kurt", landing(95.0), DAMAGE_FALLING, false);
    assert_eq!(r, Dealt::Taken(Hit::Died));
    assert_eq!(hitpoints(&w, "kurt"), 0);
}

/// What the gun of somebody at a place, facing +y, has in front of it.
fn under(w: &World<f64>, at: [f64; 3]) -> Vec<(i64, bool, bool)> {
    (0..w.len())
        .map(|i| {
            let p = w.get(i as u32).unwrap().position;
            let (dx, dy) = (p[0] - at[0], p[1] - at[1]);
            let flat = (dx * dx + dy * dy).sqrt();
            (m(flat), flat > 0.0 && dy / flat > 0.9, true)
        })
        .collect()
}

#[test]
fn the_player_s_gun_reaches_a_hundred_units_and_only_forwards() {
    let mut w: World<f64> = World::new(0.0);
    add(&mut w, gob("kurt", 100, [0.0; 3]));
    add(&mut w, gob("ahead", 203, [0.0, 30.0, 0.0]));
    add(&mut w, gob("behind", 203, [0.0, -30.0, 0.0]));
    add(&mut w, gob("far", 203, [0.0, 300.0, 0.0]));
    let (was_ahead, was_behind) = (hitpoints(&w, "ahead"), hitpoints(&w, "behind"));
    let kurt = "kurt".to_string();
    let mut fire = |w: &mut World<f64>, mode: i64| {
        let at = under(w, [0.0; 3]);
        let hit = hitscan(w, &kurt, &at).map(|id| w.get(id).unwrap().name.clone());
        deal_damage(w, hit.as_ref().unwrap(), gun_damage(mode), DAMAGE_GOODGUY, false);
        hit.unwrap()
    };
    assert_eq!(fire(&mut w, 0), "ahead");
    assert_eq!(hitpoints(&w, "ahead"), was_ahead - 2, "two, which is mode 0");
    assert_eq!(hitpoints(&w, "behind"), was_behind, "and nothing behind is touched");
    // mode 1 is the five-damage one
    assert_eq!(fire(&mut w, 1), "ahead");
    assert_eq!(hitpoints(&w, "ahead"), was_ahead - 7);
    // a wall in between, and there is nobody
    let blind: Vec<_> = under(&w, [0.0; 3]).iter().map(|a| (a.0, a.1, false)).collect();
    assert_eq!(hitscan(&w, &kurt, &blind), None);
}

/// Fly a shot for so many ticks, and say who it hit.
fn fly(
    w: &mut World<f64>,
    shot: u32,
    by: &str,
    aimed: Option<&str>,
    along: [f64; 3],
    ticks: usize,
) -> (Option<String>, bool) {
    let kind = w.get(shot).unwrap().kind;
    let (_, mask, damage, life, speed, _) = bullet(kind).unwrap();
    let shooter = Some(by.to_string());
    let aimed = aimed.map(|a| a.to_string());
    let mut at = w.get(shot).unwrap().position;
    let mut left = life as f64;
    for _ in 0..ticks {
        let dt = 1.0 / 30.0;
        left -= dt;
        for k in 0..3 {
            at[k] += along[k] * speed as f64 * dt;
        }
        w.set_position(shot, at, false);
        let far = squares(w, at);
        let hit = shot_hits(w, shot, &shooter, mask, &far).map(|id| w.get(id).unwrap().name.clone());
        if let Some(name) = &hit {
            deal_damage(w, name, damage as i64, mask as i64, false);
        }
        let ending = shot_ends(&hit, &aimed, m(left));
        if !ending.flies {
            return (hit, ending.landed);
        }
    }
    (None, false)
}

#[test]
fn a_shot_flies_at_its_type_s_speed_and_hurts_what_it_reaches() {
    let mut w: World<f64> = World::new(0.0);
    add(&mut w, gob("shooter", 202, [0.0; 3]));
    add(&mut w, gob("victim", 203, [20.0, 0.0, 0.0]));
    let shot = add(&mut w, gob("", 430, [0.0; 3]));
    let full = hitpoints(&w, "victim");
    // 20 units at 90 a second is under a quarter second
    let (hit, landed) = fly(&mut w, shot, "shooter", Some("victim"), [1.0, 0.0, 0.0], 20);
    assert_eq!(hit.as_deref(), Some("victim"));
    assert_eq!(hitpoints(&w, "victim"), full - 25, "a lasershot is worth 25");
    assert!(landed, "and the shooter heard it");
    // a gruntshot next to it would bounce off
    let other = add(&mut w, gob("", 427, [0.0; 3]));
    assert_eq!(fly(&mut w, other, "shooter", Some("victim"), [1.0, 0.0, 0.0], 20), (None, false));
}

#[test]
fn the_scope_shoots_where_it_is_looking() {
    let mut w: World<f64> = World::new(0.0);
    add(&mut w, gob("bob", 100, [0.0; 3]));
    add(&mut w, gob("victim", 203, [30.0, 0.0, 10.0]));
    let full = hitpoints(&w, "victim");
    let d = (30.0f64 * 30.0 + 10.0 * 10.0).sqrt();
    let shot = add(&mut w, gob("", 406, [0.0; 3]));
    fly(&mut w, shot, "bob", None, [30.0 / d, 0.0, 10.0 / d], 60);
    assert!(hitpoints(&w, "victim") < full, "it reached what the camera pointed at");
    // and the same shot along the nose goes under it, which is what makes the
    // test about the pitch and not about the shot
    let hurt = hitpoints(&w, "victim");
    let shot = add(&mut w, gob("", 406, [0.0; 3]));
    fly(&mut w, shot, "bob", None, [1.0, 0.0, 0.0], 60);
    assert_eq!(hitpoints(&w, "victim"), hurt, "flat, it passes ten units beneath");
}

#[test]
fn a_shot_that_is_out_of_time_is_over() {
    assert!(shot_ends(&None, &None, m(0.1)).flies);
    assert!(!shot_ends(&None, &None, m(0.0)).flies);
    let (a, b) = (Some("a".to_string()), Some("b".to_string()));
    assert!(!shot_ends(&a, &b, m(1.0)).flies);
    assert!(!shot_ends(&a, &b, m(1.0)).landed, "it hit somebody else");
    assert!(shot_ends(&a, &a, m(1.0)).landed);
}

#[test]
fn an_alerted_walker_shouts_once_and_is_heard_within_a_hundred_units() {
    let mut w: World<f64> = World::new(0.0);
    add(&mut w, gob("shouter", 0, [0.0, 7.0, 0.0]));
    add(&mut w, gob("near", 0, [0.0, 50.0, 0.0]));
    add(&mut w, gob("far", 0, [0.0, 500.0, 0.0]));
    let mut walkers = Walkers::new();
    assert!(walkers.alert("shouter"));
    assert!(!walkers.alert("shouter"), "the second alert is ignored entirely");
    assert!(walkers.alert("near"));
    let heard = hearers(&w, &"near".to_string(), &squares(&w, [0.0, 50.0, 0.0]));
    assert_eq!(heard, ["shouter"], "the shouter hears, the far one does not");
}

#[test]
fn a_blast_reaches_everybody_but_its_own() {
    let mut w: World<f64> = World::new(0.0);
    for (name, y) in [("s", 0.0), ("a", 1.0), ("b", 4.5), ("c", 5.0)] {
        add(&mut w, gob(name, 202, [0.0, y, 0.0]));
    }
    let near: Vec<(i64, i64)> = (0..w.len())
        .map(|i| {
            let d = off(w.get(i as u32).unwrap().position, [0.0; 3]);
            (m(d), d as i64)
        })
        .collect();
    let hurt = blast(&w, &"s".to_string(), &near, m(5.0), 15);
    assert_eq!(hurt, [("a".to_string(), 14), ("b".to_string(), 11)]);
    assert!(falls_over(202) && !falls_over(800));
}

/// A parent that is frozen by its flag, its child, and one that is free.
fn three() -> World<f64> {
    let mut w: World<f64> = World::new(0.0);
    let mut held = gob("held", 800, [0.0; 3]);
    held.flag = 1.0;
    let held = add(&mut w, held);
    let mut kid = gob("kid", 800, [0.0; 3]);
    kid.parent = Some(held);
    add(&mut w, kid);
    add(&mut w, gob("free", 800, [0.0; 3]));
    w
}

#[test]
fn a_frozen_parent_freezes_what_hangs_off_it() {
    let mut w = three();
    let mut stasis: Names<()> = Names::new();
    let flagged: Vec<bool> = (0..w.len()).map(|i| w.get(i as u32).unwrap().flag == 1.0).collect();
    freeze_flagged(&w, &flagged, &mut stasis);
    let mut ticks = [0, 0, 0];
    for name in fresh(&w) {
        assert!(create_once(&mut w, &name));
        assert!(!create_once(&mut w, &name), "nothing is created twice");
    }
    assert!(fresh(&w).is_empty());
    for _ in 0..5 {
        for name in awake(&w, &stasis) {
            ticks[["free", "held", "kid"].iter().position(|n| *n == name).unwrap()] += 1;
        }
    }
    assert_eq!(ticks, [5, 0, 0], "nothing holds it; the flag froze it, and its child with it");
    let kid = w.find("kid").unwrap();
    assert!(frozen(&w, &stasis, kid));
    // and thawing the parent thaws the subtree
    stasis.remove("held");
    assert!(!frozen(&w, &stasis, kid), "the child came back too");
    assert_eq!(awake(&w, &stasis), ["free", "held", "kid"]);
}

#[test]
fn what_is_frozen_does_not_run_and_what_is_gone_does() {
    let w = three();
    let mut stasis: Names<()> = Names::new();
    stasis.insert("held".to_string(), ());
    let mut scripted: Names<()> = Names::new();
    for name in ["kid", "free", "nobody"] {
        scripted.insert(name.to_string(), ());
    }
    assert_eq!(running(&w, &stasis, &scripted), ["free", "nobody"]);
}

#[test]
fn a_room_takes_what_hangs_off_it() {
    let mut w = three();
    assert!(are_parents_first(&w));
    assert!(is_ringless(&w));
    let mut gone = destroy_room(&mut w, "held");
    gone.sort();
    assert_eq!(gone, ["held", "kid"]);
    assert_eq!(w.find("kid"), None);
    assert!(w.find("free").is_some());
    assert!(destroy_room(&mut w, "held").is_empty(), "it is gone already");
}

#[test]
fn a_family_is_everything_that_hangs_off() {
    let mut w = three();
    let id = w.find("held").unwrap();
    let mut names = w.family(id);
    names.sort();
    assert_eq!(names, ["held", "kid"]);
    let mut gone = w.destroy(id);
    gone.sort();
    assert_eq!(gone, ["held", "kid"]);
}

#[test]
fn a_body_lands_steps_and_falls() {
    let mut s = Stance::new(false);
    s.begin(None);
    assert!(s.falls());
    assert_eq!(s.settle(true, false), (Rest::Lands, true));
    assert!(s.on_ground);
    assert!(!s.falls(), "a resting body rests");
    assert!(s.jump(true));
    assert!(!s.on_ground && !s.jump(true), "there is nothing to jump off");
    s.end(false, Some(3));
    assert_eq!((s.touching.clone(), s.inside), (vec![3], 0));
    s.end(true, None);
    assert_eq!(s.inside, 1);
    assert!(gives_back(true, false) && !gives_back(true, true) && !gives_back(false, false));
    assert_eq!(way_round(false, &vec![false, false, true, true]), Some(2));
    assert_eq!(way_round(false, &vec![false, false]), None);
}

#[test]
fn a_ring_is_found_and_a_parent_that_comes_later_is_none() {
    let hung = |name: &str, parent: Option<u32>| Gob {
        name: name.to_string(),
        parent,
        ..Gob::blank(0.0)
    };
    let mut w: World<f64> = World::new(0.0);
    assert!(is_ringless(&w));
    w.register(hung("a", Some(1)), 0);
    w.register(hung("b", Some(2)), 0);
    w.register(hung("c", None), 0);
    assert!(is_ringless(&w) && !are_parents_first(&w));
    w.register(hung("d", Some(4)), 0);
    w.register(hung("e", Some(3)), 0);
    assert!(!is_ringless(&w), "two that hang off each other");
    let mut w: World<f64> = World::new(0.0);
    w.register(hung("a", Some(0)), 0);
    assert!(!is_ringless(&w), "one that hangs off itself");
    let mut w: World<f64> = World::new(0.0);
    w.register(hung("a", Some(77)), 0);
    assert!(is_ringless(&w), "what it hangs off is nowhere");
}
