//! Arguments, pictures, installations, reports and the registers under it all.
use goodomen::args::{args_expect, check, expect_flag, flag, position, root, starts, task, value, Task};
use goodomen::boot::Boot;
use goodomen::frames::{coverage, judge, moved, ppm, Verdict, CLEAR};
use goodomen::input::Input;
use goodomen::install::{containers_of, entries_named, file_name_of, find_case_insensitively};
use goodomen::install::{is_container, script_names, source, verdict, Container, Install};
use goodomen::install::{Outcome, Source};
use goodomen::install::Verdict as End;
use goodomen::measure::rank;
use goodomen::names::Names;
use goodomen::order::{sorted, sorted_once, text_before};
use goodomen::sweep::{combine, judge_play, judge_run, missing, slots, unite, Sweep};
use goodomen::tally::{count, error_kind, error_line, is_scene_graph, makes, only_in, work_list, Ticking};
use goodomen::text::{decimal, integer, lowercase, parse_usize};

fn args(list: &[&str]) -> Vec<String> {
    list.iter().map(|s| s.to_string()).collect()
}

#[test]
fn arguments_are_found_where_they_stand() {
    let a = args(&["--level", "3", "--expect", "12", "game"]);
    assert_eq!(position(&a, "--expect"), Some(2));
    assert!(flag(&a, "--level") && !flag(&a, "--boot"));
    assert_eq!(value(&a, "--level"), Some("3"));
    assert_eq!(value(&a, "game"), None, "there is nothing behind it");
    assert_eq!(args_expect(&a), Some(12));
    assert_eq!(expect_flag(&a, "--level"), Some(3));
    assert_eq!(expect_flag(&a, "--boot"), None);
    assert_eq!(expect_flag(&args(&["--expect", "many"]), "--expect"), None);
    let numeric = vec![false, true, false, true, false];
    let takes = args(&["--level", "--expect"]);
    assert_eq!(root(&a, &numeric, &takes), Some(4));
    assert_eq!(root(&args(&["--boot"]), &vec![false], &takes), None);
}

#[test]
fn what_was_expected_is_held_against_what_was_found() {
    assert_eq!(check(3, "levels", None), None);
    assert_eq!(check(3, "levels", Some(3)), None);
    assert!(check(3, "levels", Some(4)).is_some());
    assert_eq!(starts(7, vec![1, 2]), [7]);
    assert_eq!(starts(0, vec![]), [1]);
    assert_eq!(starts(0, vec![3, 1, 3, 2]), [1, 2, 3]);
    assert_eq!(task(&args(&["--triangle"])), Task::Triangle);
    assert_eq!(task(&args(&["game"])), Task::Survey);
}

#[test]
fn a_picture_is_written_the_right_way_up() {
    // two rows of one pixel, the lower one first
    let pixels = vec![1, 2, 3, 255, 4, 5, 6, 255];
    let mut want = b"P6\n1 2\n255\n".to_vec();
    want.extend_from_slice(&[4, 5, 6, 1, 2, 3]);
    assert_eq!(ppm(1, 2, &pixels), want);
    assert_eq!(moved(&pixels, &pixels), 0);
    assert_eq!(moved(&pixels, &vec![1, 2, 3, 255, 4, 5, 7, 255]), 1);
}

#[test]
fn a_picture_is_judged_by_what_is_on_it() {
    let mut pixels = Vec::new();
    for k in 0..4u8 {
        pixels.extend_from_slice(&[CLEAR[0], CLEAR[1], CLEAR[2], 255]);
        pixels.extend_from_slice(&[200, k / 2 * 50, 9, 255]);
    }
    assert_eq!(coverage(&pixels), (4, 2));
    assert_eq!(judge(1, 100, 999), Verdict::AlmostNothing);
    assert_eq!(judge(2, 100, 255), Verdict::NoTextures);
    assert_eq!(judge(2, 100, 256), Verdict::Fine);
}

#[test]
fn an_installation_is_searched_in_order() {
    assert!(is_container("game.zip"));
    assert!(!is_container(".zip"), "a name that is all extension has none");
    assert!(!is_container("game.txt"));
    assert_eq!(containers_of(&vec![]), None);
    assert_eq!(file_name_of("a/b/C.mod").as_deref(), Some("C.mod"));
    let listing = args(&["Track18a.acm", "track01a.acm"]);
    assert_eq!(find_case_insensitively(&listing, "music/TRACK01A.ACM"), Some(1));
    assert_eq!(find_case_insensitively(&listing, "track02.acm"), None);
    let install = Install {
        root: "game".to_string(),
        containers: vec![
            Container { path: "b".to_string(), entries: args(&["z.MOD", "a.txt"]) },
            Container { path: "c".to_string(), entries: args(&["M.mod"]) },
        ],
        override_dir: None,
    };
    assert_eq!(install.entry_count(), 3);
    let found: Vec<(String, usize, usize)> = entries_named(&install, "mod")
        .into_iter()
        .map(|e| (e.name, e.container, e.index))
        .collect();
    assert_eq!(found, [("m.mod".to_string(), 1, 0), ("z.mod".to_string(), 0, 0)]);
}

#[test]
fn a_search_ends_with_what_is_found() {
    assert_eq!(verdict(&vec![]), End::Missing);
    assert_eq!(verdict(&vec![Outcome::Missing, Outcome::Missing]), End::Missing);
    assert_eq!(verdict(&vec![Outcome::Broken, Outcome::Found]), End::Found(1));
    assert_eq!(verdict(&vec![Outcome::Broken, Outcome::Broken, Outcome::Missing]), End::Broken(1));
}

#[test]
fn an_error_is_counted_by_its_kind() {
    let text = "[string \"l1\"]:3: attempt to index a nil value\nstack traceback:";
    assert_eq!(error_kind(text), "attempt to index a nil value");
    assert_eq!(error_line(text), "[string \"l1\"]:3: attempt to index a nil value");
    assert_eq!(error_kind("nothing else"), "nothing else");
    assert_eq!(error_line("  x  \ny"), "x");
    let mut counts: Names<usize> = Names::new();
    for name in ["b", "a", "b", "c"] {
        count(&mut counts, name.to_string());
    }
    let list: Vec<(String, usize)> = work_list(&counts).into_iter().map(|m| (m.name, m.calls)).collect();
    assert_eq!(list, [("b".to_string(), 2), ("a".to_string(), 1), ("c".to_string(), 1)]);
    assert!(makes("mdkCreateMenu") && !makes("mdkFade"));
}

#[test]
fn a_run_counts_its_calls_and_its_edges() {
    let set = |names: &[&str]| {
        let mut n: Names<()> = Names::new();
        for name in names {
            n.insert(name.to_string(), ());
        }
        n
    };
    let mut t = Ticking::new();
    t.called("OnUpdate", true);
    t.called("OnUpdate", false);
    t.called("OnDie", true);
    assert_eq!(t.total(), (3, 2));
    let (on, off) = t.touch(set(&["floor", "wall"]));
    assert_eq!((on, off), (args(&["floor", "wall"]), vec![]));
    let (on, off) = t.touch(set(&["floor"]));
    assert_eq!((on, off), (vec![], args(&["wall"])));
    assert_eq!(t.touched.all(), ["floor", "wall"]);
    assert_eq!(only_in(&set(&["a", "b"]), &set(&["b"])), ["a"]);
}

#[test]
fn a_binding_is_a_scancode_or_the_mouse_s() {
    let mut i = Input::new();
    i.make_command(1, "W".to_string(), 0);
    assert_eq!((i.commands[0].id, i.commands[0].key.as_str()), (1, "W"));
    for id in [17, 1000, 1008, 999, 237, 238, -1, 999] {
        i.bind(1, id);
    }
    assert_eq!(i.bindings.len(), 7, "a number below nought binds nothing");
    assert_eq!(i.faults(), [238, 999, 1008]);
}

#[test]
fn a_register_is_kept_in_order() {
    let mut n: Names<i64> = Names::new();
    for (k, name) in ["m", "a", "z", "m"].iter().enumerate() {
        n.insert(name.to_string(), k as i64);
    }
    assert_eq!(n.all(), ["a", "m", "z"]);
    assert_eq!((n.len(), n.get("m"), n.get("q")), (3, Some(&3), None));
    assert_eq!(n.at(0), ("a", &1));
    assert_eq!(n.take("a"), Some(1));
    assert!(!n.has("a"));
    n.remove("z");
    assert_eq!(n.take_all(), [("m".to_string(), 3)]);
    assert_eq!(n.len(), 0);
    assert_eq!(Names::of(vec![("x".to_string(), 1)]).get("x"), Some(&1));
}

#[test]
fn texts_and_numbers_are_put_in_order() {
    assert_eq!(sorted(args(&["b", "a", "ab"])), ["a", "ab", "b"]);
    assert_eq!(sorted_once(vec![3, 1, 3]), [1, 3]);
    assert!(text_before("a", "a") && text_before("a", "ab") && !text_before("b", "ab"));
    assert_eq!((decimal(0), decimal(1203)), ("0".to_string(), "1203".to_string()));
    assert_eq!((integer(-45), integer(7)), ("-45".to_string(), "7".to_string()));
    assert_eq!(integer(i64::MIN), i64::MIN.to_string());
    assert_eq!((parse_usize("0012"), parse_usize("12x"), parse_usize("")), (Some(12), None, None));
    assert_eq!(parse_usize("99999999999999999999"), None);
    assert_eq!(lowercase("KURT.Mod"), "kurt.mod");
}

#[test]
fn measures_are_ordered_as_the_numbers_are() {
    let numbers = [f64::NEG_INFINITY, -2.5, -1e-300, 0.0, 1e-300, 0.1, 0.5, 45.0, f64::INFINITY];
    for a in numbers {
        for b in numbers {
            let (x, y) = (rank(a.to_bits()), rank(b.to_bits()));
            assert_eq!((x < y, x == y), (a < b, a == b), "{a} and {b}");
        }
    }
    assert_eq!(rank((-0.0f64).to_bits()), 0);
    assert_eq!(rank(0.1f64.to_bits()), goodomen::measure::TENTH);
    assert_eq!(rank(0.17f64.to_bits()), goodomen::walkers::FACING);
    assert_eq!(rank(0.02f64.to_bits()), goodomen::walkers::SQUARE);
    assert_eq!(rank(10_000f64.to_bits()), goodomen::damage::EARSHOT);
}

fn tally(list: &[(&str, usize)]) -> Names<usize> {
    let mut out = Names::new();
    for (name, n) in list {
        out.insert(name.to_string(), *n);
    }
    out
}

#[test]
fn registers_and_counts_are_put_together() {
    let (mut a, mut b) = (Names::new(), Names::new());
    a.insert("x".to_string(), ());
    b.insert("x".to_string(), ());
    b.insert("a".to_string(), ());
    unite(&mut a, &b);
    assert_eq!(a.all(), ["a", "x"]);
    let mut c = tally(&[("nil", 3), ("table", 1)]);
    combine(&mut c, &tally(&[("nil", 2), ("boolean", 4)]));
    assert_eq!(c.all(), ["boolean", "nil", "table"]);
    assert_eq!((c.get("nil"), c.get("boolean"), c.get("table")), (Some(&5), Some(&4), Some(&1)));
}

/// A level with two rooms, a checkpoint, a good binding and a bad one.
fn level() -> Boot<u8> {
    let mut b: Boot<u8> = Boot::new();
    b.rooms.add("l1_r1".to_string());
    b.rooms.add("l1_r2".to_string());
    b.checkpoints.set(1, [0, 0, 0], [0, 0, 0], 0, None);
    b.stasis.insert("l1_r1".to_string(), ());
    b.input.make_command(7, "J".to_string(), 0);
    b.input.bind(7, 200);
    b.input.bind(7, 999);
    b.preload("Kurt");
    b.preload_sound("Rumble1");
    b.record("mdkGetCamera");
    b
}

#[test]
fn a_sweep_adds_its_starts_up() {
    let mut s = Sweep::new();
    assert_eq!(s.judge(&args(&[]), 0), None);
    s.learn(&level());
    s.learn(&level());
    assert_eq!((s.rooms, s.checkpoints, s.stasis, s.timers), (4, 2, 2, 0));
    assert_eq!((s.commands, s.bindings), (1, 2), "the most that any level has");
    assert_eq!(s.faults, [999], "each once");
    s.ran(&level(), 10, 8, &tally(&[("nil", 2)]));
    s.ran(&level(), 5, 5, &tally(&[]));
    assert_eq!((s.started, s.fired, s.survived), (2, 15, 13));
    assert_eq!(s.resources.all(), ["kurt"]);
    assert_eq!(s.sounds.all(), ["rumble1"]);
    assert_eq!(s.work.get("mdkGetCamera"), Some(&2));
    assert_eq!(s.why.get("nil"), Some(&2));
}

#[test]
fn a_sweep_is_judged_by_the_first_thing_that_is_wrong() {
    let mut s = Sweep::new();
    s.ran(&level(), 15, 13, &tally(&[]));
    let said = |s: &Sweep, a: &[&str], missing: usize| s.judge(&args(a), missing);
    assert_eq!(said(&s, &[], 0), None);
    assert_eq!(said(&s, &["--expect", "1", "--expect-resources", "1"], 0), None);
    assert_eq!(said(&s, &["--expect", "2"], 0).as_deref(), Some("1 boots, expected 2"));
    assert_eq!(
        said(&s, &["--expect-resources", "0"], 0).as_deref(),
        Some("1 resources, expected 0")
    );
    assert_eq!(said(&s, &["--expect-rooms", "3"], 0).as_deref(), Some("0 rooms, expected 3"));
    assert_eq!(said(&s, &["--expect-bindings", "3"], 0).as_deref(), Some("0 bindings, expected 3"));
    assert_eq!(
        said(&s, &["--expect-events", "16"], 0).as_deref(),
        Some("15 handler calls, expected 16")
    );
    assert_eq!(
        said(&s, &["--expect-survived", "1"], 9).as_deref(),
        Some("13 handlers ran to the end, expected 1")
    );
    assert_eq!(said(&s, &[], 9).as_deref(), Some("9 named resources are not in the game"));
    s.learn(&level());
    s.faults.push(1008);
    assert_eq!(said(&s, &[], 0).as_deref(), Some("2 bound ids are neither: {999, 1008}"));
    s.failed(3, 12, "no such file");
    assert_eq!(s.failures, ["l3 cp12: no such file"]);
    assert_eq!(said(&s, &["--expect", "2"], 9).as_deref(), Some("1 of 2 boots failed"));
}

#[test]
fn a_run_is_judged_and_reported() {
    assert_eq!(judge_run(2, 10, 9, &args(&[])), None);
    assert_eq!(
        judge_run(2, 10, 9, &args(&["--expect-rooms", "3", "--expect-events", "1"])).as_deref(),
        Some("2 rooms entered, expected 3")
    );
    assert_eq!(
        judge_run(2, 10, 9, &args(&["--expect-events", "1"])).as_deref(),
        Some("10 handler calls, expected 1")
    );
    assert_eq!(
        judge_run(2, 10, 9, &args(&["--expect-survived", "10"])).as_deref(),
        Some("9 handlers ran to the end, expected 10")
    );
    let mut t = Ticking::new();
    t.called("OnUpdate", true);
    t.called("OnUpdate", false);
    t.called("OnTimer", true);
    assert_eq!(slots(&t), ["OnTimer 1/1", "OnUpdate 1/2"]);
}

#[test]
fn the_scripts_of_an_installation_are_each_named_once() {
    let install = Install {
        root: "game".to_string(),
        containers: vec![
            Container { path: "b".to_string(), entries: args(&["MDK2.lua", "a.txt"]) },
            Container { path: "c".to_string(), entries: args(&["mdk2.LUA", "Level1.lua"]) },
        ],
        override_dir: Some("override".to_string()),
    };
    let patches = args(&["LEVEL1.lua", "boss.lua", "kurt.mod"]);
    assert_eq!(script_names(&install, &patches), ["boss.lua", "level1.lua", "mdk2.lua"]);
    assert!(is_scene_graph("x = 1\nmdkRegisterObject(\"a\", 1)"));
    assert!(!is_scene_graph("mdkRegisterObject = nil"));
}

#[test]
fn a_frame_is_judged_by_the_first_thing_that_is_wrong() {
    let args = |words: &[&str]| words.iter().map(|w| w.to_string()).collect::<Vec<String>>();
    assert_eq!(judge_play(10, 0, &args(&["goodomen"])), None);
    let both = args(&["goodomen", "--expect-drawn", "10", "--expect-moving", "5"]);
    assert_eq!(judge_play(10, 5, &both), None);
    assert_eq!(judge_play(10, 900, &both), None);
    assert_eq!(judge_play(9, 0, &both), Some("drew 9 triangles, expected 10".to_string()));
    assert_eq!(
        judge_play(10, 4, &both),
        Some(
            "4 pixels moved between two clocks, expected at least 5 \
             -- the node transforms are not reaching the shader"
                .to_string()
        )
    );
}

#[test]
fn a_patch_wins_over_the_containers() {
    let patches = args(&["readme.txt", "Level1.LUA"]);
    let found = vec![Outcome::Missing, Outcome::Found];
    assert_eq!(source(&patches, "level1.lua", &found), Source::Patch(1));
    assert_eq!(source(&patches, "scripts/level1.lua", &vec![]), Source::Patch(1));
    assert_eq!(source(&patches, "level2.lua", &found), Source::Packed(End::Found(1)));
    assert_eq!(source(&vec![], "level1.lua", &vec![]), Source::Packed(End::Missing));
}

#[test]
fn what_cannot_be_read_in_any_way_is_missing() {
    assert_eq!(missing(&vec![]), 0);
    let none = [false; 4];
    let as_texture = [false, false, true, false];
    assert_eq!(missing(&vec![none, as_texture, [true; 4], none]), 2);
    assert_eq!(missing(&vec![[true, false, false, false], [false, false, false, true]]), 0);
}
