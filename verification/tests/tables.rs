//! The tables, the keys and the menus.
use goodomen::keys::{dik, KEYS};
use goodomen::menu::{justification, Justify, Menu, Nudge, Widget};
use goodomen::tables::{ai, bullet, diff_scale, gait_animation, limping, locomotion, table_model};

/// SDL's numbers for the arrows.
const UP: i32 = 82;
const DOWN: i32 = 81;
const LEFT: i32 = 80;
const RIGHT: i32 = 79;

#[test]
fn the_arrows_are_the_demos_own_numbers() {
    assert_eq!(dik(UP), Some(200));
    assert_eq!(dik(DOWN), Some(208));
    assert_eq!(dik(LEFT), Some(203));
    assert_eq!(dik(RIGHT), Some(205));
    assert_eq!(dik(-1), None, "what the game cannot bind stands for nothing");
}

#[test]
fn nothing_is_listed_twice() {
    let mut ids: Vec<u32> = KEYS.iter().map(|(d, _)| *d).collect();
    ids.sort_unstable();
    let before = ids.len();
    ids.dedup();
    assert_eq!(ids.len(), before, "a scancode is in the table twice");
    let mut keys: Vec<i32> = KEYS.iter().map(|(_, s)| *s).collect();
    keys.sort_unstable();
    let before = keys.len();
    keys.dedup();
    assert_eq!(keys.len(), before, "an SDL key is in the table twice");
}

fn menu(items: usize) -> Menu<f32> {
    let mut m = Menu::new([0.0f32, 0.0, 0.05, 0.05, 0.0], 0, None, [0.0, 0.0], 0.0);
    for i in 0..items {
        m.add(b"x".to_vec(), i, 0.0, 0.0, 0.05, 0.0);
    }
    m
}

#[test]
fn the_cursor_steps_over_a_disabled_item() {
    let mut m = menu(3);
    m.items[1].enabled = false;
    m.step(1);
    assert_eq!(m.selected, 2);
    m.step(1);
    assert_eq!(m.selected, 0);
    m.step(-1);
    assert_eq!(m.selected, 2);
}

#[test]
fn a_menu_of_nothing_but_disabled_items_does_not_spin() {
    let mut m = menu(1);
    m.items[0].enabled = false;
    m.step(1);
    assert_eq!(m.selected, 0);
    let mut none = menu(0);
    none.step(1);
    assert_eq!(none.selected, 0);
}

#[test]
fn a_menu_keeps_what_it_is_given() {
    let mut m = menu(2);
    assert_eq!((m.items[1].handle, m.items[1].enabled), (1, true));
    m.retitle(Some(b"paused".to_vec()), [0.25, 0.5], 6.0);
    assert_eq!(m.title.as_deref(), Some(&b"paused"[..]));
    assert_eq!((m.title_at, m.title_width, m.items.len()), ([0.25, 0.5], 6.0, 2));
    assert!(matches!(justification(0), Justify::Left));
    assert!(matches!(justification(1), Justify::Right));
    assert!(matches!(justification(2), Justify::Centre));
}

#[test]
fn a_nudge_is_the_widget_s() {
    let mut m = menu(1);
    assert!(matches!(m.nudge(), Nudge::Leave));
    m.items[0].widget = Widget::CheckBox;
    assert!(matches!(m.nudge(), Nudge::Toggle));
    m.items[0].widget = Widget::Slider { step: 0.25 };
    assert!(matches!(m.nudge(), Nudge::Slide(s) if s == 0.25));
    m.items[0].widget = Widget::Combo(vec![b"a".to_vec(), b"b".to_vec(), b"c".to_vec()]);
    assert!(matches!(m.nudge(), Nudge::Walk(2)));
    m.items[0].widget = Widget::TextBox(b"me".to_vec());
    assert!(matches!(m.nudge(), Nudge::Leave));
    m.items[0].widget = Widget::CheckBox;
    m.items[0].enabled = false;
    assert!(matches!(m.nudge(), Nudge::Leave), "a disabled item is left alone");
}

#[test]
fn what_is_disabled_is_drawn_at_seven_tenths() {
    let mut m = menu(2);
    assert_eq!(m.colour(0), [10_000, 7_000, 3_000, 10_000]);
    assert_eq!(m.colour(1), [2_500, 4_500, 6_500, 10_000]);
    m.items[1].enabled = false;
    assert_eq!(m.colour(1), [1_750, 3_150, 4_550, 7_000]);
}

/// Twice the difficulty times the base, cut towards zero.
fn scaled(difficulty: f32, base: i32) -> i32 {
    diff_scale((2.0 * difficulty * base as f32) as i32, base)
}

#[test]
fn the_difficulty_doubles_and_hard_leaves_the_base_alone() {
    let menu = [0.2f32, 0.35, 0.5, 1.0];
    let got: Vec<i32> = menu.iter().map(|d| scaled(*d, 40)).collect();
    assert_eq!(got, [16, 28, 40, 80]);
    assert_eq!(scaled(menu[3], 2000), 4000, "Zizzy on Jinkies!");
}

#[test]
fn a_non_zero_base_never_scales_to_zero() {
    assert_eq!(scaled(0.0, 5000), 1, "a difficulty of zero still leaves one");
    assert_eq!(scaled(0.0, -5000), -1);
    assert_eq!(scaled(0.5, 0), 0, "but zero stays zero");
}

#[test]
fn a_doganboy_on_its_last_hitpoints_walks_at_half_speed() {
    // walking is gait 1
    let (speed, _) = locomotion(207, 1).unwrap();
    assert_eq!(speed, 6, "a doganboy walks at six");
    assert!(!limping(207, 100));
    assert_eq!(gait_animation(207, 1, 100), Some(6));
    assert!(limping(207, 20), "and half of six when hurt");
    assert!(!limping(207, 21));
    assert_eq!(gait_animation(207, 1, 20), Some(77), "off the second table");
    assert!(!limping(202, 1), "only the doganboy limps");
}

#[test]
fn the_tables_know_their_types() {
    let shot = bullet(430).unwrap();
    assert_eq!(shot.0, "lasershot");
    assert!(bullet(1).is_none());
    assert!(ai(207).is_some() && ai(100).is_none());
    assert_eq!(table_model(204), Some("hans"));
    assert_eq!(table_model(800), None);
}
