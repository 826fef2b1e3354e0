//! DirectInput scancodes, which are the ids the game binds keys by.
//!
//! SDL hands out numbers of its own, the usage ids of USB, so the two have to
//! be put side by side. There is no formula: a DirectInput scancode is the make
//! code of an old keyboard. A key that is not in the table is a key that
//! nothing is bound to.
use vstd::prelude::*;

verus! {

/// The DirectInput scancode of a key, and the number of its SDL one.
pub const KEYS: [(u32, i32); 63] = [
    (1, 41),  // Escape
    (2, 30),  // Num1
    (3, 31),  // Num2
    (4, 32),  // Num3
    (5, 33),  // Num4
    (6, 34),  // Num5
    (7, 35),  // Num6
    (8, 36),  // Num7
    (9, 37),  // Num8
    (10, 38),  // Num9
    (11, 39),  // Num0
    (12, 45),  // Minus
    (13, 46),  // Equals
    (14, 42),  // Backspace
    (15, 43),  // Tab
    (16, 20),  // Q
    (17, 26),  // W
    (18, 8),  // E
    (19, 21),  // R
    (20, 23),  // T
    (21, 28),  // Y
    (22, 24),  // U
    (23, 12),  // I
    (24, 18),  // O
    (25, 19),  // P
    (26, 47),  // LeftBracket
    (27, 48),  // RightBracket
    (28, 40),  // Return
    (29, 224),  // LCtrl
    (30, 4),  // A
    (31, 22),  // S
    (32, 7),  // D
    (33, 9),  // F
    (34, 10),  // G
    (35, 11),  // H
    (36, 13),  // J
    (37, 14),  // K
    (38, 15),  // L
    (39, 51),  // Semicolon
    (40, 52),  // Apostrophe
    (41, 53),  // Grave
    (42, 225),  // LShift
    (43, 49),  // Backslash
    (44, 29),  // Z
    (45, 27),  // X
    (46, 6),  // C
    (47, 25),  // V
    (48, 5),  // B
    (49, 17),  // N
    (50, 16),  // M
    (51, 54),  // Comma
    (52, 55),  // Period
    (53, 56),  // Slash
    (54, 229),  // RShift
    (56, 226),  // LAlt
    (57, 44),  // Space
    (200, 82),  // Up
    (203, 80),  // Left
    (205, 79),  // Right
    (208, 81),  // Down
    (156, 88),  // KpEnter
    (157, 228),  // RCtrl
    (184, 230),  // RAlt
];

/// Do these two numbers stand for the same key?
pub open spec fn same_key(dik: u32, scancode: i32) -> bool {
    exists|i: int| 0 <= i < KEYS@.len() && #[trigger] KEYS@[i] == (dik, scancode)
}

/// No key is listed twice: a DirectInput scancode has one SDL number, and an
/// SDL number one DirectInput scancode.
pub proof fn nothing_is_listed_twice(a: u32, b: u32, x: i32, y: i32)
    requires
        same_key(a, x),
        same_key(b, y),
    ensures
        a == b <==> x == y,
{
    assert(forall|i: int, j: int| 0 <= i < j < 63 ==> KEYS@[i].0 != KEYS@[j].0);
    assert(forall|i: int, j: int| 0 <= i < j < 63 ==> KEYS@[i].1 != KEYS@[j].1);
}

/// The DirectInput scancode that SDL's key stands for, if the game can bind it.
pub fn dik(scancode: i32) -> (r: Option<u32>)
    ensures
        match r {
            Some(d) => same_key(d, scancode),
            None => forall|d: u32| !same_key(d, scancode),
        },
{
    let mut i: usize = 0;
    while i < 63
        invariant
            i <= 63,
            forall|j: int| 0 <= j < i ==> (#[trigger] KEYS@[j]).1 != scancode,
        decreases 63 - i,
    {
        if KEYS[i].1 == scancode {
            assert(KEYS@[i as int] == (KEYS@[i as int].0, scancode));
            return Some(KEYS[i].0);
        }
        i = i + 1;
    }
    None
}

/// Every row of [`KEYS`] is found from its number of SDL's, and a number that
/// is in no row stands for no key.
pub proof fn every_key_is_found(i: int, dik: u32, scancode: i32)
    requires
        0 <= i < 63,
    ensures
        same_key(dik, KEYS@[i].1) <==> dik == KEYS@[i].0,
        (forall|j: int| 0 <= j < 63 ==> (#[trigger] KEYS@[j]).1 != scancode) ==> !same_key(
            dik,
            scancode,
        ),
{
    assert(KEYS@[i] == (KEYS@[i].0, KEYS@[i].1));
    assert(same_key(KEYS@[i].0, KEYS@[i].1));
    if same_key(dik, KEYS@[i].1) {
        nothing_is_listed_twice(dik, KEYS@[i].0, KEYS@[i].1, KEYS@[i].1);
    }
}

} // verus!
