//! What each type of object is: the tables that the engine reads.
//!
//! A type is the number that the scripts know under an `OBJ_` name. Columns
//! that are fractions are held as whole numbers of a stated part.
use vstd::prelude::*;

verus! {

/// The walkers: type, model, and hitpoints before the difficulty.
pub const BASE_HITPOINTS: [(i64, &'static str, i32); 19] = [
    (201, "samsmite", 20),
    (215, "samfire", 20),
    (216, "samrock", 20),
    (203, "conehead", 45),
    (250, "coneciv", 50),
    (200, "bif", 400),
    (204, "hans", 700),
    (205, "hoser", 55),
    (202, "grunt", 40),
    (219, "grunt", 40),
    (207, "doganboy", 100),
    (214, "ultradogan", 225),
    (211, "bfb", 500),
    (220, "shwang", 1000),
    (210, "badmax", 5000),
    (217, "poopsy", 65),
    (206, "angel", 500),
    (208, "birdbrain1", 200),
    (260, "zizzy", 2000),
];

/// The three heroes: type, hitpoints and damage filter. The difficulty changes
/// what they fight and never what they are.
pub const PLAYER: [(i64, i16, i16); 3] = [
    (100, 100, 0x9d6),
    (103, 240, 0x8d6),
    (101, 200, 0x8d6),
];

/// The shots: type, model, damage mask, damage, lifetime in seconds (-1 for
/// none), speed, and flags.
pub const BULLET: [(i64, &'static str, i16, i16, i32, i32, i32); 69] = [
    (400, "bifshot", 1026, 5, 5, 60, 0x802),
    (404, "birdshot", 2, 3, 4, 60, 0x800),
    (420, "rpmissl", 2, 5, 30, 20, 0x803),
    (417, "dbgrenade", 1026, 10, 30, 20, 0x2809),
    (403, "dboy1shot", 2, 2, 4, 40, 0x0),
    (423, "pdboy1shot", 2, 4, 4, 40, 0x0),
    (412, "powergenshot", 1026, 5, 5, 60, 0x802),
    (421, "hansshot", 1026, 3, 4, 60, 0x800),
    (435, "badmaxshot1", 2, 8, 4, 70, 0x801),
    (441, "badmaxshot2", 3, 5, 5, 60, 0x1802),
    (427, "gruntshot", 2, 2, 4, 40, 0x800),
    (425, "udboy1shot", 1026, 10, 4, 100, 0x2800),
    (432, "udboy2shot", 1027, 5, 5, 60, 0x1802),
    (428, "hosershot", 2, 2, 4, 40, 0xc00),
    (413, "turshot01", 2, 2, 4, 60, 0x0),
    (419, "turshot02", 2, 1, 4, 60, 0x0),
    (452, "turshot03", 2, 2, 4, 60, 0x0),
    (453, "turshot04", 2, 2, 4, 500, 0x800),
    (454, "turshot04", 2, 2, 4, 500, 0x800),
    (455, "turshot06", 2, 10, 10, 90, 0x20801),
    (456, "grmissl", 0, 0, 5, 35, 0x2),
    (457, "turshot01", 2, 2, 4, 60, 0x0),
    (458, "turshot09", 2, 2, 4, 70, 0x0),
    (459, "turshot10", 2, 10, 5, 80, 0x801),
    (460, "turshot11", 2, 10, 5, 80, 0x801),
    (461, "turshot12", 2, 10, 5, 80, 0x801),
    (462, "turshot13", 2, 5, 5, 160, 0x800),
    (463, "turshot14", 2, 10, 5, 80, 0x801),
    (464, "turshot15", 2, 10, 5, 80, 0x801),
    (465, "turshot16", 2, 10, 5, 80, 0x801),
    (466, "turshot17", 2, 10, 5, 80, 0x801),
    (467, "turshot18", 2, 10, 5, 80, 0x801),
    (468, "turshot19", 2, 10, 5, 80, 0x801),
    (469, "turshot20", 2, 10, 5, 80, 0x801),
    (416, "toast_missle", 1, 15, 10, 50, 0x831),
    (422, "blackhole", 1, 0, 30, 25, 0x28c8),
    (405, "grenade", 1027, 10, 30, 25, 0x2c09),
    (424, "decoygrenade", 0, 0, 30, 25, 0x28c8),
    (401, "grmissl", 1027, 12, 30, 20, 0xa03),
    (418, "moltov", 1025, 12, 30, 25, 0x809),
    (414, "rpmissl", 3, 6, 10, 20, 0xa03),
    (415, "toast_flop", 1, 0, 30, 25, 0x831),
    (406, "sniperbullet", 1, 25, 6, 300, 0x804),
    (407, "snipergrenade", 1027, 40, 6, 200, 0x805),
    (408, "sniperhoming", 1025, 60, 30, 100, 0xa06),
    (411, "snipermortar", 1027, 20, 30, 50, 0xc0d),
    (410, "sniperbounce", 1027, 20, 30, 60, 0x915),
    (430, "lasershot", 1, 25, 1, 90, 0x4),
    (431, "lasershot2", 1, 40, 1, 90, 0x4),
    (433, "toastbaguette", 1, 50, 30, 50, 0xa33),
    (436, "toastpumper", 1027, 20, 30, 50, 0xc0d),
    (434, "bfbshot", 2, 4, 4, 40, 0x0),
    (437, "sniperlock", 0, 0, -1, 20, 0x1a008),
    (451, "sniperlock", 0, 0, -1, 25, 0x1a008),
    (438, "bfbshotseek", 0, 0, 30, 0, 0x2c08),
    (439, "bfbshotseek2", 1026, 5, 30, 30, 0x5802),
    (444, "bfbshotseekb", 0, 0, 30, 0, 0x2c08),
    (445, "bfbshotseek2b", 1026, 5, 30, 30, 0x1802),
    (440, "bfbshotpsi", 0, 0, 30, 0, 0x2c08),
    (446, "bfbbomb", 1026, 20, 30, 20, 0x2809),
    (442, "turshot11", 2, 2, 4, 120, 0x800),
    (443, "turshot10", 2, 3, 30, 80, 0x801),
    (447, "zizshot01", 1026, 15, 30, 70, 0x140810),
    (448, "zizbub", 0, 0, 600, 40, 0x2008),
    (449, "zizshot03", 2, 5, 4, 200, 0x160800),
    (450, "bilebelch", 1026, 5, 10, 25, 0x183802),
    (480, "zizeye", 0, 0, -1, 1, 0x1a008),
    (481, "gastricjuice", 2, 4, 4, 30, 0x140012),
    (482, "zizbrain", 1026, 5, 30, 30, 0x1802),
];

/// The things that can be carried: type, model, and the index of their name.
pub const ITEM: [(i64, &'static str, i32); 49] = [
    (300, "magnum", 18),
    (301, "uzi", 21),
    (304, "magnum", -1),
    (305, "gatgun", 16),
    (306, "shotgun", 20),
    (307, "lasergatgun", 567),
    (309, "guidedrocket", 17),
    (311, "doublea", 23),
    (312, "carbattery", 22),
    (318, "jetpack", 24),
    (352, "jetpackatm", 212),
    (313, "apple", 2),
    (314, "ham", 7),
    (316, "blackhole", 3),
    (317, "grenade", 6),
    (319, "decoygrenade", 5),
    (320, "cloak", 4),
    (347, "snipershield", 14),
    (321, "sniperbullet", 189),
    (322, "snipergrenade", 12),
    (323, "sniperhoming", 11),
    (325, "snipermortar", 10),
    (326, "sniperbounce", 13),
    (327, "lighter", 33),
    (328, "loaf", 34),
    (329, "toaster", 41),
    (330, "booze", 25),
    (332, "ducttape", 27),
    (333, "fishbowl", 30),
    (336, "plutonium", 37),
    (340, "magnet", 35),
    (341, "pop", 38),
    (343, "leafer", 42),
    (344, "atomictoaster", 43),
    (345, "moltov", 44),
    (346, "towels", 45),
    (349, "ladder", 174),
    (351, "pipes", 178),
    (350, "cord", 177),
    (353, "dimdes", 213),
    (354, "kurtcoord", 214),
    (355, "posdoo", 215),
    (356, "schaingun", 225),
    (357, "fballgun", 226),
    (358, "toast", 227),
    (359, "handdryer", 239),
    (360, "loafbaguette", 324),
    (361, "loafpumper", 374),
    (362, "fishbowle", 29),
];

/// How a walker fights: shots in a burst, tenths of a second between them, the
/// melee distance in hundredths, the near and the far distance, the reach, the
/// field of view in millionths of a radian, whether it leads a moving target,
/// and in tenths the roll that it has to beat to advance.
pub const AI: [(u32, u32, u32, u32, u32, u32, u32, bool, u32); 9] = [
    (3, 5, 90, 10, 15, 100, 1047198, true, 3),
    (5, 8, 90, 10, 15, 75, 1570796, true, 3),
    (3, 20, 15, 15, 25, 150, 785398, false, 0),
    (3, 5, 90, 8, 13, 50, 1047198, false, 2),
    (1, 20, 20, 25, 35, 150, 1047198, false, 2),
    (1, 20, 20, 25, 35, 200, 1047198, true, 4),
    (3, 0, 100, 20, 30, 50, 1570796, false, 5),
    (0, 5, 100, 5, 5, 6, 392699, false, 2),
    (1, 30, 0, 15, 25, 150, 785398, false, 3),
];

/// Which row of [`AI`] a type fights by.
pub const AI_OF: [(i64, usize); 10] = [
    (203, 6),
    (200, 2),
    (204, 5),
    (205, 1),
    (202, 3),
    (219, 7),
    (207, 0),
    (214, 4),
    (217, 1),
    (260, 8),
];

/// How a walker moves: type, its four speeds (still, walk, run, back), tenths
/// of a radian that it turns in a second, and its strafe speed in tenths.
pub const LOCOMOTION: [(i64, [i32; 4], u32, u32); 19] = [
    (201, [0, 7, 16, 0], 30, 0),
    (215, [0, 7, 14, 0], 30, 0),
    (216, [0, 9, 23, 0], 35, 0),
    (203, [0, 4, 7, -4], 50, 40),
    (250, [0, 4, 7, -4], 50, 40),
    (200, [0, 4, 10, -4], 25, 0),
    (204, [0, 12, 20, -12], 40, 80),
    (205, [0, 2, 5, -2], 40, 30),
    (202, [0, 6, 20, -6], 40, 157),
    (219, [0, 6, 12, -6], 40, 113),
    (207, [0, 6, 12, -6], 40, 100),
    (214, [0, 8, 15, -8], 40, 130),
    (211, [0, 5, 9, -4], 20, 40),
    (220, [0, 16, 32, -16], 30, 160),
    (210, [0, 12, 16, -7], 40, 50),
    (217, [0, 4, 8, -4], 40, 50),
    (206, [0, 12, 24, -8], 20, 80),
    (208, [0, 8, 16, -8], 40, 120),
    (260, [0, 12, 36, -12], 35, 120),
];

/// How tall and how wide a walker is, in tenths. A type with -1 has no body.
pub const SIZE: [(i64, i32, i32); 19] = [
    (201, 20, 20),
    (215, 20, 20),
    (216, 20, 20),
    (203, 35, 10),
    (250, 31, 10),
    (200, 60, 47),
    (204, 160, 100),
    (205, 20, 10),
    (202, 44, 38),
    (219, 44, 38),
    (207, 50, 50),
    (214, 110, 100),
    (211, 47, 40),
    (220, -10, -10),
    (210, 40, 40),
    (217, 25, 20),
    (206, -10, -10),
    (208, 110, 100),
    (260, 240, 120),
];

/// Is row `i` of [`BASE_HITPOINTS`] the one for this type?
pub open spec fn walker_row(kind: i64, i: int) -> bool {
    0 <= i < BASE_HITPOINTS@.len() && BASE_HITPOINTS@[i].0 == kind
}

/// What [`BASE_HITPOINTS`] says of a type, if it names it.
pub open spec fn base_of(kind: i64) -> Option<i32> {
    if exists|i: int| walker_row(kind, i) {
        let i = choose|i: int| walker_row(kind, i);
        Some(BASE_HITPOINTS@[i].2)
    } else {
        None
    }
}

/// No type has two rows in [`BASE_HITPOINTS`].
pub proof fn walker_row_is_the_only_one(kind: i64, i: int, j: int)
    requires
        walker_row(kind, i),
        walker_row(kind, j),
    ensures
        i == j,
{
    assert(forall|a: int, b: int| 0 <= a < b < 19 ==> BASE_HITPOINTS@[a].0 != BASE_HITPOINTS@[b].0);
}

/// The hitpoints of a type before the difficulty, if it is a walker.
pub fn base_hitpoints(kind: i64) -> (r: Option<i32>)
    ensures
        r == base_of(kind),
{
    let mut i: usize = 0;
    while i < 19
        invariant
            i <= 19,
            forall|j: int| 0 <= j < i ==> !#[trigger] walker_row(kind, j),
        decreases 19 - i,
    {
        if BASE_HITPOINTS[i].0 == kind {
            proof {
                assert(walker_row(kind, i as int));
                walker_row_is_the_only_one(kind, i as int, choose|j: int| walker_row(kind, j));
            }
            return Some(BASE_HITPOINTS[i].2);
        }
        i = i + 1;
    }
    None
}

/// Is row `i` of [`PLAYER`] the one for this type?
pub open spec fn hero_row(kind: i64, i: int) -> bool {
    0 <= i < PLAYER@.len() && PLAYER@[i].0 == kind
}

/// What [`PLAYER`] says of a type, if it names it.
pub open spec fn hero_of(kind: i64) -> Option<(i16, i16)> {
    if exists|i: int| hero_row(kind, i) {
        let i = choose|i: int| hero_row(kind, i);
        Some((PLAYER@[i].1, PLAYER@[i].2))
    } else {
        None
    }
}

/// No type has two rows in [`PLAYER`].
pub proof fn hero_row_is_the_only_one(kind: i64, i: int, j: int)
    requires
        hero_row(kind, i),
        hero_row(kind, j),
    ensures
        i == j,
{
    assert(forall|a: int, b: int| 0 <= a < b < 3 ==> PLAYER@[a].0 != PLAYER@[b].0);
}

/// A hero's hitpoints and damage filter.
pub fn hero(kind: i64) -> (r: Option<(i16, i16)>)
    ensures
        r == hero_of(kind),
{
    let mut i: usize = 0;
    while i < 3
        invariant
            i <= 3,
            forall|j: int| 0 <= j < i ==> !#[trigger] hero_row(kind, j),
        decreases 3 - i,
    {
        if PLAYER[i].0 == kind {
            proof {
                assert(hero_row(kind, i as int));
                hero_row_is_the_only_one(kind, i as int, choose|j: int| hero_row(kind, j));
            }
            return Some((PLAYER[i].1, PLAYER[i].2));
        }
        i = i + 1;
    }
    None
}

/// Is row `i` of [`BULLET`] the one for this type?
pub open spec fn bullet_row(kind: i64, i: int) -> bool {
    0 <= i < BULLET@.len() && BULLET@[i].0 == kind
}

/// What [`BULLET`] says of a type, if it names it.
pub open spec fn bullet_of(kind: i64) -> Option<(&'static str, i16, i16, i32, i32, i32)> {
    if exists|i: int| bullet_row(kind, i) {
        let i = choose|i: int| bullet_row(kind, i);
        Some((BULLET@[i].1, BULLET@[i].2, BULLET@[i].3, BULLET@[i].4, BULLET@[i].5, BULLET@[i].6))
    } else {
        None
    }
}

/// No type has two rows in [`BULLET`].
pub proof fn bullet_row_is_the_only_one(kind: i64, i: int, j: int)
    requires
        bullet_row(kind, i),
        bullet_row(kind, j),
    ensures
        i == j,
{
    assert(forall|a: int, b: int| 0 <= a < b < 69 ==> BULLET@[a].0 != BULLET@[b].0);
}

/// What a shot of this type does: model, mask, damage, lifetime, speed, flags.
pub fn bullet(kind: i64) -> (r: Option<(&'static str, i16, i16, i32, i32, i32)>)
    ensures
        r == bullet_of(kind),
{
    let mut i: usize = 0;
    while i < 69
        invariant
            i <= 69,
            forall|j: int| 0 <= j < i ==> !#[trigger] bullet_row(kind, j),
        decreases 69 - i,
    {
        if BULLET[i].0 == kind {
            proof {
                assert(bullet_row(kind, i as int));
                bullet_row_is_the_only_one(kind, i as int, choose|j: int| bullet_row(kind, j));
            }
            return Some((BULLET[i].1, BULLET[i].2, BULLET[i].3, BULLET[i].4, BULLET[i].5, BULLET[i].6));
        }
        i = i + 1;
    }
    None
}

/// Is row `i` of [`ITEM`] the one for this type?
pub open spec fn item_row(kind: i64, i: int) -> bool {
    0 <= i < ITEM@.len() && ITEM@[i].0 == kind
}

/// What [`ITEM`] says of a type, if it names it.
pub open spec fn item_of(kind: i64) -> Option<(&'static str, i32)> {
    if exists|i: int| item_row(kind, i) {
        let i = choose|i: int| item_row(kind, i);
        Some((ITEM@[i].1, ITEM@[i].2))
    } else {
        None
    }
}

/// No type has two rows in [`ITEM`].
pub proof fn item_row_is_the_only_one(kind: i64, i: int, j: int)
    requires
        item_row(kind, i),
        item_row(kind, j),
    ensures
        i == j,
{
    assert(forall|a: int, b: int| 0 <= a < b < 49 ==> ITEM@[a].0 != ITEM@[b].0);
}

/// The model of a thing that can be carried, and the index of its name.
pub fn item(kind: i64) -> (r: Option<(&'static str, i32)>)
    ensures
        r == item_of(kind),
{
    let mut i: usize = 0;
    while i < 49
        invariant
            i <= 49,
            forall|j: int| 0 <= j < i ==> !#[trigger] item_row(kind, j),
        decreases 49 - i,
    {
        if ITEM[i].0 == kind {
            proof {
                assert(item_row(kind, i as int));
                item_row_is_the_only_one(kind, i as int, choose|j: int| item_row(kind, j));
            }
            return Some((ITEM[i].1, ITEM[i].2));
        }
        i = i + 1;
    }
    None
}

/// Is row `i` of [`AI_OF`] the one for this type?
pub open spec fn behaviour_row(kind: i64, i: int) -> bool {
    0 <= i < AI_OF@.len() && AI_OF@[i].0 == kind
}

/// What [`AI_OF`] says of a type, if it names it.
pub open spec fn behaviour_of(kind: i64) -> Option<usize> {
    if exists|i: int| behaviour_row(kind, i) {
        let i = choose|i: int| behaviour_row(kind, i);
        Some(AI_OF@[i].1)
    } else {
        None
    }
}

/// No type has two rows in [`AI_OF`].
pub proof fn behaviour_row_is_the_only_one(kind: i64, i: int, j: int)
    requires
        behaviour_row(kind, i),
        behaviour_row(kind, j),
    ensures
        i == j,
{
    assert(forall|a: int, b: int| 0 <= a < b < 10 ==> AI_OF@[a].0 != AI_OF@[b].0);
}

/// Which row of [`AI`] a type fights by, if it fights at all.
pub fn behaviour(kind: i64) -> (r: Option<usize>)
    ensures
        r == behaviour_of(kind),
{
    let mut i: usize = 0;
    while i < 10
        invariant
            i <= 10,
            forall|j: int| 0 <= j < i ==> !#[trigger] behaviour_row(kind, j),
        decreases 10 - i,
    {
        if AI_OF[i].0 == kind {
            proof {
                assert(behaviour_row(kind, i as int));
                behaviour_row_is_the_only_one(kind, i as int, choose|j: int| behaviour_row(kind, j));
            }
            return Some(AI_OF[i].1);
        }
        i = i + 1;
    }
    None
}

/// Is row `i` of [`LOCOMOTION`] the one for this type?
pub open spec fn gait_row(kind: i64, i: int) -> bool {
    0 <= i < LOCOMOTION@.len() && LOCOMOTION@[i].0 == kind
}

/// What [`LOCOMOTION`] says of a type, if it names it.
pub open spec fn gaits_of(kind: i64) -> Option<([i32; 4], u32)> {
    if exists|i: int| gait_row(kind, i) {
        let i = choose|i: int| gait_row(kind, i);
        Some((LOCOMOTION@[i].1, LOCOMOTION@[i].2))
    } else {
        None
    }
}

/// No type has two rows in [`LOCOMOTION`].
pub proof fn gait_row_is_the_only_one(kind: i64, i: int, j: int)
    requires
        gait_row(kind, i),
        gait_row(kind, j),
    ensures
        i == j,
{
    assert(forall|a: int, b: int| 0 <= a < b < 19 ==> LOCOMOTION@[a].0 != LOCOMOTION@[b].0);
}

/// The four speeds of a walker, and how fast it turns, in tenths.
pub fn gaits(kind: i64) -> (r: Option<([i32; 4], u32)>)
    ensures
        r == gaits_of(kind),
{
    let mut i: usize = 0;
    while i < 19
        invariant
            i <= 19,
            forall|j: int| 0 <= j < i ==> !#[trigger] gait_row(kind, j),
        decreases 19 - i,
    {
        if LOCOMOTION[i].0 == kind {
            proof {
                assert(gait_row(kind, i as int));
                gait_row_is_the_only_one(kind, i as int, choose|j: int| gait_row(kind, j));
            }
            return Some((LOCOMOTION[i].1, LOCOMOTION[i].2));
        }
        i = i + 1;
    }
    None
}

/// Is row `i` of [`SIZE`] the one for this type?
pub open spec fn extent_row(kind: i64, i: int) -> bool {
    0 <= i < SIZE@.len() && SIZE@[i].0 == kind
}

/// What [`SIZE`] says of a type, if it names it.
pub open spec fn extent_of(kind: i64) -> Option<(i32, i32)> {
    if exists|i: int| extent_row(kind, i) {
        let i = choose|i: int| extent_row(kind, i);
        Some((SIZE@[i].1, SIZE@[i].2))
    } else {
        None
    }
}

/// No type has two rows in [`SIZE`].
pub proof fn extent_row_is_the_only_one(kind: i64, i: int, j: int)
    requires
        extent_row(kind, i),
        extent_row(kind, j),
    ensures
        i == j,
{
    assert(forall|a: int, b: int| 0 <= a < b < 19 ==> SIZE@[a].0 != SIZE@[b].0);
}

/// How tall and how wide the table makes a type, in tenths.
pub fn extent(kind: i64) -> (r: Option<(i32, i32)>)
    ensures
        r == extent_of(kind),
{
    let mut i: usize = 0;
    while i < 19
        invariant
            i <= 19,
            forall|j: int| 0 <= j < i ==> !#[trigger] extent_row(kind, j),
        decreases 19 - i,
    {
        if SIZE[i].0 == kind {
            proof {
                assert(extent_row(kind, i as int));
                extent_row_is_the_only_one(kind, i as int, choose|j: int| extent_row(kind, j));
            }
            return Some((SIZE[i].1, SIZE[i].2));
        }
        i = i + 1;
    }
    None
}

/// The bit in a shot's flags that launches it at the player, in three
/// dimensions, rather than along the shooter's yaw.
pub const AT_PLAYER: i32 = 0x800;

/// The damage filter of everything that has hitpoints by its type or by a
/// script: what hurts an enemy.
pub const FILTER_GOODGUY_SNIPER: i16 = 9;

/// The model that the walker table gives a type.
pub open spec fn walker_model_of(kind: i64) -> Option<&'static str> {
    if exists|i: int| walker_row(kind, i) {
        let i = choose|i: int| walker_row(kind, i);
        Some(BASE_HITPOINTS@[i].1)
    } else {
        None
    }
}

fn walker_model(kind: i64) -> (r: Option<&'static str>)
    ensures
        r == walker_model_of(kind),
{
    let mut i: usize = 0;
    while i < 19
        invariant
            i <= 19,
            forall|j: int| 0 <= j < i ==> !#[trigger] walker_row(kind, j),
        decreases 19 - i,
    {
        if BASE_HITPOINTS[i].0 == kind {
            proof {
                assert(walker_row(kind, i as int));
                walker_row_is_the_only_one(kind, i as int, choose|j: int| walker_row(kind, j));
            }
            return Some(BASE_HITPOINTS[i].1);
        }
        i = i + 1;
    }
    None
}

/// The model that one of the three tables gives a type, the items first and the
/// walkers last.
pub open spec fn table_model_of(kind: i64) -> Option<&'static str> {
    match item_of(kind) {
        Some(row) => Some(row.0),
        None => match bullet_of(kind) {
            Some(row) => Some(row.0),
            None => walker_model_of(kind),
        },
    }
}

/// The model that a type wears, if one of the three tables names it.
pub fn table_model(kind: i64) -> (r: Option<&'static str>)
    ensures
        r == table_model_of(kind),
{
    match item(kind) {
        Some(row) => Some(row.0),
        None => match bullet(kind) {
            Some(row) => Some(row.0),
            None => walker_model(kind),
        },
    }
}

/// How a type fights, if it does.
pub open spec fn ai_of(kind: i64) -> Option<
    (u32, u32, u32, u32, u32, u32, u32, bool, u32),
> {
    match behaviour_of(kind) {
        Some(i) => Some(AI@[i as int]),
        None => None,
    }
}

proof fn every_behaviour_has_its_row(kind: i64)
    ensures
        behaviour_of(kind) matches Some(i) ==> i < AI@.len(),
{
    assert(forall|i: int| 0 <= i < 10 ==> (#[trigger] AI_OF@[i]).1 < 9);
}

/// The behaviour that a type fights with, if it has one.
pub fn ai(kind: i64) -> (r: Option<(u32, u32, u32, u32, u32, u32, u32, bool, u32)>)
    ensures
        r == ai_of(kind),
{
    proof {
        every_behaviour_has_its_row(kind);
    }
    match behaviour(kind) {
        Some(i) => Some(AI[i]),
        None => None,
    }
}

/// How fast a type moves at a gait, and how fast it turns in tenths. A gait
/// outside the four stands still; one below zero counts as the first.
pub open spec fn locomotion_of(kind: i64, gait: i64) -> Option<(i32, u32)> {
    match gaits_of(kind) {
        Some(row) => Some(
            (
                if gait < 0 {
                    row.0@[0]
                } else if gait < 4 {
                    row.0@[gait as int]
                } else {
                    0
                },
                row.1,
            ),
        ),
        None => None,
    }
}

/// How fast a type moves at a gait, and how fast it turns in tenths of a radian
/// a second.
pub fn locomotion(kind: i64, gait: i64) -> (r: Option<(i32, u32)>)
    ensures
        r == locomotion_of(kind, gait),
{
    match gaits(kind) {
        Some(row) => {
            let i: usize = if gait < 0 {
                0
            } else if gait < 4 {
                gait as usize
            } else {
                4
            };
            Some(
                (
                    if i < 4 {
                        row.0[i]
                    } else {
                        0
                    },
                    row.1,
                ),
            )
        },
        None => None,
    }
}

/// The animations a walker plays to move, by its gait.
pub const GAIT_ANIM: [i64; 4] = [107, 6, 7, 8];

/// The set that a limping walker plays instead. Its run is never reached: a
/// limping walker that is asked to run walks.
pub const GAIT_ANIM_HURT: [i64; 4] = [82, 77, 7, 8];

/// The one type that limps, and the hitpoints at or below which it does.
pub const LIMP_AT: (i64, i16) = (207, 20);

/// Whether a walker of this type is hurt enough to limp.
pub open spec fn limps(kind: i64, hitpoints: i16) -> bool {
    kind == LIMP_AT.0 && hitpoints <= LIMP_AT.1
}

/// Whether a walker of this type is hurt enough to limp.
pub fn limping(kind: i64, hitpoints: i16) -> (r: bool)
    ensures
        r == limps(kind, hitpoints),
{
    kind == LIMP_AT.0 && hitpoints <= LIMP_AT.1
}

/// How tall and how wide a type is, in tenths, if it has a body at all.
pub open spec fn size_of(kind: i64) -> Option<(i32, i32)> {
    match extent_of(kind) {
        Some(row) => if row.0 > 0 && row.1 > 0 {
            Some(row)
        } else {
            None
        },
        None => None,
    }
}

/// How tall and how wide a type is, in tenths, if it has a body at all.
pub fn size(kind: i64) -> (r: Option<(i32, i32)>)
    ensures
        r == size_of(kind),
{
    match extent(kind) {
        Some(row) => if row.0 > 0 && row.1 > 0 {
            Some(row)
        } else {
            None
        },
        None => None,
    }
}

/// Which animation a walker plays for a gait, given how hurt it is.
pub open spec fn gait_animation_of(kind: i64, gait: i64, hitpoints: i16) -> Option<i64> {
    if gait < 0 || gait >= 4 {
        None
    } else if limps(kind, hitpoints) {
        Some(
            GAIT_ANIM_HURT@[if gait == 2 {
                1
            } else {
                gait as int
            }],
        )
    } else {
        Some(GAIT_ANIM@[gait as int])
    }
}

/// Which animation a walker plays for a gait, given how hurt it is.
pub fn gait_animation(kind: i64, gait: i64, hitpoints: i16) -> (r: Option<i64>)
    ensures
        r == gait_animation_of(kind, gait, hitpoints),
{
    if gait < 0 || gait >= 4 {
        return None;
    }
    let i: usize = gait as usize;
    if limping(kind, hitpoints) {
        Some(
            GAIT_ANIM_HURT[if i == 2 {
                1
            } else {
                i
            }],
        )
    } else {
        Some(GAIT_ANIM[i])
    }
}

/// A limping walker never plays the run, whatever it is asked for; and only a
/// walker with few hitpoints left limps.
pub proof fn a_limping_walker_does_not_run(kind: i64, gait: i64, hitpoints: i16)
    requires
        limps(kind, hitpoints),
    ensures
        gait_animation_of(kind, gait, hitpoints) != Some(7i64),
        gait_animation_of(kind, 2, hitpoints) == gait_animation_of(kind, 1, hitpoints),
        hitpoints <= 20,
{
}

/// Scale a base by the difficulty. `scaled` is twice the difficulty times the
/// base, cut towards zero. What has a base is pushed off zero, the way the base
/// went: the weakest enemy still takes a hit to kill.
pub open spec fn diff_scaled(scaled: i32, base: i32) -> i32 {
    if scaled != 0 || base == 0 {
        scaled
    } else if base > 0 {
        1
    } else {
        (-1) as i32
    }
}

/// Scale a base by the difficulty, given twice the difficulty times the base,
/// cut towards zero.
pub fn diff_scale(scaled: i32, base: i32) -> (r: i32)
    ensures
        r == diff_scaled(scaled, base),
{
    if scaled == 0 && base > 0 {
        1
    } else if scaled == 0 && base < 0 {
        -1
    } else {
        scaled
    }
}

/// A base that is not zero never scales to zero, and a product that is not zero
/// is left alone.
pub proof fn a_base_never_scales_to_zero(scaled: i32, base: i32)
    requires
        base != 0,
    ensures
        diff_scaled(scaled, base) != 0,
        scaled != 0 ==> diff_scaled(scaled, base) == scaled,
        diff_scaled(0, base) == 1 || diff_scaled(0, base) == -1,
        diff_scaled(0, base) > 0 <==> base > 0,
{
}

// ---------------------------------------------------------------------------
// Every row is found
// ---------------------------------------------------------------------------
/// Every row of [`BASE_HITPOINTS`] is what is found for its type, and a type
/// without a row is no walker.
pub proof fn every_walker_is_found(i: int, other: i64)
    requires
        0 <= i < 19,
    ensures
        base_of(BASE_HITPOINTS@[i].0) == Some(BASE_HITPOINTS@[i].2),
        walker_model_of(BASE_HITPOINTS@[i].0) == Some(BASE_HITPOINTS@[i].1),
        (forall|j: int| 0 <= j < 19 ==> (#[trigger] BASE_HITPOINTS@[j]).0 != other) ==> base_of(
            other,
        ) is None && walker_model_of(other) is None,
{
    let kind = BASE_HITPOINTS@[i].0;
    assert(walker_row(kind, i));
    walker_row_is_the_only_one(kind, i, choose|j: int| walker_row(kind, j));
}

/// Every row of [`PLAYER`] is what is found for its type, and a type without a
/// row is no hero.
pub proof fn every_hero_is_found(i: int, other: i64)
    requires
        0 <= i < 3,
    ensures
        hero_of(PLAYER@[i].0) == Some((PLAYER@[i].1, PLAYER@[i].2)),
        (forall|j: int| 0 <= j < 3 ==> (#[trigger] PLAYER@[j]).0 != other) ==> hero_of(
            other,
        ) is None,
{
    let kind = PLAYER@[i].0;
    assert(hero_row(kind, i));
    hero_row_is_the_only_one(kind, i, choose|j: int| hero_row(kind, j));
}

/// Every row of [`BULLET`] is what is found for its type, and a type without a
/// row is no shot.
pub proof fn every_shot_is_found(i: int, other: i64)
    requires
        0 <= i < 69,
    ensures
        bullet_of(BULLET@[i].0) == Some(
            (
                BULLET@[i].1,
                BULLET@[i].2,
                BULLET@[i].3,
                BULLET@[i].4,
                BULLET@[i].5,
                BULLET@[i].6,
            ),
        ),
        (forall|j: int| 0 <= j < 69 ==> (#[trigger] BULLET@[j]).0 != other) ==> bullet_of(
            other,
        ) is None,
{
    let kind = BULLET@[i].0;
    assert(bullet_row(kind, i));
    bullet_row_is_the_only_one(kind, i, choose|j: int| bullet_row(kind, j));
}

/// Every row of [`ITEM`] is what is found for its type, and a type without a
/// row cannot be carried.
pub proof fn every_item_is_found(i: int, other: i64)
    requires
        0 <= i < 49,
    ensures
        item_of(ITEM@[i].0) == Some((ITEM@[i].1, ITEM@[i].2)),
        (forall|j: int| 0 <= j < 49 ==> (#[trigger] ITEM@[j]).0 != other) ==> item_of(other) is None,
{
    let kind = ITEM@[i].0;
    assert(item_row(kind, i));
    item_row_is_the_only_one(kind, i, choose|j: int| item_row(kind, j));
}

/// Whoever has a row in [`AI_OF`] fights by the row of [`AI`] that it names,
/// and whoever has none does not fight.
pub proof fn every_fighter_has_its_ways(i: int, other: i64)
    requires
        0 <= i < 10,
    ensures
        AI_OF@[i].1 < 9,
        behaviour_of(AI_OF@[i].0) == Some(AI_OF@[i].1),
        ai_of(AI_OF@[i].0) == Some(AI@[AI_OF@[i].1 as int]),
        (forall|j: int| 0 <= j < 10 ==> (#[trigger] AI_OF@[j]).0 != other) ==> behaviour_of(
            other,
        ) is None && ai_of(other) is None,
{
    let kind = AI_OF@[i].0;
    assert(behaviour_row(kind, i));
    behaviour_row_is_the_only_one(kind, i, choose|j: int| behaviour_row(kind, j));
    every_behaviour_has_its_row(kind);
}

/// The speed of a walker at a gait is that column of its row in
/// [`LOCOMOTION`]: none, its walk, its run and its way back. Below the first
/// gait it has the speed of the first, and above the last none. It always turns
/// as its row says, and whoever has no row does not move.
pub proof fn every_gait_has_its_speed(i: int, gait: i64, other: i64)
    requires
        0 <= i < 19,
    ensures
        0 <= gait < 4 ==> locomotion_of(LOCOMOTION@[i].0, gait) == Some(
            (LOCOMOTION@[i].1@[gait as int], LOCOMOTION@[i].2),
        ),
        locomotion_of(LOCOMOTION@[i].0, 1) == Some((LOCOMOTION@[i].1@[1], LOCOMOTION@[i].2)),
        locomotion_of(LOCOMOTION@[i].0, 2) == Some((LOCOMOTION@[i].1@[2], LOCOMOTION@[i].2)),
        locomotion_of(LOCOMOTION@[i].0, 3) == Some((LOCOMOTION@[i].1@[3], LOCOMOTION@[i].2)),
        gait < 0 ==> locomotion_of(LOCOMOTION@[i].0, gait) == Some(
            (LOCOMOTION@[i].1@[0], LOCOMOTION@[i].2),
        ),
        gait >= 4 ==> locomotion_of(LOCOMOTION@[i].0, gait) == Some((0i32, LOCOMOTION@[i].2)),
        (forall|j: int| 0 <= j < 19 ==> (#[trigger] LOCOMOTION@[j]).0 != other) ==> locomotion_of(
            other,
            gait,
        ) is None,
{
    let kind = LOCOMOTION@[i].0;
    assert(gait_row(kind, i));
    gait_row_is_the_only_one(kind, i, choose|j: int| gait_row(kind, j));
}

/// Every walker is faster at a run than at a walk, and stands still at the
/// first gait; and none goes forward at the last.
pub proof fn a_run_is_faster_than_a_walk(i: int)
    requires
        0 <= i < 19,
    ensures
        locomotion_of(LOCOMOTION@[i].0, 0) matches Some(still) && still.0 == 0,
        locomotion_of(LOCOMOTION@[i].0, 1) matches Some(walk) && (locomotion_of(
            LOCOMOTION@[i].0,
            2,
        ) matches Some(run) && 0 < walk.0 < run.0),
        locomotion_of(LOCOMOTION@[i].0, 3) matches Some(back) && back.0 <= 0,
{
    every_gait_has_its_speed(i, 0, 0);
    assert(forall|j: int|
        0 <= j < 19 ==> (#[trigger] LOCOMOTION@[j]).1@[0] == 0 && 0 < LOCOMOTION@[j].1@[1]
            < LOCOMOTION@[j].1@[2] && LOCOMOTION@[j].1@[3] <= 0);
}

/// Every row of [`SIZE`] whose two numbers are above zero is the size of its
/// type; one with a number that is not has no body, and neither has a type
/// without a row.
pub proof fn every_body_has_its_size(i: int, other: i64)
    requires
        0 <= i < 19,
    ensures
        extent_of(SIZE@[i].0) == Some((SIZE@[i].1, SIZE@[i].2)),
        SIZE@[i].1 > 0 && SIZE@[i].2 > 0 ==> size_of(SIZE@[i].0) == Some((SIZE@[i].1, SIZE@[i].2)),
        SIZE@[i].1 <= 0 || SIZE@[i].2 <= 0 ==> size_of(SIZE@[i].0) is None,
        (forall|j: int| 0 <= j < 19 ==> (#[trigger] SIZE@[j]).0 != other) ==> size_of(other) is None,
{
    let kind = SIZE@[i].0;
    assert(extent_row(kind, i));
    extent_row_is_the_only_one(kind, i, choose|j: int| extent_row(kind, j));
}

proof fn items_lie_between(i: int)
    requires
        0 <= i < 49,
    ensures
        300 <= ITEM@[i].0 < 400,
{
    assert(forall|j: int| 0 <= j < 49 ==> 300 <= (#[trigger] ITEM@[j]).0 < 400);
}

proof fn shots_lie_above(i: int)
    requires
        0 <= i < 69,
    ensures
        400 <= BULLET@[i].0 < 500,
{
    assert(forall|j: int| 0 <= j < 69 ==> 400 <= (#[trigger] BULLET@[j]).0 < 500);
}

proof fn walkers_lie_below(i: int)
    requires
        0 <= i < 19,
    ensures
        200 <= BASE_HITPOINTS@[i].0 < 300,
{
    assert(forall|j: int| 0 <= j < 19 ==> 200 <= (#[trigger] BASE_HITPOINTS@[j]).0 < 300);
}

/// A thing that can be carried wears the model of its row in [`ITEM`].
pub proof fn every_item_wears_its_model(i: int)
    requires
        0 <= i < 49,
    ensures
        table_model_of(ITEM@[i].0) == Some(ITEM@[i].1),
{
    every_item_is_found(i, 0);
}

/// A shot wears the model of its row in [`BULLET`].
pub proof fn every_shot_wears_its_model(i: int)
    requires
        0 <= i < 69,
    ensures
        table_model_of(BULLET@[i].0) == Some(BULLET@[i].1),
{
    let kind = BULLET@[i].0;
    shots_lie_above(i);
    assert forall|j: int| 0 <= j < 49 implies (#[trigger] ITEM@[j]).0 != kind by {
        items_lie_between(j);
    }
    every_item_is_found(0, kind);
    every_shot_is_found(i, 0);
}

/// A walker wears the model of its row in [`BASE_HITPOINTS`].
pub proof fn every_walker_wears_its_model(i: int)
    requires
        0 <= i < 19,
    ensures
        table_model_of(BASE_HITPOINTS@[i].0) == Some(BASE_HITPOINTS@[i].1),
{
    let kind = BASE_HITPOINTS@[i].0;
    walkers_lie_below(i);
    assert forall|j: int| 0 <= j < 49 implies (#[trigger] ITEM@[j]).0 != kind by {
        items_lie_between(j);
    }
    assert forall|j: int| 0 <= j < 69 implies (#[trigger] BULLET@[j]).0 != kind by {
        shots_lie_above(j);
    }
    every_item_is_found(0, kind);
    every_shot_is_found(0, kind);
    every_walker_is_found(i, 0);
}

/// A type that is in none of the three tables wears nothing by them.
pub proof fn nothing_else_wears_a_model(kind: i64)
    requires
        forall|j: int| 0 <= j < 49 ==> (#[trigger] ITEM@[j]).0 != kind,
        forall|j: int| 0 <= j < 69 ==> (#[trigger] BULLET@[j]).0 != kind,
        forall|j: int| 0 <= j < 19 ==> (#[trigger] BASE_HITPOINTS@[j]).0 != kind,
    ensures
        table_model_of(kind) is None,
{
    every_item_is_found(0, kind);
    every_shot_is_found(0, kind);
    every_walker_is_found(0, kind);
}

/// Whoever does not limp plays for each gait the animation of
/// [`GAIT_ANIM`]; whoever limps plays those of [`GAIT_ANIM_HURT`], and the walk
/// where a run is asked for. Only the type of [`LIMP_AT`] limps, and only with
/// as few hitpoints. A gait that is none of the four has no animation.
pub proof fn every_gait_has_its_animation(kind: i64, gait: i64, hitpoints: i16)
    ensures
        limps(kind, hitpoints) <==> kind == 207 && hitpoints <= 20,
        0 <= gait < 4 && (kind != 207 || hitpoints > 20) ==> gait_animation_of(
            kind,
            gait,
            hitpoints,
        ) == Some(GAIT_ANIM@[gait as int]),
        hitpoints <= 20 ==> gait_animation_of(207, 0, hitpoints) == Some(82i64),
        hitpoints <= 20 ==> gait_animation_of(207, 1, hitpoints) == Some(77i64),
        hitpoints <= 20 ==> gait_animation_of(207, 2, hitpoints) == Some(77i64),
        hitpoints <= 20 ==> gait_animation_of(207, 3, hitpoints) == Some(8i64),
        gait < 0 || gait >= 4 ==> gait_animation_of(kind, gait, hitpoints) is None,
        GAIT_ANIM@ =~= seq![107i64, 6, 7, 8],
{
}

} // verus!
