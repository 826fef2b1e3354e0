//! What has been read of the files of an installation, added up.
use goodomen::body::Held;
use goodomen::corpus::{
    is_riff, poses_agree, shapes, solid, textures, trees, waves, Level, Shape, Shapes, Tree, Trees,
    Wave, POSED_ALIKE,
};
use goodomen::measure::rank;

fn measure(x: f64) -> i64 {
    rank(x.to_bits())
}

#[test]
fn models_are_added_up() {
    let still = Shape { nodes: 3, triangles: 10, animations: 0, animated: false };
    let posed = Shape { nodes: 4, triangles: 20, animations: 1, animated: false };
    let moving = Shape { nodes: 5, triangles: 30, animations: 2, animated: true };
    let r = shapes(&vec![still, posed, moving]);
    assert_eq!(r, Shapes { found: 3, animated: 1, nodes: 12, triangles: 60, posed: 2 });
    assert_eq!(
        r.report(),
        "3 models, 1 animated, 12 nodes, 60 triangles, \
         2 checked against the shader's own posing"
    );
    assert_eq!(
        shapes(&vec![]).report(),
        "0 models, 0 animated, 0 nodes, 0 triangles, \
         0 checked against the shader's own posing"
    );
}

#[test]
fn two_poses_agree_within_a_millionth() {
    assert_eq!(POSED_ALIKE, measure(1e-6));
    assert!(poses_agree(&vec![]));
    assert!(poses_agree(&vec![[0, 0, 0], [measure(1e-6), 0, measure(9e-7)]]));
    assert!(!poses_agree(&vec![[0, 0, 0], [0, 0, measure(1.1e-6)]]));
}

#[test]
fn trees_are_added_up() {
    let r = trees(&vec![
        Tree { nodes: 7, depth: 3 },
        Tree { nodes: 100, depth: 12 },
        Tree { nodes: 1, depth: 1 },
    ]);
    assert_eq!(r, Trees { found: 3, nodes: 108, deepest: 12 });
    assert_eq!(r.report(), "3 trees, 108 nodes, deepest 12");
    assert_eq!(trees(&vec![]).deepest, 0);
    assert_eq!(solid(&vec![true, false, true, true]), 3);
    assert_eq!(solid(&vec![]), 0);
}

#[test]
fn textures_are_added_up() {
    let level = |width: u32, height: u32| Level {
        width,
        height,
        bytes: (width * height * 4) as usize,
    };
    assert!(level(4, 2).is_whole());
    assert!(!Level { width: 4, height: 2, bytes: 31 }.is_whole());
    let r = textures(&vec![vec![level(4, 2), level(2, 1)], vec![level(8, 8)], vec![]]);
    assert_eq!((r.found, r.levels, r.pixels), (3, 3, 74));
    assert_eq!(r.report(), "3 textures, 3 levels, 74 pixels");
}

#[test]
fn sounds_are_added_up() {
    assert!(is_riff(b"RIFF...."));
    assert!(is_riff(b"RIFF"));
    assert!(!is_riff(b"RIF"));
    assert!(!is_riff(b"WAVC"));
    assert!(!is_riff(b"RIFX...."));
    let wave = |decompressed: u32, rate: u16, levels: u8, rows: u8| Wave {
        decompressed,
        channels: 1,
        rate,
        levels,
        rows,
    };
    let list = vec![
        Some(wave(1000, 22050, 7, 16)),
        None,
        Some(wave(500, 11025, 7, 8)),
        Some(wave(250, 22050, 7, 16)),
        Some(wave(4, 22050, 6, 200)),
    ];
    let r = waves(&list);
    assert_eq!((r.found, r.wrapped, r.riff, r.pcm_bytes), (5, 4, 1, 1754));
    assert_eq!(r.parameters, vec![(6, 200), (7, 8), (7, 16)]);
    assert_eq!(r.rates, vec![(11025, 1), (22050, 3)]);
    assert_eq!(wave(1000, 22050, 7, 16).line("boom.wav"), "boom.wav 1000 1 22050 7 16");
    let none = waves(&vec![]);
    assert_eq!(none.found, 0);
    assert!(none.parameters.is_empty() && none.rates.is_empty());
}

#[test]
fn what_is_held_is_what_is_meant() {
    let held = |forward, backward, left, right, jump| Held { forward, backward, left, right, jump };
    assert_eq!(held(true, false, false, true, false).intent(true), (1, 1, true));
    assert_eq!(held(false, true, true, false, false).intent(true), (-1, -1, true));
    assert_eq!(held(true, true, true, true, false).intent(false), (0, 0, false));
    assert_eq!(held(true, false, false, false, true).intent(true), (1, 0, false));
}
