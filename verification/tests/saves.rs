//! Saved games.
use goodomen::save::{autosave, beside, description, resume};
use goodomen::save::{DESCRIPTION, EASIEST, HARDEST, THUMBNAIL, VERSION, WHERE};

#[test]
fn a_save_says_where_it_was_taken_and_what_it_was_called() {
    assert_eq!(beside("games", "save\\7.sav"), "games/save/7.sav");
    let file = goodomen::save::write(b"halfway up the spire", 4, 11, 0.35f32.to_bits(), None);
    // the description sits at 4 and is padded, whatever it says
    assert_eq!(description(&file).unwrap(), b"halfway up the spire");
    let got = resume(&file).map(|(l, c, d)| (l, c, d.map(f32::from_bits)));
    assert_eq!(got, Some((4, 11, Some(0.35))));
    // and the level is at the offset it is looked for, not wherever it happened
    // to land
    assert_eq!(file[WHERE], 4);
}

#[test]
fn a_save_is_laid_out_whole() {
    let pixels: Vec<u8> = (0..16u8).collect();
    let file = goodomen::save::write(b"x", 1, 2, HARDEST, Some((2, &pixels)));
    assert_eq!(&file[0..4], &VERSION.to_le_bytes());
    assert_eq!(file[4], b'x');
    assert!(file[5..4 + DESCRIPTION].iter().all(|b| *b == 0));
    assert_eq!(&file[4 + DESCRIPTION..8 + DESCRIPTION], &2u32.to_le_bytes());
    assert_eq!(&file[8 + DESCRIPTION..24 + DESCRIPTION], &pixels[..]);
    assert_eq!(WHERE, 4 + DESCRIPTION + 4 + THUMBNAIL);
    assert_eq!(&file[WHERE..WHERE + 2], &[1, 2]);
    assert_eq!(&file[WHERE + 2..], &HARDEST.to_le_bytes());
    // a level past a byte is cut to one, and a long description to its field
    let long = [b'y'; 500];
    let file = goodomen::save::write(&long, 300, 256, EASIEST, None);
    assert_eq!(resume(&file), Some((255, 255, Some(EASIEST))));
    assert_eq!(description(&file).unwrap(), &long[..DESCRIPTION]);
    // the longest one fills its room, and reads back whole
    let file = goodomen::save::write(&[b'a'; 128], 1, 1, HARDEST, None);
    assert_eq!(description(&file).unwrap(), vec![b'a'; 128]);
}

#[test]
fn a_file_that_is_no_save_says_nothing() {
    assert_eq!(description(&[]), None);
    assert_eq!(resume(&[]), None);
    let mut file = goodomen::save::write(b"a", 1, 1, EASIEST, None);
    file[0] = 99;
    assert_eq!(resume(&file), None);
    // four bytes that are no difficulty are none
    let file = goodomen::save::write(b"a", 1, 1, 7f32.to_bits(), None);
    assert_eq!(resume(&file), Some((1, 1, None)));
}

#[test]
fn an_autosave_is_twenty_bytes() {
    let mut file = Vec::new();
    for n in [0u32, 77, 6, 3, 0.5f32.to_bits()] {
        file.extend_from_slice(&n.to_le_bytes());
    }
    assert_eq!(autosave(&file), Some((6, 3, 0.5f32.to_bits())));
    assert_eq!(autosave(&file[..19]), None);
    file[0] = 1;
    assert_eq!(autosave(&file), None);
    assert_eq!(autosave(&[]), None);
}
