//! The headless input script: `frame:KEY+KEY[:hold],...`.

use fear_gba::script::{keys_at, parse_input_script, KeyPress, ScriptError};
use fear_gba::{KEY_A, KEY_B, KEY_L, KEY_R, KEY_START, KEY_UP};

fn parsed(script: &str) -> Vec<KeyPress> {
    match parse_input_script(script.as_bytes()) {
        Ok(presses) => presses,
        Err(error) => panic!("refused {script:?}: {error:?}"),
    }
}

#[test]
fn entries_give_frame_keys_and_hold() {
    let presses = parsed("4300:START:20,4500:A:20");
    assert_eq!(
        presses,
        vec![
            KeyPress { frame: 4300, keys: KEY_START, hold: 20 },
            KeyPress { frame: 4500, keys: KEY_A, hold: 20 },
        ]
    );
}

#[test]
fn a_missing_hold_lasts_ten_frames() {
    assert_eq!(parsed("7:B"), vec![KeyPress { frame: 7, keys: KEY_B, hold: 10 }]);
    assert_eq!(parsed("7:B:x"), vec![KeyPress { frame: 7, keys: KEY_B, hold: 10 }]);
    assert_eq!(parsed("7"), vec![KeyPress { frame: 7, keys: 0, hold: 10 }]);
}

#[test]
fn names_are_case_blind_and_combine() {
    let presses = parsed(" 12: a + Start+l+r :3 ");
    assert_eq!(
        presses,
        vec![KeyPress { frame: 12, keys: KEY_A | KEY_START | KEY_L | KEY_R, hold: 3 }]
    );
}

#[test]
fn blank_entries_are_skipped() {
    assert_eq!(parsed(""), Vec::new());
    assert_eq!(parsed(" , ,"), Vec::new());
    assert_eq!(parsed(",5:up,"), vec![KeyPress { frame: 5, keys: KEY_UP, hold: 10 }]);
}

#[test]
fn a_plus_sign_is_part_of_a_number() {
    assert_eq!(parsed("+8:A:+2"), vec![KeyPress { frame: 8, keys: KEY_A, hold: 2 }]);
}

#[test]
fn a_bad_frame_reports_the_entry() {
    match parse_input_script(b"1:A, soon:B") {
        Err(ScriptError::BadFrame(entry)) => assert_eq!(entry, b" soon:B".to_vec()),
        other => panic!("unexpected {other:?}"),
    }
    match parse_input_script(b"4294967296:A") {
        Err(ScriptError::BadFrame(entry)) => assert_eq!(entry, b"4294967296:A".to_vec()),
        other => panic!("unexpected {other:?}"),
    }
}

#[test]
fn an_unknown_key_reports_its_name() {
    match parse_input_script(b"1:A+jump") {
        Err(ScriptError::UnknownKey(name)) => assert_eq!(name, b"JUMP".to_vec()),
        other => panic!("unexpected {other:?}"),
    }
}

#[test]
fn the_largest_frame_number_is_accepted() {
    assert_eq!(
        parsed("4294967295:R"),
        vec![KeyPress { frame: u32::MAX, keys: KEY_R, hold: 10 }]
    );
}

#[test]
fn keys_are_held_for_their_window() {
    let presses = parsed("10:A:5,12:B:1");
    assert_eq!(keys_at(&presses, 9), 0);
    assert_eq!(keys_at(&presses, 10), KEY_A);
    assert_eq!(keys_at(&presses, 12), KEY_A | KEY_B);
    assert_eq!(keys_at(&presses, 13), KEY_A);
    assert_eq!(keys_at(&presses, 15), 0);
}

#[test]
fn a_window_reaching_past_the_last_frame_does_not_wrap() {
    let presses = vec![KeyPress { frame: u32::MAX - 1, keys: KEY_L, hold: 5 }];
    assert_eq!(keys_at(&presses, u32::MAX), KEY_L);
    assert_eq!(keys_at(&presses, 0), 0);
}

#[test]
fn a_frame_number_with_spaces_inside_the_entry_is_refused() {
    assert!(matches!(
        parse_input_script(b"12 :A"),
        Err(ScriptError::BadFrame(_))
    ));
}
