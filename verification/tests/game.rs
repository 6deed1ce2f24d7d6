use deltafishing::game::{acquire_single_instance, find_game_window, is_game_in_foreground, to_wide, TopWindow, ERROR_ALREADY_EXISTS};

const GAME: &str = "DeltaForceClient-Win64-Shipping.exe";

#[test]
fn foreground_matches_first_twelve_chars_any_case() {
    assert!(is_game_in_foreground(&Some("DeltaForceClient-Win64-Shipping.exe".to_string()), GAME));
    assert!(is_game_in_foreground(&Some("deltaforcecl.exe".to_string()), GAME));
    assert!(is_game_in_foreground(&Some("DELTAFORCECLIENT_v2.exe".to_string()), GAME));
    assert!(!is_game_in_foreground(&Some("DeltaForceC.exe".to_string()), GAME));
    assert!(!is_game_in_foreground(&Some("explorer.exe".to_string()), GAME));
    assert!(!is_game_in_foreground(&None, GAME));
    assert!(!is_game_in_foreground(&Some("anything".to_string()), ""));
    // a short configured name compares only its own length
    assert!(is_game_in_foreground(&Some("GAME.exe".to_string()), "game"));
}

#[test]
fn find_window_takes_first_match() {
    let ws = vec![
        TopWindow { hwnd: 10, exe_name: "explorer.exe".to_string() },
        TopWindow { hwnd: 20, exe_name: "DeltaForceClient-Win64-Shipping.exe".to_string() },
        TopWindow { hwnd: 30, exe_name: "deltaforceclient.exe".to_string() },
    ];
    assert_eq!(find_game_window(&ws, GAME), Some(20));
    assert_eq!(find_game_window(&ws, "EXPLORER"), Some(10));
    assert_eq!(find_game_window(&ws, "notepad"), None);
    assert_eq!(find_game_window(&ws, ""), None);
    let null = vec![TopWindow { hwnd: 0, exe_name: GAME.to_string() }, TopWindow { hwnd: 5, exe_name: GAME.to_string() }];
    assert_eq!(find_game_window(&null, GAME), None);
}

#[test]
fn single_instance_rule() {
    assert!(acquire_single_instance(true, 0));
    assert!(!acquire_single_instance(true, ERROR_ALREADY_EXISTS));
    assert!(!acquire_single_instance(false, 0));
}

#[test]
fn wide_strings_are_utf16_with_terminator() {
    assert_eq!(to_wide(""), vec![0]);
    assert_eq!(to_wide("Global\\A"), "Global\\A".encode_utf16().chain(std::iter::once(0)).collect::<Vec<u16>>());
    assert_eq!(to_wide("钓鱼😀"), vec![0x9493, 0x9C7C, 0xD83D, 0xDE00, 0]);
}
