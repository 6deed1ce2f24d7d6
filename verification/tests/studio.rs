use deltafishing::studio::{next_free_id, session_timestamp_display, EventType, FishingMode, Rgb};
use deltafishing::ui::MainTab;

#[test]
fn mode_labels_and_event_names() {
    assert_eq!(FishingMode::Float.label(), "台钓模式");
    assert_eq!(FishingMode::Lure.label(), "路亚模式");
    assert_eq!(EventType::Cast.display_name(FishingMode::Float), "抛竿入水");
    assert_eq!(EventType::Cast.display_name(FishingMode::Lure), "抛竿落水");
    assert_eq!(EventType::Catch.display_name(FishingMode::Float), "刺鱼钓获");
    assert_eq!(EventType::Catch.display_name(FishingMode::Lure), "起鱼钓获");
    assert_eq!(EventType::Bite.display_name(FishingMode::Lure), "咬钩切水");
    assert_eq!(EventType::Rebait.display_name(FishingMode::Float), "换饵/上饵");
    assert_eq!(EventType::Custom("x".into()).display_name(FishingMode::Float), "自定义标记");
    assert_ne!(MainTab::Fishing, MainTab::Studio);
}

#[test]
fn event_colors() {
    assert_eq!(EventType::Cast.color(), Rgb { r: 0x38, g: 0xbd, b: 0xf8 });
    assert_eq!(EventType::Hit.color(), EventType::Bite.color());
    assert_eq!(EventType::Snag.color(), Rgb { r: 0xf8, g: 0x71, b: 0x71 });
    assert_eq!(EventType::Custom(String::new()).color(), Rgb { r: 0x94, g: 0xa3, b: 0xb8 });
}

#[test]
fn session_names_show_date_and_time() {
    assert_eq!(session_timestamp_display("session_20240131_235959.wav"), "2024-01-31 23:59");
    assert_eq!(session_timestamp_display("session_20240131_2359"), "session_20240131_2359");
    assert_eq!(session_timestamp_display("take_20240131_235959.wav"), "take_20240131_235959.wav");
    assert_eq!(session_timestamp_display(""), "");
}

#[test]
fn next_id_follows_largest() {
    assert_eq!(next_free_id(&vec![]), 1);
    assert_eq!(next_free_id(&vec![3, 9, 2]), 10);
    assert_eq!(next_free_id(&vec![0]), 1);
}
