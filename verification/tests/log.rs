use deltafishing::log::{Level, LogBuffer, MAX_LINES};

fn views(b: &LogBuffer) -> Vec<(String, Level, String)> {
    b.iter().map(|e| (e.time.clone(), e.level, e.text.clone())).collect()
}

#[test]
fn one_entry_per_line_time_on_first() {
    let mut b = LogBuffer::default();
    b.push_stamped(Level::Warn, "first\nsecond\r\nthird", "12:34:56".to_string());
    assert_eq!(
        views(&b),
        vec![
            ("12:34:56".to_string(), Level::Warn, "first".to_string()),
            ("        ".to_string(), Level::Warn, "second".to_string()),
            ("        ".to_string(), Level::Warn, "third".to_string()),
        ]
    );
}

#[test]
fn line_endings_follow_str_lines() {
    let mut b = LogBuffer::default();
    b.push_stamped(Level::Info, "a\n\nb\n", "00:00:00".to_string());
    b.push_stamped(Level::Info, "", "00:00:01".to_string());
    b.push_stamped(Level::Info, "\n", "00:00:02".to_string());
    b.push_stamped(Level::Info, "tail\r", "00:00:03".to_string());
    let texts: Vec<String> = b.iter().map(|e| e.text.clone()).collect();
    assert_eq!(texts, vec!["a", "", "b", "", "tail\r"]);
    let times: Vec<String> = b.iter().map(|e| e.time.clone()).collect();
    assert_eq!(times, vec!["00:00:00", "        ", "        ", "00:00:02", "00:00:03"]);
}

#[test]
fn buffer_keeps_the_last_max_lines() {
    let mut b = LogBuffer::default();
    for i in 0..(MAX_LINES + 5) {
        b.push_stamped(Level::Info, &format!("line {i}"), "01:02:03".to_string());
    }
    let texts: Vec<String> = b.iter().map(|e| e.text.clone()).collect();
    assert_eq!(texts.len(), MAX_LINES);
    assert_eq!(texts[0], "line 5");
    assert_eq!(texts[MAX_LINES - 1], format!("line {}", MAX_LINES + 4));
    let mut many = String::new();
    for i in 0..(MAX_LINES + 2) {
        many.push_str(&format!("m{i}\n"));
    }
    b.push_stamped(Level::Error, &many, "01:02:04".to_string());
    let texts: Vec<String> = b.iter().map(|e| e.text.clone()).collect();
    assert_eq!(texts.len(), MAX_LINES);
    assert_eq!(texts[0], "m2");
    assert_eq!(b.iter().next().unwrap().time, "        ");
}

#[test]
fn export_formats_each_level() {
    let mut b = LogBuffer::default();
    assert_eq!(b.export(), "");
    b.push_stamped(Level::Info, "i", "10:00:00".to_string());
    b.push_stamped(Level::Success, "o", "10:00:01".to_string());
    b.push_stamped(Level::Warn, "w\nw2", "10:00:02".to_string());
    b.push_stamped(Level::Error, "e", "10:00:03".to_string());
    assert_eq!(
        b.export(),
        "10:00:00 [INFO] i\n10:00:01 [ OK ] o\n10:00:02 [WARN] w\n         [WARN] w2\n10:00:03 [ERR ] e"
    );
}

#[test]
fn clear_empties_the_buffer() {
    let mut b = LogBuffer::default();
    b.push_stamped(Level::Info, "x", "10:00:00".to_string());
    b.clear();
    assert_eq!(b.iter().count(), 0);
    assert_eq!(b.export(), "");
}

fn is_clock(s: &str) -> bool {
    let c: Vec<char> = s.chars().collect();
    c.len() == 8
        && c[2] == ':'
        && c[5] == ':'
        && [0, 1, 3, 4, 6, 7].iter().all(|&i| c[i].is_ascii_digit())
}

#[test]
fn info_ok_error_stamp_with_clock_time() {
    let mut b = LogBuffer::default();
    b.info("a");
    b.ok("b");
    b.error("c\nd");
    b.push(Level::Warn, "e");
    let v = views(&b);
    assert_eq!(v.len(), 5);
    assert_eq!(v[0].1, Level::Info);
    assert_eq!(v[1].1, Level::Success);
    assert_eq!(v[2].1, Level::Error);
    assert_eq!(v[3], ("        ".to_string(), Level::Error, "d".to_string()));
    assert_eq!(v[4].1, Level::Warn);
    for i in [0, 1, 2, 4] {
        assert!(is_clock(&v[i].0), "{}", v[i].0);
    }
}

#[test]
fn one_line_message_adds_one_entry() {
    let mut b = LogBuffer::default();
    b.push_stamped(Level::Info, "before", "09:00:00".to_string());
    b.push_stamped(Level::Warn, "single line\r", "09:00:01".to_string());
    let v = views(&b);
    assert_eq!(v.len(), 2);
    assert_eq!(v[1], ("09:00:01".to_string(), Level::Warn, "single line\r".to_string()));
}
