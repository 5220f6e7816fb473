use hourglass::timer::{
    format_remaining, rotation_delay_secs, seconds_left_after, urgency_class, Timer, Urgency,
};

const SEC: u128 = 1_000_000_000;

#[test]
fn seconds_left_counts_down_then_up() {
    assert_eq!(seconds_left_after(90, 0), 90);
    assert_eq!(seconds_left_after(90, SEC / 10), 89);
    assert_eq!(seconds_left_after(90, 30 * SEC), 60);
    assert_eq!(seconds_left_after(90, 90 * SEC), 0);
    assert_eq!(seconds_left_after(90, 90 * SEC + SEC / 2), 0);
    assert_eq!(seconds_left_after(90, 91 * SEC), -1);
    assert_eq!(seconds_left_after(90, 100 * SEC), -10);
}

#[test]
fn seconds_left_never_rises() {
    let mut last = seconds_left_after(5, 0);
    let mut e: u128 = 0;
    while e <= 12 * SEC {
        let now = seconds_left_after(5, e);
        assert!(now <= last);
        last = now;
        e += SEC / 4;
    }
    assert!(seconds_left_after(5, 3 * SEC) < seconds_left_after(5, SEC));
    assert!(seconds_left_after(5, 6 * SEC) < seconds_left_after(5, 4 * SEC));
}

#[test]
fn seconds_left_on_extreme_lengths() {
    assert_eq!(seconds_left_after(u64::MAX, 0), u64::MAX as i128);
    assert_eq!(seconds_left_after(0, u128::MAX), -((u128::MAX / SEC) as i128));
}

#[test]
fn format_counting_down() {
    assert_eq!(format_remaining(seconds_left_after(90, 0)), "00:01:30");
    assert_eq!(format_remaining(3661), "01:01:01");
    assert_eq!(format_remaining(0), "00:00:00");
}

#[test]
fn format_overtime() {
    assert_eq!(format_remaining(seconds_left_after(90, 100 * SEC)), "-00:00:10");
    assert_eq!(format_remaining(-3725), "-01:02:05");
}

#[test]
fn format_hours_do_not_wrap() {
    assert_eq!(format_remaining(360_000), "100:00:00");
    assert_eq!(format_remaining(-(99 * 3600 + 59 * 60 + 59)), "-99:59:59");
}

#[test]
fn urgency_thresholds() {
    assert_eq!(urgency_class(60), Urgency::Critical);
    assert_eq!(urgency_class(61), Urgency::Warning);
    assert_eq!(urgency_class(300), Urgency::Warning);
    assert_eq!(urgency_class(301), Urgency::Normal);
    assert_eq!(urgency_class(-5000), Urgency::Critical);
    assert_eq!(urgency_class(0), Urgency::Critical);
}

#[test]
fn urgency_colors() {
    assert_eq!(Urgency::Critical.text_color(), "color:red;");
    assert_eq!(Urgency::Warning.text_color(), "color:orange;");
    assert_eq!(Urgency::Normal.text_color(), "color:black;");
}

#[test]
fn rotation_delay_tiers() {
    assert_eq!(rotation_delay_secs(None), 10);
    assert_eq!(rotation_delay_secs(Some(-40)), 20);
    assert_eq!(rotation_delay_secs(Some(60)), 20);
    assert_eq!(rotation_delay_secs(Some(61)), 15);
    assert_eq!(rotation_delay_secs(Some(300)), 15);
    assert_eq!(rotation_delay_secs(Some(301)), 10);
}

#[test]
fn fresh_timer_reads_the_clock() {
    let t = Timer::new(String::from("Round 1"), 90 * 60, 7);
    assert_eq!(t.name(), "Round 1");
    assert_eq!(t.id(), 7);
    assert_eq!(t.length_secs(), 5400);
    assert_eq!(t.seconds_left().0, 5399);
    assert_eq!(t.display_time_left().0, "01:29:59");
    assert_eq!(t.text_color().0, "color:black;");
}

#[test]
fn zero_length_timer_is_critical() {
    let t = Timer::new(String::new(), 0, 0);
    assert_eq!(t.seconds_left().0, 0);
    assert_eq!(t.display_time_left().0, "00:00:00");
    assert_eq!(t.text_color().0, "color:red;");
}

#[test]
fn clock_reading_matches_value() {
    let t = Timer::new(String::from("Round 2"), 50 * 60, 3);
    let (secs, e) = t.seconds_left();
    assert_eq!(secs, seconds_left_after(3000, e));
    let (text, e) = t.display_time_left();
    assert_eq!(text, format_remaining(seconds_left_after(3000, e)));
    let (style, e) = t.text_color();
    assert_eq!(style, urgency_class(seconds_left_after(3000, e)).text_color());
}

fn read_back(text: &str) -> i128 {
    let (neg, body) = match text.strip_prefix('-') {
        Some(rest) => (true, rest),
        None => (false, text),
    };
    let fields: Vec<i128> = body.split(':').map(|f| f.parse().unwrap()).collect();
    assert_eq!(fields.len(), 3);
    assert!(fields[1] < 60 && fields[2] < 60);
    let a = fields[0] * 3600 + fields[1] * 60 + fields[2];
    if neg {
        -a
    } else {
        a
    }
}

#[test]
fn formatted_time_reads_back() {
    for secs in [0i128, 5, 59, 60, 3599, 3600, 86_399, 359_999, 360_000, -1, -61, -7322] {
        let text = format_remaining(secs);
        assert_eq!(read_back(&text), secs);
        assert_eq!(text.starts_with('-'), secs < 0);
    }
}

#[test]
fn formatted_time_length() {
    assert_eq!(format_remaining(5), "00:00:05");
    assert_eq!(format_remaining(5).len(), 8);
    assert_eq!(format_remaining(-5).len(), 9);
    assert_eq!(format_remaining(359_999).len(), 8);
    assert_eq!(format_remaining(360_000).len(), 9);
}
