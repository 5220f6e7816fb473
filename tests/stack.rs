use hourglass::stack::{TimerMessage, TimerStack};

fn names(s: &TimerStack) -> Vec<String> {
    let (major, minors) = s.render_slots();
    let mut out = Vec::new();
    if let Some(t) = major {
        out.push(t.name().clone());
    }
    for t in minors {
        out.push(t.name().clone());
    }
    out
}

fn ids(s: &TimerStack) -> Vec<usize> {
    let (major, minors) = s.render_slots();
    let mut out = Vec::new();
    if let Some(t) = major {
        out.push(t.id());
    }
    for t in minors {
        out.push(t.id());
    }
    out
}

fn abc() -> TimerStack {
    let mut s = TimerStack::new();
    s.add_timer(String::from("A"), 600);
    s.add_timer(String::from("B"), 600);
    s.add_timer(String::from("C"), 600);
    s
}

#[test]
fn new_stack_is_empty_and_idle() {
    let s = TimerStack::new();
    assert_eq!(s.len(), 0);
    assert!(!s.rotation_started());
    assert_eq!(s.next_id(), 0);
    let (major, minors) = s.render_slots();
    assert!(major.is_none());
    assert!(minors.is_empty());
}

#[test]
fn first_add_arms_rotation_once() {
    let mut s = TimerStack::new();
    assert_eq!(s.add_timer(String::from("A"), 600), Some(10));
    assert!(s.rotation_started());
    assert_eq!(s.add_timer(String::from("B"), 30), None);
    assert_eq!(s.add_timer(String::from("C"), 120), None);
    assert!(s.rotation_started());
    assert_eq!(names(&s), vec!["A", "B", "C"]);
    assert_eq!(ids(&s), vec![0, 1, 2]);
}

#[test]
fn added_timer_goes_to_the_tail() {
    let mut s = abc();
    s.add_timer(String::from("D"), 60);
    let (major, minors) = s.render_slots();
    assert_eq!(major.unwrap().name(), "A");
    assert_eq!(minors.len(), 3);
    assert_eq!(minors[2].name(), "D");
}

#[test]
fn rotate_moves_head_to_tail() {
    let mut s = abc();
    let delay = s.rotate();
    assert_eq!(delay, 10);
    assert_eq!(names(&s), vec!["B", "C", "A"]);
    s.rotate();
    s.rotate();
    assert_eq!(names(&s), vec!["A", "B", "C"]);
}

#[test]
fn rotate_delay_comes_from_previous_head() {
    let mut s = TimerStack::new();
    s.add_timer(String::from("urgent"), 30);
    s.add_timer(String::from("soon"), 200);
    s.add_timer(String::from("later"), 3600);
    assert_eq!(s.rotate(), 20);
    assert_eq!(s.rotate(), 15);
    assert_eq!(s.rotate(), 10);
    assert_eq!(s.tick_secs(), 20);
}

#[test]
fn rotate_empty_still_rearms() {
    let mut s = TimerStack::new();
    assert_eq!(s.rotate(), 10);
    assert_eq!(s.len(), 0);
    assert!(!s.rotation_started());
    assert_eq!(s.update(TimerMessage::Rotate), Some(10));
    assert_eq!(s.len(), 0);
}

#[test]
fn remove_keeps_order_of_the_rest() {
    let mut s = abc();
    s.remove_timer(1);
    assert_eq!(names(&s), vec!["A", "C"]);
    assert_eq!(ids(&s), vec![0, 2]);
    assert!(s.rotation_started());
}

#[test]
fn remove_unknown_id_is_noop() {
    let mut s = abc();
    s.remove_timer(42);
    assert_eq!(names(&s), vec!["A", "B", "C"]);
    s.remove_timer(0);
    s.remove_timer(0);
    assert_eq!(names(&s), vec!["B", "C"]);
}

#[test]
fn removing_all_keeps_rotation_armed() {
    let mut s = abc();
    s.remove_timer(0);
    s.remove_timer(1);
    s.remove_timer(2);
    assert_eq!(s.len(), 0);
    assert!(s.rotation_started());
    assert_eq!(s.add_timer(String::from("D"), 60), None);
}

#[test]
fn ids_are_never_reused() {
    let mut s = abc();
    s.remove_timer(2);
    s.add_timer(String::from("D"), 600);
    assert_eq!(ids(&s), vec![0, 1, 3]);
    assert_eq!(s.next_id(), 4);
}

#[test]
fn update_dispatches_messages() {
    let mut s = TimerStack::new();
    assert_eq!(s.update(TimerMessage::NewTimer(String::from("A"), 600)), Some(10));
    assert_eq!(s.update(TimerMessage::NewTimer(String::from("B"), 600)), None);
    assert_eq!(s.update(TimerMessage::Rotate), Some(10));
    assert_eq!(names(&s), vec!["B", "A"]);
    assert_eq!(s.update(TimerMessage::DeleteTimer(1)), None);
    assert_eq!(names(&s), vec!["A"]);
}
