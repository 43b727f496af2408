use rplayer::history::{History, MAX_HISTORY};

fn secs(v: f64) -> u64 {
    v.to_bits()
}

#[test]
fn play_count_only_changes_on_mark_play_start() {
    let mut h = History::default();
    let p = "demo.mp4";
    h.mark_play_start(p, "demo", secs(120.0));
    h.update(p, "demo", secs(10.0), secs(120.0));
    h.update(p, "demo", secs(20.0), secs(120.0));
    let e = h.get(p).expect("missing history entry");
    assert_eq!(e.play_count, 1);
}

#[test]
fn recent_returns_entries_in_most_recent_order() {
    let mut h = History::default();
    let p1 = "first.mp4";
    let p2 = "second.mp4";
    h.mark_play_start(p1, "first", secs(120.0));
    h.mark_play_start(p2, "second", secs(100.0));
    let recent: Vec<String> = h.recent().iter().map(|e| e.path.clone()).collect();
    assert_eq!(recent, vec![p2.to_string(), p1.to_string()]);
}

#[test]
fn clear_and_remove_many_work() {
    let mut h = History::default();
    let p1 = "first.mp4";
    let p2 = "second.mp4";
    h.mark_play_start(p1, "first", secs(120.0));
    h.mark_play_start(p2, "second", secs(100.0));
    h.remove_many(&vec![p1.to_string(), p2.to_string()]);
    assert!(h.get(p1).is_none());
    assert!(h.get(p2).is_none());

    h.mark_play_start(p1, "first", secs(120.0));
    h.clear();
    assert!(h.get(p1).is_none());
}

#[test]
fn update_reads_back_what_was_saved() {
    let mut h = History::new();
    h.update_at("/v/a.mkv", "A", secs(42.5), secs(600.0), 77);
    let e = h.get("/v/a.mkv").unwrap();
    assert_eq!(f64::from_bits(e.last_position), 42.5);
    assert_eq!(f64::from_bits(e.duration), 600.0);
    assert_eq!(e.last_watched, 77);
    assert_eq!(e.title, "A");
    assert_eq!(e.play_count, 0);
    assert_eq!(e.path, "/v/a.mkv");
}

#[test]
fn mark_play_start_keeps_the_saved_position_and_counts() {
    let mut h = History::new();
    h.update_at("a", "A", secs(30.0), secs(60.0), 1);
    h.mark_play_start_at("a", "A2", secs(61.0), 2);
    h.mark_play_start_at("a", "A3", secs(62.0), 3);
    let e = h.get("a").unwrap();
    assert_eq!(f64::from_bits(e.last_position), 30.0);
    assert_eq!(f64::from_bits(e.duration), 62.0);
    assert_eq!(e.play_count, 2);
    assert_eq!(e.title, "A3");
}

#[test]
fn a_used_file_moves_to_the_front_once() {
    let mut h = History::new();
    h.mark_play_start_at("a", "a", 0, 1);
    h.mark_play_start_at("b", "b", 0, 2);
    h.update_at("a", "a", 0, 0, 3);
    let order: Vec<String> = h.all_entries().iter().map(|e| e.path.clone()).collect();
    assert_eq!(order, vec!["a".to_string(), "b".to_string()]);
}

#[test]
fn history_forgets_the_oldest_past_the_limit() {
    let mut h = History::new();
    for i in 0..(MAX_HISTORY + 1) {
        let p = format!("f{i}");
        h.mark_play_start_at(&p, &p, 0, i as i64);
    }
    assert_eq!(h.recent().len(), MAX_HISTORY);
    assert!(h.get("f0").is_none());
    assert!(h.get("f1").is_some());
    assert_eq!(h.recent()[0].path, format!("f{}", MAX_HISTORY));
}

#[test]
fn remove_forgets_one_file() {
    let mut h = History::new();
    h.mark_play_start_at("a", "a", 0, 1);
    h.mark_play_start_at("b", "b", 0, 2);
    h.remove("a");
    assert!(h.get("a").is_none());
    assert_eq!(h.recent().len(), 1);
    h.remove("missing");
    assert_eq!(h.recent().len(), 1);
}

#[test]
fn parts_round_trip() {
    let mut h = History::new();
    h.mark_play_start_at("a", "a", 0, 1);
    let (entries, order) = h.parts();
    assert_eq!(order, &vec!["a".to_string()]);
    assert!(entries.contains("a"));
}
