use rplayer::bookmarks::{total_order_key, Bookmark, BookmarkStore};

fn at(v: f64) -> u64 {
    v.to_bits()
}

#[test]
fn add_with_nan_position_does_not_panic() {
    let mut store = BookmarkStore::default();
    let p = "demo.mp4";
    store.add(p, Bookmark::new(at(10.0), "a".to_string()));
    store.add(p, Bookmark::new(at(f64::NAN), "nan".to_string()));
    assert_eq!(store.get(p).len(), 2);
}

#[test]
fn bookmarks_are_sorted_by_position() {
    let mut store = BookmarkStore::default();
    let p = "demo.mp4";
    store.add(p, Bookmark::new(at(20.0), "later".to_string()));
    store.add(p, Bookmark::new(at(10.0), "earlier".to_string()));

    let bookmarks = store.get(p);
    assert_eq!(bookmarks.len(), 2);
    assert_eq!(f64::from_bits(bookmarks[0].position), 10.0);
    assert_eq!(f64::from_bits(bookmarks[1].position), 20.0);
}

#[test]
fn update_label_changes_bookmark_text() {
    let mut store = BookmarkStore::default();
    let p = "demo.mp4";
    let bookmark = Bookmark::new(at(15.0), "initial".to_string());
    let id = bookmark.id;
    store.add(p, bookmark);

    store.update_label(p, id, "updated".to_string());
    let bookmarks = store.get(p);
    assert_eq!(bookmarks[0].label, "updated");
}

#[test]
fn remove_bookmark_deletes_matching_id() {
    let mut store = BookmarkStore::default();
    let p = "demo.mp4";
    let bookmark = Bookmark::new(at(10.0), "keep".to_string());
    let id = bookmark.id;
    store.add(p, bookmark);
    store.remove(p, id);
    assert!(store.get(p).is_empty());
}

#[test]
fn bookmark_takes_its_id_from_the_time() {
    let b = Bookmark::new_at(at(3.0), "x".to_string(), 1_700_000_000_123, 1_700_000_000_124);
    assert_eq!(b.id, 1_700_000_000_123);
    assert_eq!(b.created, 1_700_000_000_124);
    assert_eq!(b.label, "x");
}

#[test]
fn total_order_key_orders_as_total_cmp() {
    let vals = [f64::NEG_INFINITY, -2.5, -0.0, 0.0, 1.0, 2.5, f64::INFINITY, f64::NAN];
    for a in vals {
        for b in vals {
            let by_key = total_order_key(a.to_bits()).cmp(&total_order_key(b.to_bits()));
            assert_eq!(by_key, a.total_cmp(&b), "{a} vs {b}");
        }
    }
}

#[test]
fn equal_positions_keep_the_order_they_were_added_in() {
    let mut store = BookmarkStore::new();
    store.add("f", Bookmark::new(at(5.0), "first".to_string()));
    store.add("f", Bookmark::new(at(5.0), "second".to_string()));
    store.add("f", Bookmark::new(at(1.0), "zero".to_string()));
    let labels: Vec<&str> = store.get("f").iter().map(|b| b.label.as_str()).collect();
    assert_eq!(labels, vec!["zero", "first", "second"]);
}

#[test]
fn nan_positions_sort_last() {
    let mut store = BookmarkStore::new();
    store.add("f", Bookmark::new(at(f64::NAN), "nan".to_string()));
    store.add("f", Bookmark::new(at(-1.0), "neg".to_string()));
    let labels: Vec<&str> = store.get("f").iter().map(|b| b.label.as_str()).collect();
    assert_eq!(labels, vec!["neg", "nan"]);
}

#[test]
fn other_files_are_untouched() {
    let mut store = BookmarkStore::new();
    store.add("a", Bookmark::new(at(1.0), "a".to_string()));
    store.remove("b", 1);
    store.update_label("b", 1, "zzz".to_string());
    assert!(store.get("b").is_empty());
    assert_eq!(store.get("a")[0].label, "a");
    store.remove("a", 99);
    assert_eq!(store.get("a").len(), 1);
}

#[test]
fn bookmark_new_reads_the_clock() {
    let b = Bookmark::new(at(7.5), "now".to_string());
    assert_eq!(f64::from_bits(b.position), 7.5);
    assert_eq!(b.label, "now");
    assert!(b.id > 1_600_000_000_000);
}
