use sloth::clip::Clip;
use sloth::content::{ClipboardContent, RgbaImage};
use sloth::store::HistoryStore;

fn text(s: &str) -> ClipboardContent {
    ClipboardContent::Text(s.to_string())
}

fn image(width: usize, height: usize, fill: u8) -> ClipboardContent {
    ClipboardContent::Image(RgbaImage::new(width, height, vec![fill; width * height * 4]).unwrap())
}

fn texts(clips: &[Clip]) -> Vec<String> {
    clips
        .iter()
        .map(|c| match &c.content {
            Some(ClipboardContent::Text(t)) => t.clone(),
            _ => String::from("<not text>"),
        })
        .collect()
}

fn ids(clips: &[Clip]) -> Vec<u64> {
    clips.iter().map(|c| c.id).collect()
}

#[test]
fn new_store_is_empty() {
    let store = HistoryStore::new(5);
    assert!(store.is_empty());
    assert_eq!(store.len(), 0);
    assert_eq!(store.capacity(), 5);
    assert_eq!(store.next_id(), 0);
    assert!(store.get_snapshot().is_empty());
    assert!(store.list_pinned().is_empty());
}

#[test]
fn append_creates_an_unflagged_clip_at_the_tail() {
    let mut store = HistoryStore::new(10);
    assert_eq!(store.append(text("first")), 0);
    assert_eq!(store.append(image(2, 1, 9)), 1);
    let snapshot = store.get_snapshot();
    assert_eq!(snapshot.len(), 2);
    assert_eq!(snapshot[0].id, 0);
    assert!(!snapshot[0].is_code);
    assert!(!snapshot[0].pinned);
    assert!(matches!(&snapshot[0].content, Some(ClipboardContent::Text(t)) if t == "first"));
    assert_eq!(snapshot[1].id, 1);
    match &snapshot[1].content {
        Some(ClipboardContent::Image(img)) => {
            assert_eq!(img.width(), 2);
            assert_eq!(img.height(), 1);
            assert_eq!(img.bytes(), &vec![9u8; 8]);
        }
        _ => panic!("the second clip is an image"),
    }
}

#[test]
fn capacity_three_keeps_the_three_newest() {
    let mut store = HistoryStore::new(3);
    for s in ["a", "b", "c", "d"] {
        store.append(text(s));
    }
    assert_eq!(texts(&store.get_snapshot()), vec!["b", "c", "d"]);
}

#[test]
fn a_pin_overrides_the_capacity() {
    let mut store = HistoryStore::new(3);
    store.append(text("a"));
    let b = store.append(text("b"));
    store.append(text("c"));
    assert!(store.pin(b));
    store.append(text("d"));
    let snapshot = store.get_snapshot();
    assert_eq!(snapshot.len(), 4);
    let seen = texts(&snapshot);
    for s in ["b", "c", "d"] {
        assert!(seen.contains(&s.to_string()));
    }
    assert_eq!(seen, vec!["a", "b", "c", "d"]);
}

#[test]
fn without_pins_the_length_never_exceeds_the_capacity() {
    let mut store = HistoryStore::new(4);
    for i in 0..50u32 {
        store.append(text(&format!("clip {}", i)));
        assert!(store.len() <= 4);
        assert_eq!(store.len(), std::cmp::min(i as usize + 1, 4));
    }
    assert_eq!(texts(&store.get_snapshot()), vec!["clip 46", "clip 47", "clip 48", "clip 49"]);
    assert_eq!(ids(&store.get_snapshot()), vec![46, 47, 48, 49]);
}

#[test]
fn capacity_zero_keeps_only_pinned_clips() {
    let mut store = HistoryStore::new(0);
    assert_eq!(store.append(text("a")), 0);
    assert!(store.is_empty());
    assert_eq!(store.append(text("b")), 1);
    assert!(store.is_empty());
    assert!(!store.pin(1));
}

#[test]
fn ids_increase_and_are_never_reused() {
    let mut store = HistoryStore::new(2);
    let mut given = Vec::new();
    for i in 0..10u32 {
        let id = store.append(text(&i.to_string()));
        if i == 3 {
            store.pin(id);
        }
        if i == 6 {
            store.unpin(3);
            store.mark_code(id);
        }
        given.push(id);
        let snapshot = ids(&store.get_snapshot());
        assert!(snapshot.windows(2).all(|w| w[0] < w[1]));
    }
    assert_eq!(given, (0..10).collect::<Vec<u64>>());
    assert_eq!(store.next_id(), 10);
}

#[test]
fn a_pinned_clip_survives_any_number_of_appends() {
    let mut store = HistoryStore::new(2);
    let keep = store.append(text("keep"));
    assert!(store.pin(keep));
    for i in 0..100u32 {
        store.append(text(&i.to_string()));
        assert!(store.contains(keep));
        assert!(store.is_pinned(keep));
    }
    let snapshot = store.get_snapshot();
    assert_eq!(texts(&snapshot), vec!["keep", "98", "99"]);
    assert!(snapshot[0].pinned);
    store.unpin(keep);
    assert!(store.contains(keep));
    store.append(text("last"));
    assert!(!store.contains(keep));
    assert_eq!(texts(&store.get_snapshot()), vec!["99", "last"]);
}

#[test]
fn unpinning_lets_the_next_append_evict_down_to_the_capacity() {
    let mut store = HistoryStore::new(1);
    let a = store.append(text("a"));
    store.pin(a);
    let b = store.append(text("b"));
    store.pin(b);
    store.append(text("c"));
    assert_eq!(texts(&store.get_snapshot()), vec!["a", "b", "c"]);
    store.unpin(a);
    store.unpin(b);
    assert_eq!(store.len(), 3);
    store.append(text("d"));
    assert_eq!(texts(&store.get_snapshot()), vec!["d"]);
}

#[test]
fn pin_then_unpin_restores_the_clip() {
    let mut store = HistoryStore::new(3);
    store.append(text("a"));
    let b = store.append(text("b"));
    store.mark_code(b);
    let before = store.get_snapshot();
    assert!(store.pin(b));
    assert!(store.get_snapshot()[1].pinned);
    assert_eq!(ids(&store.list_pinned()), vec![b]);
    store.unpin(b);
    let after = store.get_snapshot();
    assert!(store.list_pinned().is_empty());
    assert!(!store.is_pinned(b));
    assert_eq!(after.len(), before.len());
    assert!(!after[1].pinned);
    assert_eq!(after[1].id, before[1].id);
    assert_eq!(after[1].is_code, before[1].is_code);
    assert!(after[1].is_code);
    assert_eq!(texts(&after), texts(&before));
}

#[test]
fn pin_of_a_missing_id_changes_nothing() {
    let mut store = HistoryStore::new(3);
    store.append(text("a"));
    assert!(!store.pin(7));
    assert!(store.list_pinned().is_empty());
    assert!(!store.get_snapshot()[0].pinned);
}

#[test]
fn pins_are_listed_in_the_order_they_were_made() {
    let mut store = HistoryStore::new(5);
    let a = store.append(text("a"));
    let b = store.append(text("b"));
    let c = store.append(text("c"));
    assert!(store.pin(c));
    assert!(store.pin(a));
    assert!(store.pin(b));
    assert_eq!(ids(&store.list_pinned()), vec![c, a, b]);
    assert_eq!(ids(&store.get_snapshot()), vec![a, b, c]);
    store.unpin(a);
    assert_eq!(ids(&store.list_pinned()), vec![c, b]);
}

#[test]
fn a_pin_freezes_the_code_mark_until_it_is_made_again() {
    let mut store = HistoryStore::new(5);
    let a = store.append(text("a"));
    let b = store.append(text("b"));
    assert!(store.pin(a));
    assert!(store.pin(b));
    store.mark_code(a);
    assert!(store.get_snapshot()[0].is_code);
    let pinned = store.list_pinned();
    assert!(!pinned[0].is_code);
    assert!(pinned[0].pinned);
    assert!(store.pin(a));
    let pinned = store.list_pinned();
    assert_eq!(ids(&pinned), vec![a, b]);
    assert!(pinned[0].is_code);
    assert_eq!(texts(&pinned), vec!["a", "b"]);
}

#[test]
fn mark_code_is_idempotent_and_ignores_missing_ids() {
    let mut store = HistoryStore::new(2);
    let a = store.append(text("a"));
    store.append(text("b"));
    store.mark_code(a);
    store.mark_code(a);
    store.mark_code(99);
    let snapshot = store.get_snapshot();
    assert!(snapshot[0].is_code);
    assert!(!snapshot[1].is_code);
    store.append(text("c"));
    store.mark_code(a);
    let snapshot = store.get_snapshot();
    assert_eq!(texts(&snapshot), vec!["b", "c"]);
    assert!(!snapshot[0].is_code && !snapshot[1].is_code);
}

#[test]
fn unpin_of_a_missing_or_unpinned_id_changes_nothing() {
    let mut store = HistoryStore::new(2);
    let a = store.append(text("a"));
    store.unpin(a);
    store.unpin(42);
    assert_eq!(texts(&store.get_snapshot()), vec!["a"]);
    assert!(store.list_pinned().is_empty());
}

#[test]
fn a_snapshot_is_a_copy() {
    let mut store = HistoryStore::new(3);
    let a = store.append(text("a"));
    let mut snapshot = store.get_snapshot();
    snapshot[0].is_code = true;
    snapshot[0].content = Some(text("changed"));
    store.append(text("b"));
    assert_eq!(snapshot.len(), 1);
    let fresh = store.get_snapshot();
    assert!(!fresh[0].is_code);
    assert_eq!(texts(&fresh), vec!["a", "b"]);
    assert_eq!(fresh[0].id, a);
}

#[test]
fn text_to_copy_gives_the_text_of_a_text_clip_only() {
    let mut store = HistoryStore::new(3);
    let t = store.append(text("hello"));
    let i = store.append(image(1, 1, 0));
    assert_eq!(store.text_to_copy(t), Some("hello".to_string()));
    assert_eq!(store.text_to_copy(i), None);
    assert_eq!(store.text_to_copy(17), None);
}

#[test]
fn latest_text_is_the_text_of_the_newest_clip() {
    let mut store = HistoryStore::new(3);
    assert_eq!(store.latest_text(), "");
    store.append(text("one"));
    store.append(text("two"));
    assert_eq!(store.latest_text(), "two");
    store.append(image(1, 2, 3));
    assert_eq!(store.latest_text(), "");
}

#[test]
fn the_same_content_may_be_recorded_twice() {
    let mut store = HistoryStore::new(5);
    store.append(text("x"));
    store.append(text("y"));
    store.append(text("x"));
    assert_eq!(texts(&store.get_snapshot()), vec!["x", "y", "x"]);
    assert_eq!(ids(&store.get_snapshot()), vec![0, 1, 2]);
}
