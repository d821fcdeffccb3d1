use vitrum::damage::DamageTracker;
use vitrum::geometry::Rect;

#[test]
fn test_damage_tracker_new() {
    let tracker = DamageTracker::new(1920, 1080);
    assert!(tracker.has_damage());
    assert!(tracker.damage().is_none());
}

#[test]
fn test_damage_tracker_add_damage() {
    let mut tracker = DamageTracker::new(1920, 1080);
    tracker.clear_damage();

    let rect = Rect::new(0, 0, 100, 100);
    tracker.add_damage(rect);

    assert!(tracker.has_damage());
    assert_eq!(tracker.damage().unwrap().len(), 1);
}

#[test]
fn test_damage_tracker_full_damage() {
    let mut tracker = DamageTracker::new(1920, 1080);
    tracker.clear_damage();

    tracker.add_full_damage();
    assert!(tracker.damage().is_none());
}

#[test]
fn test_damage_tracker_merge_covered() {
    let mut tracker = DamageTracker::new(1920, 1080);
    tracker.clear_damage();

    let small = Rect::new(10, 10, 50, 50);
    let large = Rect::new(0, 0, 100, 100);

    tracker.add_damage(small);
    tracker.add_damage(large);

    assert_eq!(tracker.damage().unwrap().len(), 1);
}

#[test]
fn damage_covered_rect_is_ignored() {
    let mut tracker = DamageTracker::new(800, 600);
    tracker.clear_damage();
    tracker.add_damage(Rect::new(0, 0, 100, 100));
    tracker.add_damage(Rect::new(10, 10, 20, 20));
    let d = tracker.damage().unwrap();
    assert_eq!(d.len(), 1);
    assert_eq!(d[0], Rect::new(0, 0, 100, 100));
}

#[test]
fn damage_empty_rect_is_ignored() {
    let mut tracker = DamageTracker::new(800, 600);
    tracker.clear_damage();
    tracker.add_damage(Rect::new(5, 5, 0, 10));
    assert!(!tracker.has_damage());
}

#[test]
fn damage_more_than_ten_becomes_full() {
    let mut tracker = DamageTracker::new(800, 600);
    tracker.clear_damage();
    for i in 0..11 {
        tracker.add_damage(Rect::new(i * 20, 0, 10, 10));
    }
    assert!(tracker.damage().is_none());
    assert_eq!(tracker.damage_regions(), vec![Rect::new(0, 0, 800, 600)]);
}

#[test]
fn damage_clear_counts_frames() {
    let mut tracker = DamageTracker::new(800, 600);
    tracker.clear_damage();
    tracker.clear_damage();
    assert_eq!(tracker.frame_count(), 2);
    assert!(!tracker.has_damage());
}

#[test]
fn damage_new_size_damages_everything() {
    let mut tracker = DamageTracker::new(800, 600);
    tracker.clear_damage();
    tracker.set_output_size(800, 600);
    assert!(!tracker.has_damage());
    tracker.set_output_size(1024, 768);
    assert!(tracker.damage().is_none());
    assert_eq!(tracker.output_size(), (1024, 768));
}
