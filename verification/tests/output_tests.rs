use vitrum::geometry::{Point, Rect, Size};
use vitrum::output::{OutputMap, OutputState, Transform};
use vitrum::output_id::{OutputId, OutputIdCounter};

fn output(counter: &mut OutputIdCounter, name: &str, w: i32, h: i32) -> OutputState {
    OutputState::new(OutputId::next(counter), name.to_string(), Size::new(w, h))
}

#[test]
fn test_output_map() {
    let mut ids = OutputIdCounter::new();
    let mut map = OutputMap::new();

    let output1 = output(&mut ids, "DP-1", 1920, 1080);
    let id1 = map.add_output(output1);

    let output2 = output(&mut ids, "DP-2", 2560, 1440);
    let id2 = map.add_output(output2);

    assert_eq!(map.len(), 2);
    assert!(map.get(id1).is_some());
    assert!(map.get(id2).is_some());

    assert_eq!(map.primary().map(|o| o.id), Some(id1));

    assert!(map.get_by_name("DP-1").is_some());
    assert!(map.get_by_name("DP-2").is_some());
    assert!(map.get_by_name("HDMI-1").is_none());
}

#[test]
fn test_workspace_range() {
    let mut ids = OutputIdCounter::new();
    let mut map = OutputMap::new();

    let mut output1 = output(&mut ids, "DP-1", 1920, 1080);
    output1.position = Point::new(0, 0);
    let id1 = map.add_output(output1);

    let mut output2 = output(&mut ids, "DP-2", 2560, 1440);
    output2.position = Point::new(1920, 0);
    let id2 = map.add_output(output2);

    assert_eq!(map.workspace_range(id1, 10), Some((1, 5)));
    assert_eq!(map.workspace_range(id2, 10), Some((6, 10)));
}

#[test]
fn test_multi_output_auto_arrange_and_bounding_box() {
    let mut ids = OutputIdCounter::new();
    let mut map = OutputMap::new();
    let mut dp1 = output(&mut ids, "DP-1", 1920, 1080);
    dp1.position = Point::new(500, 500);
    map.add_output(dp1);

    let mut dp2 = output(&mut ids, "DP-2", 2560, 1440);
    dp2.position = Point::new(-200, 10);
    map.add_output(dp2);

    let mut hdmi = output(&mut ids, "HDMI-1", 1280, 1024);
    hdmi.position = Point::new(2000, -100);
    map.add_output(hdmi);

    map.auto_arrange_horizontal();

    let mut arranged: Vec<&OutputState> = map.outputs().iter().collect();
    arranged.sort_by_key(|output| output.position.x);

    assert_eq!(arranged.len(), 3);
    assert!(arranged.iter().all(|output| output.position.y == 0));
    assert_eq!(arranged[0].position.x, 0);
    assert_eq!(arranged[1].position.x, arranged[0].size.w);
    assert_eq!(arranged[2].position.x, arranged[0].size.w + arranged[1].size.w);

    let bbox = map.bounding_box();
    assert_eq!(bbox.loc, Point::new(0, 0));
    assert_eq!(bbox.size, Size::new(5760, 1440));
}

#[test]
fn test_workspace_range_three_outputs_with_remainder() {
    let mut ids = OutputIdCounter::new();
    let mut map = OutputMap::new();

    let mut left = output(&mut ids, "LEFT", 1920, 1080);
    left.position = Point::new(0, 0);
    let left_id = map.add_output(left);

    let mut center = output(&mut ids, "CENTER", 1920, 1080);
    center.position = Point::new(1920, 0);
    let center_id = map.add_output(center);

    let mut right = output(&mut ids, "RIGHT", 1920, 1080);
    right.position = Point::new(3840, 0);
    let right_id = map.add_output(right);

    assert_eq!(map.workspace_range(left_id, 10), Some((1, 4)));
    assert_eq!(map.workspace_range(center_id, 10), Some((5, 7)));
    assert_eq!(map.workspace_range(right_id, 10), Some((8, 10)));
}

#[test]
fn test_primary_output_falls_back_when_removed() {
    let mut ids = OutputIdCounter::new();
    let mut map = OutputMap::new();

    let id1 = map.add_output(output(&mut ids, "DP-1", 1920, 1080));
    let id2 = map.add_output(output(&mut ids, "DP-2", 2560, 1440));

    assert_eq!(map.primary().map(|o| o.id), Some(id1));

    map.remove_output(id1);

    assert_eq!(map.primary().map(|o| o.id), Some(id2));
}

#[test]
fn output_ids_count_from_one() {
    let mut ids = OutputIdCounter::new();
    assert_eq!(OutputId::next(&mut ids), OutputId(1));
    assert_eq!(OutputId::next(&mut ids), OutputId(2));
}

#[test]
fn sorted_outputs_top_to_bottom_then_left_to_right() {
    let mut ids = OutputIdCounter::new();
    let mut map = OutputMap::new();
    let mut a = output(&mut ids, "A", 100, 100);
    a.position = Point::new(300, 0);
    let mut b = output(&mut ids, "B", 100, 100);
    b.position = Point::new(0, 500);
    let mut c = output(&mut ids, "C", 100, 100);
    c.position = Point::new(0, 0);
    map.add_output(a);
    map.add_output(b);
    map.add_output(c);
    let names: Vec<String> = map.sorted_outputs().iter().map(|o| o.name.clone()).collect();
    assert_eq!(names, vec!["C".to_string(), "A".to_string(), "B".to_string()]);
}

#[test]
fn auto_arrange_vertical_stacks_outputs() {
    let mut ids = OutputIdCounter::new();
    let mut map = OutputMap::new();
    map.add_output(output(&mut ids, "A", 1920, 1080));
    let mut b = output(&mut ids, "B", 1280, 1024);
    b.position = Point::new(50, 3000);
    map.add_output(b);
    map.auto_arrange_vertical();
    let bbox = map.bounding_box();
    assert_eq!(bbox, Rect::new(0, 0, 1920, 2104));
}

#[test]
fn transform_names_follow_debug_output() {
    assert_eq!(Transform::Normal.name(), "Normal");
    assert_eq!(Transform::Rotate90.name(), "_90");
    assert_eq!(Transform::Flipped270.name(), "Flipped270");
}

#[test]
fn update_size_changes_only_that_output() {
    let mut ids = OutputIdCounter::new();
    let mut map = OutputMap::new();
    let a = map.add_output(output(&mut ids, "A", 100, 100));
    let b = map.add_output(output(&mut ids, "B", 200, 200));
    map.update_size(a, Size::new(640, 480));
    assert_eq!(map.get(a).unwrap().size, Size::new(640, 480));
    assert_eq!(map.get(b).unwrap().size, Size::new(200, 200));
}

#[test]
fn outputs_changed_through_name_and_primary() {
    let mut ids = OutputIdCounter::new();
    let mut map = OutputMap::new();
    let a = map.add_output(output(&mut ids, "DP-1", 1920, 1080));
    let b = map.add_output(output(&mut ids, "DP-2", 2560, 1440));
    map.get_by_name_mut("DP-2").unwrap().set_transform(Transform::Rotate90);
    assert_eq!(map.get(b).unwrap().transform, Transform::Rotate90);
    assert!(map.get_by_name_mut("HDMI-1").is_none());
    map.primary_mut().unwrap().set_transform(Transform::Flipped);
    assert_eq!(map.get(a).unwrap().transform, Transform::Flipped);
    assert_eq!(map.get(b).unwrap().transform, Transform::Rotate90);
}
