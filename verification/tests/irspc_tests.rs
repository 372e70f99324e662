use bspstack::bspwm::{CardinalDirection, FocusTarget};
use bspstack::irspc::{
    FocusDirection, cardinal_to_focus_direction, direction_from_string, focus_neighbour,
};
use bspstack::tree::SplitDirection;

#[test]
fn empty_desktop() {
    let desktop_id = 5;
    let target = focus_neighbour(None, vec![], vec![], Some(desktop_id));
    assert_eq!(target, FocusTarget::Desktop(desktop_id));

    let target = focus_neighbour(None, vec![], vec![10, 20], Some(desktop_id));
    assert_eq!(target, FocusTarget::Desktop(desktop_id));
}

#[test]
fn same_desktop() {
    let node_id = 5;
    let target = focus_neighbour(Some(node_id), vec![node_id, 4, 3], vec![], None);

    assert_eq!(target, FocusTarget::Node(node_id));
}

#[test]
fn node_in_other_desktop() {
    let node_id = 5;
    let target = focus_neighbour(Some(node_id), vec![3, 2], vec![node_id, 4, 1], None);
    assert_eq!(target, FocusTarget::Node(node_id));
}

#[test]
fn node_in_faraway_desktop() {
    let desktop_id = 5;

    let target = focus_neighbour(Some(2), vec![1259, 19251], vec![12912, 12612], Some(desktop_id));
    assert_eq!(target, FocusTarget::Desktop(desktop_id));
}

#[test]
fn no_neighbour() {
    let target = focus_neighbour(None, vec![1925, 15212], vec![], None);

    assert_eq!(target, FocusTarget::Nothing);
}

#[test]
fn cardinal_movement_follows_split() {
    let h = SplitDirection::Horizontal;
    let v = SplitDirection::Vertical;
    assert_eq!(cardinal_to_focus_direction(&CardinalDirection::North, &h), Some(
        FocusDirection::Prev,
    ));
    assert_eq!(cardinal_to_focus_direction(&CardinalDirection::South, &h), Some(
        FocusDirection::Next,
    ));
    assert_eq!(cardinal_to_focus_direction(&CardinalDirection::East, &h), None);
    assert_eq!(cardinal_to_focus_direction(&CardinalDirection::West, &h), None);
    assert_eq!(cardinal_to_focus_direction(&CardinalDirection::West, &v), Some(
        FocusDirection::Prev,
    ));
    assert_eq!(cardinal_to_focus_direction(&CardinalDirection::East, &v), Some(
        FocusDirection::Next,
    ));
    assert_eq!(cardinal_to_focus_direction(&CardinalDirection::North, &v), None);
    assert_eq!(cardinal_to_focus_direction(&CardinalDirection::South, &v), None);
}

#[test]
fn direction_words_any_case() {
    // Would fail if the lowercasing handed its argument back unchanged.
    assert_eq!(direction_from_string("NORTH"), Ok(CardinalDirection::North));
    assert_eq!(direction_from_string("SoUtH"), Ok(CardinalDirection::South));
    assert_eq!(direction_from_string("east"), Ok(CardinalDirection::East));
    assert_eq!(direction_from_string("West"), Ok(CardinalDirection::West));
    assert_eq!(direction_from_string("NoWhErE"), Err(String::from("nowhere")));
}
