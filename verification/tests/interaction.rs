use bezier_editor::mouse::{ElementState, MouseButton, MouseButtons, MousePosition};
use bezier_editor::position::Position;
use bezier_editor::selection::{
    hover_after_move, stroke_for_selection, Hoverable, Hovered, SelectionData, Stroke,
};

#[test]
fn mouse_buttons_press_release_cycle() {
    let mut buttons = MouseButtons::new();
    assert!(!buttons.left_mouse_down());
    assert!(!buttons.needs_end_frame());

    buttons.update(ElementState::Pressed, MouseButton::Left);
    assert!(buttons.left_mouse_pressed());
    assert!(buttons.left_mouse_down());
    assert!(!buttons.left_mouse_released());
    assert!(buttons.needs_end_frame());

    buttons.end_frame();
    assert!(!buttons.left_mouse_pressed());
    assert!(buttons.left_mouse_down());
    assert!(!buttons.needs_end_frame());

    buttons.update(ElementState::Released, MouseButton::Left);
    assert!(!buttons.left_mouse_down());
    assert!(buttons.left_mouse_released());
    assert!(buttons.needs_end_frame());

    buttons.end_frame();
    assert!(!buttons.left_mouse_released());
}

#[test]
fn mouse_buttons_ignore_other_buttons() {
    let mut buttons = MouseButtons::new();
    buttons.update(ElementState::Pressed, MouseButton::Right);
    assert!(!buttons.left_mouse_pressed());
    assert!(!buttons.left_mouse_down());
}

#[test]
fn mouse_position_keeps_previous() {
    let mut mouse = MousePosition::new();
    mouse.update(Position::new(10, 20));
    mouse.update(Position::new(30, 40));
    assert_eq!(mouse.position(), Position::new(30, 40));
    assert_eq!(mouse.previous_position(), Position::new(10, 20));
}

#[test]
fn hover_within_radius_gains_hover() {
    let r = hover_after_move(
        Position::new(100, 100),
        Hoverable { radius: 20 },
        None,
        Position::new(110, 110),
    );
    assert_eq!(r, Some(Hovered { connected: false }));
}

#[test]
fn hover_outside_radius_drops_distance_hover_keeps_connected() {
    let lost = hover_after_move(
        Position::new(100, 100),
        Hoverable { radius: 20 },
        Some(Hovered { connected: false }),
        Position::new(200, 200),
    );
    assert_eq!(lost, None);

    let kept = hover_after_move(
        Position::new(100, 100),
        Hoverable { radius: 20 },
        Some(Hovered { connected: true }),
        Position::new(200, 200),
    );
    assert_eq!(kept, Some(Hovered { connected: true }));
}

#[test]
fn grab_selects_and_deselects() {
    let mut data = SelectionData::new();

    // Clicking a hovered, draggable and selectable entity selects it.
    let (deselected, selected) = data.grab(&vec![7], Some(7));
    assert_eq!(deselected, None);
    assert_eq!(selected, Some(7));
    assert_eq!(data.selected_item, Some(7));
    assert_eq!(data.held_items, vec![7]);
    data.release();
    assert!(data.held_items.is_empty());

    // Clicking a different entity moves the selection.
    let (deselected, selected) = data.grab(&vec![9], Some(9));
    assert_eq!(deselected, Some(7));
    assert_eq!(selected, Some(9));
    assert_eq!(data.selected_item, Some(9));
    data.release();

    // Clicking empty space grabs nothing and drops the selection.
    let (deselected, selected) = data.grab(&vec![], None);
    assert_eq!(deselected, Some(9));
    assert_eq!(selected, None);
}

#[test]
fn stroke_follows_selection() {
    assert_eq!(stroke_for_selection(true), Stroke::Solid);
    assert_eq!(stroke_for_selection(false), Stroke::Outline);
}

#[test]
fn distance_squared_is_exact() {
    let a = Position::new(3, 4);
    let b = Position::new(0, 0);
    assert_eq!(a.distance_squared(&b), 25);
    assert_eq!(b.distance_squared(&a), 25);
}
