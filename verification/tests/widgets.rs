use vector_canvas::fixed::fx_from_int;
use vector_canvas::ids::IdAllocator;
use vector_canvas::interaction::{
    ActiveTab, BoundingBox, FlipState, GuidelineType, HandleName, Message, Point, SelectionRect,
};

fn fx(units: i32) -> i64 {
    fx_from_int(units)
}

#[test]
fn test_to_kebab_case() {
    assert_eq!(HandleName::BottomRight.to_kebab_case(), "bottom-right");
    assert_eq!(HandleName::Top.to_kebab_case(), "top");
}

#[test]
fn test_cursor() {
    assert_eq!(HandleName::Left.cursor(), "ew-resize");
    assert_eq!(HandleName::Bottom.cursor(), "ns-resize");
    assert_eq!(HandleName::TopLeft.cursor(), "nwse-resize");
    assert_eq!(HandleName::BottomLeft.cursor(), "nesw-resize");
}

#[test]
fn test_is_corner() {
    assert!(HandleName::TopLeft.is_corner());
    assert!(HandleName::BottomRight.is_corner());
    assert!(!HandleName::Top.is_corner());
    assert!(!HandleName::Right.is_corner());
}

#[test]
fn test_calc_position() {
    let bbox = BoundingBox::new(fx(10), fx(20), fx(100), fx(50));
    assert_eq!(
        HandleName::TopLeft.calc_position(&bbox),
        Point::new(fx(10), fx(20))
    );
    assert_eq!(
        HandleName::BottomRight.calc_position(&bbox),
        Point::new(fx(110), fx(70))
    );
    assert_eq!(
        HandleName::Top.calc_position(&bbox),
        Point::new(fx(60), fx(20))
    );
    assert_eq!(
        HandleName::Left.calc_position(&bbox),
        Point::new(fx(10), fx(45))
    );
}

#[test]
fn test_flip_state() {
    assert_eq!(FlipState::none(), FlipState::new(false, false));
    let f = FlipState::new(true, false);
    assert!(f.x);
    assert!(!f.y);
}

#[test]
fn test_messages() {
    let m = Message::user("hello".to_string());
    assert_eq!(m.role, "user");
    assert_eq!(m.content, "hello");
    let m = Message::assistant("hi".to_string());
    assert_eq!(m.role, "assistant");
    let m = Message::new("system".to_string(), "x".to_string());
    assert_eq!(m.role, "system");
}

#[test]
fn test_selection_rect() {
    let r = SelectionRect::new(Point::new(fx(10), fx(30)), Point::new(fx(4), fx(50)));
    let b = r.to_bounding_box();
    assert_eq!(b, BoundingBox::new(fx(4), fx(30), fx(6), fx(20)));
}

#[test]
fn test_guideline_and_tabs() {
    assert_ne!(GuidelineType::Vertical, GuidelineType::Horizontal);
    assert_ne!(ActiveTab::Design, ActiveTab::Chat);
}

#[test]
fn test_id_allocator() {
    let mut ids = IdAllocator::new();
    assert_eq!(ids.generate_shape_id(), 1);
    assert_eq!(ids.generate_group_id(), 2);
    assert_eq!(ids.generate_group_name(), "Group 1");
    assert_eq!(ids.generate_group_name(), "Group 2");
    assert_eq!(ids.generate_shape_id(), 3);
}
