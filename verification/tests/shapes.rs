use engine::drawable::{shape_to_string, Shape};

#[test]
fn shapes_have_their_names() {
    assert_eq!(shape_to_string(&Shape::SQUARE), "SQUARE");
    assert_eq!(shape_to_string(&Shape::CIRCLE), "CIRCLE");
}
