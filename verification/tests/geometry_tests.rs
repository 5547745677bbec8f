use oxide::geometry::Vector2u32;

#[test]
fn new_sets_both_components() {
    let v = Vector2u32::new(7);
    assert_eq!(v, Vector2u32 { x: 7, y: 7 });
}

#[test]
fn add_is_component_wise() {
    let a = Vector2u32 { x: 3, y: 10 };
    let b = Vector2u32 { x: 4, y: 20 };
    assert_eq!(a.add(b), Vector2u32 { x: 7, y: 30 });
}

#[test]
fn sub_saturates_at_zero() {
    let a = Vector2u32 { x: 0, y: 0 };
    let b = Vector2u32 { x: 5, y: 5 };
    assert_eq!(a.sub(b), Vector2u32 { x: 0, y: 0 });
}

#[test]
fn sub_saturates_per_component() {
    let a = Vector2u32 { x: 7, y: 2 };
    let b = Vector2u32 { x: 5, y: 5 };
    assert_eq!(a.sub(b), Vector2u32 { x: 2, y: 0 });
}
