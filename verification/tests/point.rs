use legacy_tx::Point;

#[test]
fn point_new_keeps_both_coordinates() {
    let point = Point::new(3u64, 4u64);
    assert_eq!(point.x, 3);
    assert_eq!(point.y, 4);
    assert_eq!(point, Point { x: 3, y: 4 });
    assert_ne!(point, Point::new(4, 3));
    let named = Point::new(String::from("a"), String::from("b"));
    assert_eq!(named.clone(), named);
}
