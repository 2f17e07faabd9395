use snake_kernel::geometry::Vector2D;

#[test]
fn new_and_accessors_keep_components() {
    let v = Vector2D::new(3, -4);
    assert_eq!(v.x(), 3);
    assert_eq!(v.y(), -4);
    assert_eq!(v, Vector2D { x: 3, y: -4 });
}

#[test]
fn scalar_repeats_the_value() {
    assert_eq!(Vector2D::scalar(25), Vector2D::new(25, 25));
    assert_eq!(Vector2D::scalar(-1), Vector2D::new(-1, -1));
}

#[test]
fn equality_is_structural() {
    assert_eq!(Vector2D::new(1, 2), Vector2D::new(1, 2));
    assert_ne!(Vector2D::new(1, 2), Vector2D::new(2, 1));
    assert_ne!(Vector2D::new(1, 2), Vector2D::new(1, 3));
}

#[test]
fn plus_adds_component_wise() {
    assert_eq!(Vector2D::new(25, 25).plus(Vector2D::new(0, 1)), Vector2D::new(25, 26));
    assert_eq!(Vector2D::new(0, 0).plus(Vector2D::new(-1, 0)), Vector2D::new(-1, 0));
    assert_eq!(Vector2D::new(32000, -32000).plus(Vector2D::new(767, -768)), Vector2D::new(32767, -32768));
}

#[test]
fn minus_subtracts_component_wise() {
    assert_eq!(Vector2D::new(25, 25).minus(Vector2D::new(0, 16)), Vector2D::new(25, 9));
    assert_eq!(Vector2D::new(0, 0).minus(Vector2D::new(1, -1)), Vector2D::new(-1, 1));
}

#[test]
fn modulo_is_never_negative() {
    let bound = Vector2D::new(51, 51);
    assert_eq!(Vector2D::new(-1, 52).modulo(bound), Vector2D::new(50, 1));
    assert_eq!(Vector2D::new(0, 50).modulo(bound), Vector2D::new(0, 50));
    assert_eq!(Vector2D::new(-51, 51).modulo(bound), Vector2D::new(0, 0));
    assert_eq!(Vector2D::new(i16::MIN, i16::MAX).modulo(bound), Vector2D::new(25, 25));
}

#[test]
fn wrap_steps_over_each_edge() {
    let bound = Vector2D::new(51, 51);
    assert_eq!(Vector2D::new(-1, 10).wrap(bound), Vector2D::new(50, 10));
    assert_eq!(Vector2D::new(51, 10).wrap(bound), Vector2D::new(0, 10));
    assert_eq!(Vector2D::new(10, -1).wrap(bound), Vector2D::new(10, 50));
    assert_eq!(Vector2D::new(10, 51).wrap(bound), Vector2D::new(10, 0));
}

#[test]
fn wrap_keeps_cells_of_the_board() {
    let bound = Vector2D::new(7, 4);
    for x in 0..7 {
        for y in 0..4 {
            assert_eq!(Vector2D::new(x, y).wrap(bound), Vector2D::new(x, y));
        }
    }
}

#[test]
fn wrap_takes_positions_far_from_the_board() {
    let bound = Vector2D::new(51, 51);
    assert_eq!(Vector2D::new(-200, -52).wrap(bound), Vector2D::new(4, 50));
    assert_eq!(Vector2D::new(i16::MIN, i16::MAX).wrap(bound), Vector2D::new(25, 25));
    assert_eq!(
        Vector2D::new(i16::MAX, i16::MIN).wrap(Vector2D::new(i16::MAX, i16::MAX)),
        Vector2D::new(0, 32766)
    );
    assert_eq!(Vector2D::new(i16::MIN, i16::MAX).wrap(Vector2D::new(1, 1)), Vector2D::new(0, 0));
}

#[test]
fn wrap_result_lies_in_bounds_for_every_position() {
    let bounds = [Vector2D::new(1, 1), Vector2D::new(3, 5), Vector2D::new(51, 51), Vector2D::new(i16::MAX, 2)];
    let samples: [i16; 11] = [i16::MIN, -32767, -1000, -52, -1, 0, 1, 50, 51, 1000, i16::MAX];
    for bound in bounds {
        for x in samples {
            for y in samples {
                let wrapped = Vector2D::new(x, y).wrap(bound);
                assert!(0 <= wrapped.x && wrapped.x < bound.x);
                assert!(0 <= wrapped.y && wrapped.y < bound.y);
                assert!(wrapped.within(&bound));
                assert_eq!((wrapped.x as i32 - x as i32).rem_euclid(bound.x as i32), 0);
                assert_eq!((wrapped.y as i32 - y as i32).rem_euclid(bound.y as i32), 0);
            }
        }
    }
}

#[test]
fn within_tells_cells_from_other_points() {
    let bound = Vector2D::new(3, 2);
    assert!(Vector2D::new(0, 0).within(&bound));
    assert!(Vector2D::new(2, 1).within(&bound));
    assert!(!Vector2D::new(3, 1).within(&bound));
    assert!(!Vector2D::new(2, 2).within(&bound));
    assert!(!Vector2D::new(-1, 0).within(&bound));
    assert!(!Vector2D::new(0, -1).within(&bound));
}
