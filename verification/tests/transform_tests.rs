use shapez2_calc::cutting::Cuttable;
use shapez2_calc::rotate::RotateDirection;
use shapez2_calc::rotate::Rotatable;
use shapez2_calc::shape::EShape;
use shapez2_calc::shape::Shape;
use shapez2_calc::shape::SingleItem;
use shapez2_calc::stack::Stackable;

#[test]
fn test_half_destroy() {
    let shape = Shape::random();
    let new_shape = shape.half_destroy();
    for i in 0..4 {
        for j in 0..4 {
            if j * 2 / 4 > 0 {
                assert_eq!(new_shape.get_item(i, j), SingleItem::new());
            } else {
                assert_eq!(new_shape.get_item(i, j), shape.get_item(i, j));
            }
        }
    }
}

#[test]
fn test_cutting() {
    let shape = Shape::random();
    let [left_shape, right_shape] = shape.cutting();
    for i in 0..4 {
        for j in 0..4 {
            if j * 2 / 4 > 0 {
                assert_eq!(left_shape.get_item(i, j), shape.get_item(i, j));
                assert_eq!(right_shape.get_item(i, j), SingleItem::new());
            } else {
                assert_eq!(left_shape.get_item(i, j), SingleItem::new());
                assert_eq!(right_shape.get_item(i, j), shape.get_item(i, j));
            }
        }
    }
}

#[test]
fn test_swap() {
    let shape_a = Shape::random();
    let shape_b = Shape::random();
    let [new_shape_a, new_shape_b] = Shape::swap(&shape_a, &shape_b);
    for i in 0..4 {
        for j in 0..4 {
            if j * 2 / 4 > 0 {
                assert_eq!(new_shape_a.get_item(i, j), shape_b.get_item(i, j));
                assert_eq!(new_shape_b.get_item(i, j), shape_a.get_item(i, j));
            } else {
                assert_eq!(new_shape_a.get_item(i, j), shape_a.get_item(i, j));
                assert_eq!(new_shape_b.get_item(i, j), shape_b.get_item(i, j));
            }
        }
    }
}

#[test]
fn test_swap_with() {
    let mut shape_a = Shape::random();
    let mut shape_b = Shape::random();
    let [new_shape_a, new_shape_b] = shape_a.swap_with(&shape_b);
    shape_a.swapd_with(&mut shape_b);

    assert_eq!(new_shape_a, shape_a);
    assert_eq!(new_shape_b, shape_b);
}

#[test]
fn test_rotate_once() {
    // One clockwise step moves the item at position j to position
    // (j + 1) % 4 within its own layer.
    let shape = Shape::random();
    let new_shape = shape.rotate_once();
    for i in 0..4 {
        for j in 0..4 {
            assert_eq!(new_shape.get_item(i, (j + 1) % 4), shape.get_item(i, j));
        }
    }
}

#[test]
fn test_rotation_group() {
    let shape = Shape::try_from_string("CrRgWbSy:P-CuRm--").unwrap();
    let once = shape.rotate_once();
    let twice = once.rotate_once();
    let thrice = twice.rotate_once();
    let full = thrice.rotate_once();
    assert_eq!(full, shape);
    assert_eq!(shape.rotate_180(), twice);
    assert_eq!(
        shape.rotate_once_reverse().rotate_once_reverse(),
        shape.rotate_180()
    );
    assert_eq!(shape.rotate_once().rotate_once_reverse(), shape);
    assert_eq!(shape.rotate_once_reverse().rotate_once(), shape);
    assert_eq!(
        shape.rotate(RotateDirection::Clockwise, 4),
        shape
    );
    assert_eq!(
        shape.rotate(RotateDirection::CounterClockwise, 1),
        shape.rotate(RotateDirection::Clockwise, 3)
    );
    let mut turned = shape;
    turned.rotated(RotateDirection::Clockwise, 2);
    assert_eq!(turned, shape.rotate_180());
}

#[test]
fn test_rotate_once_exact() {
    let shape = Shape::try_from_string("CrRgWbSy").unwrap();
    assert_eq!(shape.rotate_once().to_minify_string(), "SyCrRgWb");
    assert_eq!(shape.rotate_once_reverse().to_minify_string(), "RgWbSyCr");
    assert_eq!(shape.rotate_180().to_minify_string(), "WbSyCrRg");
}

#[test]
fn test_cutting_exact() {
    let shape = Shape::try_from_string("CrRgWbSy:P-CuRm--").unwrap();
    let [left, right] = shape.cutting();
    assert_eq!(left.to_minify_string(), "----WbSy:----Rm--");
    assert_eq!(right.to_minify_string(), "CrRg----:P-Cu----");
}

#[test]
fn test_swap_involution_exact() {
    let a = Shape::try_from_string("CrRgWbSy").unwrap();
    let b = Shape::try_from_string("SuSuSuSu:P-P-P-P-").unwrap();
    let [a1, b1] = Shape::swap(&a, &b);
    assert_eq!(a1.to_minify_string(), "CrRgSuSu:----P-P-");
    assert_eq!(b1.to_minify_string(), "SuSuWbSy:P-P-----");
    let [a2, b2] = Shape::swap(&a1, &b1);
    assert_eq!(a2, a);
    assert_eq!(b2, b);
}

#[test]
fn test_stack() {
    let bot = Shape::random_with_height(2);
    let top = Shape::random_with_height(2);
    let new_shape = Shape::stack(&bot, &top);
    println!("{}", bot.to_shapez2_shape_viewer());
    println!("{}", top.to_shapez2_shape_viewer());
    println!("{}", new_shape.to_shapez2_shape_viewer());

    // The bottom's two occupied layers stay; the top's layers fill
    // the room above them.
    for i in 0..4 {
        for j in 0..4 {
            if i < 2 {
                assert_eq!(new_shape.get_item(i, j), bot.get_item(i, j));
            } else {
                assert_eq!(new_shape.get_item(i, j), top.get_item(i - 2, j));
            }
        }
    }
}

#[test]
fn test_stack_exact() {
    let bot = Shape::try_from_string("CrCrCrCr:RgRgRgRg").unwrap();
    let top = Shape::try_from_string("WbWbWbWb").unwrap();
    let stacked = Shape::stack(&bot, &top);
    assert_eq!(stacked.to_minify_string(), "CrCrCrCr:RgRgRgRg:WbWbWbWb");

    // Layers that would rise past the four-layer capacity are
    // dropped.
    let tall_top = Shape::try_from_string("WbWbWbWb:SySySySy:CuCuCuCu").unwrap();
    let truncated = Shape::stack(&bot, &tall_top);
    assert_eq!(
        truncated.to_minify_string(),
        "CrCrCrCr:RgRgRgRg:WbWbWbWb:SySySySy"
    );

    // Stacking onto an empty bottom copies the top.
    assert_eq!(Shape::stack(&Shape::default(), &top), top);

    // The mutating forms agree with the copy-returning ones.
    let mut bot_mut = bot;
    bot_mut.stacked_with(&top);
    assert_eq!(bot_mut, stacked);
    let mut bot_mut2 = bot;
    let returned = Shape::stacked(&mut bot_mut2, &top);
    assert_eq!(returned, stacked);
    assert_eq!(bot_mut2, stacked);
    assert_eq!(bot.stack_with(&top), stacked);
}

#[test]
fn test_half_destroy_mutating_agrees() {
    let shape = Shape::try_from_string("CrRgWbSy:P-CuRm--").unwrap();
    let mut destroyed = shape;
    destroyed.half_destroyed();
    assert_eq!(destroyed, shape.half_destroy());
    assert_eq!(destroyed.to_minify_string(), "CrRg----:P-Cu----");
}

#[test]
fn test_pieces_preserved_by_cut() {
    // The two halves are disjoint and together cover exactly the
    // original's present positions.
    let shape = Shape::random();
    let [left, right] = shape.cutting();
    for i in 0..4 {
        for j in 0..4 {
            let l = left.get_item(i, j);
            let r = right.get_item(i, j);
            assert!(l.shape == EShape::Empty || r.shape == EShape::Empty);
            let original = shape.get_item(i, j);
            if original.shape != EShape::Empty {
                assert!(l == original || r == original);
            } else {
                assert_eq!(l.shape, EShape::Empty);
                assert_eq!(r.shape, EShape::Empty);
            }
        }
    }
}
