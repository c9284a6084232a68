use shapez2_calc::shape::EColor;
use shapez2_calc::shape::EShape;
use shapez2_calc::shape::Shape;
use shapez2_calc::shape::SingleItem;
use shapez2_calc::shape::SingleLayer;

#[test]
fn shape_test_color_to_string() {
    assert_eq!(EColor::Red.to_string(), "r");
    assert_eq!(EColor::Green.to_string(), "g");
    assert_eq!(EColor::Blue.to_string(), "b");
    assert_eq!(EColor::Yellow.to_string(), "y");
    assert_eq!(EColor::Magenta.to_string(), "m");
    assert_eq!(EColor::Cyan.to_string(), "c");
    assert_eq!(EColor::White.to_string(), "w");
    assert_eq!(EColor::Uncolored.to_string(), "u");
    assert_eq!(EColor::Empty.to_string(), "-");
}

#[test]
fn shape_test_color_try_from_string() {
    assert_eq!(EColor::try_from_string("r"), Some(EColor::Red));
    assert_eq!(EColor::try_from_string("g"), Some(EColor::Green));
    assert_eq!(EColor::try_from_string("b"), Some(EColor::Blue));
    assert_eq!(EColor::try_from_string("y"), Some(EColor::Yellow));
    assert_eq!(EColor::try_from_string("m"), Some(EColor::Magenta));
    assert_eq!(EColor::try_from_string("c"), Some(EColor::Cyan));
    assert_eq!(EColor::try_from_string("w"), Some(EColor::White));
    assert_eq!(EColor::try_from_string("u"), Some(EColor::Uncolored));
    assert_eq!(EColor::try_from_string("-"), Some(EColor::Empty));
    assert_eq!(EColor::try_from_string("x"), None);
}

#[test]
fn test_default() {
    let item = SingleItem::default();
    assert_eq!(item.color, EColor::Empty);
    assert_eq!(item.shape, EShape::Empty);

    let layer = SingleLayer::default();
    for j in 0..4 {
        assert_eq!(layer.get_item(j), SingleItem::default());
    }

    let shape = Shape::default();
    for i in 0..4 {
        for j in 0..4 {
            assert_eq!(shape.get_item(i, j), SingleItem::default());
        }
    }
}

#[test]
fn shape_test_shape_to_raw_string() {
    let mut shape = Shape::default();
    assert_eq!(
        shape.to_raw_string(),
        "--------:--------:--------:--------".to_string()
    );

    shape.set_item(
        0,
        0,
        SingleItem {
            color: EColor::Red,
            shape: EShape::Circle,
        },
    );
    assert_eq!(
        shape.to_raw_string(),
        "Cr------:--------:--------:--------".to_string()
    );
}

#[test]
fn shape_test_shape_to_string() {
    let mut shape = Shape::default();
    assert_eq!(shape.to_minify_string(), "".to_string());

    shape.set_item(
        0,
        0,
        SingleItem {
            color: EColor::Red,
            shape: EShape::Circle,
        },
    );
    assert_eq!(shape.to_minify_string(), "Cr".to_string());
}

#[test]
fn shape_test_shape_try_from_string() {
    let s1 = SingleItem {
        color: EColor::Red,
        shape: EShape::Circle,
    };
    let s2 = SingleItem {
        color: EColor::Green,
        shape: EShape::Rectangle,
    };
    let s3 = SingleItem {
        color: EColor::Empty,
        shape: EShape::Empty,
    };
    let mut shape = Shape::default();
    for i in 0..4 {
        shape.set_item(i, 0, s1);
        shape.set_item(i, 1, s2);
        shape.set_item(i, 2, s3);
        shape.set_item(i, 3, s3);
    }

    assert_eq!(
        Shape::try_from_string("CrRg----:CrRg----:CrRg----:CrRg----"),
        Some(shape)
    );
}

#[test]
fn test_new_random_shape() {
    let shape = Shape::random();
    assert_eq!(shape.to_raw_string().len(), 2 * 4 * 4 + 4 - 1);
}

#[test]
fn test_ramdom_shape_loopback_raw_string() {
    let shape = Shape::random();
    let shape_str = shape.to_raw_string();
    assert_eq!(Shape::try_from_string(&shape_str), Some(shape));
}

#[test]
fn test_ramdom_shape_loopback_minify_string() {
    // The minified form of a shape below two layers may drop item
    // codes, and such strings are rejected by the parser; the round
    // trip is promised for heights of two and more.
    let height = 2 + Shape::random().layer_height() % 3;
    let shape = Shape::random_with_height(height);
    let shape_str = shape.to_minify_string();
    assert_eq!(Shape::try_from_string(&shape_str), Some(shape));
}

#[test]
fn test_random_with_height() {
    for height in 0..5 {
        let shape = Shape::random_with_height(height);
        assert_eq!(shape.layer_height(), height);
    }
}

#[test]
fn test_shape_kind_try_from_string() {
    assert_eq!(EShape::try_from_string("C"), Some(EShape::Circle));
    assert_eq!(EShape::try_from_string("R"), Some(EShape::Rectangle));
    assert_eq!(EShape::try_from_string("W"), Some(EShape::Windmill));
    assert_eq!(EShape::try_from_string("S"), Some(EShape::Star));
    assert_eq!(EShape::try_from_string("P"), Some(EShape::Pin));
    assert_eq!(EShape::try_from_string("-"), Some(EShape::Empty));
    assert_eq!(EShape::try_from_string("c"), Some(EShape::Circle));
    assert_eq!(EShape::try_from_string("Q"), None);
    assert_eq!(EShape::try_from_string("CC"), None);
    assert_eq!(EShape::try_from_string(""), None);
}

#[test]
fn test_color_case_insensitive() {
    // Codes match after lowercasing; the Kelvin sign is the one
    // non-ASCII character that lowercases to a code.
    assert_eq!(EColor::try_from_string("R"), Some(EColor::Red));
    assert_eq!(EColor::try_from_string("K"), Some(EColor::Black));
    assert_eq!(EColor::try_from_string("k"), Some(EColor::Black));
    assert_eq!(EColor::try_from_string("\u{212a}"), Some(EColor::Black));
    assert_eq!(EColor::try_from_string("rr"), None);
    assert_eq!(EColor::try_from_string(""), None);
}

#[test]
fn test_item_try_from_string() {
    assert_eq!(
        SingleItem::try_from_string("Cr"),
        Some(SingleItem {
            shape: EShape::Circle,
            color: EColor::Red,
        })
    );
    assert_eq!(
        SingleItem::try_from_string("P-"),
        Some(SingleItem {
            shape: EShape::Pin,
            color: EColor::Empty,
        })
    );
    assert_eq!(
        SingleItem::try_from_string("--"),
        Some(SingleItem::default())
    );
    assert_eq!(SingleItem::try_from_string("Zz"), None);
    assert_eq!(SingleItem::try_from_string("C"), None);
    assert_eq!(SingleItem::try_from_string("Crr"), None);
}

#[test]
fn test_layer_try_from_string() {
    let layer = SingleLayer::try_from_string("CrRg----").unwrap();
    assert_eq!(
        layer.get_item(0),
        SingleItem {
            shape: EShape::Circle,
            color: EColor::Red,
        }
    );
    assert_eq!(
        layer.get_item(1),
        SingleItem {
            shape: EShape::Rectangle,
            color: EColor::Green,
        }
    );
    assert_eq!(layer.get_item(2), SingleItem::default());
    assert_eq!(layer.get_item(3), SingleItem::default());
    assert_eq!(SingleLayer::try_from_string("CrRg---"), None);
    assert_eq!(SingleLayer::try_from_string("CrRg----X"), None);
    assert_eq!(SingleLayer::try_from_string("CrRg--Zz"), None);
}

#[test]
fn test_shape_try_from_string_rejects() {
    // more than four layers
    assert_eq!(
        Shape::try_from_string("--------:--------:--------:--------:--------"),
        None
    );
    // a layer that is not exactly eight characters
    assert_eq!(Shape::try_from_string("Cr------:Cr"), None);
    assert_eq!(Shape::try_from_string(""), None);
    assert_eq!(Shape::try_from_string("Cr"), None);
    // an unrecognized item code
    assert_eq!(Shape::try_from_string("Zz------"), None);
    // a separator in the wrong place
    assert_eq!(Shape::try_from_string("Cr--:----Cr---"), None);
}

#[test]
fn test_minify_keeps_interior_blanks() {
    // An absent layer below a present one is kept; only trailing
    // absent layers are stripped.
    let shape = Shape::try_from_string("Cr------:--------:Su------:--------").unwrap();
    assert_eq!(shape.to_minify_string(), "Cr------:--------:Su------");
    // A `-r` item code is not `--` and survives single-layer
    // stripping.
    let odd = Shape::try_from_string("Cr-r----").unwrap();
    assert_eq!(odd.to_minify_string(), "Cr-r");
}

#[test]
fn test_layer_height() {
    assert_eq!(Shape::default().layer_height(), 0);
    let s1 = Shape::try_from_string("Cr------").unwrap();
    assert_eq!(s1.layer_height(), 1);
    let s3 = Shape::try_from_string("Cr------:--------:Su------").unwrap();
    assert_eq!(s3.layer_height(), 3);
    let s4 = Shape::try_from_string("Cr------:Cr------:Cr------:P-------").unwrap();
    assert_eq!(s4.layer_height(), 4);
}

#[test]
fn test_new_simple() {
    let shape = Shape::new_simple(EShape::Circle, EColor::Blue);
    assert_eq!(shape.to_minify_string(), "CbCbCbCb");
    assert_eq!(shape.layer_height(), 1);
    let uncolored = SingleLayer::new_with_shape(EShape::Star);
    assert_eq!(uncolored.to_string(), "SuSuSuSu");
    assert!(uncolored.is_some());
    assert!(!SingleLayer::default().is_some());
}

#[test]
fn test_shapez2_shape_viewer_link() {
    let shape = Shape::try_from_string("Cr------:Cr------").unwrap();
    assert_eq!(
        shape.to_shapez2_shape_viewer(),
        "https://community-vortex.shapez2.com/shape?identifier=Cr------%3ACr------&extend=false&expand=false"
    );
}

#[test]
fn test_unique_flat_items() {
    let shape = Shape::try_from_string("CrCr----:Rg------").unwrap();
    let items = shape.unique_flat_items();
    assert_eq!(items.len(), 2);
    assert!(items.contains(&SingleItem {
        shape: EShape::Circle,
        color: EColor::Red,
    }));
    assert!(items.contains(&SingleItem {
        shape: EShape::Rectangle,
        color: EColor::Green,
    }));
    assert_eq!(Shape::default().unique_flat_items().len(), 0);
}
