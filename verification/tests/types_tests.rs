use shapez2_calc::types::EColor;
use shapez2_calc::types::EShape;
use shapez2_calc::types::Shape;
use shapez2_calc::types::SingleItem;

#[test]
fn types_test_color_to_string() {
    assert_eq!(EColor::Red.to_string(), "r");
    assert_eq!(EColor::Green.to_string(), "g");
    assert_eq!(EColor::Blue.to_string(), "b");
    assert_eq!(EColor::Yellow.to_string(), "y");
    assert_eq!(EColor::Purple.to_string(), "p");
    assert_eq!(EColor::Cyan.to_string(), "c");
    assert_eq!(EColor::White.to_string(), "w");
    assert_eq!(EColor::Uncolored.to_string(), "u");
}

#[test]
fn types_test_color_try_from_string() {
    assert_eq!(EColor::try_from_string("r"), Some(EColor::Red));
    assert_eq!(EColor::try_from_string("g"), Some(EColor::Green));
    assert_eq!(EColor::try_from_string("b"), Some(EColor::Blue));
    assert_eq!(EColor::try_from_string("y"), Some(EColor::Yellow));
    assert_eq!(EColor::try_from_string("p"), Some(EColor::Purple));
    assert_eq!(EColor::try_from_string("c"), Some(EColor::Cyan));
    assert_eq!(EColor::try_from_string("w"), Some(EColor::White));
    assert_eq!(EColor::try_from_string("u"), Some(EColor::Uncolored));
    assert_eq!(EColor::try_from_string("x"), None);
}

#[test]
fn types_test_shape_to_raw_string() {
    let mut shape = Shape::new();
    assert_eq!(
        shape.to_raw_string(),
        "--------:--------:--------:--------".to_string()
    );

    shape.set_item(
        0,
        0,
        SingleItem {
            color: Some(EColor::Red),
            shape: Some(EShape::Circle),
        },
    );
    assert_eq!(
        shape.to_raw_string(),
        "Cr------:--------:--------:--------".to_string()
    );
}

#[test]
fn types_test_shape_to_string() {
    let mut shape = Shape::new();
    assert_eq!(shape.to_string(), "".to_string());

    shape.set_item(
        0,
        0,
        SingleItem {
            color: Some(EColor::Red),
            shape: Some(EShape::Circle),
        },
    );
    assert_eq!(shape.to_string(), "Cr".to_string());
}

#[test]
fn types_test_shape_try_from_string() {
    let s1 = SingleItem {
        color: Some(EColor::Red),
        shape: Some(EShape::Circle),
    };
    let s2 = SingleItem {
        color: Some(EColor::Green),
        shape: Some(EShape::Rectangle),
    };
    let s3 = SingleItem {
        color: None,
        shape: None,
    };
    let mut shape = Shape::new();
    for i in 0..4 {
        shape.set_item(i, 0, s1);
        shape.set_item(i, 1, s2);
        shape.set_item(i, 2, s3);
        shape.set_item(i, 3, s3);
    }

    assert_eq!(
        Shape::try_from_string("CrRg----:CrRg----:CrRg----:CrRg----"),
        Some(shape)
    );
}

#[test]
fn types_test_item_code_alphabets() {
    // Each half of an item code parses on its own, with the dash as
    // the absent half; a character outside either alphabet rejects
    // the code.
    assert_eq!(
        SingleItem::try_from_string("--"),
        Some(SingleItem {
            shape: None,
            color: None,
        })
    );
    assert_eq!(
        SingleItem::try_from_string("-r"),
        Some(SingleItem {
            shape: None,
            color: Some(EColor::Red),
        })
    );
    assert_eq!(
        SingleItem::try_from_string("P-"),
        Some(SingleItem {
            shape: Some(EShape::Pin),
            color: None,
        })
    );
    assert_eq!(SingleItem::try_from_string("Zz"), None);
    assert_eq!(SingleItem::try_from_string("Cz"), None);
    assert_eq!(SingleItem::try_from_string("Zr"), None);
    assert_eq!(SingleItem::try_from_string("C"), None);
    assert_eq!(SingleItem::try_from_string("Crr"), None);
}

#[test]
fn types_test_item_to_string() {
    // A colorless pin keeps its code; any other half-filled item
    // encodes as absent.
    let pin = SingleItem {
        shape: Some(EShape::Pin),
        color: None,
    };
    assert_eq!(pin.to_string(), "P-");
    let colorless_circle = SingleItem {
        shape: Some(EShape::Circle),
        color: None,
    };
    assert_eq!(colorless_circle.to_string(), "--");
    let shapeless_red = SingleItem {
        shape: None,
        color: Some(EColor::Red),
    };
    assert_eq!(shapeless_red.to_string(), "--");
    let full = SingleItem {
        shape: Some(EShape::Star),
        color: Some(EColor::Purple),
    };
    assert_eq!(full.to_string(), "Sp");
}

#[test]
fn types_test_shape_roundtrip() {
    let raw = "CrRgWbSy:P-CuSp--:--------:Wk------";
    let shape = Shape::try_from_string(raw).unwrap();
    assert_eq!(shape.to_raw_string(), raw);
    assert_eq!(shape.to_string(), raw);
    assert_eq!(Shape::try_from_string(&shape.to_string()), Some(shape));
}

#[test]
fn types_test_shape_try_from_string_rejects() {
    assert_eq!(
        Shape::try_from_string("--------:--------:--------:--------:--------"),
        None
    );
    assert_eq!(Shape::try_from_string("Cr"), None);
    assert_eq!(Shape::try_from_string("Cr------:Cr"), None);
    // a separator inside a layer
    assert_eq!(Shape::try_from_string("ab:cdefg:hijklmno"), None);
    assert_eq!(Shape::try_from_string(""), None);
    // an item code outside the alphabets
    assert_eq!(Shape::try_from_string("Zz------"), None);
    assert_eq!(Shape::try_from_string("Cr------:--Zz----"), None);
}

#[test]
fn types_test_shape_viewer_link() {
    let shape = Shape::try_from_string("Cr------:Cr------").unwrap();
    assert_eq!(
        shape.to_shapez2_shape_viewer(),
        "https://community-vortex.shapez2.com/shape?identifier=Cr------%3ACr------&extend=false&expand=false"
    );
}

#[test]
fn types_test_kind_try_from_string() {
    assert_eq!(EShape::try_from_string("C"), Some(EShape::Circle));
    assert_eq!(EShape::try_from_string("r"), Some(EShape::Rectangle));
    assert_eq!(EShape::try_from_string("W"), Some(EShape::Windmill));
    assert_eq!(EShape::try_from_string("S"), Some(EShape::Star));
    assert_eq!(EShape::try_from_string("P"), Some(EShape::Pin));
    assert_eq!(EShape::try_from_string("-"), None);
    assert_eq!(EShape::try_from_string("Q"), None);
    assert_eq!(EShape::try_from_string(""), None);
}
