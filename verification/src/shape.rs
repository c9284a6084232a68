use vstd::prelude::*;
use vstd::string::*;

verus! {

/// Number of quadrant positions in a layer.
pub const SHAPEZ2_DEMENTION: usize = 4;

/// Number of layers in a shape.
pub const SHAPEZ2_LAYER: usize = 4;

/// A piece color. `Empty` is the absence sentinel, distinct from
/// `Uncolored`, which is a legitimate color of a present piece.
#[derive(Debug, Clone, Copy, PartialEq, Eq, Hash, Structural)]
pub enum EColor {
    Red,
    Green,
    Blue,
    Yellow,
    Magenta,
    Cyan,
    White,
    Black,
    Uncolored,
    Empty,
}

/// A piece kind. `Empty` is the absence sentinel.
#[derive(Debug, Clone, Copy, PartialEq, Eq, Hash, Structural)]
pub enum EShape {
    Circle,
    Rectangle,
    Windmill,
    Star,
    Pin,
    Empty,
}

/// One quadrant of a layer: a piece kind paired with a color.
#[derive(Debug, Clone, Copy, PartialEq, Eq, Hash, Structural)]
pub struct SingleItem {
    pub color: EColor,
    pub shape: EShape,
}

impl SingleItem {
    /// The absent item: no piece, no color.
    pub open spec fn spec_empty() -> SingleItem {
        SingleItem { color: EColor::Empty, shape: EShape::Empty }
    }

    /// An item is present exactly when its kind is not the sentinel.
    pub open spec fn spec_is_present(self) -> bool {
        self.shape != EShape::Empty
    }
}

impl Default for SingleItem {
    fn default() -> (r: Self)
        ensures
            r == SingleItem::spec_empty(),
    {
        SingleItem { color: EColor::Empty, shape: EShape::Empty }
    }
}

impl SingleItem {
    pub fn new() -> (r: SingleItem)
        ensures
            r == SingleItem::spec_empty(),
    {
        Self::default()
    }
}

/// The one-character code of a color.
pub open spec fn spec_color_char(c: EColor) -> char {
    match c {
        EColor::Red => 'r',
        EColor::Green => 'g',
        EColor::Blue => 'b',
        EColor::Yellow => 'y',
        EColor::Magenta => 'm',
        EColor::Cyan => 'c',
        EColor::White => 'w',
        EColor::Black => 'k',
        EColor::Uncolored => 'u',
        EColor::Empty => '-',
    }
}

/// The one-character code of a piece kind.
pub open spec fn spec_kind_char(k: EShape) -> char {
    match k {
        EShape::Circle => 'C',
        EShape::Rectangle => 'R',
        EShape::Windmill => 'W',
        EShape::Star => 'S',
        EShape::Pin => 'P',
        EShape::Empty => '-',
    }
}

/// The color whose code, after lowercasing, is `c`. The Kelvin sign
/// is the one character beyond ASCII that lowercases to a code.
pub open spec fn spec_parse_color_char(c: char) -> Option<EColor> {
    match c {
        'r' | 'R' => Some(EColor::Red),
        'g' | 'G' => Some(EColor::Green),
        'b' | 'B' => Some(EColor::Blue),
        'y' | 'Y' => Some(EColor::Yellow),
        'm' | 'M' => Some(EColor::Magenta),
        'c' | 'C' => Some(EColor::Cyan),
        'w' | 'W' => Some(EColor::White),
        'k' | 'K' | '\u{212a}' => Some(EColor::Black),
        'u' | 'U' => Some(EColor::Uncolored),
        '-' => Some(EColor::Empty),
        _ => None,
    }
}

/// The piece kind whose code, after uppercasing, is `c`. The long s
/// is the one character beyond ASCII that uppercases to a code.
pub open spec fn spec_parse_kind_char(c: char) -> Option<EShape> {
    match c {
        'C' | 'c' => Some(EShape::Circle),
        'R' | 'r' => Some(EShape::Rectangle),
        'W' | 'w' => Some(EShape::Windmill),
        'S' | 's' | '\u{17f}' => Some(EShape::Star),
        'P' | 'p' => Some(EShape::Pin),
        '-' => Some(EShape::Empty),
        _ => None,
    }
}

/// What `EColor::try_from_string` returns: the color of a
/// one-character code string.
pub open spec fn spec_parse_color(s: Seq<char>) -> Option<EColor> {
    if s.len() == 1 {
        spec_parse_color_char(s[0])
    } else {
        None
    }
}

/// What `EShape::try_from_string` returns.
pub open spec fn spec_parse_kind(s: Seq<char>) -> Option<EShape> {
    if s.len() == 1 {
        spec_parse_kind_char(s[0])
    } else {
        None
    }
}

impl EColor {
    pub fn try_from_string(s: &str) -> (r: Option<EColor>)
        ensures
            r == spec_parse_color(s@),
    {
        if s.unicode_len() != 1 {
            return None;
        }
        let c = s.get_char(0);
        match c {
            'r' | 'R' => Some(EColor::Red),
            'g' | 'G' => Some(EColor::Green),
            'b' | 'B' => Some(EColor::Blue),
            'y' | 'Y' => Some(EColor::Yellow),
            'm' | 'M' => Some(EColor::Magenta),
            'c' | 'C' => Some(EColor::Cyan),
            'w' | 'W' => Some(EColor::White),
            'k' | 'K' | '\u{212a}' => Some(EColor::Black),
            'u' | 'U' => Some(EColor::Uncolored),
            '-' => Some(EColor::Empty),
            _ => None,
        }
    }

    /// The one-character code of this color, as a string.
    pub fn to_string(&self) -> (r: String)
        ensures
            r@ == seq![spec_color_char(*self)],
    {
        String::from_str(color_code_str(*self))
    }
}

impl EShape {
    pub fn try_from_string(s: &str) -> (r: Option<EShape>)
        ensures
            r == spec_parse_kind(s@),
    {
        if s.unicode_len() != 1 {
            return None;
        }
        let c = s.get_char(0);
        match c {
            'C' | 'c' => Some(EShape::Circle),
            'R' | 'r' => Some(EShape::Rectangle),
            'W' | 'w' => Some(EShape::Windmill),
            'S' | 's' | '\u{17f}' => Some(EShape::Star),
            'P' | 'p' => Some(EShape::Pin),
            '-' => Some(EShape::Empty),
            _ => None,
        }
    }

    /// The one-character code of this piece kind, as a string.
    pub fn to_string(&self) -> (r: String)
        ensures
            r@ == seq![spec_kind_char(*self)],
    {
        String::from_str(kind_code_str(*self))
    }
}

/// The one-character code of a color, as a string slice.
fn color_code_str(c: EColor) -> (r: &'static str)
    ensures
        r@ == seq![spec_color_char(c)],
{
    match c {
        EColor::Red => {
            proof {
                reveal_strlit("r");
                assert("r"@ =~= seq![spec_color_char(EColor::Red)]);
            }
            "r"
        },
        EColor::Green => {
            proof {
                reveal_strlit("g");
                assert("g"@ =~= seq![spec_color_char(EColor::Green)]);
            }
            "g"
        },
        EColor::Blue => {
            proof {
                reveal_strlit("b");
                assert("b"@ =~= seq![spec_color_char(EColor::Blue)]);
            }
            "b"
        },
        EColor::Yellow => {
            proof {
                reveal_strlit("y");
                assert("y"@ =~= seq![spec_color_char(EColor::Yellow)]);
            }
            "y"
        },
        EColor::Magenta => {
            proof {
                reveal_strlit("m");
                assert("m"@ =~= seq![spec_color_char(EColor::Magenta)]);
            }
            "m"
        },
        EColor::Cyan => {
            proof {
                reveal_strlit("c");
                assert("c"@ =~= seq![spec_color_char(EColor::Cyan)]);
            }
            "c"
        },
        EColor::White => {
            proof {
                reveal_strlit("w");
                assert("w"@ =~= seq![spec_color_char(EColor::White)]);
            }
            "w"
        },
        EColor::Black => {
            proof {
                reveal_strlit("k");
                assert("k"@ =~= seq![spec_color_char(EColor::Black)]);
            }
            "k"
        },
        EColor::Uncolored => {
            proof {
                reveal_strlit("u");
                assert("u"@ =~= seq![spec_color_char(EColor::Uncolored)]);
            }
            "u"
        },
        EColor::Empty => {
            proof {
                reveal_strlit("-");
                assert("-"@ =~= seq![spec_color_char(EColor::Empty)]);
            }
            "-"
        },
    }
}

/// The one-character code of a piece kind, as a string slice.
fn kind_code_str(k: EShape) -> (r: &'static str)
    ensures
        r@ == seq![spec_kind_char(k)],
{
    match k {
        EShape::Circle => {
            proof {
                reveal_strlit("C");
                assert("C"@ =~= seq![spec_kind_char(EShape::Circle)]);
            }
            "C"
        },
        EShape::Rectangle => {
            proof {
                reveal_strlit("R");
                assert("R"@ =~= seq![spec_kind_char(EShape::Rectangle)]);
            }
            "R"
        },
        EShape::Windmill => {
            proof {
                reveal_strlit("W");
                assert("W"@ =~= seq![spec_kind_char(EShape::Windmill)]);
            }
            "W"
        },
        EShape::Star => {
            proof {
                reveal_strlit("S");
                assert("S"@ =~= seq![spec_kind_char(EShape::Star)]);
            }
            "S"
        },
        EShape::Pin => {
            proof {
                reveal_strlit("P");
                assert("P"@ =~= seq![spec_kind_char(EShape::Pin)]);
            }
            "P"
        },
        EShape::Empty => {
            proof {
                reveal_strlit("-");
                assert("-"@ =~= seq![spec_kind_char(EShape::Empty)]);
            }
            "-"
        },
    }
}

/// One horizontal slice of a shape: four items at the quadrant
/// positions 0..3, arranged clockwise.
#[derive(Debug, Clone, Copy, PartialEq, Eq, Hash, Structural)]
pub struct SingleLayer {
    pub item0: SingleItem,
    pub item1: SingleItem,
    pub item2: SingleItem,
    pub item3: SingleItem,
}

impl SingleLayer {
    /// The fully absent layer.
    pub open spec fn spec_empty() -> SingleLayer {
        SingleLayer {
            item0: SingleItem::spec_empty(),
            item1: SingleItem::spec_empty(),
            item2: SingleItem::spec_empty(),
            item3: SingleItem::spec_empty(),
        }
    }

    /// The item at quadrant position `j`.
    pub open spec fn spec_item(self, j: int) -> SingleItem {
        if j == 0 {
            self.item0
        } else if j == 1 {
            self.item1
        } else if j == 2 {
            self.item2
        } else {
            self.item3
        }
    }

    /// A layer is present exactly when some item in it is present.
    pub open spec fn spec_is_some(self) -> bool {
        self.item0.spec_is_present() || self.item1.spec_is_present()
            || self.item2.spec_is_present() || self.item3.spec_is_present()
    }

    pub fn get_item(&self, j: usize) -> (r: SingleItem)
        requires
            j < 4,
        ensures
            r == self.spec_item(j as int),
    {
        if j == 0 {
            self.item0
        } else if j == 1 {
            self.item1
        } else if j == 2 {
            self.item2
        } else {
            self.item3
        }
    }

    pub fn set_item(&mut self, j: usize, it: SingleItem)
        requires
            j < 4,
        ensures
            final(self).spec_item(j as int) == it,
            forall|k: int| 0 <= k < 4 && k != j ==> final(self).spec_item(k) == old(self).spec_item(k),
    {
        if j == 0 {
            self.item0 = it;
        } else if j == 1 {
            self.item1 = it;
        } else if j == 2 {
            self.item2 = it;
        } else {
            self.item3 = it;
        }
    }
}

impl Default for SingleLayer {
    fn default() -> (r: Self)
        ensures
            r == SingleLayer::spec_empty(),
    {
        SingleLayer {
            item0: SingleItem::new(),
            item1: SingleItem::new(),
            item2: SingleItem::new(),
            item3: SingleItem::new(),
        }
    }
}

impl SingleLayer {
    /// Every position holds the same uncolored piece of the given kind.
    pub fn new_with_shape(shape: EShape) -> (r: SingleLayer)
        ensures
            r == SingleLayer::spec_uniform(shape, EColor::Uncolored),
    {
        Self::new_with_shape_color(shape, EColor::Uncolored)
    }

    /// Every position holds the same piece of the given kind and color.
    pub open spec fn spec_uniform(shape: EShape, color: EColor) -> SingleLayer {
        SingleLayer {
            item0: SingleItem { shape, color },
            item1: SingleItem { shape, color },
            item2: SingleItem { shape, color },
            item3: SingleItem { shape, color },
        }
    }

    pub fn new_with_shape_color(shape: EShape, color: EColor) -> (r: SingleLayer)
        ensures
            r == SingleLayer::spec_uniform(shape, color),
    {
        let item = SingleItem { shape, color };
        SingleLayer { item0: item, item1: item, item2: item, item3: item }
    }

    pub fn is_some(&self) -> (r: bool)
        ensures
            r == self.spec_is_some(),
    {
        self.item0.shape != EShape::Empty || self.item1.shape != EShape::Empty
            || self.item2.shape != EShape::Empty || self.item3.shape != EShape::Empty
    }
}

/// A shape: four layers stacked bottom (index 0) to top (index 3).
#[derive(Debug, Clone, Copy, PartialEq, Eq, Hash, Structural)]
pub struct Shape {
    pub layer0: SingleLayer,
    pub layer1: SingleLayer,
    pub layer2: SingleLayer,
    pub layer3: SingleLayer,
}

impl Shape {
    /// The fully absent shape.
    pub open spec fn spec_empty() -> Shape {
        Shape {
            layer0: SingleLayer::spec_empty(),
            layer1: SingleLayer::spec_empty(),
            layer2: SingleLayer::spec_empty(),
            layer3: SingleLayer::spec_empty(),
        }
    }

    /// The layer at stack index `i`.
    pub open spec fn spec_layer(self, i: int) -> SingleLayer {
        if i == 0 {
            self.layer0
        } else if i == 1 {
            self.layer1
        } else if i == 2 {
            self.layer2
        } else {
            self.layer3
        }
    }

    /// The item at layer `i`, quadrant position `j`.
    pub open spec fn spec_item(self, i: int, j: int) -> SingleItem {
        self.spec_layer(i).spec_item(j)
    }

    /// One more than the index of the highest present layer, or 0 if
    /// every layer is absent.
    pub open spec fn spec_layer_height(self) -> int {
        if self.layer3.spec_is_some() {
            4
        } else if self.layer2.spec_is_some() {
            3
        } else if self.layer1.spec_is_some() {
            2
        } else if self.layer0.spec_is_some() {
            1
        } else {
            0
        }
    }

    pub fn get_layer(&self, i: usize) -> (r: SingleLayer)
        requires
            i < 4,
        ensures
            r == self.spec_layer(i as int),
    {
        if i == 0 {
            self.layer0
        } else if i == 1 {
            self.layer1
        } else if i == 2 {
            self.layer2
        } else {
            self.layer3
        }
    }

    pub fn set_layer(&mut self, i: usize, l: SingleLayer)
        requires
            i < 4,
        ensures
            final(self).spec_layer(i as int) == l,
            forall|k: int| 0 <= k < 4 && k != i ==> final(self).spec_layer(k) == old(self).spec_layer(k),
    {
        if i == 0 {
            self.layer0 = l;
        } else if i == 1 {
            self.layer1 = l;
        } else if i == 2 {
            self.layer2 = l;
        } else {
            self.layer3 = l;
        }
    }

    pub fn get_item(&self, i: usize, j: usize) -> (r: SingleItem)
        requires
            i < 4,
            j < 4,
        ensures
            r == self.spec_item(i as int, j as int),
    {
        self.get_layer(i).get_item(j)
    }

    pub fn set_item(&mut self, i: usize, j: usize, it: SingleItem)
        requires
            i < 4,
            j < 4,
        ensures
            final(self).spec_item(i as int, j as int) == it,
            forall|a: int, b: int|
                0 <= a < 4 && 0 <= b < 4 && !(a == i && b == j) ==> final(self).spec_item(a, b)
                    == old(self).spec_item(a, b),
    {
        let mut l = self.get_layer(i);
        l.set_item(j, it);
        self.set_layer(i, l);
    }
}

/// The two-character code of an item: kind code then color code.
pub open spec fn spec_item_code(it: SingleItem) -> Seq<char> {
    seq![spec_kind_char(it.shape), spec_color_char(it.color)]
}

/// The item encoded by two characters, if both parse.
pub open spec fn spec_parse_item_chars(c0: char, c1: char) -> Option<SingleItem> {
    if spec_parse_kind_char(c0).is_some() && spec_parse_color_char(c1).is_some() {
        Some(
            SingleItem {
                shape: spec_parse_kind_char(c0).unwrap(),
                color: spec_parse_color_char(c1).unwrap(),
            },
        )
    } else {
        None
    }
}

/// What `SingleItem::try_from_string` returns: the item of a
/// two-character code string.
pub open spec fn spec_parse_item(s: Seq<char>) -> Option<SingleItem> {
    if s.len() == 2 {
        spec_parse_item_chars(s[0], s[1])
    } else {
        None
    }
}

/// The eight-character code of a layer: the four item codes in
/// position order.
pub open spec fn spec_layer_code(l: SingleLayer) -> Seq<char> {
    spec_item_code(l.item0) + spec_item_code(l.item1) + spec_item_code(l.item2) + spec_item_code(
        l.item3,
    )
}

/// What `SingleLayer::try_from_string` returns: the layer of an
/// eight-character string of four item codes.
pub open spec fn spec_parse_layer(s: Seq<char>) -> Option<SingleLayer> {
    if s.len() == 8 && spec_parse_item_chars(s[0], s[1]).is_some() && spec_parse_item_chars(
        s[2],
        s[3],
    ).is_some() && spec_parse_item_chars(s[4], s[5]).is_some() && spec_parse_item_chars(
        s[6],
        s[7],
    ).is_some() {
        Some(
            SingleLayer {
                item0: spec_parse_item_chars(s[0], s[1]).unwrap(),
                item1: spec_parse_item_chars(s[2], s[3]).unwrap(),
                item2: spec_parse_item_chars(s[4], s[5]).unwrap(),
                item3: spec_parse_item_chars(s[6], s[7]).unwrap(),
            },
        )
    } else {
        None
    }
}

/// The item encoded by two characters, if both parse.
fn parse_item_chars(c0: char, c1: char) -> (r: Option<SingleItem>)
    ensures
        r == spec_parse_item_chars(c0, c1),
{
    let kind = parse_kind_char(c0);
    let color = parse_color_char(c1);
    match (kind, color) {
        (Some(shape), Some(color)) => Some(SingleItem { shape, color }),
        _ => None,
    }
}

/// The color encoded by one character.
fn parse_color_char(c: char) -> (r: Option<EColor>)
    ensures
        r == spec_parse_color_char(c),
{
    match c {
        'r' | 'R' => Some(EColor::Red),
        'g' | 'G' => Some(EColor::Green),
        'b' | 'B' => Some(EColor::Blue),
        'y' | 'Y' => Some(EColor::Yellow),
        'm' | 'M' => Some(EColor::Magenta),
        'c' | 'C' => Some(EColor::Cyan),
        'w' | 'W' => Some(EColor::White),
        'k' | 'K' | '\u{212a}' => Some(EColor::Black),
        'u' | 'U' => Some(EColor::Uncolored),
        '-' => Some(EColor::Empty),
        _ => None,
    }
}

/// The piece kind encoded by one character.
fn parse_kind_char(c: char) -> (r: Option<EShape>)
    ensures
        r == spec_parse_kind_char(c),
{
    match c {
        'C' | 'c' => Some(EShape::Circle),
        'R' | 'r' => Some(EShape::Rectangle),
        'W' | 'w' => Some(EShape::Windmill),
        'S' | 's' | '\u{17f}' => Some(EShape::Star),
        'P' | 'p' => Some(EShape::Pin),
        '-' => Some(EShape::Empty),
        _ => None,
    }
}

/// Appends the two-character code of an item.
fn push_item_code(out: &mut String, it: SingleItem)
    ensures
        final(out)@ == old(out)@ + spec_item_code(it),
{
    out.append(kind_code_str(it.shape));
    out.append(color_code_str(it.color));
    proof {
        assert(out@ =~= old(out)@ + spec_item_code(it));
    }
}

/// Appends the eight-character code of a layer.
fn push_layer_code(out: &mut String, l: &SingleLayer)
    ensures
        final(out)@ == old(out)@ + spec_layer_code(*l),
{
    push_item_code(out, l.item0);
    push_item_code(out, l.item1);
    push_item_code(out, l.item2);
    push_item_code(out, l.item3);
    proof {
        assert(out@ =~= old(out)@ + spec_layer_code(*l));
    }
}

impl SingleItem {
    pub fn try_from_string(s: &str) -> (r: Option<SingleItem>)
        ensures
            r == spec_parse_item(s@),
    {
        if s.unicode_len() != 2 {
            return None;
        }
        let c0 = s.get_char(0);
        let c1 = s.get_char(1);
        parse_item_chars(c0, c1)
    }

    /// The two-character code of this item; an absent item reads
    /// `--`.
    pub fn to_string(&self) -> (r: String)
        ensures
            r@ == spec_item_code(*self),
    {
        let mut out = String::new();
        push_item_code(&mut out, *self);
        proof {
            assert(out@ =~= spec_item_code(*self));
        }
        out
    }
}

impl SingleLayer {
    pub fn try_from_string(s: &str) -> (r: Option<SingleLayer>)
        ensures
            r == spec_parse_layer(s@),
    {
        if s.unicode_len() != SHAPEZ2_DEMENTION * 2 {
            return None;
        }
        let item0 = match parse_item_chars(s.get_char(0), s.get_char(1)) {
            Some(it) => it,
            None => {
                return None;
            },
        };
        let item1 = match parse_item_chars(s.get_char(2), s.get_char(3)) {
            Some(it) => it,
            None => {
                return None;
            },
        };
        let item2 = match parse_item_chars(s.get_char(4), s.get_char(5)) {
            Some(it) => it,
            None => {
                return None;
            },
        };
        let item3 = match parse_item_chars(s.get_char(6), s.get_char(7)) {
            Some(it) => it,
            None => {
                return None;
            },
        };
        Some(SingleLayer { item0, item1, item2, item3 })
    }

    /// The eight-character code of this layer.
    pub fn to_string(&self) -> (r: String)
        ensures
            r@ == spec_layer_code(*self),
    {
        let mut out = String::new();
        push_layer_code(&mut out, self);
        proof {
            assert(out@ =~= spec_layer_code(*self));
        }
        out
    }
}

impl Default for Shape {
    fn default() -> (r: Self)
        ensures
            r == Shape::spec_empty(),
    {
        Shape {
            layer0: SingleLayer::default(),
            layer1: SingleLayer::default(),
            layer2: SingleLayer::default(),
            layer3: SingleLayer::default(),
        }
    }
}

impl Shape {
    /// The result of `new_simple`: a single bottom layer filled with
    /// one uniform piece, everything above absent.
    pub open spec fn spec_new_simple(shape: EShape, color: EColor) -> Shape {
        Shape {
            layer0: SingleLayer::spec_uniform(shape, color),
            layer1: SingleLayer::spec_empty(),
            layer2: SingleLayer::spec_empty(),
            layer3: SingleLayer::spec_empty(),
        }
    }

    pub fn new_simple(shape: EShape, color: EColor) -> (r: Shape)
        ensures
            r == Shape::spec_new_simple(shape, color),
    {
        let mut shape_s = Shape::default();
        shape_s.layer0 = SingleLayer::new_with_shape_color(shape, color);
        shape_s
    }

    pub fn layer_height(&self) -> (r: usize)
        ensures
            r == self.spec_layer_height(),
            r <= 4,
    {
        if self.layer3.is_some() {
            4
        } else if self.layer2.is_some() {
            3
        } else if self.layer1.is_some() {
            2
        } else if self.layer0.is_some() {
            1
        } else {
            0
        }
    }
}

/// The full 35-character encoding of a shape: the four layer codes,
/// bottom to top, joined by `:`.
pub open spec fn spec_raw_code(s: Shape) -> Seq<char> {
    spec_layer_code(s.layer0) + seq![':'] + spec_layer_code(s.layer1) + seq![':']
        + spec_layer_code(s.layer2) + seq![':'] + spec_layer_code(s.layer3)
}

/// The layer substring at index `k` of a shape string whose layers
/// are joined by single separators.
pub open spec fn spec_segment(s: Seq<char>, k: int) -> Seq<char> {
    s.subrange(9 * k, 9 * k + 8)
}

/// What `Shape::try_from_string` returns: up to four `:`-separated
/// eight-character layer codes, bottom to top; missing upper layers
/// read as absent.
pub open spec fn spec_parse_shape(s: Seq<char>) -> Option<Shape> {
    let n_layers = (s.len() + 1) / 9;
    if (s.len() == 8 || s.len() == 17 || s.len() == 26 || s.len() == 35) && (forall|k: int|
        1 <= k < n_layers ==> #[trigger] s[9 * k - 1] == ':') && (forall|k: int|
        0 <= k < n_layers ==> spec_parse_layer(#[trigger] spec_segment(s, k)).is_some()) {
        Some(
            Shape {
                layer0: spec_parse_layer(spec_segment(s, 0)).unwrap(),
                layer1: if n_layers > 1 {
                    spec_parse_layer(spec_segment(s, 1)).unwrap()
                } else {
                    SingleLayer::spec_empty()
                },
                layer2: if n_layers > 2 {
                    spec_parse_layer(spec_segment(s, 2)).unwrap()
                } else {
                    SingleLayer::spec_empty()
                },
                layer3: if n_layers > 3 {
                    spec_parse_layer(spec_segment(s, 3)).unwrap()
                } else {
                    SingleLayer::spec_empty()
                },
            },
        )
    } else {
        None
    }
}

/// How many of the trailing layers the minified form drops: layers
/// above `spec_kept_layers` are exactly the absent layer.
pub open spec fn spec_kept_layers(s: Shape) -> int {
    if s.layer3 != SingleLayer::spec_empty() {
        4
    } else if s.layer2 != SingleLayer::spec_empty() {
        3
    } else if s.layer1 != SingleLayer::spec_empty() {
        2
    } else if s.layer0 != SingleLayer::spec_empty() {
        1
    } else {
        0
    }
}

/// How many leading item codes of a layer the minified single-layer
/// form keeps: items past `spec_kept_items` are exactly the absent
/// item.
pub open spec fn spec_kept_items(l: SingleLayer) -> int {
    if l.item3 != SingleItem::spec_empty() {
        4
    } else if l.item2 != SingleItem::spec_empty() {
        3
    } else if l.item1 != SingleItem::spec_empty() {
        2
    } else if l.item0 != SingleItem::spec_empty() {
        1
    } else {
        0
    }
}

/// The minified encoding: the raw encoding with trailing absent
/// layers dropped, then a trailing separator dropped, then — only
/// when a single layer remains — trailing absent item codes dropped.
pub open spec fn spec_minify_code(s: Shape) -> Seq<char> {
    let m = spec_kept_layers(s);
    if m == 4 {
        spec_raw_code(s)
    } else if m == 3 {
        spec_layer_code(s.layer0) + seq![':'] + spec_layer_code(s.layer1) + seq![':']
            + spec_layer_code(s.layer2)
    } else if m == 2 {
        spec_layer_code(s.layer0) + seq![':'] + spec_layer_code(s.layer1)
    } else {
        let t = spec_kept_items(s.layer0);
        if t == 4 {
            spec_layer_code(s.layer0)
        } else if t == 3 {
            spec_item_code(s.layer0.item0) + spec_item_code(s.layer0.item1) + spec_item_code(
                s.layer0.item2,
            )
        } else if t == 2 {
            spec_item_code(s.layer0.item0) + spec_item_code(s.layer0.item1)
        } else if t == 1 {
            spec_item_code(s.layer0.item0)
        } else {
            Seq::empty()
        }
    }
}

/// What `urlencoding::encode` returns for a string: its
/// percent-encoded form, a function of the characters alone.
pub uninterp spec fn url_encoded(s: Seq<char>) -> Seq<char>;

/// Relies on `urlencoding::encode`: percent-encodes every byte
/// except ASCII alphanumerics and `-`, `_`, `.`, `~`; the result
/// depends on the input characters alone, and an empty string stays
/// empty.
#[verifier::external_body]
pub(crate) fn percent_encode(s: &str) -> (r: String)
    ensures
        r@ == url_encoded(s@),
        s@.len() == 0 ==> r@.len() == 0,
{
    urlencoding::encode(s).into_owned()
}

impl Shape {
    /// The full 35-character encoding, absent layers included.
    pub fn to_raw_string(&self) -> (r: String)
        ensures
            r@ == spec_raw_code(*self),
            r@.len() == 35,
    {
        let mut result = String::new();
        push_layer_code(&mut result, &self.layer0);
        result.append(colon_str());
        push_layer_code(&mut result, &self.layer1);
        result.append(colon_str());
        push_layer_code(&mut result, &self.layer2);
        result.append(colon_str());
        push_layer_code(&mut result, &self.layer3);
        proof {
            assert(result@ =~= spec_raw_code(*self));
        }
        result
    }

    /// The minified encoding: trailing absent layers are dropped, and
    /// a single remaining layer also drops its trailing absent items.
    pub fn to_minify_string(&self) -> (r: String)
        ensures
            r@ == spec_minify_code(*self),
    {
        let blank_layer = SingleLayer::default();
        let mut result = String::new();
        if self.layer3 != blank_layer {
            push_layer_code(&mut result, &self.layer0);
            result.append(colon_str());
            push_layer_code(&mut result, &self.layer1);
            result.append(colon_str());
            push_layer_code(&mut result, &self.layer2);
            result.append(colon_str());
            push_layer_code(&mut result, &self.layer3);
        } else if self.layer2 != blank_layer {
            push_layer_code(&mut result, &self.layer0);
            result.append(colon_str());
            push_layer_code(&mut result, &self.layer1);
            result.append(colon_str());
            push_layer_code(&mut result, &self.layer2);
        } else if self.layer1 != blank_layer {
            push_layer_code(&mut result, &self.layer0);
            result.append(colon_str());
            push_layer_code(&mut result, &self.layer1);
        } else {
            let blank_item = SingleItem::default();
            let l = self.layer0;
            if l.item3 != blank_item {
                push_item_code(&mut result, l.item0);
                push_item_code(&mut result, l.item1);
                push_item_code(&mut result, l.item2);
                push_item_code(&mut result, l.item3);
            } else if l.item2 != blank_item {
                push_item_code(&mut result, l.item0);
                push_item_code(&mut result, l.item1);
                push_item_code(&mut result, l.item2);
            } else if l.item1 != blank_item {
                push_item_code(&mut result, l.item0);
                push_item_code(&mut result, l.item1);
            } else if l.item0 != blank_item {
                push_item_code(&mut result, l.item0);
            }
        }
        proof {
            assert(result@ =~= spec_minify_code(*self));
        }
        result
    }

    pub fn try_from_string(s: &str) -> (r: Option<Shape>)
        ensures
            r == spec_parse_shape(s@),
    {
        let n = s.unicode_len();
        if !(n == 8 || n == 17 || n == 26 || n == 35) {
            return None;
        }
        let n_layers = (n + 1) / 9;
        let mut shape = Shape::default();

        let seg0 = s.substring_char(0, 8);
        match SingleLayer::try_from_string(seg0) {
            Some(l) => {
                shape.layer0 = l;
            },
            None => {
                proof {
                    assert(spec_segment(s@, 0) =~= s@.subrange(0, 8));
                    assert(!spec_parse_layer(spec_segment(s@, 0)).is_some());
                }
                return None;
            },
        }
        if n_layers > 1 {
            if s.get_char(8) != ':' {
                proof {
                    assert(s@[9 * 1 - 1] != ':');
                }
                return None;
            }
            let seg1 = s.substring_char(9, 17);
            match SingleLayer::try_from_string(seg1) {
                Some(l) => {
                    shape.layer1 = l;
                },
                None => {
                    proof {
                        assert(spec_segment(s@, 1) =~= s@.subrange(9, 17));
                        assert(!spec_parse_layer(spec_segment(s@, 1)).is_some());
                    }
                    return None;
                },
            }
        }
        if n_layers > 2 {
            if s.get_char(17) != ':' {
                proof {
                    assert(s@[9 * 2 - 1] != ':');
                }
                return None;
            }
            let seg2 = s.substring_char(18, 26);
            match SingleLayer::try_from_string(seg2) {
                Some(l) => {
                    shape.layer2 = l;
                },
                None => {
                    proof {
                        assert(spec_segment(s@, 2) =~= s@.subrange(18, 26));
                        assert(!spec_parse_layer(spec_segment(s@, 2)).is_some());
                    }
                    return None;
                },
            }
        }
        if n_layers > 3 {
            if s.get_char(26) != ':' {
                proof {
                    assert(s@[9 * 3 - 1] != ':');
                }
                return None;
            }
            let seg3 = s.substring_char(27, 35);
            match SingleLayer::try_from_string(seg3) {
                Some(l) => {
                    shape.layer3 = l;
                },
                None => {
                    proof {
                        assert(spec_segment(s@, 3) =~= s@.subrange(27, 35));
                        assert(!spec_parse_layer(spec_segment(s@, 3)).is_some());
                    }
                    return None;
                },
            }
        }
        proof {
            let sv = s@;
            let nl = (sv.len() + 1) / 9;
            assert(spec_segment(sv, 0) =~= sv.subrange(0, 8));
            if n_layers > 1 {
                assert(spec_segment(sv, 1) =~= sv.subrange(9, 17));
            }
            if n_layers > 2 {
                assert(spec_segment(sv, 2) =~= sv.subrange(18, 26));
            }
            if n_layers > 3 {
                assert(spec_segment(sv, 3) =~= sv.subrange(27, 35));
            }
            assert forall|k: int| 1 <= k < nl implies #[trigger] sv[9 * k - 1] == ':' by {
                if k == 1 {
                    assert(sv[8] == ':');
                } else if k == 2 {
                    assert(sv[17] == ':');
                } else {
                    assert(sv[26] == ':');
                }
            }
            assert forall|k: int| 0 <= k < nl implies spec_parse_layer(
                #[trigger] spec_segment(sv, k),
            ).is_some() by {
                if k == 0 {
                    assert(spec_parse_layer(spec_segment(sv, 0)).is_some());
                } else if k == 1 {
                    assert(spec_parse_layer(spec_segment(sv, 1)).is_some());
                } else if k == 2 {
                    assert(spec_parse_layer(spec_segment(sv, 2)).is_some());
                } else {
                    assert(spec_parse_layer(spec_segment(sv, 3)).is_some());
                }
            }
        }
        Some(shape)
    }

    /// A link to the community shape viewer for this shape.
    pub fn to_shapez2_shape_viewer(&self) -> (r: String)
        ensures
            r@ == "https://community-vortex.shapez2.com/shape?identifier="@ + url_encoded(
                spec_minify_code(*self),
            ) + "&extend=false&expand=false"@,
    {
        let binding = self.to_minify_string();
        let encoded = percent_encode(binding.as_str());
        let mut out = String::from_str("https://community-vortex.shapez2.com/shape?identifier=");
        out.append(encoded.as_str());
        out.append("&extend=false&expand=false");
        proof {
            assert(out@ =~= "https://community-vortex.shapez2.com/shape?identifier="@ + url_encoded(
                spec_minify_code(*self),
            ) + "&extend=false&expand=false"@);
        }
        out
    }
}

/// Parsing undoes encoding for a single item.
pub proof fn lemma_item_code_roundtrip(it: SingleItem)
    ensures
        spec_item_code(it).len() == 2,
        spec_parse_item_chars(spec_item_code(it)[0], spec_item_code(it)[1]) == Some(it),
{
}

/// Parsing undoes encoding for a single layer.
pub proof fn lemma_layer_code_roundtrip(l: SingleLayer)
    ensures
        spec_layer_code(l).len() == 8,
        spec_parse_layer(spec_layer_code(l)) == Some(l),
{
    lemma_item_code_roundtrip(l.item0);
    lemma_item_code_roundtrip(l.item1);
    lemma_item_code_roundtrip(l.item2);
    lemma_item_code_roundtrip(l.item3);
    let code = spec_layer_code(l);
    assert(code[0] == spec_item_code(l.item0)[0]);
    assert(code[1] == spec_item_code(l.item0)[1]);
    assert(code[2] == spec_item_code(l.item1)[0]);
    assert(code[3] == spec_item_code(l.item1)[1]);
    assert(code[4] == spec_item_code(l.item2)[0]);
    assert(code[5] == spec_item_code(l.item2)[1]);
    assert(code[6] == spec_item_code(l.item3)[0]);
    assert(code[7] == spec_item_code(l.item3)[1]);
}

/// How the raw encoding decomposes: its length, its separators, and
/// its layer segments.
proof fn lemma_raw_code_structure(s: Shape)
    ensures
        spec_raw_code(s).len() == 35,
        spec_segment(spec_raw_code(s), 0) == spec_layer_code(s.layer0),
        spec_segment(spec_raw_code(s), 1) == spec_layer_code(s.layer1),
        spec_segment(spec_raw_code(s), 2) == spec_layer_code(s.layer2),
        spec_segment(spec_raw_code(s), 3) == spec_layer_code(s.layer3),
        spec_raw_code(s)[8] == ':',
        spec_raw_code(s)[17] == ':',
        spec_raw_code(s)[26] == ':',
{
    let code = spec_raw_code(s);
    assert(spec_segment(code, 0) =~= spec_layer_code(s.layer0));
    assert(spec_segment(code, 1) =~= spec_layer_code(s.layer1));
    assert(spec_segment(code, 2) =~= spec_layer_code(s.layer2));
    assert(spec_segment(code, 3) =~= spec_layer_code(s.layer3));
}

/// Parsing undoes the full raw encoding: for every shape `s`,
/// `spec_parse_shape(spec_raw_code(s))` gives back exactly `s`.
#[verifier::rlimit(100)]
pub proof fn lemma_parse_raw_roundtrip(s: Shape)
    ensures
        spec_raw_code(s).len() == 35,
        spec_parse_shape(spec_raw_code(s)) == Some(s),
{
    lemma_raw_code_structure(s);
    lemma_layer_code_roundtrip(s.layer0);
    lemma_layer_code_roundtrip(s.layer1);
    lemma_layer_code_roundtrip(s.layer2);
    lemma_layer_code_roundtrip(s.layer3);
    let code = spec_raw_code(s);
    let nl = (code.len() + 1) / 9;
    assert(nl == 4);
    assert forall|k: int| 1 <= k < nl implies #[trigger] code[9 * k - 1] == ':' by {
        if k == 1 {
            assert(code[8] == ':');
        } else if k == 2 {
            assert(code[17] == ':');
        } else {
            assert(code[26] == ':');
        }
    }
    assert forall|k: int| 0 <= k < nl implies spec_parse_layer(
        #[trigger] spec_segment(code, k),
    ).is_some() by {
        if k == 0 {
            assert(spec_parse_layer(spec_segment(code, 0)).is_some());
        } else if k == 1 {
            assert(spec_parse_layer(spec_segment(code, 1)).is_some());
        } else if k == 2 {
            assert(spec_parse_layer(spec_segment(code, 2)).is_some());
        } else {
            assert(spec_parse_layer(spec_segment(code, 3)).is_some());
        }
    }
    assert(spec_parse_shape(code) == Some(s));
}

/// How the minified encoding decomposes when it keeps two or three
/// whole layers, or one whole layer.
proof fn lemma_minify_code_structure(s: Shape)
    requires
        spec_kept_layers(s) < 4,
        spec_kept_layers(s) >= 2 || spec_kept_items(s.layer0) == 4,
    ensures
        spec_kept_layers(s) == 3 ==> spec_minify_code(s).len() == 26 && spec_segment(
            spec_minify_code(s),
            0,
        ) == spec_layer_code(s.layer0) && spec_segment(spec_minify_code(s), 1) == spec_layer_code(
            s.layer1,
        ) && spec_segment(spec_minify_code(s), 2) == spec_layer_code(s.layer2) && spec_minify_code(
            s,
        )[8] == ':' && spec_minify_code(s)[17] == ':',
        spec_kept_layers(s) == 2 ==> spec_minify_code(s).len() == 17 && spec_segment(
            spec_minify_code(s),
            0,
        ) == spec_layer_code(s.layer0) && spec_segment(spec_minify_code(s), 1) == spec_layer_code(
            s.layer1,
        ) && spec_minify_code(s)[8] == ':',
        spec_kept_layers(s) <= 1 ==> spec_minify_code(s).len() == 8 && spec_segment(
            spec_minify_code(s),
            0,
        ) == spec_layer_code(s.layer0),
{
    let code = spec_minify_code(s);
    let m = spec_kept_layers(s);
    if m == 3 {
        assert(spec_segment(code, 0) =~= spec_layer_code(s.layer0));
        assert(spec_segment(code, 1) =~= spec_layer_code(s.layer1));
        assert(spec_segment(code, 2) =~= spec_layer_code(s.layer2));
    } else if m == 2 {
        assert(spec_segment(code, 0) =~= spec_layer_code(s.layer0));
        assert(spec_segment(code, 1) =~= spec_layer_code(s.layer1));
    } else {
        assert(code =~= spec_layer_code(s.layer0));
        assert(spec_segment(code, 0) =~= spec_layer_code(s.layer0));
    }
}

/// The minified form keeps at least every layer below the layer
/// height: a present layer is never stripped. In particular, the
/// minified encoding of any shape of height two or more parses back
/// (see `lemma_parse_minify_roundtrip`).
pub proof fn lemma_layer_height_kept(s: Shape)
    ensures
        s.spec_layer_height() <= spec_kept_layers(s),
{
}

/// Parsing undoes the minified encoding whenever the minified form
/// still consists of whole eight-character layers: at least two
/// layers kept, or a single layer kept whole.
pub proof fn lemma_parse_minify_roundtrip(s: Shape)
    requires
        spec_kept_layers(s) >= 2 || spec_kept_items(s.layer0) == 4,
    ensures
        spec_parse_shape(spec_minify_code(s)) == Some(s),
{
    let code = spec_minify_code(s);
    let m = spec_kept_layers(s);
    if m == 4 {
        lemma_parse_raw_roundtrip(s);
    } else {
        lemma_minify_code_structure(s);
        lemma_layer_code_roundtrip(s.layer0);
        lemma_layer_code_roundtrip(s.layer1);
        lemma_layer_code_roundtrip(s.layer2);
        let nl = (code.len() + 1) / 9;
        if m == 3 {
            assert(nl == 3);
        } else if m == 2 {
            assert(nl == 2);
        } else {
            assert(nl == 1);
        }
        assert forall|k: int| 1 <= k < nl implies #[trigger] code[9 * k - 1] == ':' by {
            if k == 1 {
                assert(code[8] == ':');
            } else {
                assert(code[17] == ':');
            }
        }
        assert forall|k: int| 0 <= k < nl implies spec_parse_layer(
            #[trigger] spec_segment(code, k),
        ).is_some() by {
            if k == 0 {
                assert(spec_parse_layer(spec_segment(code, 0)).is_some());
            } else if k == 1 {
                assert(spec_parse_layer(spec_segment(code, 1)).is_some());
            } else {
                assert(spec_parse_layer(spec_segment(code, 2)).is_some());
            }
        }
        assert(m <= 1 ==> s.layer1 == SingleLayer::spec_empty());
        assert(m <= 2 ==> s.layer2 == SingleLayer::spec_empty());
        assert(m <= 3 ==> s.layer3 == SingleLayer::spec_empty());
        assert(spec_parse_shape(code) == Some(s));
    }
}

/// A canonical item pairs presence and color the way the game does:
/// an absent piece carries no color, a pin is colorless, and any
/// other present piece carries a real color.
pub open spec fn spec_item_canonical(it: SingleItem) -> bool {
    &&& it.shape == EShape::Empty ==> it.color == EColor::Empty
    &&& it.shape == EShape::Pin ==> it.color == EColor::Empty
    &&& it.shape != EShape::Empty && it.shape != EShape::Pin ==> it.color != EColor::Empty
}

pub open spec fn spec_layer_canonical(l: SingleLayer) -> bool {
    spec_item_canonical(l.item0) && spec_item_canonical(l.item1) && spec_item_canonical(l.item2)
        && spec_item_canonical(l.item3)
}

/// Relies on `rand::random`: a machine word drawn from the
/// thread-local generator; nothing is assumed of its value.
#[verifier::external_body]
fn random_usize() -> usize {
    rand::random::<u64>() as usize
}

/// A uniformly drawn present piece kind; never the absence sentinel.
fn random_kind() -> (r: EShape)
    ensures
        r != EShape::Empty,
{
    match random_usize() % 5 {
        0 => EShape::Circle,
        1 => EShape::Rectangle,
        2 => EShape::Windmill,
        3 => EShape::Star,
        _ => EShape::Pin,
    }
}

/// A uniformly drawn real color; never the absence sentinel.
fn random_present_color() -> (r: EColor)
    ensures
        r != EColor::Empty,
{
    match random_usize() % 9 {
        0 => EColor::Red,
        1 => EColor::Green,
        2 => EColor::Blue,
        3 => EColor::Yellow,
        4 => EColor::Magenta,
        5 => EColor::Cyan,
        6 => EColor::White,
        7 => EColor::Black,
        _ => EColor::Uncolored,
    }
}

/// A random present item: a pin stays colorless, every other kind
/// gets a real color.
fn random_present_item() -> (r: SingleItem)
    ensures
        r.spec_is_present(),
        spec_item_canonical(r),
{
    let shape = random_kind();
    if shape == EShape::Pin {
        SingleItem { shape, color: EColor::Empty }
    } else {
        SingleItem { shape, color: random_present_color() }
    }
}

/// A random item: absent half of the time, otherwise a random
/// present item.
fn random_item() -> (r: SingleItem)
    ensures
        spec_item_canonical(r),
{
    if random_usize() % 2 == 0 {
        SingleItem::new()
    } else {
        random_present_item()
    }
}

/// A random present layer of canonical items.
fn random_layer() -> (r: SingleLayer)
    ensures
        r.spec_is_some(),
        spec_layer_canonical(r),
{
    let layer = SingleLayer {
        item0: random_item(),
        item1: random_item(),
        item2: random_item(),
        item3: random_item(),
    };
    if layer.is_some() {
        layer
    } else {
        let position = random_usize() % 4;
        let mut filled = layer;
        filled.set_item(position, random_present_item());
        proof {
            assert(spec_item_canonical(filled.spec_item(0)));
            assert(spec_item_canonical(filled.spec_item(1)));
            assert(spec_item_canonical(filled.spec_item(2)));
            assert(spec_item_canonical(filled.spec_item(3)));
            assert(filled.spec_item(position as int).spec_is_present());
        }
        filled
    }
}

impl Shape {
    /// A random shape of a random layer height.
    pub fn random() -> (r: Shape)
        ensures
            spec_layer_canonical(r.spec_layer(0)),
            spec_layer_canonical(r.spec_layer(1)),
            spec_layer_canonical(r.spec_layer(2)),
            spec_layer_canonical(r.spec_layer(3)),
    {
        let shape_layer = random_usize() % (SHAPEZ2_LAYER + 1);
        Self::random_with_height(shape_layer)
    }

    /// A random shape of exactly the given layer height: every layer
    /// below it is present, every layer at or above it absent.
    pub fn random_with_height(height: usize) -> (r: Shape)
        requires
            height <= 4,
        ensures
            r.spec_layer_height() == height,
            forall|i: int| 0 <= i < height ==> (#[trigger] r.spec_layer(i)).spec_is_some(),
            forall|i: int| height <= i < 4 ==> r.spec_layer(i) == SingleLayer::spec_empty(),
            spec_layer_canonical(r.spec_layer(0)),
            spec_layer_canonical(r.spec_layer(1)),
            spec_layer_canonical(r.spec_layer(2)),
            spec_layer_canonical(r.spec_layer(3)),
    {
        let mut shape = Shape::default();
        if height >= 1 {
            shape.layer0 = random_layer();
        }
        if height >= 2 {
            shape.layer1 = random_layer();
        }
        if height >= 3 {
            shape.layer2 = random_layer();
        }
        if height >= 4 {
            shape.layer3 = random_layer();
        }
        shape
    }
}

/// Whether a vector of items holds the given item.
fn contains_item(v: &Vec<SingleItem>, it: SingleItem) -> (r: bool)
    ensures
        r == v@.contains(it),
{
    let mut i: usize = 0;
    while i < v.len()
        invariant
            i <= v@.len(),
            forall|j: int| 0 <= j < i ==> v@[j] != it,
        decreases v@.len() - i,
    {
        if v[i] == it {
            proof {
                assert(v@[i as int] == it);
            }
            return true;
        }
        i = i + 1;
    }
    false
}

impl Shape {
    /// Whether the shape holds the given item at some position.
    pub open spec fn spec_contains_item(self, it: SingleItem) -> bool {
        exists|i: int, j: int| 0 <= i < 4 && 0 <= j < 4 && self.spec_item(i, j) == it
    }

    /// The distinct present items of this shape, each once, in first
    /// occurrence order scanning layers bottom to top and positions
    /// in order.
    pub fn unique_flat_items(&self) -> (r: Vec<SingleItem>)
        ensures
            forall|it: SingleItem|
                #[trigger] r@.contains(it) <==> it.spec_is_present() && self.spec_contains_item(
                    it,
                ),
            forall|a: int, b: int| 0 <= a < b < r@.len() ==> r@[a] != r@[b],
    {
        let mut out: Vec<SingleItem> = Vec::new();
        let mut i: usize = 0;
        while i < 4
            invariant
                i <= 4,
                forall|it: SingleItem|
                    #[trigger] out@.contains(it) ==> it.spec_is_present()
                        && self.spec_contains_item(it),
                forall|a: int, b: int|
                    0 <= a < 4 && 0 <= b < 4 && a < i && (#[trigger] self.spec_item(
                        a,
                        b,
                    )).spec_is_present() ==> out@.contains(self.spec_item(a, b)),
                forall|a: int, b: int| 0 <= a < b < out@.len() ==> out@[a] != out@[b],
            decreases 4 - i,
        {
            let mut j: usize = 0;
            while j < 4
                invariant
                    i < 4,
                    j <= 4,
                    forall|it: SingleItem|
                        #[trigger] out@.contains(it) ==> it.spec_is_present()
                            && self.spec_contains_item(it),
                    forall|a: int, b: int|
                        0 <= a < 4 && 0 <= b < 4 && (a < i || (a == i && b < j)) && (
                        #[trigger] self.spec_item(a, b)).spec_is_present() ==> out@.contains(
                            self.spec_item(a, b),
                        ),
                    forall|a: int, b: int| 0 <= a < b < out@.len() ==> out@[a] != out@[b],
                decreases 4 - j,
            {
                let item = self.get_item(i, j);
                if item.shape != EShape::Empty && !contains_item(&out, item) {
                    let ghost old_out = out@;
                    out.push(item);
                    proof {
                        assert(self.spec_contains_item(item)) by {
                            assert(self.spec_item(i as int, j as int) == item);
                        }
                        assert forall|it: SingleItem| #[trigger]
                            out@.contains(it) implies it.spec_is_present()
                            && self.spec_contains_item(it) by {
                            let w = choose|w: int| 0 <= w < out@.len() && out@[w] == it;
                            if w < old_out.len() {
                                assert(old_out.contains(it)) by {
                                    assert(old_out[w] == it);
                                }
                            } else {
                                assert(it == item);
                            }
                        }
                        assert forall|a: int, b: int|
                            0 <= a < 4 && 0 <= b < 4 && (a < i || (a == i && b < j + 1)) && (
                            #[trigger] self.spec_item(a, b)).spec_is_present() implies out@.contains(
                            self.spec_item(a, b),
                        ) by {
                            if a < i || (a == i && b < j) {
                                assert(old_out.contains(self.spec_item(a, b)));
                                let w = choose|w: int|
                                    0 <= w < old_out.len() && old_out[w] == self.spec_item(a, b);
                                assert(out@[w] == self.spec_item(a, b));
                            } else {
                                assert(out@[out@.len() - 1] == self.spec_item(a, b));
                            }
                        }
                    }
                } else {
                    proof {
                        if self.spec_item(i as int, j as int).spec_is_present() {
                            assert(out@.contains(self.spec_item(i as int, j as int)));
                        }
                        assert forall|a: int, b: int|
                            0 <= a < 4 && 0 <= b < 4 && (a < i || (a == i && b < j + 1)) && (
                            #[trigger] self.spec_item(a, b)).spec_is_present() implies out@.contains(
                            self.spec_item(a, b),
                        ) by {}
                    }
                }
                j = j + 1;
            }
            i = i + 1;
        }
        proof {
            assert forall|it: SingleItem| #[trigger]
                out@.contains(it) <==> it.spec_is_present() && self.spec_contains_item(it) by {
                if it.spec_is_present() && self.spec_contains_item(it) {
                    let (a, b) = choose|a: int, b: int|
                        0 <= a < 4 && 0 <= b < 4 && self.spec_item(a, b) == it;
                    assert(out@.contains(self.spec_item(a, b)));
                }
            }
        }
        out
    }
}

/// The layer separator as a string slice.
fn colon_str() -> (r: &'static str)
    ensures
        r@ == seq![':'],
{
    proof {
        reveal_strlit(":");
        assert(":"@ =~= seq![':']);
    }
    ":"
}

} // verus!
