use vstd::prelude::*;
use vstd::string::*;

verus! {

/// A piece color of the early value model: no absence sentinel, and
/// purple in place of magenta.
#[derive(Debug, Clone, Copy, PartialEq, Eq, Structural)]
pub enum EColor {
    Red,
    Green,
    Blue,
    Yellow,
    Purple,
    Cyan,
    White,
    Black,
    Uncolored,
}

/// A piece kind of the early value model: no absence sentinel.
#[derive(Debug, Clone, Copy, PartialEq, Eq, Structural)]
pub enum EShape {
    Circle,
    Rectangle,
    Windmill,
    Star,
    Pin,
}

/// The one-character code of a color.
pub open spec fn spec_color_char(c: EColor) -> char {
    match c {
        EColor::Red => 'r',
        EColor::Green => 'g',
        EColor::Blue => 'b',
        EColor::Yellow => 'y',
        EColor::Purple => 'p',
        EColor::Cyan => 'c',
        EColor::White => 'w',
        EColor::Black => 'k',
        EColor::Uncolored => 'u',
    }
}

/// The one-character code of a piece kind.
pub open spec fn spec_kind_char(k: EShape) -> char {
    match k {
        EShape::Circle => 'C',
        EShape::Rectangle => 'R',
        EShape::Windmill => 'W',
        EShape::Star => 'S',
        EShape::Pin => 'P',
    }
}

/// The color whose code, after lowercasing, is `c`. The Kelvin sign
/// is the one character beyond ASCII that lowercases to a code.
pub open spec fn spec_parse_color_char(c: char) -> Option<EColor> {
    match c {
        'r' | 'R' => Some(EColor::Red),
        'g' | 'G' => Some(EColor::Green),
        'b' | 'B' => Some(EColor::Blue),
        'y' | 'Y' => Some(EColor::Yellow),
        'p' | 'P' => Some(EColor::Purple),
        'c' | 'C' => Some(EColor::Cyan),
        'w' | 'W' => Some(EColor::White),
        'k' | 'K' | '\u{212a}' => Some(EColor::Black),
        'u' | 'U' => Some(EColor::Uncolored),
        _ => None,
    }
}

/// The piece kind whose code, after uppercasing, is `c`. The long s
/// is the one character beyond ASCII that uppercases to a code.
pub open spec fn spec_parse_kind_char(c: char) -> Option<EShape> {
    match c {
        'C' | 'c' => Some(EShape::Circle),
        'R' | 'r' => Some(EShape::Rectangle),
        'W' | 'w' => Some(EShape::Windmill),
        'S' | 's' | '\u{17f}' => Some(EShape::Star),
        'P' | 'p' => Some(EShape::Pin),
        _ => None,
    }
}

/// What `EColor::try_from_string` returns.
pub open spec fn spec_parse_color(s: Seq<char>) -> Option<EColor> {
    if s.len() == 1 {
        spec_parse_color_char(s[0])
    } else {
        None
    }
}

/// What `EShape::try_from_string` returns.
pub open spec fn spec_parse_kind(s: Seq<char>) -> Option<EShape> {
    if s.len() == 1 {
        spec_parse_kind_char(s[0])
    } else {
        None
    }
}

/// The color encoded by one character.
fn parse_color_char(c: char) -> (r: Option<EColor>)
    ensures
        r == spec_parse_color_char(c),
{
    match c {
        'r' | 'R' => Some(EColor::Red),
        'g' | 'G' => Some(EColor::Green),
        'b' | 'B' => Some(EColor::Blue),
        'y' | 'Y' => Some(EColor::Yellow),
        'p' | 'P' => Some(EColor::Purple),
        'c' | 'C' => Some(EColor::Cyan),
        'w' | 'W' => Some(EColor::White),
        'k' | 'K' | '\u{212a}' => Some(EColor::Black),
        'u' | 'U' => Some(EColor::Uncolored),
        _ => None,
    }
}

/// The piece kind encoded by one character.
fn parse_kind_char(c: char) -> (r: Option<EShape>)
    ensures
        r == spec_parse_kind_char(c),
{
    match c {
        'C' | 'c' => Some(EShape::Circle),
        'R' | 'r' => Some(EShape::Rectangle),
        'W' | 'w' => Some(EShape::Windmill),
        'S' | 's' | '\u{17f}' => Some(EShape::Star),
        'P' | 'p' => Some(EShape::Pin),
        _ => None,
    }
}

/// The one-character code of a color, as a string slice.
fn color_code_str(c: EColor) -> (r: &'static str)
    ensures
        r@ == seq![spec_color_char(c)],
{
    match c {
        EColor::Red => {
            proof {
                reveal_strlit("r");
                assert("r"@ =~= seq![spec_color_char(EColor::Red)]);
            }
            "r"
        },
        EColor::Green => {
            proof {
                reveal_strlit("g");
                assert("g"@ =~= seq![spec_color_char(EColor::Green)]);
            }
            "g"
        },
        EColor::Blue => {
            proof {
                reveal_strlit("b");
                assert("b"@ =~= seq![spec_color_char(EColor::Blue)]);
            }
            "b"
        },
        EColor::Yellow => {
            proof {
                reveal_strlit("y");
                assert("y"@ =~= seq![spec_color_char(EColor::Yellow)]);
            }
            "y"
        },
        EColor::Purple => {
            proof {
                reveal_strlit("p");
                assert("p"@ =~= seq![spec_color_char(EColor::Purple)]);
            }
            "p"
        },
        EColor::Cyan => {
            proof {
                reveal_strlit("c");
                assert("c"@ =~= seq![spec_color_char(EColor::Cyan)]);
            }
            "c"
        },
        EColor::White => {
            proof {
                reveal_strlit("w");
                assert("w"@ =~= seq![spec_color_char(EColor::White)]);
            }
            "w"
        },
        EColor::Black => {
            proof {
                reveal_strlit("k");
                assert("k"@ =~= seq![spec_color_char(EColor::Black)]);
            }
            "k"
        },
        EColor::Uncolored => {
            proof {
                reveal_strlit("u");
                assert("u"@ =~= seq![spec_color_char(EColor::Uncolored)]);
            }
            "u"
        },
    }
}

/// The one-character code of a piece kind, as a string slice.
fn kind_code_str(k: EShape) -> (r: &'static str)
    ensures
        r@ == seq![spec_kind_char(k)],
{
    match k {
        EShape::Circle => {
            proof {
                reveal_strlit("C");
                assert("C"@ =~= seq![spec_kind_char(EShape::Circle)]);
            }
            "C"
        },
        EShape::Rectangle => {
            proof {
                reveal_strlit("R");
                assert("R"@ =~= seq![spec_kind_char(EShape::Rectangle)]);
            }
            "R"
        },
        EShape::Windmill => {
            proof {
                reveal_strlit("W");
                assert("W"@ =~= seq![spec_kind_char(EShape::Windmill)]);
            }
            "W"
        },
        EShape::Star => {
            proof {
                reveal_strlit("S");
                assert("S"@ =~= seq![spec_kind_char(EShape::Star)]);
            }
            "S"
        },
        EShape::Pin => {
            proof {
                reveal_strlit("P");
                assert("P"@ =~= seq![spec_kind_char(EShape::Pin)]);
            }
            "P"
        },
    }
}

impl EColor {
    /// The one-character code of this color, as a string.
    pub fn to_string(&self) -> (r: String)
        ensures
            r@ == seq![spec_color_char(*self)],
    {
        String::from_str(color_code_str(*self))
    }

    pub fn try_from_string(s: &str) -> (r: Option<EColor>)
        ensures
            r == spec_parse_color(s@),
    {
        if s.unicode_len() != 1 {
            return None;
        }
        parse_color_char(s.get_char(0))
    }
}

impl EShape {
    /// The one-character code of this piece kind, as a string.
    pub fn to_string(&self) -> (r: String)
        ensures
            r@ == seq![spec_kind_char(*self)],
    {
        String::from_str(kind_code_str(*self))
    }

    pub fn try_from_string(s: &str) -> (r: Option<EShape>)
        ensures
            r == spec_parse_kind(s@),
    {
        if s.unicode_len() != 1 {
            return None;
        }
        parse_kind_char(s.get_char(0))
    }
}

/// One quadrant of the early value model: each half may be absent
/// on its own.
#[derive(Debug, Clone, Copy, PartialEq, Eq, Structural)]
pub struct SingleItem {
    pub color: Option<EColor>,
    pub shape: Option<EShape>,
}

impl SingleItem {
    /// The fully absent item.
    pub open spec fn spec_empty() -> SingleItem {
        SingleItem { color: None, shape: None }
    }
}

/// The two-character code of an item: kind and color if both are
/// there, the colorless pin code, or the absent code `--` for every
/// other combination.
pub open spec fn spec_item_code(it: SingleItem) -> Seq<char> {
    match (it.shape, it.color) {
        (Some(k), Some(c)) => seq![spec_kind_char(k), spec_color_char(c)],
        (Some(EShape::Pin), None) => seq!['P', '-'],
        _ => seq!['-', '-'],
    }
}

/// Whether a character belongs to the kind-code alphabet: a piece
/// kind's code, or the absence dash.
pub open spec fn spec_kind_char_recognized(c: char) -> bool {
    c == '-' || spec_parse_kind_char(c).is_some()
}

/// Whether a character belongs to the color-code alphabet: a color's
/// code, or the absence dash.
pub open spec fn spec_color_char_recognized(c: char) -> bool {
    c == '-' || spec_parse_color_char(c).is_some()
}

/// The item encoded by two characters: each half parses on its own,
/// a dash reads as an absent half, and a character outside either
/// alphabet rejects the code.
pub open spec fn spec_parse_item_chars(c0: char, c1: char) -> Option<SingleItem> {
    if spec_kind_char_recognized(c0) && spec_color_char_recognized(c1) {
        Some(SingleItem { shape: spec_parse_kind_char(c0), color: spec_parse_color_char(c1) })
    } else {
        None
    }
}

/// What `SingleItem::try_from_string` returns.
pub open spec fn spec_parse_item(s: Seq<char>) -> Option<SingleItem> {
    if s.len() == 2 {
        spec_parse_item_chars(s[0], s[1])
    } else {
        None
    }
}

/// Appends the two-character code of an item.
fn push_item_code(out: &mut String, it: SingleItem)
    ensures
        final(out)@ == old(out)@ + spec_item_code(it),
{
    match (it.shape, it.color) {
        (Some(k), Some(c)) => {
            out.append(kind_code_str(k));
            out.append(color_code_str(c));
        },
        (Some(EShape::Pin), None) => {
            proof {
                reveal_strlit("P-");
                assert("P-"@ =~= seq!['P', '-']);
            }
            out.append("P-");
        },
        _ => {
            proof {
                reveal_strlit("--");
                assert("--"@ =~= seq!['-', '-']);
            }
            out.append("--");
        },
    }
    proof {
        assert(out@ =~= old(out)@ + spec_item_code(it));
    }
}

impl SingleItem {
    /// The two-character code of this item.
    pub fn to_string(&self) -> (r: String)
        ensures
            r@ == spec_item_code(*self),
    {
        let mut out = String::new();
        push_item_code(&mut out, *self);
        proof {
            assert(out@ =~= spec_item_code(*self));
        }
        out
    }

    pub fn try_from_string(s: &str) -> (r: Option<SingleItem>)
        ensures
            r == spec_parse_item(s@),
    {
        if s.unicode_len() != 2 {
            return None;
        }
        parse_item_chars(s.get_char(0), s.get_char(1))
    }
}

/// The item encoded by two characters, if both stay inside the code
/// alphabets.
fn parse_item_chars(c0: char, c1: char) -> (r: Option<SingleItem>)
    ensures
        r == spec_parse_item_chars(c0, c1),
{
    let shape = parse_kind_char(c0);
    let color = parse_color_char(c1);
    if (shape.is_none() && c0 != '-') || (color.is_none() && c1 != '-') {
        return None;
    }
    Some(SingleItem { shape, color })
}

/// Four items at the quadrant positions of one layer.
#[derive(Debug, Clone, Copy, PartialEq, Eq, Structural)]
pub struct ItemRow {
    pub item0: SingleItem,
    pub item1: SingleItem,
    pub item2: SingleItem,
    pub item3: SingleItem,
}

impl ItemRow {
    /// The fully absent row.
    pub open spec fn spec_empty() -> ItemRow {
        ItemRow {
            item0: SingleItem::spec_empty(),
            item1: SingleItem::spec_empty(),
            item2: SingleItem::spec_empty(),
            item3: SingleItem::spec_empty(),
        }
    }

    /// The item at quadrant position `j`.
    pub open spec fn spec_item(self, j: int) -> SingleItem {
        if j == 0 {
            self.item0
        } else if j == 1 {
            self.item1
        } else if j == 2 {
            self.item2
        } else {
            self.item3
        }
    }
}

/// The eight-character code of a row: the four item codes in order.
pub open spec fn spec_row_code(r: ItemRow) -> Seq<char> {
    spec_item_code(r.item0) + spec_item_code(r.item1) + spec_item_code(r.item2) + spec_item_code(
        r.item3,
    )
}

/// A shape of the early value model: a 4x4 grid of items, one row
/// per layer, bottom (row 0) to top.
#[derive(Debug, Clone, Copy, PartialEq, Eq, Structural)]
pub struct Shape {
    pub row0: ItemRow,
    pub row1: ItemRow,
    pub row2: ItemRow,
    pub row3: ItemRow,
}

impl Shape {
    /// The fully absent shape.
    pub open spec fn spec_empty() -> Shape {
        Shape {
            row0: ItemRow::spec_empty(),
            row1: ItemRow::spec_empty(),
            row2: ItemRow::spec_empty(),
            row3: ItemRow::spec_empty(),
        }
    }

    /// The row at layer index `i`.
    pub open spec fn spec_row(self, i: int) -> ItemRow {
        if i == 0 {
            self.row0
        } else if i == 1 {
            self.row1
        } else if i == 2 {
            self.row2
        } else {
            self.row3
        }
    }

    /// The item at layer `i`, quadrant position `j`.
    pub open spec fn spec_item(self, i: int, j: int) -> SingleItem {
        self.spec_row(i).spec_item(j)
    }

    /// An all-absent shape.
    pub fn new() -> (r: Shape)
        ensures
            r == Shape::spec_empty(),
    {
        let empty = SingleItem { color: None, shape: None };
        let row = ItemRow { item0: empty, item1: empty, item2: empty, item3: empty };
        Shape { row0: row, row1: row, row2: row, row3: row }
    }

    pub fn get_item(&self, i: usize, j: usize) -> (r: SingleItem)
        requires
            i < 4,
            j < 4,
        ensures
            r == self.spec_item(i as int, j as int),
    {
        let row = if i == 0 {
            self.row0
        } else if i == 1 {
            self.row1
        } else if i == 2 {
            self.row2
        } else {
            self.row3
        };
        if j == 0 {
            row.item0
        } else if j == 1 {
            row.item1
        } else if j == 2 {
            row.item2
        } else {
            row.item3
        }
    }

    pub fn set_item(&mut self, i: usize, j: usize, it: SingleItem)
        requires
            i < 4,
            j < 4,
        ensures
            final(self).spec_item(i as int, j as int) == it,
            forall|a: int, b: int|
                0 <= a < 4 && 0 <= b < 4 && !(a == i && b == j) ==> final(self).spec_item(a, b)
                    == old(self).spec_item(a, b),
    {
        let mut row = if i == 0 {
            self.row0
        } else if i == 1 {
            self.row1
        } else if i == 2 {
            self.row2
        } else {
            self.row3
        };
        if j == 0 {
            row.item0 = it;
        } else if j == 1 {
            row.item1 = it;
        } else if j == 2 {
            row.item2 = it;
        } else {
            row.item3 = it;
        }
        if i == 0 {
            self.row0 = row;
        } else if i == 1 {
            self.row1 = row;
        } else if i == 2 {
            self.row2 = row;
        } else {
            self.row3 = row;
        }
    }
}

/// Appends the eight-character code of a row.
fn push_row_code(out: &mut String, r: &ItemRow)
    ensures
        final(out)@ == old(out)@ + spec_row_code(*r),
{
    push_item_code(out, r.item0);
    push_item_code(out, r.item1);
    push_item_code(out, r.item2);
    push_item_code(out, r.item3);
    proof {
        assert(out@ =~= old(out)@ + spec_row_code(*r));
    }
}

/// The layer separator as a string slice.
fn colon_str() -> (r: &'static str)
    ensures
        r@ == seq![':'],
{
    proof {
        reveal_strlit(":");
        assert(":"@ =~= seq![':']);
    }
    ":"
}

/// The full 35-character encoding of a shape: the four row codes,
/// bottom to top, joined by `:`.
pub open spec fn spec_raw_code(s: Shape) -> Seq<char> {
    spec_row_code(s.row0) + seq![':'] + spec_row_code(s.row1) + seq![':'] + spec_row_code(s.row2)
        + seq![':'] + spec_row_code(s.row3)
}

impl Shape {
    /// The full 35-character encoding, absent rows included.
    pub fn to_raw_string(&self) -> (r: String)
        ensures
            r@ == spec_raw_code(*self),
            r@.len() == 35,
    {
        let mut result = String::new();
        push_row_code(&mut result, &self.row0);
        result.append(colon_str());
        push_row_code(&mut result, &self.row1);
        result.append(colon_str());
        push_row_code(&mut result, &self.row2);
        result.append(colon_str());
        push_row_code(&mut result, &self.row3);
        proof {
            assert(result@ =~= spec_raw_code(*self));
        }
        result
    }
}

/// Whether an item's code shows a piece: both halves there, or a
/// colorless pin. Every other combination encodes as `--`.
pub open spec fn spec_item_coded(it: SingleItem) -> bool {
    (it.shape.is_some() && it.color.is_some()) || (it.shape == Some(EShape::Pin)
        && it.color == None::<EColor>)
}

/// Whether a whole row encodes as eight dashes.
pub open spec fn spec_row_coded_blank(r: ItemRow) -> bool {
    !spec_item_coded(r.item0) && !spec_item_coded(r.item1) && !spec_item_coded(r.item2)
        && !spec_item_coded(r.item3)
}

/// How many of the trailing rows the minified form drops: rows at or
/// above `spec_kept_rows` encode as eight dashes.
pub open spec fn spec_kept_rows(s: Shape) -> int {
    if !spec_row_coded_blank(s.row3) {
        4
    } else if !spec_row_coded_blank(s.row2) {
        3
    } else if !spec_row_coded_blank(s.row1) {
        2
    } else if !spec_row_coded_blank(s.row0) {
        1
    } else {
        0
    }
}

/// How many leading item codes of a row the minified single-row form
/// keeps: items past `spec_kept_items` encode as `--`.
pub open spec fn spec_kept_items(r: ItemRow) -> int {
    if spec_item_coded(r.item3) {
        4
    } else if spec_item_coded(r.item2) {
        3
    } else if spec_item_coded(r.item1) {
        2
    } else if spec_item_coded(r.item0) {
        1
    } else {
        0
    }
}

/// The minified encoding: the raw encoding with trailing blank rows
/// dropped, then a trailing separator dropped, then — only when a
/// single row remains — trailing `--` item codes dropped.
pub open spec fn spec_minify_code(s: Shape) -> Seq<char> {
    let m = spec_kept_rows(s);
    if m == 4 {
        spec_raw_code(s)
    } else if m == 3 {
        spec_row_code(s.row0) + seq![':'] + spec_row_code(s.row1) + seq![':'] + spec_row_code(
            s.row2,
        )
    } else if m == 2 {
        spec_row_code(s.row0) + seq![':'] + spec_row_code(s.row1)
    } else {
        let t = spec_kept_items(s.row0);
        if t == 4 {
            spec_row_code(s.row0)
        } else if t == 3 {
            spec_item_code(s.row0.item0) + spec_item_code(s.row0.item1) + spec_item_code(
                s.row0.item2,
            )
        } else if t == 2 {
            spec_item_code(s.row0.item0) + spec_item_code(s.row0.item1)
        } else if t == 1 {
            spec_item_code(s.row0.item0)
        } else {
            Seq::empty()
        }
    }
}

/// Whether an item's code shows a piece.
fn is_item_coded(it: SingleItem) -> (r: bool)
    ensures
        r == spec_item_coded(it),
{
    match (it.shape, it.color) {
        (Some(_), Some(_)) => true,
        (Some(EShape::Pin), None) => true,
        _ => false,
    }
}

/// Whether a whole row encodes as eight dashes.
fn is_row_coded_blank(r: &ItemRow) -> (res: bool)
    ensures
        res == spec_row_coded_blank(*r),
{
    !is_item_coded(r.item0) && !is_item_coded(r.item1) && !is_item_coded(r.item2) && !is_item_coded(
        r.item3,
    )
}

/// What `Shape::try_from_string` returns: up to four `:`-separated
/// eight-character rows, bottom to top; missing upper rows read as
/// absent. A character outside the code alphabets rejects the whole
/// string.
pub open spec fn spec_parse_shape(s: Seq<char>) -> Option<Shape> {
    let n_rows = (s.len() + 1) / 9;
    if (s.len() == 8 || s.len() == 17 || s.len() == 26 || s.len() == 35) && (forall|k: int|
        1 <= k < n_rows ==> #[trigger] s[9 * k - 1] == ':') && (forall|k: int|
        0 <= k < n_rows ==> (#[trigger] spec_parse_row_at(s, k)).is_some()) {
        Some(
            Shape {
                row0: spec_parse_row_at(s, 0).unwrap(),
                row1: if n_rows > 1 {
                    spec_parse_row_at(s, 1).unwrap()
                } else {
                    ItemRow::spec_empty()
                },
                row2: if n_rows > 2 {
                    spec_parse_row_at(s, 2).unwrap()
                } else {
                    ItemRow::spec_empty()
                },
                row3: if n_rows > 3 {
                    spec_parse_row_at(s, 3).unwrap()
                } else {
                    ItemRow::spec_empty()
                },
            },
        )
    } else {
        None
    }
}

/// The row read from the eight characters starting at `9 * k`, if
/// all four item codes stay inside the alphabets.
pub open spec fn spec_parse_row_at(s: Seq<char>, k: int) -> Option<ItemRow> {
    if spec_parse_item_chars(s[9 * k], s[9 * k + 1]).is_some() && spec_parse_item_chars(
        s[9 * k + 2],
        s[9 * k + 3],
    ).is_some() && spec_parse_item_chars(s[9 * k + 4], s[9 * k + 5]).is_some()
        && spec_parse_item_chars(s[9 * k + 6], s[9 * k + 7]).is_some() {
        Some(
            ItemRow {
                item0: spec_parse_item_chars(s[9 * k], s[9 * k + 1]).unwrap(),
                item1: spec_parse_item_chars(s[9 * k + 2], s[9 * k + 3]).unwrap(),
                item2: spec_parse_item_chars(s[9 * k + 4], s[9 * k + 5]).unwrap(),
                item3: spec_parse_item_chars(s[9 * k + 6], s[9 * k + 7]).unwrap(),
            },
        )
    } else {
        None
    }
}

/// Reads the row that starts at character `base`.
fn parse_row_at(s: &str, base: usize) -> (r: Option<ItemRow>)
    requires
        base + 8 <= s@.len(),
        base % 9 == 0,
        base < 36,
    ensures
        r == spec_parse_row_at(s@, base as int / 9),
{
    let item0 = match parse_item_chars(s.get_char(base), s.get_char(base + 1)) {
        Some(it) => it,
        None => {
            return None;
        },
    };
    let item1 = match parse_item_chars(s.get_char(base + 2), s.get_char(base + 3)) {
        Some(it) => it,
        None => {
            return None;
        },
    };
    let item2 = match parse_item_chars(s.get_char(base + 4), s.get_char(base + 5)) {
        Some(it) => it,
        None => {
            return None;
        },
    };
    let item3 = match parse_item_chars(s.get_char(base + 6), s.get_char(base + 7)) {
        Some(it) => it,
        None => {
            return None;
        },
    };
    Some(ItemRow { item0, item1, item2, item3 })
}

impl Shape {
    /// The minified encoding: trailing blank rows are dropped, and a
    /// single remaining row also drops its trailing `--` codes.
    pub fn to_string(&self) -> (r: String)
        ensures
            r@ == spec_minify_code(*self),
    {
        let mut result = String::new();
        if !is_row_coded_blank(&self.row3) {
            push_row_code(&mut result, &self.row0);
            result.append(colon_str());
            push_row_code(&mut result, &self.row1);
            result.append(colon_str());
            push_row_code(&mut result, &self.row2);
            result.append(colon_str());
            push_row_code(&mut result, &self.row3);
        } else if !is_row_coded_blank(&self.row2) {
            push_row_code(&mut result, &self.row0);
            result.append(colon_str());
            push_row_code(&mut result, &self.row1);
            result.append(colon_str());
            push_row_code(&mut result, &self.row2);
        } else if !is_row_coded_blank(&self.row1) {
            push_row_code(&mut result, &self.row0);
            result.append(colon_str());
            push_row_code(&mut result, &self.row1);
        } else {
            let row = self.row0;
            if is_item_coded(row.item3) {
                push_item_code(&mut result, row.item0);
                push_item_code(&mut result, row.item1);
                push_item_code(&mut result, row.item2);
                push_item_code(&mut result, row.item3);
            } else if is_item_coded(row.item2) {
                push_item_code(&mut result, row.item0);
                push_item_code(&mut result, row.item1);
                push_item_code(&mut result, row.item2);
            } else if is_item_coded(row.item1) {
                push_item_code(&mut result, row.item0);
                push_item_code(&mut result, row.item1);
            } else if is_item_coded(row.item0) {
                push_item_code(&mut result, row.item0);
            }
        }
        proof {
            assert(result@ =~= spec_minify_code(*self));
        }
        result
    }

    pub fn try_from_string(s: &str) -> (r: Option<Shape>)
        ensures
            r == spec_parse_shape(s@),
    {
        let n = s.unicode_len();
        if !(n == 8 || n == 17 || n == 26 || n == 35) {
            return None;
        }
        let n_rows = (n + 1) / 9;
        let mut shape = Shape::new();
        match parse_row_at(s, 0) {
            Some(row) => {
                shape.row0 = row;
            },
            None => {
                return None;
            },
        }
        if n_rows > 1 {
            if s.get_char(8) != ':' {
                proof {
                    assert(s@[9 * 1 - 1] != ':');
                }
                return None;
            }
            match parse_row_at(s, 9) {
                Some(row) => {
                    shape.row1 = row;
                },
                None => {
                    return None;
                },
            }
        }
        if n_rows > 2 {
            if s.get_char(17) != ':' {
                proof {
                    assert(s@[9 * 2 - 1] != ':');
                }
                return None;
            }
            match parse_row_at(s, 18) {
                Some(row) => {
                    shape.row2 = row;
                },
                None => {
                    return None;
                },
            }
        }
        if n_rows > 3 {
            if s.get_char(26) != ':' {
                proof {
                    assert(s@[9 * 3 - 1] != ':');
                }
                return None;
            }
            match parse_row_at(s, 27) {
                Some(row) => {
                    shape.row3 = row;
                },
                None => {
                    return None;
                },
            }
        }
        proof {
            let sv = s@;
            let nl = (sv.len() + 1) / 9;
            assert forall|k: int| 1 <= k < nl implies #[trigger] sv[9 * k - 1] == ':' by {
                if k == 1 {
                    assert(sv[8] == ':');
                } else if k == 2 {
                    assert(sv[17] == ':');
                } else {
                    assert(sv[26] == ':');
                }
            }
            assert forall|k: int| 0 <= k < nl implies (#[trigger] spec_parse_row_at(
                sv,
                k,
            )).is_some() by {
                if k == 0 {
                    assert(spec_parse_row_at(sv, 0).is_some());
                } else if k == 1 {
                    assert(spec_parse_row_at(sv, 1).is_some());
                } else if k == 2 {
                    assert(spec_parse_row_at(sv, 2).is_some());
                } else {
                    assert(spec_parse_row_at(sv, 3).is_some());
                }
            }
        }
        Some(shape)
    }

    /// A link to the community shape viewer for this shape.
    pub fn to_shapez2_shape_viewer(&self) -> (r: String)
        ensures
            r@ == "https://community-vortex.shapez2.com/shape?identifier="@
                + crate::shape::url_encoded(spec_minify_code(*self))
                + "&extend=false&expand=false"@,
    {
        let binding = self.to_string();
        let encoded = crate::shape::percent_encode(binding.as_str());
        let mut out = String::from_str("https://community-vortex.shapez2.com/shape?identifier=");
        out.append(encoded.as_str());
        out.append("&extend=false&expand=false");
        proof {
            assert(out@ =~= "https://community-vortex.shapez2.com/shape?identifier="@
                + crate::shape::url_encoded(spec_minify_code(*self))
                + "&extend=false&expand=false"@);
        }
        out
    }
}

/// Whether an item survives a print-parse round trip: its code reads
/// back as exactly this item. A piece kind without a color (other
/// than a pin) and a color without a kind both encode as `--` and
/// are lost.
pub open spec fn spec_item_codeable(it: SingleItem) -> bool {
    ||| (it.shape.is_some() && it.color.is_some())
    ||| it == (SingleItem { shape: Some(EShape::Pin), color: None })
    ||| it == SingleItem::spec_empty()
}

pub open spec fn spec_row_codeable(r: ItemRow) -> bool {
    spec_item_codeable(r.item0) && spec_item_codeable(r.item1) && spec_item_codeable(r.item2)
        && spec_item_codeable(r.item3)
}

pub open spec fn spec_shape_codeable(s: Shape) -> bool {
    spec_row_codeable(s.row0) && spec_row_codeable(s.row1) && spec_row_codeable(s.row2)
        && spec_row_codeable(s.row3)
}

/// Parsing undoes encoding for a codeable item, and no item code
/// holds the layer separator.
proof fn lemma_item_code_roundtrip(it: SingleItem)
    ensures
        spec_item_code(it).len() == 2,
        spec_item_code(it)[0] != ':',
        spec_item_code(it)[1] != ':',
        spec_item_codeable(it) ==> spec_parse_item_chars(spec_item_code(it)[0], spec_item_code(it)[1])
            == Some(it),
{
}

/// Parsing undoes encoding for a row of codeable items, and no row
/// code holds the layer separator.
proof fn lemma_row_code_roundtrip(r: ItemRow)
    ensures
        spec_row_code(r).len() == 8,
        forall|i: int| 0 <= i < 8 ==> #[trigger] spec_row_code(r)[i] != ':',
        spec_row_codeable(r) ==> spec_parse_item_chars(spec_row_code(r)[0], spec_row_code(r)[1])
            == Some(r.item0) && spec_parse_item_chars(spec_row_code(r)[2], spec_row_code(r)[3])
            == Some(r.item1) && spec_parse_item_chars(spec_row_code(r)[4], spec_row_code(r)[5])
            == Some(r.item2) && spec_parse_item_chars(spec_row_code(r)[6], spec_row_code(r)[7])
            == Some(r.item3),
{
    lemma_item_code_roundtrip(r.item0);
    lemma_item_code_roundtrip(r.item1);
    lemma_item_code_roundtrip(r.item2);
    lemma_item_code_roundtrip(r.item3);
    let code = spec_row_code(r);
    assert(code[0] == spec_item_code(r.item0)[0]);
    assert(code[1] == spec_item_code(r.item0)[1]);
    assert(code[2] == spec_item_code(r.item1)[0]);
    assert(code[3] == spec_item_code(r.item1)[1]);
    assert(code[4] == spec_item_code(r.item2)[0]);
    assert(code[5] == spec_item_code(r.item2)[1]);
    assert(code[6] == spec_item_code(r.item3)[0]);
    assert(code[7] == spec_item_code(r.item3)[1]);
}

/// A row whose items are codeable but whose code is eight dashes is
/// the absent row.
proof fn lemma_blank_codeable_row_is_empty(r: ItemRow)
    requires
        spec_row_codeable(r),
        spec_row_coded_blank(r),
    ensures
        r == ItemRow::spec_empty(),
{
}

/// How the raw encoding decomposes: its length, its separators, and
/// its row segments.
proof fn lemma_raw_code_structure(s: Shape)
    ensures
        spec_raw_code(s).len() == 35,
        spec_raw_code(s).subrange(0, 8) == spec_row_code(s.row0),
        spec_raw_code(s).subrange(9, 17) == spec_row_code(s.row1),
        spec_raw_code(s).subrange(18, 26) == spec_row_code(s.row2),
        spec_raw_code(s).subrange(27, 35) == spec_row_code(s.row3),
        spec_raw_code(s)[8] == ':',
        spec_raw_code(s)[17] == ':',
        spec_raw_code(s)[26] == ':',
{
    let code = spec_raw_code(s);
    assert(code.subrange(0, 8) =~= spec_row_code(s.row0));
    assert(code.subrange(9, 17) =~= spec_row_code(s.row1));
    assert(code.subrange(18, 26) =~= spec_row_code(s.row2));
    assert(code.subrange(27, 35) =~= spec_row_code(s.row3));
}

/// Parsing undoes the full raw encoding for every shape whose items
/// are all codeable.
#[verifier::rlimit(100)]
pub proof fn lemma_parse_raw_roundtrip(s: Shape)
    requires
        spec_shape_codeable(s),
    ensures
        spec_raw_code(s).len() == 35,
        spec_parse_shape(spec_raw_code(s)) == Some(s),
{
    lemma_raw_code_structure(s);
    lemma_row_code_roundtrip(s.row0);
    lemma_row_code_roundtrip(s.row1);
    lemma_row_code_roundtrip(s.row2);
    lemma_row_code_roundtrip(s.row3);
    let code = spec_raw_code(s);
    let nl = (code.len() + 1) / 9;
    assert(nl == 4);
    assert forall|k: int| 1 <= k < nl implies #[trigger] code[9 * k - 1] == ':' by {
        if k == 1 {
            assert(code[8] == ':');
        } else if k == 2 {
            assert(code[17] == ':');
        } else {
            assert(code[26] == ':');
        }
    }
    assert(spec_parse_row_at(code, 0) == Some(s.row0)) by {
        assert(forall|i: int| 0 <= i < 8 ==> #[trigger] code[i] == spec_row_code(s.row0)[i]);
    }
    assert(spec_parse_row_at(code, 1) == Some(s.row1)) by {
        assert(forall|i: int| 0 <= i < 8 ==> #[trigger] code[9 + i] == spec_row_code(s.row1)[i]);
    }
    assert(spec_parse_row_at(code, 2) == Some(s.row2)) by {
        assert(forall|i: int| 0 <= i < 8 ==> #[trigger] code[18 + i] == spec_row_code(s.row2)[i]);
    }
    assert(spec_parse_row_at(code, 3) == Some(s.row3)) by {
        assert(forall|i: int| 0 <= i < 8 ==> #[trigger] code[27 + i] == spec_row_code(s.row3)[i]);
    }
    assert forall|k: int| 0 <= k < nl implies (#[trigger] spec_parse_row_at(code, k)).is_some() by {
        if k == 0 {
            assert(spec_parse_row_at(code, 0).is_some());
        } else if k == 1 {
            assert(spec_parse_row_at(code, 1).is_some());
        } else if k == 2 {
            assert(spec_parse_row_at(code, 2).is_some());
        } else {
            assert(spec_parse_row_at(code, 3).is_some());
        }
    }
    assert(spec_parse_shape(code) == Some(s));
}

/// Parsing undoes the minified encoding for every shape whose items
/// are all codeable, whenever the minified form still consists of
/// whole eight-character rows.
#[verifier::rlimit(100)]
pub proof fn lemma_parse_minify_roundtrip(s: Shape)
    requires
        spec_shape_codeable(s),
        spec_kept_rows(s) >= 2 || spec_kept_items(s.row0) == 4,
    ensures
        spec_parse_shape(spec_minify_code(s)) == Some(s),
{
    lemma_row_code_roundtrip(s.row0);
    lemma_row_code_roundtrip(s.row1);
    lemma_row_code_roundtrip(s.row2);
    let code = spec_minify_code(s);
    let m = spec_kept_rows(s);
    if m == 4 {
        lemma_parse_raw_roundtrip(s);
    } else if m == 3 {
        lemma_blank_codeable_row_is_empty(s.row3);
        assert(code.len() == 26);
        let nl = (code.len() + 1) / 9;
        assert(nl == 3);
        assert(code.subrange(0, 8) =~= spec_row_code(s.row0));
        assert(code.subrange(9, 17) =~= spec_row_code(s.row1));
        assert(code.subrange(18, 26) =~= spec_row_code(s.row2));
        assert forall|k: int| 1 <= k < nl implies #[trigger] code[9 * k - 1] == ':' by {
            if k == 1 {
                assert(code[8] == ':');
            } else {
                assert(code[17] == ':');
            }
        }
        assert(spec_parse_row_at(code, 0) == Some(s.row0)) by {
            assert(forall|i: int| 0 <= i < 8 ==> #[trigger] code[i] == spec_row_code(s.row0)[i]);
        }
        assert(spec_parse_row_at(code, 1) == Some(s.row1)) by {
            assert(forall|i: int|
                0 <= i < 8 ==> #[trigger] code[9 + i] == spec_row_code(s.row1)[i]);
        }
        assert(spec_parse_row_at(code, 2) == Some(s.row2)) by {
            assert(forall|i: int|
                0 <= i < 8 ==> #[trigger] code[18 + i] == spec_row_code(s.row2)[i]);
        }
        assert forall|k: int| 0 <= k < nl implies (#[trigger] spec_parse_row_at(
            code,
            k,
        )).is_some() by {
            if k == 0 {
                assert(spec_parse_row_at(code, 0).is_some());
            } else if k == 1 {
                assert(spec_parse_row_at(code, 1).is_some());
            } else {
                assert(spec_parse_row_at(code, 2).is_some());
            }
        }
        assert(spec_parse_shape(code) == Some(s));
    } else if m == 2 {
        lemma_blank_codeable_row_is_empty(s.row2);
        lemma_blank_codeable_row_is_empty(s.row3);
        assert(code.len() == 17);
        let nl = (code.len() + 1) / 9;
        assert(nl == 2);
        assert(code.subrange(0, 8) =~= spec_row_code(s.row0));
        assert(code.subrange(9, 17) =~= spec_row_code(s.row1));
        assert forall|k: int| 1 <= k < nl implies #[trigger] code[9 * k - 1] == ':' by {
            assert(code[8] == ':');
        }
        assert(spec_parse_row_at(code, 0) == Some(s.row0)) by {
            assert(forall|i: int| 0 <= i < 8 ==> #[trigger] code[i] == spec_row_code(s.row0)[i]);
        }
        assert(spec_parse_row_at(code, 1) == Some(s.row1)) by {
            assert(forall|i: int|
                0 <= i < 8 ==> #[trigger] code[9 + i] == spec_row_code(s.row1)[i]);
        }
        assert forall|k: int| 0 <= k < nl implies (#[trigger] spec_parse_row_at(
            code,
            k,
        )).is_some() by {
            if k == 0 {
                assert(spec_parse_row_at(code, 0).is_some());
            } else {
                assert(spec_parse_row_at(code, 1).is_some());
            }
        }
        assert(spec_parse_shape(code) == Some(s));
    } else {
        lemma_blank_codeable_row_is_empty(s.row1);
        lemma_blank_codeable_row_is_empty(s.row2);
        lemma_blank_codeable_row_is_empty(s.row3);
        assert(code =~= spec_row_code(s.row0));
        assert(code.len() == 8);
        let nl = (code.len() + 1) / 9;
        assert(nl == 1);
        assert(spec_parse_row_at(code, 0) == Some(s.row0)) by {
            assert(forall|i: int| 0 <= i < 8 ==> #[trigger] code[i] == spec_row_code(s.row0)[i]);
        }
        assert forall|k: int| 0 <= k < nl implies (#[trigger] spec_parse_row_at(
            code,
            k,
        )).is_some() by {
            assert(spec_parse_row_at(code, 0).is_some());
        }
        assert(spec_parse_shape(code) == Some(s));
    }
}

} // verus!
