use std::collections::HashMap;
use vstd::prelude::*;
use vstd::std_specs::convert::FromSpecImpl;
use vstd::std_specs::hash::group_hash_axioms;
use vstd::string::{is_ascii_spec_bytes, StringExecFns};
use vstd::utf8::is_ascii_chars;
use crate::canvas::TileState;
use crate::color::Color;

verus! {

broadcast use group_hash_axioms;

/// The colour model that the editor shows.
#[derive(PartialEq, Eq, Clone, Copy, Debug, Structural)]
pub enum ColorEditerState {
    RGB,
    HSV,
    HSL,
}

/// Which of the pen's two colours is being edited.
#[derive(PartialEq, Eq, Clone, Copy, Debug, Structural)]
pub enum EditingColor {
    FORE,
    BACK,
}

/// The tool that turns a pointer position into a command.
#[derive(PartialEq, Eq, Clone, Copy, Debug, Structural)]
pub enum ToolEnum {
    Pencil,
    Fill,
    RectFilled,
}

/// The colour in which the pen's position is outlined over a cell of colour
/// `c`.
pub fn compute_color(c: Color) -> (shifted: Color)
    ensures
        shifted == c.contrast(),
{
    let add: u16 = 128;
    let r = c.r as u16;
    let g = c.g as u16;
    let b = c.b as u16;
    let r = ((r + add) % (u8::MAX as u16)) as u8;
    let g = ((g + add) % (u8::MAX as u16)) as u8;
    let b = ((b + add) % (u8::MAX as u16)) as u8;
    Color::from_rgb(r, g, b)
}

/// The value of a hexadecimal digit given as an ASCII byte, in either case.
pub open spec fn hex_digit(b: u8) -> Option<u8> {
    if 48 <= b <= 57 {
        Some((b - 48) as u8)
    } else if 97 <= b <= 102 {
        Some((b - 87) as u8)
    } else if 65 <= b <= 70 {
        Some((b - 55) as u8)
    } else {
        None
    }
}

/// The number that two ASCII bytes spell in base 16: two digits, or a plus
/// sign and one digit.
pub open spec fn hex_byte(hi: u8, lo: u8) -> Option<u8> {
    match hex_digit(lo) {
        Some(low) => if hi == 43 {
            Some(low)
        } else {
            match hex_digit(hi) {
                Some(high) => Some((16 * high + low) as u8),
                None => None,
            }
        },
        None => None,
    }
}

/// The colour that a text spells: six characters are read as three numbers
/// of two characters each, three characters as three digits that each count
/// twice. Any other text, and any text with a character outside ASCII,
/// spells no colour.
pub open spec fn hex_color(text: Seq<char>) -> Option<Color> {
    if !is_ascii_chars(text) {
        None
    } else if text.len() == 6 {
        match (
            hex_byte(text[0] as u8, text[1] as u8),
            hex_byte(text[2] as u8, text[3] as u8),
            hex_byte(text[4] as u8, text[5] as u8),
        ) {
            (Some(r), Some(g), Some(b)) => Some(Color::rgb(r, g, b)),
            _ => None,
        }
    } else if text.len() == 3 {
        match (hex_digit(text[0] as u8), hex_digit(text[1] as u8), hex_digit(text[2] as u8)) {
            (Some(r), Some(g), Some(b)) => Some(
                Color::rgb((17 * r) as u8, (17 * g) as u8, (17 * b) as u8),
            ),
            _ => None,
        }
    } else {
        None
    }
}

/// The character that shows a value below 16 in base 16, in upper case.
pub open spec fn upper_hex(d: int) -> char {
    seq!['0', '1', '2', '3', '4', '5', '6', '7', '8', '9', 'A', 'B', 'C', 'D', 'E', 'F'][d]
}

/// The six characters that show the red, green and blue of `color` in base
/// 16, two for each.
pub open spec fn hex_text(color: Color) -> Seq<char> {
    seq![
        upper_hex(color.r as int / 16),
        upper_hex(color.r as int % 16),
        upper_hex(color.g as int / 16),
        upper_hex(color.g as int % 16),
        upper_hex(color.b as int / 16),
        upper_hex(color.b as int % 16),
    ]
}

fn digit_value(b: u8) -> (value: Option<u8>)
    ensures
        value == hex_digit(b),
{
    if 48 <= b && b <= 57 {
        Some(b - 48)
    } else if 97 <= b && b <= 102 {
        Some(b - 87)
    } else if 65 <= b && b <= 70 {
        Some(b - 55)
    } else {
        None
    }
}

fn byte_value(hi: u8, lo: u8) -> (value: Option<u8>)
    ensures
        value == hex_byte(hi, lo),
{
    match digit_value(lo) {
        Some(low) => {
            if hi == 43 {
                Some(low)
            } else {
                match digit_value(hi) {
                    Some(high) => Some(16 * high + low),
                    None => None,
                }
            }
        },
        None => None,
    }
}

/// The colour that `text` spells, if it spells one.
pub fn parse_hex_color(text: &str) -> (color: Option<Color>)
    ensures
        color == hex_color(text@),
{
    if !text.is_ascii() {
        return None;
    }
    proof {
        is_ascii_spec_bytes(text);
    }
    let bytes = text.as_bytes();
    if bytes.len() == 6 {
        let r = byte_value(bytes[0], bytes[1]);
        let g = byte_value(bytes[2], bytes[3]);
        let b = byte_value(bytes[4], bytes[5]);
        if r.is_some() && g.is_some() && b.is_some() {
            Some(Color::from_rgb(r.unwrap(), g.unwrap(), b.unwrap()))
        } else {
            None
        }
    } else if bytes.len() == 3 {
        let r = digit_value(bytes[0]);
        let g = digit_value(bytes[1]);
        let b = digit_value(bytes[2]);
        if r.is_some() && g.is_some() && b.is_some() {
            Some(Color::from_rgb(17 * r.unwrap(), 17 * g.unwrap(), 17 * b.unwrap()))
        } else {
            None
        }
    } else {
        None
    }
}

/// The character that shows `d` in base 16, as a text of its own.
fn upper_hex_text(d: u8) -> (digit: &'static str)
    requires
        d < 16,
    ensures
        digit@ == seq![upper_hex(d as int)],
{
    proof {
        reveal_strlit("0");
        reveal_strlit("1");
        reveal_strlit("2");
        reveal_strlit("3");
        reveal_strlit("4");
        reveal_strlit("5");
        reveal_strlit("6");
        reveal_strlit("7");
        reveal_strlit("8");
        reveal_strlit("9");
        reveal_strlit("A");
        reveal_strlit("B");
        reveal_strlit("C");
        reveal_strlit("D");
        reveal_strlit("E");
        reveal_strlit("F");
    }
    let digit = match d {
        0 => "0",
        1 => "1",
        2 => "2",
        3 => "3",
        4 => "4",
        5 => "5",
        6 => "6",
        7 => "7",
        8 => "8",
        9 => "9",
        10 => "A",
        11 => "B",
        12 => "C",
        13 => "D",
        14 => "E",
        _ => "F",
    };
    assert(digit@ =~= seq![upper_hex(d as int)]);
    digit
}

/// Makes `text` show `color` as the editor does: red, green and blue in
/// base 16, two characters each.
fn update_text(text: &mut String, color: &Color)
    ensures
        final(text)@ == hex_text(*color),
{
    let mut shown = String::new();
    shown.append(upper_hex_text(color.r / 16));
    shown.append(upper_hex_text(color.r % 16));
    shown.append(upper_hex_text(color.g / 16));
    shown.append(upper_hex_text(color.g % 16));
    shown.append(upper_hex_text(color.b / 16));
    shown.append(upper_hex_text(color.b % 16));
    assert(shown@ =~= hex_text(*color));
    *text = shown;
}

/// The text that shows a colour spells that colour, made opaque.
pub proof fn lemma_hex_text_spells(color: Color)
    ensures
        hex_color(hex_text(color)) == Some(Color::rgb(color.r, color.g, color.b)),
{
    let text = hex_text(color);
    assert forall|d: int| 0 <= d < 16 implies hex_digit(#[trigger] upper_hex(d) as u8) == Some(
        d as u8,
    ) && upper_hex(d) as u8 != 43 && '\0' <= upper_hex(d) <= '\u{7f}' by {
        lemma_upper_hex(d);
    }
    assert(is_ascii_chars(text));
    let r = color.r as int;
    let g = color.g as int;
    let b = color.b as int;
    assert(hex_byte(text[0] as u8, text[1] as u8) == Some(color.r));
    assert(hex_byte(text[2] as u8, text[3] as u8) == Some(color.g));
    assert(hex_byte(text[4] as u8, text[5] as u8) == Some(color.b));
}

/// An upper-case digit of base 16 is an ASCII character that reads as its
/// value.
proof fn lemma_upper_hex(d: int)
    requires
        0 <= d < 16,
    ensures
        hex_digit(upper_hex(d) as u8) == Some(d as u8),
        upper_hex(d) as u8 != 43,
        '\0' <= upper_hex(d) <= '\u{7f}',
{
    if d == 0 {
    } else if d == 1 {
    } else if d == 2 {
    } else if d == 3 {
    } else if d == 4 {
    } else if d == 5 {
    } else if d == 6 {
    } else if d == 7 {
    } else if d == 8 {
    } else if d == 9 {
    } else if d == 10 {
    } else if d == 11 {
    } else if d == 12 {
    } else if d == 13 {
    } else if d == 14 {
    } else {
    }
}

/// The grey of brightness `luma`, as red, green and blue.
pub fn gray_to_rgb(luma: u8) -> (rgb: (u8, u8, u8))
    ensures
        rgb == (luma, luma, luma),
{
    (luma, luma, luma)
}

/// The keys of the first `i + 1` colours are those of the first `i` and the
/// key of the one after them.
proof fn lemma_keys_grow(colors: Seq<Color>, i: int)
    requires
        0 <= i < colors.len(),
    ensures
        keys_of(colors.subrange(0, i + 1)) == keys_of(colors.subrange(0, i)).insert(colors[i].key()),
{
    let before = colors.subrange(0, i);
    let after = colors.subrange(0, i + 1);
    assert(after[i] == colors[i]);
    assert forall|k: u32| keys_of(after).contains(k) <==> keys_of(before).contains(k) || k
        == colors[i].key() by {
        if keys_of(after).contains(k) {
            let j = choose|j: int| 0 <= j < after.len() && (#[trigger] after[j]).key() == k;
            if j < i {
                assert(before[j] == after[j]);
            }
        }
        if keys_of(before).contains(k) {
            let j = choose|j: int| 0 <= j < before.len() && (#[trigger] before[j]).key() == k;
            assert(after[j] == before[j]);
        }
    }
    assert(keys_of(after) =~= keys_of(before).insert(colors[i].key()));
}

/// The keys of the colours of `colors`.
pub open spec fn keys_of(colors: Seq<Color>) -> Set<u32> {
    Set::new(|k: u32| exists|i: int| 0 <= i < colors.len() && (#[trigger] colors[i]).key() == k)
}

/// What a palette holds, as a mathematical value.
pub struct Swatches {
    /// The colours in the order they were added.
    pub colors: Seq<Color>,
    /// The keys of the colours that the palette knows. A colour is known
    /// from the moment it is added; deleting it makes it unknown unless the
    /// same colour stands again later in the palette.
    pub known: Set<u32>,
    /// Whether a click on a colour deletes it.
    pub editing: bool,
}

impl Swatches {
    /// The palette of `colors`, all of them known.
    pub open spec fn listing(colors: Seq<Color>) -> Swatches {
        Swatches { colors, known: keys_of(colors), editing: false }
    }

    /// The palette after `color` was added: appended, unless it was known.
    pub open spec fn add(self, color: Color) -> Swatches {
        if self.known.contains(color.key()) {
            self
        } else {
            Swatches {
                colors: self.colors.push(color),
                known: self.known.insert(color.key()),
                ..self
            }
        }
    }

    /// The palette after the colour at `idx` was deleted. The colour is no
    /// longer known, unless it stands again behind `idx`.
    pub open spec fn delete(self, idx: int) -> Swatches {
        Swatches {
            colors: self.colors.remove(idx),
            known: self.known.remove(self.colors[idx].key()) + keys_of(
                self.colors.subrange(idx + 1, self.colors.len() as int),
            ),
            ..self
        }
    }
}

/// The colours a user keeps at hand, in the order they were added, with a
/// record of which colours are known.
pub struct Palette {
    pub palette: Vec<Color>,
    color_index_hash_map: HashMap<u32, usize>,
    pub editing: bool,
}

impl View for Palette {
    type V = Swatches;

    closed spec fn view(&self) -> Swatches {
        Swatches {
            colors: self.palette@,
            known: self.color_index_hash_map@.dom(),
            editing: self.editing,
        }
    }
}

impl Palette {
    /// The colour at position `idx`.
    pub fn get_color(&self, idx: usize) -> (color: Color)
        requires
            idx < self@.colors.len(),
        ensures
            color == self@.colors[idx as int],
    {
        self.palette[idx]
    }

    /// Appends `color` unless the palette knows it already.
    pub fn add_color(&mut self, color: Color)
        ensures
            final(self)@ == old(self)@.add(color),
    {
        if !self.contains_color(color) {
            self.palette.push(color);
            self.color_index_hash_map.insert(color.pack(), self.palette.len());
        }
    }

    /// Takes the colour at position `idx` out of the palette.
    pub fn delete_color(&mut self, idx: usize)
        requires
            idx < old(self)@.colors.len(),
        ensures
            final(self)@ == old(self)@.delete(idx as int),
    {
        let color = self.palette.remove(idx);
        let key = color.pack();
        self.color_index_hash_map.remove(&key);
        let ghost start = self@.known;
        let ghost rest = self.palette@.subrange(idx as int, self.palette.len() as int);
        assert(rest =~= old(self).palette@.subrange(idx + 1, old(self).palette.len() as int));
        assert(start =~= old(self)@.known.remove(color.key()));
        let count = self.palette.len() - idx;
        assert(start =~= start + keys_of(rest.subrange(0, 0)));
        for i in 0..count
            invariant
                count == self.palette.len() - idx,
                idx <= self.palette.len(),
                self.editing == old(self).editing,
                self.palette@ == old(self).palette@.remove(idx as int),
                rest == self.palette@.subrange(idx as int, self.palette.len() as int),
                self@.known == start + keys_of(rest.subrange(0, i as int)),
        {
            let c = self.palette[idx + i];
            self.color_index_hash_map.insert(c.pack(), i);
            proof {
                lemma_keys_grow(rest, i as int);
                assert(self@.known =~= start + keys_of(rest.subrange(0, i + 1)));
            }
        }
        assert(rest.subrange(0, count as int) =~= rest);
    }

    /// Whether the palette knows `color`.
    pub fn contains_color(&self, color: Color) -> (known: bool)
        ensures
            known == self@.known.contains(color.key()),
    {
        let key = color.pack();
        self.color_index_hash_map.contains_key(&key)
    }

    /// The palette of the colours of `colors`, all of them known.
    fn index_colors(colors: &Vec<Color>) -> (map: HashMap<u32, usize>)
        ensures
            map@.dom() == keys_of(colors@),
    {
        let mut map: HashMap<u32, usize> = HashMap::with_capacity(colors.len());
        assert(map@.dom() =~= keys_of(colors@.subrange(0, 0)));
        for i in 0..colors.len()
            invariant
                map@.dom() == keys_of(colors@.subrange(0, i as int)),
        {
            let c = colors[i];
            map.insert(c.pack(), i);
            proof {
                lemma_keys_grow(colors@, i as int);
                assert(map@.dom() =~= keys_of(colors@.subrange(0, i + 1)));
            }
        }
        assert(colors@.subrange(0, colors.len() as int) =~= colors@);
        map
    }
}

impl Default for Palette {
    /// White and black, both known.
    fn default() -> (palette: Self)
        ensures
            palette@ == Swatches::listing(seq![Color::rgb(255, 255, 255), Color::rgb(0, 0, 0)]),
    {
        let mut palette: Vec<Color> = Vec::new();
        palette.push(Color::from_rgb(255, 255, 255));
        palette.push(Color::from_rgb(0, 0, 0));
        assert(palette@ =~= seq![Color::rgb(255, 255, 255), Color::rgb(0, 0, 0)]);
        let color_index_hash_map = Palette::index_colors(&palette);
        Self { palette, color_index_hash_map, editing: false }
    }
}

impl From<Vec<Color>> for Palette {
    /// The palette of the colours of `value`, all of them known.
    fn from(value: Vec<Color>) -> (palette: Self)
        ensures
            palette@ == Swatches::listing(value@),
    {
        let color_index_hash_map = Palette::index_colors(&value);
        Self { palette: value, color_index_hash_map, editing: false }
    }
}

impl FromSpecImpl<Vec<Color>> for Palette {
    open spec fn obeys_from_spec() -> bool {
        false
    }

    open spec fn from_spec(value: Vec<Color>) -> Self {
        arbitrary()
    }
}

impl From<&Vec<Color>> for Palette {
    /// The palette of the colours of `value`, all of them known.
    fn from(value: &Vec<Color>) -> (palette: Self)
        ensures
            palette@ == Swatches::listing(value@),
    {
        let color_index_hash_map = Palette::index_colors(value);
        let mut palette: Vec<Color> = Vec::with_capacity(value.len());
        for i in 0..value.len()
            invariant
                palette@ == value@.subrange(0, i as int),
        {
            palette.push(value[i]);
            assert(palette@ =~= value@.subrange(0, i + 1));
        }
        assert(palette@ =~= value@);
        Self { palette, color_index_hash_map, editing: false }
    }
}

impl FromSpecImpl<&Vec<Color>> for Palette {
    open spec fn obeys_from_spec() -> bool {
        false
    }

    open spec fn from_spec(value: &Vec<Color>) -> Self {
        arbitrary()
    }
}

/// The part of a pen that is kept between sessions: the glyph and the two
/// colours, without their alpha.
#[derive(Debug)]
pub struct StoragePen {
    pub idx: usize,
    pub fc: [u8; 3],
    pub bc: [u8; 3],
}

impl Default for StoragePen {
    /// Glyph 0 in white on black.
    fn default() -> (pen: Self)
        ensures
            pen.idx == 0,
            pen.fc@ == seq![255u8, 255u8, 255u8],
            pen.bc@ == seq![0u8, 0u8, 0u8],
    {
        let pen = StoragePen { idx: 0, fc: [255, 255, 255], bc: [0, 0, 0] };
        assert(pen.fc@ =~= seq![255u8, 255u8, 255u8]);
        assert(pen.bc@ =~= seq![0u8, 0u8, 0u8]);
        pen
    }
}

/// The pen: what it draws, with which tool, and the state of the colour
/// editor and the palette that belong to it.
pub struct PencilState {
    pub idx: usize,
    pub fc: Color,
    pub bc: Color,
    pub palette: Palette,
    pub fc_activate: bool,
    pub bc_activate: bool,
    pub state: ColorEditerState,
    pub old_color: Color,
    pub text: String,
    pub editing: EditingColor,
    pub is_gray: bool,
    pub tool: ToolEnum,
    pub start_xy: Option<(usize, usize)>,
    pub to_xy: Option<(usize, usize)>,
}

pub const PALETTE_X: usize = 6;

pub const PALETTE_Y: usize = 4;

/// The opaque colour that `egui::Color32::to_opaque` gives for `color`. The
/// conversion goes through floating point; all that is claimed of it is that
/// the result has full alpha.
#[verifier::external_body]
fn to_opaque(color: Color) -> (opaque: Color)
    ensures
        opaque.a == 255,
{
    let [r, g, b, a] =
        egui::Color32::from_rgba_premultiplied(color.r, color.g, color.b, color.a).to_opaque().to_array();
    Color { r, g, b, a }
}

impl StoragePen {
    /// The stored form of a pen with glyph `idx` whose colours, made
    /// opaque, are `fc` and `bc`.
    pub fn from_parts(idx: usize, fc: Color, bc: Color) -> (pen: Self)
        ensures
            pen.idx == idx,
            pen.fc@ == seq![fc.r, fc.g, fc.b],
            pen.bc@ == seq![bc.r, bc.g, bc.b],
    {
        let pen = Self { idx, fc: [fc.r, fc.g, fc.b], bc: [bc.r, bc.g, bc.b] };
        assert(pen.fc@ =~= seq![fc.r, fc.g, fc.b]);
        assert(pen.bc@ =~= seq![bc.r, bc.g, bc.b]);
        pen
    }
}

impl From<StoragePen> for PencilState {
    /// The default pen with the glyph and the colours of `value`.
    fn from(value: StoragePen) -> (pen: Self)
        ensures
            pen.idx == value.idx,
            pen.fc == Color::rgb(value.fc[0], value.fc[1], value.fc[2]),
            pen.bc == Color::rgb(value.bc[0], value.bc[1], value.bc[2]),
            pen.is_default_but_for_drawing(),
    {
        let mut r = Self::default();
        r.idx = value.idx;
        r.fc = Color::from_rgb(value.fc[0], value.fc[1], value.fc[2]);
        r.bc = Color::from_rgb(value.bc[0], value.bc[1], value.bc[2]);
        r
    }
}

impl FromSpecImpl<StoragePen> for PencilState {
    open spec fn obeys_from_spec() -> bool {
        false
    }

    open spec fn from_spec(value: StoragePen) -> Self {
        arbitrary()
    }
}

impl From<&PencilState> for StoragePen {
    /// The stored form of `value`: its glyph, and its colours as the
    /// outside conversion to an opaque colour gives them.
    fn from(value: &PencilState) -> (pen: Self)
        ensures
            pen.idx == value.idx,
    {
        let fc = to_opaque(value.fc);
        let bc = to_opaque(value.bc);
        StoragePen::from_parts(value.idx, fc, bc)
    }
}

impl FromSpecImpl<&PencilState> for StoragePen {
    open spec fn obeys_from_spec() -> bool {
        false
    }

    open spec fn from_spec(value: &PencilState) -> Self {
        arbitrary()
    }
}

impl From<PencilState> for StoragePen {
    /// The stored form of `value`: its glyph, and its colours as the
    /// outside conversion to an opaque colour gives them.
    fn from(value: PencilState) -> (pen: Self)
        ensures
            pen.idx == value.idx,
    {
        let fc = to_opaque(value.fc);
        let bc = to_opaque(value.bc);
        StoragePen::from_parts(value.idx, fc, bc)
    }
}

impl FromSpecImpl<PencilState> for StoragePen {
    open spec fn obeys_from_spec() -> bool {
        false
    }

    open spec fn from_spec(value: PencilState) -> Self {
        arbitrary()
    }
}

impl Default for PencilState {
    /// Glyph 0 in white on black, both colours active, the pencil as tool,
    /// and the default palette.
    fn default() -> (pen: Self)
        ensures
            pen.idx == 0,
            pen.fc == Color::rgb(255, 255, 255),
            pen.bc == Color::rgb(0, 0, 0),
            pen.is_default_but_for_drawing(),
    {
        Self {
            idx: 0,
            fc: Color::from_rgb(255, 255, 255),
            bc: Color::from_rgb(0, 0, 0),
            fc_activate: true,
            bc_activate: true,
            state: ColorEditerState::RGB,
            old_color: Color::from_rgb(255, 255, 255),
            text: String::new(),
            editing: EditingColor::FORE,
            is_gray: false,
            palette: Palette::default(),
            tool: ToolEnum::Pencil,
            start_xy: None,
            to_xy: None,
        }
    }
}

impl PencilState {
    /// Everything but the glyph and the two colours is as in a new pen.
    pub open spec fn is_default_but_for_drawing(&self) -> bool {
        &&& self.fc_activate
        &&& self.bc_activate
        &&& self.state == ColorEditerState::RGB
        &&& self.old_color == Color::rgb(255, 255, 255)
        &&& self.text@ == Seq::<char>::empty()
        &&& self.editing == EditingColor::FORE
        &&& !self.is_gray
        &&& self.palette@ == Swatches::listing(seq![Color::rgb(255, 255, 255), Color::rgb(0, 0, 0)])
        &&& self.tool == ToolEnum::Pencil
        &&& self.start_xy is None
        &&& self.to_xy is None
    }

    /// The colours a pen in this state gives a cell that holds `cell`: none
    /// when neither colour is active; the pen's own on an empty cell; else
    /// the pen's colour where it is active and the cell's where it is not.
    pub open spec fn colors_for(&self, cell: Option<TileState>) -> Option<(Color, Color)> {
        if !self.fc_activate && !self.bc_activate {
            None
        } else {
            match cell {
                None => Some((self.fc, self.bc)),
                Some(tile) => Some(
                    (
                        if self.fc_activate {
                            self.fc
                        } else {
                            tile.fc
                        },
                        if self.bc_activate {
                            self.bc
                        } else {
                            tile.bc
                        },
                    ),
                ),
            }
        }
    }

    /// The tile a pen in this state draws on a cell that holds `cell`, or
    /// nothing when neither colour is active.
    pub open spec fn tile_for(&self, cell: Option<TileState>) -> Option<TileState> {
        match self.colors_for(cell) {
            Some((fc, bc)) => Some(TileState { idx: self.idx, fc, bc }),
            None => None,
        }
    }

    /// The tile a pen in this state draws with its colours exchanged.
    pub open spec fn swapped_tile(&self) -> Option<TileState> {
        Some(TileState { idx: self.idx, fc: self.bc, bc: self.fc })
    }

    /// The colour that the editor works on.
    pub open spec fn edited(&self) -> Color {
        if self.editing == EditingColor::FORE {
            self.fc
        } else {
            self.bc
        }
    }

    /// This pen with `color` in place of the colour that the editor works
    /// on.
    pub open spec fn with_edited(&self, color: Color) -> PencilState {
        if self.editing == EditingColor::FORE {
            PencilState { fc: color, ..*self }
        } else {
            PencilState { bc: color, ..*self }
        }
    }

    /// The colour that the editor works on.
    pub fn editing_color(&self) -> (color: Color)
        ensures
            color == self.edited(),
    {
        if self.editing == EditingColor::FORE {
            self.fc
        } else {
            self.bc
        }
    }

    /// Replaces the colour that the editor works on.
    pub fn set_editing_color(&mut self, color: Color)
        ensures
            *final(self) == old(self).with_edited(color),
    {
        if self.editing == EditingColor::FORE {
            self.fc = color;
        } else {
            self.bc = color;
        }
    }

    /// The user opened the editor: the text shows the edited colour, which
    /// is also kept as the colour to go back to.
    pub fn begin_edit(&mut self)
        ensures
            final(self).text@ == hex_text(old(self).edited()),
            *final(self) == (PencilState {
                text: final(self).text,
                old_color: old(self).edited(),
                ..*old(self)
            }),
    {
        let color = self.editing_color();
        update_text(&mut self.text, &color);
        self.old_color = color;
    }

    /// The user left the text field: where the text spells a colour, that
    /// colour is taken and the text shows it in full; else nothing changes.
    pub fn commit_text(&mut self)
        ensures
            hex_color(old(self).text@) is None ==> *final(self) == *old(self),
            hex_color(old(self).text@) is Some ==> final(self).text@ == hex_text(
                hex_color(old(self).text@)->0,
            ) && *final(self) == (PencilState {
                text: final(self).text,
                ..old(self).with_edited(hex_color(old(self).text@)->0)
            }),
    {
        if let Some(color) = parse_hex_color(self.text.as_str()) {
            self.set_editing_color(color);
            update_text(&mut self.text, &color);
        }
    }

    /// The user switched the editor to the pen's other colour: that colour
    /// is edited from now on, and is kept as the colour to go back to.
    pub fn switch_editing(&mut self)
        ensures
            final(self).editing != old(self).editing,
            final(self).old_color == final(self).edited(),
            *final(self) == (PencilState {
                editing: final(self).editing,
                old_color: final(self).old_color,
                ..*old(self)
            }),
    {
        if self.editing == EditingColor::FORE {
            self.editing = EditingColor::BACK;
            self.old_color = self.bc;
        } else {
            self.editing = EditingColor::FORE;
            self.old_color = self.fc;
        }
    }

    /// The user cancelled the edit: the edited colour is what it was when
    /// the editor was opened.
    pub fn cancel_edit(&mut self)
        ensures
            *final(self) == old(self).with_edited(old(self).old_color),
    {
        let color = self.old_color;
        self.set_editing_color(color);
    }

    /// The colours of the palette.
    pub fn palette_vec_ref(&self) -> (colors: &Vec<Color>)
        ensures
            colors@ == self.palette@.colors,
    {
        &self.palette.palette
    }

    /// Exchanges the two colours and shows the editor in RGB.
    pub fn swap_fc_bc(&mut self)
        ensures
            *final(self) == (PencilState {
                fc: old(self).bc,
                bc: old(self).fc,
                state: ColorEditerState::RGB,
                ..*old(self)
            }),
    {
        std::mem::swap(&mut self.fc, &mut self.bc);
        self.state = ColorEditerState::RGB;
    }

    /// The foreground and background that the pen gives a cell that holds
    /// `cell`.
    pub fn get_fc_bc(&self, cell: &Option<TileState>) -> (colors: Option<(Color, Color)>)
        ensures
            colors == self.colors_for(*cell),
    {
        if !self.fc_activate && !self.bc_activate {
            None
        } else if *cell == None {
            Some((self.fc, self.bc))
        } else {
            Some(
                (
                    if self.fc_activate {
                        self.fc
                    } else {
                        cell.unwrap().fc
                    },
                    if self.bc_activate {
                        self.bc
                    } else {
                        cell.unwrap().bc
                    },
                ),
            )
        }
    }

    /// Takes the colour at position `idx` out of the palette.
    pub fn delete_color(&mut self, idx: usize)
        requires
            idx < old(self).palette@.colors.len(),
        ensures
            final(self).palette@ == old(self).palette@.delete(idx as int),
            *final(self) == (PencilState { palette: final(self).palette, ..*old(self) }),
    {
        self.palette.delete_color(idx);
    }

    /// A click on the palette colour at `idx`: while the palette is being
    /// edited the colour is to be deleted, and its position is returned;
    /// else it becomes the foreground colour.
    pub fn do_click_color_action(&mut self, idx: usize) -> (delete: Option<usize>)
        requires
            !old(self).palette@.editing ==> idx < old(self).palette@.colors.len(),
        ensures
            old(self).palette@.editing ==> delete == Some(idx) && *final(self) == *old(self),
            !old(self).palette@.editing ==> delete is None && *final(self) == (PencilState {
                fc: old(self).palette@.colors[idx as int],
                ..*old(self)
            }),
    {
        if self.palette.editing {
            Some(idx)
        } else {
            self.fc = self.palette.get_color(idx);
            None
        }
    }

    /// A secondary click on the palette colour at `idx`: while the palette
    /// is being edited the colour is to be deleted, and its position is
    /// returned; else it becomes the background colour.
    pub fn do_secondary_click_color_action(&mut self, idx: usize) -> (delete: Option<usize>)
        requires
            !old(self).palette@.editing ==> idx < old(self).palette@.colors.len(),
        ensures
            old(self).palette@.editing ==> delete == Some(idx) && *final(self) == *old(self),
            !old(self).palette@.editing ==> delete is None && *final(self) == (PencilState {
                bc: old(self).palette@.colors[idx as int],
                ..*old(self)
            }),
    {
        if self.palette.editing {
            Some(idx)
        } else {
            self.bc = self.palette.get_color(idx);
            None
        }
    }

    /// The palette colour at position `idx`.
    pub fn get_color(&self, idx: usize) -> (color: Color)
        requires
            idx < self.palette@.colors.len(),
        ensures
            color == self.palette@.colors[idx as int],
    {
        self.palette.get_color(idx)
    }

    /// The number of colours in the palette.
    pub fn palette_len(&self) -> (len: usize)
        ensures
            len == self.palette@.colors.len(),
    {
        self.palette.palette.len()
    }

    /// The tile that the pen draws on a cell that holds `origin_state`.
    pub fn into_tile_state(&self, origin_state: &Option<TileState>) -> (tile: Option<TileState>)
        ensures
            tile == self.tile_for(*origin_state),
    {
        if let Some((fc, bc)) = self.get_fc_bc(origin_state) {
            Some(TileState { idx: self.idx, fc, bc })
        } else {
            None
        }
    }

    /// The tile that the pen draws with its colours exchanged.
    pub fn swap_color_and_into(&self) -> (tile: Option<TileState>)
        ensures
            tile == self.swapped_tile(),
    {
        Some(TileState { idx: self.idx, fc: self.bc, bc: self.fc })
    }
}

} // verus!
