//! What comes from the command line: colours written as hexadecimal
//! digits, and the commands of the history tool.

use vstd::prelude::*;
use vstd::slice::slice_index_get;
use vstd::string::{StringExecFns, StringSliceAdditionalSpecFns};
use crate::decimal::{decimal_digits, push_decimal};
use crate::history::{
    ascending, count_in, history_text, lists, update, write_history_file, HistoryItems,
};
use crate::ranking::{is_stable_sort_of, ranks, sort};
use crate::text::{join, joined, text_views};

verus! {

/// A colour as four channels of eight bits each: red, green, blue and
/// alpha.
#[derive(Clone, Copy, Debug, PartialEq, Eq, Structural)]
pub struct Rgba {
    pub r: u8,
    pub g: u8,
    pub b: u8,
    pub a: u8,
}

/// Why a text is not a colour.
#[derive(Clone, Copy, Debug, PartialEq, Eq, Structural)]
pub enum ColorError {
    /// The text has none of the lengths of a colour.
    Format,
    /// The text holds this byte where a hexadecimal digit belongs.
    Digit(u8),
}

impl ColorError {
    /// The error in words.
    pub open spec fn message_text(self) -> Seq<char> {
        match self {
            ColorError::Format => "format of color string should be '[#]RGB' or '[#]RRGGBB'"@,
            ColorError::Digit(byte) => "byte was not a proper hex field "@ + decimal_digits(
                byte as nat,
            ),
        }
    }

    /// The error in words.
    pub fn message(&self) -> (r: String)
        ensures
            r@ == self.message_text(),
    {
        match self {
            ColorError::Format => String::from_str(
                "format of color string should be '[#]RGB' or '[#]RRGGBB'",
            ),
            ColorError::Digit(byte) => {
                let mut text = String::from_str("byte was not a proper hex field ");
                push_decimal(&mut text, *byte as u64);
                text
            },
        }
    }
}

/// The value of the hexadecimal digit that the ASCII byte `b` writes, in
/// either letter case.
pub open spec fn hex_digit(b: u8) -> Option<u8> {
    if 0x30 <= b <= 0x39 {
        Some((b - 0x30) as u8)
    } else if 0x41 <= b <= 0x46 {
        Some((b - 0x41 + 10) as u8)
    } else if 0x61 <= b <= 0x66 {
        Some((b - 0x61 + 10) as u8)
    } else {
        None
    }
}

/// The value of the hexadecimal digit that the ASCII byte `b` writes, or
/// the byte itself where it writes none.
pub fn hex_from_ascii_byte(b: u8) -> (r: Result<u8, u8>)
    ensures
        match r {
            Ok(value) => hex_digit(b) == Some(value) && value < 16,
            Err(byte) => hex_digit(b) is None && byte == b,
        },
{
    if b >= 0x30 && b <= 0x39 {
        Ok(b - 0x30)
    } else if b >= 0x41 && b <= 0x46 {
        Ok(b - 0x41 + 10)
    } else if b >= 0x61 && b <= 0x66 {
        Ok(b - 0x61 + 10)
    } else {
        Err(b)
    }
}

/// The eight hexadecimal digits that `text` stands for, two for each of
/// red, green, blue and alpha. A text of three or four digits gives each
/// digit twice; without alpha digits the alpha is `ff`. One `#` may stand
/// in front of three, four, six or eight digits. Any other length gives
/// nothing.
pub open spec fn color_digits(text: Seq<u8>) -> Option<Seq<u8>> {
    let marked = text.len() > 0 && text[0] == 0x23 && (text.len() == 4 || text.len() == 5
        || text.len() == 7 || text.len() == 9);
    let body = if marked {
        text.skip(1)
    } else {
        text
    };
    if body.len() == 3 {
        Some(seq![body[0], body[0], body[1], body[1], body[2], body[2], 0x66u8, 0x66u8])
    } else if body.len() == 4 {
        Some(seq![body[0], body[0], body[1], body[1], body[2], body[2], body[3], body[3]])
    } else if body.len() == 6 {
        Some(seq![body[0], body[1], body[2], body[3], body[4], body[5], 0x66u8, 0x66u8])
    } else if body.len() == 8 {
        Some(body)
    } else {
        None
    }
}

/// The first byte of `digits` that writes no hexadecimal digit.
pub open spec fn first_bad_digit(digits: Seq<u8>) -> Option<u8>
    decreases digits.len(),
{
    if digits.len() == 0 {
        None
    } else if hex_digit(digits[0]) is None {
        Some(digits[0])
    } else {
        first_bad_digit(digits.drop_first())
    }
}

/// The channel that the two hexadecimal digits `high` and `low` write.
pub open spec fn channel(high: u8, low: u8) -> u8 {
    (hex_digit(high).unwrap() * 16 + hex_digit(low).unwrap()) as u8
}

/// The colour that the eight hexadecimal digits `digits` write, or the
/// first of them that is no digit.
pub open spec fn color_of_digits(digits: Seq<u8>) -> Result<Rgba, ColorError> {
    match first_bad_digit(digits) {
        Some(byte) => Err(ColorError::Digit(byte)),
        None => Ok(
            Rgba {
                r: channel(digits[0], digits[1]),
                g: channel(digits[2], digits[3]),
                b: channel(digits[4], digits[5]),
                a: channel(digits[6], digits[7]),
            },
        ),
    }
}

/// The colour that `text` writes, or why it writes none.
pub open spec fn color_of(text: Seq<u8>) -> Result<Rgba, ColorError> {
    match color_digits(text) {
        None => Err(ColorError::Format),
        Some(digits) => color_of_digits(digits),
    }
}

/// Joins two hexadecimal digits into one byte.
fn join_digits(high: u8, low: u8) -> (r: u8)
    requires
        high < 16,
        low < 16,
    ensures
        r == high * 16 + low,
{
    assert((high << 4 | low) == high * 16 + low) by (bit_vector)
        requires
            high < 16,
            low < 16,
    ;
    high << 4 | low
}

/// The eight hexadecimal digits that `bytes` stands for.
fn expand_color(bytes: &[u8]) -> (r: Option<[u8; 8]>)
    ensures
        match color_digits(bytes@) {
            Some(digits) => r matches Some(found) && found@ == digits,
            None => r is None,
        },
{
    let n = bytes.len();
    let marked = n > 0 && *slice_index_get(bytes, 0) == 0x23 && (n == 4 || n == 5 || n == 7 || n
        == 9);
    let start: usize = if marked { 1 } else { 0 };
    let count = n - start;
    let ghost body = if marked { bytes@.skip(1) } else { bytes@ };
    assert(forall|k: int| 0 <= k < count ==> body[k] == bytes@[start + k]);
    if count == 3 {
        let r = *slice_index_get(bytes, start);
        let g = *slice_index_get(bytes, start + 1);
        let b = *slice_index_get(bytes, start + 2);
        let found: [u8; 8] = [r, r, g, g, b, b, 0x66, 0x66];
        assert(found@ == color_digits(bytes@).unwrap());
        Some(found)
    } else if count == 4 {
        let r = *slice_index_get(bytes, start);
        let g = *slice_index_get(bytes, start + 1);
        let b = *slice_index_get(bytes, start + 2);
        let a = *slice_index_get(bytes, start + 3);
        let found: [u8; 8] = [r, r, g, g, b, b, a, a];
        assert(found@ == color_digits(bytes@).unwrap());
        Some(found)
    } else if count == 6 {
        let found: [u8; 8] = [
            *slice_index_get(bytes, start),
            *slice_index_get(bytes, start + 1),
            *slice_index_get(bytes, start + 2),
            *slice_index_get(bytes, start + 3),
            *slice_index_get(bytes, start + 4),
            *slice_index_get(bytes, start + 5),
            0x66,
            0x66,
        ];
        assert(found@ == color_digits(bytes@).unwrap());
        Some(found)
    } else if count == 8 {
        let found: [u8; 8] = [
            *slice_index_get(bytes, start),
            *slice_index_get(bytes, start + 1),
            *slice_index_get(bytes, start + 2),
            *slice_index_get(bytes, start + 3),
            *slice_index_get(bytes, start + 4),
            *slice_index_get(bytes, start + 5),
            *slice_index_get(bytes, start + 6),
            *slice_index_get(bytes, start + 7),
        ];
        assert(found@ == color_digits(bytes@).unwrap());
        Some(found)
    } else {
        None
    }
}

/// Reads the colour that eight hexadecimal digits write.
fn decode_color(digits: [u8; 8]) -> (r: Result<Rgba, ColorError>)
    ensures
        r == color_of_digits(digits@),
{
    let mut channels = digits;
    let mut i: usize = 0;
    assert(digits@.skip(0) == digits@);
    while i < 8
        invariant
            i <= 8,
            channels@.len() == 8,
            digits@.len() == 8,
            first_bad_digit(digits@) == first_bad_digit(digits@.skip(i as int)),
            forall|k: int| 0 <= k < i ==> hex_digit(digits@[k]) == Some(#[trigger] channels@[k]),
            forall|k: int| 0 <= k < i ==> #[trigger] channels@[k] < 16,
            forall|k: int| i <= k < 8 ==> #[trigger] channels@[k] == digits@[k],
        decreases 8 - i,
    {
        let ghost rest = digits@.skip(i as int);
        assert(rest[0] == digits@[i as int]);
        assert(rest.drop_first() == digits@.skip(i as int + 1));
        match hex_from_ascii_byte(channels[i]) {
            Ok(value) => {
                channels[i] = value;
            },
            Err(byte) => {
                return Err(ColorError::Digit(byte));
            },
        }
        i += 1;
    }
    assert(first_bad_digit(digits@.skip(8)) is None);
    Ok(
        Rgba {
            r: join_digits(channels[0], channels[1]),
            g: join_digits(channels[2], channels[3]),
            b: join_digits(channels[4], channels[5]),
            a: join_digits(channels[6], channels[7]),
        },
    )
}

/// Reads a colour written as `RGB`, `RGBA`, `RRGGBB` or `RRGGBBAA` in
/// hexadecimal digits of either case, with or without a `#` in front.
pub fn parse_color(src: &str) -> (r: Result<Rgba, ColorError>)
    ensures
        r == color_of(src.spec_bytes()),
{
    match expand_color(src.as_bytes()) {
        Some(digits) => decode_color(digits),
        None => Err(ColorError::Format),
    }
}

/// What the history tool is asked to do.
#[derive(Clone, Debug, PartialEq, Eq)]
pub enum Commands {
    /// Put `items` in the order of their use.
    Sort { items: Vec<String> },
    /// Count one more choice of `entry`.
    Update { entry: String },
}

/// What is left to do once a command has run.
#[derive(Clone, Debug, PartialEq, Eq)]
pub enum Effect {
    /// Print this text.
    Print(String),
    /// Keep this text as the history.
    Write(String),
}

/// An [`Effect`] as contracts see it.
pub ghost enum EffectView {
    Print(Seq<char>),
    Write(Seq<char>),
}

impl View for Effect {
    type V = EffectView;

    open spec fn view(&self) -> EffectView {
        match self {
            Effect::Print(text) => EffectView::Print(text@),
            Effect::Write(text) => EffectView::Write(text@),
        }
    }
}

impl Commands {
    /// Runs the command on `history_items`. Sorting leaves the history as
    /// it is and asks to print the items in the order of their use, one on
    /// each line. Updating counts one more choice of the entry and asks to
    /// keep the history that results.
    pub fn run(self, history_items: &mut HistoryItems) -> (r: Effect)
        requires
            self matches Commands::Update { entry } ==> count_in(old(history_items)@, entry@)
                < i32::MAX,
        ensures
            match self {
                Commands::Sort { items } => {
                    &&& final(history_items)@ == old(history_items)@
                    &&& exists|sorted: Seq<Seq<char>>|
                        is_stable_sort_of(
                            ranks(old(history_items)@, sorted),
                            ranks(old(history_items)@, text_views(items@)),
                        ) && r@ == EffectView::Print(joined(sorted, seq!['\n']))
                },
                Commands::Update { entry } => {
                    &&& final(history_items)@ == old(history_items)@.insert(
                        entry@,
                        (count_in(old(history_items)@, entry@) + 1) as i32,
                    )
                    &&& exists|order: Seq<Seq<char>>|
                        lists(order, final(history_items)@) && ascending(
                            order,
                            final(history_items)@,
                        ) && r@ == EffectView::Write(history_text(order, final(history_items)@))
                },
            },
    {
        match self {
            Commands::Sort { items } => {
                let mut items = items;
                sort(history_items, &mut items);
                proof {
                    reveal_strlit("\n");
                    assert("\n"@ == seq!['\n']);
                }
                Effect::Print(join(&items, "\n"))
            },
            Commands::Update { entry } => {
                update(history_items, entry);
                Effect::Write(write_history_file(history_items))
            },
        }
    }
}

} // verus!
