//! The colours of the chart, as the configuration writes them and as the
//! chart uses them.

use vstd::prelude::*;
use vstd::slice::slice_subrange;
use vstd::utf8::encode_utf8;

verus! {

/// The error of `hex::decode`, made known so that it can be handed on.
/// Nothing of what it holds is read.
#[verifier::external_type_specification]
#[verifier::external_body]
pub struct ExFromHexError(hex::FromHexError);

/// The colours as the configuration writes them: `#` and six hex digits
/// each, or nothing for the terminal's own colour.
#[derive(Clone, Debug)]
pub struct Style {
    pub fg: Option<String>,
    pub bg: Option<String>,
}

/// A colour by its red, green and blue parts.
#[derive(Clone, Copy, Debug, PartialEq, Eq, Structural)]
pub struct Rgb {
    pub red: u8,
    pub green: u8,
    pub blue: u8,
}

/// The colours as the chart uses them.
#[derive(Clone, Copy, Debug)]
pub struct BarStyle {
    pub fg: Option<Rgb>,
    pub bg: Option<Rgb>,
}

/// Why a colour of the configuration cannot be used.
#[derive(Clone, Copy, Debug, PartialEq, Eq, Structural)]
pub enum StyleError {
    /// The text is not seven bytes long or does not start with `#`.
    ImproperHexFormat,
    /// One of the six bytes after the `#` is not a hex digit: `byte` is
    /// the first such, and `index` counts the digits before it.
    InvalidHexDigit { byte: u8, index: usize },
}

/// The value of a hex digit, upper or lower case, given as a byte of text.
pub open spec fn digit_value(digit: u8) -> Option<u8> {
    if 0x30 <= digit <= 0x39 {
        Some((digit - 0x30) as u8)
    } else if 0x61 <= digit <= 0x66 {
        Some((digit - 0x61 + 10) as u8)
    } else if 0x41 <= digit <= 0x46 {
        Some((digit - 0x41 + 10) as u8)
    } else {
        None
    }
}

/// Whether `text` is an even number of hex digits.
pub open spec fn is_hex(text: Seq<u8>) -> bool {
    &&& text.len() % 2 == 0
    &&& forall|i: int| 0 <= i < text.len() ==> digit_value(#[trigger] text[i]) is Some
}

/// The bytes that the hex digits of `text` spell, two digits to a byte, the
/// high digit first.
pub open spec fn hex_bytes(text: Seq<u8>) -> Seq<u8> {
    Seq::new(
        text.len() / 2,
        |i: int|
            (digit_value(text[2 * i]).unwrap() * 16 + digit_value(text[2 * i + 1]).unwrap()) as u8,
    )
}

/// Whether `index` is the place of the first byte of `text` that is not a
/// hex digit.
pub open spec fn is_first_invalid(text: Seq<u8>, index: int) -> bool {
    &&& 0 <= index < text.len()
    &&& digit_value(text[index]) is None
    &&& forall|i: int| 0 <= i < index ==> digit_value(#[trigger] text[i]) is Some
}

/// The place of the first byte of `text` that is not a hex digit, or the
/// length of `text` where all are.
pub open spec fn first_invalid(text: Seq<u8>) -> int
    decreases text.len(),
{
    if text.len() == 0 || digit_value(text[0]) is None {
        0
    } else {
        1 + first_invalid(text.skip(1))
    }
}

/// The colour that the bytes of one entry of the configuration stand for.
pub open spec fn color_of(text: Option<Seq<u8>>) -> Result<Option<Rgb>, StyleError> {
    match text {
        None => Ok(None),
        Some(bytes) => if bytes.len() != 7 || bytes[0] != 0x23 {
            Err(StyleError::ImproperHexFormat)
        } else if !is_hex(bytes.subrange(1, 7)) {
            let index = first_invalid(bytes.subrange(1, 7));
            Err(StyleError::InvalidHexDigit { byte: bytes[index + 1], index: index as usize })
        } else {
            let parts = hex_bytes(bytes.subrange(1, 7));
            Ok(Some(Rgb { red: parts[0], green: parts[1], blue: parts[2] }))
        },
    }
}

/// The bytes of an entry of the configuration, where there is one.
pub open spec fn text_of(entry: Option<String>) -> Option<Seq<u8>> {
    match entry {
        None => None,
        Some(text) => Some(encode_utf8(text@)),
    }
}

/// The chart's colours for the two entries of the configuration: the first
/// error of the two, foreground before background, or both colours.
pub open spec fn bar_style_of(fg: Option<Seq<u8>>, bg: Option<Seq<u8>>) -> Result<
    BarStyle,
    StyleError,
> {
    match color_of(fg) {
        Err(error) => Err(error),
        Ok(fg_color) => match color_of(bg) {
            Err(error) => Err(error),
            Ok(bg_color) => Ok(BarStyle { fg: fg_color, bg: bg_color }),
        },
    }
}

/// `first_invalid` finds the first byte that is not a hex digit, where
/// there is one.
pub proof fn lemma_first_invalid(text: Seq<u8>)
    ensures
        0 <= first_invalid(text) <= text.len(),
        first_invalid(text) < text.len() ==> is_first_invalid(text, first_invalid(text)),
        first_invalid(text) == text.len() ==> forall|i: int|
            0 <= i < text.len() ==> digit_value(#[trigger] text[i]) is Some,
    decreases text.len(),
{
    if text.len() > 0 && digit_value(text[0]) is Some {
        let rest = text.skip(1);
        lemma_first_invalid(rest);
        assert forall|i: int| 0 <= i < first_invalid(text) implies digit_value(
            #[trigger] text[i],
        ) is Some by {
            if i > 0 {
                assert(text[i] == rest[i - 1]);
            }
        }
        if first_invalid(rest) < rest.len() {
            assert(text[first_invalid(text)] == rest[first_invalid(rest)]);
        }
    }
}

/// Finds the first byte of `text` that is not a hex digit.
fn find_invalid(text: &[u8]) -> (index: usize)
    ensures
        index == first_invalid(text@),
        index <= text.len(),
{
    let mut at: usize = 0;
    proof {
        lemma_first_invalid(text@);
    }
    while at < text.len()
        invariant
            at <= text.len(),
            forall|i: int| 0 <= i < at ==> digit_value(#[trigger] text@[i]) is Some,
            0 <= first_invalid(text@) <= text.len(),
            first_invalid(text@) < text.len() ==> is_first_invalid(text@, first_invalid(text@)),
            first_invalid(text@) == text.len() ==> forall|i: int|
                0 <= i < text.len() ==> digit_value(#[trigger] text@[i]) is Some,
        decreases text.len() - at,
    {
        let byte = text[at];
        let digit = (0x30 <= byte && byte <= 0x39) || (0x61 <= byte && byte <= 0x66) || (0x41
            <= byte && byte <= 0x46);
        if !digit {
            proof {
                let first = first_invalid(text@);
                assert(digit_value(text@[at as int]) is None);
                if first < at {
                    assert(digit_value(text@[first]) is Some);
                }
                if first > at {
                    if first < text.len() {
                        assert(digit_value(text@[at as int]) is Some);
                    }
                }
            }
            return at;
        }
        assert(digit_value(text@[at as int]) is Some);
        at += 1;
    }
    proof {
        let first = first_invalid(text@);
        if first < text.len() {
            assert(digit_value(text@[first]) is Some);
        }
    }
    at
}

/// Decodes hex digits into bytes.
///
/// Calls `hex::decode`. Taken on trust: that it succeeds exactly on an even
/// number of hex digits of either case, and then returns one byte for each
/// pair of digits, sixteen times the value of the first plus the value of
/// the second.
#[verifier::external_body]
fn decode_hex(text: &[u8]) -> (result: Result<Vec<u8>, hex::FromHexError>)
    ensures
        result is Ok <==> is_hex(text@),
        result matches Ok(bytes) ==> bytes@ == hex_bytes(text@),
{
    hex::decode(text)
}

impl Style {
    /// A style that leaves both colours to the terminal.
    pub fn new() -> (style: Style)
        ensures
            style.fg is None,
            style.bg is None,
    {
        Style { fg: None, bg: None }
    }

    /// Decodes one entry of the configuration.
    ///
    /// No entry is no colour. An entry must be `#` followed by six hex
    /// digits, which give red, green and blue, two digits each.
    pub fn decode_style_value(hex: &Option<String>) -> (result: Result<Option<Rgb>, StyleError>)
        ensures
            result == color_of(text_of(*hex)),
    {
        match hex {
            None => Ok(None),
            Some(text) => {
                let bytes = text.as_str().as_bytes();
                if bytes.len() != 7 || bytes[0] != 0x23 {
                    return Err(StyleError::ImproperHexFormat);
                }
                let digits = slice_subrange(bytes, 1, 7);
                match decode_hex(digits) {
                    Ok(parts) => Ok(Some(Rgb { red: parts[0], green: parts[1], blue: parts[2] })),
                    Err(_) => {
                        let index = find_invalid(digits);
                        proof {
                            lemma_first_invalid(digits@);
                        }
                        Err(StyleError::InvalidHexDigit { byte: bytes[index + 1], index })
                    },
                }
            },
        }
    }

    /// Decodes both colours, the foreground first.
    pub fn to_tui_style(&self) -> (result: Result<BarStyle, StyleError>)
        ensures
            result == bar_style_of(text_of(self.fg), text_of(self.bg)),
    {
        let fg = match Self::decode_style_value(&self.fg) {
            Ok(color) => color,
            Err(error) => {
                return Err(error);
            },
        };
        let bg = match Self::decode_style_value(&self.bg) {
            Ok(color) => color,
            Err(error) => {
                return Err(error);
            },
        };
        Ok(BarStyle { fg, bg })
    }
}

} // verus!
