//! Filters on the size and the orientation of images, and the texts in
//! which they are given.

use vstd::prelude::*;
use crate::number::{scaled, scaled_value};
use crate::text::{
    append, chars_of, decimal_value, lowercase_of, parse_decimal, same_chars, split_whitespace,
    string_of, texts_of, trim, trim_end_matches, trimmed, uppercase_of, without_trailing,
    words_of,
};

verus! {

/// The shape of an image.
#[derive(Debug, Clone, Copy, PartialEq, Eq, Structural)]
pub enum ImageOrientation {
    /// Wider than tall.
    Landscape,
    /// Taller than wide.
    Portrait,
    /// About as wide as tall.
    Square,
}

/// What is known of an image.
#[derive(Debug, Clone)]
pub struct ImageFeatures {
    pub width: u32,
    pub height: u32,
    pub file_size: u64,
    /// The colour at the centre of the image.
    pub dominant_color: String,
    pub orientation: ImageOrientation,
}

/// The bounds that an image has to meet; a bound that is none is not set.
#[derive(Debug, Clone, Copy, PartialEq, Eq, Structural)]
pub struct FilterConfig {
    pub min_width: Option<u32>,
    pub max_width: Option<u32>,
    pub min_height: Option<u32>,
    pub max_height: Option<u32>,
    pub min_file_size: Option<u64>,
    pub max_file_size: Option<u64>,
    pub orientation: Option<ImageOrientation>,
}

/// Why a filter text could not be read.
#[derive(Debug, Clone, Copy, PartialEq, Eq, Structural)]
pub enum FilterError {
    /// The text names no orientation.
    InvalidOrientation,
    /// The text is no size: what stands before its unit is no number.
    InvalidFileSize,
}

/// Whether a value is at least an optional lower bound.
pub open spec fn meets_min(value: int, bound: Option<int>) -> bool {
    match bound {
        Some(b) => value >= b,
        None => true,
    }
}

/// Whether a value is at most an optional upper bound.
pub open spec fn meets_max(value: int, bound: Option<int>) -> bool {
    match bound {
        Some(b) => value <= b,
        None => true,
    }
}

/// An optional 32-bit bound as a number.
pub open spec fn bound32(b: Option<u32>) -> Option<int> {
    match b {
        Some(v) => Some(v as int),
        None => None,
    }
}

/// An optional 64-bit bound as a number.
pub open spec fn bound64(b: Option<u64>) -> Option<int> {
    match b {
        Some(v) => Some(v as int),
        None => None,
    }
}

impl Default for FilterConfig {
    /// No bound set.
    fn default() -> (c: FilterConfig)
        ensures
            c == (FilterConfig {
                min_width: None,
                max_width: None,
                min_height: None,
                max_height: None,
                min_file_size: None,
                max_file_size: None,
                orientation: None,
            }),
    {
        FilterConfig {
            min_width: None,
            max_width: None,
            min_height: None,
            max_height: None,
            min_file_size: None,
            max_file_size: None,
            orientation: None,
        }
    }
}

impl FilterConfig {
    /// Whether an image meets every bound that is set.
    pub open spec fn admits(&self, f: ImageFeatures) -> bool {
        &&& meets_min(f.width as int, bound32(self.min_width))
        &&& meets_max(f.width as int, bound32(self.max_width))
        &&& meets_min(f.height as int, bound32(self.min_height))
        &&& meets_max(f.height as int, bound32(self.max_height))
        &&& meets_min(f.file_size as int, bound64(self.min_file_size))
        &&& meets_max(f.file_size as int, bound64(self.max_file_size))
        &&& match self.orientation {
            Some(o) => f.orientation == o,
            None => true,
        }
    }

    /// Tests whether an image meets every bound that is set.
    pub fn matches(&self, features: &ImageFeatures) -> (b: bool)
        ensures
            b == self.admits(*features),
    {
        if let Some(min_w) = self.min_width {
            if features.width < min_w {
                return false;
            }
        }
        if let Some(max_w) = self.max_width {
            if features.width > max_w {
                return false;
            }
        }
        if let Some(min_h) = self.min_height {
            if features.height < min_h {
                return false;
            }
        }
        if let Some(max_h) = self.max_height {
            if features.height > max_h {
                return false;
            }
        }
        if let Some(min_size) = self.min_file_size {
            if features.file_size < min_size {
                return false;
            }
        }
        if let Some(max_size) = self.max_file_size {
            if features.file_size > max_size {
                return false;
            }
        }
        if let Some(orient) = self.orientation {
            if features.orientation != orient {
                return false;
            }
        }
        true
    }

    /// Tests whether any bound is set.
    pub fn is_active(&self) -> (b: bool)
        ensures
            b == (self.min_width is Some || self.max_width is Some || self.min_height is Some
                || self.max_height is Some || self.min_file_size is Some || self.max_file_size
                is Some || self.orientation is Some),
    {
        self.min_width.is_some() || self.max_width.is_some() || self.min_height.is_some()
            || self.max_height.is_some() || self.min_file_size.is_some()
            || self.max_file_size.is_some() || self.orientation.is_some()
    }
}

/// The orientation that a word in lower case names.
pub open spec fn orientation_named(lower: Seq<char>) -> Option<ImageOrientation> {
    if lower == "landscape"@ || lower == "horizontal"@ || lower == "h"@ {
        Some(ImageOrientation::Landscape)
    } else if lower == "portrait"@ || lower == "vertical"@ || lower == "v"@ {
        Some(ImageOrientation::Portrait)
    } else if lower == "square"@ || lower == "s"@ {
        Some(ImageOrientation::Square)
    } else {
        None
    }
}

fn is_word(s: &Vec<char>, word: &str) -> (b: bool)
    ensures
        b == (s@ == word@),
{
    let w = chars_of(word);
    same_chars(s, &w)
}

/// Reads a word in lower case as an orientation.
pub fn orientation_from_keyword(lower: &str) -> (r: Option<ImageOrientation>)
    ensures
        r == orientation_named(lower@),
{
    let s = chars_of(lower);
    if is_word(&s, "landscape") || is_word(&s, "horizontal") || is_word(&s, "h") {
        Some(ImageOrientation::Landscape)
    } else if is_word(&s, "portrait") || is_word(&s, "vertical") || is_word(&s, "v") {
        Some(ImageOrientation::Portrait)
    } else if is_word(&s, "square") || is_word(&s, "s") {
        Some(ImageOrientation::Square)
    } else {
        None
    }
}

/// Reads an orientation, in whatever case it is written.
pub fn parse_orientation(s: &str) -> (r: Result<ImageOrientation, FilterError>)
    ensures
        match r {
            Ok(o) => orientation_named(lowercase_of(s@)) == Some(o),
            Err(e) => orientation_named(lowercase_of(s@)) is None && e
                == FilterError::InvalidOrientation,
        },
{
    let lower = s.to_lowercase();
    match orientation_from_keyword(lower.as_str()) {
        Some(o) => Ok(o),
        None => Err(FilterError::InvalidOrientation),
    }
}

/// What the user is told of a text that names no orientation.
pub fn invalid_orientation_message(input: &str) -> (text: String)
    ensures
        text@ == "Invalid orientation: "@ + input@ + ". Use: landscape, portrait, or square"@,
{
    let mut out = chars_of("Invalid orientation: ");
    append(&mut out, &chars_of(input));
    append(&mut out, &chars_of(". Use: landscape, portrait, or square"));
    string_of(&out)
}

/// The size that the words of a text tell: the first two, both numbers.
pub open spec fn dimensions_of(words: Seq<Seq<char>>) -> Option<(u32, u32)> {
    if words.len() >= 2 {
        match (
            decimal_value(words[0], u32::MAX as nat),
            decimal_value(words[1], u32::MAX as nat),
        ) {
            (Some(w), Some(h)) => Some((w as u32, h as u32)),
            _ => None,
        }
    } else {
        None
    }
}

/// Reads width and height from a text that gives them as its first two
/// words.
pub fn parse_dimensions(text: &str) -> (r: Option<(u32, u32)>)
    ensures
        r == dimensions_of(words_of(text@)),
{
    let chars = chars_of(text);
    let words = split_whitespace(&chars);
    if words.len() < 2 {
        return None;
    }
    assert(texts_of(words@)[0] == words@[0]@);
    assert(texts_of(words@)[1] == words@[1]@);
    let w = parse_decimal(&words[0], u32::MAX as u64);
    let h = parse_decimal(&words[1], u32::MAX as u64);
    match (w, h) {
        (Some(w), Some(h)) => Some((w as u32, h as u32)),
        _ => None,
    }
}

/// A size text without the `B` that may end it.
pub open spec fn without_byte_mark(upper: Seq<char>) -> Seq<char> {
    if upper.len() > 0 && upper.last() == 'B' {
        upper.drop_last()
    } else {
        upper
    }
}

/// The number of a size text: what is left when every trailing `K`, then
/// every trailing `M`, `G` and `T` is taken away.
pub open spec fn size_number(marked: Seq<char>) -> Seq<char> {
    without_trailing(
        without_trailing(
            without_trailing(without_trailing(marked, seq!['K']), seq!['M']),
            seq!['G'],
        ),
        seq!['T'],
    )
}

/// The factor that the unit of a size text stands for: powers of 1024 for
/// `K`, `M`, `G` and `T`, one without a unit.
pub open spec fn size_multiplier(marked: Seq<char>) -> u64 {
    if marked.len() == 0 {
        1
    } else if marked.last() == 'K' {
        1024
    } else if marked.last() == 'M' {
        1_048_576
    } else if marked.last() == 'G' {
        1_073_741_824
    } else if marked.last() == 'T' {
        1_099_511_627_776
    } else {
        1
    }
}

/// Takes a size text in upper case apart: the text of its number and the
/// factor of its unit.
pub fn size_parts_of(upper: &str) -> (parts: (String, u64))
    ensures
        parts.0@ == size_number(without_byte_mark(upper@)),
        parts.1 == size_multiplier(without_byte_mark(upper@)),
{
    let chars = chars_of(upper);
    let marked: Vec<char> = if chars.len() > 0 && chars[chars.len() - 1] == 'B' {
        let cut = crate::text::slice_of(&chars, 0, chars.len() - 1);
        assert(cut@ == chars@.drop_last());
        cut
    } else {
        chars
    };
    let k = vec!['K'];
    assert(k@ == seq!['K']);
    let m = vec!['M'];
    assert(m@ == seq!['M']);
    let g = vec!['G'];
    assert(g@ == seq!['G']);
    let t = vec!['T'];
    assert(t@ == seq!['T']);
    let number = trim_end_matches(&marked, &k);
    let number = trim_end_matches(&number, &m);
    let number = trim_end_matches(&number, &g);
    let number = trim_end_matches(&number, &t);
    let multiplier: u64 = if marked.len() == 0 {
        1
    } else {
        let unit: char = marked[marked.len() - 1];
        if unit == 'K' {
            1024
        } else if unit == 'M' {
            1_048_576
        } else if unit == 'G' {
            1_073_741_824
        } else if unit == 'T' {
            1_099_511_627_776
        } else {
            1
        }
    };
    (string_of(&number), multiplier)
}

/// Takes a size text such as `100K` or `1.5MB` apart: the text of its
/// number and the factor of its unit. Case and the white space around the
/// text do not count.
pub fn file_size_parts(s: &str) -> (parts: (String, u64))
    ensures
        parts.0@ == size_number(without_byte_mark(uppercase_of(trimmed(s@)))),
        parts.1 == size_multiplier(without_byte_mark(uppercase_of(trimmed(s@)))),
{
    let chars = chars_of(s);
    let bare = string_of(&trim(&chars));
    let upper = bare.as_str().to_uppercase();
    size_parts_of(upper.as_str())
}

/// The size in bytes that a number text stands for with a unit of
/// `multiplier` bytes: the product, rounded down to whole bytes and no
/// larger than the largest size. None for a text that is no number.
pub open spec fn size_of_number(number: Seq<char>, multiplier: u64) -> Option<u64> {
    scaled_value(number, multiplier)
}

/// Computes the size that a number text stands for with a unit.
pub fn scaled_size(number: &str, multiplier: u64) -> (r: Option<u64>)
    ensures
        r == size_of_number(number@, multiplier),
{
    scaled(number, multiplier)
}

/// Reads a size such as `100`, `100K` or `1.5MB` as a number of bytes:
/// the number times its unit, rounded down. The number is written as a
/// decimal number, with or without a point and an exponent. Case and the
/// white space around the text do not count.
pub fn parse_file_size(s: &str) -> (r: Result<u64, FilterError>)
    ensures
        match r {
            Ok(size) => size_of_number(
                size_number(without_byte_mark(uppercase_of(trimmed(s@)))),
                size_multiplier(without_byte_mark(uppercase_of(trimmed(s@)))),
            ) == Some(size),
            Err(e) => e == FilterError::InvalidFileSize && size_of_number(
                size_number(without_byte_mark(uppercase_of(trimmed(s@)))),
                size_multiplier(without_byte_mark(uppercase_of(trimmed(s@)))),
            ) is None,
        },
{
    let parts = file_size_parts(s);
    match scaled_size(parts.0.as_str(), parts.1) {
        Some(size) => Ok(size),
        None => Err(FilterError::InvalidFileSize),
    }
}

} // verus!
