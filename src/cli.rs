//! The run's settings as plain values, and the readers for the argument forms that carry a
//! range or a side value.
use crate::range::{range_of, AnyRange, ParseAnyRangeError};
use crate::text::{chars_of, find_char, first_index, lemma_first_index, string_of, sub_chars};
use vstd::prelude::*;

verus! {

/// Everything a run is told: the target format, the output path, the number formatting, the
/// decoration rules, the merge direction and the input files with their side values.
#[derive(Debug, Clone)]
pub struct Args {
    pub to: OutTypes,
    pub out: Option<String>,
    pub precision: Option<u16>,
    pub decimal_sep: DecimalSeparator,
    pub exponent: bool,
    pub sign: bool,
    pub hline: bool,
    pub csv_sep: String,
    pub prefix: Vec<(AnyRange, String)>,
    pub suffix: Vec<(AnyRange, String)>,
    pub vertical: bool,
    pub files: Vec<(String, Option<String>)>,
}

/// The formats a merged table can be written in.
#[derive(Debug, Copy, Clone, PartialEq, Eq, Structural)]
pub enum OutTypes {
    Csv,
    Dat,
    Tex,
    Md,
    Json,
}

/// The character written between the integer and the fractional digits.
#[derive(Debug, Copy, Clone, Default, PartialEq, Eq, Structural)]
pub enum DecimalSeparator {
    #[default]
    Dot,
    Comma,
}

/// A decoration rule whose range part is not a range.
#[derive(Debug)]
pub enum ParseFixError {
    InvalidRange(ParseAnyRangeError),
}

/// The part of `s` before its first `:` (all of `s` where it has none).
pub open spec fn before_colon(s: Seq<char>) -> Seq<char> {
    s.subrange(0, first_index(s, ':') as int)
}

/// The part of `s` after its first `:`, if it has one.
pub open spec fn after_colon(s: Seq<char>) -> Option<Seq<char>> {
    let k = first_index(s, ':') as int;
    if k < s.len() {
        Some(s.subrange(k + 1, s.len() as int))
    } else {
        None
    }
}

/// Reads a decoration rule `<range>:<text>`. The text is everything after the first `:` and is
/// empty where there is no `:`; the range must follow the range grammar.
pub fn parse_fix(input: &str) -> (r: Result<(AnyRange, String), ParseFixError>)
    ensures
        match r {
            Ok((range, fix)) => range_of(before_colon(input@)) == Some(range) && fix@ == match
                after_colon(input@) {
                Some(t) => t,
                None => Seq::empty(),
            },
            Err(ParseFixError::InvalidRange(ParseAnyRangeError::InvalidFormat { raw })) => range_of(
                before_colon(input@),
            ) is None && raw@ == before_colon(input@),
        },
{
    let cs = chars_of(input);
    let k = find_char(&cs, ':');
    proof {
        lemma_first_index(cs@, ':');
    }
    let head = string_of(&sub_chars(&cs, 0, k));
    let range = match AnyRange::parse(head.as_str()) {
        Ok(range) => range,
        Err(e) => {
            return Err(ParseFixError::InvalidRange(e));
        },
    };
    let fix = if k < cs.len() {
        sub_chars(&cs, k + 1, cs.len())
    } else {
        Vec::new()
    };
    Ok((range, string_of(&fix)))
}

/// Splits an input argument `<path>[:<side value>]` at its first `:`.
pub fn parse_file_path(input: &str) -> (r: (String, Option<String>))
    ensures
        r.0@ == before_colon(input@),
        match (r.1, after_colon(input@)) {
            (Some(v), Some(t)) => v@ == t,
            (None, None) => true,
            _ => false,
        },
{
    let cs = chars_of(input);
    let k = find_char(&cs, ':');
    proof {
        lemma_first_index(cs@, ':');
    }
    let path = string_of(&sub_chars(&cs, 0, k));
    if k < cs.len() {
        (path, Some(string_of(&sub_chars(&cs, k + 1, cs.len()))))
    } else {
        (path, None)
    }
}

} // verus!
