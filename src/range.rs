//! Column-index ranges written in Rust's range notation.
use crate::text::{all_digits, chars_of, digits_to_usize, digits_value, is_digit, string_of};
use vstd::prelude::*;

verus! {

/// A set of column indices: a single index or one of the six range forms.
#[derive(Clone, Copy, Debug, PartialEq, Eq, Structural)]
pub enum AnyRange {
    /// `N`
    Index(usize),
    /// `N..M`
    Range { start: usize, end: usize },
    /// `N..`
    RangeFrom { start: usize },
    /// `..`
    RangeFull,
    /// `N..=M`
    RangeInclusive { start: usize, end: usize },
    /// `..M`
    RangeTo { end: usize },
    /// `..=M`
    RangeToInclusive { end: usize },
}

/// The text of a range that does not follow the grammar.
#[derive(Debug)]
pub enum ParseAnyRangeError {
    InvalidFormat { raw: String },
}

/// Whether `i` lies in `r`.
pub open spec fn in_range(r: AnyRange, i: int) -> bool {
    match r {
        AnyRange::Index(n) => i == n,
        AnyRange::Range { start, end } => start <= i < end,
        AnyRange::RangeFrom { start } => start <= i,
        AnyRange::RangeFull => true,
        AnyRange::RangeInclusive { start, end } => start <= i <= end,
        AnyRange::RangeTo { end } => i < end,
        AnyRange::RangeToInclusive { end } => i <= end,
    }
}

/// How many digits `s` starts with.
pub open spec fn lead_digits(s: Seq<char>) -> nat
    decreases s.len(),
{
    if s.len() > 0 && is_digit(s[0]) {
        1 + lead_digits(s.drop_first())
    } else {
        0
    }
}

/// A run of digits that denotes an index.
pub open spec fn index_text(s: Seq<char>) -> bool {
    s.len() > 0 && all_digits(s) && digits_value(s) <= usize::MAX
}

/// The range that `s` denotes, if it is one of the seven forms `N`, `N..`, `..`, `N..M`, `..M`,
/// `N..=M`, `..=M` (each number a run of decimal digits that fits in `usize`).
pub open spec fn range_of(s: Seq<char>) -> Option<AnyRange> {
    let i = lead_digits(s) as int;
    range_after(s.subrange(0, i), s.subrange(i, s.len() as int))
}

/// The range given by the leading digits `a` and the text `rest` after them.
pub open spec fn range_after(a: Seq<char>, rest: Seq<char>) -> Option<AnyRange> {
    if a.len() > 0 && !index_text(a) {
        None
    } else if rest.len() == 0 {
        if a.len() > 0 {
            Some(AnyRange::Index(digits_value(a) as usize))
        } else {
            None
        }
    } else if rest.len() < 2 || rest[0] != '.' || rest[1] != '.' {
        None
    } else {
        let inclusive = rest.len() > 2 && rest[2] == '=';
        range_from_parts(
            a,
            inclusive,
            rest.subrange(if inclusive { 3 } else { 2 }, rest.len() as int),
        )
    }
}

/// The range with start digits `a`, `..` or `..=`, and end digits `b`.
pub open spec fn range_from_parts(a: Seq<char>, inclusive: bool, b: Seq<char>) -> Option<
    AnyRange,
> {
    let start = digits_value(a) as usize;
    let end = digits_value(b) as usize;
    if b.len() > 0 && !index_text(b) {
        None
    } else if b.len() == 0 {
        if inclusive {
            None
        } else if a.len() > 0 {
            Some(AnyRange::RangeFrom { start })
        } else {
            Some(AnyRange::RangeFull)
        }
    } else {
        match (a.len() > 0, inclusive) {
            (true, false) => Some(AnyRange::Range { start, end }),
            (false, false) => Some(AnyRange::RangeTo { end }),
            (true, true) => Some(AnyRange::RangeInclusive { start, end }),
            (false, true) => Some(AnyRange::RangeToInclusive { end }),
        }
    }
}

/// The number of digits at `s[from..]`.
fn count_digits(s: &Vec<char>, from: usize) -> (r: usize)
    requires
        from <= s.len(),
    ensures
        from <= r <= s.len(),
        r - from == lead_digits(s@.subrange(from as int, s.len() as int)),
        all_digits(s@.subrange(from as int, r as int)),
{
    let mut i: usize = from;
    while i < s.len() && '0' <= s[i] && s[i] <= '9'
        invariant
            from <= i <= s.len(),
            lead_digits(s@.subrange(from as int, s.len() as int)) == (i - from) + lead_digits(
                s@.subrange(i as int, s.len() as int),
            ),
            all_digits(s@.subrange(from as int, i as int)),
        decreases s.len() - i,
    {
        assert(s@.subrange(i as int, s.len() as int).drop_first() =~= s@.subrange(
            i + 1,
            s.len() as int,
        ));
        i = i + 1;
        assert forall|j: int| 0 <= j < i - from implies is_digit(
            #[trigger] s@.subrange(from as int, i as int)[j],
        ) by {
            if j < i - 1 - from {
                assert(s@.subrange(from as int, i as int)[j] == s@.subrange(
                    from as int,
                    i - 1,
                )[j]);
            }
        }
    }
    i
}

impl AnyRange {
    /// Whether the column index `item` lies in this range.
    pub fn contains(&self, item: &usize) -> (r: bool)
        ensures
            r == in_range(*self, *item as int),
    {
        let i = *item;
        match self {
            AnyRange::Index(n) => i == *n,
            AnyRange::Range { start, end } => *start <= i && i < *end,
            AnyRange::RangeFrom { start } => *start <= i,
            AnyRange::RangeFull => true,
            AnyRange::RangeInclusive { start, end } => *start <= i && i <= *end,
            AnyRange::RangeTo { end } => i < *end,
            AnyRange::RangeToInclusive { end } => i <= *end,
        }
    }

    /// Reads a range in one of the forms `N`, `N..`, `..`, `N..M`, `..M`, `N..=M`, `..=M`.
    /// Any other text, or a number beyond `usize::MAX`, is an `InvalidFormat` error that
    /// carries the text.
    pub fn parse(s: &str) -> (r: Result<AnyRange, ParseAnyRangeError>)
        ensures
            match r {
                Ok(range) => range_of(s@) == Some(range),
                Err(ParseAnyRangeError::InvalidFormat { raw }) => range_of(s@) is None && raw@
                    == s@,
            },
    {
        let cs = chars_of(s);
        match range_of_chars(&cs) {
            Some(range) => Ok(range),
            None => Err(ParseAnyRangeError::InvalidFormat { raw: string_of(&cs) }),
        }
    }
}

fn range_of_chars(cs: &Vec<char>) -> (r: Option<AnyRange>)
    ensures
        r == range_of(cs@),
{
    let n = cs.len();
    let i = count_digits(cs, 0);
    let ghost a = cs@.subrange(0, i as int);
    let ghost rest = cs@.subrange(i as int, n as int);
    assert(cs@.subrange(0, n as int) =~= cs@);
    assert(range_of(cs@) == range_after(a, rest));
    let start: Option<usize> = if i > 0 {
        match digits_to_usize(cs, 0, i) {
            Some(v) => Some(v),
            None => {
                return None;
            },
        }
    } else {
        None
    };
    if i == n {
        return match start {
            Some(v) => Some(AnyRange::Index(v)),
            None => None,
        };
    }
    if n - i < 2 || cs[i] != '.' || cs[i + 1] != '.' {
        assert(rest.len() < 2 || rest[0] != '.' || rest[1] != '.');
        return None;
    }
    let inclusive = n - i > 2 && cs[i + 2] == '=';
    assert(inclusive == (rest.len() > 2 && rest[2] == '='));
    let j: usize = if inclusive { i + 3 } else { i + 2 };
    assert(rest.subrange(if inclusive { 3 } else { 2 }, rest.len() as int) =~= cs@.subrange(
        j as int,
        n as int,
    ));
    range_from_end(cs, j, start, inclusive, Ghost(a))
}

/// The range whose start is `start` (the value of the digits `a`), and whose end is read from
/// `cs[j..]`.
fn range_from_end(
    cs: &Vec<char>,
    j: usize,
    start: Option<usize>,
    inclusive: bool,
    Ghost(a): Ghost<Seq<char>>,
) -> (r: Option<AnyRange>)
    requires
        j <= cs.len(),
        a.len() > 0 ==> index_text(a),
        match start {
            Some(v) => a.len() > 0 && v == digits_value(a),
            None => a.len() == 0,
        },
    ensures
        r == range_from_parts(a, inclusive, cs@.subrange(j as int, cs.len() as int)),
{
    let n = cs.len();
    let ghost b = cs@.subrange(j as int, n as int);
    let k = count_digits(cs, j);
    if k < n {
        proof {
            assert(cs@.subrange(k as int, n as int).drop_first().len() >= 0);
            lemma_lead_digits_stop(b, (k - j) as int);
        }
        return None;
    }
    assert(b =~= cs@.subrange(j as int, k as int));
    let end: Option<usize> = if k > j {
        match digits_to_usize(cs, j, k) {
            Some(v) => Some(v),
            None => {
                return None;
            },
        }
    } else {
        None
    };
    match (start, inclusive, end) {
        (Some(a), false, None) => Some(AnyRange::RangeFrom { start: a }),
        (None, false, None) => Some(AnyRange::RangeFull),
        (Some(a), false, Some(b)) => Some(AnyRange::Range { start: a, end: b }),
        (None, false, Some(b)) => Some(AnyRange::RangeTo { end: b }),
        (Some(a), true, Some(b)) => Some(AnyRange::RangeInclusive { start: a, end: b }),
        (None, true, Some(b)) => Some(AnyRange::RangeToInclusive { end: b }),
        (_, true, None) => None,
    }
}

/// Where `s` starts with `n` digits and then a non-digit, not all of `s` is digits.
proof fn lemma_lead_digits_stop(s: Seq<char>, n: int)
    requires
        0 <= n < s.len(),
        lead_digits(s) == n,
    ensures
        !is_digit(s[n]),
    decreases n,
{
    if n > 0 {
        assert(s.drop_first()[n - 1] == s[n]);
        lemma_lead_digits_stop(s.drop_first(), n - 1);
    }
}

impl std::str::FromStr for AnyRange {
    type Err = ParseAnyRangeError;

    /// Reads a range; see `AnyRange::parse`.
    fn from_str(s: &str) -> (r: Result<AnyRange, ParseAnyRangeError>)
        ensures
            match r {
                Ok(range) => range_of(s@) == Some(range),
                Err(ParseAnyRangeError::InvalidFormat { raw }) => range_of(s@) is None && raw@
                    == s@,
            },
    {
        AnyRange::parse(s)
    }
}

} // verus!
