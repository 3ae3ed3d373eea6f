//! A table cell: an integer, a floating-point literal, text, or blank; its inference from raw
//! text and its rendering under the output settings.
use crate::format::{decimal, decorated, number_pattern, push_decimal, FormatOptions};
use crate::number::{fixed_number, fixed_text, sci_number, sci_text};
use crate::text::{
    all_digits, all_white, chars_of, digits_to_u64, digits_value, find_char, first_index,
    is_digit, is_white_char, string_of,
};
use vstd::prelude::*;

verus! {

/// One entry of a table.
///
/// A floating-point value is held as its literal (with `.` as decimal point), in the form
/// that `f64`'s `FromStr` accepts; formatting it numerically is left to the caller, who may
/// replace the literal with the rendered number before the table is written.
#[derive(Clone, Debug, Default)]
pub enum Cell {
    Int(i64),
    Float(String),
    Str(String),
    #[default]
    Blank,
}

/// What a cell holds, with its text as characters.
pub enum CellView {
    Int(i64),
    Float(Seq<char>),
    Str(Seq<char>),
    Blank,
}

impl View for Cell {
    type V = CellView;

    open spec fn view(&self) -> CellView {
        match self {
            Cell::Int(v) => CellView::Int(*v),
            Cell::Float(s) => CellView::Float(s@),
            Cell::Str(s) => CellView::Str(s@),
            Cell::Blank => CellView::Blank,
        }
    }
}

impl PartialEq for Cell {
    fn eq(&self, other: &Cell) -> (r: bool)
        ensures
            r == (self@ == other@),
    {
        match (self, other) {
            (Cell::Int(a), Cell::Int(b)) => *a == *b,
            (Cell::Float(a), Cell::Float(b)) => *a == *b,
            (Cell::Str(a), Cell::Str(b)) => *a == *b,
            (Cell::Blank, Cell::Blank) => true,
            _ => false,
        }
    }
}

impl vstd::std_specs::cmp::PartialEqSpecImpl for Cell {
    open spec fn obeys_eq_spec() -> bool {
        true
    }

    open spec fn eq_spec(&self, other: &Cell) -> bool {
        self@ == other@
    }
}

/// The length of a leading `+` or `-`.
pub open spec fn sign_len(s: Seq<char>) -> int {
    if s.len() > 0 && (s[0] == '+' || s[0] == '-') {
        1
    } else {
        0
    }
}

/// An optional sign and then one or more digits.
pub open spec fn int_text(s: Seq<char>) -> bool {
    let b = s.subrange(sign_len(s), s.len() as int);
    b.len() > 0 && all_digits(b)
}

pub open spec fn int_value(s: Seq<char>) -> int {
    let v = digits_value(s.subrange(sign_len(s), s.len() as int)) as int;
    if s.len() > 0 && s[0] == '-' {
        -v
    } else {
        v
    }
}

/// The `i64` that `s` spells, as `i64`'s `FromStr` reads it.
pub open spec fn int_of(s: Seq<char>) -> Option<i64> {
    if int_text(s) && i64::MIN <= int_value(s) <= i64::MAX {
        Some(int_value(s) as i64)
    } else {
        None
    }
}

/// Digits with at most one `.` among them, and at least one digit.
pub open spec fn mantissa_text(m: Seq<char>) -> bool {
    &&& forall|i: int| 0 <= i < m.len() ==> is_digit(#[trigger] m[i]) || m[i] == '.'
    &&& forall|i: int, j: int| 0 <= i < j < m.len() && #[trigger] m[i] == '.' ==> #[trigger] m[j] != '.'
    &&& exists|i: int| 0 <= i < m.len() && is_digit(#[trigger] m[i])
}

/// Where the exponent mark (`e` or `E`) of a number starts, or its length.
pub open spec fn exp_mark(b: Seq<char>) -> int {
    let e = first_index(b, 'e') as int;
    let big = first_index(b, 'E') as int;
    if e < big {
        e
    } else {
        big
    }
}

/// A mantissa, then optionally `e` or `E` and an exponent with an optional sign.
pub open spec fn number_body(b: Seq<char>) -> bool {
    let k = exp_mark(b);
    mantissa_text(b.subrange(0, k)) && (k == b.len() || int_text(b.subrange(k + 1, b.len() as int)))
}

/// `c` is the lower-case ASCII letter `lower` in either case.
pub open spec fn same_letter(c: char, lower: char) -> bool {
    c == lower || c as u32 + 32 == lower as u32
}

pub open spec fn word_is(b: Seq<char>, w: Seq<char>) -> bool {
    b.len() == w.len() && forall|i: int| 0 <= i < b.len() ==> same_letter(#[trigger] b[i], w[i])
}

pub open spec fn special_word(b: Seq<char>) -> bool {
    word_is(b, seq!['i', 'n', 'f']) || word_is(b, seq!['i', 'n', 'f', 'i', 'n', 'i', 't', 'y'])
        || word_is(b, seq!['n', 'a', 'n'])
}

/// Text that `f64`'s `FromStr` accepts: an optional sign, then `inf`, `infinity` or `nan` in
/// any case, or a decimal number with an optional exponent.
pub open spec fn float_text(s: Seq<char>) -> bool {
    let b = s.subrange(sign_len(s), s.len() as int);
    special_word(b) || number_body(b)
}

pub open spec fn commas_as_dots(s: Seq<char>) -> Seq<char> {
    s.map_values(|c: char| if c == ',' { '.' } else { c })
}

/// The cell that raw text is read as: an integer where it is one that fits `i64`; else a
/// floating-point literal, as written or with its commas read as decimal points; else blank
/// where it holds only white space; else text.
pub open spec fn inferred(s: Seq<char>) -> CellView {
    if int_of(s) is Some {
        CellView::Int(int_of(s)->0)
    } else if float_text(s) {
        CellView::Float(s)
    } else if float_text(commas_as_dots(s)) {
        CellView::Float(commas_as_dots(s))
    } else if all_white(s) {
        CellView::Blank
    } else {
        CellView::Str(s)
    }
}

/// Decimal text of an integer, as its `Display` writes it.
pub open spec fn int_decimal(v: i64) -> Seq<char> {
    if v < 0 {
        seq!['-'] + decimal((-v) as nat)
    } else {
        decimal(v as nat)
    }
}

/// What the number formatter writes for `value` under `pattern`.
pub uninterp spec fn number_formatted(pattern: Seq<char>, value: int) -> Seq<char>;

pub open spec fn fits_i32(v: i64) -> bool {
    i32::MIN <= v <= i32::MAX
}

/// The bare rendering of an integer under the settings, before separator and decoration:
/// plain decimal without a precision or an exponent; fixed-point with the precision's number
/// of zeros; scientific as the number formatter writes it, for integers that it takes (those
/// of `i32`), and as `sci_text` gives it (with six fractional digits by default) for the
/// others.
pub open spec fn int_number_text(v: i64, o: &FormatOptions) -> Seq<char> {
    match (o.precision, o.exponent) {
        (None, false) => if o.sign && v >= 0 {
            seq!['+'] + int_decimal(v)
        } else {
            int_decimal(v)
        },
        (Some(p), false) => fixed_text(v as int, p as nat, o.sign),
        (_, true) => if fits_i32(v) {
            number_formatted(number_pattern(o.precision, o.exponent, o.sign)->0, v as int)
        } else {
            sci_text(
                v as int,
                match o.precision {
                    Some(p) => p as nat,
                    None => 6,
                },
                o.sign,
            )
        },
    }
}

/// The text of a cell in column `i`. Numbers get the separator and the column's prefix and
/// suffix; text and blank cells are written as they are.
pub open spec fn rendered(c: CellView, o: &FormatOptions, i: int) -> Seq<char> {
    match c {
        CellView::Int(v) => decorated(o, i, int_number_text(v, o)),
        CellView::Float(t) => decorated(o, i, t),
        CellView::Str(s) => s,
        CellView::Blank => Seq::empty(),
    }
}

/// Relies on `format_num::NumberFormat::format`, with the default `.` decimal point and `,`
/// group delimiter, to render an integer under a pattern of the forms that
/// `number_pattern` gives; its parser accepts each of them. Under a fixed-point pattern
/// (`0.Pf`, `+0.Pf`) an integer is written as its sign (`-`, or `+` where the pattern asks
/// for it), its digits, and `.` with `P` zeros where `P > 0`.
#[verifier::external_body]
fn format_number(pattern: &str, value: i32) -> (r: String)
    requires
        exists|p: Option<u16>, e: bool, s: bool| number_pattern(p, e, s) == Some(pattern@),
    ensures
        r@ == number_formatted(pattern@, value as int),
        forall|p: u16, s: bool|
            #[trigger] number_pattern(Some(p), false, s) == Some(pattern@) ==> r@ == fixed_text(
                value as int,
                p as nat,
                s,
            ),
{
    format_num::NumberFormat::new().format(pattern, value)
}

/// Whether every character of `s` is white space.
fn all_white_chars(s: &Vec<char>) -> (r: bool)
    ensures
        r == all_white(s@),
{
    let mut i: usize = 0;
    while i < s.len()
        invariant
            i <= s.len(),
            forall|j: int| 0 <= j < i ==> crate::text::is_white(#[trigger] s@[j]),
        decreases s.len() - i,
    {
        if !is_white_char(s[i]) {
            return false;
        }
        i = i + 1;
    }
    true
}

/// Whether all of `s[from..to]` is digits.
fn digits_between(s: &Vec<char>, from: usize, to: usize) -> (r: bool)
    requires
        from <= to <= s.len(),
    ensures
        r == all_digits(s@.subrange(from as int, to as int)),
{
    let mut i: usize = from;
    while i < to
        invariant
            from <= i <= to <= s.len(),
            forall|j: int| from <= j < i ==> is_digit(#[trigger] s@[j]),
        decreases to - i,
    {
        if !('0' <= s[i] && s[i] <= '9') {
            assert(s@.subrange(from as int, to as int)[i - from] == s@[i as int]);
            return false;
        }
        i = i + 1;
    }
    assert forall|j: int| 0 <= j < to - from implies is_digit(
        #[trigger] s@.subrange(from as int, to as int)[j],
    ) by {
        assert(s@.subrange(from as int, to as int)[j] == s@[from + j]);
    }
    true
}

fn sign_length(s: &Vec<char>, from: usize) -> (r: usize)
    requires
        from <= s.len(),
    ensures
        r == sign_len(s@.subrange(from as int, s.len() as int)),
        from + r <= s.len(),
{
    if from < s.len() && (s[from] == '+' || s[from] == '-') {
        1
    } else {
        0
    }
}

/// Reads `s[from..to]` as `i64`'s `FromStr` does.
fn int_between(s: &Vec<char>, from: usize, to: usize) -> (r: Option<i64>)
    requires
        from <= to <= s.len(),
    ensures
        r == int_of(s@.subrange(from as int, to as int)),
{
    let ghost t = s@.subrange(from as int, to as int);
    let negative = from < to && s[from] == '-';
    let sl: usize = if from < to && (s[from] == '+' || s[from] == '-') {
        1
    } else {
        0
    };
    assert(sl == sign_len(t));
    assert(t.subrange(sign_len(t), t.len() as int) =~= s@.subrange(from + sl, to as int));
    if from + sl == to || !digits_between(s, from + sl, to) {
        return None;
    }
    match digits_to_u64(s, from + sl, to) {
        None => None,
        Some(v) => {
            if negative {
                if v <= 9223372036854775808 {
                    Some(if v == 9223372036854775808 {
                        i64::MIN
                    } else {
                        -(v as i64)
                    })
                } else {
                    None
                }
            } else if v <= 9223372036854775807 {
                Some(v as i64)
            } else {
                None
            }
        },
    }
}

/// Whether the characters of `s[from..]` spell `w`, letters in either case.
fn word_at(s: &Vec<char>, from: usize, w: &Vec<char>) -> (r: bool)
    requires
        from <= s.len(),
        forall|i: int| 0 <= i < w.len() ==> 97 <= (#[trigger] w@[i]) as u32 <= 122,
    ensures
        r == word_is(s@.subrange(from as int, s.len() as int), w@),
{
    let ghost b = s@.subrange(from as int, s.len() as int);
    if s.len() - from != w.len() {
        return false;
    }
    let mut i: usize = 0;
    while i < w.len()
        invariant
            i <= w.len(),
            s.len() - from == w.len(),
            b == s@.subrange(from as int, s.len() as int),
            forall|j: int| 0 <= j < i ==> same_letter(#[trigger] b[j], w@[j]),
            forall|j: int| 0 <= j < w.len() ==> 97 <= (#[trigger] w@[j]) as u32 <= 122,
        decreases w.len() - i,
    {
        let c = s[from + i];
        assert(b[i as int] == c);
        if !(c == w[i] || c as u32 == w[i] as u32 - 32) {
            return false;
        }
        i = i + 1;
    }
    true
}

/// Whether `s[from..to]` is a mantissa: digits with at most one `.`, and some digit.
fn mantissa_between(s: &Vec<char>, from: usize, to: usize) -> (r: bool)
    requires
        from <= to <= s.len(),
    ensures
        r == mantissa_text(s@.subrange(from as int, to as int)),
{
    let ghost m = s@.subrange(from as int, to as int);
    let mut dot: Option<usize> = None;
    let mut digit = false;
    let mut i: usize = from;
    while i < to
        invariant
            from <= i <= to <= s.len(),
            m == s@.subrange(from as int, to as int),
            forall|j: int| from <= j < i ==> is_digit(#[trigger] s@[j]) || s@[j] == '.',
            match dot {
                Some(d) => from <= d < i && s@[d as int] == '.' && forall|j: int|
                    from <= j < i && j != d ==> #[trigger] s@[j] != '.',
                None => forall|j: int| from <= j < i ==> #[trigger] s@[j] != '.',
            },
            digit == exists|j: int| from <= j < i && is_digit(#[trigger] s@[j]),
        decreases to - i,
    {
        let c = s[i];
        if c == '.' {
            if dot.is_some() {
                proof {
                    let d = dot->0;
                    assert(m[d - from] == '.' && m[i - from] == '.');
                }
                return false;
            }
            dot = Some(i);
        } else if '0' <= c && c <= '9' {
            digit = true;
        } else {
            assert(m[i - from] == c);
            return false;
        }
        i = i + 1;
    }
    assert forall|j: int| 0 <= j < m.len() implies is_digit(#[trigger] m[j]) || m[j] == '.' by {
        assert(m[j] == s@[from + j]);
    }
    assert forall|a: int, b: int| 0 <= a < b < m.len() && #[trigger] m[a] == '.' implies #[trigger] m[b]
        != '.' by {
        assert(m[a] == s@[from + a]);
        assert(m[b] == s@[from + b]);
    }
    if digit {
        let ghost j = choose|j: int| from <= j < to && is_digit(#[trigger] s@[j]);
        assert(m[j - from] == s@[j]);
    } else {
        assert forall|j: int| 0 <= j < m.len() implies !is_digit(#[trigger] m[j]) by {
            assert(m[j] == s@[from + j]);
        }
    }
    digit
}

/// Whether `s` is a literal that `f64`'s `FromStr` accepts.
fn is_float_text(s: &Vec<char>) -> (r: bool)
    ensures
        r == float_text(s@),
{
    let n = s.len();
    let sl = sign_length(s, 0);
    assert(s@.subrange(0, n as int) =~= s@);
    if word_at(s, sl, &vec!['i', 'n', 'f']) || word_at(
        s,
        sl,
        &vec!['i', 'n', 'f', 'i', 'n', 'i', 't', 'y'],
    ) || word_at(s, sl, &vec!['n', 'a', 'n']) {
        return true;
    }
    let body = crate::text::sub_chars(s, sl, n);
    is_number_body(&body)
}

/// Whether `body` is a mantissa with an optional exponent.
fn is_number_body(body: &Vec<char>) -> (r: bool)
    ensures
        r == number_body(body@),
{
    let e = find_char(body, 'e');
    let big = find_char(body, 'E');
    let k = if e < big {
        e
    } else {
        big
    };
    assert(k == exp_mark(body@));
    if !mantissa_between(body, 0, k) {
        return false;
    }
    if k == body.len() {
        return true;
    }
    let sl2 = sign_length(body, k + 1);
    let ghost x = body@.subrange(k + 1, body.len() as int);
    assert(x.subrange(sign_len(x), x.len() as int) =~= body@.subrange(
        k + 1 + sl2,
        body.len() as int,
    ));
    k + 1 + sl2 < body.len() && digits_between(body, k + 1 + sl2, body.len())
}

impl Cell {
    /// Reads raw text as a cell; see `inferred`. Never fails.
    pub fn infer(s: &str) -> (r: Cell)
        ensures
            r@ == inferred(s@),
    {
        Cell::from_chars(&chars_of(s))
    }

    /// Reads raw text, given as characters, as a cell; see `inferred`.
    pub fn from_chars(cs: &Vec<char>) -> (r: Cell)
        ensures
            r@ == inferred(cs@),
    {
        assert(cs@.subrange(0, cs.len() as int) =~= cs@);
        match int_between(cs, 0, cs.len()) {
            Some(v) => {
                return Cell::Int(v);
            },
            None => {},
        }
        if is_float_text(cs) {
            return Cell::Float(string_of(cs));
        }
        let mut dots: Vec<char> = Vec::new();
        let mut i: usize = 0;
        while i < cs.len()
            invariant
                i <= cs.len(),
                dots@ == commas_as_dots(cs@.subrange(0, i as int)),
            decreases cs.len() - i,
        {
            dots.push(
                if cs[i] == ',' {
                    '.'
                } else {
                    cs[i]
                },
            );
            i = i + 1;
            assert(commas_as_dots(cs@.subrange(0, i as int)) =~= commas_as_dots(
                cs@.subrange(0, i - 1),
            ).push(if cs@[i - 1] == ',' { '.' } else { cs@[i - 1] }));
        }
        if is_float_text(&dots) {
            return Cell::Float(string_of(&dots));
        }
        if all_white_chars(cs) {
            Cell::Blank
        } else {
            Cell::Str(string_of(cs))
        }
    }

    /// The text of this cell in column `index` under the settings; see `rendered`.
    pub fn fmt(&self, format_options: &FormatOptions, index: usize) -> (r: String)
        ensures
            r@ == rendered(self@, format_options, index as int),
    {
        match self {
            Cell::Int(v) => {
                let number = int_number(*v, format_options);
                format_options.decorate(index, number.as_str())
            },
            Cell::Float(t) => format_options.decorate(index, t.as_str()),
            Cell::Str(s) => s.clone(),
            Cell::Blank => String::new(),
        }
    }
}

/// The bare rendering of an integer; see `int_number_text`.
fn int_number(v: i64, o: &FormatOptions) -> (r: String)
    ensures
        r@ == int_number_text(v, o),
{
    match (o.precision, o.exponent) {
        (None, false) => {
            let mut out: Vec<char> = Vec::new();
            if v < 0 {
                out.push('-');
                let m: u64 = if v == i64::MIN {
                    9223372036854775808
                } else {
                    (-v) as u64
                };
                push_decimal(&mut out, m);
            } else {
                if o.sign {
                    out.push('+');
                }
                push_decimal(&mut out, v as u64);
            }
            string_of(&out)
        },
        (Some(p), false) => {
            if i32::MIN as i64 <= v && v <= i32::MAX as i64 {
                let pattern = o.number_pattern().unwrap();
                format_number(pattern.as_str(), v as i32)
            } else {
                string_of(&fixed_number(v, p, o.sign))
            }
        },
        (_, true) => {
            if i32::MIN as i64 <= v && v <= i32::MAX as i64 {
                let pattern = o.number_pattern().unwrap();
                format_number(pattern.as_str(), v as i32)
            } else {
                let p: u16 = match o.precision {
                    Some(p) => p,
                    None => 6,
                };
                string_of(&sci_number(v, p, o.sign))
            }
        },
    }
}

impl std::str::FromStr for Cell {
    type Err = std::convert::Infallible;

    /// Reads raw text as a cell; see `inferred`. Never fails.
    fn from_str(s: &str) -> (r: Result<Cell, std::convert::Infallible>)
        ensures
            r is Ok && r->Ok_0@ == inferred(s@),
    {
        Ok(Cell::infer(s))
    }
}

} // verus!
