//! Output formatting settings: number style, decimal separator, and the per-column prefix and
//! suffix rules, where the last matching rule wins.
use crate::cli::{Args, DecimalSeparator};
use crate::range::{in_range, AnyRange};
use crate::text::{append_chars, chars_of, string_of};
use vstd::prelude::*;

verus! {

/// The settings of one output pass.
#[derive(Debug, Default)]
pub struct FormatOptions {
    pub precision: Option<u16>,
    pub exponent: bool,
    pub decimal_sep: DecimalSeparator,
    pub sign: bool,
    pub hline: bool,
    pub csv_sep: String,
    pub prefix: Vec<(AnyRange, String)>,
    pub suffix: Vec<(AnyRange, String)>,
}

pub open spec fn rules_view(rules: Seq<(AnyRange, String)>) -> Seq<(AnyRange, Seq<char>)> {
    rules.map_values(|r: (AnyRange, String)| (r.0, r.1@))
}

/// The text of the last rule whose range holds `i`; empty where none does.
pub open spec fn rule_for(rules: Seq<(AnyRange, Seq<char>)>, i: int) -> Seq<char>
    decreases rules.len(),
{
    if rules.len() == 0 {
        Seq::empty()
    } else if in_range(rules.last().0, i) {
        rules.last().1
    } else {
        rule_for(rules.drop_last(), i)
    }
}

/// A rule decides the text for column `i` whenever its range holds `i` and no later rule's
/// range does, however many earlier rules also hold `i`.
pub proof fn lemma_later_rule_wins(rules: Seq<(AnyRange, Seq<char>)>, i: int, j: int)
    requires
        0 <= j < rules.len(),
        in_range(rules[j].0, i),
        forall|k: int| j < k < rules.len() ==> !in_range(#[trigger] rules[k].0, i),
    ensures
        rule_for(rules, i) == rules[j].1,
    decreases rules.len(),
{
    if j < rules.len() - 1 {
        assert(!in_range(rules[rules.len() - 1].0, i));
        assert(rules.drop_last()[j] == rules[j]);
        assert forall|k: int| j < k < rules.drop_last().len() implies !in_range(
            #[trigger] rules.drop_last()[k].0,
            i,
        ) by {
            assert(rules.drop_last()[k] == rules[k]);
        }
        lemma_later_rule_wins(rules.drop_last(), i, j);
    }
}

/// The text that the rules give column `index`: the last matching rule wins.
pub fn resolve_rule(rules: &Vec<(AnyRange, String)>, index: usize) -> (r: String)
    ensures
        r@ == rule_for(rules_view(rules@), index as int),
{
    let ghost view = rules_view(rules@);
    let mut cur = String::new();
    let mut i: usize = 0;
    while i < rules.len()
        invariant
            i <= rules.len(),
            view == rules_view(rules@),
            cur@ == rule_for(view.subrange(0, i as int), index as int),
        decreases rules.len() - i,
    {
        assert(view.subrange(0, i + 1).drop_last() =~= view.subrange(0, i as int));
        if rules[i].0.contains(&index) {
            cur = rules[i].1.clone();
        }
        i = i + 1;
    }
    assert(view.subrange(0, rules.len() as int) =~= view);
    cur
}

pub open spec fn digit_char(d: nat) -> char {
    seq!['0', '1', '2', '3', '4', '5', '6', '7', '8', '9'][d as int]
}

/// The decimal digits of `n`, without leading zeros.
pub open spec fn decimal(n: nat) -> Seq<char>
    decreases n,
{
    if n < 10 {
        seq![digit_char(n)]
    } else {
        decimal(n / 10).push(digit_char(n % 10))
    }
}

/// Appends the decimal digits of `n`.
pub fn push_decimal(out: &mut Vec<char>, n: u64)
    ensures
        final(out)@ == old(out)@ + decimal(n as nat),
    decreases n,
{
    if n >= 10 {
        push_decimal(out, n / 10);
    }
    let digits = vec!['0', '1', '2', '3', '4', '5', '6', '7', '8', '9'];
    assert(digits@ == seq!['0', '1', '2', '3', '4', '5', '6', '7', '8', '9']);
    out.push(digits[(n % 10) as usize]);
    proof {
        if n < 10 {
            assert(n % 10 == n);
        }
    }
}

/// The number-format pattern for a precision, exponent and sign choice; none for the plain
/// decimal form (no precision, no exponent).
pub open spec fn number_pattern(precision: Option<u16>, exponent: bool, sign: bool) -> Option<
    Seq<char>,
> {
    let lead = if sign {
        seq!['+']
    } else {
        Seq::empty()
    };
    match precision {
        None => if exponent {
            Some(lead.push('e'))
        } else {
            None
        },
        Some(p) => if exponent {
            Some(lead.push('.') + decimal(p as nat) + seq!['e'])
        } else {
            Some(lead + seq!['0', '.'] + decimal(p as nat) + seq!['f'])
        },
    }
}

/// `s` with every `.` written as the chosen decimal separator.
pub open spec fn with_separator(s: Seq<char>, sep: DecimalSeparator) -> Seq<char> {
    match sep {
        DecimalSeparator::Dot => s,
        DecimalSeparator::Comma => s.map_values(|c: char| if c == '.' { ',' } else { c }),
    }
}

/// A rendered number with the column's prefix and suffix around it.
pub open spec fn decorated(o: &FormatOptions, i: int, number: Seq<char>) -> Seq<char> {
    rule_for(rules_view(o.prefix@), i) + with_separator(number, o.decimal_sep) + rule_for(
        rules_view(o.suffix@),
        i,
    )
}

impl FormatOptions {
    /// The pattern handed to the number formatter, or `None` for the plain decimal form.
    pub fn number_pattern(&self) -> (r: Option<String>)
        ensures
            match r {
                Some(p) => number_pattern(self.precision, self.exponent, self.sign) == Some(p@),
                None => number_pattern(self.precision, self.exponent, self.sign) is None,
            },
    {
        let mut out: Vec<char> = Vec::new();
        if self.sign {
            out.push('+');
        }
        match self.precision {
            None => {
                if !self.exponent {
                    return None;
                }
                out.push('e');
            },
            Some(p) => {
                if self.exponent {
                    out.push('.');
                    push_decimal(&mut out, p as u64);
                    out.push('e');
                } else {
                    out.push('0');
                    out.push('.');
                    push_decimal(&mut out, p as u64);
                    out.push('f');
                }
            },
        }
        proof {
            let lead = if self.sign {
                seq!['+']
            } else {
                Seq::<char>::empty()
            };
            match self.precision {
                None => {
                    assert(out@ =~= lead.push('e'));
                },
                Some(p) => {
                    if self.exponent {
                        assert(out@ =~= lead.push('.') + decimal(p as nat) + seq!['e']);
                    } else {
                        assert(out@ =~= lead + seq!['0', '.'] + decimal(p as nat) + seq!['f']);
                    }
                },
            }
        }
        Some(string_of(&out))
    }

    /// Puts a rendered number into its final form for column `index`: the decimal separator
    /// applied, the column's prefix before it and its suffix after it.
    pub fn decorate(&self, index: usize, number: &str) -> (r: String)
        ensures
            r@ == decorated(self, index as int, number@),
    {
        let prefix = resolve_rule(&self.prefix, index);
        let suffix = resolve_rule(&self.suffix, index);
        let mut out = chars_of(prefix.as_str());
        let digits = chars_of(number);
        let ghost start = out@;
        let mut i: usize = 0;
        while i < digits.len()
            invariant
                i <= digits.len(),
                out@ == start + with_separator(digits@.subrange(0, i as int), self.decimal_sep),
            decreases digits.len() - i,
        {
            let c = digits[i];
            let shown = match self.decimal_sep {
                DecimalSeparator::Comma => if c == '.' {
                    ','
                } else {
                    c
                },
                DecimalSeparator::Dot => c,
            };
            out.push(shown);
            i = i + 1;
            assert(with_separator(digits@.subrange(0, i as int), self.decimal_sep) =~= with_separator(
                digits@.subrange(0, i - 1),
                self.decimal_sep,
            ).push(shown));
        }
        assert(digits@.subrange(0, digits.len() as int) =~= digits@);
        append_chars(&mut out, &chars_of(suffix.as_str()));
        string_of(&out)
    }
}

impl From<Args> for FormatOptions {
    fn from(value: Args) -> FormatOptions {
        FormatOptions {
            precision: value.precision,
            exponent: value.exponent,
            decimal_sep: value.decimal_sep,
            sign: value.sign,
            hline: value.hline,
            csv_sep: value.csv_sep,
            prefix: value.prefix,
            suffix: value.suffix,
        }
    }
}

impl vstd::std_specs::convert::FromSpecImpl<Args> for FormatOptions {
    open spec fn obeys_from_spec() -> bool {
        true
    }

    open spec fn from_spec(value: Args) -> FormatOptions {
        FormatOptions {
            precision: value.precision,
            exponent: value.exponent,
            decimal_sep: value.decimal_sep,
            sign: value.sign,
            hline: value.hline,
            csv_sep: value.csv_sep,
            prefix: value.prefix,
            suffix: value.suffix,
        }
    }
}

} // verus!
