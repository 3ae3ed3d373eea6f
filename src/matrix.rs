//! The matrix-literal format: the first bracketed region `[ ... ]` of a text, rows separated by
//! `;` and cells by spaces, with `...` continuation marks removed.
use crate::cell::CellView;
use crate::dat::{infer_pieces, inferred_pieces};
use crate::error::{ParseMTableError, ParseTableError};
use crate::table::{lemma_rows_push, rectangularized, rows_view, Table};
use crate::text::{chars_of, split_chars, split_on, split_words, sub_chars, words};
use crate::render::chars_view;
use vstd::prelude::*;

verus! {

pub open spec fn is_bracket(c: char) -> bool {
    c == '[' || c == ']'
}

/// The first bracket at or after `from`, or the length of `s`.
pub open spec fn next_bracket(s: Seq<char>, from: int) -> int
    decreases s.len() - from,
{
    if from >= s.len() {
        s.len() as int
    } else if from >= 0 && is_bracket(s[from]) {
        from
    } else {
        next_bracket(s, from + 1)
    }
}

/// An opening bracket at `p`, followed by at least one character that is no bracket, and then
/// a closing bracket.
pub open spec fn region_at(s: Seq<char>, p: int) -> bool {
    let q = next_bracket(s, p + 1);
    0 <= p < s.len() && s[p] == '[' && q < s.len() && s[q] == ']' && q > p + 1
}

/// The first position from `from` on where a region starts, or the length of `s`.
pub open spec fn first_region(s: Seq<char>, from: int) -> int
    decreases s.len() - from,
{
    if from >= s.len() {
        s.len() as int
    } else if region_at(s, from) {
        from
    } else {
        first_region(s, from + 1)
    }
}

/// `s` with every `...` taken out, scanning from the left.
pub open spec fn without_ellipses(s: Seq<char>) -> Seq<char>
    decreases s.len(),
{
    if s.len() == 0 {
        s
    } else if s.len() >= 3 && s[0] == '.' && s[1] == '.' && s[2] == '.' {
        without_ellipses(s.subrange(3, s.len() as int))
    } else {
        seq![s[0]] + without_ellipses(s.drop_first())
    }
}

/// The text inside the first region, if there is one.
pub open spec fn matrix_body(s: Seq<char>) -> Option<Seq<char>> {
    let p = first_region(s, 0);
    if p < s.len() {
        Some(s.subrange(p + 1, next_bracket(s, p + 1)))
    } else {
        None
    }
}

/// The rows of a region's text: `...` removed, split at `;`, each row split on white space,
/// each piece inferred.
pub open spec fn matrix_rows(body: Seq<char>) -> Seq<Seq<CellView>> {
    split_on(without_ellipses(body), ';').map_values(|r: Seq<char>| inferred_pieces(words(r)))
}

fn find_next_bracket(s: &Vec<char>, from: usize) -> (r: usize)
    requires
        from <= s.len(),
    ensures
        r == next_bracket(s@, from as int),
        from <= r <= s.len(),
{
    let mut i = from;
    while i < s.len() && s[i] != '[' && s[i] != ']'
        invariant
            from <= i <= s.len(),
            next_bracket(s@, from as int) == next_bracket(s@, i as int),
        decreases s.len() - i,
    {
        i = i + 1;
    }
    i
}

/// Where the first region starts, and where its closing bracket stands; `None` where there is
/// no region.
fn find_region(s: &Vec<char>) -> (r: Option<(usize, usize)>)
    ensures
        match r {
            Some((p, q)) => p == first_region(s@, 0) && p < s.len() && q == next_bracket(
                s@,
                p + 1,
            ) && p + 1 < q < s.len(),
            None => first_region(s@, 0) >= s.len(),
        },
{
    let mut p: usize = 0;
    while p < s.len()
        invariant
            p <= s.len(),
            first_region(s@, 0) == first_region(s@, p as int),
        decreases s.len() - p,
    {
        if s[p] == '[' {
            let q = find_next_bracket(s, p + 1);
            if q < s.len() && s[q] == ']' && q > p + 1 {
                return Some((p, q));
            }
        }
        p = p + 1;
    }
    None
}

fn remove_ellipses(s: &Vec<char>) -> (r: Vec<char>)
    ensures
        r@ == without_ellipses(s@),
{
    let mut out: Vec<char> = Vec::new();
    let mut i: usize = 0;
    assert(s@.subrange(0, s.len() as int) =~= s@);
    while i < s.len()
        invariant
            i <= s.len(),
            out@ + without_ellipses(s@.subrange(i as int, s.len() as int)) == without_ellipses(
                s@,
            ),
        decreases s.len() - i,
    {
        let ghost rest = s@.subrange(i as int, s.len() as int);
        if s.len() - i >= 3 && s[i] == '.' && s[i + 1] == '.' && s[i + 2] == '.' {
            assert(rest.subrange(3, rest.len() as int) =~= s@.subrange(i + 3, s.len() as int));
            i = i + 3;
        } else {
            assert(rest.drop_first() =~= s@.subrange(i + 1, s.len() as int));
            let ghost before = out@;
            out.push(s[i]);
            assert(out@ + without_ellipses(s@.subrange(i + 1, s.len() as int)) =~= before + (seq![
                s@[i as int],
            ] + without_ellipses(rest.drop_first())));
            i = i + 1;
        }
    }
    assert(without_ellipses(s@.subrange(s.len() as int, s.len() as int)) =~= Seq::<
        char,
    >::empty());
    assert(out@ + Seq::<char>::empty() =~= out@);
    out
}

impl Table {
    /// Reads the first bracketed region of a matrix literal: `...` marks are removed, rows are
    /// split at `;`, each row is split on white space, and each piece is inferred; short rows
    /// are padded with blank cells. A text without such a region is an `M` error.
    pub fn from_m(raw: &str, additional_data: &Option<String>) -> (r: Result<Table, ParseTableError>)
        ensures
            match matrix_body(raw@) {
                Some(body) => r is Ok && r->Ok_0.wf() && r->Ok_0@ == rectangularized(
                    matrix_rows(body),
                ),
                None => r is Err && r->Err_0 is M,
            },
    {
        let cs = chars_of(raw);
        let (p, q) = match find_region(&cs) {
            Some(region) => region,
            None => {
                return Err(ParseTableError::M(ParseMTableError));
            },
        };
        let values = remove_ellipses(&sub_chars(&cs, p + 1, q));
        let pieces = split_chars(&values, ';');
        let ghost pv = split_on(values@, ';');
        let mut rows: Vec<Vec<crate::cell::Cell>> = Vec::new();
        let mut i: usize = 0;
        while i < pieces.len()
            invariant
                i <= pieces.len(),
                chars_view(pieces@) == pv,
                rows_view(rows@) == pv.subrange(0, i as int).map_values(
                    |r: Seq<char>| inferred_pieces(words(r)),
                ),
            decreases pieces.len() - i,
        {
            assert(pieces[i as int]@ == pv[i as int]);
            let ghost prev = rows@;
            let row = infer_pieces(&split_words(&pieces[i]));
            rows.push(row);
            proof {
                lemma_rows_push(prev, row);
            }
            i = i + 1;
            assert(pv.subrange(0, i as int).map_values(|r: Seq<char>| inferred_pieces(words(r)))
                =~= pv.subrange(0, i - 1).map_values(|r: Seq<char>| inferred_pieces(words(r))).push(
                inferred_pieces(words(pv[i - 1])),
            ));
        }
        assert(pv.subrange(0, pieces.len() as int) =~= pv);
        Ok(Table::from_rows(rows))
    }
}

} // verus!
