//! Where a function item keeps its parameter list and its body.
use crate::diagnostic::{Block, Diagnostic, DiagnosticView, ErrorKind};
use crate::token::{view_of, Delimiter, Token, TokenView};
use vstd::prelude::*;

verus! {

pub open spec fn is_group_with(t: TokenView, d: Delimiter) -> bool {
    t is Group && t->Group_0 == d
}

/// The first index from `from` on that holds a group with delimiter `d`.
pub open spec fn first_group(s: Seq<TokenView>, from: int, d: Delimiter) -> Option<int>
    decreases s.len() - from,
{
    if from < 0 || from >= s.len() {
        None
    } else if is_group_with(s[from], d) {
        Some(from)
    } else {
        first_group(s, from + 1, d)
    }
}

/// The last index from `from` on that holds a group with delimiter `d`.
pub open spec fn last_group(s: Seq<TokenView>, from: int, d: Delimiter) -> Option<int>
    decreases s.len() - from,
{
    if from < 0 || from >= s.len() {
        None
    } else {
        match last_group(s, from + 1, d) {
            Some(i) => Some(i),
            None => if is_group_with(s[from], d) {
                Some(from)
            } else {
                None
            },
        }
    }
}

/// The first index that holds the identifier `fn`.
pub open spec fn first_fn(s: Seq<TokenView>, from: int) -> Option<int>
    decreases s.len() - from,
{
    if from < 0 || from >= s.len() {
        None
    } else if s[from] == TokenView::Ident("fn"@) {
        Some(from)
    } else {
        first_fn(s, from + 1)
    }
}

/// The index of the parameter list and of the body of a function item: the first parenthesis
/// group after the first `fn`, and the last brace group after it (a brace group in the return
/// type, such as a const argument, comes before the body).
pub open spec fn fn_shape(s: Seq<TokenView>) -> Option<(int, int)> {
    match first_fn(s, 0) {
        None => None,
        Some(f) => match first_group(s, f + 1, Delimiter::Parenthesis) {
            None => None,
            Some(p) => match last_group(s, p + 1, Delimiter::Brace) {
                None => None,
                Some(b) => Some((p, b)),
            },
        },
    }
}

pub open spec fn shape_error() -> DiagnosticView {
    DiagnosticView { kind: ErrorKind::StructuralShape, block: Block::General, subject: seq![] }
}

proof fn lemma_first_group_bounds(s: Seq<TokenView>, from: int, d: Delimiter)
    ensures
        first_group(s, from, d) matches Some(i) ==> from <= i < s.len() && is_group_with(s[i], d),
    decreases s.len() - from,
{
    if 0 <= from < s.len() && !is_group_with(s[from], d) {
        lemma_first_group_bounds(s, from + 1, d);
    }
}

proof fn lemma_last_group_bounds(s: Seq<TokenView>, from: int, d: Delimiter)
    ensures
        last_group(s, from, d) matches Some(i) ==> from <= i < s.len() && is_group_with(s[i], d),
    decreases s.len() - from,
{
    if 0 <= from < s.len() {
        lemma_last_group_bounds(s, from + 1, d);
    }
}

proof fn lemma_first_fn_bounds(s: Seq<TokenView>, from: int)
    ensures
        first_fn(s, from) matches Some(i) ==> from <= i < s.len(),
    decreases s.len() - from,
{
    if 0 <= from < s.len() && s[from] != TokenView::Ident("fn"@) {
        lemma_first_fn_bounds(s, from + 1);
    }
}

pub proof fn lemma_fn_shape_bounds(s: Seq<TokenView>)
    ensures
        fn_shape(s) matches Some((p, b)) ==> 0 <= p < b < s.len() && is_group_with(
            s[p],
            Delimiter::Parenthesis,
        ) && is_group_with(s[b], Delimiter::Brace),
{
    lemma_first_fn_bounds(s, 0);
    if let Some(f) = first_fn(s, 0) {
        lemma_first_group_bounds(s, f + 1, Delimiter::Parenthesis);
        if let Some(p) = first_group(s, f + 1, Delimiter::Parenthesis) {
            lemma_last_group_bounds(s, p + 1, Delimiter::Brace);
        }
    }
}

fn find_group(v: &Vec<Token>, from: usize, d: Delimiter) -> (r: Option<usize>)
    ensures
        match r {
            Some(i) => first_group(view_of(v@), from as int, d) == Some(i as int),
            None => first_group(view_of(v@), from as int, d) is None,
        },
{
    let ghost s = view_of(v@);
    let mut i = from;
    while i < v.len()
        invariant
            from <= i,
            s == view_of(v@),
            first_group(s, from as int, d) == first_group(s, i as int, d),
        decreases v@.len() - i,
    {
        if let Token::Group(e, c) = &v[i] {
            proof {
                crate::token::lemma_group_view(*e, *c);
            }
            if *e == d {
                return Some(i);
            }
        }
        i += 1;
    }
    None
}

fn find_last_group(v: &Vec<Token>, from: usize, d: Delimiter) -> (r: Option<usize>)
    ensures
        match r {
            Some(i) => last_group(view_of(v@), from as int, d) == Some(i as int),
            None => last_group(view_of(v@), from as int, d) is None,
        },
{
    let ghost s = view_of(v@);
    if from >= v.len() {
        return None;
    }
    let mut i = v.len();
    while i > from
        invariant
            from <= i <= v@.len(),
            s == view_of(v@),
            forall|k: int| i <= k < s.len() ==> !is_group_with(#[trigger] s[k], d),
        decreases i,
    {
        i -= 1;
        if let Token::Group(e, c) = &v[i] {
            proof {
                crate::token::lemma_group_view(*e, *c);
            }
            if *e == d {
                proof {
                    lemma_last_group_after(s, i as int, from as int, d);
                }
                return Some(i);
            }
        }
    }
    proof {
        lemma_last_group_none(s, from as int, d);
    }
    None
}

proof fn lemma_last_group_after(s: Seq<TokenView>, i: int, from: int, d: Delimiter)
    requires
        0 <= from <= i < s.len(),
        is_group_with(s[i], d),
        forall|k: int| i < k < s.len() ==> !is_group_with(#[trigger] s[k], d),
    ensures
        last_group(s, from, d) == Some(i),
    decreases i - from,
{
    lemma_last_group_none(s, i + 1, d);
    if from < i {
        lemma_last_group_after(s, i, from + 1, d);
    }
}

proof fn lemma_last_group_none(s: Seq<TokenView>, from: int, d: Delimiter)
    requires
        0 <= from,
        forall|k: int| from <= k < s.len() ==> !is_group_with(#[trigger] s[k], d),
    ensures
        last_group(s, from, d) is None,
    decreases s.len() - from,
{
    if from < s.len() {
        lemma_last_group_none(s, from + 1, d);
    }
}

fn find_fn(v: &Vec<Token>) -> (r: Option<usize>)
    ensures
        match r {
            Some(i) => first_fn(view_of(v@), 0) == Some(i as int),
            None => first_fn(view_of(v@), 0) is None,
        },
{
    let ghost s = view_of(v@);
    let mut i: usize = 0;
    while i < v.len()
        invariant
            s == view_of(v@),
            first_fn(s, 0) == first_fn(s, i as int),
        decreases v@.len() - i,
    {
        if let Token::Ident(w) = &v[i] {
            if crate::names::is_word(w, "fn") {
                return Some(i);
            }
        }
        i += 1;
    }
    None
}

/// Finds the parameter list and the body of a function item.
pub fn find_fn_shape(v: &Vec<Token>) -> (r: Result<(usize, usize), Diagnostic>)
    ensures
        match r {
            Ok((p, b)) => fn_shape(view_of(v@)) == Some((p as int, b as int)),
            Err(e) => fn_shape(view_of(v@)) is None && e@ == shape_error(),
        },
{
    let n = v.len();
    let err = Diagnostic::new(ErrorKind::StructuralShape, Block::General, String::new());
    let Some(f) = find_fn(v) else { return Err(err) };
    proof {
        lemma_first_fn_bounds(view_of(v@), 0);
    }
    assert(f < n);
    let Some(p) = find_group(v, f + 1, Delimiter::Parenthesis) else { return Err(err) };
    proof {
        lemma_first_group_bounds(view_of(v@), f + 1, Delimiter::Parenthesis);
    }
    assert(p < n);
    let Some(b) = find_last_group(v, p + 1, Delimiter::Brace) else { return Err(err) };
    Ok((p, b))
}

} // verus!
