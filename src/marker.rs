//! Marker annotations: `#` followed by a bracket group that reads as `Path(Arguments)`.
use crate::token::{clone_tokens, view_of, Delimiter, Spacing, Token, TokenView};
use vstd::prelude::*;

verus! {

/// What follows the path of a marker.
pub enum MarkerArgs {
    /// Nothing: `#[path]`.
    Word,
    /// A delimited group: `#[path(tokens)]`.
    List(Delimiter, Vec<Token>),
    /// `=` and at least one token: `#[path = tokens]`.
    NameValue(Vec<Token>),
}

/// The value of [`MarkerArgs`].
pub enum ArgsView {
    Word,
    List(Delimiter, Seq<TokenView>),
    NameValue(Seq<TokenView>),
}

/// A parsed marker: a path of identifiers joined by `::`, and its arguments.
pub struct Marker {
    /// The path starts with `::`.
    pub global: bool,
    pub segments: Vec<String>,
    pub args: MarkerArgs,
}

/// The value of a [`Marker`].
pub struct MarkerView {
    pub global: bool,
    pub segments: Seq<Seq<char>>,
    pub args: ArgsView,
}

pub open spec fn strings_view(s: Seq<String>) -> Seq<Seq<char>> {
    Seq::new(s.len(), |i: int| s[i]@)
}

impl MarkerArgs {
    pub open spec fn view(self) -> ArgsView {
        match self {
            MarkerArgs::Word => ArgsView::Word,
            MarkerArgs::List(d, v) => ArgsView::List(d, view_of(v@)),
            MarkerArgs::NameValue(v) => ArgsView::NameValue(view_of(v@)),
        }
    }
}

impl Marker {
    pub open spec fn view(self) -> MarkerView {
        MarkerView { global: self.global, segments: strings_view(self.segments@), args: self.args.view() }
    }
}

/// The token is the punctuation character `c`.
pub open spec fn is_punct(t: TokenView, c: char) -> bool {
    t is Punct && t->Punct_0 == c
}

/// A `::` starts at `i`.
pub open spec fn is_path_sep(s: Seq<TokenView>, i: int) -> bool {
    0 <= i && i + 1 < s.len() && s[i] == TokenView::Punct(':', Spacing::Joint) && is_punct(
        s[i + 1],
        ':',
    )
}

/// The segments of the path whose first identifier stands at `i`, and the index after it.
pub open spec fn path_at(s: Seq<TokenView>, i: int) -> (Seq<Seq<char>>, int)
    decreases s.len() - i,
{
    if 0 <= i < s.len() && s[i] is Ident {
        if is_path_sep(s, i + 1) && i + 3 < s.len() && s[i + 3] is Ident {
            let rest = path_at(s, i + 3);
            (seq![s[i]->Ident_0] + rest.0, rest.1)
        } else {
            (seq![s[i]->Ident_0], i + 1)
        }
    } else {
        (seq![], i)
    }
}

/// What the contents of a bracket group read as, if they read as a marker.
pub open spec fn marker_of(s: Seq<TokenView>) -> Option<MarkerView> {
    let global = is_path_sep(s, 0);
    let start: int = if global { 2 } else { 0 };
    if start < s.len() && s[start] is Ident {
        let (segments, end) = path_at(s, start);
        if end == s.len() {
            Some(MarkerView { global, segments, args: ArgsView::Word })
        } else if end + 1 == s.len() && s[end] is Group {
            Some(
                MarkerView {
                    global,
                    segments,
                    args: ArgsView::List(s[end]->Group_0, s[end]->Group_1),
                },
            )
        } else if is_punct(s[end], '=') && end + 1 < s.len() {
            Some(
                MarkerView {
                    global,
                    segments,
                    args: ArgsView::NameValue(s.subrange(end + 1, s.len() as int)),
                },
            )
        } else {
            None
        }
    } else {
        None
    }
}

proof fn lemma_path_at_bounds(s: Seq<TokenView>, i: int)
    requires
        0 <= i < s.len(),
        s[i] is Ident,
    ensures
        i < path_at(s, i).1 <= s.len(),
        path_at(s, i).0.len() >= 1,
    decreases s.len() - i,
{
    if is_path_sep(s, i + 1) && i + 3 < s.len() && s[i + 3] is Ident {
        lemma_path_at_bounds(s, i + 3);
    }
}

/// A `::` starts at `i`.
fn path_sep_at(v: &Vec<Token>, i: usize) -> (r: bool)
    ensures
        r == is_path_sep(view_of(v@), i as int),
{
    if i < v.len() && v.len() - i > 1 {
        let first = match &v[i] {
            Token::Punct(c, sp) => *c == ':' && *sp == Spacing::Joint,
            _ => false,
        };
        let second = match &v[i + 1] {
            Token::Punct(c, _) => *c == ':',
            _ => false,
        };
        first && second
    } else {
        false
    }
}

pub(crate) fn ident_at(v: &Vec<Token>, i: usize) -> (r: Option<String>)
    ensures
        match r {
            Some(s) => i < v@.len() && view_of(v@)[i as int] == TokenView::Ident(s@),
            None => !(i < v@.len() && view_of(v@)[i as int] is Ident),
        },
{
    if i < v.len() {
        match &v[i] {
            Token::Ident(s) => Some(s.clone()),
            _ => None,
        }
    } else {
        None
    }
}

/// Reads the contents of a bracket group as a marker.
pub fn parse_marker(content: &Vec<Token>) -> (r: Option<Marker>)
    ensures
        match r {
            Some(m) => marker_of(view_of(content@)) == Some(m@),
            None => marker_of(view_of(content@)) is None,
        },
{
    let ghost s = view_of(content@);
    let global = path_sep_at(content, 0);
    let start: usize = if global { 2 } else { 0 };
    let first = ident_at(content, start);
    let Some(first) = first else { return None };
    let mut segments: Vec<String> = Vec::new();
    segments.push(first);
    let mut i: usize = start;
    proof {
        lemma_path_at_bounds(s, start as int);
    }
    loop
        invariant
            start <= i < s.len(),
            i < content.len(),
            s == view_of(content@),
            s[i as int] is Ident,
            segments@.len() >= 1,
            path_at(s, start as int) == (
                strings_view(segments@).drop_last() + path_at(s, i as int).0,
                path_at(s, i as int).1,
            ),
            strings_view(segments@).last() == s[i as int]->Ident_0,
        ensures
            path_at(s, i as int) == (seq![s[i as int]->Ident_0], i + 1),
        decreases s.len() - i,
    {
        proof {
            lemma_path_at_bounds(s, i as int);
        }
        if path_sep_at(content, i + 1) && content.len() - i > 3 {
            match ident_at(content, i + 3) {
                Some(next) => {
                    let ghost before = segments@;
                    segments.push(next);
                    proof {
                        assert(strings_view(segments@).drop_last() =~= strings_view(before));
                        assert(strings_view(before) =~= strings_view(before).drop_last() + seq![
                            s[i as int]->Ident_0,
                        ]);
                    }
                    i = i + 3;
                },
                None => break,
            }
        } else {
            break;
        }
    }
    let end = i + 1;
    proof {
        assert(strings_view(segments@) =~= strings_view(segments@).drop_last() + seq![
            s[i as int]->Ident_0,
        ]);
    }
    let args = if end == content.len() {
        MarkerArgs::Word
    } else if content.len() - end == 1 {
        match &content[end] {
            Token::Group(d, c) => {
                proof {
                    lemma_group_view_of_seq(content@, end as int);
                }
                MarkerArgs::List(*d, clone_tokens(c))
            },
            _ => return None,
        }
    } else {
        match &content[end] {
            Token::Punct(c, _) => {
                if *c != '=' {
                    return None;
                }
            },
            _ => return None,
        }
        let mut rest: Vec<Token> = Vec::new();
        let mut j: usize = end + 1;
        while j < content.len()
            invariant
                end + 1 <= j <= content@.len(),
                s == view_of(content@),
                rest@.len() == j - end - 1,
                forall|k: int| 0 <= k < rest@.len() ==> (#[trigger] rest@[k])@ == content@[end + 1 + k]@,
            decreases content@.len() - j,
        {
            let t = content[j].deep_clone();
            rest.push(t);
            j += 1;
        }
        assert(view_of(rest@) =~= s.subrange(end + 1, s.len() as int));
        MarkerArgs::NameValue(rest)
    };
    Some(Marker { global, segments, args })
}

proof fn lemma_group_view_of_seq(v: Seq<Token>, i: int)
    requires
        0 <= i < v.len(),
        v[i] is Group,
    ensures
        view_of(v)[i] == TokenView::Group(v[i]->Group_0, view_of(v[i]->Group_1@)),
{
    crate::token::lemma_group_view(v[i]->Group_0, v[i]->Group_1);
}

} // verus!
