//! The recursive walk that finds marker annotations at any depth and rewrites them.
use crate::diagnostic::{diagnostics_view, Diagnostic, DiagnosticView};
use crate::marker::{is_punct, marker_of, parse_marker, strings_view, ArgsView, Marker, MarkerArgs, MarkerView};
use crate::token::{clone_tokens, view_of, Delimiter, Token, TokenView};
use vstd::prelude::*;

verus! {

/// A table of rewrites, keyed by the path of a marker.
pub trait Rewriter {
    /// The value of a table.
    type Table;

    spec fn table(&self) -> Self::Table;

    /// `None` where the table has no entry for the marker's path; else what the entry
    /// makes of the marker: its replacement, or every error found in it.
    spec fn rewrite_spec(t: Self::Table, m: MarkerView) -> Option<Result<Seq<TokenView>, Seq<DiagnosticView>>>;

    fn rewrite(&self, m: &Marker) -> (r: Option<Result<Vec<Token>, Vec<Diagnostic>>>)
        ensures
            outcome_view(r) == Self::rewrite_spec(self.table(), m@),
    ;
}

pub open spec fn outcome_view(r: Option<Result<Vec<Token>, Vec<Diagnostic>>>) -> Option<
    Result<Seq<TokenView>, Seq<DiagnosticView>>,
> {
    match r {
        None => None,
        Some(Ok(v)) => Some(Ok(view_of(v@))),
        Some(Err(e)) => Some(Err(diagnostics_view(e@))),
    }
}

/// `#` followed by a bracket group stands at the start of `s`.
pub open spec fn starts_with_marker(s: Seq<TokenView>) -> bool {
    s.len() >= 2 && is_punct(s[0], '#') && s[1] is Group && s[1]->Group_0 == Delimiter::Bracket
}

/// What the table makes of the marker at the start of `s`, if it has an entry for it.
pub open spec fn handled_at<R: Rewriter>(r: R::Table, s: Seq<TokenView>) -> Option<
    Result<Seq<TokenView>, Seq<DiagnosticView>>,
> {
    if starts_with_marker(s) {
        match marker_of(s[1]->Group_1) {
            Some(m) => R::rewrite_spec(r, m),
            None => None,
        }
    } else {
        None
    }
}

/// The rewritten sequence, and every error met on the way, in order.
pub open spec fn walk<R: Rewriter>(r: R::Table, s: Seq<TokenView>) -> (Seq<TokenView>, Seq<
    DiagnosticView,
>)
    decreases s,
{
    if s.len() == 0 {
        (seq![], seq![])
    } else if starts_with_marker(s) {
        let rest = walk::<R>(r, s.subrange(2, s.len() as int));
        match handled_at::<R>(r, s) {
            Some(Ok(t)) => (t + rest.0, rest.1),
            Some(Err(e)) => (rest.0, e + rest.1),
            None => (seq![s[0], s[1]] + rest.0, rest.1),
        }
    } else {
        let rest = walk::<R>(r, s.subrange(1, s.len() as int));
        match s[0] {
            TokenView::Group(d, c) => {
                let inner = walk::<R>(r, c);
                (seq![TokenView::Group(d, inner.0)] + rest.0, inner.1 + rest.1)
            },
            _ => (seq![s[0]] + rest.0, rest.1),
        }
    }
}

/// Rewrites every marker of `input` that `rewriter` has an entry for, at any depth, and
/// reports every error of every subtree together.
pub fn substitute_attributes<R: Rewriter>(input: &Vec<Token>, rewriter: &R) -> (r: Result<
    Vec<Token>,
    Vec<Diagnostic>,
>)
    ensures
        match r {
            Ok(v) => walk::<R>(rewriter.table(), view_of(input@)).1.len() == 0 && view_of(v@) == walk::<R>(rewriter.table(), view_of(input@)).0,
            Err(e) => e@.len() > 0 && diagnostics_view(e@) == walk::<R>(rewriter.table(), view_of(input@)).1,
        },
{
    let (out, errs) = walk_tokens(input, rewriter);
    if errs.len() == 0 {
        Ok(out)
    } else {
        Err(errs)
    }
}

fn walk_tokens<R: Rewriter>(input: &Vec<Token>, rewriter: &R) -> (r: (Vec<Token>, Vec<Diagnostic>))
    ensures
        view_of(r.0@) == walk::<R>(rewriter.table(), view_of(input@)).0,
        diagnostics_view(r.1@) == walk::<R>(rewriter.table(), view_of(input@)).1,
    decreases input@,
{
    let ghost s = view_of(input@);
    let mut out: Vec<Token> = Vec::new();
    let mut errs: Vec<Diagnostic> = Vec::new();
    let mut i: usize = 0;
    proof {
        assert(s.subrange(0, s.len() as int) =~= s);
        assert(view_of(out@) + walk::<R>(rewriter.table(), s).0 =~= walk::<R>(rewriter.table(), s).0);
        assert(diagnostics_view(errs@) + walk::<R>(rewriter.table(), s).1 =~= walk::<R>(rewriter.table(), s).1);
    }
    while i < input.len()
        invariant
            i <= input@.len(),
            s == view_of(input@),
            walk::<R>(rewriter.table(), s) == (
                view_of(out@) + walk::<R>(rewriter.table(), s.subrange(i as int, s.len() as int)).0,
                diagnostics_view(errs@) + walk::<R>(rewriter.table(), s.subrange(i as int, s.len() as int)).1,
            ),
        decreases input@.len() - i,
    {
        let ghost t = s.subrange(i as int, s.len() as int);
        let ghost out0 = out@;
        let ghost errs0 = errs@;
        let is_hash = match &input[i] {
            Token::Punct(c, _) => *c == '#',
            _ => false,
        };
        let mut step: usize = 1;
        let mut done = false;
        if is_hash && input.len() - i >= 2 {
            if let Token::Group(d, c) = &input[i + 1] {
                if *d == Delimiter::Bracket {
                    proof {
                        crate::token::lemma_group_view(*d, *c);
                        assert(starts_with_marker(t));
                        assert(t[1]->Group_1 == view_of(c@));
                    }
                    step = 2;
                    done = true;
                    let handled = match parse_marker(c) {
                        Some(m) => rewriter.rewrite(&m),
                        None => None,
                    };
                    match handled {
                        Some(Ok(v)) => {
                            let mut v = v;
                            out.append(&mut v);
                        },
                        Some(Err(e)) => {
                            let mut e = e;
                            errs.append(&mut e);
                        },
                        None => {
                            out.push(input[i].deep_clone());
                            out.push(input[i + 1].deep_clone());
                        },
                    }
                }
            }
        }
        if !done {
            proof {
                assert(!starts_with_marker(t));
            }
            match &input[i] {
                Token::Group(d, c) => {
                    proof {
                        crate::token::lemma_group_view(*d, *c);
                        let tok = input@[i as int];
                        assert(decreases_to!(tok => tok->Group_1));
                        assert(decreases_to!(input@ => c@));
                    }
                    let (inner, mut inner_errs) = walk_tokens(c, rewriter);
                    proof {
                        crate::token::lemma_group_view(*d, inner);
                    }
                    out.push(Token::Group(*d, inner));
                    errs.append(&mut inner_errs);
                },
                _ => {
                    out.push(input[i].deep_clone());
                },
            }
        }
        proof {
            let rest = s.subrange(i + step, s.len() as int);
            assert(t.subrange(step as int, t.len() as int) =~= rest);
            assert(view_of(out@) =~= view_of(out0) + (walk::<R>(rewriter.table(), t).0.subrange(
                0,
                walk::<R>(rewriter.table(), t).0.len() - walk::<R>(rewriter.table(), rest).0.len(),
            )));
            assert(diagnostics_view(errs@) =~= diagnostics_view(errs0) + (walk::<R>(rewriter.table(), t).1.subrange(
                0,
                walk::<R>(rewriter.table(), t).1.len() - walk::<R>(rewriter.table(), rest).1.len(),
            )));
        }
        i = i + step;
    }
    proof {
        assert(s.subrange(s.len() as int, s.len() as int) =~= Seq::<TokenView>::empty());
        assert(view_of(out@) =~= view_of(out@) + Seq::<TokenView>::empty());
        assert(diagnostics_view(errs@) =~= diagnostics_view(errs@) + Seq::<DiagnosticView>::empty());
    }
    (out, errs)
}

/// A `#` that ends `a` pairs with a group delimited by `d`.
pub open spec fn hash_before(a: Seq<TokenView>, d: Delimiter) -> bool {
    a.len() > 0 && is_punct(a.last(), '#') && d == Delimiter::Bracket
}

pub open spec fn group_view(d: Delimiter, c: Seq<TokenView>) -> TokenView {
    TokenView::Group(d, c)
}

/// A marker three groups deep is found and rewritten in place: each group keeps its delimiter,
/// and the nodes around the marker and around each group keep their order, each walked as
/// it would be on its own.
pub proof fn lemma_walk_three_deep<R: Rewriter>(
    r: R::Table,
    a: Seq<TokenView>, b: Seq<TokenView>, c: Seq<TokenView>, x: Seq<TokenView>,
    content: Seq<TokenView>, out: Seq<TokenView>,
    y: Seq<TokenView>, c2: Seq<TokenView>, b2: Seq<TokenView>, a2: Seq<TokenView>,
    d1: Delimiter, d2: Delimiter, d3: Delimiter,
)
    requires
        !hash_before(a, d1),
        !hash_before(b, d2),
        !hash_before(c, d3),
        marker_of(content) matches Some(m) && R::rewrite_spec(r, m) == Some(Ok::<Seq<TokenView>, Seq<DiagnosticView>>(out)),
    ensures
        ({
            let marker = seq![TokenView::Punct('#', crate::token::Spacing::Alone), group_view(Delimiter::Bracket, content)];
            let input = a + seq![group_view(d1, b + seq![group_view(d2, c + seq![group_view(d3, x + marker + y)] + c2)] + b2)] + a2;
            walk::<R>(r, input).0 == walk::<R>(r, a).0 + seq![group_view(
                d1,
                walk::<R>(r, b).0 + seq![group_view(
                    d2,
                    walk::<R>(r, c).0 + seq![group_view(d3, walk::<R>(r, x).0 + out + walk::<R>(r, y).0)]
                        + walk::<R>(r, c2).0,
                )] + walk::<R>(r, b2).0,
            )] + walk::<R>(r, a2).0
        }),
{
    let marker = seq![TokenView::Punct('#', crate::token::Spacing::Alone), group_view(Delimiter::Bracket, content)];
    let my = marker + y;
    assert(starts_with_marker(my));
    assert(my[1] == group_view(Delimiter::Bracket, content));
    assert(my.subrange(2, my.len() as int) =~= y);
    assert(walk::<R>(r, my).0 == out + walk::<R>(r, y).0);
    lemma_walk_concat::<R>(r, x, my);
    assert(x + marker + y =~= x + my);
    let inner3 = x + marker + y;
    let w3 = walk::<R>(r, inner3).0;
    assert(w3 =~= walk::<R>(r, x).0 + out + walk::<R>(r, y).0);
    lemma_walk_group::<R>(r, c, d3, inner3, c2);
    let inner2 = c + seq![group_view(d3, inner3)] + c2;
    lemma_walk_group::<R>(r, b, d2, inner2, b2);
    let inner1 = b + seq![group_view(d2, inner2)] + b2;
    lemma_walk_group::<R>(r, a, d1, inner1, a2);
}

/// What an entry of a [`FixedTable`] puts in place of its marker.
pub enum Replacement {
    /// These tokens.
    Tokens(Vec<Token>),
    /// The marker's own arguments: the contents of its group, or the tokens after its `=`.
    Arguments,
}

pub enum ReplacementView {
    Tokens(Seq<TokenView>),
    Arguments,
}

/// A table whose entries are keyed by a single identifier and never fail.
pub struct FixedTable {
    pub entries: Vec<(String, Replacement)>,
}

pub open spec fn replacement_view(r: Replacement) -> ReplacementView {
    match r {
        Replacement::Tokens(v) => ReplacementView::Tokens(view_of(v@)),
        Replacement::Arguments => ReplacementView::Arguments,
    }
}

pub open spec fn entries_view(e: Seq<(String, Replacement)>) -> Seq<(Seq<char>, ReplacementView)> {
    Seq::new(e.len(), |i: int| (e[i].0@, replacement_view(e[i].1)))
}

/// The last entry for `name`.
pub open spec fn entry_for(e: Seq<(Seq<char>, ReplacementView)>, name: Seq<char>) -> Option<ReplacementView>
    decreases e.len(),
{
    if e.len() == 0 {
        None
    } else if e.last().0 == name {
        Some(e.last().1)
    } else {
        entry_for(e.drop_last(), name)
    }
}

pub open spec fn arguments_of(a: ArgsView) -> Seq<TokenView> {
    match a {
        ArgsView::Word => seq![],
        ArgsView::List(_, c) => c,
        ArgsView::NameValue(v) => v,
    }
}

impl Rewriter for FixedTable {
    type Table = Seq<(Seq<char>, ReplacementView)>;

    open spec fn table(&self) -> Seq<(Seq<char>, ReplacementView)> {
        entries_view(self.entries@)
    }

    open spec fn rewrite_spec(t: Seq<(Seq<char>, ReplacementView)>, m: MarkerView) -> Option<Result<Seq<TokenView>, Seq<DiagnosticView>>> {
        if !m.global && m.segments.len() == 1 {
            match entry_for(t, m.segments[0]) {
                Some(ReplacementView::Tokens(v)) => Some(Ok(v)),
                Some(ReplacementView::Arguments) => Some(Ok(arguments_of(m.args))),
                None => None,
            }
        } else {
            None
        }
    }

    fn rewrite(&self, m: &Marker) -> (r: Option<Result<Vec<Token>, Vec<Diagnostic>>>) {
        if m.global || m.segments.len() != 1 {
            return None;
        }
        let name = &m.segments[0];
        assert(strings_view(m.segments@)[0] == name@);
        let ghost t = entries_view(self.entries@);
        let mut i = self.entries.len();
        assert(t.take(i as int) =~= t);
        while i > 0
            invariant
                i <= self.entries@.len(),
                t == entries_view(self.entries@),
                !m@.global && m@.segments.len() == 1 && m@.segments[0] == name@,
                entry_for(t, name@) == entry_for(t.take(i as int), name@),
            decreases i,
        {
            assert(t.take(i as int).drop_last() =~= t.take(i - 1));
            let (key, rep) = &self.entries[i - 1];
            assert(t.take(i as int).last() == (key@, replacement_view(*rep)));
            if *key == *name {
                let out = match rep {
                    Replacement::Tokens(v) => clone_tokens(v),
                    Replacement::Arguments => match &m.args {
                        MarkerArgs::Word => {
                            let v: Vec<Token> = Vec::new();
                            assert(view_of(v@) =~= Seq::<TokenView>::empty());
                            v
                        },
                        MarkerArgs::List(_, c) => clone_tokens(c),
                        MarkerArgs::NameValue(v) => clone_tokens(v),
                    },
                };
                return Some(Ok(out));
            }
            i -= 1;
        }
        None
    }
}

/// A `#` that ends `a` would pair with a bracket group that starts `b`.
pub open spec fn pairs_across(a: Seq<TokenView>, b: Seq<TokenView>) -> bool {
    a.len() > 0 && is_punct(a.last(), '#') && b.len() > 0 && b[0] is Group && b[0]->Group_0
        == Delimiter::Bracket
}

/// Walking a concatenation walks each part: the outputs follow each other in order and so do
/// the errors, so that an error of either part is reported together with those of the other.
/// The one exception is a `#` that ends the first part and a bracket group that starts the
/// second, which together form a marker.
pub proof fn lemma_walk_concat<R: Rewriter>(r: R::Table, a: Seq<TokenView>, b: Seq<TokenView>)
    requires
        !pairs_across(a, b),
    ensures
        walk::<R>(r, a + b) == (walk::<R>(r, a).0 + walk::<R>(r, b).0, walk::<R>(r, a).1 + walk::<R>(r, b).1),
    decreases a.len(),
{
    let ab = a + b;
    if a.len() == 0 {
        assert(ab =~= b);
        assert(walk::<R>(r, a).0 + walk::<R>(r, b).0 =~= walk::<R>(r, b).0);
        assert(walk::<R>(r, a).1 + walk::<R>(r, b).1 =~= walk::<R>(r, b).1);
    } else {
        let k: int = if starts_with_marker(ab) { 2 } else { 1 };
        if starts_with_marker(ab) {
            assert(a.len() >= 2);
            assert(starts_with_marker(a));
            assert(ab[1] == a[1]);
            assert(handled_at::<R>(r, ab) == handled_at::<R>(r, a));
        } else {
            assert(!starts_with_marker(a));
        }
        let a2 = a.subrange(k, a.len() as int);
        assert(ab.subrange(k, ab.len() as int) =~= a2 + b);
        if a2.len() > 0 {
            assert(a2.last() == a.last());
        }
        lemma_walk_concat::<R>(r, a2, b);
        let wa = walk::<R>(r, a);
        let wb = walk::<R>(r, b);
        let wab = walk::<R>(r, ab);
        let w2 = walk::<R>(r, a2);
        assert(wab.0 =~= wa.0 + wb.0);
        assert(wab.1 =~= wa.1 + wb.1);
    }
}

/// A group is walked at any depth: walking a sequence that holds a group gives the same group
/// around its walked children, with the walked nodes before and after it in their order.
pub proof fn lemma_walk_group<R: Rewriter>(
    r: R::Table,
    before: Seq<TokenView>,
    d: Delimiter,
    children: Seq<TokenView>,
    after: Seq<TokenView>,
)
    requires
        !(before.len() > 0 && is_punct(before.last(), '#') && d == Delimiter::Bracket),
    ensures
        walk::<R>(r, before + seq![TokenView::Group(d, children)] + after) == (
            walk::<R>(r, before).0 + seq![TokenView::Group(d, walk::<R>(r, children).0)] + walk::<R>(r, after).0,
            walk::<R>(r, before).1 + walk::<R>(r, children).1 + walk::<R>(r, after).1,
        ),
{
    let g = seq![TokenView::Group(d, children)];
    let e = Seq::<TokenView>::empty();
    assert(g.subrange(1, 1) =~= e);
    assert(!starts_with_marker(g));
    assert(walk::<R>(r, e) == (Seq::<TokenView>::empty(), Seq::<DiagnosticView>::empty()));
    assert(walk::<R>(r, g).0 =~= seq![TokenView::Group(d, walk::<R>(r, children).0)]);
    assert(walk::<R>(r, g).1 =~= walk::<R>(r, children).1);
    lemma_walk_concat::<R>(r, g, after);
    lemma_walk_concat::<R>(r, before, g + after);
    assert(before + g + after =~= before + (g + after));
    assert(walk::<R>(r, before).0 + walk::<R>(r, g + after).0 =~= walk::<R>(r, before).0 + seq![
        TokenView::Group(d, walk::<R>(r, children).0),
    ] + walk::<R>(r, after).0);
    assert(walk::<R>(r, before).1 + walk::<R>(r, g + after).1 =~= walk::<R>(r, before).1 + walk::<R>(r, children).1 + walk::<R>(r, after).1);
}

/// `s` holds no marker whose path is one of `paths`, at any depth.
pub open spec fn free_of(s: Seq<TokenView>, paths: Set<Seq<Seq<char>>>) -> bool
    decreases s,
{
    if s.len() == 0 {
        true
    } else {
        let here = starts_with_marker(s) && match marker_of(s[1]->Group_1) {
            Some(m) => !m.global && paths.contains(m.segments),
            None => false,
        };
        !here && match s[0] {
            TokenView::Group(_, c) => free_of(c, paths),
            _ => true,
        } && free_of(s.subrange(1, s.len() as int), paths)
    }
}

/// Two sequences free of the markers stay free when joined, unless a `#` that ends the first
/// meets a bracket group that starts the second.
pub proof fn lemma_free_concat(a: Seq<TokenView>, b: Seq<TokenView>, paths: Set<Seq<Seq<char>>>)
    requires
        free_of(a, paths),
        free_of(b, paths),
        !(a.len() > 0 && is_punct(a.last(), '#') && b.len() > 0 && b[0] is Group && b[0]->Group_0
            == Delimiter::Bracket),
    ensures
        free_of(a + b, paths),
    decreases a.len(),
{
    if a.len() == 0 {
        assert(a + b =~= b);
    } else {
        let ab = a + b;
        let a1 = a.subrange(1, a.len() as int);
        assert(ab.subrange(1, ab.len() as int) =~= a1 + b);
        if a1.len() > 0 {
            assert(a1.last() == a.last());
            assert(ab[1] == a[1]);
        }
        assert(ab[0] == a[0]);
        lemma_free_concat(a1, b, paths);
    }
}

/// A sequence with no `#` of its own, whose groups are free of the markers, is free of them.
pub proof fn lemma_free_without_hash(s: Seq<TokenView>, paths: Set<Seq<Seq<char>>>)
    requires
        forall|i: int| 0 <= i < s.len() ==> !is_punct(#[trigger] s[i], '#'),
        forall|i: int| 0 <= i < s.len() && (#[trigger] s[i]) is Group ==> free_of(s[i]->Group_1, paths),
    ensures
        free_of(s, paths),
    decreases s.len(),
{
    if s.len() > 0 {
        let t = s.subrange(1, s.len() as int);
        assert forall|i: int| 0 <= i < t.len() implies !is_punct(#[trigger] t[i], '#') by {
            assert(t[i] == s[i + 1]);
        }
        assert forall|i: int| 0 <= i < t.len() && (#[trigger] t[i]) is Group implies free_of(t[i]->Group_1, paths) by {
            assert(t[i] == s[i + 1]);
        }
        lemma_free_without_hash(t, paths);
    }
}

} // verus!
