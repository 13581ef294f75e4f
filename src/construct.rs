//! Injecting local bindings at the start of a function body: `#[construct(pat [: type] = expr, ..)]`.
use crate::diagnostic::{Block, Diagnostic, DiagnosticView, ErrorKind};
use crate::marker::is_punct;
use crate::registry::slice_tokens;
use crate::shape::{find_fn_shape, fn_shape, lemma_fn_shape_bounds, shape_error};
use crate::split::{
    find_value_start, first_value_start, is_joint, is_lone_eq, items_view, lemma_first_value_start_bounds,
    punct_at, split_items, split_items_of,
};
use crate::token::{
    clone_tokens, concat_tokens, empty_group, group, ident, joint, punct, replace_at, view_of,
    Delimiter, Spacing,
    Token, TokenView,
};
use vstd::prelude::*;

verus! {

/// One binding to inject: a pattern, its type if one is given, and the expression bound to it.
pub struct Construction {
    pattern: Vec<Token>,
    ty: Option<Vec<Token>>,
    constructor: Vec<Token>,
}

/// The value of a [`Construction`].
pub struct ConstructionView {
    pub pattern: Seq<TokenView>,
    pub ty: Option<Seq<TokenView>>,
    pub value: Seq<TokenView>,
}

impl Construction {
    pub closed spec fn view(self) -> ConstructionView {
        ConstructionView {
            pattern: view_of(self.pattern@),
            ty: crate::registry::opt_tokens_view(self.ty),
            value: view_of(self.constructor@),
        }
    }

    pub fn new(pattern: Vec<Token>, ty: Option<Vec<Token>>, constructor: Vec<Token>) -> (r: Construction)
        ensures
            r@ == (ConstructionView {
                pattern: view_of(pattern@),
                ty: crate::registry::opt_tokens_view(ty),
                value: view_of(constructor@),
            }),
    {
        Construction { pattern, ty, constructor }
    }
}

pub open spec fn constructions_view(s: Seq<Construction>) -> Seq<ConstructionView> {
    Seq::new(s.len(), |i: int| s[i]@)
}

/// The type is an opaque capability type: `impl ..`.
pub open spec fn is_impl_type(ty: Seq<TokenView>) -> bool {
    ty.len() > 0 && ty[0] == TokenView::Ident("impl"@)
}

/// `{ fn type_checked() -> ty { value } type_checked() }`: a helper whose declared return type
/// is exactly `ty`, called at once.
pub open spec fn checked_value(ty: Seq<TokenView>, value: Seq<TokenView>) -> Seq<TokenView> {
    seq![TokenView::Group(
        Delimiter::Brace,
        seq![
            TokenView::Ident("fn"@),
            TokenView::Ident("type_checked"@),
            TokenView::Group(Delimiter::Parenthesis, seq![]),
            TokenView::Punct('-', Spacing::Joint),
            TokenView::Punct('>', Spacing::Alone),
        ] + ty + seq![
            TokenView::Group(Delimiter::Brace, value),
            TokenView::Ident("type_checked"@),
            TokenView::Group(Delimiter::Parenthesis, seq![]),
        ],
    )]
}

/// `let pattern [: ty] = value;`; where the type is opaque the binding gets no type and the
/// value is checked against it by [`checked_value`].
pub open spec fn binding_tokens(c: ConstructionView) -> Seq<TokenView> {
    let annotation = match c.ty {
        Some(t) => if is_impl_type(t) {
            seq![]
        } else {
            seq![TokenView::Punct(':', Spacing::Alone)] + t
        },
        None => seq![],
    };
    let value = match c.ty {
        Some(t) => if is_impl_type(t) {
            checked_value(t, c.value)
        } else {
            c.value
        },
        None => c.value,
    };
    seq![TokenView::Ident("let"@)] + c.pattern + annotation + seq![TokenView::Punct('=', Spacing::Alone)]
        + value + seq![TokenView::Punct(';', Spacing::Alone)]
}

/// The bindings of `cs`, in order.
pub open spec fn bindings(cs: Seq<ConstructionView>) -> Seq<TokenView>
    decreases cs.len(),
{
    if cs.len() == 0 {
        seq![]
    } else {
        bindings(cs.drop_last()) + binding_tokens(cs.last())
    }
}

/// The function item with the bindings of `cs` put before the contents of its body.
pub open spec fn constructed_item(item: Seq<TokenView>, cs: Seq<ConstructionView>) -> Result<
    Seq<TokenView>,
    DiagnosticView,
> {
    match fn_shape(item) {
        None => Err(shape_error()),
        Some((_, b)) => Ok(item.update(b, TokenView::Group(Delimiter::Brace, bindings(cs) + item[b]->Group_1))),
    }
}

/// The token at `i` is a `:` of its own, not part of `::`.
pub open spec fn is_lone_colon(s: Seq<TokenView>, i: int) -> bool {
    is_punct(s[i], ':') && s[i]->Punct_1 == Spacing::Alone && !is_joint(s, i - 1)
}

/// The first `:` of its own in `from..to`.
pub open spec fn first_lone_colon(s: Seq<TokenView>, from: int, to: int) -> Option<int>
    decreases to - from,
{
    if from < 0 || from >= to || to > s.len() {
        None
    } else if is_lone_colon(s, from) {
        Some(from)
    } else {
        first_lone_colon(s, from + 1, to)
    }
}

/// What one item reads as: `pattern = value` or `pattern: type = value`, each part non-empty.
/// The first `=` of its own outside every `<`..`>` ends the pattern and the type.
pub open spec fn construction_of(item: Seq<TokenView>) -> Option<ConstructionView> {
    match first_value_start(item, 0) {
        None => None,
        Some(e) => if e + 1 >= item.len() || !is_lone_eq(item, e) {
            None
        } else {
            let value = item.subrange(e + 1, item.len() as int);
            match first_lone_colon(item, 0, e) {
                None => if e == 0 {
                    None
                } else {
                    Some(ConstructionView { pattern: item.take(e), ty: None, value })
                },
                Some(c) => if c == 0 || c + 1 == e {
                    None
                } else {
                    Some(ConstructionView { pattern: item.take(c), ty: Some(item.subrange(c + 1, e)), value })
                },
            }
        },
    }
}

/// Each item read by [`construction_of`], or `None` if one does not read.
pub open spec fn constructions_of(items: Seq<Seq<TokenView>>) -> Option<Seq<ConstructionView>>
    decreases items.len(),
{
    if items.len() == 0 {
        Some(seq![])
    } else {
        match constructions_of(items.drop_last()) {
            None => None,
            Some(p) => match construction_of(items.last()) {
                None => None,
                Some(c) => Some(p.push(c)),
            },
        }
    }
}

proof fn lemma_first_lone_colon_bounds(s: Seq<TokenView>, from: int, to: int)
    ensures
        first_lone_colon(s, from, to) matches Some(i) ==> from <= i < to,
    decreases to - from,
{
    if 0 <= from < to <= s.len() && !is_lone_colon(s, from) {
        lemma_first_lone_colon_bounds(s, from + 1, to);
    }
}

fn find_lone_colon(v: &Vec<Token>, to: usize) -> (r: Option<usize>)
    requires
        to <= v@.len(),
    ensures
        match r {
            Some(i) => first_lone_colon(view_of(v@), 0, to as int) == Some(i as int),
            None => first_lone_colon(view_of(v@), 0, to as int) is None,
        },
{
    let ghost s = view_of(v@);
    let mut i: usize = 0;
    while i < to
        invariant
            s == view_of(v@),
            to <= v@.len(),
            first_lone_colon(s, 0, to as int) == first_lone_colon(s, i as int, to as int),
        decreases to - i,
    {
        let here = match punct_at(v, i) {
            Some((c, sp)) => c == ':' && sp == Spacing::Alone,
            None => false,
        };
        let glued = i > 0 && match punct_at(v, i - 1) {
            Some((_, sp)) => sp == Spacing::Joint,
            None => false,
        };
        if here && !glued {
            return Some(i);
        }
        i += 1;
    }
    None
}

fn parse_construction(item: &Vec<Token>) -> (r: Option<Construction>)
    ensures
        match r {
            Some(c) => construction_of(view_of(item@)) == Some(c@),
            None => construction_of(view_of(item@)) is None,
        },
{
    let ghost s = view_of(item@);
    let Some(e) = find_value_start(item) else { return None };
    proof {
        lemma_first_value_start_bounds(s, 0);
    }
    let n = item.len();
    assert(e < n);
    if e + 1 >= n {
        return None;
    }
    let lone_eq = match punct_at(item, e) {
        Some((c, sp)) => c == '=' && sp == Spacing::Alone && (e == 0 || match punct_at(item, e - 1) {
            Some((_, sp)) => sp != Spacing::Joint,
            None => true,
        }),
        None => false,
    };
    if !lone_eq {
        return None;
    }
    let constructor = slice_tokens(item, e + 1, item.len());
    match find_lone_colon(item, e) {
        None => {
            if e == 0 {
                return None;
            }
            let pattern = slice_tokens(item, 0, e);
            assert(view_of(pattern@) =~= s.take(e as int));
            Some(Construction { pattern, ty: None, constructor })
        },
        Some(c) => {
            proof {
                lemma_first_lone_colon_bounds(s, 0, e as int);
            }
            if c == 0 || c + 1 == e {
                return None;
            }
            let pattern = slice_tokens(item, 0, c);
            assert(view_of(pattern@) =~= s.take(c as int));
            let ty = slice_tokens(item, c + 1, e);
            Some(Construction { pattern, ty: Some(ty), constructor })
        },
    }
}

/// Reads the arguments of the attribute: comma-separated constructions.
pub fn parse(attr: &Vec<Token>) -> (r: Option<Vec<Construction>>)
    ensures
        match r {
            Some(cs) => constructions_of(split_items(view_of(attr@))) == Some(constructions_view(cs@)),
            None => constructions_of(split_items(view_of(attr@))) is None,
        },
{
    let items = split_items_of(attr);
    let ghost its = items_view(items@);
    let mut out: Vec<Construction> = Vec::new();
    let mut i: usize = 0;
    assert(its.take(0) =~= Seq::<Seq<TokenView>>::empty());
    assert(constructions_view(out@) =~= Seq::<ConstructionView>::empty());
    while i < items.len()
        invariant
            i <= items@.len(),
            its == items_view(items@),
            its == split_items(view_of(attr@)),
            out@.len() == i,
            constructions_of(its.take(i as int)) == Some(constructions_view(out@)),
        decreases items@.len() - i,
    {
        assert(its.take(i + 1).drop_last() =~= its.take(i as int));
        assert(its.take(i + 1).last() == view_of(items@[i as int]@));
        match parse_construction(&items[i]) {
            None => {
                proof {
                    lemma_constructions_prefix_none(its, i as int + 1);
                }
                return None;
            },
            Some(c) => {
                out.push(c);
                assert(constructions_view(out@) =~= constructions_of(its.take(i + 1))->Some_0);
            },
        }
        i += 1;
    }
    assert(its.take(i as int) =~= its);
    Some(out)
}

proof fn lemma_constructions_prefix_none(items: Seq<Seq<TokenView>>, n: int)
    requires
        0 <= n <= items.len(),
        constructions_of(items.take(n)) is None,
    ensures
        constructions_of(items) is None,
    decreases items.len(),
{
    if items.len() == n {
        assert(items.take(n) =~= items);
    } else {
        assert(items.drop_last().take(n) =~= items.take(n));
        lemma_constructions_prefix_none(items.drop_last(), n);
    }
}

fn binding(c: &Construction) -> (r: Vec<Token>)
    ensures
        view_of(r@) == binding_tokens(c@),
{
    let ghost cv = c@;
    let mut out: Vec<Token> = Vec::new();
    out.push(ident("let"));
    assert(view_of(out@) =~= seq![TokenView::Ident("let"@)]);
    let out = concat_tokens(out, clone_tokens(&c.pattern));
    let opaque = match &c.ty {
        Some(t) => t.len() > 0 && match &t[0] {
            Token::Ident(w) => crate::names::is_word(w, "impl"),
            _ => false,
        },
        None => false,
    };
    assert(opaque == (cv.ty is Some && is_impl_type(cv.ty->Some_0)));
    let mut out = match &c.ty {
        Some(t) => {
            if opaque {
                out
            } else {
                let mut colon: Vec<Token> = Vec::new();
                colon.push(punct(':'));
                assert(view_of(colon@) =~= seq![TokenView::Punct(':', Spacing::Alone)]);
                let colon = concat_tokens(colon, clone_tokens(t));
                concat_tokens(out, colon)
            }
        },
        None => out,
    };
    let ghost head = view_of(out@);
    out.push(punct('='));
    assert(view_of(out@) =~= head + seq![TokenView::Punct('=', Spacing::Alone)]);
    let value = match &c.ty {
        Some(t) => {
            if opaque {
                let mut inner: Vec<Token> = Vec::new();
                inner.push(ident("fn"));
                inner.push(ident("type_checked"));
                inner.push(empty_group(Delimiter::Parenthesis));
                inner.push(joint('-'));
                inner.push(punct('>'));
                assert(view_of(inner@) =~= seq![
                    TokenView::Ident("fn"@),
                    TokenView::Ident("type_checked"@),
                    TokenView::Group(Delimiter::Parenthesis, seq![]),
                    TokenView::Punct('-', Spacing::Joint),
                    TokenView::Punct('>', Spacing::Alone),
                ]);
                let inner = concat_tokens(inner, clone_tokens(t));
                let mut tail: Vec<Token> = Vec::new();
                tail.push(group(Delimiter::Brace, clone_tokens(&c.constructor)));
                tail.push(ident("type_checked"));
                tail.push(empty_group(Delimiter::Parenthesis));
                assert(view_of(tail@) =~= seq![
                    TokenView::Group(Delimiter::Brace, cv.value),
                    TokenView::Ident("type_checked"@),
                    TokenView::Group(Delimiter::Parenthesis, seq![]),
                ]);
                let inner = concat_tokens(inner, tail);
                let mut v: Vec<Token> = Vec::new();
                v.push(group(Delimiter::Brace, inner));
                assert(view_of(v@) =~= checked_value(view_of(t@), cv.value));
                v
            } else {
                clone_tokens(&c.constructor)
            }
        },
        None => clone_tokens(&c.constructor),
    };
    let ghost before = view_of(out@);
    let mut out = concat_tokens(out, value);
    out.push(punct(';'));
    assert(view_of(out@) =~= before + view_of(value@) + seq![TokenView::Punct(';', Spacing::Alone)]);
    assert(view_of(out@) =~= binding_tokens(cv));
    out
}

/// Puts the bindings of `cs` before the contents of the body of the function item `item`.
pub fn construct_item(item: &Vec<Token>, cs: &Vec<Construction>) -> (r: Result<Vec<Token>, Diagnostic>)
    ensures
        match r {
            Ok(v) => constructed_item(view_of(item@), constructions_view(cs@)) == Ok::<Seq<TokenView>, DiagnosticView>(view_of(v@)),
            Err(e) => constructed_item(view_of(item@), constructions_view(cs@)) == Err::<Seq<TokenView>, DiagnosticView>(e@),
        },
{
    let (_, b) = match find_fn_shape(item) {
        Ok(pb) => pb,
        Err(e) => return Err(e),
    };
    proof {
        lemma_fn_shape_bounds(view_of(item@));
    }
    let Token::Group(_, body) = &item[b] else { return Err(Diagnostic::new(ErrorKind::StructuralShape, Block::General, String::new())) };
    proof {
        crate::token::lemma_group_view(Delimiter::Brace, *body);
    }
    let ghost csv = constructions_view(cs@);
    let mut inner: Vec<Token> = Vec::new();
    let mut i: usize = 0;
    assert(view_of(inner@) =~= bindings(csv.take(0)));
    while i < cs.len()
        invariant
            i <= cs@.len(),
            csv == constructions_view(cs@),
            view_of(inner@) == bindings(csv.take(i as int)),
        decreases cs@.len() - i,
    {
        assert(csv.take(i + 1).drop_last() =~= csv.take(i as int));
        let next = binding(&cs[i]);
        inner = concat_tokens(inner, next);
        i += 1;
    }
    assert(csv.take(i as int) =~= csv);
    let inner = concat_tokens(inner, clone_tokens(body));
    let r = replace_at(item, b, group(Delimiter::Brace, inner));
    Ok(r)
}

/// The standalone attribute: `attr` reads as constructions, whose bindings are put at the
/// start of the body of `item`.
pub fn construct(attr: &Vec<Token>, item: &Vec<Token>) -> (r: Result<Vec<Token>, Diagnostic>)
    ensures
        match constructions_of(split_items(view_of(attr@))) {
            None => r matches Err(e) && e@ == (DiagnosticView { kind: ErrorKind::DefinitionParse, block: Block::General, subject: seq![] }),
            Some(cs) => match r {
                Ok(v) => constructed_item(view_of(item@), cs) == Ok::<Seq<TokenView>, DiagnosticView>(view_of(v@)),
                Err(e) => constructed_item(view_of(item@), cs) == Err::<Seq<TokenView>, DiagnosticView>(e@),
            },
        },
{
    match parse(attr) {
        None => Err(Diagnostic::new(ErrorKind::DefinitionParse, Block::General, String::new())),
        Some(cs) => construct_item(item, &cs),
    }
}

} // verus!
