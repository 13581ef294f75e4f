//! The markers that a template body holds: `#[__CONSTRUCT(pattern as NAME, ..)]` and
//! `#[__SUBSTITUTE(NAME)]`, and the attributes that replace them.
use crate::marker::{strings_view, ArgsView, Marker, MarkerArgs, MarkerView};
use crate::names::is_word;
use crate::registry::slice_tokens;
use crate::split::{items_view, split_items, split_items_of};
use crate::token::{
    concat_tokens, group, ident, joint, punct, view_of, Delimiter, Spacing, Token, TokenView,
};
use vstd::prelude::*;

verus! {

/// One use of a construction slot: the pattern to bind and the slot's name.
pub struct Construction {
    pattern_to_construct: Vec<Token>,
    target_name: String,
}

pub struct UseView {
    pub pattern: Seq<TokenView>,
    pub name: Seq<char>,
}

impl Construction {
    pub closed spec fn view(self) -> UseView {
        UseView { pattern: view_of(self.pattern_to_construct@), name: self.target_name@ }
    }

    pub fn pattern_to_construct(&self) -> (r: &Vec<Token>)
        ensures
            view_of(r@) == self@.pattern,
    {
        &self.pattern_to_construct
    }

    pub fn target_name_ident(&self) -> (r: &String)
        ensures
            r@ == self@.name,
    {
        &self.target_name
    }
}

pub open spec fn uses_view(s: Seq<Construction>) -> Seq<UseView> {
    Seq::new(s.len(), |i: int| s[i]@)
}

/// The marker's path is the single identifier `name`.
pub open spec fn is_helper(m: MarkerView, name: Seq<char>) -> bool {
    !m.global && m.segments == seq![name]
}

/// `pattern as NAME`, with a non-empty pattern.
pub open spec fn use_of(item: Seq<TokenView>) -> Option<UseView> {
    let n = item.len();
    if n >= 3 && item[n - 2] == TokenView::Ident("as"@) && item[n - 1] is Ident {
        Some(UseView { pattern: item.take(n - 2), name: item[n - 1]->Ident_0 })
    } else {
        None
    }
}

pub open spec fn uses_of(items: Seq<Seq<TokenView>>) -> Option<Seq<UseView>>
    decreases items.len(),
{
    if items.len() == 0 {
        Some(seq![])
    } else {
        match uses_of(items.drop_last()) {
            None => None,
            Some(p) => match use_of(items.last()) {
                None => None,
                Some(u) => Some(p.push(u)),
            },
        }
    }
}

/// The uses that a `__CONSTRUCT` marker lists in its parenthesised arguments.
pub open spec fn construct_args_of(m: MarkerView) -> Option<Seq<UseView>> {
    match m.args {
        ArgsView::List(Delimiter::Parenthesis, c) => uses_of(split_items(c)),
        _ => None,
    }
}

/// The one name that a `__SUBSTITUTE` marker holds in its parenthesised arguments.
pub open spec fn substitute_arg_of(m: MarkerView) -> Option<Seq<char>> {
    match m.args {
        ArgsView::List(Delimiter::Parenthesis, c) => if c.len() == 1 && c[0] is Ident {
            Some(c[0]->Ident_0)
        } else {
            None
        },
        _ => None,
    }
}

/// Tells whether the marker's path is the single identifier `name`.
pub fn marker_is(m: &Marker, name: &str) -> (r: bool)
    ensures
        r == is_helper(m@, name@),
{
    assert(strings_view(m.segments@).len() == m.segments@.len());
    if m.global {
        return false;
    }
    if m.segments.len() != 1 {
        assert(strings_view(m.segments@).len() != seq![name@].len());
        return false;
    }
    assert(strings_view(m.segments@)[0] == m.segments@[0]@);
    let r = is_word(&m.segments[0], name);
    assert(r ==> strings_view(m.segments@) =~= seq![name@]);
    r
}

fn parse_use(item: &Vec<Token>) -> (r: Option<Construction>)
    ensures
        match r {
            Some(u) => use_of(view_of(item@)) == Some(u@),
            None => use_of(view_of(item@)) is None,
        },
{
    let n = item.len();
    if n < 3 {
        return None;
    }
    let is_as = match &item[n - 2] {
        Token::Ident(w) => is_word(w, "as"),
        _ => false,
    };
    if !is_as {
        return None;
    }
    match &item[n - 1] {
        Token::Ident(name) => {
            let pattern = slice_tokens(item, 0, n - 2);
            assert(view_of(pattern@) =~= view_of(item@).take(n - 2));
            Some(Construction { pattern_to_construct: pattern, target_name: name.clone() })
        },
        _ => None,
    }
}

proof fn lemma_uses_prefix_none(items: Seq<Seq<TokenView>>, n: int)
    requires
        0 <= n <= items.len(),
        uses_of(items.take(n)) is None,
    ensures
        uses_of(items) is None,
    decreases items.len(),
{
    if items.len() == n {
        assert(items.take(n) =~= items);
    } else {
        assert(items.drop_last().take(n) =~= items.take(n));
        lemma_uses_prefix_none(items.drop_last(), n);
    }
}

/// Reads the arguments of a `__CONSTRUCT` marker.
pub fn parse_construct_args(m: &Marker) -> (r: Option<Vec<Construction>>)
    ensures
        match r {
            Some(u) => construct_args_of(m@) == Some(uses_view(u@)),
            None => construct_args_of(m@) is None,
        },
{
    let c = match &m.args {
        MarkerArgs::List(Delimiter::Parenthesis, c) => c,
        _ => return None,
    };
    let items = split_items_of(c);
    let ghost its = items_view(items@);
    let mut out: Vec<Construction> = Vec::new();
    let mut i: usize = 0;
    assert(its.take(0) =~= Seq::<Seq<TokenView>>::empty());
    assert(uses_view(out@) =~= Seq::<UseView>::empty());
    while i < items.len()
        invariant
            i <= items@.len(),
            its == items_view(items@),
            its == split_items(view_of(c@)),
            m@.args == ArgsView::List(Delimiter::Parenthesis, view_of(c@)),
            out@.len() == i,
            uses_of(its.take(i as int)) == Some(uses_view(out@)),
        decreases items@.len() - i,
    {
        assert(its.take(i + 1).drop_last() =~= its.take(i as int));
        assert(its.take(i + 1).last() == view_of(items@[i as int]@));
        match parse_use(&items[i]) {
            None => {
                proof {
                    lemma_uses_prefix_none(its, i as int + 1);
                }
                return None;
            },
            Some(u) => {
                out.push(u);
                assert(uses_view(out@) =~= uses_of(its.take(i + 1))->Some_0);
            },
        }
        i += 1;
    }
    assert(its.take(i as int) =~= its);
    Some(out)
}

/// Reads the argument of a `__SUBSTITUTE` marker.
pub fn parse_substitute_arg(m: &Marker) -> (r: Option<String>)
    ensures
        match r {
            Some(n) => substitute_arg_of(m@) == Some(n@),
            None => substitute_arg_of(m@) is None,
        },
{
    match &m.args {
        MarkerArgs::List(Delimiter::Parenthesis, c) => {
            if c.len() == 1 {
                match &c[0] {
                    Token::Ident(n) => Some(n.clone()),
                    _ => None,
                }
            } else {
                None
            }
        },
        _ => None,
    }
}

/// `#[::mod_template::name(args)]`.
pub open spec fn attribute_tokens(name: Seq<char>, args: Seq<TokenView>) -> Seq<TokenView> {
    seq![
        TokenView::Punct('#', Spacing::Alone),
        TokenView::Group(
            Delimiter::Bracket,
            seq![
                TokenView::Punct(':', Spacing::Joint),
                TokenView::Punct(':', Spacing::Alone),
                TokenView::Ident("mod_template"@),
                TokenView::Punct(':', Spacing::Joint),
                TokenView::Punct(':', Spacing::Alone),
                TokenView::Ident(name),
                TokenView::Group(Delimiter::Parenthesis, args),
            ],
        ),
    ]
}

/// Builds `#[::mod_template::name(args)]`.
pub fn attribute(name: &str, args: Vec<Token>) -> (r: Vec<Token>)
    ensures
        view_of(r@) == attribute_tokens(name@, view_of(args@)),
{
    let mut path: Vec<Token> = Vec::new();
    path.push(joint(':'));
    path.push(punct(':'));
    path.push(ident("mod_template"));
    path.push(joint(':'));
    path.push(punct(':'));
    path.push(ident(name));
    path.push(group(Delimiter::Parenthesis, args));
    assert(view_of(path@) =~= seq![
        TokenView::Punct(':', Spacing::Joint),
        TokenView::Punct(':', Spacing::Alone),
        TokenView::Ident("mod_template"@),
        TokenView::Punct(':', Spacing::Joint),
        TokenView::Punct(':', Spacing::Alone),
        TokenView::Ident(name@),
        TokenView::Group(Delimiter::Parenthesis, view_of(args@)),
    ]);
    let mut out: Vec<Token> = Vec::new();
    out.push(punct('#'));
    out.push(group(Delimiter::Bracket, path));
    assert(view_of(out@) =~= attribute_tokens(name@, view_of(args@)));
    out
}

/// `pattern [: ty] = value`: the arguments of a construct attribute.
pub open spec fn binding_args(pattern: Seq<TokenView>, ty: Option<Seq<TokenView>>, value: Seq<TokenView>) -> Seq<TokenView> {
    let annotation = match ty {
        Some(t) => seq![TokenView::Punct(':', Spacing::Alone)] + t,
        None => seq![],
    };
    pattern + annotation + seq![TokenView::Punct('=', Spacing::Alone)] + value
}

/// Builds `pattern [: ty] = value`.
pub fn binding_args_of(pattern: Vec<Token>, ty: Option<Vec<Token>>, value: Vec<Token>) -> (r: Vec<Token>)
    ensures
        view_of(r@) == binding_args(view_of(pattern@), crate::registry::opt_tokens_view(ty), view_of(value@)),
{
    let ghost tv = crate::registry::opt_tokens_view(ty);
    let out = match ty {
        Some(t) => {
            let mut colon: Vec<Token> = Vec::new();
            colon.push(punct(':'));
            assert(view_of(colon@) =~= seq![TokenView::Punct(':', Spacing::Alone)]);
            concat_tokens(pattern, concat_tokens(colon, t))
        },
        None => {
            assert(view_of(pattern@) + Seq::<TokenView>::empty() =~= view_of(pattern@));
            pattern
        },
    };
    let mut out = out;
    let ghost before = view_of(out@);
    out.push(punct('='));
    assert(view_of(out@) =~= before + seq![TokenView::Punct('=', Spacing::Alone)]);
    let r = concat_tokens(out, value);
    assert(view_of(r@) =~= binding_args(view_of(pattern@), tv, view_of(value@)));
    r
}

} // verus!
