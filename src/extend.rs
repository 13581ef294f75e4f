//! Appending parameters to the parameter list of a function: `#[extend_parameter_list(.., params)]`.
use crate::diagnostic::{Block, Diagnostic, DiagnosticView, ErrorKind};
use crate::marker::is_punct;
use crate::registry::slice_tokens;
use crate::shape::{find_fn_shape, fn_shape, lemma_fn_shape_bounds, shape_error};
use crate::split::punct_at;
use crate::token::{
    clone_tokens, concat_tokens, group, punct, replace_at, view_of, Delimiter, Spacing,
    Token, TokenView,
};
use vstd::prelude::*;

verus! {

/// Where new parameters go. Only appending is defined.
#[derive(Clone, Copy, Debug, PartialEq, Eq, Structural)]
pub enum Direction {
    Append,
}

/// A parameter-list extension: a direction and the parameters to add.
pub struct AttributeOptions {
    direction: Direction,
    parameter_list: Vec<Token>,
}

/// The value of an extension.
pub struct ExtensionView {
    pub direction: Direction,
    pub parameter_list: Seq<TokenView>,
}

impl AttributeOptions {
    pub closed spec fn view(self) -> ExtensionView {
        ExtensionView { direction: self.direction, parameter_list: view_of(self.parameter_list@) }
    }

    pub fn new(direction: Direction, parameter_list: Vec<Token>) -> (r: AttributeOptions)
        ensures
            r@ == (ExtensionView { direction, parameter_list: view_of(parameter_list@) }),
    {
        AttributeOptions { direction, parameter_list }
    }

    pub fn direction(&self) -> (r: Direction)
        ensures
            r == self@.direction,
    {
        self.direction
    }

    pub fn parameter_list(&self) -> (r: &Vec<Token>)
        ensures
            view_of(r@) == self@.parameter_list,
    {
        &self.parameter_list
    }

    /// Adds nothing.
    pub fn is_noop(&self) -> (r: bool)
        ensures
            r == (self@.parameter_list.len() == 0),
    {
        self.parameter_list.len() == 0
    }

    /// The tokens that state this extension: `..`, then `,` and the parameters if there are any.
    pub fn to_tokens(&self) -> (r: Vec<Token>)
        ensures
            view_of(r@) == extension_tokens(self@.parameter_list),
    {
        let mut out: Vec<Token> = Vec::new();
        out.push(Token::Punct('.', Spacing::Joint));
        out.push(punct('.'));
        if self.parameter_list.len() > 0 {
            out.push(punct(','));
            let params = clone_tokens(&self.parameter_list);
            let r = concat_tokens(out, params);
            assert(view_of(r@) =~= extension_tokens(self@.parameter_list));
            return r;
        }
        assert(view_of(out@) =~= extension_tokens(self@.parameter_list));
        out
    }
}

/// `..`, then `,` and the parameters if there are any.
pub open spec fn extension_tokens(params: Seq<TokenView>) -> Seq<TokenView> {
    let dots = seq![TokenView::Punct('.', Spacing::Joint), TokenView::Punct('.', Spacing::Alone)];
    if params.len() == 0 {
        dots
    } else {
        dots + seq![TokenView::Punct(',', Spacing::Alone)] + params
    }
}

/// What the arguments of an extension read as: `..` alone, or `..,` and the parameters.
pub open spec fn extension_of(s: Seq<TokenView>) -> Option<ExtensionView> {
    if s.len() >= 2 && s[0] == TokenView::Punct('.', Spacing::Joint) && is_punct(s[1], '.') {
        if s.len() == 2 {
            Some(ExtensionView { direction: Direction::Append, parameter_list: seq![] })
        } else if is_punct(s[2], ',') {
            Some(ExtensionView { direction: Direction::Append, parameter_list: s.subrange(3, s.len() as int) })
        } else {
            None
        }
    } else {
        None
    }
}

/// Reads the arguments of an extension.
pub fn parse(s: &Vec<Token>) -> (r: Option<AttributeOptions>)
    ensures
        match r {
            Some(o) => extension_of(view_of(s@)) == Some(o@),
            None => extension_of(view_of(s@)) is None,
        },
{
    let dots = match (punct_at(s, 0), punct_at(s, 1)) {
        (Some((a, Spacing::Joint)), Some((b, _))) => a == '.' && b == '.',
        _ => false,
    };
    if !dots {
        return None;
    }
    if s.len() == 2 {
        let empty: Vec<Token> = Vec::new();
        assert(view_of(empty@) =~= Seq::<TokenView>::empty());
        return Some(AttributeOptions { direction: Direction::Append, parameter_list: empty });
    }
    match punct_at(s, 2) {
        Some((c, _)) => {
            if c != ',' {
                return None;
            }
        },
        None => return None,
    }
    let params = slice_tokens(s, 3, s.len());
    Some(AttributeOptions { direction: Direction::Append, parameter_list: params })
}

/// The contents of a parameter list with `params` appended: a comma is put between them unless
/// the list is empty or already ends with one. Nothing to append leaves the list as it is.
pub open spec fn appended(old: Seq<TokenView>, params: Seq<TokenView>) -> Seq<TokenView> {
    if params.len() == 0 {
        old
    } else if old.len() == 0 || is_punct(old.last(), ',') {
        old + params
    } else {
        old + seq![TokenView::Punct(',', Spacing::Alone)] + params
    }
}

/// The function item with `params` appended to its parameter list.
pub open spec fn extended_item(item: Seq<TokenView>, params: Seq<TokenView>) -> Result<
    Seq<TokenView>,
    DiagnosticView,
> {
    match fn_shape(item) {
        None => Err(shape_error()),
        Some((p, _)) => Ok(
            item.update(p, TokenView::Group(Delimiter::Parenthesis, appended(item[p]->Group_1, params))),
        ),
    }
}

/// Appends `params` to the parameter list of the function item `item`.
pub fn extend_item(item: &Vec<Token>, params: &Vec<Token>) -> (r: Result<Vec<Token>, Diagnostic>)
    ensures
        match r {
            Ok(v) => extended_item(view_of(item@), view_of(params@)) == Ok::<Seq<TokenView>, DiagnosticView>(view_of(v@)),
            Err(e) => extended_item(view_of(item@), view_of(params@)) == Err::<Seq<TokenView>, DiagnosticView>(e@),
        },
{
    let (p, _) = match find_fn_shape(item) {
        Ok(pb) => pb,
        Err(e) => return Err(e),
    };
    proof {
        lemma_fn_shape_bounds(view_of(item@));
    }
    let Token::Group(_, old) = &item[p] else { return Err(Diagnostic::new(ErrorKind::StructuralShape, Block::General, String::new())) };
    proof {
        crate::token::lemma_group_view(Delimiter::Parenthesis, *old);
    }
    if params.len() == 0 {
        let r = clone_tokens(item);
        assert(view_of(item@).update(p as int, view_of(item@)[p as int]) =~= view_of(item@));
        return Ok(r);
    }
    let mut inner = clone_tokens(old);
    let ends_with_comma = inner.len() == 0 || match &inner[inner.len() - 1] {
        Token::Punct(c, _) => *c == ',',
        _ => false,
    };
    if !ends_with_comma {
        inner.push(punct(','));
    }
    let inner = concat_tokens(inner, clone_tokens(params));
    proof {
        let o = view_of(old@);
        if !ends_with_comma {
            assert(view_of(inner@) =~= o + seq![TokenView::Punct(',', Spacing::Alone)] + view_of(params@));
        }
    }
    let r = replace_at(item, p, group(Delimiter::Parenthesis, inner));
    Ok(r)
}

/// The standalone attribute: `attr` reads as an extension, which is appended to the parameter
/// list of `item`.
pub fn extend_parameter_list(attr: &Vec<Token>, item: &Vec<Token>) -> (r: Result<Vec<Token>, Diagnostic>)
    ensures
        match extension_of(view_of(attr@)) {
            None => r matches Err(e) && e@ == (DiagnosticView { kind: ErrorKind::DefinitionParse, block: Block::General, subject: seq![] }),
            Some(x) => match r {
                Ok(v) => extended_item(view_of(item@), x.parameter_list) == Ok::<Seq<TokenView>, DiagnosticView>(view_of(v@)),
                Err(e) => extended_item(view_of(item@), x.parameter_list) == Err::<Seq<TokenView>, DiagnosticView>(e@),
            },
        },
{
    match parse(attr) {
        None => Err(Diagnostic::new(ErrorKind::DefinitionParse, Block::General, String::new())),
        Some(opts) => extend_item(item, &opts.parameter_list),
    }
}

/// Appending an empty parameter list leaves a function item exactly as it was.
pub proof fn lemma_empty_extension_is_identity(item: Seq<TokenView>)
    requires
        fn_shape(item) is Some,
    ensures
        extended_item(item, seq![]) == Ok::<Seq<TokenView>, DiagnosticView>(item),
{
    lemma_fn_shape_bounds(item);
    let p = fn_shape(item)->Some_0.0;
    assert(item.update(p, TokenView::Group(Delimiter::Parenthesis, item[p]->Group_1)) =~= item);
}

} // verus!
