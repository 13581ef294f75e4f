//! Declaring a template: the compile check of its body, and the macro that instantiates it.
use crate::diagnostic::{diagnostics_view, one_error, Block, Diagnostic, DiagnosticView, ErrorKind};
use crate::helper::{attribute, attribute_tokens};
use crate::marker::is_punct;
use crate::registry::{self, registry_of};
use crate::shape::shape_error;
use crate::token::{
    clone_tokens, concat_tokens, group, ident, joint, punct, single, view_of, Delimiter, Spacing,
    Token, TokenView,
};
use crate::walker::{substitute_attributes, walk};
use vstd::prelude::*;

verus! {

/// The first index from `from` on that holds the identifier `w`.
pub open spec fn first_word(s: Seq<TokenView>, from: int, w: Seq<char>) -> Option<int>
    decreases s.len() - from,
{
    if from < 0 || from >= s.len() {
        None
    } else if s[from] == TokenView::Ident(w) {
        Some(from)
    } else {
        first_word(s, from + 1, w)
    }
}

/// A template is written as `mod __ { .. }`, with no attribute of its own: attributes belong in
/// the header that each instantiation gives.
pub open spec fn is_template_module(item: Seq<TokenView>) -> bool {
    (forall|i: int| 0 <= i < item.len() ==> !is_punct(#[trigger] item[i], '#')) && match first_word(
        item,
        0,
        "mod"@,
    ) {
        Some(k) => k + 1 < item.len() && item[k + 1] == TokenView::Ident("__"@),
        None => false,
    }
}

/// `#[name(arg)]`.
pub open spec fn outer_attribute(name: Seq<char>, arg: Seq<char>) -> Seq<TokenView> {
    seq![
        TokenView::Punct('#', Spacing::Alone),
        TokenView::Group(
            Delimiter::Bracket,
            seq![
                TokenView::Ident(name),
                TokenView::Group(Delimiter::Parenthesis, seq![TokenView::Ident(arg)]),
            ],
        ),
    ]
}

/// The name of the module that holds the compile check of the template `name`.
pub open spec fn check_module_name(name: Seq<char>) -> Seq<char> {
    "__mod_template__compiler_check_dummy__"@ + name
}

/// `#[cfg(test)] #[allow(non_snake_case)] mod check_name { scaffold }`.
pub open spec fn check_module(name: Seq<char>, scaffold: Seq<TokenView>) -> Seq<TokenView> {
    outer_attribute("cfg"@, "test"@) + outer_attribute("allow"@, "non_snake_case"@) + seq![
        TokenView::Ident("mod"@),
        TokenView::Ident(check_module_name(name)),
        TokenView::Group(Delimiter::Brace, scaffold),
    ]
}

/// `$($input:tt)*` and `$($input)*`.
pub open spec fn repetition(with_kind: bool) -> Seq<TokenView> {
    let inner = if with_kind {
        seq![
            TokenView::Punct('$', Spacing::Alone),
            TokenView::Ident("input"@),
            TokenView::Punct(':', Spacing::Alone),
            TokenView::Ident("tt"@),
        ]
    } else {
        seq![TokenView::Punct('$', Spacing::Alone), TokenView::Ident("input"@)]
    };
    seq![
        TokenView::Punct('$', Spacing::Alone),
        TokenView::Group(Delimiter::Parenthesis, inner),
        TokenView::Punct('*', Spacing::Alone),
    ]
}

/// `macro_rules! name { ($($input:tt)*) => { #[::mod_template::__monomorphize_mod((attr), { $($input)* })] item }; }`.
pub open spec fn instantiation_macro(name: Seq<char>, attr: Seq<TokenView>, item: Seq<TokenView>) -> Seq<TokenView> {
    let marker = attribute_tokens(
        "__monomorphize_mod"@,
        seq![
            TokenView::Group(Delimiter::Parenthesis, attr),
            TokenView::Punct(',', Spacing::Alone),
            TokenView::Group(Delimiter::Brace, repetition(false)),
        ],
    );
    let rule = seq![
        TokenView::Group(Delimiter::Parenthesis, repetition(true)),
        TokenView::Punct('=', Spacing::Joint),
        TokenView::Punct('>', Spacing::Alone),
        TokenView::Group(Delimiter::Brace, marker + item),
        TokenView::Punct(';', Spacing::Alone),
    ];
    seq![
        TokenView::Ident("macro_rules"@),
        TokenView::Punct('!', Spacing::Alone),
        TokenView::Ident(name),
        TokenView::Group(Delimiter::Brace, rule),
    ]
}

/// What declaring the template `item` with the registry `attr` gives: the compile check and
/// the instantiation macro, or every error found.
pub open spec fn declaration_of(attr: Seq<TokenView>, item: Seq<TokenView>) -> Result<Seq<TokenView>, Seq<DiagnosticView>> {
    if !is_template_module(item) {
        Err(seq![shape_error()])
    } else {
        match registry_of(attr) {
            Err(e) => Err(seq![e]),
            Ok(reg) => {
                let w = walk::<registry::AttributeOptions>(reg, item);
                if w.1.len() > 0 {
                    Err(w.1)
                } else {
                    Ok(check_module(reg.macro_name, w.0) + instantiation_macro(reg.macro_name, attr, item))
                }
            },
        }
    }
}

fn find_word(v: &Vec<Token>, w: &str) -> (r: Option<usize>)
    ensures
        match r {
            Some(i) => first_word(view_of(v@), 0, w@) == Some(i as int) && i < v@.len(),
            None => first_word(view_of(v@), 0, w@) is None,
        },
{
    let ghost s = view_of(v@);
    let mut i: usize = 0;
    while i < v.len()
        invariant
            s == view_of(v@),
            first_word(s, 0, w@) == first_word(s, i as int, w@),
        decreases v@.len() - i,
    {
        if let Token::Ident(x) = &v[i] {
            if crate::names::is_word(x, w) {
                return Some(i);
            }
        }
        i += 1;
    }
    None
}

/// Tells whether `item` is written as a template module: `mod __ { .. }` with no attribute.
pub fn check_top_mod(item: &Vec<Token>) -> (r: bool)
    ensures
        r == is_template_module(view_of(item@)),
{
    let ghost s = view_of(item@);
    let mut i: usize = 0;
    while i < item.len()
        invariant
            s == view_of(item@),
            forall|k: int| 0 <= k < i ==> !is_punct(#[trigger] s[k], '#'),
        decreases item@.len() - i,
    {
        if let Token::Punct(c, _) = &item[i] {
            if *c == '#' {
                assert(is_punct(s[i as int], '#'));
                return false;
            }
        }
        i += 1;
    }
    match find_word(item, "mod") {
        None => false,
        Some(k) => {
            if item.len() - k < 2 {
                return false;
            }
            match &item[k + 1] {
                Token::Ident(n) => crate::names::is_word(n, "__"),
                _ => false,
            }
        },
    }
}

fn outer_attr(name: &str, arg: &str) -> (r: Vec<Token>)
    ensures
        view_of(r@) == outer_attribute(name@, arg@),
{
    let mut inner: Vec<Token> = Vec::new();
    inner.push(ident(name));
    inner.push(group(Delimiter::Parenthesis, single(ident(arg))));
    assert(view_of(inner@) =~= seq![
        TokenView::Ident(name@),
        TokenView::Group(Delimiter::Parenthesis, seq![TokenView::Ident(arg@)]),
    ]);
    let mut out: Vec<Token> = Vec::new();
    out.push(punct('#'));
    out.push(group(Delimiter::Bracket, inner));
    assert(view_of(out@) =~= outer_attribute(name@, arg@));
    out
}

fn check_module_of(name: &String, scaffold: Vec<Token>) -> (r: Vec<Token>)
    ensures
        view_of(r@) == check_module(name@, view_of(scaffold@)),
{
    let mut module_name = String::from_str("__mod_template__compiler_check_dummy__");
    module_name.append(name.as_str());
    let mut tail: Vec<Token> = Vec::new();
    tail.push(ident("mod"));
    tail.push(Token::Ident(module_name));
    tail.push(group(Delimiter::Brace, scaffold));
    let head = concat_tokens(outer_attr("cfg", "test"), outer_attr("allow", "non_snake_case"));
    let r = concat_tokens(head, tail);
    assert(view_of(r@) =~= check_module(name@, view_of(scaffold@)));
    r
}

fn repetition_of(with_kind: bool) -> (r: Vec<Token>)
    ensures
        view_of(r@) == repetition(with_kind),
{
    let mut inner: Vec<Token> = Vec::new();
    inner.push(punct('$'));
    inner.push(ident("input"));
    if with_kind {
        inner.push(punct(':'));
        inner.push(ident("tt"));
    }
    let mut out: Vec<Token> = Vec::new();
    out.push(punct('$'));
    out.push(group(Delimiter::Parenthesis, inner));
    out.push(punct('*'));
    proof {
        if with_kind {
            assert(view_of(inner@) =~= seq![
                TokenView::Punct('$', Spacing::Alone),
                TokenView::Ident("input"@),
                TokenView::Punct(':', Spacing::Alone),
                TokenView::Ident("tt"@),
            ]);
        } else {
            assert(view_of(inner@) =~= seq![TokenView::Punct('$', Spacing::Alone), TokenView::Ident("input"@)]);
        }
    }
    assert(view_of(out@) =~= repetition(with_kind));
    out
}

fn instantiation_macro_of(name: &String, attr: &Vec<Token>, item: &Vec<Token>) -> (r: Vec<Token>)
    ensures
        view_of(r@) == instantiation_macro(name@, view_of(attr@), view_of(item@)),
{
    let mut args: Vec<Token> = Vec::new();
    args.push(group(Delimiter::Parenthesis, clone_tokens(attr)));
    args.push(punct(','));
    args.push(group(Delimiter::Brace, repetition_of(false)));
    assert(view_of(args@) =~= seq![
        TokenView::Group(Delimiter::Parenthesis, view_of(attr@)),
        TokenView::Punct(',', Spacing::Alone),
        TokenView::Group(Delimiter::Brace, repetition(false)),
    ]);
    let body = concat_tokens(attribute("__monomorphize_mod", args), clone_tokens(item));
    let mut rule: Vec<Token> = Vec::new();
    rule.push(group(Delimiter::Parenthesis, repetition_of(true)));
    rule.push(joint('='));
    rule.push(punct('>'));
    rule.push(group(Delimiter::Brace, body));
    rule.push(punct(';'));
    let ghost rv = view_of(rule@);
    let mut out: Vec<Token> = Vec::new();
    out.push(ident("macro_rules"));
    out.push(punct('!'));
    out.push(Token::Ident(name.clone()));
    out.push(group(Delimiter::Brace, rule));
    assert(rv =~= seq![
        TokenView::Group(Delimiter::Parenthesis, repetition(true)),
        TokenView::Punct('=', Spacing::Joint),
        TokenView::Punct('>', Spacing::Alone),
        TokenView::Group(Delimiter::Brace, view_of(body@)),
        TokenView::Punct(';', Spacing::Alone),
    ]);
    assert(view_of(out@) =~= instantiation_macro(name@, view_of(attr@), view_of(item@)));
    out
}

/// Declares the template module `item` with the registry `attr`: checks every marker of the
/// body against the registry, and gives the compile check of the body together with the macro
/// that instantiates it.
pub fn define(attr: &Vec<Token>, item: &Vec<Token>) -> (r: Result<Vec<Token>, Vec<Diagnostic>>)
    ensures
        match r {
            Ok(v) => declaration_of(view_of(attr@), view_of(item@)) == Ok::<Seq<TokenView>, Seq<DiagnosticView>>(view_of(v@)),
            Err(e) => declaration_of(view_of(attr@), view_of(item@)) == Err::<Seq<TokenView>, Seq<DiagnosticView>>(diagnostics_view(e@)),
        },
{
    if !check_top_mod(item) {
        return Err(one_error(Diagnostic::new(ErrorKind::StructuralShape, Block::General, String::new())));
    }
    let reg = match registry::parse(attr) {
        Err(e) => return Err(one_error(e)),
        Ok(r) => r,
    };
    let scaffold = match substitute_attributes(item, &reg) {
        Err(e) => return Err(e),
        Ok(s) => s,
    };
    let name = reg.macro_name();
    let check = check_module_of(name, scaffold);
    let mac = instantiation_macro_of(name, attr, item);
    Ok(concat_tokens(check, mac))
}

} // verus!
