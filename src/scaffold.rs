//! The compile check of a template: every construction point gets a value of its slot's
//! declared type that is never reached, and every substitution point is removed.
use crate::diagnostic::{diagnostics_view, one_error, Block, Diagnostic, DiagnosticView, ErrorKind};
use crate::helper::{
    attribute, attribute_tokens, binding_args, binding_args_of, construct_args_of, is_helper,
    marker_is, parse_construct_args, parse_substitute_arg, substitute_arg_of, uses_view, UseView,
};
use crate::construct::is_impl_type;
use crate::marker::{Marker, MarkerView};
use crate::registry::{self, decls_view, opt_tokens_view, subst_decls_view, DeclView};
use crate::token::{
    clone_tokens, concat_tokens, empty_group, group, ident, joint, punct, view_of, Delimiter,
    Spacing, Token, TokenView,
};
use crate::walker::Rewriter;
use vstd::prelude::*;

verus! {

/// The declared type of the slot `name`, if the slot is declared.
pub open spec fn decl_type(decls: Seq<DeclView>, name: Seq<char>) -> Option<Option<Seq<TokenView>>>
    decreases decls.len(),
{
    if decls.len() == 0 {
        None
    } else if decls.last().name == name {
        Some(decls.last().ty)
    } else {
        decl_type(decls.drop_last(), name)
    }
}

pub open spec fn unreachable_tokens() -> Seq<TokenView> {
    seq![
        TokenView::Ident("unreachable"@),
        TokenView::Punct('!', Spacing::Alone),
        TokenView::Group(Delimiter::Parenthesis, seq![]),
    ]
}

/// A value that is never computed: `(|| -> ty { unreachable!() })()`, or `unreachable!()` for
/// a slot without a declared type.
pub open spec fn dummy_value(ty: Option<Seq<TokenView>>) -> Seq<TokenView> {
    match ty {
        Some(t) => seq![
            TokenView::Group(
                Delimiter::Parenthesis,
                seq![
                    TokenView::Punct('|', Spacing::Joint),
                    TokenView::Punct('|', Spacing::Alone),
                    TokenView::Punct('-', Spacing::Joint),
                    TokenView::Punct('>', Spacing::Alone),
                ] + t + seq![TokenView::Group(Delimiter::Brace, unreachable_tokens())],
            ),
            TokenView::Group(Delimiter::Parenthesis, seq![]),
        ],
        None => unreachable_tokens(),
    }
}

pub open spec fn unknown_name(block: Block, name: Seq<char>) -> DiagnosticView {
    DiagnosticView { kind: ErrorKind::UnknownTargetName, block, subject: name }
}

pub open spec fn marker_error(block: Block) -> DiagnosticView {
    DiagnosticView { kind: ErrorKind::DeclarationParse, block, subject: seq![] }
}

/// The type that the compile check gives a use of a slot declared with `ty`. No value of an
/// opaque `impl` type can be written down, so such a slot is checked as an untyped one.
pub open spec fn check_type(ty: Option<Seq<TokenView>>) -> Option<Seq<TokenView>> {
    match ty {
        Some(t) => if is_impl_type(t) {
            None
        } else {
            Some(t)
        },
        None => None,
    }
}

/// A construct attribute with a dummy value for one use, or the error for an undeclared slot.
pub open spec fn scaffold_use(decls: Seq<DeclView>, u: UseView) -> Result<Seq<TokenView>, DiagnosticView> {
    match decl_type(decls, u.name) {
        None => Err(unknown_name(Block::Constructions, u.name)),
        Some(ty) => Ok(attribute_tokens("construct"@, binding_args(u.pattern, check_type(ty), dummy_value(check_type(ty))))),
    }
}

/// The attributes of the uses that name declared slots, and one error for each use that does not.
pub open spec fn scaffold_parts(decls: Seq<DeclView>, uses: Seq<UseView>) -> (Seq<TokenView>, Seq<DiagnosticView>)
    decreases uses.len(),
{
    if uses.len() == 0 {
        (seq![], seq![])
    } else {
        let p = scaffold_parts(decls, uses.drop_last());
        match scaffold_use(decls, uses.last()) {
            Ok(t) => (p.0 + t, p.1),
            Err(e) => (p.0, p.1.push(e)),
        }
    }
}

/// A construct attribute with a dummy value for each use, or every use of an undeclared slot.
pub open spec fn scaffold_uses(decls: Seq<DeclView>, uses: Seq<UseView>) -> Result<Seq<TokenView>, Seq<DiagnosticView>> {
    let p = scaffold_parts(decls, uses);
    if p.1.len() == 0 {
        Ok(p.0)
    } else {
        Err(p.1)
    }
}

/// What the compile check makes of a marker of the template, given the registry.
pub open spec fn scaffold_rewrite(reg: registry::RegistryView, m: MarkerView) -> Option<Result<Seq<TokenView>, Seq<DiagnosticView>>> {
    if is_helper(m, "__CONSTRUCT"@) {
        Some(
            match construct_args_of(m) {
                None => Err(seq![marker_error(Block::Constructions)]),
                Some(u) => scaffold_uses(reg.constructions, u),
            },
        )
    } else if is_helper(m, "__SUBSTITUTE"@) {
        Some(
            match substitute_arg_of(m) {
                None => Err(seq![marker_error(Block::Substitutions)]),
                Some(n) => if reg.substitutions.contains(n) {
                    Ok(seq![])
                } else {
                    Err(seq![unknown_name(Block::Substitutions, n)])
                },
            },
        )
    } else {
        None
    }
}

pub(crate) fn find_decl_type(decls: &Vec<registry::ConstructionDeclaration>, name: &String) -> (r: Option<Option<Vec<Token>>>)
    ensures
        match r {
            None => decl_type(decls_view(decls@), name@) is None,
            Some(t) => decl_type(decls_view(decls@), name@) == Some(opt_tokens_view(t)),
        },
{
    let ghost dv = decls_view(decls@);
    let mut i = decls.len();
    assert(dv.take(i as int) =~= dv);
    while i > 0
        invariant
            i <= decls@.len(),
            dv == decls_view(decls@),
            decl_type(dv, name@) == decl_type(dv.take(i as int), name@),
        decreases i,
    {
        let d = &decls[i - 1];
        assert(dv.take(i as int).drop_last() =~= dv.take(i - 1));
        assert(dv.take(i as int).last() == d@);
        if *d.target_name_ident() == *name {
            let t = match d.ty() {
                Some(t) => Some(clone_tokens(t)),
                None => None,
            };
            return Some(t);
        }
        i -= 1;
    }
    None
}

fn unreachable_call() -> (r: Vec<Token>)
    ensures
        view_of(r@) == unreachable_tokens(),
{
    let mut v: Vec<Token> = Vec::new();
    v.push(ident("unreachable"));
    v.push(punct('!'));
    v.push(empty_group(Delimiter::Parenthesis));
    assert(view_of(v@) =~= unreachable_tokens());
    v
}

fn dummy(ty: &Option<Vec<Token>>) -> (r: Vec<Token>)
    ensures
        view_of(r@) == dummy_value(opt_tokens_view(*ty)),
{
    match ty {
        Some(t) => {
            let mut head: Vec<Token> = Vec::new();
            head.push(joint('|'));
            head.push(punct('|'));
            head.push(joint('-'));
            head.push(punct('>'));
            assert(view_of(head@) =~= seq![
                TokenView::Punct('|', Spacing::Joint),
                TokenView::Punct('|', Spacing::Alone),
                TokenView::Punct('-', Spacing::Joint),
                TokenView::Punct('>', Spacing::Alone),
            ]);
            let mut closure = concat_tokens(head, clone_tokens(t));
            let ghost before = view_of(closure@);
            closure.push(group(Delimiter::Brace, unreachable_call()));
            assert(view_of(closure@) =~= before + seq![TokenView::Group(Delimiter::Brace, unreachable_tokens())]);
            let mut v: Vec<Token> = Vec::new();
            v.push(group(Delimiter::Parenthesis, closure));
            v.push(empty_group(Delimiter::Parenthesis));
            assert(view_of(v@) =~= dummy_value(opt_tokens_view(*ty)));
            v
        },
        None => unreachable_call(),
    }
}

fn substitution_declared(subs: &Vec<registry::AttributeSubstitutionDeclaration>, name: &String) -> (r: bool)
    ensures
        r == subst_decls_view(subs@).contains(name@),
{
    let mut i: usize = 0;
    while i < subs.len()
        invariant
            i <= subs@.len(),
            forall|k: int| 0 <= k < i ==> subs@[k]@ != name@,
        decreases subs@.len() - i,
    {
        if *subs[i].target_name_ident() == *name {
            assert(subst_decls_view(subs@)[i as int] == name@);
            return true;
        }
        i += 1;
    }
    proof {
        if subst_decls_view(subs@).contains(name@) {
            let k = choose|k: int| 0 <= k < subs@.len() && subst_decls_view(subs@)[k] == name@;
            assert(subs@[k]@ == name@);
        }
    }
    false
}

impl Rewriter for registry::AttributeOptions {
    type Table = registry::RegistryView;

    open spec fn table(&self) -> registry::RegistryView {
        self@
    }

    open spec fn rewrite_spec(t: registry::RegistryView, m: MarkerView) -> Option<Result<Seq<TokenView>, Seq<DiagnosticView>>> {
        scaffold_rewrite(t, m)
    }

    fn rewrite(&self, m: &Marker) -> (r: Option<Result<Vec<Token>, Vec<Diagnostic>>>) {
        if marker_is(m, "__CONSTRUCT") {
            let Some(uses) = parse_construct_args(m) else {
                return Some(Err(one_error(Diagnostic::new(ErrorKind::DeclarationParse, Block::Constructions, String::new()))));
            };
            let ghost uv = uses_view(uses@);
            let decls = self.constructions();
            let mut out: Vec<Token> = Vec::new();
            let mut errs: Vec<Diagnostic> = Vec::new();
            let mut i: usize = 0;
            assert(uv.take(0) =~= Seq::<UseView>::empty());
            assert(view_of(out@) =~= Seq::<TokenView>::empty());
            assert(diagnostics_view(errs@) =~= Seq::<DiagnosticView>::empty());
            while i < uses.len()
                invariant
                    i <= uses@.len(),
                    uv == uses_view(uses@),
                    is_helper(m@, "__CONSTRUCT"@),
                    construct_args_of(m@) == Some(uv),
                    decls_view(decls@) == self@.constructions,
                    scaffold_parts(self@.constructions, uv.take(i as int)) == (view_of(out@), diagnostics_view(errs@)),
                decreases uses@.len() - i,
            {
                assert(uv.take(i + 1).drop_last() =~= uv.take(i as int));
                assert(uv.take(i + 1).last() == uses@[i as int]@);
                let u = &uses[i];
                match find_decl_type(decls, u.target_name_ident()) {
                    None => {
                        let ghost before = diagnostics_view(errs@);
                        errs.push(Diagnostic::new(ErrorKind::UnknownTargetName, Block::Constructions, u.target_name_ident().clone()));
                        assert(diagnostics_view(errs@) =~= before.push(unknown_name(Block::Constructions, u@.name)));
                    },
                    Some(ty) => {
                        let opaque = match &ty {
                            Some(t) => t.len() > 0 && match &t[0] {
                                Token::Ident(w) => crate::names::is_word(w, "impl"),
                                _ => false,
                            },
                            None => false,
                        };
                        let ty = if opaque { None } else { ty };
                        let value = dummy(&ty);
                        let args = binding_args_of(clone_tokens(u.pattern_to_construct()), ty, value);
                        let attr = attribute("construct", args);
                        out = concat_tokens(out, attr);
                    },
                }
                i += 1;
            }
            assert(uv.take(i as int) =~= uv);
            if errs.len() == 0 {
                Some(Ok(out))
            } else {
                Some(Err(errs))
            }
        } else if marker_is(m, "__SUBSTITUTE") {
            let Some(name) = parse_substitute_arg(m) else {
                return Some(Err(one_error(Diagnostic::new(ErrorKind::DeclarationParse, Block::Substitutions, String::new()))));
            };
            if substitution_declared(self.attribute_substitutions(), &name) {
                let empty: Vec<Token> = Vec::new();
                assert(view_of(empty@) =~= Seq::<TokenView>::empty());
                Some(Ok(empty))
            } else {
                Some(Err(one_error(Diagnostic::new(ErrorKind::UnknownTargetName, Block::Substitutions, name))))
            }
        } else {
            None
        }
    }
}

} // verus!
