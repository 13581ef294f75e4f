//! One instantiation: the template's registry paired with the definitions supplied for it,
//! their consistency check, and the expansion of the template body.
use crate::definitions::{
    self, cons_def_names, cons_defs_view, subst_def_names, subst_defs_view, ConsDefView,
    DefinitionsView, SubstDefView,
};
use crate::diagnostic::{diagnostics_view, one_error, Block, Diagnostic, DiagnosticView, ErrorKind};
use crate::extend::extension_tokens;
use crate::helper::{
    attribute, attribute_tokens, binding_args, binding_args_of, construct_args_of, is_helper,
    marker_is, parse_construct_args, parse_substitute_arg, substitute_arg_of, uses_view, UseView,
};
use crate::marker::{is_punct, Marker, MarkerView};
use crate::names::{absent_in, diff_by_display, lemma_absent_in, names_view};
use crate::registry::{self, decl_names, decls_view, subst_decls_view, DeclView, RegistryView};
use crate::scaffold::{decl_type, find_decl_type, marker_error, unknown_name};
use crate::shape::{is_group_with, shape_error};
use crate::split::items_view;
use crate::token::{clone_tokens, concat_tokens, group, view_of, Delimiter, Token, TokenView};
use crate::walker::{free_of, lemma_free_concat, lemma_free_without_hash, starts_with_marker, substitute_attributes, walk, Rewriter};
use vstd::prelude::*;

verus! {

/// A template's registry and the definitions that one instantiation supplies for it.
pub struct AttributeOptionsPair(registry::AttributeOptions, definitions::AttributeOptions);

pub struct PairView {
    pub registry: RegistryView,
    pub definitions: DefinitionsView,
}

impl AttributeOptionsPair {
    pub closed spec fn view(self) -> PairView {
        PairView { registry: self.0@, definitions: self.1@ }
    }

    pub fn new(registry: registry::AttributeOptions, definitions: definitions::AttributeOptions) -> (r: AttributeOptionsPair)
        ensures
            r@ == (PairView { registry: registry@, definitions: definitions@ }),
    {
        AttributeOptionsPair(registry, definitions)
    }

    /// The registry.
    pub fn flex_mod(&self) -> (r: &registry::AttributeOptions)
        ensures
            r@ == self@.registry,
    {
        &self.0
    }

    /// The definitions.
    pub fn __monomorphize_mod(&self) -> (r: &definitions::AttributeOptions)
        ensures
            r@ == self@.definitions,
    {
        &self.1
    }
}

/// `(registry), { definitions }`.
pub open spec fn pair_of(s: Seq<TokenView>) -> Result<PairView, DiagnosticView> {
    if s.len() == 3 && is_group_with(s[0], Delimiter::Parenthesis) && is_punct(s[1], ',')
        && is_group_with(s[2], Delimiter::Brace) {
        match registry::registry_of(s[0]->Group_1) {
            Err(e) => Err(e),
            Ok(r) => match definitions::definitions_of(s[2]->Group_1) {
                Err(e) => Err(e),
                Ok(d) => Ok(PairView { registry: r, definitions: d }),
            },
        }
    } else {
        Err(DiagnosticView { kind: ErrorKind::DeclarationParse, block: Block::General, subject: seq![] })
    }
}

/// Reads a pair.
pub fn parse(input: &Vec<Token>) -> (r: Result<AttributeOptionsPair, Diagnostic>)
    ensures
        match r {
            Ok(p) => pair_of(view_of(input@)) == Ok::<PairView, DiagnosticView>(p@),
            Err(e) => pair_of(view_of(input@)) == Err::<PairView, DiagnosticView>(e@),
        },
{
    let err = Diagnostic::new(ErrorKind::DeclarationParse, Block::General, String::new());
    if input.len() != 3 {
        return Err(err);
    }
    let comma = match &input[1] {
        Token::Punct(c, _) => *c == ',',
        _ => false,
    };
    if !comma {
        return Err(err);
    }
    let Token::Group(Delimiter::Parenthesis, reg) = &input[0] else { return Err(err) };
    let Token::Group(Delimiter::Brace, defs) = &input[2] else { return Err(err) };
    proof {
        crate::token::lemma_group_view(Delimiter::Parenthesis, *reg);
        crate::token::lemma_group_view(Delimiter::Brace, *defs);
    }
    let reg = match registry::parse(reg) {
        Err(e) => return Err(e),
        Ok(r) => r,
    };
    let defs = match definitions::parse(defs) {
        Err(e) => return Err(e),
        Ok(d) => d,
    };
    Ok(AttributeOptionsPair(reg, defs))
}

/// One error of `kind` for each name, in order.
pub open spec fn name_errors(kind: ErrorKind, block: Block, names: Seq<Seq<char>>) -> Seq<DiagnosticView> {
    Seq::new(names.len(), |i: int| DiagnosticView { kind, block, subject: names[i] })
}

/// Every mismatch between the names declared and the names defined: first the defined names
/// that are not declared, then the declared names that are not defined; constructions before
/// substitutions in each.
pub open spec fn consistency_errors(p: PairView) -> Seq<DiagnosticView> {
    let declared_c = decl_names(p.registry.constructions);
    let declared_s = p.registry.substitutions;
    let defined_c = cons_def_names(p.definitions.constructions);
    let defined_s = subst_def_names(p.definitions.substitutions);
    name_errors(ErrorKind::UnknownTargetName, Block::Constructions, absent_in(defined_c, declared_c))
        + name_errors(ErrorKind::UnknownTargetName, Block::Substitutions, absent_in(defined_s, declared_s))
        + name_errors(ErrorKind::MissingTargetName, Block::Constructions, absent_in(declared_c, defined_c))
        + name_errors(ErrorKind::MissingTargetName, Block::Substitutions, absent_in(declared_s, defined_s))
}

fn push_name_errors(errs: &mut Vec<Diagnostic>, kind: ErrorKind, block: Block, names: Vec<String>)
    ensures
        diagnostics_view(final(errs)@) == diagnostics_view(old(errs)@) + name_errors(kind, block, names_view(names@)),
{
    let ghost start = diagnostics_view(errs@);
    let mut i: usize = 0;
    while i < names.len()
        invariant
            i <= names@.len(),
            diagnostics_view(errs@) == start + name_errors(kind, block, names_view(names@).take(i as int)),
        decreases names@.len() - i,
    {
        let ghost before = diagnostics_view(errs@);
        errs.push(Diagnostic::new(kind, block, names[i].clone()));
        i += 1;
        assert(name_errors(kind, block, names_view(names@).take(i as int)) =~= name_errors(kind, block, names_view(names@).take(i - 1)).push(DiagnosticView { kind, block, subject: names@[i - 1]@ }));
        assert(diagnostics_view(errs@) =~= before.push(DiagnosticView { kind, block, subject: names@[i - 1]@ }));
    }
    assert(names_view(names@).take(i as int) =~= names_view(names@));
}

fn construction_decl_names(v: &Vec<registry::ConstructionDeclaration>) -> (r: Vec<String>)
    ensures
        names_view(r@) == decl_names(decls_view(v@)),
{
    let mut out: Vec<String> = Vec::new();
    let mut i: usize = 0;
    while i < v.len()
        invariant
            i <= v@.len(),
            out@.len() == i,
            forall|k: int| 0 <= k < i ==> (#[trigger] out@[k])@ == v@[k]@.name,
        decreases v@.len() - i,
    {
        out.push(v[i].target_name_ident().clone());
        i += 1;
    }
    assert(names_view(out@) =~= decl_names(decls_view(v@)));
    out
}

fn substitution_decl_names(v: &Vec<registry::AttributeSubstitutionDeclaration>) -> (r: Vec<String>)
    ensures
        names_view(r@) == subst_decls_view(v@),
{
    let mut out: Vec<String> = Vec::new();
    let mut i: usize = 0;
    while i < v.len()
        invariant
            i <= v@.len(),
            out@.len() == i,
            forall|k: int| 0 <= k < i ==> (#[trigger] out@[k])@ == v@[k]@,
        decreases v@.len() - i,
    {
        out.push(v[i].target_name_ident().clone());
        i += 1;
    }
    assert(names_view(out@) =~= subst_decls_view(v@));
    out
}

fn construction_def_names(v: &Vec<definitions::ConstructionDefinition>) -> (r: Vec<String>)
    ensures
        names_view(r@) == cons_def_names(cons_defs_view(v@)),
{
    let mut out: Vec<String> = Vec::new();
    let mut i: usize = 0;
    while i < v.len()
        invariant
            i <= v@.len(),
            out@.len() == i,
            forall|k: int| 0 <= k < i ==> (#[trigger] out@[k])@ == v@[k]@.name,
        decreases v@.len() - i,
    {
        out.push(v[i].target_name_ident().clone());
        i += 1;
    }
    assert(names_view(out@) =~= cons_def_names(cons_defs_view(v@)));
    out
}

fn substitution_def_names(v: &Vec<definitions::AttributeSubstitutionDefinition>) -> (r: Vec<String>)
    ensures
        names_view(r@) == subst_def_names(subst_defs_view(v@)),
{
    let mut out: Vec<String> = Vec::new();
    let mut i: usize = 0;
    while i < v.len()
        invariant
            i <= v@.len(),
            out@.len() == i,
            forall|k: int| 0 <= k < i ==> (#[trigger] out@[k])@ == v@[k]@.name,
        decreases v@.len() - i,
    {
        out.push(v[i].target_name_ident().clone());
        i += 1;
    }
    assert(names_view(out@) =~= subst_def_names(subst_defs_view(v@)));
    out
}

impl AttributeOptionsPair {
    /// Checks that the names defined are exactly the names declared, for constructions and
    /// for substitutions alike, and reports every mismatch together.
    pub fn validate(&self) -> (r: Result<(), Vec<Diagnostic>>)
        ensures
            r is Ok <==> consistency_errors(self@).len() == 0,
            r matches Err(e) ==> diagnostics_view(e@) == consistency_errors(self@),
    {
        let declared_c = construction_decl_names(self.0.constructions());
        let declared_s = substitution_decl_names(self.0.attribute_substitutions());
        let defined_c = construction_def_names(self.1.constructions());
        let defined_s = substitution_def_names(self.1.attribute_substitutions());
        let (unknown_c, missing_c) = diff_by_display(&declared_c, &defined_c);
        let (unknown_s, missing_s) = diff_by_display(&declared_s, &defined_s);
        let mut errs: Vec<Diagnostic> = Vec::new();
        assert(diagnostics_view(errs@) =~= Seq::<DiagnosticView>::empty());
        push_name_errors(&mut errs, ErrorKind::UnknownTargetName, Block::Constructions, unknown_c);
        push_name_errors(&mut errs, ErrorKind::UnknownTargetName, Block::Substitutions, unknown_s);
        push_name_errors(&mut errs, ErrorKind::MissingTargetName, Block::Constructions, missing_c);
        push_name_errors(&mut errs, ErrorKind::MissingTargetName, Block::Substitutions, missing_s);
        assert(diagnostics_view(errs@) =~= consistency_errors(self@));
        if errs.len() == 0 {
            Ok(())
        } else {
            Err(errs)
        }
    }
}

/// The value defined for the construction slot `name`.
pub open spec fn cons_value(defs: Seq<ConsDefView>, name: Seq<char>) -> Option<Seq<TokenView>>
    decreases defs.len(),
{
    if defs.len() == 0 {
        None
    } else if defs.last().name == name {
        Some(defs.last().value)
    } else {
        cons_value(defs.drop_last(), name)
    }
}

/// The definition of the substitution slot `name`.
pub open spec fn subst_def(defs: Seq<SubstDefView>, name: Seq<char>) -> Option<SubstDefView>
    decreases defs.len(),
{
    if defs.len() == 0 {
        None
    } else if defs.last().name == name {
        Some(defs.last())
    } else {
        subst_def(defs.drop_last(), name)
    }
}

/// A construct attribute that binds one use to its slot's value, typed as the slot is; or
/// the error for a slot with no definition.
pub open spec fn instantiate_use(p: PairView, u: UseView) -> Result<Seq<TokenView>, DiagnosticView> {
    match cons_value(p.definitions.constructions, u.name) {
        None => Err(unknown_name(Block::Constructions, u.name)),
        Some(v) => {
            let ty = match decl_type(p.registry.constructions, u.name) {
                Some(t) => t,
                None => None,
            };
            Ok(attribute_tokens("construct"@, binding_args(u.pattern, ty, v)))
        },
    }
}

/// The attributes of the uses whose slots are defined, and one error for each use whose slot
/// is not.
pub open spec fn instantiate_parts(p: PairView, uses: Seq<UseView>) -> (Seq<TokenView>, Seq<DiagnosticView>)
    decreases uses.len(),
{
    if uses.len() == 0 {
        (seq![], seq![])
    } else {
        let q = instantiate_parts(p, uses.drop_last());
        match instantiate_use(p, uses.last()) {
            Ok(t) => (q.0 + t, q.1),
            Err(e) => (q.0, q.1.push(e)),
        }
    }
}

/// A construct attribute that binds each use to its slot's value, or every use of a slot
/// with no definition.
pub open spec fn instantiate_uses(p: PairView, uses: Seq<UseView>) -> Result<Seq<TokenView>, Seq<DiagnosticView>> {
    let q = instantiate_parts(p, uses);
    if q.1.len() == 0 {
        Ok(q.0)
    } else {
        Err(q.1)
    }
}

pub open spec fn flatten(s: Seq<Seq<TokenView>>) -> Seq<TokenView>
    decreases s.len(),
{
    if s.len() == 0 {
        seq![]
    } else {
        flatten(s.drop_last()) + s.last()
    }
}

/// An extension attribute if the definition appends parameters, then its annotations.
pub open spec fn substitution_tokens(d: SubstDefView) -> Seq<TokenView> {
    let ext = match d.extension {
        Some(params) => attribute_tokens("extend_parameter_list"@, extension_tokens(params)),
        None => seq![],
    };
    ext + flatten(d.attributes)
}

/// What an instantiation makes of a marker of the template.
pub open spec fn instantiate_rewrite(p: PairView, m: MarkerView) -> Option<Result<Seq<TokenView>, Seq<DiagnosticView>>> {
    if is_helper(m, "__CONSTRUCT"@) {
        Some(
            match construct_args_of(m) {
                None => Err(seq![marker_error(Block::Constructions)]),
                Some(u) => instantiate_uses(p, u),
            },
        )
    } else if is_helper(m, "__SUBSTITUTE"@) {
        Some(
            match substitute_arg_of(m) {
                None => Err(seq![marker_error(Block::Substitutions)]),
                Some(n) => match subst_def(p.definitions.substitutions, n) {
                    None => Err(seq![unknown_name(Block::Substitutions, n)]),
                    Some(d) => Ok(substitution_tokens(d)),
                },
            },
        )
    } else {
        None
    }
}

fn find_cons_value(defs: &Vec<definitions::ConstructionDefinition>, name: &String) -> (r: Option<Vec<Token>>)
    ensures
        match r {
            None => cons_value(cons_defs_view(defs@), name@) is None,
            Some(v) => cons_value(cons_defs_view(defs@), name@) == Some(view_of(v@)),
        },
{
    let ghost dv = cons_defs_view(defs@);
    let mut i = defs.len();
    assert(dv.take(i as int) =~= dv);
    while i > 0
        invariant
            i <= defs@.len(),
            dv == cons_defs_view(defs@),
            cons_value(dv, name@) == cons_value(dv.take(i as int), name@),
        decreases i,
    {
        let d = &defs[i - 1];
        assert(dv.take(i as int).drop_last() =~= dv.take(i - 1));
        assert(dv.take(i as int).last() == d@);
        if *d.target_name_ident() == *name {
            return Some(clone_tokens(d.construction()));
        }
        i -= 1;
    }
    None
}

fn find_subst_def(defs: &Vec<definitions::AttributeSubstitutionDefinition>, name: &String) -> (r: Option<usize>)
    ensures
        match r {
            None => subst_def(subst_defs_view(defs@), name@) is None,
            Some(i) => i < defs@.len() && subst_def(subst_defs_view(defs@), name@) == Some(defs@[i as int]@),
        },
{
    let ghost dv = subst_defs_view(defs@);
    let mut i = defs.len();
    assert(dv.take(i as int) =~= dv);
    while i > 0
        invariant
            i <= defs@.len(),
            dv == subst_defs_view(defs@),
            subst_def(dv, name@) == subst_def(dv.take(i as int), name@),
        decreases i,
    {
        let d = &defs[i - 1];
        assert(dv.take(i as int).drop_last() =~= dv.take(i - 1));
        assert(dv.take(i as int).last() == d@);
        if *d.target_name_ident() == *name {
            return Some(i - 1);
        }
        i -= 1;
    }
    None
}

fn substitution(d: &definitions::AttributeSubstitutionDefinition) -> (r: Vec<Token>)
    ensures
        view_of(r@) == substitution_tokens(d@),
{
    let mut out = match d.parameter_list_extension() {
        Some(x) => attribute("extend_parameter_list", x.to_tokens()),
        None => {
            let v: Vec<Token> = Vec::new();
            assert(view_of(v@) =~= Seq::<TokenView>::empty());
            v
        },
    };
    let attrs = d.new_attributes();
    let ghost av = items_view(attrs@);
    let ghost ext = view_of(out@);
    let mut i: usize = 0;
    assert(ext + flatten(av.take(0)) =~= ext);
    while i < attrs.len()
        invariant
            i <= attrs@.len(),
            av == items_view(attrs@),
            view_of(out@) == ext + flatten(av.take(i as int)),
        decreases attrs@.len() - i,
    {
        assert(av.take(i + 1).drop_last() =~= av.take(i as int));
        assert(av.take(i + 1).last() == view_of(attrs@[i as int]@));
        out = concat_tokens(out, clone_tokens(&attrs[i]));
        i += 1;
        assert(view_of(out@) =~= ext + flatten(av.take(i as int)));
    }
    assert(av.take(i as int) =~= av);
    out
}

impl Rewriter for AttributeOptionsPair {
    type Table = PairView;

    open spec fn table(&self) -> PairView {
        self@
    }

    open spec fn rewrite_spec(t: PairView, m: MarkerView) -> Option<Result<Seq<TokenView>, Seq<DiagnosticView>>> {
        instantiate_rewrite(t, m)
    }

    fn rewrite(&self, m: &Marker) -> (r: Option<Result<Vec<Token>, Vec<Diagnostic>>>) {
        if marker_is(m, "__CONSTRUCT") {
            let Some(uses) = parse_construct_args(m) else {
                return Some(Err(one_error(Diagnostic::new(ErrorKind::DeclarationParse, Block::Constructions, String::new()))));
            };
            let ghost uv = uses_view(uses@);
            let decls = self.0.constructions();
            let defs = self.1.constructions();
            let mut out: Vec<Token> = Vec::new();
            let mut errs: Vec<Diagnostic> = Vec::new();
            let mut i: usize = 0;
            assert(uv.take(0) =~= Seq::<UseView>::empty());
            assert(view_of(out@) =~= Seq::<TokenView>::empty());
            assert(diagnostics_view(errs@) =~= Seq::<DiagnosticView>::empty());
            while i < uses.len()
                invariant
                    i <= uses@.len(),
                    uv == uses_view(uses@),
                    is_helper(m@, "__CONSTRUCT"@),
                    construct_args_of(m@) == Some(uv),
                    decls_view(decls@) == self@.registry.constructions,
                    cons_defs_view(defs@) == self@.definitions.constructions,
                    instantiate_parts(self@, uv.take(i as int)) == (view_of(out@), diagnostics_view(errs@)),
                decreases uses@.len() - i,
            {
                assert(uv.take(i + 1).drop_last() =~= uv.take(i as int));
                assert(uv.take(i + 1).last() == uses@[i as int]@);
                let u = &uses[i];
                match find_cons_value(defs, u.target_name_ident()) {
                    None => {
                        let ghost before = diagnostics_view(errs@);
                        errs.push(Diagnostic::new(ErrorKind::UnknownTargetName, Block::Constructions, u.target_name_ident().clone()));
                        assert(diagnostics_view(errs@) =~= before.push(unknown_name(Block::Constructions, u@.name)));
                    },
                    Some(value) => {
                        let ty = match find_decl_type(decls, u.target_name_ident()) {
                            Some(t) => t,
                            None => None,
                        };
                        let args = binding_args_of(clone_tokens(u.pattern_to_construct()), ty, value);
                        let attr = attribute("construct", args);
                        out = concat_tokens(out, attr);
                    },
                }
                i += 1;
            }
            assert(uv.take(i as int) =~= uv);
            if errs.len() == 0 {
                Some(Ok(out))
            } else {
                Some(Err(errs))
            }
        } else if marker_is(m, "__SUBSTITUTE") {
            let Some(name) = parse_substitute_arg(m) else {
                return Some(Err(one_error(Diagnostic::new(ErrorKind::DeclarationParse, Block::Substitutions, String::new()))));
            };
            let defs = self.1.attribute_substitutions();
            match find_subst_def(defs, &name) {
                None => Some(Err(one_error(Diagnostic::new(ErrorKind::UnknownTargetName, Block::Substitutions, name)))),
                Some(k) => Some(Ok(substitution(&defs[k]))),
            }
        } else {
            None
        }
    }
}

/// The names defined are the names declared, for each kind of slot; order and repetition
/// do not matter.
pub open spec fn names_match(p: PairView) -> bool {
    decl_names(p.registry.constructions).to_set() == cons_def_names(p.definitions.constructions).to_set()
        && p.registry.substitutions.to_set() == subst_def_names(p.definitions.substitutions).to_set()
}

proof fn lemma_absent_empty(xs: Seq<Seq<char>>, ys: Seq<Seq<char>>)
    ensures
        absent_in(xs, ys).len() == 0 <==> (forall|x: Seq<char>| xs.contains(x) ==> ys.contains(x)),
{
    lemma_absent_in(xs, ys);
    if absent_in(xs, ys).len() > 0 {
        let x = absent_in(xs, ys)[0];
        assert(absent_in(xs, ys).contains(x));
    } else {
        assert forall|x: Seq<char>| xs.contains(x) implies ys.contains(x) by {
            if !ys.contains(x) {
                assert(absent_in(xs, ys).contains(x));
            }
        }
    }
}

proof fn lemma_same_set(xs: Seq<Seq<char>>, ys: Seq<Seq<char>>)
    ensures
        (absent_in(xs, ys).len() == 0 && absent_in(ys, xs).len() == 0) <==> xs.to_set() == ys.to_set(),
{
    lemma_absent_empty(xs, ys);
    lemma_absent_empty(ys, xs);
    if absent_in(xs, ys).len() == 0 && absent_in(ys, xs).len() == 0 {
        assert(xs.to_set() =~= ys.to_set());
    }
    if xs.to_set() == ys.to_set() {
        assert forall|x: Seq<char>| xs.contains(x) implies ys.contains(x) by {
            assert(xs.to_set().contains(x));
        }
        assert forall|x: Seq<char>| ys.contains(x) implies xs.contains(x) by {
            assert(ys.to_set().contains(x));
        }
    }
}

/// The consistency check passes exactly when the names defined are the names declared, for
/// constructions and for substitutions alike.
pub proof fn lemma_consistent_iff_names_match(p: PairView)
    ensures
        consistency_errors(p).len() == 0 <==> names_match(p),
{
    let declared_c = decl_names(p.registry.constructions);
    let declared_s = p.registry.substitutions;
    let defined_c = cons_def_names(p.definitions.constructions);
    let defined_s = subst_def_names(p.definitions.substitutions);
    lemma_same_set(declared_c, defined_c);
    lemma_same_set(declared_s, defined_s);
}

proof fn lemma_decl_type_some(decls: Seq<DeclView>, n: Seq<char>)
    ensures
        decl_type(decls, n) is Some <==> decl_names(decls).contains(n),
    decreases decls.len(),
{
    if decls.len() > 0 {
        let p = decls.drop_last();
        lemma_decl_type_some(p, n);
        if decl_names(p).contains(n) {
            let k = choose|k: int| 0 <= k < decl_names(p).len() && decl_names(p)[k] == n;
            assert(decl_names(decls)[k] == n);
        }
        if decl_names(decls).contains(n) && decls.last().name != n {
            let k = choose|k: int| 0 <= k < decl_names(decls).len() && decl_names(decls)[k] == n;
            assert(decl_names(p)[k] == n);
        }
        if decls.last().name == n {
            assert(decl_names(decls)[decls.len() - 1] == n);
        }
    }
}

proof fn lemma_cons_value_some(defs: Seq<ConsDefView>, n: Seq<char>)
    ensures
        cons_value(defs, n) is Some <==> cons_def_names(defs).contains(n),
    decreases defs.len(),
{
    if defs.len() > 0 {
        let p = defs.drop_last();
        lemma_cons_value_some(p, n);
        if cons_def_names(p).contains(n) {
            let k = choose|k: int| 0 <= k < cons_def_names(p).len() && cons_def_names(p)[k] == n;
            assert(cons_def_names(defs)[k] == n);
        }
        if cons_def_names(defs).contains(n) && defs.last().name != n {
            let k = choose|k: int| 0 <= k < cons_def_names(defs).len() && cons_def_names(defs)[k] == n;
            assert(cons_def_names(p)[k] == n);
        }
        if defs.last().name == n {
            assert(cons_def_names(defs)[defs.len() - 1] == n);
        }
    }
}

proof fn lemma_subst_def_some(defs: Seq<SubstDefView>, n: Seq<char>)
    ensures
        subst_def(defs, n) is Some <==> subst_def_names(defs).contains(n),
    decreases defs.len(),
{
    if defs.len() > 0 {
        let p = defs.drop_last();
        lemma_subst_def_some(p, n);
        if subst_def_names(p).contains(n) {
            let k = choose|k: int| 0 <= k < subst_def_names(p).len() && subst_def_names(p)[k] == n;
            assert(subst_def_names(defs)[k] == n);
        }
        if subst_def_names(defs).contains(n) && defs.last().name != n {
            let k = choose|k: int| 0 <= k < subst_def_names(defs).len() && subst_def_names(defs)[k] == n;
            assert(subst_def_names(p)[k] == n);
        }
        if defs.last().name == n {
            assert(subst_def_names(defs)[defs.len() - 1] == n);
        }
    }
}

proof fn lemma_uses_resolve(p: PairView, uses: Seq<UseView>)
    requires
        names_match(p),
        crate::scaffold::scaffold_parts(p.registry.constructions, uses).1.len() == 0,
    ensures
        instantiate_parts(p, uses).1.len() == 0,
    decreases uses.len(),
{
    if uses.len() > 0 {
        lemma_uses_resolve(p, uses.drop_last());
        let n = uses.last().name;
        lemma_decl_type_some(p.registry.constructions, n);
        lemma_cons_value_some(p.definitions.constructions, n);
        assert(decl_names(p.registry.constructions).to_set().contains(n));
    }
}

/// An instantiation whose names match the registry raises no error while it rewrites a body
/// that passed the compile check: every marker there resolves to a definition.
pub proof fn lemma_expansion_has_no_errors(p: PairView, s: Seq<TokenView>)
    requires
        names_match(p),
        walk::<registry::AttributeOptions>(p.registry, s).1.len() == 0,
    ensures
        walk::<AttributeOptionsPair>(p, s).1.len() == 0,
    decreases s,
{
    if s.len() == 0 {
    } else if crate::walker::starts_with_marker(s) {
        let rest = s.subrange(2, s.len() as int);
        lemma_expansion_has_no_errors(p, rest);
        if let Some(m) = crate::marker::marker_of(s[1]->Group_1) {
            if is_helper(m, "__CONSTRUCT"@) {
                if let Some(u) = construct_args_of(m) {
                    lemma_uses_resolve(p, u);
                }
            } else if is_helper(m, "__SUBSTITUTE"@) {
                if let Some(n) = substitute_arg_of(m) {
                    lemma_subst_def_some(p.definitions.substitutions, n);
                    assert(p.registry.substitutions.to_set().contains(n));
                }
            }
        }
    } else {
        let rest = s.subrange(1, s.len() as int);
        lemma_expansion_has_no_errors(p, rest);
        if let TokenView::Group(d, c) = s[0] {
            lemma_expansion_has_no_errors(p, c);
        }
    }
}

/// The paths of the markers that stand for template slots.
pub open spec fn slot_paths() -> Set<Seq<Seq<char>>> {
    set![seq!["__CONSTRUCT"@], seq!["__SUBSTITUTE"@]]
}

/// The values, types, annotations and parameters that the pair supplies hold no slot marker,
/// and each annotation is non-empty and does not end with a `#`.
pub open spec fn supplied_free(p: PairView) -> bool {
    &&& forall|i: int| 0 <= i < p.definitions.constructions.len()
        ==> free_of(#[trigger] p.definitions.constructions[i].value, slot_paths())
    &&& forall|i: int| 0 <= i < p.registry.constructions.len()
        ==> ((#[trigger] p.registry.constructions[i]).ty matches Some(t) ==> free_of(t, slot_paths()))
    &&& forall|i: int, j: int| 0 <= i < p.definitions.substitutions.len() && 0 <= j < p.definitions.substitutions[i].attributes.len()
        ==> free_of(#[trigger] p.definitions.substitutions[i].attributes[j], slot_paths())
            && p.definitions.substitutions[i].attributes[j].len() > 0
            && !is_punct(p.definitions.substitutions[i].attributes[j].last(), '#')
    &&& forall|i: int| 0 <= i < p.definitions.substitutions.len()
        ==> ((#[trigger] p.definitions.substitutions[i]).extension matches Some(x) ==> free_of(x, slot_paths()))
}

/// In a template body, no `#` stands right before a marker, the patterns of each construction
/// point hold no slot marker, and neither do the other markers.
pub open spec fn well_placed(s: Seq<TokenView>) -> bool
    decreases s,
{
    if s.len() == 0 {
        true
    } else if starts_with_marker(s) {
        let inner_ok = match crate::marker::marker_of(s[1]->Group_1) {
            Some(m) => if is_helper(m, "__CONSTRUCT"@) {
                match construct_args_of(m) {
                    Some(u) => forall|k: int| 0 <= k < u.len() ==> free_of(#[trigger] u[k].pattern, slot_paths()),
                    None => true,
                }
            } else if is_helper(m, "__SUBSTITUTE"@) {
                true
            } else {
                free_of(s[1]->Group_1, slot_paths())
            },
            None => free_of(s[1]->Group_1, slot_paths()),
        };
        inner_ok && well_placed(s.subrange(2, s.len() as int))
    } else {
        !(is_punct(s[0], '#') && starts_with_marker(s.subrange(1, s.len() as int))) && match s[0] {
            TokenView::Group(_, c) => well_placed(c),
            _ => true,
        } && well_placed(s.subrange(1, s.len() as int))
    }
}

proof fn lemma_free_single(t: TokenView)
    requires
        !is_punct(t, '#'),
        t is Group ==> free_of(t->Group_1, slot_paths()),
    ensures
        free_of(seq![t], slot_paths()),
{
    lemma_free_without_hash(seq![t], slot_paths());
}

proof fn lemma_attribute_free(name: Seq<char>, args: Seq<TokenView>)
    requires
        free_of(args, slot_paths()),
    ensures
        free_of(attribute_tokens(name, args), slot_paths()),
        !is_punct(attribute_tokens(name, args).last(), '#'),
{
    let t = attribute_tokens(name, args);
    let content = t[1]->Group_1;
    assert forall|i: int| 0 <= i < content.len() && (#[trigger] content[i]) is Group implies free_of(content[i]->Group_1, slot_paths()) by {
        assert(i == 6);
    }
    lemma_free_without_hash(content, slot_paths());
    assert(free_of(content, slot_paths()));
    let tail = t.subrange(1, 2);
    assert(tail.subrange(1, 1) =~= Seq::<TokenView>::empty());
    assert(t.subrange(1, t.len() as int) =~= tail);
    assert(crate::marker::is_path_sep(content, 0));
    assert(free_of(tail.subrange(1, 1), slot_paths()));
    assert(free_of(tail, slot_paths()));
}

proof fn lemma_binding_args_free(pattern: Seq<TokenView>, ty: Option<Seq<TokenView>>, value: Seq<TokenView>)
    requires
        free_of(pattern, slot_paths()),
        ty matches Some(t) ==> free_of(t, slot_paths()),
        free_of(value, slot_paths()),
    ensures
        free_of(binding_args(pattern, ty, value), slot_paths()),
{
    let colon = seq![TokenView::Punct(':', crate::token::Spacing::Alone)];
    let eq = seq![TokenView::Punct('=', crate::token::Spacing::Alone)];
    lemma_free_single(colon[0]);
    lemma_free_single(eq[0]);
    let annotation = match ty {
        Some(t) => colon + t,
        None => seq![],
    };
    if let Some(t) = ty {
        lemma_free_concat(colon, t, slot_paths());
    }
    lemma_free_concat(pattern, annotation, slot_paths());
    let pa = pattern + annotation;
    lemma_free_concat(pa, eq, slot_paths());
    assert((pa + eq).last() == eq[0]);
    lemma_free_concat(pa + eq, value, slot_paths());
    assert(binding_args(pattern, ty, value) =~= pa + eq + value);
}

/// Ends with something other than a `#`, or is empty.
pub open spec fn open_end(t: Seq<TokenView>) -> bool {
    t.len() == 0 || !is_punct(t.last(), '#')
}

proof fn lemma_join_free(a: Seq<TokenView>, b: Seq<TokenView>)
    requires
        free_of(a, slot_paths()),
        free_of(b, slot_paths()),
        open_end(a),
        open_end(b),
    ensures
        free_of(a + b, slot_paths()),
        open_end(a + b),
{
    lemma_free_concat(a, b, slot_paths());
    if b.len() > 0 {
        assert((a + b).last() == b.last());
    } else {
        assert(a + b =~= a);
    }
}

proof fn lemma_cons_value_free(defs: Seq<ConsDefView>, n: Seq<char>)
    requires
        forall|i: int| 0 <= i < defs.len() ==> free_of(#[trigger] defs[i].value, slot_paths()),
    ensures
        cons_value(defs, n) matches Some(v) ==> free_of(v, slot_paths()),
    decreases defs.len(),
{
    if defs.len() > 0 {
        let p = defs.drop_last();
        assert forall|i: int| 0 <= i < p.len() implies free_of(#[trigger] p[i].value, slot_paths()) by {
            assert(p[i] == defs[i]);
        }
        lemma_cons_value_free(p, n);
        assert(defs.last() == defs[defs.len() - 1]);
    }
}

proof fn lemma_decl_type_free(decls: Seq<DeclView>, n: Seq<char>)
    requires
        forall|i: int| 0 <= i < decls.len() ==> ((#[trigger] decls[i]).ty matches Some(t) ==> free_of(t, slot_paths())),
    ensures
        decl_type(decls, n) matches Some(Some(t)) ==> free_of(t, slot_paths()),
    decreases decls.len(),
{
    if decls.len() > 0 {
        let p = decls.drop_last();
        assert forall|i: int| 0 <= i < p.len() implies ((#[trigger] p[i]).ty matches Some(t) ==> free_of(t, slot_paths())) by {
            assert(p[i] == decls[i]);
        }
        lemma_decl_type_free(p, n);
        assert(decls.last() == decls[decls.len() - 1]);
    }
}

proof fn lemma_subst_def_member(defs: Seq<SubstDefView>, n: Seq<char>)
    ensures
        subst_def(defs, n) matches Some(d) ==> exists|i: int| 0 <= i < defs.len() && defs[i] == d,
    decreases defs.len(),
{
    if defs.len() > 0 {
        lemma_subst_def_member(defs.drop_last(), n);
        if let Some(d) = subst_def(defs.drop_last(), n) {
            if defs.last().name != n {
                let i = choose|i: int| 0 <= i < defs.drop_last().len() && defs.drop_last()[i] == d;
                assert(defs[i] == d);
            }
        }
        assert(defs[defs.len() - 1] == defs.last());
    }
}

proof fn lemma_flatten_free(a: Seq<Seq<TokenView>>)
    requires
        forall|j: int| 0 <= j < a.len() ==> free_of(#[trigger] a[j], slot_paths()) && open_end(a[j]),
    ensures
        free_of(flatten(a), slot_paths()),
        open_end(flatten(a)),
    decreases a.len(),
{
    if a.len() > 0 {
        let p = a.drop_last();
        assert forall|j: int| 0 <= j < p.len() implies free_of(#[trigger] p[j], slot_paths()) && open_end(p[j]) by {
            assert(p[j] == a[j]);
        }
        lemma_flatten_free(p);
        assert(a.last() == a[a.len() - 1]);
        lemma_join_free(flatten(p), a.last());
    }
}

proof fn lemma_uses_free(p: PairView, uses: Seq<UseView>)
    requires
        supplied_free(p),
        forall|k: int| 0 <= k < uses.len() ==> free_of(#[trigger] uses[k].pattern, slot_paths()),
    ensures
        free_of(instantiate_parts(p, uses).0, slot_paths()),
        open_end(instantiate_parts(p, uses).0),
    decreases uses.len(),
{
    if uses.len() > 0 {
        let q = uses.drop_last();
        assert forall|k: int| 0 <= k < q.len() implies free_of(#[trigger] q[k].pattern, slot_paths()) by {
            assert(q[k] == uses[k]);
        }
        lemma_uses_free(p, q);
        let u = uses.last();
        assert(u == uses[uses.len() - 1]);
        let prefix = instantiate_parts(p, q).0;
        {
            if let Some(v) = cons_value(p.definitions.constructions, u.name) {
                lemma_cons_value_free(p.definitions.constructions, u.name);
                lemma_decl_type_free(p.registry.constructions, u.name);
                let ty = match decl_type(p.registry.constructions, u.name) {
                    Some(t) => t,
                    None => None,
                };
                lemma_binding_args_free(u.pattern, ty, v);
                lemma_attribute_free("construct"@, binding_args(u.pattern, ty, v));
                lemma_join_free(prefix, attribute_tokens("construct"@, binding_args(u.pattern, ty, v)));
            }
        }
    } else {
        assert(free_of(Seq::<TokenView>::empty(), slot_paths()));
    }
}

proof fn lemma_rewrite_free(p: PairView, m: MarkerView)
    requires
        supplied_free(p),
        is_helper(m, "__CONSTRUCT"@) ==> (construct_args_of(m) matches Some(u) ==> forall|k: int|
            0 <= k < u.len() ==> free_of(#[trigger] u[k].pattern, slot_paths())),
    ensures
        instantiate_rewrite(p, m) matches Some(Ok(t)) ==> free_of(t, slot_paths()) && open_end(t),
{
    if is_helper(m, "__CONSTRUCT"@) {
        if let Some(u) = construct_args_of(m) {
            lemma_uses_free(p, u);
        }
    } else if is_helper(m, "__SUBSTITUTE"@) {
        if let Some(n) = substitute_arg_of(m) {
            lemma_subst_def_member(p.definitions.substitutions, n);
            if let Some(d) = subst_def(p.definitions.substitutions, n) {
                let i = choose|i: int| 0 <= i < p.definitions.substitutions.len() && p.definitions.substitutions[i] == d;
                assert forall|j: int| 0 <= j < d.attributes.len() implies free_of(#[trigger] d.attributes[j], slot_paths()) && open_end(d.attributes[j]) by {
                    assert(free_of(p.definitions.substitutions[i].attributes[j], slot_paths()));
                }
                lemma_flatten_free(d.attributes);
                let ext = match d.extension {
                    Some(params) => attribute_tokens("extend_parameter_list"@, extension_tokens(params)),
                    None => seq![],
                };
                if let Some(params) = d.extension {
                    assert(free_of(params, slot_paths()));
                    let dots = seq![
                        TokenView::Punct('.', crate::token::Spacing::Joint),
                        TokenView::Punct('.', crate::token::Spacing::Alone),
                    ];
                    lemma_free_without_hash(dots, slot_paths());
                    if params.len() > 0 {
                        let comma = seq![TokenView::Punct(',', crate::token::Spacing::Alone)];
                        lemma_free_single(comma[0]);
                        lemma_free_concat(dots, comma, slot_paths());
                        lemma_free_concat(dots + comma, params, slot_paths());
                    }
                    lemma_attribute_free("extend_parameter_list"@, extension_tokens(params));
                } else {
                    assert(free_of(Seq::<TokenView>::empty(), slot_paths()));
                }
                lemma_join_free(ext, flatten(d.attributes));
            }
        }
    }
}

/// An instantiation leaves no slot marker unresolved: where the supplied tokens hold none and
/// the template body places its markers well, the expanded body holds no slot marker at all.
pub proof fn lemma_expansion_resolves_every_slot(p: PairView, s: Seq<TokenView>)
    requires
        supplied_free(p),
        well_placed(s),
    ensures
        free_of(walk::<AttributeOptionsPair>(p, s).0, slot_paths()),
{
    lemma_resolves(p, s);
}

proof fn lemma_resolves(p: PairView, s: Seq<TokenView>)
    requires
        supplied_free(p),
        well_placed(s),
    ensures
        free_of(walk::<AttributeOptionsPair>(p, s).0, slot_paths()),
        s.len() > 0 && !starts_with_marker(s) && !is_group_with(s[0], Delimiter::Bracket)
            ==> walk::<AttributeOptionsPair>(p, s).0.len() > 0
            && !is_group_with(walk::<AttributeOptionsPair>(p, s).0[0], Delimiter::Bracket),
    decreases s,
{
    let w = walk::<AttributeOptionsPair>(p, s);
    if s.len() == 0 {
        assert(free_of(w.0, slot_paths()));
    } else if starts_with_marker(s) {
        let rest = s.subrange(2, s.len() as int);
        lemma_resolves(p, rest);
        let wr = walk::<AttributeOptionsPair>(p, rest).0;
        let content = s[1]->Group_1;
        match crate::marker::marker_of(content) {
            Some(m) => {
                lemma_rewrite_free(p, m);
            },
            None => {},
        }
        match crate::walker::handled_at::<AttributeOptionsPair>(p, s) {
            Some(Ok(t)) => {
                lemma_free_concat(t, wr, slot_paths());
            },
            Some(Err(_)) => {},
            None => {
                let pair = seq![s[0], s[1]];
                assert(pair.subrange(1, 2) =~= seq![s[1]]);
                assert(free_of(content, slot_paths())) by {
                    if let Some(m) = crate::marker::marker_of(content) {
                        assert(!is_helper(m, "__CONSTRUCT"@) && !is_helper(m, "__SUBSTITUTE"@));
                    }
                }
                lemma_free_single(s[1]);
                assert(pair.subrange(1, pair.len() as int) =~= seq![s[1]]);
                assert(free_of(pair, slot_paths()));
                lemma_free_concat(pair, wr, slot_paths());
            },
        }
    } else {
        let rest = s.subrange(1, s.len() as int);
        lemma_resolves(p, rest);
        let wr = walk::<AttributeOptionsPair>(p, rest).0;
        match s[0] {
            TokenView::Group(d, c) => {
                lemma_resolves(p, c);
                let g = seq![TokenView::Group(d, walk::<AttributeOptionsPair>(p, c).0)];
                lemma_free_single(g[0]);
                lemma_free_concat(g, wr, slot_paths());
                assert(w.0[0] == g[0]);
            },
            _ => {
                let g = seq![s[0]];
                assert(g.subrange(1, 1) =~= Seq::<TokenView>::empty());
                assert(free_of(g.subrange(1, 1), slot_paths()));
                assert(free_of(g, slot_paths()));
                if is_punct(s[0], '#') && rest.len() > 0 {
                    assert(!starts_with_marker(rest));
                    assert(!is_group_with(rest[0], Delimiter::Bracket));
                }
                lemma_free_concat(g, wr, slot_paths());
                assert(w.0 == g + wr);
                assert(w.0[0] == s[0]);
            },
        }
    }
}

/// The module that an instantiation makes: the header given with the definitions, around the
/// template body with every marker rewritten; or every error found.
pub open spec fn expansion_of(p: PairView, item: Seq<TokenView>) -> Result<Seq<TokenView>, Seq<DiagnosticView>> {
    let errs = consistency_errors(p);
    if errs.len() > 0 {
        Err(errs)
    } else if item.len() == 0 || !is_group_with(item.last(), Delimiter::Brace) {
        Err(seq![shape_error()])
    } else {
        let w = walk::<AttributeOptionsPair>(p, item.last()->Group_1);
        if w.1.len() > 0 {
            Err(w.1)
        } else {
            Ok(p.definitions.header + seq![TokenView::Group(Delimiter::Brace, w.0)])
        }
    }
}

/// Where the names supplied are exactly the names declared, and the template passed its
/// compile check, the expansion succeeds.
pub proof fn lemma_matching_names_expand(p: PairView, item: Seq<TokenView>)
    requires
        names_match(p),
        item.len() > 0,
        is_group_with(item.last(), Delimiter::Brace),
        walk::<registry::AttributeOptions>(p.registry, item).1.len() == 0,
    ensures
        expansion_of(p, item) is Ok,
{
    let body = item.last()->Group_1;
    let a = item.drop_last();
    let g = seq![item.last()];
    assert(item =~= a + g);
    crate::walker::lemma_walk_group::<registry::AttributeOptions>(p.registry, a, Delimiter::Brace, body, seq![]);
    assert(a + seq![TokenView::Group(Delimiter::Brace, body)] + Seq::<TokenView>::empty() =~= item);
    lemma_expansion_has_no_errors(p, body);
    lemma_consistent_iff_names_match(p);
}

/// Expands the template module `item` with the definitions of the pair.
pub fn monomorphize_items(pair: &AttributeOptionsPair, item: &Vec<Token>) -> (r: Result<Vec<Token>, Vec<Diagnostic>>)
    ensures
        match r {
            Ok(v) => expansion_of(pair@, view_of(item@)) == Ok::<Seq<TokenView>, Seq<DiagnosticView>>(view_of(v@)),
            Err(e) => expansion_of(pair@, view_of(item@)) == Err::<Seq<TokenView>, Seq<DiagnosticView>>(diagnostics_view(e@)),
        },
{
    if let Err(e) = pair.validate() {
        return Err(e);
    }
    let n = item.len();
    let shape_err = Diagnostic::new(ErrorKind::StructuralShape, Block::General, String::new());
    if n == 0 {
        let mut v: Vec<Diagnostic> = Vec::new();
        v.push(shape_err);
        assert(diagnostics_view(v@) =~= seq![shape_error()]);
        return Err(v);
    }
    let Token::Group(Delimiter::Brace, body) = &item[n - 1] else {
        let mut v: Vec<Diagnostic> = Vec::new();
        v.push(shape_err);
        assert(diagnostics_view(v@) =~= seq![shape_error()]);
        return Err(v);
    };
    proof {
        crate::token::lemma_group_view(Delimiter::Brace, *body);
        assert(view_of(item@).last() == TokenView::Group(Delimiter::Brace, view_of(body@)));
        assert(consistency_errors(pair@).len() == 0);
    }
    match substitute_attributes(body, pair) {
        Err(e) => Err(e),
        Ok(out) => {
            assert(pair.table() == pair@);
            assert(view_of(out@) == walk::<AttributeOptionsPair>(pair@, view_of(body@)).0);
            assert(walk::<AttributeOptionsPair>(pair@, view_of(body@)).1.len() == 0);
            let header = clone_tokens(pair.1.mod_header());
            let mut tail: Vec<Token> = Vec::new();
            tail.push(group(Delimiter::Brace, out));
            let r = concat_tokens(header, tail);
            assert(view_of(r@) =~= pair@.definitions.header + view_of(tail@));
            assert(view_of(tail@) =~= seq![TokenView::Group(Delimiter::Brace, view_of(out@))]);
            Ok(r)
        },
    }
}

/// The whole expansion of one instantiation: `attr` holds the registry and the definitions,
/// `item` the template module.
pub fn __monomorphize_mod(attr: &Vec<Token>, item: &Vec<Token>) -> (r: Result<Vec<Token>, Vec<Diagnostic>>)
    ensures
        match pair_of(view_of(attr@)) {
            Err(e) => r matches Err(v) && diagnostics_view(v@) == seq![e],
            Ok(p) => match r {
                Ok(v) => expansion_of(p, view_of(item@)) == Ok::<Seq<TokenView>, Seq<DiagnosticView>>(view_of(v@)),
                Err(e) => expansion_of(p, view_of(item@)) == Err::<Seq<TokenView>, Seq<DiagnosticView>>(diagnostics_view(e@)),
            },
        },
{
    match parse(attr) {
        Err(e) => {
            let mut v: Vec<Diagnostic> = Vec::new();
            v.push(e);
            assert(diagnostics_view(v@) =~= seq![v@[0]@]);
            Err(v)
        },
        Ok(pair) => monomorphize_items(&pair, item),
    }
}

} // verus!
