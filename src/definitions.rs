//! The definitions that one instantiation supplies:
//! `header; constructions { NAME => expr, .. }, attribute_substitutions { NAME => #[..] (.., params), .. }`.
use crate::diagnostic::{Block, Diagnostic, DiagnosticView, ErrorKind};
use crate::extend::{self, extension_of};
use crate::marker::{ident_at, is_punct};
use crate::names::{is_word, names_view};
use crate::registry::{check_unique, is_block, or_empty, slice_tokens, unique_names};
use crate::shape::is_group_with;
use crate::split::{items_view, punct_at, split_items, split_items_of};
use crate::token::{view_of, Delimiter, Spacing, Token, TokenView};
use vstd::prelude::*;

verus! {

/// The value that a construction slot is given.
pub struct ConstructionDefinition {
    target_name: String,
    construction: Vec<Token>,
}

/// The annotations, and the parameters, that a substitution slot is given.
pub struct AttributeSubstitutionDefinition {
    target_name: String,
    new_attributes: Vec<Vec<Token>>,
    parameter_list_extension: Option<extend::AttributeOptions>,
}

/// What an instantiation supplies: the header of the module it makes, and its definitions.
pub struct AttributeOptions {
    mod_header: Vec<Token>,
    constructions: Vec<ConstructionDefinition>,
    attribute_substitutions: Vec<AttributeSubstitutionDefinition>,
}

pub struct ConsDefView {
    pub name: Seq<char>,
    pub value: Seq<TokenView>,
}

pub struct SubstDefView {
    pub name: Seq<char>,
    pub attributes: Seq<Seq<TokenView>>,
    /// The parameters to append; a definition with nothing to append has none.
    pub extension: Option<Seq<TokenView>>,
}

pub struct DefinitionsView {
    pub header: Seq<TokenView>,
    pub constructions: Seq<ConsDefView>,
    pub substitutions: Seq<SubstDefView>,
}

impl ConstructionDefinition {
    pub closed spec fn view(self) -> ConsDefView {
        ConsDefView { name: self.target_name@, value: view_of(self.construction@) }
    }

    pub fn target_name_ident(&self) -> (r: &String)
        ensures
            r@ == self@.name,
    {
        &self.target_name
    }

    pub fn construction(&self) -> (r: &Vec<Token>)
        ensures
            view_of(r@) == self@.value,
    {
        &self.construction
    }
}

pub open spec fn ext_view(x: Option<extend::AttributeOptions>) -> Option<Seq<TokenView>> {
    match x {
        Some(o) => Some(o@.parameter_list),
        None => None,
    }
}

impl AttributeSubstitutionDefinition {
    pub closed spec fn view(self) -> SubstDefView {
        SubstDefView {
            name: self.target_name@,
            attributes: items_view(self.new_attributes@),
            extension: ext_view(self.parameter_list_extension),
        }
    }

    pub fn target_name_ident(&self) -> (r: &String)
        ensures
            r@ == self@.name,
    {
        &self.target_name
    }

    pub fn new_attributes(&self) -> (r: &Vec<Vec<Token>>)
        ensures
            items_view(r@) == self@.attributes,
    {
        &self.new_attributes
    }

    pub fn parameter_list_extension(&self) -> (r: &Option<extend::AttributeOptions>)
        ensures
            ext_view(*r) == self@.extension,
    {
        &self.parameter_list_extension
    }
}

pub open spec fn cons_defs_view(s: Seq<ConstructionDefinition>) -> Seq<ConsDefView> {
    Seq::new(s.len(), |i: int| s[i]@)
}

pub open spec fn subst_defs_view(s: Seq<AttributeSubstitutionDefinition>) -> Seq<SubstDefView> {
    Seq::new(s.len(), |i: int| s[i]@)
}

pub open spec fn cons_def_names(s: Seq<ConsDefView>) -> Seq<Seq<char>> {
    Seq::new(s.len(), |i: int| s[i].name)
}

pub open spec fn subst_def_names(s: Seq<SubstDefView>) -> Seq<Seq<char>> {
    Seq::new(s.len(), |i: int| s[i].name)
}

impl AttributeOptions {
    pub closed spec fn view(self) -> DefinitionsView {
        DefinitionsView {
            header: view_of(self.mod_header@),
            constructions: cons_defs_view(self.constructions@),
            substitutions: subst_defs_view(self.attribute_substitutions@),
        }
    }

    pub fn mod_header(&self) -> (r: &Vec<Token>)
        ensures
            view_of(r@) == self@.header,
    {
        &self.mod_header
    }

    pub fn constructions(&self) -> (r: &Vec<ConstructionDefinition>)
        ensures
            cons_defs_view(r@) == self@.constructions,
    {
        &self.constructions
    }

    pub fn attribute_substitutions(&self) -> (r: &Vec<AttributeSubstitutionDefinition>)
        ensures
            subst_defs_view(r@) == self@.substitutions,
    {
        &self.attribute_substitutions
    }
}

pub open spec fn def_error(block: Block, subject: Seq<char>) -> DiagnosticView {
    DiagnosticView { kind: ErrorKind::DefinitionParse, block, subject }
}

/// The item starts with `NAME =>`.
pub open spec fn is_def_head(item: Seq<TokenView>) -> bool {
    item.len() >= 3 && item[0] is Ident && item[1] == TokenView::Punct('=', Spacing::Joint) && is_punct(
        item[2],
        '>',
    )
}

/// `NAME => expr`.
pub open spec fn cons_def_of(item: Seq<TokenView>) -> Result<ConsDefView, DiagnosticView> {
    if is_def_head(item) && item.len() >= 4 {
        Ok(ConsDefView { name: item[0]->Ident_0, value: item.subrange(3, item.len() as int) })
    } else {
        Err(def_error(Block::Constructions, seq![]))
    }
}

/// A run of annotations `#[..]`, then at most one extension `(.., params)` at the end.
pub open spec fn annotations_of(s: Seq<TokenView>) -> Option<(Seq<Seq<TokenView>>, Option<Seq<TokenView>>)>
    decreases s.len(),
{
    if s.len() == 0 {
        Some((seq![], None))
    } else if s.len() == 1 && is_group_with(s[0], Delimiter::Parenthesis) {
        match extension_of(s[0]->Group_1) {
            Some(x) => Some((seq![], Some(x.parameter_list))),
            None => None,
        }
    } else if s.len() >= 2 && is_punct(s[0], '#') && is_group_with(s[1], Delimiter::Bracket) {
        match annotations_of(s.subrange(2, s.len() as int)) {
            Some((a, x)) => Some((seq![s.take(2)] + a, x)),
            None => None,
        }
    } else {
        None
    }
}

/// `NAME => annotations [extension]`, with at least one of the two; an extension with no
/// parameters is then dropped.
pub open spec fn subst_def_of(item: Seq<TokenView>) -> Result<SubstDefView, DiagnosticView> {
    if is_def_head(item) {
        let name = item[0]->Ident_0;
        match annotations_of(item.subrange(3, item.len() as int)) {
            None => Err(def_error(Block::Substitutions, name)),
            Some((a, x)) => if a.len() == 0 && x is None {
                Err(def_error(Block::Substitutions, name))
            } else {
                Ok(
                    SubstDefView {
                        name,
                        attributes: a,
                        extension: match x {
                            Some(p) => if p.len() == 0 {
                                None
                            } else {
                                Some(p)
                            },
                            None => None,
                        },
                    },
                )
            },
        }
    } else {
        Err(def_error(Block::Substitutions, seq![]))
    }
}

pub open spec fn cons_defs_list(items: Seq<Seq<TokenView>>) -> Result<Seq<ConsDefView>, DiagnosticView>
    decreases items.len(),
{
    if items.len() == 0 {
        Ok(seq![])
    } else {
        match cons_defs_list(items.drop_last()) {
            Err(e) => Err(e),
            Ok(p) => match cons_def_of(items.last()) {
                Err(e) => Err(e),
                Ok(d) => Ok(p.push(d)),
            },
        }
    }
}

pub open spec fn subst_defs_list(items: Seq<Seq<TokenView>>) -> Result<Seq<SubstDefView>, DiagnosticView>
    decreases items.len(),
{
    if items.len() == 0 {
        Ok(seq![])
    } else {
        match subst_defs_list(items.drop_last()) {
            Err(e) => Err(e),
            Ok(p) => match subst_def_of(items.last()) {
                Err(e) => Err(e),
                Ok(d) => Ok(p.push(d)),
            },
        }
    }
}

/// The contents of a `constructions { .. }` block.
pub open spec fn cons_defs_of(content: Seq<TokenView>) -> Result<Seq<ConsDefView>, DiagnosticView> {
    match cons_defs_list(split_items(content)) {
        Err(e) => Err(e),
        Ok(d) => match unique_names(cons_def_names(d), Block::Constructions) {
            Err(e) => Err(e),
            Ok(_) => Ok(d),
        },
    }
}

/// The contents of an `attribute_substitutions { .. }` block.
pub open spec fn subst_defs_of(content: Seq<TokenView>) -> Result<Seq<SubstDefView>, DiagnosticView> {
    match subst_defs_list(split_items(content)) {
        Err(e) => Err(e),
        Ok(d) => match unique_names(subst_def_names(d), Block::Substitutions) {
            Err(e) => Err(e),
            Ok(_) => Ok(d),
        },
    }
}

/// The blocks of an instantiation, each at most once, in any order.
pub open spec fn definition_blocks(blocks: Seq<Seq<TokenView>>) -> Result<
    (Option<Seq<ConsDefView>>, Option<Seq<SubstDefView>>),
    DiagnosticView,
>
    decreases blocks.len(),
{
    if blocks.len() == 0 {
        Ok((None, None))
    } else {
        match definition_blocks(blocks.drop_last()) {
            Err(e) => Err(e),
            Ok((c, a)) => {
                let b = blocks.last();
                if is_block(b, "constructions"@, Delimiter::Brace) {
                    if c is Some {
                        Err(DiagnosticView { kind: ErrorKind::DuplicateName, block: Block::General, subject: "constructions"@ })
                    } else {
                        match cons_defs_of(b[1]->Group_1) {
                            Err(e) => Err(e),
                            Ok(d) => Ok((Some(d), a)),
                        }
                    }
                } else if is_block(b, "attribute_substitutions"@, Delimiter::Brace) {
                    if a is Some {
                        Err(DiagnosticView { kind: ErrorKind::DuplicateName, block: Block::General, subject: "attribute_substitutions"@ })
                    } else {
                        match subst_defs_of(b[1]->Group_1) {
                            Err(e) => Err(e),
                            Ok(n) => Ok((c, Some(n))),
                        }
                    }
                } else {
                    Err(def_error(Block::General, seq![]))
                }
            },
        }
    }
}

/// The first `;` at or after `from`.
pub open spec fn first_semicolon(s: Seq<TokenView>, from: int) -> Option<int>
    decreases s.len() - from,
{
    if from < 0 || from >= s.len() {
        None
    } else if is_punct(s[from], ';') {
        Some(from)
    } else {
        first_semicolon(s, from + 1)
    }
}

/// What an instantiation reads as: a non-empty header up to the first `;`, then its blocks.
pub open spec fn definitions_of(s: Seq<TokenView>) -> Result<DefinitionsView, DiagnosticView> {
    let (header, blocks) = match first_semicolon(s, 0) {
        None => (s, seq![]),
        Some(k) => (s.take(k), split_items(s.subrange(k + 1, s.len() as int))),
    };
    if header.len() == 0 {
        Err(def_error(Block::General, seq![]))
    } else {
        match definition_blocks(blocks) {
            Err(e) => Err(e),
            Ok((c, a)) => Ok(DefinitionsView { header, constructions: or_empty(c), substitutions: or_empty(a) }),
        }
    }
}

fn parse_cons_def(item: &Vec<Token>) -> (r: Result<ConstructionDefinition, Diagnostic>)
    ensures
        match r {
            Ok(d) => cons_def_of(view_of(item@)) == Ok::<ConsDefView, DiagnosticView>(d@),
            Err(e) => cons_def_of(view_of(item@)) == Err::<ConsDefView, DiagnosticView>(e@),
        },
{
    let err = Diagnostic::new(ErrorKind::DefinitionParse, Block::Constructions, String::new());
    let Some(name) = ident_at(item, 0) else { return Err(err) };
    if !def_arrow(item) || item.len() < 4 {
        return Err(err);
    }
    let construction = slice_tokens(item, 3, item.len());
    Ok(ConstructionDefinition { target_name: name, construction })
}

/// Tokens 1 and 2 are `=>`.
fn def_arrow(item: &Vec<Token>) -> (r: bool)
    ensures
        r == (item@.len() >= 3 && view_of(item@)[1] == TokenView::Punct('=', Spacing::Joint) && is_punct(view_of(item@)[2], '>')),
{
    match (punct_at(item, 1), punct_at(item, 2)) {
        (Some((a, Spacing::Joint)), Some((b, _))) => a == '=' && b == '>',
        _ => false,
    }
}

fn parse_annotations(s: &Vec<Token>) -> (r: Option<(Vec<Vec<Token>>, Option<extend::AttributeOptions>)>)
    ensures
        match r {
            Some((a, x)) => annotations_of(view_of(s@)) == Some((items_view(a@), ext_view(x))),
            None => annotations_of(view_of(s@)) is None,
        },
{
    let ghost v = view_of(s@);
    let mut attrs: Vec<Vec<Token>> = Vec::new();
    let mut i: usize = 0;
    assert(v.subrange(0, v.len() as int) =~= v);
    assert(items_view(attrs@) + Seq::<Seq<TokenView>>::empty() =~= Seq::<Seq<TokenView>>::empty());
    loop
        invariant
            i <= s@.len(),
            v == view_of(s@),
            annotations_of(v) == match annotations_of(v.subrange(i as int, v.len() as int)) {
                Some((a, x)) => Some((items_view(attrs@) + a, x)),
                None => None,
            },
        decreases s@.len() - i,
    {
        let ghost t = v.subrange(i as int, v.len() as int);
        let left = s.len() - i;
        if left == 0 {
            assert(items_view(attrs@) + Seq::<Seq<TokenView>>::empty() =~= items_view(attrs@));
            return Some((attrs, None));
        }
        if left == 1 {
            if let Token::Group(Delimiter::Parenthesis, c) = &s[i] {
                proof {
                    crate::token::lemma_group_view(Delimiter::Parenthesis, *c);
                    assert(t[0] == v[i as int]);
                }
                match extend::parse(c) {
                    Some(x) => {
                        assert(items_view(attrs@) + Seq::<Seq<TokenView>>::empty() =~= items_view(attrs@));
                        return Some((attrs, Some(x)));
                    },
                    None => return None,
                }
            }
            return None;
        }
        let hash = match punct_at(s, i) {
            Some((c, _)) => c == '#',
            None => false,
        };
        let bracket = match &s[i + 1] {
            Token::Group(d, c) => {
                proof {
                    crate::token::lemma_group_view(*d, *c);
                }
                *d == Delimiter::Bracket
            },
            _ => false,
        };
        assert(t[0] == v[i as int] && t[1] == v[i + 1]);
        if !(hash && bracket) {
            return None;
        }
        let ghost attrs0 = items_view(attrs@);
        let one = slice_tokens(s, i, i + 2);
        attrs.push(one);
        assert(t.take(2) =~= v.subrange(i as int, i + 2));
        assert(t.subrange(2, t.len() as int) =~= v.subrange(i + 2, v.len() as int));
        assert(items_view(attrs@) =~= attrs0 + seq![t.take(2)]);
        proof {
            let rest = annotations_of(v.subrange(i + 2, v.len() as int));
            if let Some((a, x)) = rest {
                assert(attrs0 + (seq![t.take(2)] + a) =~= items_view(attrs@) + a);
            }
        }
        i = i + 2;
    }
}

fn parse_subst_def(item: &Vec<Token>) -> (r: Result<AttributeSubstitutionDefinition, Diagnostic>)
    ensures
        match r {
            Ok(d) => subst_def_of(view_of(item@)) == Ok::<SubstDefView, DiagnosticView>(d@),
            Err(e) => subst_def_of(view_of(item@)) == Err::<SubstDefView, DiagnosticView>(e@),
        },
{
    let Some(name) = ident_at(item, 0) else {
        return Err(Diagnostic::new(ErrorKind::DefinitionParse, Block::Substitutions, String::new()))
    };
    if !def_arrow(item) {
        return Err(Diagnostic::new(ErrorKind::DefinitionParse, Block::Substitutions, String::new()));
    }
    let rest = slice_tokens(item, 3, item.len());
    let Some((attrs, ext)) = parse_annotations(&rest) else {
        return Err(Diagnostic::new(ErrorKind::DefinitionParse, Block::Substitutions, name))
    };
    if attrs.len() == 0 && ext.is_none() {
        return Err(Diagnostic::new(ErrorKind::DefinitionParse, Block::Substitutions, name));
    }
    let ext = match ext {
        Some(x) => if x.is_noop() {
            None
        } else {
            Some(x)
        },
        None => None,
    };
    Ok(AttributeSubstitutionDefinition { target_name: name, new_attributes: attrs, parameter_list_extension: ext })
}

proof fn lemma_cons_defs_prefix_err(items: Seq<Seq<TokenView>>, n: int)
    requires
        0 <= n <= items.len(),
        cons_defs_list(items.take(n)) is Err,
    ensures
        cons_defs_list(items) == cons_defs_list(items.take(n)),
    decreases items.len(),
{
    if items.len() == n {
        assert(items.take(n) =~= items);
    } else {
        assert(items.drop_last().take(n) =~= items.take(n));
        lemma_cons_defs_prefix_err(items.drop_last(), n);
    }
}

proof fn lemma_subst_defs_prefix_err(items: Seq<Seq<TokenView>>, n: int)
    requires
        0 <= n <= items.len(),
        subst_defs_list(items.take(n)) is Err,
    ensures
        subst_defs_list(items) == subst_defs_list(items.take(n)),
    decreases items.len(),
{
    if items.len() == n {
        assert(items.take(n) =~= items);
    } else {
        assert(items.drop_last().take(n) =~= items.take(n));
        lemma_subst_defs_prefix_err(items.drop_last(), n);
    }
}

fn parse_cons_defs(content: &Vec<Token>) -> (r: Result<Vec<ConstructionDefinition>, Diagnostic>)
    ensures
        match r {
            Ok(d) => cons_defs_of(view_of(content@)) == Ok::<Seq<ConsDefView>, DiagnosticView>(cons_defs_view(d@)),
            Err(e) => cons_defs_of(view_of(content@)) == Err::<Seq<ConsDefView>, DiagnosticView>(e@),
        },
{
    let items = split_items_of(content);
    let ghost its = items_view(items@);
    let mut defs: Vec<ConstructionDefinition> = Vec::new();
    let mut names: Vec<String> = Vec::new();
    let mut i: usize = 0;
    assert(its.take(0) =~= Seq::<Seq<TokenView>>::empty());
    assert(cons_defs_view(defs@) =~= Seq::<ConsDefView>::empty());
    assert(names_view(names@) =~= cons_def_names(cons_defs_view(defs@)));
    while i < items.len()
        invariant
            i <= items@.len(),
            its == items_view(items@),
            its == split_items(view_of(content@)),
            defs@.len() == i,
            names@.len() == i,
            cons_defs_list(its.take(i as int)) == Ok::<Seq<ConsDefView>, DiagnosticView>(cons_defs_view(defs@)),
            names_view(names@) == cons_def_names(cons_defs_view(defs@)),
        decreases items@.len() - i,
    {
        assert(its.take(i + 1).drop_last() =~= its.take(i as int));
        assert(its.take(i + 1).last() == view_of(items@[i as int]@));
        match parse_cons_def(&items[i]) {
            Err(e) => {
                proof {
                    lemma_cons_defs_prefix_err(its, i as int + 1);
                }
                return Err(e);
            },
            Ok(d) => {
                let ghost names0 = names@;
                let ghost defs0 = defs@;
                names.push(d.target_name.clone());
                defs.push(d);
                assert forall|k: int| 0 <= k < i implies names@[k]@ == defs@[k]@.name by {
                    assert(names_view(names0)[k] == cons_def_names(cons_defs_view(defs0))[k]);
                }
                assert(names_view(names@) =~= cons_def_names(cons_defs_view(defs@)));
                assert(cons_defs_view(defs@) =~= cons_defs_list(its.take(i + 1))->Ok_0);
            },
        }
        i += 1;
    }
    assert(its.take(i as int) =~= its);
    match check_unique(&names, Block::Constructions) {
        Err(e) => Err(e),
        Ok(_) => Ok(defs),
    }
}

fn parse_subst_defs(content: &Vec<Token>) -> (r: Result<Vec<AttributeSubstitutionDefinition>, Diagnostic>)
    ensures
        match r {
            Ok(d) => subst_defs_of(view_of(content@)) == Ok::<Seq<SubstDefView>, DiagnosticView>(subst_defs_view(d@)),
            Err(e) => subst_defs_of(view_of(content@)) == Err::<Seq<SubstDefView>, DiagnosticView>(e@),
        },
{
    let items = split_items_of(content);
    let ghost its = items_view(items@);
    let mut defs: Vec<AttributeSubstitutionDefinition> = Vec::new();
    let mut names: Vec<String> = Vec::new();
    let mut i: usize = 0;
    assert(its.take(0) =~= Seq::<Seq<TokenView>>::empty());
    assert(subst_defs_view(defs@) =~= Seq::<SubstDefView>::empty());
    assert(names_view(names@) =~= subst_def_names(subst_defs_view(defs@)));
    while i < items.len()
        invariant
            i <= items@.len(),
            its == items_view(items@),
            its == split_items(view_of(content@)),
            defs@.len() == i,
            names@.len() == i,
            subst_defs_list(its.take(i as int)) == Ok::<Seq<SubstDefView>, DiagnosticView>(subst_defs_view(defs@)),
            names_view(names@) == subst_def_names(subst_defs_view(defs@)),
        decreases items@.len() - i,
    {
        assert(its.take(i + 1).drop_last() =~= its.take(i as int));
        assert(its.take(i + 1).last() == view_of(items@[i as int]@));
        match parse_subst_def(&items[i]) {
            Err(e) => {
                proof {
                    lemma_subst_defs_prefix_err(its, i as int + 1);
                }
                return Err(e);
            },
            Ok(d) => {
                let ghost names0 = names@;
                let ghost defs0 = defs@;
                names.push(d.target_name.clone());
                defs.push(d);
                assert forall|k: int| 0 <= k < i implies names@[k]@ == defs@[k]@.name by {
                    assert(names_view(names0)[k] == subst_def_names(subst_defs_view(defs0))[k]);
                }
                assert(names_view(names@) =~= subst_def_names(subst_defs_view(defs@)));
                assert(subst_defs_view(defs@) =~= subst_defs_list(its.take(i + 1))->Ok_0);
            },
        }
        i += 1;
    }
    assert(its.take(i as int) =~= its);
    match check_unique(&names, Block::Substitutions) {
        Err(e) => Err(e),
        Ok(_) => Ok(defs),
    }
}

proof fn lemma_definition_blocks_prefix_err(blocks: Seq<Seq<TokenView>>, n: int)
    requires
        0 <= n <= blocks.len(),
        definition_blocks(blocks.take(n)) is Err,
    ensures
        definition_blocks(blocks) == definition_blocks(blocks.take(n)),
    decreases blocks.len(),
{
    if blocks.len() == n {
        assert(blocks.take(n) =~= blocks);
    } else {
        assert(blocks.drop_last().take(n) =~= blocks.take(n));
        lemma_definition_blocks_prefix_err(blocks.drop_last(), n);
    }
}

fn find_semicolon(v: &Vec<Token>) -> (r: Option<usize>)
    ensures
        match r {
            Some(i) => first_semicolon(view_of(v@), 0) == Some(i as int) && i < v@.len(),
            None => first_semicolon(view_of(v@), 0) is None,
        },
{
    let ghost s = view_of(v@);
    let mut i: usize = 0;
    while i < v.len()
        invariant
            s == view_of(v@),
            first_semicolon(s, 0) == first_semicolon(s, i as int),
        decreases v@.len() - i,
    {
        if let Some((c, _)) = punct_at(v, i) {
            if c == ';' {
                return Some(i);
            }
        }
        i += 1;
    }
    None
}

/// Reads what an instantiation supplies.
pub fn parse(input: &Vec<Token>) -> (r: Result<AttributeOptions, Diagnostic>)
    ensures
        match r {
            Ok(o) => definitions_of(view_of(input@)) == Ok::<DefinitionsView, DiagnosticView>(o@),
            Err(e) => definitions_of(view_of(input@)) == Err::<DefinitionsView, DiagnosticView>(e@),
        },
{
    let ghost s = view_of(input@);
    let n = input.len();
    let (mod_header, blocks) = match find_semicolon(input) {
        None => (crate::token::clone_tokens(input), Vec::new()),
        Some(k) => {
            assert(k < n);
            let rest = slice_tokens(input, k + 1, n);
            (slice_tokens(input, 0, k), split_items_of(&rest))
        },
    };
    let ghost bs = items_view(blocks@);
    proof {
        match first_semicolon(s, 0) {
            None => {
                assert(bs =~= Seq::<Seq<TokenView>>::empty());
            },
            Some(k) => {
                assert(s.subrange(0, k) =~= s.take(k));
            },
        }
    }
    if mod_header.len() == 0 {
        return Err(Diagnostic::new(ErrorKind::DefinitionParse, Block::General, String::new()));
    }
    let ghost header = view_of(mod_header@);
    let mut constructions: Option<Vec<ConstructionDefinition>> = None;
    let mut substitutions: Option<Vec<AttributeSubstitutionDefinition>> = None;
    let mut i: usize = 0;
    assert(bs.take(0) =~= Seq::<Seq<TokenView>>::empty());
    while i < blocks.len()
        invariant
            i <= blocks@.len(),
            bs == items_view(blocks@),
            s == view_of(input@),
            header == view_of(mod_header@),
            header.len() > 0,
            (header, bs) == match first_semicolon(s, 0) {
                None => (s, seq![]),
                Some(k) => (s.take(k), split_items(s.subrange(k + 1, s.len() as int))),
            },
            definition_blocks(bs.take(i as int)) == Ok::<(Option<Seq<ConsDefView>>, Option<Seq<SubstDefView>>), DiagnosticView>((
                match constructions { Some(c) => Some(cons_defs_view(c@)), None => None },
                match substitutions { Some(a) => Some(subst_defs_view(a@)), None => None },
            )),
        decreases blocks@.len() - i,
    {
        assert(bs.take(i + 1).drop_last() =~= bs.take(i as int));
        let b = &blocks[i];
        let ghost bv = bs[i as int];
        let kw = if b.len() == 2 { ident_at(b, 0) } else { None };
        let mut handled = false;
        if let Some(kw) = kw {
            if let Token::Group(Delimiter::Brace, content) = &b[1] {
                proof {
                    crate::token::lemma_group_view(Delimiter::Brace, *content);
                    assert(bv[1] == TokenView::Group(Delimiter::Brace, view_of(content@)));
                }
                if is_word(&kw, "constructions") {
                    handled = true;
                    if constructions.is_some() {
                        proof { lemma_definition_blocks_prefix_err(bs, i as int + 1); }
                        return Err(Diagnostic::new(ErrorKind::DuplicateName, Block::General, kw));
                    }
                    match parse_cons_defs(content) {
                        Err(e) => {
                            proof { lemma_definition_blocks_prefix_err(bs, i as int + 1); }
                            return Err(e);
                        },
                        Ok(d) => constructions = Some(d),
                    }
                } else if is_word(&kw, "attribute_substitutions") {
                    handled = true;
                    if substitutions.is_some() {
                        proof { lemma_definition_blocks_prefix_err(bs, i as int + 1); }
                        return Err(Diagnostic::new(ErrorKind::DuplicateName, Block::General, kw));
                    }
                    match parse_subst_defs(content) {
                        Err(e) => {
                            proof { lemma_definition_blocks_prefix_err(bs, i as int + 1); }
                            return Err(e);
                        },
                        Ok(a) => substitutions = Some(a),
                    }
                }
            }
        }
        if !handled {
            proof { lemma_definition_blocks_prefix_err(bs, i as int + 1); }
            return Err(Diagnostic::new(ErrorKind::DefinitionParse, Block::General, String::new()));
        }
        i += 1;
    }
    assert(bs.take(i as int) =~= bs);
    let constructions = match constructions { Some(c) => c, None => Vec::new() };
    let attribute_substitutions = match substitutions { Some(a) => a, None => Vec::new() };
    proof {
        assert(cons_defs_view(constructions@) =~= or_empty(definition_blocks(bs)->Ok_0.0));
        assert(subst_defs_view(attribute_substitutions@) =~= or_empty(definition_blocks(bs)->Ok_0.1));
    }
    Ok(AttributeOptions { mod_header, constructions, attribute_substitutions })
}

} // verus!
