//! The slot registry that a template declares: `name; constructions(..), attribute_substitutions(..)`.
use crate::diagnostic::{Block, Diagnostic, DiagnosticView, ErrorKind};
use crate::marker::{ident_at, is_punct};
use crate::names::{find_repeat, first_repeat, is_word, lemma_first_repeat, names_view};
use crate::split::{items_view, punct_at, split_items, split_items_of, split_state, SplitState};
use crate::token::{view_of, Delimiter, Spacing, Token, TokenView};
use vstd::prelude::*;

verus! {

/// A construction slot: a name, and the type of the value it binds if one is declared.
pub struct ConstructionDeclaration {
    target_name: String,
    ty: Option<Vec<Token>>,
}

/// A substitution slot.
pub struct AttributeSubstitutionDeclaration {
    target_name: String,
}

/// The registry of a template: the name of the macro that instantiates it, and its slots.
pub struct AttributeOptions {
    macro_name: String,
    constructions: Vec<ConstructionDeclaration>,
    attribute_substitutions: Vec<AttributeSubstitutionDeclaration>,
}

/// The value of a [`ConstructionDeclaration`].
pub struct DeclView {
    pub name: Seq<char>,
    pub ty: Option<Seq<TokenView>>,
}

/// The value of a registry.
pub struct RegistryView {
    pub macro_name: Seq<char>,
    pub constructions: Seq<DeclView>,
    pub substitutions: Seq<Seq<char>>,
}

pub open spec fn opt_tokens_view(t: Option<Vec<Token>>) -> Option<Seq<TokenView>> {
    match t {
        Some(v) => Some(view_of(v@)),
        None => None,
    }
}

impl ConstructionDeclaration {
    pub closed spec fn view(self) -> DeclView {
        DeclView { name: self.target_name@, ty: opt_tokens_view(self.ty) }
    }

    pub fn target_name_ident(&self) -> (r: &String)
        ensures
            r@ == self@.name,
    {
        &self.target_name
    }

    pub fn ty(&self) -> (r: &Option<Vec<Token>>)
        ensures
            opt_tokens_view(*r) == self@.ty,
    {
        &self.ty
    }
}

impl AttributeSubstitutionDeclaration {
    pub closed spec fn view(self) -> Seq<char> {
        self.target_name@
    }

    pub fn target_name_ident(&self) -> (r: &String)
        ensures
            r@ == self@,
    {
        &self.target_name
    }
}

pub open spec fn decls_view(s: Seq<ConstructionDeclaration>) -> Seq<DeclView> {
    Seq::new(s.len(), |i: int| s[i]@)
}

pub open spec fn subst_decls_view(s: Seq<AttributeSubstitutionDeclaration>) -> Seq<Seq<char>> {
    Seq::new(s.len(), |i: int| s[i]@)
}

pub open spec fn decl_names(s: Seq<DeclView>) -> Seq<Seq<char>> {
    Seq::new(s.len(), |i: int| s[i].name)
}

impl AttributeOptions {
    pub closed spec fn view(self) -> RegistryView {
        RegistryView {
            macro_name: self.macro_name@,
            constructions: decls_view(self.constructions@),
            substitutions: subst_decls_view(self.attribute_substitutions@),
        }
    }

    pub fn macro_name(&self) -> (r: &String)
        ensures
            r@ == self@.macro_name,
    {
        &self.macro_name
    }

    pub fn constructions(&self) -> (r: &Vec<ConstructionDeclaration>)
        ensures
            decls_view(r@) == self@.constructions,
    {
        &self.constructions
    }

    pub fn attribute_substitutions(&self) -> (r: &Vec<AttributeSubstitutionDeclaration>)
        ensures
            subst_decls_view(r@) == self@.substitutions,
    {
        &self.attribute_substitutions
    }
}

pub open spec fn parse_error(block: Block) -> DiagnosticView {
    DiagnosticView { kind: ErrorKind::DeclarationParse, block, subject: seq![] }
}

/// One item of a `constructions(..)` block: `NAME` or `NAME -> type`.
pub open spec fn slot_decl_of(item: Seq<TokenView>) -> Result<DeclView, DiagnosticView> {
    if item.len() == 1 && item[0] is Ident {
        Ok(DeclView { name: item[0]->Ident_0, ty: None })
    } else if item.len() >= 4 && item[0] is Ident && item[1] == TokenView::Punct('-', Spacing::Joint)
        && is_punct(item[2], '>') {
        Ok(DeclView { name: item[0]->Ident_0, ty: Some(item.subrange(3, item.len() as int)) })
    } else {
        Err(parse_error(Block::Constructions))
    }
}

/// Each item read by [`slot_decl_of`], or the first error.
pub open spec fn slot_decls_of(items: Seq<Seq<TokenView>>) -> Result<Seq<DeclView>, DiagnosticView>
    decreases items.len(),
{
    if items.len() == 0 {
        Ok(seq![])
    } else {
        match slot_decls_of(items.drop_last()) {
            Err(e) => Err(e),
            Ok(p) => match slot_decl_of(items.last()) {
                Err(e) => Err(e),
                Ok(d) => Ok(p.push(d)),
            },
        }
    }
}

/// A name that stands twice in a list is an error.
pub open spec fn unique_names(names: Seq<Seq<char>>, block: Block) -> Result<(), DiagnosticView> {
    match first_repeat(names) {
        Some(j) => Err(DiagnosticView { kind: ErrorKind::DuplicateName, block, subject: names[j] }),
        None => Ok(()),
    }
}

/// The contents of a `constructions(..)` block.
pub open spec fn construction_decls_of(content: Seq<TokenView>) -> Result<Seq<DeclView>, DiagnosticView> {
    match slot_decls_of(split_items(content)) {
        Err(e) => Err(e),
        Ok(d) => match unique_names(decl_names(d), Block::Constructions) {
            Err(e) => Err(e),
            Ok(_) => Ok(d),
        },
    }
}

/// Each item is one name.
pub open spec fn plain_names_of(items: Seq<Seq<TokenView>>, block: Block, kind: ErrorKind) -> Result<Seq<Seq<char>>, DiagnosticView>
    decreases items.len(),
{
    if items.len() == 0 {
        Ok(seq![])
    } else {
        match plain_names_of(items.drop_last(), block, kind) {
            Err(e) => Err(e),
            Ok(p) => if items.last().len() == 1 && items.last()[0] is Ident {
                Ok(p.push(items.last()[0]->Ident_0))
            } else {
                Err(DiagnosticView { kind, block, subject: seq![] })
            },
        }
    }
}

/// The contents of an `attribute_substitutions(..)` block.
pub open spec fn substitution_decls_of(content: Seq<TokenView>) -> Result<Seq<Seq<char>>, DiagnosticView> {
    match plain_names_of(split_items(content), Block::Substitutions, ErrorKind::DeclarationParse) {
        Err(e) => Err(e),
        Ok(n) => match unique_names(n, Block::Substitutions) {
            Err(e) => Err(e),
            Ok(_) => Ok(n),
        },
    }
}

/// The item is the keyword `kw` followed by a group with the delimiter `d`.
pub open spec fn is_block(item: Seq<TokenView>, kw: Seq<char>, d: Delimiter) -> bool {
    item.len() == 2 && item[0] == TokenView::Ident(kw) && item[1] is Group && item[1]->Group_0 == d
}

/// The blocks of a registry, each at most once, in any order.
pub open spec fn registry_blocks(blocks: Seq<Seq<TokenView>>) -> Result<
    (Option<Seq<DeclView>>, Option<Seq<Seq<char>>>),
    DiagnosticView,
>
    decreases blocks.len(),
{
    if blocks.len() == 0 {
        Ok((None, None))
    } else {
        match registry_blocks(blocks.drop_last()) {
            Err(e) => Err(e),
            Ok((c, a)) => {
                let b = blocks.last();
                if is_block(b, "constructions"@, Delimiter::Parenthesis) {
                    if c is Some {
                        Err(DiagnosticView { kind: ErrorKind::DuplicateName, block: Block::General, subject: "constructions"@ })
                    } else {
                        match construction_decls_of(b[1]->Group_1) {
                            Err(e) => Err(e),
                            Ok(d) => Ok((Some(d), a)),
                        }
                    }
                } else if is_block(b, "attribute_substitutions"@, Delimiter::Parenthesis) {
                    if a is Some {
                        Err(DiagnosticView { kind: ErrorKind::DuplicateName, block: Block::General, subject: "attribute_substitutions"@ })
                    } else {
                        match substitution_decls_of(b[1]->Group_1) {
                            Err(e) => Err(e),
                            Ok(n) => Ok((c, Some(n))),
                        }
                    }
                } else {
                    Err(parse_error(Block::General))
                }
            },
        }
    }
}

pub open spec fn or_empty<T>(o: Option<Seq<T>>) -> Seq<T> {
    match o {
        Some(s) => s,
        None => seq![],
    }
}

/// What a registry reads as: `name`, then optionally `;` and its blocks.
pub open spec fn registry_of(s: Seq<TokenView>) -> Result<RegistryView, DiagnosticView> {
    if s.len() >= 1 && s[0] is Ident && (s.len() == 1 || is_punct(s[1], ';')) {
        let blocks = if s.len() <= 2 { seq![] } else { split_items(s.subrange(2, s.len() as int)) };
        match registry_blocks(blocks) {
            Err(e) => Err(e),
            Ok((c, a)) => Ok(
                RegistryView { macro_name: s[0]->Ident_0, constructions: or_empty(c), substitutions: or_empty(a) },
            ),
        }
    } else {
        Err(parse_error(Block::General))
    }
}

proof fn lemma_blocks_unique(blocks: Seq<Seq<TokenView>>)
    ensures
        registry_blocks(blocks) matches Ok((c, a)) ==> (c matches Some(d) ==> decl_names(d).no_duplicates())
            && (a matches Some(n) ==> n.no_duplicates()),
    decreases blocks.len(),
{
    if blocks.len() > 0 {
        lemma_blocks_unique(blocks.drop_last());
        let b = blocks.last();
        if is_block(b, "constructions"@, Delimiter::Parenthesis) {
            if let Ok(d) = slot_decls_of(split_items(b[1]->Group_1)) {
                lemma_first_repeat(decl_names(d));
            }
        } else if is_block(b, "attribute_substitutions"@, Delimiter::Parenthesis) {
            if let Ok(n) = plain_names_of(split_items(b[1]->Group_1), Block::Substitutions, ErrorKind::DeclarationParse) {
                lemma_first_repeat(n);
            }
        }
    }
}

/// A registry that reads holds each name at most once in each block: a name declared twice in
/// one block is refused, wherever the two declarations stand.
pub proof fn lemma_registry_names_unique(s: Seq<TokenView>)
    ensures
        registry_of(s) matches Ok(r) ==> decl_names(r.constructions).no_duplicates()
            && r.substitutions.no_duplicates(),
{
    if s.len() >= 1 && s[0] is Ident && (s.len() == 1 || is_punct(s[1], ';')) {
        let blocks = if s.len() <= 2 { seq![] } else { split_items(s.subrange(2, s.len() as int)) };
        lemma_blocks_unique(blocks);
        assert(decl_names(Seq::<DeclView>::empty()) =~= Seq::<Seq<char>>::empty());
    }
}

/// A name declared twice in the `constructions` block of a registry makes the whole registry
/// an error, `DuplicateName` on the later of the two, wherever they stand in the block.
pub proof fn lemma_repeated_construction_refused(name: Seq<char>, content: Seq<TokenView>)
    requires
        slot_decls_of(split_items(content)) matches Ok(d) && !decl_names(d).no_duplicates(),
    ensures
        ({
            let s = seq![
                TokenView::Ident(name),
                TokenView::Punct(';', Spacing::Alone),
                TokenView::Ident("constructions"@),
                TokenView::Group(Delimiter::Parenthesis, content),
            ];
            let d = slot_decls_of(split_items(content))->Ok_0;
            let j = first_repeat(decl_names(d))->Some_0;
            &&& registry_of(s) is Err
            &&& registry_of(s)->Err_0.kind == ErrorKind::DuplicateName
            &&& registry_of(s)->Err_0.subject == decl_names(d)[j]
            &&& decl_names(d).take(j).contains(decl_names(d)[j])
        }),
{
    let s = seq![
        TokenView::Ident(name),
        TokenView::Punct(';', Spacing::Alone),
        TokenView::Ident("constructions"@),
        TokenView::Group(Delimiter::Parenthesis, content),
    ];
    let d = slot_decls_of(split_items(content))->Ok_0;
    lemma_first_repeat(decl_names(d));
    let rest = s.subrange(2, 4);
    let block = seq![TokenView::Ident("constructions"@), TokenView::Group(Delimiter::Parenthesis, content)];
    assert(rest =~= block);
    assert(split_state(block, 0) == (SplitState { items: seq![], current: seq![] }));
    assert(split_state(block, 1).current =~= seq![block[0]]);
    assert(split_state(block, 2).current =~= block);
    assert(split_items(block) =~= seq![block]);
    let blocks = seq![block];
    assert(blocks.drop_last() =~= Seq::<Seq<TokenView>>::empty());
    assert(is_block(block, "constructions"@, Delimiter::Parenthesis));
    assert(registry_blocks(blocks.drop_last()) == Ok::<(Option<Seq<DeclView>>, Option<Seq<Seq<char>>>), DiagnosticView>((None, None)));
    assert(block[1]->Group_1 == content);
    assert(first_repeat(decl_names(d)) is Some);
    assert(construction_decls_of(content) is Err);
    assert(blocks.last() == block);
    assert(registry_blocks(blocks) is Err);
    assert(registry_blocks(blocks)->Err_0 == construction_decls_of(content)->Err_0);
    assert(s.len() > 2 && s[0] is Ident && is_punct(s[1], ';'));
    assert(registry_of(s) is Err);
}

/// A `constructions` block whose names are pairwise distinct is accepted: the registry holds
/// its declarations in the order given.
pub proof fn lemma_distinct_constructions_accepted(name: Seq<char>, content: Seq<TokenView>)
    requires
        slot_decls_of(split_items(content)) matches Ok(d) && decl_names(d).no_duplicates(),
    ensures
        ({
            let s = seq![
                TokenView::Ident(name),
                TokenView::Punct(';', Spacing::Alone),
                TokenView::Ident("constructions"@),
                TokenView::Group(Delimiter::Parenthesis, content),
            ];
            registry_of(s) == Ok::<RegistryView, DiagnosticView>(RegistryView {
                macro_name: name,
                constructions: slot_decls_of(split_items(content))->Ok_0,
                substitutions: seq![],
            })
        }),
{
    let s = seq![
        TokenView::Ident(name),
        TokenView::Punct(';', Spacing::Alone),
        TokenView::Ident("constructions"@),
        TokenView::Group(Delimiter::Parenthesis, content),
    ];
    let d = slot_decls_of(split_items(content))->Ok_0;
    lemma_first_repeat(decl_names(d));
    let block = seq![TokenView::Ident("constructions"@), TokenView::Group(Delimiter::Parenthesis, content)];
    assert(s.subrange(2, 4) =~= block);
    assert(split_state(block, 0) == (SplitState { items: seq![], current: seq![] }));
    assert(split_state(block, 1).current =~= seq![block[0]]);
    assert(split_state(block, 2).current =~= block);
    assert(split_items(block) =~= seq![block]);
    let blocks = seq![block];
    assert(blocks.drop_last() =~= Seq::<Seq<TokenView>>::empty());
    assert(blocks.last() == block);
    assert(is_block(block, "constructions"@, Delimiter::Parenthesis));
    assert(block[1]->Group_1 == content);
    assert(registry_blocks(blocks.drop_last()) == Ok::<(Option<Seq<DeclView>>, Option<Seq<Seq<char>>>), DiagnosticView>((None, None)));
    assert(construction_decls_of(content) == Ok::<Seq<DeclView>, DiagnosticView>(d));
    assert(registry_blocks(blocks) == Ok::<(Option<Seq<DeclView>>, Option<Seq<Seq<char>>>), DiagnosticView>((Some(d), None)));
}

fn decl_error(kind: ErrorKind, block: Block) -> (r: Diagnostic)
    ensures
        r@ == (DiagnosticView { kind, block, subject: seq![] }),
{
    Diagnostic::new(kind, block, String::new())
}

fn parse_slot_decl(item: &Vec<Token>) -> (r: Result<ConstructionDeclaration, Diagnostic>)
    ensures
        match r {
            Ok(d) => slot_decl_of(view_of(item@)) == Ok::<DeclView, DiagnosticView>(d@),
            Err(e) => slot_decl_of(view_of(item@)) == Err::<DeclView, DiagnosticView>(e@),
        },
{
    let ghost s = view_of(item@);
    let Some(name) = ident_at(item, 0) else { return Err(decl_error(ErrorKind::DeclarationParse, Block::Constructions)) };
    if item.len() == 1 {
        return Ok(ConstructionDeclaration { target_name: name, ty: None });
    }
    let arrow = match (punct_at(item, 1), punct_at(item, 2)) {
        (Some((a, Spacing::Joint)), Some((b, _))) => a == '-' && b == '>',
        _ => false,
    };
    if !arrow || item.len() < 4 {
        return Err(decl_error(ErrorKind::DeclarationParse, Block::Constructions));
    }
    let ty = slice_tokens(item, 3, item.len());
    Ok(ConstructionDeclaration { target_name: name, ty: Some(ty) })
}

/// A copy of the tokens from `from` up to `to`.
pub fn slice_tokens(v: &Vec<Token>, from: usize, to: usize) -> (r: Vec<Token>)
    requires
        from <= to <= v@.len(),
    ensures
        view_of(r@) == view_of(v@).subrange(from as int, to as int),
{
    let mut out: Vec<Token> = Vec::new();
    let mut j: usize = from;
    while j < to
        invariant
            from <= j <= to <= v@.len(),
            out@.len() == j - from,
            forall|k: int| 0 <= k < out@.len() ==> (#[trigger] out@[k])@ == v@[from + k]@,
        decreases to - j,
    {
        out.push(v[j].deep_clone());
        j += 1;
    }
    assert(view_of(out@) =~= view_of(v@).subrange(from as int, to as int));
    out
}

pub(crate) fn check_unique(names: &Vec<String>, block: Block) -> (r: Result<(), Diagnostic>)
    ensures
        match r {
            Ok(_) => unique_names(names_view(names@), block) == Ok::<(), DiagnosticView>(()),
            Err(e) => unique_names(names_view(names@), block) == Err::<(), DiagnosticView>(e@),
        },
{
    match find_repeat(names) {
        Some(j) => {
            proof {
                lemma_first_repeat(names_view(names@));
            }
            Err(Diagnostic::new(ErrorKind::DuplicateName, block, names[j].clone()))
        },
        None => Ok(()),
    }
}

fn parse_construction_decls(content: &Vec<Token>) -> (r: Result<Vec<ConstructionDeclaration>, Diagnostic>)
    ensures
        match r {
            Ok(d) => construction_decls_of(view_of(content@)) == Ok::<Seq<DeclView>, DiagnosticView>(decls_view(d@)),
            Err(e) => construction_decls_of(view_of(content@)) == Err::<Seq<DeclView>, DiagnosticView>(e@),
        },
{
    let items = split_items_of(content);
    let ghost its = items_view(items@);
    let mut decls: Vec<ConstructionDeclaration> = Vec::new();
    let mut names: Vec<String> = Vec::new();
    let mut i: usize = 0;
    assert(its.take(0) =~= Seq::<Seq<TokenView>>::empty());
    assert(decls_view(decls@) =~= Seq::<DeclView>::empty());
    assert(names_view(names@) =~= decl_names(decls_view(decls@)));
    while i < items.len()
        invariant
            i <= items@.len(),
            its == items_view(items@),
            its == split_items(view_of(content@)),
            decls@.len() == i,
            names@.len() == i,
            slot_decls_of(its.take(i as int)) == Ok::<Seq<DeclView>, DiagnosticView>(decls_view(decls@)),
            names_view(names@) == decl_names(decls_view(decls@)),
        decreases items@.len() - i,
    {
        assert(its.take(i + 1).drop_last() =~= its.take(i as int));
        assert(its.take(i + 1).last() == its[i as int]);
        assert(its[i as int] == view_of(items@[i as int]@));
        let d = parse_slot_decl(&items[i]);
        match d {
            Err(e) => {
                proof {
                    lemma_slot_decls_prefix_err(its, i as int + 1);
                }
                assert(slot_decls_of(its) == Err::<Seq<DeclView>, DiagnosticView>(e@));
                return Err(e);
            },
            Ok(d) => {
                let ghost names0 = names@;
                let ghost decls0 = decls@;
                names.push(d.target_name.clone());
                decls.push(d);
                assert(names@[i as int]@ == decls@[i as int]@.name);
                assert(forall|k: int| 0 <= k < i ==> names@[k] == names0[k] && decls@[k] == decls0[k]);
                assert(decls_view(decls@) =~= slot_decls_of(its.take(i + 1))->Ok_0);
                assert forall|k: int| 0 <= k < i implies names@[k]@ == decls@[k]@.name by {
                    assert(names_view(names0)[k] == decl_names(decls_view(decls0))[k]);
                }
                assert(names_view(names@) =~= decl_names(decls_view(decls@)));
            },
        }
        i += 1;
    }
    assert(its.take(i as int) =~= its);
    match check_unique(&names, Block::Constructions) {
        Err(e) => Err(e),
        Ok(_) => Ok(decls),
    }
}

proof fn lemma_slot_decls_prefix_err(items: Seq<Seq<TokenView>>, n: int)
    requires
        0 <= n <= items.len(),
        slot_decls_of(items.take(n)) is Err,
    ensures
        slot_decls_of(items) == slot_decls_of(items.take(n)),
    decreases items.len(),
{
    if items.len() == n {
        assert(items.take(n) =~= items);
    } else {
        assert(items.drop_last().take(n) =~= items.take(n));
        lemma_slot_decls_prefix_err(items.drop_last(), n);
    }
}

proof fn lemma_plain_names_prefix_err(items: Seq<Seq<TokenView>>, n: int, block: Block, kind: ErrorKind)
    requires
        0 <= n <= items.len(),
        plain_names_of(items.take(n), block, kind) is Err,
    ensures
        plain_names_of(items, block, kind) == plain_names_of(items.take(n), block, kind),
    decreases items.len(),
{
    if items.len() == n {
        assert(items.take(n) =~= items);
    } else {
        assert(items.drop_last().take(n) =~= items.take(n));
        lemma_plain_names_prefix_err(items.drop_last(), n, block, kind);
    }
}

/// Reads each item as one name.
pub(crate) fn parse_plain_names(items: &Vec<Vec<Token>>, block: Block, kind: ErrorKind) -> (r: Result<Vec<String>, Diagnostic>)
    ensures
        match r {
            Ok(n) => plain_names_of(items_view(items@), block, kind) == Ok::<Seq<Seq<char>>, DiagnosticView>(names_view(n@)),
            Err(e) => plain_names_of(items_view(items@), block, kind) == Err::<Seq<Seq<char>>, DiagnosticView>(e@),
        },
{
    let ghost its = items_view(items@);
    let mut names: Vec<String> = Vec::new();
    let mut i: usize = 0;
    assert(its.take(0) =~= Seq::<Seq<TokenView>>::empty());
    assert(names_view(names@) =~= Seq::<Seq<char>>::empty());
    while i < items.len()
        invariant
            i <= items@.len(),
            its == items_view(items@),
            plain_names_of(its.take(i as int), block, kind) == Ok::<Seq<Seq<char>>, DiagnosticView>(names_view(names@)),
        decreases items@.len() - i,
    {
        assert(its.take(i + 1).drop_last() =~= its.take(i as int));
        let item = &items[i];
        let name = if item.len() == 1 { ident_at(item, 0) } else { None };
        match name {
            None => {
                proof {
                    lemma_plain_names_prefix_err(its, i as int + 1, block, kind);
                }
                return Err(Diagnostic::new(kind, block, String::new()));
            },
            Some(n) => {
                names.push(n);
                assert(names_view(names@) =~= plain_names_of(its.take(i + 1), block, kind)->Ok_0);
            },
        }
        i += 1;
    }
    assert(its.take(i as int) =~= its);
    Ok(names)
}

fn parse_substitution_decls(content: &Vec<Token>) -> (r: Result<Vec<AttributeSubstitutionDeclaration>, Diagnostic>)
    ensures
        match r {
            Ok(d) => substitution_decls_of(view_of(content@)) == Ok::<Seq<Seq<char>>, DiagnosticView>(subst_decls_view(d@)),
            Err(e) => substitution_decls_of(view_of(content@)) == Err::<Seq<Seq<char>>, DiagnosticView>(e@),
        },
{
    let items = split_items_of(content);
    let names = match parse_plain_names(&items, Block::Substitutions, ErrorKind::DeclarationParse) {
        Err(e) => return Err(e),
        Ok(n) => n,
    };
    if let Err(e) = check_unique(&names, Block::Substitutions) {
        return Err(e);
    }
    let mut decls: Vec<AttributeSubstitutionDeclaration> = Vec::new();
    let mut i: usize = 0;
    while i < names.len()
        invariant
            i <= names@.len(),
            decls@.len() == i,
            forall|k: int| 0 <= k < i ==> (#[trigger] decls@[k])@ == names@[k]@,
        decreases names@.len() - i,
    {
        decls.push(AttributeSubstitutionDeclaration { target_name: names[i].clone() });
        i += 1;
    }
    assert(subst_decls_view(decls@) =~= names_view(names@));
    Ok(decls)
}

proof fn lemma_registry_blocks_prefix_err(blocks: Seq<Seq<TokenView>>, n: int)
    requires
        0 <= n <= blocks.len(),
        registry_blocks(blocks.take(n)) is Err,
    ensures
        registry_blocks(blocks) == registry_blocks(blocks.take(n)),
    decreases blocks.len(),
{
    if blocks.len() == n {
        assert(blocks.take(n) =~= blocks);
    } else {
        assert(blocks.drop_last().take(n) =~= blocks.take(n));
        lemma_registry_blocks_prefix_err(blocks.drop_last(), n);
    }
}

/// Reads a registry.
pub fn parse(input: &Vec<Token>) -> (r: Result<AttributeOptions, Diagnostic>)
    ensures
        match r {
            Ok(o) => registry_of(view_of(input@)) == Ok::<RegistryView, DiagnosticView>(o@),
            Err(e) => registry_of(view_of(input@)) == Err::<RegistryView, DiagnosticView>(e@),
        },
{
    let ghost s = view_of(input@);
    let Some(macro_name) = ident_at(input, 0) else { return Err(decl_error(ErrorKind::DeclarationParse, Block::General)) };
    if input.len() > 1 {
        match punct_at(input, 1) {
            Some((c, _)) => {
                if c != ';' {
                    return Err(decl_error(ErrorKind::DeclarationParse, Block::General));
                }
            },
            None => return Err(decl_error(ErrorKind::DeclarationParse, Block::General)),
        }
    }
    let blocks = if input.len() <= 2 {
        Vec::new()
    } else {
        let rest = slice_tokens(input, 2, input.len());
        split_items_of(&rest)
    };
    let ghost bs = items_view(blocks@);
    assert(bs == if s.len() <= 2 { seq![] } else { split_items(s.subrange(2, s.len() as int)) });
    let mut constructions: Option<Vec<ConstructionDeclaration>> = None;
    let mut substitutions: Option<Vec<AttributeSubstitutionDeclaration>> = None;
    let mut i: usize = 0;
    while i < blocks.len()
        invariant
            i <= blocks@.len(),
            bs == items_view(blocks@),
            s == view_of(input@),
            bs == if s.len() <= 2 { seq![] } else { split_items(s.subrange(2, s.len() as int)) },
            s[0] == TokenView::Ident(macro_name@),
            s.len() >= 1 && (s.len() == 1 || is_punct(s[1], ';')),
            registry_blocks(bs.take(i as int)) == Ok::<(Option<Seq<DeclView>>, Option<Seq<Seq<char>>>), DiagnosticView>((
                match constructions { Some(c) => Some(decls_view(c@)), None => None },
                match substitutions { Some(a) => Some(subst_decls_view(a@)), None => None },
            )),
        decreases blocks@.len() - i,
    {
        assert(bs.take(i + 1).drop_last() =~= bs.take(i as int));
        let b = &blocks[i];
        let ghost bv = bs[i as int];
        let kw = if b.len() == 2 { ident_at(b, 0) } else { None };
        let mut handled = false;
        if let Some(kw) = kw {
            if let Token::Group(Delimiter::Parenthesis, content) = &b[1] {
                proof {
                    crate::token::lemma_group_view(Delimiter::Parenthesis, *content);
                    assert(bv[1] == TokenView::Group(Delimiter::Parenthesis, view_of(content@)));
                }
                if is_word(&kw, "constructions") {
                    handled = true;
                    if constructions.is_some() {
                        proof { lemma_registry_blocks_prefix_err(bs, i as int + 1); }
                        return Err(Diagnostic::new(ErrorKind::DuplicateName, Block::General, kw));
                    }
                    match parse_construction_decls(content) {
                        Err(e) => {
                            proof { lemma_registry_blocks_prefix_err(bs, i as int + 1); }
                            return Err(e);
                        },
                        Ok(d) => constructions = Some(d),
                    }
                } else if is_word(&kw, "attribute_substitutions") {
                    handled = true;
                    if substitutions.is_some() {
                        proof { lemma_registry_blocks_prefix_err(bs, i as int + 1); }
                        return Err(Diagnostic::new(ErrorKind::DuplicateName, Block::General, kw));
                    }
                    match parse_substitution_decls(content) {
                        Err(e) => {
                            proof { lemma_registry_blocks_prefix_err(bs, i as int + 1); }
                            return Err(e);
                        },
                        Ok(a) => substitutions = Some(a),
                    }
                }
            }
        }
        if !handled {
            proof { lemma_registry_blocks_prefix_err(bs, i as int + 1); }
            return Err(decl_error(ErrorKind::DeclarationParse, Block::General));
        }
        i += 1;
    }
    assert(bs.take(i as int) =~= bs);
    let constructions = match constructions { Some(c) => c, None => Vec::new() };
    let attribute_substitutions = match substitutions { Some(a) => a, None => Vec::new() };
    proof {
        assert(decls_view(constructions@) =~= or_empty(registry_blocks(bs)->Ok_0.0));
        assert(subst_decls_view(attribute_substitutions@) =~= or_empty(registry_blocks(bs)->Ok_0.1));
    }
    Ok(AttributeOptions { macro_name, constructions, attribute_substitutions })
}

} // verus!
