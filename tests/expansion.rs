use std::collections::HashSet;

use mod_template::construct::construct;
use mod_template::diagnostic::{Block, Diagnostic, ErrorKind};
use mod_template::extend::extend_parameter_list;
use mod_template::names::diff_by_display;
use mod_template::pair::{self, __monomorphize_mod};
use mod_template::registry;
use mod_template::template::define;
use mod_template::token::{Delimiter, Spacing, Token};
use mod_template::definitions;
use mod_template::walker::{substitute_attributes, FixedTable, Replacement};
use proc_macro2::{TokenStream, TokenTree};

fn from_stream(ts: TokenStream) -> Vec<Token> {
    ts.into_iter()
        .map(|tt| match tt {
            TokenTree::Ident(i) => Token::Ident(i.to_string()),
            TokenTree::Punct(p) => Token::Punct(
                p.as_char(),
                match p.spacing() {
                    proc_macro2::Spacing::Joint => Spacing::Joint,
                    proc_macro2::Spacing::Alone => Spacing::Alone,
                },
            ),
            TokenTree::Literal(l) => Token::Literal(l.to_string()),
            TokenTree::Group(g) => Token::Group(
                match g.delimiter() {
                    proc_macro2::Delimiter::Parenthesis => Delimiter::Parenthesis,
                    proc_macro2::Delimiter::Brace => Delimiter::Brace,
                    proc_macro2::Delimiter::Bracket => Delimiter::Bracket,
                    proc_macro2::Delimiter::None => Delimiter::Invisible,
                },
                from_stream(g.stream()),
            ),
        })
        .collect()
}

fn to_stream(v: &[Token]) -> TokenStream {
    v.iter()
        .map(|t| -> TokenTree {
            match t {
                Token::Ident(s) => match s.strip_prefix("r#") {
                    Some(raw) => proc_macro2::Ident::new_raw(raw, proc_macro2::Span::call_site()).into(),
                    None => proc_macro2::Ident::new(s, proc_macro2::Span::call_site()).into(),
                },
                Token::Punct(c, sp) => proc_macro2::Punct::new(
                    *c,
                    match sp {
                        Spacing::Joint => proc_macro2::Spacing::Joint,
                        Spacing::Alone => proc_macro2::Spacing::Alone,
                    },
                )
                .into(),
                Token::Literal(s) => s.parse::<proc_macro2::Literal>().unwrap().into(),
                Token::Group(d, c) => proc_macro2::Group::new(
                    match d {
                        Delimiter::Parenthesis => proc_macro2::Delimiter::Parenthesis,
                        Delimiter::Brace => proc_macro2::Delimiter::Brace,
                        Delimiter::Bracket => proc_macro2::Delimiter::Bracket,
                        Delimiter::Invisible => proc_macro2::Delimiter::None,
                    },
                    to_stream(c),
                )
                .into(),
            }
        })
        .collect()
}

fn toks(src: &str) -> Vec<Token> {
    from_stream(src.parse::<TokenStream>().unwrap())
}

fn text(v: &[Token]) -> String {
    to_stream(v).to_string()
}

fn same(src: &str) -> String {
    text(&toks(src))
}

fn squeezed(s: &str) -> String {
    s.chars().filter(|c| !c.is_whitespace()).collect()
}

fn kinds(errs: &[Diagnostic]) -> Vec<(ErrorKind, Block, String)> {
    errs.iter().map(|e| (e.kind, e.block, e.subject.clone())).collect()
}

fn strings(v: &[i32]) -> Vec<String> {
    v.iter().map(|n| n.to_string()).collect()
}

#[test]
fn it_works() {
    let primes = [2, 3, 5, 7, 11, 13, 17, 19];
    let odds = [1, 3, 5, 7, 9, 11, 13, 15, 17, 19];

    let (odds_not_prime, primes_not_odd) = diff_by_display(&strings(&primes), &strings(&odds));

    assert_eq!(
        odds_not_prime.into_iter().collect::<HashSet<_>>(),
        HashSet::from(["1".to_string(), "9".to_string(), "15".to_string()])
    );
    assert_eq!(
        primes_not_odd.into_iter().collect::<HashSet<_>>(),
        HashSet::from(["2".to_string()])
    );
}

#[test]
fn diff_keeps_first_occurrence_order_without_repeats() {
    let lefts = vec!["A".to_string(), "B".to_string()];
    let rights = vec!["D".to_string(), "C".to_string(), "D".to_string(), "A".to_string()];
    let (in_rights, in_lefts) = diff_by_display(&lefts, &rights);
    assert_eq!(in_rights, vec!["D".to_string(), "C".to_string()]);
    assert_eq!(in_lefts, vec!["B".to_string()]);
}

#[test]
fn construct_basic() {
    let attr = toks("one = 1, mut to_be_three: i32 = 2, four_text: impl std::fmt::Display = \"4\",");
    let item = toks("#[test] fn test_one_adds_three() { to_be_three += 1; assert_eq!(format!(\"{}\", one + to_be_three), four_text.to_string()) }");
    let expected = same(
        "#[test] fn test_one_adds_three() {
            let one = 1;
            let mut to_be_three: i32 = 2;
            let four_text = {
                fn type_checked() -> impl std::fmt::Display { \"4\" }
                type_checked()
            };
            to_be_three += 1;
            assert_eq!(format!(\"{}\", one + to_be_three), four_text.to_string())
        }",
    );
    let actual = construct(&attr, &item).expect("the item is a function");
    assert_eq!(text(&actual), expected);
}

#[test]
fn construct_empty() {
    let actual = construct(&toks(""), &toks("fn empty() {}")).unwrap();
    assert_eq!(text(&actual), same("fn empty() {}"));
}

#[test]
fn construct_needs_a_function_body() {
    let err = construct(&toks("a = 1"), &toks("struct S;")).unwrap_err();
    assert_eq!(err.kind, ErrorKind::StructuralShape);
    let err = construct(&toks("a = 1"), &toks("fn f();")).unwrap_err();
    assert_eq!(err.kind, ErrorKind::StructuralShape);
}

#[test]
fn construct_rejects_a_binding_without_value() {
    let err = construct(&toks("a ="), &toks("fn f() {}")).unwrap_err();
    assert_eq!(err.kind, ErrorKind::DefinitionParse);
}

#[test]
fn construct_keeps_generic_types_whole() {
    let attr = toks("map: std::collections::HashMap<u8, u16> = Default::default(), n = 1");
    let actual = construct(&attr, &toks("fn f() { g() }")).unwrap();
    assert_eq!(
        text(&actual),
        same("fn f() { let map: std::collections::HashMap<u8, u16> = Default::default(); let n = 1; g() }")
    );
}

// Expanded by `extend_parameter_list(.., mut input: i32, output: &mut i32)`.
fn abs(mut input: i32, output: &mut i32) {
    input = input.abs();
    *output = input;
}

// Expanded by `extend_parameter_list(.., b: i32)`.
fn add(a: i32, b: i32) -> i32 {
    a + b
}

// Expanded by `construct(two = 2)` and `extend_parameter_list(.., addend: i32)`.
fn add_two_a(addend: i32) -> i32 {
    let two = 2;
    addend + two
}

// The same attributes, applied in the other order.
fn add_two_b(addend: i32) -> i32 {
    let two = 2;
    addend + two
}

#[test]
fn test_abs() {
    let item = toks("fn abs() { input = input.abs(); *output = input; }");
    let actual = extend_parameter_list(&toks(".., mut input: i32, output: &mut i32"), &item).unwrap();
    assert_eq!(
        text(&actual),
        same("fn abs(mut input: i32, output: &mut i32) { input = input.abs(); *output = input; }")
    );
    let mut output = 0;
    abs(-42, &mut output);
    assert_eq!(output, 42);
}

#[test]
fn test_add() {
    let actual = extend_parameter_list(&toks(".., b: i32"), &toks("fn add(a: i32) -> i32 { a + b }")).unwrap();
    assert_eq!(text(&actual), same("fn add(a: i32, b: i32) -> i32 { a + b }"));
    assert_eq!(add(1, 2), 3);
}

#[test]
fn test_add_two_a() {
    let item = toks("fn add_two_a() -> i32 { addend + two }");
    let extended = extend_parameter_list(&toks(".., addend: i32"), &item).unwrap();
    let actual = construct(&toks("two = 2"), &extended).unwrap();
    assert_eq!(text(&actual), same("fn add_two_a(addend: i32) -> i32 { let two = 2; addend + two }"));
    assert_eq!(add_two_a(1), 3);
}

#[test]
fn test_add_two_b() {
    let item = toks("fn add_two_b() -> i32 { addend + two }");
    let constructed = construct(&toks("two = 2"), &item).unwrap();
    let actual = extend_parameter_list(&toks(".., addend: i32"), &constructed).unwrap();
    assert_eq!(text(&actual), same("fn add_two_b(addend: i32) -> i32 { let two = 2; addend + two }"));
    assert_eq!(add_two_b(1), 3);
}

#[test]
fn test_one_adds_three() {
    let attr = toks("one = 1, mut to_be_three: i32 = 2, four_text: impl std::fmt::Display = \"4\",");
    let item = toks("#[test] fn test_one_adds_three() { to_be_three += 1; assert_eq!(format!(\"{}\", one + to_be_three), four_text.to_string()) }");
    let actual = construct(&attr, &item).unwrap();
    assert_eq!(
        text(&actual),
        same(
            "#[test] fn test_one_adds_three() {
                let one = 1;
                let mut to_be_three: i32 = 2;
                let four_text = { fn type_checked() -> impl std::fmt::Display { \"4\" } type_checked() };
                to_be_three += 1;
                assert_eq!(format!(\"{}\", one + to_be_three), four_text.to_string())
            }"
        )
    );
    // What the expansion runs.
    let one = 1;
    let mut to_be_three: i32 = 2;
    let four_text = {
        fn type_checked() -> impl std::fmt::Display {
            "4"
        }
        type_checked()
    };
    to_be_three += 1;
    assert_eq!(format!("{}", one + to_be_three), four_text.to_string())
}

#[test]
fn extend_parameter_list_basic() {
    let actual = extend_parameter_list(
        &toks(".., mut input: i32, output: &mut i32"),
        &toks("fn abs() { input = input.abs(); *output = input; }"),
    )
    .unwrap();
    assert_eq!(
        text(&actual),
        same("fn abs(mut input: i32, output: &mut i32) { input = input.abs(); *output = input; }")
    );
}

#[test]
fn extend_parameter_list_as_is() {
    let actual = extend_parameter_list(&toks(".."), &toks("fn empty() {}")).unwrap();
    assert_eq!(text(&actual), same("fn empty() {}"));
}

#[test]
fn empty_extension_leaves_parameters_identical() {
    let item = toks("fn f(a: u8, b: u8) -> u8 { a + b }");
    let actual = extend_parameter_list(&toks(".."), &item).unwrap();
    assert_eq!(actual, item);
}

#[test]
fn extension_after_trailing_comma_adds_no_comma() {
    let actual = extend_parameter_list(&toks(".., c: u8"), &toks("fn f(a: u8,) {}")).unwrap();
    assert_eq!(text(&actual), same("fn f(a: u8, c: u8) {}"));
}

#[test]
fn extension_needs_dots() {
    let err = extend_parameter_list(&toks("c: u8"), &toks("fn f() {}")).unwrap_err();
    assert_eq!(err.kind, ErrorKind::DefinitionParse);
    let err = extend_parameter_list(&toks(".., c: u8"), &toks("mod m {}")).unwrap_err();
    assert_eq!(err.kind, ErrorKind::StructuralShape);
}

fn template_item() -> Vec<Token> {
    toks(
        "mod __ {
            #[__CONSTRUCT(n as NUM)]
            #[__SUBSTITUTE(CHECK)]
            fn it_works() { assert_eq!(n, 42) }
        }",
    )
}

fn registry_attr() -> Vec<Token> {
    toks("define_suite; constructions(NUM -> i32), attribute_substitutions(CHECK)")
}

fn instantiate(defs: &str) -> Result<Vec<Token>, Vec<Diagnostic>> {
    let attr = toks(&format!("({}), {{ {} }}", text(&registry_attr()), defs));
    __monomorphize_mod(&attr, &template_item())
}

#[test]
fn end_to_end_instantiation() {
    let out = instantiate("mod suite; constructions { NUM => 41 + 1 }, attribute_substitutions { CHECK => #[test] }").unwrap();
    assert_eq!(
        text(&out),
        same(
            "mod suite {
                #[::mod_template::construct(n: i32 = 41 + 1)]
                #[test]
                fn it_works() { assert_eq!(n, 42) }
            }"
        )
    );
    // The host then expands the construct attribute on the function.
    let Token::Group(_, body) = &out[2] else { panic!("the module body is a group") };
    let Token::Group(_, attr_body) = &body[1] else { panic!("the attribute is bracketed") };
    let Token::Group(_, args) = &attr_body[6] else { panic!("the attribute has arguments") };
    let item: Vec<Token> = body[2..].iter().map(|t| t.deep_clone()).collect();
    let expanded = construct(args, &item).unwrap();
    assert_eq!(
        text(&expanded),
        same("#[test] fn it_works() { let n: i32 = 41 + 1; assert_eq!(n, 42) }")
    );
}

#[test]
fn two_instantiations_are_independent() {
    let a = instantiate("mod a; constructions { NUM => 1 }, attribute_substitutions { CHECK => #[test] }").unwrap();
    let b = instantiate("mod b; constructions { NUM => 2 }, attribute_substitutions { CHECK => #[ignore] }").unwrap();
    assert!(text(&a).contains(&same("n: i32 = 1")));
    assert!(text(&a).contains(&same("#[test]")));
    assert!(text(&b).contains(&same("n: i32 = 2")));
    assert!(text(&b).contains(&same("#[ignore]")));
    assert!(!text(&a).contains(&same("n: i32 = 2")));
    // Instantiating again gives the same tokens.
    let a2 = instantiate("mod a; constructions { NUM => 1 }, attribute_substitutions { CHECK => #[test] }").unwrap();
    assert_eq!(a, a2);
}

#[test]
fn substitution_with_extension() {
    let out = instantiate("mod m; constructions { NUM => 7 }, attribute_substitutions { CHECK => #[an_attr] (.., a_param: AType) }").unwrap();
    assert_eq!(
        squeezed(&text(&out)),
        squeezed(
            "mod m {
                #[::mod_template::construct(n: i32 = 7)]
                #[::mod_template::extend_parameter_list(.., a_param: AType)]
                #[an_attr]
                fn it_works() { assert_eq!(n, 42) }
            }"
        )
    );
}

#[test]
fn symmetric_difference_of_names() {
    let attr = toks(
        "(m; constructions(A -> u8, B -> u8, C -> u8)), { mod x; constructions { B => 1, C => 2, D => 3 } }",
    );
    let errs = __monomorphize_mod(&attr, &toks("mod __ {}")).unwrap_err();
    assert_eq!(
        kinds(&errs),
        vec![
            (ErrorKind::UnknownTargetName, Block::Constructions, "D".to_string()),
            (ErrorKind::MissingTargetName, Block::Constructions, "A".to_string()),
        ]
    );
}

#[test]
fn mismatches_of_both_kinds_are_reported_together() {
    let attr = toks("(m; constructions(A), attribute_substitutions(S)), { mod x; constructions { B => 1 }, attribute_substitutions { T => #[t] } }");
    let errs = __monomorphize_mod(&attr, &toks("mod __ {}")).unwrap_err();
    assert_eq!(
        kinds(&errs),
        vec![
            (ErrorKind::UnknownTargetName, Block::Constructions, "B".to_string()),
            (ErrorKind::UnknownTargetName, Block::Substitutions, "T".to_string()),
            (ErrorKind::MissingTargetName, Block::Constructions, "A".to_string()),
            (ErrorKind::MissingTargetName, Block::Substitutions, "S".to_string()),
        ]
    );
}

#[test]
fn duplicate_declaration_is_rejected_in_any_position() {
    for src in [
        "m; constructions(X, Y, X)",
        "m; constructions(X, X, Y)",
        "m; constructions(Y, X -> u8, X)",
        "m; attribute_substitutions(X, X)",
    ] {
        let err = match registry::parse(&toks(src)) {
            Err(e) => e,
            Ok(_) => panic!("{} should be rejected", src),
        };
        assert_eq!(err.kind, ErrorKind::DuplicateName);
        assert_eq!(err.subject, "X");
    }
    assert!(registry::parse(&toks("m; constructions(X), attribute_substitutions(X)")).is_ok());
}

#[test]
fn duplicate_definition_is_rejected() {
    let attr = toks("(m; constructions(A)), { mod x; constructions { A => 1, A => 2 } }");
    let errs = __monomorphize_mod(&attr, &toks("mod __ {}")).unwrap_err();
    assert_eq!(kinds(&errs), vec![(ErrorKind::DuplicateName, Block::Constructions, "A".to_string())]);
}

#[test]
fn empty_substitution_definition_is_rejected() {
    let attr = toks("(m; attribute_substitutions(S)), { mod x; attribute_substitutions { S => } }");
    let errs = __monomorphize_mod(&attr, &toks("mod __ {}")).unwrap_err();
    assert_eq!(kinds(&errs), vec![(ErrorKind::DefinitionParse, Block::Substitutions, "S".to_string())]);
}

#[test]
fn empty_extension_is_dropped() {
    let attr = toks("(m; attribute_substitutions(S)), { mod x; attribute_substitutions { S => (..) } }");
    let item = toks("mod __ { #[__SUBSTITUTE(S)] fn f() {} }");
    let out = __monomorphize_mod(&attr, &item).unwrap();
    assert_eq!(text(&out), same("mod x { fn f() {} }"));
}

#[test]
fn define_builds_check_and_macro() {
    let attr = toks("the_macro_name; constructions(FOO -> Foo), attribute_substitutions(BAR)");
    let item = toks(
        "mod __ {
            #[__CONSTRUCT(foo as FOO)]
            fn an_fn() {}
            fn a_second_fn() {}
            mod a_sub_mod {
                #[__SUBSTITUTE(BAR)]
                fn a_third_fn() {}
            }
        }",
    );
    let out = define(&attr, &item).unwrap();
    let expected = format!(
        "#[cfg(test)]
        #[allow(non_snake_case)]
        mod __mod_template__compiler_check_dummy__the_macro_name {{
            mod __ {{
                #[::mod_template::construct(foo: Foo = (|| -> Foo {{ unreachable!() }})())]
                fn an_fn() {{}}
                fn a_second_fn() {{}}
                mod a_sub_mod {{
                    fn a_third_fn() {{}}
                }}
            }}
        }}
        macro_rules! the_macro_name {{
            ($($input:tt)*) => {{
                #[::mod_template::__monomorphize_mod(({}), {{ $($input)* }})]
                {}
            }};
        }}",
        text(&attr),
        text(&item)
    );
    assert_eq!(text(&out), same(&expected));
}

#[test]
fn unknown_names_in_separate_subtrees_are_all_reported() {
    let item = toks(
        "mod __ {
            #[__CONSTRUCT(foo as NOT_FOUND)]
            fn bad_construction_not_found() {}
            mod inner {
                #[__SUBSTITUTE(NOT_FOUND)]
                fn bad_attribute_substitution_not_found() {}
            }
            #[__CONSTRUCT(foo as ATTR_SUB)]
            fn bad_use_attribute_substitution_as_construction() {}
            #[__SUBSTITUTE(CONS)]
            fn bad_use_construction_as_attribute_substitution() {}
            #[__CONSTRUCT(foo as CONS)]
            fn good_construction() {}
            #[__SUBSTITUTE(ATTR_SUB)]
            fn good_attribute_substitution() {}
        }",
    );
    let errs = define(&toks("define_foo; constructions(CONS -> ToCons), attribute_substitutions(ATTR_SUB)"), &item).unwrap_err();
    assert_eq!(
        kinds(&errs),
        vec![
            (ErrorKind::UnknownTargetName, Block::Constructions, "NOT_FOUND".to_string()),
            (ErrorKind::UnknownTargetName, Block::Substitutions, "NOT_FOUND".to_string()),
            (ErrorKind::UnknownTargetName, Block::Constructions, "ATTR_SUB".to_string()),
            (ErrorKind::UnknownTargetName, Block::Substitutions, "CONS".to_string()),
        ]
    );
}

#[test]
fn define_requires_an_anonymous_module_without_attributes() {
    let attr = toks("m");
    assert_eq!(define(&attr, &toks("mod named {}")).unwrap_err()[0].kind, ErrorKind::StructuralShape);
    assert_eq!(define(&attr, &toks("#[a] mod __ {}")).unwrap_err()[0].kind, ErrorKind::StructuralShape);
    assert_eq!(define(&attr, &toks("fn f() {}")).unwrap_err()[0].kind, ErrorKind::StructuralShape);
}

#[test]
fn impl_typed_slot_is_checked_as_untyped() {
    let reg = registry::parse(&toks("m; constructions(A -> impl Tr)")).unwrap();
    assert_eq!(text(reg.constructions()[0].ty().as_ref().unwrap()), same("impl Tr"));
    let attr = toks("m; constructions(A -> impl Tr)");
    let item = toks("mod __ { #[__CONSTRUCT(a as A)] fn f() {} }");
    let out = define(&attr, &item).unwrap();
    assert!(text(&out).contains(&same(
        "mod __mod_template__compiler_check_dummy__m { mod __ { #[::mod_template::construct(a = unreachable!())] fn f() {} } }"
    )));
    assert!(text(&out).contains(&same("macro_rules! m")));
}

#[test]
fn every_unknown_name_of_one_marker_is_reported() {
    let attr = toks("m; constructions(A -> u8)");
    let item = toks("mod __ { #[__CONSTRUCT(x as X, a as A, y as Y)] fn f() {} }");
    let errs = define(&attr, &item).unwrap_err();
    assert_eq!(
        kinds(&errs),
        vec![
            (ErrorKind::UnknownTargetName, Block::Constructions, "X".to_string()),
            (ErrorKind::UnknownTargetName, Block::Constructions, "Y".to_string()),
        ]
    );
    let reg = registry::parse(&toks("m; constructions(A)")).unwrap();
    let errs = substitute_attributes(&toks("#[__CONSTRUCT(a as X, b as Y)] #[__SUBSTITUTE(Z)]"), &reg).unwrap_err();
    assert_eq!(
        kinds(&errs),
        vec![
            (ErrorKind::UnknownTargetName, Block::Constructions, "X".to_string()),
            (ErrorKind::UnknownTargetName, Block::Constructions, "Y".to_string()),
            (ErrorKind::UnknownTargetName, Block::Substitutions, "Z".to_string()),
        ]
    );
}

#[test]
fn instantiation_reports_every_undefined_use_of_one_marker() {
    let p = pair::parse(&toks("(m; constructions(A)), { mod x; constructions { A => 1 } }")).unwrap();
    let errs = mod_template::pair::monomorphize_items(&p, &toks("mod __ { #[__CONSTRUCT(a as X, b as A, c as Y)] fn f() {} }")).unwrap_err();
    assert_eq!(
        kinds(&errs),
        vec![
            (ErrorKind::UnknownTargetName, Block::Constructions, "X".to_string()),
            (ErrorKind::UnknownTargetName, Block::Constructions, "Y".to_string()),
        ]
    );
}

#[test]
fn body_is_the_last_brace_group() {
    let actual = construct(&toks("n = 1"), &toks("fn f() -> Foo<{ N }> { g(n) }")).unwrap();
    assert_eq!(text(&actual), same("fn f() -> Foo<{ N }> { let n = 1; g(n) }"));
}

#[test]
fn qualified_paths_and_closure_return_types_stay_whole() {
    let attr = toks("x = <HashMap<K, V> as Default>::default(), f = |x| -> Foo<A, B> { Foo::new(x) }, y = 2");
    let actual = construct(&attr, &toks("fn k() {}")).unwrap();
    assert_eq!(
        text(&actual),
        same("fn k() { let x = <HashMap<K, V> as Default>::default(); let f = |x| -> Foo<A, B> { Foo::new(x) }; let y = 2; }")
    );
}

#[test]
fn duplicate_block_is_reported_as_a_block() {
    let err = match registry::parse(&toks("m; constructions(A), constructions(B)")) {
        Err(e) => e,
        Ok(_) => panic!("a second constructions block is refused"),
    };
    assert_eq!((err.kind, err.block, err.subject), (ErrorKind::DuplicateName, Block::General, "constructions".to_string()));
}

#[test]
fn nested_marker_three_groups_deep_is_rewritten_in_place() {
    let reg = registry::parse(&toks("m; constructions(V -> u8)")).unwrap();
    let input = toks("a { b ( c [ x #[__CONSTRUCT(v as V)] y ] d ) e } f");
    let out = substitute_attributes(&input, &reg).unwrap();
    assert_eq!(
        text(&out),
        same("a { b ( c [ x #[::mod_template::construct(v: u8 = (|| -> u8 { unreachable!() })())] y ] d ) e } f")
    );
}

#[test]
fn markers_of_other_tables_pass_through() {
    let reg = registry::parse(&toks("m")).unwrap();
    let input = toks("#[foo] #[not::ours(#[__CONSTRUCT(x)])] # ! [inner] #(x) fn f() {}");
    let out = substitute_attributes(&input, &reg).unwrap();
    assert_eq!(out, input);
}

#[test]
fn malformed_markers_are_errors() {
    let reg = registry::parse(&toks("m; constructions(A), attribute_substitutions(S)")).unwrap();
    let errs = substitute_attributes(&toks("#[__CONSTRUCT] #[__SUBSTITUTE(S T)] #[__CONSTRUCT(x)]"), &reg).unwrap_err();
    assert_eq!(
        kinds(&errs),
        vec![
            (ErrorKind::DeclarationParse, Block::Constructions, String::new()),
            (ErrorKind::DeclarationParse, Block::Substitutions, String::new()),
            (ErrorKind::DeclarationParse, Block::Constructions, String::new()),
        ]
    );
}

#[test]
fn untyped_slot_gets_an_untyped_check_value() {
    let reg = registry::parse(&toks("m; constructions(A)")).unwrap();
    let out = substitute_attributes(&toks("#[__CONSTRUCT(a as A, mut b as A)]"), &reg).unwrap();
    assert_eq!(
        text(&out),
        same("#[::mod_template::construct(a = unreachable!())] #[::mod_template::construct(mut b = unreachable!())]")
    );
}

#[test]
fn pair_exposes_both_sides() {
    let p = pair::parse(&toks("(m; constructions(CONS)), { pub mod a_mod; constructions { CONS => new_something() } }")).unwrap();
    assert_eq!(p.flex_mod().macro_name(), "m");
    assert_eq!(p.flex_mod().constructions()[0].target_name_ident(), "CONS");
    assert_eq!(text(p.__monomorphize_mod().mod_header()), same("pub mod a_mod"));
    assert_eq!(text(p.__monomorphize_mod().constructions()[0].construction()), same("new_something()"));
    assert!(p.validate().is_ok());
}

#[test]
fn matching_names_expand_without_slot_markers() {
    let attr = toks("(m; constructions(A -> u8, B), attribute_substitutions(S, T)), { mod x; constructions { B => 2, A => 1 }, attribute_substitutions { T => #[t], S => (.., z: u8) } }");
    let item = toks(
        "mod __ {
            #[__CONSTRUCT(a as A, b as B)]
            #[__SUBSTITUTE(S)]
            fn f() { mod inner { #[__SUBSTITUTE(T)] fn g() { #[__CONSTRUCT(c as A)] fn h() {} } } }
        }",
    );
    assert!(define(&toks("m; constructions(A -> u8, B), attribute_substitutions(S, T)"), &item).is_ok());
    let out = __monomorphize_mod(&attr, &item).unwrap();
    let printed = text(&out);
    assert!(!printed.contains("__CONSTRUCT"));
    assert!(!printed.contains("__SUBSTITUTE"));
    assert!(printed.contains(&same("#[::mod_template::construct(c: u8 = 1)]")));
    assert!(printed.contains(&same("#[t]")));
}

#[test]
fn single() {
    let reg = registry::parse(&toks("m")).unwrap();
    let actual = substitute_attributes(&toks("#[__SUBSTITUTE(errored)] mod foo {}"), &reg);
    let errors = actual.expect_err("should have an error");
    assert_eq!(errors.len(), 1);
    assert_eq!(errors[0].subject, "errored");
}

#[test]
fn multiple() {
    let reg = registry::parse(&toks("m")).unwrap();
    let actual = substitute_attributes(
        &toks("#[__SUBSTITUTE(errored)] mod foo { #[__SUBSTITUTE(errored)] fn bar() {} }"),
        &reg,
    );
    let errors = actual.expect_err("should have an error");
    assert_eq!(errors.len(), 2);
    for error in errors {
        assert_eq!(error.subject, "errored");
    }
}

#[test]
fn construct_opaque_type_with_associated_binding() {
    let attr = toks("it: impl Iterator<Item = u8> = vec![1u8].into_iter()");
    let actual = construct(&attr, &toks("fn f() { g(it) }")).unwrap();
    assert_eq!(
        text(&actual),
        same(
            "fn f() {
                let it = { fn type_checked() -> impl Iterator<Item = u8> { vec![1u8].into_iter() } type_checked() };
                g(it)
            }"
        )
    );
}

#[test]
fn mod_basic() {
    let input_attr = toks(
        "(macro_name; constructions(CONS -> impl ToCons), attribute_substitutions(ATTR_SUBST)),
        {
            mod a_mod;
            constructions {
                CONS => new_something(),
            },
            attribute_substitutions {
                ATTR_SUBST => #[an_attr] (.., a_param: AType),
            },
        }",
    );
    let input_item = toks(
        "mod __ {
            #[__CONSTRUCT(to_construct as CONS)]
            #[__SUBSTITUTE(ATTR_SUBST)]
            fn an_fn() {}
        }",
    );
    let expected = "mod a_mod {
        #[::mod_template::construct(to_construct: impl ToCons = new_something())]
        #[::mod_template::extend_parameter_list(.., a_param: AType)]
        #[an_attr]
        fn an_fn() {}
    }";
    let actual = __monomorphize_mod(&input_attr, &input_item).unwrap();
    assert_eq!(squeezed(&text(&actual)), squeezed(&same(expected)));
    // The construct attribute then checks the value against the opaque type.
    let expanded = construct(&toks("to_construct: impl ToCons = new_something()"), &toks("fn an_fn() {}")).unwrap();
    assert_eq!(
        text(&expanded),
        same("fn an_fn() { let to_construct = { fn type_checked() -> impl ToCons { new_something() } type_checked() }; }")
    );
}

fn def_names(o: &definitions::AttributeOptions) -> (Vec<(String, String)>, Vec<(String, Vec<String>, Option<String>)>) {
    (
        o.constructions()
            .iter()
            .map(|c| (c.target_name_ident().clone(), text(c.construction())))
            .collect(),
        o.attribute_substitutions()
            .iter()
            .map(|a| {
                (
                    a.target_name_ident().clone(),
                    a.new_attributes().iter().map(|t| text(t)).collect(),
                    a.parameter_list_extension().as_ref().map(|x| text(x.parameter_list())),
                )
            })
            .collect(),
    )
}

fn mod_header_fixture() -> &'static str {
    "#[an_attr] #[another_attr] pub mod a_mod"
}

#[test]
fn mod_basic_instantiation_options() {
    let input = toks(&format!(
        "{}; constructions {{ FOO => \"foo\", BAR => \"bar\" }}, attribute_substitutions {{ BAZ => #[baz], QUX => #[qux] (.., qux: Qux) }},",
        mod_header_fixture()
    ));
    let actual = definitions::parse(&input).unwrap();
    assert_eq!(text(actual.mod_header()), same(mod_header_fixture()));
    assert_eq!(
        def_names(&actual),
        (
            vec![("FOO".to_string(), same("\"foo\"")), ("BAR".to_string(), same("\"bar\""))],
            vec![
                ("BAZ".to_string(), vec![same("#[baz]")], None),
                ("QUX".to_string(), vec![same("#[qux]")], Some(same("qux: Qux"))),
            ]
        )
    );
}

#[test]
fn only_mod_header() {
    let actual = definitions::parse(&toks(mod_header_fixture())).unwrap();
    assert_eq!(text(actual.mod_header()), same(mod_header_fixture()));
    assert_eq!(def_names(&actual), (vec![], vec![]));
}

#[test]
fn mod_no_constructions_and_without_trailing_comma() {
    let input = toks(&format!("{}; attribute_substitutions{{BAZ => #[baz]}}", mod_header_fixture()));
    let actual = definitions::parse(&input).unwrap();
    assert_eq!(text(actual.mod_header()), same(mod_header_fixture()));
    assert_eq!(def_names(&actual), (vec![], vec![("BAZ".to_string(), vec![same("#[baz]")], None)]));
}

#[test]
fn mod_no_attribute_substitutions_and_with_no_parameters_in_constructions() {
    let input = toks(&format!("{}; constructions{{}}", mod_header_fixture()));
    let actual = definitions::parse(&input).unwrap();
    assert_eq!(text(actual.mod_header()), same(mod_header_fixture()));
    assert_eq!(def_names(&actual), (vec![], vec![]));
}

fn decl_names(o: &registry::AttributeOptions) -> (String, Vec<(String, Option<String>)>, Vec<String>) {
    (
        o.macro_name().clone(),
        o.constructions()
            .iter()
            .map(|c| (c.target_name_ident().clone(), c.ty().as_ref().map(|t| text(t))))
            .collect(),
        o.attribute_substitutions().iter().map(|a| a.target_name_ident().clone()).collect(),
    )
}

#[test]
fn mod_basic_declaration_options() {
    let input = toks("the_macro_name; constructions(FOO -> Foo, BAR -> Bar), attribute_substitutions(FOO, BAZ),");
    let actual = registry::parse(&input).unwrap();
    assert_eq!(
        decl_names(&actual),
        (
            "the_macro_name".to_string(),
            vec![("FOO".to_string(), Some(same("Foo"))), ("BAR".to_string(), Some(same("Bar")))],
            vec!["FOO".to_string(), "BAZ".to_string()]
        )
    );
}

#[test]
fn only_macro_name() {
    let actual = registry::parse(&toks("the_macro_name")).unwrap();
    assert_eq!(decl_names(&actual), ("the_macro_name".to_string(), vec![], vec![]));
}

#[test]
fn declaration_without_constructions_and_without_trailing_comma() {
    let actual = registry::parse(&toks("the_macro_name; attribute_substitutions(FOO)")).unwrap();
    assert_eq!(decl_names(&actual), ("the_macro_name".to_string(), vec![], vec!["FOO".to_string()]));
}

#[test]
fn declaration_without_substitutions_and_with_empty_constructions() {
    let actual = registry::parse(&toks("the_macro_name; constructions()")).unwrap();
    assert_eq!(decl_names(&actual), ("the_macro_name".to_string(), vec![], vec![]));
}

#[test]
fn attribute_options_pair_basic() {
    let input = toks(
        "(macro_name; constructions(CONS), attribute_substitutions(ATTR_SUBST)),
        {
            pub mod a_mod;
            constructions { CONS => new_something() },
            attribute_substitutions { ATTR_SUBST => #[an_attr] (.., a_param: AType) }
        }",
    );
    let actual = pair::parse(&input).unwrap();
    assert_eq!(
        decl_names(actual.flex_mod()),
        ("macro_name".to_string(), vec![("CONS".to_string(), None)], vec!["ATTR_SUBST".to_string()])
    );
    assert_eq!(text(actual.__monomorphize_mod().mod_header()), same("pub mod a_mod"));
    assert_eq!(
        def_names(actual.__monomorphize_mod()),
        (
            vec![("CONS".to_string(), same("new_something()"))],
            vec![("ATTR_SUBST".to_string(), vec![same("#[an_attr]")], Some(same("a_param: AType")))]
        )
    );
}

#[test]
fn attribute_substitution_declaration_basic() {
    let input = toks(
        "mod m; attribute_substitutions {
            WITH_ATTRS => #[foo] #[bar],
            WITH_EXT => (.., baz_1: Baz, mut baz_2: &mut Baz),
            WITH_ATTRS_EXT => #[foo] #[bar] (.., baz_1: Baz, mut baz_2: &mut Baz),
            WITH_EMPTY_EXT => (..),
        }",
    );
    let actual = definitions::parse(&input).expect("should be able to parse the input");
    let params = same("baz_1: Baz, mut baz_2: &mut Baz");
    assert_eq!(
        def_names(&actual).1,
        vec![
            ("WITH_ATTRS".to_string(), vec![same("#[foo]"), same("#[bar]")], None),
            ("WITH_EXT".to_string(), vec![], Some(params.clone())),
            ("WITH_ATTRS_EXT".to_string(), vec![same("#[foo]"), same("#[bar]")], Some(params)),
            ("WITH_EMPTY_EXT".to_string(), vec![], None),
        ]
    );
}

#[test]
fn attribute_substitution_declaration_empty() {
    let actual = definitions::parse(&toks("mod m; attribute_substitutions {}")).expect("should be able to parse the input");
    assert_eq!(def_names(&actual).1, vec![]);
}

#[test]
fn construction_declaration_basic() {
    let input = toks("mod m; constructions { FOO => 42, BAR => { let bar = bar(); bar.do_something() } }");
    let actual = definitions::parse(&input).expect("should be able to parse the input");
    assert_eq!(
        def_names(&actual).0,
        vec![
            ("FOO".to_string(), same("42")),
            ("BAR".to_string(), same("{ let bar = bar(); bar.do_something() }")),
        ]
    );
}

#[test]
fn construction_declaration_empty() {
    let actual = definitions::parse(&toks("mod m; constructions {}")).expect("should be able to parse the input");
    assert_eq!(def_names(&actual).0, vec![]);
}

#[test]
fn substitute_attributes_basic() {
    let input = toks(
        "#[foo]
        mod a_mod {
            #[foo]
            #[not_in_map]
            #[bar]
            struct a_struct {
                #[baz(#[zab])]
                a_field: i32,
            }
            impl a_struct {
                #[bar]
                #[foo]
                fn an_fn() {}
            }
        }",
    );
    let table = FixedTable {
        entries: vec![
            ("foo".to_string(), Replacement::Tokens(toks("#[oof]"))),
            ("bar".to_string(), Replacement::Tokens(toks("#[bar_1] #[bar_2]"))),
            ("baz".to_string(), Replacement::Arguments),
        ],
    };
    let expected = toks(
        "#[oof]
        mod a_mod {
            #[oof]
            #[not_in_map]
            #[bar_1]
            #[bar_2]
            struct a_struct {
                #[zab]
                a_field: i32,
            }
            impl a_struct {
                #[bar_1]
                #[bar_2]
                #[oof]
                fn an_fn() {}
            }
        }",
    );
    let actual = substitute_attributes(&input, &table).expect("there should not be errors");
    assert_eq!(text(&actual), text(&expected));
}

#[test]
fn turbofish_and_closures_stay_whole() {
    let attr = toks("x = foo::<A, B>(), f = |a, b| a + b, g = move |c, d| c, h = || 1");
    let actual = construct(&attr, &toks("fn k() {}")).unwrap();
    assert_eq!(
        text(&actual),
        same("fn k() { let x = foo::<A, B>(); let f = |a, b| a + b; let g = move |c, d| c; let h = || 1; }")
    );
    let pair_attr = toks("(m; constructions(NUM)), { mod x; constructions { NUM => foo::<A, B>() } }");
    let out = __monomorphize_mod(&pair_attr, &toks("mod __ { #[__CONSTRUCT(n as NUM)] fn k() {} }")).unwrap();
    assert_eq!(text(&out), same("mod x { #[::mod_template::construct(n = foo::<A, B>())] fn k() {} }"));
}
