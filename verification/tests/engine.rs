use jointcomp::lexer::parse_text;
use jointcomp::node::{render_node_text, render_nodes_text, Delim, Node};
use jointcomp::replacing::replace;
use jointcomp::target::{from_input, targets_vec_from, ParseError, Target, TargetType};

fn lex(s: &str) -> Vec<Node> {
    parse_text(s).expect("text should lex")
}

fn expand(config: &str, template: &str) -> String {
    let script = from_input(&lex(config)).expect("config should parse");
    let out = replace(&lex(template), &script);
    render_nodes_text(&out)
}

#[test]
fn lexer_flat_tokens() {
    let ns = lex("a ( b , c )");
    assert_eq!(ns.len(), 2);
    assert_eq!(render_nodes_text(&ns), "a (b , c)");
}

#[test]
fn lexer_string_literal_is_one_leaf() {
    let ns = lex("\"a b.S\"");
    assert_eq!(ns.len(), 1);
    assert_eq!(render_nodes_text(&ns), "\"a b.S\"");
}

#[test]
fn lexer_rejects_unbalanced() {
    assert!(parse_text("( a").is_none());
    assert!(parse_text(") a").is_none());
    assert!(parse_text("( a ]").is_none());
    assert!(parse_text("\"abc").is_none());
}

#[test]
fn render_then_reparse_is_stable() {
    let ns = lex("a { b ( c , d ) } $ e");
    let text = render_nodes_text(&ns);
    let again = parse_text(&text).expect("serialized text should lex");
    assert_eq!(render_nodes_text(&again), text);
}

#[test]
fn render_punct_leaf() {
    assert_eq!(render_node_text(&Node::Punct('$')), "$");
    let g = Node::Group(Delim::Brace, vec![Node::Punct('#')]);
    assert_eq!(render_node_text(&g), "{#}");
}

#[test]
fn parse_single_target_with_deps() {
    let script = from_input(&lex("GccAsm { \"a.S\" : \"b.h\", \"c.h\" }")).unwrap();
    assert_eq!(script.len(), 1);
    assert!(matches!(script[0].ttype, TargetType::GccAsm));
    assert_eq!(script[0].targets.len(), 1);
    assert_eq!(script[0].targets[0].source, "\"a.S\"");
    assert_eq!(script[0].targets[0].dependencies, vec!["\"b.h\"", "\"c.h\""]);
    assert!(script[0].code_macro.is_empty());
}

#[test]
fn parse_two_collections_in_order() {
    let script = from_input(&lex("LinkerMap { \"x\" }; LinkerScript { \"y.lds\" }")).unwrap();
    assert_eq!(script.len(), 2);
    assert!(matches!(script[0].ttype, TargetType::LinkerMap));
    assert!(matches!(script[1].ttype, TargetType::LinkerScript));
}

#[test]
fn expansion_preserves_collection_order() {
    let out = expand(
        "LinkerMap { \"x\" }; LinkerScript { \"y.lds\" }",
        "$ ( $tartype ; )",
    );
    assert_eq!(out, "TargetType : : LinkerMap ; TargetType : : LinkerScript ;");
}

#[test]
fn unknown_type_name_is_fatal_and_named() {
    let err = from_input(&lex("Foo { \"a.S\" }")).unwrap_err();
    match &err {
        ParseError::UnknownTargetType(name) => assert_eq!(name, "Foo"),
        other => panic!("wrong error: {:?}", other),
    }
    assert_eq!(err.message(), "Unknown TargetType : Foo");
}

#[test]
fn parenthesis_instead_of_brace_is_fatal() {
    let err = from_input(&lex("GccAsm ( \"a.S\" )")).unwrap_err();
    assert!(matches!(err, ParseError::ExpectedBrace(TargetType::GccAsm)));
    assert_eq!(err.message(), "Brace needed after TargetType GccAsm");
}

#[test]
fn missing_brace_is_fatal() {
    let err = from_input(&lex("GccAsm")).unwrap_err();
    assert!(matches!(err, ParseError::ExpectedBrace(TargetType::GccAsm)));
}

#[test]
fn hash_without_bracket_is_fatal() {
    let err = from_input(&lex("# GccAsm { \"a\" }")).unwrap_err();
    assert!(matches!(err, ParseError::ExpectedBracket));
    assert_eq!(err.message(), "After # must be a []");
}

#[test]
fn attribute_alone_is_fatal() {
    let err = from_input(&lex("# [cfg (x)]")).unwrap_err();
    assert!(matches!(err, ParseError::UnexpectedEnd));
    assert_eq!(err.message(), "Section unexpectedly terminated.");
}

#[test]
fn second_token_after_source_must_be_colon() {
    let err = from_input(&lex("GccAsm { \"a\" \"b\" }")).unwrap_err();
    assert!(matches!(err, ParseError::ExpectedColon));
    assert_eq!(err.message(), "Must be a : after a target.");
}

#[test]
fn empty_input_parses_to_empty_script() {
    let script = from_input(&Vec::new()).unwrap();
    assert!(script.is_empty());
}

#[test]
fn empty_target_chunks_are_dropped() {
    let script = from_input(&lex("GccAsm { \"a\", , \"b\", }")).unwrap();
    assert_eq!(script[0].targets.len(), 2);
    assert_eq!(script[0].targets[0].source, "\"a\"");
    assert_eq!(script[0].targets[1].source, "\"b\"");
}

#[test]
fn empty_dependency_chunk_becomes_empty_text() {
    let script = from_input(&lex("GccAsm { \"a\" : , \"b\" }")).unwrap();
    assert_eq!(script[0].targets[0].dependencies, vec!["", "\"b\""]);
}

#[test]
fn single_entry_parser_reads_one_chunk() {
    let entry = Target::from_tokens(&lex("\"a\" : \"b\", \"c\"")).unwrap().unwrap();
    assert_eq!(entry.source, "\"a\"");
    assert_eq!(entry.dependencies, vec!["\"b\"", "\"c\""]);
    assert!(Target::from_tokens(&Vec::new()).unwrap().is_none());
    assert!(Target::from_tokens(&lex("\"a\" \"b\"")).is_err());
}

#[test]
fn targets_vec_from_parses_brace_content() {
    let targets = targets_vec_from(&lex("\"a\" : \"b\", \"c\"")).unwrap();
    assert_eq!(targets.len(), 1);
    assert_eq!(targets[0].source, "\"a\"");
    assert_eq!(targets[0].dependencies, vec!["\"b\"", "\"c\""]);
}

#[test]
fn trailing_declaration_without_semicolon_is_parsed() {
    let script = from_input(&lex("LinkerMap { \"x\" }; LinkerScript { \"y\" }")).unwrap();
    assert_eq!(script.len(), 2);
}

#[test]
fn identity_without_markers() {
    let template = "fn main ( ) { let x = 1 ; }";
    let out = expand("GccAsm { \"a\" }", template);
    assert_eq!(out, render_nodes_text(&lex(template)));
}

#[test]
fn lone_dollar_passes_through_outside_a_body() {
    let template = "a $ ;";
    let out = expand("GccAsm { \"x\" }", template);
    assert_eq!(out, "a $ ;");
}

#[test]
fn cardinality_sums_targets_over_collections() {
    let out = expand(
        "GccAsm { \"a\", \"b\" }; LinkerMap { \"c\" }",
        "$ ( x )",
    );
    assert_eq!(out, "x x x");
}

#[test]
fn no_targets_contribute_nothing() {
    let out = expand("GccAsm { }", "before $ ( x ) after");
    assert_eq!(out, "before after");
}

#[test]
fn source_substitution_reparses_text() {
    let out = expand("GccAsm { \"a.S\" }", "$ ( use $source ; )");
    assert_eq!(out, "use \"a.S\" ;");
}

#[test]
fn tartype_substitution() {
    let out = expand("GccAsmX86 { \"a\" }", "$ ( $tartype )");
    assert_eq!(out, "TargetType : : GccAsmX86");
}

#[test]
fn unknown_field_identifier_is_silently_ignored() {
    let out = expand("GccAsm { \"a\" }", "$ ( $bogus x )");
    assert_eq!(out, "x");
}

#[test]
fn dependency_fanout_in_order() {
    let out = expand(
        "GccAsm { \"a.S\" : \"b.h\", \"c.h\" }",
        "$ ( deps [ $ ( $x , ) ] ; )",
    );
    assert_eq!(out, "deps [\"b.h\" , \"c.h\" ,] ;");
}

#[test]
fn zero_dependencies_remove_sub_body_only() {
    let out = expand("GccAsm { \"a.S\" }", "$ ( keep $ ( gone $x ) rest )");
    assert_eq!(out, "keep rest");
}

#[test]
fn attribute_tag_kept_verbatim_and_in_every_copy() {
    let script = from_input(&lex("# [cfg (x)] GccAsm { \"a\", \"b\" };")).unwrap();
    assert_eq!(script.len(), 1);
    assert_eq!(render_nodes_text(&script[0].code_macro), "# [cfg (x)]");
    let out = expand(
        "# [cfg (x)] GccAsm { \"a\", \"b\" };",
        "$ ( $code_macro fn f ( ) ; )",
    );
    assert_eq!(out, "# [cfg (x)] fn f () ; # [cfg (x)] fn f () ;");
}

#[test]
fn markers_found_inside_nested_groups() {
    let out = expand("GccAsm { \"a\" }", "mod m { $ ( $source ) }");
    assert_eq!(out, "mod m {\"a\"}");
}

#[test]
fn type_table_lookup() {
    assert!(matches!(
        TargetType::from_name("GccAsm"),
        Some(TargetType::GccAsm)
    ));
    assert!(matches!(
        TargetType::from_name("LinkerScript"),
        Some(TargetType::LinkerScript)
    ));
    assert!(TargetType::from_name("Gcc").is_none());
    assert_eq!(TargetType::GccAsm.to_text(), "TargetType::GccAsm");
    assert_eq!(TargetType::LinkerMap.name_text(), "LinkerMap");
}
