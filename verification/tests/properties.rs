//! Scenario tests for the generator's stated properties: signature
//! derivation, closure behaviour, ancestor chains, implements-set ordering,
//! round trips, and the failure taxonomy.

use jni_generator::error::ErrorKind;
use jni_generator::generate_from_source;
use jni_generator::name::JavaName;
use jni_generator::parse::parse_java_definition;
use jni_generator::resolve::to_generator_data;
use jni_generator::resolve::GeneratorDefinition;
use jni_generator::token::lex;
use jni_generator::token::Delim;
use jni_generator::token::Token;

fn name(parts: &[&str]) -> JavaName {
    JavaName { segments: parts.iter().map(|p| p.to_string()).collect() }
}

fn resolve(src: &str) -> Vec<GeneratorDefinition> {
    let toks = lex(src).expect("input must lex");
    let parsed = parse_java_definition(&toks).expect("input must parse");
    to_generator_data(&parsed).expect("input must resolve").definitions
}

fn resolve_err(src: &str) -> ErrorKind {
    let toks = lex(src).expect("input must lex");
    let parsed = parse_java_definition(&toks).expect("input must parse");
    to_generator_data(&parsed).expect_err("input must be rejected").kind
}

#[test]
fn test() {
    // Two generation units: one self-contained, one referring to the first
    // through its metadata block.
    let first = "public interface c.d.TestInterface1 {}\n\
                 public interface c.d.TestInterface2 extends c.d.TestInterface1 {}\n\
                 public class c.d.TestClass1 {}\n\
                 public class c.d.TestClass2 extends c.d.TestClass1 implements c.d.TestInterface1 {}";
    assert!(generate_from_source(first).is_ok());
    let second = "public interface a.b.TestInterface3 {}\n\
                  public interface a.b.TestInterface4 extends c.d.TestInterface2, a.b.TestInterface3 {}\n\
                  public class a.b.TestClass3 extends c.d.TestClass2 implements c.d.TestInterface1, a.b.TestInterface4 {}\n\
                  metadata {\n\
                    interface c.d.TestInterface1 {}\n\
                    interface c.d.TestInterface2 extends c.d.TestInterface1 {}\n\
                    class c.d.TestClass1;\n\
                    class c.d.TestClass2 extends c.d.TestClass1 implements c.d.TestInterface1;\n\
                  }";
    assert!(generate_from_source(second).is_ok());
}

#[test]
fn signature_has_all_segments() {
    // A three-segment name yields a three-segment path.
    assert_eq!(name(&["a", "b", "Foo"]).signature(), "a/b/Foo");
    assert_eq!(name(&["a", "b", "Foo"]).full_signature(), "La/b/Foo;");
    assert_eq!(name(&["Foo"]).signature(), "Foo");
    assert_eq!(name(&["Foo"]).full_signature(), "LFoo;");
}

#[test]
fn signature_primitive_codes() {
    assert_eq!(name(&["int"]).signature(), "I");
    assert_eq!(name(&["long"]).signature(), "J");
    assert_eq!(name(&["char"]).signature(), "C");
    assert_eq!(name(&["byte"]).signature(), "B");
    assert_eq!(name(&["boolean"]).signature(), "Z");
    assert_eq!(name(&["float"]).signature(), "F");
    assert_eq!(name(&["double"]).signature(), "D");
}

#[test]
fn closure_includes_direct_and_transitive() {
    // Closure is monotone: it includes every directly extended interface,
    // and their ancestors.
    let defs = resolve(
        "interface X {}\n\
         interface Y extends X {}\n\
         interface Z extends Y {}\n\
         class A implements Z {}",
    );
    match &defs[3] {
        GeneratorDefinition::Class(c) => {
            assert_eq!(c.implements, vec![name(&["X"]), name(&["Y"]), name(&["Z"])]);
        }
        _ => panic!("expected a class"),
    }
}

#[test]
fn closure_idempotent_on_closed_input() {
    // A graph already transitively closed resolves to the same set.
    let defs = resolve(
        "interface X {}\n\
         interface Y extends X {}\n\
         interface Z extends X, Y {}\n\
         class A implements Z {}",
    );
    match &defs[3] {
        GeneratorDefinition::Class(c) => {
            assert_eq!(c.implements, vec![name(&["X"]), name(&["Y"]), name(&["Z"])]);
        }
        _ => panic!("expected a class"),
    }
}

#[test]
fn ancestor_chain_of_declared_chain() {
    // A extends B extends C, C implicitly extends the root: the chain of A
    // is exactly [B, C, root].
    let defs = resolve(
        "class C {}\n\
         class B extends C {}\n\
         class A extends B {}",
    );
    match &defs[2] {
        GeneratorDefinition::Class(c) => {
            assert_eq!(
                c.transitive_extends,
                vec![name(&["B"]), name(&["C"]), name(&["java", "lang", "Object"])]
            );
        }
        _ => panic!("expected a class"),
    }
}

#[test]
fn implements_resolution_order_insensitive() {
    // Permuting the implements clause yields an identical resolved set and
    // identical generated text.
    let one = generate_from_source(
        "interface X {}\n\
         interface Y {}\n\
         interface Z {}\n\
         class A implements Z, X, Y {}",
    )
    .unwrap();
    let two = generate_from_source(
        "interface X {}\n\
         interface Y {}\n\
         interface Z {}\n\
         class A implements Y, Z, X {}",
    )
    .unwrap();
    assert_eq!(one, two);
}

#[test]
fn round_trip_no_inheritance() {
    // A class with no clauses resolves to the bare root chain; an interface
    // with no clauses resolves to the empty extends set.
    let defs = resolve("interface I {}\nclass A {}");
    match &defs[0] {
        GeneratorDefinition::Interface(f) => {
            assert_eq!(f.extends, Vec::<JavaName>::new());
        }
        _ => panic!("expected an interface"),
    }
    match &defs[1] {
        GeneratorDefinition::Class(c) => {
            assert_eq!(c.transitive_extends, vec![name(&["java", "lang", "Object"])]);
            assert_eq!(c.implements, Vec::<JavaName>::new());
        }
        _ => panic!("expected a class"),
    }
}

#[test]
fn implements_set_resolved_and_sorted() {
    let defs = resolve(
        "interface X {}\n\
         interface Y extends X {}\n\
         class A implements Y {}",
    );
    match &defs[2] {
        GeneratorDefinition::Class(c) => {
            assert_eq!(c.implements, vec![name(&["X"]), name(&["Y"])]);
            assert_eq!(c.transitive_extends, vec![name(&["java", "lang", "Object"])]);
        }
        _ => panic!("expected a class"),
    }
}

#[test]
fn malformed_class_aborts() {
    let e = generate_from_source("class").expect_err("generation must abort");
    assert_eq!(e.kind, ErrorKind::ExpectedName);
    assert_eq!(e.message(), "Expected a Java name, got no tokens.");
}

#[test]
fn unknown_extends_aborts() {
    assert_eq!(resolve_err("class A extends Unknown {}"), ErrorKind::UnresolvedName);
}

#[test]
fn unknown_implements_aborts() {
    assert_eq!(resolve_err("class A implements Unknown {}"), ErrorKind::UnresolvedName);
}

#[test]
fn unknown_interface_parent_aborts() {
    assert_eq!(resolve_err("interface I extends Unknown {}"), ErrorKind::UnresolvedName);
}

#[test]
fn cyclic_interfaces_rejected() {
    assert_eq!(
        resolve_err("interface A extends B {}\ninterface B extends A {}"),
        ErrorKind::CyclicInterface
    );
}

#[test]
fn cyclic_classes_rejected() {
    assert_eq!(
        resolve_err("class A extends B {}\nclass B extends A {}"),
        ErrorKind::CyclicClass
    );
}

#[test]
fn duplicate_clause_rejected() {
    let toks = lex("class A extends B extends C {}").unwrap();
    let e = parse_java_definition(&toks).expect_err("header must be rejected");
    assert_eq!(e.kind, ErrorKind::DuplicateClause);
}

#[test]
fn primitive_types_map_to_scalars() {
    let generated = generate_from_source(
        "class A {\n\
           int f(long a1, char a2, byte a3, boolean a4, float a5, double a6);\n\
         }",
    )
    .unwrap();
    for needle in ["i64", "u8", "bool", "f32", "f64", "i32"] {
        assert!(generated.contains(needle), "missing {needle} in:\n{generated}");
    }
}

#[test]
fn lexer_unterminated_literal() {
    assert_eq!(lex("\"abc").expect_err("must fail").kind, ErrorKind::UnterminatedLiteral);
}

#[test]
fn lexer_unmatched_open() {
    assert_eq!(lex("( a").expect_err("must fail").kind, ErrorKind::UnmatchedDelimiter);
}

#[test]
fn lexer_unmatched_close() {
    assert_eq!(lex("a )").expect_err("must fail").kind, ErrorKind::UnmatchedDelimiter);
}

#[test]
fn lexer_wrong_closer() {
    assert_eq!(lex("( a ]").expect_err("must fail").kind, ErrorKind::UnmatchedDelimiter);
}

#[test]
fn lexer_token_shapes() {
    let toks = lex("a.b { c ( 12 ) } \"s\"").unwrap();
    assert_eq!(
        toks,
        vec![
            Token::Ident("a".to_string()),
            Token::Punct('.'),
            Token::Ident("b".to_string()),
            Token::Group(
                Delim::Brace,
                vec![
                    Token::Ident("c".to_string()),
                    Token::Group(Delim::Paren, vec![Token::Lit("12".to_string())]),
                ],
            ),
            Token::Lit("\"s\"".to_string()),
        ]
    );
}

#[test]
fn same_input_same_output() {
    let src = "interface X {}\nclass A implements X {}";
    assert_eq!(generate_from_source(src).unwrap(), generate_from_source(src).unwrap());
}

#[test]
fn canonical_name_forms() {
    let n = name(&["a", "b", "Foo"]);
    assert_eq!(n.with_dots(), "a.b.Foo");
    assert_eq!(n.with_slashes(), "a/b/Foo");
    assert_eq!(n.with_double_colons(), "::a::b::Foo");
    assert_eq!(n.simple_name(), "Foo");
}
