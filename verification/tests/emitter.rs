//! Code-emitter tests: resolved definitions in, generated source text out.
//! Output is compared token-wise, so spacing is immaterial.

use jni_generator::emit::generate;
use jni_generator::name::JavaName;
use jni_generator::resolve::ClassGeneratorDefinition;
use jni_generator::resolve::GeneratorData;
use jni_generator::resolve::GeneratorDefinition;
use jni_generator::resolve::InterfaceGeneratorDefinition;
use jni_generator::token::lex;
use jni_generator::token::Token;

fn name(parts: &[&str]) -> JavaName {
    JavaName { segments: parts.iter().map(|p| p.to_string()).collect() }
}

fn toks(src: &str) -> Vec<Token> {
    lex(src).expect("text must lex")
}

fn assert_tokens_equal(left: &str, right: &str) {
    let l = toks(left);
    let r = toks(right);
    if l != r {
        panic!("generated:\n{}\nexpected:\n{}", left, right);
    }
}

fn expected_class(
    public: &str,
    class: &str,
    sup: &str,
    casts: &[&str],
    sig: &str,
    full: &str,
    impls: &[&str],
) -> String {
    let mut s = String::new();
    s += &format!("#[derive(Debug)] {public}struct {class}<'env> {{ object: {sup}<'env>, }}\n");
    s += &format!(
        "impl<'a> ::rust_jni::JavaType for {class}<'a> {{ #[doc(hidden)] type __JniType = \
         <::rust_jni::java::lang::Object<'a> as ::rust_jni::JavaType>::__JniType; \
         #[doc(hidden)] fn __signature() -> &'static str {{ \"{full}\" }} }}\n"
    );
    s += &format!(
        "impl<'a> ::rust_jni::__generator::ToJni for {class}<'a> {{ unsafe fn __to_jni(&self) \
         -> Self::__JniType {{ self.raw_object() }} }}\n"
    );
    s += &format!(
        "impl<'a> ::rust_jni::__generator::FromJni<'a> for {class}<'a> {{ unsafe fn \
         __from_jni(env: &'a ::rust_jni::JniEnv<'a>, value: Self::__JniType) -> Self {{ \
         Self {{ object: <{sup} as ::rust_jni::__generator::FromJni<'a>>::__from_jni(env, \
         value), }} }} }}\n"
    );
    s += &format!(
        "impl<'a> ::rust_jni::Cast<'a, {class}<'a>> for {class}<'a> {{ #[doc(hidden)] fn \
         cast<'b>(&'b self) -> &'b {class}<'a> {{ self }} }}\n"
    );
    for c in casts {
        s += &format!(
            "impl<'a> ::rust_jni::Cast<'a, {c}<'a>> for {class}<'a> {{ #[doc(hidden)] fn \
             cast<'b>(&'b self) -> &'b {c}<'a> {{ self }} }}\n"
        );
    }
    s += &format!(
        "impl<'a> ::std::ops::Deref for {class}<'a> {{ type Target = {sup}<'a>; fn \
         deref(&self) -> &Self::Target {{ &self.object }} }}\n"
    );
    s += &format!(
        "impl<'a> {class}<'a> {{ pub fn get_class(env: &'a ::rust_jni::JniEnv<'a>, token: \
         &::rust_jni::NoException<'a>) -> ::rust_jni::JavaResult<'a, \
         ::rust_jni::java::lang::Class<'a>> {{ ::rust_jni::java::lang::Class::find(env, \
         \"{sig}\", token) }} pub fn clone(&self, token: &::rust_jni::NoException<'a>) -> \
         ::rust_jni::JavaResult<'a, Self> where Self: Sized, {{ \
         self.object.clone(token).map(|object| Self {{ object }}) }} pub fn to_string(&self, \
         token: &::rust_jni::NoException<'a>) -> ::rust_jni::JavaResult<'a, \
         ::rust_jni::java::lang::String<'a>> {{ self.object.to_string(token) }} }}\n"
    );
    s += &format!(
        "impl<'a> ::std::fmt::Display for {class}<'a> {{ fn fmt(&self, formatter: &mut \
         ::std::fmt::Formatter) -> ::std::fmt::Result {{ self.object.fmt(formatter) }} }}\n"
    );
    s += &format!(
        "impl<'a, T> PartialEq<T> for {class}<'a> where T: ::rust_jni::Cast<'a, \
         ::rust_jni::java::lang::Object<'a>> {{ fn eq(&self, other: &T) -> bool {{ \
         self.object.eq(other) }} }}\n"
    );
    s += &format!("impl<'a> Eq for {class}<'a> {{}}\n");
    for f in impls {
        s += &format!("impl<'a> {f} for {class}<'a> {{ }}\n");
    }
    s
}

fn bare_class(
    simple: &str,
    public: bool,
    super_class: JavaName,
    transitive: Vec<JavaName>,
    implements: Vec<JavaName>,
    sig: &str,
    full: &str,
) -> GeneratorDefinition {
    GeneratorDefinition::Class(ClassGeneratorDefinition {
        class: simple.to_string(),
        public,
        super_class,
        transitive_extends: transitive,
        implements,
        signature: sig.to_string(),
        full_signature: full.to_string(),
        constructors: vec![],
        methods: vec![],
        static_methods: vec![],
    })
}

#[test]
fn emit_empty() {
    let data = GeneratorData { definitions: vec![] };
    assert_eq!(generate(&data), "");
}

#[test]
fn emit_one_class() {
    let data = GeneratorData {
        definitions: vec![bare_class(
            "test1",
            true,
            name(&["c", "d", "test2"]),
            vec![name(&["c", "d", "test2"])],
            vec![],
            "test/sign1",
            "test/signature1",
        )],
    };
    let expected = expected_class(
        "pub ",
        "test1",
        "::c::d::test2",
        &["::c::d::test2"],
        "test/sign1",
        "test/signature1",
        &[],
    );
    assert_tokens_equal(&generate(&data), &expected);
}

#[test]
fn emit_one_class_implements() {
    let data = GeneratorData {
        definitions: vec![bare_class(
            "test1",
            true,
            name(&["c", "d", "test2"]),
            vec![name(&["c", "d", "test2"])],
            vec![name(&["e", "f", "test3"]), name(&["e", "f", "test4"])],
            "test/sign1",
            "test/signature1",
        )],
    };
    let expected = expected_class(
        "pub ",
        "test1",
        "::c::d::test2",
        &["::c::d::test2"],
        "test/sign1",
        "test/signature1",
        &["::e::f::test3", "::e::f::test4"],
    );
    assert_tokens_equal(&generate(&data), &expected);
}

#[test]
fn emit_one_interface() {
    let data = GeneratorData {
        definitions: vec![GeneratorDefinition::Interface(InterfaceGeneratorDefinition {
            interface: "test1".to_string(),
            public: true,
            extends: vec![],
        })],
    };
    assert_tokens_equal(&generate(&data), "pub trait test1 { }\n");
}

#[test]
fn emit_one_interface_extends() {
    let data = GeneratorData {
        definitions: vec![GeneratorDefinition::Interface(InterfaceGeneratorDefinition {
            interface: "test1".to_string(),
            public: false,
            extends: vec![name(&["c", "d", "test2"]), name(&["e", "f", "test3"])],
        })],
    };
    assert_tokens_equal(&generate(&data), "trait test1 : ::c::d::test2 + ::e::f::test3 { }\n");
}

#[test]
fn emit_multiple() {
    let data = GeneratorData {
        definitions: vec![
            GeneratorDefinition::Interface(InterfaceGeneratorDefinition {
                interface: "test_if1".to_string(),
                public: false,
                extends: vec![],
            }),
            GeneratorDefinition::Interface(InterfaceGeneratorDefinition {
                interface: "test_if2".to_string(),
                public: false,
                extends: vec![],
            }),
            bare_class(
                "test1",
                false,
                name(&["c", "d", "test3"]),
                vec![name(&["c", "d", "test3"])],
                vec![],
                "test/sign1",
                "test/signature1",
            ),
            bare_class(
                "test2",
                false,
                name(&["c", "d", "test4"]),
                vec![name(&["c", "d", "test4"])],
                vec![],
                "test/sign2",
                "test/signature2",
            ),
        ],
    };
    let mut expected = String::new();
    expected += "trait test_if1 { }\n";
    expected += "trait test_if2 { }\n";
    expected += &expected_class(
        "",
        "test1",
        "::c::d::test3",
        &["::c::d::test3"],
        "test/sign1",
        "test/signature1",
        &[],
    );
    expected += &expected_class(
        "",
        "test2",
        "::c::d::test4",
        &["::c::d::test4"],
        "test/sign2",
        "test/signature2",
        &[],
    );
    assert_tokens_equal(&generate(&data), &expected);
}
