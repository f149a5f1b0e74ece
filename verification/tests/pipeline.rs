//! Whole-pipeline tests: description text in, generated source text out.
//! Output is compared token-wise, so spacing is immaterial.

use jni_generator::error::ErrorKind;
use jni_generator::generate_from_source;
use jni_generator::token::lex;
use jni_generator::token::Token;

fn toks(src: &str) -> Vec<Token> {
    lex(src).expect("text must lex")
}

fn assert_tokens_equal(left: &str, right: &str) {
    let l = toks(left);
    let r = toks(right);
    if l != r {
        panic!("generated:\n{}\nexpected:\n{}", left, right);
    }
}

fn generated(src: &str) -> String {
    generate_from_source(src).expect("generation must succeed")
}

fn generation_err(src: &str) -> ErrorKind {
    generate_from_source(src).expect_err("generation must fail").kind
}

fn expected_class(
    public: &str,
    class: &str,
    sup: &str,
    casts: &[&str],
    sig: &str,
    full: &str,
    impls: &[&str],
) -> String {
    let mut s = String::new();
    s += &format!("#[derive(Debug)] {public}struct {class}<'env> {{ object: {sup}<'env>, }}\n");
    s += &format!(
        "impl<'a> ::rust_jni::JavaType for {class}<'a> {{ #[doc(hidden)] type __JniType = \
         <::rust_jni::java::lang::Object<'a> as ::rust_jni::JavaType>::__JniType; \
         #[doc(hidden)] fn __signature() -> &'static str {{ \"{full}\" }} }}\n"
    );
    s += &format!(
        "impl<'a> ::rust_jni::__generator::ToJni for {class}<'a> {{ unsafe fn __to_jni(&self) \
         -> Self::__JniType {{ self.raw_object() }} }}\n"
    );
    s += &format!(
        "impl<'a> ::rust_jni::__generator::FromJni<'a> for {class}<'a> {{ unsafe fn \
         __from_jni(env: &'a ::rust_jni::JniEnv<'a>, value: Self::__JniType) -> Self {{ \
         Self {{ object: <{sup} as ::rust_jni::__generator::FromJni<'a>>::__from_jni(env, \
         value), }} }} }}\n"
    );
    s += &format!(
        "impl<'a> ::rust_jni::Cast<'a, {class}<'a>> for {class}<'a> {{ #[doc(hidden)] fn \
         cast<'b>(&'b self) -> &'b {class}<'a> {{ self }} }}\n"
    );
    for c in casts {
        s += &format!(
            "impl<'a> ::rust_jni::Cast<'a, {c}<'a>> for {class}<'a> {{ #[doc(hidden)] fn \
             cast<'b>(&'b self) -> &'b {c}<'a> {{ self }} }}\n"
        );
    }
    s += &format!(
        "impl<'a> ::std::ops::Deref for {class}<'a> {{ type Target = {sup}<'a>; fn \
         deref(&self) -> &Self::Target {{ &self.object }} }}\n"
    );
    s += &format!(
        "impl<'a> {class}<'a> {{ pub fn get_class(env: &'a ::rust_jni::JniEnv<'a>, token: \
         &::rust_jni::NoException<'a>) -> ::rust_jni::JavaResult<'a, \
         ::rust_jni::java::lang::Class<'a>> {{ ::rust_jni::java::lang::Class::find(env, \
         \"{sig}\", token) }} pub fn clone(&self, token: &::rust_jni::NoException<'a>) -> \
         ::rust_jni::JavaResult<'a, Self> where Self: Sized, {{ \
         self.object.clone(token).map(|object| Self {{ object }}) }} pub fn to_string(&self, \
         token: &::rust_jni::NoException<'a>) -> ::rust_jni::JavaResult<'a, \
         ::rust_jni::java::lang::String<'a>> {{ self.object.to_string(token) }} }}\n"
    );
    s += &format!(
        "impl<'a> ::std::fmt::Display for {class}<'a> {{ fn fmt(&self, formatter: &mut \
         ::std::fmt::Formatter) -> ::std::fmt::Result {{ self.object.fmt(formatter) }} }}\n"
    );
    s += &format!(
        "impl<'a, T> PartialEq<T> for {class}<'a> where T: ::rust_jni::Cast<'a, \
         ::rust_jni::java::lang::Object<'a>> {{ fn eq(&self, other: &T) -> bool {{ \
         self.object.eq(other) }} }}\n"
    );
    s += &format!("impl<'a> Eq for {class}<'a> {{}}\n");
    for f in impls {
        s += &format!("impl<'a> {f} for {class}<'a> {{ }}\n");
    }
    s
}

#[test]
fn full_empty() {
    assert_eq!(generated(""), "");
}

#[test]
fn full_one_class() {
    // The declared superclass matches no declaration and no stub: resolution
    // rejects the name.
    assert_eq!(
        generation_err("class TestClass1 extends TestClass2 {}"),
        ErrorKind::UnresolvedName
    );
}

#[test]
fn full_one_class_implements() {
    assert_eq!(
        generation_err(
            "interface a.b.TestInterface1 {}\n\
             interface a.b.TestInterface2 {}\n\
             class TestClass1 extends TestClass2 implements a.b.TestInterface1, a.b.TestInterface2 {}"
        ),
        ErrorKind::UnresolvedName
    );
}

#[test]
fn full_one_class_packaged() {
    assert_eq!(
        generation_err("class a.b.TestClass1 extends c.d.TestClass2 {}"),
        ErrorKind::UnresolvedName
    );
}

#[test]
fn full_one_class_public() {
    assert_eq!(
        generation_err("public class TestClass1 extends TestClass2 {}"),
        ErrorKind::UnresolvedName
    );
}

#[test]
fn full_one_class_known_extends() {
    let input = "class TestClass1 extends TestClass2 {}\n\
                 metadata { class TestClass2; }";
    let expected = expected_class(
        "",
        "TestClass1",
        "::TestClass2",
        &["::TestClass2", "::java::lang::Object"],
        "TestClass1",
        "LTestClass1;",
        &[],
    );
    assert_tokens_equal(&generated(input), &expected);
}

#[test]
fn full_one_interface() {
    assert_tokens_equal(&generated("interface TestInterface1 {}"), "trait TestInterface1 { }\n");
}

#[test]
fn full_one_interface_packaged() {
    assert_tokens_equal(
        &generated("interface a.b.TestInterface1 {}"),
        "trait TestInterface1 { }\n",
    );
}

#[test]
fn full_one_interface_public() {
    assert_tokens_equal(
        &generated("public interface TestInterface1 {}"),
        "pub trait TestInterface1 { }\n",
    );
}

#[test]
fn full_one_interface_extends() {
    assert_tokens_equal(
        &generated(
            "interface TestInterface2 {}\n\
             interface TestInterface3 {}\n\
             interface TestInterface1 extends TestInterface2, TestInterface3 {}"
        ),
        "trait TestInterface2 { }\n\
         trait TestInterface3 { }\n\
         trait TestInterface1 : ::TestInterface2 + ::TestInterface3 { }\n",
    );
}

#[test]
fn full_multiple() {
    let input = "interface TestInterface1 {}\n\
                 interface TestInterface2 {}\n\
                 class TestClass1 {}\n\
                 class TestClass2 {}\n\
                 metadata {\n\
                   interface TestInterface3 {}\n\
                   class TestClass3;\n\
                 }";
    let mut expected = String::new();
    expected += "trait TestInterface1 { }\n";
    expected += "trait TestInterface2 { }\n";
    expected += &expected_class(
        "",
        "TestClass1",
        "::java::lang::Object",
        &["::java::lang::Object"],
        "TestClass1",
        "LTestClass1;",
        &[],
    );
    expected += &expected_class(
        "",
        "TestClass2",
        "::java::lang::Object",
        &["::java::lang::Object"],
        "TestClass2",
        "LTestClass2;",
        &[],
    );
    assert_tokens_equal(&generated(input), &expected);
}

#[test]
fn integration() {
    let input = "public interface a.b.TestInterface3 {}\n\
                 public interface a.b.TestInterface4 extends c.d.TestInterface2, a.b.TestInterface3 {}\n\
                 public class a.b.TestClass3 extends c.d.TestClass2 implements e.f.TestInterface1, a.b.TestInterface4 {\n\
                   public a.b.TestClass3(int arg1, a.b.TestClass3 arg2);\n\
                   long primitiveFunc3(int arg1, char arg2);\n\
                   public c.d.TestClass2 objectFunc3(a.b.TestClass3 arg);\n\
                   static long primitiveStaticFunc3(int arg1, char arg2);\n\
                   public static c.d.TestClass2 objectStaticFunc3(a.b.TestClass3 arg);\n\
                 }\n\
                 metadata {\n\
                   interface e.f.TestInterface1 {}\n\
                   interface c.d.TestInterface2 extends e.f.TestInterface1 {}\n\
                   class c.d.TestClass1;\n\
                   class c.d.TestClass2 extends c.d.TestClass1 implements e.f.TestInterface1;\n\
                 }";
    let mut expected = String::new();
    expected += "pub trait TestInterface3 { }\n";
    expected += "pub trait TestInterface4 : ::c::d::TestInterface2 + ::a::b::TestInterface3 { }\n";
    expected += "#[derive(Debug)] pub struct TestClass3<'env> { object: ::c::d::TestClass2<'env>, }\n";
    expected += "impl<'a> ::rust_jni::JavaType for TestClass3<'a> { #[doc(hidden)] type __JniType = \
                 <::rust_jni::java::lang::Object<'a> as ::rust_jni::JavaType>::__JniType; \
                 #[doc(hidden)] fn __signature() -> &'static str { \"La/b/TestClass3;\" } }\n";
    expected += "impl<'a> ::rust_jni::__generator::ToJni for TestClass3<'a> { unsafe fn \
                 __to_jni(&self) -> Self::__JniType { self.raw_object() } }\n";
    expected += "impl<'a> ::rust_jni::__generator::FromJni<'a> for TestClass3<'a> { unsafe fn \
                 __from_jni(env: &'a ::rust_jni::JniEnv<'a>, value: Self::__JniType) -> Self { \
                 Self { object: <::c::d::TestClass2 as \
                 ::rust_jni::__generator::FromJni<'a>>::__from_jni(env, value), } } }\n";
    expected += "impl<'a> ::rust_jni::Cast<'a, TestClass3<'a>> for TestClass3<'a> { \
                 #[doc(hidden)] fn cast<'b>(&'b self) -> &'b TestClass3<'a> { self } }\n";
    expected += "impl<'a> ::rust_jni::Cast<'a, ::c::d::TestClass2<'a>> for TestClass3<'a> { \
                 #[doc(hidden)] fn cast<'b>(&'b self) -> &'b ::c::d::TestClass2<'a> { self } }\n";
    expected += "impl<'a> ::rust_jni::Cast<'a, ::c::d::TestClass1<'a>> for TestClass3<'a> { \
                 #[doc(hidden)] fn cast<'b>(&'b self) -> &'b ::c::d::TestClass1<'a> { self } }\n";
    expected += "impl<'a> ::rust_jni::Cast<'a, ::java::lang::Object<'a>> for TestClass3<'a> { \
                 #[doc(hidden)] fn cast<'b>(&'b self) -> &'b ::java::lang::Object<'a> { self } }\n";
    expected += "impl<'a> ::std::ops::Deref for TestClass3<'a> { type Target = \
                 ::c::d::TestClass2<'a>; fn deref(&self) -> &Self::Target { &self.object } }\n";
    expected += "impl<'a> TestClass3<'a> { \
                 pub fn get_class(env: &'a ::rust_jni::JniEnv<'a>, token: \
                 &::rust_jni::NoException<'a>) -> ::rust_jni::JavaResult<'a, \
                 ::rust_jni::java::lang::Class<'a>> { ::rust_jni::java::lang::Class::find(env, \
                 \"a/b/TestClass3\", token) } \
                 pub fn clone(&self, token: &::rust_jni::NoException<'a>) -> \
                 ::rust_jni::JavaResult<'a, Self> where Self: Sized, { \
                 self.object.clone(token).map(|object| Self { object }) } \
                 pub fn to_string(&self, token: &::rust_jni::NoException<'a>) -> \
                 ::rust_jni::JavaResult<'a, ::rust_jni::java::lang::String<'a>> { \
                 self.object.to_string(token) } \
                 pub fn new(env: &'a ::rust_jni::JniEnv<'a>, arg1: i32, arg2: \
                 &::a::b::TestClass3, token: &::rust_jni::NoException<'a>,) -> \
                 ::rust_jni::JavaResult<'a, Self> { unsafe { \
                 ::rust_jni::__generator::call_constructor::<Self, _, fn(i32, \
                 &::a::b::TestClass3,)>(env, (arg1, arg2,), token,) } } \
                 fn primitiveFunc3(&self, arg1: i32, arg2: char, token: \
                 &::rust_jni::NoException<'a>,) -> ::rust_jni::JavaResult<'a, i64> { unsafe { \
                 ::rust_jni::__generator::call_method::<_, _, _, fn(i32, char,) -> i64>(self, \
                 \"primitiveFunc3\", (arg1, arg2,), token,) } } \
                 pub fn objectFunc3(&self, arg: &::a::b::TestClass3, token: \
                 &::rust_jni::NoException<'a>,) -> ::rust_jni::JavaResult<'a, \
                 ::c::d::TestClass2<'a>> { unsafe { \
                 ::rust_jni::__generator::call_method::<_, _, _, fn(&::a::b::TestClass3,) -> \
                 ::c::d::TestClass2<'a>>(self, \"objectFunc3\", (arg,), token,) } } \
                 fn primitiveStaticFunc3(env: &'a ::rust_jni::JniEnv<'a>, arg1: i32, arg2: \
                 char, token: &::rust_jni::NoException<'a>,) -> ::rust_jni::JavaResult<'a, \
                 i64> { unsafe { ::rust_jni::__generator::call_static_method::<Self, _, _, \
                 fn(i32, char,) -> i64>(env, \"primitiveStaticFunc3\", (arg1, arg2,), token,) \
                 } } \
                 pub fn objectStaticFunc3(env: &'a ::rust_jni::JniEnv<'a>, arg: \
                 &::a::b::TestClass3, token: &::rust_jni::NoException<'a>,) -> \
                 ::rust_jni::JavaResult<'a, ::c::d::TestClass2<'a>> { unsafe { \
                 ::rust_jni::__generator::call_static_method::<Self, _, _, \
                 fn(&::a::b::TestClass3,) -> ::c::d::TestClass2<'a>>(env, \
                 \"objectStaticFunc3\", (arg,), token,) } } }\n";
    expected += "impl<'a> ::std::fmt::Display for TestClass3<'a> { fn fmt(&self, formatter: \
                 &mut ::std::fmt::Formatter) -> ::std::fmt::Result { \
                 self.object.fmt(formatter) } }\n";
    expected += "impl<'a, T> PartialEq<T> for TestClass3<'a> where T: ::rust_jni::Cast<'a, \
                 ::rust_jni::java::lang::Object<'a>> { fn eq(&self, other: &T) -> bool { \
                 self.object.eq(other) } }\n";
    expected += "impl<'a> Eq for TestClass3<'a> {}\n";
    expected += "impl<'a> ::a::b::TestInterface3 for TestClass3<'a> { }\n";
    expected += "impl<'a> ::a::b::TestInterface4 for TestClass3<'a> { }\n";
    expected += "impl<'a> ::c::d::TestInterface2 for TestClass3<'a> { }\n";
    expected += "impl<'a> ::e::f::TestInterface1 for TestClass3<'a> { }\n";
    assert_tokens_equal(&generated(input), &expected);
}
