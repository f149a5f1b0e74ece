//! The code emitter: from resolved definitions to generated source text.
//!
//! Each class becomes a wrapper struct owning its superclass wrapper,
//! conversions to and from the raw handle, one cast relation per transitive
//! ancestor, delegated utility operations, one operation per constructor and
//! method, and one marker impl per resolved interface.  Each interface
//! becomes a trait requiring its directly extended interfaces' traits.
//! The output text is deterministic in the input.

use crate::name::colon_path;
use crate::name::is_primitive;
use crate::name::prim_rust;
use crate::name::JavaName;
use crate::resolve::GenClassModel;
use crate::resolve::GenCtorModel;
use crate::resolve::GenDefModel;
use crate::resolve::GenIfaceModel;
use crate::resolve::GenMethodModel;
use crate::resolve::ClassGeneratorDefinition;
use crate::resolve::ClassMethodGeneratorDefinition;
use crate::resolve::ConstructorGeneratorDefinition;
use crate::resolve::GeneratorData;
use crate::resolve::GeneratorDefinition;
use crate::resolve::InterfaceGeneratorDefinition;
use vstd::prelude::*;
use vstd::string::StringExecFns;

verus! {

broadcast use {vstd::std_specs::vec::axiom_vec_index_decreases, vstd::seq::group_seq_axioms};

/// The visibility prefix.
pub open spec fn pub_prefix(p: bool) -> Seq<char> {
    if p {
        "pub "@
    } else {
        Seq::empty()
    }
}

/// The target type of a value of the named type: a scalar for a primitive
/// name, else the wrapper type with its lifetime.
pub open spec fn rust_type_of(n: Seq<Seq<char>>) -> Seq<char> {
    if is_primitive(n) {
        prim_rust(n[0])
    } else {
        colon_path(n) + "<'a>"@
    }
}

/// The target type of an argument: a scalar for a primitive name, else a
/// reference to the wrapper type.
pub open spec fn rust_type_ref_of(n: Seq<Seq<char>>) -> Seq<char> {
    if is_primitive(n) {
        prim_rust(n[0])
    } else {
        "&"@ + colon_path(n)
    }
}

/// The parameter list `name: type, ` of an operation, from `i` on.
pub open spec fn params_text(names: Seq<Seq<char>>, types: Seq<Seq<Seq<char>>>, i: int) -> Seq<
    char,
>
    decreases names.len() - i,
{
    if !(0 <= i < names.len() && i < types.len()) {
        Seq::empty()
    } else {
        names[i] + ": "@ + rust_type_ref_of(types[i]) + ", "@ + params_text(names, types, i + 1)
    }
}

/// The argument-type tuple `type, ` of an operation, from `i` on.
pub open spec fn types_text(types: Seq<Seq<Seq<char>>>, i: int) -> Seq<char>
    decreases types.len() - i,
{
    if !(0 <= i < types.len()) {
        Seq::empty()
    } else {
        rust_type_ref_of(types[i]) + ", "@ + types_text(types, i + 1)
    }
}

/// The argument-name tuple `name, ` of an operation, from `i` on.
pub open spec fn names_text(names: Seq<Seq<char>>, i: int) -> Seq<char>
    decreases names.len() - i,
{
    if !(0 <= i < names.len()) {
        Seq::empty()
    } else {
        names[i] + ", "@ + names_text(names, i + 1)
    }
}

/// A string literal holding the given characters.
pub open spec fn quoted(s: Seq<char>) -> Seq<char> {
    "\""@ + s + "\""@
}

/// One generated instance method.
pub open spec fn method_text(m: GenMethodModel) -> Seq<char> {
    pub_prefix(m.public) + "fn "@ + m.name + "(&self, "@ + params_text(m.arg_names, m.arg_types, 0)
        + "token: &::rust_jni::NoException<'a>,) -> ::rust_jni::JavaResult<'a, "@ + rust_type_of(
        m.ret,
    ) + "> {\nunsafe {\n::rust_jni::__generator::call_method::<_, _, _, fn("@ + types_text(
        m.arg_types,
        0,
    ) + ") -> "@ + rust_type_of(m.ret) + ">(self, "@ + quoted(m.java_name) + ", ("@ + names_text(
        m.arg_names,
        0,
    ) + "), token,)\n}\n}\n"@
}

/// One generated static method.
pub open spec fn static_method_text(m: GenMethodModel) -> Seq<char> {
    pub_prefix(m.public) + "fn "@ + m.name + "(env: &'a ::rust_jni::JniEnv<'a>, "@ + params_text(
        m.arg_names,
        m.arg_types,
        0,
    ) + "token: &::rust_jni::NoException<'a>,) -> ::rust_jni::JavaResult<'a, "@ + rust_type_of(
        m.ret,
    ) + "> {\nunsafe {\n::rust_jni::__generator::call_static_method::<Self, _, _, fn("@
        + types_text(m.arg_types, 0) + ") -> "@ + rust_type_of(m.ret) + ">(env, "@ + quoted(
        m.java_name,
    ) + ", ("@ + names_text(m.arg_names, 0) + "), token,)\n}\n}\n"@
}

/// One generated constructor.
pub open spec fn ctor_text(c: GenCtorModel) -> Seq<char> {
    pub_prefix(c.public) + "fn "@ + c.name + "(env: &'a ::rust_jni::JniEnv<'a>, "@ + params_text(
        c.arg_names,
        c.arg_types,
        0,
    )
        + "token: &::rust_jni::NoException<'a>,) -> ::rust_jni::JavaResult<'a, Self> {\nunsafe {\n::rust_jni::__generator::call_constructor::<Self, _, fn("@
        + types_text(c.arg_types, 0) + ")>(env, ("@ + names_text(c.arg_names, 0)
        + "), token,)\n}\n}\n"@
}

/// The generated constructors, from `i` on.
pub open spec fn ctors_text(cs: Seq<GenCtorModel>, i: int) -> Seq<char>
    decreases cs.len() - i,
{
    if !(0 <= i < cs.len()) {
        Seq::empty()
    } else {
        ctor_text(cs[i]) + ctors_text(cs, i + 1)
    }
}

/// The generated instance methods, from `i` on.
pub open spec fn methods_text(ms: Seq<GenMethodModel>, i: int) -> Seq<char>
    decreases ms.len() - i,
{
    if !(0 <= i < ms.len()) {
        Seq::empty()
    } else {
        method_text(ms[i]) + methods_text(ms, i + 1)
    }
}

/// The generated static methods, from `i` on.
pub open spec fn statics_text(ms: Seq<GenMethodModel>, i: int) -> Seq<char>
    decreases ms.len() - i,
{
    if !(0 <= i < ms.len()) {
        Seq::empty()
    } else {
        static_method_text(ms[i]) + statics_text(ms, i + 1)
    }
}

/// One cast relation from the class to an ancestor's wrapper type.
pub open spec fn cast_text(class: Seq<char>, target: Seq<char>) -> Seq<char> {
    "impl<'a> ::rust_jni::Cast<'a, "@ + target + "<'a>> for "@ + class
        + "<'a> {\n#[doc(hidden)]\nfn cast<'b>(&'b self) -> &'b "@ + target
        + "<'a> {\nself\n}\n}\n"@
}

/// The cast relations to every transitive ancestor, from `i` on.
pub open spec fn casts_text(class: Seq<char>, anc: Seq<Seq<Seq<char>>>, i: int) -> Seq<char>
    decreases anc.len() - i,
{
    if !(0 <= i < anc.len()) {
        Seq::empty()
    } else {
        cast_text(class, colon_path(anc[i])) + casts_text(class, anc, i + 1)
    }
}

/// The interface-satisfaction markers, from `i` on.
pub open spec fn impl_markers_text(class: Seq<char>, ifs: Seq<Seq<Seq<char>>>, i: int) -> Seq<char>
    decreases ifs.len() - i,
{
    if !(0 <= i < ifs.len()) {
        Seq::empty()
    } else {
        "impl<'a> "@ + colon_path(ifs[i]) + " for "@ + class + "<'a> {\n}\n"@ + impl_markers_text(
            class,
            ifs,
            i + 1,
        )
    }
}

/// The trait bounds of an interface's extended interfaces, from `i` on,
/// joined with `+`.
pub open spec fn bounds_text(xs: Seq<Seq<Seq<char>>>, i: int) -> Seq<char>
    decreases xs.len() - i,
{
    if !(0 <= i < xs.len()) {
        Seq::empty()
    } else if i == xs.len() - 1 {
        colon_path(xs[i])
    } else {
        colon_path(xs[i]) + " + "@ + bounds_text(xs, i + 1)
    }
}

/// One generated interface: a trait requiring the extended interfaces.
pub open spec fn iface_text(g: GenIfaceModel) -> Seq<char> {
    pub_prefix(g.public) + "trait "@ + g.interface + (if g.extends.len() == 0 {
        Seq::<char>::empty()
    } else {
        ": "@ + bounds_text(g.extends, 0)
    }) + " {\n}\n"@
}

/// One generated class: the wrapper struct and all its impls.
pub open spec fn class_text(g: GenClassModel) -> Seq<char> {
    let sup = colon_path(g.super_class);
    "#[derive(Debug)]\n"@ + pub_prefix(g.public) + "struct "@ + g.class + "<'env> {\nobject: "@
        + sup + "<'env>,\n}\n"@ + "impl<'a> ::rust_jni::JavaType for "@ + g.class
        + "<'a> {\n#[doc(hidden)]\ntype __JniType = <::rust_jni::java::lang::Object<'a> as ::rust_jni::JavaType>::__JniType;\n#[doc(hidden)]\nfn __signature() -> &'static str {\n"@
        + quoted(g.full_signature)
        + "\n}\n}\n"@
        + "impl<'a> ::rust_jni::__generator::ToJni for "@ + g.class
        + "<'a> {\nunsafe fn __to_jni(&self) -> Self::__JniType {\nself.raw_object()\n}\n}\n"@
        + "impl<'a> ::rust_jni::__generator::FromJni<'a> for "@ + g.class
        + "<'a> {\nunsafe fn __from_jni(env: &'a ::rust_jni::JniEnv<'a>, value: Self::__JniType) -> Self {\nSelf {\nobject: <"@
        + sup + " as ::rust_jni::__generator::FromJni<'a>>::__from_jni(env, value),\n}\n}\n}\n"@
        + cast_text(g.class, g.class) + casts_text(g.class, g.transitive_extends, 0)
        + "impl<'a> ::std::ops::Deref for "@ + g.class + "<'a> {\ntype Target = "@ + sup
        + "<'a>;\nfn deref(&self) -> &Self::Target {\n&self.object\n}\n}\n"@ + "impl<'a> "@
        + g.class
        + "<'a> {\npub fn get_class(env: &'a ::rust_jni::JniEnv<'a>, token: &::rust_jni::NoException<'a>) -> ::rust_jni::JavaResult<'a, ::rust_jni::java::lang::Class<'a>> {\n::rust_jni::java::lang::Class::find(env, "@
        + quoted(g.signature)
        + ", token)\n}\npub fn clone(&self, token: &::rust_jni::NoException<'a>) -> ::rust_jni::JavaResult<'a, Self>\nwhere\nSelf: Sized,\n{\nself.object.clone(token).map(|object| Self { object })\n}\npub fn to_string(&self, token: &::rust_jni::NoException<'a>) -> ::rust_jni::JavaResult<'a, ::rust_jni::java::lang::String<'a>> {\nself.object.to_string(token)\n}\n"@
        + ctors_text(g.ctors, 0) + methods_text(g.methods, 0) + statics_text(
        g.static_methods,
        0,
    ) + "}\n"@ + "impl<'a> ::std::fmt::Display for "@ + g.class
        + "<'a> {\nfn fmt(&self, formatter: &mut ::std::fmt::Formatter) -> ::std::fmt::Result {\nself.object.fmt(formatter)\n}\n}\n"@
        + "impl<'a, T> PartialEq<T> for "@ + g.class
        + "<'a> where T: ::rust_jni::Cast<'a, ::rust_jni::java::lang::Object<'a>> {\nfn eq(&self, other: &T) -> bool {\nself.object.eq(other)\n}\n}\n"@
        + "impl<'a> Eq for "@ + g.class + "<'a> {}\n"@ + impl_markers_text(
        g.class,
        g.implements,
        0,
    )
}

/// One resolved definition's generated text.
pub open spec fn def_text(g: GenDefModel) -> Seq<char> {
    match g {
        GenDefModel::Class(c) => class_text(c),
        GenDefModel::Interface(f) => iface_text(f),
    }
}

/// The generated text of the resolved definitions, from `i` on, in input
/// declaration order.
pub open spec fn defs_text(gs: Seq<GenDefModel>, i: int) -> Seq<char>
    decreases gs.len() - i,
{
    if !(0 <= i < gs.len()) {
        Seq::empty()
    } else {
        def_text(gs[i]) + defs_text(gs, i + 1)
    }
}

/// The whole generated output.
pub open spec fn generated_text(gs: Seq<GenDefModel>) -> Seq<char> {
    defs_text(gs, 0)
}

fn rust_type_x(n: &JavaName) -> (r: String)
    ensures
        r@ == rust_type_of(n@),
{
    match n.as_primitive_type() {
        Some(t) => t,
        None => {
            let mut s = n.with_double_colons();
            s.append("<'a>");
            proof {
                assert(s@ =~= colon_path(n@) + "<'a>"@);
            }
            s
        },
    }
}

fn rust_type_ref_x(n: &JavaName) -> (r: String)
    ensures
        r@ == rust_type_ref_of(n@),
{
    match n.as_primitive_type() {
        Some(t) => t,
        None => {
            let mut s = "&".to_owned();
            let p = n.with_double_colons();
            s.append(p.as_str());
            proof {
                assert(s@ =~= "&"@ + colon_path(n@));
            }
            s
        },
    }
}

fn params_x(names: &Vec<String>, types: &Vec<JavaName>, i: usize) -> (r: String)
    requires
        i <= names@.len(),
    ensures
        r@ == params_text(
            crate::resolve::strings_view(names@),
            crate::ast::names_view(types@),
            i as int,
        ),
    decreases names@.len() - i,
{
    let ghost nv = crate::resolve::strings_view(names@);
    let ghost tv = crate::ast::names_view(types@);
    if i >= names.len() || i >= types.len() {
        proof {
            assert(params_text(nv, tv, i as int) =~= Seq::<char>::empty());
        }
        return String::new();
    }
    let mut s = names[i].clone();
    s.append(": ");
    let t = rust_type_ref_x(&types[i]);
    s.append(t.as_str());
    s.append(", ");
    let rest = params_x(names, types, i + 1);
    s.append(rest.as_str());
    proof {
        assert(nv[i as int] == names@[i as int]@);
        assert(tv[i as int] == types@[i as int]@);
        assert(s@ =~= nv[i as int] + ": "@ + rust_type_ref_of(tv[i as int]) + ", "@ + params_text(
            nv,
            tv,
            i + 1 as int,
        ));
    }
    s
}

fn types_x(types: &Vec<JavaName>, i: usize) -> (r: String)
    requires
        i <= types@.len(),
    ensures
        r@ == types_text(crate::ast::names_view(types@), i as int),
    decreases types@.len() - i,
{
    let ghost tv = crate::ast::names_view(types@);
    if i >= types.len() {
        proof {
            assert(types_text(tv, i as int) =~= Seq::<char>::empty());
        }
        return String::new();
    }
    let mut s = rust_type_ref_x(&types[i]);
    s.append(", ");
    let rest = types_x(types, i + 1);
    s.append(rest.as_str());
    proof {
        assert(tv[i as int] == types@[i as int]@);
        assert(s@ =~= rust_type_ref_of(tv[i as int]) + ", "@ + types_text(tv, i + 1 as int));
    }
    s
}

fn names_x(names: &Vec<String>, i: usize) -> (r: String)
    requires
        i <= names@.len(),
    ensures
        r@ == names_text(crate::resolve::strings_view(names@), i as int),
    decreases names@.len() - i,
{
    let ghost nv = crate::resolve::strings_view(names@);
    if i >= names.len() {
        proof {
            assert(names_text(nv, i as int) =~= Seq::<char>::empty());
        }
        return String::new();
    }
    let mut s = names[i].clone();
    s.append(", ");
    let rest = names_x(names, i + 1);
    s.append(rest.as_str());
    proof {
        assert(nv[i as int] == names@[i as int]@);
        assert(s@ =~= nv[i as int] + ", "@ + names_text(nv, i + 1 as int));
    }
    s
}

fn quoted_x(s: &String) -> (r: String)
    ensures
        r@ == quoted(s@),
{
    let mut out = "\"".to_owned();
    out.append(s.as_str());
    out.append("\"");
    proof {
        assert(out@ =~= quoted(s@));
    }
    out
}

fn pub_prefix_x(p: bool) -> (r: String)
    ensures
        r@ == pub_prefix(p),
{
    if p {
        "pub ".to_owned()
    } else {
        let s = String::new();
        proof {
            assert(s@ =~= pub_prefix(false));
        }
        s
    }
}

#[verifier::rlimit(100)]
fn method_x(m: &ClassMethodGeneratorDefinition) -> (r: String)
    ensures
        r@ == method_text(m@),
{
    let mut s = pub_prefix_x(m.public);
    s.append("fn ");
    s.append(m.name.as_str());
    s.append("(&self, ");
    let ps = params_x(&m.argument_names, &m.argument_types, 0);
    s.append(ps.as_str());
    s.append("token: &::rust_jni::NoException<'a>,) -> ::rust_jni::JavaResult<'a, ");
    let rt = rust_type_x(&m.return_type);
    s.append(rt.as_str());
    s.append("> {\nunsafe {\n::rust_jni::__generator::call_method::<_, _, _, fn(");
    let ts = types_x(&m.argument_types, 0);
    s.append(ts.as_str());
    s.append(") -> ");
    s.append(rt.as_str());
    s.append(">(self, ");
    let q = quoted_x(&m.java_name);
    s.append(q.as_str());
    s.append(", (");
    let ns = names_x(&m.argument_names, 0);
    s.append(ns.as_str());
    s.append("), token,)\n}\n}\n");
    proof {
        assert(s@ =~= method_text(m@));
    }
    s
}

#[verifier::rlimit(100)]
fn static_method_x(m: &ClassMethodGeneratorDefinition) -> (r: String)
    ensures
        r@ == static_method_text(m@),
{
    let mut s = pub_prefix_x(m.public);
    s.append("fn ");
    s.append(m.name.as_str());
    s.append("(env: &'a ::rust_jni::JniEnv<'a>, ");
    let ps = params_x(&m.argument_names, &m.argument_types, 0);
    s.append(ps.as_str());
    s.append("token: &::rust_jni::NoException<'a>,) -> ::rust_jni::JavaResult<'a, ");
    let rt = rust_type_x(&m.return_type);
    s.append(rt.as_str());
    s.append("> {\nunsafe {\n::rust_jni::__generator::call_static_method::<Self, _, _, fn(");
    let ts = types_x(&m.argument_types, 0);
    s.append(ts.as_str());
    s.append(") -> ");
    s.append(rt.as_str());
    s.append(">(env, ");
    let q = quoted_x(&m.java_name);
    s.append(q.as_str());
    s.append(", (");
    let ns = names_x(&m.argument_names, 0);
    s.append(ns.as_str());
    s.append("), token,)\n}\n}\n");
    proof {
        assert(s@ =~= static_method_text(m@));
    }
    s
}

#[verifier::rlimit(100)]
fn ctor_x(c: &ConstructorGeneratorDefinition) -> (r: String)
    ensures
        r@ == ctor_text(c@),
{
    let mut s = pub_prefix_x(c.public);
    s.append("fn ");
    s.append(c.name.as_str());
    s.append("(env: &'a ::rust_jni::JniEnv<'a>, ");
    let ps = params_x(&c.argument_names, &c.argument_types, 0);
    s.append(ps.as_str());
    s.append(
        "token: &::rust_jni::NoException<'a>,) -> ::rust_jni::JavaResult<'a, Self> {\nunsafe {\n::rust_jni::__generator::call_constructor::<Self, _, fn(",
    );
    let ts = types_x(&c.argument_types, 0);
    s.append(ts.as_str());
    s.append(")>(env, (");
    let ns = names_x(&c.argument_names, 0);
    s.append(ns.as_str());
    s.append("), token,)\n}\n}\n");
    proof {
        assert(s@ =~= ctor_text(c@));
    }
    s
}

fn ctors_x(cs: &Vec<ConstructorGeneratorDefinition>, i: usize) -> (r: String)
    requires
        i <= cs@.len(),
    ensures
        r@ == ctors_text(crate::resolve::gen_ctors_view(cs@), i as int),
    decreases cs@.len() - i,
{
    let ghost cv = crate::resolve::gen_ctors_view(cs@);
    if i >= cs.len() {
        proof {
            assert(ctors_text(cv, i as int) =~= Seq::<char>::empty());
        }
        return String::new();
    }
    let mut s = ctor_x(&cs[i]);
    let rest = ctors_x(cs, i + 1);
    s.append(rest.as_str());
    proof {
        assert(cv[i as int] == cs@[i as int]@);
        assert(s@ =~= ctor_text(cv[i as int]) + ctors_text(cv, i + 1 as int));
    }
    s
}

fn methods_x(ms: &Vec<ClassMethodGeneratorDefinition>, i: usize) -> (r: String)
    requires
        i <= ms@.len(),
    ensures
        r@ == methods_text(crate::resolve::gen_methods_view(ms@), i as int),
    decreases ms@.len() - i,
{
    let ghost mv = crate::resolve::gen_methods_view(ms@);
    if i >= ms.len() {
        proof {
            assert(methods_text(mv, i as int) =~= Seq::<char>::empty());
        }
        return String::new();
    }
    let mut s = method_x(&ms[i]);
    let rest = methods_x(ms, i + 1);
    s.append(rest.as_str());
    proof {
        assert(mv[i as int] == ms@[i as int]@);
        assert(s@ =~= method_text(mv[i as int]) + methods_text(mv, i + 1 as int));
    }
    s
}

fn statics_x(ms: &Vec<ClassMethodGeneratorDefinition>, i: usize) -> (r: String)
    requires
        i <= ms@.len(),
    ensures
        r@ == statics_text(crate::resolve::gen_methods_view(ms@), i as int),
    decreases ms@.len() - i,
{
    let ghost mv = crate::resolve::gen_methods_view(ms@);
    if i >= ms.len() {
        proof {
            assert(statics_text(mv, i as int) =~= Seq::<char>::empty());
        }
        return String::new();
    }
    let mut s = static_method_x(&ms[i]);
    let rest = statics_x(ms, i + 1);
    s.append(rest.as_str());
    proof {
        assert(mv[i as int] == ms@[i as int]@);
        assert(s@ =~= static_method_text(mv[i as int]) + statics_text(mv, i + 1 as int));
    }
    s
}

fn cast_x(class: &String, target: &String) -> (r: String)
    ensures
        r@ == cast_text(class@, target@),
{
    let mut s = "impl<'a> ::rust_jni::Cast<'a, ".to_owned();
    s.append(target.as_str());
    s.append("<'a>> for ");
    s.append(class.as_str());
    s.append("<'a> {\n#[doc(hidden)]\nfn cast<'b>(&'b self) -> &'b ");
    s.append(target.as_str());
    s.append("<'a> {\nself\n}\n}\n");
    proof {
        assert(s@ =~= cast_text(class@, target@));
    }
    s
}

fn casts_x(class: &String, anc: &Vec<JavaName>, i: usize) -> (r: String)
    requires
        i <= anc@.len(),
    ensures
        r@ == casts_text(class@, crate::ast::names_view(anc@), i as int),
    decreases anc@.len() - i,
{
    let ghost av = crate::ast::names_view(anc@);
    if i >= anc.len() {
        proof {
            assert(casts_text(class@, av, i as int) =~= Seq::<char>::empty());
        }
        return String::new();
    }
    let target = anc[i].with_double_colons();
    let mut s = cast_x(class, &target);
    let rest = casts_x(class, anc, i + 1);
    s.append(rest.as_str());
    proof {
        assert(av[i as int] == anc@[i as int]@);
        assert(s@ =~= cast_text(class@, colon_path(av[i as int])) + casts_text(
            class@,
            av,
            i + 1 as int,
        ));
    }
    s
}

fn impl_markers_x(class: &String, ifs: &Vec<JavaName>, i: usize) -> (r: String)
    requires
        i <= ifs@.len(),
    ensures
        r@ == impl_markers_text(class@, crate::ast::names_view(ifs@), i as int),
    decreases ifs@.len() - i,
{
    let ghost fv = crate::ast::names_view(ifs@);
    if i >= ifs.len() {
        proof {
            assert(impl_markers_text(class@, fv, i as int) =~= Seq::<char>::empty());
        }
        return String::new();
    }
    let mut s = "impl<'a> ".to_owned();
    let p = ifs[i].with_double_colons();
    s.append(p.as_str());
    s.append(" for ");
    s.append(class.as_str());
    s.append("<'a> {\n}\n");
    let rest = impl_markers_x(class, ifs, i + 1);
    s.append(rest.as_str());
    proof {
        assert(fv[i as int] == ifs@[i as int]@);
        assert(s@ =~= "impl<'a> "@ + colon_path(fv[i as int]) + " for "@ + class@ + "<'a> {\n}\n"@
            + impl_markers_text(class@, fv, i + 1 as int));
    }
    s
}

fn bounds_x(xs: &Vec<JavaName>, i: usize) -> (r: String)
    requires
        i <= xs@.len(),
    ensures
        r@ == bounds_text(crate::ast::names_view(xs@), i as int),
    decreases xs@.len() - i,
{
    let ghost xv = crate::ast::names_view(xs@);
    if i >= xs.len() {
        proof {
            assert(bounds_text(xv, i as int) =~= Seq::<char>::empty());
        }
        return String::new();
    }
    let mut s = xs[i].with_double_colons();
    proof {
        assert(xv[i as int] == xs@[i as int]@);
    }
    if i + 1 < xs.len() {
        s.append(" + ");
        let rest = bounds_x(xs, i + 1);
        s.append(rest.as_str());
        proof {
            assert(s@ =~= colon_path(xv[i as int]) + " + "@ + bounds_text(xv, i + 1 as int));
        }
    }
    s
}

/// The generated text of one interface.
pub fn generate_interface_definition(f: &InterfaceGeneratorDefinition) -> (r: String)
    ensures
        r@ == iface_text(f@),
{
    let mut s = pub_prefix_x(f.public);
    s.append("trait ");
    s.append(f.interface.as_str());
    if f.extends.len() > 0 {
        s.append(": ");
        let b = bounds_x(&f.extends, 0);
        s.append(b.as_str());
    }
    s.append(" {\n}\n");
    proof {
        assert(s@ =~= iface_text(f@));
    }
    s
}

/// The generated text of one class.
#[verifier::rlimit(100)]
pub fn generate_class_definition(c: &ClassGeneratorDefinition) -> (r: String)
    ensures
        r@ == class_text(c@),
{
    let sup = c.super_class.with_double_colons();
    let mut s = "#[derive(Debug)]\n".to_owned();
    let p = pub_prefix_x(c.public);
    s.append(p.as_str());
    s.append("struct ");
    s.append(c.class.as_str());
    s.append("<'env> {\nobject: ");
    s.append(sup.as_str());
    s.append("<'env>,\n}\n");
    s.append("impl<'a> ::rust_jni::JavaType for ");
    s.append(c.class.as_str());
    s.append(
        "<'a> {\n#[doc(hidden)]\ntype __JniType = <::rust_jni::java::lang::Object<'a> as ::rust_jni::JavaType>::__JniType;\n#[doc(hidden)]\nfn __signature() -> &'static str {\n",
    );
    let fsig = quoted_x(&c.full_signature);
    s.append(fsig.as_str());
    s.append("\n}\n}\n");
    s.append("impl<'a> ::rust_jni::__generator::ToJni for ");
    s.append(c.class.as_str());
    s.append("<'a> {\nunsafe fn __to_jni(&self) -> Self::__JniType {\nself.raw_object()\n}\n}\n");
    s.append("impl<'a> ::rust_jni::__generator::FromJni<'a> for ");
    s.append(c.class.as_str());
    s.append(
        "<'a> {\nunsafe fn __from_jni(env: &'a ::rust_jni::JniEnv<'a>, value: Self::__JniType) -> Self {\nSelf {\nobject: <",
    );
    s.append(sup.as_str());
    s.append(" as ::rust_jni::__generator::FromJni<'a>>::__from_jni(env, value),\n}\n}\n}\n");
    let selfcast = cast_x(&c.class, &c.class);
    s.append(selfcast.as_str());
    let ancs = casts_x(&c.class, &c.transitive_extends, 0);
    s.append(ancs.as_str());
    s.append("impl<'a> ::std::ops::Deref for ");
    s.append(c.class.as_str());
    s.append("<'a> {\ntype Target = ");
    s.append(sup.as_str());
    s.append("<'a>;\nfn deref(&self) -> &Self::Target {\n&self.object\n}\n}\n");
    s.append("impl<'a> ");
    s.append(c.class.as_str());
    s.append(
        "<'a> {\npub fn get_class(env: &'a ::rust_jni::JniEnv<'a>, token: &::rust_jni::NoException<'a>) -> ::rust_jni::JavaResult<'a, ::rust_jni::java::lang::Class<'a>> {\n::rust_jni::java::lang::Class::find(env, ",
    );
    let sig = quoted_x(&c.signature);
    s.append(sig.as_str());
    s.append(
        ", token)\n}\npub fn clone(&self, token: &::rust_jni::NoException<'a>) -> ::rust_jni::JavaResult<'a, Self>\nwhere\nSelf: Sized,\n{\nself.object.clone(token).map(|object| Self { object })\n}\npub fn to_string(&self, token: &::rust_jni::NoException<'a>) -> ::rust_jni::JavaResult<'a, ::rust_jni::java::lang::String<'a>> {\nself.object.to_string(token)\n}\n",
    );
    let cts = ctors_x(&c.constructors, 0);
    s.append(cts.as_str());
    let mts = methods_x(&c.methods, 0);
    s.append(mts.as_str());
    let sts = statics_x(&c.static_methods, 0);
    s.append(sts.as_str());
    s.append("}\n");
    s.append("impl<'a> ::std::fmt::Display for ");
    s.append(c.class.as_str());
    s.append(
        "<'a> {\nfn fmt(&self, formatter: &mut ::std::fmt::Formatter) -> ::std::fmt::Result {\nself.object.fmt(formatter)\n}\n}\n",
    );
    s.append("impl<'a, T> PartialEq<T> for ");
    s.append(c.class.as_str());
    s.append(
        "<'a> where T: ::rust_jni::Cast<'a, ::rust_jni::java::lang::Object<'a>> {\nfn eq(&self, other: &T) -> bool {\nself.object.eq(other)\n}\n}\n",
    );
    s.append("impl<'a> Eq for ");
    s.append(c.class.as_str());
    s.append("<'a> {}\n");
    let mks = impl_markers_x(&c.class, &c.implements, 0);
    s.append(mks.as_str());
    proof {
        assert(s@ =~= class_text(c@));
    }
    s
}

/// The generated text of one resolved definition.
pub fn generate_definition(g: &GeneratorDefinition) -> (r: String)
    ensures
        r@ == def_text(g@),
{
    match g {
        GeneratorDefinition::Class(c) => generate_class_definition(c),
        GeneratorDefinition::Interface(f) => generate_interface_definition(f),
    }
}

/// The generated text of the whole resolved model, in input order.
pub fn generate(data: &GeneratorData) -> (r: String)
    ensures
        r@ == generated_text(data@),
{
    let ghost gv = data@;
    let mut s = String::new();
    let mut i: usize = 0;
    proof {
        assert(s@ =~= Seq::<char>::empty());
    }
    while i < data.definitions.len()
        invariant
            gv == data@,
            i <= data.definitions@.len(),
            s@ + defs_text(gv, i as int) == generated_text(gv),
        decreases data.definitions@.len() - i,
    {
        proof {
            assert(gv[i as int] == data.definitions@[i as int]@);
        }
        let piece = generate_definition(&data.definitions[i]);
        s.append(piece.as_str());
        proof {
            assert(s@ + defs_text(gv, i + 1 as int) =~= generated_text(gv));
        }
        i = i + 1;
    }
    proof {
        assert(defs_text(gv, i as int) =~= Seq::<char>::empty());
        assert(s@ =~= generated_text(gv));
    }
    s
}

} // verus!
