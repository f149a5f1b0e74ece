//! The semantic resolver: from parsed declarations and metadata stubs to
//! fully resolved definitions.
//!
//! Resolution computes, per class, the ordered chain of transitive
//! superclasses (ending at the implicit root object type), the deduplicated
//! and sorted set of implemented interfaces (declared interfaces together
//! with their transitive ancestors), and the foreign signature strings.
//! Every name used in an `extends` or `implements` position must resolve to
//! a local declaration or a metadata stub; cyclic inheritance is rejected
//! with a diagnostic.

use crate::ast::ArgModel;
use crate::ast::CtorModel;
use crate::ast::DefsModel;
use crate::ast::JavaClassMethod;
use crate::ast::JavaConstructor;
use crate::ast::JavaDefinitionKind;
use crate::ast::MethodArgument;
use crate::ast::JavaDefinitionMetadataKind;
use crate::ast::JavaDefinitions;
use crate::ast::MethodModel;
use crate::error::ErrorKind;
use crate::error::GenError;
use crate::name::dotted;
use crate::name::full_sig_of;
use crate::name::lex_le;
use crate::name::sig_of;
use crate::name::JavaName;
use vstd::prelude::*;

verus! {

broadcast use {vstd::std_specs::vec::axiom_vec_index_decreases, vstd::seq::group_seq_axioms};

/// The implicit root object type, substituted when `extends` is omitted.
pub open spec fn root_name() -> Seq<Seq<char>> {
    seq![seq!['j', 'a', 'v', 'a'], seq!['l', 'a', 'n', 'g'], seq!['O', 'b', 'j', 'e', 'c', 't']]
}

/// Whether some local declaration or stub declares the interface `a`
/// directly extending `b`.
pub open spec fn edge(d: DefsModel, a: Seq<Seq<char>>, b: Seq<Seq<char>>) -> bool {
    ||| exists|i: int|
        0 <= i < d.defs.len() && (#[trigger] d.defs[i]).name == a && d.defs[i].kind is Interface
            && d.defs[i].kind->Interface_0.extends.contains(b)
    ||| exists|i: int|
        0 <= i < d.meta.len() && (#[trigger] d.meta[i]).name == a && d.meta[i].kind is Interface
            && d.meta[i].kind->Interface_0.contains(b)
}

/// Whether `a` names a locally declared or stubbed interface.
pub open spec fn known_iface(d: DefsModel, a: Seq<Seq<char>>) -> bool {
    ||| exists|i: int|
        0 <= i < d.defs.len() && (#[trigger] d.defs[i]).name == a && d.defs[i].kind is Interface
    ||| exists|i: int|
        0 <= i < d.meta.len() && (#[trigger] d.meta[i]).name == a && d.meta[i].kind is Interface
}

/// Whether `a` is the implicit root or names any local declaration or stub.
pub open spec fn known_any(d: DefsModel, a: Seq<Seq<char>>) -> bool {
    ||| a == root_name()
    ||| exists|i: int| 0 <= i < d.defs.len() && (#[trigger] d.defs[i]).name == a
    ||| exists|i: int| 0 <= i < d.meta.len() && (#[trigger] d.meta[i]).name == a
}

/// Whether `b` is reachable from `a` through at most `n` extension edges.
pub open spec fn reach_n(d: DefsModel, a: Seq<Seq<char>>, b: Seq<Seq<char>>, n: nat) -> bool
    decreases n,
{
    n > 0 && (edge(d, a, b) || exists|m: Seq<Seq<char>>|
        reach_n(d, a, m, (n - 1) as nat) && edge(d, m, b))
}

/// Whether `b` is a transitive ancestor interface of `a`.
pub open spec fn reaches(d: DefsModel, a: Seq<Seq<char>>, b: Seq<Seq<char>>) -> bool {
    exists|n: nat| reach_n(d, a, b, n)
}

/// Whether the interface extension graph has a cycle.
pub open spec fn has_iface_cycle(d: DefsModel) -> bool {
    exists|a: Seq<Seq<char>>| known_iface(d, a) && reaches(d, a, a)
}

/// The recorded superclass of the last matching class declaration, searched
/// from the end.
pub open spec fn lookup_in_defs(defs: Seq<crate::ast::DefModel>, c: Seq<Seq<char>>) -> Option<
    Option<Seq<Seq<char>>>,
>
    decreases defs.len(),
{
    if defs.len() == 0 {
        None
    } else if defs.last().name == c && defs.last().kind is Class {
        Some(defs.last().kind->Class_0.extends)
    } else {
        lookup_in_defs(defs.drop_last(), c)
    }
}

/// The recorded superclass of the last matching class stub, searched from
/// the end.
pub open spec fn lookup_in_stubs(meta: Seq<crate::ast::StubModel>, c: Seq<Seq<char>>) -> Option<
    Option<Seq<Seq<char>>>,
>
    decreases meta.len(),
{
    if meta.len() == 0 {
        None
    } else if meta.last().name == c && meta.last().kind is Class {
        Some(meta.last().kind->Class_0)
    } else {
        lookup_in_stubs(meta.drop_last(), c)
    }
}

/// An omitted superclass is the implicit root.
pub open spec fn or_root(e: Option<Seq<Seq<char>>>) -> Seq<Seq<char>> {
    match e {
        Option::Some(n) => n,
        Option::None => root_name(),
    }
}

/// The superclass recorded for `c`: stubs override local declarations,
/// later entries override earlier ones.
pub open spec fn sup_of(d: DefsModel, c: Seq<Seq<char>>) -> Option<Seq<Seq<char>>> {
    match lookup_in_stubs(d.meta, c) {
        Option::Some(e) => Some(or_root(e)),
        Option::None => match lookup_in_defs(d.defs, c) {
            Option::Some(e) => Some(or_root(e)),
            Option::None => None,
        },
    }
}

/// The superclass chain of `c`, walked upward while entries remain, with at
/// most `fuel` steps.  `None` means the walk did not terminate within the
/// fuel: the extension chain is cyclic.
pub open spec fn sp_chain(d: DefsModel, c: Seq<Seq<char>>, fuel: nat) -> Option<
    Seq<Seq<Seq<char>>>,
>
    decreases fuel,
{
    match sup_of(d, c) {
        Option::None => Some(Seq::empty()),
        Option::Some(s) => {
            if fuel == 0 {
                None
            } else {
                match sp_chain(d, s, (fuel - 1) as nat) {
                    Option::Some(r) => Some(seq![s] + r),
                    Option::None => None,
                }
            }
        },
    }
}

/// Enough fuel for any acyclic chain: one step per recorded entry.
pub open spec fn chain_fuel(d: DefsModel) -> nat {
    (d.defs.len() + d.meta.len() + 1) as nat
}

/// The ancestor chain of a class: from the immediate superclass up to the
/// implicit root, or up to the first name with no recorded entry.
pub open spec fn class_chain(d: DefsModel, c: Seq<Seq<char>>) -> Option<Seq<Seq<Seq<char>>>> {
    sp_chain(d, c, chain_fuel(d))
}

/// The resolved implemented-interface set of a class: the declared
/// interfaces together with every transitive ancestor of each.
pub open spec fn impl_set(d: DefsModel, impls: Seq<Seq<Seq<char>>>) -> Set<Seq<Seq<char>>> {
    impls.to_set().union(
        Set::new(
            |b: Seq<Seq<char>>|
                exists|k: int| 0 <= k < impls.len() && reaches(d, #[trigger] impls[k], b),
        ),
    )
}

/// Sorted by canonical string form.
pub open spec fn sorted_names(s: Seq<Seq<Seq<char>>>) -> bool {
    forall|i: int| 0 <= i < s.len() - 1 ==> lex_le(dotted(#[trigger] s[i]), dotted(s[i + 1]))
}

/// A name in an `extends` or `implements` position that matches no local
/// declaration and no stub.
pub open spec fn sp_unresolved(d: DefsModel) -> bool {
    ||| exists|i: int, k: int|
        0 <= i < d.defs.len() && d.defs[i].kind is Interface && 0 <= k
            < d.defs[i].kind->Interface_0.extends.len() && !known_iface(
            d,
            #[trigger] d.defs[i].kind->Interface_0.extends[k],
        )
    ||| exists|i: int, k: int|
        0 <= i < d.meta.len() && d.meta[i].kind is Interface && 0 <= k
            < d.meta[i].kind->Interface_0.len() && !known_iface(
            d,
            #[trigger] d.meta[i].kind->Interface_0[k],
        )
    ||| exists|i: int, k: int|
        0 <= i < d.defs.len() && d.defs[i].kind is Class && 0 <= k
            < d.defs[i].kind->Class_0.implements.len() && !known_iface(
            d,
            #[trigger] d.defs[i].kind->Class_0.implements[k],
        )
    ||| exists|i: int|
        0 <= i < d.defs.len() && (#[trigger] d.defs[i]).kind is Class
            && d.defs[i].kind->Class_0.extends is Some && !known_any(
            d,
            d.defs[i].kind->Class_0.extends->0,
        )
}

/// A local class whose superclass chain does not terminate.
pub open spec fn sp_class_cycle(d: DefsModel) -> bool {
    exists|i: int|
        0 <= i < d.defs.len() && (#[trigger] d.defs[i]).kind is Class && class_chain(
            d,
            d.defs[i].name,
        ) is None
}

/// A generated instance or static method: the target-language name, the
/// foreign method-name string, the return type, and the typed arguments.
#[derive(Debug, PartialEq, Eq)]
pub struct ClassMethodGeneratorDefinition {
    pub name: String,
    pub java_name: String,
    pub return_type: JavaName,
    pub argument_names: Vec<String>,
    pub argument_types: Vec<JavaName>,
    pub public: bool,
}

/// A generated constructor.
#[derive(Debug, PartialEq, Eq)]
pub struct ConstructorGeneratorDefinition {
    pub name: String,
    pub argument_names: Vec<String>,
    pub argument_types: Vec<JavaName>,
    pub public: bool,
}

/// A fully resolved class: wrapper name, superclass, ancestor chain, sorted
/// implemented interfaces, signatures, and operations.
#[derive(Debug, PartialEq, Eq)]
pub struct ClassGeneratorDefinition {
    pub class: String,
    pub public: bool,
    pub super_class: JavaName,
    pub transitive_extends: Vec<JavaName>,
    pub implements: Vec<JavaName>,
    pub signature: String,
    pub full_signature: String,
    pub constructors: Vec<ConstructorGeneratorDefinition>,
    pub methods: Vec<ClassMethodGeneratorDefinition>,
    pub static_methods: Vec<ClassMethodGeneratorDefinition>,
}

/// A fully resolved interface.
#[derive(Debug, PartialEq, Eq)]
pub struct InterfaceGeneratorDefinition {
    pub interface: String,
    pub public: bool,
    pub extends: Vec<JavaName>,
}

/// One resolved definition.
#[derive(Debug, PartialEq, Eq)]
pub enum GeneratorDefinition {
    Class(ClassGeneratorDefinition),
    Interface(InterfaceGeneratorDefinition),
}

/// The resolved model handed to the emitter, in input declaration order.
#[derive(Debug, PartialEq, Eq)]
pub struct GeneratorData {
    pub definitions: Vec<GeneratorDefinition>,
}

/// The mathematical value of a generated method.
pub ghost struct GenMethodModel {
    pub name: Seq<char>,
    pub java_name: Seq<char>,
    pub ret: Seq<Seq<char>>,
    pub arg_names: Seq<Seq<char>>,
    pub arg_types: Seq<Seq<Seq<char>>>,
    pub public: bool,
}

/// The mathematical value of a generated constructor.
pub ghost struct GenCtorModel {
    pub name: Seq<char>,
    pub arg_names: Seq<Seq<char>>,
    pub arg_types: Seq<Seq<Seq<char>>>,
    pub public: bool,
}

/// The mathematical value of a resolved class.
pub ghost struct GenClassModel {
    pub class: Seq<char>,
    pub public: bool,
    pub super_class: Seq<Seq<char>>,
    pub transitive_extends: Seq<Seq<Seq<char>>>,
    pub implements: Seq<Seq<Seq<char>>>,
    pub signature: Seq<char>,
    pub full_signature: Seq<char>,
    pub ctors: Seq<GenCtorModel>,
    pub methods: Seq<GenMethodModel>,
    pub static_methods: Seq<GenMethodModel>,
}

/// The mathematical value of a resolved interface.
pub ghost struct GenIfaceModel {
    pub interface: Seq<char>,
    pub public: bool,
    pub extends: Seq<Seq<Seq<char>>>,
}

/// The mathematical value of one resolved definition.
pub ghost enum GenDefModel {
    Class(GenClassModel),
    Interface(GenIfaceModel),
}

/// The values of a vector of strings.
pub open spec fn strings_view(v: Seq<String>) -> Seq<Seq<char>> {
    Seq::new(
        v.len(),
        |i: int|
            if 0 <= i < v.len() {
                v[i]@
            } else {
                Seq::empty()
            },
    )
}

impl View for ClassMethodGeneratorDefinition {
    type V = GenMethodModel;

    open spec fn view(&self) -> GenMethodModel {
        GenMethodModel {
            name: self.name@,
            java_name: self.java_name@,
            ret: self.return_type@,
            arg_names: strings_view(self.argument_names@),
            arg_types: crate::ast::names_view(self.argument_types@),
            public: self.public,
        }
    }
}

impl View for ConstructorGeneratorDefinition {
    type V = GenCtorModel;

    open spec fn view(&self) -> GenCtorModel {
        GenCtorModel {
            name: self.name@,
            arg_names: strings_view(self.argument_names@),
            arg_types: crate::ast::names_view(self.argument_types@),
            public: self.public,
        }
    }
}

/// The values of a vector of generated methods.
pub open spec fn gen_methods_view(v: Seq<ClassMethodGeneratorDefinition>) -> Seq<GenMethodModel> {
    Seq::new(
        v.len(),
        |i: int|
            if 0 <= i < v.len() {
                v[i]@
            } else {
                GenMethodModel {
                    name: Seq::empty(),
                    java_name: Seq::empty(),
                    ret: Seq::empty(),
                    arg_names: Seq::empty(),
                    arg_types: Seq::empty(),
                    public: false,
                }
            },
    )
}

/// The values of a vector of generated constructors.
pub open spec fn gen_ctors_view(v: Seq<ConstructorGeneratorDefinition>) -> Seq<GenCtorModel> {
    Seq::new(
        v.len(),
        |i: int|
            if 0 <= i < v.len() {
                v[i]@
            } else {
                GenCtorModel {
                    name: Seq::empty(),
                    arg_names: Seq::empty(),
                    arg_types: Seq::empty(),
                    public: false,
                }
            },
    )
}

impl View for ClassGeneratorDefinition {
    type V = GenClassModel;

    open spec fn view(&self) -> GenClassModel {
        GenClassModel {
            class: self.class@,
            public: self.public,
            super_class: self.super_class@,
            transitive_extends: crate::ast::names_view(self.transitive_extends@),
            implements: crate::ast::names_view(self.implements@),
            signature: self.signature@,
            full_signature: self.full_signature@,
            ctors: gen_ctors_view(self.constructors@),
            methods: gen_methods_view(self.methods@),
            static_methods: gen_methods_view(self.static_methods@),
        }
    }
}

impl View for InterfaceGeneratorDefinition {
    type V = GenIfaceModel;

    open spec fn view(&self) -> GenIfaceModel {
        GenIfaceModel {
            interface: self.interface@,
            public: self.public,
            extends: crate::ast::names_view(self.extends@),
        }
    }
}

impl View for GeneratorDefinition {
    type V = GenDefModel;

    open spec fn view(&self) -> GenDefModel {
        match self {
            GeneratorDefinition::Class(c) => GenDefModel::Class(c@),
            GeneratorDefinition::Interface(f) => GenDefModel::Interface(f@),
        }
    }
}

/// The values of a vector of resolved definitions.
pub open spec fn gen_defs_view(v: Seq<GeneratorDefinition>) -> Seq<GenDefModel> {
    Seq::new(
        v.len(),
        |i: int|
            if 0 <= i < v.len() {
                v[i]@
            } else {
                GenDefModel::Interface(
                    GenIfaceModel { interface: Seq::empty(), public: false, extends: Seq::empty() },
                )
            },
    )
}

impl View for GeneratorData {
    type V = Seq<GenDefModel>;

    open spec fn view(&self) -> Seq<GenDefModel> {
        gen_defs_view(self.definitions@)
    }
}

/// The binding names of an argument list.
pub open spec fn arg_names_of(args: Seq<ArgModel>) -> Seq<Seq<char>> {
    Seq::new(
        args.len(),
        |i: int|
            if 0 <= i < args.len() {
                args[i].name
            } else {
                Seq::empty()
            },
    )
}

/// The types of an argument list.
pub open spec fn arg_types_of(args: Seq<ArgModel>) -> Seq<Seq<Seq<char>>> {
    Seq::new(
        args.len(),
        |i: int|
            if 0 <= i < args.len() {
                args[i].ty
            } else {
                Seq::empty()
            },
    )
}

/// The generated form of one parsed method.
pub open spec fn conv_method(m: MethodModel) -> GenMethodModel {
    GenMethodModel {
        name: m.name,
        java_name: m.name,
        ret: m.ret,
        arg_names: arg_names_of(m.args),
        arg_types: arg_types_of(m.args),
        public: m.public,
    }
}

/// The generated form of one parsed constructor.
pub open spec fn conv_ctor(c: CtorModel) -> GenCtorModel {
    GenCtorModel {
        name: "new"@,
        arg_names: arg_names_of(c.args),
        arg_types: arg_types_of(c.args),
        public: c.public,
    }
}

/// The generated methods with the given staticness, from position `i` on,
/// in declaration order.
pub open spec fn conv_methods_from(ms: Seq<MethodModel>, i: int, want_static: bool) -> Seq<
    GenMethodModel,
>
    decreases ms.len() - i,
{
    if !(0 <= i < ms.len()) {
        Seq::empty()
    } else {
        let r = conv_methods_from(ms, i + 1, want_static);
        if ms[i].is_static == want_static {
            seq![conv_method(ms[i])] + r
        } else {
            r
        }
    }
}

/// The generated constructors, from position `i` on, in declaration order.
pub open spec fn conv_ctors_from(cs: Seq<CtorModel>, i: int) -> Seq<GenCtorModel>
    decreases cs.len() - i,
{
    if !(0 <= i < cs.len()) {
        Seq::empty()
    } else {
        seq![conv_ctor(cs[i])] + conv_ctors_from(cs, i + 1)
    }
}

/// The extension targets of the interface declarations from `i` on.
pub open spec fn def_targets(defs: Seq<crate::ast::DefModel>, i: int) -> Seq<Seq<Seq<char>>>
    decreases defs.len() - i,
{
    if !(0 <= i < defs.len()) {
        Seq::empty()
    } else {
        (if defs[i].kind is Interface {
            defs[i].kind->Interface_0.extends
        } else {
            Seq::empty()
        }) + def_targets(defs, i + 1)
    }
}

/// The extension targets of the interface stubs from `i` on.
pub open spec fn stub_targets(meta: Seq<crate::ast::StubModel>, i: int) -> Seq<Seq<Seq<char>>>
    decreases meta.len() - i,
{
    if !(0 <= i < meta.len()) {
        Seq::empty()
    } else {
        (if meta[i].kind is Interface {
            meta[i].kind->Interface_0
        } else {
            Seq::empty()
        }) + stub_targets(meta, i + 1)
    }
}

/// Every extension target of any interface, with repetitions.
pub open spec fn targets_all(d: DefsModel) -> Seq<Seq<Seq<char>>> {
    def_targets(d.defs, 0) + stub_targets(d.meta, 0)
}

proof fn lemma_def_targets_contain(
    defs: Seq<crate::ast::DefModel>,
    i: int,
    j: int,
    b: Seq<Seq<char>>,
)
    requires
        0 <= i <= j < defs.len(),
        defs[j].kind is Interface,
        defs[j].kind->Interface_0.extends.contains(b),
    ensures
        def_targets(defs, i).contains(b),
    decreases j - i,
{
    if i == j {
        let ext = defs[i].kind->Interface_0.extends;
        let k = choose|k: int| 0 <= k < ext.len() && ext[k] == b;
        assert(def_targets(defs, i)[k] == b);
    } else {
        lemma_def_targets_contain(defs, i + 1, j, b);
        let r = def_targets(defs, i + 1);
        let k = choose|k: int| 0 <= k < r.len() && r[k] == b;
        let head = if defs[i].kind is Interface {
            defs[i].kind->Interface_0.extends
        } else {
            Seq::empty()
        };
        assert(def_targets(defs, i)[head.len() + k] == b);
    }
}

proof fn lemma_stub_targets_contain(
    meta: Seq<crate::ast::StubModel>,
    i: int,
    j: int,
    b: Seq<Seq<char>>,
)
    requires
        0 <= i <= j < meta.len(),
        meta[j].kind is Interface,
        meta[j].kind->Interface_0.contains(b),
    ensures
        stub_targets(meta, i).contains(b),
    decreases j - i,
{
    if i == j {
        let ext = meta[i].kind->Interface_0;
        let k = choose|k: int| 0 <= k < ext.len() && ext[k] == b;
        assert(stub_targets(meta, i)[k] == b);
    } else {
        lemma_stub_targets_contain(meta, i + 1, j, b);
        let r = stub_targets(meta, i + 1);
        let k = choose|k: int| 0 <= k < r.len() && r[k] == b;
        let head = if meta[i].kind is Interface {
            meta[i].kind->Interface_0
        } else {
            Seq::empty()
        };
        assert(stub_targets(meta, i)[head.len() + k] == b);
    }
}

/// Every edge target is listed in `targets_all`.
proof fn lemma_edge_target(d: DefsModel, a: Seq<Seq<char>>, b: Seq<Seq<char>>)
    requires
        edge(d, a, b),
    ensures
        targets_all(d).to_set().contains(b),
{
    if exists|i: int|
        0 <= i < d.defs.len() && (#[trigger] d.defs[i]).name == a && d.defs[i].kind is Interface
            && d.defs[i].kind->Interface_0.extends.contains(b) {
        let i = choose|i: int|
            0 <= i < d.defs.len() && (#[trigger] d.defs[i]).name == a && d.defs[i].kind
                is Interface && d.defs[i].kind->Interface_0.extends.contains(b);
        lemma_def_targets_contain(d.defs, 0, i, b);
        let r = def_targets(d.defs, 0);
        let k = choose|k: int| 0 <= k < r.len() && r[k] == b;
        assert(targets_all(d)[k] == b);
        assert(targets_all(d).contains(b));
    } else {
        let i = choose|i: int|
            0 <= i < d.meta.len() && (#[trigger] d.meta[i]).name == a && d.meta[i].kind
                is Interface && d.meta[i].kind->Interface_0.contains(b);
        lemma_stub_targets_contain(d.meta, 0, i, b);
        let r = stub_targets(d.meta, 0);
        let k = choose|k: int| 0 <= k < r.len() && r[k] == b;
        assert(targets_all(d)[def_targets(d.defs, 0).len() + k] == b);
        assert(targets_all(d).contains(b));
    }
}

/// One more step extends a reachable path.
proof fn lemma_reach_step(d: DefsModel, a: Seq<Seq<char>>, m: Seq<Seq<char>>, b: Seq<Seq<char>>)
    requires
        reaches(d, a, m),
        edge(d, m, b),
    ensures
        reaches(d, a, b),
{
    let n = choose|n: nat| reach_n(d, a, m, n);
    assert(reach_n(d, a, b, n + 1));
}

/// A set closed under edges and holding the direct targets holds every
/// reachable name.
proof fn lemma_closed_complete(
    d: DefsModel,
    a: Seq<Seq<char>>,
    r: Seq<Seq<Seq<char>>>,
    b: Seq<Seq<char>>,
    n: nat,
)
    requires
        forall|x: Seq<Seq<char>>| edge(d, a, x) ==> r.contains(x),
        forall|m: Seq<Seq<char>>, x: Seq<Seq<char>>|
            r.contains(m) && edge(d, m, x) ==> r.contains(x),
        reach_n(d, a, b, n),
    ensures
        r.contains(b),
    decreases n,
{
    if edge(d, a, b) {
    } else {
        let m = choose|m: Seq<Seq<char>>| reach_n(d, a, m, (n - 1) as nat) && edge(d, m, b);
        lemma_closed_complete(d, a, r, m, (n - 1) as nat);
    }
}

/// A duplicate-free vector of target names is no longer than the target
/// list.
proof fn lemma_acc_bound(d: DefsModel, r: Seq<Seq<Seq<char>>>)
    requires
        r.no_duplicates(),
        forall|x: Seq<Seq<char>>| r.contains(x) ==> targets_all(d).to_set().contains(x),
    ensures
        r.len() <= targets_all(d).to_set().len(),
        targets_all(d).to_set().finite(),
{
    broadcast use vstd::seq_lib::group_seq_lib_default;

    r.unique_seq_to_set();
    let t = targets_all(d).to_set();
    vstd::seq_lib::seq_to_set_is_finite::<Seq<Seq<char>>>(targets_all(d));
    assert(r.to_set().subset_of(t));
    vstd::set_lib::lemma_len_subset(r.to_set(), t);
}

/// Appending a fresh value keeps a sequence duplicate-free.
proof fn lemma_push_unique<A>(s: Seq<A>, x: A)
    requires
        s.no_duplicates(),
        !s.contains(x),
    ensures
        s.push(x).no_duplicates(),
{
    let p = s.push(x);
    assert forall|i: int, j: int| 0 <= i < p.len() && 0 <= j < p.len() && i != j implies p[i]
        != p[j] by {
        if i < s.len() && j < s.len() {
        } else if j == s.len() {
            assert(p[j] == x);
            if p[i] == x {
                assert(s[i] == x);
                assert(s.contains(x));
            }
        } else {
            assert(p[i] == x);
            if p[j] == x {
                assert(s[j] == x);
                assert(s.contains(x));
            }
        }
    }
}

/// A declared extension edge, by its indices.
proof fn lemma_edge_intro_def(d: DefsModel, i: int, k: int)
    requires
        0 <= i < d.defs.len(),
        d.defs[i].kind is Interface,
        0 <= k < d.defs[i].kind->Interface_0.extends.len(),
    ensures
        edge(d, d.defs[i].name, d.defs[i].kind->Interface_0.extends[k]),
{
    let ext = d.defs[i].kind->Interface_0.extends;
    assert(ext.contains(ext[k]));
    assert((#[trigger] d.defs[i]).name == d.defs[i].name);
}

/// A stubbed extension edge, by its indices.
proof fn lemma_edge_intro_stub(d: DefsModel, i: int, k: int)
    requires
        0 <= i < d.meta.len(),
        d.meta[i].kind is Interface,
        0 <= k < d.meta[i].kind->Interface_0.len(),
    ensures
        edge(d, d.meta[i].name, d.meta[i].kind->Interface_0[k]),
{
    let ext = d.meta[i].kind->Interface_0;
    assert(ext.contains(ext[k]));
    assert((#[trigger] d.meta[i]).name == d.meta[i].name);
}

/// Whether the vector holds the name.
fn contains_name(v: &Vec<JavaName>, n: &JavaName) -> (b: bool)
    ensures
        b == crate::ast::names_view(v@).contains(n@),
{
    let mut i: usize = 0;
    while i < v.len()
        invariant
            i <= v@.len(),
            forall|k: int| 0 <= k < i as int ==> crate::ast::names_view(v@)[k] != n@,
        decreases v@.len() - i,
    {
        if v[i].same_as(n) {
            proof {
                assert(crate::ast::names_view(v@)[i as int] == n@);
            }
            return true;
        }
        proof {
            assert(crate::ast::names_view(v@)[i as int] == v@[i as int]@);
        }
        i = i + 1;
    }
    proof {
        if crate::ast::names_view(v@).contains(n@) {
            let k = choose|k: int|
                0 <= k < crate::ast::names_view(v@).len() && crate::ast::names_view(v@)[k] == n@;
            assert(false);
        }
    }
    false
}

/// Add every direct extension target of the interface `m` that is not yet
/// present.  The vector only grows; old entries keep their positions.
#[verifier::rlimit(100)]
fn add_targets(d: &JavaDefinitions, m: &JavaName, acc: &mut Vec<JavaName>)
    ensures
        final(acc)@.len() >= old(acc)@.len(),
        forall|k: int|
            0 <= k < old(acc)@.len() ==> crate::ast::names_view(final(acc)@)[k]
                == crate::ast::names_view(old(acc)@)[k],
        forall|k: int|
            old(acc)@.len() <= k < final(acc)@.len() ==> edge(
                d@,
                m@,
                crate::ast::names_view(final(acc)@)[k],
            ),
        crate::ast::names_view(old(acc)@).no_duplicates() ==> crate::ast::names_view(
            final(acc)@,
        ).no_duplicates(),
        forall|b: Seq<Seq<char>>|
            edge(d@, m@, b) ==> crate::ast::names_view(final(acc)@).contains(b),
{
    let ghost dm = d@;
    let mut i: usize = 0;
    while i < d.definitions.len()
        invariant
            i <= d.definitions@.len(),
            dm == d@,
            acc@.len() >= old(acc)@.len(),
            forall|k: int|
                0 <= k < old(acc)@.len() ==> crate::ast::names_view(acc@)[k]
                    == crate::ast::names_view(old(acc)@)[k],
            forall|k: int|
                old(acc)@.len() <= k < acc@.len() ==> edge(
                    dm,
                    m@,
                    crate::ast::names_view(acc@)[k],
                ),
            crate::ast::names_view(old(acc)@).no_duplicates() ==> crate::ast::names_view(
                acc@,
            ).no_duplicates(),
            forall|ii: int, kk: int|
                0 <= ii < i as int && dm.defs[ii].name == m@ && dm.defs[ii].kind is Interface && 0
                    <= kk < dm.defs[ii].kind->Interface_0.extends.len()
                    ==> crate::ast::names_view(acc@).contains(
                    #[trigger] dm.defs[ii].kind->Interface_0.extends[kk],
                ),
        decreases d.definitions@.len() - i,
    {
        proof {
            assert(dm.defs[i as int] == d.definitions@[i as int]@);
        }
        let matched = match &d.definitions[i].definition {
            JavaDefinitionKind::Interface(_) => d.definitions[i].name.same_as(m),
            _ => false,
        };
        if matched {
            match &d.definitions[i].definition {
                JavaDefinitionKind::Interface(f) => {
                    let ghost ext = dm.defs[i as int].kind->Interface_0.extends;
                    let mut k: usize = 0;
                    while k < f.extends.len()
                        invariant
                            k <= f.extends@.len(),
                            dm == d@,
                            (i as int) < d.definitions@.len(),
                            dm.defs[i as int] == d.definitions@[i as int]@,
                            d.definitions@[i as int].definition == JavaDefinitionKind::Interface(
                                *f,
                            ),
                            ext == crate::ast::names_view(f.extends@),
                            dm.defs[i as int].name == m@,
                            dm.defs[i as int].kind is Interface,
                            ext == dm.defs[i as int].kind->Interface_0.extends,
                            acc@.len() >= old(acc)@.len(),
                            forall|kk: int|
                                0 <= kk < old(acc)@.len() ==> crate::ast::names_view(acc@)[kk]
                                    == crate::ast::names_view(old(acc)@)[kk],
                            forall|kk: int|
                                old(acc)@.len() <= kk < acc@.len() ==> edge(
                                    dm,
                                    m@,
                                    crate::ast::names_view(acc@)[kk],
                                ),
                            crate::ast::names_view(old(acc)@).no_duplicates()
                                ==> crate::ast::names_view(acc@).no_duplicates(),
                            forall|ii: int, kk: int|
                                0 <= ii < i as int && dm.defs[ii].name == m@ && dm.defs[ii].kind
                                    is Interface && 0 <= kk
                                    < dm.defs[ii].kind->Interface_0.extends.len()
                                    ==> crate::ast::names_view(acc@).contains(
                                    #[trigger] dm.defs[ii].kind->Interface_0.extends[kk],
                                ),
                            forall|kk: int|
                                0 <= kk < k as int ==> crate::ast::names_view(acc@).contains(
                                    #[trigger] ext[kk],
                                ),
                        decreases f.extends@.len() - k,
                    {
                        proof {
                            assert(ext[k as int] == f.extends@[k as int]@);
                        }
                        if !contains_name(acc, &f.extends[k]) {
                            let ghost accm = crate::ast::names_view(acc@);
                            let nn = f.extends[k].duplicate();
                            let ghost nm = nn@;
                            acc.push(nn);
                            proof {
                                assert(crate::ast::names_view(acc@) =~= accm.push(nm));
                                if crate::ast::names_view(old(acc)@).no_duplicates() {
                                    lemma_push_unique(accm, nm);
                                }
                                assert forall|x: Seq<Seq<char>>| accm.contains(
                                    x,
                                ) implies accm.push(nm).contains(x) by {
                                    let xi = choose|xi: int|
                                        0 <= xi < accm.len() && accm[xi] == x;
                                    assert(accm.push(nm)[xi] == x);
                                }
                                assert(accm.push(nm).contains(nm)) by {
                                    assert(accm.push(nm)[accm.len() as int] == nm);
                                }
                                assert(dm.defs.len() == d.definitions@.len());
                                assert(ext.len() == f.extends@.len());
                                lemma_edge_intro_def(dm, i as int, k as int);
                                assert(edge(dm, m@, nm)) by {
                                    assert(dm.defs[i as int].kind->Interface_0.extends[k as int]
                                        == nm);
                                }
                                assert forall|x: Seq<Seq<char>>|
                                    accm.push(nm).contains(x) implies accm.contains(x) || x == nm
                                by {
                                    let xi = choose|xi: int|
                                        0 <= xi < accm.push(nm).len() && accm.push(nm)[xi] == x;
                                    if xi < accm.len() {
                                        assert(accm[xi] == x);
                                    }
                                }
                            }
                        }
                        k = k + 1;
                    }
                },
                _ => {
                    proof {
                        assert(false);
                    }
                },
            }
        }
        i = i + 1;
    }
    let mut i2: usize = 0;
    while i2 < d.metadata.definitions.len()
        invariant
            i2 <= d.metadata.definitions@.len(),
            dm == d@,
            acc@.len() >= old(acc)@.len(),
            forall|k: int|
                0 <= k < old(acc)@.len() ==> crate::ast::names_view(acc@)[k]
                    == crate::ast::names_view(old(acc)@)[k],
            forall|k: int|
                old(acc)@.len() <= k < acc@.len() ==> edge(
                    dm,
                    m@,
                    crate::ast::names_view(acc@)[k],
                ),
            crate::ast::names_view(old(acc)@).no_duplicates() ==> crate::ast::names_view(
                acc@,
            ).no_duplicates(),
            forall|ii: int, kk: int|
                0 <= ii < dm.defs.len() && dm.defs[ii].name == m@ && dm.defs[ii].kind is Interface
                    && 0 <= kk < dm.defs[ii].kind->Interface_0.extends.len()
                    ==> crate::ast::names_view(acc@).contains(
                    #[trigger] dm.defs[ii].kind->Interface_0.extends[kk],
                ),
            forall|ii: int, kk: int|
                0 <= ii < i2 as int && dm.meta[ii].name == m@ && dm.meta[ii].kind is Interface && 0
                    <= kk < dm.meta[ii].kind->Interface_0.len() ==> crate::ast::names_view(
                    acc@,
                ).contains(#[trigger] dm.meta[ii].kind->Interface_0[kk]),
        decreases d.metadata.definitions@.len() - i2,
    {
        proof {
            assert(dm.meta[i2 as int] == d.metadata.definitions@[i2 as int]@);
        }
        let matched = match &d.metadata.definitions[i2].definition {
            JavaDefinitionMetadataKind::Interface(_) => d.metadata.definitions[i2].name.same_as(m),
            _ => false,
        };
        if matched {
            match &d.metadata.definitions[i2].definition {
                JavaDefinitionMetadataKind::Interface(f) => {
                    let ghost ext = dm.meta[i2 as int].kind->Interface_0;
                    let mut k: usize = 0;
                    while k < f.extends.len()
                        invariant
                            k <= f.extends@.len(),
                            dm == d@,
                            (i2 as int) < d.metadata.definitions@.len(),
                            dm.meta[i2 as int] == d.metadata.definitions@[i2 as int]@,
                            d.metadata.definitions@[i2 as int].definition
                                == JavaDefinitionMetadataKind::Interface(*f),
                            ext == crate::ast::names_view(f.extends@),
                            dm.meta[i2 as int].name == m@,
                            dm.meta[i2 as int].kind is Interface,
                            ext == dm.meta[i2 as int].kind->Interface_0,
                            acc@.len() >= old(acc)@.len(),
                            forall|kk: int|
                                0 <= kk < old(acc)@.len() ==> crate::ast::names_view(acc@)[kk]
                                    == crate::ast::names_view(old(acc)@)[kk],
                            forall|kk: int|
                                old(acc)@.len() <= kk < acc@.len() ==> edge(
                                    dm,
                                    m@,
                                    crate::ast::names_view(acc@)[kk],
                                ),
                            crate::ast::names_view(old(acc)@).no_duplicates()
                                ==> crate::ast::names_view(acc@).no_duplicates(),
                            forall|ii: int, kk: int|
                                0 <= ii < dm.defs.len() && dm.defs[ii].name == m@ && dm.defs[ii].kind
                                    is Interface && 0 <= kk
                                    < dm.defs[ii].kind->Interface_0.extends.len()
                                    ==> crate::ast::names_view(acc@).contains(
                                    #[trigger] dm.defs[ii].kind->Interface_0.extends[kk],
                                ),
                            forall|ii: int, kk: int|
                                0 <= ii < i2 as int && dm.meta[ii].name == m@ && dm.meta[ii].kind
                                    is Interface && 0 <= kk < dm.meta[ii].kind->Interface_0.len()
                                    ==> crate::ast::names_view(acc@).contains(
                                    #[trigger] dm.meta[ii].kind->Interface_0[kk],
                                ),
                            forall|kk: int|
                                0 <= kk < k as int ==> crate::ast::names_view(acc@).contains(
                                    #[trigger] ext[kk],
                                ),
                        decreases f.extends@.len() - k,
                    {
                        proof {
                            assert(ext[k as int] == f.extends@[k as int]@);
                        }
                        if !contains_name(acc, &f.extends[k]) {
                            let ghost accm = crate::ast::names_view(acc@);
                            let nn = f.extends[k].duplicate();
                            let ghost nm = nn@;
                            acc.push(nn);
                            proof {
                                assert(crate::ast::names_view(acc@) =~= accm.push(nm));
                                if crate::ast::names_view(old(acc)@).no_duplicates() {
                                    lemma_push_unique(accm, nm);
                                }
                                assert forall|x: Seq<Seq<char>>| accm.contains(
                                    x,
                                ) implies accm.push(nm).contains(x) by {
                                    let xi = choose|xi: int|
                                        0 <= xi < accm.len() && accm[xi] == x;
                                    assert(accm.push(nm)[xi] == x);
                                }
                                assert(accm.push(nm).contains(nm)) by {
                                    assert(accm.push(nm)[accm.len() as int] == nm);
                                }
                                assert(dm.meta.len() == d.metadata.definitions@.len());
                                assert(ext.len() == f.extends@.len());
                                lemma_edge_intro_stub(dm, i2 as int, k as int);
                                assert(edge(dm, m@, nm)) by {
                                    assert(dm.meta[i2 as int].kind->Interface_0[k as int] == nm);
                                }
                                assert forall|x: Seq<Seq<char>>|
                                    accm.push(nm).contains(x) implies accm.contains(x) || x == nm
                                by {
                                    let xi = choose|xi: int|
                                        0 <= xi < accm.push(nm).len() && accm.push(nm)[xi] == x;
                                    if xi < accm.len() {
                                        assert(accm[xi] == x);
                                    }
                                }
                            }
                        }
                        k = k + 1;
                    }
                },
                _ => {
                    proof {
                        assert(false);
                    }
                },
            }
        }
        i2 = i2 + 1;
    }
    proof {
        assert forall|b: Seq<Seq<char>>| edge(dm, m@, b) implies crate::ast::names_view(
            acc@,
        ).contains(b) by {
            if exists|i: int|
                0 <= i < dm.defs.len() && (#[trigger] dm.defs[i]).name == m@ && dm.defs[i].kind
                    is Interface && dm.defs[i].kind->Interface_0.extends.contains(b) {
                let i = choose|i: int|
                    0 <= i < dm.defs.len() && (#[trigger] dm.defs[i]).name == m@ && dm.defs[i].kind
                        is Interface && dm.defs[i].kind->Interface_0.extends.contains(b);
                let ext = dm.defs[i].kind->Interface_0.extends;
                let kk = choose|kk: int| 0 <= kk < ext.len() && ext[kk] == b;
                assert(crate::ast::names_view(acc@).contains(ext[kk]));
            } else {
                let i = choose|i: int|
                    0 <= i < dm.meta.len() && (#[trigger] dm.meta[i]).name == m@ && dm.meta[i].kind
                        is Interface && dm.meta[i].kind->Interface_0.contains(b);
                let ext = dm.meta[i].kind->Interface_0;
                let kk = choose|kk: int| 0 <= kk < ext.len() && ext[kk] == b;
                assert(crate::ast::names_view(acc@).contains(ext[kk]));
            }
        }
    }
}

/// All transitive ancestor interfaces of `a`: a worklist fixpoint over the
/// direct-extension edges.
#[verifier::rlimit(100)]
pub fn closure_of(d: &JavaDefinitions, a: &JavaName) -> (r: Vec<JavaName>)
    ensures
        crate::ast::names_view(r@).no_duplicates(),
        forall|b: Seq<Seq<char>>|
            crate::ast::names_view(r@).contains(b) <==> reaches(d@, a@, b),
{
    let ghost dm = d@;
    let ghost t = targets_all(dm).to_set();
    let mut acc: Vec<JavaName> = Vec::new();
    proof {
        assert(crate::ast::names_view(acc@) =~= Seq::<Seq<Seq<char>>>::empty());
    }
    add_targets(d, a, &mut acc);
    proof {
        assert forall|k: int| 0 <= k < acc@.len() implies reaches(
            dm,
            a@,
            crate::ast::names_view(acc@)[k],
        ) by {
            assert(edge(dm, a@, crate::ast::names_view(acc@)[k]));
            assert(reach_n(dm, a@, crate::ast::names_view(acc@)[k], 1));
        }
        assert forall|k: int| 0 <= k < acc@.len() implies t.contains(
            crate::ast::names_view(acc@)[k],
        ) by {
            lemma_edge_target(dm, a@, crate::ast::names_view(acc@)[k]);
        }
        lemma_acc_bound(dm, crate::ast::names_view(acc@));
    }
    let mut mi: usize = 0;
    while mi < acc.len()
        invariant
            dm == d@,
            t == targets_all(dm).to_set(),
            mi <= acc@.len(),
            acc@.len() <= t.len(),
            crate::ast::names_view(acc@).no_duplicates(),
            forall|k: int|
                0 <= k < acc@.len() ==> reaches(dm, a@, crate::ast::names_view(acc@)[k]),
            forall|k: int|
                0 <= k < acc@.len() ==> t.contains(crate::ast::names_view(acc@)[k]),
            forall|b: Seq<Seq<char>>| edge(dm, a@, b) ==> crate::ast::names_view(acc@).contains(b),
            forall|k: int, b: Seq<Seq<char>>|
                0 <= k < mi as int && edge(dm, crate::ast::names_view(acc@)[k], b)
                    ==> crate::ast::names_view(acc@).contains(b),
        decreases t.len() + 1 - acc@.len(), acc@.len() - mi,
    {
        let m = acc[mi].duplicate();
        let ghost pre = crate::ast::names_view(acc@);
        add_targets(d, &m, &mut acc);
        proof {
            let post = crate::ast::names_view(acc@);
            assert forall|x: Seq<Seq<char>>| pre.contains(x) implies post.contains(x) by {
                let xi = choose|xi: int| 0 <= xi < pre.len() && pre[xi] == x;
                assert(post[xi] == x);
            }
            assert(m@ == pre[mi as int]);
            assert forall|k: int| 0 <= k < post.len() implies reaches(dm, a@, post[k]) && t.contains(
                post[k],
            ) by {
                if k < pre.len() {
                    assert(post[k] == pre[k]);
                } else {
                    assert(edge(dm, m@, post[k]));
                    lemma_reach_step(dm, a@, m@, post[k]);
                    lemma_edge_target(dm, m@, post[k]);
                }
            }
            lemma_acc_bound(dm, post);
            assert forall|k: int, b: Seq<Seq<char>>|
                0 <= k < (mi + 1) as int && edge(dm, post[k], b) implies post.contains(b) by {
                if k < mi as int {
                    assert(post[k] == pre[k]);
                    assert(pre.contains(b));
                } else {
                    assert(post[k] == pre[mi as int]);
                    assert(edge(dm, m@, b));
                }
            }
        }
        mi = mi + 1;
    }
    proof {
        let rm = crate::ast::names_view(acc@);
        assert forall|b: Seq<Seq<char>>| rm.contains(b) implies reaches(dm, a@, b) by {
            let k = choose|k: int| 0 <= k < rm.len() && rm[k] == b;
        }
        assert forall|b: Seq<Seq<char>>| reaches(dm, a@, b) implies rm.contains(b) by {
            let n = choose|n: nat| reach_n(dm, a@, b, n);
            assert forall|mm: Seq<Seq<char>>, x: Seq<Seq<char>>|
                rm.contains(mm) && edge(dm, mm, x) implies rm.contains(x) by {
                let k = choose|k: int| 0 <= k < rm.len() && rm[k] == mm;
            }
            lemma_closed_complete(dm, a@, rm, b, n);
        }
    }
    acc
}

/// Whether `n` names a locally declared or stubbed interface.
pub fn known_iface_x(d: &JavaDefinitions, n: &JavaName) -> (b: bool)
    ensures
        b == known_iface(d@, n@),
{
    let ghost dm = d@;
    let mut i: usize = 0;
    while i < d.definitions.len()
        invariant
            dm == d@,
            i <= d.definitions@.len(),
            forall|k: int|
                0 <= k < i as int ==> !((#[trigger] dm.defs[k]).name == n@ && dm.defs[k].kind
                    is Interface),
        decreases d.definitions@.len() - i,
    {
        proof {
            assert(dm.defs[i as int] == d.definitions@[i as int]@);
        }
        let hit = match &d.definitions[i].definition {
            JavaDefinitionKind::Interface(_) => d.definitions[i].name.same_as(n),
            _ => false,
        };
        if hit {
            return true;
        }
        i = i + 1;
    }
    let mut j: usize = 0;
    while j < d.metadata.definitions.len()
        invariant
            dm == d@,
            j <= d.metadata.definitions@.len(),
            forall|k: int|
                0 <= k < dm.defs.len() ==> !((#[trigger] dm.defs[k]).name == n@ && dm.defs[k].kind
                    is Interface),
            forall|k: int|
                0 <= k < j as int ==> !((#[trigger] dm.meta[k]).name == n@ && dm.meta[k].kind
                    is Interface),
        decreases d.metadata.definitions@.len() - j,
    {
        proof {
            assert(dm.meta[j as int] == d.metadata.definitions@[j as int]@);
        }
        let hit = match &d.metadata.definitions[j].definition {
            JavaDefinitionMetadataKind::Interface(_) => d.metadata.definitions[j].name.same_as(n),
            _ => false,
        };
        if hit {
            return true;
        }
        j = j + 1;
    }
    proof {
        if known_iface(dm, n@) {
            assert(false);
        }
    }
    false
}

/// The implicit root object type, as a name value.
pub fn root_java_name() -> (r: JavaName)
    ensures
        r@ == root_name(),
        r.wf(),
{
    let mut v: Vec<String> = Vec::new();
    v.push("java".to_owned());
    v.push("lang".to_owned());
    v.push("Object".to_owned());
    let r = JavaName { segments: v };
    proof {
        reveal_strlit("java");
        reveal_strlit("lang");
        reveal_strlit("Object");
        assert("java"@ =~= seq!['j', 'a', 'v', 'a']);
        assert("lang"@ =~= seq!['l', 'a', 'n', 'g']);
        assert("Object"@ =~= seq!['O', 'b', 'j', 'e', 'c', 't']);
        assert(r@ =~= root_name());
        assert forall|i: int| 0 <= i < r@.len() implies crate::name::is_ident_seq(
            #[trigger] r@[i],
        ) by {
            assert(r@[0] == seq!['j', 'a', 'v', 'a']);
            assert(r@[1] == seq!['l', 'a', 'n', 'g']);
            assert(r@[2] == seq!['O', 'b', 'j', 'e', 'c', 't']);
        }
    }
    r
}

/// Whether `n` is the implicit root or names any declaration or stub.
pub fn known_any_x(d: &JavaDefinitions, n: &JavaName) -> (b: bool)
    ensures
        b == known_any(d@, n@),
{
    let ghost dm = d@;
    let root = root_java_name();
    if n.same_as(&root) {
        return true;
    }
    let mut i: usize = 0;
    while i < d.definitions.len()
        invariant
            dm == d@,
            i <= d.definitions@.len(),
            forall|k: int| 0 <= k < i as int ==> (#[trigger] dm.defs[k]).name != n@,
        decreases d.definitions@.len() - i,
    {
        proof {
            assert(dm.defs[i as int] == d.definitions@[i as int]@);
        }
        if d.definitions[i].name.same_as(n) {
            return true;
        }
        i = i + 1;
    }
    let mut j: usize = 0;
    while j < d.metadata.definitions.len()
        invariant
            dm == d@,
            j <= d.metadata.definitions@.len(),
            forall|k: int| 0 <= k < dm.defs.len() ==> (#[trigger] dm.defs[k]).name != n@,
            forall|k: int| 0 <= k < j as int ==> (#[trigger] dm.meta[k]).name != n@,
        decreases d.metadata.definitions@.len() - j,
    {
        proof {
            assert(dm.meta[j as int] == d.metadata.definitions@[j as int]@);
        }
        if d.metadata.definitions[j].name.same_as(n) {
            return true;
        }
        j = j + 1;
    }
    proof {
        if known_any(dm, n@) {
            assert(false);
        }
    }
    false
}

/// The recorded superclass of `c`, if any.
pub fn lookup_super_x(d: &JavaDefinitions, c: &JavaName) -> (r: Option<JavaName>)
    ensures
        crate::ast::opt_name_view(r) == sup_of(d@, c@),
{
    let ghost dm = d@;
    let mut j: usize = d.metadata.definitions.len();
    proof {
        assert(dm.meta.take(j as int) =~= dm.meta);
    }
    while j > 0
        invariant
            dm == d@,
            j <= d.metadata.definitions@.len(),
            lookup_in_stubs(dm.meta, c@) == lookup_in_stubs(dm.meta.take(j as int), c@),
        decreases j,
    {
        proof {
            assert(dm.meta[j - 1] == d.metadata.definitions@[j - 1]@);
            assert(dm.meta.take(j as int).last() == dm.meta[j - 1]);
            assert(dm.meta.take(j as int).drop_last() =~= dm.meta.take(j - 1));
        }
        let hit = match &d.metadata.definitions[j - 1].definition {
            JavaDefinitionMetadataKind::Class(_) => d.metadata.definitions[j - 1].name.same_as(c),
            _ => false,
        };
        if hit {
            match &d.metadata.definitions[j - 1].definition {
                JavaDefinitionMetadataKind::Class(cm) => {
                    let r = match &cm.extends {
                        Option::Some(e) => Some(e.duplicate()),
                        Option::None => Some(root_java_name()),
                    };
                    proof {
                        assert(crate::ast::opt_name_view(r) == sup_of(dm, c@));
                    }
                    return r;
                },
                _ => {
                    proof {
                        assert(false);
                    }
                },
            }
        }
        j = j - 1;
    }
    proof {
        assert(dm.meta.take(0) =~= Seq::<crate::ast::StubModel>::empty());
        assert(lookup_in_stubs(dm.meta, c@) is None);
    }
    let mut i: usize = d.definitions.len();
    proof {
        assert(dm.defs.take(i as int) =~= dm.defs);
    }
    while i > 0
        invariant
            dm == d@,
            i <= d.definitions@.len(),
            lookup_in_stubs(dm.meta, c@) is None,
            lookup_in_defs(dm.defs, c@) == lookup_in_defs(dm.defs.take(i as int), c@),
        decreases i,
    {
        proof {
            assert(dm.defs[i - 1] == d.definitions@[i - 1]@);
            assert(dm.defs.take(i as int).last() == dm.defs[i - 1]);
            assert(dm.defs.take(i as int).drop_last() =~= dm.defs.take(i - 1));
        }
        let hit = match &d.definitions[i - 1].definition {
            JavaDefinitionKind::Class(_) => d.definitions[i - 1].name.same_as(c),
            _ => false,
        };
        if hit {
            match &d.definitions[i - 1].definition {
                JavaDefinitionKind::Class(cm) => {
                    let r = match &cm.extends {
                        Option::Some(e) => Some(e.duplicate()),
                        Option::None => Some(root_java_name()),
                    };
                    proof {
                        assert(crate::ast::opt_name_view(r) == sup_of(dm, c@));
                    }
                    return r;
                },
                _ => {
                    proof {
                        assert(false);
                    }
                },
            }
        }
        i = i - 1;
    }
    proof {
        assert(dm.defs.take(0) =~= Seq::<crate::ast::DefModel>::empty());
        assert(sup_of(dm, c@) is None);
    }
    None
}

/// The superclass chain of `c`, walked with the given fuel.
fn chain_walk(d: &JavaDefinitions, c: &JavaName, fuel: u128) -> (r: Option<Vec<JavaName>>)
    ensures
        match r {
            Option::Some(v) => sp_chain(d@, c@, fuel as nat) == Some(
                crate::ast::names_view(v@),
            ),
            Option::None => sp_chain(d@, c@, fuel as nat) is None,
        },
    decreases fuel,
{
    match lookup_super_x(d, c) {
        Option::None => {
            let v: Vec<JavaName> = Vec::new();
            proof {
                assert(crate::ast::names_view(v@) =~= Seq::<Seq<Seq<char>>>::empty());
            }
            Some(v)
        },
        Option::Some(s) => {
            if fuel == 0 {
                None
            } else {
                match chain_walk(d, &s, fuel - 1) {
                    Option::Some(mut rest) => {
                        crate::ast::prepend_name(&mut rest, s);
                        Some(rest)
                    },
                    Option::None => None,
                }
            }
        },
    }
}

/// The ancestor chain of a class, or nothing when the extension chain is
/// cyclic.
pub fn class_chain_x(d: &JavaDefinitions, c: &JavaName) -> (r: Option<Vec<JavaName>>)
    ensures
        match r {
            Option::Some(v) => class_chain(d@, c@) == Some(crate::ast::names_view(v@)),
            Option::None => class_chain(d@, c@) is None,
        },
{
    let fuel: u128 = d.definitions.len() as u128 + d.metadata.definitions.len() as u128 + 1;
    proof {
        assert(fuel as nat == chain_fuel(d@));
    }
    chain_walk(d, c, fuel)
}

/// Lexicographic order is total.
proof fn lemma_lex_total(a: Seq<char>, b: Seq<char>)
    ensures
        lex_le(a, b) || lex_le(b, a),
    decreases a.len(),
{
    if a.len() > 0 && b.len() > 0 && a[0] == b[0] {
        lemma_lex_total(a.drop_first(), b.drop_first());
    }
}

/// Insert a name into a sorted vector, keeping it sorted.
#[verifier::rlimit(100)]
fn sorted_insert(v: &mut Vec<JavaName>, n: JavaName)
    requires
        sorted_names(crate::ast::names_view(old(v)@)),
    ensures
        sorted_names(crate::ast::names_view(final(v)@)),
        final(v)@.len() == old(v)@.len() + 1,
        forall|b: Seq<Seq<char>>|
            crate::ast::names_view(final(v)@).contains(b) <==> (crate::ast::names_view(
                old(v)@,
            ).contains(b) || b == n@),
        crate::ast::names_view(old(v)@).no_duplicates() && !crate::ast::names_view(
            old(v)@,
        ).contains(n@) ==> crate::ast::names_view(final(v)@).no_duplicates(),
{
    let ghost pre = crate::ast::names_view(v@);
    let ghost nm = n@;
    let mut p: usize = 0;
    while p < v.len() && v[p].le(&n)
        invariant
            p <= v@.len(),
            forall|k: int| 0 <= k < p as int ==> lex_le(dotted(v@[k]@), dotted(n@)),
            pre == crate::ast::names_view(v@),
        decreases v@.len() - p,
    {
        p = p + 1;
    }
    proof {
        assert forall|k: int| 0 <= k < p as int implies lex_le(
            dotted(pre[k]),
            dotted(nm),
        ) by {
            assert(pre[k] == v@[k]@);
        }
        if p < v@.len() {
            assert(pre[p as int] == v@[p as int]@);
            lemma_lex_total(dotted(pre[p as int]), dotted(nm));
        }
    }
    v.insert(p, n);
    proof {
        let post = crate::ast::names_view(v@);
        assert forall|k: int| 0 <= k < post.len() implies post[k] == (pre.take(p as int) + seq![nm]
            + pre.skip(p as int))[k] by {
            if k < p as int {
                assert(v@[k] == old(v)@.insert(p as int, n)[k]);
                assert(v@[k] == old(v)@[k]);
            } else if k == p as int {
                assert(v@[k] == n);
            } else {
                assert(v@[k] == old(v)@[k - 1]);
            }
        }
        assert(post =~= pre.take(p as int) + seq![nm] + pre.skip(p as int));
        assert forall|b: Seq<Seq<char>>| post.contains(b) implies (pre.contains(b) || b == nm) by {
            let k = choose|k: int| 0 <= k < post.len() && post[k] == b;
            if k < p as int {
                assert(pre[k] == b);
            } else if k > p as int {
                assert(pre[k - 1] == b);
            }
        }
        assert forall|b: Seq<Seq<char>>| pre.contains(b) implies post.contains(b) by {
            let k = choose|k: int| 0 <= k < pre.len() && pre[k] == b;
            if k < p as int {
                assert(post[k] == b);
            } else {
                assert(post[k + 1] == b);
            }
        }
        assert(post.contains(nm)) by {
            assert(post[p as int] == nm);
        }
        assert forall|i: int| 0 <= i < post.len() - 1 implies lex_le(
            dotted(#[trigger] post[i]),
            dotted(post[i + 1]),
        ) by {
            if i + 1 < p as int {
                assert(post[i] == pre[i] && post[i + 1] == pre[i + 1]);
            } else if i + 1 == p as int {
                assert(post[i] == pre[i]);
                assert(post[i + 1] == nm);
            } else if i == p as int {
                assert(post[i] == nm);
                assert(post[i + 1] == pre[i]);
            } else {
                assert(post[i] == pre[i - 1] && post[i + 1] == pre[i]);
            }
        }
        if pre.no_duplicates() && !pre.contains(nm) {
            assert forall|i: int, j: int|
                0 <= i < post.len() && 0 <= j < post.len() && i != j implies post[i] != post[j] by {
                let pi = if i < p as int { post[i] == pre[i] } else { true };
                if i == p as int {
                    if post[j] == nm {
                        if j < p as int {
                            assert(pre[j] == nm);
                        } else {
                            assert(pre[j - 1] == nm);
                        }
                    }
                } else if j == p as int {
                    if post[i] == nm {
                        if i < p as int {
                            assert(pre[i] == nm);
                        } else {
                            assert(pre[i - 1] == nm);
                        }
                    }
                } else {
                    let ii = if i < p as int { i } else { i - 1 };
                    let jj = if j < p as int { j } else { j - 1 };
                    assert(post[i] == pre[ii] && post[j] == pre[jj]);
                }
            }
        }
    }
}

/// Put one generated method in front of the vector.
fn prepend_genm(v: &mut Vec<ClassMethodGeneratorDefinition>, m: ClassMethodGeneratorDefinition)
    ensures
        gen_methods_view(final(v)@) == seq![m@] + gen_methods_view(old(v)@),
{
    let ghost mm = m@;
    let ghost vm = gen_methods_view(v@);
    v.insert(0, m);
    proof {
        assert(gen_methods_view(v@) =~= seq![mm] + vm);
    }
}

/// Put one generated constructor in front of the vector.
fn prepend_genc(v: &mut Vec<ConstructorGeneratorDefinition>, c: ConstructorGeneratorDefinition)
    ensures
        gen_ctors_view(final(v)@) == seq![c@] + gen_ctors_view(old(v)@),
{
    let ghost cm = c@;
    let ghost vm = gen_ctors_view(v@);
    v.insert(0, c);
    proof {
        assert(gen_ctors_view(v@) =~= seq![cm] + vm);
    }
}

/// The binding names of an argument vector.
fn arg_names_x(args: &Vec<MethodArgument>) -> (r: Vec<String>)
    ensures
        strings_view(r@) == arg_names_of(crate::ast::args_view(args@)),
{
    let mut out: Vec<String> = Vec::new();
    let mut i: usize = 0;
    while i < args.len()
        invariant
            i <= args@.len(),
            out@.len() == i as int,
            forall|k: int| 0 <= k < i as int ==> out@[k]@ == args@[k]@.name,
        decreases args@.len() - i,
    {
        out.push(args[i].name.clone());
        i = i + 1;
    }
    proof {
        assert(strings_view(out@) =~= arg_names_of(crate::ast::args_view(args@)));
    }
    out
}

/// The types of an argument vector.
fn arg_types_x(args: &Vec<MethodArgument>) -> (r: Vec<JavaName>)
    ensures
        crate::ast::names_view(r@) == arg_types_of(crate::ast::args_view(args@)),
{
    let mut out: Vec<JavaName> = Vec::new();
    let mut i: usize = 0;
    while i < args.len()
        invariant
            i <= args@.len(),
            out@.len() == i as int,
            forall|k: int| 0 <= k < i as int ==> out@[k]@ == args@[k]@.ty,
        decreases args@.len() - i,
    {
        out.push(args[i].data_type.duplicate());
        i = i + 1;
    }
    proof {
        assert(crate::ast::names_view(out@) =~= arg_types_of(crate::ast::args_view(args@)));
    }
    out
}

/// The generated form of one method.
fn gen_method(m: &JavaClassMethod) -> (r: ClassMethodGeneratorDefinition)
    ensures
        r@ == conv_method(m@),
{
    ClassMethodGeneratorDefinition {
        name: m.name.clone(),
        java_name: m.name.clone(),
        return_type: m.return_type.duplicate(),
        argument_names: arg_names_x(&m.arguments),
        argument_types: arg_types_x(&m.arguments),
        public: m.public,
    }
}

/// The generated form of one constructor.
fn gen_ctor(c: &JavaConstructor) -> (r: ConstructorGeneratorDefinition)
    ensures
        r@ == conv_ctor(c@),
{
    ConstructorGeneratorDefinition {
        name: "new".to_owned(),
        argument_names: arg_names_x(&c.arguments),
        argument_types: arg_types_x(&c.arguments),
        public: c.public,
    }
}

/// The generated methods with the given staticness, from `i` on.
fn gen_methods(ms: &Vec<JavaClassMethod>, i: usize, want_static: bool) -> (r: Vec<
    ClassMethodGeneratorDefinition,
>)
    requires
        i <= ms@.len(),
    ensures
        gen_methods_view(r@) == conv_methods_from(
            crate::ast::methods_view(ms@),
            i as int,
            want_static,
        ),
    decreases ms@.len() - i,
{
    if i >= ms.len() {
        let v: Vec<ClassMethodGeneratorDefinition> = Vec::new();
        proof {
            assert(gen_methods_view(v@) =~= Seq::<GenMethodModel>::empty());
        }
        return v;
    }
    let mut rest = gen_methods(ms, i + 1, want_static);
    proof {
        assert(crate::ast::methods_view(ms@)[i as int] == ms@[i as int]@);
    }
    if ms[i].is_static == want_static {
        prepend_genm(&mut rest, gen_method(&ms[i]));
    }
    rest
}

/// The generated constructors, from `i` on.
fn gen_ctors(cs: &Vec<JavaConstructor>, i: usize) -> (r: Vec<ConstructorGeneratorDefinition>)
    requires
        i <= cs@.len(),
    ensures
        gen_ctors_view(r@) == conv_ctors_from(crate::ast::ctors_view(cs@), i as int),
    decreases cs@.len() - i,
{
    if i >= cs.len() {
        let v: Vec<ConstructorGeneratorDefinition> = Vec::new();
        proof {
            assert(gen_ctors_view(v@) =~= Seq::<GenCtorModel>::empty());
        }
        return v;
    }
    let mut rest = gen_ctors(cs, i + 1);
    proof {
        assert(crate::ast::ctors_view(cs@)[i as int] == cs@[i as int]@);
    }
    prepend_genc(&mut rest, gen_ctor(&cs[i]));
    rest
}

/// The deduplicated, sorted resolved implemented-interface list.
#[verifier::rlimit(100)]
pub fn resolve_implements(d: &JavaDefinitions, impls: &Vec<JavaName>) -> (r: Result<
    Vec<JavaName>,
    GenError,
>)
    ensures
        match r {
            Ok(v) => {
                &&& forall|k: int|
                    0 <= k < crate::ast::names_view(impls@).len() ==> known_iface(
                        d@,
                        #[trigger] crate::ast::names_view(impls@)[k],
                    )
                &&& sorted_names(crate::ast::names_view(v@))
                &&& crate::ast::names_view(v@).no_duplicates()
                &&& forall|b: Seq<Seq<char>>|
                    crate::ast::names_view(v@).contains(b) <==> impl_set(
                        d@,
                        crate::ast::names_view(impls@),
                    ).contains(b)
            },
            Err(e) => e.kind == crate::error::ErrorKind::UnresolvedName && exists|k: int|
                0 <= k < crate::ast::names_view(impls@).len() && !known_iface(
                    d@,
                    #[trigger] crate::ast::names_view(impls@)[k],
                ),
        },
{
    let ghost dm = d@;
    let ghost im = crate::ast::names_view(impls@);
    let mut out: Vec<JavaName> = Vec::new();
    proof {
        assert(crate::ast::names_view(out@) =~= Seq::<Seq<Seq<char>>>::empty());
    }
    let mut k: usize = 0;
    while k < impls.len()
        invariant
            dm == d@,
            im == crate::ast::names_view(impls@),
            k <= impls@.len(),
            forall|j: int| 0 <= j < k as int ==> known_iface(dm, #[trigger] im[j]),
            sorted_names(crate::ast::names_view(out@)),
            crate::ast::names_view(out@).no_duplicates(),
            forall|b: Seq<Seq<char>>|
                crate::ast::names_view(out@).contains(b) <==> exists|j: int|
                    0 <= j < k as int && (#[trigger] im[j] == b || reaches(dm, im[j], b)),
        decreases impls@.len() - k,
    {
        proof {
            assert(im[k as int] == impls@[k as int]@);
        }
        if !known_iface_x(d, &impls[k]) {
            proof {
                assert(!known_iface(dm, im[k as int]));
            }
            return Err(crate::error::err(crate::error::ErrorKind::UnresolvedName, ""));
        }
        let ghost out_a = crate::ast::names_view(out@);
        if !contains_name(&out, &impls[k]) {
            sorted_insert(&mut out, impls[k].duplicate());
        }
        let ghost out_b = crate::ast::names_view(out@);
        proof {
            assert(forall|b: Seq<Seq<char>>|
                out_b.contains(b) <==> (out_a.contains(b) || b == im[k as int]));
        }
        let cl = closure_of(d, &impls[k]);
        let mut q: usize = 0;
        while q < cl.len()
            invariant
                dm == d@,
                im == crate::ast::names_view(impls@),
                k < impls@.len(),
                im[k as int] == impls@[k as int]@,
                q <= cl@.len(),
                forall|b: Seq<Seq<char>>|
                    crate::ast::names_view(cl@).contains(b) <==> reaches(dm, im[k as int], b),
                sorted_names(crate::ast::names_view(out@)),
                crate::ast::names_view(out@).no_duplicates(),
                forall|b: Seq<Seq<char>>|
                    crate::ast::names_view(out@).contains(b) <==> (out_b.contains(b) || exists|
                        qq: int,
                    | 0 <= qq < q as int && crate::ast::names_view(cl@)[qq] == b),
            decreases cl@.len() - q,
        {
            proof {
                assert(crate::ast::names_view(cl@)[q as int] == cl@[q as int]@);
            }
            let ghost out_c = crate::ast::names_view(out@);
            if !contains_name(&out, &cl[q]) {
                sorted_insert(&mut out, cl[q].duplicate());
            }
            proof {
                let out_d = crate::ast::names_view(out@);
                assert forall|b: Seq<Seq<char>>|
                    out_d.contains(b) implies (out_b.contains(b) || exists|qq: int|
                    0 <= qq < (q + 1) as int && crate::ast::names_view(cl@)[qq] == b) by {
                    if out_c.contains(b) {
                    } else {
                        assert(b == crate::ast::names_view(cl@)[q as int]);
                    }
                }
                assert forall|b: Seq<Seq<char>>|
                    (out_b.contains(b) || exists|qq: int|
                        0 <= qq < (q + 1) as int && crate::ast::names_view(cl@)[qq]
                            == b) implies out_d.contains(b) by {
                    if out_b.contains(b) {
                    } else {
                        let qq = choose|qq: int|
                            0 <= qq < (q + 1) as int && crate::ast::names_view(cl@)[qq] == b;
                        if qq < q as int {
                        } else {
                            assert(b == crate::ast::names_view(cl@)[q as int]);
                        }
                    }
                }
            }
            q = q + 1;
        }
        proof {
            let out_e = crate::ast::names_view(out@);
            let clv = crate::ast::names_view(cl@);
            assert forall|b: Seq<Seq<char>>| out_e.contains(b) implies exists|j: int|
                0 <= j < (k + 1) as int && (#[trigger] im[j] == b || reaches(dm, im[j], b)) by {
                if out_b.contains(b) {
                    if out_a.contains(b) {
                        let j = choose|j: int|
                            0 <= j < k as int && (#[trigger] im[j] == b || reaches(dm, im[j], b));
                        assert(0 <= j < (k + 1) as int && (im[j] == b || reaches(dm, im[j], b)));
                    } else {
                        assert(im[k as int] == b || reaches(dm, im[k as int], b));
                    }
                } else {
                    let qq = choose|qq: int| 0 <= qq < clv.len() && clv[qq] == b;
                    assert(clv.contains(b));
                    assert(im[k as int] == b || reaches(dm, im[k as int], b));
                }
            }
            assert forall|j: int| 0 <= j < (k + 1) as int implies out_e.contains(
                #[trigger] im[j],
            ) by {
                if j < k as int {
                    assert(out_a.contains(im[j]));
                } else {
                    assert(out_b.contains(im[k as int]));
                }
            }
            assert forall|j: int, b: Seq<Seq<char>>|
                0 <= j < (k + 1) as int && #[trigger] reaches(dm, im[j], b) implies out_e.contains(
                b,
            ) by {
                if j < k as int {
                    assert(out_a.contains(b));
                } else {
                    assert(clv.contains(b));
                    let qq = choose|qq: int| 0 <= qq < clv.len() && clv[qq] == b;
                }
            }
            assert forall|b: Seq<Seq<char>>|
                (exists|j: int|
                    0 <= j < (k + 1) as int && (#[trigger] im[j] == b || reaches(
                        dm,
                        im[j],
                        b,
                    ))) implies out_e.contains(b) by {
                let j = choose|j: int|
                    0 <= j < (k + 1) as int && (#[trigger] im[j] == b || reaches(dm, im[j], b));
                if im[j] == b {
                    assert(out_e.contains(im[j]));
                } else {
                    assert(reaches(dm, im[j], b));
                }
            }
        }
        k = k + 1;
    }
    proof {
        let ov = crate::ast::names_view(out@);
        assert forall|b: Seq<Seq<char>>| ov.contains(b) implies impl_set(dm, im).contains(b) by {
            let j = choose|j: int|
                0 <= j < im.len() && (#[trigger] im[j] == b || reaches(dm, im[j], b));
            if im[j] == b {
                assert(im.contains(b));
            }
        }
        assert forall|b: Seq<Seq<char>>| impl_set(dm, im).contains(b) implies ov.contains(b) by {
            if im.to_set().contains(b) {
                let j = choose|j: int| 0 <= j < im.len() && im[j] == b;
                assert(0 <= j < im.len() && (im[j] == b || reaches(dm, im[j], b)));
            } else {
                let j = choose|j: int| 0 <= j < im.len() && reaches(dm, #[trigger] im[j], b);
                assert(0 <= j < im.len() && (im[j] == b || reaches(dm, im[j], b)));
            }
        }
    }
    Ok(out)
}

/// Whether some inheritance-position name fails to resolve.
#[verifier::rlimit(100)]
fn find_unresolved(d: &JavaDefinitions) -> (bad: Option<GenError>)
    ensures
        (bad is Some) == sp_unresolved(d@),
        bad is Some ==> bad->0.kind == ErrorKind::UnresolvedName,
{
    let ghost dm = d@;
    let mut i: usize = 0;
    while i < d.definitions.len()
        invariant
            dm == d@,
            i <= d.definitions@.len(),
            forall|ii: int, kk: int|
                0 <= ii < i as int && dm.defs[ii].kind is Interface && 0 <= kk
                    < dm.defs[ii].kind->Interface_0.extends.len() ==> known_iface(
                    dm,
                    #[trigger] dm.defs[ii].kind->Interface_0.extends[kk],
                ),
            forall|ii: int, kk: int|
                0 <= ii < i as int && dm.defs[ii].kind is Class && 0 <= kk
                    < dm.defs[ii].kind->Class_0.implements.len() ==> known_iface(
                    dm,
                    #[trigger] dm.defs[ii].kind->Class_0.implements[kk],
                ),
            forall|ii: int|
                0 <= ii < i as int && (#[trigger] dm.defs[ii]).kind is Class
                    && dm.defs[ii].kind->Class_0.extends is Some ==> known_any(
                    dm,
                    dm.defs[ii].kind->Class_0.extends->0,
                ),
        decreases d.definitions@.len() - i,
    {
        proof {
            assert(dm.defs[i as int] == d.definitions@[i as int]@);
        }
        match &d.definitions[i].definition {
            JavaDefinitionKind::Interface(f) => {
                let ghost ext = dm.defs[i as int].kind->Interface_0.extends;
                let mut k: usize = 0;
                while k < f.extends.len()
                    invariant
                        dm == d@,
                        k <= f.extends@.len(),
                        (i as int) < d.definitions@.len(),
                        dm.defs[i as int] == d.definitions@[i as int]@,
                        d.definitions@[i as int].definition == JavaDefinitionKind::Interface(*f),
                        ext == crate::ast::names_view(f.extends@),
                        ext == dm.defs[i as int].kind->Interface_0.extends,
                        forall|kk: int| 0 <= kk < k as int ==> known_iface(dm, #[trigger] ext[kk]),
                    decreases f.extends@.len() - k,
                {
                    proof {
                        assert(ext[k as int] == f.extends@[k as int]@);
                    }
                    if !known_iface_x(d, &f.extends[k]) {
                        proof {
                            assert(!known_iface(dm, ext[k as int]));
                            assert(0 <= (i as int) && (i as int) < dm.defs.len());
                            assert(dm.defs[i as int].kind is Interface);
                            assert(ext.len() == f.extends@.len());
                        }
                        let what = f.extends[k].with_dots();
                        return Some(crate::error::err(ErrorKind::UnresolvedName, what.as_str()));
                    }
                    k = k + 1;
                }
                proof {
                    assert(ext.len() == f.extends@.len());
                }
            },
            JavaDefinitionKind::Class(c) => {
                let ghost imv = dm.defs[i as int].kind->Class_0.implements;
                let mut k: usize = 0;
                while k < c.implements.len()
                    invariant
                        dm == d@,
                        k <= c.implements@.len(),
                        (i as int) < d.definitions@.len(),
                        dm.defs[i as int] == d.definitions@[i as int]@,
                        d.definitions@[i as int].definition == JavaDefinitionKind::Class(*c),
                        imv == crate::ast::names_view(c.implements@),
                        imv == dm.defs[i as int].kind->Class_0.implements,
                        forall|kk: int| 0 <= kk < k as int ==> known_iface(dm, #[trigger] imv[kk]),
                    decreases c.implements@.len() - k,
                {
                    proof {
                        assert(imv[k as int] == c.implements@[k as int]@);
                    }
                    if !known_iface_x(d, &c.implements[k]) {
                        proof {
                            assert(!known_iface(dm, imv[k as int]));
                            assert(0 <= (i as int) && (i as int) < dm.defs.len());
                            assert(dm.defs[i as int].kind is Class);
                            assert(imv.len() == c.implements@.len());
                        }
                        let what = c.implements[k].with_dots();
                        return Some(crate::error::err(ErrorKind::UnresolvedName, what.as_str()));
                    }
                    k = k + 1;
                }
                proof {
                    assert(imv.len() == c.implements@.len());
                }
                match &c.extends {
                    Option::Some(e) => {
                        if !known_any_x(d, e) {
                            proof {
                                assert(dm.defs[i as int].kind->Class_0.extends->0 == e@);
                                assert(0 <= (i as int) && (i as int) < dm.defs.len());
                            }
                            let what = e.with_dots();
                            return Some(crate::error::err(ErrorKind::UnresolvedName, what.as_str()));
                        }
                    },
                    Option::None => {},
                }
            },
        }
        i = i + 1;
    }
    let mut j: usize = 0;
    while j < d.metadata.definitions.len()
        invariant
            dm == d@,
            j <= d.metadata.definitions@.len(),
            forall|ii: int, kk: int|
                0 <= ii < dm.defs.len() && dm.defs[ii].kind is Interface && 0 <= kk
                    < dm.defs[ii].kind->Interface_0.extends.len() ==> known_iface(
                    dm,
                    #[trigger] dm.defs[ii].kind->Interface_0.extends[kk],
                ),
            forall|ii: int, kk: int|
                0 <= ii < dm.defs.len() && dm.defs[ii].kind is Class && 0 <= kk
                    < dm.defs[ii].kind->Class_0.implements.len() ==> known_iface(
                    dm,
                    #[trigger] dm.defs[ii].kind->Class_0.implements[kk],
                ),
            forall|ii: int|
                0 <= ii < dm.defs.len() && (#[trigger] dm.defs[ii]).kind is Class
                    && dm.defs[ii].kind->Class_0.extends is Some ==> known_any(
                    dm,
                    dm.defs[ii].kind->Class_0.extends->0,
                ),
            forall|ii: int, kk: int|
                0 <= ii < j as int && dm.meta[ii].kind is Interface && 0 <= kk
                    < dm.meta[ii].kind->Interface_0.len() ==> known_iface(
                    dm,
                    #[trigger] dm.meta[ii].kind->Interface_0[kk],
                ),
        decreases d.metadata.definitions@.len() - j,
    {
        proof {
            assert(dm.meta[j as int] == d.metadata.definitions@[j as int]@);
        }
        match &d.metadata.definitions[j].definition {
            JavaDefinitionMetadataKind::Interface(f) => {
                let ghost ext = dm.meta[j as int].kind->Interface_0;
                let mut k: usize = 0;
                while k < f.extends.len()
                    invariant
                        dm == d@,
                        k <= f.extends@.len(),
                        (j as int) < d.metadata.definitions@.len(),
                        dm.meta[j as int] == d.metadata.definitions@[j as int]@,
                        d.metadata.definitions@[j as int].definition
                            == JavaDefinitionMetadataKind::Interface(*f),
                        ext == crate::ast::names_view(f.extends@),
                        ext == dm.meta[j as int].kind->Interface_0,
                        forall|kk: int| 0 <= kk < k as int ==> known_iface(dm, #[trigger] ext[kk]),
                    decreases f.extends@.len() - k,
                {
                    proof {
                        assert(ext[k as int] == f.extends@[k as int]@);
                    }
                    if !known_iface_x(d, &f.extends[k]) {
                        proof {
                            assert(!known_iface(dm, ext[k as int]));
                            assert(0 <= (j as int) && (j as int) < dm.meta.len());
                            assert(dm.meta[j as int].kind is Interface);
                            assert(ext.len() == f.extends@.len());
                        }
                        let what = f.extends[k].with_dots();
                        return Some(crate::error::err(ErrorKind::UnresolvedName, what.as_str()));
                    }
                    k = k + 1;
                }
                proof {
                    assert(ext.len() == f.extends@.len());
                }
            },
            JavaDefinitionMetadataKind::Class(_) => {},
        }
        j = j + 1;
    }
    proof {
        if sp_unresolved(dm) {
            assert(false);
        }
    }
    None
}

/// Whether some interface transitively extends itself.
fn find_iface_cycle(d: &JavaDefinitions) -> (bad: Option<GenError>)
    ensures
        (bad is Some) == has_iface_cycle(d@),
        bad is Some ==> bad->0.kind == ErrorKind::CyclicInterface,
{
    let ghost dm = d@;
    let mut i: usize = 0;
    while i < d.definitions.len()
        invariant
            dm == d@,
            i <= d.definitions@.len(),
            forall|ii: int|
                0 <= ii < i as int && (#[trigger] dm.defs[ii]).kind is Interface ==> !reaches(
                    dm,
                    dm.defs[ii].name,
                    dm.defs[ii].name,
                ),
        decreases d.definitions@.len() - i,
    {
        proof {
            assert(dm.defs[i as int] == d.definitions@[i as int]@);
        }
        match &d.definitions[i].definition {
            JavaDefinitionKind::Interface(_) => {
                let cl = closure_of(d, &d.definitions[i].name);
                if contains_name(&cl, &d.definitions[i].name) {
                    proof {
                        assert(reaches(dm, dm.defs[i as int].name, dm.defs[i as int].name));
                        assert(known_iface(dm, dm.defs[i as int].name)) by {
                            assert(0 <= (i as int) && (i as int) < dm.defs.len());
                            assert((#[trigger] dm.defs[i as int]).name == dm.defs[i as int].name);
                        }
                    }
                    let what = d.definitions[i].name.with_dots();
                    return Some(crate::error::err(ErrorKind::CyclicInterface, what.as_str()));
                }
            },
            JavaDefinitionKind::Class(_) => {},
        }
        i = i + 1;
    }
    let mut j: usize = 0;
    while j < d.metadata.definitions.len()
        invariant
            dm == d@,
            j <= d.metadata.definitions@.len(),
            forall|ii: int|
                0 <= ii < dm.defs.len() && (#[trigger] dm.defs[ii]).kind is Interface ==> !reaches(
                    dm,
                    dm.defs[ii].name,
                    dm.defs[ii].name,
                ),
            forall|ii: int|
                0 <= ii < j as int && (#[trigger] dm.meta[ii]).kind is Interface ==> !reaches(
                    dm,
                    dm.meta[ii].name,
                    dm.meta[ii].name,
                ),
        decreases d.metadata.definitions@.len() - j,
    {
        proof {
            assert(dm.meta[j as int] == d.metadata.definitions@[j as int]@);
        }
        match &d.metadata.definitions[j].definition {
            JavaDefinitionMetadataKind::Interface(_) => {
                let cl = closure_of(d, &d.metadata.definitions[j].name);
                if contains_name(&cl, &d.metadata.definitions[j].name) {
                    proof {
                        assert(reaches(dm, dm.meta[j as int].name, dm.meta[j as int].name));
                        assert(known_iface(dm, dm.meta[j as int].name)) by {
                            assert(0 <= (j as int) && (j as int) < dm.meta.len());
                            assert((#[trigger] dm.meta[j as int]).name == dm.meta[j as int].name);
                        }
                    }
                    let what = d.metadata.definitions[j].name.with_dots();
                    return Some(crate::error::err(ErrorKind::CyclicInterface, what.as_str()));
                }
            },
            JavaDefinitionMetadataKind::Class(_) => {},
        }
        j = j + 1;
    }
    proof {
        if has_iface_cycle(dm) {
            let a = choose|a: Seq<Seq<char>>| known_iface(dm, a) && reaches(dm, a, a);
            assert(false);
        }
    }
    None
}

/// Whether some local class has a non-terminating superclass chain.
fn find_class_cycle(d: &JavaDefinitions) -> (bad: Option<GenError>)
    ensures
        (bad is Some) == sp_class_cycle(d@),
        bad is Some ==> bad->0.kind == ErrorKind::CyclicClass,
{
    let ghost dm = d@;
    let mut i: usize = 0;
    while i < d.definitions.len()
        invariant
            dm == d@,
            i <= d.definitions@.len(),
            forall|ii: int|
                0 <= ii < i as int && (#[trigger] dm.defs[ii]).kind is Class ==> class_chain(
                    dm,
                    dm.defs[ii].name,
                ) is Some,
        decreases d.definitions@.len() - i,
    {
        proof {
            assert(dm.defs[i as int] == d.definitions@[i as int]@);
        }
        match &d.definitions[i].definition {
            JavaDefinitionKind::Class(_) => {
                match class_chain_x(d, &d.definitions[i].name) {
                    Option::None => {
                        let what = d.definitions[i].name.with_dots();
                        return Some(crate::error::err(ErrorKind::CyclicClass, what.as_str()));
                    },
                    Option::Some(_) => {},
                }
            },
            JavaDefinitionKind::Interface(_) => {},
        }
        i = i + 1;
    }
    proof {
        if sp_class_cycle(dm) {
            assert(false);
        }
    }
    None
}

/// What a resolved definition must hold for its declaration.
pub open spec fn resolved_ok(
    d: DefsModel,
    dm: crate::ast::DefModel,
    g: GenDefModel,
) -> bool {
    match dm.kind {
        crate::ast::DefKindModel::Interface(f) => {
            &&& g is Interface
            &&& g->Interface_0.interface == dm.name.last()
            &&& g->Interface_0.public == dm.public
            &&& g->Interface_0.extends == f.extends
        },
        crate::ast::DefKindModel::Class(c) => {
            &&& g is Class
            &&& g->Class_0.class == dm.name.last()
            &&& g->Class_0.public == dm.public
            &&& g->Class_0.super_class == or_root(c.extends)
            &&& Some(g->Class_0.transitive_extends) == class_chain(d, dm.name)
            &&& g->Class_0.signature == sig_of(dm.name)
            &&& g->Class_0.full_signature == full_sig_of(dm.name)
            &&& g->Class_0.ctors == conv_ctors_from(c.ctors, 0)
            &&& g->Class_0.methods == conv_methods_from(c.methods, 0, false)
            &&& g->Class_0.static_methods == conv_methods_from(c.methods, 0, true)
            &&& sorted_names(g->Class_0.implements)
            &&& g->Class_0.implements.no_duplicates()
            &&& forall|b: Seq<Seq<char>>|
                g->Class_0.implements.contains(b) <==> impl_set(d, c.implements).contains(b)
        },
    }
}

/// A declaration whose name has no segments.
pub open spec fn sp_empty_name(d: DefsModel) -> bool {
    exists|i: int| 0 <= i < d.defs.len() && (#[trigger] d.defs[i]).name.len() == 0
}

/// Resolve parsed declarations into generator definitions.
///
/// Fails when a declaration has an empty name, when an inheritance-position
/// name does not resolve, or when the interface or class extension graph is
/// cyclic; otherwise every declaration is resolved, in input order.
#[verifier::rlimit(100)]
pub fn to_generator_data(defs: &JavaDefinitions) -> (r: Result<GeneratorData, GenError>)
    ensures
        match r {
            Ok(g) => {
                &&& !sp_empty_name(defs@)
                &&& !sp_unresolved(defs@)
                &&& !has_iface_cycle(defs@)
                &&& !sp_class_cycle(defs@)
                &&& g@.len() == defs@.defs.len()
                &&& forall|i: int|
                    0 <= i < defs@.defs.len() ==> resolved_ok(defs@, #[trigger] defs@.defs[i], g@[i])
            },
            Err(e) => {
                &&& (e.kind == ErrorKind::ExpectedName <==> sp_empty_name(defs@))
                &&& (e.kind == ErrorKind::UnresolvedName <==> !sp_empty_name(defs@)
                    && sp_unresolved(defs@))
                &&& (e.kind == ErrorKind::CyclicInterface <==> !sp_empty_name(defs@)
                    && !sp_unresolved(defs@) && has_iface_cycle(defs@))
                &&& (e.kind == ErrorKind::CyclicClass <==> !sp_empty_name(defs@) && !sp_unresolved(
                    defs@,
                ) && !has_iface_cycle(defs@) && sp_class_cycle(defs@))
                &&& (sp_empty_name(defs@) || sp_unresolved(defs@) || has_iface_cycle(defs@)
                    || sp_class_cycle(defs@))
            },
        },
{
    let ghost dm = defs@;
    let mut i0: usize = 0;
    while i0 < defs.definitions.len()
        invariant
            dm == defs@,
            i0 <= defs.definitions@.len(),
            forall|k: int| 0 <= k < i0 as int ==> (#[trigger] dm.defs[k]).name.len() > 0,
        decreases defs.definitions@.len() - i0,
    {
        proof {
            assert(dm.defs[i0 as int] == defs.definitions@[i0 as int]@);
        }
        if defs.definitions[i0].name.segments.len() == 0 {
            proof {
                assert(dm.defs[i0 as int].name.len() == 0);
            }
            return Err(crate::error::err(ErrorKind::ExpectedName, ""));
        }
        i0 = i0 + 1;
    }
    proof {
        if sp_empty_name(dm) {
            assert(false);
        }
    }
    match find_unresolved(defs) {
        Option::Some(e) => {
            return Err(e);
        },
        Option::None => {},
    }
    match find_iface_cycle(defs) {
        Option::Some(e) => {
            return Err(e);
        },
        Option::None => {},
    }
    match find_class_cycle(defs) {
        Option::Some(e) => {
            return Err(e);
        },
        Option::None => {},
    }
    let mut out: Vec<GeneratorDefinition> = Vec::new();
    let mut i: usize = 0;
    while i < defs.definitions.len()
        invariant
            dm == defs@,
            i <= defs.definitions@.len(),
            !sp_empty_name(dm),
            !sp_unresolved(dm),
            !has_iface_cycle(dm),
            !sp_class_cycle(dm),
            forall|k: int| 0 <= k < dm.defs.len() ==> (#[trigger] dm.defs[k]).name.len() > 0,
            out@.len() == i as int,
            forall|k: int|
                0 <= k < i as int ==> resolved_ok(
                    dm,
                    #[trigger] dm.defs[k],
                    gen_defs_view(out@)[k],
                ),
        decreases defs.definitions@.len() - i,
    {
        proof {
            assert(dm.defs[i as int] == defs.definitions@[i as int]@);
        }
        let dd = &defs.definitions[i];
        let ghost pre_out = gen_defs_view(out@);
        match &dd.definition {
            JavaDefinitionKind::Interface(f) => {
                let mut ext: Vec<JavaName> = Vec::new();
                let mut k: usize = 0;
                while k < f.extends.len()
                    invariant
                        k <= f.extends@.len(),
                        ext@.len() == k as int,
                        forall|q: int| 0 <= q < k as int ==> ext@[q]@ == f.extends@[q]@,
                    decreases f.extends@.len() - k,
                {
                    ext.push(f.extends[k].duplicate());
                    k = k + 1;
                }
                proof {
                    assert(crate::ast::names_view(ext@) =~= crate::ast::names_view(f.extends@));
                }
                let g = GeneratorDefinition::Interface(
                    InterfaceGeneratorDefinition {
                        interface: dd.name.simple_name(),
                        public: dd.public,
                        extends: ext,
                    },
                );
                proof {
                    assert(resolved_ok(dm, dm.defs[i as int], g@));
                }
                out.push(g);
            },
            JavaDefinitionKind::Class(c) => {
                let super_class = match &c.extends {
                    Option::Some(e) => e.duplicate(),
                    Option::None => root_java_name(),
                };
                let chain = match class_chain_x(defs, &dd.name) {
                    Option::Some(v) => v,
                    Option::None => {
                        proof {
                            assert(dm.defs[i as int].kind is Class);
                            assert(0 <= (i as int) && (i as int) < dm.defs.len());
                            assert(false);
                        }
                        return Err(crate::error::err(ErrorKind::CyclicClass, ""));
                    },
                };
                let implements = match resolve_implements(defs, &c.implements) {
                    Ok(v) => v,
                    Err(_) => {
                        proof {
                            assert(dm.defs[i as int].kind is Class);
                            assert(0 <= (i as int) && (i as int) < dm.defs.len());
                            let imv = dm.defs[i as int].kind->Class_0.implements;
                            assert(imv == crate::ast::names_view(c.implements@));
                            let kk = choose|kk: int|
                                0 <= kk < crate::ast::names_view(c.implements@).len()
                                    && !known_iface(
                                    dm,
                                    #[trigger] crate::ast::names_view(c.implements@)[kk],
                                );
                            assert(false);
                        }
                        return Err(crate::error::err(ErrorKind::UnresolvedName, ""));
                    },
                };
                let g = GeneratorDefinition::Class(
                    ClassGeneratorDefinition {
                        class: dd.name.simple_name(),
                        public: dd.public,
                        super_class,
                        transitive_extends: chain,
                        implements,
                        signature: dd.name.signature(),
                        full_signature: dd.name.full_signature(),
                        constructors: gen_ctors(&c.constructors, 0),
                        methods: gen_methods(&c.methods, 0, false),
                        static_methods: gen_methods(&c.methods, 0, true),
                    },
                );
                proof {
                    assert(resolved_ok(dm, dm.defs[i as int], g@));
                }
                out.push(g);
            },
        }
        proof {
            assert forall|k: int| 0 <= k < (i + 1) as int implies resolved_ok(
                dm,
                #[trigger] dm.defs[k],
                gen_defs_view(out@)[k],
            ) by {
                if k < i as int {
                    assert(gen_defs_view(out@)[k] == pre_out[k]);
                }
            }
        }
        i = i + 1;
    }
    Ok(GeneratorData { definitions: out })
}

} // verus!
