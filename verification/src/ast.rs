//! The parsed form of the input: class and interface declarations, plus the
//! header-only metadata stubs for types defined in other generation units.

use crate::name::segs;
use crate::name::JavaName;
use vstd::prelude::*;

verus! {

/// A method or constructor argument: a binding name and a qualified type.
#[derive(Debug, PartialEq, Eq)]
pub struct MethodArgument {
    pub name: String,
    pub data_type: JavaName,
}

/// A class method: name, return type, arguments, visibility, staticness.
#[derive(Debug, PartialEq, Eq)]
pub struct JavaClassMethod {
    pub name: String,
    pub return_type: JavaName,
    pub arguments: Vec<MethodArgument>,
    pub public: bool,
    pub is_static: bool,
}

/// A class constructor: arguments and visibility.
#[derive(Debug, PartialEq, Eq)]
pub struct JavaConstructor {
    pub arguments: Vec<MethodArgument>,
    pub public: bool,
}

/// A class declaration body: inheritance clauses, methods, constructors.
#[derive(Debug, PartialEq, Eq)]
pub struct JavaClass {
    pub extends: Option<JavaName>,
    pub implements: Vec<JavaName>,
    pub methods: Vec<JavaClassMethod>,
    pub constructors: Vec<JavaConstructor>,
}

/// An interface declaration body: the directly extended interfaces.
#[derive(Debug, PartialEq, Eq)]
pub struct JavaInterface {
    pub extends: Vec<JavaName>,
}

/// What a declaration declares.
#[derive(Debug, PartialEq, Eq)]
pub enum JavaDefinitionKind {
    Class(JavaClass),
    Interface(JavaInterface),
}

/// One top-level declaration.
#[derive(Debug, PartialEq, Eq)]
pub struct JavaDefinition {
    pub name: JavaName,
    pub public: bool,
    pub definition: JavaDefinitionKind,
}

/// A header-only class stub from the metadata block.
#[derive(Debug, PartialEq, Eq)]
pub struct JavaClassMetadata {
    pub extends: Option<JavaName>,
    pub implements: Vec<JavaName>,
}

/// A header-only interface stub from the metadata block.
#[derive(Debug, PartialEq, Eq)]
pub struct JavaInterfaceMetadata {
    pub extends: Vec<JavaName>,
}

/// What a metadata stub declares.
#[derive(Debug, PartialEq, Eq)]
pub enum JavaDefinitionMetadataKind {
    Class(JavaClassMetadata),
    Interface(JavaInterfaceMetadata),
}

/// One metadata stub.
#[derive(Debug, PartialEq, Eq)]
pub struct JavaDefinitionMetadata {
    pub name: JavaName,
    pub definition: JavaDefinitionMetadataKind,
}

/// The metadata block: stubs for types of other generation units.
#[derive(Debug, PartialEq, Eq)]
pub struct Metadata {
    pub definitions: Vec<JavaDefinitionMetadata>,
}

/// Everything parsed from one input: declarations and metadata.
#[derive(Debug, PartialEq, Eq)]
pub struct JavaDefinitions {
    pub definitions: Vec<JavaDefinition>,
    pub metadata: Metadata,
}

/// The mathematical value of an argument.
pub ghost struct ArgModel {
    pub name: Seq<char>,
    pub ty: Seq<Seq<char>>,
}

/// The mathematical value of a method.
pub ghost struct MethodModel {
    pub name: Seq<char>,
    pub ret: Seq<Seq<char>>,
    pub args: Seq<ArgModel>,
    pub public: bool,
    pub is_static: bool,
}

/// The mathematical value of a constructor.
pub ghost struct CtorModel {
    pub args: Seq<ArgModel>,
    pub public: bool,
}

/// The mathematical value of a class declaration.
pub ghost struct ClassModel {
    pub extends: Option<Seq<Seq<char>>>,
    pub implements: Seq<Seq<Seq<char>>>,
    pub methods: Seq<MethodModel>,
    pub ctors: Seq<CtorModel>,
}

/// The mathematical value of an interface declaration.
pub ghost struct InterfaceModel {
    pub extends: Seq<Seq<Seq<char>>>,
}

/// The mathematical value of a declaration's kind.
pub ghost enum DefKindModel {
    Class(ClassModel),
    Interface(InterfaceModel),
}

/// The mathematical value of a declaration.
pub ghost struct DefModel {
    pub name: Seq<Seq<char>>,
    pub public: bool,
    pub kind: DefKindModel,
}

/// The mathematical value of a stub's kind.
pub ghost enum StubKindModel {
    Class(Option<Seq<Seq<char>>>, Seq<Seq<Seq<char>>>),
    Interface(Seq<Seq<Seq<char>>>),
}

/// The mathematical value of a metadata stub.
pub ghost struct StubModel {
    pub name: Seq<Seq<char>>,
    pub kind: StubKindModel,
}

/// The mathematical value of a whole parsed input.
pub ghost struct DefsModel {
    pub defs: Seq<DefModel>,
    pub meta: Seq<StubModel>,
}

/// The values of a vector of names.
pub open spec fn names_view(v: Seq<JavaName>) -> Seq<Seq<Seq<char>>> {
    Seq::new(
        v.len(),
        |i: int|
            if 0 <= i < v.len() {
                v[i]@
            } else {
                Seq::empty()
            },
    )
}

/// The value of an optional name.
pub open spec fn opt_name_view(o: Option<JavaName>) -> Option<Seq<Seq<char>>> {
    match o {
        Option::Some(n) => Some(n@),
        Option::None => None,
    }
}

impl View for MethodArgument {
    type V = ArgModel;

    open spec fn view(&self) -> ArgModel {
        ArgModel { name: self.name@, ty: self.data_type@ }
    }
}

/// The values of a vector of arguments.
pub open spec fn args_view(v: Seq<MethodArgument>) -> Seq<ArgModel> {
    Seq::new(
        v.len(),
        |i: int|
            if 0 <= i < v.len() {
                v[i]@
            } else {
                ArgModel { name: Seq::empty(), ty: Seq::empty() }
            },
    )
}

impl View for JavaClassMethod {
    type V = MethodModel;

    open spec fn view(&self) -> MethodModel {
        MethodModel {
            name: self.name@,
            ret: self.return_type@,
            args: args_view(self.arguments@),
            public: self.public,
            is_static: self.is_static,
        }
    }
}

/// The values of a vector of methods.
pub open spec fn methods_view(v: Seq<JavaClassMethod>) -> Seq<MethodModel> {
    Seq::new(
        v.len(),
        |i: int|
            if 0 <= i < v.len() {
                v[i]@
            } else {
                MethodModel {
                    name: Seq::empty(),
                    ret: Seq::empty(),
                    args: Seq::empty(),
                    public: false,
                    is_static: false,
                }
            },
    )
}

impl View for JavaConstructor {
    type V = CtorModel;

    open spec fn view(&self) -> CtorModel {
        CtorModel { args: args_view(self.arguments@), public: self.public }
    }
}

/// The values of a vector of constructors.
pub open spec fn ctors_view(v: Seq<JavaConstructor>) -> Seq<CtorModel> {
    Seq::new(
        v.len(),
        |i: int|
            if 0 <= i < v.len() {
                v[i]@
            } else {
                CtorModel { args: Seq::empty(), public: false }
            },
    )
}

impl View for JavaDefinition {
    type V = DefModel;

    open spec fn view(&self) -> DefModel {
        DefModel {
            name: self.name@,
            public: self.public,
            kind: match self.definition {
                JavaDefinitionKind::Class(ref c) => DefKindModel::Class(
                    ClassModel {
                        extends: opt_name_view(c.extends),
                        implements: names_view(c.implements@),
                        methods: methods_view(c.methods@),
                        ctors: ctors_view(c.constructors@),
                    },
                ),
                JavaDefinitionKind::Interface(ref f) => DefKindModel::Interface(
                    InterfaceModel { extends: names_view(f.extends@) },
                ),
            },
        }
    }
}

/// The values of a vector of declarations.
pub open spec fn defs_view(v: Seq<JavaDefinition>) -> Seq<DefModel> {
    Seq::new(
        v.len(),
        |i: int|
            if 0 <= i < v.len() {
                v[i]@
            } else {
                DefModel {
                    name: Seq::empty(),
                    public: false,
                    kind: DefKindModel::Interface(InterfaceModel { extends: Seq::empty() }),
                }
            },
    )
}

impl View for JavaDefinitionMetadata {
    type V = StubModel;

    open spec fn view(&self) -> StubModel {
        StubModel {
            name: self.name@,
            kind: match self.definition {
                JavaDefinitionMetadataKind::Class(ref c) => StubKindModel::Class(
                    opt_name_view(c.extends),
                    names_view(c.implements@),
                ),
                JavaDefinitionMetadataKind::Interface(ref f) => StubKindModel::Interface(
                    names_view(f.extends@),
                ),
            },
        }
    }
}

/// The values of a vector of stubs.
pub open spec fn stubs_view(v: Seq<JavaDefinitionMetadata>) -> Seq<StubModel> {
    Seq::new(
        v.len(),
        |i: int|
            if 0 <= i < v.len() {
                v[i]@
            } else {
                StubModel {
                    name: Seq::empty(),
                    kind: StubKindModel::Interface(Seq::empty()),
                }
            },
    )
}

impl View for JavaDefinitions {
    type V = DefsModel;

    open spec fn view(&self) -> DefsModel {
        DefsModel {
            defs: defs_view(self.definitions@),
            meta: stubs_view(self.metadata.definitions@),
        }
    }
}

/// Put one name in front of the vector.
pub fn prepend_name(v: &mut Vec<JavaName>, n: JavaName)
    ensures
        names_view(final(v)@) == seq![n@] + names_view(old(v)@),
{
    let ghost nm = n@;
    let ghost vm = names_view(v@);
    v.insert(0, n);
    proof {
        assert(names_view(v@) =~= seq![nm] + vm);
    }
}

/// Put one argument in front of the vector.
pub fn prepend_arg(v: &mut Vec<MethodArgument>, a: MethodArgument)
    ensures
        args_view(final(v)@) == seq![a@] + args_view(old(v)@),
{
    let ghost am = a@;
    let ghost vm = args_view(v@);
    v.insert(0, a);
    proof {
        assert(args_view(v@) =~= seq![am] + vm);
    }
}

/// Put one method in front of the vector.
pub fn prepend_method(v: &mut Vec<JavaClassMethod>, m: JavaClassMethod)
    ensures
        methods_view(final(v)@) == seq![m@] + methods_view(old(v)@),
{
    let ghost mm = m@;
    let ghost vm = methods_view(v@);
    v.insert(0, m);
    proof {
        assert(methods_view(v@) =~= seq![mm] + vm);
    }
}

/// Put one constructor in front of the vector.
pub fn prepend_ctor(v: &mut Vec<JavaConstructor>, c: JavaConstructor)
    ensures
        ctors_view(final(v)@) == seq![c@] + ctors_view(old(v)@),
{
    let ghost cm = c@;
    let ghost vm = ctors_view(v@);
    v.insert(0, c);
    proof {
        assert(ctors_view(v@) =~= seq![cm] + vm);
    }
}

/// Put one declaration in front of the vector.
pub fn prepend_def(v: &mut Vec<JavaDefinition>, d: JavaDefinition)
    ensures
        defs_view(final(v)@) == seq![d@] + defs_view(old(v)@),
{
    let ghost dm = d@;
    let ghost vm = defs_view(v@);
    v.insert(0, d);
    proof {
        assert(defs_view(v@) =~= seq![dm] + vm);
    }
}

/// Put one stub in front of the vector.
pub fn prepend_stub(v: &mut Vec<JavaDefinitionMetadata>, s: JavaDefinitionMetadata)
    ensures
        stubs_view(final(v)@) == seq![s@] + stubs_view(old(v)@),
{
    let ghost sm = s@;
    let ghost vm = stubs_view(v@);
    v.insert(0, s);
    proof {
        assert(stubs_view(v@) =~= seq![sm] + vm);
    }
}

} // verus!
