//! The declaration parser: from token trees to class and interface
//! declarations plus the metadata block.
//!
//! The grammar, over the token stream:
//!
//! ```text
//! definition    := 'public'? ('class' | 'interface') header body
//! header        := qualifiedName ('extends' names)? ('implements' names)?
//! names         := qualifiedName (',' qualifiedName)*
//! body          := '{' (constructor | method)* '}'
//! metadataBlock := 'metadata' '{' (headerOnlyDefinition ';')* '}'
//! ```
//!
//! The `sp_` functions are the parser's specification; the executable
//! functions return exactly what they describe, or the described failure.

use crate::ast::ArgModel;
use crate::ast::CtorModel;
use crate::ast::DefKindModel;
use crate::ast::DefModel;
use crate::ast::DefsModel;
use crate::ast::ClassModel;
use crate::ast::InterfaceModel;
use crate::ast::MethodModel;
use crate::ast::StubKindModel;
use crate::ast::StubModel;
use crate::ast::args_view;
use crate::ast::ctors_view;
use crate::ast::methods_view;
use crate::ast::names_view;
use crate::ast::opt_name_view;
use crate::ast::defs_view;
use crate::ast::stubs_view;
use crate::ast::JavaClass;
use crate::ast::JavaClassMetadata;
use crate::ast::JavaClassMethod;
use crate::ast::JavaConstructor;
use crate::ast::JavaDefinition;
use crate::ast::JavaDefinitionKind;
use crate::ast::JavaDefinitionMetadata;
use crate::ast::JavaDefinitionMetadataKind;
use crate::ast::JavaDefinitions;
use crate::ast::JavaInterface;
use crate::ast::JavaInterfaceMetadata;
use crate::ast::Metadata;
use crate::ast::MethodArgument;
use crate::error::ErrorKind;
use crate::error::GenError;
use crate::name::segs;
use crate::name::JavaName;
use crate::token::toks;
use crate::token::Delim;
use crate::token::Token;
use crate::token::TokenModel;
use vstd::prelude::*;

verus! {

broadcast use {vstd::std_specs::vec::axiom_vec_index_decreases, vstd::seq::group_seq_axioms};

/// The keywords of the declaration language.
pub open spec fn kw_public() -> Seq<char> {
    "public"@
}

pub open spec fn kw_static() -> Seq<char> {
    "static"@
}

pub open spec fn kw_class() -> Seq<char> {
    "class"@
}

pub open spec fn kw_interface() -> Seq<char> {
    "interface"@
}

pub open spec fn kw_extends() -> Seq<char> {
    "extends"@
}

pub open spec fn kw_implements() -> Seq<char> {
    "implements"@
}

pub open spec fn kw_metadata() -> Seq<char> {
    "metadata"@
}

/// Whether a token is the given identifier word.
pub open spec fn is_id(t: TokenModel, w: Seq<char>) -> bool {
    t is Ident && t->Ident_0 == w
}

pub open spec fn is_dot(t: TokenModel) -> bool {
    t is Punct && t->Punct_0 == '.'
}

pub open spec fn is_comma(t: TokenModel) -> bool {
    t is Punct && t->Punct_0 == ','
}

pub open spec fn is_semi(t: TokenModel) -> bool {
    t is Punct && t->Punct_0 == ';'
}

pub open spec fn is_brace_group(t: TokenModel) -> bool {
    t is Group && t->Group_0 == Delim::Brace
}

pub open spec fn is_clause_kw(t: TokenModel) -> bool {
    is_id(t, kw_extends()) || is_id(t, kw_implements())
}

pub open spec fn is_meta_sep(t: TokenModel) -> bool {
    is_semi(t) || is_brace_group(t)
}

/// Tokens kept when a method declaration is read: everything but the
/// `public` and `static` markers.
pub open spec fn keep_m(t: TokenModel) -> bool {
    !is_id(t, kw_public()) && !is_id(t, kw_static())
}

/// Tokens kept when a constructor declaration is read: everything but the
/// `public` marker.
pub open spec fn keep_c(t: TokenModel) -> bool {
    !is_id(t, kw_public())
}

/// The chunk with the visibility markers of a method removed.
pub open spec fn strip_m(s: Seq<TokenModel>) -> Seq<TokenModel>
    decreases s.len(),
{
    if s.len() == 0 {
        Seq::empty()
    } else {
        let r = strip_m(s.drop_last());
        if keep_m(s.last()) {
            r.push(s.last())
        } else {
            r
        }
    }
}

/// The chunk with the visibility marker of a constructor removed.
pub open spec fn strip_c(s: Seq<TokenModel>) -> Seq<TokenModel>
    decreases s.len(),
{
    if s.len() == 0 {
        Seq::empty()
    } else {
        let r = strip_c(s.drop_last());
        if keep_c(s.last()) {
            r.push(s.last())
        } else {
            r
        }
    }
}

/// Whether the chunk holds a `public` marker.
pub open spec fn has_pub(ts: Seq<TokenModel>, lo: int, hi: int) -> bool {
    exists|k: int| lo <= k < hi && is_id(#[trigger] ts[k], kw_public())
}

/// Whether the chunk holds a `static` marker.
pub open spec fn has_static(ts: Seq<TokenModel>, lo: int, hi: int) -> bool {
    exists|k: int| lo <= k < hi && is_id(#[trigger] ts[k], kw_static())
}

/// First position in `[lo, hi)` holding a comma, or `hi`.
pub open spec fn find_comma(ts: Seq<TokenModel>, lo: int, hi: int) -> int
    decreases hi - lo,
{
    if !(lo < hi) {
        hi
    } else if is_comma(ts[lo]) {
        lo
    } else {
        find_comma(ts, lo + 1, hi)
    }
}

/// First position in `[lo, hi)` holding a semicolon, or `hi`.
pub open spec fn find_semi(ts: Seq<TokenModel>, lo: int, hi: int) -> int
    decreases hi - lo,
{
    if !(lo < hi) {
        hi
    } else if is_semi(ts[lo]) {
        lo
    } else {
        find_semi(ts, lo + 1, hi)
    }
}

/// First position in `[lo, hi)` holding the `extends` keyword, or `hi`.
pub open spec fn find_extends(ts: Seq<TokenModel>, lo: int, hi: int) -> int
    decreases hi - lo,
{
    if !(lo < hi) {
        hi
    } else if is_id(ts[lo], kw_extends()) {
        lo
    } else {
        find_extends(ts, lo + 1, hi)
    }
}

/// First position in `[lo, hi)` holding `extends` or `implements`, or `hi`.
pub open spec fn find_clause(ts: Seq<TokenModel>, lo: int, hi: int) -> int
    decreases hi - lo,
{
    if !(lo < hi) {
        hi
    } else if is_clause_kw(ts[lo]) {
        lo
    } else {
        find_clause(ts, lo + 1, hi)
    }
}

/// First position in `[lo, hi)` holding a brace-delimited body, or `hi`.
pub open spec fn find_body(ts: Seq<TokenModel>, lo: int, hi: int) -> int
    decreases hi - lo,
{
    if !(lo < hi) {
        hi
    } else if is_brace_group(ts[lo]) {
        lo
    } else {
        find_body(ts, lo + 1, hi)
    }
}

/// First position in `[lo, hi)` holding a metadata separator, or `hi`.
pub open spec fn find_meta_sep(ts: Seq<TokenModel>, lo: int, hi: int) -> int
    decreases hi - lo,
{
    if !(lo < hi) {
        hi
    } else if is_meta_sep(ts[lo]) {
        lo
    } else {
        find_meta_sep(ts, lo + 1, hi)
    }
}

pub proof fn lemma_find_comma(ts: Seq<TokenModel>, lo: int, hi: int)
    requires
        lo <= hi,
    ensures
        lo <= find_comma(ts, lo, hi) <= hi,
    decreases hi - lo,
{
    if lo < hi && !is_comma(ts[lo]) {
        lemma_find_comma(ts, lo + 1, hi);
    }
}

pub proof fn lemma_find_semi(ts: Seq<TokenModel>, lo: int, hi: int)
    requires
        lo <= hi,
    ensures
        lo <= find_semi(ts, lo, hi) <= hi,
    decreases hi - lo,
{
    if lo < hi && !is_semi(ts[lo]) {
        lemma_find_semi(ts, lo + 1, hi);
    }
}

pub proof fn lemma_find_extends(ts: Seq<TokenModel>, lo: int, hi: int)
    requires
        lo <= hi,
    ensures
        lo <= find_extends(ts, lo, hi) <= hi,
    decreases hi - lo,
{
    if lo < hi && !is_id(ts[lo], kw_extends()) {
        lemma_find_extends(ts, lo + 1, hi);
    }
}

pub proof fn lemma_find_clause(ts: Seq<TokenModel>, lo: int, hi: int)
    requires
        lo <= hi,
    ensures
        lo <= find_clause(ts, lo, hi) <= hi,
    decreases hi - lo,
{
    if lo < hi && !is_clause_kw(ts[lo]) {
        lemma_find_clause(ts, lo + 1, hi);
    }
}

pub proof fn lemma_find_body(ts: Seq<TokenModel>, lo: int, hi: int)
    requires
        lo <= hi,
    ensures
        lo <= find_body(ts, lo, hi) <= hi,
    decreases hi - lo,
{
    if lo < hi && !is_brace_group(ts[lo]) {
        lemma_find_body(ts, lo + 1, hi);
    }
}

pub proof fn lemma_find_meta_sep(ts: Seq<TokenModel>, lo: int, hi: int)
    requires
        lo <= hi,
    ensures
        lo <= find_meta_sep(ts, lo, hi) <= hi,
    decreases hi - lo,
{
    if lo < hi && !is_meta_sep(ts[lo]) {
        lemma_find_meta_sep(ts, lo + 1, hi);
    }
}

/// The segments of a qualified name, read from `[lo, hi)`, alternating
/// between identifiers and dots.
pub open spec fn sp_name_segs(ts: Seq<TokenModel>, lo: int, hi: int, expect_id: bool) -> Result<
    Seq<Seq<char>>,
    ErrorKind,
>
    decreases hi - lo,
{
    if !(lo < hi) {
        Ok(Seq::empty())
    } else if expect_id {
        match ts[lo] {
            TokenModel::Ident(s) => match sp_name_segs(ts, lo + 1, hi, false) {
                Ok(r) => Ok(seq![s] + r),
                Err(e) => Err(e),
            },
            _ => Err(ErrorKind::ExpectedIdent),
        }
    } else {
        if is_dot(ts[lo]) {
            sp_name_segs(ts, lo + 1, hi, true)
        } else {
            Err(ErrorKind::ExpectedDot)
        }
    }
}

/// A qualified name read from `[lo, hi)`; an empty range is a failure.
pub open spec fn sp_name(ts: Seq<TokenModel>, lo: int, hi: int) -> Result<
    Seq<Seq<char>>,
    ErrorKind,
> {
    if !(lo < hi) {
        Err(ErrorKind::ExpectedName)
    } else {
        sp_name_segs(ts, lo, hi, true)
    }
}

/// Comma-separated qualified names read from `[lo, hi)`; empty pieces
/// between commas are skipped.
pub open spec fn sp_comma_names(ts: Seq<TokenModel>, lo: int, hi: int) -> Result<
    Seq<Seq<Seq<char>>>,
    ErrorKind,
>
    decreases hi - lo,
    via sp_comma_names_dec
{
    if !(lo < hi) {
        Ok(Seq::empty())
    } else {
        let j = find_comma(ts, lo, hi);
        if j == lo {
            sp_comma_names(ts, lo + 1, hi)
        } else {
            match sp_name(ts, lo, j) {
                Ok(n) => {
                    if j >= hi {
                        Ok(seq![n])
                    } else {
                        match sp_comma_names(ts, j + 1, hi) {
                            Ok(r) => Ok(seq![n] + r),
                            Err(e) => Err(e),
                        }
                    }
                },
                Err(e) => Err(e),
            }
        }
    }
}

#[via_fn]
proof fn sp_comma_names_dec(ts: Seq<TokenModel>, lo: int, hi: int) {
    if lo < hi {
        lemma_find_comma(ts, lo, hi);
    }
}

/// An interface header: the name, then an optional `extends` name list.
pub open spec fn sp_iface_header(ts: Seq<TokenModel>, lo: int, hi: int) -> Result<
    (Seq<Seq<char>>, Seq<Seq<Seq<char>>>),
    ErrorKind,
> {
    let e = find_extends(ts, lo, hi);
    match sp_name(ts, lo, e) {
        Ok(n) => {
            if e < hi {
                match sp_comma_names(ts, e + 1, hi) {
                    Ok(x) => Ok((n, x)),
                    Err(er) => Err(er),
                }
            } else {
                Ok((n, Seq::empty()))
            }
        },
        Err(er) => Err(er),
    }
}

/// The inheritance clauses of a class header, read from the first clause
/// keyword on.  Each clause may appear at most once; each clause's names end
/// at the next clause keyword.
pub open spec fn sp_class_clauses(
    ts: Seq<TokenModel>,
    k: int,
    hi: int,
    ext: Option<Seq<Seq<char>>>,
    imp: Option<Seq<Seq<Seq<char>>>>,
) -> Result<(Option<Seq<Seq<char>>>, Seq<Seq<Seq<char>>>), ErrorKind>
    decreases hi - k,
    via sp_class_clauses_dec
{
    if !(k < hi) {
        Ok(
            (
                ext,
                match imp {
                    Option::Some(x) => x,
                    Option::None => Seq::empty(),
                },
            ),
        )
    } else if is_id(ts[k], kw_extends()) {
        if ext is Some {
            Err(ErrorKind::DuplicateClause)
        } else {
            let j = find_clause(ts, k + 1, hi);
            match sp_name(ts, k + 1, j) {
                Ok(n) => sp_class_clauses(ts, j, hi, Some(n), imp),
                Err(e) => Err(e),
            }
        }
    } else if is_id(ts[k], kw_implements()) {
        if imp is Some {
            Err(ErrorKind::DuplicateClause)
        } else {
            let j = find_clause(ts, k + 1, hi);
            match sp_comma_names(ts, k + 1, j) {
                Ok(x) => sp_class_clauses(ts, j, hi, ext, Some(x)),
                Err(e) => Err(e),
            }
        }
    } else {
        Err(ErrorKind::ExpectedKind)
    }
}

#[via_fn]
proof fn sp_class_clauses_dec(
    ts: Seq<TokenModel>,
    k: int,
    hi: int,
    ext: Option<Seq<Seq<char>>>,
    imp: Option<Seq<Seq<Seq<char>>>>,
) {
    if k < hi {
        lemma_find_clause(ts, k + 1, hi);
    }
}

/// A class header: the name, then `extends` and `implements` clauses in
/// either order.
pub open spec fn sp_class_header(ts: Seq<TokenModel>, lo: int, hi: int) -> Result<
    (Seq<Seq<char>>, Option<Seq<Seq<char>>>, Seq<Seq<Seq<char>>>),
    ErrorKind,
> {
    let k = find_clause(ts, lo, hi);
    match sp_name(ts, lo, k) {
        Ok(n) => match sp_class_clauses(ts, k, hi, Option::None, Option::None) {
            Ok((e, im)) => Ok((n, e, im)),
            Err(er) => Err(er),
        },
        Err(er) => Err(er),
    }
}

/// One argument: all tokens but the last form the type, the last is the
/// binding name.
pub open spec fn sp_arg(ts: Seq<TokenModel>, lo: int, hi: int) -> Result<ArgModel, ErrorKind> {
    if !(lo < hi) {
        Err(ErrorKind::ExpectedArgumentName)
    } else if !(ts[hi - 1] is Ident) {
        Err(ErrorKind::ExpectedArgumentName)
    } else {
        match sp_name(ts, lo, hi - 1) {
            Ok(ty) => Ok(ArgModel { name: ts[hi - 1]->Ident_0, ty }),
            Err(e) => Err(e),
        }
    }
}

/// Comma-separated arguments; empty pieces between commas are skipped.
pub open spec fn sp_args(ts: Seq<TokenModel>, lo: int, hi: int) -> Result<Seq<ArgModel>, ErrorKind>
    decreases hi - lo,
    via sp_args_dec
{
    if !(lo < hi) {
        Ok(Seq::empty())
    } else {
        let j = find_comma(ts, lo, hi);
        if j == lo {
            sp_args(ts, lo + 1, hi)
        } else {
            match sp_arg(ts, lo, j) {
                Ok(a) => {
                    if j >= hi {
                        Ok(seq![a])
                    } else {
                        match sp_args(ts, j + 1, hi) {
                            Ok(r) => Ok(seq![a] + r),
                            Err(e) => Err(e),
                        }
                    }
                },
                Err(e) => Err(e),
            }
        }
    }
}

#[via_fn]
proof fn sp_args_dec(ts: Seq<TokenModel>, lo: int, hi: int) {
    if lo < hi {
        lemma_find_comma(ts, lo, hi);
    }
}

/// The argument list of a method or constructor: a parenthesized group.
pub open spec fn sp_args_of(t: TokenModel) -> Result<Seq<ArgModel>, ErrorKind> {
    if t is Group && t->Group_0 == Delim::Paren {
        sp_args(t->Group_1, 0, t->Group_1.len() as int)
    } else {
        Err(ErrorKind::ExpectedArguments)
    }
}

/// Whether `[a, b)` is exactly the dotted token form of the name `n`.
pub open spec fn sp_matches_name(
    ts: Seq<TokenModel>,
    a: int,
    b: int,
    n: Seq<Seq<char>>,
) -> bool {
    &&& n.len() > 0
    &&& b - a == 2 * n.len() - 1
    &&& forall|k: int| 0 <= k < n.len() ==> ts[a + 2 * k] == TokenModel::Ident(#[trigger] n[k])
    &&& forall|k: int| 0 <= k < n.len() - 1 ==> is_dot(#[trigger] ts[a + 2 * k + 1])
}

/// Whether a body chunk declares a constructor: after a leading `public`,
/// the tokens before the argument list are exactly the class's own name.
pub open spec fn sp_is_ctor(ts: Seq<TokenModel>, lo: int, hi: int, n: Seq<Seq<char>>) -> bool {
    if has_pub(ts, lo, hi) {
        hi - lo >= 2 && sp_matches_name(ts, lo + 1, hi - 1, n)
    } else {
        sp_matches_name(ts, lo, hi - 1, n)
    }
}

/// A constructor chunk: visibility markers removed, the last token is the
/// argument list.
pub open spec fn sp_ctor(s: Seq<TokenModel>, lo: int, hi: int) -> Result<CtorModel, ErrorKind> {
    let f = strip_c(s.subrange(lo, hi));
    if f.len() < 1 {
        Err(ErrorKind::ExpectedArguments)
    } else {
        match sp_args_of(f[f.len() - 1]) {
            Ok(a) => Ok(CtorModel { args: a, public: has_pub(s, lo, hi) }),
            Err(e) => Err(e),
        }
    }
}

/// A method chunk: visibility and static markers removed, the last token is
/// the argument list, the token before it the method name, the rest the
/// return type.
pub open spec fn sp_method(s: Seq<TokenModel>, lo: int, hi: int) -> Result<
    MethodModel,
    ErrorKind,
> {
    let f = strip_m(s.subrange(lo, hi));
    if f.len() < 2 {
        Err(ErrorKind::ExpectedMethodName)
    } else if !(f[f.len() - 2] is Ident) {
        Err(ErrorKind::ExpectedMethodName)
    } else {
        match sp_name(f, 0, f.len() - 2) {
            Ok(ret) => match sp_args_of(f[f.len() - 1]) {
                Ok(args) => Ok(
                    MethodModel {
                        name: f[f.len() - 2]->Ident_0,
                        ret,
                        args,
                        public: has_pub(s, lo, hi),
                        is_static: has_static(s, lo, hi),
                    },
                ),
                Err(e) => Err(e),
            },
            Err(e) => Err(e),
        }
    }
}

/// The constructors of a class body: the chunks between semicolons whose
/// head matches the class's own name.
pub open spec fn sp_ctors(ts: Seq<TokenModel>, lo: int, hi: int, n: Seq<Seq<char>>) -> Result<
    Seq<CtorModel>,
    ErrorKind,
>
    decreases hi - lo,
    via sp_ctors_dec
{
    if !(lo < hi) {
        Ok(Seq::empty())
    } else {
        let j = find_semi(ts, lo, hi);
        if j == lo {
            sp_ctors(ts, lo + 1, hi, n)
        } else if sp_is_ctor(ts, lo, j, n) {
            match sp_ctor(ts, lo, j) {
                Ok(c) => {
                    if j >= hi {
                        Ok(seq![c])
                    } else {
                        match sp_ctors(ts, j + 1, hi, n) {
                            Ok(r) => Ok(seq![c] + r),
                            Err(e) => Err(e),
                        }
                    }
                },
                Err(e) => Err(e),
            }
        } else {
            if j >= hi {
                Ok(Seq::empty())
            } else {
                sp_ctors(ts, j + 1, hi, n)
            }
        }
    }
}

#[via_fn]
proof fn sp_ctors_dec(ts: Seq<TokenModel>, lo: int, hi: int, n: Seq<Seq<char>>) {
    if lo < hi {
        lemma_find_semi(ts, lo, hi);
    }
}

/// The methods of a class body: the chunks between semicolons whose head
/// does not match the class's own name.
pub open spec fn sp_methods(ts: Seq<TokenModel>, lo: int, hi: int, n: Seq<Seq<char>>) -> Result<
    Seq<MethodModel>,
    ErrorKind,
>
    decreases hi - lo,
    via sp_methods_dec
{
    if !(lo < hi) {
        Ok(Seq::empty())
    } else {
        let j = find_semi(ts, lo, hi);
        if j == lo {
            sp_methods(ts, lo + 1, hi, n)
        } else if !sp_is_ctor(ts, lo, j, n) {
            match sp_method(ts, lo, j) {
                Ok(m) => {
                    if j >= hi {
                        Ok(seq![m])
                    } else {
                        match sp_methods(ts, j + 1, hi, n) {
                            Ok(r) => Ok(seq![m] + r),
                            Err(e) => Err(e),
                        }
                    }
                },
                Err(e) => Err(e),
            }
        } else {
            if j >= hi {
                Ok(Seq::empty())
            } else {
                sp_methods(ts, j + 1, hi, n)
            }
        }
    }
}

#[via_fn]
proof fn sp_methods_dec(ts: Seq<TokenModel>, lo: int, hi: int, n: Seq<Seq<char>>) {
    if lo < hi {
        lemma_find_semi(ts, lo, hi);
    }
}

/// A parsed declaration header, before its body is attached.
pub ghost enum HeadModel {
    ClassHead(Seq<Seq<char>>, Option<Seq<Seq<char>>>, Seq<Seq<Seq<char>>>, bool),
    IfaceHead(Seq<Seq<char>>, Seq<Seq<Seq<char>>>, bool),
}

/// A declaration header: optional `public`, the introducer keyword, the
/// kind-specific header.
pub open spec fn sp_def_head(ts: Seq<TokenModel>, lo: int, hi: int) -> Result<
    HeadModel,
    ErrorKind,
> {
    if !(lo < hi) {
        Err(ErrorKind::ExpectedKind)
    } else {
        let p = is_id(ts[lo], kw_public());
        let l2 = if p {
            lo + 1
        } else {
            lo
        };
        if !(l2 < hi) {
            Err(ErrorKind::ExpectedKind)
        } else if is_id(ts[l2], kw_class()) {
            match sp_class_header(ts, l2 + 1, hi) {
                Ok((n, e, im)) => Ok(HeadModel::ClassHead(n, e, im, p)),
                Err(er) => Err(er),
            }
        } else if is_id(ts[l2], kw_interface()) {
            match sp_iface_header(ts, l2 + 1, hi) {
                Ok((n, x)) => Ok(HeadModel::IfaceHead(n, x, p)),
                Err(er) => Err(er),
            }
        } else {
            Err(ErrorKind::ExpectedKind)
        }
    }
}

/// One declaration: its header and its brace-delimited body.  Interface
/// bodies are ignored; class bodies are split into constructors and methods.
pub open spec fn sp_def(ts: Seq<TokenModel>, lo: int, g: int) -> Result<DefModel, ErrorKind> {
    match sp_def_head(ts, lo, g) {
        Ok(h) => {
            let inner = ts[g]->Group_1;
            match h {
                HeadModel::IfaceHead(n, x, p) => Ok(
                    DefModel {
                        name: n,
                        public: p,
                        kind: DefKindModel::Interface(InterfaceModel { extends: x }),
                    },
                ),
                HeadModel::ClassHead(n, e, im, p) => {
                    match sp_ctors(inner, 0, inner.len() as int, n) {
                        Ok(cs) => match sp_methods(inner, 0, inner.len() as int, n) {
                            Ok(ms) => Ok(
                                DefModel {
                                    name: n,
                                    public: p,
                                    kind: DefKindModel::Class(
                                        ClassModel {
                                            extends: e,
                                            implements: im,
                                            methods: ms,
                                            ctors: cs,
                                        },
                                    ),
                                },
                            ),
                            Err(er) => Err(er),
                        },
                        Err(er) => Err(er),
                    }
                },
            }
        },
        Err(er) => Err(er),
    }
}

/// The declarations of `[lo, hi)`: each a header followed by a brace group.
/// A trailing header without a body, or a body without a header, is a
/// failure.
pub open spec fn sp_defs(ts: Seq<TokenModel>, lo: int, hi: int) -> Result<Seq<DefModel>, ErrorKind>
    decreases hi - lo,
    via sp_defs_dec
{
    if !(lo < hi) {
        Ok(Seq::empty())
    } else {
        let g = find_body(ts, lo, hi);
        if g >= hi {
            match sp_def_head(ts, lo, hi) {
                Ok(_) => Err(ErrorKind::ExpectedBody),
                Err(e) => Err(e),
            }
        } else if g == lo {
            Err(ErrorKind::ExpectedKind)
        } else {
            match sp_def(ts, lo, g) {
                Ok(d) => match sp_defs(ts, g + 1, hi) {
                    Ok(r) => Ok(seq![d] + r),
                    Err(e) => Err(e),
                },
                Err(e) => Err(e),
            }
        }
    }
}

#[via_fn]
proof fn sp_defs_dec(ts: Seq<TokenModel>, lo: int, hi: int) {
    if lo < hi {
        lemma_find_body(ts, lo, hi);
    }
}

/// One metadata stub: the introducer keyword and a header, no visibility
/// and no body.
pub open spec fn sp_stub(ts: Seq<TokenModel>, lo: int, hi: int) -> Result<StubModel, ErrorKind> {
    if !(lo < hi) {
        Err(ErrorKind::ExpectedKind)
    } else if is_id(ts[lo], kw_class()) {
        match sp_class_header(ts, lo + 1, hi) {
            Ok((n, e, im)) => Ok(StubModel { name: n, kind: StubKindModel::Class(e, im) }),
            Err(er) => Err(er),
        }
    } else if is_id(ts[lo], kw_interface()) {
        match sp_iface_header(ts, lo + 1, hi) {
            Ok((n, x)) => Ok(StubModel { name: n, kind: StubKindModel::Interface(x) }),
            Err(er) => Err(er),
        }
    } else {
        Err(ErrorKind::ExpectedKind)
    }
}

/// The stubs of a metadata block: chunks separated by semicolons or empty
/// brace groups.
pub open spec fn sp_stubs(ts: Seq<TokenModel>, lo: int, hi: int) -> Result<
    Seq<StubModel>,
    ErrorKind,
>
    decreases hi - lo,
    via sp_stubs_dec
{
    if !(lo < hi) {
        Ok(Seq::empty())
    } else {
        let j = find_meta_sep(ts, lo, hi);
        if j == lo {
            sp_stubs(ts, lo + 1, hi)
        } else {
            match sp_stub(ts, lo, j) {
                Ok(s) => {
                    if j >= hi {
                        Ok(seq![s])
                    } else {
                        match sp_stubs(ts, j + 1, hi) {
                            Ok(r) => Ok(seq![s] + r),
                            Err(e) => Err(e),
                        }
                    }
                },
                Err(e) => Err(e),
            }
        }
    }
}

#[via_fn]
proof fn sp_stubs_dec(ts: Seq<TokenModel>, lo: int, hi: int) {
    if lo < hi {
        lemma_find_meta_sep(ts, lo, hi);
    }
}

/// A whole input: the declarations, and a trailing `metadata { ... }` block
/// when the second-to-last token is the `metadata` keyword.
pub open spec fn sp_parse(ts: Seq<TokenModel>) -> Result<DefsModel, ErrorKind> {
    let n = ts.len() as int;
    if n > 1 && is_id(ts[n - 2], kw_metadata()) {
        if is_brace_group(ts[n - 1]) {
            match sp_stubs(ts[n - 1]->Group_1, 0, ts[n - 1]->Group_1.len() as int) {
                Ok(meta) => match sp_defs(ts, 0, n - 2) {
                    Ok(defs) => Ok(DefsModel { defs, meta }),
                    Err(e) => Err(e),
                },
                Err(e) => Err(e),
            }
        } else {
            Err(ErrorKind::ExpectedBraces)
        }
    } else {
        match sp_defs(ts, 0, n) {
            Ok(defs) => Ok(DefsModel { defs, meta: Seq::empty() }),
            Err(e) => Err(e),
        }
    }
}

/// Whether a token is the given identifier word.
fn t_is_id(t: &Token, w: &str) -> (b: bool)
    ensures
        b == is_id(t@, w@),
{
    match t {
        Token::Ident(s) => *s == w.to_owned(),
        _ => false,
    }
}

fn t_is_punct(t: &Token, c: char) -> (b: bool)
    ensures
        b == (t@ is Punct && t@->Punct_0 == c),
{
    match t {
        Token::Punct(p) => *p == c,
        _ => false,
    }
}

fn t_is_brace_group(t: &Token) -> (b: bool)
    ensures
        b == is_brace_group(t@),
{
    match t {
        Token::Group(d, _) => *d == Delim::Brace,
        _ => false,
    }
}

fn t_is_clause_kw(t: &Token) -> (b: bool)
    ensures
        b == is_clause_kw(t@),
{
    t_is_id(t, "extends") || t_is_id(t, "implements")
}

fn t_is_meta_sep(t: &Token) -> (b: bool)
    ensures
        b == is_meta_sep(t@),
{
    t_is_punct(t, ';') || t_is_brace_group(t)
}

fn find_comma_x(ts: &Vec<Token>, lo: usize, hi: usize) -> (j: usize)
    requires
        lo <= hi <= ts@.len(),
    ensures
        j as int == find_comma(toks(ts@), lo as int, hi as int),
        lo <= j <= hi,
{
    let mut k = lo;
    while k < hi && !t_is_punct(&ts[k], ',')
        invariant
            lo <= k <= hi <= ts@.len(),
            find_comma(toks(ts@), lo as int, hi as int) == find_comma(
                toks(ts@),
                k as int,
                hi as int,
            ),
        decreases hi - k,
    {
        proof {
            assert(toks(ts@)[k as int] == ts@[k as int]@);
        }
        k = k + 1;
    }
    proof {
        if k < hi {
            assert(toks(ts@)[k as int] == ts@[k as int]@);
        }
    }
    k
}

fn find_semi_x(ts: &Vec<Token>, lo: usize, hi: usize) -> (j: usize)
    requires
        lo <= hi <= ts@.len(),
    ensures
        j as int == find_semi(toks(ts@), lo as int, hi as int),
        lo <= j <= hi,
{
    let mut k = lo;
    while k < hi && !t_is_punct(&ts[k], ';')
        invariant
            lo <= k <= hi <= ts@.len(),
            find_semi(toks(ts@), lo as int, hi as int) == find_semi(
                toks(ts@),
                k as int,
                hi as int,
            ),
        decreases hi - k,
    {
        proof {
            assert(toks(ts@)[k as int] == ts@[k as int]@);
        }
        k = k + 1;
    }
    proof {
        if k < hi {
            assert(toks(ts@)[k as int] == ts@[k as int]@);
        }
    }
    k
}

fn find_extends_x(ts: &Vec<Token>, lo: usize, hi: usize) -> (j: usize)
    requires
        lo <= hi <= ts@.len(),
    ensures
        j as int == find_extends(toks(ts@), lo as int, hi as int),
        lo <= j <= hi,
{
    let mut k = lo;
    while k < hi && !t_is_id(&ts[k], "extends")
        invariant
            lo <= k <= hi <= ts@.len(),
            find_extends(toks(ts@), lo as int, hi as int) == find_extends(
                toks(ts@),
                k as int,
                hi as int,
            ),
        decreases hi - k,
    {
        proof {
            assert(toks(ts@)[k as int] == ts@[k as int]@);
        }
        k = k + 1;
    }
    proof {
        if k < hi {
            assert(toks(ts@)[k as int] == ts@[k as int]@);
        }
    }
    k
}

fn find_clause_x(ts: &Vec<Token>, lo: usize, hi: usize) -> (j: usize)
    requires
        lo <= hi <= ts@.len(),
    ensures
        j as int == find_clause(toks(ts@), lo as int, hi as int),
        lo <= j <= hi,
{
    let mut k = lo;
    while k < hi && !t_is_clause_kw(&ts[k])
        invariant
            lo <= k <= hi <= ts@.len(),
            find_clause(toks(ts@), lo as int, hi as int) == find_clause(
                toks(ts@),
                k as int,
                hi as int,
            ),
        decreases hi - k,
    {
        proof {
            assert(toks(ts@)[k as int] == ts@[k as int]@);
        }
        k = k + 1;
    }
    proof {
        if k < hi {
            assert(toks(ts@)[k as int] == ts@[k as int]@);
        }
    }
    k
}

fn find_body_x(ts: &Vec<Token>, lo: usize, hi: usize) -> (j: usize)
    requires
        lo <= hi <= ts@.len(),
    ensures
        j as int == find_body(toks(ts@), lo as int, hi as int),
        lo <= j <= hi,
        j < hi ==> is_brace_group(toks(ts@)[j as int]),
{
    let mut k = lo;
    while k < hi && !t_is_brace_group(&ts[k])
        invariant
            lo <= k <= hi <= ts@.len(),
            find_body(toks(ts@), lo as int, hi as int) == find_body(
                toks(ts@),
                k as int,
                hi as int,
            ),
        decreases hi - k,
    {
        proof {
            assert(toks(ts@)[k as int] == ts@[k as int]@);
        }
        k = k + 1;
    }
    proof {
        if k < hi {
            assert(toks(ts@)[k as int] == ts@[k as int]@);
        }
    }
    k
}

fn find_meta_sep_x(ts: &Vec<Token>, lo: usize, hi: usize) -> (j: usize)
    requires
        lo <= hi <= ts@.len(),
    ensures
        j as int == find_meta_sep(toks(ts@), lo as int, hi as int),
        lo <= j <= hi,
{
    let mut k = lo;
    while k < hi && !t_is_meta_sep(&ts[k])
        invariant
            lo <= k <= hi <= ts@.len(),
            find_meta_sep(toks(ts@), lo as int, hi as int) == find_meta_sep(
                toks(ts@),
                k as int,
                hi as int,
            ),
        decreases hi - k,
    {
        proof {
            assert(toks(ts@)[k as int] == ts@[k as int]@);
        }
        k = k + 1;
    }
    proof {
        if k < hi {
            assert(toks(ts@)[k as int] == ts@[k as int]@);
        }
    }
    k
}

/// Whether the range holds a `public` marker.
fn scan_has_pub(ts: &Vec<Token>, lo: usize, hi: usize) -> (b: bool)
    requires
        lo <= hi <= ts@.len(),
    ensures
        b == has_pub(toks(ts@), lo as int, hi as int),
{
    let mut k = lo;
    while k < hi
        invariant
            lo <= k <= hi <= ts@.len(),
            forall|m: int| lo <= m < k as int ==> !is_id(#[trigger] toks(ts@)[m], kw_public()),
        decreases hi - k,
    {
        if t_is_id(&ts[k], "public") {
            proof {
                assert(toks(ts@)[k as int] == ts@[k as int]@);
                assert(is_id(toks(ts@)[k as int], kw_public()));
            }
            return true;
        }
        proof {
            assert(toks(ts@)[k as int] == ts@[k as int]@);
        }
        k = k + 1;
    }
    false
}

/// Whether the range holds a `static` marker.
fn scan_has_static(ts: &Vec<Token>, lo: usize, hi: usize) -> (b: bool)
    requires
        lo <= hi <= ts@.len(),
    ensures
        b == has_static(toks(ts@), lo as int, hi as int),
{
    let mut k = lo;
    while k < hi
        invariant
            lo <= k <= hi <= ts@.len(),
            forall|m: int| lo <= m < k as int ==> !is_id(#[trigger] toks(ts@)[m], kw_static()),
        decreases hi - k,
    {
        if t_is_id(&ts[k], "static") {
            proof {
                assert(toks(ts@)[k as int] == ts@[k as int]@);
                assert(is_id(toks(ts@)[k as int], kw_static()));
            }
            return true;
        }
        proof {
            assert(toks(ts@)[k as int] == ts@[k as int]@);
        }
        k = k + 1;
    }
    false
}

/// The segments of a qualified name.
fn parse_name_segs(ts: &Vec<Token>, lo: usize, hi: usize, expect_id: bool) -> (r: Result<
    Vec<String>,
    GenError,
>)
    requires
        lo <= hi <= ts@.len(),
    ensures
        match r {
            Ok(v) => sp_name_segs(toks(ts@), lo as int, hi as int, expect_id) == Ok::<
                Seq<Seq<char>>,
                ErrorKind,
            >(segs(v@)),
            Err(e) => sp_name_segs(toks(ts@), lo as int, hi as int, expect_id) == Err::<
                Seq<Seq<char>>,
                ErrorKind,
            >(e.kind),
        },
    decreases hi - lo,
{
    if lo >= hi {
        let v: Vec<String> = Vec::new();
        proof {
            assert(segs(v@) =~= Seq::<Seq<char>>::empty());
        }
        return Ok(v);
    }
    proof {
        assert(toks(ts@)[lo as int] == ts@[lo as int]@);
    }
    if expect_id {
        match &ts[lo] {
            Token::Ident(s) => {
                let seg = s.clone();
                match parse_name_segs(ts, lo + 1, hi, false) {
                    Ok(mut rest) => {
                        crate::name::prepend_segment(&mut rest, seg);
                        Ok(rest)
                    },
                    Err(e) => Err(e),
                }
            },
            _ => Err(crate::error::err(ErrorKind::ExpectedIdent, "")),
        }
    } else {
        if t_is_punct(&ts[lo], '.') {
            parse_name_segs(ts, lo + 1, hi, true)
        } else {
            Err(crate::error::err(ErrorKind::ExpectedDot, ""))
        }
    }
}

/// A qualified name read from `[lo, hi)`.
fn parse_name(ts: &Vec<Token>, lo: usize, hi: usize) -> (r: Result<JavaName, GenError>)
    requires
        lo <= hi <= ts@.len(),
    ensures
        match r {
            Ok(n) => sp_name(toks(ts@), lo as int, hi as int) == Ok::<Seq<Seq<char>>, ErrorKind>(
                n@,
            ),
            Err(e) => sp_name(toks(ts@), lo as int, hi as int) == Err::<
                Seq<Seq<char>>,
                ErrorKind,
            >(e.kind),
        },
{
    if lo >= hi {
        return Err(crate::error::err(ErrorKind::ExpectedName, ""));
    }
    match parse_name_segs(ts, lo, hi, true) {
        Ok(v) => Ok(JavaName { segments: v }),
        Err(e) => Err(e),
    }
}

/// Comma-separated qualified names.
fn parse_comma_names(ts: &Vec<Token>, lo: usize, hi: usize) -> (r: Result<Vec<JavaName>, GenError>)
    requires
        lo <= hi <= ts@.len(),
    ensures
        match r {
            Ok(v) => sp_comma_names(toks(ts@), lo as int, hi as int) == Ok::<
                Seq<Seq<Seq<char>>>,
                ErrorKind,
            >(names_view(v@)),
            Err(e) => sp_comma_names(toks(ts@), lo as int, hi as int) == Err::<
                Seq<Seq<Seq<char>>>,
                ErrorKind,
            >(e.kind),
        },
    decreases hi - lo,
{
    if lo >= hi {
        let v: Vec<JavaName> = Vec::new();
        proof {
            assert(names_view(v@) =~= Seq::<Seq<Seq<char>>>::empty());
        }
        return Ok(v);
    }
    let j = find_comma_x(ts, lo, hi);
    if j == lo {
        return parse_comma_names(ts, lo + 1, hi);
    }
    match parse_name(ts, lo, j) {
        Ok(n) => {
            if j >= hi {
                let ghost nm = n@;
                let mut v: Vec<JavaName> = Vec::new();
                v.push(n);
                proof {
                    assert(names_view(v@) =~= seq![nm]);
                }
                Ok(v)
            } else {
                match parse_comma_names(ts, j + 1, hi) {
                    Ok(mut rest) => {
                        crate::ast::prepend_name(&mut rest, n);
                        Ok(rest)
                    },
                    Err(e) => Err(e),
                }
            }
        },
        Err(e) => Err(e),
    }
}

/// An interface header.
fn parse_interface_header(ts: &Vec<Token>, lo: usize, hi: usize) -> (r: Result<
    (JavaName, Vec<JavaName>),
    GenError,
>)
    requires
        lo <= hi <= ts@.len(),
    ensures
        match r {
            Ok(p) => sp_iface_header(toks(ts@), lo as int, hi as int) == Ok::<
                (Seq<Seq<char>>, Seq<Seq<Seq<char>>>),
                ErrorKind,
            >((p.0@, names_view(p.1@))),
            Err(e) => sp_iface_header(toks(ts@), lo as int, hi as int) == Err::<
                (Seq<Seq<char>>, Seq<Seq<Seq<char>>>),
                ErrorKind,
            >(e.kind),
        },
{
    let e = find_extends_x(ts, lo, hi);
    match parse_name(ts, lo, e) {
        Ok(n) => {
            if e < hi {
                match parse_comma_names(ts, e + 1, hi) {
                    Ok(x) => Ok((n, x)),
                    Err(er) => Err(er),
                }
            } else {
                let x: Vec<JavaName> = Vec::new();
                proof {
                    assert(names_view(x@) =~= Seq::<Seq<Seq<char>>>::empty());
                }
                Ok((n, x))
            }
        },
        Err(er) => Err(er),
    }
}

/// The inheritance clauses of a class header.
fn parse_class_clauses(
    ts: &Vec<Token>,
    k: usize,
    hi: usize,
    ext: Option<JavaName>,
    imp: Option<Vec<JavaName>>,
) -> (r: Result<(Option<JavaName>, Vec<JavaName>), GenError>)
    requires
        k <= hi <= ts@.len(),
    ensures
        match r {
            Ok(p) => sp_class_clauses(
                toks(ts@),
                k as int,
                hi as int,
                opt_name_view(ext),
                match imp {
                    Option::Some(v) => Some(names_view(v@)),
                    Option::None => None,
                },
            ) == Ok::<(Option<Seq<Seq<char>>>, Seq<Seq<Seq<char>>>), ErrorKind>(
                (opt_name_view(p.0), names_view(p.1@)),
            ),
            Err(e) => sp_class_clauses(
                toks(ts@),
                k as int,
                hi as int,
                opt_name_view(ext),
                match imp {
                    Option::Some(v) => Some(names_view(v@)),
                    Option::None => None,
                },
            ) == Err::<(Option<Seq<Seq<char>>>, Seq<Seq<Seq<char>>>), ErrorKind>(e.kind),
        },
    decreases hi - k,
{
    if k >= hi {
        let out_imp: Vec<JavaName> = match imp {
            Option::Some(v) => v,
            Option::None => {
                let v: Vec<JavaName> = Vec::new();
                proof {
                    assert(names_view(v@) =~= Seq::<Seq<Seq<char>>>::empty());
                }
                v
            },
        };
        return Ok((ext, out_imp));
    }
    proof {
        assert(toks(ts@)[k as int] == ts@[k as int]@);
    }
    if t_is_id(&ts[k], "extends") {
        match ext {
            Option::Some(_) => Err(crate::error::err(ErrorKind::DuplicateClause, "")),
            Option::None => {
                let j = find_clause_x(ts, k + 1, hi);
                match parse_name(ts, k + 1, j) {
                    Ok(n) => parse_class_clauses(ts, j, hi, Some(n), imp),
                    Err(e) => Err(e),
                }
            },
        }
    } else if t_is_id(&ts[k], "implements") {
        match imp {
            Option::Some(_) => Err(crate::error::err(ErrorKind::DuplicateClause, "")),
            Option::None => {
                let j = find_clause_x(ts, k + 1, hi);
                match parse_comma_names(ts, k + 1, j) {
                    Ok(x) => parse_class_clauses(ts, j, hi, ext, Some(x)),
                    Err(e) => Err(e),
                }
            },
        }
    } else {
        Err(crate::error::err(ErrorKind::ExpectedKind, ""))
    }
}

/// A class header.
fn parse_class_header(ts: &Vec<Token>, lo: usize, hi: usize) -> (r: Result<
    (JavaName, Option<JavaName>, Vec<JavaName>),
    GenError,
>)
    requires
        lo <= hi <= ts@.len(),
    ensures
        match r {
            Ok(p) => sp_class_header(toks(ts@), lo as int, hi as int) == Ok::<
                (Seq<Seq<char>>, Option<Seq<Seq<char>>>, Seq<Seq<Seq<char>>>),
                ErrorKind,
            >((p.0@, opt_name_view(p.1), names_view(p.2@))),
            Err(e) => sp_class_header(toks(ts@), lo as int, hi as int) == Err::<
                (Seq<Seq<char>>, Option<Seq<Seq<char>>>, Seq<Seq<Seq<char>>>),
                ErrorKind,
            >(e.kind),
        },
{
    let k = find_clause_x(ts, lo, hi);
    match parse_name(ts, lo, k) {
        Ok(n) => match parse_class_clauses(ts, k, hi, Option::None, Option::None) {
            Ok((e, im)) => Ok((n, e, im)),
            Err(er) => Err(er),
        },
        Err(er) => Err(er),
    }
}

/// A copy of one token with the same value.
fn deep_copy(t: &Token) -> (r: Token)
    ensures
        r@ == t@,
    decreases t,
{
    match t {
        Token::Ident(s) => Token::Ident(s.clone()),
        Token::Lit(s) => Token::Lit(s.clone()),
        Token::Punct(c) => Token::Punct(*c),
        Token::Group(d, ts) => Token::Group(*d, copy_toks(ts)),
    }
}

/// A copy of a token vector with the same values.
fn copy_toks(ts: &Vec<Token>) -> (r: Vec<Token>)
    ensures
        toks(r@) == toks(ts@),
        r@.len() == ts@.len(),
    decreases ts,
{
    let mut v: Vec<Token> = Vec::new();
    let mut i: usize = 0;
    while i < ts.len()
        invariant
            i <= ts@.len(),
            v@.len() == i as int,
            forall|k: int| 0 <= k < i as int ==> v@[k]@ == ts@[k]@,
        decreases ts@.len() - i,
    {
        v.push(deep_copy(&ts[i]));
        i = i + 1;
    }
    proof {
        assert(toks(v@) =~= toks(ts@));
    }
    v
}

/// The tokens of `[lo, hi)` with the visibility (and, for methods, static)
/// markers removed.
fn strip_tokens(ts: &Vec<Token>, lo: usize, hi: usize, also_static: bool) -> (r: Vec<Token>)
    requires
        lo <= hi <= ts@.len(),
    ensures
        also_static ==> toks(r@) == strip_m(toks(ts@).subrange(lo as int, hi as int)),
        !also_static ==> toks(r@) == strip_c(toks(ts@).subrange(lo as int, hi as int)),
{
    let ghost whole = toks(ts@);
    let mut v: Vec<Token> = Vec::new();
    let mut i: usize = lo;
    proof {
        assert(whole.subrange(lo as int, lo as int) =~= Seq::<TokenModel>::empty());
        assert(toks(v@) =~= Seq::<TokenModel>::empty());
    }
    while i < hi
        invariant
            lo <= i <= hi <= ts@.len(),
            whole == toks(ts@),
            also_static ==> toks(v@) == strip_m(whole.subrange(lo as int, i as int)),
            !also_static ==> toks(v@) == strip_c(whole.subrange(lo as int, i as int)),
        decreases hi - i,
    {
        let drop = if also_static {
            t_is_id(&ts[i], "public") || t_is_id(&ts[i], "static")
        } else {
            t_is_id(&ts[i], "public")
        };
        proof {
            assert(whole[i as int] == ts@[i as int]@);
            assert(whole.subrange(lo as int, i + 1 as int).drop_last() =~= whole.subrange(
                lo as int,
                i as int,
            ));
            assert(whole.subrange(lo as int, i + 1 as int).last() == whole[i as int]);
        }
        if !drop {
            let ghost vm = toks(v@);
            v.push(deep_copy(&ts[i]));
            proof {
                assert(toks(v@) =~= vm.push(whole[i as int]));
            }
        }
        i = i + 1;
    }
    v
}

/// The argument list: a parenthesized group of comma-separated arguments.
fn parse_args_of(t: &Token) -> (r: Result<Vec<MethodArgument>, GenError>)
    ensures
        match r {
            Ok(v) => sp_args_of(t@) == Ok::<Seq<ArgModel>, ErrorKind>(args_view(v@)),
            Err(e) => sp_args_of(t@) == Err::<Seq<ArgModel>, ErrorKind>(e.kind),
        },
{
    match t {
        Token::Group(d, inner) => {
            if *d == Delim::Paren {
                parse_args(inner, 0, inner.len())
            } else {
                Err(crate::error::err(ErrorKind::ExpectedArguments, ""))
            }
        },
        _ => Err(crate::error::err(ErrorKind::ExpectedArguments, "")),
    }
}

/// One argument: type tokens, then the binding name.
fn parse_arg(ts: &Vec<Token>, lo: usize, hi: usize) -> (r: Result<MethodArgument, GenError>)
    requires
        lo <= hi <= ts@.len(),
    ensures
        match r {
            Ok(a) => sp_arg(toks(ts@), lo as int, hi as int) == Ok::<ArgModel, ErrorKind>(a@),
            Err(e) => sp_arg(toks(ts@), lo as int, hi as int) == Err::<ArgModel, ErrorKind>(
                e.kind,
            ),
        },
{
    if lo >= hi {
        return Err(crate::error::err(ErrorKind::ExpectedArgumentName, ""));
    }
    proof {
        assert(toks(ts@)[hi - 1] == ts@[hi - 1]@);
    }
    match &ts[hi - 1] {
        Token::Ident(s) => {
            let name = s.clone();
            match parse_name(ts, lo, hi - 1) {
                Ok(ty) => Ok(MethodArgument { name, data_type: ty }),
                Err(e) => Err(e),
            }
        },
        _ => Err(crate::error::err(ErrorKind::ExpectedArgumentName, "")),
    }
}

/// Comma-separated arguments.
fn parse_args(ts: &Vec<Token>, lo: usize, hi: usize) -> (r: Result<Vec<MethodArgument>, GenError>)
    requires
        lo <= hi <= ts@.len(),
    ensures
        match r {
            Ok(v) => sp_args(toks(ts@), lo as int, hi as int) == Ok::<Seq<ArgModel>, ErrorKind>(
                args_view(v@),
            ),
            Err(e) => sp_args(toks(ts@), lo as int, hi as int) == Err::<Seq<ArgModel>, ErrorKind>(
                e.kind,
            ),
        },
    decreases hi - lo,
{
    if lo >= hi {
        let v: Vec<MethodArgument> = Vec::new();
        proof {
            assert(args_view(v@) =~= Seq::<ArgModel>::empty());
        }
        return Ok(v);
    }
    let j = find_comma_x(ts, lo, hi);
    if j == lo {
        return parse_args(ts, lo + 1, hi);
    }
    match parse_arg(ts, lo, j) {
        Ok(a) => {
            if j >= hi {
                let ghost am = a@;
                let mut v: Vec<MethodArgument> = Vec::new();
                v.push(a);
                proof {
                    assert(args_view(v@) =~= seq![am]);
                }
                Ok(v)
            } else {
                match parse_args(ts, j + 1, hi) {
                    Ok(mut rest) => {
                        crate::ast::prepend_arg(&mut rest, a);
                        Ok(rest)
                    },
                    Err(e) => Err(e),
                }
            }
        },
        Err(e) => Err(e),
    }
}

/// Whether `[a, b)` is exactly the dotted token form of the name.
fn matches_name_x(ts: &Vec<Token>, a: usize, b: usize, n: &JavaName) -> (r: bool)
    requires
        a <= b <= ts@.len(),
    ensures
        r == sp_matches_name(toks(ts@), a as int, b as int, n@),
{
    let len = n.segments.len();
    if len == 0 {
        return false;
    }
    if b == a || (b - a) % 2 != 1 {
        return false;
    }
    if len != (b - a) / 2 + 1 {
        proof {
            assert(2 * n@.len() - 1 != b - a);
        }
        return false;
    }
    proof {
        assert(b - a == 2 * n@.len() - 1);
    }
    let mut k: usize = 0;
    while k < len
        invariant
            0 < len == n.segments@.len(),
            a <= b <= ts@.len(),
            b - a == 2 * (len as int) - 1,
            k <= len,
            forall|m: int| 0 <= m < k as int ==> toks(ts@)[a + 2 * m] == TokenModel::Ident(
                #[trigger] n@[m],
            ),
            forall|m: int| 1 <= m < k as int ==> is_dot(
                #[trigger] toks(ts@)[a + 2 * m - 1],
            ),
        decreases len - k,
    {
        let idx = a + 2 * k;
        proof {
            assert(2 * (k as int) <= 2 * (len as int) - 2);
            assert(idx as int == a + 2 * (k as int));
            assert(toks(ts@)[idx as int] == ts@[idx as int]@);
        }
        if k > 0 {
            proof {
                assert(toks(ts@)[idx - 1] == ts@[idx - 1]@);
            }
            if !t_is_punct(&ts[idx - 1], '.') {
                proof {
                    assert(!is_dot(toks(ts@)[a + 2 * (k as int) - 1]));
                    assert(!is_dot(toks(ts@)[a + 2 * (k as int - 1) + 1]));
                }
                return false;
            }
        }
        match &ts[idx] {
            Token::Ident(s) => {
                if !(*s == n.segments[k]) {
                    proof {
                        assert(n@[k as int] == n.segments@[k as int]@);
                        assert(toks(ts@)[a + 2 * (k as int)] != TokenModel::Ident(n@[k as int]));
                    }
                    return false;
                }
                proof {
                    assert(n@[k as int] == n.segments@[k as int]@);
                    assert(toks(ts@)[a + 2 * (k as int)] == TokenModel::Ident(n@[k as int]));
                }
            },
            _ => {
                proof {
                    assert(toks(ts@)[a + 2 * (k as int)] != TokenModel::Ident(n@[k as int]));
                }
                return false;
            },
        }
        k = k + 1;
    }
    proof {
        assert forall|m: int| 0 <= m < n@.len() - 1 implies is_dot(
            #[trigger] toks(ts@)[a + 2 * m + 1],
        ) by {
            assert(is_dot(toks(ts@)[a + 2 * (m + 1) - 1]));
        }
    }
    true
}

/// Whether a body chunk declares a constructor.
fn is_ctor_x(ts: &Vec<Token>, lo: usize, hi: usize, n: &JavaName) -> (r: bool)
    requires
        lo < hi <= ts@.len(),
    ensures
        r == sp_is_ctor(toks(ts@), lo as int, hi as int, n@),
{
    let p = scan_has_pub(ts, lo, hi);
    if p {
        if hi - lo < 2 {
            false
        } else {
            matches_name_x(ts, lo + 1, hi - 1, n)
        }
    } else {
        matches_name_x(ts, lo, hi - 1, n)
    }
}

/// One constructor chunk.
fn parse_constructor(ts: &Vec<Token>, lo: usize, hi: usize) -> (r: Result<
    JavaConstructor,
    GenError,
>)
    requires
        lo <= hi <= ts@.len(),
    ensures
        match r {
            Ok(c) => sp_ctor(toks(ts@), lo as int, hi as int) == Ok::<CtorModel, ErrorKind>(c@),
            Err(e) => sp_ctor(toks(ts@), lo as int, hi as int) == Err::<CtorModel, ErrorKind>(
                e.kind,
            ),
        },
{
    let public = scan_has_pub(ts, lo, hi);
    let f = strip_tokens(ts, lo, hi, false);
    if f.len() == 0 {
        return Err(crate::error::err(ErrorKind::ExpectedArguments, ""));
    }
    proof {
        assert(toks(f@)[f@.len() - 1] == f@[f@.len() - 1]@);
    }
    match parse_args_of(&f[f.len() - 1]) {
        Ok(args) => Ok(JavaConstructor { arguments: args, public }),
        Err(e) => Err(e),
    }
}

/// One method chunk.
fn parse_method(ts: &Vec<Token>, lo: usize, hi: usize) -> (r: Result<JavaClassMethod, GenError>)
    requires
        lo <= hi <= ts@.len(),
    ensures
        match r {
            Ok(m) => sp_method(toks(ts@), lo as int, hi as int) == Ok::<MethodModel, ErrorKind>(
                m@,
            ),
            Err(e) => sp_method(toks(ts@), lo as int, hi as int) == Err::<MethodModel, ErrorKind>(
                e.kind,
            ),
        },
{
    let public = scan_has_pub(ts, lo, hi);
    let is_static = scan_has_static(ts, lo, hi);
    let f = strip_tokens(ts, lo, hi, true);
    if f.len() < 2 {
        return Err(crate::error::err(ErrorKind::ExpectedMethodName, ""));
    }
    proof {
        assert(toks(f@)[f@.len() - 2] == f@[f@.len() - 2]@);
        assert(toks(f@)[f@.len() - 1] == f@[f@.len() - 1]@);
    }
    let name = match &f[f.len() - 2] {
        Token::Ident(s) => s.clone(),
        _ => {
            return Err(crate::error::err(ErrorKind::ExpectedMethodName, ""));
        },
    };
    let return_type = match parse_name(&f, 0, f.len() - 2) {
        Ok(t) => t,
        Err(e) => {
            return Err(e);
        },
    };
    match parse_args_of(&f[f.len() - 1]) {
        Ok(args) => Ok(
            JavaClassMethod { name, return_type, arguments: args, public, is_static },
        ),
        Err(e) => Err(e),
    }
}

/// The constructors of a class body.
fn parse_ctors(ts: &Vec<Token>, lo: usize, hi: usize, n: &JavaName) -> (r: Result<
    Vec<JavaConstructor>,
    GenError,
>)
    requires
        lo <= hi <= ts@.len(),
    ensures
        match r {
            Ok(v) => sp_ctors(toks(ts@), lo as int, hi as int, n@) == Ok::<
                Seq<CtorModel>,
                ErrorKind,
            >(ctors_view(v@)),
            Err(e) => sp_ctors(toks(ts@), lo as int, hi as int, n@) == Err::<
                Seq<CtorModel>,
                ErrorKind,
            >(e.kind),
        },
    decreases hi - lo,
{
    if lo >= hi {
        let v: Vec<JavaConstructor> = Vec::new();
        proof {
            assert(ctors_view(v@) =~= Seq::<CtorModel>::empty());
        }
        return Ok(v);
    }
    let j = find_semi_x(ts, lo, hi);
    if j == lo {
        return parse_ctors(ts, lo + 1, hi, n);
    }
    if is_ctor_x(ts, lo, j, n) {
        match parse_constructor(ts, lo, j) {
            Ok(c) => {
                if j >= hi {
                    let ghost cm = c@;
                    let mut v: Vec<JavaConstructor> = Vec::new();
                    v.push(c);
                    proof {
                        assert(ctors_view(v@) =~= seq![cm]);
                    }
                    Ok(v)
                } else {
                    match parse_ctors(ts, j + 1, hi, n) {
                        Ok(mut rest) => {
                            crate::ast::prepend_ctor(&mut rest, c);
                            Ok(rest)
                        },
                        Err(e) => Err(e),
                    }
                }
            },
            Err(e) => Err(e),
        }
    } else {
        if j >= hi {
            let v: Vec<JavaConstructor> = Vec::new();
            proof {
                assert(ctors_view(v@) =~= Seq::<CtorModel>::empty());
            }
            Ok(v)
        } else {
            parse_ctors(ts, j + 1, hi, n)
        }
    }
}

/// The methods of a class body.
fn parse_methods(ts: &Vec<Token>, lo: usize, hi: usize, n: &JavaName) -> (r: Result<
    Vec<JavaClassMethod>,
    GenError,
>)
    requires
        lo <= hi <= ts@.len(),
    ensures
        match r {
            Ok(v) => sp_methods(toks(ts@), lo as int, hi as int, n@) == Ok::<
                Seq<MethodModel>,
                ErrorKind,
            >(methods_view(v@)),
            Err(e) => sp_methods(toks(ts@), lo as int, hi as int, n@) == Err::<
                Seq<MethodModel>,
                ErrorKind,
            >(e.kind),
        },
    decreases hi - lo,
{
    if lo >= hi {
        let v: Vec<JavaClassMethod> = Vec::new();
        proof {
            assert(methods_view(v@) =~= Seq::<MethodModel>::empty());
        }
        return Ok(v);
    }
    let j = find_semi_x(ts, lo, hi);
    if j == lo {
        return parse_methods(ts, lo + 1, hi, n);
    }
    if !is_ctor_x(ts, lo, j, n) {
        match parse_method(ts, lo, j) {
            Ok(m) => {
                if j >= hi {
                    let ghost mm = m@;
                    let mut v: Vec<JavaClassMethod> = Vec::new();
                    v.push(m);
                    proof {
                        assert(methods_view(v@) =~= seq![mm]);
                    }
                    Ok(v)
                } else {
                    match parse_methods(ts, j + 1, hi, n) {
                        Ok(mut rest) => {
                            crate::ast::prepend_method(&mut rest, m);
                            Ok(rest)
                        },
                        Err(e) => Err(e),
                    }
                }
            },
            Err(e) => Err(e),
        }
    } else {
        if j >= hi {
            let v: Vec<JavaClassMethod> = Vec::new();
            proof {
                assert(methods_view(v@) =~= Seq::<MethodModel>::empty());
            }
            Ok(v)
        } else {
            parse_methods(ts, j + 1, hi, n)
        }
    }
}

/// A parsed declaration header, before its body is attached.
enum Head {
    ClassHead(JavaName, Option<JavaName>, Vec<JavaName>, bool),
    IfaceHead(JavaName, Vec<JavaName>, bool),
}

/// The value of a parsed header.
spec fn head_view(h: Head) -> HeadModel {
    match h {
        Head::ClassHead(n, e, im, p) => HeadModel::ClassHead(
            n@,
            opt_name_view(e),
            names_view(im@),
            p,
        ),
        Head::IfaceHead(n, x, p) => HeadModel::IfaceHead(n@, names_view(x@), p),
    }
}

/// A declaration header: optional `public`, introducer, kind header.
fn parse_def_head(ts: &Vec<Token>, lo: usize, hi: usize) -> (r: Result<Head, GenError>)
    requires
        lo <= hi <= ts@.len(),
    ensures
        match r {
            Ok(h) => sp_def_head(toks(ts@), lo as int, hi as int) == Ok::<HeadModel, ErrorKind>(
                head_view(h),
            ),
            Err(e) => sp_def_head(toks(ts@), lo as int, hi as int) == Err::<HeadModel, ErrorKind>(
                e.kind,
            ),
        },
{
    if lo >= hi {
        return Err(crate::error::err(ErrorKind::ExpectedKind, ""));
    }
    proof {
        assert(toks(ts@)[lo as int] == ts@[lo as int]@);
    }
    let p = t_is_id(&ts[lo], "public");
    let l2 = if p {
        lo + 1
    } else {
        lo
    };
    if l2 >= hi {
        return Err(crate::error::err(ErrorKind::ExpectedKind, ""));
    }
    proof {
        assert(toks(ts@)[l2 as int] == ts@[l2 as int]@);
    }
    if t_is_id(&ts[l2], "class") {
        match parse_class_header(ts, l2 + 1, hi) {
            Ok((n, e, im)) => Ok(Head::ClassHead(n, e, im, p)),
            Err(er) => Err(er),
        }
    } else if t_is_id(&ts[l2], "interface") {
        match parse_interface_header(ts, l2 + 1, hi) {
            Ok((n, x)) => Ok(Head::IfaceHead(n, x, p)),
            Err(er) => Err(er),
        }
    } else {
        Err(crate::error::err(ErrorKind::ExpectedKind, ""))
    }
}

/// One declaration with its body.
fn parse_def(ts: &Vec<Token>, lo: usize, g: usize) -> (r: Result<JavaDefinition, GenError>)
    requires
        lo <= g < ts@.len(),
        toks(ts@)[g as int] is Group,
    ensures
        match r {
            Ok(d) => sp_def(toks(ts@), lo as int, g as int) == Ok::<DefModel, ErrorKind>(d@),
            Err(e) => sp_def(toks(ts@), lo as int, g as int) == Err::<DefModel, ErrorKind>(
                e.kind,
            ),
        },
{
    match parse_def_head(ts, lo, g) {
        Ok(h) => {
            match h {
                Head::IfaceHead(n, x, p) => Ok(
                    JavaDefinition {
                        name: n,
                        public: p,
                        definition: JavaDefinitionKind::Interface(JavaInterface { extends: x }),
                    },
                ),
                Head::ClassHead(n, e, im, p) => {
                    proof {
                        assert(toks(ts@)[g as int] == ts@[g as int]@);
                    }
                    match &ts[g] {
                        Token::Group(_, inner) => {
                            match parse_ctors(inner, 0, inner.len(), &n) {
                                Ok(cs) => match parse_methods(inner, 0, inner.len(), &n) {
                                    Ok(ms) => Ok(
                                        JavaDefinition {
                                            name: n,
                                            public: p,
                                            definition: JavaDefinitionKind::Class(
                                                JavaClass {
                                                    extends: e,
                                                    implements: im,
                                                    methods: ms,
                                                    constructors: cs,
                                                },
                                            ),
                                        },
                                    ),
                                    Err(er) => Err(er),
                                },
                                Err(er) => Err(er),
                            }
                        },
                        _ => {
                            proof {
                                assert(false);
                            }
                            Err(crate::error::err(ErrorKind::ExpectedBody, ""))
                        },
                    }
                },
            }
        },
        Err(er) => Err(er),
    }
}

/// The declarations of `[lo, hi)`.
fn parse_defs(ts: &Vec<Token>, lo: usize, hi: usize) -> (r: Result<Vec<JavaDefinition>, GenError>)
    requires
        lo <= hi <= ts@.len(),
    ensures
        match r {
            Ok(v) => sp_defs(toks(ts@), lo as int, hi as int) == Ok::<Seq<DefModel>, ErrorKind>(
                defs_view(v@),
            ),
            Err(e) => sp_defs(toks(ts@), lo as int, hi as int) == Err::<Seq<DefModel>, ErrorKind>(
                e.kind,
            ),
        },
    decreases hi - lo,
{
    if lo >= hi {
        let v: Vec<JavaDefinition> = Vec::new();
        proof {
            assert(defs_view(v@) =~= Seq::<DefModel>::empty());
        }
        return Ok(v);
    }
    let g = find_body_x(ts, lo, hi);
    if g >= hi {
        return match parse_def_head(ts, lo, hi) {
            Ok(_) => Err(crate::error::err(ErrorKind::ExpectedBody, "")),
            Err(e) => Err(e),
        };
    }
    if g == lo {
        return Err(crate::error::err(ErrorKind::ExpectedKind, ""));
    }
    proof {
        assert(toks(ts@)[g as int] == ts@[g as int]@);
    }
    match parse_def(ts, lo, g) {
        Ok(d) => match parse_defs(ts, g + 1, hi) {
            Ok(mut rest) => {
                crate::ast::prepend_def(&mut rest, d);
                Ok(rest)
            },
            Err(e) => Err(e),
        },
        Err(e) => Err(e),
    }
}

/// One metadata stub.
fn parse_stub(ts: &Vec<Token>, lo: usize, hi: usize) -> (r: Result<
    JavaDefinitionMetadata,
    GenError,
>)
    requires
        lo <= hi <= ts@.len(),
    ensures
        match r {
            Ok(m) => sp_stub(toks(ts@), lo as int, hi as int) == Ok::<StubModel, ErrorKind>(m@),
            Err(e) => sp_stub(toks(ts@), lo as int, hi as int) == Err::<StubModel, ErrorKind>(
                e.kind,
            ),
        },
{
    if lo >= hi {
        return Err(crate::error::err(ErrorKind::ExpectedKind, ""));
    }
    proof {
        assert(toks(ts@)[lo as int] == ts@[lo as int]@);
    }
    if t_is_id(&ts[lo], "class") {
        match parse_class_header(ts, lo + 1, hi) {
            Ok((n, e, im)) => Ok(
                JavaDefinitionMetadata {
                    name: n,
                    definition: JavaDefinitionMetadataKind::Class(
                        JavaClassMetadata { extends: e, implements: im },
                    ),
                },
            ),
            Err(er) => Err(er),
        }
    } else if t_is_id(&ts[lo], "interface") {
        match parse_interface_header(ts, lo + 1, hi) {
            Ok((n, x)) => Ok(
                JavaDefinitionMetadata {
                    name: n,
                    definition: JavaDefinitionMetadataKind::Interface(
                        JavaInterfaceMetadata { extends: x },
                    ),
                },
            ),
            Err(er) => Err(er),
        }
    } else {
        Err(crate::error::err(ErrorKind::ExpectedKind, ""))
    }
}

/// The stubs of a metadata block.
fn parse_stubs(ts: &Vec<Token>, lo: usize, hi: usize) -> (r: Result<
    Vec<JavaDefinitionMetadata>,
    GenError,
>)
    requires
        lo <= hi <= ts@.len(),
    ensures
        match r {
            Ok(v) => sp_stubs(toks(ts@), lo as int, hi as int) == Ok::<
                Seq<StubModel>,
                ErrorKind,
            >(stubs_view(v@)),
            Err(e) => sp_stubs(toks(ts@), lo as int, hi as int) == Err::<
                Seq<StubModel>,
                ErrorKind,
            >(e.kind),
        },
    decreases hi - lo,
{
    if lo >= hi {
        let v: Vec<JavaDefinitionMetadata> = Vec::new();
        proof {
            assert(stubs_view(v@) =~= Seq::<StubModel>::empty());
        }
        return Ok(v);
    }
    let j = find_meta_sep_x(ts, lo, hi);
    if j == lo {
        return parse_stubs(ts, lo + 1, hi);
    }
    match parse_stub(ts, lo, j) {
        Ok(m) => {
            if j >= hi {
                let ghost mm = m@;
                let mut v: Vec<JavaDefinitionMetadata> = Vec::new();
                v.push(m);
                proof {
                    assert(stubs_view(v@) =~= seq![mm]);
                }
                Ok(v)
            } else {
                match parse_stubs(ts, j + 1, hi) {
                    Ok(mut rest) => {
                        crate::ast::prepend_stub(&mut rest, m);
                        Ok(rest)
                    },
                    Err(e) => Err(e),
                }
            }
        },
        Err(e) => Err(e),
    }
}

/// Parse a whole input: the declarations and the optional trailing metadata
/// block.  Returns exactly what `sp_parse` describes of the token values, or
/// the failure it describes.
pub fn parse_java_definition(input: &Vec<Token>) -> (r: Result<JavaDefinitions, GenError>)
    ensures
        match r {
            Ok(d) => sp_parse(toks(input@)) == Ok::<DefsModel, ErrorKind>(d@),
            Err(e) => sp_parse(toks(input@)) == Err::<DefsModel, ErrorKind>(e.kind),
        },
{
    let n = input.len();
    if n > 1 {
        proof {
            assert(toks(input@)[n - 2] == input@[n - 2]@);
            assert(toks(input@)[n - 1] == input@[n - 1]@);
        }
        if t_is_id(&input[n - 2], "metadata") {
            return match &input[n - 1] {
                Token::Group(d, inner) => {
                    if *d == Delim::Brace {
                        match parse_stubs(inner, 0, inner.len()) {
                            Ok(meta) => match parse_defs(input, 0, n - 2) {
                                Ok(defs) => Ok(
                                    JavaDefinitions {
                                        definitions: defs,
                                        metadata: Metadata { definitions: meta },
                                    },
                                ),
                                Err(e) => Err(e),
                            },
                            Err(e) => Err(e),
                        }
                    } else {
                        Err(crate::error::err(ErrorKind::ExpectedBraces, ""))
                    }
                },
                _ => Err(crate::error::err(ErrorKind::ExpectedBraces, "")),
            };
        }
    }
    match parse_defs(input, 0, n) {
        Ok(defs) => {
            let meta: Vec<JavaDefinitionMetadata> = Vec::new();
            proof {
                assert(stubs_view(meta@) =~= Seq::<StubModel>::empty());
            }
            Ok(JavaDefinitions { definitions: defs, metadata: Metadata { definitions: meta } })
        },
        Err(e) => Err(e),
    }
}

} // verus!
