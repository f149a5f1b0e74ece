//! Generator for typed wrapper declarations over a foreign-function bridge.
//!
//! The library reads a small declarative language describing Java-style
//! classes and interfaces (names, inheritance, interface implementation,
//! constructors, methods) and emits the source text of typed wrapper
//! declarations for calling those types through the runtime bridge.
//!
//! The pipeline is a pure, deterministic transform: lexing (`token`),
//! qualified names (`name`), declaration parsing (`parse`), semantic
//! resolution (`resolve`), and code emission (`emit`).  Every stage's
//! behaviour is specified exactly; the same input always yields the same
//! output, and every failure is a descriptive, whole-invocation abort.

use vstd::prelude::*;

pub mod ast;
pub mod bridge;
pub mod emit;
pub mod error;
pub mod laws;
pub mod name;
pub mod parse;
pub mod resolve;
pub mod strings;
pub mod token;

use crate::ast::DefsModel;
use crate::error::ErrorKind;
use crate::error::GenError;
use crate::resolve::GenDefModel;
use crate::token::toks;
use crate::token::Token;

verus! {

/// What the whole pipeline guarantees of a successful run on the parsed
/// model `d` and the output text `text`.
pub open spec fn generated_ok(d: DefsModel, text: Seq<char>) -> bool {
    &&& !crate::resolve::sp_empty_name(d)
    &&& !crate::resolve::sp_unresolved(d)
    &&& !crate::resolve::has_iface_cycle(d)
    &&& !crate::resolve::sp_class_cycle(d)
    &&& exists|g: Seq<GenDefModel>|
        g.len() == d.defs.len() && (forall|i: int|
            0 <= i < d.defs.len() ==> crate::resolve::resolved_ok(d, #[trigger] d.defs[i], g[i]))
            && text == crate::emit::generated_text(g)
}

/// Which failure a run on the parsed model `d` reports.
pub open spec fn resolution_err(d: DefsModel, kind: ErrorKind) -> bool {
    &&& (kind == ErrorKind::ExpectedName <==> crate::resolve::sp_empty_name(d))
    &&& (kind == ErrorKind::UnresolvedName <==> !crate::resolve::sp_empty_name(d)
        && crate::resolve::sp_unresolved(d))
    &&& (kind == ErrorKind::CyclicInterface <==> !crate::resolve::sp_empty_name(d)
        && !crate::resolve::sp_unresolved(d) && crate::resolve::has_iface_cycle(d))
    &&& (kind == ErrorKind::CyclicClass <==> !crate::resolve::sp_empty_name(d)
        && !crate::resolve::sp_unresolved(d) && !crate::resolve::has_iface_cycle(d)
        && crate::resolve::sp_class_cycle(d))
    &&& (crate::resolve::sp_empty_name(d) || crate::resolve::sp_unresolved(d)
        || crate::resolve::has_iface_cycle(d) || crate::resolve::sp_class_cycle(d))
}

/// Generate wrapper declarations for the given token stream: parse the
/// declarations and the metadata block, resolve inheritance, and emit the
/// generated source text.
pub fn java_generate(input: &Vec<Token>) -> (r: Result<String, GenError>)
    ensures
        match r {
            Ok(text) => crate::parse::sp_parse(toks(input@)) is Ok && generated_ok(
                crate::parse::sp_parse(toks(input@))->Ok_0,
                text@,
            ),
            Err(e) => match crate::parse::sp_parse(toks(input@)) {
                Ok(d) => resolution_err(d, e.kind),
                Err(k) => e.kind == k,
            },
        },
{
    let parsed = match crate::parse::parse_java_definition(input) {
        Ok(p) => p,
        Err(e) => {
            return Err(e);
        },
    };
    let data = match crate::resolve::to_generator_data(&parsed) {
        Ok(g) => g,
        Err(e) => {
            return Err(e);
        },
    };
    let text = crate::emit::generate(&data);
    proof {
        let d = crate::parse::sp_parse(toks(input@))->Ok_0;
        assert(data@.len() == d.defs.len() && (forall|i: int|
            0 <= i < d.defs.len() ==> crate::resolve::resolved_ok(
                d,
                #[trigger] d.defs[i],
                data@[i],
            )) && text@ == crate::emit::generated_text(data@));
    }
    Ok(text)
}

/// Generate wrapper declarations from source text: lex, then generate.
pub fn generate_from_source(src: &str) -> (r: Result<String, GenError>)
    requires
        src@.len() <= 0x1000_0000,
    ensures
        match r {
            Ok(text) => crate::token::sp_lex(src@) is Ok && crate::parse::sp_parse(
                crate::token::sp_lex(src@)->Ok_0,
            ) is Ok && generated_ok(
                crate::parse::sp_parse(crate::token::sp_lex(src@)->Ok_0)->Ok_0,
                text@,
            ),
            Err(e) => match crate::token::sp_lex(src@) {
                Ok(ts) => match crate::parse::sp_parse(ts) {
                    Ok(d) => resolution_err(d, e.kind),
                    Err(k) => e.kind == k,
                },
                Err(k) => e.kind == k,
            },
        },
{
    let tokens = match crate::token::lex(src) {
        Ok(ts) => ts,
        Err(e) => {
            return Err(e);
        },
    };
    java_generate(&tokens)
}

} // verus!
