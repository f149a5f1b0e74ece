//! Lexical tokens of the input description language.
//!
//! A token is an identifier, a literal, a single punctuation character, or a
//! delimited group of tokens.  The lexer turns source text into a token tree;
//! delimiters must be balanced.

use crate::error::ErrorKind;
use crate::error::GenError;
use vstd::prelude::*;

verus! {

broadcast use {vstd::std_specs::vec::axiom_vec_index_decreases, vstd::seq::group_seq_axioms};

/// The delimiter kind of a token group.
#[derive(Clone, Copy, Debug, PartialEq, Eq, Structural)]
pub enum Delim {
    Paren,
    Brace,
    Bracket,
}

/// One lexical token: an identifier, a literal, a punctuation character, or a
/// delimited group of nested tokens.
#[derive(Debug, PartialEq, Eq)]
pub enum Token {
    Ident(String),
    Lit(String),
    Punct(char),
    Group(Delim, Vec<Token>),
}

/// The mathematical value of a token: the same shape, over sequences.
pub ghost enum TokenModel {
    Ident(Seq<char>),
    Lit(Seq<char>),
    Punct(char),
    Group(Delim, Seq<TokenModel>),
}

impl View for Token {
    type V = TokenModel;

    open spec fn view(&self) -> TokenModel
        decreases self,
    {
        match self {
            Token::Ident(s) => TokenModel::Ident(s@),
            Token::Lit(s) => TokenModel::Lit(s@),
            Token::Punct(c) => TokenModel::Punct(*c),
            Token::Group(d, ts) => TokenModel::Group(*d, toks(ts@)),
        }
    }
}

/// The sequence of token values of a token sequence.
pub open spec fn toks(ts: Seq<Token>) -> Seq<TokenModel>
    decreases ts,
{
    Seq::new(
        ts.len(),
        |i: int|
            if 0 <= i < ts.len() {
                ts[i]@
            } else {
                TokenModel::Punct(' ')
            },
    )
}

/// A flat lexical token, before delimiter groups are matched up.
#[derive(Debug, PartialEq, Eq)]
pub enum FlatTok {
    Ident(String),
    Lit(String),
    Punct(char),
    Open(Delim),
    Close(Delim),
}

/// The mathematical value of a flat token.
pub ghost enum FlatModel {
    Ident(Seq<char>),
    Lit(Seq<char>),
    Punct(char),
    Open(Delim),
    Close(Delim),
}

impl View for FlatTok {
    type V = FlatModel;

    open spec fn view(&self) -> FlatModel {
        match self {
            FlatTok::Ident(s) => FlatModel::Ident(s@),
            FlatTok::Lit(s) => FlatModel::Lit(s@),
            FlatTok::Punct(c) => FlatModel::Punct(*c),
            FlatTok::Open(d) => FlatModel::Open(*d),
            FlatTok::Close(d) => FlatModel::Close(*d),
        }
    }
}

/// The sequence of flat-token values of a flat-token vector.
pub open spec fn flats(fs: Seq<FlatTok>) -> Seq<FlatModel> {
    Seq::new(fs.len(), |i: int| fs[i]@)
}

/// Whitespace skipped by the lexer.
pub open spec fn is_space(c: char) -> bool {
    c == ' ' || c == '\n' || c == '\t' || c == '\r'
}

/// Characters that may start an identifier.
pub open spec fn is_ident_start(c: char) -> bool {
    ('a' <= c && c <= 'z') || ('A' <= c && c <= 'Z') || c == '_'
}

/// Characters that may continue an identifier.
pub open spec fn is_ident_cont(c: char) -> bool {
    is_ident_start(c) || is_digit(c)
}

/// Decimal digits.
pub open spec fn is_digit(c: char) -> bool {
    '0' <= c && c <= '9'
}

/// First position at or after `i` where an identifier stops.
pub open spec fn ident_end(s: Seq<char>, i: int) -> int
    decreases s.len() - i,
{
    if 0 <= i < s.len() && is_ident_cont(s[i]) {
        ident_end(s, i + 1)
    } else {
        i
    }
}

/// First position at or after `i` where a run of digits stops.
pub open spec fn digit_end(s: Seq<char>, i: int) -> int
    decreases s.len() - i,
{
    if 0 <= i < s.len() && is_digit(s[i]) {
        digit_end(s, i + 1)
    } else {
        i
    }
}

/// First position at or after `i` holding a closing quote, or the length of
/// `s` if there is none.
pub open spec fn lit_end(s: Seq<char>, i: int) -> int
    decreases s.len() - i,
{
    if 0 <= i < s.len() {
        if s[i] == '"' {
            i
        } else {
            lit_end(s, i + 1)
        }
    } else {
        if i < 0 {
            0
        } else {
            i
        }
    }
}

/// The view of a group token is the group of the views.
pub proof fn lemma_group_view(d: Delim, ts: &Vec<Token>)
    ensures
        (Token::Group(d, *ts))@ == TokenModel::Group(d, toks(ts@)),
{
}

/// The length of a sequence with one value put in front.
pub proof fn lemma_cons_len<A>(x: A, r: Seq<A>)
    ensures
        (seq![x] + r).len() == 1 + r.len(),
{
}

/// A scan yields at most one flat token per character.
pub proof fn lemma_scan_len(s: Seq<char>, i: int)
    requires
        0 <= i <= s.len(),
        sp_scan(s, i) is Ok,
    ensures
        sp_scan(s, i)->Ok_0.len() <= s.len() - i,
    decreases s.len() - i,
{
    if 0 <= i < s.len() {
        let c = s[i];
        if is_space(c) {
            lemma_scan_len(s, i + 1);
        } else if is_ident_start(c) {
            let j = ident_end(s, i + 1);
            lemma_ident_end(s, i + 1);
            lemma_scan_len(s, j);
            lemma_cons_len(FlatModel::Ident(s.subrange(i, j)), sp_scan(s, j)->Ok_0);
        } else if is_digit(c) {
            let j = digit_end(s, i + 1);
            lemma_digit_end(s, i + 1);
            lemma_scan_len(s, j);
            lemma_cons_len(FlatModel::Lit(s.subrange(i, j)), sp_scan(s, j)->Ok_0);
        } else if c == '"' {
            let j = lit_end(s, i + 1);
            lemma_lit_end(s, i + 1);
            if j < s.len() {
                lemma_scan_len(s, j + 1);
                lemma_cons_len(FlatModel::Lit(s.subrange(i, j + 1)), sp_scan(s, j + 1)->Ok_0);
            }
        } else {
            lemma_scan_len(s, i + 1);
            let rest = sp_scan(s, i + 1)->Ok_0;
            if open_delim(c) is Some {
                lemma_cons_len(FlatModel::Open(open_delim(c)->0), rest);
            } else if close_delim(c) is Some {
                lemma_cons_len(FlatModel::Close(close_delim(c)->0), rest);
            } else {
                lemma_cons_len(FlatModel::Punct(c), rest);
            }
        }
    }
}

pub proof fn lemma_ident_end(s: Seq<char>, i: int)
    requires
        0 <= i <= s.len(),
    ensures
        i <= ident_end(s, i) <= s.len(),
    decreases s.len() - i,
{
    if i < s.len() && is_ident_cont(s[i]) {
        lemma_ident_end(s, i + 1);
    }
}

pub proof fn lemma_digit_end(s: Seq<char>, i: int)
    requires
        0 <= i <= s.len(),
    ensures
        i <= digit_end(s, i) <= s.len(),
    decreases s.len() - i,
{
    if i < s.len() && is_digit(s[i]) {
        lemma_digit_end(s, i + 1);
    }
}

pub proof fn lemma_lit_end(s: Seq<char>, i: int)
    requires
        0 <= i <= s.len(),
    ensures
        i <= lit_end(s, i) <= s.len(),
    decreases s.len() - i,
{
    if i < s.len() && s[i] != '"' {
        lemma_lit_end(s, i + 1);
    }
}

/// The delimiter opened or closed by a character, if any.
pub open spec fn open_delim(c: char) -> Option<Delim> {
    if c == '(' {
        Some(Delim::Paren)
    } else if c == '{' {
        Some(Delim::Brace)
    } else if c == '[' {
        Some(Delim::Bracket)
    } else {
        None
    }
}

pub open spec fn close_delim(c: char) -> Option<Delim> {
    if c == ')' {
        Some(Delim::Paren)
    } else if c == '}' {
        Some(Delim::Brace)
    } else if c == ']' {
        Some(Delim::Bracket)
    } else {
        None
    }
}

/// The flat token stream of the source text from position `i` on.
pub open spec fn sp_scan(s: Seq<char>, i: int) -> Result<Seq<FlatModel>, ErrorKind>
    decreases s.len() - i,
    via sp_scan_dec
{
    if !(0 <= i < s.len()) {
        Ok(Seq::empty())
    } else {
        let c = s[i];
        if is_space(c) {
            sp_scan(s, i + 1)
        } else if is_ident_start(c) {
            let j = ident_end(s, i + 1);
            match sp_scan(s, j) {
                Ok(rest) => Ok(seq![FlatModel::Ident(s.subrange(i, j))] + rest),
                Err(e) => Err(e),
            }
        } else if is_digit(c) {
            let j = digit_end(s, i + 1);
            match sp_scan(s, j) {
                Ok(rest) => Ok(seq![FlatModel::Lit(s.subrange(i, j))] + rest),
                Err(e) => Err(e),
            }
        } else if c == '"' {
            let j = lit_end(s, i + 1);
            if j >= s.len() {
                Err(ErrorKind::UnterminatedLiteral)
            } else {
                match sp_scan(s, j + 1) {
                    Ok(rest) => Ok(seq![FlatModel::Lit(s.subrange(i, j + 1))] + rest),
                    Err(e) => Err(e),
                }
            }
        } else if open_delim(c) is Some {
            match sp_scan(s, i + 1) {
                Ok(rest) => Ok(seq![FlatModel::Open(open_delim(c)->0)] + rest),
                Err(e) => Err(e),
            }
        } else if close_delim(c) is Some {
            match sp_scan(s, i + 1) {
                Ok(rest) => Ok(seq![FlatModel::Close(close_delim(c)->0)] + rest),
                Err(e) => Err(e),
            }
        } else {
            match sp_scan(s, i + 1) {
                Ok(rest) => Ok(seq![FlatModel::Punct(c)] + rest),
                Err(e) => Err(e),
            }
        }
    }
}

#[via_fn]
proof fn sp_scan_dec(s: Seq<char>, i: int) {
    if 0 <= i < s.len() {
        lemma_ident_end(s, i + 1);
        lemma_digit_end(s, i + 1);
        lemma_lit_end(s, i + 1);
    }
}

/// Token trees built from the flat stream `fs` starting at `i`, up to and
/// including the closing delimiter `closer` (or the end of the stream when
/// `closer` is `None`).  Returns the trees and the position after them.
///
/// `fuel` bounds the recursion; the callers pass more fuel than any input
/// can consume, so the `TooDeep` failure is never reached from `sp_lex`.
pub open spec fn sp_group(
    fs: Seq<FlatModel>,
    i: int,
    closer: Option<Delim>,
    fuel: nat,
) -> Result<(Seq<TokenModel>, int), ErrorKind>
    decreases fuel,
{
    if fuel == 0 {
        Err(ErrorKind::TooDeep)
    } else if !(0 <= i < fs.len()) {
        match closer {
            Option::None => Ok((Seq::empty(), i)),
            Option::Some(_) => Err(ErrorKind::UnmatchedDelimiter),
        }
    } else {
        match fs[i] {
            FlatModel::Close(d) => {
                if closer == Some(d) {
                    Ok((Seq::empty(), i + 1))
                } else {
                    Err(ErrorKind::UnmatchedDelimiter)
                }
            },
            FlatModel::Open(d) => {
                match sp_group(fs, i + 1, Some(d), (fuel - 1) as nat) {
                    Ok((inner, j)) => {
                        match sp_group(fs, j, closer, (fuel - 1) as nat) {
                            Ok((rest, k)) => Ok(
                                (seq![TokenModel::Group(d, inner)] + rest, k),
                            ),
                            Err(e) => Err(e),
                        }
                    },
                    Err(e) => Err(e),
                }
            },
            FlatModel::Ident(x) => {
                match sp_group(fs, i + 1, closer, (fuel - 1) as nat) {
                    Ok((rest, k)) => Ok((seq![TokenModel::Ident(x)] + rest, k)),
                    Err(e) => Err(e),
                }
            },
            FlatModel::Lit(x) => {
                match sp_group(fs, i + 1, closer, (fuel - 1) as nat) {
                    Ok((rest, k)) => Ok((seq![TokenModel::Lit(x)] + rest, k)),
                    Err(e) => Err(e),
                }
            },
            FlatModel::Punct(c) => {
                match sp_group(fs, i + 1, closer, (fuel - 1) as nat) {
                    Ok((rest, k)) => Ok((seq![TokenModel::Punct(c)] + rest, k)),
                    Err(e) => Err(e),
                }
            },
        }
    }
}

/// The token trees of a whole source text.
pub open spec fn sp_lex(s: Seq<char>) -> Result<Seq<TokenModel>, ErrorKind> {
    match sp_scan(s, 0) {
        Ok(fs) => match sp_group(fs, 0, Option::None, (2 * fs.len() + 2) as nat) {
            Ok((ts, _)) => Ok(ts),
            Err(e) => Err(e),
        },
        Err(e) => Err(e),
    }
}











fn is_space_x(c: char) -> (b: bool)
    ensures
        b == is_space(c),
{
    c == ' ' || c == '\n' || c == '\t' || c == '\r'
}

fn is_ident_start_x(c: char) -> (b: bool)
    ensures
        b == is_ident_start(c),
{
    ('a' <= c && c <= 'z') || ('A' <= c && c <= 'Z') || c == '_'
}

fn is_digit_x(c: char) -> (b: bool)
    ensures
        b == is_digit(c),
{
    '0' <= c && c <= '9'
}

fn is_ident_cont_x(c: char) -> (b: bool)
    ensures
        b == is_ident_cont(c),
{
    is_ident_start_x(c) || is_digit_x(c)
}

fn ident_end_x(cs: &Vec<char>, k: usize) -> (j: usize)
    requires
        k <= cs@.len(),
    ensures
        j as int == ident_end(cs@, k as int),
        k <= j <= cs@.len(),
{
    proof {
        lemma_ident_end(cs@, k as int);
    }
    let mut j = k;
    while j < cs.len() && is_ident_cont_x(cs[j])
        invariant
            k <= j <= cs@.len(),
            ident_end(cs@, k as int) == ident_end(cs@, j as int),
        decreases cs@.len() - j,
    {
        j = j + 1;
    }
    j
}

fn digit_end_x(cs: &Vec<char>, k: usize) -> (j: usize)
    requires
        k <= cs@.len(),
    ensures
        j as int == digit_end(cs@, k as int),
        k <= j <= cs@.len(),
{
    proof {
        lemma_digit_end(cs@, k as int);
    }
    let mut j = k;
    while j < cs.len() && is_digit_x(cs[j])
        invariant
            k <= j <= cs@.len(),
            digit_end(cs@, k as int) == digit_end(cs@, j as int),
        decreases cs@.len() - j,
    {
        j = j + 1;
    }
    j
}

fn lit_end_x(cs: &Vec<char>, k: usize) -> (j: usize)
    requires
        k <= cs@.len(),
    ensures
        j as int == lit_end(cs@, k as int),
        k <= j <= cs@.len(),
{
    proof {
        lemma_lit_end(cs@, k as int);
    }
    let mut j = k;
    while j < cs.len() && cs[j] != '"'
        invariant
            k <= j <= cs@.len(),
            lit_end(cs@, k as int) == lit_end(cs@, j as int),
        decreases cs@.len() - j,
    {
        j = j + 1;
    }
    j
}

/// Put one flat token in front of the vector.
fn prepend_flat(rest: &mut Vec<FlatTok>, f: FlatTok)
    ensures
        flats(final(rest)@) == seq![f@] + flats(old(rest)@),
{
    let ghost fm = f@;
    let ghost rest_m = flats(rest@);
    rest.insert(0, f);
    proof {
        assert(flats(rest@) =~= seq![fm] + rest_m);
    }
}

/// Put one token in front of the vector.
fn prepend_tok(rest: &mut Vec<Token>, t: Token)
    ensures
        toks(final(rest)@) == seq![t@] + toks(old(rest)@),
{
    let ghost tm = t@;
    let ghost rest_m = toks(rest@);
    rest.insert(0, t);
    proof {
        assert(toks(rest@) =~= seq![tm] + rest_m);
    }
}

/// The delimiter-or-punctuation flat token of a character.
fn flat_of_punct(c: char) -> (f: FlatTok)
    ensures
        f@ == (if open_delim(c) is Some {
            FlatModel::Open(open_delim(c)->0)
        } else if close_delim(c) is Some {
            FlatModel::Close(close_delim(c)->0)
        } else {
            FlatModel::Punct(c)
        }),
{
    if c == '(' {
        FlatTok::Open(Delim::Paren)
    } else if c == '{' {
        FlatTok::Open(Delim::Brace)
    } else if c == '[' {
        FlatTok::Open(Delim::Bracket)
    } else if c == ')' {
        FlatTok::Close(Delim::Paren)
    } else if c == '}' {
        FlatTok::Close(Delim::Brace)
    } else if c == ']' {
        FlatTok::Close(Delim::Bracket)
    } else {
        FlatTok::Punct(c)
    }
}

#[verifier::rlimit(100)]
fn scan(cs: &Vec<char>, i: usize) -> (r: Result<Vec<FlatTok>, GenError>)
    requires
        i <= cs@.len(),
    ensures
        match r {
            Ok(v) => sp_scan(cs@, i as int) == Ok::<Seq<FlatModel>, ErrorKind>(flats(v@)),
            Err(e) => sp_scan(cs@, i as int) == Err::<Seq<FlatModel>, ErrorKind>(e.kind),
        },
    decreases cs@.len() - i,
{
    if i >= cs.len() {
        let v: Vec<FlatTok> = Vec::new();
        proof {
            assert(flats(v@) =~= Seq::<FlatModel>::empty());
        }
        return Ok(v);
    }
    let c = cs[i];
    if is_space_x(c) {
        scan(cs, i + 1)
    } else if is_ident_start_x(c) {
        let j = ident_end_x(cs, i + 1);
        let text = crate::strings::string_range(cs, i, j);
        match scan(cs, j) {
            Ok(mut rest) => {
                rest.insert(0, FlatTok::Ident(text));
                proof {
                    assert(flats(rest@) =~= seq![
                        FlatModel::Ident(cs@.subrange(i as int, j as int)),
                    ] + sp_scan(cs@, j as int)->Ok_0);
                }
                Ok(rest)
            },
            Err(e) => Err(e),
        }
    } else if is_digit_x(c) {
        let j = digit_end_x(cs, i + 1);
        let text = crate::strings::string_range(cs, i, j);
        match scan(cs, j) {
            Ok(mut rest) => {
                rest.insert(0, FlatTok::Lit(text));
                proof {
                    assert(flats(rest@) =~= seq![
                        FlatModel::Lit(cs@.subrange(i as int, j as int)),
                    ] + sp_scan(cs@, j as int)->Ok_0);
                }
                Ok(rest)
            },
            Err(e) => Err(e),
        }
    } else if c == '"' {
        let j = lit_end_x(cs, i + 1);
        if j >= cs.len() {
            Err(crate::error::err(ErrorKind::UnterminatedLiteral, ""))
        } else {
            let text = crate::strings::string_range(cs, i, j + 1);
            match scan(cs, j + 1) {
                Ok(mut rest) => {
                    rest.insert(0, FlatTok::Lit(text));
                    proof {
                        assert(flats(rest@) =~= seq![
                            FlatModel::Lit(cs@.subrange(i as int, j + 1 as int)),
                        ] + sp_scan(cs@, j + 1 as int)->Ok_0);
                    }
                    Ok(rest)
                },
                Err(e) => Err(e),
            }
        }
    } else {
        match scan(cs, i + 1) {
            Ok(mut rest) => {
                prepend_flat(&mut rest, flat_of_punct(c));
                Ok(rest)
            },
            Err(e) => Err(e),
        }
    }
}

fn group(fs: &Vec<FlatTok>, i: usize, closer: Option<Delim>, fuel: usize) -> (r: Result<
    (Vec<Token>, usize),
    GenError,
>)
    requires
        i <= fs@.len(),
    ensures
        match r {
            Ok(p) => sp_group(flats(fs@), i as int, closer, fuel as nat) == Ok::<
                (Seq<TokenModel>, int),
                ErrorKind,
            >((toks(p.0@), p.1 as int)) && i <= p.1 <= fs@.len(),
            Err(e) => sp_group(flats(fs@), i as int, closer, fuel as nat) == Err::<
                (Seq<TokenModel>, int),
                ErrorKind,
            >(e.kind),
        },
    decreases fuel,
{
    if fuel == 0 {
        return Err(crate::error::err(ErrorKind::TooDeep, ""));
    }
    if i >= fs.len() {
        return match closer {
            Option::None => {
                let v: Vec<Token> = Vec::new();
                proof {
                    assert(toks(v@) =~= Seq::<TokenModel>::empty());
                }
                Ok((v, i))
            },
            Option::Some(_) => Err(crate::error::err(ErrorKind::UnmatchedDelimiter, "")),
        };
    }
    let tok: Token = match &fs[i] {
        FlatTok::Close(d) => {
            return match closer {
                Option::Some(cl) => {
                    if cl == *d {
                        let v: Vec<Token> = Vec::new();
                        proof {
                            assert(toks(v@) =~= Seq::<TokenModel>::empty());
                        }
                        Ok((v, i + 1))
                    } else {
                        Err(crate::error::err(ErrorKind::UnmatchedDelimiter, ""))
                    }
                },
                Option::None => Err(crate::error::err(ErrorKind::UnmatchedDelimiter, "")),
            };
        },
        FlatTok::Open(d) => {
            let dd = *d;
            match group(fs, i + 1, Some(dd), fuel - 1) {
                Ok((inner, j)) => {
                    match group(fs, j, closer, fuel - 1) {
                        Ok((mut rest, k)) => {
                            proof {
                                lemma_group_view(dd, &inner);
                            }
                            prepend_tok(&mut rest, Token::Group(dd, inner));
                            return Ok((rest, k));
                        },
                        Err(e) => return Err(e),
                    }
                },
                Err(e) => return Err(e),
            }
        },
        FlatTok::Ident(x) => Token::Ident(x.clone()),
        FlatTok::Lit(x) => Token::Lit(x.clone()),
        FlatTok::Punct(c) => Token::Punct(*c),
    };
    let ghost tok_m = tok@;
    match group(fs, i + 1, closer, fuel - 1) {
        Ok((mut rest, k)) => {
            prepend_tok(&mut rest, tok);
            Ok((rest, k))
        },
        Err(e) => Err(e),
    }
}

/// The token trees of the source text, or the first lexical failure.
///
/// The bound on the length keeps the group-matching fuel within `usize`.
pub fn lex(src: &str) -> (r: Result<Vec<Token>, GenError>)
    requires
        src@.len() <= 0x1000_0000,
    ensures
        match r {
            Ok(v) => sp_lex(src@) == Ok::<Seq<TokenModel>, ErrorKind>(toks(v@)),
            Err(e) => sp_lex(src@) == Err::<Seq<TokenModel>, ErrorKind>(e.kind),
        },
{
    let cs = crate::strings::chars_of(src);
    match scan(&cs, 0) {
        Ok(fs) => {
            proof {
                lemma_scan_len(cs@, 0);
                assert(flats(fs@).len() == fs@.len());
            }
            let fuel: usize = 2 * fs.len() + 2;
            match group(&fs, 0, Option::None, fuel) {
                Ok((ts, _)) => Ok(ts),
                Err(e) => Err(e),
            }
        },
        Err(e) => Err(e),
    }
}

} // verus!

