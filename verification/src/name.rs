//! Qualified names: dot-separated identifier sequences such as `a.b.Foo`.
//!
//! A name's mathematical value is the sequence of its segments; the canonical
//! string form joins the segments with dots.  Primitive type names (`int`,
//! `long`, `char`, `byte`, `boolean`, `float`, `double`) are a distinguished
//! single-segment subset with a fixed mapping to scalar target types and to
//! scalar signature codes.

use crate::strings::push_char;
use crate::token::is_ident_cont;
use crate::token::is_ident_start;
use vstd::prelude::*;
use vstd::string::StringExecFns;

verus! {

broadcast use {vstd::std_specs::vec::axiom_vec_index_decreases, vstd::seq::group_seq_axioms};

/// A qualified name: a non-empty sequence of identifier segments.
#[derive(Debug, PartialEq, Eq)]
pub struct JavaName {
    pub segments: Vec<String>,
}

/// The sequence of character sequences of a segment vector.
pub open spec fn segs(ss: Seq<String>) -> Seq<Seq<char>> {
    Seq::new(
        ss.len(),
        |i: int|
            if 0 <= i < ss.len() {
                ss[i]@
            } else {
                Seq::empty()
            },
    )
}

impl View for JavaName {
    type V = Seq<Seq<char>>;

    open spec fn view(&self) -> Seq<Seq<char>> {
        segs(self.segments@)
    }
}

/// A well-formed identifier segment: non-empty, an identifier-start character
/// followed by identifier characters.
pub open spec fn is_ident_seq(s: Seq<char>) -> bool {
    &&& s.len() > 0
    &&& is_ident_start(s[0])
    &&& forall|j: int| 0 <= j < s.len() ==> is_ident_cont(#[trigger] s[j])
}

/// A well-formed qualified name: at least one segment, every segment an
/// identifier.
pub open spec fn wf_name(n: Seq<Seq<char>>) -> bool {
    &&& n.len() > 0
    &&& forall|i: int| 0 <= i < n.len() ==> is_ident_seq(#[trigger] n[i])
}

impl JavaName {
    /// Well-formedness of this name.
    pub open spec fn wf(&self) -> bool {
        wf_name(self@)
    }
}

/// The segments from position `i` on, joined with the separator.
pub open spec fn joined_from(n: Seq<Seq<char>>, i: int, sep: char) -> Seq<char>
    decreases n.len() - i,
{
    if !(0 <= i < n.len()) {
        Seq::empty()
    } else if i == n.len() - 1 {
        n[i]
    } else {
        n[i] + seq![sep] + joined_from(n, i + 1, sep)
    }
}

/// The segments joined with the separator: the canonical form for `'.'`, the
/// signature path for `'/'`.
pub open spec fn joined(n: Seq<Seq<char>>, sep: char) -> Seq<char> {
    joined_from(n, 0, sep)
}

/// The canonical dotted string form of a name.
pub open spec fn dotted(n: Seq<Seq<char>>) -> Seq<char> {
    joined(n, '.')
}

/// The segments from position `i` on, each preceded by `::`.
pub open spec fn colon_path_from(n: Seq<Seq<char>>, i: int) -> Seq<char>
    decreases n.len() - i,
{
    if !(0 <= i < n.len()) {
        Seq::empty()
    } else {
        seq![':', ':'] + n[i] + colon_path_from(n, i + 1)
    }
}

/// The absolute path form of a name: `::a::b::Foo`.
pub open spec fn colon_path(n: Seq<Seq<char>>) -> Seq<char> {
    colon_path_from(n, 0)
}

/// The character sequences of the seven primitive type names.
pub open spec fn prim_int() -> Seq<char> {
    seq!['i', 'n', 't']
}

pub open spec fn prim_long() -> Seq<char> {
    seq!['l', 'o', 'n', 'g']
}

pub open spec fn prim_char() -> Seq<char> {
    seq!['c', 'h', 'a', 'r']
}

pub open spec fn prim_byte() -> Seq<char> {
    seq!['b', 'y', 't', 'e']
}

pub open spec fn prim_boolean() -> Seq<char> {
    seq!['b', 'o', 'o', 'l', 'e', 'a', 'n']
}

pub open spec fn prim_float() -> Seq<char> {
    seq!['f', 'l', 'o', 'a', 't']
}

pub open spec fn prim_double() -> Seq<char> {
    seq!['d', 'o', 'u', 'b', 'l', 'e']
}

/// Whether a single segment is a primitive type name.
pub open spec fn is_prim_seg(s: Seq<char>) -> bool {
    ||| s == prim_int()
    ||| s == prim_long()
    ||| s == prim_char()
    ||| s == prim_byte()
    ||| s == prim_boolean()
    ||| s == prim_float()
    ||| s == prim_double()
}

/// Whether a name denotes a primitive type.
pub open spec fn is_primitive(n: Seq<Seq<char>>) -> bool {
    n.len() == 1 && is_prim_seg(n[0])
}

/// The scalar target type of a primitive type name.
pub open spec fn prim_rust(s: Seq<char>) -> Seq<char> {
    if s == prim_int() {
        seq!['i', '3', '2']
    } else if s == prim_long() {
        seq!['i', '6', '4']
    } else if s == prim_char() {
        seq!['c', 'h', 'a', 'r']
    } else if s == prim_byte() {
        seq!['u', '8']
    } else if s == prim_boolean() {
        seq!['b', 'o', 'o', 'l']
    } else if s == prim_float() {
        seq!['f', '3', '2']
    } else {
        seq!['f', '6', '4']
    }
}

/// The scalar signature code of a primitive type name.
pub open spec fn prim_code(s: Seq<char>) -> Seq<char> {
    if s == prim_int() {
        seq!['I']
    } else if s == prim_long() {
        seq!['J']
    } else if s == prim_char() {
        seq!['C']
    } else if s == prim_byte() {
        seq!['B']
    } else if s == prim_boolean() {
        seq!['Z']
    } else if s == prim_float() {
        seq!['F']
    } else {
        seq!['D']
    }
}

/// The foreign signature of a name: the scalar code for a primitive type
/// name, else the segments joined with the path separator.
pub open spec fn sig_of(n: Seq<Seq<char>>) -> Seq<char> {
    if is_primitive(n) {
        prim_code(n[0])
    } else {
        joined(n, '/')
    }
}

/// The full foreign signature: the scalar code for a primitive type name,
/// else the path wrapped as `L<path>;`.
pub open spec fn full_sig_of(n: Seq<Seq<char>>) -> Seq<char> {
    if is_primitive(n) {
        prim_code(n[0])
    } else {
        seq!['L'] + joined(n, '/') + seq![';']
    }
}

/// Lexicographic order on character sequences, by code point.
pub open spec fn lex_le(a: Seq<char>, b: Seq<char>) -> bool
    decreases a.len(),
{
    if a.len() == 0 {
        true
    } else if b.len() == 0 {
        false
    } else if a[0] == b[0] {
        lex_le(a.drop_first(), b.drop_first())
    } else {
        a[0] < b[0]
    }
}

/// Put one segment in front of the vector.
pub fn prepend_segment(v: &mut Vec<String>, s: String)
    ensures
        segs(final(v)@) == seq![s@] + segs(old(v)@),
{
    let ghost sm = s@;
    let ghost vm = segs(v@);
    v.insert(0, s);
    proof {
        assert(segs(v@) =~= seq![sm] + vm);
    }
}

impl JavaName {
    /// A copy of this name with the same value.
    pub fn duplicate(&self) -> (r: JavaName)
        ensures
            r@ == self@,
    {
        let mut out: Vec<String> = Vec::new();
        let mut i: usize = 0;
        while i < self.segments.len()
            invariant
                i <= self.segments@.len(),
                out@.len() == i as int,
                forall|k: int| 0 <= k < i as int ==> out@[k]@ == self.segments@[k]@,
            decreases self.segments@.len() - i,
        {
            out.push(self.segments[i].clone());
            i = i + 1;
        }
        let r = JavaName { segments: out };
        proof {
            assert(r@ =~= self@);
        }
        r
    }

    /// Whether two names have the same segments.
    pub fn same_as(&self, other: &JavaName) -> (r: bool)
        ensures
            r == (self@ == other@),
    {
        if self.segments.len() != other.segments.len() {
            proof {
                assert(self@.len() != other@.len());
            }
            return false;
        }
        let mut i: usize = 0;
        while i < self.segments.len()
            invariant
                i <= self.segments@.len(),
                self.segments@.len() == other.segments@.len(),
                forall|k: int| 0 <= k < i as int ==> self@[k] == other@[k],
            decreases self.segments@.len() - i,
        {
            if self.segments[i] != other.segments[i] {
                proof {
                    assert(self@[i as int] != other@[i as int]);
                }
                return false;
            }
            i = i + 1;
        }
        proof {
            assert(self@ =~= other@);
        }
        true
    }

    /// The final segment: the simple name of the type.
    pub fn simple_name(&self) -> (r: String)
        requires
            self@.len() > 0,
        ensures
            r@ == self@.last(),
    {
        self.segments[self.segments.len() - 1].clone()
    }

    /// The segments joined with the given separator.
    pub fn joined_with(&self, sep: char) -> (r: String)
        ensures
            r@ == joined(self@, sep),
    {
        join_from(&self.segments, 0, sep)
    }

    /// The canonical dotted form, `a.b.Foo`.
    pub fn with_dots(&self) -> (r: String)
        ensures
            r@ == dotted(self@),
    {
        self.joined_with('.')
    }

    /// The signature path form, `a/b/Foo`.
    pub fn with_slashes(&self) -> (r: String)
        ensures
            r@ == joined(self@, '/'),
    {
        self.joined_with('/')
    }

    /// The absolute path form, `::a::b::Foo`.
    pub fn with_double_colons(&self) -> (r: String)
        ensures
            r@ == colon_path(self@),
    {
        colon_from(&self.segments, 0)
    }

    /// The scalar target type of a primitive type name, or nothing for any
    /// other name.
    pub fn as_primitive_type(&self) -> (r: Option<String>)
        ensures
            match r {
                Some(t) => is_primitive(self@) && t@ == prim_rust(self@[0]),
                None => !is_primitive(self@),
            },
    {
        if self.segments.len() != 1 {
            return None;
        }
        let s = &self.segments[0];
        proof {
            assert(self@[0] == s@);
            reveal_strlit("int");
            reveal_strlit("long");
            reveal_strlit("char");
            reveal_strlit("byte");
            reveal_strlit("boolean");
            reveal_strlit("float");
            reveal_strlit("double");
            reveal_strlit("i32");
            reveal_strlit("i64");
            reveal_strlit("u8");
            reveal_strlit("bool");
            reveal_strlit("f32");
            reveal_strlit("f64");
            assert("int"@ =~= prim_int());
            assert("long"@ =~= prim_long());
            assert("char"@ =~= prim_char());
            assert("byte"@ =~= prim_byte());
            assert("boolean"@ =~= prim_boolean());
            assert("float"@ =~= prim_float());
            assert("double"@ =~= prim_double());
            assert("i32"@ =~= prim_rust(prim_int()));
            assert("i64"@ =~= prim_rust(prim_long()));
            assert("u8"@ =~= prim_rust(prim_byte()));
            assert("bool"@ =~= prim_rust(prim_boolean()));
            assert("f32"@ =~= prim_rust(prim_float()));
            assert("f64"@ =~= prim_rust(prim_double()));
            assert("char"@ =~= prim_rust(prim_char()));
        }
        if *s == "int".to_owned() {
            Some("i32".to_owned())
        } else if *s == "long".to_owned() {
            Some("i64".to_owned())
        } else if *s == "char".to_owned() {
            Some("char".to_owned())
        } else if *s == "byte".to_owned() {
            Some("u8".to_owned())
        } else if *s == "boolean".to_owned() {
            Some("bool".to_owned())
        } else if *s == "float".to_owned() {
            Some("f32".to_owned())
        } else if *s == "double".to_owned() {
            Some("f64".to_owned())
        } else {
            None
        }
    }

    /// The foreign signature of this name.
    pub fn signature(&self) -> (r: String)
        ensures
            r@ == sig_of(self@),
    {
        match self.prim_code_x() {
            Some(code) => code,
            None => self.with_slashes(),
        }
    }

    /// The full foreign signature of this name.
    pub fn full_signature(&self) -> (r: String)
        ensures
            r@ == full_sig_of(self@),
    {
        match self.prim_code_x() {
            Some(code) => code,
            None => {
                let mut out = "L".to_owned();
                let path = self.with_slashes();
                out.append(path.as_str());
                out.append(";");
                proof {
                    reveal_strlit("L");
                    reveal_strlit(";");
                    assert(out@ =~= seq!['L'] + joined(self@, '/') + seq![';']);
                }
                out
            },
        }
    }

    /// The scalar signature code of a primitive type name, or nothing.
    fn prim_code_x(&self) -> (r: Option<String>)
        ensures
            match r {
                Some(t) => is_primitive(self@) && t@ == prim_code(self@[0]),
                None => !is_primitive(self@),
            },
    {
        if self.segments.len() != 1 {
            return None;
        }
        let s = &self.segments[0];
        proof {
            assert(self@[0] == s@);
            reveal_strlit("int");
            reveal_strlit("long");
            reveal_strlit("char");
            reveal_strlit("byte");
            reveal_strlit("boolean");
            reveal_strlit("float");
            reveal_strlit("double");
            reveal_strlit("I");
            reveal_strlit("J");
            reveal_strlit("C");
            reveal_strlit("B");
            reveal_strlit("Z");
            reveal_strlit("F");
            reveal_strlit("D");
            assert("int"@ =~= prim_int());
            assert("long"@ =~= prim_long());
            assert("char"@ =~= prim_char());
            assert("byte"@ =~= prim_byte());
            assert("boolean"@ =~= prim_boolean());
            assert("float"@ =~= prim_float());
            assert("double"@ =~= prim_double());
            assert("I"@ =~= prim_code(prim_int()));
            assert("J"@ =~= prim_code(prim_long()));
            assert("C"@ =~= prim_code(prim_char()));
            assert("B"@ =~= prim_code(prim_byte()));
            assert("Z"@ =~= prim_code(prim_boolean()));
            assert("F"@ =~= prim_code(prim_float()));
            assert("D"@ =~= prim_code(prim_double()));
        }
        if *s == "int".to_owned() {
            Some("I".to_owned())
        } else if *s == "long".to_owned() {
            Some("J".to_owned())
        } else if *s == "char".to_owned() {
            Some("C".to_owned())
        } else if *s == "byte".to_owned() {
            Some("B".to_owned())
        } else if *s == "boolean".to_owned() {
            Some("Z".to_owned())
        } else if *s == "float".to_owned() {
            Some("F".to_owned())
        } else if *s == "double".to_owned() {
            Some("D".to_owned())
        } else {
            None
        }
    }

    /// Whether the canonical form of this name orders at or before the
    /// other's.
    pub fn le(&self, other: &JavaName) -> (r: bool)
        ensures
            r == lex_le(dotted(self@), dotted(other@)),
    {
        let a = self.with_dots();
        let b = other.with_dots();
        let ca = crate::strings::chars_of(a.as_str());
        let cb = crate::strings::chars_of(b.as_str());
        let r = lex_le_x(&ca, &cb, 0);
        proof {
            assert(ca@.skip(0) =~= ca@);
            assert(cb@.skip(0) =~= cb@);
        }
        r
    }
}

/// Segments from `i` on, joined with the separator.
fn join_from(parts: &Vec<String>, i: usize, sep: char) -> (r: String)
    requires
        i <= parts@.len(),
    ensures
        r@ == joined_from(segs(parts@), i as int, sep),
    decreases parts@.len() - i,
{
    if i >= parts.len() {
        String::new()
    } else if i == parts.len() - 1 {
        parts[i].clone()
    } else {
        let mut s = parts[i].clone();
        push_char(&mut s, sep);
        let rest = join_from(parts, i + 1, sep);
        s.append(rest.as_str());
        proof {
            assert(s@ =~= segs(parts@)[i as int] + seq![sep] + joined_from(
                segs(parts@),
                i + 1 as int,
                sep,
            ));
        }
        s
    }
}

/// Segments from `i` on, each preceded by `::`.
fn colon_from(parts: &Vec<String>, i: usize) -> (r: String)
    requires
        i <= parts@.len(),
    ensures
        r@ == colon_path_from(segs(parts@), i as int),
    decreases parts@.len() - i,
{
    if i >= parts.len() {
        String::new()
    } else {
        let mut s = "::".to_owned();
        s.append(parts[i].as_str());
        let rest = colon_from(parts, i + 1);
        s.append(rest.as_str());
        proof {
            reveal_strlit("::");
            assert(s@ =~= seq![':', ':'] + segs(parts@)[i as int] + colon_path_from(
                segs(parts@),
                i + 1 as int,
            ));
        }
        s
    }
}

/// Lexicographic comparison of two character vectors from position `i` on.
fn lex_le_x(a: &Vec<char>, b: &Vec<char>, i: usize) -> (r: bool)
    requires
        i <= a@.len(),
        i <= b@.len(),
    ensures
        r == lex_le(a@.skip(i as int), b@.skip(i as int)),
    decreases a@.len() - i,
{
    proof {
        assert(a@.skip(i as int).len() == a@.len() - i);
        assert(b@.skip(i as int).len() == b@.len() - i);
    }
    if i >= a.len() {
        true
    } else if i >= b.len() {
        false
    } else if a[i] == b[i] {
        let r = lex_le_x(a, b, i + 1);
        proof {
            assert(a@.skip(i as int).drop_first() =~= a@.skip(i + 1 as int));
            assert(b@.skip(i as int).drop_first() =~= b@.skip(i + 1 as int));
            assert(a@.skip(i as int)[0] == a@[i as int]);
            assert(b@.skip(i as int)[0] == b@[i as int]);
        }
        r
    } else {
        let r = a[i] < b[i];
        proof {
            assert(a@.skip(i as int)[0] == a@[i as int]);
            assert(b@.skip(i as int)[0] == b@[i as int]);
        }
        r
    }
}

} // verus!
