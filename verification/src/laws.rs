//! General properties of the generator, stated and proved once.
//!
//! Signature derivation inverts into the name's segments; interface closure
//! is monotone and idempotent; ancestor chains unfold as declared;
//! declarations without inheritance clauses resolve to the bare root chain
//! and the empty interface set; implements resolution does not depend on
//! the order of the declared interface list.

use crate::ast::DefsModel;
use crate::name::dotted;
use crate::name::is_ident_seq;
use crate::name::is_primitive;
use crate::name::joined_from;
use crate::name::lex_le;
use crate::name::sig_of;
use crate::name::wf_name;
use crate::resolve::chain_fuel;
use crate::resolve::class_chain;
use crate::resolve::edge;
use crate::resolve::impl_set;
use crate::resolve::lookup_in_defs;
use crate::resolve::lookup_in_stubs;
use crate::resolve::reach_n;
use crate::resolve::reaches;
use crate::resolve::root_name;
use crate::resolve::sorted_names;
use crate::resolve::sp_chain;
use crate::resolve::sup_of;
use vstd::prelude::*;

verus! {

broadcast use vstd::seq::group_seq_axioms;

/// The number of characters before the first separator, or the length of
/// the text if there is none.
pub open spec fn first_sep(s: Seq<char>, sep: char) -> int
    decreases s.len(),
{
    if s.len() == 0 {
        0
    } else if s[0] == sep {
        0
    } else {
        1 + first_sep(s.drop_first(), sep)
    }
}

pub proof fn lemma_first_sep_bound(s: Seq<char>, sep: char)
    ensures
        0 <= first_sep(s, sep) <= s.len(),
    decreases s.len(),
{
    if s.len() > 0 && s[0] != sep {
        lemma_first_sep_bound(s.drop_first(), sep);
    }
}

/// Splitting the text on the separator.
pub open spec fn split_on(s: Seq<char>, sep: char) -> Seq<Seq<char>>
    decreases s.len(),
    via split_on_dec
{
    let j = first_sep(s, sep);
    if j >= s.len() {
        seq![s]
    } else {
        seq![s.take(j)] + split_on(s.skip(j + 1), sep)
    }
}

#[via_fn]
proof fn split_on_dec(s: Seq<char>, sep: char) {
    lemma_first_sep_bound(s, sep);
}

/// A separator-free text has no first separator before its end.
proof fn lemma_first_sep_free(s: Seq<char>, sep: char)
    requires
        forall|j: int| 0 <= j < s.len() ==> s[j] != sep,
    ensures
        first_sep(s, sep) == s.len(),
    decreases s.len(),
{
    if s.len() > 0 {
        assert(s[0] != sep);
        lemma_first_sep_free(s.drop_first(), sep);
    }
}

/// The first separator of `a + sep + b` with `a` separator-free stands
/// exactly after `a`.
proof fn lemma_first_sep_concat(a: Seq<char>, b: Seq<char>, sep: char)
    requires
        forall|j: int| 0 <= j < a.len() ==> a[j] != sep,
    ensures
        first_sep(a + seq![sep] + b, sep) == a.len(),
    decreases a.len(),
{
    let s = a + seq![sep] + b;
    if a.len() == 0 {
        assert(s[0] == sep);
    } else {
        assert(s[0] == a[0]);
        assert(s.drop_first() =~= a.drop_first() + seq![sep] + b);
        assert forall|j: int| 0 <= j < a.drop_first().len() implies a.drop_first()[j] != sep by {
            assert(a.drop_first()[j] == a[j + 1]);
        }
        lemma_first_sep_concat(a.drop_first(), b, sep);
    }
}

/// An identifier character is never a path or dot separator.
proof fn lemma_ident_not_sep(s: Seq<char>)
    requires
        is_ident_seq(s),
    ensures
        forall|j: int| 0 <= j < s.len() ==> s[j] != '/',
        forall|j: int| 0 <= j < s.len() ==> s[j] != '.',
{
    assert forall|j: int| 0 <= j < s.len() implies s[j] != '/' && s[j] != '.' by {
        assert(crate::token::is_ident_cont(s[j]));
    }
}

/// Splitting the joined segments on the separator restores the segments.
proof fn lemma_split_joined_from(n: Seq<Seq<char>>, i: int, sep: char)
    requires
        0 <= i < n.len(),
        forall|k: int|
            0 <= k < n.len() ==> (#[trigger] n[k]).len() > 0 && (forall|j: int|
                0 <= j < n[k].len() ==> n[k][j] != sep),
    ensures
        split_on(joined_from(n, i, sep), sep) == n.skip(i),
    decreases n.len() - i,
{
    let s = joined_from(n, i, sep);
    if i == n.len() - 1 {
        assert(s == n[i]);
        lemma_first_sep_free(n[i], sep);
        assert(split_on(s, sep) =~= n.skip(i));
    } else {
        assert(s == n[i] + seq![sep] + joined_from(n, i + 1, sep));
        lemma_first_sep_concat(n[i], joined_from(n, i + 1, sep), sep);
        let j = first_sep(s, sep);
        assert(j == n[i].len());
        assert(j < s.len()) by {
            assert(s.len() >= n[i].len() + 1);
        }
        assert(s.take(j) =~= n[i]);
        assert(s.skip(j + 1) =~= joined_from(n, i + 1, sep));
        lemma_split_joined_from(n, i + 1, sep);
        assert(split_on(s, sep) =~= seq![n[i]] + n.skip(i + 1));
        assert(seq![n[i]] + n.skip(i + 1) =~= n.skip(i));
    }
}

/// The signature of a non-primitive qualified name with `k` segments is a
/// path of exactly those `k` segments joined by the path separator:
/// splitting it on the separator restores the segments.
pub proof fn lemma_signature_path(n: Seq<Seq<char>>)
    requires
        wf_name(n),
        !is_primitive(n),
    ensures
        split_on(sig_of(n), '/') == n,
        split_on(sig_of(n), '/').len() == n.len(),
{
    assert forall|k: int|
        0 <= k < n.len() implies (#[trigger] n[k]).len() > 0 && (forall|j: int|
        0 <= j < n[k].len() ==> n[k][j] != '/') by {
        lemma_ident_not_sep(n[k]);
    }
    lemma_split_joined_from(n, 0, '/');
    assert(n.skip(0) =~= n);
}

/// The canonical dotted form of a well-formed name splits back into its
/// segments; two well-formed names with one dotted form are one name.
pub proof fn lemma_dotted_injective(a: Seq<Seq<char>>, b: Seq<Seq<char>>)
    requires
        wf_name(a),
        wf_name(b),
        dotted(a) == dotted(b),
    ensures
        a == b,
{
    assert forall|k: int|
        0 <= k < a.len() implies (#[trigger] a[k]).len() > 0 && (forall|j: int|
        0 <= j < a[k].len() ==> a[k][j] != '.') by {
        lemma_ident_not_sep(a[k]);
    }
    assert forall|k: int|
        0 <= k < b.len() implies (#[trigger] b[k]).len() > 0 && (forall|j: int|
        0 <= j < b[k].len() ==> b[k][j] != '.') by {
        lemma_ident_not_sep(b[k]);
    }
    lemma_split_joined_from(a, 0, '.');
    lemma_split_joined_from(b, 0, '.');
    assert(a.skip(0) =~= a);
    assert(b.skip(0) =~= b);
}

/// Interface closure is monotone: it includes every directly extended
/// interface.
pub proof fn lemma_closure_monotone(d: DefsModel, a: Seq<Seq<char>>, b: Seq<Seq<char>>)
    requires
        edge(d, a, b),
    ensures
        reaches(d, a, b),
{
    assert(reach_n(d, a, b, 1));
}

proof fn lemma_reach_collapse(
    d: DefsModel,
    a: Seq<Seq<char>>,
    b: Seq<Seq<char>>,
    n: nat,
)
    requires
        forall|x: Seq<Seq<char>>, y: Seq<Seq<char>>, z: Seq<Seq<char>>|
            edge(d, x, y) && edge(d, y, z) ==> edge(d, x, z),
        reach_n(d, a, b, n),
    ensures
        edge(d, a, b),
    decreases n,
{
    if !edge(d, a, b) {
        let m = choose|m: Seq<Seq<char>>| reach_n(d, a, m, (n - 1) as nat) && edge(d, m, b);
        lemma_reach_collapse(d, a, m, (n - 1) as nat);
    }
}

/// Interface closure is idempotent: over a graph whose direct-extension
/// relation is already transitively closed, reachability adds nothing.
pub proof fn lemma_closure_idempotent(d: DefsModel, a: Seq<Seq<char>>)
    requires
        forall|x: Seq<Seq<char>>, y: Seq<Seq<char>>, z: Seq<Seq<char>>|
            edge(d, x, y) && edge(d, y, z) ==> edge(d, x, z),
    ensures
        forall|b: Seq<Seq<char>>| reaches(d, a, b) <==> edge(d, a, b),
{
    assert forall|b: Seq<Seq<char>>| reaches(d, a, b) implies edge(d, a, b) by {
        let n = choose|n: nat| reach_n(d, a, b, n);
        lemma_reach_collapse(d, a, b, n);
    }
    assert forall|b: Seq<Seq<char>>| edge(d, a, b) implies reaches(d, a, b) by {
        lemma_closure_monotone(d, a, b);
    }
}

/// For a declared chain `A extends B extends C` with `C` carrying no
/// explicit `extends`, the ancestor chain of `A` is exactly
/// `[B, C, root]`.
pub proof fn lemma_ancestor_chain(
    d: DefsModel,
    a: Seq<Seq<char>>,
    b: Seq<Seq<char>>,
    c: Seq<Seq<char>>,
)
    requires
        sup_of(d, a) == Some(b),
        sup_of(d, b) == Some(c),
        sup_of(d, c) == Some(root_name()),
        sup_of(d, root_name()) is None,
        chain_fuel(d) >= 3,
    ensures
        class_chain(d, a) == Some(seq![b, c, root_name()]),
{
    let fuel = chain_fuel(d);
    assert(sp_chain(d, root_name(), (fuel - 3) as nat) == Some(Seq::<Seq<Seq<char>>>::empty()));
    assert(sp_chain(d, c, (fuel - 2) as nat) == Some(seq![root_name()])) by {
        assert(seq![root_name()] + Seq::<Seq<Seq<char>>>::empty() =~= seq![root_name()]);
    }
    assert(sp_chain(d, b, (fuel - 1) as nat) == Some(seq![c, root_name()])) by {
        assert(seq![c] + seq![root_name()] =~= seq![c, root_name()]);
    }
    assert(sp_chain(d, a, fuel) == Some(seq![b, c, root_name()])) by {
        assert(seq![b] + seq![c, root_name()] =~= seq![b, c, root_name()]);
    }
}

/// A class declared with no `extends` clause resolves to the bare root
/// chain, provided nothing declares the root itself.
pub proof fn lemma_no_extends_chain(d: DefsModel, c: Seq<Seq<char>>)
    requires
        lookup_in_stubs(d.meta, c) is None,
        lookup_in_defs(d.defs, c) == Some(Option::<Seq<Seq<char>>>::None),
        sup_of(d, root_name()) is None,
        chain_fuel(d) >= 1,
    ensures
        class_chain(d, c) == Some(seq![root_name()]),
{
    let fuel = chain_fuel(d);
    assert(sup_of(d, c) == Some(root_name()));
    assert(sp_chain(d, root_name(), (fuel - 1) as nat) == Some(Seq::<Seq<Seq<char>>>::empty()));
    assert(sp_chain(d, c, fuel) == Some(seq![root_name()])) by {
        assert(seq![root_name()] + Seq::<Seq<Seq<char>>>::empty() =~= seq![root_name()]);
    }
}

/// An interface or class declared with no inheritance clauses resolves to
/// the empty interface set.
pub proof fn lemma_no_clauses_empty_set(d: DefsModel)
    ensures
        impl_set(d, Seq::<Seq<Seq<char>>>::empty()) =~= Set::<Seq<Seq<char>>>::empty(),
{
    assert forall|b: Seq<Seq<char>>| !impl_set(d, Seq::<Seq<Seq<char>>>::empty()).contains(b) by {
        if Seq::<Seq<Seq<char>>>::empty().to_set().contains(b) {
            let k = choose|k: int|
                0 <= k < Seq::<Seq<Seq<char>>>::empty().len() && Seq::<Seq<Seq<char>>>::empty()[k]
                    == b;
        }
    }
}

/// Lexicographic order is transitive.
proof fn lemma_lex_trans(a: Seq<char>, b: Seq<char>, c: Seq<char>)
    requires
        lex_le(a, b),
        lex_le(b, c),
    ensures
        lex_le(a, c),
    decreases a.len(),
{
    if a.len() > 0 && b.len() > 0 && c.len() > 0 {
        if a[0] == b[0] && b[0] == c[0] {
            lemma_lex_trans(a.drop_first(), b.drop_first(), c.drop_first());
        }
    }
}

/// Lexicographic order is antisymmetric.
proof fn lemma_lex_antisym(a: Seq<char>, b: Seq<char>)
    requires
        lex_le(a, b),
        lex_le(b, a),
    ensures
        a == b,
    decreases a.len(),
{
    if a.len() == 0 {
        assert(b.len() == 0);
        assert(a =~= b);
    } else {
        assert(b.len() > 0);
        assert(a[0] == b[0]);
        lemma_lex_antisym(a.drop_first(), b.drop_first());
        assert(a.len() == b.len()) by {
            assert(a.drop_first().len() == b.drop_first().len());
        }
        assert forall|j: int| 0 <= j < a.len() implies a[j] == b[j] by {
            if j > 0 {
                assert(a.drop_first()[j - 1] == b.drop_first()[j - 1]);
                assert(a.drop_first()[j - 1] == a[j]);
                assert(b.drop_first()[j - 1] == b[j]);
            }
        }
        assert(a =~= b);
    }
}

/// A sorted, duplicate-free list of well-formed names is determined by its
/// set of members: sortedness makes the first element the least member,
/// and induction does the rest.
proof fn lemma_sorted_unique(r1: Seq<Seq<Seq<char>>>, r2: Seq<Seq<Seq<char>>>)
    requires
        sorted_names(r1),
        sorted_names(r2),
        r1.no_duplicates(),
        r2.no_duplicates(),
        forall|b: Seq<Seq<char>>| r1.contains(b) <==> r2.contains(b),
        forall|k: int| 0 <= k < r1.len() ==> wf_name(#[trigger] r1[k]),
        forall|k: int| 0 <= k < r2.len() ==> wf_name(#[trigger] r2[k]),
    ensures
        r1 == r2,
    decreases r1.len(),
{
    if r1.len() == 0 {
        if r2.len() > 0 {
            assert(r2.contains(r2[0]));
        }
        assert(r1 =~= r2);
    } else {
        assert(r1.contains(r1[0]));
        assert(r2.len() > 0);
        assert forall|k: int| 0 <= k < r1.len() implies lex_le(
            dotted(r1[0]),
            dotted(#[trigger] r1[k]),
        ) by {
            lemma_sorted_least(r1, 0, k);
        }
        assert forall|k: int| 0 <= k < r2.len() implies lex_le(
            dotted(r2[0]),
            dotted(#[trigger] r2[k]),
        ) by {
            lemma_sorted_least(r2, 0, k);
        }
        assert(r2.contains(r1[0]));
        let k1 = choose|k: int| 0 <= k < r2.len() && r2[k] == r1[0];
        assert(r1.contains(r2[0]));
        let k2 = choose|k: int| 0 <= k < r1.len() && r1[k] == r2[0];
        assert(lex_le(dotted(r2[0]), dotted(r1[0])));
        assert(lex_le(dotted(r1[0]), dotted(r2[0])));
        lemma_lex_antisym(dotted(r1[0]), dotted(r2[0]));
        lemma_dotted_injective(r1[0], r2[0]);
        let t1 = r1.drop_first();
        let t2 = r2.drop_first();
        assert forall|b: Seq<Seq<char>>| t1.contains(b) implies t2.contains(b) by {
            let k = choose|k: int| 0 <= k < t1.len() && t1[k] == b;
            assert(r1[k + 1] == b);
            assert(r1.contains(b));
            assert(r2.contains(b));
            let kk = choose|k: int| 0 <= k < r2.len() && r2[k] == b;
            assert(kk != 0) by {
                if kk == 0 {
                    assert(r1[k + 1] == r1[0]);
                }
            }
            assert(t2[kk - 1] == b);
        }
        assert forall|b: Seq<Seq<char>>| t2.contains(b) implies t1.contains(b) by {
            let k = choose|k: int| 0 <= k < t2.len() && t2[k] == b;
            assert(r2[k + 1] == b);
            assert(r2.contains(b));
            assert(r1.contains(b));
            let kk = choose|k: int| 0 <= k < r1.len() && r1[k] == b;
            assert(kk != 0) by {
                if kk == 0 {
                    assert(r2[k + 1] == r2[0]);
                }
            }
            assert(t1[kk - 1] == b);
        }
        assert(sorted_names(t1)) by {
            assert(forall|i: int|
                0 <= i < t1.len() - 1 ==> t1[i] == r1[i + 1] && #[trigger] t1[i + 1] == r1[i + 2]);
        }
        assert(sorted_names(t2)) by {
            assert(forall|i: int|
                0 <= i < t2.len() - 1 ==> t2[i] == r2[i + 1] && #[trigger] t2[i + 1] == r2[i + 2]);
        }
        assert forall|k: int| 0 <= k < t1.len() implies wf_name(#[trigger] t1[k]) by {
            assert(t1[k] == r1[k + 1]);
        }
        assert forall|k: int| 0 <= k < t2.len() implies wf_name(#[trigger] t2[k]) by {
            assert(t2[k] == r2[k + 1]);
        }
        lemma_sorted_unique(t1, t2);
        assert(r1 =~= r2) by {
            assert(r1[0] == r2[0]);
            assert(forall|j: int| 1 <= j < r1.len() ==> r1[j] == t1[j - 1] && r2[j] == t2[j - 1]);
        }
    }
}

/// In a sorted list, every element is at or after the first in the order.
proof fn lemma_sorted_least(r: Seq<Seq<Seq<char>>>, i: int, k: int)
    requires
        sorted_names(r),
        0 <= i <= k < r.len(),
    ensures
        lex_le(dotted(r[i]), dotted(r[k])),
    decreases k - i,
{
    if i == k {
        lemma_lex_refl(dotted(r[i]));
    } else {
        lemma_sorted_least(r, i + 1, k);
        lemma_lex_trans(dotted(r[i]), dotted(r[i + 1]), dotted(r[k]));
    }
}

/// Lexicographic order is reflexive.
proof fn lemma_lex_refl(a: Seq<char>)
    ensures
        lex_le(a, a),
    decreases a.len(),
{
    if a.len() > 0 {
        lemma_lex_refl(a.drop_first());
    }
}

/// Implements-set resolution is order-independent on its input and
/// deterministic in its output: two declared interface lists with the same
/// members resolve to the same set, and two sorted, duplicate-free results
/// with that set are one list.
pub proof fn lemma_implements_order_insensitive(
    d: DefsModel,
    impls1: Seq<Seq<Seq<char>>>,
    impls2: Seq<Seq<Seq<char>>>,
    r1: Seq<Seq<Seq<char>>>,
    r2: Seq<Seq<Seq<char>>>,
)
    requires
        impls1.to_set() == impls2.to_set(),
        sorted_names(r1),
        sorted_names(r2),
        r1.no_duplicates(),
        r2.no_duplicates(),
        forall|b: Seq<Seq<char>>| r1.contains(b) <==> impl_set(d, impls1).contains(b),
        forall|b: Seq<Seq<char>>| r2.contains(b) <==> impl_set(d, impls2).contains(b),
        forall|k: int| 0 <= k < r1.len() ==> wf_name(#[trigger] r1[k]),
        forall|k: int| 0 <= k < r2.len() ==> wf_name(#[trigger] r2[k]),
    ensures
        r1 == r2,
{
    assert forall|b: Seq<Seq<char>>| impl_set(d, impls1).contains(b) implies impl_set(
        d,
        impls2,
    ).contains(b) by {
        if impls1.to_set().contains(b) {
        } else {
            let k = choose|k: int| 0 <= k < impls1.len() && reaches(d, #[trigger] impls1[k], b);
            assert(impls1.contains(impls1[k]));
            assert(impls2.to_set().contains(impls1[k]));
            assert(impls2.contains(impls1[k]));
            let j = choose|j: int| 0 <= j < impls2.len() && impls2[j] == impls1[k];
            assert(reaches(d, impls2[j], b));
        }
    }
    assert forall|b: Seq<Seq<char>>| impl_set(d, impls2).contains(b) implies impl_set(
        d,
        impls1,
    ).contains(b) by {
        if impls2.to_set().contains(b) {
        } else {
            let k = choose|k: int| 0 <= k < impls2.len() && reaches(d, #[trigger] impls2[k], b);
            assert(impls2.contains(impls2[k]));
            assert(impls1.to_set().contains(impls2[k]));
            assert(impls1.contains(impls2[k]));
            let j = choose|j: int| 0 <= j < impls1.len() && impls1[j] == impls2[k];
            assert(reaches(d, impls1[j], b));
        }
    }
    lemma_sorted_unique(r1, r2);
}

} // verus!
