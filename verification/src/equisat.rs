//! Why the solver's steps keep satisfiability: unit propagation, pure
//! literal elimination and the case split, each as a proved statement.

use vstd::prelude::*;
use crate::formula::{
    avoids, clause_holds, clause_unopposed, differs_from, discard, drop_pure, forcing,
    forcing_all, formula_holds, formula_view, is_pure, lemma_filter_members, lemma_filter_same,
    lit_holds, propagate, satisfiable, strip, touches, touches_pure, unopposed, untouched_by,
    var_of, without_pure,
};

verus! {

/// Where a clause of the propagated formula came from.
pub proof fn propagate_source(f: Seq<Seq<int>>, lit: int, i: int) -> (k: int)
    requires
        0 <= i < propagate(f, lit).len(),
    ensures
        0 <= k < f.len(),
        !f[k].contains(lit),
        propagate(f, lit)[i] == strip(f[k], -lit),
{
    let g = f.filter(avoids(lit));
    lemma_filter_members(f, avoids(lit));
    assert(f.contains(g[i]) && avoids(lit)(g[i]));
    choose|k: int| 0 <= k < f.len() && f[k] == g[i]
}

/// Where a clause without `lit` went in the propagated formula.
pub proof fn propagate_image(f: Seq<Seq<int>>, lit: int, k: int) -> (i: int)
    requires
        0 <= k < f.len(),
        !f[k].contains(lit),
    ensures
        0 <= i < propagate(f, lit).len(),
        propagate(f, lit)[i] == strip(f[k], -lit),
{
    let g = f.filter(avoids(lit));
    lemma_filter_members(f, avoids(lit));
    assert(f.contains(f[k]));
    assert(g.contains(f[k]));
    choose|i: int| 0 <= i < g.len() && g[i] == f[k]
}

/// An assignment that makes `lit` and the formula true makes the propagated
/// formula true.
pub proof fn lemma_propagate_holds(a: spec_fn(int) -> bool, f: Seq<Seq<int>>, lit: int)
    requires
        formula_holds(a, f),
        lit_holds(a, lit),
    ensures
        formula_holds(a, propagate(f, lit)),
{
    let p = propagate(f, lit);
    assert forall|i: int| 0 <= i < p.len() implies clause_holds(a, #[trigger] p[i]) by {
        let k = propagate_source(f, lit, i);
        let c = f[k];
        assert(clause_holds(a, c));
        let j = choose|j: int| 0 <= j < c.len() && lit_holds(a, #[trigger] c[j]);
        let l = c[j];
        assert(c.contains(l));
        assert(l != -lit);
        lemma_filter_members(c, differs_from(-lit));
        assert(strip(c, -lit).contains(l));
        let j2 = choose|j2: int| 0 <= j2 < p[i].len() && p[i][j2] == l;
        assert(lit_holds(a, p[i][j2]));
    }
}

/// An assignment that makes the propagated formula true, changed to make
/// `lit` true, makes the formula true.
pub proof fn lemma_propagate_lifts(a: spec_fn(int) -> bool, f: Seq<Seq<int>>, lit: int)
    requires
        formula_holds(a, propagate(f, lit)),
    ensures
        formula_holds(forcing(a, lit), f),
        lit_holds(forcing(a, lit), lit),
{
    let b = forcing(a, lit);
    let p = propagate(f, lit);
    assert forall|i: int| 0 <= i < f.len() implies clause_holds(b, #[trigger] f[i]) by {
        let c = f[i];
        if c.contains(lit) {
            let j = choose|j: int| 0 <= j < c.len() && c[j] == lit;
            assert(lit_holds(b, c[j]));
        } else {
            let i2 = propagate_image(f, lit, i);
            let s = strip(c, -lit);
            assert(clause_holds(a, p[i2]));
            let j = choose|j: int| 0 <= j < s.len() && lit_holds(a, #[trigger] s[j]);
            let l = s[j];
            lemma_filter_members(c, differs_from(-lit));
            assert(s.contains(l));
            assert(c.contains(l));
            assert(l != lit && l != -lit);
            assert(var_of(l) != var_of(lit));
            let j2 = choose|j2: int| 0 <= j2 < c.len() && c[j2] == l;
            assert(lit_holds(b, c[j2]));
        }
    }
    assert(formula_holds(b, f));
}

/// Propagating the literal of a unit clause keeps satisfiability.
pub proof fn lemma_unit_propagation(f: Seq<Seq<int>>, lit: int)
    requires
        exists|i: int| 0 <= i < f.len() && (#[trigger] f[i]).len() == 1 && f[i][0] == lit,
    ensures
        satisfiable(propagate(f, lit)) == satisfiable(f),
{
    if satisfiable(f) {
        let a = choose|a: spec_fn(int) -> bool| formula_holds(a, f);
        let i = choose|i: int| 0 <= i < f.len() && (#[trigger] f[i]).len() == 1 && f[i][0] == lit;
        assert(clause_holds(a, f[i]));
        lemma_propagate_holds(a, f, lit);
    }
    if satisfiable(propagate(f, lit)) {
        let a = choose|a: spec_fn(int) -> bool| formula_holds(a, propagate(f, lit));
        lemma_propagate_lifts(a, f, lit);
    }
}

/// Dropping the clauses that hold a pure literal keeps satisfiability.
pub proof fn lemma_discard_pure(f: Seq<Seq<int>>, ls: Seq<int>)
    requires
        forall|l: int| ls.contains(l) ==> is_pure(f, l),
    ensures
        satisfiable(discard(f, ls)) == satisfiable(f),
{
    let d = discard(f, ls);
    lemma_filter_members(f, untouched_by(ls));
    if satisfiable(f) {
        let a = choose|a: spec_fn(int) -> bool| formula_holds(a, f);
        assert forall|i: int| 0 <= i < d.len() implies clause_holds(a, #[trigger] d[i]) by {
            assert(f.contains(d[i]));
            let k = choose|k: int| 0 <= k < f.len() && f[k] == d[i];
            assert(clause_holds(a, f[k]));
        }
        assert(formula_holds(a, d));
    }
    if satisfiable(d) {
        let a = choose|a: spec_fn(int) -> bool| formula_holds(a, d);
        let b = forcing_all(a, ls);
        assert forall|p: int| ls.contains(p) implies lit_holds(b, p) by {
            if p < 0 {
                if ls.contains(-p) {
                    assert(is_pure(f, -p));
                    let i = choose|i: int| 0 <= i < f.len() && (#[trigger] f[i]).contains(-p);
                    let j = choose|j: int| 0 <= j < f[i].len() && f[i][j] == -p;
                    assert(clause_unopposed(f[i], p));
                    assert(var_of(f[i][j]) == var_of(p));
                }
            }
        }
        assert forall|i: int| 0 <= i < f.len() implies clause_holds(b, #[trigger] f[i]) by {
            let c = f[i];
            if touches(c, ls) {
                let j = choose|j: int| 0 <= j < c.len() && ls.contains(#[trigger] c[j]);
                assert(lit_holds(b, c[j]));
            } else {
                assert(f.contains(c));
                assert(d.contains(c));
                let k = choose|k: int| 0 <= k < d.len() && d[k] == c;
                assert(clause_holds(a, d[k]));
                let j = choose|j: int| 0 <= j < c.len() && lit_holds(a, #[trigger] c[j]);
                let l = c[j];
                let v = var_of(l);
                if ls.contains(v) {
                    assert(is_pure(f, v));
                    assert(clause_unopposed(f[i], v));
                    assert(l == v);
                }
                if ls.contains(-v) {
                    assert(is_pure(f, -v));
                    assert(clause_unopposed(f[i], -v));
                    assert(l == -v);
                }
                assert(lit_holds(b, c[j]));
            }
        }
        assert(formula_holds(b, f));
    }
}

/// Dropping the clauses that hold one of the literals `ls` is pure literal
/// elimination, where `ls` holds exactly the pure literals.
pub proof fn lemma_discard_all_pure(f: Seq<Seq<int>>, ls: Seq<int>)
    requires
        forall|l: int| ls.contains(l) <==> is_pure(f, l),
    ensures
        discard(f, ls) == drop_pure(f),
{
    assert forall|i: int| 0 <= i < f.len() implies untouched_by(ls)(#[trigger] f[i])
        == without_pure(f)(f[i]) by {
        let c = f[i];
        if touches(c, ls) {
            let j = choose|j: int| 0 <= j < c.len() && ls.contains(#[trigger] c[j]);
            assert(is_pure(f, c[j]));
        }
        if touches_pure(f, c) {
            let j = choose|j: int| 0 <= j < c.len() && is_pure(f, #[trigger] c[j]);
            assert(ls.contains(c[j]));
        }
    }
    lemma_filter_same(f, untouched_by(ls), without_pure(f));
}

/// Pure literal elimination keeps satisfiability.
pub proof fn lemma_drop_pure(f: Seq<Seq<int>>)
    ensures
        satisfiable(drop_pure(f)) == satisfiable(f),
{
    let d = drop_pure(f);
    lemma_filter_members(f, without_pure(f));
    if satisfiable(f) {
        let a = choose|a: spec_fn(int) -> bool| formula_holds(a, f);
        assert forall|i: int| 0 <= i < d.len() implies clause_holds(a, #[trigger] d[i]) by {
            assert(f.contains(d[i]));
            let k = choose|k: int| 0 <= k < f.len() && f[k] == d[i];
            assert(clause_holds(a, f[k]));
        }
        assert(formula_holds(a, d));
    }
    if satisfiable(d) {
        let a = choose|a: spec_fn(int) -> bool| formula_holds(a, d);
        let b = |v: int| if is_pure(f, v) { true } else if is_pure(f, -v) { false } else { a(v) };
        assert forall|p: int| is_pure(f, p) implies lit_holds(b, p) by {
            if p < 0 {
                if is_pure(f, -p) {
                    let i = choose|i: int| 0 <= i < f.len() && (#[trigger] f[i]).contains(-p);
                    let j = choose|j: int| 0 <= j < f[i].len() && f[i][j] == -p;
                    assert(clause_unopposed(f[i], p));
                    assert(var_of(f[i][j]) == var_of(p));
                }
            }
        }
        assert forall|i: int| 0 <= i < f.len() implies clause_holds(b, #[trigger] f[i]) by {
            let c = f[i];
            if touches_pure(f, c) {
                let j = choose|j: int| 0 <= j < c.len() && is_pure(f, #[trigger] c[j]);
                assert(lit_holds(b, c[j]));
            } else {
                assert(f.contains(c));
                assert(d.contains(c));
                let k = choose|k: int| 0 <= k < d.len() && d[k] == c;
                assert(clause_holds(a, d[k]));
                let j = choose|j: int| 0 <= j < c.len() && lit_holds(a, #[trigger] c[j]);
                let l = c[j];
                let v = var_of(l);
                if is_pure(f, v) {
                    assert(clause_unopposed(f[i], v));
                    assert(l == v);
                }
                if is_pure(f, -v) {
                    assert(clause_unopposed(f[i], -v));
                    assert(l == -v);
                }
                assert(lit_holds(b, c[j]));
            }
        }
        assert(formula_holds(b, f));
    }
}

/// A formula is satisfiable exactly if it is so together with `lit` or
/// together with its opposite.
pub proof fn lemma_case_split(f: Seq<Seq<int>>, lit: int)
    ensures
        satisfiable(f) == (satisfiable(f.push(seq![lit])) || satisfiable(f.push(seq![-lit]))),
{
    let pos = f.push(seq![lit]);
    let neg = f.push(seq![-lit]);
    if satisfiable(pos) {
        let a = choose|a: spec_fn(int) -> bool| formula_holds(a, pos);
        assert forall|i: int| 0 <= i < f.len() implies clause_holds(a, #[trigger] f[i]) by {
            assert(clause_holds(a, pos[i]));
        }
        assert(formula_holds(a, f));
    }
    if satisfiable(neg) {
        let a = choose|a: spec_fn(int) -> bool| formula_holds(a, neg);
        assert forall|i: int| 0 <= i < f.len() implies clause_holds(a, #[trigger] f[i]) by {
            assert(clause_holds(a, neg[i]));
        }
        assert(formula_holds(a, f));
    }
    if satisfiable(f) {
        let a = choose|a: spec_fn(int) -> bool| formula_holds(a, f);
        if lit_holds(a, lit) {
            assert forall|i: int| 0 <= i < pos.len() implies clause_holds(a, #[trigger] pos[i]) by {
                if i < f.len() {
                    assert(clause_holds(a, f[i]));
                } else {
                    assert(lit_holds(a, pos[i][0]));
                }
            }
            assert(formula_holds(a, pos));
        } else if lit != 0 {
            assert forall|i: int| 0 <= i < neg.len() implies clause_holds(a, #[trigger] neg[i]) by {
                if i < f.len() {
                    assert(clause_holds(a, f[i]));
                } else {
                    assert(lit_holds(a, neg[i][0]));
                }
            }
            assert(formula_holds(a, neg));
        } else {
            let b = forcing(a, 0);
            assert forall|i: int| 0 <= i < pos.len() implies clause_holds(b, #[trigger] pos[i]) by {
                if i < f.len() {
                    assert(clause_holds(a, f[i]));
                    let j = choose|j: int| 0 <= j < f[i].len() && lit_holds(a, #[trigger] f[i][j]);
                    assert(lit_holds(b, f[i][j]));
                } else {
                    assert(lit_holds(b, pos[i][0]));
                }
            }
            assert(formula_holds(b, pos));
        }
    }
}

/// The formula without clauses is satisfiable.
pub proof fn lemma_empty_formula(f: Seq<Seq<int>>)
    requires
        f.len() == 0,
    ensures
        satisfiable(f),
{
    let a = |v: int| true;
    assert(formula_holds(a, f));
}

/// A formula with an empty clause is not satisfiable.
pub proof fn lemma_empty_clause(f: Seq<Seq<int>>, k: int)
    requires
        0 <= k < f.len(),
        f[k].len() == 0,
    ensures
        !satisfiable(f),
{
    if satisfiable(f) {
        let a = choose|a: spec_fn(int) -> bool| formula_holds(a, f);
        assert(clause_holds(a, f[k]));
    }
}

/// A literal of `i64` whose variable is in the formula in another form is
/// neither zero nor the least value, so that its opposite is in `i64` too.
pub proof fn lemma_opposed_literal(v: Seq<Vec<i64>>, l: i64)
    requires
        !unopposed(formula_view(v), l as int),
    ensures
        l != 0,
        l > i64::MIN,
{
    let f = formula_view(v);
    let i = choose|i: int| 0 <= i < f.len() && !clause_unopposed(#[trigger] f[i], l as int);
    let j = choose|j: int|
        0 <= j < f[i].len() && var_of(#[trigger] f[i][j]) == var_of(l as int) && f[i][j]
            != l as int;
    assert(f[i][j] == v[i]@[j] as int);
}

} // verus!
