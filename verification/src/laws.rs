//! General statements about the verdict and the simplification rules.

use vstd::prelude::*;
use crate::equisat::{lemma_discard_pure, lemma_drop_pure, lemma_unit_propagation};
use crate::formula::{
    avoids, differs_from, discard, first_unit, formula_view, is_pure, lemma_filter_members,
    lemma_filter_push, lemma_filter_same, lemma_first_unit, lemma_propagate_push, lemma_propagate_shrinks,
    propagate, propagate_units, satisfiable, simplified, strip,
};

verus! {

/// The verdict depends on the literals alone: two vectors that hold the same
/// clauses stand for the same formula, and so get the same verdict.
pub proof fn lemma_same_clauses_same_verdict(c1: Seq<Vec<i64>>, c2: Seq<Vec<i64>>)
    requires
        c1.len() == c2.len(),
        forall|i: int| 0 <= i < c1.len() ==> (#[trigger] c1[i])@ == c2[i]@,
    ensures
        formula_view(c1) == formula_view(c2),
        satisfiable(formula_view(c1)) == satisfiable(formula_view(c2)),
{
    assert(formula_view(c1) =~= formula_view(c2));
}

/// Two filters can be applied in either order.
pub proof fn lemma_filter_commutes<A>(s: Seq<A>, p: spec_fn(A) -> bool, q: spec_fn(A) -> bool)
    ensures
        s.filter(p).filter(q) == s.filter(q).filter(p),
    decreases s.len(),
{
    reveal(Seq::filter);
    if s.len() > 0 {
        let r = s.drop_last();
        let x = s.last();
        lemma_filter_commutes(r, p, q);
        assert(r.push(x) =~= s);
        lemma_filter_push(r, x, p);
        lemma_filter_push(r, x, q);
        lemma_filter_push(r.filter(p), x, q);
        lemma_filter_push(r.filter(q), x, p);
    }
}

/// Unit propagation is confluent: two literals that are not each other's
/// opposite can be propagated in either order, and the same clauses are left
/// in the same order.
pub proof fn lemma_propagate_commutes(f: Seq<Seq<int>>, a: int, b: int)
    requires
        a != -b,
    ensures
        propagate(propagate(f, a), b) == propagate(propagate(f, b), a),
    decreases f.len(),
{
    reveal(Seq::filter);
    if f.len() > 0 {
        let r = f.drop_last();
        let c = f.last();
        assert(r.push(c) =~= f);
        lemma_propagate_commutes(r, a, b);
        lemma_propagate_push(r, c, a);
        lemma_propagate_push(r, c, b);
        lemma_propagate_push(propagate(r, a), strip(c, -a), b);
        lemma_propagate_push(propagate(r, b), strip(c, -b), a);
        lemma_filter_members(c, differs_from(-a));
        lemma_filter_members(c, differs_from(-b));
        lemma_filter_commutes(c, differs_from(-a), differs_from(-b));
    }
}

/// Dropping the clauses that hold one pure literal keeps satisfiability.
pub proof fn lemma_pure_literal(f: Seq<Seq<int>>, l: int)
    requires
        is_pure(f, l),
    ensures
        satisfiable(discard(f, seq![l])) == satisfiable(f),
{
    let ls = seq![l];
    assert forall|x: int| ls.contains(x) implies is_pure(f, x) by {
        let k = choose|k: int| 0 <= k < ls.len() && ls[k] == x;
    }
    lemma_discard_pure(f, ls);
}

/// Unit propagation to the fixed point keeps satisfiability.
pub proof fn lemma_propagate_units(f: Seq<Seq<int>>)
    ensures
        satisfiable(propagate_units(f)) == satisfiable(f),
    decreases f.len(),
{
    if let Some(u) = first_unit(f) {
        lemma_first_unit(f);
        lemma_propagate_shrinks(f, u);
        lemma_unit_propagation(f, u);
        lemma_propagate_units(propagate(f, u));
    }
}

/// The simplified formula is satisfiable exactly if the formula is.
pub proof fn lemma_simplified(f: Seq<Seq<int>>)
    ensures
        satisfiable(simplified(f)) == satisfiable(f),
{
    lemma_propagate_units(f);
    lemma_drop_pure(propagate_units(f));
}

/// Two literals of which one denies what the other asserts.
pub open spec fn opposite(a: int, b: int) -> bool {
    a == -b && a != b
}

/// No literal is the opposite of another.
pub open spec fn consistent(ls: Seq<int>) -> bool {
    forall|i: int, j: int|
        0 <= i < ls.len() && 0 <= j < ls.len() ==> !opposite(#[trigger] ls[i], #[trigger] ls[j])
}

/// Unit propagation of the literals one after another.
pub open spec fn propagate_each(f: Seq<Seq<int>>, ls: Seq<int>) -> Seq<Seq<int>>
    decreases ls.len(),
{
    if ls.len() == 0 {
        f
    } else {
        propagate(propagate_each(f, ls.drop_last()), ls.last())
    }
}

/// The predicate "contains none of the literals `ls`".
pub open spec fn avoids_all(ls: Seq<int>) -> spec_fn(Seq<int>) -> bool {
    |c: Seq<int>| forall|k: int| 0 <= k < ls.len() ==> !c.contains(#[trigger] ls[k])
}

/// The predicate "is the negation of none of the literals `ls`".
pub open spec fn negates_none(ls: Seq<int>) -> spec_fn(int) -> bool {
    |x: int| forall|k: int| 0 <= k < ls.len() ==> x != -(#[trigger] ls[k])
}

/// The function that takes the negations of the literals `ls` out of a
/// clause.
pub open spec fn stripping_all(ls: Seq<int>) -> spec_fn(Seq<int>) -> Seq<int> {
    |c: Seq<int>| c.filter(negates_none(ls))
}

/// What is left when the literals `ls` are made true: the clauses that
/// contain none of them, without the negations of them.
pub open spec fn residual(f: Seq<Seq<int>>, ls: Seq<int>) -> Seq<Seq<int>> {
    f.filter(avoids_all(ls)).map_values(stripping_all(ls))
}

/// Two filters one after the other are one filter by both predicates.
pub proof fn lemma_filter_twice<A>(
    s: Seq<A>,
    p: spec_fn(A) -> bool,
    q: spec_fn(A) -> bool,
    both: spec_fn(A) -> bool,
)
    requires
        forall|i: int| 0 <= i < s.len() ==> both(#[trigger] s[i]) == (p(s[i]) && q(s[i])),
    ensures
        s.filter(p).filter(q) == s.filter(both),
    decreases s.len(),
{
    reveal(Seq::filter);
    if s.len() > 0 {
        let r = s.drop_last();
        let x = s.last();
        lemma_filter_twice(r, p, q, both);
        assert(r.push(x) =~= s);
        lemma_filter_push(r, x, p);
        lemma_filter_push(r, x, both);
        lemma_filter_push(r.filter(p), x, q);
    }
}

/// The residual of a formula with one more clause.
pub proof fn lemma_residual_push(f: Seq<Seq<int>>, c: Seq<int>, ls: Seq<int>)
    ensures
        residual(f.push(c), ls) == if avoids_all(ls)(c) {
            residual(f, ls).push(c.filter(negates_none(ls)))
        } else {
            residual(f, ls)
        },
{
    lemma_filter_push(f, c, avoids_all(ls));
    if avoids_all(ls)(c) {
        assert(residual(f.push(c), ls) =~= residual(f, ls).push(c.filter(negates_none(ls))));
    }
}

/// Propagating one more literal takes the residual of some literals to the
/// residual of all.
pub proof fn lemma_residual_step(f: Seq<Seq<int>>, ls: Seq<int>, b: int)
    requires
        consistent(ls.push(b)),
    ensures
        propagate(residual(f, ls), b) == residual(f, ls.push(b)),
    decreases f.len(),
{
    reveal(Seq::filter);
    let all = ls.push(b);
    if f.len() > 0 {
        let g = f.drop_last();
        let c = f.last();
        assert(g.push(c) =~= f);
        lemma_residual_step(g, ls, b);
        lemma_residual_push(g, c, ls);
        lemma_residual_push(g, c, all);
        assert forall|k: int| 0 <= k < ls.len() implies all[k] == ls[k] by {}
        assert(all[ls.len() as int] == b);
        if avoids_all(ls)(c) {
            let kept = c.filter(negates_none(ls));
            lemma_propagate_push(residual(g, ls), kept, b);
            lemma_filter_members(c, negates_none(ls));
            if c.contains(b) {
                assert forall|k: int| 0 <= k < ls.len() implies b != -(#[trigger] ls[k]) by {
                    assert(!opposite(all[ls.len() as int], all[k]));
                    assert(!c.contains(ls[k]));
                }
                assert(negates_none(ls)(b));
                assert(kept.contains(b));
                assert(!avoids_all(all)(c));
            } else {
                assert(!kept.contains(b));
                assert forall|k: int| 0 <= k < all.len() implies !c.contains(
                    #[trigger] all[k],
                ) by {
                    if k < ls.len() {
                        assert(all[k] == ls[k]);
                    }
                }
                assert(avoids_all(all)(c));
                assert forall|i: int| 0 <= i < c.len() implies negates_none(all)(#[trigger] c[i])
                    == (negates_none(ls)(c[i]) && differs_from(-b)(c[i])) by {
                    let x = c[i];
                    if negates_none(all)(x) {
                        assert forall|k: int| 0 <= k < ls.len() implies x != -(
                        #[trigger] ls[k]) by {
                            assert(x != -all[k]);
                        }
                        assert(x != -all[ls.len() as int]);
                    }
                }
                lemma_filter_twice(c, negates_none(ls), differs_from(-b), negates_none(all));
            }
        } else {
            let k = choose|k: int| 0 <= k < ls.len() && c.contains(#[trigger] ls[k]);
            assert(c.contains(all[k]));
            assert(!avoids_all(all)(c));
        }
    } else {
        assert(propagate(residual(f, ls), b) =~= residual(f, all));
    }
}

/// Propagating consistent literals one after another leaves the clauses that
/// contain none of them, without the negations of them.
pub proof fn lemma_propagate_each(f: Seq<Seq<int>>, ls: Seq<int>)
    requires
        consistent(ls),
    ensures
        propagate_each(f, ls) == residual(f, ls),
    decreases ls.len(),
{
    if ls.len() == 0 {
        reveal(Seq::filter);
        lemma_residual_of_none(f, ls);
    } else {
        let r = ls.drop_last();
        assert(r.push(ls.last()) =~= ls);
        assert forall|i: int, j: int| 0 <= i < r.len() && 0 <= j < r.len() implies !opposite(
            #[trigger] r[i],
            #[trigger] r[j],
        ) by {
            assert(!opposite(ls[i], ls[j]));
        }
        lemma_propagate_each(f, r);
        lemma_residual_step(f, r, ls.last());
    }
}

/// Making no literal true leaves the formula as it is.
pub proof fn lemma_residual_of_none(f: Seq<Seq<int>>, ls: Seq<int>)
    requires
        ls.len() == 0,
    ensures
        residual(f, ls) == f,
    decreases f.len(),
{
    reveal(Seq::filter);
    if f.len() > 0 {
        let g = f.drop_last();
        let c = f.last();
        assert(g.push(c) =~= f);
        lemma_residual_of_none(g, ls);
        lemma_residual_push(g, c, ls);
        lemma_filter_whole(c, negates_none(ls));
    } else {
        assert(residual(f, ls) =~= f);
    }
}

/// A filter that rejects nothing returns the sequence.
pub proof fn lemma_filter_whole<A>(s: Seq<A>, p: spec_fn(A) -> bool)
    requires
        forall|i: int| 0 <= i < s.len() ==> p(#[trigger] s[i]),
    ensures
        s.filter(p) == s,
    decreases s.len(),
{
    reveal(Seq::filter);
    if s.len() > 0 {
        lemma_filter_whole(s.drop_last(), p);
        assert(s.drop_last().push(s.last()) =~= s);
    }
}

/// Unit propagation is confluent: consistent literals leave the same clauses
/// in the same order, in whatever order and however often each is propagated.
pub proof fn lemma_propagation_confluent(f: Seq<Seq<int>>, first: Seq<int>, second: Seq<int>)
    requires
        consistent(first),
        forall|l: int| first.contains(l) <==> second.contains(l),
    ensures
        propagate_each(f, first) == propagate_each(f, second),
{
    assert forall|i: int, j: int| 0 <= i < second.len() && 0 <= j < second.len() implies !opposite(
        #[trigger] second[i],
        #[trigger] second[j],
    ) by {
        assert(first.contains(second[i]) && first.contains(second[j]));
        let a = choose|a: int| 0 <= a < first.len() && first[a] == second[i];
        let b = choose|b: int| 0 <= b < first.len() && first[b] == second[j];
        assert(!opposite(first[a], first[b]));
    }
    lemma_propagate_each(f, first);
    lemma_propagate_each(f, second);
    assert forall|i: int| 0 <= i < f.len() implies avoids_all(first)(#[trigger] f[i])
        == avoids_all(second)(f[i]) by {
        if avoids_all(first)(f[i]) {
            lemma_same_avoided(f[i], first, second);
        }
        if avoids_all(second)(f[i]) {
            lemma_same_avoided(f[i], second, first);
        }
    }
    lemma_filter_same(f, avoids_all(first), avoids_all(second));
    let kept = f.filter(avoids_all(first));
    assert forall|i: int| 0 <= i < kept.len() implies stripping_all(first)(#[trigger] kept[i])
        == stripping_all(second)(kept[i]) by {
        let c = kept[i];
        assert forall|j: int| 0 <= j < c.len() implies negates_none(first)(#[trigger] c[j])
            == negates_none(second)(c[j]) by {
            if negates_none(first)(c[j]) {
                lemma_same_negated(c[j], first, second);
            }
            if negates_none(second)(c[j]) {
                lemma_same_negated(c[j], second, first);
            }
        }
        lemma_filter_same(c, negates_none(first), negates_none(second));
    }
    assert(residual(f, first) =~= residual(f, second));
}

/// A clause that contains none of some literals contains none of others
/// that are all among them.
pub proof fn lemma_same_avoided(c: Seq<int>, ls: Seq<int>, among: Seq<int>)
    requires
        forall|l: int| among.contains(l) ==> ls.contains(l),
        avoids_all(ls)(c),
    ensures
        avoids_all(among)(c),
{
    assert forall|k: int| 0 <= k < among.len() implies !c.contains(#[trigger] among[k]) by {
        assert(among.contains(among[k]));
        let a = choose|a: int| 0 <= a < ls.len() && ls[a] == among[k];
        assert(!c.contains(ls[a]));
    }
}

/// A literal that negates none of some literals negates none of others that
/// are all among them.
pub proof fn lemma_same_negated(x: int, ls: Seq<int>, among: Seq<int>)
    requires
        forall|l: int| among.contains(l) ==> ls.contains(l),
        negates_none(ls)(x),
    ensures
        negates_none(among)(x),
{
    assert forall|k: int| 0 <= k < among.len() implies x != -(#[trigger] among[k]) by {
        assert(among.contains(among[k]));
        let a = choose|a: int| 0 <= a < ls.len() && ls[a] == among[k];
        assert(x != -ls[a]);
    }
}

} // verus!
