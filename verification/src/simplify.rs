//! The simplification steps of the solver on vectors of machine literals.

use vstd::prelude::*;
use crate::formula::{
    clause_unopposed, clause_view, differs_from, discard, first_unit, formula_view, is_pure,
    lemma_filter_push, lemma_first_unit, lemma_propagate_push, lemma_strip_absent,
    lemma_view_contains, lemma_view_push, lemma_view_take, occurs, propagate, strip, touches,
    unit_at, unopposed, untouched_by, var_of,
};

verus! {

/// Whether the clause holds the literal.
pub fn contains_literal(c: &Vec<i64>, l: i64) -> (found: bool)
    ensures
        found == c@.contains(l),
        found == clause_view(c@).contains(l as int),
{
    let mut j: usize = 0;
    while j < c.len()
        invariant
            j <= c.len(),
            forall|k: int| 0 <= k < j ==> c@[k] != l,
        decreases c.len() - j,
    {
        if c[j] == l {
            proof {
                lemma_view_contains(c@, l);
            }
            return true;
        }
        j += 1;
    }
    proof {
        lemma_view_contains(c@, l);
    }
    false
}

/// A copy of the clause without every occurrence of the literal.
pub fn without_literal(c: &Vec<i64>, l: i64) -> (rest: Vec<i64>)
    ensures
        clause_view(rest@) == strip(clause_view(c@), l as int),
{
    let mut rest: Vec<i64> = Vec::new();
    let mut j: usize = 0;
    proof {
        reveal(Seq::filter);
        assert(clause_view(c@.take(0)) =~= Seq::<int>::empty());
        assert(clause_view(rest@) =~= Seq::<int>::empty());
    }
    while j < c.len()
        invariant
            j <= c.len(),
            clause_view(rest@) == strip(clause_view(c@.take(j as int)), l as int),
        decreases c.len() - j,
    {
        let x: i64 = c[j];
        proof {
            assert(c@.take(j + 1) =~= c@.take(j as int).push(x));
            assert(clause_view(c@.take(j as int).push(x)) =~= clause_view(c@.take(j as int)).push(
                x as int,
            ));
            lemma_filter_push(clause_view(c@.take(j as int)), x as int, differs_from(l as int));
        }
        if x != l {
            proof {
                assert(clause_view(rest@.push(x)) =~= clause_view(rest@).push(x as int));
            }
            rest.push(x);
        }
        j += 1;
    }
    proof {
        assert(c@.take(c.len() as int) =~= c@);
    }
    rest
}

/// The literal of the first clause that has exactly one literal.
pub fn get_unit_clause(clauses: &Vec<Vec<i64>>) -> (unit: Option<i64>)
    ensures
        match unit {
            Some(l) => first_unit(formula_view(clauses@)) == Some(l as int),
            None => first_unit(formula_view(clauses@)) is None,
        },
{
    let ghost f = formula_view(clauses@);
    let mut i: usize = 0;
    while i < clauses.len()
        invariant
            i <= clauses.len(),
            f == formula_view(clauses@),
            forall|k: int| 0 <= k < i ==> (#[trigger] f[k]).len() != 1,
        decreases clauses.len() - i,
    {
        if clauses[i].len() == 1 {
            proof {
                assert(f[i as int].len() == 1);
                assert(unit_at(f, i as int));
                lemma_first_unit(f);
            }
            return Some(clauses[i][0]);
        }
        proof {
            assert(f[i as int].len() != 1);
        }
        i += 1;
    }
    None
}

/// Unit propagation of `lit`: drops the clauses that hold `lit` and takes the
/// opposite literal out of the others.
pub fn unit_propogate(clauses: &mut Vec<Vec<i64>>, lit: i64)
    ensures
        formula_view(final(clauses)@) == propagate(formula_view(old(clauses)@), lit as int),
{
    let mut kept: Vec<Vec<i64>> = Vec::new();
    let mut i: usize = 0;
    proof {
        reveal(Seq::filter);
        assert(formula_view(clauses@.take(0)) =~= Seq::<Seq<int>>::empty());
        assert(formula_view(kept@) =~= propagate(Seq::<Seq<int>>::empty(), lit as int));
    }
    while i < clauses.len()
        invariant
            i <= clauses.len(),
            *clauses == *old(clauses),
            formula_view(kept@) == propagate(formula_view(clauses@.take(i as int)), lit as int),
        decreases clauses.len() - i,
    {
        proof {
            lemma_view_take(clauses@, i as int);
            lemma_propagate_push(
                formula_view(clauses@.take(i as int)),
                clause_view(clauses@[i as int]@),
                lit as int,
            );
        }
        if !contains_literal(&clauses[i], lit) {
            let rest = if lit > i64::MIN {
                without_literal(&clauses[i], -lit)
            } else {
                // The opposite of the least literal is outside `i64`: no clause holds it.
                proof {
                    let c = clause_view(clauses@[i as int]@);
                    assert forall|j: int| 0 <= j < c.len() implies c[j] != -(lit as int) by {
                        assert(c[j] == clauses@[i as int]@[j] as int);
                    }
                    lemma_strip_absent(c, -(lit as int));
                }
                copy_clause(&clauses[i])
            };
            proof {
                lemma_view_push(kept@, rest);
            }
            kept.push(rest);
        }
        i += 1;
    }
    proof {
        assert(clauses@.take(clauses.len() as int) =~= clauses@);
    }
    *clauses = kept;
}

/// Whether the variable of `l` is in the clause in no form but `l`.
fn unopposed_in_clause(c: &Vec<i64>, l: i64) -> (b: bool)
    ensures
        b == clause_unopposed(clause_view(c@), l as int),
{
    let mut j: usize = 0;
    while j < c.len()
        invariant
            j <= c.len(),
            forall|k: int|
                0 <= k < j && var_of(#[trigger] clause_view(c@)[k]) == var_of(l as int)
                    ==> clause_view(c@)[k] == l as int,
        decreases c.len() - j,
    {
        let m: i64 = c[j];
        if m != l && l > i64::MIN && m == -l {
            proof {
                assert(clause_view(c@)[j as int] == m as int);
            }
            return false;
        }
        proof {
            assert(clause_view(c@)[j as int] == m as int);
        }
        j += 1;
    }
    true
}

/// Whether the variable of `l` is in the formula in no form but `l`.
fn unopposed_literal(clauses: &Vec<Vec<i64>>, l: i64) -> (b: bool)
    ensures
        b == unopposed(formula_view(clauses@), l as int),
{
    let ghost f = formula_view(clauses@);
    let mut i: usize = 0;
    while i < clauses.len()
        invariant
            i <= clauses.len(),
            f == formula_view(clauses@),
            forall|k: int| 0 <= k < i ==> clause_unopposed(#[trigger] f[k], l as int),
        decreases clauses.len() - i,
    {
        if !unopposed_in_clause(&clauses[i], l) {
            proof {
                assert(!clause_unopposed(f[i as int], l as int));
            }
            return false;
        }
        proof {
            assert(clause_unopposed(f[i as int], l as int));
        }
        i += 1;
    }
    true
}

/// The pure literals of the formula, each once.
pub fn get_pure_literals(clauses: &Vec<Vec<i64>>) -> (pure: Vec<i64>)
    ensures
        forall|l: int|
            clause_view(pure@).contains(l) <==> is_pure(formula_view(clauses@), l),
        pure@.no_duplicates(),
{
    let ghost f = formula_view(clauses@);
    let mut pure: Vec<i64> = Vec::new();
    let mut i: usize = 0;
    while i < clauses.len()
        invariant
            i <= clauses.len(),
            f == formula_view(clauses@),
            pure@.no_duplicates(),
            forall|k: int| 0 <= k < pure@.len() ==> is_pure(f, #[trigger] pure@[k] as int),
            forall|a: int, b: int|
                0 <= a < i && 0 <= b < clauses@[a]@.len() && is_pure(
                    f,
                    #[trigger] clauses@[a]@[b] as int,
                ) ==> pure@.contains(clauses@[a]@[b]),
        decreases clauses.len() - i,
    {
        let mut j: usize = 0;
        while j < clauses[i].len()
            invariant
                i < clauses.len(),
                j <= clauses@[i as int]@.len(),
                f == formula_view(clauses@),
                pure@.no_duplicates(),
                forall|k: int| 0 <= k < pure@.len() ==> is_pure(f, #[trigger] pure@[k] as int),
                forall|a: int, b: int|
                    0 <= a < i && 0 <= b < clauses@[a]@.len() && is_pure(
                        f,
                        #[trigger] clauses@[a]@[b] as int,
                    ) ==> pure@.contains(clauses@[a]@[b]),
                forall|b: int|
                    0 <= b < j && is_pure(f, #[trigger] clauses@[i as int]@[b] as int)
                        ==> pure@.contains(clauses@[i as int]@[b]),
            decreases clauses@[i as int]@.len() - j,
        {
            let l: i64 = clauses[i][j];
            let known = contains_literal(&pure, l);
            if !known && unopposed_literal(clauses, l) {
                let ghost before = pure@;
                pure.push(l);
                proof {
                    assert(f[i as int][j as int] == l as int);
                    assert(f[i as int].contains(l as int));
                    assert(occurs(f, l as int));
                    assert forall|x: i64| before.contains(x) implies pure@.contains(x) by {
                        let k = choose|k: int| 0 <= k < before.len() && before[k] == x;
                        assert(pure@[k] == x);
                    }
                    assert(pure@[before.len() as int] == l);
                }
            }
            j += 1;
        }
        i += 1;
    }
    proof {
        let v = clause_view(pure@);
        assert forall|l: int| v.contains(l) <==> is_pure(f, l) by {
            if v.contains(l) {
                let k = choose|k: int| 0 <= k < v.len() && v[k] == l;
                assert(is_pure(f, pure@[k] as int));
            }
            if is_pure(f, l) {
                let a = choose|a: int| 0 <= a < f.len() && (#[trigger] f[a]).contains(l);
                let b = choose|b: int| 0 <= b < f[a].len() && f[a][b] == l;
                assert(clauses@[a]@[b] as int == l);
                assert(pure@.contains(clauses@[a]@[b]));
                lemma_view_contains(pure@, clauses@[a]@[b]);
            }
        }
    }
    pure
}

/// Whether the clause holds one of the literals.
fn holds_any(c: &Vec<i64>, literals: &Vec<i64>) -> (b: bool)
    ensures
        b == touches(clause_view(c@), clause_view(literals@)),
{
    let mut j: usize = 0;
    while j < c.len()
        invariant
            j <= c.len(),
            forall|k: int|
                0 <= k < j ==> !clause_view(literals@).contains(#[trigger] clause_view(c@)[k]),
        decreases c.len() - j,
    {
        if contains_literal(literals, c[j]) {
            proof {
                assert(clause_view(c@)[j as int] == c@[j as int] as int);
            }
            return true;
        }
        proof {
            assert(clause_view(c@)[j as int] == c@[j as int] as int);
        }
        j += 1;
    }
    false
}

/// A copy of the clause.
fn copy_clause(c: &Vec<i64>) -> (copy: Vec<i64>)
    ensures
        copy@ == c@,
{
    let mut copy: Vec<i64> = Vec::new();
    let mut j: usize = 0;
    while j < c.len()
        invariant
            j <= c.len(),
            copy@ == c@.take(j as int),
        decreases c.len() - j,
    {
        copy.push(c[j]);
        proof {
            assert(c@.take(j + 1) =~= c@.take(j as int).push(c@[j as int]));
        }
        j += 1;
    }
    proof {
        assert(c@.take(c.len() as int) =~= c@);
    }
    copy
}

/// A copy of the formula, independent of the one it was made from.
pub fn copy_formula(clauses: &Vec<Vec<i64>>) -> (copy: Vec<Vec<i64>>)
    ensures
        formula_view(copy@) == formula_view(clauses@),
{
    let mut copy: Vec<Vec<i64>> = Vec::new();
    let mut i: usize = 0;
    proof {
        assert(formula_view(copy@) =~= formula_view(clauses@.take(0)));
    }
    while i < clauses.len()
        invariant
            i <= clauses.len(),
            formula_view(copy@) == formula_view(clauses@.take(i as int)),
        decreases clauses.len() - i,
    {
        let c = copy_clause(&clauses[i]);
        proof {
            lemma_view_take(clauses@, i as int);
            lemma_view_push(copy@, c);
        }
        copy.push(c);
        i += 1;
    }
    proof {
        assert(clauses@.take(clauses.len() as int) =~= clauses@);
    }
    copy
}

/// Drops every clause that holds one of the given literals.
pub fn assign_pure_literals(clauses: &mut Vec<Vec<i64>>, pure_literals: Vec<i64>)
    ensures
        formula_view(final(clauses)@) == discard(
            formula_view(old(clauses)@),
            clause_view(pure_literals@),
        ),
{
    let ghost ls = clause_view(pure_literals@);
    let mut kept: Vec<Vec<i64>> = Vec::new();
    let mut i: usize = 0;
    proof {
        reveal(Seq::filter);
        assert(formula_view(clauses@.take(0)) =~= Seq::<Seq<int>>::empty());
        assert(formula_view(kept@) =~= discard(Seq::<Seq<int>>::empty(), ls));
    }
    while i < clauses.len()
        invariant
            i <= clauses.len(),
            *clauses == *old(clauses),
            ls == clause_view(pure_literals@),
            formula_view(kept@) == discard(formula_view(clauses@.take(i as int)), ls),
        decreases clauses.len() - i,
    {
        proof {
            lemma_view_take(clauses@, i as int);
            lemma_filter_push(
                formula_view(clauses@.take(i as int)),
                clause_view(clauses@[i as int]@),
                untouched_by(ls),
            );
        }
        if !holds_any(&clauses[i], &pure_literals) {
            let c = copy_clause(&clauses[i]);
            proof {
                lemma_view_push(kept@, c);
            }
            kept.push(c);
        }
        i += 1;
    }
    proof {
        assert(clauses@.take(clauses.len() as int) =~= clauses@);
    }
    *clauses = kept;
}

/// The literal to split on: the first literal of the first clause.
pub fn choose_literal(clauses: &Vec<Vec<i64>>) -> (lit: i64)
    requires
        clauses@.len() > 0,
        clauses@[0]@.len() > 0,
    ensures
        lit == clauses@[0]@[0],
{
    clauses[0][0]
}

} // verus!
