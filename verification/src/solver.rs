//! The decision procedure: simplify, then split on a literal.

use vstd::prelude::*;
use crate::equisat::{
    lemma_case_split, lemma_discard_all_pure, lemma_discard_pure, lemma_empty_clause,
    lemma_empty_formula, lemma_opposed_literal, lemma_unit_propagation,
};
use crate::formula::{
    clause_view, first_unit, formula_view, has_unit, lemma_filter_members, lemma_first_unit,
    lemma_view_push, occurs, propagate_units, satisfiable, simplified, untouched_by,
};
use crate::measure::{lemma_branch_measure, lemma_propagate_measure, search_measure};
use crate::simplify::{
    assign_pure_literals, choose_literal, copy_formula, get_pure_literals, get_unit_clause,
    unit_propogate,
};

verus! {

/// Whether some clause has no literal.
pub fn has_empty_clause(clauses: &Vec<Vec<i64>>) -> (found: bool)
    ensures
        found == exists|k: int| 0 <= k < clauses@.len() && (#[trigger] clauses@[k])@.len() == 0,
{
    let mut i: usize = 0;
    while i < clauses.len()
        invariant
            i <= clauses.len(),
            forall|k: int| 0 <= k < i ==> (#[trigger] clauses@[k])@.len() != 0,
        decreases clauses.len() - i,
    {
        if clauses[i].len() == 0 {
            return true;
        }
        i += 1;
    }
    false
}

/// The clause of the one literal.
pub fn unit_clause(lit: i64) -> (c: Vec<i64>)
    ensures
        clause_view(c@) == seq![lit as int],
{
    let mut c: Vec<i64> = Vec::new();
    c.push(lit);
    proof {
        assert(clause_view(c@) =~= seq![lit as int]);
    }
    c
}

/// Decides whether the formula is satisfiable, and leaves the vector as it
/// was: the search works on a copy.
pub fn dpll(clauses: &mut Vec<Vec<i64>>) -> (sat: bool)
    ensures
        sat == satisfiable(formula_view(old(clauses)@)),
        *final(clauses) == *old(clauses),
        final(clauses)@.len() == old(clauses)@.len(),
        forall|i: int|
            0 <= i < old(clauses)@.len() ==> (#[trigger] final(clauses)@[i])@ == old(clauses)@[i]@,
{
    let mut work = copy_formula(clauses);
    search(&mut work)
}

/// The search itself, on a vector of its own: simplifies it, unit clauses
/// propagated to the fixed point and then the clauses with a pure literal
/// dropped, and splits on a literal where that decides nothing.
fn search(clauses: &mut Vec<Vec<i64>>) -> (sat: bool)
    ensures
        sat == satisfiable(formula_view(old(clauses)@)),
        formula_view(final(clauses)@) == simplified(formula_view(old(clauses)@)),
    decreases search_measure(formula_view(old(clauses)@)),
{
    let ghost start = formula_view(clauses@);
    let mut unit = get_unit_clause(clauses);
    while unit.is_some()
        invariant
            match unit {
                Some(l) => first_unit(formula_view(clauses@)) == Some(l as int),
                None => first_unit(formula_view(clauses@)) is None,
            },
            propagate_units(formula_view(clauses@)) == propagate_units(start),
            satisfiable(formula_view(clauses@)) == satisfiable(start),
            search_measure(formula_view(clauses@)) <= search_measure(start),
        decreases search_measure(formula_view(clauses@)),
    {
        let lit = unit.unwrap();
        proof {
            let cur = formula_view(clauses@);
            lemma_first_unit(cur);
            lemma_unit_propagation(cur, lit as int);
            lemma_propagate_measure(cur, lit as int);
        }
        unit_propogate(clauses, lit);
        unit = get_unit_clause(clauses);
    }
    let ghost before = clauses@;
    let ghost fixed = formula_view(clauses@);
    let pure_literals = get_pure_literals(clauses);
    let ghost ls = clause_view(pure_literals@);
    assign_pure_literals(clauses, pure_literals);
    let ghost rest = formula_view(clauses@);
    proof {
        lemma_discard_pure(fixed, ls);
        lemma_discard_all_pure(fixed, ls);
        assert(rest == simplified(start));
    }
    if clauses.len() == 0 {
        proof {
            lemma_empty_formula(rest);
        }
        return true;
    }
    if has_empty_clause(clauses) {
        proof {
            let k = choose|k: int| 0 <= k < clauses@.len() && (#[trigger] clauses@[k])@.len() == 0;
            assert(rest[k].len() == 0);
            lemma_empty_clause(rest, k);
        }
        return false;
    }
    proof {
        assert(clauses@[0]@.len() != 0);
    }
    let lit = choose_literal(clauses);
    proof {
        lemma_filter_members(fixed, untouched_by(ls));
        assert(rest[0][0] == lit as int);
        assert(rest[0].contains(lit as int));
        assert(occurs(rest, lit as int));
        assert(fixed.contains(rest[0]));
        let k = choose|k: int| 0 <= k < fixed.len() && fixed[k] == rest[0];
        assert(fixed[k].contains(lit as int));
        assert(occurs(fixed, lit as int));
        assert(!ls.contains(rest[0][0]));
        lemma_opposed_literal(before, lit);
        lemma_case_split(rest, lit as int);
        lemma_first_unit(fixed);
        assert(!has_unit(fixed));
        lemma_branch_measure(fixed, ls, lit as int, lit as int);
        lemma_branch_measure(fixed, ls, lit as int, -(lit as int));
    }
    let mut add_positive = copy_formula(clauses);
    let positive = unit_clause(lit);
    proof {
        lemma_view_push(add_positive@, positive);
    }
    add_positive.push(positive);
    let mut add_negative = copy_formula(clauses);
    let negative = unit_clause(-lit);
    proof {
        lemma_view_push(add_negative@, negative);
    }
    add_negative.push(negative);
    if search(&mut add_positive) {
        true
    } else {
        search(&mut add_negative)
    }
}

} // verus!
