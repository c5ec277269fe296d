use dpll_solver::simplify::{
    assign_pure_literals, choose_literal, contains_literal, copy_formula, get_pure_literals,
    get_unit_clause, unit_propogate, without_literal,
};
use dpll_solver::solver::{dpll, has_empty_clause, unit_clause};

fn holds(assignment: u32, lit: i64) -> bool {
    let bit = (assignment >> lit.unsigned_abs()) & 1 == 1;
    if lit >= 0 {
        bit
    } else {
        !bit
    }
}

/// Tries every assignment of the variables 0 to 4.
fn brute_force(clauses: &Vec<Vec<i64>>) -> bool {
    (0u32..32).any(|a| clauses.iter().all(|c| c.iter().any(|&l| holds(a, l))))
}

fn solve(clauses: &Vec<Vec<i64>>) -> bool {
    let mut copy = clauses.clone();
    dpll(&mut copy)
}

fn samples() -> Vec<Vec<Vec<i64>>> {
    vec![
        vec![],
        vec![vec![]],
        vec![vec![1]],
        vec![vec![1], vec![-1]],
        vec![vec![1, 2], vec![-1, 2], vec![1, -2], vec![-1, -2]],
        vec![vec![1, 2], vec![-1, 2], vec![1, -2]],
        vec![vec![1, 2, 3], vec![-1, -2], vec![-2, -3], vec![-1, -3], vec![2, 3]],
        vec![vec![1, 2], vec![-1, 3], vec![-2, -3], vec![-1, -2], vec![1, -3], vec![2, 3]],
        vec![vec![1, -1], vec![2], vec![-2, 3], vec![-3, 4], vec![-4]],
        vec![vec![1, 1, 2], vec![-1, -1], vec![-2, -2, 1]],
        vec![vec![1, 2], vec![1, -2], vec![-1, 3], vec![-1, -3, 4], vec![-4, -1]],
        vec![vec![0, 1], vec![-1]],
        vec![vec![0], vec![1, 2], vec![-1, -2]],
    ]
}

#[test]
fn no_clauses_is_satisfiable() {
    let mut clauses: Vec<Vec<i64>> = vec![];
    assert!(dpll(&mut clauses));
    assert!(clauses.is_empty());
}

#[test]
fn one_empty_clause_is_unsatisfiable() {
    let mut clauses: Vec<Vec<i64>> = vec![vec![]];
    assert!(!dpll(&mut clauses));
}

#[test]
fn any_empty_clause_is_unsatisfiable() {
    assert!(!solve(&vec![vec![1, 2], vec![], vec![3]]));
    assert!(!solve(&vec![vec![], vec![1]]));
    assert!(!solve(&vec![vec![4, 5], vec![-4, 6], vec![]]));
}

#[test]
fn unit_then_satisfiable() {
    let mut clauses: Vec<Vec<i64>> = vec![vec![1, 2], vec![1], vec![2, 3]];
    let mut step = clauses.clone();
    unit_propogate(&mut step, 1);
    assert_eq!(step, vec![vec![2, 3]]);
    assert!(dpll(&mut clauses));
    assert_eq!(clauses, vec![vec![1, 2], vec![1], vec![2, 3]]);
}

#[test]
fn two_rounds_of_propagation() {
    let mut clauses: Vec<Vec<i64>> = vec![vec![1, 2], vec![1], vec![2, 3], vec![2, -1]];
    let mut step = clauses.clone();
    unit_propogate(&mut step, 1);
    assert_eq!(step, vec![vec![2, 3], vec![2]]);
    assert_eq!(get_unit_clause(&step), Some(2));
    unit_propogate(&mut step, 2);
    assert_eq!(step, Vec::<Vec<i64>>::new());
    assert!(dpll(&mut clauses));
    assert_eq!(clauses, vec![vec![1, 2], vec![1], vec![2, 3], vec![2, -1]]);
}

#[test]
fn opposite_units_are_unsatisfiable() {
    let mut clauses: Vec<Vec<i64>> = vec![vec![1], vec![-1]];
    let mut step = clauses.clone();
    unit_propogate(&mut step, 1);
    assert_eq!(step, vec![Vec::<i64>::new()]);
    assert!(!dpll(&mut clauses));
    assert_eq!(clauses, vec![vec![1], vec![-1]]);
}

#[test]
fn all_four_clauses_over_two_variables() {
    let mut clauses: Vec<Vec<i64>> = vec![vec![1, 2], vec![-1, 2], vec![1, -2], vec![-1, -2]];
    assert_eq!(get_unit_clause(&clauses), None);
    assert_eq!(get_pure_literals(&clauses), Vec::<i64>::new());
    assert!(!dpll(&mut clauses));
    assert_eq!(clauses, vec![vec![1, 2], vec![-1, 2], vec![1, -2], vec![-1, -2]]);
}

#[test]
fn verdict_is_repeatable() {
    for clauses in samples() {
        let first = solve(&clauses);
        let second = solve(&clauses);
        assert_eq!(first, second);
    }
}

#[test]
fn verdict_agrees_with_exhaustive_search() {
    for clauses in samples() {
        assert_eq!(solve(&clauses), brute_force(&clauses), "{:?}", clauses);
    }
}

#[test]
fn propagation_order_does_not_matter() {
    let start: Vec<Vec<i64>> =
        vec![vec![1, 2, 3], vec![-1, 4], vec![-2, 5], vec![-1, -2, 6], vec![2, 7], vec![1]];
    let mut one_two = start.clone();
    unit_propogate(&mut one_two, 1);
    unit_propogate(&mut one_two, 2);
    let mut two_one = start.clone();
    unit_propogate(&mut two_one, 2);
    unit_propogate(&mut two_one, 1);
    assert_eq!(one_two, two_one);
    assert_eq!(one_two, vec![vec![4], vec![5], vec![6]]);
}

#[test]
fn dropping_a_pure_literal_keeps_the_verdict() {
    let sat: Vec<Vec<i64>> = vec![vec![1, 2], vec![-2, 3], vec![-3, -2], vec![1, -3]];
    let mut dropped = sat.clone();
    assign_pure_literals(&mut dropped, vec![1]);
    assert_eq!(dropped, vec![vec![-2, 3], vec![-3, -2]]);
    assert_eq!(solve(&sat), solve(&dropped));
    assert!(solve(&sat));

    let unsat: Vec<Vec<i64>> = vec![vec![1, 2], vec![2], vec![-2, 3], vec![-3], vec![1, -3]];
    let mut dropped = unsat.clone();
    assign_pure_literals(&mut dropped, vec![1]);
    assert_eq!(dropped, vec![vec![2], vec![-2, 3], vec![-3]]);
    assert_eq!(solve(&unsat), solve(&dropped));
    assert!(!solve(&unsat));
}

#[test]
fn case_split_keeps_the_verdict() {
    for clauses in samples() {
        for lit in [1i64, -1, 2, -3, 4] {
            let mut positive = clauses.clone();
            positive.push(vec![lit]);
            let mut negative = clauses.clone();
            negative.push(vec![-lit]);
            assert_eq!(solve(&clauses), solve(&positive) || solve(&negative));
        }
    }
}

#[test]
fn solver_leaves_the_formula_as_it_was() {
    let mut clauses: Vec<Vec<i64>> =
        vec![vec![1], vec![-1, 2, 3], vec![-2, -3], vec![2, -3], vec![5, 2], vec![-2, 3]];
    assert!(!dpll(&mut clauses));
    assert_eq!(
        clauses,
        vec![vec![1], vec![-1, 2, 3], vec![-2, -3], vec![2, -3], vec![5, 2], vec![-2, 3]]
    );
    for start in samples() {
        let mut clauses = start.clone();
        dpll(&mut clauses);
        assert_eq!(clauses, start);
    }
}

#[test]
fn first_unit_clause_is_reported() {
    let clauses: Vec<Vec<i64>> = vec![vec![1, 2], vec![-7], vec![3], vec![]];
    assert_eq!(get_unit_clause(&clauses), Some(-7));
    assert_eq!(get_unit_clause(&vec![]), None);
    assert_eq!(get_unit_clause(&vec![vec![], vec![1, 1]]), None);
}

#[test]
fn propagation_keeps_emptied_clauses() {
    let mut clauses: Vec<Vec<i64>> = vec![vec![-1], vec![-1, -1], vec![1, 2], vec![3, -1, 4]];
    unit_propogate(&mut clauses, 1);
    assert_eq!(clauses, vec![vec![], vec![], vec![3, 4]]);
}

#[test]
fn propagation_of_extreme_literals() {
    let mut clauses: Vec<Vec<i64>> = vec![vec![i64::MIN, 1], vec![2, i64::MAX], vec![0, 3]];
    unit_propogate(&mut clauses, i64::MIN);
    assert_eq!(clauses, vec![vec![2, i64::MAX], vec![0, 3]]);
    unit_propogate(&mut clauses, -i64::MAX);
    assert_eq!(clauses, vec![vec![2], vec![0, 3]]);
    unit_propogate(&mut clauses, 0);
    assert_eq!(clauses, vec![vec![2]]);
}

#[test]
fn extreme_literals_are_decided() {
    assert!(solve(&vec![vec![i64::MIN], vec![i64::MAX, 1], vec![-1]]));
    assert!(!solve(&vec![vec![i64::MAX], vec![-i64::MAX]]));
    assert!(solve(&vec![vec![0], vec![0, 1], vec![-1]]));
}

#[test]
fn pure_literals_each_once() {
    let clauses: Vec<Vec<i64>> = vec![vec![3, -1, 3], vec![1, -2], vec![-2, 4, 0]];
    let mut pure = get_pure_literals(&clauses);
    pure.sort();
    assert_eq!(pure, vec![-2, 0, 3, 4]);
    assert_eq!(get_pure_literals(&vec![]), Vec::<i64>::new());
    assert_eq!(get_pure_literals(&vec![vec![i64::MIN, 5], vec![-5]]), vec![i64::MIN]);
}

#[test]
fn assigning_no_literal_keeps_every_clause() {
    let mut clauses: Vec<Vec<i64>> = vec![vec![1, 2], vec![], vec![-1]];
    assign_pure_literals(&mut clauses, vec![]);
    assert_eq!(clauses, vec![vec![1, 2], vec![], vec![-1]]);
    assign_pure_literals(&mut clauses, vec![-1, 2]);
    assert_eq!(clauses, vec![Vec::<i64>::new()]);
}

#[test]
fn first_literal_is_chosen() {
    assert_eq!(choose_literal(&vec![vec![-4, 2], vec![1]]), -4);
}

#[test]
fn clause_helpers() {
    assert!(contains_literal(&vec![1, -2, 3], -2));
    assert!(!contains_literal(&vec![1, -2, 3], 2));
    assert_eq!(without_literal(&vec![1, -2, 1, 3], 1), vec![-2, 3]);
    assert_eq!(unit_clause(-9), vec![-9]);
    assert!(has_empty_clause(&vec![vec![1], vec![]]));
    assert!(!has_empty_clause(&vec![vec![1], vec![2, 3]]));
    let source: Vec<Vec<i64>> = vec![vec![1, 2], vec![], vec![-3]];
    let mut copy = copy_formula(&source);
    copy[0].push(7);
    assert_eq!(source, vec![vec![1, 2], vec![], vec![-3]]);
    assert_eq!(copy, vec![vec![1, 2, 7], vec![], vec![-3]]);
}

#[test]
fn branches_do_not_share_clauses() {
    let mut clauses: Vec<Vec<i64>> = vec![vec![1, 2], vec![-1, 2], vec![1, -2], vec![-1, -2, 3], vec![-3, 1], vec![-3, -1]];
    assert!(!dpll(&mut clauses));
    assert_eq!(
        clauses,
        vec![vec![1, 2], vec![-1, 2], vec![1, -2], vec![-1, -2, 3], vec![-3, 1], vec![-3, -1]]
    );
}
