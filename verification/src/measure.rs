//! The measure by which the search ends: the number of variables in the
//! formula, with one step more while no unit clause waits to be propagated.

use vstd::prelude::*;
use vstd::set_lib::lemma_len_subset;
use crate::equisat::propagate_source;
use crate::formula::{
    differs_from, discard, has_unit, lemma_filter_members, occurs, propagate, strip,
    untouched_by, var_of,
};

verus! {

/// The function from a literal to its variable.
pub open spec fn variable_of() -> spec_fn(int) -> int {
    |l: int| var_of(l)
}

/// The variables of a clause.
pub open spec fn clause_variables(c: Seq<int>) -> Set<int> {
    c.map_values(variable_of()).to_set()
}

/// The variables of a formula.
pub open spec fn variables(f: Seq<Seq<int>>) -> Set<int>
    decreases f.len(),
{
    if f.len() == 0 {
        Set::empty()
    } else {
        variables(f.drop_last()).union(clause_variables(f.last()))
    }
}

/// Twice the number of variables, and one more where no clause is a unit
/// clause.
pub open spec fn search_measure(f: Seq<Seq<int>>) -> nat {
    if has_unit(f) {
        2 * variables(f).len()
    } else {
        2 * variables(f).len() + 1
    }
}

/// The variables of a formula are those of its literals, and finitely many.
pub proof fn lemma_variables(f: Seq<Seq<int>>)
    ensures
        variables(f).finite(),
        forall|v: int|
            variables(f).contains(v) <==> exists|i: int, j: int|
                0 <= i < f.len() && 0 <= j < f[i].len() && var_of(#[trigger] f[i][j]) == v,
    decreases f.len(),
{
    if f.len() > 0 {
        let r = f.drop_last();
        let c = f.last();
        let m = c.map_values(variable_of());
        lemma_variables(r);
        vstd::seq_lib::seq_to_set_is_finite(m);
        assert forall|v: int|
            variables(f).contains(v) <==> exists|i: int, j: int|
                0 <= i < f.len() && 0 <= j < f[i].len() && var_of(#[trigger] f[i][j]) == v by {
            if variables(f).contains(v) {
                if variables(r).contains(v) {
                    let (i, j) = choose|i: int, j: int|
                        0 <= i < r.len() && 0 <= j < r[i].len() && var_of(#[trigger] r[i][j])
                            == v;
                    assert(var_of(f[i][j]) == v);
                } else {
                    assert(m.contains(v));
                    let j = choose|j: int| 0 <= j < m.len() && m[j] == v;
                    assert(var_of(f[f.len() - 1][j]) == v);
                }
            }
            if exists|i: int, j: int|
                0 <= i < f.len() && 0 <= j < f[i].len() && var_of(#[trigger] f[i][j]) == v {
                let (i, j) = choose|i: int, j: int|
                    0 <= i < f.len() && 0 <= j < f[i].len() && var_of(#[trigger] f[i][j]) == v;
                if i < r.len() {
                    assert(var_of(r[i][j]) == v);
                } else {
                    assert(m[j] == v);
                    assert(m.contains(v));
                }
            }
        }
    }
}

/// A formula whose literals all have their variable in another has no more
/// variables than the other.
pub proof fn lemma_fewer_variables(g: Seq<Seq<int>>, vars: Set<int>)
    requires
        vars.finite(),
        forall|i: int, j: int|
            0 <= i < g.len() && 0 <= j < g[i].len() ==> vars.contains(var_of(#[trigger] g[i][j])),
    ensures
        variables(g).subset_of(vars),
        variables(g).len() <= vars.len(),
{
    lemma_variables(g);
    assert forall|v: int| variables(g).contains(v) implies vars.contains(v) by {
        let (i, j) = choose|i: int, j: int|
            0 <= i < g.len() && 0 <= j < g[i].len() && var_of(#[trigger] g[i][j]) == v;
    }
    lemma_len_subset(variables(g), vars);
}

/// Propagating the literal of a unit clause lowers the measure.
pub proof fn lemma_propagate_measure(f: Seq<Seq<int>>, u: int)
    requires
        exists|i: int| 0 <= i < f.len() && (#[trigger] f[i]).len() == 1 && f[i][0] == u,
    ensures
        search_measure(propagate(f, u)) < search_measure(f),
{
    let p = propagate(f, u);
    let w = choose|i: int| 0 <= i < f.len() && (#[trigger] f[i]).len() == 1 && f[i][0] == u;
    lemma_variables(f);
    assert(var_of(f[w][0]) == var_of(u));
    assert(variables(f).contains(var_of(u)));
    let vars = variables(f).remove(var_of(u));
    assert forall|i: int, j: int| 0 <= i < p.len() && 0 <= j < p[i].len() implies vars.contains(
        var_of(#[trigger] p[i][j]),
    ) by {
        let k = propagate_source(f, u, i);
        let c = f[k];
        let l = p[i][j];
        lemma_filter_members(c, differs_from(-u));
        assert(strip(c, -u).contains(l));
        assert(c.contains(l));
        let j2 = choose|j2: int| 0 <= j2 < c.len() && c[j2] == l;
        assert(var_of(f[k][j2]) == var_of(l));
        assert(l != u && l != -u);
    }
    lemma_fewer_variables(p, vars);
    assert(has_unit(f));
}

/// After the clauses that hold one of `ls` have left a formula without unit
/// clauses, adding a unit clause on the variable of a literal that is still
/// there lowers the measure.
pub proof fn lemma_branch_measure(f: Seq<Seq<int>>, ls: Seq<int>, lit: int, unit: int)
    requires
        !has_unit(f),
        occurs(discard(f, ls), lit),
        var_of(unit) == var_of(lit),
    ensures
        search_measure(discard(f, ls).push(seq![unit])) < search_measure(f),
{
    let d = discard(f, ls);
    let g = d.push(seq![unit]);
    lemma_variables(f);
    lemma_filter_members(f, untouched_by(ls));
    assert forall|i: int, j: int| 0 <= i < d.len() && 0 <= j < d[i].len() implies variables(
        f,
    ).contains(var_of(#[trigger] d[i][j])) by {
        assert(f.contains(d[i]));
        let k = choose|k: int| 0 <= k < f.len() && f[k] == d[i];
        assert(var_of(f[k][j]) == var_of(d[i][j]));
    }
    let a = choose|a: int| 0 <= a < d.len() && (#[trigger] d[a]).contains(lit);
    let b = choose|b: int| 0 <= b < d[a].len() && d[a][b] == lit;
    assert(variables(f).contains(var_of(d[a][b])));
    assert forall|i: int, j: int| 0 <= i < g.len() && 0 <= j < g[i].len() implies variables(
        f,
    ).contains(var_of(#[trigger] g[i][j])) by {
        if i < d.len() {
            assert(g[i][j] == d[i][j]);
        }
    }
    lemma_fewer_variables(g, variables(f));
    assert(g[d.len() as int].len() == 1);
    assert(has_unit(g));
}

} // verus!
