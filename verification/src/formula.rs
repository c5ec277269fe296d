//! The mathematical model: literals, clauses, formulas, truth under an
//! assignment, and the two simplification rules as functions on sequences.

use vstd::prelude::*;

verus! {

/// The variable that a literal speaks of: its magnitude.
pub open spec fn var_of(l: int) -> int {
    if l >= 0 {
        l
    } else {
        -l
    }
}

/// Truth of a literal under a total assignment of the variables. A literal
/// that is not negative asserts its variable, a negative one denies it.
pub open spec fn lit_holds(a: spec_fn(int) -> bool, l: int) -> bool {
    if l >= 0 {
        a(l)
    } else {
        !a(-l)
    }
}

/// A clause is the disjunction of its literals; the empty clause is false.
pub open spec fn clause_holds(a: spec_fn(int) -> bool, c: Seq<int>) -> bool {
    exists|j: int| 0 <= j < c.len() && lit_holds(a, #[trigger] c[j])
}

/// A formula is the conjunction of its clauses; the empty formula is true.
pub open spec fn formula_holds(a: spec_fn(int) -> bool, f: Seq<Seq<int>>) -> bool {
    forall|i: int| 0 <= i < f.len() ==> clause_holds(a, #[trigger] f[i])
}

/// Some total assignment makes every clause true.
pub open spec fn satisfiable(f: Seq<Seq<int>>) -> bool {
    exists|a: spec_fn(int) -> bool| formula_holds(a, f)
}

/// The clause that a vector of machine literals stands for.
pub open spec fn clause_view(c: Seq<i64>) -> Seq<int> {
    c.map_values(|l: i64| l as int)
}

/// The formula that a vector of clauses stands for.
pub open spec fn formula_view(f: Seq<Vec<i64>>) -> Seq<Seq<int>> {
    f.map_values(|c: Vec<i64>| clause_view(c@))
}

/// The literal occurs in some clause.
pub open spec fn occurs(f: Seq<Seq<int>>, l: int) -> bool {
    exists|i: int| 0 <= i < f.len() && (#[trigger] f[i]).contains(l)
}

/// Some clause has exactly one literal.
pub open spec fn has_unit(f: Seq<Seq<int>>) -> bool {
    exists|i: int| 0 <= i < f.len() && (#[trigger] f[i]).len() == 1
}

/// Clause `i` is the first unit clause.
pub open spec fn unit_at(f: Seq<Seq<int>>, i: int) -> bool {
    &&& 0 <= i < f.len()
    &&& f[i].len() == 1
    &&& forall|k: int| 0 <= k < i ==> (#[trigger] f[k]).len() != 1
}

/// The literal of the first unit clause, if there is a unit clause.
pub open spec fn first_unit(f: Seq<Seq<int>>) -> Option<int> {
    if has_unit(f) {
        Some(f[choose|i: int| unit_at(f, i)][0])
    } else {
        None
    }
}

/// The predicate "is not the literal `l`".
pub open spec fn differs_from(l: int) -> spec_fn(int) -> bool {
    |x: int| x != l
}

/// The predicate "does not contain the literal `l`".
pub open spec fn avoids(l: int) -> spec_fn(Seq<int>) -> bool {
    |c: Seq<int>| !c.contains(l)
}

/// The clause without every occurrence of `l`.
pub open spec fn strip(c: Seq<int>, l: int) -> Seq<int> {
    c.filter(differs_from(l))
}

/// The function that strips `l` from a clause.
pub open spec fn stripping(l: int) -> spec_fn(Seq<int>) -> Seq<int> {
    |c: Seq<int>| strip(c, l)
}

/// Unit propagation of `lit`: the clauses that contain `lit` leave, and the
/// others lose the opposite literal. Order is kept.
pub open spec fn propagate(f: Seq<Seq<int>>, lit: int) -> Seq<Seq<int>> {
    f.filter(avoids(lit)).map_values(stripping(-lit))
}

/// The variable of `l` is in the clause in no form but `l`.
pub open spec fn clause_unopposed(c: Seq<int>, l: int) -> bool {
    forall|j: int| 0 <= j < c.len() && var_of(#[trigger] c[j]) == var_of(l) ==> c[j] == l
}

/// The variable of `l` is in the formula in no form but `l`.
pub open spec fn unopposed(f: Seq<Seq<int>>, l: int) -> bool {
    forall|i: int| 0 <= i < f.len() ==> clause_unopposed(#[trigger] f[i], l)
}

/// The literal occurs, and its variable occurs in no other form.
pub open spec fn is_pure(f: Seq<Seq<int>>, l: int) -> bool {
    occurs(f, l) && unopposed(f, l)
}

/// The clause holds one of the literals `ls`.
pub open spec fn touches(c: Seq<int>, ls: Seq<int>) -> bool {
    exists|j: int| 0 <= j < c.len() && ls.contains(#[trigger] c[j])
}

/// The predicate "holds none of the literals `ls`".
pub open spec fn untouched_by(ls: Seq<int>) -> spec_fn(Seq<int>) -> bool {
    |c: Seq<int>| !touches(c, ls)
}

/// The formula without the clauses that hold one of the literals `ls`.
pub open spec fn discard(f: Seq<Seq<int>>, ls: Seq<int>) -> Seq<Seq<int>> {
    f.filter(untouched_by(ls))
}

/// The clause holds a literal that is pure in `f`.
pub open spec fn touches_pure(f: Seq<Seq<int>>, c: Seq<int>) -> bool {
    exists|j: int| 0 <= j < c.len() && is_pure(f, #[trigger] c[j])
}

/// The predicate "holds no literal that is pure in `f`".
pub open spec fn without_pure(f: Seq<Seq<int>>) -> spec_fn(Seq<int>) -> bool {
    |c: Seq<int>| !touches_pure(f, c)
}

/// Pure literal elimination: the clauses that hold a pure literal leave.
pub open spec fn drop_pure(f: Seq<Seq<int>>) -> Seq<Seq<int>> {
    f.filter(without_pure(f))
}

/// Unit propagation to the fixed point, always on the first unit clause.
pub open spec fn propagate_units(f: Seq<Seq<int>>) -> Seq<Seq<int>>
    decreases f.len(),
    via propagate_units_decreases
{
    match first_unit(f) {
        Some(u) => propagate_units(propagate(f, u)),
        None => f,
    }
}

/// Propagating the first unit literal leaves fewer clauses.
#[via_fn]
proof fn propagate_units_decreases(f: Seq<Seq<int>>) {
    if let Some(u) = first_unit(f) {
        lemma_first_unit(f);
        lemma_propagate_shrinks(f, u);
    }
}

/// The formula on which the search splits cases: unit clauses propagated to
/// the fixed point, then the clauses with a pure literal dropped.
pub open spec fn simplified(f: Seq<Seq<int>>) -> Seq<Seq<int>> {
    drop_pure(propagate_units(f))
}

/// The assignment that agrees with `a` but for the variable of `l`, where it
/// makes `l` true.
pub open spec fn forcing(a: spec_fn(int) -> bool, l: int) -> spec_fn(int) -> bool {
    |v: int| if v == var_of(l) { l >= 0 } else { a(v) }
}

/// The assignment that agrees with `a` but for the variables of `ls`, where
/// it makes the literals of `ls` true.
pub open spec fn forcing_all(a: spec_fn(int) -> bool, ls: Seq<int>) -> spec_fn(int) -> bool {
    |v: int| if ls.contains(v) { true } else if ls.contains(-v) { false } else { a(v) }
}

/// A filter on a sequence with one more element.
pub proof fn lemma_filter_push<A>(s: Seq<A>, x: A, p: spec_fn(A) -> bool)
    ensures
        s.push(x).filter(p) == if p(x) { s.filter(p).push(x) } else { s.filter(p) },
{
    reveal(Seq::filter);
    assert(s.push(x).drop_last() =~= s);
}

/// A filter keeps exactly the elements that meet the predicate.
pub proof fn lemma_filter_members<A>(s: Seq<A>, p: spec_fn(A) -> bool)
    ensures
        forall|x: A| #[trigger] s.filter(p).contains(x) <==> (s.contains(x) && p(x)),
        forall|i: int|
            0 <= i < s.filter(p).len() ==> s.contains(#[trigger] s.filter(p)[i]) && p(
                s.filter(p)[i],
            ),
        s.filter(p).len() <= s.len(),
{
    let t = s.filter(p);
    s.lemma_filter_len(p);
    assert forall|x: A| #[trigger] t.contains(x) <==> (s.contains(x) && p(x)) by {
        if t.contains(x) {
            let i = choose|i: int| 0 <= i < t.len() && t[i] == x;
            s.lemma_filter_pred(p, i);
            s.lemma_filter_contains_rev(p, x);
        }
        if s.contains(x) && p(x) {
            let k = choose|k: int| 0 <= k < s.len() && s[k] == x;
            s.lemma_filter_contains(p, k);
        }
    }
    assert forall|i: int| 0 <= i < t.len() implies s.contains(#[trigger] t[i]) && p(t[i]) by {
        assert(t.contains(t[i]));
    }
}

/// Predicates that agree on the elements filter alike.
pub proof fn lemma_filter_same<A>(s: Seq<A>, p: spec_fn(A) -> bool, q: spec_fn(A) -> bool)
    requires
        forall|i: int| 0 <= i < s.len() ==> p(#[trigger] s[i]) == q(s[i]),
    ensures
        s.filter(p) == s.filter(q),
    decreases s.len(),
{
    reveal(Seq::filter);
    if s.len() > 0 {
        lemma_filter_same(s.drop_last(), p, q);
    }
}

/// A filter that rejects some element returns fewer elements.
pub proof fn lemma_filter_drops<A>(s: Seq<A>, p: spec_fn(A) -> bool, k: int)
    requires
        0 <= k < s.len(),
        !p(s[k]),
    ensures
        s.filter(p).len() < s.len(),
    decreases s.len(),
{
    reveal(Seq::filter);
    let r = s.drop_last();
    lemma_filter_members(r, p);
    if k < s.len() - 1 {
        lemma_filter_drops(r, p, k);
    }
}

/// What `first_unit` returns is the one literal of the first unit clause.
pub proof fn lemma_first_unit(f: Seq<Seq<int>>)
    ensures
        has_unit(f) ==> exists|i: int| unit_at(f, i) && first_unit(f) == Some(f[i][0]),
        forall|i: int| unit_at(f, i) ==> first_unit(f) == Some(f[i][0]),
{
    if has_unit(f) {
        let w = choose|i: int| 0 <= i < f.len() && (#[trigger] f[i]).len() == 1;
        lemma_least_unit(f, w);
        let c = choose|i: int| unit_at(f, i);
        assert(unit_at(f, c));
        assert forall|i: int| unit_at(f, i) implies first_unit(f) == Some(f[i][0]) by {
            if i < c {
                assert(f[i].len() != 1);
            } else if c < i {
                assert(f[c].len() != 1);
            }
        }
    } else {
        assert forall|i: int| unit_at(f, i) implies first_unit(f) == Some(f[i][0]) by {
            assert(f[i].len() == 1);
        }
    }
}

/// Where there is a unit clause, there is a first one.
proof fn lemma_least_unit(f: Seq<Seq<int>>, w: int)
    requires
        0 <= w < f.len(),
        f[w].len() == 1,
    ensures
        exists|i: int| unit_at(f, i),
    decreases w,
{
    if forall|k: int| 0 <= k < w ==> (#[trigger] f[k]).len() != 1 {
        assert(unit_at(f, w));
    } else {
        let k = choose|k: int| 0 <= k < w && (#[trigger] f[k]).len() == 1;
        lemma_least_unit(f, k);
    }
}

/// Propagating the literal of a unit clause removes at least that clause.
pub proof fn lemma_propagate_shrinks(f: Seq<Seq<int>>, u: int)
    requires
        exists|i: int| 0 <= i < f.len() && (#[trigger] f[i]).len() == 1 && f[i][0] == u,
    ensures
        propagate(f, u).len() < f.len(),
{
    let i = choose|i: int| 0 <= i < f.len() && (#[trigger] f[i]).len() == 1 && f[i][0] == u;
    assert(f[i].contains(u));
    lemma_filter_drops(f, avoids(u), i);
}

/// A machine literal is in the clause exactly if its value is in the view.
pub proof fn lemma_view_contains(c: Seq<i64>, l: i64)
    ensures
        clause_view(c).contains(l as int) == c.contains(l),
{
    let v = clause_view(c);
    if c.contains(l) {
        let j = choose|j: int| 0 <= j < c.len() && c[j] == l;
        assert(v[j] == l as int);
    }
    if v.contains(l as int) {
        let j = choose|j: int| 0 <= j < v.len() && v[j] == l as int;
        assert(c[j] == l);
    }
}

/// The view of a formula with one more clause.
pub proof fn lemma_view_push(f: Seq<Vec<i64>>, c: Vec<i64>)
    ensures
        formula_view(f.push(c)) == formula_view(f).push(clause_view(c@)),
{
    assert(formula_view(f.push(c)) =~= formula_view(f).push(clause_view(c@)));
}

/// The view of a prefix with one more clause.
pub proof fn lemma_view_take(f: Seq<Vec<i64>>, i: int)
    requires
        0 <= i < f.len(),
    ensures
        formula_view(f.take(i + 1)) == formula_view(f.take(i)).push(clause_view(f[i]@)),
{
    assert(f.take(i + 1) =~= f.take(i).push(f[i]));
    lemma_view_push(f.take(i), f[i]);
}

/// Stripping a literal that is not there changes nothing.
pub proof fn lemma_strip_absent(c: Seq<int>, l: int)
    requires
        !c.contains(l),
    ensures
        strip(c, l) == c,
    decreases c.len(),
{
    reveal(Seq::filter);
    if c.len() > 0 {
        let r = c.drop_last();
        assert forall|x: int| r.contains(x) implies c.contains(x) by {
            let k = choose|k: int| 0 <= k < r.len() && r[k] == x;
            assert(c[k] == x);
        }
        lemma_strip_absent(r, l);
        assert(c[c.len() - 1] == c.last());
        assert(c.last() != l);
        assert(r.push(c.last()) =~= c);
    }
}

/// Propagation on a formula with one more clause.
pub proof fn lemma_propagate_push(f: Seq<Seq<int>>, c: Seq<int>, lit: int)
    ensures
        propagate(f.push(c), lit) == if c.contains(lit) {
            propagate(f, lit)
        } else {
            propagate(f, lit).push(strip(c, -lit))
        },
{
    lemma_filter_push(f, c, avoids(lit));
    if !c.contains(lit) {
        assert(propagate(f.push(c), lit) =~= propagate(f, lit).push(strip(c, -lit)));
    }
}

} // verus!
