//! What the constraints of a flattened statement guarantee: any assignment
//! that satisfies them (the constant wire worth one) makes the statement's
//! equation hold modulo the prime.

use vstd::prelude::*;

use crate::ast::{SpecExpr, SpecStatement};
use crate::flattener::{
    bool_constraint, const_lc, enforce_bool, extends, flat_expr, flat_guarded, flat_stmt, initial_state,
    lc_sub, lemma_extends_trans, lemma_flat_expr_extends, lemma_flat_guarded_extends,
    lookup_signal, next_index, one_lc, var_lc, with_constraint, with_temp, FlatState,
    bad_else_message, bad_then_message,
};
use crate::r1cs::{coeffs_bounded, SpecConstraint};
use crate::wellformed::{
    lc_well_formed, lemma_enforce_bool_well_formed, lemma_flat_expr_well_formed,
    lemma_flat_guarded_well_formed, lemma_lookup_bound, state_well_formed,
};
use crate::witness::{
    constraint_holds, is_prime, lc_value, lemma_bool_constraint_sound, lemma_empty_value,
    lemma_lc_add_value, lemma_lc_sub_value, lemma_multiple_add, lemma_multiple_mul,
    lemma_var_value, value_upto,
};

verus! {

/// Whether `x` and `y` are equal modulo `p`.
pub open spec fn congruent(x: int, y: int, p: nat) -> bool {
    (x - y) % (p as int) == 0
}

/// The value of an expression under `w`, each name standing for the value
/// of its latest declared variable.
pub open spec fn expr_value(signals: Seq<(Seq<char>, usize)>, e: SpecExpr, w: Seq<int>) -> int
    decreases e,
{
    match e {
        SpecExpr::Const(n) => n as int,
        SpecExpr::Var(name) => match lookup_signal(signals, name) {
            Some(i) => w[i as int],
            None => 0,
        },
        SpecExpr::Add(a, b) => expr_value(signals, *a, w) + expr_value(signals, *b, w),
        SpecExpr::Sub(a, b) => expr_value(signals, *a, w) - expr_value(signals, *b, w),
        SpecExpr::Mul(a, b) => expr_value(signals, *a, w) * expr_value(signals, *b, w),
        SpecExpr::Neg(a) => -expr_value(signals, *a, w),
    }
}

/// Whether `w` satisfies every constraint of `cs` modulo `p`.
pub open spec fn satisfies(cs: Seq<SpecConstraint>, w: Seq<int>, p: nat) -> bool {
    forall|i: int| 0 <= i < cs.len() ==> constraint_holds(#[trigger] cs[i], w, p)
}

/// Whether `w` assigns a value in `[0, p)` to each of at least `n`
/// variables, the constant wire 0 being worth one.
pub open spec fn assignment(w: Seq<int>, n: nat, p: nat) -> bool {
    &&& n <= w.len() <= usize::MAX
    &&& w.len() > 0
    &&& w[0] == 1
    &&& forall|k: int| 0 <= k < w.len() ==> 0 <= #[trigger] w[k] < p
}

/// The value of a signal's latest variable under `w`.
pub open spec fn signal_value(signals: Seq<(Seq<char>, usize)>, name: Seq<char>, w: Seq<int>) -> int {
    w[lookup_signal(signals, name)->Some_0 as int]
}

proof fn lemma_satisfies_prefix(cs: Seq<SpecConstraint>, k: int, w: Seq<int>, p: nat)
    requires
        0 <= k <= cs.len(),
        satisfies(cs, w, p),
    ensures
        satisfies(cs.take(k), w, p),
{
    assert forall|i: int| 0 <= i < cs.take(k).len() implies constraint_holds(
        #[trigger] cs.take(k)[i],
        w,
        p,
    ) by {
        assert(cs.take(k)[i] == cs[i]);
    }
}

/// Satisfying a state's successor satisfies the state.
proof fn lemma_satisfies_extends(st: FlatState, s1: FlatState, w: Seq<int>, p: nat)
    requires
        extends(st, s1),
        satisfies(s1.sys.constraints, w, p),
    ensures
        satisfies(st.sys.constraints, w, p),
{
    lemma_satisfies_prefix(s1.sys.constraints, st.sys.constraints.len() as int, w, p);
}

/// The value of the single term `v * x_k`.
proof fn lemma_single_value(k: usize, v: nat, w: Seq<int>, n: nat)
    requires
        n <= w.len(),
        w.len() <= usize::MAX,
    ensures
        value_upto(map![k => v], w, n) == (if k < n {
            v * w[k as int]
        } else {
            0
        }),
    decreases n,
{
    if n > 0 {
        lemma_single_value(k, v, w, (n - 1) as nat);
        let j = (n - 1) as usize;
        assert(j as int == n - 1);
        if j == k {
            assert(crate::r1cs::coeff_or_zero(map![k => v], j) == v);
            assert(value_upto(map![k => v], w, (n - 1) as nat) == 0);
        } else {
            assert(crate::r1cs::coeff_or_zero(map![k => v], j) == 0);
            assert(value_upto(map![k => v], w, n) == value_upto(map![k => v], w, (n - 1) as nat));
        }
    }
}

/// Congruence respects sums, differences, negation and products.
proof fn lemma_congruent_ops(x1: int, y1: int, x2: int, y2: int, p: nat)
    requires
        p > 0,
        congruent(x1, y1, p),
        congruent(x2, y2, p),
    ensures
        congruent(x1 + x2, y1 + y2, p),
        congruent(x1 - x2, y1 - y2, p),
        congruent(-x1, -y1, p),
        congruent(x1 * x2, y1 * y2, p),
{
    let pi = p as int;
    lemma_multiple_add(x1 - y1, x2 - y2, pi);
    assert((x1 + x2) - (y1 + y2) == (x1 - y1) + (x2 - y2));
    lemma_multiple_mul(x2 - y2, -1, pi);
    assert((x2 - y2) * -1 == -(x2 - y2)) by (nonlinear_arith);
    lemma_multiple_add(x1 - y1, -(x2 - y2), pi);
    assert((x1 - x2) - (y1 - y2) == (x1 - y1) + -(x2 - y2));
    lemma_multiple_mul(x1 - y1, -1, pi);
    assert((x1 - y1) * -1 == -x1 - -y1) by (nonlinear_arith);
    // x1 x2 - y1 y2 = (x1 - y1) x2 + y1 (x2 - y2)
    lemma_multiple_mul(x1 - y1, x2, pi);
    lemma_multiple_mul(x2 - y2, y1, pi);
    assert(x1 * x2 - y1 * y2 == (x1 - y1) * x2 + (x2 - y2) * y1) by (nonlinear_arith);
    lemma_multiple_add((x1 - y1) * x2, (x2 - y2) * y1, pi);
}

proof fn lemma_congruent_trans(x: int, y: int, z: int, p: nat)
    requires
        p > 0,
        congruent(x, y, p),
        congruent(y, z, p),
    ensures
        congruent(x, z, p),
{
    lemma_multiple_add(x - y, y - z, p as int);
}

proof fn lemma_congruent_symm(x: int, y: int, p: nat)
    requires
        p > 0,
        congruent(x, y, p),
    ensures
        congruent(y, x, p),
{
    lemma_multiple_mul(x - y, -1, p as int);
    assert((x - y) * -1 == y - x) by (nonlinear_arith);
}

proof fn lemma_congruent_refl(x: int, p: nat)
    requires
        p > 0,
    ensures
        congruent(x, x, p),
{
    vstd::arithmetic::div_mod::lemma_small_mod(0, p);
}

/// `x % p` is congruent to `x`.
proof fn lemma_congruent_mod(x: int, p: nat)
    requires
        p > 0,
    ensures
        congruent(x % (p as int), x, p),
{
    vstd::arithmetic::div_mod::lemma_mod_twice(x, p as int);
    vstd::arithmetic::div_mod::lemma_mod_equivalence(x % (p as int), x, p as int);
}

/// Values modulo `p` that agree modulo `p` are congruent.
proof fn lemma_congruent_from_mod(x: int, y: int, p: nat)
    requires
        p > 0,
        x % (p as int) == y % (p as int),
    ensures
        congruent(x, y, p),
{
    vstd::arithmetic::div_mod::lemma_mod_equivalence(x, y, p as int);
}

/// The value of `1 * x_i` is `w[i]`.
proof fn lemma_var_lc_value(i: usize, w: Seq<int>)
    requires
        i < w.len(),
        w.len() <= usize::MAX,
    ensures
        lc_value(var_lc(i), w) == w[i as int],
{
    lemma_var_value(i, w, w.len());
}

/// Flattening an expression gives a combination whose value is the
/// expression's, under any assignment that satisfies the constraints it
/// leaves behind.
proof fn lemma_flat_expr_sound(st: FlatState, e: SpecExpr, p: nat, w: Seq<int>)
    requires
        p >= 2,
        state_well_formed(st, p),
        flat_expr(st, e, p) is Ok,
        assignment(w, flat_expr(st, e, p)->Ok_0.0.sys.num_variables, p),
        satisfies(flat_expr(st, e, p)->Ok_0.0.sys.constraints, w, p),
    ensures
        congruent(lc_value(flat_expr(st, e, p)->Ok_0.1, w), expr_value(st.signals, e, w), p),
    decreases e,
{
    let n = st.sys.num_variables;
    lemma_flat_expr_well_formed(st, e, p);
    match e {
        SpecExpr::Const(v) => {
            let c = v % p;
            if c == 0 {
                lemma_empty_value(w, w.len());
                lemma_congruent_mod(v as int, p);
                assert(const_lc(c) == Map::<usize, nat>::empty());
            } else {
                lemma_single_value(0, c, w, w.len());
                assert(const_lc(c) == map![0usize => c]);
                lemma_congruent_mod(v as int, p);
            }
        },
        SpecExpr::Var(name) => {
            lemma_lookup_bound(st.signals, name, n);
            let i = lookup_signal(st.signals, name)->Some_0;
            lemma_var_lc_value(i, w);
            lemma_congruent_refl(w[i as int], p);
        },
        SpecExpr::Add(a, b) | SpecExpr::Sub(a, b) | SpecExpr::Mul(a, b) => {
            let (s1, la) = flat_expr(st, *a, p)->Ok_0;
            let (s2, lb) = flat_expr(s1, *b, p)->Ok_0;
            let (fin, l) = flat_expr(st, e, p)->Ok_0;
            lemma_flat_expr_well_formed(st, *a, p);
            lemma_flat_expr_well_formed(s1, *b, p);
            lemma_flat_expr_extends(st, *a, p);
            lemma_flat_expr_extends(s1, *b, p);
            let ea = expr_value(st.signals, *a, w);
            let eb = expr_value(st.signals, *b, w);
            let va = lc_value(la, w);
            let vb = lc_value(lb, w);
            if e is Mul {
                let t = next_index(s2);
                let s3 = with_temp(s2);
                assert(extends(s2, fin)) by {
                    assert(fin.sys.constraints.take(s2.sys.constraints.len() as int) =~= s2.sys.constraints);
                }
                lemma_satisfies_extends(s2, fin, w, p);
                lemma_satisfies_extends(s1, s2, w, p);
                lemma_flat_expr_sound(st, *a, p, w);
                lemma_flat_expr_sound(s1, *b, p, w);
                let last = fin.sys.constraints.len() - 1;
                assert(fin.sys.constraints[last] == SpecConstraint { a: la, b: lb, c: var_lc(t) });
                assert(constraint_holds(fin.sys.constraints[last], w, p));
                lemma_var_lc_value(t, w);
                assert(l == var_lc(t));
                lemma_congruent_symm(va * vb, w[t as int], p);
                lemma_congruent_ops(va, ea, vb, eb, p);
                lemma_congruent_trans(w[t as int], va * vb, ea * eb, p);
            } else {
                assert(fin == s2);
                lemma_satisfies_extends(s1, s2, w, p);
                lemma_flat_expr_sound(st, *a, p, w);
                lemma_flat_expr_sound(s1, *b, p, w);
                lemma_congruent_ops(va, ea, vb, eb, p);
                if e is Add {
                    lemma_lc_add_value(la, lb, w, p);
                    lemma_congruent_from_mod(lc_value(l, w), va + vb, p);
                    lemma_congruent_trans(lc_value(l, w), va + vb, ea + eb, p);
                } else {
                    assert(coeffs_bounded(lb, p));
                    lemma_lc_sub_value(la, lb, w, p);
                    lemma_congruent_from_mod(lc_value(l, w), va - vb, p);
                    lemma_congruent_trans(lc_value(l, w), va - vb, ea - eb, p);
                }
            }
        },
        SpecExpr::Neg(a) => {
            let (s1, la) = flat_expr(st, *a, p)->Ok_0;
            let (fin, l) = flat_expr(st, e, p)->Ok_0;
            lemma_flat_expr_well_formed(st, *a, p);
            lemma_flat_expr_extends(st, *a, p);
            let t = next_index(s1);
            assert(extends(s1, fin)) by {
                assert(fin.sys.constraints.take(s1.sys.constraints.len() as int) =~= s1.sys.constraints);
            }
            lemma_satisfies_extends(s1, fin, w, p);
            lemma_flat_expr_sound(st, *a, p, w);
            let ea = expr_value(st.signals, *a, w);
            let va = lc_value(la, w);
            let neg = lc_sub(Map::empty(), la, p);
            let last = fin.sys.constraints.len() - 1;
            assert(fin.sys.constraints[last] == SpecConstraint { a: neg, b: one_lc(), c: var_lc(t) });
            assert(constraint_holds(fin.sys.constraints[last], w, p));
            lemma_var_lc_value(t, w);
            lemma_var_lc_value(0, w);
            assert(one_lc() == var_lc(0));
            assert(coeffs_bounded(la, p));
            lemma_empty_value(w, w.len());
            lemma_lc_sub_value(Map::empty(), la, w, p);
            let vn = lc_value(neg, w);
            assert(lc_value(one_lc(), w) == 1);
            assert(vn * 1 == vn) by (nonlinear_arith);
            assert(congruent(vn, w[t as int], p));
            lemma_congruent_from_mod(vn, 0 - va, p);
            lemma_congruent_symm(vn, w[t as int], p);
            lemma_congruent_trans(w[t as int], vn, 0 - va, p);
            lemma_congruent_ops(va, ea, va, ea, p);
            lemma_congruent_trans(w[t as int], 0 - va, -ea, p);
        },
    }
}

/// Whether every declared signal is a variable other than the constant
/// wire.
pub open spec fn signals_positive(st: FlatState) -> bool {
    forall|j: int| 0 <= j < st.signals.len() ==> 0 < (#[trigger] st.signals[j]).1
}

/// Whether every flag marked boolean carries its constraint
/// `v * (1 - v) = 0`, for the variable its name now stands for.
pub open spec fn bools_enforced(st: FlatState, p: nat) -> bool {
    forall|x: Seq<char>|
        #[trigger] st.bools.contains(x) ==> (lookup_signal(st.signals, x) matches Some(i)
            && st.sys.constraints.contains(bool_constraint(i, p)))
}

/// The equation of a branch of a conditional.
pub open spec fn branch_holds(
    signals: Seq<(Seq<char>, usize)>,
    body: SpecStatement,
    w: Seq<int>,
    p: nat,
) -> bool {
    match body {
        SpecStatement::Assign(target, value) => congruent(
            signal_value(signals, target, w),
            expr_value(signals, value, w),
            p,
        ),
        SpecStatement::Constraint(lhs, rhs) => congruent(
            expr_value(signals, lhs, w),
            expr_value(signals, rhs, w),
            p,
        ),
        _ => true,
    }
}

/// The equation that a statement asks of an assignment: an assignment's
/// target equals its value, both sides of a constraint are equal, an
/// asserted flag is 0 or 1, and a conditional's flag is 0 or 1, its `then`
/// branch holding when it is 1 and its `else` branch when it is 0.
pub open spec fn statement_holds(
    signals: Seq<(Seq<char>, usize)>,
    s: SpecStatement,
    w: Seq<int>,
    p: nat,
) -> bool {
    match s {
        SpecStatement::SignalDecl(_, _) => true,
        SpecStatement::Assign(_, _) => branch_holds(signals, s, w, p),
        SpecStatement::Constraint(_, _) => branch_holds(signals, s, w, p),
        SpecStatement::AssertBool(name) => signal_value(signals, name, w) == 0 || signal_value(
            signals,
            name,
            w,
        ) == 1,
        SpecStatement::Conditional(flag, then_stmt, else_stmt) => {
            let f = signal_value(signals, flag, w);
            &&& f == 0 || f == 1
            &&& f == 1 ==> branch_holds(signals, *then_stmt, w, p)
            &&& f == 0 ==> match else_stmt {
                Some(e) => branch_holds(signals, *e, w, p),
                None => true,
            }
        },
    }
}

/// What a branch's constraint `(difference) * guard = 0` gives.
pub open spec fn guarded_holds(
    signals: Seq<(Seq<char>, usize)>,
    body: SpecStatement,
    g: int,
    w: Seq<int>,
    p: nat,
) -> bool {
    match body {
        SpecStatement::Assign(target, value) => congruent(
            (expr_value(signals, value, w) - signal_value(signals, target, w)) * g,
            0,
            p,
        ),
        SpecStatement::Constraint(lhs, rhs) => congruent(
            (expr_value(signals, lhs, w) - expr_value(signals, rhs, w)) * g,
            0,
            p,
        ),
        _ => true,
    }
}

proof fn lemma_contains_extends(st: FlatState, s1: FlatState, c: SpecConstraint)
    requires
        extends(st, s1),
        st.sys.constraints.contains(c),
    ensures
        s1.sys.constraints.contains(c),
{
    let k = choose|k: int| 0 <= k < st.sys.constraints.len() && st.sys.constraints[k] == c;
    assert(s1.sys.constraints.take(st.sys.constraints.len() as int)[k] == s1.sys.constraints[k]);
}

proof fn lemma_bools_extends(st: FlatState, s1: FlatState, p: nat)
    requires
        extends(st, s1),
        bools_enforced(st, p),
    ensures
        bools_enforced(s1, p),
{
    assert forall|x: Seq<char>| #[trigger] s1.bools.contains(x) implies (lookup_signal(s1.signals, x) matches Some(i)
        && s1.sys.constraints.contains(bool_constraint(i, p))) by {
        let i = lookup_signal(st.signals, x)->Some_0;
        lemma_contains_extends(st, s1, bool_constraint(i, p));
    }
}

proof fn lemma_lookup_positive(signals: Seq<(Seq<char>, usize)>, name: Seq<char>)
    requires
        forall|j: int| 0 <= j < signals.len() ==> 0 < (#[trigger] signals[j]).1,
    ensures
        lookup_signal(signals, name) matches Some(i) ==> 0 < i,
    decreases signals.len(),
{
    if signals.len() > 0 {
        assert(signals.last() == signals[signals.len() - 1]);
        let rest = signals.drop_last();
        assert forall|j: int| 0 <= j < rest.len() implies 0 < (#[trigger] rest[j]).1 by {
            assert(rest[j] == signals[j]);
        }
        lemma_lookup_positive(rest, name);
    }
}

/// A satisfied boolean constraint makes its variable 0 or 1.
proof fn lemma_flag_is_bit(cs: Seq<SpecConstraint>, i: usize, w: Seq<int>, p: nat)
    requires
        is_prime(p),
        0 < i < w.len(),
        assignment(w, 0, p),
        cs.contains(bool_constraint(i, p)),
        satisfies(cs, w, p),
    ensures
        w[i as int] == 0 || w[i as int] == 1,
{
    let k = choose|k: int| 0 <= k < cs.len() && cs[k] == bool_constraint(i, p);
    assert(constraint_holds(cs[k], w, p));
    lemma_bool_constraint_sound(i, w, p);
}

/// Constraining a flag leaves it constrained, with every other flag, in a
/// state that extends the one before but for the flag's mark.
proof fn lemma_enforce_bool_sound(st: FlatState, x: Seq<char>, p: nat)
    requires
        bools_enforced(st, p),
        enforce_bool(st, x, p) is Ok,
    ensures
        ({
            let s1 = enforce_bool(st, x, p)->Ok_0;
            &&& bools_enforced(s1, p)
            &&& s1.bools.contains(x)
            &&& s1.signals == st.signals
            &&& s1.sys.num_variables == st.sys.num_variables
            &&& st.sys.constraints.len() <= s1.sys.constraints.len()
            &&& s1.sys.constraints.take(st.sys.constraints.len() as int) == st.sys.constraints
        }),
{
    let s1 = enforce_bool(st, x, p)->Ok_0;
    if st.bools.contains(x) {
        assert(s1.sys.constraints.take(st.sys.constraints.len() as int) =~= st.sys.constraints);
    } else {
        let i = lookup_signal(st.signals, x)->Some_0;
        let c = bool_constraint(i, p);
        let k = st.sys.constraints.len() as int;
        assert(s1.sys.constraints[k] == c);
        assert(s1.sys.constraints.take(k) =~= st.sys.constraints);
        assert forall|y: Seq<char>| #[trigger] s1.bools.contains(y) implies (lookup_signal(s1.signals, y) matches Some(j)
            && s1.sys.constraints.contains(bool_constraint(j, p))) by {
            if y == x {
                assert(s1.sys.constraints.contains(c));
            } else {
                let j0 = choose|j0: int| 0 <= j0 < s1.bools.len() && s1.bools[j0] == y;
                assert(j0 < st.bools.len());
                assert(st.bools[j0] == y);
                assert(st.bools.contains(y));
                let j = lookup_signal(st.signals, y)->Some_0;
                let m = choose|m: int| 0 <= m < st.sys.constraints.len() && st.sys.constraints[m]
                    == bool_constraint(j, p);
                assert(s1.sys.constraints[m] == bool_constraint(j, p));
            }
        }
        assert(s1.bools[s1.bools.len() - 1] == x);
    }
}

/// A branch of a conditional, flattened under `guard`, gives
/// `(difference) * guard = 0` for any assignment satisfying its
/// constraints.
proof fn lemma_flat_guarded_sound(
    st: FlatState,
    body: SpecStatement,
    guard: Map<usize, nat>,
    bad: Seq<char>,
    p: nat,
    w: Seq<int>,
)
    requires
        p >= 2,
        state_well_formed(st, p),
        lc_well_formed(guard, st.sys.num_variables, p),
        flat_guarded(st, body, guard, bad, p) is Ok,
        assignment(w, flat_guarded(st, body, guard, bad, p)->Ok_0.sys.num_variables, p),
        satisfies(flat_guarded(st, body, guard, bad, p)->Ok_0.sys.constraints, w, p),
    ensures
        guarded_holds(st.signals, body, lc_value(guard, w), w, p),
{
    let fin = flat_guarded(st, body, guard, bad, p)->Ok_0;
    let g = lc_value(guard, w);
    let last = fin.sys.constraints.len() - 1;
    lemma_empty_value(w, w.len());
    match body {
        SpecStatement::Assign(target, value) => {
            let t = lookup_signal(st.signals, target)->Some_0;
            let (s1, lv) = flat_expr(st, value, p)->Ok_0;
            lemma_flat_expr_well_formed(st, value, p);
            lemma_flat_expr_extends(st, value, p);
            let d = lc_sub(lv, var_lc(t), p);
            assert(fin == with_constraint(s1, d, guard, Map::empty()));
            assert(extends(s1, fin)) by {
                assert(fin.sys.constraints.take(s1.sys.constraints.len() as int) =~= s1.sys.constraints);
            }
            lemma_satisfies_extends(s1, fin, w, p);
            lemma_flat_expr_sound(st, value, p, w);
            assert(fin.sys.constraints[last] == SpecConstraint { a: d, b: guard, c: Map::empty() });
            assert(constraint_holds(fin.sys.constraints[last], w, p));
            lemma_lookup_bound(st.signals, target, st.sys.num_variables);
            lemma_var_lc_value(t, w);
            lemma_lc_sub_value(lv, var_lc(t), w, p);
            let ev = expr_value(st.signals, value, w);
            let vd = lc_value(d, w);
            lemma_congruent_from_mod(vd, lc_value(lv, w) - w[t as int], p);
            lemma_congruent_refl(w[t as int], p);
            lemma_congruent_ops(lc_value(lv, w), ev, w[t as int], w[t as int], p);
            lemma_congruent_trans(vd, lc_value(lv, w) - w[t as int], ev - w[t as int], p);
            lemma_congruent_refl(g, p);
            lemma_congruent_ops(vd, ev - w[t as int], g, g, p);
            assert(congruent(vd * g - 0, 0, p));
            lemma_congruent_symm(vd * g, (ev - w[t as int]) * g, p);
            lemma_congruent_trans((ev - w[t as int]) * g, vd * g, 0, p);
        },
        SpecStatement::Constraint(lhs, rhs) => {
            let (s1, ll) = flat_expr(st, lhs, p)->Ok_0;
            let (s2, lr) = flat_expr(s1, rhs, p)->Ok_0;
            lemma_flat_expr_well_formed(st, lhs, p);
            lemma_flat_expr_well_formed(s1, rhs, p);
            lemma_flat_expr_extends(st, lhs, p);
            lemma_flat_expr_extends(s1, rhs, p);
            let d = lc_sub(ll, lr, p);
            assert(fin == with_constraint(s2, d, guard, Map::empty()));
            assert(extends(s2, fin)) by {
                assert(fin.sys.constraints.take(s2.sys.constraints.len() as int) =~= s2.sys.constraints);
            }
            lemma_satisfies_extends(s2, fin, w, p);
            lemma_satisfies_extends(s1, s2, w, p);
            lemma_flat_expr_sound(st, lhs, p, w);
            lemma_flat_expr_sound(s1, rhs, p, w);
            assert(fin.sys.constraints[last] == SpecConstraint { a: d, b: guard, c: Map::empty() });
            assert(constraint_holds(fin.sys.constraints[last], w, p));
            assert(coeffs_bounded(lr, p));
            lemma_lc_sub_value(ll, lr, w, p);
            let el = expr_value(st.signals, lhs, w);
            let er = expr_value(s1.signals, rhs, w);
            let vd = lc_value(d, w);
            lemma_congruent_from_mod(vd, lc_value(ll, w) - lc_value(lr, w), p);
            lemma_congruent_ops(lc_value(ll, w), el, lc_value(lr, w), er, p);
            lemma_congruent_trans(vd, lc_value(ll, w) - lc_value(lr, w), el - er, p);
            lemma_congruent_refl(g, p);
            lemma_congruent_ops(vd, el - er, g, g, p);
            assert(congruent(vd * g - 0, 0, p));
            lemma_congruent_symm(vd * g, (el - er) * g, p);
            lemma_congruent_trans((el - er) * g, vd * g, 0, p);
        },
        _ => {},
    }
}

/// From `(d) * g = 0` and `g` worth one, `d` is zero.
proof fn lemma_unit_guard(d: int, g: int, p: nat)
    requires
        p > 0,
        congruent(d * g, 0, p),
        congruent(g, 1, p),
    ensures
        congruent(d, 0, p),
{
    lemma_congruent_refl(d, p);
    lemma_congruent_ops(d, d, g, 1, p);
    assert(d * 1 == d);
    lemma_congruent_symm(d * g, d, p);
    lemma_congruent_trans(d, d * g, 0, p);
}

/// A branch's `(difference) * guard = 0` with the guard worth one gives the
/// branch's equation.
proof fn lemma_branch_from_guarded(
    signals: Seq<(Seq<char>, usize)>,
    body: SpecStatement,
    g: int,
    w: Seq<int>,
    p: nat,
)
    requires
        p > 0,
        guarded_holds(signals, body, g, w, p),
        congruent(g, 1, p),
    ensures
        branch_holds(signals, body, w, p),
{
    match body {
        SpecStatement::Assign(target, value) => {
            let ev = expr_value(signals, value, w);
            let sv = signal_value(signals, target, w);
            lemma_unit_guard(ev - sv, g, p);
            assert(sv - ev == -(ev - sv));
            lemma_congruent_ops(ev - sv, 0, ev - sv, 0, p);
        },
        SpecStatement::Constraint(lhs, rhs) => {
            let el = expr_value(signals, lhs, w);
            let er = expr_value(signals, rhs, w);
            lemma_unit_guard(el - er, g, p);
        },
        _ => {},
    }
}

/// Soundness of flattening one statement. From a well-formed state in which
/// every flag marked boolean carries its constraint, flattening a statement
/// (a declaration must not reuse the name of a flag marked boolean) keeps
/// that so; and over a prime field, every assignment of values in `[0, p)`
/// that satisfies the resulting constraints, with the constant wire worth
/// one, makes the statement's equation hold (see `statement_holds`).
pub proof fn lemma_flat_stmt_sound(st: FlatState, s: SpecStatement, p: nat, w: Seq<int>)
    requires
        is_prime(p),
        state_well_formed(st, p),
        signals_positive(st),
        bools_enforced(st, p),
        s matches SpecStatement::SignalDecl(_, name) ==> !st.bools.contains(name),
        flat_stmt(st, s, p) is Ok,
        assignment(w, flat_stmt(st, s, p)->Ok_0.sys.num_variables, p),
        satisfies(flat_stmt(st, s, p)->Ok_0.sys.constraints, w, p),
    ensures
        signals_positive(flat_stmt(st, s, p)->Ok_0),
        bools_enforced(flat_stmt(st, s, p)->Ok_0, p),
        statement_holds(st.signals, s, w, p),
{
    let fin = flat_stmt(st, s, p)->Ok_0;
    let n = st.sys.num_variables;
    let last = fin.sys.constraints.len() - 1;
    lemma_empty_value(w, w.len());
    lemma_var_lc_value(0, w);
    assert(one_lc() == var_lc(0));
    match s {
        SpecStatement::SignalDecl(kind, name) => {
            let i = next_index(st);
            let s1 = crate::flattener::with_variable(st, name);
            let sig = s1.signals.push((name, i));
            assert(fin.signals == sig);
            assert(fin.bools == st.bools);
            assert(fin.sys.constraints == st.sys.constraints);
            assert forall|j: int| 0 <= j < fin.signals.len() implies 0 < (#[trigger] fin.signals[j]).1 by {
                if j < st.signals.len() {
                    assert(fin.signals[j] == st.signals[j]);
                }
            }
            assert forall|x: Seq<char>| #[trigger] fin.bools.contains(x) implies (lookup_signal(fin.signals, x) matches Some(j)
                && fin.sys.constraints.contains(bool_constraint(j, p))) by {
                assert(x != name);
                assert(sig.drop_last() =~= st.signals);
            }
        },
        SpecStatement::Assign(target, value) => {
            let t = lookup_signal(st.signals, target)->Some_0;
            lemma_lookup_bound(st.signals, target, n);
            match value {
                SpecExpr::Mul(a, b) => {
                    let (s1, la) = flat_expr(st, *a, p)->Ok_0;
                    let (s2, lb) = flat_expr(s1, *b, p)->Ok_0;
                    lemma_flat_expr_well_formed(st, *a, p);
                    lemma_flat_expr_well_formed(s1, *b, p);
                    lemma_flat_expr_extends(st, *a, p);
                    lemma_flat_expr_extends(s1, *b, p);
                    assert(fin == with_constraint(s2, la, lb, var_lc(t)));
                    assert(extends(s2, fin)) by {
                        assert(fin.sys.constraints.take(s2.sys.constraints.len() as int) =~= s2.sys.constraints);
                    }
                    lemma_extends_trans(st, s1, s2);
                    lemma_extends_trans(st, s2, fin);
                    lemma_bools_extends(st, fin, p);
                    lemma_satisfies_extends(s2, fin, w, p);
                    lemma_satisfies_extends(s1, s2, w, p);
                    lemma_flat_expr_sound(st, *a, p, w);
                    lemma_flat_expr_sound(s1, *b, p, w);
                    assert(fin.sys.constraints[last] == SpecConstraint { a: la, b: lb, c: var_lc(t) });
                    assert(constraint_holds(fin.sys.constraints[last], w, p));
                    lemma_var_lc_value(t, w);
                    let va = lc_value(la, w);
                    let vb = lc_value(lb, w);
                    let ea = expr_value(st.signals, *a, w);
                    let eb = expr_value(st.signals, *b, w);
                    lemma_congruent_ops(va, ea, vb, eb, p);
                    lemma_congruent_symm(va * vb, w[t as int], p);
                    lemma_congruent_trans(w[t as int], va * vb, ea * eb, p);
                },
                _ => {
                    let (s1, lv) = flat_expr(st, value, p)->Ok_0;
                    lemma_flat_expr_well_formed(st, value, p);
                    lemma_flat_expr_extends(st, value, p);
                    assert(fin == with_constraint(s1, lv, one_lc(), var_lc(t)));
                    assert(extends(s1, fin)) by {
                        assert(fin.sys.constraints.take(s1.sys.constraints.len() as int) =~= s1.sys.constraints);
                    }
                    lemma_extends_trans(st, s1, fin);
                    lemma_bools_extends(st, fin, p);
                    lemma_satisfies_extends(s1, fin, w, p);
                    lemma_flat_expr_sound(st, value, p, w);
                    assert(fin.sys.constraints[last] == SpecConstraint { a: lv, b: one_lc(), c: var_lc(t) });
                    assert(constraint_holds(fin.sys.constraints[last], w, p));
                    lemma_var_lc_value(t, w);
                    let vl = lc_value(lv, w);
                    assert(vl * 1 == vl) by (nonlinear_arith);
                    assert(congruent(vl, w[t as int], p));
                    lemma_congruent_symm(vl, w[t as int], p);
                    lemma_congruent_trans(w[t as int], vl, expr_value(st.signals, value, w), p);
                },
            }
        },
        SpecStatement::Constraint(lhs, rhs) => {
            let (s1, ll) = flat_expr(st, lhs, p)->Ok_0;
            let (s2, lr) = flat_expr(s1, rhs, p)->Ok_0;
            lemma_flat_expr_well_formed(st, lhs, p);
            lemma_flat_expr_well_formed(s1, rhs, p);
            lemma_flat_expr_extends(st, lhs, p);
            lemma_flat_expr_extends(s1, rhs, p);
            let d = lc_sub(ll, lr, p);
            assert(fin == with_constraint(s2, d, one_lc(), Map::empty()));
            assert(extends(s2, fin)) by {
                assert(fin.sys.constraints.take(s2.sys.constraints.len() as int) =~= s2.sys.constraints);
            }
            lemma_extends_trans(st, s1, s2);
            lemma_extends_trans(st, s2, fin);
            lemma_bools_extends(st, fin, p);
            lemma_satisfies_extends(s2, fin, w, p);
            lemma_satisfies_extends(s1, s2, w, p);
            lemma_flat_expr_sound(st, lhs, p, w);
            lemma_flat_expr_sound(s1, rhs, p, w);
            assert(fin.sys.constraints[last] == SpecConstraint { a: d, b: one_lc(), c: Map::empty() });
            assert(constraint_holds(fin.sys.constraints[last], w, p));
            assert(coeffs_bounded(lr, p));
            lemma_lc_sub_value(ll, lr, w, p);
            let vd = lc_value(d, w);
            let el = expr_value(st.signals, lhs, w);
            let er = expr_value(st.signals, rhs, w);
            assert(vd * 1 == vd) by (nonlinear_arith);
            assert(congruent(vd, 0, p));
            lemma_congruent_from_mod(vd, lc_value(ll, w) - lc_value(lr, w), p);
            lemma_congruent_ops(lc_value(ll, w), el, lc_value(lr, w), er, p);
            lemma_congruent_symm(vd, lc_value(ll, w) - lc_value(lr, w), p);
            lemma_congruent_trans(lc_value(ll, w) - lc_value(lr, w), vd, 0, p);
            lemma_congruent_symm(lc_value(ll, w) - lc_value(lr, w), el - er, p);
            lemma_congruent_trans(el - er, lc_value(ll, w) - lc_value(lr, w), 0, p);
        },
        SpecStatement::AssertBool(name) => {
            lemma_enforce_bool_sound(st, name, p);
            lemma_lookup_bound(st.signals, name, n);
            lemma_lookup_positive(st.signals, name);
            let i = lookup_signal(st.signals, name)->Some_0;
            assert(fin.bools.contains(name));
            lemma_flag_is_bit(fin.sys.constraints, i, w, p);
        },
        SpecStatement::Conditional(flag, then_stmt, else_stmt) => {
            lemma_enforce_bool_sound(st, flag, p);
            lemma_enforce_bool_well_formed(st, flag, p);
            let s1 = enforce_bool(st, flag, p)->Ok_0;
            let n1 = s1.sys.num_variables;
            lemma_lookup_bound(s1.signals, flag, n1);
            lemma_lookup_positive(s1.signals, flag);
            let ci = lookup_signal(s1.signals, flag)->Some_0;
            assert(lc_well_formed(var_lc(ci), n1, p));
            lemma_flat_guarded_well_formed(s1, *then_stmt, var_lc(ci), bad_then_message(), p);
            lemma_flat_guarded_extends(s1, *then_stmt, var_lc(ci), bad_then_message(), p);
            let s2 = flat_guarded(s1, *then_stmt, var_lc(ci), bad_then_message(), p)->Ok_0;
            let neg = lc_sub(one_lc(), var_lc(ci), p);
            match else_stmt {
                None => {
                    assert(fin == s2);
                },
                Some(e) => {
                    assert(lc_well_formed(neg, s2.sys.num_variables, p)) by {
                        crate::wellformed::lemma_sub_well_formed(one_lc(), var_lc(ci), s2.sys.num_variables, p);
                    }
                    lemma_flat_guarded_extends(s2, *e, neg, bad_else_message(), p);
                    lemma_flat_guarded_well_formed(s2, *e, neg, bad_else_message(), p);
                    lemma_extends_trans(s1, s2, fin);
                },
            }
            assert(extends(s1, fin));
            lemma_bools_extends(s1, fin, p);
            if else_stmt is None {
                assert(s2.sys.constraints.take(s2.sys.constraints.len() as int) =~= s2.sys.constraints);
            }
            lemma_satisfies_extends(s2, fin, w, p);
            assert(fin.bools.contains(flag));
            lemma_flag_is_bit(fin.sys.constraints, ci, w, p);
            let f = w[ci as int];
            lemma_flat_guarded_sound(s1, *then_stmt, var_lc(ci), bad_then_message(), p, w);
            lemma_var_lc_value(ci, w);
            if f == 1 {
                lemma_congruent_refl(1, p);
                lemma_branch_from_guarded(st.signals, *then_stmt, f, w, p);
            }
            if let Some(e) = else_stmt {
                crate::wellformed::lemma_sub_well_formed(one_lc(), var_lc(ci), s2.sys.num_variables, p);
                lemma_flat_guarded_sound(s2, *e, neg, bad_else_message(), p, w);
                if f == 0 {
                    lemma_lc_sub_value(one_lc(), var_lc(ci), w, p);
                    lemma_congruent_from_mod(lc_value(neg, w), 1 - f, p);
                    lemma_branch_from_guarded(st.signals, *e, lc_value(neg, w), w, p);
                }
            }
        },
    }
}

/// Flattening starts from a state that meets the conditions of
/// `lemma_flat_stmt_sound`.
pub proof fn lemma_initial_state_sound(p: nat)
    requires
        p >= 2,
    ensures
        state_well_formed(initial_state(p), p),
        signals_positive(initial_state(p)),
        bools_enforced(initial_state(p), p),
{
}

} // verus!
