//! The shape of every system that flattening produces: one name per
//! variable, the constant wire first, the signal counts within the
//! variables, and every term naming an existing variable with a coefficient
//! in `[1, p)`.

use vstd::prelude::*;

use crate::ast::{SpecExpr, SpecStatement};
use crate::flattener::{
    bad_else_message, bad_then_message, bool_constraint, count_signal, enforce_bool,
    flat_expr, flat_guarded, flat_stmt, flat_stmts, initial_state, lc_sub, lookup_signal,
    next_index, one_lc, spec_flatten, var_lc, with_constraint, with_temp, with_variable, FlatState,
};
use crate::r1cs::{neg_coeff, one_wire_name, spec_lc_add, spec_lc_neg, SpecConstraint, SystemModel};

verus! {

/// Whether every term of `m` names a variable below `n` with a coefficient
/// in `[1, p)`.
pub open spec fn lc_well_formed(m: Map<usize, nat>, n: nat, p: nat) -> bool {
    forall|k: usize| #[trigger] m.contains_key(k) ==> k < n && 0 < m[k] < p
}

/// Whether the three sides of a constraint are well formed.
pub open spec fn constraint_well_formed(c: SpecConstraint, n: nat, p: nat) -> bool {
    lc_well_formed(c.a, n, p) && lc_well_formed(c.b, n, p) && lc_well_formed(c.c, n, p)
}

/// Whether a system over the prime `p` is well formed: it is over `p`, it
/// names each of its variables, the constant wire `~one` first, its
/// declared signals are among its other variables, and every constraint is
/// well formed.
pub open spec fn system_well_formed(m: SystemModel, p: nat) -> bool {
    &&& m.prime == p
    &&& m.variable_names.len() == m.num_variables
    &&& m.num_variables >= 1
    &&& m.variable_names[0] == one_wire_name()
    &&& m.num_public_inputs + m.num_public_outputs + m.num_private_inputs + 1 <= m.num_variables
    &&& forall|i: int|
        0 <= i < m.constraints.len() ==> constraint_well_formed(
            #[trigger] m.constraints[i],
            m.num_variables,
            p,
        )
}

/// Whether a flattening state is well formed: its system is, and every
/// declared signal names one of its variables.
pub open spec fn state_well_formed(st: FlatState, p: nat) -> bool {
    &&& system_well_formed(st.sys, p)
    &&& forall|j: int| 0 <= j < st.signals.len() ==> (#[trigger] st.signals[j]).1 < st.sys.num_variables
}

proof fn lemma_lc_grow(m: Map<usize, nat>, n: nat, n2: nat, p: nat)
    requires
        lc_well_formed(m, n, p),
        n <= n2,
    ensures
        lc_well_formed(m, n2, p),
{
}

pub(crate) proof fn lemma_lookup_bound(signals: Seq<(Seq<char>, usize)>, name: Seq<char>, n: nat)
    requires
        forall|j: int| 0 <= j < signals.len() ==> (#[trigger] signals[j]).1 < n,
    ensures
        lookup_signal(signals, name) matches Some(i) ==> i < n,
    decreases signals.len(),
{
    if signals.len() > 0 {
        assert(signals.last() == signals[signals.len() - 1]);
        let rest = signals.drop_last();
        assert forall|j: int| 0 <= j < rest.len() implies (#[trigger] rest[j]).1 < n by {
            assert(rest[j] == signals[j]);
        }
        lemma_lookup_bound(rest, name, n);
    }
}

proof fn lemma_add_well_formed(a: Map<usize, nat>, b: Map<usize, nat>, n: nat, p: nat)
    requires
        p > 0,
        lc_well_formed(a, n, p),
        lc_well_formed(b, n, p),
    ensures
        lc_well_formed(spec_lc_add(a, b, p), n, p),
{
}

pub(crate) proof fn lemma_sub_well_formed(a: Map<usize, nat>, b: Map<usize, nat>, n: nat, p: nat)
    requires
        p > 0,
        lc_well_formed(a, n, p),
        lc_well_formed(b, n, p),
    ensures
        lc_well_formed(lc_sub(a, b, p), n, p),
{
    let nb = spec_lc_neg(b, p);
    assert forall|k: usize| #[trigger] nb.contains_key(k) implies k < n && 0 < nb[k] < p by {
        assert(nb[k] == neg_coeff(b[k], p));
    }
    lemma_add_well_formed(a, nb, n, p);
}

proof fn lemma_var_well_formed(i: usize, n: nat, p: nat)
    requires
        i < n,
        p >= 2,
    ensures
        lc_well_formed(var_lc(i), n, p),
{
}

/// A system stays well formed when a variable is added.
proof fn lemma_with_variable_well_formed(st: FlatState, name: Seq<char>, p: nat)
    requires
        state_well_formed(st, p),
    ensures
        state_well_formed(with_variable(st, name), p),
        with_variable(st, name).sys.num_variables == st.sys.num_variables + 1,
{
    let s1 = with_variable(st, name);
    assert(s1.sys.variable_names[0] == st.sys.variable_names[0]);
    assert forall|i: int| 0 <= i < s1.sys.constraints.len() implies constraint_well_formed(
        #[trigger] s1.sys.constraints[i],
        s1.sys.num_variables,
        p,
    ) by {
        let c = s1.sys.constraints[i];
        assert(constraint_well_formed(st.sys.constraints[i], st.sys.num_variables, p));
        lemma_lc_grow(c.a, st.sys.num_variables, s1.sys.num_variables, p);
        lemma_lc_grow(c.b, st.sys.num_variables, s1.sys.num_variables, p);
        lemma_lc_grow(c.c, st.sys.num_variables, s1.sys.num_variables, p);
    }
}

/// Appending a well-formed constraint keeps a state well formed.
proof fn lemma_with_constraint_well_formed(
    st: FlatState,
    a: Map<usize, nat>,
    b: Map<usize, nat>,
    c: Map<usize, nat>,
    p: nat,
)
    requires
        state_well_formed(st, p),
        constraint_well_formed(SpecConstraint { a, b, c }, st.sys.num_variables, p),
    ensures
        state_well_formed(with_constraint(st, a, b, c), p),
{
    let s1 = with_constraint(st, a, b, c);
    assert forall|i: int| 0 <= i < s1.sys.constraints.len() implies constraint_well_formed(
        #[trigger] s1.sys.constraints[i],
        s1.sys.num_variables,
        p,
    ) by {
        if i < st.sys.constraints.len() {
            assert(s1.sys.constraints[i] == st.sys.constraints[i]);
        }
    }
}

/// Flattening an expression keeps the state well formed, never shrinks the
/// variables, and gives a well-formed combination.
pub(crate) proof fn lemma_flat_expr_well_formed(st: FlatState, e: SpecExpr, p: nat)
    requires
        p >= 2,
        state_well_formed(st, p),
    ensures
        flat_expr(st, e, p) matches Ok((s1, l)) ==> {
            &&& state_well_formed(s1, p)
            &&& st.sys.num_variables <= s1.sys.num_variables
            &&& s1.signals == st.signals
            &&& s1.bools == st.bools
            &&& lc_well_formed(l, s1.sys.num_variables, p)
        },
    decreases e,
{
    let n = st.sys.num_variables;
    match e {
        SpecExpr::Const(v) => {
            assert(v % p < p);
        },
        SpecExpr::Var(name) => {
            lemma_lookup_bound(st.signals, name, n);
        },
        SpecExpr::Add(a, b) | SpecExpr::Sub(a, b) | SpecExpr::Mul(a, b) => {
            lemma_flat_expr_well_formed(st, *a, p);
            if let Ok((s1, la)) = flat_expr(st, *a, p) {
                lemma_flat_expr_well_formed(s1, *b, p);
                if let Ok((s2, lb)) = flat_expr(s1, *b, p) {
                    let n2 = s2.sys.num_variables;
                    lemma_lc_grow(la, s1.sys.num_variables, n2, p);
                    lemma_add_well_formed(la, lb, n2, p);
                    lemma_sub_well_formed(la, lb, n2, p);
                    let t = next_index(s2);
                    let s3 = with_temp(s2);
                    lemma_with_variable_well_formed(
                        FlatState { temps: s2.temps + 1, ..s2 },
                        crate::flattener::temp_name(s2.temps + 1),
                        p,
                    );
                    lemma_lc_grow(la, n2, n2 + 1, p);
                    lemma_lc_grow(lb, n2, n2 + 1, p);
                    lemma_var_well_formed(t, n2 + 1, p);
                    lemma_with_constraint_well_formed(s3, la, lb, var_lc(t), p);
                }
            }
        },
        SpecExpr::Neg(a) => {
            lemma_flat_expr_well_formed(st, *a, p);
            if let Ok((s1, la)) = flat_expr(st, *a, p) {
                let n1 = s1.sys.num_variables;
                let t = next_index(s1);
                let s2 = with_temp(s1);
                lemma_with_variable_well_formed(
                    FlatState { temps: s1.temps + 1, ..s1 },
                    crate::flattener::temp_name(s1.temps + 1),
                    p,
                );
                lemma_lc_grow(la, n1, n1 + 1, p);
                lemma_sub_well_formed(Map::empty(), la, n1 + 1, p);
                lemma_var_well_formed(0, n1 + 1, p);
                assert(one_lc() == var_lc(0));
                lemma_var_well_formed(t, n1 + 1, p);
                lemma_with_constraint_well_formed(
                    s2,
                    lc_sub(Map::empty(), la, p),
                    one_lc(),
                    var_lc(t),
                    p,
                );
            }
        },
    }
}

/// A branch of a conditional keeps the state well formed.
pub(crate) proof fn lemma_flat_guarded_well_formed(
    st: FlatState,
    body: SpecStatement,
    guard: Map<usize, nat>,
    bad: Seq<char>,
    p: nat,
)
    requires
        p >= 2,
        state_well_formed(st, p),
        lc_well_formed(guard, st.sys.num_variables, p),
    ensures
        flat_guarded(st, body, guard, bad, p) matches Ok(s1) ==> state_well_formed(s1, p)
            && st.sys.num_variables <= s1.sys.num_variables && s1.signals == st.signals
            && s1.bools == st.bools,
{
    match body {
        SpecStatement::Assign(target, value) => {
            lemma_lookup_bound(st.signals, target, st.sys.num_variables);
            lemma_flat_expr_well_formed(st, value, p);
            if let (Some(t), Ok((s1, lv))) = (lookup_signal(st.signals, target), flat_expr(st, value, p)) {
                let n1 = s1.sys.num_variables;
                lemma_var_well_formed(t, n1, p);
                lemma_sub_well_formed(lv, var_lc(t), n1, p);
                lemma_lc_grow(guard, st.sys.num_variables, n1, p);
                lemma_with_constraint_well_formed(s1, lc_sub(lv, var_lc(t), p), guard, Map::empty(), p);
            }
        },
        SpecStatement::Constraint(lhs, rhs) => {
            lemma_flat_expr_well_formed(st, lhs, p);
            if let Ok((s1, ll)) = flat_expr(st, lhs, p) {
                lemma_flat_expr_well_formed(s1, rhs, p);
                if let Ok((s2, lr)) = flat_expr(s1, rhs, p) {
                    let n2 = s2.sys.num_variables;
                    lemma_lc_grow(ll, s1.sys.num_variables, n2, p);
                    lemma_sub_well_formed(ll, lr, n2, p);
                    lemma_lc_grow(guard, st.sys.num_variables, n2, p);
                    lemma_with_constraint_well_formed(s2, lc_sub(ll, lr, p), guard, Map::empty(), p);
                }
            }
        },
        _ => {},
    }
}

/// Constraining a flag keeps the state well formed.
pub(crate) proof fn lemma_enforce_bool_well_formed(st: FlatState, name: Seq<char>, p: nat)
    requires
        p >= 2,
        state_well_formed(st, p),
    ensures
        enforce_bool(st, name, p) matches Ok(s1) ==> state_well_formed(s1, p) && s1.sys.num_variables
            == st.sys.num_variables && s1.signals == st.signals,
{
    if !st.bools.contains(name) {
        let n = st.sys.num_variables;
        lemma_lookup_bound(st.signals, name, n);
        if let Some(i) = lookup_signal(st.signals, name) {
            let c = bool_constraint(i, p);
            lemma_var_well_formed(i, n, p);
            lemma_var_well_formed(0, n, p);
            assert(one_lc() == var_lc(0));
            lemma_sub_well_formed(one_lc(), var_lc(i), n, p);
            lemma_with_constraint_well_formed(st, c.a, c.b, c.c, p);
        }
    }
}

/// Flattening one statement keeps the state well formed (so the conditions
/// of `lemma_flat_stmt_sound` carry from one statement to the next).
pub proof fn lemma_flat_stmt_well_formed(st: FlatState, s: SpecStatement, p: nat)
    requires
        p >= 2,
        state_well_formed(st, p),
    ensures
        flat_stmt(st, s, p) matches Ok(s1) ==> state_well_formed(s1, p),
{
    let n = st.sys.num_variables;
    match s {
        SpecStatement::SignalDecl(kind, name) => {
            let i = next_index(st);
            let s1 = with_variable(st, name);
            lemma_with_variable_well_formed(st, name, p);
            let s2 = FlatState { signals: s1.signals.push((name, i)), ..s1 };
            assert forall|j: int| 0 <= j < s2.signals.len() implies (#[trigger] s2.signals[j]).1
                < s2.sys.num_variables by {
                if j < st.signals.len() {
                    assert(s2.signals[j] == st.signals[j]);
                }
            }
            assert(state_well_formed(s2, p));
            assert(state_well_formed(count_signal(s2, kind), p));
        },
        SpecStatement::Assign(target, value) => {
            lemma_lookup_bound(st.signals, target, n);
            match value {
                SpecExpr::Mul(a, b) => {
                    lemma_flat_expr_well_formed(st, *a, p);
                    if let Ok((s1, la)) = flat_expr(st, *a, p) {
                        lemma_flat_expr_well_formed(s1, *b, p);
                        if let (Some(t), Ok((s2, lb))) = (lookup_signal(st.signals, target), flat_expr(s1, *b, p)) {
                            let n2 = s2.sys.num_variables;
                            lemma_lc_grow(la, s1.sys.num_variables, n2, p);
                            lemma_var_well_formed(t, n2, p);
                            lemma_with_constraint_well_formed(s2, la, lb, var_lc(t), p);
                        }
                    }
                },
                _ => {
                    lemma_flat_expr_well_formed(st, value, p);
                    if let (Some(t), Ok((s1, lv))) = (lookup_signal(st.signals, target), flat_expr(st, value, p)) {
                        let n1 = s1.sys.num_variables;
                        lemma_var_well_formed(t, n1, p);
                        lemma_var_well_formed(0, n1, p);
                        assert(one_lc() == var_lc(0));
                        lemma_with_constraint_well_formed(s1, lv, one_lc(), var_lc(t), p);
                    }
                },
            }
        },
        SpecStatement::Constraint(lhs, rhs) => {
            lemma_flat_expr_well_formed(st, lhs, p);
            if let Ok((s1, ll)) = flat_expr(st, lhs, p) {
                lemma_flat_expr_well_formed(s1, rhs, p);
                if let Ok((s2, lr)) = flat_expr(s1, rhs, p) {
                    let n2 = s2.sys.num_variables;
                    lemma_lc_grow(ll, s1.sys.num_variables, n2, p);
                    lemma_sub_well_formed(ll, lr, n2, p);
                    lemma_var_well_formed(0, n2, p);
                    assert(one_lc() == var_lc(0));
                    lemma_with_constraint_well_formed(s2, lc_sub(ll, lr, p), one_lc(), Map::empty(), p);
                }
            }
        },
        SpecStatement::AssertBool(name) => {
            lemma_enforce_bool_well_formed(st, name, p);
        },
        SpecStatement::Conditional(cond, then_stmt, else_stmt) => {
            lemma_enforce_bool_well_formed(st, cond, p);
            if let Ok(s1) = enforce_bool(st, cond, p) {
                let n1 = s1.sys.num_variables;
                lemma_lookup_bound(s1.signals, cond, n1);
                if let Some(ci) = lookup_signal(s1.signals, cond) {
                    lemma_var_well_formed(ci, n1, p);
                    lemma_flat_guarded_well_formed(s1, *then_stmt, var_lc(ci), bad_then_message(), p);
                    if let Ok(s2) = flat_guarded(s1, *then_stmt, var_lc(ci), bad_then_message(), p) {
                        if let Some(e) = else_stmt {
                            let n2 = s2.sys.num_variables;
                            lemma_var_well_formed(ci, n2, p);
                            lemma_var_well_formed(0, n2, p);
                            assert(one_lc() == var_lc(0));
                            lemma_sub_well_formed(one_lc(), var_lc(ci), n2, p);
                            lemma_flat_guarded_well_formed(
                                s2,
                                *e,
                                lc_sub(one_lc(), var_lc(ci), p),
                                bad_else_message(),
                                p,
                            );
                        }
                    }
                }
            }
        },
    }
}

/// Flattening statements one after another keeps the state well formed.
proof fn lemma_flat_stmts_well_formed(st: FlatState, stmts: Seq<SpecStatement>, p: nat)
    requires
        p >= 2,
        state_well_formed(st, p),
    ensures
        flat_stmts(st, stmts, p) matches Ok(s1) ==> state_well_formed(s1, p),
    decreases stmts.len(),
{
    if stmts.len() > 0 {
        lemma_flat_stmts_well_formed(st, stmts.drop_last(), p);
        if let Ok(s) = flat_stmts(st, stmts.drop_last(), p) {
            lemma_flat_stmt_well_formed(s, stmts.last(), p);
        }
    }
}

/// Every system that flattening produces over a modulus `p >= 2` is well
/// formed: it is over `p`, names its variables with `~one` first, counts
/// its declared signals among its other variables, and each term of each
/// constraint names one of its variables with a coefficient in `[1, p)`.
pub proof fn lemma_flatten_well_formed(stmts: Seq<SpecStatement>, p: nat)
    requires
        p >= 2,
    ensures
        spec_flatten(stmts, p) matches Ok(m) ==> system_well_formed(m, p),
{
    let st = initial_state(p);
    assert(state_well_formed(st, p));
    lemma_flat_stmts_well_formed(st, stmts, p);
}

} // verus!
