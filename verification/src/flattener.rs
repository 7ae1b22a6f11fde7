//! Flattening a program into rank-1 constraints `a * b = c`.
//!
//! Each multiplication and each negation gets a fresh variable `$tmpN`;
//! additions and subtractions stay inside linear combinations.

use vstd::prelude::*;

use crate::ast::{Expr, Program, SignalKind, SpecExpr, SpecStatement, Statement};
use crate::error::CompileError;
use crate::natural::{decimal_text, usize_to_decimal, Natural};
use crate::r1cs::{
    coeffs_bounded, lemma_lc_add_bounded, lemma_lc_neg_bounded, one_wire_name, spec_lc_add,
    spec_lc_neg, LinearCombination, R1csSystem, SpecConstraint, SystemModel,
};

verus! {

/// The model of the compiler's state while it flattens a program.
pub ghost struct FlatState {
    /// The constraint system built so far.
    pub sys: SystemModel,
    /// Each declared signal with its variable index, in order of declaration.
    pub signals: Seq<(Seq<char>, usize)>,
    /// The signals that already carry a boolean constraint.
    pub bools: Seq<Seq<char>>,
    /// How many temporaries have been allocated.
    pub temps: nat,
}

/// The variable of the latest declaration of `name`.
pub open spec fn lookup_signal(signals: Seq<(Seq<char>, usize)>, name: Seq<char>) -> Option<usize>
    decreases signals.len(),
{
    if signals.len() == 0 {
        None
    } else if signals.last().0 == name {
        Some(signals.last().1)
    } else {
        lookup_signal(signals.drop_last(), name)
    }
}

/// The combination `1 * v_i`.
pub open spec fn var_lc(i: usize) -> Map<usize, nat> {
    map![i => 1nat]
}

/// The combination holding just the constant one.
pub open spec fn one_lc() -> Map<usize, nat> {
    map![0usize => 1nat]
}

/// The constant `v` (no entry when `v` is zero).
pub open spec fn const_lc(v: nat) -> Map<usize, nat> {
    if v == 0 {
        Map::empty()
    } else {
        map![0usize => v]
    }
}

/// `a - b` as `LinearCombination::sub` computes it.
pub open spec fn lc_sub(a: Map<usize, nat>, b: Map<usize, nat>, p: nat) -> Map<usize, nat> {
    spec_lc_add(a, spec_lc_neg(b, p), p)
}

/// The error text for a use of an undeclared signal.
pub open spec fn undefined_signal_message(name: Seq<char>) -> Seq<char> {
    "undefined signal: "@ + name
}

/// The error text for a conditional whose `then` branch is not an assignment or constraint.
pub open spec fn bad_then_message() -> Seq<char> {
    "conditional body must be an assignment or constraint"@
}

/// The error text for a conditional whose `else` branch is not an assignment or constraint.
pub open spec fn bad_else_message() -> Seq<char> {
    "conditional else body must be an assignment or constraint"@
}

/// The name of the `n`-th temporary.
pub open spec fn temp_name(n: nat) -> Seq<char> {
    "$tmp"@ + decimal_text(n)
}

/// `st` with one more variable, called `name`.
pub open spec fn with_variable(st: FlatState, name: Seq<char>) -> FlatState {
    FlatState {
        sys: SystemModel {
            num_variables: st.sys.num_variables + 1,
            variable_names: st.sys.variable_names.push(name),
            ..st.sys
        },
        ..st
    }
}

/// `st` with the constraint `a * b = c` appended.
pub open spec fn with_constraint(
    st: FlatState,
    a: Map<usize, nat>,
    b: Map<usize, nat>,
    c: Map<usize, nat>,
) -> FlatState {
    FlatState {
        sys: SystemModel {
            constraints: st.sys.constraints.push(SpecConstraint { a, b, c }),
            ..st.sys
        },
        ..st
    }
}

/// The index of the next variable to allocate.
pub open spec fn next_index(st: FlatState) -> usize {
    st.sys.num_variables as usize
}

/// `st` with a fresh temporary allocated (its index is `next_index(st)`).
pub open spec fn with_temp(st: FlatState) -> FlatState {
    with_variable(FlatState { temps: st.temps + 1, ..st }, temp_name(st.temps + 1))
}

/// Flattening an expression: the state after it and the linear combination
/// that stands for its value, or the message of the error it ends in.
pub open spec fn flat_expr(st: FlatState, e: SpecExpr, p: nat) -> Result<
    (FlatState, Map<usize, nat>),
    Seq<char>,
>
    decreases e,
{
    match e {
        SpecExpr::Const(n) => Ok((st, const_lc(n % p))),
        SpecExpr::Var(name) => match lookup_signal(st.signals, name) {
            Some(i) => Ok((st, var_lc(i))),
            None => Err(undefined_signal_message(name)),
        },
        SpecExpr::Add(a, b) => match flat_expr(st, *a, p) {
            Err(m) => Err(m),
            Ok((s1, la)) => match flat_expr(s1, *b, p) {
                Err(m) => Err(m),
                Ok((s2, lb)) => Ok((s2, spec_lc_add(la, lb, p))),
            },
        },
        SpecExpr::Sub(a, b) => match flat_expr(st, *a, p) {
            Err(m) => Err(m),
            Ok((s1, la)) => match flat_expr(s1, *b, p) {
                Err(m) => Err(m),
                Ok((s2, lb)) => Ok((s2, lc_sub(la, lb, p))),
            },
        },
        SpecExpr::Mul(a, b) => match flat_expr(st, *a, p) {
            Err(m) => Err(m),
            Ok((s1, la)) => match flat_expr(s1, *b, p) {
                Err(m) => Err(m),
                Ok((s2, lb)) => {
                    let t = next_index(s2);
                    Ok((with_constraint(with_temp(s2), la, lb, var_lc(t)), var_lc(t)))
                },
            },
        },
        SpecExpr::Neg(a) => match flat_expr(st, *a, p) {
            Err(m) => Err(m),
            Ok((s1, la)) => {
                let t = next_index(s1);
                Ok(
                    (
                        with_constraint(
                            with_temp(s1),
                            lc_sub(Map::empty(), la, p),
                            one_lc(),
                            var_lc(t),
                        ),
                        var_lc(t),
                    ),
                )
            },
        },
    }
}

/// How many variables flattening `e` allocates.
pub open spec fn expr_allocs(e: SpecExpr) -> nat
    decreases e,
{
    match e {
        SpecExpr::Const(_) => 0,
        SpecExpr::Var(_) => 0,
        SpecExpr::Add(a, b) => expr_allocs(*a) + expr_allocs(*b),
        SpecExpr::Sub(a, b) => expr_allocs(*a) + expr_allocs(*b),
        SpecExpr::Mul(a, b) => expr_allocs(*a) + expr_allocs(*b) + 1,
        SpecExpr::Neg(a) => expr_allocs(*a) + 1,
    }
}

/// The boolean constraint `v * (1 - v) = 0` for variable `i`.
pub open spec fn bool_constraint(i: usize, p: nat) -> SpecConstraint {
    SpecConstraint { a: var_lc(i), b: lc_sub(one_lc(), var_lc(i), p), c: Map::empty() }
}

/// Constraining `name` to be 0 or 1, once: a name that already carries the
/// constraint is left alone.
pub open spec fn enforce_bool(st: FlatState, name: Seq<char>, p: nat) -> Result<FlatState, Seq<char>> {
    if st.bools.contains(name) {
        Ok(st)
    } else {
        match lookup_signal(st.signals, name) {
            None => Err(undefined_signal_message(name)),
            Some(i) => {
                let c = bool_constraint(i, p);
                let s1 = with_constraint(st, c.a, c.b, c.c);
                Ok(FlatState { bools: s1.bools.push(name), ..s1 })
            },
        }
    }
}

/// A branch of a conditional, guarded by `guard`: `(value - target) * guard = 0`
/// or `(lhs - rhs) * guard = 0`; anything else is an error with `bad`.
pub open spec fn flat_guarded(
    st: FlatState,
    body: SpecStatement,
    guard: Map<usize, nat>,
    bad: Seq<char>,
    p: nat,
) -> Result<FlatState, Seq<char>> {
    match body {
        SpecStatement::Assign(target, value) => match lookup_signal(st.signals, target) {
            None => Err(undefined_signal_message(target)),
            Some(t) => match flat_expr(st, value, p) {
                Err(m) => Err(m),
                Ok((s1, lv)) => Ok(with_constraint(s1, lc_sub(lv, var_lc(t), p), guard, Map::empty())),
            },
        },
        SpecStatement::Constraint(lhs, rhs) => match flat_expr(st, lhs, p) {
            Err(m) => Err(m),
            Ok((s1, ll)) => match flat_expr(s1, rhs, p) {
                Err(m) => Err(m),
                Ok((s2, lr)) => Ok(with_constraint(s2, lc_sub(ll, lr, p), guard, Map::empty())),
            },
        },
        _ => Err(bad),
    }
}

/// How many variables flattening a conditional branch allocates.
pub open spec fn guarded_allocs(body: SpecStatement) -> nat {
    match body {
        SpecStatement::Assign(_, value) => expr_allocs(value),
        SpecStatement::Constraint(lhs, rhs) => expr_allocs(lhs) + expr_allocs(rhs),
        _ => 0,
    }
}

/// `st` after a declaration of kind `kind` has been counted.
pub open spec fn count_signal(st: FlatState, kind: SignalKind) -> FlatState {
    match kind {
        SignalKind::Input => FlatState {
            sys: SystemModel { num_public_inputs: st.sys.num_public_inputs + 1, ..st.sys },
            ..st
        },
        SignalKind::Output => FlatState {
            sys: SystemModel { num_public_outputs: st.sys.num_public_outputs + 1, ..st.sys },
            ..st
        },
        SignalKind::Intermediate => FlatState {
            sys: SystemModel { num_private_inputs: st.sys.num_private_inputs + 1, ..st.sys },
            ..st
        },
    }
}

/// Flattening one statement.
pub open spec fn flat_stmt(st: FlatState, s: SpecStatement, p: nat) -> Result<FlatState, Seq<char>> {
    match s {
        SpecStatement::SignalDecl(kind, name) => {
            let i = next_index(st);
            let s1 = with_variable(st, name);
            Ok(count_signal(FlatState { signals: s1.signals.push((name, i)), ..s1 }, kind))
        },
        SpecStatement::Assign(target, value) => match lookup_signal(st.signals, target) {
            None => Err(undefined_signal_message(target)),
            Some(t) => match value {
                SpecExpr::Mul(a, b) => match flat_expr(st, *a, p) {
                    Err(m) => Err(m),
                    Ok((s1, la)) => match flat_expr(s1, *b, p) {
                        Err(m) => Err(m),
                        Ok((s2, lb)) => Ok(with_constraint(s2, la, lb, var_lc(t))),
                    },
                },
                _ => match flat_expr(st, value, p) {
                    Err(m) => Err(m),
                    Ok((s1, lv)) => Ok(with_constraint(s1, lv, one_lc(), var_lc(t))),
                },
            },
        },
        SpecStatement::Constraint(lhs, rhs) => match flat_expr(st, lhs, p) {
            Err(m) => Err(m),
            Ok((s1, ll)) => match flat_expr(s1, rhs, p) {
                Err(m) => Err(m),
                Ok((s2, lr)) => Ok(with_constraint(s2, lc_sub(ll, lr, p), one_lc(), Map::empty())),
            },
        },
        SpecStatement::AssertBool(name) => enforce_bool(st, name, p),
        SpecStatement::Conditional(cond, then_stmt, else_stmt) => match enforce_bool(st, cond, p) {
            Err(m) => Err(m),
            Ok(s1) => match lookup_signal(s1.signals, cond) {
                None => Err(undefined_signal_message(cond)),
                Some(ci) => match flat_guarded(s1, *then_stmt, var_lc(ci), bad_then_message(), p) {
                    Err(m) => Err(m),
                    Ok(s2) => match else_stmt {
                        None => Ok(s2),
                        Some(e) => flat_guarded(
                            s2,
                            *e,
                            lc_sub(one_lc(), var_lc(ci), p),
                            bad_else_message(),
                            p,
                        ),
                    },
                },
            },
        },
    }
}

/// How many variables flattening a statement allocates.
pub open spec fn stmt_allocs(s: SpecStatement) -> nat {
    match s {
        SpecStatement::SignalDecl(_, _) => 1,
        SpecStatement::Assign(_, value) => match value {
            SpecExpr::Mul(a, b) => expr_allocs(*a) + expr_allocs(*b),
            _ => expr_allocs(value),
        },
        SpecStatement::Constraint(lhs, rhs) => expr_allocs(lhs) + expr_allocs(rhs),
        SpecStatement::AssertBool(_) => 0,
        SpecStatement::Conditional(_, t, e) => guarded_allocs(*t) + match e {
            Some(e) => guarded_allocs(*e),
            None => 0,
        },
    }
}

/// How many variables flattening a sequence of statements allocates.
pub open spec fn program_allocs(stmts: Seq<SpecStatement>) -> nat
    decreases stmts.len(),
{
    if stmts.len() == 0 {
        0
    } else {
        program_allocs(stmts.drop_last()) + stmt_allocs(stmts.last())
    }
}

/// Flattening statements one after another from `st`.
pub open spec fn flat_stmts(st: FlatState, stmts: Seq<SpecStatement>, p: nat) -> Result<
    FlatState,
    Seq<char>,
>
    decreases stmts.len(),
{
    if stmts.len() == 0 {
        Ok(st)
    } else {
        match flat_stmts(st, stmts.drop_last(), p) {
            Err(m) => Err(m),
            Ok(s) => flat_stmt(s, stmts.last(), p),
        }
    }
}

/// The state before the first statement: only the wire `~one`.
pub open spec fn initial_state(p: nat) -> FlatState {
    FlatState {
        sys: SystemModel {
            prime: p,
            num_variables: 1,
            num_public_inputs: 0,
            num_public_outputs: 0,
            num_private_inputs: 0,
            constraints: Seq::empty(),
            variable_names: seq![one_wire_name()],
        },
        signals: Seq::empty(),
        bools: Seq::empty(),
        temps: 0,
    }
}

/// The constraint system of a program over the field of order `p`, or the
/// message of the error that flattening it ends in.
pub open spec fn spec_flatten(stmts: Seq<SpecStatement>, p: nat) -> Result<SystemModel, Seq<char>> {
    match flat_stmts(initial_state(p), stmts, p) {
        Ok(st) => Ok(st.sys),
        Err(m) => Err(m),
    }
}

/// Whether `r` is the compile error `R1csError` with message `m`.
pub open spec fn is_r1cs_error(r: CompileError, m: Seq<char>) -> bool {
    r matches CompileError::R1csError { message } && message@ == m
}

/// The error for a use of the undeclared signal `name`.
fn undefined_signal(name: &String) -> (r: CompileError)
    ensures
        is_r1cs_error(r, undefined_signal_message(name@)),
{
    let mut message = String::from_str("undefined signal: ");
    message.append(name.as_str());
    CompileError::R1csError { message }
}

struct Flattener {
    system: R1csSystem,
    signal_map: Vec<(String, usize)>,
    bool_constrained: Vec<String>,
    temp_counter: usize,
}

impl Flattener {
    spec fn model(&self) -> FlatState {
        FlatState {
            sys: self.system.model(),
            signals: self.signal_map@.map_values(|e: (String, usize)| (e.0@, e.1)),
            bools: self.bool_constrained@.map_values(|s: String| s@),
            temps: self.temp_counter as nat,
        }
    }

    /// The prime is non-zero, and every variable but `~one` is a declared
    /// signal or a temporary.
    spec fn wf(&self) -> bool {
        &&& self.system.prime@ > 0
        &&& self.system.num_public_inputs + self.system.num_public_outputs
            + self.system.num_private_inputs + self.temp_counter + 1 == self.system.num_variables
    }

    fn new(prime: Natural) -> (r: Flattener)
        requires
            prime@ > 0,
        ensures
            r.model() == initial_state(prime@),
            r.wf(),
    {
        let r = Flattener {
            system: R1csSystem::new(prime),
            signal_map: Vec::new(),
            bool_constrained: Vec::new(),
            temp_counter: 0,
        };
        assert(r.model().signals =~= Seq::<(Seq<char>, usize)>::empty());
        assert(r.model().bools =~= Seq::<Seq<char>>::empty());
        r
    }

    fn lookup(&self, name: &String) -> (r: Option<usize>)
        ensures
            r == lookup_signal(self.model().signals, name@),
    {
        let ghost signals = self.model().signals;
        let mut i = self.signal_map.len();
        assert(signals.take(i as int) =~= signals);
        while i > 0
            invariant
                i <= self.signal_map@.len(),
                signals == self.model().signals,
                lookup_signal(signals, name@) == lookup_signal(signals.take(i as int), name@),
            decreases i,
        {
            assert(signals.take(i as int).drop_last() =~= signals.take(i - 1));
            i = i - 1;
            if self.signal_map[i].0 == *name {
                return Some(self.signal_map[i].1);
            }
        }
        None
    }

    fn is_bool_constrained(&self, name: &String) -> (r: bool)
        ensures
            r == self.model().bools.contains(name@),
    {
        let ghost bools = self.model().bools;
        for i in 0..self.bool_constrained.len()
            invariant
                bools == self.model().bools,
                forall|j: int| 0 <= j < i ==> bools[j] != name@,
        {
            if self.bool_constrained[i] == *name {
                assert(bools[i as int] == name@);
                return true;
            }
        }
        false
    }

    fn fresh_temp(&mut self) -> (idx: usize)
        requires
            old(self).wf(),
            old(self).system.num_variables < usize::MAX,
        ensures
            final(self).wf(),
            idx == next_index(old(self).model()),
            final(self).model() == with_temp(old(self).model()),
    {
        self.temp_counter = self.temp_counter + 1;
        let mut name = String::from_str("$tmp");
        let digits = usize_to_decimal(self.temp_counter);
        name.append(digits.as_str());
        let idx = self.system.allocate_variable(name.as_str());
        assert(self.model().signals =~= old(self).model().signals);
        assert(self.model().bools =~= old(self).model().bools);
        idx
    }

    fn flatten_expr(&mut self, expr: &Expr) -> (r: Result<LinearCombination, CompileError>)
        requires
            old(self).wf(),
            old(self).system.num_variables + expr_allocs(expr.model()) < usize::MAX,
        ensures
            final(self).wf(),
            final(self).system.prime@ == old(self).system.prime@,
            match flat_expr(old(self).model(), expr.model(), old(self).system.prime@) {
                Ok((st, lc)) => r matches Ok(l) && l.coeffs() == lc && final(self).model() == st
                    && l.coeffs_at_most(old(self).system.prime@)
                    && final(self).system.num_variables == old(self).system.num_variables
                    + expr_allocs(expr.model()),
                Err(m) => r matches Err(e) && is_r1cs_error(e, m),
            },
        decreases expr,
    {
        let ghost p = self.system.prime@;
        match expr {
            Expr::Const(n) => {
                let reduced = n.rem(&self.system.prime);
                let lc = LinearCombination::from_constant(reduced);
                Ok(lc)
            },
            Expr::Var(name) => {
                match self.lookup(name) {
                    Some(idx) => Ok(LinearCombination::from_var(idx)),
                    None => Err(undefined_signal(name)),
                }
            },
            Expr::Add(a, b) => {
                let lc_a = match self.flatten_expr(a) {
                    Ok(v) => v,
                    Err(e) => return Err(e),
                };
                let lc_b = match self.flatten_expr(b) {
                    Ok(v) => v,
                    Err(e) => return Err(e),
                };
                proof {
                    lemma_lc_add_bounded(lc_a.coeffs(), lc_b.coeffs(), p);
                }
                Ok(lc_a.add(&lc_b, &self.system.prime))
            },
            Expr::Sub(a, b) => {
                let lc_a = match self.flatten_expr(a) {
                    Ok(v) => v,
                    Err(e) => return Err(e),
                };
                let lc_b = match self.flatten_expr(b) {
                    Ok(v) => v,
                    Err(e) => return Err(e),
                };
                proof {
                    lemma_lc_neg_bounded(lc_b.coeffs(), p);
                    lemma_lc_add_bounded(lc_a.coeffs(), spec_lc_neg(lc_b.coeffs(), p), p);
                }
                Ok(lc_a.sub(&lc_b, &self.system.prime))
            },
            Expr::Mul(a, b) => {
                let lc_a = match self.flatten_expr(a) {
                    Ok(v) => v,
                    Err(e) => return Err(e),
                };
                let lc_b = match self.flatten_expr(b) {
                    Ok(v) => v,
                    Err(e) => return Err(e),
                };
                let tmp_idx = self.fresh_temp();
                let lc_result = LinearCombination::from_var(tmp_idx);
                self.system.add_constraint(lc_a, lc_b, LinearCombination::from_var(tmp_idx));
                Ok(lc_result)
            },
            Expr::Neg(a) => {
                let lc_a = match self.flatten_expr(a) {
                    Ok(v) => v,
                    Err(e) => return Err(e),
                };
                let zero = LinearCombination::new();
                let neg_lc = zero.sub(&lc_a, &self.system.prime);
                let tmp_idx = self.fresh_temp();
                let lc_result = LinearCombination::from_var(tmp_idx);
                let one_lc = LinearCombination::from_constant(Natural::one());
                self.system.add_constraint(neg_lc, one_lc, LinearCombination::from_var(tmp_idx));
                Ok(lc_result)
            },
        }
    }

    fn enforce_boolean(&mut self, name: &String) -> (r: Result<(), CompileError>)
        requires
            old(self).wf(),
        ensures
            final(self).wf(),
            final(self).system.prime@ == old(self).system.prime@,
            final(self).system.num_variables == old(self).system.num_variables,
            match enforce_bool(old(self).model(), name@, old(self).system.prime@) {
                Ok(st) => r is Ok && final(self).model() == st,
                Err(m) => r matches Err(e) && is_r1cs_error(e, m),
            },
    {
        if self.is_bool_constrained(name) {
            return Ok(());
        }
        let idx = match self.lookup(name) {
            Some(i) => i,
            None => return Err(undefined_signal(name)),
        };
        let lc = LinearCombination::from_var(idx);
        let one_lc = LinearCombination::from_constant(Natural::one());
        let one_minus_lc = one_lc.sub(&lc, &self.system.prime);
        let zero_lc = LinearCombination::new();
        self.system.add_constraint(lc, one_minus_lc, zero_lc);
        self.bool_constrained.push(name.clone());
        assert(self.model().bools =~= old(self).model().bools.push(name@));
        Ok(())
    }

    fn flatten_guarded(
        &mut self,
        body: &Statement,
        guard: LinearCombination,
        is_else: bool,
    ) -> (r: Result<(), CompileError>)
        requires
            old(self).wf(),
            old(self).system.num_variables + guarded_allocs(body.model()) < usize::MAX,
        ensures
            final(self).wf(),
            final(self).system.prime@ == old(self).system.prime@,
            match flat_guarded(
                old(self).model(),
                body.model(),
                guard.coeffs(),
                if is_else { bad_else_message() } else { bad_then_message() },
                old(self).system.prime@,
            ) {
                Ok(st) => r is Ok && final(self).model() == st && final(self).system.num_variables
                    == old(self).system.num_variables + guarded_allocs(body.model()),
                Err(m) => r matches Err(e) && is_r1cs_error(e, m),
            },
    {
        match body {
            Statement::Assign { target, value } => {
                let target_idx = match self.lookup(target) {
                    Some(i) => i,
                    None => return Err(undefined_signal(target)),
                };
                let lc_value = match self.flatten_expr(value) {
                    Ok(v) => v,
                    Err(e) => return Err(e),
                };
                let lc_target = LinearCombination::from_var(target_idx);
                proof {
                    assert(coeffs_bounded(lc_target.coeffs(), self.system.prime@));
                }
                let diff = lc_value.sub(&lc_target, &self.system.prime);
                let zero_lc = LinearCombination::new();
                self.system.add_constraint(diff, guard, zero_lc);
                Ok(())
            },
            Statement::Constraint { lhs, rhs } => {
                let lc_lhs = match self.flatten_expr(lhs) {
                    Ok(v) => v,
                    Err(e) => return Err(e),
                };
                let lc_rhs = match self.flatten_expr(rhs) {
                    Ok(v) => v,
                    Err(e) => return Err(e),
                };
                let diff = lc_lhs.sub(&lc_rhs, &self.system.prime);
                let zero_lc = LinearCombination::new();
                self.system.add_constraint(diff, guard, zero_lc);
                Ok(())
            },
            _ => {
                let message = if is_else {
                    String::from_str("conditional else body must be an assignment or constraint")
                } else {
                    String::from_str("conditional body must be an assignment or constraint")
                };
                Err(CompileError::R1csError { message })
            },
        }
    }

    fn flatten_statement(&mut self, stmt: &Statement) -> (r: Result<(), CompileError>)
        requires
            old(self).wf(),
            old(self).system.num_variables + stmt_allocs(stmt.model()) < usize::MAX,
        ensures
            final(self).wf(),
            final(self).system.prime@ == old(self).system.prime@,
            match flat_stmt(old(self).model(), stmt.model(), old(self).system.prime@) {
                Ok(st) => r is Ok && final(self).model() == st && final(self).system.num_variables
                    == old(self).system.num_variables + stmt_allocs(stmt.model()),
                Err(m) => r matches Err(e) && is_r1cs_error(e, m),
            },
    {
        match stmt {
            Statement::SignalDecl(decl) => {
                let idx = self.system.allocate_variable(decl.name.as_str());
                self.signal_map.push((decl.name.clone(), idx));
                match decl.kind {
                    SignalKind::Input => self.system.num_public_inputs = self.system.num_public_inputs
                        + 1,
                    SignalKind::Output => self.system.num_public_outputs =
                        self.system.num_public_outputs + 1,
                    SignalKind::Intermediate => self.system.num_private_inputs =
                        self.system.num_private_inputs + 1,
                }
                assert(self.model().signals =~= old(self).model().signals.push((decl.name@, idx)));
                assert(self.model().bools =~= old(self).model().bools);
                Ok(())
            },
            Statement::Assign { target, value } => {
                let target_idx = match self.lookup(target) {
                    Some(i) => i,
                    None => return Err(undefined_signal(target)),
                };
                let lc_target = LinearCombination::from_var(target_idx);
                match value {
                    Expr::Mul(a, b) => {
                        let lc_a = match self.flatten_expr(a) {
                            Ok(v) => v,
                            Err(e) => return Err(e),
                        };
                        let lc_b = match self.flatten_expr(b) {
                            Ok(v) => v,
                            Err(e) => return Err(e),
                        };
                        self.system.add_constraint(lc_a, lc_b, lc_target);
                    },
                    _ => {
                        let lc_value = match self.flatten_expr(value) {
                            Ok(v) => v,
                            Err(e) => return Err(e),
                        };
                        let one_lc = LinearCombination::from_constant(Natural::one());
                        self.system.add_constraint(lc_value, one_lc, lc_target);
                    },
                }
                Ok(())
            },
            Statement::Constraint { lhs, rhs } => {
                let lc_lhs = match self.flatten_expr(lhs) {
                    Ok(v) => v,
                    Err(e) => return Err(e),
                };
                let lc_rhs = match self.flatten_expr(rhs) {
                    Ok(v) => v,
                    Err(e) => return Err(e),
                };
                let diff = lc_lhs.sub(&lc_rhs, &self.system.prime);
                let one_lc = LinearCombination::from_constant(Natural::one());
                let zero_lc = LinearCombination::new();
                self.system.add_constraint(diff, one_lc, zero_lc);
                Ok(())
            },
            Statement::AssertBool(name) => self.enforce_boolean(name),
            Statement::Conditional { condition, then_stmt, else_stmt } => {
                match self.enforce_boolean(condition) {
                    Ok(()) => {},
                    Err(e) => return Err(e),
                }
                let cond_idx = match self.lookup(condition) {
                    Some(i) => i,
                    None => return Err(undefined_signal(condition)),
                };
                let cond_lc = LinearCombination::from_var(cond_idx);
                match self.flatten_guarded(then_stmt, LinearCombination::from_var(cond_idx), false) {
                    Ok(()) => {},
                    Err(e) => return Err(e),
                }
                match else_stmt {
                    Some(else_s) => {
                        let one_lc = LinearCombination::from_constant(Natural::one());
                        proof {
                            assert(coeffs_bounded(cond_lc.coeffs(), self.system.prime@));
                        }
                        let neg_cond = one_lc.sub(&cond_lc, &self.system.prime);
                        self.flatten_guarded(else_s, neg_cond, true)
                    },
                    None => Ok(()),
                }
            },
        }
    }
}

/// Flattens `program` into a constraint system over the field of order `prime`.
pub fn flatten(program: &Program, prime: Natural) -> (r: Result<R1csSystem, CompileError>)
    requires
        prime@ > 0,
        1 + program_allocs(program.model()) < usize::MAX,
    ensures
        match spec_flatten(program.model(), prime@) {
            Ok(m) => r matches Ok(sys) && sys.model() == m,
            Err(m) => r matches Err(e) && is_r1cs_error(e, m),
        },
{
    let ghost p = prime@;
    let ghost stmts = program.model();
    let mut flattener = Flattener::new(prime);
    let n = program.statements.len();
    assert(stmts.take(0) =~= Seq::<SpecStatement>::empty());
    for i in 0..n
        invariant
            n == program.statements@.len(),
            stmts == program.model(),
            1 + program_allocs(stmts) < usize::MAX,
            flattener.wf(),
            flattener.system.prime@ == p,
            p == prime@,
            flat_stmts(initial_state(p), stmts.take(i as int), p) == Ok::<FlatState, Seq<char>>(flattener.model()),
            flattener.system.num_variables == 1 + program_allocs(stmts.take(i as int)),
    {
        proof {
            assert(stmts.take(i + 1).drop_last() =~= stmts.take(i as int));
            assert(stmts.take(i + 1).last() == stmts[i as int]);
            lemma_program_allocs_prefix(stmts, i + 1);
        }
        let ghost before = flattener.model();
        assert(program.statements@[i as int].model() == stmts[i as int]);
        match flattener.flatten_statement(&program.statements[i]) {
            Ok(()) => {},
            Err(e) => {
                proof {
                    assert(flat_stmts(initial_state(p), stmts.take(i + 1), p) == flat_stmt(before, stmts[i as int], p));
                    lemma_flat_stmts_error_persists(initial_state(p), stmts, i + 1, p);
                }
                return Err(e);
            },
        }
    }
    assert(stmts.take(n as int) =~= stmts);
    Ok(flattener.system)
}

/// Once flattening a prefix of the statements fails, flattening all of them
/// fails with the same message.
proof fn lemma_flat_stmts_error_persists(st: FlatState, stmts: Seq<SpecStatement>, k: int, p: nat)
    requires
        0 <= k <= stmts.len(),
        flat_stmts(st, stmts.take(k), p) is Err,
    ensures
        flat_stmts(st, stmts, p) == flat_stmts(st, stmts.take(k), p),
    decreases stmts.len() - k,
{
    if k < stmts.len() {
        assert(stmts.take(k + 1).drop_last() =~= stmts.take(k));
        lemma_flat_stmts_error_persists(st, stmts, k + 1, p);
    } else {
        assert(stmts.take(k) =~= stmts);
    }
}

/// The allocations of a prefix never exceed those of the whole sequence.
proof fn lemma_program_allocs_prefix(stmts: Seq<SpecStatement>, k: int)
    requires
        0 <= k <= stmts.len(),
    ensures
        program_allocs(stmts.take(k)) <= program_allocs(stmts),
    decreases stmts.len() - k,
{
    if k < stmts.len() {
        lemma_program_allocs_prefix(stmts, k + 1);
        assert(stmts.take(k + 1).drop_last() =~= stmts.take(k));
    } else {
        assert(stmts.take(k) =~= stmts);
    }
}

/// Whether `s1` is `st` with constraints appended and variables possibly
/// added, its signals and boolean flags unchanged.
pub open spec fn extends(st: FlatState, s1: FlatState) -> bool {
    &&& st.sys.constraints.len() <= s1.sys.constraints.len()
    &&& s1.sys.constraints.take(st.sys.constraints.len() as int) == st.sys.constraints
    &&& s1.signals == st.signals
    &&& s1.bools == st.bools
}

pub(crate) proof fn lemma_extends_trans(a: FlatState, b: FlatState, c: FlatState)
    requires
        extends(a, b),
        extends(b, c),
    ensures
        extends(a, c),
{
    assert(c.sys.constraints.take(a.sys.constraints.len() as int) =~= b.sys.constraints.take(
        a.sys.constraints.len() as int,
    ));
}

proof fn lemma_with_constraint_extends(st: FlatState, a: Map<usize, nat>, b: Map<usize, nat>, c: Map<usize, nat>)
    ensures
        extends(st, with_constraint(st, a, b, c)),
{
    assert(with_constraint(st, a, b, c).sys.constraints.take(st.sys.constraints.len() as int)
        =~= st.sys.constraints);
}

proof fn lemma_with_temp_extends(st: FlatState)
    ensures
        extends(st, with_temp(st)),
{
    assert(with_temp(st).sys.constraints.take(st.sys.constraints.len() as int) =~= st.sys.constraints);
}

/// Flattening an expression only appends constraints (and variables).
pub(crate) proof fn lemma_flat_expr_extends(st: FlatState, e: SpecExpr, p: nat)
    ensures
        flat_expr(st, e, p) matches Ok((s1, _)) ==> extends(st, s1),
    decreases e,
{
    assert(st.sys.constraints.take(st.sys.constraints.len() as int) =~= st.sys.constraints);
    match e {
        SpecExpr::Add(a, b) | SpecExpr::Sub(a, b) | SpecExpr::Mul(a, b) => {
            lemma_flat_expr_extends(st, *a, p);
            if let Ok((s1, la)) = flat_expr(st, *a, p) {
                lemma_flat_expr_extends(s1, *b, p);
                if let Ok((s2, lb)) = flat_expr(s1, *b, p) {
                    lemma_extends_trans(st, s1, s2);
                    let t = next_index(s2);
                    lemma_with_constraint_extends(with_temp(s2), la, lb, var_lc(t));
                    lemma_with_temp_extends(s2);
                    lemma_extends_trans(s2, with_temp(s2), with_constraint(with_temp(s2), la, lb, var_lc(t)));
                    lemma_extends_trans(st, s2, with_constraint(with_temp(s2), la, lb, var_lc(t)));
                }
            }
        },
        SpecExpr::Neg(a) => {
            lemma_flat_expr_extends(st, *a, p);
            if let Ok((s1, la)) = flat_expr(st, *a, p) {
                let t = next_index(s1);
                let s2 = with_temp(s1);
                lemma_with_temp_extends(s1);
                lemma_with_constraint_extends(s2, lc_sub(Map::empty(), la, p), one_lc(), var_lc(t));
                lemma_extends_trans(s1, s2, with_constraint(s2, lc_sub(Map::empty(), la, p), one_lc(), var_lc(t)));
                lemma_extends_trans(st, s1, with_constraint(s2, lc_sub(Map::empty(), la, p), one_lc(), var_lc(t)));
            }
        },
        _ => {},
    }
}

/// Flattening a branch of a conditional only appends constraints.
pub(crate) proof fn lemma_flat_guarded_extends(
    st: FlatState,
    body: SpecStatement,
    guard: Map<usize, nat>,
    bad: Seq<char>,
    p: nat,
)
    ensures
        flat_guarded(st, body, guard, bad, p) matches Ok(s1) ==> extends(st, s1),
{
    match body {
        SpecStatement::Assign(target, value) => {
            lemma_flat_expr_extends(st, value, p);
            if let Ok((s1, lv)) = flat_expr(st, value, p) {
                if let Some(t) = lookup_signal(st.signals, target) {
                    lemma_with_constraint_extends(s1, lc_sub(lv, var_lc(t), p), guard, Map::empty());
                    lemma_extends_trans(st, s1, with_constraint(s1, lc_sub(lv, var_lc(t), p), guard, Map::empty()));
                }
            }
        },
        SpecStatement::Constraint(lhs, rhs) => {
            lemma_flat_expr_extends(st, lhs, p);
            if let Ok((s1, ll)) = flat_expr(st, lhs, p) {
                lemma_flat_expr_extends(s1, rhs, p);
                if let Ok((s2, lr)) = flat_expr(s1, rhs, p) {
                    lemma_extends_trans(st, s1, s2);
                    lemma_with_constraint_extends(s2, lc_sub(ll, lr, p), guard, Map::empty());
                    lemma_extends_trans(st, s2, with_constraint(s2, lc_sub(ll, lr, p), guard, Map::empty()));
                }
            }
        },
        _ => {},
    }
}

/// A conditional on a flag that does not yet carry a boolean constraint
/// adds `flag * (1 - flag) = 0` before anything else, and the flag then
/// counts as constrained.
pub proof fn lemma_conditional_constrains_flag(
    st: FlatState,
    flag: Seq<char>,
    then_stmt: SpecStatement,
    else_stmt: Option<Box<SpecStatement>>,
    p: nat,
)
    requires
        !st.bools.contains(flag),
        flat_stmt(st, SpecStatement::Conditional(flag, Box::new(then_stmt), else_stmt), p) is Ok,
    ensures
        ({
            let s2 = flat_stmt(st, SpecStatement::Conditional(flag, Box::new(then_stmt), else_stmt), p)->Ok_0;
            let k = st.sys.constraints.len();
            &&& lookup_signal(st.signals, flag) is Some
            &&& k < s2.sys.constraints.len()
            &&& s2.sys.constraints[k as int] == bool_constraint(lookup_signal(st.signals, flag)->Some_0, p)
            &&& s2.sys.constraints.take(k as int) == st.sys.constraints
            &&& s2.bools.contains(flag)
        }),
{
    let i = lookup_signal(st.signals, flag)->Some_0;
    let c = bool_constraint(i, p);
    let s0 = with_constraint(st, c.a, c.b, c.c);
    let s1 = FlatState { bools: s0.bools.push(flag), ..s0 };
    assert(enforce_bool(st, flag, p) == Ok::<FlatState, Seq<char>>(s1));
    assert(s1.bools.contains(flag)) by {
        assert(s1.bools[s1.bools.len() - 1] == flag);
    }
    let ci = lookup_signal(s1.signals, flag)->Some_0;
    let k = st.sys.constraints.len();
    lemma_flat_guarded_extends(s1, then_stmt, var_lc(ci), bad_then_message(), p);
    let s2 = flat_guarded(s1, then_stmt, var_lc(ci), bad_then_message(), p)->Ok_0;
    let fin = flat_stmt(st, SpecStatement::Conditional(flag, Box::new(then_stmt), else_stmt), p)->Ok_0;
    match else_stmt {
        None => {
            assert(fin == s2);
        },
        Some(e) => {
            lemma_flat_guarded_extends(s2, *e, lc_sub(one_lc(), var_lc(ci), p), bad_else_message(), p);
            lemma_extends_trans(s1, s2, fin);
        },
    }
    assert(extends(s1, fin));
    assert(s1.sys.constraints[k as int] == c);
    assert(fin.sys.constraints.take(k + 1int)[k as int] == fin.sys.constraints[k as int]);
    assert(fin.sys.constraints.take(k as int) =~= s1.sys.constraints.take(k as int));
    assert(s1.sys.constraints.take(k as int) =~= st.sys.constraints);
}

/// Constraining a flag to be boolean a second time changes nothing.
pub proof fn lemma_enforce_bool_idempotent(st: FlatState, flag: Seq<char>, p: nat)
    requires
        enforce_bool(st, flag, p) is Ok,
    ensures
        enforce_bool(enforce_bool(st, flag, p)->Ok_0, flag, p) == enforce_bool(st, flag, p),
{
    let s1 = enforce_bool(st, flag, p)->Ok_0;
    if !st.bools.contains(flag) {
        assert(s1.bools[s1.bools.len() - 1] == flag);
    }
}

/// Constraining a declared flag appends `flag * (1 - flag) = 0` when the
/// flag carries no boolean constraint yet, and nothing otherwise; the flag
/// is then marked, and a second call changes nothing.
pub proof fn lemma_enforce_bool_effect(st: FlatState, flag: Seq<char>, p: nat)
    requires
        lookup_signal(st.signals, flag) is Some,
    ensures
        enforce_bool(st, flag, p) is Ok,
        ({
            let s1 = enforce_bool(st, flag, p)->Ok_0;
            let i = lookup_signal(st.signals, flag)->Some_0;
            &&& s1.sys.constraints == st.sys.constraints + (if st.bools.contains(flag) {
                Seq::<SpecConstraint>::empty()
            } else {
                seq![bool_constraint(i, p)]
            })
            &&& s1.bools.contains(flag)
            &&& s1.signals == st.signals
            &&& s1.sys.num_variables == st.sys.num_variables
            &&& enforce_bool(s1, flag, p) == Ok::<FlatState, Seq<char>>(s1)
        }),
{
    let s1 = enforce_bool(st, flag, p)->Ok_0;
    if st.bools.contains(flag) {
        assert(st.sys.constraints + Seq::<SpecConstraint>::empty() =~= st.sys.constraints);
    } else {
        let i = lookup_signal(st.signals, flag)->Some_0;
        assert(s1.sys.constraints =~= st.sys.constraints + seq![bool_constraint(i, p)]);
    }
    lemma_enforce_bool_idempotent(st, flag, p);
}

/// An `assert_bool` on a flag right before a conditional on that flag adds
/// nothing: the conditional would constrain the flag itself, and does so
/// only once.
pub proof fn lemma_assert_bool_then_conditional(
    st: FlatState,
    flag: Seq<char>,
    then_stmt: SpecStatement,
    else_stmt: Option<Box<SpecStatement>>,
    p: nat,
)
    ensures
        flat_stmts(
            st,
            seq![
                SpecStatement::AssertBool(flag),
                SpecStatement::Conditional(flag, Box::new(then_stmt), else_stmt),
            ],
            p,
        ) == flat_stmts(
            st,
            seq![SpecStatement::Conditional(flag, Box::new(then_stmt), else_stmt)],
            p,
        ),
{
    let cond = SpecStatement::Conditional(flag, Box::new(then_stmt), else_stmt);
    let both = seq![SpecStatement::AssertBool(flag), cond];
    let one = seq![cond];
    assert(both.drop_last() =~= seq![SpecStatement::AssertBool(flag)]);
    assert(seq![SpecStatement::AssertBool(flag)].drop_last() =~= Seq::<SpecStatement>::empty());
    assert(one.drop_last() =~= Seq::<SpecStatement>::empty());
    reveal_with_fuel(flat_stmts, 3);
    if enforce_bool(st, flag, p) is Ok {
        lemma_enforce_bool_idempotent(st, flag, p);
    }
}

} // verus!
