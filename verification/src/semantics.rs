//! Big-step semantics of the language, over the mathematical tree.
//!
//! A run carries a state: the variable environment, the output produced
//! so far, and the input lines not yet consumed. Every rule either steps
//! to a new state or stops with the first fault, exactly as the
//! interpreter does.

use vstd::prelude::*;
use crate::ast::{BinOpType, ConstS, ExprS, ProgramS, StmtS, VarS, VariableType};
use crate::errors::{InterpretError, RuntimeError, TypeError};
use crate::numbers::{int_chars, parse_i32_spec};
use crate::text::{trim_newline_spec, trim_spec};

verus! {

/// A runtime value: an integer, a string, a boolean, or the `NULL` state
/// of a declared but never assigned variable.
pub ghost enum ValueS {
    IntV(int),
    StrV(Seq<char>),
    BoolV(bool),
    NullV,
}

/// One environment binding: the declared type and the current value.
pub ghost struct BindingS {
    pub ty: VariableType,
    pub val: ValueS,
}

/// A run state: environment, output so far, input not yet consumed.
pub ghost struct StateS {
    pub env: Map<Seq<char>, BindingS>,
    pub out: Seq<char>,
    pub input: Seq<Seq<char>>,
}

/// The result of running statements: the state reached, and the first
/// fault if one stopped the run.
pub ghost struct RunR {
    pub state: StateS,
    pub err: Option<InterpretError>,
}

/// Two's-complement wrap-around of `n` into the 32-bit signed range.
pub open spec fn wrap_i32(n: int) -> int {
    ((n + 0x8000_0000) % 0x1_0000_0000) - 0x8000_0000
}

/// Whether `n` lies in the 32-bit signed range.
pub open spec fn in_i32(n: int) -> bool {
    -0x8000_0000 <= n <= 0x7FFF_FFFF
}

/// Absolute value.
pub open spec fn int_abs(a: int) -> int {
    if a < 0 {
        -a
    } else {
        a
    }
}

/// Integer division truncating toward zero, as `/` does on machine
/// integers; defined for a non-zero divisor.
pub open spec fn trunc_div(a: int, b: int) -> int {
    if (a < 0) == (b < 0) {
        int_abs(a) / int_abs(b)
    } else {
        -(int_abs(a) / int_abs(b))
    }
}

/// The characters `true`.
pub open spec fn chars_true() -> Seq<char> {
    seq!['t', 'r', 'u', 'e']
}

/// The characters `false`.
pub open spec fn chars_false() -> Seq<char> {
    seq!['f', 'a', 'l', 's', 'e']
}

/// The characters `NULL`.
pub open spec fn chars_null() -> Seq<char> {
    seq!['N', 'U', 'L', 'L']
}

/// The value of a literal: integer text must parse and fit 32 bits,
/// boolean text must be exactly `true` or `false`; string text is taken
/// as it stands.
pub open spec fn const_value(c: ConstS) -> Result<ValueS, InterpretError> {
    match c.ty {
        VariableType::Int => match parse_i32_spec(c.text) {
            Some(v) => Ok(ValueS::IntV(v)),
            None => Err(InterpretError::Runtime(RuntimeError::InvalidLiteral)),
        },
        VariableType::Str => Ok(ValueS::StrV(c.text)),
        VariableType::Bool => if c.text == chars_true() {
            Ok(ValueS::BoolV(true))
        } else if c.text == chars_false() {
            Ok(ValueS::BoolV(false))
        } else {
            Err(InterpretError::Runtime(RuntimeError::InvalidLiteral))
        },
    }
}

/// The result of a binary operator on two evaluated operands. A `NULL`
/// operand is a runtime fault; otherwise the operand types decide.
/// Integer arithmetic is 32-bit with wrap-around; only division by zero
/// is a fault.
pub open spec fn apply_binop(op: BinOpType, a: ValueS, b: ValueS) -> Result<
    ValueS,
    InterpretError,
> {
    if a is NullV || b is NullV {
        Err(InterpretError::Runtime(RuntimeError::NullOperandUse))
    } else {
        match op {
            BinOpType::Plus => match (a, b) {
                (ValueS::IntV(x), ValueS::IntV(y)) => Ok(ValueS::IntV(wrap_i32(x + y))),
                (ValueS::StrV(x), ValueS::StrV(y)) => Ok(ValueS::StrV(x + y)),
                _ => Err(InterpretError::Type(TypeError::OperandTypeMismatch)),
            },
            BinOpType::Minus => match (a, b) {
                (ValueS::IntV(x), ValueS::IntV(y)) => Ok(ValueS::IntV(wrap_i32(x - y))),
                _ => Err(InterpretError::Type(TypeError::OperandTypeMismatch)),
            },
            BinOpType::Multiply => match (a, b) {
                (ValueS::IntV(x), ValueS::IntV(y)) => Ok(ValueS::IntV(wrap_i32(x * y))),
                _ => Err(InterpretError::Type(TypeError::OperandTypeMismatch)),
            },
            BinOpType::Divide => match (a, b) {
                (ValueS::IntV(x), ValueS::IntV(y)) => if y == 0 {
                    Err(InterpretError::Runtime(RuntimeError::DivisionByZero))
                } else {
                    Ok(ValueS::IntV(wrap_i32(trunc_div(x, y))))
                },
                _ => Err(InterpretError::Type(TypeError::OperandTypeMismatch)),
            },
            BinOpType::LessThan => match (a, b) {
                (ValueS::IntV(x), ValueS::IntV(y)) => Ok(ValueS::BoolV(x < y)),
                _ => Err(InterpretError::Type(TypeError::OperandTypeMismatch)),
            },
            BinOpType::Equal => match (a, b) {
                (ValueS::IntV(x), ValueS::IntV(y)) => Ok(ValueS::BoolV(x == y)),
                (ValueS::StrV(x), ValueS::StrV(y)) => Ok(ValueS::BoolV(x == y)),
                (ValueS::BoolV(x), ValueS::BoolV(y)) => Ok(ValueS::BoolV(x == y)),
                _ => Err(InterpretError::Type(TypeError::OperandTypeMismatch)),
            },
            BinOpType::And => match (a, b) {
                (ValueS::BoolV(x), ValueS::BoolV(y)) => Ok(ValueS::BoolV(x && y)),
                _ => Err(InterpretError::Type(TypeError::OperandTypeMismatch)),
            },
        }
    }
}

/// Expression evaluation. Expressions have no side effects; they read
/// the environment only.
pub open spec fn eval_expr(e: ExprS, env: Map<Seq<char>, BindingS>) -> Result<
    ValueS,
    InterpretError,
>
    decreases e,
{
    match e {
        ExprS::Constant(c) => const_value(c),
        ExprS::Variable(v) => if env.contains_key(v.name) {
            Ok(env[v.name].val)
        } else {
            Err(InterpretError::Runtime(RuntimeError::UnboundVariable))
        },
        ExprS::NotOp(inner) => match eval_expr(*inner, env) {
            Ok(ValueS::BoolV(x)) => Ok(ValueS::BoolV(!x)),
            Ok(ValueS::NullV) => Err(InterpretError::Runtime(RuntimeError::NullOperandUse)),
            Ok(_) => Err(InterpretError::Type(TypeError::OperandTypeMismatch)),
            Err(err) => Err(err),
        },
        ExprS::Binary(op, l, r) => match eval_expr(*l, env) {
            Ok(a) => match eval_expr(*r, env) {
                Ok(b) => apply_binop(op, a, b),
                Err(err) => Err(err),
            },
            Err(err) => Err(err),
        },
    }
}

/// The printed text of a value: decimal for integers, raw text for
/// strings, `true`/`false` for booleans, and `NULL` for the null state.
pub open spec fn render(v: ValueS) -> Seq<char> {
    match v {
        ValueS::IntV(n) => int_chars(n),
        ValueS::StrV(s) => s,
        ValueS::BoolV(b) => if b {
            chars_true()
        } else {
            chars_false()
        },
        ValueS::NullV => chars_null(),
    }
}

/// A successful step to a new state.
pub open spec fn step_ok(st: StateS) -> RunR {
    RunR { state: st, err: None }
}

/// A step that stops the run with a fault.
pub open spec fn step_err(st: StateS, e: InterpretError) -> RunR {
    RunR { state: st, err: Some(e) }
}

/// One `read`: consume one input line (an exhausted input reads as an
/// empty line) and bind the target from it according to its declared
/// type.
pub open spec fn run_read(target: VarS, st: StateS) -> RunR {
    if !st.env.contains_key(target.name) {
        step_err(st, InterpretError::Runtime(RuntimeError::UnboundVariable))
    } else {
        let line = if st.input.len() > 0 {
            st.input[0]
        } else {
            Seq::empty()
        };
        let rest = if st.input.len() > 0 {
            st.input.drop_first()
        } else {
            st.input
        };
        let st1 = StateS { input: rest, ..st };
        match target.ty {
            VariableType::Int => match parse_i32_spec(trim_spec(line)) {
                Some(v) => step_ok(
                    StateS {
                        env: st1.env.insert(
                            target.name,
                            BindingS { ty: target.ty, val: ValueS::IntV(v) },
                        ),
                        ..st1
                    },
                ),
                None => step_err(st1, InterpretError::Runtime(RuntimeError::ReadParseFailure)),
            },
            VariableType::Str => step_ok(
                StateS {
                    env: st1.env.insert(
                        target.name,
                        BindingS { ty: target.ty, val: ValueS::StrV(trim_newline_spec(line)) },
                    ),
                    ..st1
                },
            ),
            VariableType::Bool => step_err(
                st1,
                InterpretError::Runtime(RuntimeError::ReadParseFailure),
            ),
        }
    }
}

/// Statement execution.
pub open spec fn run_stmt(s: StmtS, st: StateS) -> RunR
    decreases s, 0nat, 0nat,
{
    match s {
        StmtS::Assign { target, value } => match value {
            None => step_ok(
                StateS {
                    env: st.env.insert(target.name, BindingS { ty: target.ty, val: ValueS::NullV }),
                    ..st
                },
            ),
            Some(e) => match eval_expr(e, st.env) {
                Ok(v) => step_ok(
                    StateS {
                        env: st.env.insert(target.name, BindingS { ty: target.ty, val: v }),
                        ..st
                    },
                ),
                Err(err) => step_err(st, err),
            },
        },
        StmtS::Read { target } => run_read(target, st),
        StmtS::Print(e) => match eval_expr(e, st.env) {
            Ok(v) => step_ok(StateS { out: st.out + render(v), ..st }),
            Err(err) => step_err(st, err),
        },
        StmtS::Assert(e) => match eval_expr(e, st.env) {
            Ok(ValueS::BoolV(true)) => step_ok(st),
            Ok(ValueS::BoolV(false)) => step_err(
                st,
                InterpretError::Runtime(RuntimeError::AssertionFailed),
            ),
            Ok(ValueS::NullV) => step_err(st, InterpretError::Runtime(RuntimeError::NullOperandUse)),
            Ok(_) => step_err(st, InterpretError::Type(TypeError::NonBooleanCondition)),
            Err(err) => step_err(st, err),
        },
        StmtS::For { control, lo, hi, body } => {
            if !st.env.contains_key(control.name) {
                step_err(st, InterpretError::Runtime(RuntimeError::UnboundVariable))
            } else if !(st.env[control.name].ty is Int) {
                step_err(st, InterpretError::Type(TypeError::OperandTypeMismatch))
            } else {
                match eval_expr(lo, st.env) {
                    Ok(lov) => match eval_expr(hi, st.env) {
                        Ok(hiv) => match (lov, hiv) {
                            (ValueS::IntV(a), ValueS::IntV(b)) => {
                                let st1 = StateS {
                                    env: st.env.insert(
                                        control.name,
                                        BindingS { ty: VariableType::Int, val: ValueS::IntV(a) },
                                    ),
                                    ..st
                                };
                                let n = if a <= b {
                                    (b - a + 1) as nat
                                } else {
                                    0nat
                                };
                                run_for(control.name, body, a, n, st1)
                            },
                            (ValueS::NullV, _) => step_err(
                                st,
                                InterpretError::Runtime(RuntimeError::NullOperandUse),
                            ),
                            (_, ValueS::NullV) => step_err(
                                st,
                                InterpretError::Runtime(RuntimeError::NullOperandUse),
                            ),
                            _ => step_err(
                                st,
                                InterpretError::Type(TypeError::NonIntegerRangeBound),
                            ),
                        },
                        Err(err) => step_err(st, err),
                    },
                    Err(err) => step_err(st, err),
                }
            }
        },
    }
}

/// `n` remaining executions of a `for` body. The loop keeps a hidden
/// counter: after each body run the control variable is rebound to the
/// counter's next value, whatever the body did to it.
pub open spec fn run_for(name: Seq<char>, body: Seq<StmtS>, counter: int, n: nat, st: StateS) -> RunR
    decreases body, n, 1nat,
{
    if n == 0 {
        step_ok(st)
    } else {
        let r = run_stmts_from(body, 0, st);
        if r.err is Some {
            r
        } else {
            let st2 = StateS {
                env: r.state.env.insert(
                    name,
                    BindingS { ty: VariableType::Int, val: ValueS::IntV(wrap_i32(counter + 1)) },
                ),
                ..r.state
            };
            run_for(name, body, counter + 1, (n - 1) as nat, st2)
        }
    }
}

/// The statements `stmts[i..]`, run in order, stopping at the first
/// fault.
pub open spec fn run_stmts_from(stmts: Seq<StmtS>, i: int, st: StateS) -> RunR
    decreases stmts, 0nat, stmts.len() - i,
{
    if 0 <= i < stmts.len() {
        let r = run_stmt(stmts[i], st);
        if r.err is Some {
            r
        } else {
            run_stmts_from(stmts, i + 1, r.state)
        }
    } else {
        step_ok(st)
    }
}

/// A whole program, started on an empty environment and empty output.
pub open spec fn run_program(p: ProgramS, input: Seq<Seq<char>>) -> RunR {
    run_stmts_from(p.stmts, 0, StateS { env: Map::empty(), out: Seq::empty(), input: input })
}

// ---------------------------------------------------------------------------
// Facts about 32-bit wrap-around.
// ---------------------------------------------------------------------------

/// Wrapping a value already in range changes nothing.
pub proof fn lemma_wrap_i32_id(n: int)
    requires
        in_i32(n),
    ensures
        wrap_i32(n) == n,
{
    vstd::arithmetic::div_mod::lemma_fundamental_div_mod_converse(
        n + 0x8000_0000,
        0x1_0000_0000,
        0,
        n + 0x8000_0000,
    );
}

/// Wrapping a value one step above the range subtracts one period.
pub proof fn lemma_wrap_i32_high(n: int)
    requires
        0x7FFF_FFFF < n <= 0x1_7FFF_FFFF,
    ensures
        wrap_i32(n) == n - 0x1_0000_0000,
{
    vstd::arithmetic::div_mod::lemma_fundamental_div_mod_converse(
        n + 0x8000_0000,
        0x1_0000_0000,
        1,
        n - 0x8000_0000,
    );
}

/// Wrapping a value one step below the range adds one period.
pub proof fn lemma_wrap_i32_low(n: int)
    requires
        -0x1_8000_0000 <= n < -0x8000_0000,
    ensures
        wrap_i32(n) == n + 0x1_0000_0000,
{
    vstd::arithmetic::div_mod::lemma_fundamental_div_mod_converse(
        n + 0x8000_0000,
        0x1_0000_0000,
        -1,
        n + 0x8000_0000 + 0x1_0000_0000,
    );
}

/// The wrap of any value, written over the non-negative remainder: this
/// is the shape in which machine wrapping operations are specified.
pub proof fn lemma_wrap_i32_mod(n: int)
    ensures
        ({
            let m = n % 0x1_0000_0000;
            wrap_i32(n) == if m > 0x7FFF_FFFF {
                m - 0x1_0000_0000
            } else {
                m
            }
        }),
{
    let d = 0x1_0000_0000int;
    let m = n % d;
    vstd::arithmetic::div_mod::lemma_mod_bound(n, d);
    vstd::arithmetic::div_mod::lemma_fundamental_div_mod(n, d);
    vstd::arithmetic::div_mod::lemma_mod_multiples_vanish(n / d, m + 0x8000_0000, d);
    assert(n + 0x8000_0000 == d * (n / d) + (m + 0x8000_0000));
    if m > 0x7FFF_FFFF {
        vstd::arithmetic::div_mod::lemma_fundamental_div_mod_converse(
            m + 0x8000_0000,
            d,
            1,
            m - 0x8000_0000,
        );
    } else {
        vstd::arithmetic::div_mod::lemma_fundamental_div_mod_converse(
            m + 0x8000_0000,
            d,
            0,
            m + 0x8000_0000,
        );
    }
}

// ---------------------------------------------------------------------------
// Laws of the semantics.
// ---------------------------------------------------------------------------

/// An `assert` whose condition evaluates to `true` changes nothing and
/// continues; one whose condition evaluates to `false` always stops the
/// run with an assertion failure.
pub proof fn lemma_assert_stmt(e: ExprS, st: StateS)
    ensures
        eval_expr(e, st.env) == Ok::<ValueS, InterpretError>(ValueS::BoolV(true)) ==> run_stmt(
            StmtS::Assert(e),
            st,
        ) == step_ok(st),
        eval_expr(e, st.env) == Ok::<ValueS, InterpretError>(ValueS::BoolV(false)) ==> run_stmt(
            StmtS::Assert(e),
            st,
        ) == step_err(st, InterpretError::Runtime(RuntimeError::AssertionFailed)),
{
}

/// A division whose divisor evaluates to zero always stops the run with
/// a division-by-zero fault, whatever the dividend's integer value.
pub proof fn lemma_division_by_zero(l: ExprS, r: ExprS, env: Map<Seq<char>, BindingS>, x: int)
    requires
        eval_expr(l, env) == Ok::<ValueS, InterpretError>(ValueS::IntV(x)),
        eval_expr(r, env) == Ok::<ValueS, InterpretError>(ValueS::IntV(0)),
    ensures
        eval_expr(ExprS::Binary(BinOpType::Divide, Box::new(l), Box::new(r)), env) == Err::<
            ValueS,
            InterpretError,
        >(InterpretError::Runtime(RuntimeError::DivisionByZero)),
{
}

/// Division truncates toward zero: the magnitude of the quotient is the
/// floor quotient of the magnitudes, and its sign follows the signs of
/// the operands.
pub proof fn lemma_trunc_div_toward_zero(a: int, b: int)
    requires
        b != 0,
    ensures
        int_abs(trunc_div(a, b)) == int_abs(a) / int_abs(b),
        (a >= 0 && b > 0) ==> trunc_div(a, b) == a / b,
        trunc_div(-a, b) == -trunc_div(a, b),
{
    assert(int_abs(a) / int_abs(b) >= 0) by (nonlinear_arith)
        requires int_abs(a) >= 0 && int_abs(b) > 0;
}

} // verus!
