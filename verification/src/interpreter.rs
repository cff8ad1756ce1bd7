//! The tree-walking interpreter.
//!
//! It owns the runtime environment, walks the arena depth-first in child
//! order, and is proved to produce exactly the output and the fault that
//! the big-step semantics assigns to the program's mathematical tree.

use vstd::prelude::*;
use vstd::string::*;
use crate::ast::{
    ArenaTree, AstItem, BinOpType, VariableType, expr_of, leaf_var, prog_of, stmt_of, stmts_of,
    lemma_stmts_of_all_below,
};
use crate::errors::{InterpretError, RuntimeError, TypeError};
use crate::numbers::{int_to_string, parse_i32_range};
use crate::semantics::{
    BindingS, StateS, ValueS, apply_binop, chars_false, chars_null, chars_true, eval_expr,
    in_i32, int_abs, lemma_wrap_i32_high, lemma_wrap_i32_id, lemma_wrap_i32_low,
    lemma_wrap_i32_mod, render, run_for, run_stmt, run_stmts_from, trunc_div, wrap_i32,
};
use crate::text::{chars_of, string_eq_str, trim_newline};

verus! {

/// A runtime value: an integer, a string, a boolean, or the `NULL` state
/// of a declared but never assigned variable.
#[derive(Clone, Debug, PartialEq)]
pub enum Value {
    Int(i32),
    Str(String),
    Bool(bool),
    Null,
}

impl View for Value {
    type V = ValueS;

    open spec fn view(&self) -> ValueS {
        match self {
            Value::Int(n) => ValueS::IntV(*n as int),
            Value::Str(s) => ValueS::StrV(s@),
            Value::Bool(b) => ValueS::BoolV(*b),
            Value::Null => ValueS::NullV,
        }
    }
}

impl Value {
    /// A copy of this value, equal under the view.
    pub fn duplicate(&self) -> (r: Value)
        ensures
            r@ == self@,
    {
        match self {
            Value::Int(n) => Value::Int(*n),
            Value::Str(s) => Value::Str(s.clone()),
            Value::Bool(b) => Value::Bool(*b),
            Value::Null => Value::Null,
        }
    }
}

/// One environment entry: a variable's name, declared type, and current
/// value.
#[derive(Clone, Debug)]
pub struct RunTimeVariable {
    pub name: String,
    pub var_type: VariableType,
    pub value: Value,
}

impl RunTimeVariable {
    /// A copy of this entry: same name and same binding.
    pub fn duplicate(&self) -> (r: RunTimeVariable)
        ensures
            r.name@ == self.name@,
            r.var_type == self.var_type,
            r.value@ == self.value@,
    {
        RunTimeVariable {
            name: self.name.clone(),
            var_type: self.var_type,
            value: self.value.duplicate(),
        }
    }
}

/// The binding a runtime entry stands for.
pub open spec fn binding_of(v: RunTimeVariable) -> BindingS {
    BindingS { ty: v.var_type, val: v.value@ }
}

/// The map described by an entry list: later entries win.
pub open spec fn env_map(s: Seq<RunTimeVariable>) -> Map<Seq<char>, BindingS>
    decreases s.len(),
{
    if s.len() == 0 {
        Map::empty()
    } else {
        env_map(s.drop_last()).insert(s.last().name@, binding_of(s.last()))
    }
}

/// Updating the entry that holds a name rebinds that name and nothing
/// else, provided names are unique.
proof fn lemma_env_map_update(s: Seq<RunTimeVariable>, i: int, v: RunTimeVariable)
    requires
        0 <= i < s.len(),
        v.name@ == s[i].name@,
        forall|a: int, b: int| 0 <= a < b < s.len() ==> s[a].name@ != s[b].name@,
    ensures
        env_map(s.update(i, v)) == env_map(s).insert(v.name@, binding_of(v)),
    decreases s.len(),
{
    let t = s.update(i, v);
    if i == s.len() - 1 {
        assert(t.drop_last() =~= s.drop_last());
        assert(t.last() == v);
        assert(env_map(t) =~= env_map(s).insert(v.name@, binding_of(v)));
    } else {
        assert(t.drop_last() =~= s.drop_last().update(i, v));
        assert(t.last() == s.last());
        assert(s.drop_last()[i] == s[i]);
        assert(forall|a: int, b: int|
            0 <= a < b < s.drop_last().len() ==> s.drop_last()[a].name@ != s.drop_last()[b].name@);
        lemma_env_map_update(s.drop_last(), i, v);
        assert(v.name@ != s.last().name@);
        assert(env_map(t) =~= env_map(s).insert(v.name@, binding_of(v)));
    }
}

/// The runtime environment: one binding per declared name.
#[derive(Clone, Debug)]
pub struct Environment {
    entries: Vec<RunTimeVariable>,
}

impl View for Environment {
    type V = Map<Seq<char>, BindingS>;

    closed spec fn view(&self) -> Map<Seq<char>, BindingS> {
        env_map(self.entries@)
    }
}

impl Environment {
    /// Entry names never repeat.
    pub closed spec fn wf(self) -> bool {
        forall|i: int, j: int|
            0 <= i < j < self.entries@.len() ==> self.entries@[i].name@ != self.entries@[j].name@
    }

    /// An empty environment.
    pub fn new() -> (r: Environment)
        ensures
            r@ == Map::<Seq<char>, BindingS>::empty(),
            r.wf(),
    {
        Environment { entries: Vec::new() }
    }

    /// The index of the entry for `name`, searched from the most recent
    /// entry backwards.
    fn find(&self, name: &String) -> (r: Option<usize>)
        ensures
            match r {
                Some(i) => i < self.entries@.len() && self.entries@[i as int].name@ == name@
                    && self@.contains_key(name@) && self@[name@] == binding_of(
                    self.entries@[i as int],
                ),
                None => !self@.contains_key(name@) && forall|j: int|
                    0 <= j < self.entries@.len() ==> self.entries@[j].name@ != name@,
            },
    {
        let n = self.entries.len();
        proof {
            assert(self.entries@.subrange(0, n as int) =~= self.entries@);
        }
        let mut k: usize = n;
        while k > 0
            invariant
                k <= n,
                n == self.entries@.len(),
                forall|j: int| k <= j < n ==> self.entries@[j].name@ != name@,
                env_map(self.entries@).contains_key(name@) == env_map(
                    self.entries@.subrange(0, k as int),
                ).contains_key(name@),
                env_map(self.entries@).contains_key(name@) ==> env_map(self.entries@)[name@]
                    == env_map(self.entries@.subrange(0, k as int))[name@],
            decreases k,
        {
            let i = k - 1;
            let ghost p = self.entries@.subrange(0, k as int);
            proof {
                assert(p.last() == self.entries@[i as int]);
                assert(p.drop_last() =~= self.entries@.subrange(0, k as int - 1));
            }
            if string_eq_str(&self.entries[i].name, name.as_str()) {
                proof {
                    assert(env_map(p).contains_key(name@));
                    assert(env_map(p)[name@] == binding_of(self.entries@[i as int]));
                }
                return Some(i);
            }
            k = i;
        }
        proof {
            assert(self.entries@.subrange(0, 0) =~= Seq::<RunTimeVariable>::empty());
        }
        None
    }

    /// Whether `name` is bound.
    pub fn contains(&self, name: &String) -> (r: bool)
        ensures
            r == self@.contains_key(name@),
    {
        match self.find(name) {
            Some(_) => true,
            None => false,
        }
    }

    /// The entry bound to `name`, if any.
    pub fn lookup(&self, name: &String) -> (r: Option<RunTimeVariable>)
        ensures
            match r {
                Some(v) => self@.contains_key(name@) && binding_of(v) == self@[name@],
                None => !self@.contains_key(name@),
            },
    {
        match self.find(name) {
            Some(i) => Some(self.entries[i].duplicate()),
            None => None,
        }
    }

    /// Binds `var.name` to `var`, replacing any earlier binding.
    pub fn insert(&mut self, var: RunTimeVariable)
        requires
            old(self).wf(),
        ensures
            final(self).wf(),
            final(self)@ == old(self)@.insert(var.name@, binding_of(var)),
    {
        let idx = self.find(&var.name);
        match idx {
            Some(i) => {
                proof {
                    lemma_env_map_update(self.entries@, i as int, var);
                }
                self.entries.set(i, var);
                proof {
                    assert forall|a: int, b: int|
                        0 <= a < b < self.entries@.len() implies self.entries@[a].name@
                        != self.entries@[b].name@ by {
                        assert(old(self).entries@[a].name@ != old(self).entries@[b].name@);
                    }
                }
            },
            None => {
                self.entries.push(var);
                proof {
                    assert(self.entries@.drop_last() =~= old(self).entries@);
                    assert(self.entries@.last() == var);
                    assert forall|a: int, b: int|
                        0 <= a < b < self.entries@.len() implies self.entries@[a].name@
                        != self.entries@[b].name@ by {
                        if b < self.entries@.len() - 1 {
                            assert(old(self).entries@[a].name@ != old(self).entries@[b].name@);
                        }
                    }
                }
            },
        }
    }
}

// ---------------------------------------------------------------------------
// Value operations.
// ---------------------------------------------------------------------------

/// A `Result` of runtime values, seen at the level of the semantics.
pub open spec fn res_view(r: Result<Value, InterpretError>) -> Result<ValueS, InterpretError> {
    match r {
        Ok(v) => Ok(v@),
        Err(e) => Err(e),
    }
}

/// The printed text of a value.
pub fn render_value(v: &Value) -> (r: String)
    ensures
        r@ == render(v@),
{
    match v {
        Value::Int(n) => int_to_string(*n),
        Value::Str(s) => s.clone(),
        Value::Bool(b) => {
            proof {
                reveal_strlit("true");
                reveal_strlit("false");
                assert("true"@ =~= chars_true());
                assert("false"@ =~= chars_false());
            }
            if *b {
                String::from_str("true")
            } else {
                String::from_str("false")
            }
        },
        Value::Null => {
            proof {
                reveal_strlit("NULL");
                assert("NULL"@ =~= chars_null());
            }
            String::from_str("NULL")
        },
    }
}

/// 32-bit addition with wrap-around.
fn add_wrap(x: i32, y: i32) -> (r: i32)
    ensures
        r as int == wrap_i32(x as int + y as int),
{
    proof {
        let s = x as int + y as int;
        if in_i32(s) {
            lemma_wrap_i32_id(s);
        } else if s > 0x7FFF_FFFF {
            lemma_wrap_i32_high(s);
        } else {
            lemma_wrap_i32_low(s);
        }
    }
    x.wrapping_add(y)
}

/// 32-bit subtraction with wrap-around.
fn sub_wrap(x: i32, y: i32) -> (r: i32)
    ensures
        r as int == wrap_i32(x as int - y as int),
{
    proof {
        let s = x as int - y as int;
        if in_i32(s) {
            lemma_wrap_i32_id(s);
        } else if s > 0x7FFF_FFFF {
            lemma_wrap_i32_high(s);
        } else {
            lemma_wrap_i32_low(s);
        }
    }
    x.wrapping_sub(y)
}

/// 32-bit multiplication with wrap-around.
fn mul_wrap(x: i32, y: i32) -> (r: i32)
    ensures
        r as int == wrap_i32(x as int * y as int),
{
    proof {
        lemma_wrap_i32_mod(x as int * y as int);
    }
    x.wrapping_mul(y)
}

/// 32-bit division truncating toward zero, with the one wrap-around
/// case of dividing the smallest value by minus one.
fn div_trunc(x: i32, y: i32) -> (r: i32)
    requires
        y != 0,
    ensures
        r as int == wrap_i32(trunc_div(x as int, y as int)),
{
    let xm: u32 = if x < 0 {
        (-(x as i64)) as u32
    } else {
        x as u32
    };
    let ym: u32 = if y < 0 {
        (-(y as i64)) as u32
    } else {
        y as u32
    };
    proof {
        assert(xm as int == int_abs(x as int));
        assert(ym as int == int_abs(y as int));
    }
    let q: u32 = xm / ym;
    if (x < 0) != (y < 0) {
        proof {
            assert(trunc_div(x as int, y as int) == -(q as int));
            lemma_wrap_i32_id(-(q as int));
        }
        (-(q as i64)) as i32
    } else if q == 0x8000_0000 {
        // Only the smallest value divided by minus one lands here; its
        // true quotient wraps around to the smallest value itself.
        proof {
            assert(trunc_div(x as int, y as int) == q as int);
            assert(wrap_i32(0x8000_0000) == -0x8000_0000) by {
                lemma_wrap_i32_high(0x8000_0000);
            }
        }
        -0x7FFF_FFFF - 1
    } else {
        proof {
            assert(trunc_div(x as int, y as int) == q as int);
            assert(q < 0x8000_0000);
            lemma_wrap_i32_id(q as int);
        }
        q as i32
    }
}

/// The result of a binary operator on two evaluated operands.
fn eval_binop(op: BinOpType, a: Value, b: Value) -> (r: Result<Value, InterpretError>)
    ensures
        res_view(r) == apply_binop(op, a@, b@),
{
    if matches!(a, Value::Null) || matches!(b, Value::Null) {
        return Err(InterpretError::Runtime(RuntimeError::NullOperandUse));
    }
    match op {
        BinOpType::Plus => match (a, b) {
            (Value::Int(x), Value::Int(y)) => Ok(Value::Int(add_wrap(x, y))),
            (Value::Str(x), Value::Str(y)) => {
                let mut s = x;
                s.append(y.as_str());
                Ok(Value::Str(s))
            },
            _ => Err(InterpretError::Type(TypeError::OperandTypeMismatch)),
        },
        BinOpType::Minus => match (a, b) {
            (Value::Int(x), Value::Int(y)) => Ok(Value::Int(sub_wrap(x, y))),
            _ => Err(InterpretError::Type(TypeError::OperandTypeMismatch)),
        },
        BinOpType::Multiply => match (a, b) {
            (Value::Int(x), Value::Int(y)) => Ok(Value::Int(mul_wrap(x, y))),
            _ => Err(InterpretError::Type(TypeError::OperandTypeMismatch)),
        },
        BinOpType::Divide => match (a, b) {
            (Value::Int(x), Value::Int(y)) => if y == 0 {
                Err(InterpretError::Runtime(RuntimeError::DivisionByZero))
            } else {
                Ok(Value::Int(div_trunc(x, y)))
            },
            _ => Err(InterpretError::Type(TypeError::OperandTypeMismatch)),
        },
        BinOpType::LessThan => match (a, b) {
            (Value::Int(x), Value::Int(y)) => Ok(Value::Bool(x < y)),
            _ => Err(InterpretError::Type(TypeError::OperandTypeMismatch)),
        },
        BinOpType::Equal => match (a, b) {
            (Value::Int(x), Value::Int(y)) => Ok(Value::Bool(x == y)),
            (Value::Str(x), Value::Str(y)) => Ok(Value::Bool(x == y)),
            (Value::Bool(x), Value::Bool(y)) => Ok(Value::Bool(x == y)),
            _ => Err(InterpretError::Type(TypeError::OperandTypeMismatch)),
        },
        BinOpType::And => match (a, b) {
            (Value::Bool(x), Value::Bool(y)) => Ok(Value::Bool(x && y)),
            _ => Err(InterpretError::Type(TypeError::OperandTypeMismatch)),
        },
    }
}

/// The value of a literal.
fn eval_constant(c: &crate::ast::ConstantInfo) -> (r: Result<Value, InterpretError>)
    ensures
        res_view(r) == crate::semantics::const_value(crate::ast::const_s(*c)),
{
    match c.const_type {
        VariableType::Int => {
            let cs = chars_of(c.value.as_str());
            proof {
                assert(cs@.subrange(0, cs@.len() as int) =~= c.value@);
            }
            match parse_i32_range(&cs, 0, cs.len()) {
                Some(x) => Ok(Value::Int(x)),
                None => Err(InterpretError::Runtime(RuntimeError::InvalidLiteral)),
            }
        },
        VariableType::Str => Ok(Value::Str(c.value.clone())),
        VariableType::Bool => {
            proof {
                reveal_strlit("true");
                reveal_strlit("false");
                assert("true"@ =~= chars_true());
                assert("false"@ =~= chars_false());
            }
            if string_eq_str(&c.value, "true") {
                Ok(Value::Bool(true))
            } else if string_eq_str(&c.value, "false") {
                Ok(Value::Bool(false))
            } else {
                Err(InterpretError::Runtime(RuntimeError::InvalidLiteral))
            }
        },
    }
}

/// Evaluates the expression rooted at handle `h` against the
/// environment.
fn eval_expr_at(ast: &ArenaTree, env: &Environment, h: usize) -> (r: Result<Value, InterpretError>)
    requires
        expr_of(ast.arena@, h as int) is Some,
    ensures
        res_view(r) == eval_expr(expr_of(ast.arena@, h as int).unwrap(), env@),
    decreases h,
{
    let node = &ast.arena[h];
    match &node.val {
        AstItem::Constant(c) => eval_constant(c),
        AstItem::Variable(v) => match env.lookup(&v.name) {
            Some(entry) => Ok(entry.value),
            None => Err(InterpretError::Runtime(RuntimeError::UnboundVariable)),
        },
        AstItem::Not => {
            let ch = node.children[0];
            match eval_expr_at(ast, env, ch) {
                Ok(Value::Bool(x)) => Ok(Value::Bool(!x)),
                Ok(Value::Null) => Err(InterpretError::Runtime(RuntimeError::NullOperandUse)),
                Ok(_) => Err(InterpretError::Type(TypeError::OperandTypeMismatch)),
                Err(e) => Err(e),
            }
        },
        AstItem::BinOp(op) => {
            let op = *op;
            let c0 = node.children[0];
            let c1 = node.children[1];
            match eval_expr_at(ast, env, c0) {
                Ok(a) => match eval_expr_at(ast, env, c1) {
                    Ok(b) => eval_binop(op, a, b),
                    Err(e) => Err(e),
                },
                Err(e) => Err(e),
            }
        },
        _ => {
            proof {
                assert(false);
            }
            Err(InterpretError::Runtime(RuntimeError::UnboundVariable))
        },
    }
}

// ---------------------------------------------------------------------------
// Statement execution.
// ---------------------------------------------------------------------------

/// The name and declared type held by the childless `Variable` node at
/// handle `i`.
fn leaf_var_at(ast: &ArenaTree, i: usize) -> (r: (String, VariableType))
    requires
        leaf_var(ast.arena@, i as int) is Some,
    ensures
        r.0@ == leaf_var(ast.arena@, i as int).unwrap().name,
        r.1 == leaf_var(ast.arena@, i as int).unwrap().ty,
{
    match &ast.arena[i].val {
        AstItem::Variable(v) => (v.name.clone(), v.var_type),
        _ => {
            proof {
                assert(false);
            }
            (String::new(), VariableType::Int)
        },
    }
}

/// Executes the statement rooted at handle `h`: reads and advances the
/// input cursor, extends the output, and updates the environment,
/// exactly as the semantics says.
fn exec_stmt_at(
    ast: &ArenaTree,
    env: &mut Environment,
    out: &mut String,
    input: &Vec<String>,
    cursor: &mut usize,
    h: usize,
) -> (r: Option<InterpretError>)
    requires
        stmt_of(ast.arena@, h as int) is Some,
        old(env).wf(),
        *old(cursor) <= input@.len(),
    ensures
        final(env).wf(),
        *old(cursor) <= *final(cursor) <= input@.len(),
        ({
            let rr = run_stmt(
                stmt_of(ast.arena@, h as int).unwrap(),
                StateS {
                    env: old(env)@,
                    out: old(out)@,
                    input: input.deep_view().skip(*old(cursor) as int),
                },
            );
            rr.state.env == final(env)@ && rr.state.out == final(out)@ && rr.state.input
                == input.deep_view().skip(*final(cursor) as int) && r == rr.err
        }),
    decreases h as int,
{
    let ghost stm = stmt_of(ast.arena@, h as int).unwrap();
    let ghost st0 = StateS {
        env: env@,
        out: out@,
        input: input.deep_view().skip(*cursor as int),
    };
    let node = &ast.arena[h];
    match &node.val {
        AstItem::Print => {
            let c0 = node.children[0];
            match eval_expr_at(ast, env, c0) {
                Ok(v) => {
                    let txt = render_value(&v);
                    out.append(txt.as_str());
                    None
                },
                Err(e) => Some(e),
            }
        },
        AstItem::Assert => {
            let c0 = node.children[0];
            match eval_expr_at(ast, env, c0) {
                Ok(Value::Bool(x)) => {
                    if x {
                        None
                    } else {
                        Some(InterpretError::Runtime(RuntimeError::AssertionFailed))
                    }
                },
                Ok(Value::Null) => Some(InterpretError::Runtime(RuntimeError::NullOperandUse)),
                Ok(_) => Some(InterpretError::Type(TypeError::NonBooleanCondition)),
                Err(e) => Some(e),
            }
        },
        AstItem::Assign => {
            let c0 = node.children[0];
            let (nm, ty) = leaf_var_at(ast, c0);
            if node.children.len() == 2 {
                let c1 = node.children[1];
                match eval_expr_at(ast, env, c1) {
                    Ok(v) => {
                        env.insert(RunTimeVariable { name: nm, var_type: ty, value: v });
                        None
                    },
                    Err(e) => Some(e),
                }
            } else {
                env.insert(RunTimeVariable { name: nm, var_type: ty, value: Value::Null });
                None
            }
        },
        AstItem::Read => {
            let c0 = node.children[0];
            let (nm, ty) = leaf_var_at(ast, c0);
            if !env.contains(&nm) {
                return Some(InterpretError::Runtime(RuntimeError::UnboundVariable));
            }
            let line: String = if *cursor < input.len() {
                let l = input[*cursor].clone();
                *cursor = *cursor + 1;
                proof {
                    assert(input.deep_view().skip(*old(cursor) as int).drop_first()
                        =~= input.deep_view().skip(*cursor as int));
                    assert(l@ == input.deep_view().skip(*old(cursor) as int)[0]);
                }
                l
            } else {
                proof {
                    assert(input.deep_view().skip(*cursor as int).len() == 0);
                }
                String::new()
            };
            match ty {
                VariableType::Int => {
                    let cs = chars_of(line.as_str());
                    let (lo, hi) = crate::text::trim_bounds(&cs);
                    match parse_i32_range(&cs, lo, hi) {
                        Some(x) => {
                            env.insert(
                                RunTimeVariable {
                                    name: nm,
                                    var_type: ty,
                                    value: Value::Int(x),
                                },
                            );
                            None
                        },
                        None => Some(InterpretError::Runtime(RuntimeError::ReadParseFailure)),
                    }
                },
                VariableType::Str => {
                    let mut l2 = line;
                    trim_newline(&mut l2);
                    env.insert(RunTimeVariable { name: nm, var_type: ty, value: Value::Str(l2) });
                    None
                },
                VariableType::Bool => Some(InterpretError::Runtime(RuntimeError::ReadParseFailure)),
            }
        },
        AstItem::For => {
            let c0 = node.children[0];
            let c1 = node.children[1];
            let c2 = node.children[2];
            let (nm, _ty) = leaf_var_at(ast, c0);
            let entry = match env.lookup(&nm) {
                Some(en) => en,
                None => {
                    return Some(InterpretError::Runtime(RuntimeError::UnboundVariable));
                },
            };
            if !matches!(entry.var_type, VariableType::Int) {
                return Some(InterpretError::Type(TypeError::OperandTypeMismatch));
            }
            let rn = &ast.arena[c1];
            let lo_h = rn.children[0];
            let hi_h = rn.children[1];
            let lov = match eval_expr_at(ast, env, lo_h) {
                Ok(v) => v,
                Err(e) => {
                    return Some(e);
                },
            };
            let hiv = match eval_expr_at(ast, env, hi_h) {
                Ok(v) => v,
                Err(e) => {
                    return Some(e);
                },
            };
            let (a, b) = match (lov, hiv) {
                (Value::Int(x), Value::Int(y)) => (x, y),
                (Value::Null, _) => {
                    return Some(InterpretError::Runtime(RuntimeError::NullOperandUse));
                },
                (_, Value::Null) => {
                    return Some(InterpretError::Runtime(RuntimeError::NullOperandUse));
                },
                _ => {
                    return Some(InterpretError::Type(TypeError::NonIntegerRangeBound));
                },
            };
            env.insert(
                RunTimeVariable {
                    name: nm.clone(),
                    var_type: VariableType::Int,
                    value: Value::Int(a),
                },
            );
            let ghost body = stmts_of(ast.arena@, ast.arena@[c2 as int].children@, c2 as int).unwrap();
            let ghost n_total: nat = if a <= b {
                (b - a + 1) as nat
            } else {
                0nat
            };
            let ghost target = run_for(
                nm@,
                body,
                a as int,
                n_total,
                StateS { env: env@, out: out@, input: input.deep_view().skip(*cursor as int) },
            );
            if a > b {
                return None;
            }
            let n64: u64 = ((b as i64) - (a as i64) + 1) as u64;
            let mut k: u64 = 0;
            while k < n64
        invariant
            n64 as int == b as int - a as int + 1,
            a <= b,
            k <= n64,
            env.wf(),
            *old(cursor) <= *cursor <= input@.len(),
            stmts_of(ast.arena@, ast.arena@[c2 as int].children@, c2 as int) == Some(body),
            (c2 as int) < h as int,
            (c2 as int) < ast.arena@.len(),
            ({
                let rr = run_stmt(
                    stmt_of(ast.arena@, h as int).unwrap(),
                    StateS {
                        env: old(env)@,
                        out: old(out)@,
                        input: input.deep_view().skip(*old(cursor) as int),
                    },
                );
                rr == target
            }),
            target == run_for(
                nm@,
                body,
                a as int + k as int,
                (n64 - k) as nat,
                StateS { env: env@, out: out@, input: input.deep_view().skip(*cursor as int) },
            ),
        decreases n64 - k,
            {
                let ghost st_pre = StateS {
                    env: env@,
                    out: out@,
                    input: input.deep_view().skip(*cursor as int),
                };
                let err = exec_stmts(ast, env, out, input, cursor, &ast.arena[c2].children, Ghost(c2 as int));
                proof {
                    let rr = run_stmts_from(body, 0, st_pre);
                    assert(run_for(nm@, body, a as int + k as int, (n64 - k) as nat, st_pre)
                        == if rr.err is Some {
                        rr
                    } else {
                        run_for(
                            nm@,
                            body,
                            a as int + k as int + 1,
                            (n64 - k - 1) as nat,
                            StateS {
                                env: rr.state.env.insert(
                                    nm@,
                                    BindingS {
                                        ty: VariableType::Int,
                                        val: ValueS::IntV(wrap_i32(a as int + k as int + 1)),
                                    },
                                ),
                                ..rr.state
                            },
                        )
                    });
                }
                if let Some(e) = err {
                    return Some(e);
                }
                let cur: i32 = ((a as i64) + (k as i64)) as i32;
                let nxt: i32 = add_wrap(cur, 1);
                env.insert(
                    RunTimeVariable {
                        name: nm.clone(),
                        var_type: VariableType::Int,
                        value: Value::Int(nxt),
                    },
                );
                k = k + 1;
            }
            None
        },
        _ => {
            proof {
                assert(false);
            }
            None
        },
    }
}

/// Executes the statements at the handles `hs`, in order, stopping at
/// the first fault. The ghost bound `b` dominates every handle in `hs`.
fn exec_stmts(
    ast: &ArenaTree,
    env: &mut Environment,
    out: &mut String,
    input: &Vec<String>,
    cursor: &mut usize,
    hs: &Vec<usize>,
    Ghost(b): Ghost<int>,
) -> (r: Option<InterpretError>)
    requires
        stmts_of(ast.arena@, hs@, b) is Some,
        0 <= b,
        old(env).wf(),
        *old(cursor) <= input@.len(),
    ensures
        final(env).wf(),
        *old(cursor) <= *final(cursor) <= input@.len(),
        ({
            let rr = run_stmts_from(
                stmts_of(ast.arena@, hs@, b).unwrap(),
                0,
                StateS {
                    env: old(env)@,
                    out: old(out)@,
                    input: input.deep_view().skip(*old(cursor) as int),
                },
            );
            rr.state.env == final(env)@ && rr.state.out == final(out)@ && rr.state.input
                == input.deep_view().skip(*final(cursor) as int) && r == rr.err
        }),
    decreases b,
{
    let ghost stmts = stmts_of(ast.arena@, hs@, b).unwrap();
    proof {
        lemma_stmts_of_all_below(ast.arena@, hs@, b);
    }
    let ghost target = run_stmts_from(
        stmts,
        0,
        StateS { env: env@, out: out@, input: input.deep_view().skip(*cursor as int) },
    );
    let mut j: usize = 0;
    while j < hs.len()
        invariant
            j <= hs@.len(),
            stmts_of(ast.arena@, hs@, b) == Some(stmts),
            stmts.len() == hs@.len(),
            forall|m: int|
                0 <= m < hs@.len() ==> #[trigger] stmt_of(ast.arena@, hs@[m] as int) is Some
                    && stmts[m] == stmt_of(ast.arena@, hs@[m] as int).unwrap() && (hs@[m] as int)
                    < b,
            env.wf(),
            *old(cursor) <= *cursor <= input@.len(),
            target == run_stmts_from(
                stmts,
                0,
                StateS {
                    env: old(env)@,
                    out: old(out)@,
                    input: input.deep_view().skip(*old(cursor) as int),
                },
            ),
            target == run_stmts_from(
                stmts,
                j as int,
                StateS { env: env@, out: out@, input: input.deep_view().skip(*cursor as int) },
            ),
        decreases hs@.len() - j,
    {
        let hj = hs[j];
        proof {
            assert(stmt_of(ast.arena@, hs@[j as int] as int) is Some && (hs@[j as int] as int)
                < b);
        }
        let ghost st_pre = StateS {
            env: env@,
            out: out@,
            input: input.deep_view().skip(*cursor as int),
        };
        let e = exec_stmt_at(ast, env, out, input, cursor, hj);
        proof {
            assert(stmts[j as int] == stmt_of(ast.arena@, hs@[j as int] as int).unwrap());
            let rr = run_stmt(stmts[j as int], st_pre);
            assert(run_stmts_from(stmts, j as int, st_pre) == if rr.err is Some {
                rr
            } else {
                run_stmts_from(stmts, j as int + 1, rr.state)
            });
        }
        if let Some(err) = e {
            return Some(err);
        }
        j = j + 1;
    }
    None
}

// ---------------------------------------------------------------------------
// The interpreter.
// ---------------------------------------------------------------------------

/// The interpreter: the tree to execute and the runtime environment it
/// owns.
pub struct Interpreter {
    ast: ArenaTree,
    variables: Environment,
}

impl Interpreter {
    /// The tree this interpreter executes.
    pub closed spec fn ast_spec(&self) -> Seq<crate::ast::Node> {
        self.ast.arena@
    }

    /// The environment's current bindings.
    pub closed spec fn env_spec(&self) -> Map<Seq<char>, BindingS> {
        self.variables@
    }

    /// Internal consistency of the environment.
    pub closed spec fn wf(&self) -> bool {
        self.variables.wf()
    }

    /// A fresh interpreter for the given tree, with an empty
    /// environment.
    pub fn new(ast: ArenaTree) -> (r: Interpreter)
        ensures
            r.ast_spec() == ast.arena@,
            r.env_spec() == Map::<Seq<char>, BindingS>::empty(),
            r.wf(),
    {
        Interpreter { ast, variables: Environment::new() }
    }

    /// Runs the program against the given input lines. Returns the whole
    /// output and, if a fault stopped the run, that fault; printing done
    /// before the fault is kept.
    pub fn interpret(&mut self, input: &Vec<String>) -> (r: (String, Option<InterpretError>))
        requires
            prog_of(old(self).ast_spec()) is Some,
            old(self).wf(),
        ensures
            final(self).wf(),
            final(self).ast_spec() == old(self).ast_spec(),
            ({
                let rr = run_stmts_from(
                    prog_of(old(self).ast_spec()).unwrap().stmts,
                    0,
                    StateS {
                        env: old(self).env_spec(),
                        out: Seq::empty(),
                        input: input.deep_view(),
                    },
                );
                r.0@ == rr.state.out && r.1 == rr.err && final(self).env_spec() == rr.state.env
            }),
    {
        let root = self.ast.arena.len() - 1;
        let mut out = String::new();
        let mut cursor: usize = 0;
        proof {
            assert(input.deep_view().skip(0) =~= input.deep_view());
        }
        let err = exec_stmts(
            &self.ast,
            &mut self.variables,
            &mut out,
            input,
            &mut cursor,
            &self.ast.arena[root].children,
            Ghost(root as int),
        );
        (out, err)
    }
}

} // verus!
