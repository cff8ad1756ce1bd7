//! The abstract syntax tree: executable arena form and mathematical form.
//!
//! The parser builds nodes in a single append-only arena addressed by
//! integer handles; children always have smaller handles than their parent,
//! and the program's root is the last node. The mathematical model is a
//! recursive tree (`ProgramS`, `StmtS`, `ExprS`), read off the arena by the
//! view functions `prog_of`, `stmt_of` and `expr_of`; a malformed arena has
//! no view.

use vstd::prelude::*;

verus! {

/// The declared type of a variable, constant or expression.
#[derive(Clone, Copy, Debug, PartialEq, Eq, Structural)]
pub enum VariableType {
    Str,
    Int,
    Bool,
}

/// A source position: 1-based line and column.
#[derive(Clone, Copy, Debug, PartialEq, Eq, Structural)]
pub struct SourceInfo {
    pub line: i32,
    pub column: i32,
}

/// A variable occurrence: its name, declared type, and declaration site.
#[derive(Clone, Debug, PartialEq)]
pub struct VariableInfo {
    pub name: String,
    pub var_type: VariableType,
    pub source_info: SourceInfo,
}

/// A literal occurrence: its raw text, type tag, and source position.
#[derive(Clone, Debug, PartialEq)]
pub struct ConstantInfo {
    pub value: String,
    pub const_type: VariableType,
    pub source_info: SourceInfo,
}

impl VariableInfo {
    /// A copy of this payload, field for field.
    pub fn duplicate(&self) -> (r: VariableInfo)
        ensures
            r.name@ == self.name@,
            r.var_type == self.var_type,
            r.source_info == self.source_info,
            var_s(r) == var_s(*self),
    {
        VariableInfo {
            name: self.name.clone(),
            var_type: self.var_type,
            source_info: self.source_info,
        }
    }
}

/// The binary operators of the language.
#[derive(Clone, Copy, Debug, PartialEq, Eq, Structural)]
pub enum BinOpType {
    Plus,
    Minus,
    Multiply,
    Divide,
    LessThan,
    Equal,
    And,
}

/// The tag of an arena node, with the payload its tag requires.
#[derive(Clone, Debug, PartialEq)]
pub enum AstItem {
    Assign,
    Variable(VariableInfo),
    Constant(ConstantInfo),
    Not,
    BinOp(BinOpType),
    Read,
    Print,
    Assert,
    Block,
    For,
    Range,
    Root,
}

/// One arena slot: a node's payload and the handles of its children,
/// in grammar order.
#[derive(Clone, Debug, PartialEq)]
pub struct Node {
    pub val: AstItem,
    pub children: Vec<usize>,
}

/// The append-only node store. Handles are indices; children precede
/// their parent, and a completed program's root is the final node.
#[derive(Clone, Debug, PartialEq)]
pub struct ArenaTree {
    pub arena: Vec<Node>,
}

// ---------------------------------------------------------------------------
// The mathematical form of the tree.
// ---------------------------------------------------------------------------

/// A variable occurrence in the mathematical tree.
pub ghost struct VarS {
    pub name: Seq<char>,
    pub ty: VariableType,
    pub line: int,
    pub col: int,
}

/// A literal occurrence in the mathematical tree.
pub ghost struct ConstS {
    pub text: Seq<char>,
    pub ty: VariableType,
    pub line: int,
    pub col: int,
}

/// An expression of the mathematical tree.
pub ghost enum ExprS {
    Constant(ConstS),
    Variable(VarS),
    NotOp(Box<ExprS>),
    Binary(BinOpType, Box<ExprS>, Box<ExprS>),
}

/// A statement of the mathematical tree.
pub ghost enum StmtS {
    Assign { target: VarS, value: Option<ExprS> },
    Read { target: VarS },
    Print(ExprS),
    Assert(ExprS),
    For { control: VarS, lo: ExprS, hi: ExprS, body: Seq<StmtS> },
}

/// A whole program: its statements in order.
pub ghost struct ProgramS {
    pub stmts: Seq<StmtS>,
}

/// The mathematical form of a variable payload.
pub open spec fn var_s(v: VariableInfo) -> VarS {
    VarS {
        name: v.name@,
        ty: v.var_type,
        line: v.source_info.line as int,
        col: v.source_info.column as int,
    }
}

/// The mathematical form of a literal payload.
pub open spec fn const_s(c: ConstantInfo) -> ConstS {
    ConstS {
        text: c.value@,
        ty: c.const_type,
        line: c.source_info.line as int,
        col: c.source_info.column as int,
    }
}

/// The expression rooted at handle `h`, if the arena is well formed there.
pub open spec fn expr_of(nodes: Seq<Node>, h: int) -> Option<ExprS>
    decreases h,
{
    if !(0 <= h < nodes.len()) {
        None
    } else {
        let n = nodes[h];
        match n.val {
            AstItem::Constant(c) => {
                if n.children@.len() == 0 {
                    Some(ExprS::Constant(const_s(c)))
                } else {
                    None
                }
            },
            AstItem::Variable(v) => {
                if n.children@.len() == 0 {
                    Some(ExprS::Variable(var_s(v)))
                } else {
                    None
                }
            },
            AstItem::Not => {
                if n.children@.len() == 1 && (n.children@[0] as int) < h {
                    match expr_of(nodes, n.children@[0] as int) {
                        Some(e) => Some(ExprS::NotOp(Box::new(e))),
                        None => None,
                    }
                } else {
                    None
                }
            },
            AstItem::BinOp(op) => {
                if n.children@.len() == 2 && (n.children@[0] as int) < h && (n.children@[1] as int)
                    < h {
                    match (expr_of(nodes, n.children@[0] as int), expr_of(
                        nodes,
                        n.children@[1] as int,
                    )) {
                        (Some(a), Some(b)) => Some(ExprS::Binary(op, Box::new(a), Box::new(b))),
                        _ => None,
                    }
                } else {
                    None
                }
            },
            _ => None,
        }
    }
}

/// The variable payload at handle `i`, if that node is a childless
/// `Variable` node.
pub open spec fn leaf_var(nodes: Seq<Node>, i: int) -> Option<VarS> {
    if 0 <= i < nodes.len() {
        match nodes[i].val {
            AstItem::Variable(v) => {
                if nodes[i].children@.len() == 0 {
                    Some(var_s(v))
                } else {
                    None
                }
            },
            _ => None,
        }
    } else {
        None
    }
}

/// The pair of range-bound expressions at handle `i`, if that node is a
/// `Range` node with two expression children below it.
pub open spec fn range_of(nodes: Seq<Node>, i: int) -> Option<(ExprS, ExprS)> {
    if 0 <= i < nodes.len() {
        let n = nodes[i];
        match n.val {
            AstItem::Range => {
                if n.children@.len() == 2 && (n.children@[0] as int) < i && (n.children@[1] as int)
                    < i {
                    match (expr_of(nodes, n.children@[0] as int), expr_of(
                        nodes,
                        n.children@[1] as int,
                    )) {
                        (Some(a), Some(b)) => Some((a, b)),
                        _ => None,
                    }
                } else {
                    None
                }
            },
            _ => None,
        }
    } else {
        None
    }
}

/// The statement rooted at handle `h`, if the arena is well formed there.
pub open spec fn stmt_of(nodes: Seq<Node>, h: int) -> Option<StmtS>
    decreases h, 0int, 0int,
{
    if !(0 <= h < nodes.len()) {
        None
    } else {
        let n = nodes[h];
        match n.val {
            AstItem::Assign => {
                if n.children@.len() == 1 && (n.children@[0] as int) < h {
                    match leaf_var(nodes, n.children@[0] as int) {
                        Some(v) => Some(StmtS::Assign { target: v, value: None }),
                        None => None,
                    }
                } else if n.children@.len() == 2 && (n.children@[0] as int) < h && (
                n.children@[1] as int) < h {
                    match (leaf_var(nodes, n.children@[0] as int), expr_of(
                        nodes,
                        n.children@[1] as int,
                    )) {
                        (Some(v), Some(e)) => Some(StmtS::Assign { target: v, value: Some(e) }),
                        _ => None,
                    }
                } else {
                    None
                }
            },
            AstItem::Read => {
                if n.children@.len() == 1 && (n.children@[0] as int) < h {
                    match leaf_var(nodes, n.children@[0] as int) {
                        Some(v) => Some(StmtS::Read { target: v }),
                        None => None,
                    }
                } else {
                    None
                }
            },
            AstItem::Print => {
                if n.children@.len() == 1 && (n.children@[0] as int) < h {
                    match expr_of(nodes, n.children@[0] as int) {
                        Some(e) => Some(StmtS::Print(e)),
                        None => None,
                    }
                } else {
                    None
                }
            },
            AstItem::Assert => {
                if n.children@.len() == 1 && (n.children@[0] as int) < h {
                    match expr_of(nodes, n.children@[0] as int) {
                        Some(e) => Some(StmtS::Assert(e)),
                        None => None,
                    }
                } else {
                    None
                }
            },
            AstItem::For => {
                if n.children@.len() == 3 && (n.children@[0] as int) < h && (n.children@[1] as int)
                    < h && (n.children@[2] as int) < h {
                    let b = n.children@[2] as int;
                    if nodes[b].val is Block {
                        match (
                            leaf_var(nodes, n.children@[0] as int),
                            range_of(nodes, n.children@[1] as int),
                            stmts_of(nodes, nodes[b].children@, b),
                        ) {
                            (Some(v), Some((lo, hi)), Some(body)) => Some(
                                StmtS::For { control: v, lo: lo, hi: hi, body: body },
                            ),
                            _ => None,
                        }
                    } else {
                        None
                    }
                } else {
                    None
                }
            },
            _ => None,
        }
    }
}

/// The statement sequence at the handles `hs`, all of which must lie below
/// the bound `b`.
pub open spec fn stmts_of(nodes: Seq<Node>, hs: Seq<usize>, b: int) -> Option<Seq<StmtS>>
    decreases b, 1int, hs.len(),
{
    if hs.len() == 0 {
        Some(Seq::empty())
    } else if (hs[0] as int) < b && 0 <= b {
        match stmt_of(nodes, hs[0] as int) {
            Some(s) => {
                match stmts_of(nodes, hs.drop_first(), b) {
                    Some(r) => Some(seq![s] + r),
                    None => None,
                }
            },
            None => None,
        }
    } else {
        None
    }
}

/// The whole program held by the arena: the root is the final node, its
/// children are the top-level statements.
pub open spec fn prog_of(nodes: Seq<Node>) -> Option<ProgramS> {
    let r = nodes.len() - 1;
    if nodes.len() > 0 && nodes[r].val is Root {
        match stmts_of(nodes, nodes[r].children@, r) {
            Some(ss) => Some(ProgramS { stmts: ss }),
            None => None,
        }
    } else {
        None
    }
}

// ---------------------------------------------------------------------------
// Appending nodes never disturbs the view of what was already there.
// ---------------------------------------------------------------------------

/// `expr_of` reads only slots up to its handle, so extending the arena
/// preserves it.
pub proof fn lemma_expr_of_prefix(n1: Seq<Node>, n2: Seq<Node>, h: int)
    requires
        n1.len() <= n2.len(),
        forall|k: int| 0 <= k < n1.len() ==> n2[k] == n1[k],
        0 <= h < n1.len(),
    ensures
        expr_of(n2, h) == expr_of(n1, h),
    decreases h,
{
    let n = n1[h];
    match n.val {
        AstItem::Not => {
            if n.children@.len() == 1 && (n.children@[0] as int) < h {
                lemma_expr_of_prefix(n1, n2, n.children@[0] as int);
            }
        },
        AstItem::BinOp(_) => {
            if n.children@.len() == 2 && (n.children@[0] as int) < h && (n.children@[1] as int)
                < h {
                lemma_expr_of_prefix(n1, n2, n.children@[0] as int);
                lemma_expr_of_prefix(n1, n2, n.children@[1] as int);
            }
        },
        _ => {},
    }
}

/// `stmt_of` reads only slots up to its handle, so extending the arena
/// preserves it.
pub proof fn lemma_stmt_of_prefix(n1: Seq<Node>, n2: Seq<Node>, h: int)
    requires
        n1.len() <= n2.len(),
        forall|k: int| 0 <= k < n1.len() ==> n2[k] == n1[k],
        0 <= h < n1.len(),
    ensures
        stmt_of(n2, h) == stmt_of(n1, h),
    decreases h, 0int, 0int,
{
    let n = n1[h];
    match n.val {
        AstItem::Assign => {
            if n.children@.len() == 2 && (n.children@[1] as int) < h {
                lemma_expr_of_prefix(n1, n2, n.children@[1] as int);
            }
        },
        AstItem::Print => {
            if n.children@.len() == 1 && (n.children@[0] as int) < h {
                lemma_expr_of_prefix(n1, n2, n.children@[0] as int);
            }
        },
        AstItem::Assert => {
            if n.children@.len() == 1 && (n.children@[0] as int) < h {
                lemma_expr_of_prefix(n1, n2, n.children@[0] as int);
            }
        },
        AstItem::For => {
            if n.children@.len() == 3 && (n.children@[0] as int) < h && (n.children@[1] as int)
                < h && (n.children@[2] as int) < h {
                let r = n.children@[1] as int;
                let b = n.children@[2] as int;
                let rn = n1[r];
                if rn.val is Range && rn.children@.len() == 2 && (rn.children@[0] as int) < r && (
                rn.children@[1] as int) < r {
                    lemma_expr_of_prefix(n1, n2, rn.children@[0] as int);
                    lemma_expr_of_prefix(n1, n2, rn.children@[1] as int);
                }
                if n1[b].val is Block {
                    lemma_stmts_of_prefix(n1, n2, n1[b].children@, b);
                }
            }
        },
        _ => {},
    }
}

/// `stmts_of` reads only slots below its bound, so extending the arena
/// preserves it.
pub proof fn lemma_stmts_of_prefix(n1: Seq<Node>, n2: Seq<Node>, hs: Seq<usize>, b: int)
    requires
        n1.len() <= n2.len(),
        forall|k: int| 0 <= k < n1.len() ==> n2[k] == n1[k],
        0 <= b <= n1.len(),
    ensures
        stmts_of(n2, hs, b) == stmts_of(n1, hs, b),
    decreases b, 1int, hs.len(),
{
    if hs.len() == 0 {
    } else if (hs[0] as int) < b {
        lemma_stmt_of_prefix(n1, n2, hs[0] as int);
        lemma_stmts_of_prefix(n1, n2, hs.drop_first(), b);
    }
}

/// Prefix extension is transitive.
pub proof fn lemma_prefix_trans(a: Seq<Node>, b: Seq<Node>, c: Seq<Node>)
    requires
        a.is_prefix_of(b),
        b.is_prefix_of(c),
    ensures
        a.is_prefix_of(c),
{
    assert(a =~= c.subrange(0, a.len() as int));
}

/// `expr_of` survives growing the arena.
pub proof fn lemma_expr_of_grow(n1: Seq<Node>, n2: Seq<Node>, h: int)
    requires
        n1.is_prefix_of(n2),
        0 <= h < n1.len(),
    ensures
        expr_of(n2, h) == expr_of(n1, h),
{
    assert forall|k: int| 0 <= k < n1.len() implies n2[k] == n1[k] by {
        assert(n1[k] == n2.subrange(0, n1.len() as int)[k]);
    }
    lemma_expr_of_prefix(n1, n2, h);
}

/// `stmt_of` survives growing the arena.
pub proof fn lemma_stmt_of_grow(n1: Seq<Node>, n2: Seq<Node>, h: int)
    requires
        n1.is_prefix_of(n2),
        0 <= h < n1.len(),
    ensures
        stmt_of(n2, h) == stmt_of(n1, h),
{
    assert forall|k: int| 0 <= k < n1.len() implies n2[k] == n1[k] by {
        assert(n1[k] == n2.subrange(0, n1.len() as int)[k]);
    }
    lemma_stmt_of_prefix(n1, n2, h);
}

/// `stmts_of` survives growing the arena.
pub proof fn lemma_stmts_of_grow(n1: Seq<Node>, n2: Seq<Node>, hs: Seq<usize>, b: int)
    requires
        n1.is_prefix_of(n2),
        0 <= b <= n1.len(),
    ensures
        stmts_of(n2, hs, b) == stmts_of(n1, hs, b),
{
    assert forall|k: int| 0 <= k < n1.len() implies n2[k] == n1[k] by {
        assert(n1[k] == n2.subrange(0, n1.len() as int)[k]);
    }
    lemma_stmts_of_prefix(n1, n2, hs, b);
}

/// A bound only gates the handles: any larger bound reads the same
/// statements.
pub proof fn lemma_stmts_of_bound(nodes: Seq<Node>, hs: Seq<usize>, b1: int, b2: int)
    requires
        stmts_of(nodes, hs, b1) is Some,
        b1 <= b2,
    ensures
        stmts_of(nodes, hs, b2) == stmts_of(nodes, hs, b1),
    decreases hs.len(),
{
    if hs.len() > 0 {
        lemma_stmts_of_bound(nodes, hs.drop_first(), b1, b2);
    }
}

/// Appending one more statement handle below the bound appends its
/// statement.
pub proof fn lemma_stmts_of_push(nodes: Seq<Node>, hs: Seq<usize>, b: int, h: usize)
    requires
        stmts_of(nodes, hs, b) is Some,
        stmt_of(nodes, h as int) is Some,
        (h as int) < b,
        0 <= b,
    ensures
        stmts_of(nodes, hs.push(h), b) == Some(
            stmts_of(nodes, hs, b).unwrap().push(stmt_of(nodes, h as int).unwrap()),
        ),
    decreases hs.len(),
{
    if hs.len() == 0 {
        assert(hs.push(h)[0] == h);
        assert(hs.push(h).drop_first() =~= Seq::<usize>::empty());
        assert(stmts_of(nodes, hs.push(h).drop_first(), b) == Some(Seq::<StmtS>::empty()));
        assert(stmts_of(nodes, hs.push(h), b) == Some(
            seq![stmt_of(nodes, h as int).unwrap()] + Seq::<StmtS>::empty(),
        ));
        assert(seq![stmt_of(nodes, h as int).unwrap()] + Seq::<StmtS>::empty() =~= stmts_of(
            nodes,
            hs,
            b,
        ).unwrap().push(stmt_of(nodes, h as int).unwrap()));
    } else {
        lemma_stmts_of_push(nodes, hs.drop_first(), b, h);
        assert(hs.push(h).drop_first() =~= hs.drop_first().push(h));
        assert(hs.push(h)[0] == hs[0]);
        let s0 = stmt_of(nodes, hs[0] as int).unwrap();
        let rest = stmts_of(nodes, hs.drop_first().push(h), b).unwrap();
        assert(stmts_of(nodes, hs.push(h), b) == Some(seq![s0] + rest));
        assert(seq![s0] + rest =~= stmts_of(nodes, hs, b).unwrap().push(
            stmt_of(nodes, h as int).unwrap(),
        ));
    }
}

/// `prog_of` is preserved when nothing at all changes; stated on the full
/// sequence, it needs no lemma. What parsers use is the statement-level
/// stability above.
pub proof fn lemma_stmts_of_all_below(nodes: Seq<Node>, hs: Seq<usize>, b: int)
    requires
        stmts_of(nodes, hs, b) is Some,
    ensures
        forall|j: int| 0 <= j < hs.len() ==> (hs[j] as int) < b,
        stmts_of(nodes, hs, b).unwrap().len() == hs.len(),
        forall|j: int|
            0 <= j < hs.len() ==> #[trigger] stmt_of(nodes, hs[j] as int) is Some && stmts_of(
                nodes,
                hs,
                b,
            ).unwrap()[j] == stmt_of(nodes, hs[j] as int).unwrap(),
    decreases hs.len(),
{
    if hs.len() > 0 {
        lemma_stmts_of_all_below(nodes, hs.drop_first(), b);
        let s0 = stmt_of(nodes, hs[0] as int).unwrap();
        let rest = stmts_of(nodes, hs.drop_first(), b).unwrap();
        assert(stmts_of(nodes, hs, b).unwrap() == seq![s0] + rest);
        assert forall|j: int| 0 <= j < hs.len() implies (hs[j] as int) < b by {
            if j > 0 {
                assert(hs.drop_first()[j - 1] == hs[j]);
            }
        }
        assert forall|j: int|
            0 <= j < hs.len() implies #[trigger] stmt_of(nodes, hs[j] as int) is Some && stmts_of(
            nodes,
            hs,
            b,
        ).unwrap()[j] == stmt_of(nodes, hs[j] as int).unwrap() by {
            if j > 0 {
                assert(hs.drop_first()[j - 1] == hs[j]);
                assert((seq![s0] + rest)[j] == rest[j - 1]);
            } else {
                assert((seq![s0] + rest)[0] == s0);
            }
        }
    }
}

} // verus!
