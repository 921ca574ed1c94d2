//! Expressions, aggregate calls, and their wire form.
use std::rc::Rc;

use vstd::prelude::*;

use crate::property::ColumnOrder;
use crate::scalar::{datum_model, DataType, Datum};
use crate::value_encoding::{datum_bytes, serialize_datum_into};

verus! {

/// A reference to a column of the input.
#[derive(Debug, PartialEq, Eq, Hash)]
pub struct InputRef {
    pub index: usize,
    pub data_type: Rc<DataType>,
}

impl InputRef {
    pub fn new(index: usize, data_type: DataType) -> (r: Self)
        ensures
            r.index == index,
            *r.data_type == data_type,
    {
        InputRef { index, data_type: Rc::new(data_type) }
    }
}

/// A constant.
#[derive(Debug, PartialEq, Eq, Hash)]
pub struct Literal {
    pub data: Datum,
    pub data_type: Rc<DataType>,
}

/// The functions that expressions are made of.
#[derive(Clone, Copy, Debug, PartialEq, Eq, Hash, Structural)]
pub enum ExprType {
    And,
    Or,
    Not,
    Equal,
    NotEqual,
    LessThan,
    LessThanOrEqual,
    GreaterThan,
    GreaterThanOrEqual,
    Add,
    Subtract,
    Multiply,
    Divide,
}

/// A function applied to expressions.
#[derive(Debug, PartialEq, Eq, Hash)]
pub struct FunctionCall {
    pub func_type: ExprType,
    pub return_type: Rc<DataType>,
    pub inputs: Vec<ExprImpl>,
}

/// An expression.
#[derive(Debug, PartialEq, Eq, Hash)]
pub enum ExprImpl {
    InputRef(Box<InputRef>),
    Literal(Box<Literal>),
    FunctionCall(Box<FunctionCall>),
}

/// The wire form of an expression.
#[derive(Debug)]
pub struct ExprNode {
    pub return_type: Rc<DataType>,
    pub rex_node: RexNode,
}

/// What an expression is, in its wire form.
#[derive(Debug)]
pub enum RexNode {
    /// A column of the input.
    InputRef(u32),
    /// A constant, in its byte form.
    Constant(Vec<u8>),
    /// A function, and the expressions that it is applied to.
    FuncCall(ExprType, Vec<ExprNode>),
}

/// `node` is the wire form of `expr`.
pub open spec fn expr_on_wire(expr: ExprImpl, node: ExprNode) -> bool
    decreases expr,
{
    match expr {
        ExprImpl::InputRef(r) => {
            &&& node.rex_node matches RexNode::InputRef(column) && column == r.index as u32
            &&& node.return_type == r.data_type
        },
        ExprImpl::Literal(l) => {
            &&& node.rex_node matches RexNode::Constant(bytes) && bytes@ == datum_bytes(
                datum_model(l.data),
            )
            &&& node.return_type == l.data_type
        },
        ExprImpl::FunctionCall(call) => {
            &&& node.rex_node matches RexNode::FuncCall(func_type, children) && {
                &&& func_type == call.func_type
                &&& children@.len() == call.inputs@.len()
                &&& forall|i: int|
                    #![trigger call.inputs@[i]]
                    0 <= i < call.inputs@.len() ==> expr_on_wire(call.inputs@[i], children@[i])
            }
            &&& node.return_type == call.return_type
        },
    }
}

impl ExprImpl {
    /// The wire form.
    pub fn to_expr_proto(&self) -> (r: ExprNode)
        ensures
            expr_on_wire(*self, r),
        decreases self,
    {
        match self {
            ExprImpl::InputRef(input_ref) => ExprNode {
                return_type: input_ref.data_type.clone(),
                rex_node: RexNode::InputRef(input_ref.index as u32),
            },
            ExprImpl::Literal(literal) => {
                let mut bytes: Vec<u8> = Vec::new();
                serialize_datum_into(&literal.data, &mut bytes);
                assert(bytes@ =~= datum_bytes(datum_model(literal.data)));
                ExprNode {
                    return_type: literal.data_type.clone(),
                    rex_node: RexNode::Constant(bytes),
                }
            },
            ExprImpl::FunctionCall(call) => {
                let mut children: Vec<ExprNode> = Vec::new();
                let mut i: usize = 0;
                while i < call.inputs.len()
                    invariant
                        i <= call.inputs@.len(),
                        *self == ExprImpl::FunctionCall(*call),
                        children@.len() == i,
                        forall|j: int|
                            #![trigger call.inputs@[j]]
                            0 <= j < i ==> expr_on_wire(call.inputs@[j], children@[j]),
                    decreases call.inputs@.len() - i,
                {
                    proof {
                        assert(decreases_to!(*self => self->FunctionCall_0));
                        assert(decreases_to!(self->FunctionCall_0 => call.inputs));
                        assert(decreases_to!(call.inputs => call.inputs@));
                        assert(decreases_to!(call.inputs@ => call.inputs@[i as int]));
                    }
                    children.push(call.inputs[i].to_expr_proto());
                    i = i + 1;
                }
                ExprNode {
                    return_type: call.return_type.clone(),
                    rex_node: RexNode::FuncCall(call.func_type, children),
                }
            },
        }
    }
}

/// All of the expressions must hold.
#[derive(Debug, PartialEq, Eq, Hash)]
pub struct Condition {
    pub conjunctions: Vec<ExprImpl>,
}

/// `node` is the wire form of the conjunction of `exprs`, joined from the left.
pub open spec fn conjunction_on_wire(exprs: Seq<ExprImpl>, node: ExprNode) -> bool
    decreases exprs.len(),
{
    if exprs.len() == 0 {
        false
    } else if exprs.len() == 1 {
        expr_on_wire(exprs[0], node)
    } else {
        &&& node.rex_node matches RexNode::FuncCall(func_type, children) && {
            &&& func_type == ExprType::And
            &&& children@.len() == 2
            &&& conjunction_on_wire(exprs.drop_last(), children@[0])
            &&& expr_on_wire(exprs.last(), children@[1])
        }
        &&& *node.return_type == DataType::Boolean
    }
}

impl Condition {
    /// The wire form, unless the condition always holds.
    pub fn to_proto_unless_true(&self) -> (r: Option<ExprNode>)
        ensures
            r is None <==> self.conjunctions@.len() == 0,
            r matches Some(node) ==> conjunction_on_wire(self.conjunctions@, node),
    {
        if self.conjunctions.len() == 0 {
            return None;
        }
        let mut node = self.conjunctions[0].to_expr_proto();
        let mut i: usize = 1;
        assert(self.conjunctions@.take(1)[0] == self.conjunctions@[0]);
        while i < self.conjunctions.len()
            invariant
                1 <= i <= self.conjunctions@.len(),
                conjunction_on_wire(self.conjunctions@.take(i as int), node),
            decreases self.conjunctions@.len() - i,
        {
            let next = self.conjunctions[i].to_expr_proto();
            let mut children: Vec<ExprNode> = Vec::new();
            children.push(node);
            children.push(next);
            proof {
                let longer = self.conjunctions@.take(i + 1);
                assert(longer.drop_last() =~= self.conjunctions@.take(i as int));
                assert(longer.last() == self.conjunctions@[i as int]);
            }
            node =
            ExprNode {
                return_type: Rc::new(DataType::Boolean),
                rex_node: RexNode::FuncCall(ExprType::And, children),
            };
            i = i + 1;
        }
        assert(self.conjunctions@.take(self.conjunctions@.len() as int) =~= self.conjunctions@);
        Some(node)
    }

    /// The condition over the rewritten expressions.
    pub fn rewrite_expr<R: ExprRewriter>(&self, rewriter: &mut R) -> (r: Condition)
        ensures
            rewrites_all(
                *old(rewriter),
                self.conjunctions@,
                r.conjunctions@,
                *final(rewriter),
            ),
    {
        let mut out: Vec<ExprImpl> = Vec::new();
        let mut i: usize = 0;
        assert(rewrites_all(
            *old(rewriter),
            self.conjunctions@.take(0),
            out@,
            *rewriter,
        ));
        while i < self.conjunctions.len()
            invariant
                i <= self.conjunctions@.len(),
                rewrites_all(
                    *old(rewriter),
                    self.conjunctions@.take(i as int),
                    out@,
                    *rewriter,
                ),
            decreases self.conjunctions@.len() - i,
        {
            let ghost (mid, before) = (*rewriter, out@);
            let expr = rewriter.rewrite_expr(&self.conjunctions[i]);
            out.push(expr);
            proof {
                let longer = self.conjunctions@.take(i + 1);
                assert(longer.drop_last() =~= self.conjunctions@.take(i as int));
                assert(out@.drop_last() =~= before);
                assert(rewrites_all(*old(rewriter), longer.drop_last(), out@.drop_last(), mid));
                assert(R::rewrites(mid, longer.last(), out@.last(), *rewriter));
            }
            i = i + 1;
        }
        assert(self.conjunctions@.take(self.conjunctions@.len() as int) =~= self.conjunctions@);
        Condition { conjunctions: out }
    }
}

/// Turns expressions into others. A rewriter may remember what it has seen.
pub trait ExprRewriter: Sized {
    /// A rewriter in the state `before` may turn `expr` into `result`, and be in the state
    /// `after` then.
    spec fn rewrites(before: Self, expr: ExprImpl, result: ExprImpl, after: Self) -> bool;

    fn rewrite_expr(&mut self, expr: &ExprImpl) -> (r: ExprImpl)
        ensures
            Self::rewrites(*old(self), *expr, r, *final(self)),
    ;
}

/// The rewriter turns `exprs` into `results`, one after the other.
pub open spec fn rewrites_all<R: ExprRewriter>(
    before: R,
    exprs: Seq<ExprImpl>,
    results: Seq<ExprImpl>,
    after: R,
) -> bool
    decreases exprs.len(),
{
    if exprs.len() == 0 {
        results.len() == 0 && before == after
    } else {
        &&& results.len() == exprs.len()
        &&& exists|mid: R|
            rewrites_all(before, exprs.drop_last(), results.drop_last(), mid) && #[trigger]
            R::rewrites(mid, exprs.last(), results.last(), after)
    }
}

/// The aggregate functions.
#[derive(Clone, Copy, Debug, PartialEq, Eq, Hash, Structural)]
pub enum AggKind {
    BitXor,
    Min,
    Max,
    Sum,
    Count,
    Avg,
    StringAgg,
    ArrayAgg,
    FirstValue,
}

/// A column of a plan.
#[derive(Debug, PartialEq, Eq, Hash)]
pub struct Field {
    pub name: String,
    pub data_type: Rc<DataType>,
}

/// An aggregate function, applied to columns.
#[derive(Debug, PartialEq, Eq, Hash)]
pub struct PlanAggCall {
    pub agg_kind: AggKind,
    /// The column that holds the result.
    pub output: Rc<Field>,
    pub inputs: Rc<Vec<InputRef>>,
    pub distinct: bool,
    pub order_by: Rc<Vec<ColumnOrder>>,
    pub filter: Condition,
}

/// The wire form of an aggregate call.
#[derive(Debug)]
pub struct AggCall {
    pub agg_kind: AggKind,
    pub args: Vec<ExprNode>,
    pub return_type: Rc<DataType>,
    pub distinct: bool,
    pub order_by: Vec<ColumnOrder>,
    pub filter: Option<ExprNode>,
}

/// `node` is the wire form of `call`.
pub open spec fn agg_call_on_wire(call: PlanAggCall, node: AggCall) -> bool {
    &&& node.agg_kind == call.agg_kind
    &&& node.args@.len() == call.inputs@.len()
    &&& forall|i: int|
        #![trigger node.args@[i]]
        0 <= i < node.args@.len() ==> {
            &&& node.args@[i].rex_node == RexNode::InputRef(call.inputs@[i].index as u32)
            &&& node.args@[i].return_type == call.inputs@[i].data_type
        }
    &&& node.return_type == call.output.data_type
    &&& node.distinct == call.distinct
    &&& node.order_by@ == call.order_by@
    &&& match node.filter {
        None => call.filter.conjunctions@.len() == 0,
        Some(f) => conjunction_on_wire(call.filter.conjunctions@, f),
    }
}

impl PlanAggCall {
    /// The wire form.
    pub fn to_protobuf(&self) -> (r: AggCall)
        ensures
            agg_call_on_wire(*self, r),
    {
        let mut args: Vec<ExprNode> = Vec::new();
        let mut i: usize = 0;
        while i < self.inputs.len()
            invariant
                i <= self.inputs@.len(),
                args@.len() == i,
                forall|j: int|
                    #![trigger args@[j]]
                    0 <= j < i ==> {
                        &&& args@[j].rex_node == RexNode::InputRef(self.inputs@[j].index as u32)
                        &&& args@[j].return_type == self.inputs@[j].data_type
                    },
            decreases self.inputs@.len() - i,
        {
            args.push(
                ExprNode {
                    return_type: self.inputs[i].data_type.clone(),
                    rex_node: RexNode::InputRef(self.inputs[i].index as u32),
                },
            );
            i = i + 1;
        }
        let mut order_by: Vec<ColumnOrder> = Vec::new();
        let mut k: usize = 0;
        while k < self.order_by.len()
            invariant
                k <= self.order_by@.len(),
                order_by@ =~= self.order_by@.take(k as int),
            decreases self.order_by@.len() - k,
        {
            order_by.push(self.order_by[k]);
            k = k + 1;
        }
        assert(order_by@ =~= self.order_by@);
        AggCall {
            agg_kind: self.agg_kind,
            args,
            return_type: self.output.data_type.clone(),
            distinct: self.distinct,
            order_by,
            filter: self.filter.to_proto_unless_true(),
        }
    }

    /// The call with its filter rewritten.
    pub fn rewrite_filter<R: ExprRewriter>(&self, rewriter: &mut R) -> (r: PlanAggCall)
        ensures
            filter_rewritten(*old(rewriter), *self, r, *final(rewriter)),
    {
        PlanAggCall {
            agg_kind: self.agg_kind,
            output: self.output.clone(),
            inputs: self.inputs.clone(),
            distinct: self.distinct,
            order_by: self.order_by.clone(),
            filter: self.filter.rewrite_expr(rewriter),
        }
    }
}

/// `after_call` is `call` with its filter rewritten, and nothing else changed.
pub open spec fn filter_rewritten<R: ExprRewriter>(
    before: R,
    call: PlanAggCall,
    after_call: PlanAggCall,
    after: R,
) -> bool {
    &&& after_call == (PlanAggCall { filter: after_call.filter, ..call })
    &&& rewrites_all(before, call.filter.conjunctions@, after_call.filter.conjunctions@, after)
}

} // verus!
