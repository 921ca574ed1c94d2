//! What holds of plans that aggregate sorted input, and of their wire forms.
use std::rc::Rc;

use vstd::prelude::*;

use crate::batch_plan::{
    agg_fits, calls_rewritten, key_order, plan_base_wf, sort_agg_base, AggModel, BaseModel, PlanError, PlanModel,
};
use crate::expr::{
    agg_call_on_wire, conjunction_on_wire, expr_on_wire, filter_rewritten, rewrites_all, AggCall,
    ExprImpl, ExprNode, ExprRewriter, ExprType, PlanAggCall, RexNode,
};
use crate::property::{columns_of, lemma_ones, ones, ColumnOrder, Dist};
use crate::scalar::{datum_model, typed, DataType};
use crate::value_encoding::{datum_bytes, datum_round_trip, decode_datum, ValueEncodingError};

verus! {

/// Why the data that a plan reads cannot be read, if it cannot. Behind an exchange, the plan is
/// run already.
pub open spec fn source_refusal(plan: PlanModel) -> Option<PlanError>
    decreases plan,
{
    match plan {
        PlanModel::Source(_, refusal) => refusal,
        PlanModel::Sort(input, _) => source_refusal(*input),
        PlanModel::Exchange(_, _, _) => None,
        PlanModel::SortAgg(input, _) => source_refusal(*input),
    }
}

/// A plan can be run, by many workers and by one, exactly when its data can be read. The error is
/// the one of the data.
pub proof fn plans_run_unless_their_data_cannot_be_read(plan: PlanModel)
    ensures
        match source_refusal(plan) {
            None => plan.distributed() is Ok && plan.local() is Ok,
            Some(e) => plan.distributed() == Err::<PlanModel, PlanError>(e) && plan.local()
                == Err::<PlanModel, PlanError>(e),
        },
    decreases plan,
{
    match plan {
        PlanModel::Sort(input, _) => {
            plans_run_unless_their_data_cannot_be_read(*input);
        },
        PlanModel::SortAgg(input, _) => {
            plans_run_unless_their_data_cannot_be_read(*input);
        },
        _ => {},
    }
}

/// An aggregation can be run exactly when its input can, and fails with the error of its input
/// otherwise.
pub proof fn aggregations_run_when_their_input_does(input: PlanModel, agg: AggModel)
    ensures
        ({
            let plan = PlanModel::SortAgg(Box::new(input), agg);
            &&& plan.distributed() is Ok <==> input.distributed() is Ok
            &&& plan.local() is Ok <==> input.local() is Ok
            &&& plan.distributed() matches Err(e) ==> input.distributed() == Err::<
                PlanModel,
                PlanError,
            >(e)
            &&& plan.local() matches Err(e) ==> input.local() == Err::<PlanModel, PlanError>(e)
        }),
{
}

/// Data that can be read is read as it is, a sort stays the same sort of what its input becomes,
/// and an exchange stays as it is.
pub proof fn other_nodes_stay(
    base: BaseModel,
    input: PlanModel,
    dist: Dist,
    order: Seq<ColumnOrder>,
)
    ensures
        ({
            let source = PlanModel::Source(base, None);
            &&& source.distributed() == Ok::<PlanModel, PlanError>(source)
            &&& source.local() == Ok::<PlanModel, PlanError>(source)
        }),
        ({
            let exchange = PlanModel::Exchange(Box::new(input), dist, order);
            &&& exchange.distributed() == Ok::<PlanModel, PlanError>(exchange)
            &&& exchange.local() == Ok::<PlanModel, PlanError>(exchange)
            &&& exchange.base().dist == dist
            &&& exchange.base().order == order
            &&& exchange.base().schema == input.base().schema
        }),
        ({
            let sort = PlanModel::Sort(Box::new(input), order);
            &&& sort.base().dist == input.base().dist
            &&& sort.base().order == order
            &&& sort.base().schema == input.base().schema
            &&& sort.distributed() matches Ok(x) ==> (x matches PlanModel::Sort(y, o) && o == order
                && input.distributed() == Ok::<PlanModel, PlanError>(*y))
            &&& sort.local() matches Ok(x) ==> (x matches PlanModel::Sort(y, o) && o == order
                && y.base().dist == Dist::Single && (input.local() == Ok::<PlanModel, PlanError>(
                *y,
            ) || (*y matches PlanModel::Exchange(z, d, kept) && kept.len() == 0 && input.local()
                == Ok::<PlanModel, PlanError>(*z) && z.base().dist != Dist::Single)))
        }),
{
}

/// The column is in the group key.
pub open spec fn in_group_key(group_key: Seq<usize>) -> spec_fn(ColumnOrder) -> bool {
    |o: ColumnOrder| group_key.contains(o.column_index)
}

/// The part of an order that is about the group key: exactly its columns that are in the group
/// key, in the order in which they stand.
pub proof fn key_order_picks_the_group_key(order: Seq<ColumnOrder>, group_key: Seq<usize>)
    ensures
        key_order(order, group_key) == order.filter(in_group_key(group_key)),
    decreases order.len(),
{
    reveal(Seq::filter);
    if order.len() > 0 {
        key_order_picks_the_group_key(order.drop_last(), group_key);
    }
}

proof fn lemma_ones_exact(columns: Seq<bool>)
    requires
        columns.len() <= usize::MAX,
    ensures
        forall|c: usize| #[trigger] ones(columns).contains(c) <==> c < columns.len()
            && columns[c as int],
        forall|i: int, j: int|
            #![trigger ones(columns)[i], ones(columns)[j]]
            0 <= i < j < ones(columns).len() ==> ones(columns)[i] < ones(columns)[j],
    decreases columns.len(),
{
    if columns.len() > 0 {
        let front = columns.drop_last();
        lemma_ones_exact(front);
        let (all, fewer) = (ones(columns), ones(front));
        assert forall|c: usize| #[trigger] all.contains(c) <==> c < columns.len()
            && columns[c as int] by {
            if all.contains(c) {
                let i = choose|i: int| 0 <= i < all.len() && all[i] == c;
                if i < fewer.len() {
                    assert(fewer[i] == c);
                    assert(fewer.contains(c));
                }
            }
            if c < columns.len() && columns[c as int] {
                if c < front.len() {
                    assert(fewer.contains(c));
                    let i = choose|i: int| 0 <= i < fewer.len() && fewer[i] == c;
                    assert(all[i] == c);
                } else {
                    assert(all[all.len() - 1] == c);
                }
            }
        }
        assert forall|i: int, j: int|
            #![trigger all[i], all[j]]
            0 <= i < j < all.len() implies all[i] < all[j] by {
            if j < fewer.len() {
                assert(fewer[i] < fewer[j]);
            } else {
                assert(fewer.contains(fewer[i]));
            }
        }
    }
}

/// Rows are spread by columns of the group key, and by no others.
pub open spec fn spread_within(dist: Dist, group_key: Seq<usize>) -> bool {
    match dist {
        Dist::HashShard(keys) => forall|i: int|
            0 <= i < keys.len() ==> group_key.contains(#[trigger] keys[i]),
        Dist::UpstreamHashShard(keys, _) => forall|i: int|
            0 <= i < keys.len() ==> group_key.contains(#[trigger] keys[i]),
        _ => false,
    }
}

/// Rows are spread by all columns of the group key, each of them once, in ascending order.
pub open spec fn spread_by(dist: Dist, group_key: Seq<usize>) -> bool {
    &&& dist matches Dist::HashShard(keys)
    &&& forall|c: usize| #[trigger] keys.contains(c) <==> group_key.contains(c)
    &&& forall|i: int, j: int|
        #![trigger keys[i], keys[j]]
        0 <= i < j < keys.len() ==> keys[i] < keys[j]
}

/// The input of an aggregation that is run by many workers.
///
/// It is sorted by the group key, as the input was, and only where it is not sorted so already.
/// It is sent to other workers only where its rows are not spread by columns of the group key
/// already; it is sent by exactly the columns of the group key then, and stays sorted.
pub proof fn distributed_input_is_sorted_and_sent(input: PlanModel, agg: AggModel, x: PlanModel)
    requires
        input.wf(),
        agg_fits(input.base(), agg),
        input.distributed() == Ok::<PlanModel, PlanError>(x),
    ensures
        PlanModel::SortAgg(Box::new(input), agg).distributed() matches Ok(plan) && (
        plan matches PlanModel::SortAgg(new_input, new_agg) && {
            let order = input.base().order.filter(in_group_key(agg.group_key));
            let sorted = if order.is_prefix_of(x.base().order) {
                x
            } else {
                PlanModel::Sort(Box::new(x), order)
            };
            let in_place = spread_within(sorted.base().dist, agg.group_key);
            &&& new_agg == agg
            &&& in_place ==> *new_input == sorted
            &&& !in_place ==> (*new_input matches PlanModel::Exchange(sent, dist, kept) && *sent
                == sorted && kept == order && spread_by(dist, agg.group_key))
        }),
{
    plan_base_wf(input);
    let n = input.base().schema.len();
    let group_key = agg.group_key;
    let columns = columns_of(n, group_key);
    key_order_picks_the_group_key(input.base().order, group_key);
    lemma_ones(columns);
    lemma_ones_exact(columns);
    assert forall|c: int| 0 <= c < n implies (#[trigger] columns[c] <==> group_key.contains(
        c as usize,
    )) by {
        if columns[c] {
            let i = choose|i: int| 0 <= i < group_key.len() && #[trigger] group_key[i] == c;
            assert(group_key[i] == c as usize);
        }
        if group_key.contains(c as usize) {
            let i = choose|i: int| 0 <= i < group_key.len() && group_key[i] == c as usize;
            assert(group_key[i] == c);
        }
    }
    assert forall|k: usize| #[trigger] group_key.contains(k) implies k < n by {
        let i = choose|i: int| 0 <= i < group_key.len() && group_key[i] == k;
        assert(group_key[i] < n);
    }
    let keys = ones(columns);
    assert forall|c: usize| #[trigger] keys.contains(c) <==> group_key.contains(c) by {
        if group_key.contains(c) {
            assert(columns[c as int]);
        }
    }
    let order = key_order(input.base().order, group_key);
    let sorted = x.with_order(order);
    let held = sorted.base().dist.keys();
    assert forall|i: int| 0 <= i < held.len() implies (crate::property::has_column(
        columns,
        #[trigger] held[i] as int,
    ) <==> group_key.contains(held[i])) by {
        if held[i] < n {
            assert(columns[held[i] as int] <==> group_key.contains(held[i]));
        }
    }
    let within = crate::property::all_within(held, columns);
    assert(within <==> (forall|i: int|
        0 <= i < held.len() ==> group_key.contains(#[trigger] held[i]))) by {
        if within {
            assert forall|i: int| 0 <= i < held.len() implies group_key.contains(
                #[trigger] held[i],
            ) by {
                assert(crate::property::has_column(columns, held[i] as int));
            }
        }
        if forall|i: int| 0 <= i < held.len() ==> group_key.contains(#[trigger] held[i]) {
            assert forall|i: int| 0 <= i < held.len() implies crate::property::has_column(
                columns,
                #[trigger] held[i] as int,
            ) by {
                assert(group_key.contains(held[i]));
            }
        }
    }
    let required = input.group_requirement(agg);
    let new_input = sorted.with_dist(required, order);
    assert(PlanModel::SortAgg(Box::new(input), agg).distributed() == Ok::<PlanModel, PlanError>(
        PlanModel::SortAgg(Box::new(new_input), agg),
    ));
    let satisfied = crate::property::dist_satisfies(sorted.base().dist, required);
    match sorted.base().dist {
        Dist::HashShard(k) => {
            assert(k == held);
            assert(satisfied == within);
        },
        Dist::UpstreamHashShard(k, _) => {
            assert(k == held);
            assert(satisfied == within);
        },
        _ => {
            assert(!satisfied);
        },
    }
    assert(satisfied == spread_within(sorted.base().dist, group_key));
    assert(spread_by(Dist::HashShard(keys), group_key));
    if !satisfied {
        assert(new_input == PlanModel::Exchange(Box::new(sorted), Dist::HashShard(keys), order));
    }
}

/// The input of an aggregation that is run by one worker: it is sent to that worker only where it
/// is not there already, and stays sorted as the input was.
pub proof fn local_input_is_gathered_once(input: PlanModel, agg: AggModel, x: PlanModel)
    requires
        input.local() == Ok::<PlanModel, PlanError>(x),
    ensures
        PlanModel::SortAgg(Box::new(input), agg).local() matches Ok(plan) && (
        plan matches PlanModel::SortAgg(new_input, new_agg) && {
            &&& new_agg == agg
            &&& x.base().dist == Dist::Single ==> *new_input == x
            &&& x.base().dist != Dist::Single ==> (*new_input matches PlanModel::Exchange(
                sent,
                dist,
                kept,
            ) && *sent == x && dist == Dist::Single && kept == input.base().order)
        }),
{
}

/// The columns of an aggregation are the columns of its group key, and the results of its calls.
pub proof fn aggregation_has_key_and_results(input: BaseModel, agg: AggModel)
    ensures
        ({
            let schema = sort_agg_base(input, agg).schema;
            let n = agg.group_key.len();
            &&& schema.len() == n + agg.agg_calls.len()
            &&& forall|i: int|
                #![trigger agg.group_key[i]]
                0 <= i < n ==> schema[i] == input.schema[agg.group_key[i] as int]
            &&& forall|j: int|
                #![trigger agg.agg_calls[j]]
                0 <= j < agg.agg_calls.len() ==> schema[n + j] == agg.agg_calls[j].output
        }),
{
}

/// The rows of an aggregation are where the rows of its input are: by the places of the columns in
/// the group key, where they are spread by columns of the group key. Where they are spread by
/// other columns, it is not known which worker has them.
pub proof fn aggregation_stays_in_place(input: BaseModel, agg: AggModel)
    requires
        crate::batch_plan::base_wf(input),
        agg_fits(input, agg),
    ensures
        match input.dist {
            Dist::HashShard(keys) => if forall|i: int|
                0 <= i < keys.len() ==> agg.group_key.contains(#[trigger] keys[i]) {
                sort_agg_base(input, agg).dist matches Dist::HashShard(places) && places.len()
                    == keys.len() && forall|i: int|
                    #![trigger places[i]]
                    0 <= i < keys.len() ==> places[i] < agg.group_key.len()
                        && agg.group_key[places[i] as int] == keys[i]
            } else {
                sort_agg_base(input, agg).dist == Dist::SomeShard
            },
            Dist::UpstreamHashShard(keys, table) => if forall|i: int|
                0 <= i < keys.len() ==> agg.group_key.contains(#[trigger] keys[i]) {
                sort_agg_base(input, agg).dist matches Dist::UpstreamHashShard(places, from)
                    && from == table && places.len() == keys.len() && forall|i: int|
                    #![trigger places[i]]
                    0 <= i < keys.len() ==> places[i] < agg.group_key.len()
                        && agg.group_key[places[i] as int] == keys[i]
            } else {
                sort_agg_base(input, agg).dist == Dist::SomeShard
            },
            other => sort_agg_base(input, agg).dist == other,
        },
{
    let n = input.schema.len();
    let image = crate::batch_plan::group_image(agg.group_key, n);
    let keys = input.dist.keys();
    assert forall|i: int| 0 <= i < keys.len() implies (image[#[trigger] keys[i] as int] is Some
        <==> agg.group_key.contains(keys[i])) && (image[keys[i] as int] matches Some(p) ==> p
        < agg.group_key.len() && agg.group_key[p as int] == keys[i]) by {
        assert(keys[i] < n);
        lemma_place(agg.group_key, keys[i]);
    }
    assert(crate::property::all_kept(keys, image) <==> (forall|i: int|
        0 <= i < keys.len() ==> agg.group_key.contains(#[trigger] keys[i]))) by {
        if forall|i: int| 0 <= i < keys.len() ==> agg.group_key.contains(#[trigger] keys[i]) {
            assert forall|i: int| 0 <= i < keys.len() implies image[#[trigger] keys[i] as int]
                is Some by {
                assert(agg.group_key.contains(keys[i]));
            }
        }
        if crate::property::all_kept(keys, image) {
            assert forall|i: int| 0 <= i < keys.len() implies agg.group_key.contains(
                #[trigger] keys[i],
            ) by {
                assert(image[keys[i] as int] is Some);
            }
        }
    }
    let places = crate::property::mapped_keys(keys, image);
    if crate::property::all_kept(keys, image) {
        assert forall|i: int| #![trigger places[i]] 0 <= i < keys.len() implies places[i]
            < agg.group_key.len() && agg.group_key[places[i] as int] == keys[i] by {
            assert(image[keys[i] as int] is Some);
        }
    }
}

proof fn lemma_place(group_key: Seq<usize>, c: usize)
    requires
        group_key.len() <= usize::MAX,
    ensures
        match crate::batch_plan::last_position(group_key, c as int) {
            Some(p) => p < group_key.len() && group_key[p as int] == c && group_key.contains(c),
            None => !group_key.contains(c),
        },
    decreases group_key.len(),
{
    if group_key.len() > 0 {
        let front = group_key.drop_last();
        lemma_place(front, c);
        if group_key.last() == c {
            assert(group_key[group_key.len() - 1] == c);
        } else {
            if group_key.contains(c) {
                let i = choose|i: int| 0 <= i < group_key.len() && group_key[i] == c;
                assert(front[i] == c);
            }
            if front.contains(c) {
                let i = choose|i: int| 0 <= i < front.len() && front[i] == c;
                assert(group_key[i] == c);
            }
        }
    }
}

/// The wire form of a call tells what the call does: which function, over which columns and with
/// which types, over different values only or over all, in which order, and whether with a filter.
pub proof fn wire_form_of_a_call(call: PlanAggCall, node: AggCall)
    requires
        agg_call_on_wire(call, node),
    ensures
        node.agg_kind == call.agg_kind,
        node.distinct == call.distinct,
        node.order_by@ == call.order_by@,
        *node.return_type == *call.output.data_type,
        node.args@.len() == call.inputs@.len(),
        forall|i: int|
            #![trigger call.inputs@[i]]
            0 <= i < call.inputs@.len() ==> *node.args@[i].return_type
                == *call.inputs@[i].data_type && (node.args@[i].rex_node matches RexNode::InputRef(
                column,
            ) && (call.inputs@[i].index <= u32::MAX ==> column == call.inputs@[i].index)),
        node.filter is None <==> call.filter.conjunctions@.len() == 0,
{
    assert forall|i: int|
        #![trigger call.inputs@[i]]
        0 <= i < call.inputs@.len() implies *node.args@[i].return_type
        == *call.inputs@[i].data_type && (node.args@[i].rex_node matches RexNode::InputRef(column)
        && (call.inputs@[i].index <= u32::MAX ==> column == call.inputs@[i].index)) by {
        assert(node.args@[i].rex_node == RexNode::InputRef(call.inputs@[i].index as u32));
    }
}

/// Columns can be numbered in 32 bits, and literals are of their types.
pub open spec fn expr_fits(expr: ExprImpl) -> bool
    decreases expr,
{
    match expr {
        ExprImpl::InputRef(r) => r.index <= u32::MAX,
        ExprImpl::Literal(l) => typed(datum_model(l.data), *l.data_type),
        ExprImpl::FunctionCall(call) => forall|i: int|
            #![trigger call.inputs@[i]]
            0 <= i < call.inputs@.len() ==> expr_fits(call.inputs@[i]),
    }
}

/// The wire form of an expression tells which column it is, from which value its bytes can be read,
/// or which function of how many expressions it is, and its type.
pub proof fn wire_form_of_an_expression(expr: ExprImpl, node: ExprNode)
    requires
        expr_on_wire(expr, node),
        expr_fits(expr),
    ensures
        match expr {
            ExprImpl::InputRef(r) => *node.return_type == *r.data_type && (
            node.rex_node matches RexNode::InputRef(column) && column == r.index),
            ExprImpl::Literal(l) => *node.return_type == *l.data_type && (
            node.rex_node matches RexNode::Constant(bytes) && decode_datum(bytes@, *l.data_type)
                == Ok::<_, ValueEncodingError>((datum_model(l.data), Seq::<u8>::empty()))),
            ExprImpl::FunctionCall(call) => *node.return_type == *call.return_type && (
            node.rex_node matches RexNode::FuncCall(func_type, children) && func_type
                == call.func_type && children@.len() == call.inputs@.len()),
        },
{
    if let ExprImpl::Literal(l) = expr {
        let d = datum_model(l.data);
        datum_round_trip(d, literal_type(expr), Seq::empty());
        assert(datum_bytes(d) + Seq::<u8>::empty() =~= datum_bytes(d));
    }
}

/// The two are the same expression: the same column, the same value, or the same function of the
/// same expressions, with the same type.
pub open spec fn same_expr(a: ExprImpl, b: ExprImpl) -> bool
    decreases a,
{
    match (a, b) {
        (ExprImpl::InputRef(x), ExprImpl::InputRef(y)) => x.index == y.index && *x.data_type
            == *y.data_type,
        (ExprImpl::Literal(x), ExprImpl::Literal(y)) => datum_model(x.data) == datum_model(y.data)
            && *x.data_type == *y.data_type,
        (ExprImpl::FunctionCall(x), ExprImpl::FunctionCall(y)) => {
            &&& x.func_type == y.func_type
            &&& *x.return_type == *y.return_type
            &&& x.inputs@.len() == y.inputs@.len()
            &&& forall|i: int|
                #![trigger x.inputs@[i]]
                0 <= i < x.inputs@.len() ==> same_expr(x.inputs@[i], y.inputs@[i])
        },
        _ => false,
    }
}

spec fn literal_type(expr: ExprImpl) -> DataType {
    *(expr->Literal_0.data_type)
}

/// Expressions with one wire form are the same expression.
pub proof fn wire_form_determines_the_expression(a: ExprImpl, b: ExprImpl, node: ExprNode)
    requires
        expr_on_wire(a, node),
        expr_on_wire(b, node),
        expr_fits(a),
        expr_fits(b),
    ensures
        same_expr(a, b),
    decreases a,
{
    match (a, b) {
        (ExprImpl::Literal(x), ExprImpl::Literal(y)) => {
            let (d, e) = (datum_model(x.data), datum_model(y.data));
            assert(*x.data_type == *y.data_type);
            datum_round_trip(d, literal_type(a), Seq::empty());
            datum_round_trip(e, literal_type(a), Seq::empty());
            assert(datum_bytes(d) == datum_bytes(e));
        },
        (ExprImpl::FunctionCall(x), ExprImpl::FunctionCall(y)) => {
            if let RexNode::FuncCall(_, children) = node.rex_node {
                assert forall|i: int|
                    #![trigger x.inputs@[i]]
                    0 <= i < x.inputs@.len() implies same_expr(x.inputs@[i], y.inputs@[i]) by {
                    assert(decreases_to!(a => a->FunctionCall_0));
                    assert(decreases_to!(a->FunctionCall_0 => x.inputs));
                    assert(decreases_to!(x.inputs => x.inputs@));
                    assert(decreases_to!(x.inputs@ => x.inputs@[i]));
                    assert(expr_on_wire(x.inputs@[i], children@[i]));
                    assert(expr_on_wire(y.inputs@[i], children@[i]));
                    assert(expr_fits(x.inputs@[i]) && expr_fits(y.inputs@[i]));
                    wire_form_determines_the_expression(
                        x.inputs@[i],
                        y.inputs@[i],
                        children@[i],
                    );
                }
            }
        },
        _ => {},
    }
}

/// Each of the expressions fits, and none of them is itself made of two with "and" between them.
pub open spec fn conjuncts_fit(exprs: Seq<ExprImpl>) -> bool {
    forall|i: int|
        #![trigger exprs[i]]
        0 <= i < exprs.len() ==> expr_fits(exprs[i]) && !(exprs[i] matches ExprImpl::FunctionCall(
            call,
        ) && call.func_type == ExprType::And)
}

/// Filters with one wire form are made of the same expressions, in the same order.
pub proof fn wire_form_determines_the_filter(
    a: Seq<ExprImpl>,
    b: Seq<ExprImpl>,
    node: ExprNode,
)
    requires
        conjunction_on_wire(a, node),
        conjunction_on_wire(b, node),
        conjuncts_fit(a),
        conjuncts_fit(b),
    ensures
        a.len() == b.len(),
        forall|i: int| #![trigger a[i]] 0 <= i < a.len() ==> same_expr(a[i], b[i]),
    decreases a.len(),
{
    assert(expr_fits(a[0]) && expr_fits(b[0]));
    if a.len() == 1 && b.len() == 1 {
        wire_form_determines_the_expression(a[0], b[0], node);
    } else if a.len() > 1 && b.len() > 1 {
        let (p, q) = (a.drop_last(), b.drop_last());
        if let RexNode::FuncCall(_, children) = node.rex_node {
            assert forall|i: int| #![trigger p[i]] 0 <= i < p.len() implies expr_fits(p[i]) && !(
            p[i] matches ExprImpl::FunctionCall(call) && call.func_type == ExprType::And) by {
                assert(p[i] == a[i]);
            }
            assert forall|i: int| #![trigger q[i]] 0 <= i < q.len() implies expr_fits(q[i]) && !(
            q[i] matches ExprImpl::FunctionCall(call) && call.func_type == ExprType::And) by {
                assert(q[i] == b[i]);
            }
            wire_form_determines_the_filter(p, q, children@[0]);
            assert(expr_fits(a[a.len() - 1]) && expr_fits(b[b.len() - 1]));
            wire_form_determines_the_expression(a.last(), b.last(), children@[1]);
            assert forall|i: int| #![trigger a[i]] 0 <= i < a.len() implies same_expr(
                a[i],
                b[i],
            ) by {
                if i < p.len() {
                    assert(same_expr(p[i], q[i]));
                }
            }
        }
    }
}

/// Calls with one wire form are the same call: the same function of the same columns, over
/// different values only or over all, in the same order, with the same filter.
pub proof fn wire_form_determines_the_call(a: PlanAggCall, b: PlanAggCall, node: AggCall)
    requires
        agg_call_on_wire(a, node),
        agg_call_on_wire(b, node),
        conjuncts_fit(a.filter.conjunctions@),
        conjuncts_fit(b.filter.conjunctions@),
        forall|i: int|
            #![trigger a.inputs@[i]]
            0 <= i < a.inputs@.len() ==> a.inputs@[i].index <= u32::MAX,
        forall|i: int|
            #![trigger b.inputs@[i]]
            0 <= i < b.inputs@.len() ==> b.inputs@[i].index <= u32::MAX,
    ensures
        a.agg_kind == b.agg_kind,
        a.distinct == b.distinct,
        a.order_by@ == b.order_by@,
        *a.output.data_type == *b.output.data_type,
        a.inputs@.len() == b.inputs@.len(),
        forall|i: int|
            #![trigger a.inputs@[i]]
            0 <= i < a.inputs@.len() ==> a.inputs@[i].index == b.inputs@[i].index
                && *a.inputs@[i].data_type == *b.inputs@[i].data_type,
        a.filter.conjunctions@.len() == b.filter.conjunctions@.len(),
        forall|i: int|
            #![trigger a.filter.conjunctions@[i]]
            0 <= i < a.filter.conjunctions@.len() ==> same_expr(
                a.filter.conjunctions@[i],
                b.filter.conjunctions@[i],
            ),
{
    wire_form_of_a_call(a, node);
    wire_form_of_a_call(b, node);
    assert forall|i: int|
        #![trigger a.inputs@[i]]
        0 <= i < a.inputs@.len() implies a.inputs@[i].index == b.inputs@[i].index
        && *a.inputs@[i].data_type == *b.inputs@[i].data_type by {
        assert(b.inputs@[i].index <= u32::MAX);
    }
    if let Some(f) = node.filter {
        wire_form_determines_the_filter(a.filter.conjunctions@, b.filter.conjunctions@, f);
    }
}

/// Rewriting the expressions of calls changes their filters, and nothing else.
pub proof fn rewriting_changes_filters_only<R: ExprRewriter>(
    before_calls: R,
    calls: Seq<Rc<PlanAggCall>>,
    results: Seq<Rc<PlanAggCall>>,
    after_calls: R,
    i: int,
)
    requires
        calls_rewritten(before_calls, calls, results, after_calls),
        0 <= i < calls.len(),
    ensures
        results.len() == calls.len(),
        results[i].agg_kind == calls[i].agg_kind,
        results[i].output == calls[i].output,
        results[i].inputs == calls[i].inputs,
        results[i].distinct == calls[i].distinct,
        results[i].order_by == calls[i].order_by,
        results[i].filter.conjunctions@.len() == calls[i].filter.conjunctions@.len(),
    decreases calls.len(),
{
    let mid = choose|mid: R|
        calls_rewritten(before_calls, calls.drop_last(), results.drop_last(), mid) && #[trigger]
        filter_rewritten(mid, *calls.last(), *results.last(), after_calls);
    assert(filter_rewritten(mid, *calls.last(), *results.last(), after_calls));
    if i < calls.len() - 1 {
        rewriting_changes_filters_only(
            before_calls,
            calls.drop_last(),
            results.drop_last(),
            mid,
            i,
        );
    }
}

/// The rewriter is shown each expression of a filter, in order, and its result takes the place of
/// the expression. `states` are what the rewriter goes through.
pub proof fn each_expression_is_rewritten<R: ExprRewriter>(
    before_exprs: R,
    exprs: Seq<ExprImpl>,
    results: Seq<ExprImpl>,
    after_exprs: R,
) -> (states: Seq<R>)
    requires
        rewrites_all(before_exprs, exprs, results, after_exprs),
    ensures
        results.len() == exprs.len(),
        states.len() == exprs.len() + 1,
        states[0] == before_exprs,
        states.last() == after_exprs,
        forall|i: int|
            #![trigger exprs[i]]
            0 <= i < exprs.len() ==> R::rewrites(states[i], exprs[i], results[i], states[i + 1]),
    decreases exprs.len(),
{
    if exprs.len() == 0 {
        seq![before_exprs]
    } else {
        let mid = choose|mid: R|
            rewrites_all(before_exprs, exprs.drop_last(), results.drop_last(), mid) && #[trigger]
            R::rewrites(mid, exprs.last(), results.last(), after_exprs);
        let front = each_expression_is_rewritten(
            before_exprs,
            exprs.drop_last(),
            results.drop_last(),
            mid,
        );
        let states = front.push(after_exprs);
        assert forall|i: int| #![trigger exprs[i]] 0 <= i < exprs.len() implies R::rewrites(
            states[i],
            exprs[i],
            results[i],
            states[i + 1],
        ) by {
            if i < exprs.len() - 1 {
                assert(exprs.drop_last()[i] == exprs[i]);
            }
        }
        states
    }
}

/// The wire form of a filter of several expressions is a boolean "and": of the filter without its
/// last expression, and of the last expression.
pub proof fn wire_form_of_a_filter(exprs: Seq<ExprImpl>, node: ExprNode)
    requires
        conjunction_on_wire(exprs, node),
        exprs.len() > 1,
    ensures
        *node.return_type == DataType::Boolean,
        node.rex_node matches RexNode::FuncCall(func_type, children) && func_type == ExprType::And
            && children@.len() == 2 && conjunction_on_wire(exprs.drop_last(), children@[0])
            && expr_on_wire(exprs.last(), children@[1]),
{
}

} // verus!
