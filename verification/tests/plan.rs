use std::collections::hash_map::DefaultHasher;
use std::hash::{Hash, Hasher};
use std::rc::Rc;

use streamkeys::batch_plan::{
    Agg, BatchSort, BatchSortAgg, BatchSource, NodeBody, PlanBase, PlanError, PlanNode, PlanRef,
    Schema,
};
use streamkeys::expr::{
    AggKind, Condition, ExprImpl, ExprRewriter, ExprType, Field, FunctionCall, InputRef, Literal,
    PlanAggCall, RexNode,
};
use streamkeys::property::{
    ColIndexMapping, ColumnOrder, Distribution, Order, OrderType, RequiredDist,
};
use streamkeys::scalar::{DataType, ScalarImpl};

fn field(name: &str) -> Rc<Field> {
    Rc::new(Field { name: name.to_string(), data_type: Rc::new(DataType::Int64) })
}

fn asc(column_index: usize) -> ColumnOrder {
    ColumnOrder { column_index, order_type: OrderType::Ascending }
}

fn desc(column_index: usize) -> ColumnOrder {
    ColumnOrder { column_index, order_type: OrderType::Descending }
}

/// A plan over three columns.
fn source(dist: Distribution, column_orders: Vec<ColumnOrder>) -> PlanRef {
    refusing_source(dist, column_orders, None)
}

fn refusing_source(
    dist: Distribution,
    column_orders: Vec<ColumnOrder>,
    refusal: Option<PlanError>,
) -> PlanRef {
    let schema = Schema { fields: vec![field("a"), field("b"), field("c")] };
    BatchSource::new(PlanBase::new_batch(schema, dist, Order { column_orders }), refusal)
}

fn call(agg_kind: AggKind, inputs: Vec<usize>, filter: Vec<ExprImpl>) -> Rc<PlanAggCall> {
    let inputs = inputs.into_iter().map(|i| InputRef::new(i, DataType::Int64)).collect();
    Rc::new(PlanAggCall {
        agg_kind,
        output: field("agg"),
        inputs: Rc::new(inputs),
        distinct: false,
        order_by: Rc::new(vec![]),
        filter: Condition { conjunctions: filter },
    })
}

fn agg(group_key: Vec<usize>, input: PlanRef) -> BatchSortAgg {
    BatchSortAgg::new(Agg { agg_calls: vec![call(AggKind::Sum, vec![2], vec![])], group_key, input })
}

fn sort_agg(plan: &PlanRef) -> &BatchSortAgg {
    match &**plan {
        PlanNode::SortAgg(agg) => agg,
        other => panic!("{other:?}"),
    }
}

#[test]
fn columns_order_and_distribution_of_an_aggregation() {
    let input = source(Distribution::HashShard(vec![1]), vec![desc(1), asc(2), asc(0)]);
    let plan = agg(vec![0, 1], input);
    let names: Vec<&str> = plan.base.schema.fields.iter().map(|f| f.name.as_str()).collect();
    assert_eq!(names, vec!["a", "b", "agg"]);
    assert_eq!(plan.base.order.column_orders, vec![desc(1), asc(0)]);
    assert_eq!(plan.base.dist, Distribution::HashShard(vec![1]));
    assert_eq!(plan.group_key(), &[0, 1]);
    assert_eq!(plan.agg_calls().len(), 1);
    assert_eq!(plan.agg_calls()[0].agg_kind, AggKind::Sum);
    assert!(plan.has_rewritable_expr());
}

#[test]
fn distribution_by_lost_columns_is_not_known() {
    let input = source(Distribution::HashShard(vec![1, 2]), vec![asc(1)]);
    assert_eq!(agg(vec![1], input).base.dist, Distribution::SomeShard);
    let input = source(Distribution::UpstreamHashShard(vec![1], 7), vec![asc(1)]);
    assert_eq!(agg(vec![1], input).base.dist, Distribution::UpstreamHashShard(vec![0], 7));
    let input = source(Distribution::UpstreamHashShard(vec![0], 7), vec![asc(1)]);
    assert_eq!(agg(vec![1], input).base.dist, Distribution::SomeShard);
    for dist in [Distribution::Single, Distribution::Broadcast, Distribution::SomeShard] {
        let input = source(dist.clone(), vec![asc(1)]);
        assert_eq!(agg(vec![1], input).base.dist, dist);
    }
}

#[test]
fn distributed_input_is_exchanged() {
    let plan = agg(vec![1], source(Distribution::SomeShard, vec![asc(1)]));
    let distributed = plan.to_distributed().unwrap();
    let input = sort_agg(&distributed).input();
    assert!(matches!(&*input, PlanNode::Exchange(_)));
    assert_eq!(*input.distribution(), Distribution::HashShard(vec![1]));
    assert_eq!(input.order().column_orders, vec![asc(1)]);
    assert_eq!(*distributed.distribution(), Distribution::HashShard(vec![0]));
    assert_eq!(distributed.order().column_orders, vec![asc(0)]);
}

#[test]
fn distributed_input_in_place_stays() {
    let plan = agg(vec![1, 0], source(Distribution::HashShard(vec![0]), vec![asc(1), asc(0)]));
    let distributed = plan.to_distributed().unwrap();
    assert!(matches!(&*sort_agg(&distributed).input(), PlanNode::Source(_)));
}

#[test]
fn input_is_sorted_again_where_the_key_is_no_prefix() {
    let plan = agg(vec![1], source(Distribution::HashShard(vec![1]), vec![asc(2), desc(1)]));
    let distributed = plan.to_distributed().unwrap();
    let input = sort_agg(&distributed).input();
    assert!(matches!(&*input, PlanNode::Sort(_)));
    assert_eq!(input.order().column_orders, vec![desc(1)]);
}

#[test]
fn local_input_is_gathered() {
    let plan = agg(vec![1], source(Distribution::SomeShard, vec![asc(1), asc(2)]));
    let local = plan.to_local().unwrap();
    let input = sort_agg(&local).input();
    assert!(matches!(&*input, PlanNode::Exchange(_)));
    assert_eq!(*input.distribution(), Distribution::Single);
    assert_eq!(input.order().column_orders, vec![asc(1), asc(2)]);
    assert_eq!(*local.distribution(), Distribution::Single);

    let plan = agg(vec![1], source(Distribution::Single, vec![asc(1)]));
    let local = plan.to_local().unwrap();
    assert!(matches!(&*sort_agg(&local).input(), PlanNode::Source(_)));
}

#[test]
fn nested_plans() {
    let sorted = BatchSort::new(
        source(Distribution::SomeShard, vec![]),
        Order { column_orders: vec![asc(0), asc(1)] },
    );
    let inner = agg(vec![0, 1], sorted).into_plan();
    let outer = agg(vec![0], inner);
    let distributed = outer.to_distributed().unwrap();
    assert_eq!(distributed.order().column_orders, vec![asc(0)]);
    assert_eq!(*distributed.distribution(), Distribution::HashShard(vec![0]));
    let local = outer.to_local().unwrap();
    assert_eq!(*local.distribution(), Distribution::Single);
}

#[test]
fn refusals_are_passed_on() {
    for e in [PlanError::NotDistributable, PlanError::NotReadable] {
        let plan = agg(vec![1], refusing_source(Distribution::Single, vec![asc(1)], Some(e)));
        assert_eq!(plan.to_distributed().err(), Some(e));
        assert_eq!(plan.to_local().err(), Some(e));
    }
}

#[test]
fn wire_form() {
    let filter = vec![
        ExprImpl::InputRef(Box::new(InputRef::new(0, DataType::Boolean))),
        ExprImpl::FunctionCall(Box::new(FunctionCall {
            func_type: ExprType::GreaterThan,
            return_type: Rc::new(DataType::Boolean),
            inputs: vec![
                ExprImpl::InputRef(Box::new(InputRef::new(1, DataType::Int16))),
                ExprImpl::Literal(Box::new(Literal {
                    data: Some(ScalarImpl::Int16(5)),
                    data_type: Rc::new(DataType::Int16),
                })),
            ],
        })),
    ];
    let plan = BatchSortAgg::new(Agg {
        agg_calls: vec![call(AggKind::Count, vec![], vec![]), call(AggKind::Max, vec![2, 0], filter)],
        group_key: vec![2, 1],
        input: source(Distribution::Single, vec![asc(1), asc(2)]),
    });
    let NodeBody::SortAgg(node) = plan.to_batch_prost_body();
    let keys: Vec<_> = node
        .group_key
        .iter()
        .map(|k| match (&k.rex_node, &*k.return_type) {
            (RexNode::InputRef(c), DataType::Int32) => *c,
            other => panic!("{other:?}"),
        })
        .collect();
    assert_eq!(keys, vec![2, 1]);
    assert_eq!(node.agg_calls.len(), 2);
    assert!(node.agg_calls[0].filter.is_none() && node.agg_calls[0].args.is_empty());
    let max = &node.agg_calls[1];
    assert_eq!(max.agg_kind, AggKind::Max);
    assert!(matches!(max.args[0].rex_node, RexNode::InputRef(2)));
    assert!(matches!(max.args[1].rex_node, RexNode::InputRef(0)));
    match &max.filter.as_ref().unwrap().rex_node {
        RexNode::FuncCall(ExprType::And, parts) => {
            assert!(matches!(parts[0].rex_node, RexNode::InputRef(0)));
            match &parts[1].rex_node {
                RexNode::FuncCall(ExprType::GreaterThan, sides) => {
                    assert!(matches!(sides[0].rex_node, RexNode::InputRef(1)));
                    match &sides[1].rex_node {
                        RexNode::Constant(bytes) => assert_eq!(bytes, &vec![1, 5, 0]),
                        other => panic!("{other:?}"),
                    }
                }
                other => panic!("{other:?}"),
            }
        }
        other => panic!("{other:?}"),
    }
}

/// Moves every column reference by one, and counts.
struct Shift {
    seen: usize,
}

impl ExprRewriter for Shift {
    fn rewrites(_: Self, _: ExprImpl, _: ExprImpl, _: Self) -> bool {
        true
    }

    fn rewrite_expr(&mut self, expr: &ExprImpl) -> ExprImpl {
        self.seen += 1;
        match expr {
            ExprImpl::InputRef(r) => {
                ExprImpl::InputRef(Box::new(InputRef::new(r.index + 1, DataType::Boolean)))
            }
            other => panic!("{other:?}"),
        }
    }
}

#[test]
fn filters_are_rewritten() {
    let filter = || vec![ExprImpl::InputRef(Box::new(InputRef::new(0, DataType::Boolean)))];
    let plan = BatchSortAgg::new(Agg {
        agg_calls: vec![call(AggKind::Sum, vec![2], filter()), call(AggKind::Min, vec![2], filter())],
        group_key: vec![1],
        input: source(Distribution::Single, vec![asc(1)]),
    });
    let mut shift = Shift { seen: 0 };
    let rewritten = plan.rewrite_exprs(&mut shift);
    assert_eq!(shift.seen, 2);
    let rewritten = sort_agg(&rewritten);
    assert_eq!(rewritten.group_key(), &[1]);
    assert_eq!(rewritten.agg_calls()[1].agg_kind, AggKind::Min);
    for call in rewritten.agg_calls() {
        match &call.filter.conjunctions[..] {
            [ExprImpl::InputRef(r)] => assert_eq!(r.index, 1),
            other => panic!("{other:?}"),
        }
    }
}

#[test]
fn another_input() {
    let plan = agg(vec![1], source(Distribution::Single, vec![asc(1)]));
    let moved = plan.clone_with_input(source(Distribution::HashShard(vec![1]), vec![desc(1)]));
    assert_eq!(moved.base.dist, Distribution::HashShard(vec![0]));
    assert_eq!(moved.base.order.column_orders, vec![desc(0)]);
    let same = plan.clone_with_input(plan.input());
    assert_eq!(same.base.order.column_orders, plan.base.order.column_orders);
    assert_eq!(same.display(), plan.display());
}

#[test]
fn text_of_a_plan() {
    let plan = agg(vec![1, 0], source(Distribution::Single, vec![asc(0), asc(1)]));
    assert_eq!(plan.display(), "BatchSortAgg { group_key: [$1, $0], aggs: [sum($2)] }");
    let plan = BatchSortAgg::new(Agg {
        agg_calls: vec![call(AggKind::Count, vec![], vec![])],
        group_key: vec![],
        input: source(Distribution::Single, vec![asc(0)]),
    });
    assert_eq!(plan.display(), "BatchSortAgg { aggs: [count] }");
}

#[test]
fn requirements() {
    let by_key = RequiredDist::shard_by_key(3, &[2, 0, 2]);
    assert_eq!(by_key.to_dist(), Distribution::HashShard(vec![0, 2]));
    assert!(by_key.to_dist().satisfies(&by_key));
    assert!(Distribution::HashShard(vec![2]).satisfies(&by_key));
    assert!(Distribution::UpstreamHashShard(vec![0, 2], 1).satisfies(&by_key));
    assert!(!Distribution::HashShard(vec![1]).satisfies(&by_key));
    assert!(!Distribution::SomeShard.satisfies(&by_key));
    let single = RequiredDist::single();
    assert!(Distribution::Single.satisfies(&single));
    assert!(!Distribution::Broadcast.satisfies(&single));
    assert_eq!(single.to_dist(), Distribution::Single);
}

#[test]
fn orders() {
    let order = Order { column_orders: vec![asc(1), desc(2)] };
    assert!(order.satisfies(&Order::any()));
    assert!(order.satisfies(&Order { column_orders: vec![asc(1)] }));
    assert!(order.satisfies(&order.clone()));
    assert!(!order.satisfies(&Order { column_orders: vec![desc(1)] }));
    assert!(!Order::any().satisfies(&order));
    let mapping = ColIndexMapping::new(vec![None, Some(0), None]);
    assert_eq!(mapping.rewrite_provided_order(&order).column_orders, vec![asc(0)]);
    assert_eq!(mapping.try_map(1), Some(0));
}

#[test]
fn plans_are_compared_and_hashed() {
    let hash = |plan: &BatchSortAgg| {
        let mut state = DefaultHasher::new();
        plan.hash(&mut state);
        state.finish()
    };
    let plan = agg(vec![0], source(Distribution::Single, vec![asc(0)]));
    let copy = plan.clone();
    assert_eq!(plan, copy);
    assert_eq!(hash(&plan), hash(&copy));
    let other = agg(vec![0], source(Distribution::Single, vec![desc(0)]));
    assert_ne!(plan, other);
    assert_ne!(hash(&plan), hash(&other));
}

#[test]
fn exchanged_input_stays() {
    let spread = agg(vec![0], source(Distribution::SomeShard, vec![asc(0)]));
    let once = spread.to_distributed().unwrap();
    let again = sort_agg(&once).to_distributed().unwrap();
    assert_eq!(once, again);
    let once = spread.to_local().unwrap();
    let again = sort_agg(&once).to_local().unwrap();
    assert_eq!(once, again);
}
