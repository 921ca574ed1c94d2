//! Plans of batch queries, with aggregation over sorted input.
use std::rc::Rc;

use vstd::prelude::*;

use crate::expr::{
    agg_call_on_wire, expr_on_wire, filter_rewritten, AggCall, ExprImpl, ExprNode, ExprRewriter,
    Field, InputRef, PlanAggCall, RexNode,
};
use crate::property::{
    columns_of, dist_satisfies, enforced_dist, has_column, lemma_ones, mapped_keys, ones,
    order_satisfies, rewritten_dist, rewritten_order, ColIndexMapping, ColumnOrder, Dist,
    Distribution, Order, RequiredDist, Requirement,
};
use crate::scalar::DataType;

verus! {

/// Why a plan cannot be run.
#[derive(Clone, Copy, Debug, PartialEq, Eq, Hash, Structural)]
pub enum PlanError {
    /// The data cannot be read from several workers.
    NotDistributable,
    /// The data cannot be read by a batch query.
    NotReadable,
}

/// The columns of a plan.
#[derive(Debug, PartialEq, Eq, Hash)]
pub struct Schema {
    pub fields: Vec<Rc<Field>>,
}

impl View for Schema {
    type V = Seq<Rc<Field>>;

    open spec fn view(&self) -> Seq<Rc<Field>> {
        self.fields@
    }
}

impl Schema {
    pub fn len(&self) -> (n: usize)
        ensures
            n == self@.len(),
    {
        self.fields.len()
    }
}

impl Clone for Schema {
    fn clone(&self) -> (r: Self)
        ensures
            r@ == self@,
    {
        let mut fields: Vec<Rc<Field>> = Vec::new();
        let mut i: usize = 0;
        while i < self.fields.len()
            invariant
                i <= self.fields@.len(),
                fields@ =~= self.fields@.take(i as int),
            decreases self.fields@.len() - i,
        {
            fields.push(self.fields[i].clone());
            i = i + 1;
        }
        assert(fields@ =~= self.fields@);
        Schema { fields }
    }
}

/// What every plan has: its columns, how its rows are spread, and how they are sorted.
#[derive(Debug, PartialEq, Eq, Hash)]
pub struct PlanBase {
    pub schema: Schema,
    pub dist: Distribution,
    pub order: Order,
}

/// What a [`PlanBase`] stands for.
pub struct BaseModel {
    pub schema: Seq<Rc<Field>>,
    pub dist: Dist,
    pub order: Seq<ColumnOrder>,
}

impl View for PlanBase {
    type V = BaseModel;

    open spec fn view(&self) -> BaseModel {
        BaseModel { schema: self.schema@, dist: self.dist@, order: self.order@ }
    }
}

impl Clone for PlanBase {
    fn clone(&self) -> (r: Self)
        ensures
            r@ == self@,
    {
        PlanBase {
            schema: self.schema.clone(),
            dist: self.dist.clone(),
            order: self.order.clone(),
        }
    }
}

impl PlanBase {
    pub fn new_batch(schema: Schema, dist: Distribution, order: Order) -> (r: Self)
        ensures
            r@ == (BaseModel { schema: schema@, dist: dist@, order: order@ }),
    {
        PlanBase { schema, dist, order }
    }
}

/// Each column that is spread or sorted by is a column of the plan.
pub open spec fn base_wf(b: BaseModel) -> bool {
    &&& b.schema.len() <= usize::MAX
    &&& forall|i: int|
        0 <= i < b.dist.keys().len() ==> (#[trigger] b.dist.keys()[i]) < b.schema.len()
    &&& forall|i: int|
        0 <= i < b.order.len() ==> (#[trigger] b.order[i]).column_index < b.schema.len()
}

/// A plan that others read from.
pub type PlanRef = Rc<PlanNode>;

/// A plan that reads data.
#[derive(Debug, PartialEq, Eq, Hash)]
pub struct BatchSource {
    pub base: PlanBase,
    /// Why the data cannot be read, if it cannot.
    pub refusal: Option<PlanError>,
}

/// A plan that sorts the rows of its input.
#[derive(Debug, PartialEq, Eq, Hash)]
pub struct BatchSort {
    pub base: PlanBase,
    input: PlanRef,
}

/// A plan that sends the rows of its input to other workers, and keeps them sorted.
#[derive(Debug, PartialEq, Eq, Hash)]
pub struct BatchExchange {
    pub base: PlanBase,
    input: PlanRef,
}

/// What to aggregate, and over which groups.
#[derive(Debug, PartialEq, Eq, Hash)]
pub struct Agg {
    pub agg_calls: Vec<Rc<PlanAggCall>>,
    pub group_key: Vec<usize>,
    pub input: PlanRef,
}

/// A plan that aggregates the groups of its input, which comes sorted by group.
#[derive(Debug, PartialEq, Eq, Hash)]
pub struct BatchSortAgg {
    pub base: PlanBase,
    logical: Agg,
    input_order: Order,
}

/// A node of a plan.
#[derive(Debug, PartialEq, Eq, Hash)]
pub enum PlanNode {
    Source(BatchSource),
    Sort(BatchSort),
    Exchange(BatchExchange),
    SortAgg(BatchSortAgg),
}

/// What an [`Agg`] stands for, but for its input.
pub struct AggModel {
    pub agg_calls: Seq<Rc<PlanAggCall>>,
    pub group_key: Seq<usize>,
}

/// What a plan stands for.
pub enum PlanModel {
    Source(BaseModel, Option<PlanError>),
    Sort(Box<PlanModel>, Seq<ColumnOrder>),
    Exchange(Box<PlanModel>, Dist, Seq<ColumnOrder>),
    SortAgg(Box<PlanModel>, AggModel),
}

/// The last place of a column in the group key.
pub open spec fn last_position(group_key: Seq<usize>, c: int) -> Option<usize>
    decreases group_key.len(),
{
    if group_key.len() == 0 {
        None
    } else if group_key.last() == c {
        Some((group_key.len() - 1) as usize)
    } else {
        last_position(group_key.drop_last(), c)
    }
}

/// Where the `n` columns of the input go: a column of the group key goes to its place in the
/// group key, the others are not kept.
pub open spec fn group_image(group_key: Seq<usize>, n: nat) -> Seq<Option<usize>> {
    Seq::new(n, |c: int| last_position(group_key, c))
}

/// The part of an order that is about the group key.
pub open spec fn key_order(order: Seq<ColumnOrder>, group_key: Seq<usize>) -> Seq<ColumnOrder>
    decreases order.len(),
{
    if order.len() == 0 {
        Seq::empty()
    } else if group_key.contains(order.last().column_index) {
        key_order(order.drop_last(), group_key).push(order.last())
    } else {
        key_order(order.drop_last(), group_key)
    }
}

/// The columns of an aggregation: the group key, and one for each call.
pub open spec fn agg_schema(input: Seq<Rc<Field>>, agg: AggModel) -> Seq<Rc<Field>> {
    Seq::new(agg.group_key.len(), |i: int| input[agg.group_key[i] as int]) + Seq::new(
        agg.agg_calls.len(),
        |i: int| agg.agg_calls[i].output,
    )
}

/// The groups can be aggregated over an input like this: the group key is made of its columns,
/// and it is sorted by the group key.
pub open spec fn agg_fits(input: BaseModel, agg: AggModel) -> bool {
    &&& forall|i: int|
        0 <= i < agg.group_key.len() ==> (#[trigger] agg.group_key[i]) < input.schema.len()
    &&& key_order(input.order, agg.group_key).len() == agg.group_key.len()
    &&& agg.group_key.len() + agg.agg_calls.len() <= usize::MAX
}

/// What an aggregation over such an input has.
pub open spec fn sort_agg_base(input: BaseModel, agg: AggModel) -> BaseModel {
    let image = group_image(agg.group_key, input.schema.len());
    BaseModel {
        schema: agg_schema(input.schema, agg),
        dist: rewritten_dist(input.dist, image),
        order: rewritten_order(key_order(input.order, agg.group_key), image),
    }
}

impl PlanModel {
    pub open spec fn base(self) -> BaseModel
        decreases self,
    {
        match self {
            PlanModel::Source(base, _) => base,
            PlanModel::Sort(input, order) => BaseModel { order, ..input.base() },
            PlanModel::Exchange(input, dist, order) => BaseModel { dist, order, ..input.base() },
            PlanModel::SortAgg(input, agg) => sort_agg_base(input.base(), agg),
        }
    }

    /// Every node fits its input.
    pub open spec fn wf(self) -> bool
        decreases self,
    {
        match self {
            PlanModel::Source(base, _) => base_wf(base),
            PlanModel::Sort(input, _) => input.wf() && base_wf(self.base()),
            PlanModel::Exchange(input, _, _) => input.wf() && base_wf(self.base()),
            PlanModel::SortAgg(input, agg) => input.wf() && agg_fits(input.base(), agg),
        }
    }

    /// The plan, with its rows sorted.
    pub open spec fn with_order(self, required: Seq<ColumnOrder>) -> PlanModel {
        if order_satisfies(self.base().order, required) {
            self
        } else {
            PlanModel::Sort(Box::new(self), required)
        }
    }

    /// The plan, with its rows where they are required.
    pub open spec fn with_dist(
        self,
        required: Requirement,
        order: Seq<ColumnOrder>,
    ) -> PlanModel {
        if dist_satisfies(self.base().dist, required) {
            self
        } else {
            PlanModel::Exchange(Box::new(self), enforced_dist(required), order)
        }
    }

    /// What an aggregation requires of its input: that each group is at one worker.
    pub open spec fn group_requirement(self, agg: AggModel) -> Requirement {
        Requirement::ShardByKey(columns_of(self.base().schema.len(), agg.group_key))
    }

    /// The plan, run by many workers. Rows that are sent already stay where they are sent.
    pub open spec fn distributed(self) -> Result<PlanModel, PlanError>
        decreases self,
    {
        match self {
            PlanModel::Source(_, refusal) => match refusal {
                None => Ok(self),
                Some(e) => Err(e),
            },
            PlanModel::Sort(input, order) => match input.distributed() {
                Err(e) => Err(e),
                Ok(x) => Ok(PlanModel::Sort(Box::new(x), order)),
            },
            PlanModel::Exchange(_, _, _) => Ok(self),
            PlanModel::SortAgg(input, agg) => match input.distributed() {
                Err(e) => Err(e),
                Ok(x) => {
                    let order = key_order(input.base().order, agg.group_key);
                    Ok(
                        PlanModel::SortAgg(
                            Box::new(
                                x.with_order(order).with_dist(input.group_requirement(agg), order),
                            ),
                            agg,
                        ),
                    )
                },
            },
        }
    }

    /// The plan, run by one worker. Rows that are sent already stay where they are sent.
    pub open spec fn local(self) -> Result<PlanModel, PlanError>
        decreases self,
    {
        let single = Requirement::PhysicalDist(Dist::Single);
        match self {
            PlanModel::Source(_, refusal) => match refusal {
                None => Ok(self),
                Some(e) => Err(e),
            },
            PlanModel::Sort(input, order) => match input.local() {
                Err(e) => Err(e),
                Ok(x) => Ok(PlanModel::Sort(Box::new(x.with_dist(single, Seq::empty())), order)),
            },
            PlanModel::Exchange(_, _, _) => Ok(self),
            PlanModel::SortAgg(input, agg) => match input.local() {
                Err(e) => Err(e),
                Ok(x) => Ok(
                    PlanModel::SortAgg(Box::new(x.with_dist(single, input.base().order)), agg),
                ),
            },
        }
    }
}

proof fn lemma_last_position(group_key: Seq<usize>, c: int)
    requires
        group_key.len() <= usize::MAX,
    ensures
        match last_position(group_key, c) {
            Some(i) => i < group_key.len() && group_key[i as int] == c,
            None => !(exists|i: int| 0 <= i < group_key.len() && group_key[i] == c),
        },
    decreases group_key.len(),
{
    if group_key.len() > 0 {
        lemma_last_position(group_key.drop_last(), c);
        if last_position(group_key, c) is None {
            assert forall|i: int| 0 <= i < group_key.len() implies group_key[i] != c by {
                if i < group_key.len() - 1 {
                    assert(group_key.drop_last()[i] == group_key[i]);
                }
            }
        }
    }
}

proof fn lemma_last_position_push(group_key: Seq<usize>, k: usize, c: int)
    ensures
        last_position(group_key.push(k), c) == (if k == c {
            Some(group_key.len() as usize)
        } else {
            last_position(group_key, c)
        }),
{
    assert(group_key.push(k).drop_last() =~= group_key);
}

proof fn lemma_key_order(order: Seq<ColumnOrder>, group_key: Seq<usize>)
    ensures
        forall|i: int|
            0 <= i < key_order(order, group_key).len() ==> {
                let o = #[trigger] key_order(order, group_key)[i];
                order.contains(o) && group_key.contains(o.column_index)
            },
        key_order(key_order(order, group_key), group_key) == key_order(order, group_key),
    decreases order.len(),
{
    if order.len() > 0 {
        let shorter = order.drop_last();
        lemma_key_order(shorter, group_key);
        let out = key_order(order, group_key);
        assert forall|i: int| 0 <= i < out.len() implies {
            let o = #[trigger] out[i];
            order.contains(o) && group_key.contains(o.column_index)
        } by {
            if i < key_order(shorter, group_key).len() {
                let o = key_order(shorter, group_key)[i];
                assert(out[i] == o);
                assert(shorter.contains(o));
                let j = choose|j: int| 0 <= j < shorter.len() && shorter[j] == o;
                assert(order[j] == o);
            } else {
                assert(order[order.len() - 1] == out[i]);
            }
        }
        if group_key.contains(order.last().column_index) {
            assert(out.drop_last() =~= key_order(shorter, group_key));
        }
    }
}

/// The rows of an aggregation come sorted by the whole group key.
proof fn lemma_rewritten_key_order(order: Seq<ColumnOrder>, image: Seq<Option<usize>>, n: nat)
    requires
        forall|i: int|
            0 <= i < order.len() ==> {
                let c = (#[trigger] order[i]).column_index;
                c < image.len() && image[c as int] is Some && image[c as int]->0 < n
            },
    ensures
        rewritten_order(order, image).len() == order.len(),
        forall|i: int|
            0 <= i < order.len() ==> {
                let o = #[trigger] rewritten_order(order, image)[i];
                &&& o.column_index < n
                &&& Some(o.column_index) == image[order[i].column_index as int]
                &&& o.order_type == order[i].order_type
            },
    decreases order.len(),
{
    if order.len() > 0 {
        let rest = order.drop_first();
        assert(order[0].column_index < image.len());
        assert forall|i: int| 0 <= i < rest.len() implies {
            let c = (#[trigger] rest[i]).column_index;
            c < image.len() && image[c as int] is Some && image[c as int]->0 < n
        } by {
            assert(rest[i] == order[i + 1]);
        }
        lemma_rewritten_key_order(rest, image, n);
        assert forall|i: int| 0 <= i < order.len() implies {
            let o = #[trigger] rewritten_order(order, image)[i];
            &&& o.column_index < n
            &&& Some(o.column_index) == image[order[i].column_index as int]
            &&& o.order_type == order[i].order_type
        } by {
            if i > 0 {
                assert(rewritten_order(order, image)[i] == rewritten_order(rest, image)[i - 1]);
                assert(rest[i - 1] == order[i]);
            }
        }
    }
}

/// What an aggregation that fits its input has is in order, and its rows are sorted by the
/// whole group key, in the order and the directions of the input.
pub proof fn sort_agg_base_wf(input: BaseModel, agg: AggModel)
    requires
        base_wf(input),
        agg_fits(input, agg),
    ensures
        base_wf(sort_agg_base(input, agg)),
        sort_agg_base(input, agg).order.len() == agg.group_key.len(),
        forall|i: int|
            0 <= i < agg.group_key.len() ==> {
                let o = #[trigger] sort_agg_base(input, agg).order[i];
                let from = key_order(input.order, agg.group_key)[i];
                &&& o.column_index < agg.group_key.len()
                &&& agg.group_key[o.column_index as int] == from.column_index
                &&& o.order_type == from.order_type
            },
{
    let n = input.schema.len();
    let image = group_image(agg.group_key, n);
    let order = key_order(input.order, agg.group_key);
    let base = sort_agg_base(input, agg);
    lemma_key_order(input.order, agg.group_key);
    assert forall|i: int| 0 <= i < order.len() implies {
        let c = (#[trigger] order[i]).column_index;
        c < image.len() && image[c as int] is Some && image[c as int]->0 < agg.group_key.len()
    } by {
        let o = order[i];
        assert(input.order.contains(o));
        let j = choose|j: int| 0 <= j < input.order.len() && input.order[j] == o;
        assert(input.order[j].column_index < n);
        lemma_last_position(agg.group_key, o.column_index as int);
        let k = choose|k: int|
            0 <= k < agg.group_key.len() && agg.group_key[k] == o.column_index;
        assert(agg.group_key[k] == o.column_index as int);
    }
    lemma_rewritten_key_order(order, image, agg.group_key.len());
    assert forall|i: int| 0 <= i < agg.group_key.len() implies {
        let o = #[trigger] base.order[i];
        let from = order[i];
        &&& o.column_index < agg.group_key.len()
        &&& agg.group_key[o.column_index as int] == from.column_index
        &&& o.order_type == from.order_type
    } by {
        lemma_last_position(agg.group_key, order[i].column_index as int);
    }
    assert forall|i: int| 0 <= i < base.dist.keys().len() implies (#[trigger] base.dist.keys()[i])
        < base.schema.len() by {
        let keys = input.dist.keys();
        assert(base.dist.keys() == mapped_keys(keys, image));
        assert(keys[i] < n);
        assert(image[keys[i] as int] is Some);
        lemma_last_position(agg.group_key, keys[i] as int);
    }
}

/// A plan whose nodes fit has a base in order.
pub proof fn plan_base_wf(plan: PlanModel)
    requires
        plan.wf(),
    ensures
        base_wf(plan.base()),
    decreases plan,
{
    if let PlanModel::SortAgg(input, agg) = plan {
        plan_base_wf(*input);
        sort_agg_base_wf(input.base(), agg);
    }
}

proof fn lemma_ones_below(columns: Seq<bool>)
    requires
        columns.len() <= usize::MAX,
    ensures
        forall|i: int|
            0 <= i < ones(columns).len() ==> (#[trigger] ones(columns)[i]) < columns.len(),
{
    lemma_ones(columns);
    assert forall|i: int| 0 <= i < ones(columns).len() implies (#[trigger] ones(columns)[i])
        < columns.len() by {
        assert(has_column(columns, ones(columns)[i] as int));
    }
}

/// A plan sorted by what it is required to be sorted by, and sent where it is required to be,
/// is in order, and has the same columns. Its order is the old or the required one.
proof fn lemma_enforced(
    x: PlanModel,
    order: Seq<ColumnOrder>,
    required: Requirement,
    required_order: Seq<ColumnOrder>,
)
    requires
        x.wf(),
        forall|i: int|
            0 <= i < order.len() ==> (#[trigger] order[i]).column_index < x.base().schema.len(),
        forall|i: int|
            0 <= i < required_order.len() ==> (#[trigger] required_order[i]).column_index
                < x.base().schema.len(),
        forall|i: int|
            0 <= i < enforced_dist(required).keys().len() ==> (#[trigger] enforced_dist(
                required,
            ).keys()[i]) < x.base().schema.len(),
    ensures
        x.with_order(order).wf(),
        x.with_order(order).base().schema == x.base().schema,
        x.with_order(order).base().order == x.base().order || x.with_order(order).base().order
            == order,
        x.with_dist(required, required_order).wf(),
        x.with_dist(required, required_order).base().schema == x.base().schema,
        x.with_dist(required, required_order).base().order == x.base().order || x.with_dist(
            required,
            required_order,
        ).base().order == required_order,
{
    plan_base_wf(x);
}

proof fn lemma_key_order_below(b: BaseModel, group_key: Seq<usize>)
    requires
        base_wf(b),
    ensures
        forall|i: int|
            0 <= i < key_order(b.order, group_key).len() ==> (#[trigger] key_order(
                b.order,
                group_key,
            )[i]).column_index < b.schema.len(),
{
    lemma_key_order(b.order, group_key);
    let order = key_order(b.order, group_key);
    assert forall|i: int| 0 <= i < order.len() implies (#[trigger] order[i]).column_index
        < b.schema.len() by {
        let o = order[i];
        assert(b.order.contains(o));
        let j = choose|j: int| 0 <= j < b.order.len() && b.order[j] == o;
        assert(b.order[j].column_index < b.schema.len());
    }
}

/// Running a plan by many workers keeps its columns and the order of its rows, and every node
/// still fits its input.
pub proof fn distributed_plan_keeps_order(plan: PlanModel)
    requires
        plan.wf(),
    ensures
        plan.distributed() matches Ok(x) ==> {
            &&& x.wf()
            &&& x.base().schema == plan.base().schema
            &&& x.base().order == plan.base().order
        },
    decreases plan,
{
    match plan {
        PlanModel::Source(_, _) => {},
        PlanModel::Sort(input, order) => {
            distributed_plan_keeps_order(*input);
            if let Ok(x) = input.distributed() {
                plan_base_wf(x);
            }
        },
        PlanModel::Exchange(_, _, _) => {},
        PlanModel::SortAgg(input, agg) => {
            distributed_plan_keeps_order(*input);
            plan_base_wf(*input);
            if let Ok(x) = input.distributed() {
                let order = key_order(input.base().order, agg.group_key);
                lemma_key_order(input.base().order, agg.group_key);
                lemma_key_order_below(input.base(), agg.group_key);
                let n = input.base().schema.len();
                let columns = columns_of(n, agg.group_key);
                lemma_ones_below(columns);
                let required = input.group_requirement(agg);
                let sorted = x.with_order(order);
                lemma_enforced(x, order, required, order);
                lemma_enforced(sorted, order, required, order);
            }
        },
    }
}

/// Each group of an aggregation that is run by many workers is at one worker: the input is
/// spread by columns of the group key.
pub proof fn distributed_groups_meet(input: PlanModel, agg: AggModel)
    requires
        input.wf(),
        agg_fits(input.base(), agg),
    ensures
        PlanModel::SortAgg(Box::new(input), agg).distributed() matches Ok(x) ==> (
        x matches PlanModel::SortAgg(new_input, new_agg) && new_agg == agg && dist_satisfies(
            new_input.base().dist,
            input.group_requirement(agg),
        )),
{
    plan_base_wf(input);
    let columns = columns_of(input.base().schema.len(), agg.group_key);
    lemma_ones(columns);
}

/// Running a plan by one worker keeps its columns and the order of its rows, and every node
/// still fits its input.
pub proof fn local_plan_keeps_order(plan: PlanModel)
    requires
        plan.wf(),
    ensures
        plan.local() matches Ok(x) ==> {
            &&& x.wf()
            &&& x.base().schema == plan.base().schema
            &&& x.base().order == plan.base().order
        },
    decreases plan,
{
    let single = Requirement::PhysicalDist(Dist::Single);
    match plan {
        PlanModel::Source(_, _) => {},
        PlanModel::Sort(input, order) => {
            local_plan_keeps_order(*input);
            if let Ok(x) = input.local() {
                lemma_enforced(x, Seq::empty(), single, Seq::empty());
                plan_base_wf(x.with_dist(single, Seq::empty()));
            }
        },
        PlanModel::Exchange(_, _, _) => {},
        PlanModel::SortAgg(input, agg) => {
            local_plan_keeps_order(*input);
            plan_base_wf(*input);
            if let Ok(x) = input.local() {
                lemma_enforced(x, Seq::empty(), single, input.base().order);
            }
        },
    }
}

/// All rows of an aggregation that is run by one worker are at that worker, before and after.
pub proof fn local_rows_meet(input: PlanModel, agg: AggModel)
    ensures
        PlanModel::SortAgg(Box::new(input), agg).local() matches Ok(x) ==> (
        x matches PlanModel::SortAgg(new_input, new_agg) && new_agg == agg
            && new_input.base().dist == Dist::Single && x.base().dist == Dist::Single),
{
}

impl PlanNode {
    closed spec fn model(&self) -> PlanModel
        decreases self,
    {
        match self {
            PlanNode::Source(s) => PlanModel::Source(s.base@, s.refusal),
            PlanNode::Sort(s) => PlanModel::Sort(Box::new(s.input.model()), s.base.order@),
            PlanNode::Exchange(x) => PlanModel::Exchange(
                Box::new(x.input.model()),
                x.base.dist@,
                x.base.order@,
            ),
            PlanNode::SortAgg(a) => PlanModel::SortAgg(
                Box::new(a.logical.input.model()),
                a.logical.aggregation(),
            ),
        }
    }

    /// Each node has what its input and its own parts make of it.
    closed spec fn consistent(&self) -> bool
        decreases self,
    {
        match self {
            PlanNode::Source(_) => true,
            PlanNode::Sort(s) => s.input.consistent() && s.base@ == self.model().base(),
            PlanNode::Exchange(x) => x.input.consistent() && x.base@ == self.model().base(),
            PlanNode::SortAgg(a) => {
                &&& a.logical.input.consistent()
                &&& a.base@ == self.model().base()
                &&& a.input_order@ == key_order(
                    a.logical.input.model().base().order,
                    a.logical.group_key@,
                )
            },
        }
    }

    /// The plan can be worked on.
    pub closed spec fn ok(&self) -> bool {
        self.consistent() && self.model().wf()
    }

    /// In a plan that can be worked on, every node fits its input.
    pub proof fn ok_plan_fits(&self)
        requires
            self.ok(),
        ensures
            self@.wf(),
    {
    }

    fn base(&self) -> (r: &PlanBase)
        requires
            self.ok(),
        ensures
            r@ == self@.base(),
    {
        match self {
            PlanNode::Source(s) => &s.base,
            PlanNode::Sort(s) => &s.base,
            PlanNode::Exchange(x) => &x.base,
            PlanNode::SortAgg(a) => &a.base,
        }
    }

    pub fn schema(&self) -> (r: &Schema)
        requires
            self.ok(),
        ensures
            r@ == self@.base().schema,
    {
        &self.base().schema
    }

    pub fn distribution(&self) -> (r: &Distribution)
        requires
            self.ok(),
        ensures
            r@ == self@.base().dist,
    {
        &self.base().dist
    }

    pub fn order(&self) -> (r: &Order)
        requires
            self.ok(),
        ensures
            r@ == self@.base().order,
    {
        &self.base().order
    }
}

impl View for PlanNode {
    type V = PlanModel;

    closed spec fn view(&self) -> PlanModel {
        self.model()
    }
}

impl BatchSource {
    /// A plan that reads data.
    pub fn new(base: PlanBase, refusal: Option<PlanError>) -> (r: PlanRef)
        requires
            base_wf(base@),
        ensures
            r.ok(),
            r@ == PlanModel::Source(base@, refusal),
    {
        Rc::new(PlanNode::Source(BatchSource { base, refusal }))
    }
}

impl BatchSort {
    /// A plan that sorts its input.
    pub fn new(input: PlanRef, order: Order) -> (r: PlanRef)
        requires
            input.ok(),
            forall|i: int|
                0 <= i < order@.len() ==> (#[trigger] order@[i]).column_index
                    < input@.base().schema.len(),
        ensures
            r.ok(),
            r@ == PlanModel::Sort(Box::new(input@), order@),
    {
        proof {
            plan_base_wf(input@);
        }
        let base = PlanBase::new_batch(
            input.schema().clone(),
            input.distribution().clone(),
            order,
        );
        Rc::new(PlanNode::Sort(BatchSort { base, input }))
    }
}

impl BatchExchange {
    /// A plan that sends the rows of its input to other workers.
    pub fn new(input: PlanRef, order: Order, dist: Distribution) -> (r: PlanRef)
        requires
            input.ok(),
            forall|i: int|
                0 <= i < order@.len() ==> (#[trigger] order@[i]).column_index
                    < input@.base().schema.len(),
            forall|i: int|
                0 <= i < dist@.keys().len() ==> (#[trigger] dist@.keys()[i])
                    < input@.base().schema.len(),
        ensures
            r.ok(),
            r@ == PlanModel::Exchange(Box::new(input@), dist@, order@),
    {
        proof {
            plan_base_wf(input@);
        }
        let base = PlanBase::new_batch(input.schema().clone(), dist, order);
        Rc::new(PlanNode::Exchange(BatchExchange { base, input }))
    }
}

impl Order {
    /// The plan, sorted. It is not sorted again where it is sorted already.
    pub fn enforce_if_not_satisfies(&self, plan: PlanRef) -> (r: Result<PlanRef, PlanError>)
        requires
            plan.ok(),
            forall|i: int|
                0 <= i < self@.len() ==> (#[trigger] self@[i]).column_index
                    < plan@.base().schema.len(),
        ensures
            r matches Ok(x) && x.ok() && x@ == plan@.with_order(self@),
    {
        if plan.order().satisfies(self) {
            Ok(plan)
        } else {
            Ok(BatchSort::new(plan, self.clone()))
        }
    }
}

impl RequiredDist {
    /// The plan, with its rows where they are required. They are not sent anywhere where they
    /// are there already.
    pub fn enforce_if_not_satisfies(&self, plan: PlanRef, required_order: &Order) -> (r: Result<
        PlanRef,
        PlanError,
    >)
        requires
            plan.ok(),
            forall|i: int|
                0 <= i < required_order@.len() ==> (#[trigger] required_order@[i]).column_index
                    < plan@.base().schema.len(),
            forall|i: int|
                0 <= i < enforced_dist(self@).keys().len() ==> (#[trigger] enforced_dist(
                    self@,
                ).keys()[i]) < plan@.base().schema.len(),
        ensures
            r matches Ok(x) && x.ok() && x@ == plan@.with_dist(self@, required_order@),
    {
        if plan.distribution().satisfies(self) {
            Ok(plan)
        } else {
            Ok(BatchExchange::new(plan, required_order.clone(), self.to_dist()))
        }
    }
}

impl Agg {
    pub open spec fn aggregation(&self) -> AggModel {
        AggModel { agg_calls: self.agg_calls@, group_key: self.group_key@ }
    }

    /// The aggregation can be put on top of its input.
    pub open spec fn ok(&self) -> bool {
        self.input.ok() && agg_fits(self.input@.base(), self.aggregation())
    }

    /// Where the columns of the input go.
    pub fn i2o_col_mapping(&self) -> (r: ColIndexMapping)
        requires
            self.ok(),
        ensures
            r.image() == group_image(self.group_key@, self.input@.base().schema.len()),
    {
        let n: usize = self.input.schema().len();
        let mut map: Vec<Option<usize>> = Vec::new();
        let mut c: usize = 0;
        while c < n
            invariant
                c <= n,
                map@.len() == c,
                forall|d: int| 0 <= d < c ==> #[trigger] map@[d] == last_position(Seq::empty(), d),
            decreases n - c,
        {
            map.push(None);
            c = c + 1;
        }
        let mut i: usize = 0;
        assert(self.group_key@.take(0) =~= Seq::empty());
        while i < self.group_key.len()
            invariant
                i <= self.group_key@.len(),
                n == self.input@.base().schema.len(),
                map@.len() == n,
                agg_fits(self.input@.base(), self.aggregation()),
                forall|d: int|
                    0 <= d < n ==> #[trigger] map@[d] == last_position(
                        self.group_key@.take(i as int),
                        d,
                    ),
            decreases self.group_key@.len() - i,
        {
            let ghost before = map@;
            let key: usize = self.group_key[i];
            assert(self.aggregation().group_key[i as int] < n);
            map.set(key, Some(i));
            proof {
                let shorter = self.group_key@.take(i as int);
                assert(shorter.push(key) =~= self.group_key@.take(i + 1));
                assert forall|d: int| 0 <= d < n implies #[trigger] map@[d] == last_position(
                    self.group_key@.take(i + 1),
                    d,
                ) by {
                    lemma_last_position_push(shorter, key, d);
                    assert(before[d] == last_position(shorter, d));
                }
            }
            i = i + 1;
        }
        assert(self.group_key@.take(self.group_key@.len() as int) =~= self.group_key@);
        assert(map@ =~= group_image(self.group_key@, n as nat));
        ColIndexMapping::new(map)
    }

    /// The columns of the aggregation.
    pub fn schema(&self) -> (r: Schema)
        requires
            self.ok(),
        ensures
            r@ == agg_schema(self.input@.base().schema, self.aggregation()),
    {
        let input = self.input.schema();
        let mut fields: Vec<Rc<Field>> = Vec::new();
        let mut i: usize = 0;
        while i < self.group_key.len()
            invariant
                i <= self.group_key@.len(),
                input@ == self.input@.base().schema,
                agg_fits(self.input@.base(), self.aggregation()),
                fields@.len() == i,
                forall|j: int|
                    0 <= j < i ==> #[trigger] fields@[j] == input@[self.group_key@[j] as int],
            decreases self.group_key@.len() - i,
        {
            assert(self.aggregation().group_key[i as int] < input@.len());
            fields.push(input.fields[self.group_key[i]].clone());
            i = i + 1;
        }
        let mut k: usize = 0;
        let ghost keys = self.group_key@.len();
        while k < self.agg_calls.len()
            invariant
                k <= self.agg_calls@.len(),
                keys == self.group_key@.len(),
                fields@.len() == keys + k,
                forall|j: int|
                    0 <= j < keys ==> #[trigger] fields@[j] == input@[self.group_key@[j] as int],
                forall|j: int|
                    keys <= j < keys + k ==> #[trigger] fields@[j] == self.agg_calls@[j
                        - keys].output,
            decreases self.agg_calls@.len() - k,
        {
            fields.push(self.agg_calls[k].output.clone());
            k = k + 1;
        }
        assert(fields@ =~= agg_schema(input@, self.aggregation()));
        Schema { fields }
    }

    /// The part of an order that is about the group key.
    fn key_order_of(&self, order: &Order) -> (r: Order)
        ensures
            r@ == key_order(order@, self.group_key@),
    {
        let mut out: Vec<ColumnOrder> = Vec::new();
        let mut i: usize = 0;
        assert(order@.take(0) =~= Seq::empty());
        while i < order.column_orders.len()
            invariant
                i <= order@.len(),
                out@ == key_order(order@.take(i as int), self.group_key@),
            decreases order@.len() - i,
        {
            assert(order@.take(i + 1).drop_last() =~= order@.take(i as int));
            let column_order = order.column_orders[i];
            if self.in_group_key(column_order.column_index) {
                out.push(column_order);
            }
            i = i + 1;
        }
        assert(order@.take(order@.len() as int) =~= order@);
        Order { column_orders: out }
    }

    fn in_group_key(&self, column: usize) -> (r: bool)
        ensures
            r == self.group_key@.contains(column),
    {
        let mut i: usize = 0;
        while i < self.group_key.len()
            invariant
                i <= self.group_key@.len(),
                forall|j: int| 0 <= j < i ==> self.group_key@[j] != column,
            decreases self.group_key@.len() - i,
        {
            if self.group_key[i] == column {
                assert(self.group_key@[i as int] == column);
                return true;
            }
            i = i + 1;
        }
        false
    }

    /// Rewrites the expressions of the aggregate calls.
    pub fn rewrite_exprs<R: ExprRewriter>(&mut self, r: &mut R)
        ensures
            final(self).group_key == old(self).group_key,
            final(self).input == old(self).input,
            calls_rewritten(
                *old(r),
                old(self).agg_calls@,
                final(self).agg_calls@,
                *final(r),
            ),
    {
        let mut calls: Vec<Rc<PlanAggCall>> = Vec::new();
        let mut i: usize = 0;
        assert(calls_rewritten(*old(r), self.agg_calls@.take(0), calls@, *r));
        while i < self.agg_calls.len()
            invariant
                i <= self.agg_calls@.len(),
                *self == *old(self),
                calls_rewritten(*old(r), self.agg_calls@.take(i as int), calls@, *r),
            decreases self.agg_calls@.len() - i,
        {
            let ghost (mid, before) = (*r, calls@);
            let call = self.agg_calls[i].rewrite_filter(r);
            calls.push(Rc::new(call));
            proof {
                let longer = self.agg_calls@.take(i + 1);
                assert(longer.drop_last() =~= self.agg_calls@.take(i as int));
                assert(calls@.drop_last() =~= before);
                assert(calls_rewritten(*old(r), longer.drop_last(), calls@.drop_last(), mid));
                assert(filter_rewritten(mid, *longer.last(), *calls@.last(), *r));
            }
            i = i + 1;
        }
        assert(self.agg_calls@.take(self.agg_calls@.len() as int) =~= self.agg_calls@);
        self.agg_calls = calls;
    }
}

impl Clone for Agg {
    fn clone(&self) -> (r: Self)
        ensures
            r.aggregation() == self.aggregation(),
            r.input == self.input,
    {
        let mut agg_calls: Vec<Rc<PlanAggCall>> = Vec::new();
        let mut i: usize = 0;
        while i < self.agg_calls.len()
            invariant
                i <= self.agg_calls@.len(),
                agg_calls@ =~= self.agg_calls@.take(i as int),
            decreases self.agg_calls@.len() - i,
        {
            agg_calls.push(self.agg_calls[i].clone());
            i = i + 1;
        }
        let group_key = self.group_key.clone();
        assert(agg_calls@ =~= self.agg_calls@);
        assert(group_key@ =~= self.group_key@);
        Agg { agg_calls, group_key, input: self.input.clone() }
    }
}

/// `results` are `calls` with their filters rewritten, one after the other.
pub open spec fn calls_rewritten<R: ExprRewriter>(
    before: R,
    calls: Seq<Rc<PlanAggCall>>,
    results: Seq<Rc<PlanAggCall>>,
    after: R,
) -> bool
    decreases calls.len(),
{
    if calls.len() == 0 {
        results.len() == 0 && before == after
    } else {
        &&& results.len() == calls.len()
        &&& exists|mid: R|
            calls_rewritten(before, calls.drop_last(), results.drop_last(), mid) && #[trigger]
            filter_rewritten(mid, *calls.last(), *results.last(), after)
    }
}

/// Rewriting filters keeps the columns of the results.
pub proof fn rewritten_calls_keep_columns<R: ExprRewriter>(
    before: R,
    calls: Seq<Rc<PlanAggCall>>,
    results: Seq<Rc<PlanAggCall>>,
    after: R,
)
    requires
        calls_rewritten(before, calls, results, after),
    ensures
        results.len() == calls.len(),
        forall|i: int| 0 <= i < calls.len() ==> (#[trigger] results[i]).output == calls[i].output,
    decreases calls.len(),
{
    if calls.len() > 0 {
        let mid = choose|mid: R|
            calls_rewritten(before, calls.drop_last(), results.drop_last(), mid) && #[trigger]
            filter_rewritten(mid, *calls.last(), *results.last(), after);
        rewritten_calls_keep_columns(before, calls.drop_last(), results.drop_last(), mid);
        assert forall|i: int| 0 <= i < calls.len() implies (#[trigger] results[i]).output
            == calls[i].output by {
            if i < calls.len() - 1 {
                assert(results.drop_last()[i].output == calls.drop_last()[i].output);
            }
        }
    }
}

/// The wire form of a node.
#[derive(Debug)]
pub enum NodeBody {
    SortAgg(SortAggNode),
}

/// The wire form of an aggregation over sorted input.
#[derive(Debug)]
pub struct SortAggNode {
    pub agg_calls: Vec<AggCall>,
    pub group_key: Vec<ExprNode>,
}

impl BatchSortAgg {
    /// What is aggregated.
    pub closed spec fn agg(&self) -> Agg {
        self.logical
    }

    /// How the input comes sorted, as far as the group key is concerned.
    pub closed spec fn required_order(&self) -> Seq<ColumnOrder> {
        self.input_order@
    }

    /// The columns of the results, how they are spread, and how they are sorted.
    pub closed spec fn base_view(&self) -> BaseModel {
        self.base@
    }

    /// The plan that the node is.
    pub open spec fn plan(&self) -> PlanModel {
        PlanModel::SortAgg(Box::new(self.agg().input@), self.agg().aggregation())
    }

    /// The node can be worked on.
    pub open spec fn ok(&self) -> bool {
        &&& self.agg().ok()
        &&& self.base_view() == sort_agg_base(self.agg().input@.base(), self.agg().aggregation())
        &&& self.required_order() == key_order(
            self.agg().input@.base().order,
            self.agg().group_key@,
        )
    }

    /// Puts an aggregation on top of its input, which must come sorted by the group key.
    ///
    /// Rows that are spread by columns of the group key stay where they are. Where a column
    /// that they are spread by is not in the group key, nothing is known of where they are.
    pub fn new(logical: Agg) -> (r: Self)
        requires
            logical.ok(),
        ensures
            r.ok(),
            r.agg() == logical,
            r.base_view() == sort_agg_base(logical.input@.base(), logical.aggregation()),
            r.required_order() == key_order(logical.input@.base().order, logical.group_key@),
    {
        let schema = logical.schema();
        let input = logical.input.clone();
        proof {
            plan_base_wf(input@);
            lemma_key_order_below(input@.base(), logical.group_key@);
        }
        let input_dist = input.distribution();
        let dist = match input_dist {
            Distribution::HashShard(_) | Distribution::UpstreamHashShard(
                _,
                _,
            ) => logical.i2o_col_mapping().rewrite_provided_distribution(input_dist),
            d => d.clone(),
        };
        let input_order = logical.key_order_of(input.order());
        let order = logical.i2o_col_mapping().rewrite_provided_order(&input_order);
        let base = PlanBase::new_batch(schema, dist, order);
        BatchSortAgg { base, logical, input_order }
    }

    pub fn agg_calls(&self) -> (r: &[Rc<PlanAggCall>])
        ensures
            r@ == self.agg().agg_calls@,
    {
        self.logical.agg_calls.as_slice()
    }

    pub fn group_key(&self) -> (r: &[usize])
        ensures
            r@ == self.agg().group_key@,
    {
        self.logical.group_key.as_slice()
    }

    pub fn input(&self) -> (r: PlanRef)
        ensures
            r == self.agg().input,
    {
        self.logical.input.clone()
    }

    /// The same aggregation, on top of another input.
    pub fn clone_with_input(&self, input: PlanRef) -> (r: Self)
        requires
            input.ok(),
            agg_fits(input@.base(), self.agg().aggregation()),
        ensures
            r.ok(),
            r.agg().input == input,
            r.agg().aggregation() == self.agg().aggregation(),
    {
        let mut logical = self.logical.clone();
        logical.input = input;
        Self::new(logical)
    }

    /// The node as a plan.
    pub fn into_plan(self) -> (r: PlanRef)
        requires
            self.ok(),
        ensures
            r.ok(),
            r@ == self.plan(),
    {
        Rc::new(PlanNode::SortAgg(self))
    }

    /// The aggregation, run by many workers: the input is sorted by the group key, and each
    /// group is at one worker. Where the input cannot be run, its error is returned.
    pub fn to_distributed(&self) -> (r: Result<PlanRef, PlanError>)
        requires
            self.ok(),
        ensures
            match self.plan().distributed() {
                Ok(x) => r matches Ok(p) && p.ok() && p@ == x,
                Err(e) => r == Err::<PlanRef, PlanError>(e),
            },
        decreases self, 0nat,
    {
        let input = self.input();
        proof {
            assert(decreases_to!(*self => self.logical));
            assert(decreases_to!(self.logical => self.logical.input));
            plan_base_wf(input@);
            lemma_key_order_below(input@.base(), self.logical.group_key@);
            distributed_plan_keeps_order(self.plan());
            lemma_ones_below(columns_of(input@.base().schema.len(), self.logical.group_key@));
            assert forall|i: int| 0 <= i < self.logical.group_key@.len() implies (
            #[trigger] self.logical.group_key@[i]) < input@.base().schema.len() by {
                assert(self.logical.aggregation().group_key[i] < input@.base().schema.len());
            }
        }
        let required = RequiredDist::shard_by_key(input.schema().len(), self.group_key());
        match input.to_distributed_with_required(&self.input_order, &required) {
            Err(e) => Err(e),
            Ok(new_input) => Ok(self.clone_with_input(new_input).into_plan()),
        }
    }

    /// The aggregation, run by one worker. Where the input cannot be run, its error is
    /// returned.
    pub fn to_local(&self) -> (r: Result<PlanRef, PlanError>)
        requires
            self.ok(),
        ensures
            match self.plan().local() {
                Ok(x) => r matches Ok(p) && p.ok() && p@ == x,
                Err(e) => r == Err::<PlanRef, PlanError>(e),
            },
        decreases self, 0nat,
    {
        let input = self.input();
        proof {
            assert(decreases_to!(*self => self.logical));
            assert(decreases_to!(self.logical => self.logical.input));
            plan_base_wf(input@);
            local_plan_keeps_order(self.plan());
            local_plan_keeps_order(input@);
        }
        let new_input = match input.to_local() {
            Ok(x) => x,
            Err(e) => {
                return Err(e);
            },
        };
        match RequiredDist::single().enforce_if_not_satisfies(new_input, input.order()) {
            Err(e) => Err(e),
            Ok(new_input) => Ok(self.clone_with_input(new_input).into_plan()),
        }
    }

    /// The wire form. The group key is sent as references to columns of the input.
    pub fn to_batch_prost_body(&self) -> (r: NodeBody)
        ensures
            r matches NodeBody::SortAgg(node) && {
                &&& node.agg_calls@.len() == self.agg().agg_calls@.len()
                &&& forall|i: int|
                    #![trigger node.agg_calls@[i]]
                    0 <= i < node.agg_calls@.len() ==> agg_call_on_wire(
                        *self.agg().agg_calls@[i],
                        node.agg_calls@[i],
                    )
                &&& node.group_key@.len() == self.agg().group_key@.len()
                &&& forall|i: int|
                    #![trigger node.group_key@[i]]
                    0 <= i < node.group_key@.len() ==> {
                        &&& node.group_key@[i].rex_node == RexNode::InputRef(
                            self.agg().group_key@[i] as u32,
                        )
                        &&& *node.group_key@[i].return_type == DataType::Int32
                    }
            },
    {
        let calls = self.agg_calls();
        let mut agg_calls: Vec<AggCall> = Vec::new();
        let mut i: usize = 0;
        while i < calls.len()
            invariant
                i <= calls@.len(),
                calls@ == self.agg().agg_calls@,
                agg_calls@.len() == i,
                forall|j: int|
                    #![trigger agg_calls@[j]]
                    0 <= j < i ==> agg_call_on_wire(*calls@[j], agg_calls@[j]),
            decreases calls@.len() - i,
        {
            agg_calls.push(calls[i].to_protobuf());
            i = i + 1;
        }
        let keys = self.group_key();
        let mut group_key: Vec<ExprNode> = Vec::new();
        let mut k: usize = 0;
        while k < keys.len()
            invariant
                k <= keys@.len(),
                group_key@.len() == k,
                forall|j: int|
                    #![trigger group_key@[j]]
                    0 <= j < k ==> {
                        &&& group_key@[j].rex_node == RexNode::InputRef(keys@[j] as u32)
                        &&& *group_key@[j].return_type == DataType::Int32
                    },
            decreases keys@.len() - k,
        {
            let expr = ExprImpl::InputRef(Box::new(InputRef::new(keys[k], DataType::Int32)));
            let node = expr.to_expr_proto();
            assert(expr_on_wire(expr, node));
            group_key.push(node);
            k = k + 1;
        }
        NodeBody::SortAgg(SortAggNode { agg_calls, group_key })
    }

    pub fn has_rewritable_expr(&self) -> (r: bool)
        ensures
            r,
    {
        true
    }

    /// The aggregation with its expressions rewritten.
    pub fn rewrite_exprs<R: ExprRewriter>(&self, r: &mut R) -> (p: PlanRef)
        requires
            self.ok(),
        ensures
            p.ok(),
            p@ matches PlanModel::SortAgg(input, agg) && {
                &&& *input == self.agg().input@
                &&& agg.group_key == self.agg().group_key@
                &&& calls_rewritten(*old(r), self.agg().agg_calls@, agg.agg_calls, *final(r))
            },
            p@.base() == self.base_view(),
    {
        let mut new_logical = self.logical.clone();
        new_logical.rewrite_exprs(r);
        proof {
            rewritten_calls_keep_columns(
                *old(r),
                self.logical.agg_calls@,
                new_logical.agg_calls@,
                *r,
            );
            assert(agg_schema(self.logical.input@.base().schema, new_logical.aggregation())
                =~= agg_schema(self.logical.input@.base().schema, self.logical.aggregation()));
        }
        Self::new(new_logical).into_plan()
    }
}

impl PlanNode {
    /// The plan, run by many workers.
    pub fn to_distributed(self: &PlanRef) -> (r: Result<PlanRef, PlanError>)
        requires
            self.ok(),
        ensures
            match self@.distributed() {
                Ok(x) => r matches Ok(p) && p.ok() && p@ == x,
                Err(e) => r == Err::<PlanRef, PlanError>(e),
            },
        decreases self, 0nat,
    {
        match &**self {
            PlanNode::Source(s) => match s.refusal {
                Some(e) => Err(e),
                None => Ok(self.clone()),
            },
            PlanNode::Sort(s) => {
                proof {
                    plan_base_wf(self@);
                    distributed_plan_keeps_order(s.input@);
                    assert(decreases_to!(**self => *s));
                    assert(decreases_to!(*s => s.input));
                }
                match s.input.to_distributed() {
                    Err(e) => Err(e),
                    Ok(x) => Ok(BatchSort::new(x, s.base.order.clone())),
                }
            },
            PlanNode::Exchange(_) => Ok(self.clone()),
            PlanNode::SortAgg(a) => {
                proof {
                    assert(decreases_to!(**self => *a));
                }
                a.to_distributed()
            },
        }
    }

    /// The plan, run by many workers, sorted and spread as required.
    pub fn to_distributed_with_required(
        self: &PlanRef,
        required_order: &Order,
        required_dist: &RequiredDist,
    ) -> (r: Result<PlanRef, PlanError>)
        requires
            self.ok(),
            forall|i: int|
                0 <= i < required_order@.len() ==> (#[trigger] required_order@[i]).column_index
                    < self@.base().schema.len(),
            forall|i: int|
                0 <= i < enforced_dist(required_dist@).keys().len() ==> (#[trigger] enforced_dist(
                    required_dist@,
                ).keys()[i]) < self@.base().schema.len(),
        ensures
            match self@.distributed() {
                Ok(x) => r matches Ok(p) && p.ok() && p@ == x.with_order(
                    required_order@,
                ).with_dist(required_dist@, required_order@),
                Err(e) => r == Err::<PlanRef, PlanError>(e),
            },
        decreases self, 1nat,
    {
        proof {
            distributed_plan_keeps_order(self@);
        }
        let plan = match self.to_distributed() {
            Ok(x) => x,
            Err(e) => {
                return Err(e);
            },
        };
        match required_order.enforce_if_not_satisfies(plan) {
            Err(e) => Err(e),
            Ok(plan) => required_dist.enforce_if_not_satisfies(plan, required_order),
        }
    }

    /// The plan, run by one worker.
    pub fn to_local(self: &PlanRef) -> (r: Result<PlanRef, PlanError>)
        requires
            self.ok(),
        ensures
            match self@.local() {
                Ok(x) => r matches Ok(p) && p.ok() && p@ == x,
                Err(e) => r == Err::<PlanRef, PlanError>(e),
            },
        decreases self, 0nat,
    {
        match &**self {
            PlanNode::Source(s) => match s.refusal {
                Some(e) => Err(e),
                None => Ok(self.clone()),
            },
            PlanNode::Sort(s) => {
                proof {
                    plan_base_wf(self@);
                    local_plan_keeps_order(s.input@);
                    assert(decreases_to!(**self => *s));
                    assert(decreases_to!(*s => s.input));
                }
                let input = match s.input.to_local() {
                    Ok(x) => x,
                    Err(e) => {
                        return Err(e);
                    },
                };
                match RequiredDist::single().enforce_if_not_satisfies(input, &Order::any()) {
                    Err(e) => Err(e),
                    Ok(x) => Ok(BatchSort::new(x, s.base.order.clone())),
                }
            },
            PlanNode::Exchange(_) => Ok(self.clone()),
            PlanNode::SortAgg(a) => {
                proof {
                    assert(decreases_to!(**self => *a));
                }
                a.to_local()
            },
        }
    }
}

impl Clone for BatchSortAgg {
    fn clone(&self) -> (r: Self)
        ensures
            r.plan() == self.plan(),
            r.agg().input == self.agg().input,
            r.base_view() == self.base_view(),
            r.required_order() == self.required_order(),
    {
        BatchSortAgg {
            base: self.base.clone(),
            logical: self.logical.clone(),
            input_order: self.input_order.clone(),
        }
    }
}

/// An aggregation put on top of its own input again is the same plan.
pub proof fn same_input_same_plan(a: BatchSortAgg, b: BatchSortAgg)
    requires
        a.ok(),
        b.ok(),
        a.agg().input == b.agg().input,
        a.agg().aggregation() == b.agg().aggregation(),
    ensures
        a.plan() == b.plan(),
        a.base_view() == b.base_view(),
        a.required_order() == b.required_order(),
{
}

} // verus!
