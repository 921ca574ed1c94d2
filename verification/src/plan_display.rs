//! Plans as text.
use std::rc::Rc;

use vstd::prelude::*;
use vstd::string::StringExecFns;

use crate::batch_plan::BatchSortAgg;
use crate::expr::{AggKind, InputRef, PlanAggCall};
use crate::text::{
    decimal_text, is_list, join_strings, joined, joined_pieces_are_a_list, push_decimal, texts,
};

verus! {

impl AggKind {
    /// The name of the function.
    pub open spec fn name_text(self) -> Seq<char> {
        match self {
            AggKind::BitXor => "bit_xor"@,
            AggKind::Min => "min"@,
            AggKind::Max => "max"@,
            AggKind::Sum => "sum"@,
            AggKind::Count => "count"@,
            AggKind::Avg => "avg"@,
            AggKind::StringAgg => "string_agg"@,
            AggKind::ArrayAgg => "array_agg"@,
            AggKind::FirstValue => "first_value"@,
        }
    }

    pub fn name(self) -> (r: &'static str)
        ensures
            r@ == self.name_text(),
    {
        match self {
            AggKind::BitXor => "bit_xor",
            AggKind::Min => "min",
            AggKind::Max => "max",
            AggKind::Sum => "sum",
            AggKind::Count => "count",
            AggKind::Avg => "avg",
            AggKind::StringAgg => "string_agg",
            AggKind::ArrayAgg => "array_agg",
            AggKind::FirstValue => "first_value",
        }
    }
}

/// A column, by its number.
pub open spec fn column_text(index: usize) -> Seq<char> {
    "$"@ + decimal_text(index as nat)
}

/// Columns, by their numbers, with commas between them.
pub open spec fn columns_text(columns: Seq<usize>) -> Seq<char> {
    joined(columns.map_values(|c: usize| column_text(c)), ", "@)
}

/// An aggregate call: the function, and the columns that it is applied to, if there are any.
pub open spec fn call_text(call: PlanAggCall) -> Seq<char> {
    if call.inputs@.len() == 0 {
        call.agg_kind.name_text()
    } else {
        call.agg_kind.name_text() + (if call.distinct {
            "(distinct "@
        } else {
            "("@
        }) + columns_text(call.inputs@.map_values(|r: InputRef| r.index)) + ")"@
    }
}

/// A node: the group key, if there is one, and the calls.
pub open spec fn sort_agg_text(
    group_key: Seq<usize>,
    agg_calls: Seq<Rc<PlanAggCall>>,
) -> Seq<char> {
    "BatchSortAgg { "@ + (if group_key.len() == 0 {
        Seq::empty()
    } else {
        "group_key: ["@ + columns_text(group_key) + "], "@
    }) + "aggs: ["@ + joined(
        agg_calls.map_values(|call: Rc<PlanAggCall>| call_text(*call)),
        ", "@,
    ) + "] }"@
}

fn display_columns(columns: &[usize]) -> (r: String)
    ensures
        r@ == columns_text(columns@),
{
    let mut pieces: Vec<String> = Vec::new();
    let mut i: usize = 0;
    while i < columns.len()
        invariant
            i <= columns@.len(),
            pieces@.len() == i,
            forall|j: int| 0 <= j < i ==> (#[trigger] pieces@[j])@ == column_text(columns@[j]),
        decreases columns@.len() - i,
    {
        let mut piece = String::from_str("$");
        push_decimal(&mut piece, columns[i] as u64);
        pieces.push(piece);
        i = i + 1;
    }
    assert(texts(pieces@) =~= columns@.map_values(|c: usize| column_text(c)));
    join_strings(&pieces, ", ")
}

fn display_call(call: &PlanAggCall) -> (r: String)
    ensures
        r@ == call_text(*call),
{
    let mut r = String::from_str(call.agg_kind.name());
    if call.inputs.len() == 0 {
        return r;
    }
    let mut columns: Vec<usize> = Vec::new();
    let mut i: usize = 0;
    while i < call.inputs.len()
        invariant
            i <= call.inputs@.len(),
            columns@.len() == i,
            forall|j: int| 0 <= j < i ==> #[trigger] columns@[j] == call.inputs@[j].index,
        decreases call.inputs@.len() - i,
    {
        columns.push(call.inputs[i].index);
        i = i + 1;
    }
    assert(columns@ =~= call.inputs@.map_values(|r: InputRef| r.index));
    if call.distinct {
        r.append("(distinct ");
    } else {
        r.append("(");
    }
    let text = display_columns(columns.as_slice());
    r.append(text.as_str());
    r.append(")");
    r
}

impl BatchSortAgg {
    /// The node as text.
    pub fn display(&self) -> (r: String)
        ensures
            r@ == sort_agg_text(self.agg().group_key@, self.agg().agg_calls@),
    {
        let calls = self.agg_calls();
        let mut pieces: Vec<String> = Vec::new();
        let mut i: usize = 0;
        while i < calls.len()
            invariant
                i <= calls@.len(),
                pieces@.len() == i,
                forall|j: int| 0 <= j < i ==> (#[trigger] pieces@[j])@ == call_text(*calls@[j]),
            decreases calls@.len() - i,
        {
            pieces.push(display_call(&calls[i]));
            i = i + 1;
        }
        assert(texts(pieces@) =~= calls@.map_values(|call: Rc<PlanAggCall>| call_text(*call)));
        let mut r = String::from_str("BatchSortAgg { ");
        let ghost start = r@;
        if self.group_key().len() > 0 {
            let columns = display_columns(self.group_key());
            r.append("group_key: [");
            r.append(columns.as_str());
            r.append("], ");
            assert(r@ =~= start + ("group_key: ["@ + columns@ + "], "@));
        } else {
            assert(r@ =~= start + Seq::<char>::empty());
        }
        r.append("aggs: [");
        let text = join_strings(&pieces, ", ");
        r.append(text.as_str());
        r.append("] }");
        r
    }
}

/// `list` is the list of the numbers of columns, each behind a dollar sign, in order.
pub open spec fn lists_columns(list: Seq<char>, columns: Seq<usize>) -> bool {
    is_list(
        list,
        Seq::new(columns.len(), |i: int| "$"@ + decimal_text(columns[i] as nat)),
        ", "@,
    )
}

proof fn lemma_columns_list(columns: Seq<usize>)
    ensures
        lists_columns(columns_text(columns), columns),
{
    let parts = Seq::new(columns.len(), |i: int| "$"@ + decimal_text(columns[i] as nat));
    assert(columns.map_values(|c: usize| column_text(c)) =~= parts);
    joined_pieces_are_a_list(parts, ", "@);
}

/// The text of a call is the name of the function and, in brackets, the list of its columns, with
/// a mark where it is over different values only.
pub proof fn text_of_a_call(call: PlanAggCall) -> (columns: Seq<char>)
    ensures
        lists_columns(columns, Seq::new(call.inputs@.len(), |i: int| call.inputs@[i].index)),
        ({
            let name = match call.agg_kind {
                AggKind::BitXor => "bit_xor"@,
                AggKind::Min => "min"@,
                AggKind::Max => "max"@,
                AggKind::Sum => "sum"@,
                AggKind::Count => "count"@,
                AggKind::Avg => "avg"@,
                AggKind::StringAgg => "string_agg"@,
                AggKind::ArrayAgg => "array_agg"@,
                AggKind::FirstValue => "first_value"@,
            };
            if call.inputs@.len() == 0 {
                call_text(call) == name
            } else if call.distinct {
                call_text(call) == name + "(distinct "@ + columns + ")"@
            } else {
                call_text(call) == name + "("@ + columns + ")"@
            }
        }),
{
    let indexes = Seq::new(call.inputs@.len(), |i: int| call.inputs@[i].index);
    assert(call.inputs@.map_values(|r: InputRef| r.index) =~= indexes);
    lemma_columns_list(indexes);
    columns_text(indexes)
}

/// The text of a node is the list of the columns of its group key, if there are any, and the list
/// of the texts of its calls.
pub proof fn text_of_a_node(group_key: Seq<usize>, agg_calls: Seq<Rc<PlanAggCall>>) -> (r: (
    Seq<char>,
    Seq<char>,
))
    ensures
        lists_columns(r.0, group_key),
        is_list(r.1, Seq::new(agg_calls.len(), |i: int| call_text(*agg_calls[i])), ", "@),
        sort_agg_text(group_key, agg_calls) == (if group_key.len() == 0 {
            "BatchSortAgg { "@ + "aggs: ["@ + r.1 + "] }"@
        } else {
            "BatchSortAgg { "@ + "group_key: ["@ + r.0 + "], "@ + "aggs: ["@ + r.1 + "] }"@
        }),
{
    lemma_columns_list(group_key);
    let parts = Seq::new(agg_calls.len(), |i: int| call_text(*agg_calls[i]));
    assert(agg_calls.map_values(|call: Rc<PlanAggCall>| call_text(*call)) =~= parts);
    joined_pieces_are_a_list(parts, ", "@);
    let (keys, calls) = (columns_text(group_key), joined(parts, ", "@));
    if group_key.len() == 0 {
        assert("BatchSortAgg { "@ + Seq::<char>::empty() =~= "BatchSortAgg { "@);
    } else {
        assert("BatchSortAgg { "@ + ("group_key: ["@ + keys + "], "@) =~= "BatchSortAgg { "@
            + "group_key: ["@ + keys + "], "@);
    }
    (keys, calls)
}

} // verus!
