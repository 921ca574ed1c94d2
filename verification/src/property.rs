//! What plans provide and require: how rows are spread over workers, and how they are sorted.
use vstd::prelude::*;

verus! {

/// A direction to sort in.
#[derive(Clone, Copy, Debug, PartialEq, Eq, Hash, Structural)]
pub enum OrderType {
    Ascending,
    Descending,
}

/// A column to sort by.
#[derive(Clone, Copy, Debug, PartialEq, Eq, Hash, Structural)]
pub struct ColumnOrder {
    pub column_index: usize,
    pub order_type: OrderType,
}

/// The columns that rows are sorted by, the most significant first.
#[derive(Debug, PartialEq, Eq, Hash)]
pub struct Order {
    pub column_orders: Vec<ColumnOrder>,
}

impl View for Order {
    type V = Seq<ColumnOrder>;

    open spec fn view(&self) -> Seq<ColumnOrder> {
        self.column_orders@
    }
}

/// Rows sorted by `provided` are sorted by `required` too.
pub open spec fn order_satisfies(provided: Seq<ColumnOrder>, required: Seq<ColumnOrder>) -> bool {
    required.is_prefix_of(provided)
}

impl Clone for Order {
    fn clone(&self) -> (r: Self)
        ensures
            r@ == self@,
    {
        let r = Order { column_orders: self.column_orders.clone() };
        assert(r@ =~= self@);
        r
    }
}

impl Order {
    /// No order.
    pub fn any() -> (r: Self)
        ensures
            r@ == Seq::<ColumnOrder>::empty(),
    {
        Order { column_orders: Vec::new() }
    }

    pub fn satisfies(&self, required: &Order) -> (r: bool)
        ensures
            r == order_satisfies(self@, required@),
    {
        if self.column_orders.len() < required.column_orders.len() {
            return false;
        }
        let mut i: usize = 0;
        while i < required.column_orders.len()
            invariant
                i <= required@.len() <= self@.len(),
                forall|j: int| 0 <= j < i ==> self@[j] == required@[j],
            decreases required@.len() - i,
        {
            if self.column_orders[i] != required.column_orders[i] {
                assert(required@ != self@.take(required@.len() as int)) by {
                    assert(self@.take(required@.len() as int)[i as int] == self@[i as int]);
                }
                return false;
            }
            i = i + 1;
        }
        assert(self@.take(required@.len() as int) =~= required@);
        true
    }
}

/// How rows are spread over workers.
#[derive(Debug, Hash)]
pub enum Distribution {
    /// One worker has all rows.
    Single,
    /// Each worker has all rows.
    Broadcast,
    /// Each row is at one worker, no matter which.
    SomeShard,
    /// Rows that agree in the columns are at the same worker.
    HashShard(Vec<usize>),
    /// As `HashShard`, by the way the rows of a table are spread.
    UpstreamHashShard(Vec<usize>, u32),
}

/// What a [`Distribution`] stands for.
pub enum Dist {
    Single,
    Broadcast,
    SomeShard,
    HashShard(Seq<usize>),
    UpstreamHashShard(Seq<usize>, u32),
}

impl View for Distribution {
    type V = Dist;

    open spec fn view(&self) -> Dist {
        match self {
            Distribution::Single => Dist::Single,
            Distribution::Broadcast => Dist::Broadcast,
            Distribution::SomeShard => Dist::SomeShard,
            Distribution::HashShard(keys) => Dist::HashShard(keys@),
            Distribution::UpstreamHashShard(keys, table) => Dist::UpstreamHashShard(keys@, *table),
        }
    }
}

impl Dist {
    /// The columns that decide where a row is.
    pub open spec fn keys(self) -> Seq<usize> {
        match self {
            Dist::HashShard(keys) => keys,
            Dist::UpstreamHashShard(keys, _) => keys,
            _ => Seq::empty(),
        }
    }
}

impl Clone for Distribution {
    fn clone(&self) -> (r: Self)
        ensures
            r@ == self@,
    {
        match self {
            Distribution::Single => Distribution::Single,
            Distribution::Broadcast => Distribution::Broadcast,
            Distribution::SomeShard => Distribution::SomeShard,
            Distribution::HashShard(keys) => {
                let copy = keys.clone();
                assert(copy@ =~= keys@);
                Distribution::HashShard(copy)
            },
            Distribution::UpstreamHashShard(keys, table) => {
                let copy = keys.clone();
                assert(copy@ =~= keys@);
                Distribution::UpstreamHashShard(copy, *table)
            },
        }
    }
}

fn same_keys(a: &Vec<usize>, b: &Vec<usize>) -> (r: bool)
    ensures
        r == (a@ == b@),
{
    if a.len() != b.len() {
        return false;
    }
    let mut i: usize = 0;
    while i < a.len()
        invariant
            i <= a.len(),
            a.len() == b.len(),
            forall|j: int| 0 <= j < i ==> a@[j] == b@[j],
        decreases a.len() - i,
    {
        if a[i] != b[i] {
            return false;
        }
        i = i + 1;
    }
    assert(a@ =~= b@);
    true
}

impl PartialEq for Distribution {
    fn eq(&self, other: &Self) -> (r: bool) {
        match (self, other) {
            (Distribution::Single, Distribution::Single) => true,
            (Distribution::Broadcast, Distribution::Broadcast) => true,
            (Distribution::SomeShard, Distribution::SomeShard) => true,
            (Distribution::HashShard(a), Distribution::HashShard(b)) => same_keys(a, b),
            (
                Distribution::UpstreamHashShard(a, a_table),
                Distribution::UpstreamHashShard(b, b_table),
            ) => same_keys(a, b) && *a_table == *b_table,
            _ => false,
        }
    }
}

impl Eq for Distribution {

}

impl vstd::std_specs::cmp::PartialEqSpecImpl for Distribution {
    open spec fn obeys_eq_spec() -> bool {
        true
    }

    open spec fn eq_spec(&self, other: &Self) -> bool {
        self@ == other@
    }
}

/// What a plan requires of how its rows are spread.
#[derive(Debug)]
pub enum RequiredDist {
    /// Rows that agree in the set columns must be at the same worker.
    ShardByKey(Vec<bool>),
    PhysicalDist(Distribution),
}

/// What a [`RequiredDist`] stands for.
pub enum Requirement {
    ShardByKey(Seq<bool>),
    PhysicalDist(Dist),
}

impl View for RequiredDist {
    type V = Requirement;

    open spec fn view(&self) -> Requirement {
        match self {
            RequiredDist::ShardByKey(columns) => Requirement::ShardByKey(columns@),
            RequiredDist::PhysicalDist(dist) => Requirement::PhysicalDist(dist@),
        }
    }
}

/// `columns` has the column.
pub open spec fn has_column(columns: Seq<bool>, c: int) -> bool {
    0 <= c < columns.len() && columns[c]
}

/// `columns` has each of the keys.
pub open spec fn all_within(keys: Seq<usize>, columns: Seq<bool>) -> bool {
    forall|i: int| 0 <= i < keys.len() ==> has_column(columns, #[trigger] keys[i] as int)
}

/// Rows spread by `dist` meet the requirement. Where rows must meet by columns, it is enough
/// that they meet by some of these columns.
pub open spec fn dist_satisfies(dist: Dist, required: Requirement) -> bool {
    match required {
        Requirement::ShardByKey(columns) => match dist {
            Dist::HashShard(keys) => all_within(keys, columns),
            Dist::UpstreamHashShard(keys, _) => all_within(keys, columns),
            _ => false,
        },
        Requirement::PhysicalDist(d) => dist == d,
    }
}

/// The set columns, in ascending order.
pub open spec fn ones(columns: Seq<bool>) -> Seq<usize>
    decreases columns.len(),
{
    if columns.len() == 0 {
        Seq::empty()
    } else if columns.last() {
        ones(columns.drop_last()).push((columns.len() - 1) as usize)
    } else {
        ones(columns.drop_last())
    }
}

/// The columns of a key, out of `n` columns.
pub open spec fn columns_of(n: nat, key: Seq<usize>) -> Seq<bool> {
    Seq::new(n, |c: int| exists|i: int| 0 <= i < key.len() && #[trigger] key[i] == c)
}

/// How rows are spread to meet a requirement that they do not meet.
pub open spec fn enforced_dist(required: Requirement) -> Dist {
    match required {
        Requirement::ShardByKey(columns) => Dist::HashShard(ones(columns)),
        Requirement::PhysicalDist(d) => d,
    }
}

impl Distribution {
    /// Whether each of the keys is a set column.
    fn keys_within(keys: &Vec<usize>, columns: &Vec<bool>) -> (r: bool)
        ensures
            r == all_within(keys@, columns@),
    {
        let mut i: usize = 0;
        while i < keys.len()
            invariant
                i <= keys.len(),
                forall|j: int| 0 <= j < i ==> has_column(columns@, #[trigger] keys@[j] as int),
            decreases keys.len() - i,
        {
            if keys[i] >= columns.len() || !columns[keys[i]] {
                assert(!has_column(columns@, keys@[i as int] as int));
                return false;
            }
            i = i + 1;
        }
        true
    }

    pub fn satisfies(&self, required: &RequiredDist) -> (r: bool)
        ensures
            r == dist_satisfies(self@, required@),
    {
        match required {
            RequiredDist::ShardByKey(columns) => {
                match self {
                    Distribution::HashShard(keys) => Self::keys_within(keys, columns),
                    Distribution::UpstreamHashShard(keys, _) => Self::keys_within(keys, columns),
                    _ => false,
                }
            },
            RequiredDist::PhysicalDist(dist) => *self == *dist,
        }
    }
}

impl RequiredDist {
    /// All rows at one worker.
    pub fn single() -> (r: Self)
        ensures
            r@ == Requirement::PhysicalDist(Dist::Single),
    {
        RequiredDist::PhysicalDist(Distribution::Single)
    }

    /// Rows that agree in the key at the same worker.
    pub fn shard_by_key(tot_col_num: usize, key: &[usize]) -> (r: Self)
        requires
            forall|i: int| 0 <= i < key@.len() ==> (#[trigger] key@[i]) < tot_col_num,
        ensures
            r@ == Requirement::ShardByKey(columns_of(tot_col_num as nat, key@)),
    {
        let mut columns: Vec<bool> = Vec::new();
        let mut c: usize = 0;
        while c < tot_col_num
            invariant
                c <= tot_col_num,
                columns@.len() == c,
                forall|d: int| 0 <= d < c ==> !(#[trigger] columns@[d]),
            decreases tot_col_num - c,
        {
            columns.push(false);
            c = c + 1;
        }
        let mut i: usize = 0;
        while i < key.len()
            invariant
                i <= key.len(),
                columns@.len() == tot_col_num,
                forall|j: int| 0 <= j < key@.len() ==> (#[trigger] key@[j]) < tot_col_num,
                forall|d: int|
                    0 <= d < tot_col_num ==> (#[trigger] columns@[d] <==> exists|j: int|
                        0 <= j < i && #[trigger] key@[j] == d),
            decreases key.len() - i,
        {
            let ghost before = columns@;
            let at: usize = key[i];
            assert(key@[i as int] < tot_col_num);
            columns.set(at, true);
            assert forall|d: int| 0 <= d < tot_col_num implies (#[trigger] columns@[d]
                <==> exists|j: int| 0 <= j < i + 1 && #[trigger] key@[j] == d) by {
                if columns@[d] {
                    if d == at {
                        assert(key@[i as int] == d);
                    } else {
                        assert(before[d]);
                    }
                }
                if exists|j: int| 0 <= j < i + 1 && #[trigger] key@[j] == d {
                    let j = choose|j: int| 0 <= j < i + 1 && #[trigger] key@[j] == d;
                    if j < i {
                        assert(before[d]);
                    }
                }
            }
            i = i + 1;
        }
        assert(columns@ =~= columns_of(tot_col_num as nat, key@));
        RequiredDist::ShardByKey(columns)
    }

    /// How rows are spread to meet the requirement.
    pub fn to_dist(&self) -> (r: Distribution)
        ensures
            r@ == enforced_dist(self@),
    {
        match self {
            RequiredDist::ShardByKey(columns) => {
                let mut keys: Vec<usize> = Vec::new();
                let mut c: usize = 0;
                assert(columns@.take(0) =~= Seq::empty());
                while c < columns.len()
                    invariant
                        c <= columns.len(),
                        keys@ == ones(columns@.take(c as int)),
                    decreases columns.len() - c,
                {
                    assert(columns@.take(c + 1).drop_last() =~= columns@.take(c as int));
                    if columns[c] {
                        keys.push(c);
                    }
                    c = c + 1;
                }
                assert(columns@.take(columns@.len() as int) =~= columns@);
                Distribution::HashShard(keys)
            },
            RequiredDist::PhysicalDist(dist) => dist.clone(),
        }
    }
}

pub proof fn lemma_ones(columns: Seq<bool>)
    requires
        columns.len() <= usize::MAX,
    ensures
        all_within(ones(columns), columns),
    decreases columns.len(),
{
    if columns.len() > 0 {
        lemma_ones(columns.drop_last());
        assert forall|i: int| 0 <= i < ones(columns).len() implies has_column(
            columns,
            #[trigger] ones(columns)[i] as int,
        ) by {
            if i < ones(columns.drop_last()).len() {
                assert(has_column(columns.drop_last(), ones(columns.drop_last())[i] as int));
            }
        }
    }
}

/// Rows spread to meet a requirement meet it.
pub proof fn enforced_dist_satisfies(required: RequiredDist)
    ensures
        dist_satisfies(enforced_dist(required@), required@),
{
    match required {
        RequiredDist::ShardByKey(columns) => {
            assert(columns.len() <= usize::MAX);
            lemma_ones(columns@);
        },
        RequiredDist::PhysicalDist(_) => {},
    }
}

/// Where columns go when rows are rebuilt.
#[derive(Debug)]
pub struct ColIndexMapping {
    target: Vec<Option<usize>>,
}

impl ColIndexMapping {
    /// Where each column goes, if it is kept.
    pub closed spec fn image(&self) -> Seq<Option<usize>> {
        self.target@
    }

    pub fn new(target: Vec<Option<usize>>) -> (r: Self)
        ensures
            r.image() == target@,
    {
        ColIndexMapping { target }
    }

    /// Where a column goes.
    pub fn try_map(&self, index: usize) -> (r: Option<usize>)
        requires
            index < self.image().len(),
        ensures
            r == self.image()[index as int],
    {
        self.target[index]
    }

    /// How rebuilt rows are spread.
    pub fn rewrite_provided_distribution(&self, dist: &Distribution) -> (r: Distribution)
        requires
            forall|i: int|
                0 <= i < dist@.keys().len() ==> (#[trigger] dist@.keys()[i]) < self.image().len(),
        ensures
            r@ == rewritten_dist(dist@, self.image()),
    {
        match dist {
            Distribution::HashShard(keys) => {
                assert(dist@.keys() == keys@);
                match self.map_keys(keys) {
                    Some(mapped) => Distribution::HashShard(mapped),
                    None => Distribution::SomeShard,
                }
            },
            Distribution::UpstreamHashShard(keys, table) => {
                assert(dist@.keys() == keys@);
                match self.map_keys(keys) {
                    Some(mapped) => Distribution::UpstreamHashShard(mapped, *table),
                    None => Distribution::SomeShard,
                }
            },
            other => other.clone(),
        }
    }

    /// Where all the columns go, if all are kept.
    fn map_keys(&self, keys: &Vec<usize>) -> (r: Option<Vec<usize>>)
        requires
            forall|i: int| 0 <= i < keys@.len() ==> (#[trigger] keys@[i]) < self.image().len(),
        ensures
            match r {
                Some(mapped) => all_kept(keys@, self.image()) && mapped@ == mapped_keys(
                    keys@,
                    self.image(),
                ),
                None => !all_kept(keys@, self.image()),
            },
    {
        let mut mapped: Vec<usize> = Vec::new();
        let mut i: usize = 0;
        while i < keys.len()
            invariant
                i <= keys.len(),
                mapped@.len() == i,
                forall|j: int| 0 <= j < keys@.len() ==> (#[trigger] keys@[j]) < self.image().len(),
                forall|j: int|
                    0 <= j < i ==> self.image()[#[trigger] keys@[j] as int] == Some(mapped@[j]),
            decreases keys.len() - i,
        {
            assert(keys@[i as int] < self.image().len());
            match self.try_map(keys[i]) {
                Some(m) => {
                    mapped.push(m);
                },
                None => {
                    assert(self.image()[keys@[i as int] as int] is None);
                    return None;
                },
            }
            i = i + 1;
        }
        assert(mapped@ =~= mapped_keys(keys@, self.image()));
        Some(mapped)
    }

    /// How rebuilt rows are sorted.
    pub fn rewrite_provided_order(&self, order: &Order) -> (r: Order)
        requires
            forall|i: int|
                0 <= i < order@.len() ==> (#[trigger] order@[i]).column_index < self.image().len(),
        ensures
            r@ == rewritten_order(order@, self.image()),
    {
        let mut out: Vec<ColumnOrder> = Vec::new();
        let mut i: usize = 0;
        assert(order@.skip(0) =~= order@);
        assert(Seq::<ColumnOrder>::empty() + rewritten_order(order@, self.image())
            =~= rewritten_order(order@, self.image()));
        while i < order.column_orders.len()
            invariant
                i <= order@.len(),
                forall|j: int|
                    0 <= j < order@.len() ==> (#[trigger] order@[j]).column_index
                        < self.image().len(),
                rewritten_order(order@, self.image()) == out@ + rewritten_order(
                    order@.skip(i as int),
                    self.image(),
                ),
            decreases order@.len() - i,
        {
            let ghost rest = order@.skip(i as int);
            assert(rest[0] == order@[i as int]);
            assert(rest.drop_first() =~= order@.skip(i + 1));
            let column_order = order.column_orders[i];
            match self.try_map(column_order.column_index) {
                Some(m) => {
                    let ghost before = out@;
                    let mapped = ColumnOrder {
                        column_index: m,
                        order_type: column_order.order_type,
                    };
                    out.push(mapped);
                    assert(before + (seq![mapped] + rewritten_order(
                        rest.drop_first(),
                        self.image(),
                    )) =~= out@ + rewritten_order(rest.drop_first(), self.image()));
                },
                None => {
                    assert(out@ + Seq::<ColumnOrder>::empty() =~= out@);
                    return Order { column_orders: out };
                },
            }
            i = i + 1;
        }
        assert(out@ + Seq::<ColumnOrder>::empty() =~= out@);
        Order { column_orders: out }
    }
}

/// Each of the columns is kept.
pub open spec fn all_kept(keys: Seq<usize>, image: Seq<Option<usize>>) -> bool {
    forall|i: int| 0 <= i < keys.len() ==> image[#[trigger] keys[i] as int] is Some
}

/// Where the columns go.
pub open spec fn mapped_keys(keys: Seq<usize>, image: Seq<Option<usize>>) -> Seq<usize> {
    keys.map_values(|k: usize| image[k as int]->0)
}

/// How rebuilt rows are spread. Where a column that decides is not kept, it is not known any
/// more which worker has a row.
pub open spec fn rewritten_dist(dist: Dist, image: Seq<Option<usize>>) -> Dist {
    match dist {
        Dist::HashShard(keys) => if all_kept(keys, image) {
            Dist::HashShard(mapped_keys(keys, image))
        } else {
            Dist::SomeShard
        },
        Dist::UpstreamHashShard(keys, table) => if all_kept(keys, image) {
            Dist::UpstreamHashShard(mapped_keys(keys, image), table)
        } else {
            Dist::SomeShard
        },
        other => other,
    }
}

/// How rebuilt rows are sorted: by the columns in front of the first that is not kept.
pub open spec fn rewritten_order(
    order: Seq<ColumnOrder>,
    image: Seq<Option<usize>>,
) -> Seq<ColumnOrder>
    decreases order.len(),
{
    if order.len() == 0 {
        Seq::empty()
    } else {
        match image[order[0].column_index as int] {
            None => Seq::empty(),
            Some(m) => seq![
                (ColumnOrder { column_index: m, order_type: order[0].order_type }),
            ] + rewritten_order(order.drop_first(), image),
        }
    }
}

} // verus!
