//! The query driver: filter, then grouping and aggregation or ordering and
//! projection, on one batch.

use crate::aggregation::{
    aggregate, all_codes, fits_i64, grouping, grouping_wf, prepare_aggregation,
};
use crate::batch::Batch;
use crate::bits::{bits, lemma_set_positions_bounds, positions_of};
use crate::expression::{names_of, Expr};

use crate::query_plan::{prepare, QueryPlan};
use crate::raw_val::Val;
use crate::sort::ordered;
use crate::text::{make_numbered_name, numbered_name, same_text};
use crate::typed_vec::{gather, index_list, indices_below, TypedVec, VecView};
use crate::types::{Aggregator, Filter, QueryError};
use crate::vector_operator::VecOperator;
use std::rc::Rc;
use vstd::prelude::*;

verus! {

/// How many rows of an ordered result are wanted, and how many of them are
/// skipped.
#[derive(Clone, Copy, Debug, PartialEq, Eq, Structural)]
pub struct LimitClause {
    pub limit: u64,
    pub offset: u64,
}

/// A parsed query.
#[derive(Clone, Debug)]
pub struct Query {
    pub select: Vec<Expr>,
    pub table: String,
    pub filter: Expr,
    pub aggregate: Vec<(Aggregator, Expr)>,
    pub order_by: Option<String>,
    pub order_desc: bool,
    pub limit: LimitClause,
    pub order_by_index: Option<usize>,
}

/// The result of a query on one batch.
pub struct BatchResult<'a> {
    pub group_by: Option<Vec<TypedVec<'a>>>,
    pub sort_by: Option<usize>,
    pub select: Vec<TypedVec<'a>>,
    pub aggregators: Vec<Aggregator>,
    pub level: u32,
    pub batch_count: usize,
}

/// The models of the vectors of a list.
pub open spec fn views_of(v: Seq<TypedVec>) -> Seq<VecView> {
    Seq::new(v.len(), |i: int| v[i]@)
}

/// The number of expressions that are no bare column reference.
pub open spec fn anonymous(exprs: Seq<Expr>) -> nat
    decreases exprs.len(),
{
    if exprs.len() == 0 {
        0
    } else {
        anonymous(exprs.drop_last()) + if exprs.last() is ColName {
            0nat
        } else {
            1nat
        }
    }
}

/// The name of the result column of expression `i` of a select list: the
/// column's name for a bare column reference, `col_n` for the `n`-th other
/// expression, counted from 0.
pub open spec fn select_name(exprs: Seq<Expr>, i: int) -> Seq<char> {
    match exprs[i] {
        Expr::ColName(name) => name@,
        _ => numbered_name("col"@, anonymous(exprs.take(i))),
    }
}

/// The name of the result column of aggregate `i`: `count_i` or `sum_i`.
pub open spec fn aggregate_name(aggregator: Aggregator, i: int) -> Seq<char> {
    match aggregator {
        Aggregator::Count => numbered_name("count"@, i as nat),
        Aggregator::Sum => numbered_name("sum"@, i as nat),
    }
}

/// Whether `filter` is the filter that the outcome of a filter expression
/// calls for: a bit-vector selects the rows of its set bits, and a scalar,
/// which stands for an absent condition, selects every row.
pub open spec fn filter_fits(filter: Filter, outcome: VecView) -> bool {
    match outcome {
        VecView::Boolean(b) => filter matches Filter::BitVec(f) && bits(&*f) == b,
        VecView::Constant(_) => filter is All,
        _ => false,
    }
}

/// The decoded results of the expressions of a list under a filter, or the
/// error of the first expression that cannot be planned.
pub open spec fn projection(exprs: Seq<Expr>, columns: &Batch, filter: Filter) -> Result<
    Seq<VecView>,
    QueryError,
>
    decreases exprs.len(),
{
    if exprs.len() == 0 {
        Ok(Seq::empty())
    } else {
        match projection(exprs.drop_last(), columns, filter) {
            Err(e) => Err(e),
            Ok(rest) => match QueryPlan::planned(&exprs.last(), columns, filter) {
                Err(e) => Err(e),
                Ok((plan, _)) => Ok(rest.push(plan.result().decoded())),
            },
        }
    }
}

/// The error of a prefix of a select list is the error of the list.
pub proof fn lemma_projection_error(exprs: Seq<Expr>, columns: &Batch, filter: Filter, k: int)
    requires
        0 <= k <= exprs.len(),
        projection(exprs.take(k), columns, filter) is Err,
    ensures
        projection(exprs, columns, filter) == projection(exprs.take(k), columns, filter),
    decreases exprs.len() - k,
{
    if k == exprs.len() {
        assert(exprs.take(k) =~= exprs);
    } else {
        assert(exprs.take(k + 1).drop_last() =~= exprs.take(k));
        lemma_projection_error(exprs, columns, filter, k + 1);
    }
}

/// The aggregates of a list over the rows of a grouping key, or the error
/// of the first aggregate that fails: its expression cannot be planned, the
/// aggregator does not take it, or an aggregate does not fit in 64 bits.
pub open spec fn aggregates(
    aggs: Seq<(Aggregator, Expr)>,
    columns: &Batch,
    filter: Filter,
    groups: Seq<int>,
    group_count: nat,
) -> Result<Seq<Seq<int>>, QueryError>
    decreases aggs.len(),
{
    if aggs.len() == 0 {
        Ok(Seq::empty())
    } else {
        match aggregates(aggs.drop_last(), columns, filter, groups, group_count) {
            Err(e) => Err(e),
            Ok(rest) => match QueryPlan::planned(&aggs.last().1, columns, filter) {
                Err(e) => Err(e),
                Ok((plan, t)) => match aggregate(aggs.last().0, plan, t, groups, group_count) {
                    None => Err(QueryError::UnsupportedQuery),
                    Some(out) => if fits_i64(out) {
                        Ok(rest.push(out))
                    } else {
                        Err(QueryError::FatalError)
                    },
                },
            },
        }
    }
}

/// The error of a prefix of an aggregate list is the error of the list.
pub proof fn lemma_aggregates_error(
    aggs: Seq<(Aggregator, Expr)>,
    columns: &Batch,
    filter: Filter,
    groups: Seq<int>,
    group_count: nat,
    k: int,
)
    requires
        0 <= k <= aggs.len(),
        aggregates(aggs.take(k), columns, filter, groups, group_count) is Err,
    ensures
        aggregates(aggs, columns, filter, groups, group_count) == aggregates(
            aggs.take(k),
            columns,
            filter,
            groups,
            group_count,
        ),
    decreases aggs.len() - k,
{
    if k == aggs.len() {
        assert(aggs.take(k) =~= aggs);
    } else {
        assert(aggs.take(k + 1).drop_last() =~= aggs.take(k));
        lemma_aggregates_error(aggs, columns, filter, groups, group_count, k + 1);
    }
}

/// The row numbers `0..n`.
pub open spec fn row_numbers(n: nat) -> Seq<usize> {
    Seq::new(n, |k: int| k as usize)
}

/// Whether `rank` lists the rows of `keys`, each once, ordered by their
/// keys, rows of equal keys by their position.
pub open spec fn is_ranking(rank: Seq<usize>, keys: Seq<Val>, desc: bool) -> bool {
    &&& rank.len() == keys.len()
    &&& rank.to_multiset() == row_numbers(keys.len()).to_multiset()
    &&& indices_below(rank, keys.len())
    &&& ordered(keys, desc, rank)
}

/// Whether `indices` lists the first `want` of the rows at `positions`,
/// ordered by their keys, where `keys[k]` is the key of the row at
/// `positions[k]`.
pub open spec fn is_ordering(
    indices: Seq<usize>,
    keys: Seq<Val>,
    positions: Seq<int>,
    desc: bool,
    want: int,
) -> bool {
    exists|rank: Seq<usize>| #[trigger]
        is_ranking(rank, keys, desc) && index_list(indices) == gather(
            positions,
            index_list(rank),
        ).take(if want < keys.len() {
            want
        } else {
            keys.len() as int
        })
}

/// The row numbers `0..n`.
pub fn all_rows(n: usize) -> (r: Vec<usize>)
    ensures
        r@ == row_numbers(n as nat),
{
    let mut r: Vec<usize> = Vec::with_capacity(n);
    let mut k: usize = 0;
    while k < n
        invariant
            k <= n,
            r@.len() == k,
            forall|j: int| 0 <= j < k ==> #[trigger] r@[j] == j,
        decreases n - k,
    {
        r.push(k);
        k += 1;
    }
    assert(r@ =~= row_numbers(n as nat));
    r
}

/// The rows of `keys`, ordered by their keys.
pub fn rank_rows(keys: &TypedVec, desc: bool) -> (rank: Vec<usize>)
    requires
        keys.wf(),
    ensures
        is_ranking(rank@, keys@.values(), desc),
{
    proof {
        crate::typed_vec::lemma_decoded_values(keys@);
    }
    let mut rank = all_rows(keys.len());
    if desc {
        keys.sort_indices_desc(&mut rank);
    } else {
        keys.sort_indices_asc(&mut rank);
    }
    proof {
        vstd::seq_lib::to_multiset_len(rank@);
        vstd::seq_lib::to_multiset_len(row_numbers(keys@.values().len()));
    }
    rank
}

impl Query {
    /// The ordering column, where there is one, is one of the selected
    /// expressions.
    pub open spec fn wf(&self) -> bool {
        self.order_by_index matches Some(i) ==> i < self.select@.len()
    }

    /// Whether the select list is `*` alone.
    pub open spec fn selects_star(&self) -> bool {
        &&& self.select@.len() == 1
        &&& self.select@[0] matches Expr::ColName(name)
        &&& name@ == "*"@
    }

    /// Whether the query selects `*` and nothing else.
    pub fn is_select_star(&self) -> (r: bool)
        ensures
            r == self.selects_star(),
    {
        if self.select.len() == 1 {
            match &self.select[0] {
                Expr::ColName(colname) => same_text(colname.as_str(), "*"),
                _ => false,
            }
        } else {
            false
        }
    }

    /// The names of the result columns: those of the select list, then
    /// those of the aggregates.
    pub open spec fn column_names(&self) -> Seq<Seq<char>> {
        Seq::new(self.select@.len(), |i: int| select_name(self.select@, i)) + Seq::new(
            self.aggregate@.len(),
            |i: int| aggregate_name(self.aggregate@[i].0, i),
        )
    }

    /// The names of the result columns.
    pub fn result_column_names(&self) -> (r: Vec<String>)
        ensures
            names_of(r@) == self.column_names(),
    {
        let mut names: Vec<String> = Vec::new();
        let mut anon_columns: usize = 0;
        let mut i: usize = 0;
        assert(self.select@.take(0) =~= Seq::<Expr>::empty());
        while i < self.select.len()
            invariant
                i <= self.select.len(),
                anon_columns == anonymous(self.select@.take(i as int)),
                anon_columns <= i,
                names@.len() == i,
                forall|j: int| 0 <= j < i ==> #[trigger] names@[j]@ == select_name(self.select@, j),
            decreases self.select.len() - i,
        {
            assert(self.select@.take(i + 1).drop_last() =~= self.select@.take(i as int));
            match &self.select[i] {
                Expr::ColName(name) => {
                    names.push(name.clone());
                },
                _ => {
                    names.push(make_numbered_name("col", anon_columns));
                    anon_columns += 1;
                },
            }
            i += 1;
        }
        let mut k: usize = 0;
        while k < self.aggregate.len()
            invariant
                k <= self.aggregate.len(),
                names@.len() == self.select@.len() + k,
                forall|j: int|
                    0 <= j < self.select@.len() ==> #[trigger] names@[j]@ == select_name(
                        self.select@,
                        j,
                    ),
                forall|j: int|
                    0 <= j < k ==> #[trigger] names@[self.select@.len() + j]@ == aggregate_name(
                        self.aggregate@[j].0,
                        j,
                    ),
            decreases self.aggregate.len() - k,
        {
            let name = match self.aggregate[k].0 {
                Aggregator::Count => make_numbered_name("count", k),
                Aggregator::Sum => make_numbered_name("sum", k),
            };
            names.push(name);
            k += 1;
        }
        proof {
            let n = self.select@.len() as int;
            assert forall|j: int| 0 <= j < names@.len() implies names_of(names@)[j]
                == self.column_names()[j] by {
                if j >= n {
                    assert(names@[n + (j - n)]@ == aggregate_name(self.aggregate@[j - n].0, j - n));
                } else {
                    assert(names@[j]@ == select_name(self.select@, j));
                }
            }
            assert(names_of(names@) =~= self.column_names());
        }
        names
    }

    /// The names of the columns that the expressions of a list refer to.
    pub open spec fn referenced_by(exprs: Seq<Expr>) -> Set<Seq<char>>
        decreases exprs.len(),
    {
        if exprs.len() == 0 {
            Set::empty()
        } else {
            Self::referenced_by(exprs.drop_last()).union(exprs.last().referenced())
        }
    }

    /// The expressions of the aggregates.
    pub open spec fn aggregated(&self) -> Seq<Expr> {
        Seq::new(self.aggregate@.len(), |i: int| self.aggregate@[i].1)
    }

    /// The names of the columns that the query refers to.
    pub open spec fn referenced(&self) -> Set<Seq<char>> {
        Self::referenced_by(self.select@).union(self.filter.referenced()).union(
            Self::referenced_by(self.aggregated()),
        )
    }

    /// The list `acc` with the column names of the expressions of a list
    /// added, each new name at the end.
    pub open spec fn names_after(exprs: Seq<Expr>, acc: Seq<Seq<char>>) -> Seq<Seq<char>>
        decreases exprs.len(),
    {
        if exprs.len() == 0 {
            acc
        } else {
            exprs.last().names_after(Self::names_after(exprs.drop_last(), acc))
        }
    }

    /// The names of the columns that the query refers to, each once, in
    /// the order in which the select list, the filter and the aggregates
    /// mention them first.
    pub open spec fn referenced_list(&self) -> Seq<Seq<char>> {
        Self::names_after(
            self.aggregated(),
            self.filter.names_after(Self::names_after(self.select@, Seq::empty())),
        )
    }

    /// Adding the names of a list of expressions keeps a list free of
    /// duplicates and adds exactly the referenced names to it.
    pub proof fn lemma_names_after(exprs: Seq<Expr>, acc: Seq<Seq<char>>)
        requires
            acc.no_duplicates(),
        ensures
            Self::names_after(exprs, acc).no_duplicates(),
            Self::names_after(exprs, acc).to_set() == acc.to_set().union(Self::referenced_by(exprs)),
        decreases exprs.len(),
    {
        if exprs.len() == 0 {
            assert(acc.to_set().union(Self::referenced_by(exprs)) =~= acc.to_set());
        } else {
            Self::lemma_names_after(exprs.drop_last(), acc);
            let before = Self::names_after(exprs.drop_last(), acc);
            exprs.last().lemma_names_after(before);
            assert(acc.to_set().union(Self::referenced_by(exprs.drop_last())).union(
                exprs.last().referenced(),
            ) =~= acc.to_set().union(Self::referenced_by(exprs)));
        }
    }

    /// The referenced list names each referenced column once.
    pub proof fn lemma_referenced_list(&self)
        ensures
            self.referenced_list().no_duplicates(),
            self.referenced_list().to_set() == self.referenced(),
    {
        let none = Seq::<Seq<char>>::empty();
        Self::lemma_names_after(self.select@, none);
        let first = Self::names_after(self.select@, none);
        self.filter.lemma_names_after(first);
        let second = self.filter.names_after(first);
        Self::lemma_names_after(self.aggregated(), second);
        assert(none.to_set() =~= Set::<Seq<char>>::empty());
        assert(self.referenced_list().to_set() =~= self.referenced());
    }

    /// Adds the column names of the expressions of a select list.
    fn add_all(exprs: &Vec<Expr>, colnames: &mut Vec<String>)
        ensures
            names_of(final(colnames)@) == Self::names_after(exprs@, names_of(old(colnames)@)),
    {
        let mut i: usize = 0;
        assert(exprs@.take(0) =~= Seq::<Expr>::empty());
        while i < exprs.len()
            invariant
                i <= exprs.len(),
                names_of(colnames@) == Self::names_after(
                    exprs@.take(i as int),
                    names_of(old(colnames)@),
                ),
            decreases exprs.len() - i,
        {
            assert(exprs@.take(i + 1).drop_last() =~= exprs@.take(i as int));
            exprs[i].add_colnames(colnames);
            i += 1;
        }
        assert(exprs@.take(exprs@.len() as int) =~= exprs@);
    }

    /// The names of the columns that the query refers to, each once.
    pub fn find_referenced_cols(&self) -> (r: Vec<String>)
        ensures
            names_of(r@) == self.referenced_list(),
            names_of(r@).no_duplicates(),
            names_of(r@).to_set() == self.referenced(),
    {
        let mut colnames: Vec<String> = Vec::new();
        assert(names_of(colnames@) =~= Seq::<Seq<char>>::empty());
        Self::add_all(&self.select, &mut colnames);
        self.filter.add_colnames(&mut colnames);
        let ghost base = names_of(colnames@);
        let ghost exprs = self.aggregated();
        let mut k: usize = 0;
        assert(exprs.take(0) =~= Seq::<Expr>::empty());
        while k < self.aggregate.len()
            invariant
                k <= self.aggregate.len(),
                exprs == self.aggregated(),
                names_of(colnames@) == Self::names_after(exprs.take(k as int), base),
            decreases self.aggregate.len() - k,
        {
            assert(exprs.take(k + 1).drop_last() =~= exprs.take(k as int));
            assert(exprs.take(k + 1).last() == self.aggregate@[k as int].1);
            self.aggregate[k].1.add_colnames(&mut colnames);
            k += 1;
        }
        assert(exprs.take(exprs.len() as int) =~= exprs);
        proof {
            self.lemma_referenced_list();
        }
        colnames
    }
}


impl Query {
    /// What `run` returns for a filter.
    pub open spec fn projected_outcome(
        &self,
        columns: &Batch,
        filter: Filter,
        res: Result<BatchResult, QueryError>,
    ) -> bool {
        match projection(self.select@, columns, filter) {
            Err(e) => res == Err::<BatchResult, QueryError>(e),
            Ok(views) => {
                &&& res matches Ok(r)
                &&& views_of(r.select@) == views
                &&& r.group_by is None
                &&& r.sort_by == self.order_by_index
                &&& r.aggregators@.len() == 0
                &&& r.level == 0
                &&& r.batch_count == 1
            },
        }
    }

    /// Whether `indices` is the index list that ORDER BY and LIMIT call for
    /// under `filter`, where `keys` is what the ordering expression
    /// produces.
    pub open spec fn ordering_fits(
        &self,
        indices: Rc<Vec<usize>>,
        keys: VecView,
        filter: Filter,
        rows: nat,
    ) -> bool {
        is_ordering(
            indices@,
            keys.values(),
            filter.positions(rows),
            self.order_desc,
            self.limit.limit + self.limit.offset,
        )
    }

    /// What `run` returns once the filter is known: without an ordering
    /// column, the projection under the filter; with one, the projection at
    /// the rows that the ordering and the limit leave.
    pub open spec fn ordered_outcome(
        &self,
        columns: &Batch,
        filter: Filter,
        res: Result<BatchResult, QueryError>,
    ) -> bool {
        match self.order_by_index {
            None => self.projected_outcome(columns, filter, res),
            Some(index) => match QueryPlan::planned(&self.select@[index as int], columns, filter) {
                Err(e) => res == Err::<BatchResult, QueryError>(e),
                Ok((plan, t)) => if t.is_scalar {
                    res == Err::<BatchResult, QueryError>(QueryError::UnsupportedQuery)
                } else {
                    exists|indices: Rc<Vec<usize>>| #[trigger]
                        self.ordering_fits(indices, plan.result(), filter, columns.rows())
                            && self.projected_outcome(columns, Filter::Indices(indices), res)
                },
            },
        }
    }

    /// What `run` returns: the error of the filter expression, a fatal
    /// error where the filter expression produces neither a bit-vector nor
    /// a scalar, and else the outcome under the filter.
    pub open spec fn run_outcome(&self, columns: &Batch, res: Result<BatchResult, QueryError>) -> bool {
        match QueryPlan::planned(&self.filter, columns, Filter::All) {
            Err(e) => res == Err::<BatchResult, QueryError>(e),
            Ok((plan, _)) => if plan.result() is Boolean || plan.result() is Constant {
                exists|filter: Filter| #[trigger]
                    filter_fits(filter, plan.result()) && self.ordered_outcome(columns, filter, res)
            } else {
                res == Err::<BatchResult, QueryError>(QueryError::FatalError)
            },
        }
    }

    /// Evaluates the filter expression on the batch.
    pub fn evaluate_filter(&self, columns: &Batch) -> (res: Result<Filter, QueryError>)
        requires
            columns.wf(),
        ensures
            match QueryPlan::planned(&self.filter, columns, Filter::All) {
                Err(e) => res == Err::<Filter, QueryError>(e),
                Ok((plan, _)) => match res {
                    Ok(filter) => filter_fits(filter, plan.result()) && filter.admits(columns.rows())
                        && !(filter is Indices),
                    Err(e) => e == QueryError::FatalError && !(plan.result() is Boolean
                        || plan.result() is Constant),
                },
            },
    {
        let (filter_plan, _) = match QueryPlan::create_query_plan(&self.filter, columns, Filter::All) {
            Ok(p) => p,
            Err(e) => {
                return Err(e);
            },
        };
        let compiled_filter = prepare(filter_plan);
        match compiled_filter.execute() {
            TypedVec::Boolean(b) => Ok(Filter::BitVec(Rc::new(b))),
            TypedVec::Constant(_) => Ok(Filter::All),
            _ => Err(QueryError::FatalError),
        }
    }

    /// Evaluates the expressions of a list under a filter and decodes the
    /// results.
    pub fn project<'a>(exprs: &Vec<Expr>, columns: &'a Batch, filter: &Filter) -> (res: Result<
        Vec<TypedVec<'a>>,
        QueryError,
    >)
        requires
            columns.wf(),
            filter.admits(columns.rows()),
        ensures
            match projection(exprs@, columns, *filter) {
                Err(e) => res == Err::<Vec<TypedVec<'a>>, QueryError>(e),
                Ok(views) => res matches Ok(v) && views_of(v@) == views,
            },
    {
        let mut result: Vec<TypedVec<'a>> = Vec::new();
        let mut i: usize = 0;
        assert(exprs@.take(0) =~= Seq::<Expr>::empty());
        assert(views_of(result@) =~= Seq::<VecView>::empty());
        while i < exprs.len()
            invariant
                i <= exprs.len(),
                columns.wf(),
                filter.admits(columns.rows()),
                projection(exprs@.take(i as int), columns, *filter) == Ok::<Seq<VecView>, QueryError>(
                    views_of(result@),
                ),
            decreases exprs.len() - i,
        {
            assert(exprs@.take(i + 1).drop_last() =~= exprs@.take(i as int));
            let ghost before = views_of(result@);
            match QueryPlan::create_query_plan(&exprs[i], columns, filter.clone()) {
                Ok((plan, _)) => {
                    let compiled = prepare(plan);
                    result.push(compiled.execute().decode());
                    assert(views_of(result@) =~= before.push(plan.result().decoded()));
                },
                Err(e) => {
                    proof {
                        lemma_projection_error(exprs@, columns, *filter, i + 1);
                    }
                    return Err(e);
                },
            }
            i += 1;
        }
        assert(exprs@.take(exprs@.len() as int) =~= exprs@);
        Ok(result)
    }

    /// The rows that ORDER BY and LIMIT leave of those that the filter lets
    /// through: ordered by the ordering expression, ascending or descending,
    /// rows of equal keys in row order, and cut off after limit plus offset
    /// rows.
    pub fn order_rows(&self, columns: &Batch, filter: &Filter, index: usize) -> (res: Result<
        Rc<Vec<usize>>,
        QueryError,
    >)
        requires
            columns.wf(),
            filter.admits(columns.rows()),
            !(filter is Indices),
            index < self.select@.len(),
        ensures
            match QueryPlan::planned(&self.select@[index as int], columns, *filter) {
                Err(e) => res == Err::<Rc<Vec<usize>>, QueryError>(e),
                Ok((plan, t)) => if t.is_scalar {
                    res == Err::<Rc<Vec<usize>>, QueryError>(QueryError::UnsupportedQuery)
                } else {
                    res matches Ok(indices) && self.ordering_fits(
                        indices,
                        plan.result(),
                        *filter,
                        columns.rows(),
                    ) && indices_below(indices@, columns.rows())
                },
            },
    {
        let (plan, t) = match QueryPlan::create_query_plan(&self.select[index], columns, filter.clone()) {
            Ok(p) => p,
            Err(e) => {
                return Err(e);
            },
        };
        if t.is_scalar {
            return Err(QueryError::UnsupportedQuery);
        }
        let compiled = prepare(plan);
        let sort_column = compiled.execute().order_preserving();
        let positions = match filter {
            Filter::BitVec(b) => positions_of(b),
            _ => all_rows(columns.len()),
        };
        let ghost pos = filter.positions(columns.rows());
        proof {
            crate::typed_vec::lemma_decoded_values(sort_column@);
            match filter {
                Filter::BitVec(b) => {
                    lemma_set_positions_bounds(bits(&**b));
                },
                _ => {
                    assert(index_list(positions@) =~= pos);
                },
            }
            assert(index_list(positions@) == pos);
            assert forall|k: int| 0 <= k < positions@.len() implies #[trigger] positions@[k]
                < columns.rows() by {
                assert(index_list(positions@)[k] == positions@[k]);
            }
        }
        let rank = rank_rows(&sort_column, self.order_desc);
        let mut sort_indices = crate::typed_vec::gather_vec(&positions, &rank);
        let want: u128 = self.limit.limit as u128 + self.limit.offset as u128;
        let ghost full = sort_indices@;
        if want < sort_indices.len() as u128 {
            sort_indices.truncate(want as usize);
        }
        proof {
            let keys = sort_column@.values();
            let cap = if want < keys.len() {
                want as int
            } else {
                keys.len() as int
            };
            assert(sort_indices@ =~= full.take(cap));
            assert(index_list(full) =~= gather(pos, index_list(rank@)));
            assert(index_list(sort_indices@) =~= gather(pos, index_list(rank@)).take(cap));
            assert(is_ranking(rank@, keys, self.order_desc));
            assert(is_ordering(sort_indices@, keys, pos, self.order_desc, want as int));
        }
        Ok(Rc::new(sort_indices))
    }

    /// Runs a query without aggregates on one batch: evaluates the filter,
    /// orders and cuts the rows where the query asks for it, and evaluates
    /// each selected expression on the rows that are left.
    pub fn run<'a>(&self, columns: &'a Batch) -> (res: Result<BatchResult<'a>, QueryError>)
        requires
            self.wf(),
            columns.wf(),
        ensures
            self.run_outcome(columns, res),
    {
        let mut filter = match self.evaluate_filter(columns) {
            Ok(f) => f,
            Err(e) => {
                return Err(e);
            },
        };
        let ghost first = filter;
        if let Some(index) = self.order_by_index {
            let indices = match self.order_rows(columns, &filter, index) {
                Ok(i) => i,
                Err(e) => {
                    let res = Err(e);
                    assert(self.ordered_outcome(columns, first, res));
                    return res;
                },
            };
            filter = Filter::Indices(indices);
        }
        let res = match Self::project(&self.select, columns, &filter) {
            Ok(result) => Ok(
                BatchResult {
                    group_by: None,
                    sort_by: self.order_by_index,
                    select: result,
                    aggregators: Vec::new(),
                    level: 0,
                    batch_count: 1,
                },
            ),
            Err(e) => Err(e),
        };
        assert(self.projected_outcome(columns, filter, res));
        assert(self.ordered_outcome(columns, first, res));
        res
    }
}

impl Query {
    /// The aggregators of the aggregate list.
    pub open spec fn aggregator_list(&self) -> Seq<Aggregator> {
        Seq::new(self.aggregate@.len(), |j: int| self.aggregate@[j].0)
    }

    /// Whether `res` holds the groups and their aggregates in the order
    /// `rank` of the groups: the decoded keys of the groups as the one
    /// grouping column, and one column per aggregate.
    pub open spec fn grouped_result(
        &self,
        groups: VecView,
        outs: Seq<Seq<int>>,
        rank: Seq<usize>,
        res: Result<BatchResult, QueryError>,
    ) -> bool {
        &&& res matches Ok(r)
        &&& r.group_by matches Some(g)
        &&& views_of(g@) == seq![groups.gathered(index_list(rank)).decoded()]
        &&& views_of(r.select@) == Seq::new(
            outs.len(),
            |j: int| VecView::Integer(gather(outs[j], index_list(rank))),
        )
        &&& r.sort_by is None
        &&& r.aggregators@ == self.aggregator_list()
        &&& r.level == 0
        &&& r.batch_count == 1
    }

    /// What `run_aggregate` returns once the filter is known: the error of
    /// the grouping key or of the first aggregate that fails, and else one
    /// row per code of the grouping column, in the ascending order of the
    /// decoded keys, with the aggregates of the rows that the filter lets
    /// through.
    pub open spec fn aggregated_outcome(
        &self,
        columns: &Batch,
        filter: Filter,
        res: Result<BatchResult, QueryError>,
    ) -> bool {
        match QueryPlan::grouping_key(self.select@, columns, filter) {
            Err(e) => res == Err::<BatchResult, QueryError>(e),
            Ok((plan, _)) => match plan.result() {
                VecView::Encoded(enc, codes, scheme) => {
                    let n = scheme.cardinality() as nat;
                    let groups = VecView::Encoded(enc, all_codes(n), scheme);
                    match aggregates(self.aggregate@, columns, filter, codes, n) {
                        Err(e) => res == Err::<BatchResult, QueryError>(e),
                        Ok(outs) => exists|rank: Seq<usize>| #[trigger]
                            is_ranking(rank, groups.values(), false) && self.grouped_result(
                                groups,
                                outs,
                                rank,
                                res,
                            ),
                    }
                },
                _ => false,
            },
        }
    }

    /// What `run_aggregate` returns: the error of the filter expression, a
    /// fatal error where the filter expression produces neither a
    /// bit-vector nor a scalar, and else the outcome under the filter.
    pub open spec fn run_aggregate_outcome(
        &self,
        columns: &Batch,
        res: Result<BatchResult, QueryError>,
    ) -> bool {
        match QueryPlan::planned(&self.filter, columns, Filter::All) {
            Err(e) => res == Err::<BatchResult, QueryError>(e),
            Ok((plan, _)) => if plan.result() is Boolean || plan.result() is Constant {
                exists|filter: Filter| #[trigger]
                    filter_fits(filter, plan.result()) && self.aggregated_outcome(columns, filter, res)
            } else {
                res == Err::<BatchResult, QueryError>(QueryError::FatalError)
            },
        }
    }

    /// The aggregators of the aggregate list.
    fn aggregators(&self) -> (r: Vec<Aggregator>)
        ensures
            r@ == self.aggregator_list(),
    {
        let mut r: Vec<Aggregator> = Vec::with_capacity(self.aggregate.len());
        let mut k: usize = 0;
        while k < self.aggregate.len()
            invariant
                k <= self.aggregate.len(),
                r@.len() == k,
                forall|j: int| 0 <= j < k ==> #[trigger] r@[j] == self.aggregate@[j].0,
            decreases self.aggregate.len() - k,
        {
            r.push(self.aggregate[k].0);
            k += 1;
        }
        assert(r@ =~= self.aggregator_list());
        r
    }

    /// Runs a query with aggregates on one batch: evaluates the filter,
    /// groups the rows that it lets through by the codes of the one
    /// selected column, aggregates by group, and hands the groups out in
    /// the ascending order of their decoded keys.
    #[verifier::loop_isolation(false)]
    pub fn run_aggregate<'a>(&self, columns: &'a Batch) -> (res: Result<BatchResult<'a>, QueryError>)
        requires
            columns.wf(),
        ensures
            self.run_aggregate_outcome(columns, res),
    {
        let filter = match self.evaluate_filter(columns) {
            Ok(f) => f,
            Err(e) => {
                return Err(e);
            },
        };
        let (grouping_key_plan, _) = match QueryPlan::compile_grouping_key(
            &self.select,
            columns,
            filter.clone(),
        ) {
            Ok(p) => p,
            Err(e) => {
                let res = Err(e);
                assert(self.aggregated_outcome(columns, filter, res));
                return res;
            },
        };
        let compiled_gk = prepare(grouping_key_plan);
        let grouping_key = compiled_gk.execute();
        let (group_count, groups) = grouping(&grouping_key);
        let grouping_sort_indices = rank_rows(&groups, false);
        let ghost codes = grouping_key@.ints();
        let ghost rank = index_list(grouping_sort_indices@);
        proof {
            crate::typed_vec::lemma_decoded_values(groups@);
        }

        let mut result: Vec<TypedVec<'a>> = Vec::new();
        let ghost mut outs: Seq<Seq<int>> = Seq::empty();
        let mut k: usize = 0;
        assert(self.aggregate@.take(0) =~= Seq::<(Aggregator, Expr)>::empty());
        assert(views_of(result@) =~= Seq::new(
            outs.len(),
            |j: int| VecView::Integer(gather(outs[j], rank)),
        ));
        while k < self.aggregate.len()
            invariant
                k <= self.aggregate.len(),
                columns.wf(),
                filter.admits(columns.rows()),
                grouping_wf(&grouping_key, group_count),
                grouping_key@.len() == filter.positions(columns.rows()).len(),
                codes == grouping_key@.ints(),
                rank == index_list(grouping_sort_indices@),
                indices_below(grouping_sort_indices@, group_count as nat),
                aggregates(self.aggregate@.take(k as int), columns, filter, codes, group_count as nat)
                    == Ok::<Seq<Seq<int>>, QueryError>(outs),
                outs.len() == k,
                views_of(result@) == Seq::new(
                    outs.len(),
                    |j: int| VecView::Integer(gather(outs[j], rank)),
                ),
            decreases self.aggregate.len() - k,
        {
            assert(self.aggregate@.take(k + 1).drop_last() =~= self.aggregate@.take(k as int));
            let aggregator = self.aggregate[k].0;
            let planned = QueryPlan::create_query_plan(&self.aggregate[k].1, columns, filter.clone());
            let (plan, plan_type) = match planned {
                Ok(p) => p,
                Err(e) => {
                    proof {
                        lemma_aggregates_error(
                            self.aggregate@,
                            columns,
                            filter,
                            codes,
                            group_count as nat,
                            k + 1,
                        );
                    }
                    let res = Err(e);
                    assert(self.aggregated_outcome(columns, filter, res));
                    return res;
                },
            };
            let compiled = match prepare_aggregation(
                plan,
                plan_type,
                &grouping_key,
                group_count,
                aggregator,
            ) {
                Ok(c) => c,
                Err(e) => {
                    proof {
                        lemma_aggregates_error(
                            self.aggregate@,
                            columns,
                            filter,
                            codes,
                            group_count as nat,
                            k + 1,
                        );
                    }
                    let res = Err(e);
                    assert(self.aggregated_outcome(columns, filter, res));
                    return res;
                },
            };
            let out = match compiled.execute() {
                Ok(v) => v,
                Err(e) => {
                    proof {
                        lemma_aggregates_error(
                            self.aggregate@,
                            columns,
                            filter,
                            codes,
                            group_count as nat,
                            k + 1,
                        );
                    }
                    let res = Err(e);
                    assert(self.aggregated_outcome(columns, filter, res));
                    return res;
                },
            };
            let ghost before = views_of(result@);
            let ghost this = compiled.output();
            result.push(out.index(&grouping_sort_indices));
            proof {
                let extended = outs.push(this);
                assert(views_of(result@) =~= before.push(VecView::Integer(gather(this, rank))));
                assert(views_of(result@) =~= Seq::new(
                    extended.len(),
                    |j: int| VecView::Integer(gather(extended[j], rank)),
                ));
                outs = extended;
            }
            k += 1;
        }
        assert(self.aggregate@.take(self.aggregate@.len() as int) =~= self.aggregate@);

        let mut grouping_columns: Vec<TypedVec<'a>> = Vec::with_capacity(1);
        grouping_columns.push(groups.index(&grouping_sort_indices).decode());
        assert(views_of(grouping_columns@) =~= seq![groups@.gathered(rank).decoded()]);

        let res = Ok(
            BatchResult {
                group_by: Some(grouping_columns),
                sort_by: None,
                select: result,
                aggregators: self.aggregators(),
                level: 0,
                batch_count: 1,
            },
        );
        assert(self.grouped_result(groups@, outs, grouping_sort_indices@, res));
        assert(self.aggregated_outcome(columns, filter, res));
        res
    }
}

} // verus!
