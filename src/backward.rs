//! The backward sweep: for every node but the output, in decreasing id
//! order, the chain-rule terms that make up its adjoint.
use crate::operation::{local_partials, local_partials_of, Operation, Partial};
use crate::tape::{
    consumers, ids_dense, lemma_consumers_ordered, lemma_records_decide_tape, lemma_slot_ids, list_of,
    slot_ids, Tape,
};
use vstd::prelude::*;

verus! {

/// One contribution to a node's adjoint: the consumer's adjoint times the
/// local partial derivative of the consumer at this operand position.
#[derive(Debug, Clone, Copy, PartialEq, Eq, Structural)]
pub struct Term {
    pub parent: u64,
    pub partial: Partial,
}

/// The adjoint equation of one node: its adjoint is the sum of its terms.
#[derive(Debug, Clone)]
pub struct AdjointStep {
    pub node: u64,
    pub terms: Vec<Term>,
}

/// The partials `ds` of consumer `p`, each as a term.
pub open spec fn tagged(p: u64, ds: Seq<Partial>) -> Seq<Term> {
    ds.map_values(|d: Partial| (Term { parent: p, partial: d }))
}

/// `ps` with each run of equal adjacent ids kept once.
pub open spec fn without_repeats(ps: Seq<u64>) -> Seq<u64>
    decreases ps.len(),
{
    if ps.len() == 0 {
        seq![]
    } else if ps.len() >= 2 && ps[ps.len() - 2] == ps.last() {
        without_repeats(ps.drop_last())
    } else {
        without_repeats(ps.drop_last()).push(ps.last())
    }
}

/// The terms that the consumers `ps` contribute to the adjoint of `c`, in
/// the order of `ps`; a consumer with no record contributes nothing.
pub open spec fn terms_over(recs: Seq<Operation>, ps: Seq<u64>, c: u64) -> Seq<Term>
    decreases ps.len(),
{
    if ps.len() == 0 {
        seq![]
    } else if ps.last() < recs.len() {
        terms_over(recs, ps.drop_last(), c) + tagged(
            ps.last(),
            local_partials(recs[ps.last() as int], c),
        )
    } else {
        terms_over(recs, ps.drop_last(), c)
    }
}

/// The terms of the adjoint of `c`: for each consumer, in creation order,
/// one term per operand position that holds `c`. A consumer that holds `c`
/// in two positions is listed twice in a row among the consumers and
/// yields its two terms once.
pub open spec fn step_terms(recs: Seq<Operation>, c: u64) -> Seq<Term> {
    terms_over(recs, without_repeats(consumers(recs, c)), c)
}

/// The terms that a tape's own consumer lists give for `c`.
pub open spec fn recorded_terms(t: Tape, c: u64) -> Seq<Term> {
    terms_over(t.records_view(), without_repeats(list_of(t.consumer_lists(), c)), c)
}

/// The node that step `i` of the sweep handles on a tape of `n` nodes.
pub open spec fn plan_node(n: nat, i: int) -> int {
    n - 2 - i
}

impl Tape {
    /// The adjoint equation of node `c`. A consumer listed with no record on
    /// the tape is skipped.
    pub fn adjoint_step(&self, c: u64) -> (r: AdjointStep)
        ensures
            r.node == c,
            r.terms@ == recorded_terms(*self, c),
            self.wf() ==> r.terms@ == step_terms(self.records_view(), c),
    {
        let ghost recs = self.records_view();
        let ps = self.consumers_of(c);
        proof {
            assert(ps@.subrange(0, 0) =~= seq![]);
        }
        let mut terms: Vec<Term> = Vec::new();
        let mut i: usize = 0;
        while i < ps.len()
            invariant
                recs == self.records_view(),
                ps@ == list_of(self.consumer_lists(), c),
                0 <= i <= ps.len(),
                terms@ == terms_over(recs, without_repeats(ps@.subrange(0, i as int)), c),
            decreases ps.len() - i,
        {
            let p = ps[i];
            let ghost before = terms@;
            let repeat = i > 0 && ps[i - 1] == p;
            if !repeat {
                match self.get(p) {
                    Some(op) => {
                        let ds = local_partials_of(op, c);
                        let mut j: usize = 0;
                        while j < ds.len()
                            invariant
                                0 <= j <= ds.len(),
                                terms@ == before + tagged(p, ds@.subrange(0, j as int)),
                            decreases ds.len() - j,
                        {
                            terms.push(Term { parent: p, partial: ds[j] });
                            proof {
                                assert(ds@.subrange(0, j + 1) =~= ds@.subrange(0, j as int).push(
                                    ds@[j as int],
                                ));
                                assert(tagged(p, ds@.subrange(0, j + 1)) =~= tagged(
                                    p,
                                    ds@.subrange(0, j as int),
                                ).push(Term { parent: p, partial: ds@[j as int] }));
                            }
                            j = j + 1;
                        }
                        proof {
                            assert(ds@.subrange(0, ds.len() as int) =~= ds@);
                        }
                    },
                    None => {},
                }
            }
            proof {
                let pre = ps@.subrange(0, i as int);
                let cur = ps@.subrange(0, i + 1);
                assert(cur.drop_last() =~= pre);
                assert(cur.last() == p);
                if i > 0 {
                    assert(cur[cur.len() - 2] == ps@[i - 1]);
                }
                if !repeat {
                    let w = without_repeats(pre);
                    assert(without_repeats(cur) == w.push(p));
                    assert(w.push(p).drop_last() =~= w);
                }
            }
            i = i + 1;
        }
        proof {
            assert(ps@.subrange(0, ps.len() as int) =~= ps@);
        }
        AdjointStep { node: c, terms }
    }

    /// The output node, whose adjoint is seeded with 1: the last one created.
    pub fn output_node(&self) -> (r: Option<u64>)
        ensures
            self.node_order().len() == 0 ==> r.is_none(),
            self.node_order().len() > 0 ==> r == Some(self.node_order().last()),
            self.wf() && self.records_view().len() == 0 ==> r.is_none(),
            self.wf() && self.records_view().len() > 0 ==> r == Some(
                (self.records_view().len() - 1) as u64,
            ),
    {
        let order = self.ids_in_creation_order();
        if order.len() > 0 {
            Some(order[order.len() - 1])
        } else {
            None
        }
    }

    /// The backward sweep: the adjoint equation of every node except the
    /// output, in reverse creation order.
    pub fn adjoint_plan(&self) -> (r: Vec<AdjointStep>)
        ensures
            r.len() == if self.node_order().len() == 0 {
                0
            } else {
                self.node_order().len() - 1
            },
            forall|i: int|
                0 <= i < r.len() ==> #[trigger] r[i].node == self.node_order()[self.node_order().len()
                    - 2 - i],
            forall|i: int| 0 <= i < r.len() ==> #[trigger] r[i].terms@ == recorded_terms(*self, r[i].node),
            self.wf() ==> r.len() == if self.records_view().len() == 0 {
                0
            } else {
                self.records_view().len() - 1
            },
            self.wf() ==> forall|i: int|
                0 <= i < r.len() ==> #[trigger] r[i].node == plan_node(self.records_view().len(), i),
            self.wf() ==> forall|i: int|
                0 <= i < r.len() ==> #[trigger] r[i].terms@ == step_terms(
                    self.records_view(),
                    r[i].node,
                ),
    {
        let order = self.ids_in_creation_order();
        let n = order.len();
        let mut steps: Vec<AdjointStep> = Vec::new();
        if n == 0 {
            return steps;
        }
        let mut k: usize = n - 1;
        while k > 0
            invariant
                order@ == self.node_order(),
                n == order@.len(),
                0 <= k <= n - 1,
                steps.len() == n - 1 - k,
                forall|i: int| 0 <= i < steps.len() ==> #[trigger] steps[i].node == order@[n - 2 - i],
                forall|i: int|
                    0 <= i < steps.len() ==> #[trigger] steps[i].terms@ == recorded_terms(
                        *self,
                        steps[i].node,
                    ),
                self.wf() ==> forall|i: int|
                    0 <= i < steps.len() ==> #[trigger] steps[i].terms@ == step_terms(
                        self.records_view(),
                        steps[i].node,
                    ),
            decreases k,
        {
            let node = order[k - 1];
            let step = self.adjoint_step(node);
            steps.push(step);
            k = k - 1;
        }
        proof {
            if self.wf() {
                assert forall|i: int| 0 <= i < steps.len() implies #[trigger] steps[i].node
                    == plan_node(self.records_view().len(), i) by {
                    assert(order@[n - 2 - i] == n - 2 - i);
                }
            }
        }
        steps
    }
}

/// Every term of a node's adjoint comes from a node created after it, so
/// the decreasing-id sweep has finished that consumer's adjoint before it
/// reaches the node: the consumer is the output, or an earlier step.
pub proof fn lemma_consumers_come_first(recs: Seq<Operation>, i: int, j: int)
    requires
        ids_dense(recs),
        0 <= i < recs.len() - 1,
        0 <= j < step_terms(recs, plan_node(recs.len(), i) as u64).len(),
    ensures
        ({
            let c = plan_node(recs.len(), i);
            let p = step_terms(recs, c as u64)[j].parent;
            &&& c < p < recs.len()
            &&& p == recs.len() - 1 || 0 <= plan_node(recs.len(), p as int) < i
        }),
{
    let c = plan_node(recs.len(), i) as u64;
    let cs = consumers(recs, c);
    lemma_consumers_ordered(recs, c);
    lemma_terms_from(recs, without_repeats(cs), c);
    lemma_without_repeats_from(cs);
    let t = step_terms(recs, c)[j];
    assert(without_repeats(cs).contains(t.parent));
    assert(cs.contains(t.parent));
}

/// Each id kept by `without_repeats(ps)` is one of `ps`.
proof fn lemma_without_repeats_from(ps: Seq<u64>)
    ensures
        forall|j: int|
            0 <= j < without_repeats(ps).len() ==> ps.contains(#[trigger] without_repeats(ps)[j]),
    decreases ps.len(),
{
    if ps.len() > 0 {
        let pre = ps.drop_last();
        lemma_without_repeats_from(pre);
        let w = without_repeats(pre);
        assert forall|j: int|
            0 <= j < without_repeats(ps).len() implies ps.contains(
            #[trigger] without_repeats(ps)[j],
        ) by {
            if j < w.len() {
                assert(without_repeats(ps)[j] == w[j]);
                let k = choose|k: int| 0 <= k < pre.len() && pre[k] == w[j];
                assert(ps[k] == w[j]);
            } else {
                assert(without_repeats(ps)[j] == ps.last());
                assert(ps[ps.len() - 1] == ps.last());
            }
        }
    }
}

/// A non-empty run of one id `p` is kept as `p` alone.
proof fn lemma_run_kept_once(ps: Seq<u64>, p: u64)
    requires
        ps.len() > 0,
        forall|j: int| 0 <= j < ps.len() ==> #[trigger] ps[j] == p,
    ensures
        without_repeats(ps) == seq![p],
    decreases ps.len(),
{
    let pre = ps.drop_last();
    if ps.len() == 1 {
        assert(pre =~= seq![]);
        assert(without_repeats(pre) == Seq::<u64>::empty());
        assert(ps[0] == p);
        assert(without_repeats(ps) == without_repeats(pre).push(ps.last()));
        assert(without_repeats(ps) =~= seq![p]);
    } else {
        assert(ps[ps.len() - 2] == p);
        assert(ps[ps.len() - 1] == p);
        lemma_run_kept_once(pre, p);
    }
}

/// Each term over `ps` names one of `ps` as its consumer.
proof fn lemma_terms_from(recs: Seq<Operation>, ps: Seq<u64>, c: u64)
    ensures
        forall|j: int|
            0 <= j < terms_over(recs, ps, c).len() ==> ps.contains(
                #[trigger] terms_over(recs, ps, c)[j].parent,
            ),
    decreases ps.len(),
{
    if ps.len() > 0 {
        let pre = ps.drop_last();
        lemma_terms_from(recs, pre, c);
        let a = terms_over(recs, pre, c);
        assert forall|j: int|
            0 <= j < terms_over(recs, ps, c).len() implies ps.contains(
            #[trigger] terms_over(recs, ps, c)[j].parent,
        ) by {
            if j < a.len() {
                let q = a[j].parent;
                if ps.last() < recs.len() {
                    assert(terms_over(recs, ps, c)[j] == a[j]);
                }
                let k = choose|k: int| 0 <= k < pre.len() && pre[k] == q;
                assert(ps[k] == q);
            } else {
                let b = tagged(ps.last(), local_partials(recs[ps.last() as int], c));
                assert(terms_over(recs, ps, c)[j] == b[j - a.len()]);
                assert(ps[ps.len() - 1] == ps.last());
            }
        }
    }
}

/// When the last record is the only consumer of `x`, the adjoint of `x` is
/// made of that record's local partials alone, however many of its operand
/// positions hold `x`.
pub proof fn lemma_only_consumer(recs: Seq<Operation>, x: u64)
    requires
        ids_dense(recs),
        recs.len() > 0,
        consumers(recs.drop_last(), x).len() == 0,
        recs.last().operands().contains(x),
    ensures
        step_terms(recs, x) == tagged(
            (recs.len() - 1) as u64,
            local_partials(recs.last(), x),
        ),
{
    let p = recs.last().id_of();
    assert(recs[recs.len() - 1].id_of() == recs.len() - 1);
    let ps = consumers(recs, x);
    let sl = slot_ids(recs.last().operands(), x, p);
    lemma_slot_ids(recs.last().operands(), x, p);
    assert(ps =~= sl);
    lemma_run_kept_once(ps, p);
    let one: Seq<u64> = seq![p];
    assert(one.drop_last() =~= seq![]);
    assert(recs[p as int] == recs.last());
    assert(terms_over(recs, seq![], x) == Seq::<Term>::empty());
    assert(step_terms(recs, x) == terms_over(recs, seq![], x) + tagged(p, local_partials(recs.last(), x)));
    assert(step_terms(recs, x) =~= tagged(p, local_partials(recs.last(), x)));
}

/// The derivative of `x + y` with respect to each of two distinct operands
/// is 1; that of `x - y` is 1 with respect to `x` and -1 with respect to `y`.
pub proof fn lemma_sum_and_difference_rules(p: u64, x: u64, y: u64)
    requires
        x != y,
    ensures
        local_partials(Operation::Add(p, x, y), x) == seq![Partial::One],
        local_partials(Operation::Add(p, x, y), y) == seq![Partial::One],
        local_partials(Operation::Sub(p, x, y), x) == seq![Partial::One],
        local_partials(Operation::Sub(p, x, y), y) == seq![Partial::MinusOne],
{
    assert(local_partials(Operation::Add(p, x, y), x) =~= seq![Partial::One]);
    assert(local_partials(Operation::Add(p, x, y), y) =~= seq![Partial::One]);
    assert(local_partials(Operation::Sub(p, x, y), x) =~= seq![Partial::One]);
    assert(local_partials(Operation::Sub(p, x, y), y) =~= seq![Partial::MinusOne]);
}

/// On a tape whose output is `x + y` or `x - y` of two distinct nodes used
/// nowhere else, the adjoint of `x` is the output's adjoint times 1, and so
/// is that of `y`, times -1 for a difference.
pub proof fn lemma_sum_and_difference_adjoints(recs: Seq<Operation>, x: u64, y: u64)
    requires
        ids_dense(recs),
        recs.len() > 0,
        x != y,
        recs.last() == Operation::Add((recs.len() - 1) as u64, x, y) || recs.last()
            == Operation::Sub((recs.len() - 1) as u64, x, y),
        consumers(recs.drop_last(), x).len() == 0,
        consumers(recs.drop_last(), y).len() == 0,
    ensures
        ({
            let p = (recs.len() - 1) as u64;
            &&& step_terms(recs, x) == seq![Term { parent: p, partial: Partial::One }]
            &&& recs.last() is Add ==> step_terms(recs, y) == seq![
                Term { parent: p, partial: Partial::One },
            ]
            &&& recs.last() is Sub ==> step_terms(recs, y) == seq![
                Term { parent: p, partial: Partial::MinusOne },
            ]
        }),
{
    let p = (recs.len() - 1) as u64;
    assert(recs.last().operands()[0] == x);
    assert(recs.last().operands()[1] == y);
    lemma_only_consumer(recs, x);
    lemma_only_consumer(recs, y);
    lemma_sum_and_difference_rules(p, x, y);
    assert(step_terms(recs, x) =~= seq![Term { parent: p, partial: Partial::One }]);
    if recs.last() is Add {
        assert(step_terms(recs, y) =~= seq![Term { parent: p, partial: Partial::One }]);
    } else {
        assert(step_terms(recs, y) =~= seq![Term { parent: p, partial: Partial::MinusOne }]);
    }
}

/// The derivative of `x * y` is `y` with respect to `x` and `x` with respect
/// to `y`.
pub proof fn lemma_product_rule(p: u64, x: u64, y: u64)
    requires
        x != y,
    ensures
        local_partials(Operation::Mul(p, x, y), x) == seq![Partial::ValueOf(y)],
        local_partials(Operation::Mul(p, x, y), y) == seq![Partial::ValueOf(x)],
{
    assert(local_partials(Operation::Mul(p, x, y), x) =~= seq![Partial::ValueOf(y)]);
    assert(local_partials(Operation::Mul(p, x, y), y) =~= seq![Partial::ValueOf(x)]);
}

/// The derivative of `x / y` is `1 / y` with respect to `x` and `-x / y^2`
/// with respect to `y`.
pub proof fn lemma_quotient_rule(p: u64, x: u64, y: u64)
    requires
        x != y,
    ensures
        local_partials(Operation::Div(p, x, y), x) == seq![Partial::ReciprocalOf(y)],
        local_partials(Operation::Div(p, x, y), y) == seq![Partial::NegQuotient(x, y)],
{
    assert(local_partials(Operation::Div(p, x, y), x) =~= seq![Partial::ReciprocalOf(y)]);
    assert(local_partials(Operation::Div(p, x, y), y) =~= seq![Partial::NegQuotient(x, y)]);
}

/// On a tape whose output is `x * y` or `x / y` of two distinct nodes used
/// nowhere else, the adjoint of `x` is the output's adjoint times `y` (for
/// a quotient, `1 / y`), and that of `y` is the output's adjoint times `x`
/// (for a quotient, `-x / y^2`).
pub proof fn lemma_product_and_quotient_adjoints(recs: Seq<Operation>, x: u64, y: u64)
    requires
        ids_dense(recs),
        recs.len() > 0,
        x != y,
        recs.last() == Operation::Mul((recs.len() - 1) as u64, x, y) || recs.last()
            == Operation::Div((recs.len() - 1) as u64, x, y),
        consumers(recs.drop_last(), x).len() == 0,
        consumers(recs.drop_last(), y).len() == 0,
    ensures
        ({
            let p = (recs.len() - 1) as u64;
            &&& recs.last() is Mul ==> step_terms(recs, x) == seq![
                Term { parent: p, partial: Partial::ValueOf(y) },
            ]
            &&& recs.last() is Mul ==> step_terms(recs, y) == seq![
                Term { parent: p, partial: Partial::ValueOf(x) },
            ]
            &&& recs.last() is Div ==> step_terms(recs, x) == seq![
                Term { parent: p, partial: Partial::ReciprocalOf(y) },
            ]
            &&& recs.last() is Div ==> step_terms(recs, y) == seq![
                Term { parent: p, partial: Partial::NegQuotient(x, y) },
            ]
        }),
{
    let p = (recs.len() - 1) as u64;
    assert(recs.last().operands()[0] == x);
    assert(recs.last().operands()[1] == y);
    lemma_only_consumer(recs, x);
    lemma_only_consumer(recs, y);
    lemma_product_rule(p, x, y);
    lemma_quotient_rule(p, x, y);
    if recs.last() is Mul {
        assert(step_terms(recs, x) =~= seq![Term { parent: p, partial: Partial::ValueOf(y) }]);
        assert(step_terms(recs, y) =~= seq![Term { parent: p, partial: Partial::ValueOf(x) }]);
    } else {
        assert(step_terms(recs, x) =~= seq![Term { parent: p, partial: Partial::ReciprocalOf(y) }]);
        assert(step_terms(recs, y) =~= seq![
            Term { parent: p, partial: Partial::NegQuotient(x, y) },
        ]);
    }
}

/// A node used twice by one operation is listed as consumed by it twice,
/// once per operand position, and gets exactly one term for each use: the
/// adjoint of `x` in an output `x * x` is the sum of two terms `x`.
pub proof fn lemma_reused_operand(recs: Seq<Operation>, x: u64)
    requires
        ids_dense(recs),
        recs.len() > 0,
        recs.last() == Operation::Mul((recs.len() - 1) as u64, x, x),
        consumers(recs.drop_last(), x).len() == 0,
    ensures
        consumers(recs, x) == seq![(recs.len() - 1) as u64, (recs.len() - 1) as u64],
        step_terms(recs, x) == seq![
            Term { parent: (recs.len() - 1) as u64, partial: Partial::ValueOf(x) },
            Term { parent: (recs.len() - 1) as u64, partial: Partial::ValueOf(x) },
        ],
{
    let p = (recs.len() - 1) as u64;
    assert(recs.last().operands()[0] == x);
    assert(recs[recs.len() - 1].id_of() == recs.len() - 1);
    let ops = recs.last().operands();
    assert(ops.drop_last() =~= seq![x]);
    assert(ops.drop_last().drop_last() =~= seq![]);
    assert(ops.last() == x);
    assert(ops.drop_last().last() == x);
    assert(slot_ids(ops.drop_last().drop_last(), x, p) == Seq::<u64>::empty());
    assert(slot_ids(ops.drop_last(), x, p) == slot_ids(ops.drop_last().drop_last(), x, p).push(p));
    assert(slot_ids(ops, x, p) == slot_ids(ops.drop_last(), x, p).push(p));
    assert(slot_ids(ops, x, p) =~= seq![p, p]);
    assert(consumers(recs, x) =~= seq![p, p]);
    lemma_only_consumer(recs, x);
    assert(local_partials(recs.last(), x) =~= seq![Partial::ValueOf(x), Partial::ValueOf(x)]);
    assert(step_terms(recs, x) =~= seq![
        Term { parent: p, partial: Partial::ValueOf(x) },
        Term { parent: p, partial: Partial::ValueOf(x) },
    ]);
}

/// Two consistent tapes that recorded the same operations give the same
/// sweep: the same node order and, for every node, the same terms. Since
/// the recorder numbers nodes by their position on the tape, evaluating one
/// function twice on fresh tapes yields identical plans, whatever happened
/// on other tapes before.
pub proof fn lemma_same_records_same_plan(t1: Tape, t2: Tape)
    requires
        t1.wf(),
        t2.wf(),
        t1.records_view() == t2.records_view(),
    ensures
        t1.node_order() == t2.node_order(),
        forall|c: u64| #[trigger] recorded_terms(t1, c) == recorded_terms(t2, c),
{
    lemma_records_decide_tape(t1, t2);
    assert forall|c: u64| #[trigger] recorded_terms(t1, c) == recorded_terms(t2, c) by {
        assert(list_of(t1.consumer_lists(), c) == list_of(t2.consumer_lists(), c));
    }
}

} // verus!
