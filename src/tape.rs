//! The tape: every operation recorded during one forward pass, the order in
//! which nodes were created, and the operand/consumer adjacency.
use crate::containers::{
    map_contains, map_entries, map_get, map_insert, map_new, map_clear, sorted_as_vec,
    sorted_clear, sorted_items, sorted_new, sorted_push, IdListMap,
};
use crate::operation::Operation;
use sorted_vec::SortedVec;
use vstd::prelude::*;

verus! {

/// The list stored under `k`, or the empty list when `k` has no entry.
pub open spec fn list_of(m: Map<u64, Seq<u64>>, k: u64) -> Seq<u64> {
    if m.contains_key(k) {
        m[k]
    } else {
        seq![]
    }
}

/// Appends `p` to the consumer list of `c`.
pub open spec fn add_consumer(m: Map<u64, Seq<u64>>, c: u64, p: u64) -> Map<u64, Seq<u64>> {
    m.insert(c, list_of(m, c).push(p))
}

/// Appends `p` to the consumer list of each of `children`, in order: once
/// for each position a child holds.
pub open spec fn add_consumers(m: Map<u64, Seq<u64>>, p: u64, children: Seq<u64>) -> Map<
    u64,
    Seq<u64>,
>
    decreases children.len(),
{
    if children.len() == 0 {
        m
    } else {
        add_consumer(add_consumers(m, p, children.drop_last()), children.last(), p)
    }
}

/// `p` once for each position of `ops` that holds `c`.
pub open spec fn slot_ids(ops: Seq<u64>, c: u64, p: u64) -> Seq<u64>
    decreases ops.len(),
{
    if ops.len() == 0 {
        seq![]
    } else if ops.last() == c {
        slot_ids(ops.drop_last(), c, p).push(p)
    } else {
        slot_ids(ops.drop_last(), c, p)
    }
}

/// The ids of the records that use `c` as an operand, in creation order:
/// a record appears once for each of its operand positions that holds `c`.
pub open spec fn consumers(recs: Seq<Operation>, c: u64) -> Seq<u64>
    decreases recs.len(),
{
    if recs.len() == 0 {
        seq![]
    } else {
        consumers(recs.drop_last(), c) + slot_ids(recs.last().operands(), c, recs.last().id_of())
    }
}

/// Record `i` has id `i`, and every operand of it was created before it.
pub open spec fn ids_dense(recs: Seq<Operation>) -> bool {
    &&& forall|i: int| 0 <= i < recs.len() ==> (#[trigger] recs[i]).id_of() == i
    &&& forall|i: int, j: int|
        0 <= i < recs.len() && 0 <= j < recs[i].operands().len() ==> (#[trigger] recs[i].operands()[j]) < i
}

/// Every id on the tape, `0..n`, in ascending order.
pub open spec fn ascending_ids(s: Seq<u64>, n: nat) -> bool {
    &&& s.len() == n
    &&& forall|i: int| 0 <= i < n ==> s[i] == i
}

pub struct Tape {
    records: Vec<Operation>,
    node_list: SortedVec<u64>,
    parent_child_map: IdListMap,
    child_parent_map: IdListMap,
    pass: u64,
}

impl Tape {
    /// The records, indexed by id.
    pub closed spec fn records_view(&self) -> Seq<Operation> {
        self.records@
    }

    /// Every registered id, ascending.
    pub closed spec fn node_order(&self) -> Seq<u64> {
        sorted_items(self.node_list)
    }

    /// For each operation node, the ids of its operands.
    pub closed spec fn operand_lists(&self) -> Map<u64, Seq<u64>> {
        map_entries(self.parent_child_map)
    }

    /// How many times the tape has been cleared (wrapping); ids from an
    /// earlier pass belong to a discarded tape.
    pub closed spec fn pass_view(&self) -> u64 {
        self.pass
    }

    /// For each consumed node, the ids of the operations that consume it.
    pub closed spec fn consumer_lists(&self) -> Map<u64, Seq<u64>> {
        map_entries(self.child_parent_map)
    }

    /// The tape is consistent: ids are dense and topologically ordered, the
    /// node order lists them all, and both adjacency maps agree with the
    /// records.
    pub open spec fn wf(&self) -> bool {
        let recs = self.records_view();
        &&& ids_dense(recs)
        &&& recs.len() < u64::MAX
        &&& ascending_ids(self.node_order(), recs.len())
        &&& forall|k: u64| #[trigger]
            self.operand_lists().contains_key(k) <==> (k < recs.len() && !recs[k as int].is_leaf())
        &&& forall|k: u64| #[trigger]
            self.operand_lists().contains_key(k) ==> self.operand_lists()[k] == recs[k as int].operands()
        &&& forall|c: u64| #[trigger] list_of(self.consumer_lists(), c) == consumers(recs, c)
    }

    /// An empty tape.
    pub fn new() -> (r: Tape)
        ensures
            r.wf(),
            r.records_view() == Seq::<Operation>::empty(),
            r.pass_view() == 0,
    {
        Tape {
            records: Vec::new(),
            node_list: sorted_new(),
            parent_child_map: map_new(),
            child_parent_map: map_new(),
            pass: 0,
        }
    }

    /// The current pass number.
    pub fn pass(&self) -> (r: u64)
        ensures
            r == self.pass_view(),
    {
        self.pass
    }

    /// The number of nodes on the tape.
    pub fn len(&self) -> (r: usize)
        ensures
            r == self.records_view().len(),
    {
        self.records.len()
    }

    /// The record of node `id`, if it is on the tape.
    pub fn get(&self, id: u64) -> (r: Option<&Operation>)
        ensures
            r.is_some() == (id < self.records_view().len()),
            r.is_some() ==> *r.unwrap() == self.records_view()[id as int],
    {
        if id < self.records.len() as u64 {
            Some(&self.records[id as usize])
        } else {
            None
        }
    }

    /// The ids of the operations that consumed node `id`, in creation order.
    pub fn consumers_of(&self, id: u64) -> (r: Vec<u64>)
        ensures
            r@ == list_of(self.consumer_lists(), id),
            self.wf() ==> r@ == consumers(self.records_view(), id),
    {
        proof {
            if self.wf() {
                assert(list_of(self.consumer_lists(), id) == consumers(self.records_view(), id));
            }
        }
        match map_get(&self.child_parent_map, id) {
            Some(v) => {
                let r = v.clone();
                assert(r@ =~= v@);
                r
            },
            None => {
                let r: Vec<u64> = Vec::new();
                assert(r@ =~= seq![]);
                r
            },
        }
    }

    /// The ids that node `id` depends on, in operand order.
    pub fn operands_of(&self, id: u64) -> (r: Vec<u64>)
        ensures
            r@ == list_of(self.operand_lists(), id),
            self.wf() && id < self.records_view().len() ==> r@ == self.records_view()[id as int].operands(),
            self.wf() && id >= self.records_view().len() ==> r@.len() == 0,
    {
        proof {
            if self.wf() {
                assert(self.operand_lists().contains_key(id) ==> self.operand_lists()[id]
                    == self.records_view()[id as int].operands());
            }
        }
        match map_get(&self.parent_child_map, id) {
            Some(v) => {
                let r = v.clone();
                assert(r@ =~= v@);
                r
            },
            None => {
                let r: Vec<u64> = Vec::new();
                assert(r@ =~= seq![]);
                r
            },
        }
    }

    /// Every registered id, in creation order.
    pub fn ids_in_creation_order(&self) -> (r: &Vec<u64>)
        ensures
            r@ == self.node_order(),
            self.wf() ==> ascending_ids(r@, self.records_view().len()),
    {
        sorted_as_vec(&self.node_list)
    }
}

/// Every entry of `slot_ids(ops, c, p)` is `p`, and there is one only
/// when `ops` holds `c`.
pub proof fn lemma_slot_ids(ops: Seq<u64>, c: u64, p: u64)
    ensures
        forall|j: int| 0 <= j < slot_ids(ops, c, p).len() ==> #[trigger] slot_ids(ops, c, p)[j] == p,
        slot_ids(ops, c, p).len() > 0 ==> ops.contains(c),
        ops.contains(c) ==> slot_ids(ops, c, p).len() > 0,
    decreases ops.len(),
{
    if ops.len() > 0 {
        let pre = ops.drop_last();
        lemma_slot_ids(pre, c, p);
        if pre.contains(c) {
            let j = choose|j: int| 0 <= j < pre.len() && pre[j] == c;
            assert(ops[j] == c);
        }
        if ops.contains(c) && ops.last() != c {
            let j = choose|j: int| 0 <= j < ops.len() && ops[j] == c;
            assert(pre[j] == c);
        }
        if ops.last() == c {
            assert(ops[ops.len() - 1] == c);
        }
    }
}

/// The consumers of `c` all come after `c` and before the end of the tape,
/// in ascending order; a consumer that uses `c` in several positions is
/// listed that many times in a row.
pub proof fn lemma_consumers_ordered(recs: Seq<Operation>, c: u64)
    requires
        ids_dense(recs),
    ensures
        forall|j: int|
            0 <= j < consumers(recs, c).len() ==> c < #[trigger] consumers(recs, c)[j] < recs.len(),
        forall|j: int, k: int|
            0 <= j < k < consumers(recs, c).len() ==> consumers(recs, c)[j] <= consumers(recs, c)[k],
    decreases recs.len(),
{
    if recs.len() > 0 {
        let pre = recs.drop_last();
        assert forall|i: int| 0 <= i < pre.len() implies (#[trigger] pre[i]).id_of() == i by {
            assert(pre[i] == recs[i]);
        }
        assert forall|i: int, j: int|
            0 <= i < pre.len() && 0 <= j < pre[i].operands().len() implies (
            #[trigger] pre[i].operands()[j]) < i by {
            assert(pre[i] == recs[i]);
            assert(recs[i].operands()[j] < i);
        }
        lemma_consumers_ordered(pre, c);
        let last = recs.last();
        let earlier = consumers(pre, c);
        let id = last.id_of();
        assert(recs[recs.len() - 1].id_of() == recs.len() - 1);
        let sl = slot_ids(last.operands(), c, id);
        lemma_slot_ids(last.operands(), c, id);
        let cs = earlier + sl;
        assert(consumers(recs, c) == cs);
        if sl.len() > 0 {
            let j = choose|j: int| 0 <= j < last.operands().len() && last.operands()[j] == c;
            assert(recs[recs.len() - 1].operands()[j] < recs.len() - 1);
        }
        assert forall|j: int| 0 <= j < cs.len() implies c < #[trigger] cs[j] < recs.len() by {
            if j < earlier.len() {
                assert(cs[j] == earlier[j]);
            } else {
                assert(cs[j] == sl[j - earlier.len()]);
            }
        }
        assert forall|j: int, k: int| 0 <= j < k < cs.len() implies cs[j] <= cs[k] by {
            if k < earlier.len() {
                assert(cs[j] == earlier[j]);
                assert(cs[k] == earlier[k]);
            } else if j < earlier.len() {
                assert(cs[j] == earlier[j]);
                assert(cs[k] == sl[k - earlier.len()]);
            } else {
                assert(cs[j] == sl[j - earlier.len()]);
                assert(cs[k] == sl[k - earlier.len()]);
            }
        }
    }
}

/// Linking `p` to `children` appends, to the list of each node, `p` once
/// for each position of `children` that holds the node.
pub proof fn lemma_add_consumers(m: Map<u64, Seq<u64>>, p: u64, children: Seq<u64>)
    ensures
        forall|c: u64| #[trigger]
            list_of(add_consumers(m, p, children), c) == list_of(m, c) + slot_ids(children, c, p),
    decreases children.len(),
{
    if children.len() == 0 {
        assert forall|c: u64| #[trigger]
            list_of(add_consumers(m, p, children), c) == list_of(m, c) + slot_ids(children, c, p) by {
            assert(list_of(m, c) + slot_ids(children, c, p) =~= list_of(m, c));
        }
    } else {
        let pre = children.drop_last();
        lemma_add_consumers(m, p, pre);
        let mi = add_consumers(m, p, pre);
        assert forall|c: u64| #[trigger]
            list_of(add_consumers(m, p, children), c) == list_of(m, c) + slot_ids(children, c, p) by {
            assert(add_consumers(m, p, children) == add_consumer(mi, children.last(), p));
            assert(list_of(mi, c) == list_of(m, c) + slot_ids(pre, c, p));
            if c == children.last() {
                assert(slot_ids(children, c, p) == slot_ids(pre, c, p).push(p));
                assert(list_of(add_consumers(m, p, children), c) == list_of(mi, c).push(p));
                assert(list_of(m, c) + slot_ids(pre, c, p).push(p) =~= (list_of(m, c) + slot_ids(
                    pre,
                    c,
                    p,
                )).push(p));
            } else {
                assert(slot_ids(children, c, p) == slot_ids(pre, c, p));
                assert(list_of(add_consumers(m, p, children), c) == list_of(mi, c));
            }
        }
    }
}

/// Adds one record to the tape and to the node order, without linking it.
pub fn global_register_operation(tape: &mut Tape, op: Operation)
    requires
        old(tape).wf(),
        op.id_of() == old(tape).records_view().len(),
    ensures
        final(tape).records_view() == old(tape).records_view().push(op),
        final(tape).node_order() == old(tape).node_order().push(op.id_of()),
        final(tape).operand_lists() == old(tape).operand_lists(),
        final(tape).consumer_lists() == old(tape).consumer_lists(),
        final(tape).pass_view() == old(tape).pass_view(),
{
    let id = op.id();
    proof {
        let s = old(tape).node_order();
        if s.len() > 0 {
            assert(s[s.len() - 1] == s.len() - 1);
        }
    }
    tape.records.push(op);
    sorted_push(&mut tape.node_list, id);
}

/// Links `parent` to its `children`: `parent` is appended to the consumer
/// list of each child, once per position the child holds, and the
/// children become the operand list of `parent` unless it already has one.
pub fn global_add_parent_child_relationship(tape: &mut Tape, parent: u64, children: Vec<u64>)
    ensures
        final(tape).consumer_lists() == add_consumers(
            old(tape).consumer_lists(),
            parent,
            children@,
        ),
        final(tape).operand_lists() == if old(tape).operand_lists().contains_key(parent) {
            old(tape).operand_lists()
        } else {
            old(tape).operand_lists().insert(parent, children@)
        },
        final(tape).records_view() == old(tape).records_view(),
        final(tape).node_order() == old(tape).node_order(),
        final(tape).pass_view() == old(tape).pass_view(),
{
    let ghost m0 = old(tape).consumer_lists();
    let mut i: usize = 0;
    proof {
        assert(children@.subrange(0, 0) =~= seq![]);
    }
    while i < children.len()
        invariant
            0 <= i <= children.len(),
            tape.consumer_lists() == add_consumers(m0, parent, children@.subrange(0, i as int)),
            tape.operand_lists() == old(tape).operand_lists(),
            tape.records_view() == old(tape).records_view(),
            tape.node_order() == old(tape).node_order(),
            tape.pass_view() == old(tape).pass_view(),
        decreases children.len() - i,
    {
        let c = children[i];
        let ghost before = tape.consumer_lists();
        let v: Vec<u64> = match map_get(&tape.child_parent_map, c) {
            None => vec![parent],
            Some(ps) => {
                let mut v = ps.clone();
                assert(v@ =~= ps@);
                v.push(parent);
                v
            },
        };
        assert(v@ =~= list_of(before, c).push(parent));
        map_insert(&mut tape.child_parent_map, c, v);
        proof {
            let pre = children@.subrange(0, i as int);
            let cur = children@.subrange(0, i + 1);
            assert(cur.drop_last() =~= pre);
            assert(cur.last() == c);
            assert(tape.consumer_lists() == add_consumer(before, c, parent));
        }
        i = i + 1;
    }
    proof {
        assert(children@.subrange(0, children.len() as int) =~= children@);
    }
    if !map_contains(&tape.parent_child_map, parent) {
        map_insert(&mut tape.parent_child_map, parent, children);
    }
}

/// Empties the tape and starts a new pass, so that ids handed out before
/// can be told apart from the new ones.
pub fn global_clear(tape: &mut Tape)
    ensures
        final(tape).wf(),
        final(tape).records_view() == Seq::<Operation>::empty(),
        final(tape).node_order() == Seq::<u64>::empty(),
        final(tape).operand_lists().dom() == Set::<u64>::empty(),
        final(tape).consumer_lists().dom() == Set::<u64>::empty(),
        final(tape).pass_view() == if old(tape).pass_view() < u64::MAX {
            (old(tape).pass_view() + 1) as u64
        } else {
            0u64
        },
{
    tape.pass = if tape.pass < u64::MAX {
        tape.pass + 1
    } else {
        0
    };
    tape.records.clear();
    sorted_clear(&mut tape.node_list);
    map_clear(&mut tape.parent_child_map);
    map_clear(&mut tape.child_parent_map);
    proof {
        assert(tape.records_view() =~= Seq::<Operation>::empty());
        assert forall|c: u64| #[trigger] list_of(tape.consumer_lists(), c) == consumers(
            tape.records_view(),
            c,
        ) by {
            assert(!tape.consumer_lists().contains_key(c));
        }
        assert forall|k: u64| #[trigger]
            tape.operand_lists().contains_key(k) <==> (k < tape.records_view().len()
                && !tape.records_view()[k as int].is_leaf()) by {
            assert(!tape.operand_lists().contains_key(k));
        }
    }
}

impl Tape {
    /// Appends `op`, which must carry the next id and refer only to
    /// existing nodes, and links it to its operands.
    fn record(&mut self, op: Operation) -> (r: u64)
        requires
            old(self).wf(),
            op.id_of() == old(self).records_view().len(),
            forall|j: int| 0 <= j < op.operands().len() ==> #[trigger] op.operands()[j] < op.id_of(),
            old(self).records_view().len() + 1 < u64::MAX,
        ensures
            final(self).wf(),
            final(self).records_view() == old(self).records_view().push(op),
            final(self).pass_view() == old(self).pass_view(),
            r == op.id_of(),
    {
        let ghost recs = self.records_view();
        let ghost m0 = self.consumer_lists();
        let ghost pm0 = self.operand_lists();
        let id = op.id();
        global_register_operation(self, op);
        if !op.is_value() {
            let children = op.operand_ids();
            global_add_parent_child_relationship(self, id, children);
        }
        proof {
            let nrecs = recs.push(op);
            assert(nrecs.drop_last() =~= recs);
            assert(self.records_view() == nrecs);
            assert forall|i: int| 0 <= i < nrecs.len() implies (#[trigger] nrecs[i]).id_of() == i by {
                if i < recs.len() {
                    assert(nrecs[i] == recs[i]);
                }
            }
            assert forall|i: int, j: int|
                0 <= i < nrecs.len() && 0 <= j < nrecs[i].operands().len() implies (
                #[trigger] nrecs[i].operands()[j]) < i by {
                if i < recs.len() {
                    assert(nrecs[i] == recs[i]);
                    assert(recs[i].operands()[j] < i);
                }
            }
            let ops = op.operands();
            lemma_add_consumers(m0, id, ops);
            if op.is_leaf() {
                assert(self.consumer_lists() == m0);
            }
            assert forall|c: u64| #[trigger] list_of(self.consumer_lists(), c) == consumers(
                nrecs,
                c,
            ) by {
                assert(list_of(m0, c) == consumers(recs, c));
                assert(nrecs.last() == op);
                if op.is_leaf() {
                    assert(slot_ids(ops, c, id) =~= seq![]);
                    assert(consumers(nrecs, c) =~= consumers(recs, c));
                }
            }
            assert(!pm0.contains_key(id));
            assert forall|k: u64| #[trigger]
                self.operand_lists().contains_key(k) <==> (k < nrecs.len()
                    && !nrecs[k as int].is_leaf()) by {
                assert(pm0.contains_key(k) <==> (k < recs.len() && !recs[k as int].is_leaf()));
                if k < recs.len() {
                    assert(nrecs[k as int] == recs[k as int]);
                }
            }
            assert forall|k: u64| #[trigger]
                self.operand_lists().contains_key(k) implies self.operand_lists()[k]
                == nrecs[k as int].operands() by {
                if k != id {
                    assert(pm0.contains_key(k));
                    assert(pm0[k] == recs[k as int].operands());
                    assert(nrecs[k as int] == recs[k as int]);
                }
            }
        }
        id
    }
}

/// Two consistent tapes that hold the same records agree in everything
/// else too: node order, operand lists and consumer lists. Nothing but the
/// recorded operations decides a tape, so two passes that record the same
/// operations on fresh tapes are indistinguishable.
pub proof fn lemma_records_decide_tape(t1: Tape, t2: Tape)
    requires
        t1.wf(),
        t2.wf(),
        t1.records_view() == t2.records_view(),
    ensures
        t1.node_order() == t2.node_order(),
        t1.operand_lists() == t2.operand_lists(),
        forall|c: u64| #[trigger] list_of(t1.consumer_lists(), c) == list_of(t2.consumer_lists(), c),
{
    assert(t1.node_order() =~= t2.node_order());
    assert forall|k: u64| #[trigger] t1.operand_lists().contains_key(k) == t2.operand_lists().contains_key(k) by {
        assert(t1.operand_lists().contains_key(k) == t2.operand_lists().contains_key(k));
    }
    assert forall|k: u64| #[trigger] t1.operand_lists().contains_key(k) implies t1.operand_lists()[k]
        == t2.operand_lists()[k] by {
        assert(t2.operand_lists().contains_key(k));
    }
    assert(t1.operand_lists() =~= t2.operand_lists());
    assert forall|c: u64| #[trigger] list_of(t1.consumer_lists(), c) == list_of(t2.consumer_lists(), c) by {
        assert(list_of(t1.consumer_lists(), c) == consumers(t1.records_view(), c));
        assert(list_of(t2.consumer_lists(), c) == consumers(t2.records_view(), c));
    }
}

impl Tape {
    /// Registers a new leaf input and returns its id.
    pub fn leaf(&mut self) -> (r: u64)
        requires
            old(self).wf(),
            old(self).records_view().len() + 1 < u64::MAX,
        ensures
            final(self).wf(),
            final(self).pass_view() == old(self).pass_view(),
            r == old(self).records_view().len(),
            final(self).records_view() == old(self).records_view().push(Operation::Value(r)),
    {
        let id = self.records.len() as u64;
        self.record(Operation::Value(id))
    }

    /// Records `lhs + rhs` and returns the new node's id.
    pub fn add(&mut self, lhs: u64, rhs: u64) -> (r: u64)
        requires
            old(self).wf(),
            lhs < old(self).records_view().len(),
            rhs < old(self).records_view().len(),
            old(self).records_view().len() + 1 < u64::MAX,
        ensures
            final(self).wf(),
            final(self).pass_view() == old(self).pass_view(),
            r == old(self).records_view().len(),
            final(self).records_view() == old(self).records_view().push(Operation::Add(r, lhs, rhs)),
    {
        let id = self.records.len() as u64;
        self.record(Operation::Add(id, lhs, rhs))
    }

    /// Records `lhs - rhs` and returns the new node's id.
    pub fn sub(&mut self, lhs: u64, rhs: u64) -> (r: u64)
        requires
            old(self).wf(),
            lhs < old(self).records_view().len(),
            rhs < old(self).records_view().len(),
            old(self).records_view().len() + 1 < u64::MAX,
        ensures
            final(self).wf(),
            final(self).pass_view() == old(self).pass_view(),
            r == old(self).records_view().len(),
            final(self).records_view() == old(self).records_view().push(Operation::Sub(r, lhs, rhs)),
    {
        let id = self.records.len() as u64;
        self.record(Operation::Sub(id, lhs, rhs))
    }

    /// Records `lhs * rhs` and returns the new node's id.
    pub fn mul(&mut self, lhs: u64, rhs: u64) -> (r: u64)
        requires
            old(self).wf(),
            lhs < old(self).records_view().len(),
            rhs < old(self).records_view().len(),
            old(self).records_view().len() + 1 < u64::MAX,
        ensures
            final(self).wf(),
            final(self).pass_view() == old(self).pass_view(),
            r == old(self).records_view().len(),
            final(self).records_view() == old(self).records_view().push(Operation::Mul(r, lhs, rhs)),
    {
        let id = self.records.len() as u64;
        self.record(Operation::Mul(id, lhs, rhs))
    }

    /// Records `lhs / rhs` and returns the new node's id.
    pub fn div(&mut self, lhs: u64, rhs: u64) -> (r: u64)
        requires
            old(self).wf(),
            lhs < old(self).records_view().len(),
            rhs < old(self).records_view().len(),
            old(self).records_view().len() + 1 < u64::MAX,
        ensures
            final(self).wf(),
            final(self).pass_view() == old(self).pass_view(),
            r == old(self).records_view().len(),
            final(self).records_view() == old(self).records_view().push(Operation::Div(r, lhs, rhs)),
    {
        let id = self.records.len() as u64;
        self.record(Operation::Div(id, lhs, rhs))
    }

    /// Records `ln(arg)` and returns the new node's id.
    pub fn ln(&mut self, arg: u64) -> (r: u64)
        requires
            old(self).wf(),
            arg < old(self).records_view().len(),
            old(self).records_view().len() + 1 < u64::MAX,
        ensures
            final(self).wf(),
            final(self).pass_view() == old(self).pass_view(),
            r == old(self).records_view().len(),
            final(self).records_view() == old(self).records_view().push(Operation::Ln(r, arg)),
    {
        let id = self.records.len() as u64;
        self.record(Operation::Ln(id, arg))
    }

    /// Records `sin(arg)` and returns the new node's id.
    pub fn sin(&mut self, arg: u64) -> (r: u64)
        requires
            old(self).wf(),
            arg < old(self).records_view().len(),
            old(self).records_view().len() + 1 < u64::MAX,
        ensures
            final(self).wf(),
            final(self).pass_view() == old(self).pass_view(),
            r == old(self).records_view().len(),
            final(self).records_view() == old(self).records_view().push(Operation::Sin(r, arg)),
    {
        let id = self.records.len() as u64;
        self.record(Operation::Sin(id, arg))
    }

    /// Records `cos(arg)` and returns the new node's id.
    pub fn cos(&mut self, arg: u64) -> (r: u64)
        requires
            old(self).wf(),
            arg < old(self).records_view().len(),
            old(self).records_view().len() + 1 < u64::MAX,
        ensures
            final(self).wf(),
            final(self).pass_view() == old(self).pass_view(),
            r == old(self).records_view().len(),
            final(self).records_view() == old(self).records_view().push(Operation::Cos(r, arg)),
    {
        let id = self.records.len() as u64;
        self.record(Operation::Cos(id, arg))
    }

    /// Records `exp(arg)` and returns the new node's id.
    pub fn exp(&mut self, arg: u64) -> (r: u64)
        requires
            old(self).wf(),
            arg < old(self).records_view().len(),
            old(self).records_view().len() + 1 < u64::MAX,
        ensures
            final(self).wf(),
            final(self).pass_view() == old(self).pass_view(),
            r == old(self).records_view().len(),
            final(self).records_view() == old(self).records_view().push(Operation::Exp(r, arg)),
    {
        let id = self.records.len() as u64;
        self.record(Operation::Exp(id, arg))
    }

    /// Records `sqrt(arg)` and returns the new node's id.
    pub fn sqrt(&mut self, arg: u64) -> (r: u64)
        requires
            old(self).wf(),
            arg < old(self).records_view().len(),
            old(self).records_view().len() + 1 < u64::MAX,
        ensures
            final(self).wf(),
            final(self).pass_view() == old(self).pass_view(),
            r == old(self).records_view().len(),
            final(self).records_view() == old(self).records_view().push(Operation::Sqrt(r, arg)),
    {
        let id = self.records.len() as u64;
        self.record(Operation::Sqrt(id, arg))
    }

    /// Records arg raised to a constant exponent and returns the new node's id.
    pub fn pow(&mut self, arg: u64) -> (r: u64)
        requires
            old(self).wf(),
            arg < old(self).records_view().len(),
            old(self).records_view().len() + 1 < u64::MAX,
        ensures
            final(self).wf(),
            final(self).pass_view() == old(self).pass_view(),
            r == old(self).records_view().len(),
            final(self).records_view() == old(self).records_view().push(Operation::Pow(r, arg)),
    {
        let id = self.records.len() as u64;
        self.record(Operation::Pow(id, arg))
    }

    /// Records the logarithm of arg to a constant base and returns the new node's id.
    pub fn log(&mut self, arg: u64) -> (r: u64)
        requires
            old(self).wf(),
            arg < old(self).records_view().len(),
            old(self).records_view().len() + 1 < u64::MAX,
        ensures
            final(self).wf(),
            final(self).pass_view() == old(self).pass_view(),
            r == old(self).records_view().len(),
            final(self).records_view() == old(self).records_view().push(Operation::Log(r, arg)),
    {
        let id = self.records.len() as u64;
        self.record(Operation::Log(id, arg))
    }
}

} // verus!
