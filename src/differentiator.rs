//! Looking up the inputs whose derivatives a caller asks for.
use crate::operation::Operation;
use crate::tape::Tape;
use vstd::prelude::*;

verus! {

#[derive(Debug, Clone, Copy, PartialEq, Eq, Structural)]
pub enum DifferentiationError {
    /// The id is not a leaf input of this tape.
    UnregisteredNode(u64),
    /// The ids were handed out in the given pass, before the tape was last
    /// cleared.
    StalePass(u64),
}

/// `id` names a leaf input recorded on the tape.
pub open spec fn is_input(recs: Seq<Operation>, id: u64) -> bool {
    id < recs.len() && recs[id as int].is_leaf()
}

/// The ids of the leaf inputs, in creation order.
pub open spec fn leaf_ids(recs: Seq<Operation>) -> Seq<u64>
    decreases recs.len(),
{
    if recs.len() == 0 {
        seq![]
    } else if recs.last().is_leaf() {
        leaf_ids(recs.drop_last()).push(recs.last().id_of())
    } else {
        leaf_ids(recs.drop_last())
    }
}

impl Tape {
    /// The ids of every leaf input on the tape, in creation order.
    pub fn get_differentials(&self) -> (r: Vec<u64>)
        requires
            self.wf(),
        ensures
            r@ == leaf_ids(self.records_view()),
    {
        let ghost recs = self.records_view();
        let n = self.len();
        let mut r: Vec<u64> = Vec::new();
        let mut i: usize = 0;
        proof {
            assert(recs.subrange(0, 0) =~= seq![]);
        }
        while i < n
            invariant
                self.wf(),
                recs == self.records_view(),
                n == recs.len(),
                0 <= i <= n,
                r@ == leaf_ids(recs.subrange(0, i as int)),
            decreases n - i,
        {
            let op = self.get(i as u64).unwrap();
            if op.is_value() {
                r.push(op.id());
            }
            proof {
                let cur = recs.subrange(0, i + 1);
                assert(cur.drop_last() =~= recs.subrange(0, i as int));
                assert(cur.last() == recs[i as int]);
            }
            i = i + 1;
        }
        proof {
            assert(recs.subrange(0, n as int) =~= recs);
        }
        r
    }

    /// Checks that ids handed out in `pass` still belong to this tape.
    pub fn check_pass(&self, pass: u64) -> (r: Result<(), DifferentiationError>)
        ensures
            r == if pass == self.pass_view() {
                Ok::<(), DifferentiationError>(())
            } else {
                Err(DifferentiationError::StalePass(pass))
            },
    {
        if pass == self.pass() {
            Ok(())
        } else {
            Err(DifferentiationError::StalePass(pass))
        }
    }

    /// Checks that every requested id is a leaf input of this tape; the
    /// first one that is not is reported.
    pub fn check_inputs(&self, inputs: &Vec<u64>) -> (r: Result<(), DifferentiationError>)
        requires
            self.wf(),
        ensures
            r.is_ok() <==> forall|i: int|
                0 <= i < inputs@.len() ==> is_input(self.records_view(), #[trigger] inputs@[i]),
            r.is_err() ==> exists|i: int|
                0 <= i < inputs@.len() && r == Err::<(), DifferentiationError>(
                    DifferentiationError::UnregisteredNode(inputs@[i]),
                ) && !is_input(self.records_view(), inputs@[i]) && forall|j: int|
                    0 <= j < i ==> is_input(self.records_view(), #[trigger] inputs@[j]),
    {
        let mut i: usize = 0;
        while i < inputs.len()
            invariant
                self.wf(),
                0 <= i <= inputs.len(),
                forall|j: int| 0 <= j < i ==> is_input(self.records_view(), #[trigger] inputs@[j]),
            decreases inputs.len() - i,
        {
            let id = inputs[i];
            let known = match self.get(id) {
                Some(op) => op.is_value(),
                None => false,
            };
            if !known {
                return Err(DifferentiationError::UnregisteredNode(id));
            }
            i = i + 1;
        }
        Ok(())
    }
}

} // verus!
