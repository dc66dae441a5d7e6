//! The tagged record of one primitive operation, and the local partial
//! derivative that each operand position contributes.
use vstd::prelude::*;

verus! {

/// One node of the tape. The first field is the node's own id; the others
/// are the ids of its operands. Primal values, the constant exponent of
/// `Pow` and the constant base of `Log` are held by the caller, keyed by the
/// node's id.
#[derive(Debug, Clone, Copy, PartialEq, Eq, Structural)]
pub enum Operation {
    /// A leaf input: id.
    Value(u64),
    /// id, lhs, rhs.
    Add(u64, u64, u64),
    /// id, lhs, rhs.
    Sub(u64, u64, u64),
    /// id, lhs, rhs.
    Mul(u64, u64, u64),
    /// id, numerator, denominator.
    Div(u64, u64, u64),
    /// id, argument.
    Ln(u64, u64),
    /// id, argument.
    Sin(u64, u64),
    /// id, argument.
    Cos(u64, u64),
    /// id, argument.
    Exp(u64, u64),
    /// id, argument.
    Sqrt(u64, u64),
    /// id, base; the exponent is a constant.
    Pow(u64, u64),
    /// id, argument; the base is a constant.
    Log(u64, u64),
}

/// The local partial derivative of a consumer with respect to one operand
/// position, as a formula over primal values held by the caller.
#[derive(Debug, Clone, Copy, PartialEq, Eq, Structural)]
pub enum Partial {
    /// The constant 1.
    One,
    /// The constant -1.
    MinusOne,
    /// The primal value of the given node.
    ValueOf(u64),
    /// 1 / (primal value of the given node).
    ReciprocalOf(u64),
    /// -num / den^2, for the numerator and denominator nodes given.
    NegQuotient(u64, u64),
    /// cos of the primal value of the given node.
    CosOf(u64),
    /// -sin of the primal value of the given node.
    NegSinOf(u64),
    /// 1 / (2 * primal value of the given node).
    HalfReciprocalOf(u64),
    /// k * base^(k - 1), for the `Pow` node (whose constant is k) and its base.
    PowerRule(u64, u64),
    /// 1 / (arg * ln(b)), for the `Log` node (whose constant is b) and its argument.
    LogRule(u64, u64),
}

impl Operation {
    pub open spec fn id_of(self) -> u64 {
        match self {
            Operation::Value(id) => id,
            Operation::Add(id, _, _) => id,
            Operation::Sub(id, _, _) => id,
            Operation::Mul(id, _, _) => id,
            Operation::Div(id, _, _) => id,
            Operation::Ln(id, _) => id,
            Operation::Sin(id, _) => id,
            Operation::Cos(id, _) => id,
            Operation::Exp(id, _) => id,
            Operation::Sqrt(id, _) => id,
            Operation::Pow(id, _) => id,
            Operation::Log(id, _) => id,
        }
    }

    /// The ids this node depends on, in operand order.
    pub open spec fn operands(self) -> Seq<u64> {
        match self {
            Operation::Value(_) => seq![],
            Operation::Add(_, a, b) => seq![a, b],
            Operation::Sub(_, a, b) => seq![a, b],
            Operation::Mul(_, a, b) => seq![a, b],
            Operation::Div(_, a, b) => seq![a, b],
            Operation::Ln(_, a) => seq![a],
            Operation::Sin(_, a) => seq![a],
            Operation::Cos(_, a) => seq![a],
            Operation::Exp(_, a) => seq![a],
            Operation::Sqrt(_, a) => seq![a],
            Operation::Pow(_, a) => seq![a],
            Operation::Log(_, a) => seq![a],
        }
    }

    pub open spec fn is_leaf(self) -> bool {
        self is Value
    }

    pub fn id(&self) -> (r: u64)
        ensures
            r == self.id_of(),
    {
        match *self {
            Operation::Value(id) => id,
            Operation::Add(id, _, _) => id,
            Operation::Sub(id, _, _) => id,
            Operation::Mul(id, _, _) => id,
            Operation::Div(id, _, _) => id,
            Operation::Ln(id, _) => id,
            Operation::Sin(id, _) => id,
            Operation::Cos(id, _) => id,
            Operation::Exp(id, _) => id,
            Operation::Sqrt(id, _) => id,
            Operation::Pow(id, _) => id,
            Operation::Log(id, _) => id,
        }
    }

    pub fn operand_ids(&self) -> (r: Vec<u64>)
        ensures
            r@ == self.operands(),
    {
        match *self {
            Operation::Value(_) => vec![],
            Operation::Add(_, a, b) => vec![a, b],
            Operation::Sub(_, a, b) => vec![a, b],
            Operation::Mul(_, a, b) => vec![a, b],
            Operation::Div(_, a, b) => vec![a, b],
            Operation::Ln(_, a) => vec![a],
            Operation::Sin(_, a) => vec![a],
            Operation::Cos(_, a) => vec![a],
            Operation::Exp(_, a) => vec![a],
            Operation::Sqrt(_, a) => vec![a],
            Operation::Pow(_, a) => vec![a],
            Operation::Log(_, a) => vec![a],
        }
    }

    pub fn is_value(&self) -> (r: bool)
        ensures
            r == self.is_leaf(),
    {
        match *self {
            Operation::Value(_) => true,
            _ => false,
        }
    }
}

/// `[d]` when the operand position holds the node, else nothing.
pub open spec fn partial_if(holds: bool, d: Partial) -> Seq<Partial> {
    if holds {
        seq![d]
    } else {
        seq![]
    }
}

/// The local partial derivatives of `op` with respect to node `n`: one for
/// each operand position of `op` that holds `n`, in operand order.
pub open spec fn local_partials(op: Operation, n: u64) -> Seq<Partial> {
    match op {
        Operation::Value(_) => seq![],
        Operation::Add(_, a, b) => partial_if(a == n, Partial::One) + partial_if(
            b == n,
            Partial::One,
        ),
        Operation::Sub(_, a, b) => partial_if(a == n, Partial::One) + partial_if(
            b == n,
            Partial::MinusOne,
        ),
        Operation::Mul(_, a, b) => partial_if(a == n, Partial::ValueOf(b)) + partial_if(
            b == n,
            Partial::ValueOf(a),
        ),
        Operation::Div(_, a, b) => partial_if(a == n, Partial::ReciprocalOf(b)) + partial_if(
            b == n,
            Partial::NegQuotient(a, b),
        ),
        Operation::Ln(_, a) => partial_if(a == n, Partial::ReciprocalOf(a)),
        Operation::Sin(_, a) => partial_if(a == n, Partial::CosOf(a)),
        Operation::Cos(_, a) => partial_if(a == n, Partial::NegSinOf(a)),
        Operation::Exp(p, a) => partial_if(a == n, Partial::ValueOf(p)),
        Operation::Sqrt(p, a) => partial_if(a == n, Partial::HalfReciprocalOf(p)),
        Operation::Pow(p, a) => partial_if(a == n, Partial::PowerRule(p, a)),
        Operation::Log(p, a) => partial_if(a == n, Partial::LogRule(p, a)),
    }
}

fn push_if(v: &mut Vec<Partial>, holds: bool, d: Partial)
    ensures
        final(v)@ == old(v)@ + partial_if(holds, d),
{
    if holds {
        v.push(d);
    }
    proof {
        if !holds {
            assert(final(v)@ =~= old(v)@ + partial_if(holds, d));
        }
    }
}

/// The local partial derivatives of `op` with respect to node `n`.
pub fn local_partials_of(op: &Operation, n: u64) -> (r: Vec<Partial>)
    ensures
        r@ == local_partials(*op, n),
{
    let mut r: Vec<Partial> = Vec::new();
    match *op {
        Operation::Value(_) => {},
        Operation::Add(_, a, b) => {
            push_if(&mut r, a == n, Partial::One);
            push_if(&mut r, b == n, Partial::One);
        },
        Operation::Sub(_, a, b) => {
            push_if(&mut r, a == n, Partial::One);
            push_if(&mut r, b == n, Partial::MinusOne);
        },
        Operation::Mul(_, a, b) => {
            push_if(&mut r, a == n, Partial::ValueOf(b));
            push_if(&mut r, b == n, Partial::ValueOf(a));
        },
        Operation::Div(_, a, b) => {
            push_if(&mut r, a == n, Partial::ReciprocalOf(b));
            push_if(&mut r, b == n, Partial::NegQuotient(a, b));
        },
        Operation::Ln(_, a) => push_if(&mut r, a == n, Partial::ReciprocalOf(a)),
        Operation::Sin(_, a) => push_if(&mut r, a == n, Partial::CosOf(a)),
        Operation::Cos(_, a) => push_if(&mut r, a == n, Partial::NegSinOf(a)),
        Operation::Exp(p, a) => push_if(&mut r, a == n, Partial::ValueOf(p)),
        Operation::Sqrt(p, a) => push_if(&mut r, a == n, Partial::HalfReciprocalOf(p)),
        Operation::Pow(p, a) => push_if(&mut r, a == n, Partial::PowerRule(p, a)),
        Operation::Log(p, a) => push_if(&mut r, a == n, Partial::LogRule(p, a)),
    }
    proof {
        assert(r@ =~= local_partials(*op, n));
    }
    r
}

} // verus!
