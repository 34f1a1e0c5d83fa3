use vstd::prelude::*;

verus! {

/// Whether a ledger entry records money going out or coming in.
#[derive(Copy, Clone, PartialEq, Eq, Structural, Debug)]
pub enum Kind {
    Expense,
    Income,
}

/// The integer that stands for a kind in the persisted table.
pub open spec fn kind_code(k: Kind) -> int {
    match k {
        Kind::Expense => 0,
        Kind::Income => 1,
    }
}

/// The kind that a stored integer stands for: zero is an expense, anything else income.
pub open spec fn kind_of_code(v: int) -> Kind {
    if v == 0 {
        Kind::Expense
    } else {
        Kind::Income
    }
}

impl Kind {
    pub fn to_i64(self) -> (r: i64)
        ensures
            r == kind_code(self),
    {
        match self {
            Kind::Expense => 0,
            Kind::Income => 1,
        }
    }

    pub fn from_i64(v: i64) -> (r: Kind)
        ensures
            r == kind_of_code(v as int),
    {
        if v == 0 {
            Kind::Expense
        } else {
            Kind::Income
        }
    }
}

} // verus!
