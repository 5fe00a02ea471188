//! How much work one request may cause.
use vstd::prelude::*;

verus! {

/// The most that one request may look at and hold.
#[derive(Clone, Copy, Debug, PartialEq, Eq, Structural)]
pub struct QueryLimits {
    pub items: usize,
    pub bytes: usize,
}

/// Why a folder is not read to its end.
#[derive(Clone, Copy, Debug, PartialEq, Eq, Structural)]
pub enum ProjectionStopped {
    /// The catalog changed.
    Changed,
    /// It takes more items, bytes or time than one request may.
    Budget,
}

/// The number, or the largest `usize` where it is larger.
pub open spec fn capped(n: nat) -> usize {
    if n <= usize::MAX {
        n as usize
    } else {
        usize::MAX
    }
}

/// The product, or the largest `usize` where it is larger.
pub fn times(a: usize, b: usize) -> (product: usize)
    ensures
        product == capped((a * b) as nat),
{
    proof {
        assert(0 <= a * b) by (nonlinear_arith);
    }
    match a.checked_mul(b) {
        Some(product) => product,
        None => usize::MAX,
    }
}

/// Looks whether a number of items may be looked at.
pub fn check_items(limits: QueryLimits, items: usize) -> (result: Result<(), ProjectionStopped>)
    ensures
        result == if items <= limits.items {
            Ok::<(), ProjectionStopped>(())
        } else {
            Err(ProjectionStopped::Budget)
        },
{
    if items <= limits.items {
        Ok(())
    } else {
        Err(ProjectionStopped::Budget)
    }
}

/// What a request holds, and the most that it may.
#[derive(Clone, Copy, Debug, PartialEq, Eq, Structural)]
pub struct WorkBudget {
    pub spent: usize,
    pub limit: usize,
}

impl WorkBudget {
    /// Whether nothing is held beyond the limit.
    pub open spec fn holds(self) -> bool {
        self.spent <= self.limit
    }

    /// The budget after more bytes are held.
    pub open spec fn after(self, bytes: nat) -> WorkBudget {
        WorkBudget { spent: capped((self.spent + bytes) as nat), limit: self.limit }
    }

    /// Holds more bytes, unless they pass the limit.
    pub fn charge(&mut self, bytes: usize) -> (result: Result<(), ProjectionStopped>)
        ensures
            match result {
                Ok(_) => *final(self) == old(self).after(bytes as nat) && final(self).holds(),
                Err(stopped) => {
                    &&& stopped == ProjectionStopped::Budget
                    &&& !old(self).after(bytes as nat).holds()
                    &&& *final(self) == *old(self)
                },
            },
    {
        let spent: usize = self.spent.saturating_add(bytes);
        if spent <= self.limit {
            self.spent = spent;
            Ok(())
        } else {
            Err(ProjectionStopped::Budget)
        }
    }
}

// -------------------------------------------------------------------- laws

/// Bytes that are held one after the other cost what they cost together.
pub proof fn law_charges_add_up(budget: WorkBudget, first: nat, second: nat)
    ensures
        budget.after(first).after(second) == budget.after(first + second),
{
}

/// What passes the limit once passes it with more, too.
pub proof fn law_a_passed_limit_stays_passed(budget: WorkBudget, first: nat, more: nat)
    requires
        !budget.after(first).holds(),
    ensures
        !budget.after(first + more).holds(),
{
}

} // verus!
