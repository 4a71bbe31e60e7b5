use vstd::prelude::*;

verus! {

/// An exact amount of currency, counted in its smallest unit.
#[derive(PartialEq, Eq, Structural, Clone, Copy, Debug)]
pub struct Money {
    pub units: u64,
}

impl Money {
    pub open spec fn value(self) -> nat {
        self.units as nat
    }

    pub fn new(units: u64) -> (r: Money)
        ensures
            r.units == units,
    {
        Money { units }
    }

    pub fn zero() -> (r: Money)
        ensures
            r.units == 0,
    {
        Money { units: 0 }
    }

    pub fn units(&self) -> (r: u64)
        ensures
            r == self.units,
    {
        self.units
    }

    /// The sum, or `None` where it does not fit.
    pub fn checked_add(self, other: Money) -> (r: Option<Money>)
        ensures
            r.is_some() <==> self.units + other.units <= u64::MAX,
            r.is_some() ==> r.unwrap().units == self.units + other.units,
    {
        match self.units.checked_add(other.units) {
            Some(u) => Some(Money { units: u }),
            None => None,
        }
    }

    /// The difference, or `None` where it would be negative.
    pub fn checked_sub(self, other: Money) -> (r: Option<Money>)
        ensures
            r.is_some() <==> other.units <= self.units,
            r.is_some() ==> r.unwrap().units == self.units - other.units,
    {
        if other.units <= self.units {
            Some(Money { units: self.units - other.units })
        } else {
            None
        }
    }

    /// The price of `quantity` units at this unit price, or `None` where it
    /// does not fit.
    pub fn checked_mul(self, quantity: u64) -> (r: Option<Money>)
        ensures
            r.is_some() <==> self.units * quantity <= u64::MAX,
            r.is_some() ==> r.unwrap().units == self.units * quantity,
    {
        match self.units.checked_mul(quantity) {
            Some(u) => Some(Money { units: u }),
            None => None,
        }
    }
}

} // verus!
