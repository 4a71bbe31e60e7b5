use vstd::prelude::*;
use crate::ledger::ItemType;
use crate::money::Money;

verus! {

/// An employee: the agent whose wallet receives the salary, and the
/// salary paid each day.
#[derive(PartialEq, Eq, Structural, Clone, Copy, Debug)]
pub struct Worker {
    pub agent: usize,
    pub salary: Money,
}

/// A quantity of one item type.
#[derive(PartialEq, Eq, Structural, Clone, Copy, Debug)]
pub struct Stack {
    pub item: ItemType,
    pub quantity: u64,
}

/// A production recipe: the inputs consumed and the output made by one
/// cycle, and the workforce that a cycle needs.
pub struct ProductionCycle {
    pub inputs: Vec<Stack>,
    pub output: Stack,
    pub workers_needed: usize,
}

impl ProductionCycle {
    /// Every item type is in the catalog, no input is named twice, and the
    /// output is not among the inputs.
    pub open spec fn wf(&self, n_items: nat) -> bool {
        &&& self.output.item.id < n_items
        &&& forall|k: int| 0 <= k < self.inputs@.len() ==> #[trigger] self.inputs@[k].item.id < n_items
        &&& forall|k: int| 0 <= k < self.inputs@.len() ==> #[trigger] self.inputs@[k].item != self.output.item
        &&& forall|k: int, l: int|
            0 <= k < l < self.inputs@.len() ==> #[trigger] self.inputs@[k].item != #[trigger] self.inputs@[l].item
    }

    /// Units of item type `t` that one cycle consumes.
    pub open spec fn consumed(&self, t: int) -> int {
        if exists|k: int| 0 <= k < self.inputs@.len() && #[trigger] self.inputs@[k].item.id == t {
            let k = choose|k: int| 0 <= k < self.inputs@.len() && #[trigger] self.inputs@[k].item.id == t;
            self.inputs@[k].quantity as int
        } else {
            0
        }
    }

    /// Units of item type `t` that one cycle makes.
    pub open spec fn produced(&self, t: int) -> int {
        if self.output.item.id == t {
            self.output.quantity as int
        } else {
            0
        }
    }
}

/// A producing agent: its wallet's agent, its roster of workers in hiring
/// order, and its recipe.
pub struct Manufacturer {
    pub agent: usize,
    pub hired_workers: Vec<Worker>,
    pub production_cycle: ProductionCycle,
}

} // verus!
