//! Catalogue data for the parts a board carries: plain records with no
//! simulation meaning.
use vstd::prelude::*;

verus! {

/// The electrical standard of a logic part's inputs or outputs.
#[derive(Debug, Clone, Copy, PartialEq, Eq, Structural)]
pub enum LogicSignalStandard {
    CMOS3V3,
    TTL,
    WideRange,
    TriState,
    TriState5v0,
}

/// What a logic part does.
#[derive(Debug, Clone, Copy, PartialEq, Eq, Structural)]
pub enum LogicFunction {
    XOR,
    Buffer,
    Decoder,
    Multiplexer,
}

/// The details every part shares: its labels, maker, pins and suppliers.
#[derive(Debug, Clone)]
pub struct PartDetails {
    pub label: String,
    pub manufacturer: String,
    pub description: String,
    pub comment: String,
    pub hide_pin_designators: bool,
    /// The part's pin numbers, each paired with the pin's name.
    pub pins: Vec<(u64, String)>,
    pub suppliers: Vec<String>,
    pub designator: String,
    pub size: String,
}

impl PartDetails {
    /// No pin number is listed twice, as in a map from pin number to pin.
    pub open spec fn wf(&self) -> bool {
        forall|i: int, j: int|
            0 <= i < j < self.pins@.len() ==> #[trigger] self.pins@[i].0 != #[trigger] self.pins@[j].0
    }

    /// Tests `wf`.
    pub fn pins_unique(&self) -> (r: bool)
        ensures
            r == self.wf(),
    {
        let n = self.pins.len();
        let mut j: usize = 0;
        while j < n
            invariant
                n == self.pins@.len(),
                j <= n,
                forall|a: int, b: int| 0 <= a < b < j ==> #[trigger] self.pins@[a].0 != #[trigger] self.pins@[b].0,
            decreases n - j,
        {
            let mut i: usize = 0;
            while i < j
                invariant
                    n == self.pins@.len(),
                    j < n,
                    i <= j,
                    forall|a: int| 0 <= a < i ==> #[trigger] self.pins@[a].0 != self.pins@[j as int].0,
                decreases j - i,
            {
                if self.pins[i].0 == self.pins[j].0 {
                    return false;
                }
                i = i + 1;
            }
            j = j + 1;
        }
        true
    }
}

} // verus!
