//! The records that a parsed network document hands to the model: species,
//! parameters, reactions and the objective.
use vstd::prelude::*;

use crate::number::Real;

verus! {

/// A chemical species (a metabolite) of the network.
#[derive(Clone, Debug)]
pub struct Species {
    pub id: String,
    pub compartment: String,
}

/// A model-wide parameter; reactions name one to give a flux bound.
#[derive(Clone, Debug)]
pub struct Parameter {
    pub id: String,
    pub value: Option<Real>,
    pub constant: bool,
}

/// A metabolite taking part in a reaction, with its stoichiometric
/// coefficient (`1` where the document gives none).
#[derive(Clone, Debug)]
pub struct SpeciesReference {
    pub species: String,
    pub stoichiometry: Option<Real>,
}

/// A reaction as the document states it: bounds are still parameter names.
#[derive(Clone, Debug)]
pub struct Reaction {
    pub id: String,
    pub compartment: Option<String>,
    pub lower_bound: Option<String>,
    pub upper_bound: Option<String>,
    pub reactants: Vec<SpeciesReference>,
    pub products: Vec<SpeciesReference>,
}

/// A whole parsed document.
#[derive(Clone, Debug)]
pub struct Document {
    pub id: Option<String>,
    pub name: Option<String>,
    pub species: Vec<Species>,
    pub reactions: Vec<Reaction>,
    pub parameters: Vec<Parameter>,
    /// Candidate objective reactions; the first one is used.
    pub objectives: Vec<String>,
}

/// No two reactions share an id.
pub open spec fn reaction_ids_distinct(reactions: Seq<Reaction>) -> bool {
    forall|i: int, j: int|
        0 <= i < reactions.len() && 0 <= j < reactions.len() && i != j
            ==> reactions[i].id@ != reactions[j].id@
}

impl Document {
    /// A document keys its reactions by id and names at least one objective.
    pub open spec fn well_formed(&self) -> bool {
        &&& reaction_ids_distinct(self.reactions@)
        &&& self.objectives@.len() > 0
    }

    /// Whether the document is well formed.
    pub fn is_well_formed(&self) -> (r: bool)
        ensures
            r == self.well_formed(),
    {
        if self.objectives.len() == 0 {
            return false;
        }
        let n = self.reactions.len();
        let mut i: usize = 0;
        while i < n
            invariant
                n == self.reactions@.len(),
                i <= n,
                forall|a: int, b: int|
                    0 <= a < i && 0 <= b < n && a != b ==> self.reactions@[a].id@
                        != self.reactions@[b].id@,
            decreases n - i,
        {
            let mut j: usize = 0;
            while j < n
                invariant
                    n == self.reactions@.len(),
                    i < n,
                    j <= n,
                    forall|b: int| 0 <= b < j && b != i ==> self.reactions@[i as int].id@
                        != self.reactions@[b].id@,
                decreases n - j,
            {
                if j != i && self.reactions[i].id == self.reactions[j].id {
                    return false;
                }
                j += 1;
            }
            i += 1;
        }
        true
    }
}

} // verus!
