//! Constraint-based reconstruction and analysis of metabolic networks.
//!
//! A metabolic network (metabolites, reactions with stoichiometric
//! coefficients, flux bounds given through parameters) is turned into the
//! parts of a linear program: one bounded variable per reaction and one
//! steady-state balance per metabolite. Flux Balance Analysis maximises the
//! objective reaction over that program; Flux Variability Analysis freezes the
//! objective at its optimum and brackets every other flux.
pub mod document;
pub mod flux_analysis;
pub mod formulation;
pub mod model;
pub mod number;

pub use model::ModelLp;
