//! The network model: reaction records with resolved flux bounds.
use vstd::prelude::*;

use crate::document::{reaction_ids_distinct, Document, Parameter, Reaction, Species, SpeciesReference};
use crate::number::Real;

verus! {

/// Bit pattern of `-1000.0`, the lower bound used when neither the reaction
/// nor the model gives one.
pub const FALLBACK_LOWER_BITS: u64 = 0xc08f_4000_0000_0000;

/// Bit pattern of `1000.0`, the upper bound used when neither the reaction
/// nor the model gives one.
pub const FALLBACK_UPPER_BITS: u64 = 0x408f_4000_0000_0000;

/// An inconsistency of the network document.
#[derive(Clone, Debug)]
pub enum SbmlError {
    /// A reaction names a parameter that the model does not have.
    InconsistentModel { param: String },
    /// A parameter is used for its value but holds none.
    EmptyParameter { param: String },
    /// The objective names a reaction that the model does not have.
    InconsistentObjective { obj: String },
}

/// [`SbmlError`] with its names as character sequences.
pub enum ErrorView {
    InconsistentModel { param: Seq<char> },
    EmptyParameter { param: Seq<char> },
    InconsistentObjective { obj: Seq<char> },
}

impl View for SbmlError {
    type V = ErrorView;

    open spec fn view(&self) -> ErrorView {
        match self {
            SbmlError::InconsistentModel { param } => ErrorView::InconsistentModel {
                param: param@,
            },
            SbmlError::EmptyParameter { param } => ErrorView::EmptyParameter { param: param@ },
            SbmlError::InconsistentObjective { obj } => ErrorView::InconsistentObjective {
                obj: obj@,
            },
        }
    }
}

/// A result with its error seen through [`ErrorView`].
pub open spec fn result_view<T>(r: Result<T, SbmlError>) -> Result<T, ErrorView> {
    match r {
        Ok(v) => Ok(v),
        Err(e) => Err(e@),
    }
}

/// Which end of a reaction's flux range a bound is.
#[derive(Clone, Copy, Debug, PartialEq, Eq, Structural)]
pub enum Side {
    Lower,
    Upper,
}

/// The name of the model-wide parameter that gives a bound by default.
pub open spec fn default_parameter(side: Side) -> Seq<char> {
    match side {
        Side::Lower => "cobra_default_lb"@,
        Side::Upper => "cobra_default_ub"@,
    }
}

/// The bound used when neither the reaction nor the model gives one:
/// `-1000` below, `1000` above.
pub open spec fn fallback(side: Side) -> Real {
    match side {
        Side::Lower => Real { bits: FALLBACK_LOWER_BITS },
        Side::Upper => Real { bits: FALLBACK_UPPER_BITS },
    }
}

/// The first parameter called `id`, if any.
pub open spec fn lookup_parameter(params: Seq<Parameter>, id: Seq<char>) -> Option<Parameter>
    decreases params.len(),
{
    if params.len() == 0 {
        None
    } else if params[0].id@ == id {
        Some(params[0])
    } else {
        lookup_parameter(params.drop_first(), id)
    }
}

/// The bound of `side` for a reaction that names the parameter `reference`
/// (or none).
///
/// A named parameter must exist and hold a value. Without a name the model's
/// default parameter is used; it too must hold a value if it exists, and
/// where it does not exist the fixed fallback applies.
pub open spec fn resolved_bound(
    reference: Option<Seq<char>>,
    params: Seq<Parameter>,
    side: Side,
) -> Result<Real, ErrorView> {
    match reference {
        Some(name) => match lookup_parameter(params, name) {
            None => Err(ErrorView::InconsistentModel { param: name }),
            Some(p) => match p.value {
                Some(v) => Ok(v),
                None => Err(ErrorView::EmptyParameter { param: name }),
            },
        },
        None => match lookup_parameter(params, default_parameter(side)) {
            None => Ok(fallback(side)),
            Some(p) => match p.value {
                Some(v) => Ok(v),
                None => Err(ErrorView::EmptyParameter { param: default_parameter(side) }),
            },
        },
    }
}

/// The position of the first parameter called `id`.
pub fn find_parameter(params: &Vec<Parameter>, id: &String) -> (r: Option<usize>)
    ensures
        match r {
            Some(i) => i < params@.len() && lookup_parameter(params@, id@) == Some(params@[i as int]),
            None => lookup_parameter(params@, id@) == None::<Parameter>,
        },
{
    let n = params.len();
    let mut i: usize = 0;
    assert(params@.skip(0) =~= params@);
    while i < n
        invariant
            n == params@.len(),
            i <= n,
            lookup_parameter(params@, id@) == lookup_parameter(params@.skip(i as int), id@),
        decreases n - i,
    {
        assert(params@.skip(i as int).drop_first() =~= params@.skip(i + 1));
        if params[i].id == *id {
            return Some(i);
        }
        i += 1;
    }
    None
}

/// The value of the named parameter, or the error that the name leads to.
fn parameter_value(params: &Vec<Parameter>, name: &String) -> (r: Result<Real, SbmlError>)
    ensures
        result_view(r) == match lookup_parameter(params@, name@) {
            None => Err(ErrorView::InconsistentModel { param: name@ }),
            Some(p) => match p.value {
                Some(v) => Ok(v),
                None => Err(ErrorView::EmptyParameter { param: name@ }),
            },
        },
{
    match find_parameter(params, name) {
        None => Err(SbmlError::InconsistentModel { param: name.clone() }),
        Some(i) => match params[i].value {
            Some(v) => Ok(v),
            None => Err(SbmlError::EmptyParameter { param: name.clone() }),
        },
    }
}

/// Resolves one flux bound of a reaction.
pub fn resolve_bound(reference: &Option<String>, params: &Vec<Parameter>, side: Side) -> (r:
    Result<Real, SbmlError>)
    ensures
        result_view(r) == resolved_bound(
            match reference {
                Some(s) => Some(s@),
                None => None,
            },
            params@,
            side,
        ),
{
    match reference {
        Some(name) => parameter_value(params, name),
        None => {
            let default_name = match side {
                Side::Lower => "cobra_default_lb".to_owned(),
                Side::Upper => "cobra_default_ub".to_owned(),
            };
            match find_parameter(params, &default_name) {
                None => match side {
                    Side::Lower => Ok(Real::from_bits(FALLBACK_LOWER_BITS)),
                    Side::Upper => Ok(Real::from_bits(FALLBACK_UPPER_BITS)),
                },
                Some(i) => match params[i].value {
                    Some(v) => Ok(v),
                    None => Err(SbmlError::EmptyParameter { param: default_name }),
                },
            }
        },
    }
}

/// A reaction with both flux bounds resolved to numbers.
#[derive(Clone, Debug)]
pub struct ReactionLp {
    /// lower bound of the flux
    pub lb: Real,
    /// upper bound of the flux
    pub ub: Real,
    /// the reaction's id followed by `_` and its compartment (if any)
    pub id: String,
    pub reactants: Vec<SpeciesReference>,
    pub products: Vec<SpeciesReference>,
}

/// The id of a reaction, disambiguated by its compartment.
pub open spec fn qualified_id(reaction: Reaction) -> Seq<char> {
    reaction.id@ + "_"@ + match reaction.compartment {
        Some(c) => c@,
        None => Seq::<char>::empty(),
    }
}

/// The bound reference of `side` as a character sequence.
pub open spec fn bound_reference(reaction: Reaction, side: Side) -> Option<Seq<char>> {
    match side {
        Side::Lower => match reaction.lower_bound {
            Some(s) => Some(s@),
            None => None,
        },
        Side::Upper => match reaction.upper_bound {
            Some(s) => Some(s@),
            None => None,
        },
    }
}

/// The error that keeps `reaction` from becoming a record, if any; the lower
/// bound is resolved first.
#[verifier::opaque]
pub open spec fn reaction_error(reaction: Reaction, params: Seq<Parameter>) -> Option<ErrorView> {
    match resolved_bound(bound_reference(reaction, Side::Lower), params, Side::Lower) {
        Err(e) => Some(e),
        Ok(_) => match resolved_bound(bound_reference(reaction, Side::Upper), params, Side::Upper) {
            Err(e) => Some(e),
            Ok(_) => None,
        },
    }
}

/// `record` is `reaction` with both bounds resolved against `params`.
#[verifier::opaque]
pub open spec fn is_record_of(record: ReactionLp, reaction: Reaction, params: Seq<Parameter>) -> bool {
    &&& resolved_bound(bound_reference(reaction, Side::Lower), params, Side::Lower) == Ok::<
        Real,
        ErrorView,
    >(record.lb)
    &&& resolved_bound(bound_reference(reaction, Side::Upper), params, Side::Upper) == Ok::<
        Real,
        ErrorView,
    >(record.ub)
    &&& record.id@ == qualified_id(reaction)
    &&& record.reactants@ == reaction.reactants@
    &&& record.products@ == reaction.products@
}

impl ReactionLp {
    /// Resolves the bounds of `reaction` against the model's parameters.
    pub fn from_reaction(reaction: Reaction, parameters: &Vec<Parameter>) -> (r: Result<
        ReactionLp,
        SbmlError,
    >)
        ensures
            match r {
                Ok(record) => reaction_error(reaction, parameters@) == None::<ErrorView>
                    && is_record_of(record, reaction, parameters@),
                Err(e) => reaction_error(reaction, parameters@) == Some(e@),
            },
    {
        reveal(reaction_error);
        reveal(is_record_of);
        let lb = match resolve_bound(&reaction.lower_bound, parameters, Side::Lower) {
            Ok(v) => v,
            Err(e) => return Err(e),
        };
        let ub = match resolve_bound(&reaction.upper_bound, parameters, Side::Upper) {
            Ok(v) => v,
            Err(e) => return Err(e),
        };
        let mut id = reaction.id.clone();
        id.append("_");
        match &reaction.compartment {
            Some(c) => id.append(c.as_str()),
            None => {},
        }
        proof {
            assert(id@ =~= qualified_id(reaction));
        }
        Ok(ReactionLp { lb, ub, id, reactants: reaction.reactants, products: reaction.products })
    }
}

/// A metabolic network with every reaction's bounds resolved.
///
/// Reactions are kept in the document's order, keyed by their id; the
/// position of a reaction is the column of its flux in the linear program.
#[derive(Clone, Debug)]
pub struct ModelLp {
    pub id: String,
    pub name: String,
    pub metabolites: Vec<Species>,
    pub reactions: Vec<(String, ReactionLp)>,
    pub config: Vec<Parameter>,
    /// The reaction whose flux is optimised.
    pub objective: String,
}

/// No two entries share a key.
pub open spec fn keys_distinct(reactions: Seq<(String, ReactionLp)>) -> bool {
    forall|i: int, j: int|
        0 <= i < reactions.len() && 0 <= j < reactions.len() && i != j ==> reactions[i].0@
            != reactions[j].0@
}

/// `key` is the key of some reaction.
pub open spec fn has_key(reactions: Seq<(String, ReactionLp)>, key: Seq<char>) -> bool {
    exists|i: int| 0 <= i < reactions.len() && reactions[i].0@ == key
}

/// An optional name, or the empty string.
pub open spec fn name_or_empty(s: Option<String>) -> Seq<char> {
    match s {
        Some(s) => s@,
        None => Seq::<char>::empty(),
    }
}

/// The reactions of the document that are loaded without an error.
pub open spec fn loads(doc: Document) -> bool {
    forall|i: int|
        0 <= i < doc.reactions@.len() ==> reaction_error(doc.reactions@[i], doc.parameters@)
            == None::<ErrorView>
}

/// `e` is the error of the first reaction of the document that fails.
pub open spec fn is_first_load_error(doc: Document, e: ErrorView) -> bool {
    exists|i: int|
        0 <= i < doc.reactions@.len() && reaction_error(doc.reactions@[i], doc.parameters@) == Some(
            e,
        ) && forall|j: int|
            0 <= j < i ==> reaction_error(doc.reactions@[j], doc.parameters@) == None::<ErrorView>
}

impl ModelLp {
    /// Reaction keys are unique.
    pub open spec fn well_formed(&self) -> bool {
        keys_distinct(self.reactions@)
    }

    /// `self` is what `doc` loads to.
    pub open spec fn is_model_of(&self, doc: Document) -> bool {
        &&& self.well_formed()
        &&& self.id@ == name_or_empty(doc.id)
        &&& self.name@ == name_or_empty(doc.name)
        &&& self.metabolites@ == doc.species@
        &&& self.config@ == doc.parameters@
        &&& self.objective@ == doc.objectives@[0]@
        &&& self.reactions@.len() == doc.reactions@.len()
        &&& forall|i: int|
            0 <= i < doc.reactions@.len() ==> {
                &&& (#[trigger] self.reactions@[i]).0@ == doc.reactions@[i].id@
                &&& is_record_of(self.reactions@[i].1, doc.reactions@[i], doc.parameters@)
            }
    }

    /// Loads a parsed document, resolving the flux bounds of every reaction.
    ///
    /// Fails with the error of the first reaction (in document order) whose
    /// bounds cannot be resolved.
    pub fn new(doc: Document) -> (r: Result<ModelLp, SbmlError>)
        requires
            doc.well_formed(),
        ensures
            match r {
                Ok(m) => loads(doc) && m.is_model_of(doc),
                Err(e) => is_first_load_error(doc, e@),
            },
    {
        let ghost d = doc;
        let Document { id, name, species, reactions: source, parameters, objectives } = doc;
        let mut reactions: Vec<(String, ReactionLp)> = Vec::new();
        for reaction in it: source
            invariant
                d == doc,
                it.seq() == d.reactions@,
                parameters@ == d.parameters@,
                reaction_ids_distinct(d.reactions@),
                reactions@.len() == it.index(),
                forall|k: int|
                    0 <= k < it.index() ==> {
                        &&& (#[trigger] reactions@[k]).0@ == d.reactions@[k].id@
                        &&& is_record_of(reactions@[k].1, d.reactions@[k], d.parameters@)
                        &&& reaction_error(d.reactions@[k], d.parameters@) == None::<ErrorView>
                    },
        {
            let key = reaction.id.clone();
            match ReactionLp::from_reaction(reaction, &parameters) {
                Ok(record) => reactions.push((key, record)),
                Err(e) => {
                    proof {
                        assert(is_first_load_error(d, e@)) by {
                            let k = it.index() as int;
                            assert(0 <= k < d.reactions@.len());
                            assert(reaction == d.reactions@[k]);
                            assert(reaction_error(d.reactions@[k], d.parameters@) == Some(e@));
                            assert forall|j: int| 0 <= j < k implies reaction_error(
                                d.reactions@[j],
                                d.parameters@,
                            ) == None::<ErrorView> by {
                                assert(reactions@[j].0@ == d.reactions@[j].id@);
                            }
                        }
                    }
                    return Err(e);
                },
            }
        }
        proof {
            assert forall|a: int, b: int|
                0 <= a < reactions@.len() && 0 <= b < reactions@.len() && a != b implies reactions@[a].0@
                    != reactions@[b].0@ by {
                assert(reactions@[a].0@ == d.reactions@[a].id@);
                assert(reactions@[b].0@ == d.reactions@[b].id@);
            }
            assert(keys_distinct(reactions@));
            assert(loads(d)) by {
                assert forall|k: int| 0 <= k < d.reactions@.len() implies reaction_error(
                    d.reactions@[k],
                    d.parameters@,
                ) == None::<ErrorView> by {
                    assert(reactions@[k].0@ == d.reactions@[k].id@);
                }
            }
        }
        let objective = objectives[0].clone();
        let id = match id {
            Some(s) => s,
            None => String::new(),
        };
        let name = match name {
            Some(s) => s,
            None => String::new(),
        };
        Ok(ModelLp { id, name, metabolites: species, reactions, config: parameters, objective })
    }
}

/// `k` is the position of the first reaction keyed `key`.
pub open spec fn is_column(reactions: Seq<(String, ReactionLp)>, key: Seq<char>, k: int) -> bool {
    &&& 0 <= k < reactions.len()
    &&& reactions[k].0@ == key
    &&& forall|j: int| 0 <= j < k ==> reactions[j].0@ != key
}

/// `r` with its flux pinned to `v`.
pub open spec fn pinned(r: ReactionLp, v: Real) -> ReactionLp {
    ReactionLp { lb: v, ub: v, ..r }
}

impl ModelLp {
    /// `self` is `before` with the flux of the objective reaction pinned to
    /// `value`.
    pub open spec fn is_pinned_from(&self, before: ModelLp, value: Real) -> bool {
        &&& exists|k: int|
            is_column(before.reactions@, before.objective@, k) && self.reactions@
                == before.reactions@.update(k, (before.reactions@[k].0, pinned(before.reactions@[k].1, value)))
        &&& self.id == before.id
        &&& self.name == before.name
        &&& self.metabolites == before.metabolites
        &&& self.config == before.config
        &&& self.objective == before.objective
    }

    /// The position (and so the variable) of the reaction keyed `key`.
    pub fn find_reaction(&self, key: &String) -> (r: Option<usize>)
        ensures
            match r {
                Some(k) => is_column(self.reactions@, key@, k as int),
                None => !has_key(self.reactions@, key@),
            },
    {
        let n = self.reactions.len();
        let mut k: usize = 0;
        while k < n
            invariant
                n == self.reactions@.len(),
                k <= n,
                forall|j: int| 0 <= j < k ==> self.reactions@[j].0@ != key@,
            decreases n - k,
        {
            if self.reactions[k].0 == *key {
                return Some(k);
            }
            k += 1;
        }
        None
    }

    /// The reaction keyed `key`, if any.
    pub fn reaction(&self, key: &String) -> (r: Option<&ReactionLp>)
        ensures
            match r {
                Some(rec) => exists|k: int| is_column(self.reactions@, key@, k) && *rec == self.reactions@[k].1,
                None => !has_key(self.reactions@, key@),
            },
    {
        match self.find_reaction(key) {
            Some(k) => Some(&self.reactions[k].1),
            None => None,
        }
    }

    /// The variable of the objective reaction.
    pub fn get_objective(&self) -> (r: Result<usize, SbmlError>)
        ensures
            match r {
                Ok(k) => is_column(self.reactions@, self.objective@, k as int),
                Err(e) => !has_key(self.reactions@, self.objective@) && e@
                    == ErrorView::InconsistentObjective { obj: self.objective@ },
            },
    {
        match self.find_reaction(&self.objective) {
            Some(k) => Ok(k),
            None => Err(SbmlError::InconsistentObjective { obj: self.objective.clone() }),
        }
    }

    /// The record of the objective reaction.
    pub fn get_objective_reaction(&self) -> (r: Result<&ReactionLp, SbmlError>)
        ensures
            match r {
                Ok(rec) => exists|k: int|
                    is_column(self.reactions@, self.objective@, k) && *rec == self.reactions@[k].1,
                Err(e) => !has_key(self.reactions@, self.objective@) && e@
                    == ErrorView::InconsistentObjective { obj: self.objective@ },
            },
    {
        match self.get_objective() {
            Ok(k) => Ok(&self.reactions[k].1),
            Err(e) => Err(e),
        }
    }

    /// Pins the flux of the objective reaction to `value`: both of its bounds
    /// become `value`. Nothing else changes.
    pub fn fix_objective(&mut self, value: Real) -> (r: Result<(), SbmlError>)
        ensures
            match r {
                Ok(()) => final(self).is_pinned_from(*old(self), value),
                Err(e) => !has_key(old(self).reactions@, old(self).objective@) && e@
                    == ErrorView::InconsistentObjective { obj: old(self).objective@ }
                    && *final(self) == *old(self),
            },
    {
        let k = match self.get_objective() {
            Ok(k) => k,
            Err(e) => return Err(e),
        };
        self.reactions[k].1.lb = value;
        self.reactions[k].1.ub = value;
        proof {
            assert(self.reactions@ =~= old(self).reactions@.update(
                k as int,
                (old(self).reactions@[k as int].0, pinned(old(self).reactions@[k as int].1, value)),
            ));
        }
        Ok(())
    }
}

/// Every parameter that holds a value holds a finite one.
pub open spec fn parameters_finite(params: Seq<Parameter>) -> bool {
    forall|i: int|
        0 <= i < params.len() ==> match (#[trigger] params[i]).value {
            Some(v) => v.spec_is_finite(),
            None => true,
        }
}

/// What a lookup finds is one of the parameters.
proof fn lemma_lookup_member(params: Seq<Parameter>, id: Seq<char>)
    ensures
        match lookup_parameter(params, id) {
            Some(p) => exists|i: int| 0 <= i < params.len() && params[i] == p,
            None => true,
        },
    decreases params.len(),
{
    if params.len() > 0 && params[0].id@ != id {
        lemma_lookup_member(params.drop_first(), id);
        if let Some(p) = lookup_parameter(params.drop_first(), id) {
            let i = choose|i: int| 0 <= i < params.drop_first().len() && params.drop_first()[i] == p;
            assert(params[i + 1] == p);
        }
    }
}

/// A bound that resolves is finite when every parameter value is.
proof fn lemma_resolved_finite(reference: Option<Seq<char>>, params: Seq<Parameter>, side: Side)
    requires
        parameters_finite(params),
    ensures
        match resolved_bound(reference, params, side) {
            Ok(v) => v.spec_is_finite(),
            Err(_) => true,
        },
{
    let name = match reference {
        Some(n) => n,
        None => default_parameter(side),
    };
    lemma_lookup_member(params, name);
    if let Some(p) = lookup_parameter(params, name) {
        let i = choose|i: int| 0 <= i < params.len() && params[i] == p;
        assert(match params[i].value {
            Some(v) => v.spec_is_finite(),
            None => true,
        });
    }
    assert((0xc08f_4000_0000_0000u64 >> 52u64) & 0x7ffu64 != 0x7ffu64) by (bit_vector);
    assert((0x408f_4000_0000_0000u64 >> 52u64) & 0x7ffu64 != 0x7ffu64) by (bit_vector);
}

/// Loaded from a document whose parameter values are all finite, every
/// reaction has finite lower and upper bounds: no bound is left unresolved.
pub proof fn lemma_loaded_bounds_finite(doc: Document, m: ModelLp)
    requires
        m.is_model_of(doc),
        parameters_finite(doc.parameters@),
    ensures
        forall|i: int|
            0 <= i < m.reactions@.len() ==> (#[trigger] m.reactions@[i]).1.lb.spec_is_finite()
                && m.reactions@[i].1.ub.spec_is_finite(),
{
    reveal(is_record_of);
    assert forall|i: int| 0 <= i < m.reactions@.len() implies (#[trigger] m.reactions@[i]).1.lb.spec_is_finite()
        && m.reactions@[i].1.ub.spec_is_finite() by {
        let r = doc.reactions@[i];
        assert(is_record_of(m.reactions@[i].1, r, doc.parameters@));
        lemma_resolved_finite(bound_reference(r, Side::Lower), doc.parameters@, Side::Lower);
        lemma_resolved_finite(bound_reference(r, Side::Upper), doc.parameters@, Side::Upper);
    }
}

} // verus!
