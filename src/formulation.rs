//! Translation of a model into the parts of a linear program: one bounded
//! variable per reaction and one steady-state balance per metabolite.
use vstd::prelude::*;

use crate::document::SpeciesReference;
use crate::model::{has_key, is_column, pinned, ErrorView, ModelLp, ReactionLp, SbmlError};
use crate::number::Real;

verus! {

/// Whether the objective is maximised or minimised.
#[derive(Clone, Copy, Debug, PartialEq, Eq, Structural)]
pub enum Direction {
    Maximise,
    Minimise,
}

/// The part a metabolite plays in a reaction.
#[derive(Clone, Copy, Debug, PartialEq, Eq, Structural)]
pub enum Role {
    Reactant,
    Product,
}

/// A continuous decision variable: the flux of one reaction.
#[derive(Clone, Debug)]
pub struct LpVariable {
    pub reaction: String,
    pub lower: Real,
    pub upper: Real,
}

/// `coefficient * x[variable]`, one summand of a balance.
#[derive(Clone, Copy, Debug, PartialEq, Eq, Structural)]
pub struct Term {
    pub variable: usize,
    pub coefficient: Real,
}

/// The steady-state constraint of one metabolite: its terms sum to zero.
#[derive(Clone, Debug)]
pub struct Balance {
    pub metabolite: String,
    pub terms: Vec<Term>,
}

/// A linear program over the fluxes of a model.
#[derive(Clone, Debug)]
pub struct LpProblem {
    pub variables: Vec<LpVariable>,
    pub constraints: Vec<Balance>,
    /// The variable to optimise.
    pub objective: usize,
    pub direction: Direction,
}

/// The stoichiometric coefficient of a reference, `1` where none is given.
pub open spec fn coefficient_or_one(s: SpeciesReference) -> Real {
    match s.stoichiometry {
        Some(c) => c,
        None => Real::spec_one(),
    }
}

/// The coefficient of a reference in its metabolite's balance: negated for
/// what a reaction consumes.
pub open spec fn signed_coefficient(s: SpeciesReference, role: Role) -> Real {
    match role {
        Role::Reactant => coefficient_or_one(s).spec_neg(),
        Role::Product => coefficient_or_one(s),
    }
}

/// The term that a reference contributes through the flux in `column`.
pub open spec fn term_of(s: SpeciesReference, column: int, role: Role) -> Term {
    Term { variable: column as usize, coefficient: signed_coefficient(s, role) }
}

/// The (metabolite, term) pairs of a list of references.
pub open spec fn reference_entries(refs: Seq<SpeciesReference>, column: int, role: Role) -> Seq<
    (Seq<char>, Term),
> {
    refs.map_values(|s: SpeciesReference| (s.species@, term_of(s, column, role)))
}

/// The (metabolite, term) pairs of one reaction: reactants, then products.
pub open spec fn reaction_entries(r: ReactionLp, column: int) -> Seq<(Seq<char>, Term)> {
    reference_entries(r.reactants@, column, Role::Reactant) + reference_entries(
        r.products@,
        column,
        Role::Product,
    )
}

/// The (metabolite, term) pairs of all reactions, in order; the reaction at
/// position `i` contributes through variable `i`.
pub open spec fn model_entries(rs: Seq<(String, ReactionLp)>) -> Seq<(Seq<char>, Term)>
    decreases rs.len(),
{
    if rs.len() == 0 {
        Seq::empty()
    } else {
        model_entries(rs.drop_last()) + reaction_entries(rs.last().1, rs.len() - 1)
    }
}

/// The terms that `entries` gives to metabolite `m`, in order.
pub open spec fn terms_of(entries: Seq<(Seq<char>, Term)>, m: Seq<char>) -> Seq<Term>
    decreases entries.len(),
{
    if entries.len() == 0 {
        Seq::empty()
    } else {
        let prev = terms_of(entries.drop_last(), m);
        if entries.last().0 == m {
            prev.push(entries.last().1)
        } else {
            prev
        }
    }
}

/// Some entry concerns metabolite `m`.
pub open spec fn touches(entries: Seq<(Seq<char>, Term)>, m: Seq<char>) -> bool {
    exists|i: int| 0 <= i < entries.len() && entries[i].0 == m
}

/// No two balances are for the same metabolite.
pub open spec fn metabolites_distinct(rows: Seq<Balance>) -> bool {
    forall|a: int, b: int|
        0 <= a < rows.len() && 0 <= b < rows.len() && a != b ==> rows[a].metabolite@
            != rows[b].metabolite@
}

/// `rows` groups `entries` by metabolite: one balance for each metabolite
/// that some entry concerns, holding that metabolite's terms in order.
pub open spec fn is_balance_table(rows: Seq<Balance>, entries: Seq<(Seq<char>, Term)>) -> bool {
    &&& metabolites_distinct(rows)
    &&& forall|k: int|
        0 <= k < rows.len() ==> (#[trigger] rows[k]).terms@ == terms_of(
            entries,
            rows[k].metabolite@,
        )
    &&& forall|m: Seq<char>|
        touches(entries, m) <==> exists|k: int| 0 <= k < rows.len() && (#[trigger] rows[k]).metabolite@ == m
}

/// A metabolite that no entry concerns has no terms.
proof fn lemma_untouched_no_terms(entries: Seq<(Seq<char>, Term)>, m: Seq<char>)
    requires
        !touches(entries, m),
    ensures
        terms_of(entries, m) == Seq::<Term>::empty(),
    decreases entries.len(),
{
    if entries.len() > 0 {
        assert(!touches(entries.drop_last(), m)) by {
            if touches(entries.drop_last(), m) {
                let i = choose|i: int|
                    0 <= i < entries.drop_last().len() && entries.drop_last()[i].0 == m;
                assert(entries[i].0 == m);
            }
        }
        lemma_untouched_no_terms(entries.drop_last(), m);
        assert(entries[entries.len() - 1].0 != m);
    }
}

/// A metabolite that some entry concerns has at least one term.
pub proof fn lemma_touched_has_terms(entries: Seq<(Seq<char>, Term)>, m: Seq<char>)
    requires
        touches(entries, m),
    ensures
        terms_of(entries, m).len() > 0,
    decreases entries.len(),
{
    if entries.last().0 != m {
        let i = choose|i: int| 0 <= i < entries.len() && entries[i].0 == m;
        assert(entries.drop_last()[i].0 == m);
        lemma_touched_has_terms(entries.drop_last(), m);
    }
}

/// The position of the balance of `metabolite`, if the table has one.
fn find_balance(rows: &Vec<Balance>, metabolite: &String) -> (r: Option<usize>)
    ensures
        match r {
            Some(k) => k < rows@.len() && rows@[k as int].metabolite@ == metabolite@,
            None => forall|a: int| 0 <= a < rows@.len() ==> rows@[a].metabolite@ != metabolite@,
        },
{
    let n = rows.len();
    let mut k: usize = 0;
    while k < n
        invariant
            n == rows@.len(),
            k <= n,
            forall|a: int| 0 <= a < k ==> rows@[a].metabolite@ != metabolite@,
        decreases n - k,
    {
        if rows[k].metabolite == *metabolite {
            return Some(k);
        }
        k += 1;
    }
    None
}

/// Adds one (metabolite, term) pair to a balance table.
fn add_entry(
    rows: &mut Vec<Balance>,
    metabolite: &String,
    term: Term,
    Ghost(entries): Ghost<Seq<(Seq<char>, Term)>>,
)
    requires
        is_balance_table(old(rows)@, entries),
    ensures
        is_balance_table(final(rows)@, entries.push((metabolite@, term))),
{
    let ghost e2 = entries.push((metabolite@, term));
    proof {
        assert(e2.drop_last() =~= entries);
        assert forall|m: Seq<char>| touches(e2, m) <==> (touches(entries, m) || m == metabolite@) by {
            if touches(e2, m) && m != metabolite@ {
                let i = choose|i: int| 0 <= i < e2.len() && e2[i].0 == m;
                assert(entries[i].0 == m);
            }
            if touches(entries, m) {
                let i = choose|i: int| 0 <= i < entries.len() && entries[i].0 == m;
                assert(e2[i].0 == m);
            }
            if m == metabolite@ {
                assert(e2[entries.len() as int].0 == m);
            }
        }
    }
    let n = rows.len();
    if let Some(k) = find_balance(rows, metabolite) {
        let ghost before = rows@;
        rows[k].terms.push(term);
        proof {
            assert forall|a: int| 0 <= a < rows@.len() implies (#[trigger] rows@[a]).terms@
                == terms_of(e2, rows@[a].metabolite@) by {
                if a != k {
                    assert(rows@[a] == before[a]);
                }
            }
            assert forall|m: Seq<char>|
                touches(e2, m) <==> exists|a: int|
                    0 <= a < rows@.len() && (#[trigger] rows@[a]).metabolite@ == m by {
                if touches(e2, m) {
                    if m == metabolite@ {
                        assert(rows@[k as int].metabolite@ == m);
                    } else {
                        let a = choose|a: int| 0 <= a < before.len() && before[a].metabolite@ == m;
                        assert(rows@[a].metabolite@ == m);
                    }
                }
                if exists|a: int| 0 <= a < rows@.len() && (#[trigger] rows@[a]).metabolite@ == m {
                    let a = choose|a: int| 0 <= a < rows@.len() && rows@[a].metabolite@ == m;
                    assert(before[a].metabolite@ == m);
                }
            }
        }
        return;
    }
    proof {
        assert(!touches(entries, metabolite@)) by {
            if touches(entries, metabolite@) {
                let a = choose|a: int|
                    0 <= a < rows@.len() && (#[trigger] rows@[a]).metabolite@ == metabolite@;
            }
        }
        lemma_untouched_no_terms(entries, metabolite@);
    }
    let mut terms: Vec<Term> = Vec::new();
    terms.push(term);
    let ghost before = rows@;
    rows.push(Balance { metabolite: metabolite.clone(), terms });
    proof {
        assert(terms_of(e2, metabolite@) =~= seq![term]);
        assert forall|a: int| 0 <= a < rows@.len() implies (#[trigger] rows@[a]).terms@
            == terms_of(e2, rows@[a].metabolite@) by {
            if a < n {
                assert(rows@[a] == before[a]);
            }
        }
        assert forall|m: Seq<char>|
            touches(e2, m) <==> exists|a: int|
                0 <= a < rows@.len() && (#[trigger] rows@[a]).metabolite@ == m by {
            if touches(e2, m) {
                if m == metabolite@ {
                    assert(rows@[n as int].metabolite@ == m);
                } else {
                    let a = choose|a: int| 0 <= a < before.len() && before[a].metabolite@ == m;
                    assert(rows@[a].metabolite@ == m);
                }
            }
            if exists|a: int| 0 <= a < rows@.len() && (#[trigger] rows@[a]).metabolite@ == m {
                let a = choose|a: int| 0 <= a < rows@.len() && rows@[a].metabolite@ == m;
                if a < n {
                    assert(before[a].metabolite@ == m);
                }
            }
        }
    }
}

/// Every entry's variable is one of the first `n`.
pub open spec fn entries_below(entries: Seq<(Seq<char>, Term)>, n: int) -> bool {
    forall|i: int| 0 <= i < entries.len() ==> (#[trigger] entries[i]).1.variable < n
}

/// The entries of a model use only the variables of its reactions.
proof fn lemma_model_entries_below(rs: Seq<(String, ReactionLp)>)
    requires
        rs.len() <= usize::MAX,
    ensures
        entries_below(model_entries(rs), rs.len() as int),
    decreases rs.len(),
{
    if rs.len() > 0 {
        lemma_model_entries_below(rs.drop_last());
        let prev = model_entries(rs.drop_last());
        let last = reaction_entries(rs.last().1, rs.len() - 1);
        assert forall|i: int| 0 <= i < model_entries(rs).len() implies (#[trigger] model_entries(
            rs,
        )[i]).1.variable < rs.len() by {
            if i >= prev.len() {
                let r = rs.last().1;
                let nr = r.reactants@.len() as int;
                let j = i - prev.len();
                if j < nr {
                    assert(last[j] == reference_entries(r.reactants@, rs.len() - 1, Role::Reactant)[j]);
                } else {
                    assert(last[j] == reference_entries(r.products@, rs.len() - 1, Role::Product)[j - nr]);
                }
            } else {
                assert(model_entries(rs)[i] == prev[i]);
            }
        }
    }
}

/// Every term of `terms_of(entries, m)` comes from some entry.
proof fn lemma_terms_below(entries: Seq<(Seq<char>, Term)>, m: Seq<char>, n: int)
    requires
        entries_below(entries, n),
    ensures
        forall|t: int| 0 <= t < terms_of(entries, m).len() ==> (#[trigger] terms_of(entries, m)[t]).variable < n,
    decreases entries.len(),
{
    if entries.len() > 0 {
        assert(entries_below(entries.drop_last(), n)) by {
            assert forall|i: int| 0 <= i < entries.drop_last().len() implies (#[trigger] entries.drop_last()[i]).1.variable < n by {
                assert(entries.drop_last()[i] == entries[i]);
            }
        }
        lemma_terms_below(entries.drop_last(), m, n);
        let prev = terms_of(entries.drop_last(), m);
        let all = terms_of(entries, m);
        assert(entries[entries.len() - 1].1.variable < n);
        assert forall|t: int| 0 <= t < all.len() implies (#[trigger] all[t]).variable < n by {
            if t < prev.len() {
                assert(all[t] == prev[t]);
            }
        }
    }
}

/// Every term of every balance refers to one of the first `n` variables.
pub open spec fn terms_below(rows: Seq<Balance>, n: int) -> bool {
    forall|k: int, t: int|
        0 <= k < rows.len() && 0 <= t < rows[k].terms@.len() ==> (#[trigger] rows[k].terms@[t]).variable < n
}

impl ModelLp {
    /// The term that a reference contributes through the flux in `column`.
    pub fn reac_expr(met: &SpeciesReference, column: usize, role: Role) -> (r: Term)
        ensures
            r == term_of(*met, column as int, role),
    {
        let c = match met.stoichiometry {
            Some(c) => c,
            None => Real::one(),
        };
        let coefficient = match role {
            Role::Reactant => c.neg(),
            Role::Product => c,
        };
        Term { variable: column, coefficient }
    }

    /// The balance table of the model: every reaction's reactants and products
    /// grouped by metabolite, one balance per metabolite that some reaction
    /// touches.
    pub fn populate_model(&self) -> (rows: Vec<Balance>)
        ensures
            is_balance_table(rows@, model_entries(self.reactions@)),
            forall|k: int| 0 <= k < rows@.len() ==> (#[trigger] rows@[k]).terms@.len() > 0,
            terms_below(rows@, self.reactions@.len() as int),
    {
        let ghost rs = self.reactions@;
        let mut rows: Vec<Balance> = Vec::new();
        let ghost mut entries: Seq<(Seq<char>, Term)> = Seq::empty();
        let n = self.reactions.len();
        proof {
            assert(rs.take(0).len() == 0);
            assert(is_balance_table(rows@, entries));
        }
        for i in 0..n
            invariant
                n == rs.len(),
                rs == self.reactions@,
                entries == model_entries(rs.take(i as int)),
                is_balance_table(rows@, entries),
        {
            let reaction = &self.reactions[i].1;
            let ghost base = entries;
            for j in 0..reaction.reactants.len()
                invariant
                    n == rs.len(),
                    i < n,
                    rs == self.reactions@,
                    *reaction == rs[i as int].1,
                    entries == base + reference_entries(reaction.reactants@, i as int, Role::Reactant).take(j as int),
                    is_balance_table(rows@, entries),
            {
                let sref = &reaction.reactants[j];
                let term = ModelLp::reac_expr(sref, i, Role::Reactant);
                add_entry(&mut rows, &sref.species, term, Ghost(entries));
                proof {
                    let re = reference_entries(reaction.reactants@, i as int, Role::Reactant);
                    assert(re.take(j + 1) =~= re.take(j as int).push(re[j as int]));
                    entries = entries.push((sref.species@, term));
                }
            }
            let ghost mid = entries;
            proof {
                let re = reference_entries(reaction.reactants@, i as int, Role::Reactant);
                assert(re.take(re.len() as int) =~= re);
            }
            for j in 0..reaction.products.len()
                invariant
                    n == rs.len(),
                    i < n,
                    rs == self.reactions@,
                    *reaction == rs[i as int].1,
                    entries == mid + reference_entries(reaction.products@, i as int, Role::Product).take(j as int),
                    is_balance_table(rows@, entries),
            {
                let sref = &reaction.products[j];
                let term = ModelLp::reac_expr(sref, i, Role::Product);
                add_entry(&mut rows, &sref.species, term, Ghost(entries));
                proof {
                    let pe = reference_entries(reaction.products@, i as int, Role::Product);
                    assert(pe.take(j + 1) =~= pe.take(j as int).push(pe[j as int]));
                    entries = entries.push((sref.species@, term));
                }
            }
            proof {
                let pe = reference_entries(reaction.products@, i as int, Role::Product);
                assert(pe.take(pe.len() as int) =~= pe);
                assert(rs.take(i + 1).drop_last() =~= rs.take(i as int));
                assert(entries =~= model_entries(rs.take(i + 1)));
            }
        }
        proof {
            assert(rs.take(n as int) =~= rs);
            assert forall|k: int| 0 <= k < rows@.len() implies (#[trigger] rows@[k]).terms@.len() > 0 by {
                assert(touches(entries, rows@[k].metabolite@));
                lemma_touched_has_terms(entries, rows@[k].metabolite@);
            }
            lemma_model_entries_below(rs);
            assert forall|k: int, t: int|
                0 <= k < rows@.len() && 0 <= t < rows@[k].terms@.len() implies (#[trigger] rows@[k].terms@[t]).variable < n by {
                lemma_terms_below(entries, rows@[k].metabolite@, n as int);
            }
        }
        rows
    }
}

/// `vars` holds one variable per reaction, in order, bounded by the
/// reaction's flux bounds.
pub open spec fn variables_of(vars: Seq<LpVariable>, rs: Seq<(String, ReactionLp)>) -> bool {
    &&& vars.len() == rs.len()
    &&& forall|i: int|
        0 <= i < rs.len() ==> {
            &&& (#[trigger] vars[i]).reaction@ == rs[i].0@
            &&& vars[i].lower == rs[i].1.lb
            &&& vars[i].upper == rs[i].1.ub
        }
}

impl LpProblem {
    /// `self` is the program of model `m` that optimises the flux of the
    /// reaction keyed `objective` in `direction`.
    pub open spec fn is_formulation_of(
        &self,
        m: ModelLp,
        objective: Seq<char>,
        direction: Direction,
    ) -> bool {
        &&& variables_of(self.variables@, m.reactions@)
        &&& is_balance_table(self.constraints@, model_entries(m.reactions@))
        &&& forall|k: int|
            0 <= k < self.constraints@.len() ==> (#[trigger] self.constraints@[k]).terms@.len() > 0
        &&& terms_below(self.constraints@, m.reactions@.len() as int)
        &&& is_column(m.reactions@, objective, self.objective as int)
        &&& self.direction == direction
    }
}

impl ModelLp {
    /// One variable per reaction, bounded by the reaction's flux bounds.
    pub fn add_vars(&self) -> (vars: Vec<LpVariable>)
        ensures
            variables_of(vars@, self.reactions@),
    {
        let mut vars: Vec<LpVariable> = Vec::new();
        let n = self.reactions.len();
        for i in 0..n
            invariant
                n == self.reactions@.len(),
                vars@.len() == i,
                forall|j: int|
                    0 <= j < i ==> {
                        &&& (#[trigger] vars@[j]).reaction@ == self.reactions@[j].0@
                        &&& vars@[j].lower == self.reactions@[j].1.lb
                        &&& vars@[j].upper == self.reactions@[j].1.ub
                    },
        {
            let (key, reaction) = (&self.reactions[i].0, &self.reactions[i].1);
            vars.push(LpVariable { reaction: key.clone(), lower: reaction.lb, upper: reaction.ub });
        }
        vars
    }

    /// The linear program that optimises the flux of `objective` in
    /// `direction`, subject to the bounds and the balances of the model.
    ///
    /// Fails when no reaction is keyed `objective`.
    pub fn lp_problem(&self, objective: &String, direction: Direction) -> (r: Result<
        LpProblem,
        SbmlError,
    >)
        ensures
            match r {
                Ok(p) => p.is_formulation_of(*self, objective@, direction),
                Err(e) => !has_key(self.reactions@, objective@) && e@
                    == ErrorView::InconsistentObjective { obj: objective@ },
            },
    {
        let column = match self.find_reaction(objective) {
            Some(k) => k,
            None => return Err(SbmlError::InconsistentObjective { obj: objective.clone() }),
        };
        let mut problem = LpProblem {
            variables: self.add_vars(),
            constraints: Vec::new(),
            objective: column,
            direction,
        };
        self.add_constraints(&mut problem);
        Ok(problem)
    }

    /// Adds the model's balances to a program that has none yet.
    pub fn add_constraints(&self, problem: &mut LpProblem)
        requires
            old(problem).constraints@.len() == 0,
        ensures
            is_balance_table(final(problem).constraints@, model_entries(self.reactions@)),
            forall|k: int|
                0 <= k < final(problem).constraints@.len() ==> (#[trigger] final(problem).constraints@[k]).terms@.len() > 0,
            terms_below(final(problem).constraints@, self.reactions@.len() as int),
            final(problem).variables == old(problem).variables,
            final(problem).objective == old(problem).objective,
            final(problem).direction == old(problem).direction,
    {
        let mut rows = self.populate_model();
        let ghost rows_before = rows@;
        problem.constraints.append(&mut rows);
        proof {
            assert(problem.constraints@ =~= rows_before);
        }
    }

    /// The program of Flux Balance Analysis: maximise the flux of the model's
    /// objective reaction.
    pub fn fba_problem(&self) -> (r: Result<LpProblem, SbmlError>)
        ensures
            match r {
                Ok(p) => p.is_formulation_of(*self, self.objective@, Direction::Maximise),
                Err(e) => !has_key(self.reactions@, self.objective@) && e@
                    == ErrorView::InconsistentObjective { obj: self.objective@ },
            },
    {
        self.lp_problem(&self.objective, Direction::Maximise)
    }
}

/// The table holds a balance for metabolite `m`.
pub open spec fn has_balance(rows: Seq<Balance>, m: Seq<char>) -> bool {
    exists|k: int| 0 <= k < rows.len() && (#[trigger] rows[k]).metabolite@ == m
}

/// The metabolites of a balance table, in order.
pub open spec fn metabolites_of(rows: Seq<Balance>) -> Seq<Seq<char>> {
    rows.map_values(|b: Balance| b.metabolite@)
}

/// A balance table has as many balances as there are metabolites touched.
proof fn lemma_table_size(rows: Seq<Balance>, entries: Seq<(Seq<char>, Term)>)
    requires
        is_balance_table(rows, entries),
    ensures
        rows.len() == metabolites_of(rows).to_set().len(),
        metabolites_of(rows).to_set() == Set::new(|m: Seq<char>| touches(entries, m)),
{
    let keys = metabolites_of(rows);
    assert(keys.no_duplicates()) by {
        assert forall|a: int, b: int| 0 <= a < keys.len() && 0 <= b < keys.len() && a != b implies keys[a] != keys[b] by {
            assert(keys[a] == rows[a].metabolite@);
            assert(keys[b] == rows[b].metabolite@);
        }
    }
    keys.unique_seq_to_set();
    assert forall|m: Seq<char>| keys.to_set().contains(m) <==> touches(entries, m) by {
        if keys.to_set().contains(m) {
            let a = choose|a: int| 0 <= a < keys.len() && keys[a] == m;
            assert(rows[a].metabolite@ == m);
        }
        if touches(entries, m) {
            let a = choose|a: int| 0 <= a < rows.len() && (#[trigger] rows[a]).metabolite@ == m;
            assert(keys[a] == m);
        }
    }
    assert(keys.to_set() =~= Set::new(|m: Seq<char>| touches(entries, m)));
}

/// Populating a program twice from an unchanged model gives the same number
/// of balances both times: one per metabolite that some reaction touches.
pub proof fn lemma_repopulation_same_size(m: ModelLp, first: Seq<Balance>, second: Seq<Balance>)
    requires
        is_balance_table(first, model_entries(m.reactions@)),
        is_balance_table(second, model_entries(m.reactions@)),
    ensures
        first.len() == second.len(),
        first.len() == Set::new(|x: Seq<char>| touches(model_entries(m.reactions@), x)).len(),
{
    lemma_table_size(first, model_entries(m.reactions@));
    lemma_table_size(second, model_entries(m.reactions@));
}

/// The minimising and the maximising program of one reaction differ only in
/// direction: the same variables with the same bounds, the same objective
/// variable, and the same balance for every metabolite. Their feasible sets
/// are one, so an exact solver finds the minimum no larger than the maximum.
pub proof fn lemma_min_max_same_program(m: ModelLp, reaction: Seq<char>, low: LpProblem, high: LpProblem)
    requires
        low.is_formulation_of(m, reaction, Direction::Minimise),
        high.is_formulation_of(m, reaction, Direction::Maximise),
    ensures
        low.variables@.len() == high.variables@.len(),
        forall|i: int|
            0 <= i < low.variables@.len() ==> (#[trigger] low.variables@[i]).reaction@
                == high.variables@[i].reaction@ && low.variables@[i].lower == high.variables@[i].lower
                && low.variables@[i].upper == high.variables@[i].upper,
        low.objective == high.objective,
        low.constraints@.len() == high.constraints@.len(),
        forall|a: int, b: int|
            0 <= a < low.constraints@.len() && 0 <= b < high.constraints@.len()
                && low.constraints@[a].metabolite@ == high.constraints@[b].metabolite@
                ==> (#[trigger] low.constraints@[a]).terms@ == (#[trigger] high.constraints@[b]).terms@,
        forall|x: Seq<char>|
            #[trigger] has_balance(low.constraints@, x) == has_balance(high.constraints@, x),
{
    lemma_repopulation_same_size(m, low.constraints@, high.constraints@);
    assert forall|i: int| 0 <= i < low.variables@.len() implies (#[trigger] low.variables@[i]).reaction@
        == high.variables@[i].reaction@ && low.variables@[i].lower == high.variables@[i].lower
        && low.variables@[i].upper == high.variables@[i].upper by {
        assert(low.variables@[i].reaction@ == m.reactions@[i].0@);
        assert(high.variables@[i].reaction@ == m.reactions@[i].0@);
    }
    assert forall|x: Seq<char>|
        #[trigger] has_balance(low.constraints@, x) == has_balance(high.constraints@, x) by {
        assert(touches(model_entries(m.reactions@), x) == has_balance(low.constraints@, x));
        assert(touches(model_entries(m.reactions@), x) == has_balance(high.constraints@, x));
    }
}

/// With the objective pinned at `value`, every program of the frozen model,
/// whichever reaction it optimises and in either direction, bounds the
/// objective's variable to exactly `value`; so where that reaction is the
/// objective itself, its minimum and maximum are both `value`.
pub proof fn lemma_pinned_objective(
    m: ModelLp,
    value: Real,
    frozen: ModelLp,
    reaction: Seq<char>,
    direction: Direction,
    p: LpProblem,
)
    requires
        frozen.is_pinned_from(m, value),
        p.is_formulation_of(frozen, reaction, direction),
    ensures
        exists|k: int|
            is_column(frozen.reactions@, frozen.objective@, k) && p.variables@[k].lower == value
                && p.variables@[k].upper == value && (reaction == frozen.objective@ ==> p.objective == k),
{
    let k = choose|k: int|
        is_column(m.reactions@, m.objective@, k) && frozen.reactions@ == m.reactions@.update(
            k,
            (m.reactions@[k].0, pinned(m.reactions@[k].1, value)),
        );
    assert(is_column(frozen.reactions@, frozen.objective@, k)) by {
        assert forall|j: int| 0 <= j < k implies frozen.reactions@[j].0@ != frozen.objective@ by {
            assert(frozen.reactions@[j] == m.reactions@[j]);
        }
    }
    assert(p.variables@[k].lower == frozen.reactions@[k].1.lb);
    if reaction == frozen.objective@ {
        let c = p.objective as int;
        if c < k {
            assert(frozen.reactions@[c].0@ != frozen.objective@);
        } else if c > k {
            assert(frozen.reactions@[k].0@ != reaction);
        }
    }
}

} // verus!
