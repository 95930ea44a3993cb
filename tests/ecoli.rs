//! The e_coli_core network of BiGG (72 metabolites, 95 reactions), written out
//! record by record, and the analyses run on it: FBA with microlp, FVA with
//! clarabel, whose tolerances accept the objective pinned at its optimum.
use std::collections::HashMap;

use good_lp::{clarabel, constraint, default_solver, variable, Expression, ProblemVariables, Solution, Solver, SolverModel, Variable};
use kair::document::{Document, Parameter, Reaction, Species, SpeciesReference};
use kair::flux_analysis::{fva_bounds, fva_jobs};
use kair::formulation::{Direction, LpProblem};
use kair::model::ModelLp;
use kair::number::Real;

fn to_real(x: f64) -> Real {
    Real::from_bits(x.to_bits())
}

fn float(x: Real) -> f64 {
    f64::from_bits(x.to_bits())
}

fn refs(list: &[(&str, f64)]) -> Vec<SpeciesReference> {
    list.iter()
        .map(|(species, c)| SpeciesReference { species: species.to_string(), stoichiometry: Some(to_real(*c)) })
        .collect()
}

fn reaction(id: &str, lower: &str, upper: &str, reactants: &[(&str, f64)], products: &[(&str, f64)]) -> Reaction {
    Reaction {
        id: id.to_string(),
        compartment: None,
        lower_bound: Some(lower.to_string()),
        upper_bound: Some(upper.to_string()),
        reactants: refs(reactants),
        products: refs(products),
    }
}

const PARAMETERS: [(&str, f64); 5] = [
    ("cobra_default_lb", -1000.0),
    ("cobra_default_ub", 1000.0),
    ("cobra_0_bound", 0.0),
    ("R_ATPM_lower_bound", 8.39),
    ("R_EX_glc__D_e_lower_bound", -10.0),
];

const SPECIES: [(&str, &str); 72] = [
    ("M_13dpg_c", "c"),
    ("M_2pg_c", "c"),
    ("M_3pg_c", "c"),
    ("M_6pgc_c", "c"),
    ("M_6pgl_c", "c"),
    ("M_ac_c", "c"),
    ("M_ac_e", "e"),
    ("M_acald_c", "c"),
    ("M_acald_e", "e"),
    ("M_accoa_c", "c"),
    ("M_acon_C_c", "c"),
    ("M_actp_c", "c"),
    ("M_adp_c", "c"),
    ("M_akg_c", "c"),
    ("M_akg_e", "e"),
    ("M_amp_c", "c"),
    ("M_atp_c", "c"),
    ("M_cit_c", "c"),
    ("M_co2_c", "c"),
    ("M_co2_e", "e"),
    ("M_coa_c", "c"),
    ("M_dhap_c", "c"),
    ("M_e4p_c", "c"),
    ("M_etoh_c", "c"),
    ("M_etoh_e", "e"),
    ("M_f6p_c", "c"),
    ("M_fdp_c", "c"),
    ("M_for_c", "c"),
    ("M_for_e", "e"),
    ("M_fru_e", "e"),
    ("M_fum_c", "c"),
    ("M_fum_e", "e"),
    ("M_g3p_c", "c"),
    ("M_g6p_c", "c"),
    ("M_glc__D_e", "e"),
    ("M_gln__L_c", "c"),
    ("M_gln__L_e", "e"),
    ("M_glu__L_c", "c"),
    ("M_glu__L_e", "e"),
    ("M_glx_c", "c"),
    ("M_h2o_c", "c"),
    ("M_h2o_e", "e"),
    ("M_h_c", "c"),
    ("M_h_e", "e"),
    ("M_icit_c", "c"),
    ("M_lac__D_c", "c"),
    ("M_lac__D_e", "e"),
    ("M_mal__L_c", "c"),
    ("M_mal__L_e", "e"),
    ("M_nad_c", "c"),
    ("M_nadh_c", "c"),
    ("M_nadp_c", "c"),
    ("M_nadph_c", "c"),
    ("M_nh4_c", "c"),
    ("M_nh4_e", "e"),
    ("M_o2_c", "c"),
    ("M_o2_e", "e"),
    ("M_oaa_c", "c"),
    ("M_pep_c", "c"),
    ("M_pi_c", "c"),
    ("M_pi_e", "e"),
    ("M_pyr_c", "c"),
    ("M_pyr_e", "e"),
    ("M_q8_c", "c"),
    ("M_q8h2_c", "c"),
    ("M_r5p_c", "c"),
    ("M_ru5p__D_c", "c"),
    ("M_s7p_c", "c"),
    ("M_succ_c", "c"),
    ("M_succ_e", "e"),
    ("M_succoa_c", "c"),
    ("M_xu5p__D_c", "c"),
];

fn ecoli_reactions() -> Vec<Reaction> {
    vec![
        reaction("R_ACALD", "cobra_default_lb", "cobra_default_ub", &[("M_acald_c", 1.0), ("M_coa_c", 1.0), ("M_nad_c", 1.0)], &[("M_accoa_c", 1.0), ("M_h_c", 1.0), ("M_nadh_c", 1.0)]),
        reaction("R_ACALDt", "cobra_default_lb", "cobra_default_ub", &[("M_acald_e", 1.0)], &[("M_acald_c", 1.0)]),
        reaction("R_ACKr", "cobra_default_lb", "cobra_default_ub", &[("M_ac_c", 1.0), ("M_atp_c", 1.0)], &[("M_actp_c", 1.0), ("M_adp_c", 1.0)]),
        reaction("R_ACONTa", "cobra_default_lb", "cobra_default_ub", &[("M_cit_c", 1.0)], &[("M_acon_C_c", 1.0), ("M_h2o_c", 1.0)]),
        reaction("R_ACONTb", "cobra_default_lb", "cobra_default_ub", &[("M_acon_C_c", 1.0), ("M_h2o_c", 1.0)], &[("M_icit_c", 1.0)]),
        reaction("R_ACt2r", "cobra_default_lb", "cobra_default_ub", &[("M_ac_e", 1.0), ("M_h_e", 1.0)], &[("M_ac_c", 1.0), ("M_h_c", 1.0)]),
        reaction("R_ADK1", "cobra_default_lb", "cobra_default_ub", &[("M_amp_c", 1.0), ("M_atp_c", 1.0)], &[("M_adp_c", 2.0)]),
        reaction("R_AKGDH", "cobra_0_bound", "cobra_default_ub", &[("M_akg_c", 1.0), ("M_coa_c", 1.0), ("M_nad_c", 1.0)], &[("M_co2_c", 1.0), ("M_nadh_c", 1.0), ("M_succoa_c", 1.0)]),
        reaction("R_AKGt2r", "cobra_default_lb", "cobra_default_ub", &[("M_akg_e", 1.0), ("M_h_e", 1.0)], &[("M_akg_c", 1.0), ("M_h_c", 1.0)]),
        reaction("R_ALCD2x", "cobra_default_lb", "cobra_default_ub", &[("M_etoh_c", 1.0), ("M_nad_c", 1.0)], &[("M_acald_c", 1.0), ("M_h_c", 1.0), ("M_nadh_c", 1.0)]),
        reaction("R_ATPM", "R_ATPM_lower_bound", "cobra_default_ub", &[("M_atp_c", 1.0), ("M_h2o_c", 1.0)], &[("M_adp_c", 1.0), ("M_h_c", 1.0), ("M_pi_c", 1.0)]),
        reaction("R_ATPS4r", "cobra_default_lb", "cobra_default_ub", &[("M_adp_c", 1.0), ("M_h_e", 4.0), ("M_pi_c", 1.0)], &[("M_atp_c", 1.0), ("M_h2o_c", 1.0), ("M_h_c", 3.0)]),
        reaction("R_BIOMASS_Ecoli_core_w_GAM", "cobra_0_bound", "cobra_default_ub", &[("M_3pg_c", 1.496), ("M_accoa_c", 3.7478), ("M_atp_c", 59.81), ("M_e4p_c", 0.361), ("M_f6p_c", 0.0709), ("M_g3p_c", 0.129), ("M_g6p_c", 0.205), ("M_gln__L_c", 0.2557), ("M_glu__L_c", 4.9414), ("M_h2o_c", 59.81), ("M_nad_c", 3.547), ("M_nadph_c", 13.0279), ("M_oaa_c", 1.7867), ("M_pep_c", 0.5191), ("M_pyr_c", 2.8328), ("M_r5p_c", 0.8977)], &[("M_adp_c", 59.81), ("M_akg_c", 4.1182), ("M_coa_c", 3.7478), ("M_h_c", 59.81), ("M_nadh_c", 3.547), ("M_nadp_c", 13.0279), ("M_pi_c", 59.81)]),
        reaction("R_CO2t", "cobra_default_lb", "cobra_default_ub", &[("M_co2_e", 1.0)], &[("M_co2_c", 1.0)]),
        reaction("R_CS", "cobra_0_bound", "cobra_default_ub", &[("M_accoa_c", 1.0), ("M_h2o_c", 1.0), ("M_oaa_c", 1.0)], &[("M_cit_c", 1.0), ("M_coa_c", 1.0), ("M_h_c", 1.0)]),
        reaction("R_CYTBD", "cobra_0_bound", "cobra_default_ub", &[("M_h_c", 2.0), ("M_o2_c", 0.5), ("M_q8h2_c", 1.0)], &[("M_h2o_c", 1.0), ("M_h_e", 2.0), ("M_q8_c", 1.0)]),
        reaction("R_D_LACt2", "cobra_default_lb", "cobra_default_ub", &[("M_h_e", 1.0), ("M_lac__D_e", 1.0)], &[("M_h_c", 1.0), ("M_lac__D_c", 1.0)]),
        reaction("R_ENO", "cobra_default_lb", "cobra_default_ub", &[("M_2pg_c", 1.0)], &[("M_h2o_c", 1.0), ("M_pep_c", 1.0)]),
        reaction("R_ETOHt2r", "cobra_default_lb", "cobra_default_ub", &[("M_etoh_e", 1.0), ("M_h_e", 1.0)], &[("M_etoh_c", 1.0), ("M_h_c", 1.0)]),
        reaction("R_EX_ac_e", "cobra_0_bound", "cobra_default_ub", &[("M_ac_e", 1.0)], &[]),
        reaction("R_EX_acald_e", "cobra_0_bound", "cobra_default_ub", &[("M_acald_e", 1.0)], &[]),
        reaction("R_EX_akg_e", "cobra_0_bound", "cobra_default_ub", &[("M_akg_e", 1.0)], &[]),
        reaction("R_EX_co2_e", "cobra_default_lb", "cobra_default_ub", &[("M_co2_e", 1.0)], &[]),
        reaction("R_EX_etoh_e", "cobra_0_bound", "cobra_default_ub", &[("M_etoh_e", 1.0)], &[]),
        reaction("R_EX_for_e", "cobra_0_bound", "cobra_default_ub", &[("M_for_e", 1.0)], &[]),
        reaction("R_EX_fru_e", "cobra_0_bound", "cobra_default_ub", &[("M_fru_e", 1.0)], &[]),
        reaction("R_EX_fum_e", "cobra_0_bound", "cobra_default_ub", &[("M_fum_e", 1.0)], &[]),
        reaction("R_EX_glc__D_e", "R_EX_glc__D_e_lower_bound", "cobra_default_ub", &[("M_glc__D_e", 1.0)], &[]),
        reaction("R_EX_gln__L_e", "cobra_0_bound", "cobra_default_ub", &[("M_gln__L_e", 1.0)], &[]),
        reaction("R_EX_glu__L_e", "cobra_0_bound", "cobra_default_ub", &[("M_glu__L_e", 1.0)], &[]),
        reaction("R_EX_h_e", "cobra_default_lb", "cobra_default_ub", &[("M_h_e", 1.0)], &[]),
        reaction("R_EX_h2o_e", "cobra_default_lb", "cobra_default_ub", &[("M_h2o_e", 1.0)], &[]),
        reaction("R_EX_lac__D_e", "cobra_0_bound", "cobra_default_ub", &[("M_lac__D_e", 1.0)], &[]),
        reaction("R_EX_mal__L_e", "cobra_0_bound", "cobra_default_ub", &[("M_mal__L_e", 1.0)], &[]),
        reaction("R_EX_nh4_e", "cobra_default_lb", "cobra_default_ub", &[("M_nh4_e", 1.0)], &[]),
        reaction("R_EX_o2_e", "cobra_default_lb", "cobra_default_ub", &[("M_o2_e", 1.0)], &[]),
        reaction("R_EX_pi_e", "cobra_default_lb", "cobra_default_ub", &[("M_pi_e", 1.0)], &[]),
        reaction("R_EX_pyr_e", "cobra_0_bound", "cobra_default_ub", &[("M_pyr_e", 1.0)], &[]),
        reaction("R_EX_succ_e", "cobra_0_bound", "cobra_default_ub", &[("M_succ_e", 1.0)], &[]),
        reaction("R_FBA", "cobra_default_lb", "cobra_default_ub", &[("M_fdp_c", 1.0)], &[("M_dhap_c", 1.0), ("M_g3p_c", 1.0)]),
        reaction("R_FBP", "cobra_0_bound", "cobra_default_ub", &[("M_fdp_c", 1.0), ("M_h2o_c", 1.0)], &[("M_f6p_c", 1.0), ("M_pi_c", 1.0)]),
        reaction("R_FORt2", "cobra_0_bound", "cobra_default_ub", &[("M_for_e", 1.0), ("M_h_e", 1.0)], &[("M_for_c", 1.0), ("M_h_c", 1.0)]),
        reaction("R_FORt", "cobra_default_lb", "cobra_0_bound", &[("M_for_e", 1.0)], &[("M_for_c", 1.0)]),
        reaction("R_FRD7", "cobra_0_bound", "cobra_default_ub", &[("M_fum_c", 1.0), ("M_q8h2_c", 1.0)], &[("M_q8_c", 1.0), ("M_succ_c", 1.0)]),
        reaction("R_FRUpts2", "cobra_0_bound", "cobra_default_ub", &[("M_fru_e", 1.0), ("M_pep_c", 1.0)], &[("M_f6p_c", 1.0), ("M_pyr_c", 1.0)]),
        reaction("R_FUM", "cobra_default_lb", "cobra_default_ub", &[("M_fum_c", 1.0), ("M_h2o_c", 1.0)], &[("M_mal__L_c", 1.0)]),
        reaction("R_FUMt2_2", "cobra_0_bound", "cobra_default_ub", &[("M_fum_e", 1.0), ("M_h_e", 2.0)], &[("M_fum_c", 1.0), ("M_h_c", 2.0)]),
        reaction("R_G6PDH2r", "cobra_default_lb", "cobra_default_ub", &[("M_g6p_c", 1.0), ("M_nadp_c", 1.0)], &[("M_6pgl_c", 1.0), ("M_h_c", 1.0), ("M_nadph_c", 1.0)]),
        reaction("R_GAPD", "cobra_default_lb", "cobra_default_ub", &[("M_g3p_c", 1.0), ("M_nad_c", 1.0), ("M_pi_c", 1.0)], &[("M_13dpg_c", 1.0), ("M_h_c", 1.0), ("M_nadh_c", 1.0)]),
        reaction("R_GLCpts", "cobra_0_bound", "cobra_default_ub", &[("M_glc__D_e", 1.0), ("M_pep_c", 1.0)], &[("M_g6p_c", 1.0), ("M_pyr_c", 1.0)]),
        reaction("R_GLNS", "cobra_0_bound", "cobra_default_ub", &[("M_atp_c", 1.0), ("M_glu__L_c", 1.0), ("M_nh4_c", 1.0)], &[("M_adp_c", 1.0), ("M_gln__L_c", 1.0), ("M_h_c", 1.0), ("M_pi_c", 1.0)]),
        reaction("R_GLNabc", "cobra_0_bound", "cobra_default_ub", &[("M_atp_c", 1.0), ("M_gln__L_e", 1.0), ("M_h2o_c", 1.0)], &[("M_adp_c", 1.0), ("M_gln__L_c", 1.0), ("M_h_c", 1.0), ("M_pi_c", 1.0)]),
        reaction("R_GLUDy", "cobra_default_lb", "cobra_default_ub", &[("M_glu__L_c", 1.0), ("M_h2o_c", 1.0), ("M_nadp_c", 1.0)], &[("M_akg_c", 1.0), ("M_h_c", 1.0), ("M_nadph_c", 1.0), ("M_nh4_c", 1.0)]),
        reaction("R_GLUN", "cobra_0_bound", "cobra_default_ub", &[("M_gln__L_c", 1.0), ("M_h2o_c", 1.0)], &[("M_glu__L_c", 1.0), ("M_nh4_c", 1.0)]),
        reaction("R_GLUSy", "cobra_0_bound", "cobra_default_ub", &[("M_akg_c", 1.0), ("M_gln__L_c", 1.0), ("M_h_c", 1.0), ("M_nadph_c", 1.0)], &[("M_glu__L_c", 2.0), ("M_nadp_c", 1.0)]),
        reaction("R_GLUt2r", "cobra_default_lb", "cobra_default_ub", &[("M_glu__L_e", 1.0), ("M_h_e", 1.0)], &[("M_glu__L_c", 1.0), ("M_h_c", 1.0)]),
        reaction("R_GND", "cobra_0_bound", "cobra_default_ub", &[("M_6pgc_c", 1.0), ("M_nadp_c", 1.0)], &[("M_co2_c", 1.0), ("M_nadph_c", 1.0), ("M_ru5p__D_c", 1.0)]),
        reaction("R_H2Ot", "cobra_default_lb", "cobra_default_ub", &[("M_h2o_e", 1.0)], &[("M_h2o_c", 1.0)]),
        reaction("R_ICDHyr", "cobra_default_lb", "cobra_default_ub", &[("M_icit_c", 1.0), ("M_nadp_c", 1.0)], &[("M_akg_c", 1.0), ("M_co2_c", 1.0), ("M_nadph_c", 1.0)]),
        reaction("R_ICL", "cobra_0_bound", "cobra_default_ub", &[("M_icit_c", 1.0)], &[("M_glx_c", 1.0), ("M_succ_c", 1.0)]),
        reaction("R_LDH_D", "cobra_default_lb", "cobra_default_ub", &[("M_lac__D_c", 1.0), ("M_nad_c", 1.0)], &[("M_h_c", 1.0), ("M_nadh_c", 1.0), ("M_pyr_c", 1.0)]),
        reaction("R_MALS", "cobra_0_bound", "cobra_default_ub", &[("M_accoa_c", 1.0), ("M_glx_c", 1.0), ("M_h2o_c", 1.0)], &[("M_coa_c", 1.0), ("M_h_c", 1.0), ("M_mal__L_c", 1.0)]),
        reaction("R_MALt2_2", "cobra_0_bound", "cobra_default_ub", &[("M_h_e", 2.0), ("M_mal__L_e", 1.0)], &[("M_h_c", 2.0), ("M_mal__L_c", 1.0)]),
        reaction("R_MDH", "cobra_default_lb", "cobra_default_ub", &[("M_mal__L_c", 1.0), ("M_nad_c", 1.0)], &[("M_h_c", 1.0), ("M_nadh_c", 1.0), ("M_oaa_c", 1.0)]),
        reaction("R_ME1", "cobra_0_bound", "cobra_default_ub", &[("M_mal__L_c", 1.0), ("M_nad_c", 1.0)], &[("M_co2_c", 1.0), ("M_nadh_c", 1.0), ("M_pyr_c", 1.0)]),
        reaction("R_ME2", "cobra_0_bound", "cobra_default_ub", &[("M_mal__L_c", 1.0), ("M_nadp_c", 1.0)], &[("M_co2_c", 1.0), ("M_nadph_c", 1.0), ("M_pyr_c", 1.0)]),
        reaction("R_NADH16", "cobra_0_bound", "cobra_default_ub", &[("M_h_c", 4.0), ("M_nadh_c", 1.0), ("M_q8_c", 1.0)], &[("M_h_e", 3.0), ("M_nad_c", 1.0), ("M_q8h2_c", 1.0)]),
        reaction("R_NADTRHD", "cobra_0_bound", "cobra_default_ub", &[("M_nad_c", 1.0), ("M_nadph_c", 1.0)], &[("M_nadh_c", 1.0), ("M_nadp_c", 1.0)]),
        reaction("R_NH4t", "cobra_default_lb", "cobra_default_ub", &[("M_nh4_e", 1.0)], &[("M_nh4_c", 1.0)]),
        reaction("R_O2t", "cobra_default_lb", "cobra_default_ub", &[("M_o2_e", 1.0)], &[("M_o2_c", 1.0)]),
        reaction("R_PDH", "cobra_0_bound", "cobra_default_ub", &[("M_coa_c", 1.0), ("M_nad_c", 1.0), ("M_pyr_c", 1.0)], &[("M_accoa_c", 1.0), ("M_co2_c", 1.0), ("M_nadh_c", 1.0)]),
        reaction("R_PFK", "cobra_0_bound", "cobra_default_ub", &[("M_atp_c", 1.0), ("M_f6p_c", 1.0)], &[("M_adp_c", 1.0), ("M_fdp_c", 1.0), ("M_h_c", 1.0)]),
        reaction("R_PFL", "cobra_0_bound", "cobra_default_ub", &[("M_coa_c", 1.0), ("M_pyr_c", 1.0)], &[("M_accoa_c", 1.0), ("M_for_c", 1.0)]),
        reaction("R_PGI", "cobra_default_lb", "cobra_default_ub", &[("M_g6p_c", 1.0)], &[("M_f6p_c", 1.0)]),
        reaction("R_PGK", "cobra_default_lb", "cobra_default_ub", &[("M_3pg_c", 1.0), ("M_atp_c", 1.0)], &[("M_13dpg_c", 1.0), ("M_adp_c", 1.0)]),
        reaction("R_PGL", "cobra_0_bound", "cobra_default_ub", &[("M_6pgl_c", 1.0), ("M_h2o_c", 1.0)], &[("M_6pgc_c", 1.0), ("M_h_c", 1.0)]),
        reaction("R_PGM", "cobra_default_lb", "cobra_default_ub", &[("M_2pg_c", 1.0)], &[("M_3pg_c", 1.0)]),
        reaction("R_PIt2r", "cobra_default_lb", "cobra_default_ub", &[("M_h_e", 1.0), ("M_pi_e", 1.0)], &[("M_h_c", 1.0), ("M_pi_c", 1.0)]),
        reaction("R_PPC", "cobra_0_bound", "cobra_default_ub", &[("M_co2_c", 1.0), ("M_h2o_c", 1.0), ("M_pep_c", 1.0)], &[("M_h_c", 1.0), ("M_oaa_c", 1.0), ("M_pi_c", 1.0)]),
        reaction("R_PPCK", "cobra_0_bound", "cobra_default_ub", &[("M_atp_c", 1.0), ("M_oaa_c", 1.0)], &[("M_adp_c", 1.0), ("M_co2_c", 1.0), ("M_pep_c", 1.0)]),
        reaction("R_PPS", "cobra_0_bound", "cobra_default_ub", &[("M_atp_c", 1.0), ("M_h2o_c", 1.0), ("M_pyr_c", 1.0)], &[("M_amp_c", 1.0), ("M_h_c", 2.0), ("M_pep_c", 1.0), ("M_pi_c", 1.0)]),
        reaction("R_PTAr", "cobra_default_lb", "cobra_default_ub", &[("M_accoa_c", 1.0), ("M_pi_c", 1.0)], &[("M_actp_c", 1.0), ("M_coa_c", 1.0)]),
        reaction("R_PYK", "cobra_0_bound", "cobra_default_ub", &[("M_adp_c", 1.0), ("M_h_c", 1.0), ("M_pep_c", 1.0)], &[("M_atp_c", 1.0), ("M_pyr_c", 1.0)]),
        reaction("R_PYRt2", "cobra_default_lb", "cobra_default_ub", &[("M_h_e", 1.0), ("M_pyr_e", 1.0)], &[("M_h_c", 1.0), ("M_pyr_c", 1.0)]),
        reaction("R_RPE", "cobra_default_lb", "cobra_default_ub", &[("M_ru5p__D_c", 1.0)], &[("M_xu5p__D_c", 1.0)]),
        reaction("R_RPI", "cobra_default_lb", "cobra_default_ub", &[("M_r5p_c", 1.0)], &[("M_ru5p__D_c", 1.0)]),
        reaction("R_SUCCt2_2", "cobra_0_bound", "cobra_default_ub", &[("M_h_e", 2.0), ("M_succ_e", 1.0)], &[("M_h_c", 2.0), ("M_succ_c", 1.0)]),
        reaction("R_SUCCt3", "cobra_0_bound", "cobra_default_ub", &[("M_h_e", 1.0), ("M_succ_c", 1.0)], &[("M_h_c", 1.0), ("M_succ_e", 1.0)]),
        reaction("R_SUCDi", "cobra_0_bound", "cobra_default_ub", &[("M_q8_c", 1.0), ("M_succ_c", 1.0)], &[("M_fum_c", 1.0), ("M_q8h2_c", 1.0)]),
        reaction("R_SUCOAS", "cobra_default_lb", "cobra_default_ub", &[("M_atp_c", 1.0), ("M_coa_c", 1.0), ("M_succ_c", 1.0)], &[("M_adp_c", 1.0), ("M_pi_c", 1.0), ("M_succoa_c", 1.0)]),
        reaction("R_TALA", "cobra_default_lb", "cobra_default_ub", &[("M_g3p_c", 1.0), ("M_s7p_c", 1.0)], &[("M_e4p_c", 1.0), ("M_f6p_c", 1.0)]),
        reaction("R_THD2", "cobra_0_bound", "cobra_default_ub", &[("M_h_e", 2.0), ("M_nadh_c", 1.0), ("M_nadp_c", 1.0)], &[("M_h_c", 2.0), ("M_nad_c", 1.0), ("M_nadph_c", 1.0)]),
        reaction("R_TKT1", "cobra_default_lb", "cobra_default_ub", &[("M_r5p_c", 1.0), ("M_xu5p__D_c", 1.0)], &[("M_g3p_c", 1.0), ("M_s7p_c", 1.0)]),
        reaction("R_TKT2", "cobra_default_lb", "cobra_default_ub", &[("M_e4p_c", 1.0), ("M_xu5p__D_c", 1.0)], &[("M_f6p_c", 1.0), ("M_g3p_c", 1.0)]),
        reaction("R_TPI", "cobra_default_lb", "cobra_default_ub", &[("M_dhap_c", 1.0)], &[("M_g3p_c", 1.0)]),
    ]
}

fn ecoli_document() -> Document {
    Document {
        id: Some("e_coli_core".to_string()),
        name: Some("Escherichia coli str. K-12 substr. MG1655".to_string()),
        species: SPECIES
            .iter()
            .map(|(id, compartment)| Species { id: id.to_string(), compartment: compartment.to_string() })
            .collect(),
        reactions: ecoli_reactions(),
        parameters: PARAMETERS
            .iter()
            .map(|(id, value)| Parameter { id: id.to_string(), value: Some(to_real(*value)), constant: true })
            .collect(),
        objectives: vec!["R_BIOMASS_Ecoli_core_w_GAM".to_string()],
    }
}

/// Solves a program; the value of every variable, in order.
fn solve<S: Solver>(problem: &LpProblem, solver: S) -> Option<Vec<f64>> {
    let mut vars = ProblemVariables::new();
    let columns: Vec<Variable> = problem
        .variables
        .iter()
        .map(|v| vars.add(variable().min(float(v.lower)).max(float(v.upper))))
        .collect();
    let objective = columns[problem.objective];
    let mut model = match problem.direction {
        Direction::Maximise => vars.maximise(objective),
        Direction::Minimise => vars.minimise(objective),
    }
    .using(solver);
    for balance in &problem.constraints {
        let sum: Expression = balance.terms.iter().map(|t| columns[t.variable] * float(t.coefficient)).sum();
        model.add_constraint(constraint::eq(sum, 0.0));
    }
    let solution = model.solve().ok()?;
    Some(columns.iter().map(|c| solution.value(*c)).collect())
}

fn fba<S: Solver>(model: &ModelLp, solver: S) -> HashMap<String, f64> {
    let problem = model.fba_problem().unwrap();
    let values = solve(&problem, solver).unwrap();
    problem.variables.iter().zip(values).map(|(v, x)| (v.reaction.clone(), x)).collect()
}

fn extreme(model: &ModelLp, reaction: &String, direction: Direction) -> Option<Real> {
    let problem = model.lp_problem(reaction, direction).ok()?;
    let values = solve(&problem, clarabel)?;
    Some(to_real(values[problem.objective]))
}

fn fva(model: &ModelLp, reactions: &Vec<String>) -> HashMap<String, (f64, f64)> {
    let optimum = fba(model, clarabel)[&model.objective];
    let mut frozen = model.clone();
    frozen.fix_objective(to_real(optimum)).unwrap();
    let mut result = HashMap::new();
    for job in fva_jobs(reactions) {
        for reaction in job {
            let upper = extreme(&frozen, &reaction, Direction::Maximise);
            let lower = extreme(&frozen, &reaction, Direction::Minimise);
            let (low, high) = fva_bounds(lower, upper);
            result.insert(reaction, (float(low), float(high)));
        }
    }
    result
}

fn load() -> ModelLp {
    ModelLp::new(ecoli_document()).unwrap()
}

fn lower_bound(model: &ModelLp, id: &str) -> f64 {
    float(model.reaction(&id.to_string()).unwrap().lb)
}

#[test]
fn read_ecoli() {
    load();
}

#[test]
fn verify_bound() {
    let model = load();
    assert_eq!((lower_bound(&model, "R_ATPM") * 100.).round() as i32, 839);
}

#[test]
fn verify_neg_bound() {
    let model = load();
    println!(
        "{:?}",
        model
            .reactions
            .iter()
            .map(|(id, _)| id.to_string())
            .filter(|id| id.starts_with("R_EX"))
            .collect::<Vec<String>>()
    );
    assert_eq!(lower_bound(&model, "R_EX_glc__D_e").round() as i32, -10);
}

#[test]
fn optimize_ecoli() {
    let model = load();
    assert_eq!((fba(&model, default_solver)["R_BIOMASS_Ecoli_core_w_GAM"] * 10000.).round() as i32, 8739)
}

#[test]
fn flux_variability_analysis_looks_fine() {
    let model = load();
    let reactions: Vec<String> = model.reactions.iter().map(|(k, _v)| k.clone()).collect();
    let sol = fva(&model, &reactions);
    let total_flux: f64 = sol.values().map(|(low, up)| low + up).sum();
    println!("{:?}", sol);
    assert_eq!((sol["R_BIOMASS_Ecoli_core_w_GAM"].0 * 10000.).round() as i32, 8739);
    assert!(total_flux > 0f64);
}

#[test]
fn ecoli_balances_cover_every_metabolite() {
    let model = load();
    let problem = model.fba_problem().unwrap();
    assert_eq!(problem.variables.len(), 95);
    assert_eq!(problem.constraints.len(), 72);
    assert!(problem.constraints.iter().all(|b| !b.terms.is_empty()));
    assert_eq!(model.populate_model().len(), problem.constraints.len());
}

#[test]
fn ecoli_fva_covers_request_and_pins_objective() {
    let model = load();
    let reactions: Vec<String> = model.reactions.iter().map(|(k, _v)| k.clone()).collect();
    let sol = fva(&model, &reactions);
    assert_eq!(sol.len(), reactions.len());
    assert!(reactions.iter().all(|r| sol.contains_key(r)));
    let (low, high) = sol["R_BIOMASS_Ecoli_core_w_GAM"];
    assert!((low - high).abs() < 1e-6);
    for (low, high) in sol.values() {
        if !low.is_nan() && !high.is_nan() {
            assert!(*low <= *high + 1e-6);
        }
    }
}

