//! Picks a scenario by its name.

use vstd::prelude::*;
use std::rc::Rc;
use crate::error::BayesError;
use crate::scenarios::ScenarioMaker;
use crate::scenarios::dating_simple::{simple_dating_commands, DatingDraw, SimpleDating};
use crate::scenarios::dating_triangle::{triangle_commands, EligibilityTriangle};
use crate::scenarios::member_count;
use crate::scenarios::one_var::OneVariable;
use crate::scenarios::two_var::{two_var_commands, TwoVariable};
use crate::store::{command_views, StoreCommand};
use crate::text::text_eq;

verus! {

/// A scenario that the factory knows.
pub enum ScenarioChoice {
    SimpleDating(SimpleDating),
    EligibilityTriangle(EligibilityTriangle),
    OneVariable(OneVariable),
    TwoVariable(TwoVariable),
}

/// The name of the scenario that the factory hands out for a choice.
pub open spec fn choice_name(c: ScenarioChoice) -> Seq<char> {
    match c {
        ScenarioChoice::SimpleDating(_) => "SimpleDating"@,
        ScenarioChoice::EligibilityTriangle(_) => "EligibilityTriangle"@,
        ScenarioChoice::OneVariable(_) => "OneVariable"@,
        ScenarioChoice::TwoVariable(_) => "TwoVariable"@,
    }
}

/// Whether the factory knows a scenario of this name.
pub open spec fn known_scenario(name: Seq<char>) -> bool {
    name == "SimpleDating"@ || name == "EligibilityTriangle"@ || name == "OneVariable"@ || name
        == "TwoVariable"@
}

/// Hands out scenarios by name.
pub struct ScenarioMakerFactory;

impl ScenarioMakerFactory {
    /// The scenario named `scenario_name`, or an error naming it when there
    /// is none.
    pub fn new_shared(scenario_name: &str) -> (r: Result<Rc<ScenarioChoice>, BayesError>)
        ensures
            known_scenario(scenario_name@) <==> r is Ok,
            r matches Ok(c) ==> choice_name(*c) == scenario_name@,
            r matches Err(e) ==> (e matches BayesError::UnknownScenario(n) && n@ == scenario_name@),
    {
        if text_eq(scenario_name, "SimpleDating") {
            Ok(Rc::new(ScenarioChoice::SimpleDating(SimpleDating {  })))
        } else if text_eq(scenario_name, "EligibilityTriangle") {
            Ok(Rc::new(ScenarioChoice::EligibilityTriangle(EligibilityTriangle {  })))
        } else if text_eq(scenario_name, "OneVariable") {
            Ok(Rc::new(ScenarioChoice::OneVariable(OneVariable {  })))
        } else if text_eq(scenario_name, "TwoVariable") {
            Ok(Rc::new(ScenarioChoice::TwoVariable(TwoVariable {  })))
        } else {
            Err(BayesError::UnknownScenario(String::from_str(scenario_name)))
        }
    }
}

impl ScenarioChoice {
    /// Writes the chosen scenario; the one-variable scenario has no setup.
    pub fn setup_scenario(&self, namespace: &str, entities_per_domain: i32) -> (r: Vec<StoreCommand>)
        requires
            !(self is OneVariable),
        ensures
            self is SimpleDating ==> exists|draws: Seq<DatingDraw>|
                draws.len() == member_count(entities_per_domain) && command_views(r@)
                    == #[trigger] simple_dating_commands(namespace@, draws),
            self is EligibilityTriangle ==> exists|draws: Seq<bool>|
                draws.len() == member_count(entities_per_domain) && command_views(r@)
                    == #[trigger] triangle_commands(namespace@, draws),
            self is TwoVariable ==> exists|coins: Seq<bool>|
                coins.len() == member_count(entities_per_domain) && command_views(r@)
                    == #[trigger] two_var_commands(namespace@, coins),
    {
        match self {
            ScenarioChoice::SimpleDating(s) => s.setup_scenario(namespace, entities_per_domain),
            ScenarioChoice::EligibilityTriangle(s) => s.setup_scenario(namespace, entities_per_domain),
            ScenarioChoice::TwoVariable(s) => s.setup_scenario(namespace, entities_per_domain),
            ScenarioChoice::OneVariable(_) => Vec::new(),
        }
    }
}

} // verus!
