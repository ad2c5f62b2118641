use vstd::prelude::*;
use std::collections::{HashMap, HashSet};
use crate::config::app_config::AppConfig;
use crate::components::orchestrator::matrix_view;
use crate::components::summa::array_matrix;

verus! {

broadcast use vstd::std_specs::hash::group_hash_axioms;

/// An application run: its configuration, the calculations still open and
/// the result of each finished calculation.
pub struct Application {
    pub id: u32,
    pub config: AppConfig,
    pub open_calculations: HashSet<u32>,
    pub results: HashMap<u32, Result<Vec<Vec<u32>>, String>>,
}

/// The abstract state of an application.
pub struct ApplicationState {
    pub id: u32,
    pub config: AppConfig,
    pub open_calculations: Set<u32>,
    pub results: Map<u32, Result<Vec<Vec<u32>>, String>>,
}

impl View for Application {
    type V = ApplicationState;

    open spec fn view(&self) -> ApplicationState {
        ApplicationState {
            id: self.id,
            config: self.config,
            open_calculations: self.open_calculations@,
            results: self.results@,
        }
    }
}

/// The rows of a 3 by 3 matrix as vectors.
pub fn to_vector(m: [[u32; 3]; 3]) -> (v: Vec<Vec<u32>>)
    ensures
        matrix_view(v) == array_matrix(m),
{
    let v = vec![
        vec![m[0][0], m[0][1], m[0][2]],
        vec![m[1][0], m[1][1], m[1][2]],
        vec![m[2][0], m[2][1], m[2][2]],
    ];
    proof {
        assert(matrix_view(v)[0] =~= array_matrix(m)[0]);
        assert(matrix_view(v)[1] =~= array_matrix(m)[1]);
        assert(matrix_view(v)[2] =~= array_matrix(m)[2]);
        assert(matrix_view(v) =~= array_matrix(m));
    }
    v
}

impl Application {
    /// An application with no open calculation and no result.
    pub fn new(id: u32, config: AppConfig) -> (app: Self)
        ensures
            app@.id == id,
            app@.config == config,
            app@.open_calculations == Set::<u32>::empty(),
            app@.results == Map::<u32, Result<Vec<Vec<u32>>, String>>::empty(),
    {
        Application { id, config: config, open_calculations: HashSet::new(), results: HashMap::new() }
    }

    /// The configuration the application runs with.
    pub fn config(&self) -> (config: AppConfig)
        ensures
            config == self@.config,
    {
        self.config
    }

    /// Records the outcome of calculation `calc_id`, which is then no longer
    /// open.
    pub fn record_result(&mut self, calc_id: u32, result: Result<Vec<Vec<u32>>, String>)
        ensures
            final(self)@.id == old(self)@.id,
            final(self)@.config == old(self)@.config,
            final(self)@.results == old(self)@.results.insert(calc_id, result),
            final(self)@.open_calculations == old(self)@.open_calculations.remove(calc_id),
    {
        self.results.insert(calc_id, result);
        self.open_calculations.remove(&calc_id);
    }
}

} // verus!
