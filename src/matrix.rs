//! The species-interaction matrix: a `K x K` table of signed coefficients.
use crate::error::ConfigError;
use crate::fixed::SCALE;
use crate::force::{valid_strength, COEF_LIMIT};
use crate::random::draw_in;
use rand::rngs::StdRng;
use vstd::prelude::*;

verus! {

/// Largest admissible number of species.
pub const MAX_SPECIES: usize = 1024;

/// Row-major `K x K` table; entry `(i, j)` is what species `i` contributes
/// when it interacts with species `j`.
#[derive(Clone, Debug)]
pub struct InteractionMatrix {
    pub species: usize,
    pub coefficients: Vec<i64>,
}

impl InteractionMatrix {
    /// Coefficient of species `i` towards species `j`.
    pub open spec fn coef(&self, i: int, j: int) -> int {
        self.coefficients@[i * self.species + j] as int
    }

    pub open spec fn wf(&self) -> bool {
        &&& 1 <= self.species <= MAX_SPECIES
        &&& self.coefficients@.len() == self.species * self.species
        &&& forall|i: int| 0 <= i < self.coefficients@.len() ==> valid_strength(
            #[trigger] self.coefficients@[i] as int,
        )
    }

    /// `[i][j] == [j][i]` for all species.
    pub open spec fn is_symmetric(&self) -> bool {
        forall|i: int, j: int|
            0 <= i < self.species && 0 <= j < self.species ==> #[trigger] self.coef(i, j)
                == #[trigger] self.coef(j, i)
    }

    pub proof fn lemma_coef_valid(&self, i: int, j: int)
        requires
            self.wf(),
            0 <= i < self.species,
            0 <= j < self.species,
        ensures
            0 <= i * self.species <= i * self.species + j < self.coefficients@.len(),
            self.coefficients@.len() <= MAX_SPECIES * MAX_SPECIES,
            valid_strength(self.coef(i, j)),
    {
        let k = self.species as int;
        Self::lemma_cells_fit(self.species);
        assert(0 <= i * k <= i * k + j < k * k) by (nonlinear_arith)
            requires
                0 <= i < k,
                0 <= j < k,
        ;
    }

    proof fn lemma_cells_fit(species: usize)
        requires
            species <= MAX_SPECIES,
        ensures
            species * species <= MAX_SPECIES * MAX_SPECIES,
    {
        assert(species * species <= MAX_SPECIES * MAX_SPECIES) by (nonlinear_arith)
            requires
                species <= MAX_SPECIES,
        ;
    }

    /// A matrix from its rows laid end to end. Fails when there is no species,
    /// too many of them, a length other than `species * species`, or a
    /// coefficient outside `[-COEF_LIMIT, COEF_LIMIT]`.
    pub fn new(species: usize, coefficients: Vec<i64>) -> (r: Result<InteractionMatrix, ConfigError>)
        ensures
            r is Ok <==> (1 <= species <= MAX_SPECIES && coefficients@.len() == species * species
                && forall|i: int|
                0 <= i < coefficients@.len() ==> valid_strength(#[trigger] coefficients@[i] as int)),
            r matches Ok(m) ==> m.wf() && m.species == species && m.coefficients@
                == coefficients@,
            r is Err ==> r == Err::<InteractionMatrix, ConfigError>(ConfigError::InvalidMatrix),
    {
        if species < 1 || species > MAX_SPECIES {
            return Err(ConfigError::InvalidMatrix);
        }
        proof {
            Self::lemma_cells_fit(species);
        }
        if coefficients.len() != species * species {
            return Err(ConfigError::InvalidMatrix);
        }
        let mut i: usize = 0;
        while i < coefficients.len()
            invariant
                i <= coefficients@.len(),
                forall|t: int| 0 <= t < i ==> valid_strength(#[trigger] coefficients@[t] as int),
            decreases coefficients@.len() - i,
        {
            if coefficients[i] < -COEF_LIMIT || coefficients[i] > COEF_LIMIT {
                return Err(ConfigError::InvalidMatrix);
            }
            i += 1;
        }
        Ok(InteractionMatrix { species, coefficients })
    }

    /// A matrix whose every cell is drawn independently from `[-1.0, 1.0]`.
    pub fn generate(species: usize, rng: &mut StdRng) -> (r: InteractionMatrix)
        requires
            1 <= species <= MAX_SPECIES,
        ensures
            r.wf(),
            r.species == species,
            forall|i: int| 0 <= i < r.coefficients@.len() ==> -SCALE <= #[trigger] r.coefficients@[i] <= SCALE,
    {
        proof {
            Self::lemma_cells_fit(species);
        }
        let cells: usize = species * species;
        let mut coefficients: Vec<i64> = Vec::new();
        while coefficients.len() < cells
            invariant
                coefficients@.len() <= cells,
                forall|i: int|
                    0 <= i < coefficients@.len() ==> -SCALE <= #[trigger] coefficients@[i] <= SCALE,
            decreases cells - coefficients@.len(),
        {
            let c = draw_in(rng, -SCALE, SCALE + 1);
            coefficients.push(c);
        }
        InteractionMatrix { species, coefficients }
    }

    /// Whether the matrix is well formed (see `wf`).
    pub fn is_valid(&self) -> (r: bool)
        ensures
            r == self.wf(),
    {
        if self.species < 1 || self.species > MAX_SPECIES {
            return false;
        }
        proof {
            Self::lemma_cells_fit(self.species);
        }
        if self.coefficients.len() != self.species * self.species {
            return false;
        }
        let mut i: usize = 0;
        while i < self.coefficients.len()
            invariant
                i <= self.coefficients@.len(),
                forall|t: int| 0 <= t < i ==> valid_strength(#[trigger] self.coefficients@[t] as int),
            decreases self.coefficients@.len() - i,
        {
            if self.coefficients[i] < -COEF_LIMIT || self.coefficients[i] > COEF_LIMIT {
                return false;
            }
            i += 1;
        }
        true
    }

    /// Coefficient of species `i` towards species `j`.
    pub fn get(&self, i: usize, j: usize) -> (r: i64)
        requires
            self.wf(),
            i < self.species,
            j < self.species,
        ensures
            r == self.coef(i as int, j as int),
            valid_strength(r as int),
    {
        proof {
            self.lemma_coef_valid(i as int, j as int);
        }
        self.coefficients[i * self.species + j]
    }
}

} // verus!
