use vstd::prelude::*;

use crate::error::EfficiencyError;

verus! {

/// How many exponential terms the efficiency model has:
/// `y = a·exp(-x/b)` or `y = a·exp(-x/b) + c·exp(-x/d)`.
#[derive(Debug, Clone, Copy, PartialEq, Eq, Structural)]
pub enum ModelOrder {
    Single,
    Double,
}

/// The two roles a parameter plays in one exponential term: the amplitude,
/// which enters the model linearly, and the decay scale inside the exponent.
#[derive(Debug, Clone, Copy, PartialEq, Eq, Structural)]
pub enum ParameterKind {
    Amplitude,
    Decay,
}

impl ModelOrder {
    pub open spec fn spec_terms(self) -> nat {
        match self {
            ModelOrder::Single => 1,
            ModelOrder::Double => 2,
        }
    }

    /// Amplitudes and decay scales together.
    pub open spec fn spec_parameter_count(self) -> nat {
        2 * self.spec_terms()
    }

    /// Place of a parameter in the fitted parameter vector: all amplitudes first,
    /// in term order, then all decay scales, in term order.
    pub open spec fn spec_parameter_index(self, term: nat, kind: ParameterKind) -> nat {
        match kind {
            ParameterKind::Amplitude => term,
            ParameterKind::Decay => self.spec_terms() + term,
        }
    }

    /// The order with `terms` exponential terms; only one and two are models.
    pub fn from_terms(terms: usize) -> (r: Result<ModelOrder, EfficiencyError>)
        ensures
            terms == 1 <==> r == Ok::<ModelOrder, EfficiencyError>(ModelOrder::Single),
            terms == 2 <==> r == Ok::<ModelOrder, EfficiencyError>(ModelOrder::Double),
            terms != 1 && terms != 2 <==> r == Err::<ModelOrder, EfficiencyError>(
                EfficiencyError::InvalidInput,
            ),
    {
        if terms == 1 {
            Ok(ModelOrder::Single)
        } else if terms == 2 {
            Ok(ModelOrder::Double)
        } else {
            Err(EfficiencyError::InvalidInput)
        }
    }

    pub fn terms(&self) -> (r: usize)
        ensures
            r == self.spec_terms(),
    {
        match self {
            ModelOrder::Single => 1,
            ModelOrder::Double => 2,
        }
    }

    pub fn parameter_count(&self) -> (r: usize)
        ensures
            r == self.spec_parameter_count(),
    {
        2 * self.terms()
    }

    /// Where the amplitude or the decay scale of term `term` stands among the
    /// fitted parameters, and so in each row and column of their covariance.
    pub fn parameter_index(&self, term: usize, kind: ParameterKind) -> (r: usize)
        requires
            term < self.spec_terms(),
        ensures
            r == self.spec_parameter_index(term as nat, kind),
            r < self.spec_parameter_count(),
    {
        match kind {
            ParameterKind::Amplitude => term,
            ParameterKind::Decay => self.terms() + term,
        }
    }

    /// Index of entry `(row, column)` of the covariance matrix stored row after
    /// row in one flat sequence.
    pub fn covariance_index(&self, row: usize, column: usize) -> (r: usize)
        requires
            row < self.spec_parameter_count(),
            column < self.spec_parameter_count(),
        ensures
            r == row * self.spec_parameter_count() + column,
            r < self.spec_parameter_count() * self.spec_parameter_count(),
    {
        let n = self.parameter_count();
        proof {
            assert(row * n + column < n * n && n * n <= 16) by (nonlinear_arith)
                requires
                    row < n,
                    column < n,
                    n <= 4,
            ;
        }
        row * n + column
    }

    /// Degrees of freedom of a fit of this order to observation arrays of the
    /// given lengths: their common length less the number of parameters. Arrays
    /// of different lengths, or fewer observations than parameters, are refused.
    pub fn degrees_of_freedom(&self, x_len: usize, y_len: usize, weight_len: usize) -> (r: Result<
        usize,
        EfficiencyError,
    >)
        ensures
            r is Ok <==> (x_len == y_len && y_len == weight_len && x_len
                >= self.spec_parameter_count()),
            r matches Ok(dof) ==> dof == x_len - self.spec_parameter_count(),
            r matches Err(e) ==> e == EfficiencyError::InvalidInput,
    {
        let n = self.parameter_count();
        if x_len != y_len || y_len != weight_len || x_len < n {
            Err(EfficiencyError::InvalidInput)
        } else {
            Ok(x_len - n)
        }
    }
}

} // verus!
