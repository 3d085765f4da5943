//! Layer 1: the rule library, a retrievable knowledge base of mathematical
//! rules organised by domain and tier, with prerequisite chains.
use vstd::prelude::*;
use crate::text::str_eq;

verus! {

// ============================================================================
// DOMAIN AND TIER
// ============================================================================

/// Mathematical domains, ordered by tier (prerequisite depth).
#[derive(Debug, Clone, Copy, PartialEq, Eq, Structural, Hash)]
pub enum Domain {
    CoreArithmetic,
    ExtendedArithmetic,
    Properties,
    PreAlgebra,
    Algebra,
    AdvancedAlgebra,
    Trigonometry,
    Calculus,
    LinearAlgebra,
    AbstractApplied,
}

/// All domains in tier order.
pub const ALL_DOMAINS: [Domain; 10] = [
    Domain::CoreArithmetic,
    Domain::ExtendedArithmetic,
    Domain::Properties,
    Domain::PreAlgebra,
    Domain::Algebra,
    Domain::AdvancedAlgebra,
    Domain::Trigonometry,
    Domain::Calculus,
    Domain::LinearAlgebra,
    Domain::AbstractApplied,
];

impl Domain {
    /// The tier number of the domain.
    pub open spec fn spec_tier(self) -> nat {
        match self {
            Domain::CoreArithmetic => 0,
            Domain::ExtendedArithmetic => 1,
            Domain::Properties => 2,
            Domain::PreAlgebra => 3,
            Domain::Algebra => 4,
            Domain::AdvancedAlgebra => 5,
            Domain::Trigonometry => 6,
            Domain::Calculus => 7,
            Domain::LinearAlgebra => 8,
            Domain::AbstractApplied => 9,
        }
    }

    /// The tier number for this domain.
    pub fn tier(&self) -> (t: u8)
        ensures
            t == self.spec_tier(),
            t <= 9,
    {
        match self {
            Domain::CoreArithmetic => 0,
            Domain::ExtendedArithmetic => 1,
            Domain::Properties => 2,
            Domain::PreAlgebra => 3,
            Domain::Algebra => 4,
            Domain::AdvancedAlgebra => 5,
            Domain::Trigonometry => 6,
            Domain::Calculus => 7,
            Domain::LinearAlgebra => 8,
            Domain::AbstractApplied => 9,
        }
    }

    /// All domains in tier order.
    pub fn all() -> (r: &'static [Domain])
        ensures
            r@.len() == 10,
            forall|i: int| 0 <= i < 10 ==> (#[trigger] r@[i]).spec_tier() == i,
    {
        let r: &'static [Domain] = &ALL_DOMAINS;
        r
    }

    /// The human-readable name of the domain.
    pub open spec fn spec_display_name(self) -> Seq<char> {
        match self {
            Domain::CoreArithmetic => "Core Arithmetic"@,
            Domain::ExtendedArithmetic => "Extended Arithmetic"@,
            Domain::Properties => "Properties"@,
            Domain::PreAlgebra => "Pre-Algebra"@,
            Domain::Algebra => "Algebra"@,
            Domain::AdvancedAlgebra => "Advanced Algebra"@,
            Domain::Trigonometry => "Trigonometry"@,
            Domain::Calculus => "Calculus"@,
            Domain::LinearAlgebra => "Linear Algebra"@,
            Domain::AbstractApplied => "Abstract/Applied"@,
        }
    }

    /// The human-readable name of the domain (e.g. "Core Arithmetic").
    pub fn display_name(&self) -> (s: &'static str)
        ensures
            s@ == self.spec_display_name(),
    {
        match self {
            Domain::CoreArithmetic => "Core Arithmetic",
            Domain::ExtendedArithmetic => "Extended Arithmetic",
            Domain::Properties => "Properties",
            Domain::PreAlgebra => "Pre-Algebra",
            Domain::Algebra => "Algebra",
            Domain::AdvancedAlgebra => "Advanced Algebra",
            Domain::Trigonometry => "Trigonometry",
            Domain::Calculus => "Calculus",
            Domain::LinearAlgebra => "Linear Algebra",
            Domain::AbstractApplied => "Abstract/Applied",
        }
    }

    /// The identifier of the domain as written in code (e.g. "CoreArithmetic").
    pub open spec fn spec_code_name(self) -> Seq<char> {
        match self {
            Domain::CoreArithmetic => "CoreArithmetic"@,
            Domain::ExtendedArithmetic => "ExtendedArithmetic"@,
            Domain::Properties => "Properties"@,
            Domain::PreAlgebra => "PreAlgebra"@,
            Domain::Algebra => "Algebra"@,
            Domain::AdvancedAlgebra => "AdvancedAlgebra"@,
            Domain::Trigonometry => "Trigonometry"@,
            Domain::Calculus => "Calculus"@,
            Domain::LinearAlgebra => "LinearAlgebra"@,
            Domain::AbstractApplied => "AbstractApplied"@,
        }
    }

    /// The identifier of the domain as written in code (e.g. "CoreArithmetic").
    pub fn code_name(&self) -> (s: &'static str)
        ensures
            s@ == self.spec_code_name(),
    {
        match self {
            Domain::CoreArithmetic => "CoreArithmetic",
            Domain::ExtendedArithmetic => "ExtendedArithmetic",
            Domain::Properties => "Properties",
            Domain::PreAlgebra => "PreAlgebra",
            Domain::Algebra => "Algebra",
            Domain::AdvancedAlgebra => "AdvancedAlgebra",
            Domain::Trigonometry => "Trigonometry",
            Domain::Calculus => "Calculus",
            Domain::LinearAlgebra => "LinearAlgebra",
            Domain::AbstractApplied => "AbstractApplied",
        }
    }
}

// ============================================================================
// MATHEMATICAL PROPERTIES
// ============================================================================

/// Properties that a rule or operation may possess.
#[derive(Debug, Clone, Copy, PartialEq, Eq, Structural, Hash)]
pub enum Property {
    Commutative,
    Associative,
    Distributive,
    HasIdentity,
    HasInverse,
    Idempotent,
    Closure,
    Transitive,
    Symmetric,
    Reflexive,
}

// ============================================================================
// PATTERN TYPES
// ============================================================================

/// Pattern types that expressions are classified into and rules are retrieved by.
#[derive(Debug, Clone, PartialEq, Eq, Hash)]
pub enum PatternType {
    SingleDigitAddition,
    SingleDigitSubtraction,
    SingleDigitMultiplication,
    SingleDigitDivision,
    MultiDigitAddition,
    MultiDigitSubtraction,
    MultiDigitMultiplication,
    MultiDigitDivision,
    OrderOfOperations,
    PlaceValueDecomposition,
    PlaceValueComposition,
    CommutativeApplication,
    AssociativeApplication,
    DistributiveExpansion,
    DistributiveFactoring,
    IdentityApplication,
    InverseApplication,
    FractionAddition,
    FractionSubtraction,
    FractionMultiplication,
    FractionDivision,
    FractionSimplification,
    DecimalConversion,
    PercentageCalculation,
    ExponentEvaluation,
    ExponentRules,
    SquareRoot,
    NthRoot,
    AbsoluteValue,
    Ratio,
    Proportion,
    ScientificNotation,
    GCD,
    LCM,
    PrimeFactorization,
    VariableSubstitution,
    LikeTermsCombination,
    LinearEquationSolve,
    LinearInequalitySolve,
    QuadraticEquationSolve,
    PolynomialAddition,
    PolynomialMultiplication,
    PolynomialDivision,
    Factoring,
    FunctionEvaluation,
    FunctionComposition,
    DomainRange,
    SlopeIntercept,
    PointSlope,
    SystemOfEquations,
    MatrixAddition,
    MatrixMultiplication,
    MatrixDeterminant,
    MatrixInverse,
    ComplexAddition,
    ComplexMultiplication,
    ComplexConjugate,
    ComplexModulus,
    ArithmeticSequence,
    GeometricSequence,
    SeriesSum,
    Logarithm,
    LogarithmRules,
    ExponentialEquation,
    TrigEvaluation,
    TrigIdentity,
    InverseTrig,
    UnitCircleLookup,
    LawOfSines,
    LawOfCosines,
    TrigEquationSolve,
    PolarRectangularConversion,
    LimitEvaluation,
    DerivativeBasic,
    DerivativeChainRule,
    DerivativeProductRule,
    DerivativeQuotientRule,
    IntegralBasic,
    IntegralBySubstitution,
    IntegralByParts,
    DefiniteIntegral,
    SeriesConvergence,
    TaylorSeries,
    DifferentialEquation,
    PartialDerivative,
    MultipleIntegral,
    VectorAddition,
    VectorDotProduct,
    VectorCrossProduct,
    VectorNorm,
    MatrixTranspose,
    Eigenvalue,
    Eigenvector,
    LinearTransformation,
    MatrixDecomposition,
    VectorProjection,
    GramSchmidt,
    RankNullity,
    ModularArithmetic,
    Permutation,
    Combination,
    ProbabilityBasic,
    ProbabilityConditional,
    BayesTheorem,
    ExpectedValue,
    Variance,
    StandardDeviation,
    NormalDistribution,
    HypothesisTest,
    GraphAdjacency,
    ShortestPath,
    Optimization,
    Custom(String),
}

impl PatternType {
    /// A number identifying the variant.
    pub open spec fn spec_tag(self) -> nat {
        match self {
            PatternType::SingleDigitAddition => 0,
            PatternType::SingleDigitSubtraction => 1,
            PatternType::SingleDigitMultiplication => 2,
            PatternType::SingleDigitDivision => 3,
            PatternType::MultiDigitAddition => 4,
            PatternType::MultiDigitSubtraction => 5,
            PatternType::MultiDigitMultiplication => 6,
            PatternType::MultiDigitDivision => 7,
            PatternType::OrderOfOperations => 8,
            PatternType::PlaceValueDecomposition => 9,
            PatternType::PlaceValueComposition => 10,
            PatternType::CommutativeApplication => 11,
            PatternType::AssociativeApplication => 12,
            PatternType::DistributiveExpansion => 13,
            PatternType::DistributiveFactoring => 14,
            PatternType::IdentityApplication => 15,
            PatternType::InverseApplication => 16,
            PatternType::FractionAddition => 17,
            PatternType::FractionSubtraction => 18,
            PatternType::FractionMultiplication => 19,
            PatternType::FractionDivision => 20,
            PatternType::FractionSimplification => 21,
            PatternType::DecimalConversion => 22,
            PatternType::PercentageCalculation => 23,
            PatternType::ExponentEvaluation => 24,
            PatternType::ExponentRules => 25,
            PatternType::SquareRoot => 26,
            PatternType::NthRoot => 27,
            PatternType::AbsoluteValue => 28,
            PatternType::Ratio => 29,
            PatternType::Proportion => 30,
            PatternType::ScientificNotation => 31,
            PatternType::GCD => 32,
            PatternType::LCM => 33,
            PatternType::PrimeFactorization => 34,
            PatternType::VariableSubstitution => 35,
            PatternType::LikeTermsCombination => 36,
            PatternType::LinearEquationSolve => 37,
            PatternType::LinearInequalitySolve => 38,
            PatternType::QuadraticEquationSolve => 39,
            PatternType::PolynomialAddition => 40,
            PatternType::PolynomialMultiplication => 41,
            PatternType::PolynomialDivision => 42,
            PatternType::Factoring => 43,
            PatternType::FunctionEvaluation => 44,
            PatternType::FunctionComposition => 45,
            PatternType::DomainRange => 46,
            PatternType::SlopeIntercept => 47,
            PatternType::PointSlope => 48,
            PatternType::SystemOfEquations => 49,
            PatternType::MatrixAddition => 50,
            PatternType::MatrixMultiplication => 51,
            PatternType::MatrixDeterminant => 52,
            PatternType::MatrixInverse => 53,
            PatternType::ComplexAddition => 54,
            PatternType::ComplexMultiplication => 55,
            PatternType::ComplexConjugate => 56,
            PatternType::ComplexModulus => 57,
            PatternType::ArithmeticSequence => 58,
            PatternType::GeometricSequence => 59,
            PatternType::SeriesSum => 60,
            PatternType::Logarithm => 61,
            PatternType::LogarithmRules => 62,
            PatternType::ExponentialEquation => 63,
            PatternType::TrigEvaluation => 64,
            PatternType::TrigIdentity => 65,
            PatternType::InverseTrig => 66,
            PatternType::UnitCircleLookup => 67,
            PatternType::LawOfSines => 68,
            PatternType::LawOfCosines => 69,
            PatternType::TrigEquationSolve => 70,
            PatternType::PolarRectangularConversion => 71,
            PatternType::LimitEvaluation => 72,
            PatternType::DerivativeBasic => 73,
            PatternType::DerivativeChainRule => 74,
            PatternType::DerivativeProductRule => 75,
            PatternType::DerivativeQuotientRule => 76,
            PatternType::IntegralBasic => 77,
            PatternType::IntegralBySubstitution => 78,
            PatternType::IntegralByParts => 79,
            PatternType::DefiniteIntegral => 80,
            PatternType::SeriesConvergence => 81,
            PatternType::TaylorSeries => 82,
            PatternType::DifferentialEquation => 83,
            PatternType::PartialDerivative => 84,
            PatternType::MultipleIntegral => 85,
            PatternType::VectorAddition => 86,
            PatternType::VectorDotProduct => 87,
            PatternType::VectorCrossProduct => 88,
            PatternType::VectorNorm => 89,
            PatternType::MatrixTranspose => 90,
            PatternType::Eigenvalue => 91,
            PatternType::Eigenvector => 92,
            PatternType::LinearTransformation => 93,
            PatternType::MatrixDecomposition => 94,
            PatternType::VectorProjection => 95,
            PatternType::GramSchmidt => 96,
            PatternType::RankNullity => 97,
            PatternType::ModularArithmetic => 98,
            PatternType::Permutation => 99,
            PatternType::Combination => 100,
            PatternType::ProbabilityBasic => 101,
            PatternType::ProbabilityConditional => 102,
            PatternType::BayesTheorem => 103,
            PatternType::ExpectedValue => 104,
            PatternType::Variance => 105,
            PatternType::StandardDeviation => 106,
            PatternType::NormalDistribution => 107,
            PatternType::HypothesisTest => 108,
            PatternType::GraphAdjacency => 109,
            PatternType::ShortestPath => 110,
            PatternType::Optimization => 111,
            PatternType::Custom(_) => 112,
        }
    }

    spec fn from_tag(t: nat) -> PatternType {
        if t == 0 {
            PatternType::SingleDigitAddition
        } else if t == 1 {
            PatternType::SingleDigitSubtraction
        } else if t == 2 {
            PatternType::SingleDigitMultiplication
        } else if t == 3 {
            PatternType::SingleDigitDivision
        } else if t == 4 {
            PatternType::MultiDigitAddition
        } else if t == 5 {
            PatternType::MultiDigitSubtraction
        } else if t == 6 {
            PatternType::MultiDigitMultiplication
        } else if t == 7 {
            PatternType::MultiDigitDivision
        } else if t == 8 {
            PatternType::OrderOfOperations
        } else if t == 9 {
            PatternType::PlaceValueDecomposition
        } else if t == 10 {
            PatternType::PlaceValueComposition
        } else if t == 11 {
            PatternType::CommutativeApplication
        } else if t == 12 {
            PatternType::AssociativeApplication
        } else if t == 13 {
            PatternType::DistributiveExpansion
        } else if t == 14 {
            PatternType::DistributiveFactoring
        } else if t == 15 {
            PatternType::IdentityApplication
        } else if t == 16 {
            PatternType::InverseApplication
        } else if t == 17 {
            PatternType::FractionAddition
        } else if t == 18 {
            PatternType::FractionSubtraction
        } else if t == 19 {
            PatternType::FractionMultiplication
        } else if t == 20 {
            PatternType::FractionDivision
        } else if t == 21 {
            PatternType::FractionSimplification
        } else if t == 22 {
            PatternType::DecimalConversion
        } else if t == 23 {
            PatternType::PercentageCalculation
        } else if t == 24 {
            PatternType::ExponentEvaluation
        } else if t == 25 {
            PatternType::ExponentRules
        } else if t == 26 {
            PatternType::SquareRoot
        } else if t == 27 {
            PatternType::NthRoot
        } else if t == 28 {
            PatternType::AbsoluteValue
        } else if t == 29 {
            PatternType::Ratio
        } else if t == 30 {
            PatternType::Proportion
        } else if t == 31 {
            PatternType::ScientificNotation
        } else if t == 32 {
            PatternType::GCD
        } else if t == 33 {
            PatternType::LCM
        } else if t == 34 {
            PatternType::PrimeFactorization
        } else if t == 35 {
            PatternType::VariableSubstitution
        } else if t == 36 {
            PatternType::LikeTermsCombination
        } else if t == 37 {
            PatternType::LinearEquationSolve
        } else if t == 38 {
            PatternType::LinearInequalitySolve
        } else if t == 39 {
            PatternType::QuadraticEquationSolve
        } else if t == 40 {
            PatternType::PolynomialAddition
        } else if t == 41 {
            PatternType::PolynomialMultiplication
        } else if t == 42 {
            PatternType::PolynomialDivision
        } else if t == 43 {
            PatternType::Factoring
        } else if t == 44 {
            PatternType::FunctionEvaluation
        } else if t == 45 {
            PatternType::FunctionComposition
        } else if t == 46 {
            PatternType::DomainRange
        } else if t == 47 {
            PatternType::SlopeIntercept
        } else if t == 48 {
            PatternType::PointSlope
        } else if t == 49 {
            PatternType::SystemOfEquations
        } else if t == 50 {
            PatternType::MatrixAddition
        } else if t == 51 {
            PatternType::MatrixMultiplication
        } else if t == 52 {
            PatternType::MatrixDeterminant
        } else if t == 53 {
            PatternType::MatrixInverse
        } else if t == 54 {
            PatternType::ComplexAddition
        } else if t == 55 {
            PatternType::ComplexMultiplication
        } else if t == 56 {
            PatternType::ComplexConjugate
        } else if t == 57 {
            PatternType::ComplexModulus
        } else if t == 58 {
            PatternType::ArithmeticSequence
        } else if t == 59 {
            PatternType::GeometricSequence
        } else if t == 60 {
            PatternType::SeriesSum
        } else if t == 61 {
            PatternType::Logarithm
        } else if t == 62 {
            PatternType::LogarithmRules
        } else if t == 63 {
            PatternType::ExponentialEquation
        } else if t == 64 {
            PatternType::TrigEvaluation
        } else if t == 65 {
            PatternType::TrigIdentity
        } else if t == 66 {
            PatternType::InverseTrig
        } else if t == 67 {
            PatternType::UnitCircleLookup
        } else if t == 68 {
            PatternType::LawOfSines
        } else if t == 69 {
            PatternType::LawOfCosines
        } else if t == 70 {
            PatternType::TrigEquationSolve
        } else if t == 71 {
            PatternType::PolarRectangularConversion
        } else if t == 72 {
            PatternType::LimitEvaluation
        } else if t == 73 {
            PatternType::DerivativeBasic
        } else if t == 74 {
            PatternType::DerivativeChainRule
        } else if t == 75 {
            PatternType::DerivativeProductRule
        } else if t == 76 {
            PatternType::DerivativeQuotientRule
        } else if t == 77 {
            PatternType::IntegralBasic
        } else if t == 78 {
            PatternType::IntegralBySubstitution
        } else if t == 79 {
            PatternType::IntegralByParts
        } else if t == 80 {
            PatternType::DefiniteIntegral
        } else if t == 81 {
            PatternType::SeriesConvergence
        } else if t == 82 {
            PatternType::TaylorSeries
        } else if t == 83 {
            PatternType::DifferentialEquation
        } else if t == 84 {
            PatternType::PartialDerivative
        } else if t == 85 {
            PatternType::MultipleIntegral
        } else if t == 86 {
            PatternType::VectorAddition
        } else if t == 87 {
            PatternType::VectorDotProduct
        } else if t == 88 {
            PatternType::VectorCrossProduct
        } else if t == 89 {
            PatternType::VectorNorm
        } else if t == 90 {
            PatternType::MatrixTranspose
        } else if t == 91 {
            PatternType::Eigenvalue
        } else if t == 92 {
            PatternType::Eigenvector
        } else if t == 93 {
            PatternType::LinearTransformation
        } else if t == 94 {
            PatternType::MatrixDecomposition
        } else if t == 95 {
            PatternType::VectorProjection
        } else if t == 96 {
            PatternType::GramSchmidt
        } else if t == 97 {
            PatternType::RankNullity
        } else if t == 98 {
            PatternType::ModularArithmetic
        } else if t == 99 {
            PatternType::Permutation
        } else if t == 100 {
            PatternType::Combination
        } else if t == 101 {
            PatternType::ProbabilityBasic
        } else if t == 102 {
            PatternType::ProbabilityConditional
        } else if t == 103 {
            PatternType::BayesTheorem
        } else if t == 104 {
            PatternType::ExpectedValue
        } else if t == 105 {
            PatternType::Variance
        } else if t == 106 {
            PatternType::StandardDeviation
        } else if t == 107 {
            PatternType::NormalDistribution
        } else if t == 108 {
            PatternType::HypothesisTest
        } else if t == 109 {
            PatternType::GraphAdjacency
        } else if t == 110 {
            PatternType::ShortestPath
        } else if t == 111 {
            PatternType::Optimization
        } else {
            arbitrary()
        }
    }

    proof fn lemma_from_tag(self)
        requires
            !(self is Custom),
        ensures
            Self::from_tag(self.spec_tag()) == self,
    {
    }

    fn tag(&self) -> (t: u8)
        ensures
            t == self.spec_tag(),
    {
        match self {
            PatternType::SingleDigitAddition => 0,
            PatternType::SingleDigitSubtraction => 1,
            PatternType::SingleDigitMultiplication => 2,
            PatternType::SingleDigitDivision => 3,
            PatternType::MultiDigitAddition => 4,
            PatternType::MultiDigitSubtraction => 5,
            PatternType::MultiDigitMultiplication => 6,
            PatternType::MultiDigitDivision => 7,
            PatternType::OrderOfOperations => 8,
            PatternType::PlaceValueDecomposition => 9,
            PatternType::PlaceValueComposition => 10,
            PatternType::CommutativeApplication => 11,
            PatternType::AssociativeApplication => 12,
            PatternType::DistributiveExpansion => 13,
            PatternType::DistributiveFactoring => 14,
            PatternType::IdentityApplication => 15,
            PatternType::InverseApplication => 16,
            PatternType::FractionAddition => 17,
            PatternType::FractionSubtraction => 18,
            PatternType::FractionMultiplication => 19,
            PatternType::FractionDivision => 20,
            PatternType::FractionSimplification => 21,
            PatternType::DecimalConversion => 22,
            PatternType::PercentageCalculation => 23,
            PatternType::ExponentEvaluation => 24,
            PatternType::ExponentRules => 25,
            PatternType::SquareRoot => 26,
            PatternType::NthRoot => 27,
            PatternType::AbsoluteValue => 28,
            PatternType::Ratio => 29,
            PatternType::Proportion => 30,
            PatternType::ScientificNotation => 31,
            PatternType::GCD => 32,
            PatternType::LCM => 33,
            PatternType::PrimeFactorization => 34,
            PatternType::VariableSubstitution => 35,
            PatternType::LikeTermsCombination => 36,
            PatternType::LinearEquationSolve => 37,
            PatternType::LinearInequalitySolve => 38,
            PatternType::QuadraticEquationSolve => 39,
            PatternType::PolynomialAddition => 40,
            PatternType::PolynomialMultiplication => 41,
            PatternType::PolynomialDivision => 42,
            PatternType::Factoring => 43,
            PatternType::FunctionEvaluation => 44,
            PatternType::FunctionComposition => 45,
            PatternType::DomainRange => 46,
            PatternType::SlopeIntercept => 47,
            PatternType::PointSlope => 48,
            PatternType::SystemOfEquations => 49,
            PatternType::MatrixAddition => 50,
            PatternType::MatrixMultiplication => 51,
            PatternType::MatrixDeterminant => 52,
            PatternType::MatrixInverse => 53,
            PatternType::ComplexAddition => 54,
            PatternType::ComplexMultiplication => 55,
            PatternType::ComplexConjugate => 56,
            PatternType::ComplexModulus => 57,
            PatternType::ArithmeticSequence => 58,
            PatternType::GeometricSequence => 59,
            PatternType::SeriesSum => 60,
            PatternType::Logarithm => 61,
            PatternType::LogarithmRules => 62,
            PatternType::ExponentialEquation => 63,
            PatternType::TrigEvaluation => 64,
            PatternType::TrigIdentity => 65,
            PatternType::InverseTrig => 66,
            PatternType::UnitCircleLookup => 67,
            PatternType::LawOfSines => 68,
            PatternType::LawOfCosines => 69,
            PatternType::TrigEquationSolve => 70,
            PatternType::PolarRectangularConversion => 71,
            PatternType::LimitEvaluation => 72,
            PatternType::DerivativeBasic => 73,
            PatternType::DerivativeChainRule => 74,
            PatternType::DerivativeProductRule => 75,
            PatternType::DerivativeQuotientRule => 76,
            PatternType::IntegralBasic => 77,
            PatternType::IntegralBySubstitution => 78,
            PatternType::IntegralByParts => 79,
            PatternType::DefiniteIntegral => 80,
            PatternType::SeriesConvergence => 81,
            PatternType::TaylorSeries => 82,
            PatternType::DifferentialEquation => 83,
            PatternType::PartialDerivative => 84,
            PatternType::MultipleIntegral => 85,
            PatternType::VectorAddition => 86,
            PatternType::VectorDotProduct => 87,
            PatternType::VectorCrossProduct => 88,
            PatternType::VectorNorm => 89,
            PatternType::MatrixTranspose => 90,
            PatternType::Eigenvalue => 91,
            PatternType::Eigenvector => 92,
            PatternType::LinearTransformation => 93,
            PatternType::MatrixDecomposition => 94,
            PatternType::VectorProjection => 95,
            PatternType::GramSchmidt => 96,
            PatternType::RankNullity => 97,
            PatternType::ModularArithmetic => 98,
            PatternType::Permutation => 99,
            PatternType::Combination => 100,
            PatternType::ProbabilityBasic => 101,
            PatternType::ProbabilityConditional => 102,
            PatternType::BayesTheorem => 103,
            PatternType::ExpectedValue => 104,
            PatternType::Variance => 105,
            PatternType::StandardDeviation => 106,
            PatternType::NormalDistribution => 107,
            PatternType::HypothesisTest => 108,
            PatternType::GraphAdjacency => 109,
            PatternType::ShortestPath => 110,
            PatternType::Optimization => 111,
            PatternType::Custom(_) => 112,
        }
    }

    /// Pattern equality: the same variant, and for custom patterns the same name.
    pub open spec fn equiv(self, other: PatternType) -> bool {
        match (self, other) {
            (PatternType::Custom(a), PatternType::Custom(b)) => a@ == b@,
            _ => self == other,
        }
    }

    /// Whether two patterns are the same pattern.
    pub fn same_as(&self, other: &PatternType) -> (r: bool)
        ensures
            r == self.equiv(*other),
    {
        match (self, other) {
            (PatternType::Custom(a), PatternType::Custom(b)) => *a == *b,
            (PatternType::Custom(_), _) => false,
            (_, PatternType::Custom(_)) => false,
            _ => {
                let r = self.tag() == other.tag();
                proof {
                    self.lemma_from_tag();
                    other.lemma_from_tag();
                }
                r
            },
        }
    }

    /// A copy of the pattern.
    pub fn copy(&self) -> (r: PatternType)
        ensures
            r == *self,
    {
        match self {
            PatternType::SingleDigitAddition => PatternType::SingleDigitAddition,
            PatternType::SingleDigitSubtraction => PatternType::SingleDigitSubtraction,
            PatternType::SingleDigitMultiplication => PatternType::SingleDigitMultiplication,
            PatternType::SingleDigitDivision => PatternType::SingleDigitDivision,
            PatternType::MultiDigitAddition => PatternType::MultiDigitAddition,
            PatternType::MultiDigitSubtraction => PatternType::MultiDigitSubtraction,
            PatternType::MultiDigitMultiplication => PatternType::MultiDigitMultiplication,
            PatternType::MultiDigitDivision => PatternType::MultiDigitDivision,
            PatternType::OrderOfOperations => PatternType::OrderOfOperations,
            PatternType::PlaceValueDecomposition => PatternType::PlaceValueDecomposition,
            PatternType::PlaceValueComposition => PatternType::PlaceValueComposition,
            PatternType::CommutativeApplication => PatternType::CommutativeApplication,
            PatternType::AssociativeApplication => PatternType::AssociativeApplication,
            PatternType::DistributiveExpansion => PatternType::DistributiveExpansion,
            PatternType::DistributiveFactoring => PatternType::DistributiveFactoring,
            PatternType::IdentityApplication => PatternType::IdentityApplication,
            PatternType::InverseApplication => PatternType::InverseApplication,
            PatternType::FractionAddition => PatternType::FractionAddition,
            PatternType::FractionSubtraction => PatternType::FractionSubtraction,
            PatternType::FractionMultiplication => PatternType::FractionMultiplication,
            PatternType::FractionDivision => PatternType::FractionDivision,
            PatternType::FractionSimplification => PatternType::FractionSimplification,
            PatternType::DecimalConversion => PatternType::DecimalConversion,
            PatternType::PercentageCalculation => PatternType::PercentageCalculation,
            PatternType::ExponentEvaluation => PatternType::ExponentEvaluation,
            PatternType::ExponentRules => PatternType::ExponentRules,
            PatternType::SquareRoot => PatternType::SquareRoot,
            PatternType::NthRoot => PatternType::NthRoot,
            PatternType::AbsoluteValue => PatternType::AbsoluteValue,
            PatternType::Ratio => PatternType::Ratio,
            PatternType::Proportion => PatternType::Proportion,
            PatternType::ScientificNotation => PatternType::ScientificNotation,
            PatternType::GCD => PatternType::GCD,
            PatternType::LCM => PatternType::LCM,
            PatternType::PrimeFactorization => PatternType::PrimeFactorization,
            PatternType::VariableSubstitution => PatternType::VariableSubstitution,
            PatternType::LikeTermsCombination => PatternType::LikeTermsCombination,
            PatternType::LinearEquationSolve => PatternType::LinearEquationSolve,
            PatternType::LinearInequalitySolve => PatternType::LinearInequalitySolve,
            PatternType::QuadraticEquationSolve => PatternType::QuadraticEquationSolve,
            PatternType::PolynomialAddition => PatternType::PolynomialAddition,
            PatternType::PolynomialMultiplication => PatternType::PolynomialMultiplication,
            PatternType::PolynomialDivision => PatternType::PolynomialDivision,
            PatternType::Factoring => PatternType::Factoring,
            PatternType::FunctionEvaluation => PatternType::FunctionEvaluation,
            PatternType::FunctionComposition => PatternType::FunctionComposition,
            PatternType::DomainRange => PatternType::DomainRange,
            PatternType::SlopeIntercept => PatternType::SlopeIntercept,
            PatternType::PointSlope => PatternType::PointSlope,
            PatternType::SystemOfEquations => PatternType::SystemOfEquations,
            PatternType::MatrixAddition => PatternType::MatrixAddition,
            PatternType::MatrixMultiplication => PatternType::MatrixMultiplication,
            PatternType::MatrixDeterminant => PatternType::MatrixDeterminant,
            PatternType::MatrixInverse => PatternType::MatrixInverse,
            PatternType::ComplexAddition => PatternType::ComplexAddition,
            PatternType::ComplexMultiplication => PatternType::ComplexMultiplication,
            PatternType::ComplexConjugate => PatternType::ComplexConjugate,
            PatternType::ComplexModulus => PatternType::ComplexModulus,
            PatternType::ArithmeticSequence => PatternType::ArithmeticSequence,
            PatternType::GeometricSequence => PatternType::GeometricSequence,
            PatternType::SeriesSum => PatternType::SeriesSum,
            PatternType::Logarithm => PatternType::Logarithm,
            PatternType::LogarithmRules => PatternType::LogarithmRules,
            PatternType::ExponentialEquation => PatternType::ExponentialEquation,
            PatternType::TrigEvaluation => PatternType::TrigEvaluation,
            PatternType::TrigIdentity => PatternType::TrigIdentity,
            PatternType::InverseTrig => PatternType::InverseTrig,
            PatternType::UnitCircleLookup => PatternType::UnitCircleLookup,
            PatternType::LawOfSines => PatternType::LawOfSines,
            PatternType::LawOfCosines => PatternType::LawOfCosines,
            PatternType::TrigEquationSolve => PatternType::TrigEquationSolve,
            PatternType::PolarRectangularConversion => PatternType::PolarRectangularConversion,
            PatternType::LimitEvaluation => PatternType::LimitEvaluation,
            PatternType::DerivativeBasic => PatternType::DerivativeBasic,
            PatternType::DerivativeChainRule => PatternType::DerivativeChainRule,
            PatternType::DerivativeProductRule => PatternType::DerivativeProductRule,
            PatternType::DerivativeQuotientRule => PatternType::DerivativeQuotientRule,
            PatternType::IntegralBasic => PatternType::IntegralBasic,
            PatternType::IntegralBySubstitution => PatternType::IntegralBySubstitution,
            PatternType::IntegralByParts => PatternType::IntegralByParts,
            PatternType::DefiniteIntegral => PatternType::DefiniteIntegral,
            PatternType::SeriesConvergence => PatternType::SeriesConvergence,
            PatternType::TaylorSeries => PatternType::TaylorSeries,
            PatternType::DifferentialEquation => PatternType::DifferentialEquation,
            PatternType::PartialDerivative => PatternType::PartialDerivative,
            PatternType::MultipleIntegral => PatternType::MultipleIntegral,
            PatternType::VectorAddition => PatternType::VectorAddition,
            PatternType::VectorDotProduct => PatternType::VectorDotProduct,
            PatternType::VectorCrossProduct => PatternType::VectorCrossProduct,
            PatternType::VectorNorm => PatternType::VectorNorm,
            PatternType::MatrixTranspose => PatternType::MatrixTranspose,
            PatternType::Eigenvalue => PatternType::Eigenvalue,
            PatternType::Eigenvector => PatternType::Eigenvector,
            PatternType::LinearTransformation => PatternType::LinearTransformation,
            PatternType::MatrixDecomposition => PatternType::MatrixDecomposition,
            PatternType::VectorProjection => PatternType::VectorProjection,
            PatternType::GramSchmidt => PatternType::GramSchmidt,
            PatternType::RankNullity => PatternType::RankNullity,
            PatternType::ModularArithmetic => PatternType::ModularArithmetic,
            PatternType::Permutation => PatternType::Permutation,
            PatternType::Combination => PatternType::Combination,
            PatternType::ProbabilityBasic => PatternType::ProbabilityBasic,
            PatternType::ProbabilityConditional => PatternType::ProbabilityConditional,
            PatternType::BayesTheorem => PatternType::BayesTheorem,
            PatternType::ExpectedValue => PatternType::ExpectedValue,
            PatternType::Variance => PatternType::Variance,
            PatternType::StandardDeviation => PatternType::StandardDeviation,
            PatternType::NormalDistribution => PatternType::NormalDistribution,
            PatternType::HypothesisTest => PatternType::HypothesisTest,
            PatternType::GraphAdjacency => PatternType::GraphAdjacency,
            PatternType::ShortestPath => PatternType::ShortestPath,
            PatternType::Optimization => PatternType::Optimization,
            PatternType::Custom(s) => PatternType::Custom(s.clone()),
        }
    }
}

// ============================================================================
// OPERATION TYPES
// ============================================================================

/// The operation a rule performs.
#[derive(Debug, Clone, PartialEq)]
pub enum Operation {
    ValueCoreAdd,
    ValueCoreSub,
    ValueCoreMul,
    ValueCoreDiv,
    MultiDigitAdd,
    MultiDigitSub,
    MultiDigitMul,
    MultiDigitDiv,
    Decompose,
    Compose,
    OrderOfOps,
    Commute,
    Associate,
    Distribute,
    Factor,
    ApplyIdentity,
    ApplyInverse,
    ComputeGCD,
    ComputeLCM,
    PrimeFactorize,
    FractionAdd,
    FractionSub,
    FractionMul,
    FractionDiv,
    FractionSimplify,
    DecimalConvert,
    PercentCalc,
    ExponentEval,
    ExponentRule,
    SqrtCalc,
    NthRootCalc,
    AbsoluteVal,
    SciNotation,
    Substitute,
    CombineLikeTerms,
    SolveLinear,
    SolveLinearInequality,
    SolveQuadratic,
    PolyAdd,
    PolyMul,
    PolyDiv,
    PolyFactor,
    FuncEval,
    FuncCompose,
    DomainRangeCalc,
    SlopeCalc,
    SolveSystem,
    MatAdd,
    MatMul,
    MatDet,
    MatInv,
    ComplexAdd,
    ComplexMul,
    ComplexConj,
    ComplexMod,
    ArithSeq,
    GeomSeq,
    SeriesEval,
    LogEval,
    LogRule,
    SolveExponential,
    TrigEval,
    TrigIdentityApply,
    InverseTrigEval,
    UnitCircle,
    LawSines,
    LawCosines,
    SolveTrigEq,
    PolarRectConvert,
    LimitEval,
    DerivBasic,
    DerivChain,
    DerivProduct,
    DerivQuotient,
    IntegralBasic,
    IntegralUSub,
    IntegralParts,
    DefiniteIntegralEval,
    SeriesConvergenceTest,
    TaylorExpand,
    SolveDE,
    PartialDeriv,
    MultiIntegral,
    VecAdd,
    DotProduct,
    CrossProduct,
    VecNorm,
    Transpose,
    EigenvalueCalc,
    EigenvectorCalc,
    LinearTransform,
    MatDecompose,
    VecProject,
    GramSchmidtCalc,
    RankNullityCalc,
    ModArith,
    PermutationCount,
    CombinationCount,
    ProbCalc,
    CondProbCalc,
    BayesCalc,
    ExpectedValCalc,
    VarianceCalc,
    StdDevCalc,
    NormalDistCalc,
    HypTestCalc,
    GraphAdjCalc,
    ShortestPathCalc,
    OptimizeCalc,
    Custom(String),
}

impl Operation {
    /// A copy of the operation.
    pub fn copy(&self) -> (r: Operation)
        ensures
            r == *self,
    {
        match self {
            Operation::ValueCoreAdd => Operation::ValueCoreAdd,
            Operation::ValueCoreSub => Operation::ValueCoreSub,
            Operation::ValueCoreMul => Operation::ValueCoreMul,
            Operation::ValueCoreDiv => Operation::ValueCoreDiv,
            Operation::MultiDigitAdd => Operation::MultiDigitAdd,
            Operation::MultiDigitSub => Operation::MultiDigitSub,
            Operation::MultiDigitMul => Operation::MultiDigitMul,
            Operation::MultiDigitDiv => Operation::MultiDigitDiv,
            Operation::Decompose => Operation::Decompose,
            Operation::Compose => Operation::Compose,
            Operation::OrderOfOps => Operation::OrderOfOps,
            Operation::Commute => Operation::Commute,
            Operation::Associate => Operation::Associate,
            Operation::Distribute => Operation::Distribute,
            Operation::Factor => Operation::Factor,
            Operation::ApplyIdentity => Operation::ApplyIdentity,
            Operation::ApplyInverse => Operation::ApplyInverse,
            Operation::ComputeGCD => Operation::ComputeGCD,
            Operation::ComputeLCM => Operation::ComputeLCM,
            Operation::PrimeFactorize => Operation::PrimeFactorize,
            Operation::FractionAdd => Operation::FractionAdd,
            Operation::FractionSub => Operation::FractionSub,
            Operation::FractionMul => Operation::FractionMul,
            Operation::FractionDiv => Operation::FractionDiv,
            Operation::FractionSimplify => Operation::FractionSimplify,
            Operation::DecimalConvert => Operation::DecimalConvert,
            Operation::PercentCalc => Operation::PercentCalc,
            Operation::ExponentEval => Operation::ExponentEval,
            Operation::ExponentRule => Operation::ExponentRule,
            Operation::SqrtCalc => Operation::SqrtCalc,
            Operation::NthRootCalc => Operation::NthRootCalc,
            Operation::AbsoluteVal => Operation::AbsoluteVal,
            Operation::SciNotation => Operation::SciNotation,
            Operation::Substitute => Operation::Substitute,
            Operation::CombineLikeTerms => Operation::CombineLikeTerms,
            Operation::SolveLinear => Operation::SolveLinear,
            Operation::SolveLinearInequality => Operation::SolveLinearInequality,
            Operation::SolveQuadratic => Operation::SolveQuadratic,
            Operation::PolyAdd => Operation::PolyAdd,
            Operation::PolyMul => Operation::PolyMul,
            Operation::PolyDiv => Operation::PolyDiv,
            Operation::PolyFactor => Operation::PolyFactor,
            Operation::FuncEval => Operation::FuncEval,
            Operation::FuncCompose => Operation::FuncCompose,
            Operation::DomainRangeCalc => Operation::DomainRangeCalc,
            Operation::SlopeCalc => Operation::SlopeCalc,
            Operation::SolveSystem => Operation::SolveSystem,
            Operation::MatAdd => Operation::MatAdd,
            Operation::MatMul => Operation::MatMul,
            Operation::MatDet => Operation::MatDet,
            Operation::MatInv => Operation::MatInv,
            Operation::ComplexAdd => Operation::ComplexAdd,
            Operation::ComplexMul => Operation::ComplexMul,
            Operation::ComplexConj => Operation::ComplexConj,
            Operation::ComplexMod => Operation::ComplexMod,
            Operation::ArithSeq => Operation::ArithSeq,
            Operation::GeomSeq => Operation::GeomSeq,
            Operation::SeriesEval => Operation::SeriesEval,
            Operation::LogEval => Operation::LogEval,
            Operation::LogRule => Operation::LogRule,
            Operation::SolveExponential => Operation::SolveExponential,
            Operation::TrigEval => Operation::TrigEval,
            Operation::TrigIdentityApply => Operation::TrigIdentityApply,
            Operation::InverseTrigEval => Operation::InverseTrigEval,
            Operation::UnitCircle => Operation::UnitCircle,
            Operation::LawSines => Operation::LawSines,
            Operation::LawCosines => Operation::LawCosines,
            Operation::SolveTrigEq => Operation::SolveTrigEq,
            Operation::PolarRectConvert => Operation::PolarRectConvert,
            Operation::LimitEval => Operation::LimitEval,
            Operation::DerivBasic => Operation::DerivBasic,
            Operation::DerivChain => Operation::DerivChain,
            Operation::DerivProduct => Operation::DerivProduct,
            Operation::DerivQuotient => Operation::DerivQuotient,
            Operation::IntegralBasic => Operation::IntegralBasic,
            Operation::IntegralUSub => Operation::IntegralUSub,
            Operation::IntegralParts => Operation::IntegralParts,
            Operation::DefiniteIntegralEval => Operation::DefiniteIntegralEval,
            Operation::SeriesConvergenceTest => Operation::SeriesConvergenceTest,
            Operation::TaylorExpand => Operation::TaylorExpand,
            Operation::SolveDE => Operation::SolveDE,
            Operation::PartialDeriv => Operation::PartialDeriv,
            Operation::MultiIntegral => Operation::MultiIntegral,
            Operation::VecAdd => Operation::VecAdd,
            Operation::DotProduct => Operation::DotProduct,
            Operation::CrossProduct => Operation::CrossProduct,
            Operation::VecNorm => Operation::VecNorm,
            Operation::Transpose => Operation::Transpose,
            Operation::EigenvalueCalc => Operation::EigenvalueCalc,
            Operation::EigenvectorCalc => Operation::EigenvectorCalc,
            Operation::LinearTransform => Operation::LinearTransform,
            Operation::MatDecompose => Operation::MatDecompose,
            Operation::VecProject => Operation::VecProject,
            Operation::GramSchmidtCalc => Operation::GramSchmidtCalc,
            Operation::RankNullityCalc => Operation::RankNullityCalc,
            Operation::ModArith => Operation::ModArith,
            Operation::PermutationCount => Operation::PermutationCount,
            Operation::CombinationCount => Operation::CombinationCount,
            Operation::ProbCalc => Operation::ProbCalc,
            Operation::CondProbCalc => Operation::CondProbCalc,
            Operation::BayesCalc => Operation::BayesCalc,
            Operation::ExpectedValCalc => Operation::ExpectedValCalc,
            Operation::VarianceCalc => Operation::VarianceCalc,
            Operation::StdDevCalc => Operation::StdDevCalc,
            Operation::NormalDistCalc => Operation::NormalDistCalc,
            Operation::HypTestCalc => Operation::HypTestCalc,
            Operation::GraphAdjCalc => Operation::GraphAdjCalc,
            Operation::ShortestPathCalc => Operation::ShortestPathCalc,
            Operation::OptimizeCalc => Operation::OptimizeCalc,
            Operation::Custom(s) => Operation::Custom(s.clone()),
        }
    }
}

// ============================================================================
// RULE DEFINITION
// ============================================================================

/// A mathematical rule: a retrievable, executable unit of mathematical knowledge.
#[derive(Debug, Clone)]
pub struct Rule {
    /// Unique identifier (e.g. "core.add").
    pub id: String,
    /// Mathematical domain this rule belongs to.
    pub domain: Domain,
    /// Human-readable name.
    pub name: String,
    /// Human-readable description.
    pub description: String,
    /// Rule ids that must be available before this rule can apply.
    pub prerequisites: Vec<String>,
    /// Pattern types this rule matches.
    pub patterns: Vec<PatternType>,
    /// Mathematical properties this rule exhibits.
    pub properties: Vec<Property>,
    /// The inverse rule, if one exists.
    pub inverse: Option<String>,
    /// Operation type for the execution engine.
    pub operation: Operation,
}

/// The abstract content of a rule, with text as character sequences.
#[verifier::ext_equal]
pub struct RuleView {
    pub id: Seq<char>,
    pub domain: Domain,
    pub name: Seq<char>,
    pub description: Seq<char>,
    pub prerequisites: Seq<Seq<char>>,
    pub patterns: Seq<PatternType>,
    pub properties: Seq<Property>,
    pub inverse: Option<Seq<char>>,
    pub operation: Operation,
}

/// The character sequences of a sequence of strings.
pub open spec fn string_views(s: Seq<String>) -> Seq<Seq<char>> {
    s.map_values(|x: String| x@)
}

pub open spec fn option_string_view(o: Option<String>) -> Option<Seq<char>> {
    match o {
        Some(s) => Some(s@),
        None => None,
    }
}

impl View for Rule {
    type V = RuleView;

    open spec fn view(&self) -> RuleView {
        RuleView {
            id: self.id@,
            domain: self.domain,
            name: self.name@,
            description: self.description@,
            prerequisites: string_views(self.prerequisites@),
            patterns: self.patterns@,
            properties: self.properties@,
            inverse: option_string_view(self.inverse),
            operation: self.operation,
        }
    }
}

impl RuleView {
    /// The tier of the rule, from its domain.
    pub open spec fn tier(self) -> nat {
        self.domain.spec_tier()
    }
}

/// Copies a vector of strings.
pub fn copy_strings(v: &Vec<String>) -> (r: Vec<String>)
    ensures
        string_views(r@) == string_views(v@),
{
    let mut r: Vec<String> = Vec::new();
    let mut i: usize = 0;
    while i < v.len()
        invariant
            i <= v@.len(),
            r@.len() == i,
            forall|k: int| 0 <= k < i ==> (#[trigger] r@[k])@ == v@[k]@,
        decreases v@.len() - i,
    {
        r.push(v[i].clone());
        i = i + 1;
    }
    assert(string_views(r@) =~= string_views(v@));
    r
}

/// Whether one of the string slices has the given characters.
pub open spec fn contains_str(available: Seq<&str>, s: Seq<char>) -> bool {
    exists|q: int| 0 <= q < available.len() && (#[trigger] available[q])@ == s
}

impl Rule {
    /// Whether all prerequisites are among the `available` rule ids.
    pub fn prerequisites_met(&self, available: &[&str]) -> (r: bool)
        ensures
            r == (forall|i: int|
                0 <= i < self@.prerequisites.len() ==> contains_str(
                    available@,
                    #[trigger] self@.prerequisites[i],
                )),
    {
        let ghost pre = self@.prerequisites;
        assert(pre.len() == self.prerequisites@.len());
        let mut i: usize = 0;
        while i < self.prerequisites.len()
            invariant
                i <= self.prerequisites@.len(),
                pre == self@.prerequisites,
                pre.len() == self.prerequisites@.len(),
                forall|k: int| 0 <= k < i ==> contains_str(available@, #[trigger] pre[k]),
            decreases self.prerequisites@.len() - i,
        {
            let p = self.prerequisites[i].as_str();
            assert(p@ == pre[i as int]);
            let mut found = false;
            let mut j: usize = 0;
            while j < available.len()
                invariant
                    j <= available@.len(),
                    !found ==> forall|q: int| 0 <= q < j ==> (#[trigger] available@[q])@ != p@,
                    found ==> contains_str(available@, p@),
                decreases available@.len() - j,
            {
                if str_eq(available[j], p) {
                    found = true;
                }
                j = j + 1;
            }
            if !found {
                return false;
            }
            i = i + 1;
        }
        true
    }

    /// The tier of this rule (from its domain).
    pub fn tier(&self) -> (t: u8)
        ensures
            t == self@.tier(),
    {
        self.domain.tier()
    }

    /// A copy of the rule.
    pub fn copy(&self) -> (r: Rule)
        ensures
            r@ == self@,
    {
        let mut patterns: Vec<PatternType> = Vec::new();
        let mut i: usize = 0;
        while i < self.patterns.len()
            invariant
                i <= self.patterns@.len(),
                patterns@ == self.patterns@.take(i as int),
            decreases self.patterns@.len() - i,
        {
            patterns.push(self.patterns[i].copy());
            i = i + 1;
            assert(patterns@ =~= self.patterns@.take(i as int));
        }
        let mut properties: Vec<Property> = Vec::new();
        let mut j: usize = 0;
        while j < self.properties.len()
            invariant
                j <= self.properties@.len(),
                properties@ == self.properties@.take(j as int),
            decreases self.properties@.len() - j,
        {
            properties.push(self.properties[j]);
            j = j + 1;
            assert(properties@ =~= self.properties@.take(j as int));
        }
        assert(patterns@ =~= self.patterns@);
        assert(properties@ =~= self.properties@);
        let inverse = match &self.inverse {
            Some(s) => Some(s.clone()),
            None => None,
        };
        Rule {
            id: self.id.clone(),
            domain: self.domain,
            name: self.name.clone(),
            description: self.description.clone(),
            prerequisites: copy_strings(&self.prerequisites),
            patterns,
            properties,
            inverse,
            operation: self.operation.copy(),
        }
    }
}

/// Builds a rule from its parts.
fn make_rule(
    id: &str,
    domain: Domain,
    name: &str,
    description: &str,
    prerequisites: Vec<&str>,
    patterns: Vec<PatternType>,
    properties: Vec<Property>,
    inverse: Option<&str>,
    operation: Operation,
) -> (r: Rule)
    ensures
        r@.id == id@,
        r@.domain == domain,
        r@.name == name@,
        r@.description == description@,
        r@.prerequisites.len() == prerequisites@.len(),
        forall|k: int| 0 <= k < prerequisites@.len() ==> #[trigger] r@.prerequisites[k] == prerequisites@[k]@,
        r@.patterns == patterns@,
        r@.properties == properties@,
        r@.inverse == (match inverse {
            Some(s) => Some(s@),
            None => None,
        }),
        r@.operation == operation,
{
    let mut prereqs: Vec<String> = Vec::new();
    let mut i: usize = 0;
    while i < prerequisites.len()
        invariant
            i <= prerequisites@.len(),
            prereqs@.len() == i,
            forall|k: int| 0 <= k < i ==> (#[trigger] prereqs@[k])@ == prerequisites@[k]@,
        decreases prerequisites@.len() - i,
    {
        prereqs.push(String::from_str(prerequisites[i]));
        i = i + 1;
    }
    Rule {
        id: String::from_str(id),
        domain,
        name: String::from_str(name),
        description: String::from_str(description),
        prerequisites: prereqs,
        patterns,
        properties,
        inverse: match inverse {
            Some(s) => Some(String::from_str(s)),
            None => None,
        },
        operation,
    }
}

// ============================================================================
// MODEL OF THE LIBRARY: the sequence of registrations
// ============================================================================

/// Whether some registration carries the id.
pub open spec fn has_id(regs: Seq<RuleView>, id: Seq<char>) -> bool {
    exists|i: int| 0 <= i < regs.len() && (#[trigger] regs[i]).id == id
}

/// Index of the most recent registration with the id, or -1.
pub open spec fn latest_index(regs: Seq<RuleView>, id: Seq<char>) -> int
    decreases regs.len(),
{
    if regs.len() == 0 {
        -1
    } else if regs.last().id == id {
        regs.len() - 1
    } else {
        latest_index(regs.drop_last(), id)
    }
}

/// The rule an id refers to: the most recent registration with that id.
pub open spec fn lookup(regs: Seq<RuleView>, id: Seq<char>) -> Option<RuleView> {
    let k = latest_index(regs, id);
    if k >= 0 {
        Some(regs[k])
    } else {
        None
    }
}

/// Registration `i` is the most recent one with its id.
pub open spec fn is_latest(regs: Seq<RuleView>, i: int) -> bool {
    forall|j: int| i < j < regs.len() ==> (#[trigger] regs[j]).id != regs[i].id
}

/// The rules held by the library among the first `n` registrations, in
/// registration order: each id once, with its most recent content.
pub open spec fn latest_upto(regs: Seq<RuleView>, n: int) -> Seq<RuleView>
    decreases n,
{
    if n <= 0 {
        Seq::empty()
    } else if is_latest(regs, n - 1) {
        latest_upto(regs, n - 1).push(regs[n - 1])
    } else {
        latest_upto(regs, n - 1)
    }
}

/// The rules gathered for a tier are exactly the held rules of that tier:
/// each is of the tier and is a held registration, and every held
/// registration of the tier is among them.
pub proof fn law_tier_rules(regs: Seq<RuleView>, tier: nat, n: int)
    requires
        0 <= n <= regs.len(),
    ensures
        forall|k: int| 0 <= k < tier_upto(regs, tier, n).len() ==> (#[trigger] tier_upto(regs, tier, n)[k]).tier() == tier,
        forall|k: int|
            0 <= k < tier_upto(regs, tier, n).len() ==> exists|i: int|
                0 <= i < n && is_latest(regs, i) && regs[i] == #[trigger] tier_upto(regs, tier, n)[k],
        forall|i: int|
            0 <= i < n && is_latest(regs, i) && (#[trigger] regs[i]).tier() == tier ==> tier_upto(
                regs,
                tier,
                n,
            ).contains(regs[i]),
    decreases n,
{
    if n > 0 {
        law_tier_rules(regs, tier, n - 1);
        let prev = tier_upto(regs, tier, n - 1);
        let cur = tier_upto(regs, tier, n);
        assert forall|k: int| 0 <= k < cur.len() implies (#[trigger] cur[k]).tier() == tier by {
            if k < prev.len() {
                assert(cur[k] == prev[k]);
            }
        }
        assert forall|k: int| 0 <= k < cur.len() implies exists|i: int|
            0 <= i < n && is_latest(regs, i) && regs[i] == #[trigger] cur[k] by {
            if k < prev.len() {
                assert(cur[k] == prev[k]);
                let i = choose|i: int| 0 <= i < n - 1 && is_latest(regs, i) && regs[i] == #[trigger] prev[k];
            } else {
                assert(cur[k] == regs[n - 1]);
            }
        }
        assert forall|i: int| 0 <= i < n && is_latest(regs, i) && (#[trigger] regs[i]).tier() == tier implies cur.contains(
            regs[i],
        ) by {
            if i < n - 1 {
                assert(prev.contains(regs[i]));
                let k = choose|k: int| 0 <= k < prev.len() && prev[k] == regs[i];
                assert(cur[k] == prev[k]);
            } else {
                assert(cur[cur.len() - 1] == regs[i]);
            }
        }
    }
}

/// The rules held by the library.
pub open spec fn held_rules(regs: Seq<RuleView>) -> Seq<RuleView> {
    latest_upto(regs, regs.len() as int)
}

/// The rules held by the library among the first `n` registrations whose tier
/// is `tier`, in registration order.
pub open spec fn tier_upto(regs: Seq<RuleView>, tier: nat, n: int) -> Seq<RuleView>
    decreases n,
{
    if n <= 0 {
        Seq::empty()
    } else if is_latest(regs, n - 1) && regs[n - 1].tier() == tier {
        tier_upto(regs, tier, n - 1).push(regs[n - 1])
    } else {
        tier_upto(regs, tier, n - 1)
    }
}

// ============================================================================
// THE BUILT-IN RULES
// ============================================================================

/// The built-in rules of tier 0, in registration order.
pub open spec fn builtin_tier0() -> Seq<RuleView> {
    seq![
        RuleView {
            id: "core.add"@,
            domain: Domain::CoreArithmetic,
            name: "Single-Digit Addition"@,
            description: "Retrieve addition fact from Value Core table. a + b for digits 0-9."@,
            prerequisites: Seq::<Seq<char>>::empty(),
            patterns: seq![PatternType::SingleDigitAddition],
            properties: seq![Property::Commutative, Property::Associative, Property::HasIdentity],
            inverse: Some("core.sub"@),
            operation: Operation::ValueCoreAdd,
        },
        RuleView {
            id: "core.sub"@,
            domain: Domain::CoreArithmetic,
            name: "Single-Digit Subtraction"@,
            description: "Retrieve subtraction fact from Value Core table. a - b where a >= b."@,
            prerequisites: Seq::<Seq<char>>::empty(),
            patterns: seq![PatternType::SingleDigitSubtraction],
            properties: seq![Property::HasIdentity],
            inverse: Some("core.add"@),
            operation: Operation::ValueCoreSub,
        },
        RuleView {
            id: "core.mul"@,
            domain: Domain::CoreArithmetic,
            name: "Single-Digit Multiplication"@,
            description: "Retrieve multiplication fact from Value Core table. a * b for digits 0-9."@,
            prerequisites: Seq::<Seq<char>>::empty(),
            patterns: seq![PatternType::SingleDigitMultiplication],
            properties: seq![Property::Commutative, Property::Associative, Property::HasIdentity],
            inverse: Some("core.div"@),
            operation: Operation::ValueCoreMul,
        },
        RuleView {
            id: "core.div"@,
            domain: Domain::CoreArithmetic,
            name: "Single-Digit Division"@,
            description: "Retrieve division fact from Value Core. a / b where b != 0 and a divisible by b."@,
            prerequisites: Seq::<Seq<char>>::empty(),
            patterns: seq![PatternType::SingleDigitDivision],
            properties: Seq::<Property>::empty(),
            inverse: Some("core.mul"@),
            operation: Operation::ValueCoreDiv,
        },
    ]
}

/// The built-in rules of tier 1, in registration order.
pub open spec fn builtin_tier1() -> Seq<RuleView> {
    seq![
        RuleView {
            id: "ext.add"@,
            domain: Domain::ExtendedArithmetic,
            name: "Multi-Digit Addition"@,
            description: "Add multi-digit numbers using positional addition with carry propagation. Each digit-pair addition uses core.add."@,
            prerequisites: seq!["core.add"@],
            patterns: seq![PatternType::MultiDigitAddition],
            properties: seq![Property::Commutative, Property::Associative, Property::HasIdentity],
            inverse: Some("ext.sub"@),
            operation: Operation::MultiDigitAdd,
        },
        RuleView {
            id: "ext.sub"@,
            domain: Domain::ExtendedArithmetic,
            name: "Multi-Digit Subtraction"@,
            description: "Subtract multi-digit numbers using positional subtraction with borrow propagation."@,
            prerequisites: seq!["core.sub"@, "core.add"@],
            patterns: seq![PatternType::MultiDigitSubtraction],
            properties: seq![Property::HasIdentity],
            inverse: Some("ext.add"@),
            operation: Operation::MultiDigitSub,
        },
        RuleView {
            id: "ext.mul"@,
            domain: Domain::ExtendedArithmetic,
            name: "Multi-Digit Multiplication"@,
            description: "Multiply multi-digit numbers using long multiplication. Each partial product uses core.mul and accumulates via ext.add."@,
            prerequisites: seq!["core.mul"@, "ext.add"@],
            patterns: seq![PatternType::MultiDigitMultiplication],
            properties: seq![Property::Commutative, Property::Associative, Property::HasIdentity],
            inverse: Some("ext.div"@),
            operation: Operation::MultiDigitMul,
        },
        RuleView {
            id: "ext.div"@,
            domain: Domain::ExtendedArithmetic,
            name: "Multi-Digit Division"@,
            description: "Divide multi-digit numbers using long division. Returns quotient and remainder."@,
            prerequisites: seq!["core.div"@, "ext.mul"@, "ext.sub"@],
            patterns: seq![PatternType::MultiDigitDivision],
            properties: Seq::<Property>::empty(),
            inverse: Some("ext.mul"@),
            operation: Operation::MultiDigitDiv,
        },
        RuleView {
            id: "ext.decompose"@,
            domain: Domain::ExtendedArithmetic,
            name: "Place Value Decomposition"@,
            description: "Decompose a number into digit-place pairs. 347 = 3*100 + 4*10 + 7*1."@,
            prerequisites: Seq::<Seq<char>>::empty(),
            patterns: seq![PatternType::PlaceValueDecomposition],
            properties: Seq::<Property>::empty(),
            inverse: Some("ext.compose"@),
            operation: Operation::Decompose,
        },
        RuleView {
            id: "ext.compose"@,
            domain: Domain::ExtendedArithmetic,
            name: "Place Value Composition"@,
            description: "Compose a number from digit-place pairs. Inverse of decomposition."@,
            prerequisites: seq!["core.mul"@, "core.add"@],
            patterns: seq![PatternType::PlaceValueComposition],
            properties: Seq::<Property>::empty(),
            inverse: Some("ext.decompose"@),
            operation: Operation::Compose,
        },
        RuleView {
            id: "ext.order_of_ops"@,
            domain: Domain::ExtendedArithmetic,
            name: "Order of Operations"@,
            description: "Apply PEMDAS/BODMAS: Parentheses, Exponents, Multiplication/Division (L-R), Addition/Subtraction (L-R)."@,
            prerequisites: seq!["core.add"@, "core.sub"@, "core.mul"@, "core.div"@],
            patterns: seq![PatternType::OrderOfOperations],
            properties: Seq::<Property>::empty(),
            inverse: None,
            operation: Operation::OrderOfOps,
        },
    ]
}

/// The built-in rules of tier 2, in registration order.
pub open spec fn builtin_tier2() -> Seq<RuleView> {
    seq![
        RuleView {
            id: "prop.commutative"@,
            domain: Domain::Properties,
            name: "Commutative Property"@,
            description: "For addition and multiplication: a + b = b + a, a * b = b * a. Order doesn't matter."@,
            prerequisites: seq!["core.add"@, "core.mul"@],
            patterns: seq![PatternType::CommutativeApplication],
            properties: seq![Property::Commutative],
            inverse: None,
            operation: Operation::Commute,
        },
        RuleView {
            id: "prop.associative"@,
            domain: Domain::Properties,
            name: "Associative Property"@,
            description: "For addition and multiplication: (a+b)+c = a+(b+c). Grouping doesn't matter."@,
            prerequisites: seq!["core.add"@, "core.mul"@],
            patterns: seq![PatternType::AssociativeApplication],
            properties: seq![Property::Associative],
            inverse: None,
            operation: Operation::Associate,
        },
        RuleView {
            id: "prop.distributive"@,
            domain: Domain::Properties,
            name: "Distributive Property (Expansion)"@,
            description: "a * (b + c) = a*b + a*c. Multiplication distributes over addition."@,
            prerequisites: seq!["core.mul"@, "core.add"@],
            patterns: seq![PatternType::DistributiveExpansion],
            properties: seq![Property::Distributive],
            inverse: Some("prop.factor"@),
            operation: Operation::Distribute,
        },
        RuleView {
            id: "prop.factor"@,
            domain: Domain::Properties,
            name: "Distributive Property (Factoring)"@,
            description: "a*b + a*c = a*(b+c). The reverse of distribution — extract common factor."@,
            prerequisites: seq!["core.mul"@, "core.add"@, "core.div"@],
            patterns: seq![PatternType::DistributiveFactoring],
            properties: seq![Property::Distributive],
            inverse: Some("prop.distributive"@),
            operation: Operation::Factor,
        },
        RuleView {
            id: "prop.identity"@,
            domain: Domain::Properties,
            name: "Identity Elements"@,
            description: "Additive identity: a + 0 = a. Multiplicative identity: a * 1 = a."@,
            prerequisites: seq!["core.add"@, "core.mul"@],
            patterns: seq![PatternType::IdentityApplication],
            properties: seq![Property::HasIdentity],
            inverse: None,
            operation: Operation::ApplyIdentity,
        },
        RuleView {
            id: "prop.inverse"@,
            domain: Domain::Properties,
            name: "Inverse Elements"@,
            description: "Additive inverse: a + (-a) = 0. Multiplicative inverse: a * (1/a) = 1."@,
            prerequisites: seq!["core.add"@, "core.mul"@, "core.sub"@, "core.div"@],
            patterns: seq![PatternType::InverseApplication],
            properties: seq![Property::HasInverse],
            inverse: None,
            operation: Operation::ApplyInverse,
        },
    ]
}

/// The built-in rules of tier 3, in registration order.
pub open spec fn builtin_tier3() -> Seq<RuleView> {
    seq![
        RuleView {
            id: "pre.gcd"@,
            domain: Domain::PreAlgebra,
            name: "Greatest Common Divisor"@,
            description: "Find the GCD of two numbers using the Euclidean algorithm."@,
            prerequisites: seq!["ext.div"@],
            patterns: seq![PatternType::GCD],
            properties: seq![Property::Commutative],
            inverse: None,
            operation: Operation::ComputeGCD,
        },
        RuleView {
            id: "pre.lcm"@,
            domain: Domain::PreAlgebra,
            name: "Least Common Multiple"@,
            description: "Find LCM via: LCM(a,b) = (a*b) / GCD(a,b)."@,
            prerequisites: seq!["pre.gcd"@, "ext.mul"@, "ext.div"@],
            patterns: seq![PatternType::LCM],
            properties: seq![Property::Commutative],
            inverse: None,
            operation: Operation::ComputeLCM,
        },
        RuleView {
            id: "pre.prime_factor"@,
            domain: Domain::PreAlgebra,
            name: "Prime Factorization"@,
            description: "Decompose a number into its prime factors."@,
            prerequisites: seq!["ext.div"@],
            patterns: seq![PatternType::PrimeFactorization],
            properties: Seq::<Property>::empty(),
            inverse: None,
            operation: Operation::PrimeFactorize,
        },
        RuleView {
            id: "pre.frac_simplify"@,
            domain: Domain::PreAlgebra,
            name: "Fraction Simplification"@,
            description: "Simplify a/b by dividing numerator and denominator by their GCD."@,
            prerequisites: seq!["pre.gcd"@, "ext.div"@],
            patterns: seq![PatternType::FractionSimplification],
            properties: Seq::<Property>::empty(),
            inverse: None,
            operation: Operation::FractionSimplify,
        },
        RuleView {
            id: "pre.frac_add"@,
            domain: Domain::PreAlgebra,
            name: "Fraction Addition"@,
            description: "a/b + c/d = (a*d + c*b) / (b*d), then simplify."@,
            prerequisites: seq!["ext.mul"@, "ext.add"@, "pre.lcm"@, "pre.frac_simplify"@],
            patterns: seq![PatternType::FractionAddition],
            properties: seq![Property::Commutative, Property::Associative],
            inverse: Some("pre.frac_sub"@),
            operation: Operation::FractionAdd,
        },
        RuleView {
            id: "pre.frac_sub"@,
            domain: Domain::PreAlgebra,
            name: "Fraction Subtraction"@,
            description: "a/b - c/d = (a*d - c*b) / (b*d), then simplify."@,
            prerequisites: seq!["ext.mul"@, "ext.sub"@, "pre.lcm"@, "pre.frac_simplify"@],
            patterns: seq![PatternType::FractionSubtraction],
            properties: Seq::<Property>::empty(),
            inverse: Some("pre.frac_add"@),
            operation: Operation::FractionSub,
        },
        RuleView {
            id: "pre.frac_mul"@,
            domain: Domain::PreAlgebra,
            name: "Fraction Multiplication"@,
            description: "(a/b) * (c/d) = (a*c) / (b*d), then simplify."@,
            prerequisites: seq!["ext.mul"@, "pre.frac_simplify"@],
            patterns: seq![PatternType::FractionMultiplication],
            properties: seq![Property::Commutative, Property::Associative],
            inverse: Some("pre.frac_div"@),
            operation: Operation::FractionMul,
        },
        RuleView {
            id: "pre.frac_div"@,
            domain: Domain::PreAlgebra,
            name: "Fraction Division"@,
            description: "(a/b) / (c/d) = (a/b) * (d/c) = (a*d) / (b*c). Multiply by reciprocal."@,
            prerequisites: seq!["pre.frac_mul"@],
            patterns: seq![PatternType::FractionDivision],
            properties: Seq::<Property>::empty(),
            inverse: Some("pre.frac_mul"@),
            operation: Operation::FractionDiv,
        },
        RuleView {
            id: "pre.decimal"@,
            domain: Domain::PreAlgebra,
            name: "Decimal Conversion"@,
            description: "Convert between fractions and decimals. a/b = a divided by b."@,
            prerequisites: seq!["ext.div"@],
            patterns: seq![PatternType::DecimalConversion],
            properties: Seq::<Property>::empty(),
            inverse: None,
            operation: Operation::DecimalConvert,
        },
        RuleView {
            id: "pre.percent"@,
            domain: Domain::PreAlgebra,
            name: "Percentage Calculation"@,
            description: "x% of n = (x/100) * n. Convert between percentage, decimal, and fraction."@,
            prerequisites: seq!["pre.decimal"@, "ext.mul"@, "ext.div"@],
            patterns: seq![PatternType::PercentageCalculation],
            properties: Seq::<Property>::empty(),
            inverse: None,
            operation: Operation::PercentCalc,
        },
        RuleView {
            id: "pre.exponent"@,
            domain: Domain::PreAlgebra,
            name: "Exponent Evaluation"@,
            description: "a^n = a * a * ... * a (n times). Built on repeated multiplication."@,
            prerequisites: seq!["ext.mul"@],
            patterns: seq![PatternType::ExponentEvaluation],
            properties: Seq::<Property>::empty(),
            inverse: Some("pre.nth_root"@),
            operation: Operation::ExponentEval,
        },
        RuleView {
            id: "pre.exponent_rules"@,
            domain: Domain::PreAlgebra,
            name: "Exponent Rules"@,
            description: "Product: a^m * a^n = a^(m+n). Quotient: a^m / a^n = a^(m-n). Power: (a^m)^n = a^(m*n). Zero: a^0 = 1. Negative: a^(-n) = 1/a^n."@,
            prerequisites: seq!["pre.exponent"@, "ext.add"@, "ext.sub"@, "ext.mul"@],
            patterns: seq![PatternType::ExponentRules],
            properties: Seq::<Property>::empty(),
            inverse: None,
            operation: Operation::ExponentRule,
        },
        RuleView {
            id: "pre.sqrt"@,
            domain: Domain::PreAlgebra,
            name: "Square Root"@,
            description: "sqrt(a) = b where b^2 = a. Inverse of squaring."@,
            prerequisites: seq!["pre.exponent"@],
            patterns: seq![PatternType::SquareRoot],
            properties: Seq::<Property>::empty(),
            inverse: Some("pre.exponent"@),
            operation: Operation::SqrtCalc,
        },
        RuleView {
            id: "pre.nth_root"@,
            domain: Domain::PreAlgebra,
            name: "Nth Root"@,
            description: "n-th root of a = b where b^n = a. Generalization of square root."@,
            prerequisites: seq!["pre.exponent"@],
            patterns: seq![PatternType::NthRoot],
            properties: Seq::<Property>::empty(),
            inverse: Some("pre.exponent"@),
            operation: Operation::NthRootCalc,
        },
        RuleView {
            id: "pre.abs"@,
            domain: Domain::PreAlgebra,
            name: "Absolute Value"@,
            description: "|a| = a if a >= 0, -a if a < 0. Distance from zero."@,
            prerequisites: Seq::<Seq<char>>::empty(),
            patterns: seq![PatternType::AbsoluteValue],
            properties: Seq::<Property>::empty(),
            inverse: None,
            operation: Operation::AbsoluteVal,
        },
        RuleView {
            id: "pre.sci_notation"@,
            domain: Domain::PreAlgebra,
            name: "Scientific Notation"@,
            description: "Express as a * 10^n where 1 <= a < 10."@,
            prerequisites: seq!["pre.exponent"@, "pre.decimal"@],
            patterns: seq![PatternType::ScientificNotation],
            properties: Seq::<Property>::empty(),
            inverse: None,
            operation: Operation::SciNotation,
        },
        RuleView {
            id: "pre.ratio"@,
            domain: Domain::PreAlgebra,
            name: "Ratio"@,
            description: "Express the relationship a:b and simplify."@,
            prerequisites: seq!["pre.gcd"@, "ext.div"@],
            patterns: seq![PatternType::Ratio],
            properties: Seq::<Property>::empty(),
            inverse: None,
            operation: Operation::FractionSimplify,
        },
        RuleView {
            id: "pre.proportion"@,
            domain: Domain::PreAlgebra,
            name: "Proportion"@,
            description: "If a/b = c/d, then a*d = b*c (cross multiplication)."@,
            prerequisites: seq!["ext.mul"@, "ext.div"@],
            patterns: seq![PatternType::Proportion],
            properties: Seq::<Property>::empty(),
            inverse: None,
            operation: Operation::FractionDiv,
        },
    ]
}

/// The built-in rules of tier 4, in registration order.
pub open spec fn builtin_tier4() -> Seq<RuleView> {
    seq![
        RuleView {
            id: "alg.substitute"@,
            domain: Domain::Algebra,
            name: "Variable Substitution"@,
            description: "Replace a variable with a known value and evaluate."@,
            prerequisites: seq!["core.add"@, "core.mul"@],
            patterns: seq![PatternType::VariableSubstitution],
            properties: Seq::<Property>::empty(),
            inverse: None,
            operation: Operation::Substitute,
        },
        RuleView {
            id: "alg.like_terms"@,
            domain: Domain::Algebra,
            name: "Combine Like Terms"@,
            description: "ax + bx = (a+b)x. Terms with the same variable and exponent combine by adding coefficients."@,
            prerequisites: seq!["ext.add"@, "prop.distributive"@],
            patterns: seq![PatternType::LikeTermsCombination],
            properties: seq![Property::Commutative],
            inverse: None,
            operation: Operation::CombineLikeTerms,
        },
        RuleView {
            id: "alg.linear_solve"@,
            domain: Domain::Algebra,
            name: "Solve Linear Equation"@,
            description: "Solve ax + b = c for x. x = (c - b) / a."@,
            prerequisites: seq!["ext.sub"@, "ext.div"@, "alg.like_terms"@],
            patterns: seq![PatternType::LinearEquationSolve],
            properties: Seq::<Property>::empty(),
            inverse: None,
            operation: Operation::SolveLinear,
        },
        RuleView {
            id: "alg.linear_inequality"@,
            domain: Domain::Algebra,
            name: "Solve Linear Inequality"@,
            description: "Solve ax + b < c. Same as linear equation but flip inequality when dividing by negative."@,
            prerequisites: seq!["alg.linear_solve"@],
            patterns: seq![PatternType::LinearInequalitySolve],
            properties: Seq::<Property>::empty(),
            inverse: None,
            operation: Operation::SolveLinearInequality,
        },
        RuleView {
            id: "alg.quadratic_solve"@,
            domain: Domain::Algebra,
            name: "Solve Quadratic Equation"@,
            description: "Solve ax^2 + bx + c = 0 via quadratic formula: x = (-b +/- sqrt(b^2-4ac)) / (2a)."@,
            prerequisites: seq!["pre.sqrt"@, "ext.mul"@, "ext.sub"@, "ext.div"@],
            patterns: seq![PatternType::QuadraticEquationSolve],
            properties: Seq::<Property>::empty(),
            inverse: None,
            operation: Operation::SolveQuadratic,
        },
        RuleView {
            id: "alg.poly_add"@,
            domain: Domain::Algebra,
            name: "Polynomial Addition"@,
            description: "Add polynomials by combining like terms."@,
            prerequisites: seq!["alg.like_terms"@],
            patterns: seq![PatternType::PolynomialAddition],
            properties: seq![Property::Commutative, Property::Associative],
            inverse: None,
            operation: Operation::PolyAdd,
        },
        RuleView {
            id: "alg.poly_mul"@,
            domain: Domain::Algebra,
            name: "Polynomial Multiplication"@,
            description: "Multiply polynomials by distributing each term. FOIL for binomials."@,
            prerequisites: seq!["prop.distributive"@, "alg.like_terms"@, "pre.exponent_rules"@],
            patterns: seq![PatternType::PolynomialMultiplication],
            properties: seq![Property::Commutative, Property::Associative],
            inverse: Some("alg.poly_div"@),
            operation: Operation::PolyMul,
        },
        RuleView {
            id: "alg.poly_div"@,
            domain: Domain::Algebra,
            name: "Polynomial Division"@,
            description: "Divide polynomials using long division or synthetic division."@,
            prerequisites: seq!["ext.div"@, "alg.like_terms"@],
            patterns: seq![PatternType::PolynomialDivision],
            properties: Seq::<Property>::empty(),
            inverse: Some("alg.poly_mul"@),
            operation: Operation::PolyDiv,
        },
        RuleView {
            id: "alg.factor"@,
            domain: Domain::Algebra,
            name: "Factoring"@,
            description: "Factor polynomial expressions: GCF, difference of squares, trinomials, grouping."@,
            prerequisites: seq!["prop.factor"@, "pre.gcd"@],
            patterns: seq![PatternType::Factoring],
            properties: Seq::<Property>::empty(),
            inverse: Some("alg.poly_mul"@),
            operation: Operation::PolyFactor,
        },
        RuleView {
            id: "alg.func_eval"@,
            domain: Domain::Algebra,
            name: "Function Evaluation"@,
            description: "Evaluate f(x) at x = a by substituting and computing."@,
            prerequisites: seq!["alg.substitute"@],
            patterns: seq![PatternType::FunctionEvaluation],
            properties: Seq::<Property>::empty(),
            inverse: None,
            operation: Operation::FuncEval,
        },
        RuleView {
            id: "alg.func_compose"@,
            domain: Domain::Algebra,
            name: "Function Composition"@,
            description: "f(g(x)): substitute g(x) into f."@,
            prerequisites: seq!["alg.func_eval"@, "alg.substitute"@],
            patterns: seq![PatternType::FunctionComposition],
            properties: Seq::<Property>::empty(),
            inverse: None,
            operation: Operation::FuncCompose,
        },
        RuleView {
            id: "alg.slope"@,
            domain: Domain::Algebra,
            name: "Slope Calculation"@,
            description: "m = (y2-y1)/(x2-x1). Rise over run between two points."@,
            prerequisites: seq!["ext.sub"@, "ext.div"@],
            patterns: seq![PatternType::SlopeIntercept, PatternType::PointSlope],
            properties: Seq::<Property>::empty(),
            inverse: None,
            operation: Operation::SlopeCalc,
        },
        RuleView {
            id: "alg.domain_range"@,
            domain: Domain::Algebra,
            name: "Domain and Range"@,
            description: "Determine valid input (domain) and output (range) of a function."@,
            prerequisites: seq!["alg.func_eval"@],
            patterns: seq![PatternType::DomainRange],
            properties: Seq::<Property>::empty(),
            inverse: None,
            operation: Operation::DomainRangeCalc,
        },
    ]
}

/// The built-in rules of tier 5, in registration order.
pub open spec fn builtin_tier5() -> Seq<RuleView> {
    seq![
        RuleView {
            id: "adv.system_solve"@,
            domain: Domain::AdvancedAlgebra,
            name: "Solve System of Equations"@,
            description: "Solve systems via substitution, elimination, or Cramer's rule."@,
            prerequisites: seq!["alg.linear_solve"@, "ext.mul"@, "ext.sub"@],
            patterns: seq![PatternType::SystemOfEquations],
            properties: Seq::<Property>::empty(),
            inverse: None,
            operation: Operation::SolveSystem,
        },
        RuleView {
            id: "adv.mat_add"@,
            domain: Domain::AdvancedAlgebra,
            name: "Matrix Addition"@,
            description: "Add matrices element-wise. Matrices must have same dimensions."@,
            prerequisites: seq!["ext.add"@],
            patterns: seq![PatternType::MatrixAddition],
            properties: seq![Property::Commutative, Property::Associative],
            inverse: None,
            operation: Operation::MatAdd,
        },
        RuleView {
            id: "adv.mat_mul"@,
            domain: Domain::AdvancedAlgebra,
            name: "Matrix Multiplication"@,
            description: "Multiply matrices. (AB)_ij = sum of A_ik * B_kj. Dimensions must be compatible."@,
            prerequisites: seq!["ext.mul"@, "ext.add"@],
            patterns: seq![PatternType::MatrixMultiplication],
            properties: seq![Property::Associative],
            inverse: None,
            operation: Operation::MatMul,
        },
        RuleView {
            id: "adv.mat_det"@,
            domain: Domain::AdvancedAlgebra,
            name: "Matrix Determinant"@,
            description: "Compute determinant. 2x2: ad-bc. Larger: cofactor expansion."@,
            prerequisites: seq!["ext.mul"@, "ext.sub"@],
            patterns: seq![PatternType::MatrixDeterminant],
            properties: Seq::<Property>::empty(),
            inverse: None,
            operation: Operation::MatDet,
        },
        RuleView {
            id: "adv.mat_inv"@,
            domain: Domain::AdvancedAlgebra,
            name: "Matrix Inverse"@,
            description: "Find A^(-1) such that A * A^(-1) = I. Requires det(A) != 0."@,
            prerequisites: seq!["adv.mat_det"@, "adv.mat_mul"@],
            patterns: seq![PatternType::MatrixInverse],
            properties: Seq::<Property>::empty(),
            inverse: None,
            operation: Operation::MatInv,
        },
        RuleView {
            id: "adv.complex_add"@,
            domain: Domain::AdvancedAlgebra,
            name: "Complex Addition"@,
            description: "(a+bi) + (c+di) = (a+c) + (b+d)i. Add real and imaginary parts separately."@,
            prerequisites: seq!["ext.add"@],
            patterns: seq![PatternType::ComplexAddition],
            properties: seq![Property::Commutative, Property::Associative],
            inverse: None,
            operation: Operation::ComplexAdd,
        },
        RuleView {
            id: "adv.complex_mul"@,
            domain: Domain::AdvancedAlgebra,
            name: "Complex Multiplication"@,
            description: "(a+bi)(c+di) = (ac-bd) + (ad+bc)i. FOIL with i^2 = -1."@,
            prerequisites: seq!["ext.mul"@, "ext.sub"@, "ext.add"@],
            patterns: seq![PatternType::ComplexMultiplication],
            properties: seq![Property::Commutative, Property::Associative],
            inverse: None,
            operation: Operation::ComplexMul,
        },
        RuleView {
            id: "adv.complex_conj"@,
            domain: Domain::AdvancedAlgebra,
            name: "Complex Conjugate"@,
            description: "Conjugate of a+bi is a-bi."@,
            prerequisites: Seq::<Seq<char>>::empty(),
            patterns: seq![PatternType::ComplexConjugate],
            properties: Seq::<Property>::empty(),
            inverse: None,
            operation: Operation::ComplexConj,
        },
        RuleView {
            id: "adv.complex_mod"@,
            domain: Domain::AdvancedAlgebra,
            name: "Complex Modulus"@,
            description: "|a+bi| = sqrt(a^2 + b^2)."@,
            prerequisites: seq!["pre.sqrt"@, "pre.exponent"@, "ext.add"@],
            patterns: seq![PatternType::ComplexModulus],
            properties: Seq::<Property>::empty(),
            inverse: None,
            operation: Operation::ComplexMod,
        },
        RuleView {
            id: "adv.arith_seq"@,
            domain: Domain::AdvancedAlgebra,
            name: "Arithmetic Sequence"@,
            description: "a_n = a_1 + (n-1)d. Sum: S_n = n/2 * (a_1 + a_n)."@,
            prerequisites: seq!["ext.add"@, "ext.mul"@, "ext.div"@],
            patterns: seq![PatternType::ArithmeticSequence],
            properties: Seq::<Property>::empty(),
            inverse: None,
            operation: Operation::ArithSeq,
        },
        RuleView {
            id: "adv.geom_seq"@,
            domain: Domain::AdvancedAlgebra,
            name: "Geometric Sequence"@,
            description: "a_n = a_1 * r^(n-1). Sum: S_n = a_1 * (1-r^n)/(1-r)."@,
            prerequisites: seq!["ext.mul"@, "pre.exponent"@, "ext.div"@],
            patterns: seq![PatternType::GeometricSequence],
            properties: Seq::<Property>::empty(),
            inverse: None,
            operation: Operation::GeomSeq,
        },
        RuleView {
            id: "adv.series"@,
            domain: Domain::AdvancedAlgebra,
            name: "Series Sum"@,
            description: "Evaluate finite or convergent infinite series."@,
            prerequisites: seq!["adv.arith_seq"@, "adv.geom_seq"@],
            patterns: seq![PatternType::SeriesSum],
            properties: Seq::<Property>::empty(),
            inverse: None,
            operation: Operation::SeriesEval,
        },
        RuleView {
            id: "adv.log"@,
            domain: Domain::AdvancedAlgebra,
            name: "Logarithm Evaluation"@,
            description: "log_b(x) = y means b^y = x. The inverse of exponentiation."@,
            prerequisites: seq!["pre.exponent"@],
            patterns: seq![PatternType::Logarithm],
            properties: Seq::<Property>::empty(),
            inverse: Some("pre.exponent"@),
            operation: Operation::LogEval,
        },
        RuleView {
            id: "adv.log_rules"@,
            domain: Domain::AdvancedAlgebra,
            name: "Logarithm Rules"@,
            description: "Product: log(ab) = log(a)+log(b). Quotient: log(a/b) = log(a)-log(b). Power: log(a^n) = n*log(a). Change of base: log_b(x) = log(x)/log(b)."@,
            prerequisites: seq!["adv.log"@, "ext.add"@, "ext.sub"@, "ext.mul"@, "ext.div"@],
            patterns: seq![PatternType::LogarithmRules],
            properties: Seq::<Property>::empty(),
            inverse: None,
            operation: Operation::LogRule,
        },
        RuleView {
            id: "adv.exp_equation"@,
            domain: Domain::AdvancedAlgebra,
            name: "Solve Exponential Equation"@,
            description: "Solve b^x = c by taking logarithm of both sides."@,
            prerequisites: seq!["adv.log"@, "adv.log_rules"@],
            patterns: seq![PatternType::ExponentialEquation],
            properties: Seq::<Property>::empty(),
            inverse: None,
            operation: Operation::SolveExponential,
        },
    ]
}

/// The built-in rules of tier 6, in registration order.
pub open spec fn builtin_tier6() -> Seq<RuleView> {
    seq![
        RuleView {
            id: "trig.eval"@,
            domain: Domain::Trigonometry,
            name: "Trigonometric Function Evaluation"@,
            description: "Evaluate sin, cos, tan, csc, sec, cot at a given angle."@,
            prerequisites: seq!["ext.div"@, "pre.sqrt"@],
            patterns: seq![PatternType::TrigEvaluation],
            properties: Seq::<Property>::empty(),
            inverse: Some("trig.inverse"@),
            operation: Operation::TrigEval,
        },
        RuleView {
            id: "trig.identity"@,
            domain: Domain::Trigonometry,
            name: "Trigonometric Identity"@,
            description: "Apply identities: Pythagorean (sin^2+cos^2=1), double angle, sum/difference, half angle."@,
            prerequisites: seq!["trig.eval"@, "pre.exponent"@, "ext.add"@],
            patterns: seq![PatternType::TrigIdentity],
            properties: Seq::<Property>::empty(),
            inverse: None,
            operation: Operation::TrigIdentityApply,
        },
        RuleView {
            id: "trig.inverse"@,
            domain: Domain::Trigonometry,
            name: "Inverse Trigonometric Functions"@,
            description: "Evaluate arcsin, arccos, arctan. Returns angle for given ratio."@,
            prerequisites: seq!["trig.eval"@],
            patterns: seq![PatternType::InverseTrig],
            properties: Seq::<Property>::empty(),
            inverse: Some("trig.eval"@),
            operation: Operation::InverseTrigEval,
        },
        RuleView {
            id: "trig.unit_circle"@,
            domain: Domain::Trigonometry,
            name: "Unit Circle Lookup"@,
            description: "Retrieve exact trig values for standard angles (0, 30, 45, 60, 90, etc.)."@,
            prerequisites: seq!["pre.sqrt"@, "ext.div"@],
            patterns: seq![PatternType::UnitCircleLookup],
            properties: Seq::<Property>::empty(),
            inverse: None,
            operation: Operation::UnitCircle,
        },
        RuleView {
            id: "trig.law_sines"@,
            domain: Domain::Trigonometry,
            name: "Law of Sines"@,
            description: "a/sin(A) = b/sin(B) = c/sin(C)."@,
            prerequisites: seq!["trig.eval"@, "ext.div"@],
            patterns: seq![PatternType::LawOfSines],
            properties: Seq::<Property>::empty(),
            inverse: None,
            operation: Operation::LawSines,
        },
        RuleView {
            id: "trig.law_cosines"@,
            domain: Domain::Trigonometry,
            name: "Law of Cosines"@,
            description: "c^2 = a^2 + b^2 - 2ab*cos(C). Generalization of Pythagorean theorem."@,
            prerequisites: seq!["trig.eval"@, "pre.exponent"@, "pre.sqrt"@, "ext.mul"@, "ext.sub"@],
            patterns: seq![PatternType::LawOfCosines],
            properties: Seq::<Property>::empty(),
            inverse: None,
            operation: Operation::LawCosines,
        },
        RuleView {
            id: "trig.solve_eq"@,
            domain: Domain::Trigonometry,
            name: "Solve Trigonometric Equation"@,
            description: "Solve equations involving trig functions for unknown angles."@,
            prerequisites: seq!["trig.inverse"@, "trig.identity"@],
            patterns: seq![PatternType::TrigEquationSolve],
            properties: Seq::<Property>::empty(),
            inverse: None,
            operation: Operation::SolveTrigEq,
        },
        RuleView {
            id: "trig.polar_rect"@,
            domain: Domain::Trigonometry,
            name: "Polar-Rectangular Conversion"@,
            description: "Rectangular to polar: r=sqrt(x^2+y^2), theta=atan(y/x). Polar to rectangular: x=r*cos(theta), y=r*sin(theta)."@,
            prerequisites: seq!["trig.eval"@, "trig.inverse"@, "pre.sqrt"@, "pre.exponent"@],
            patterns: seq![PatternType::PolarRectangularConversion],
            properties: Seq::<Property>::empty(),
            inverse: None,
            operation: Operation::PolarRectConvert,
        },
    ]
}

/// The built-in rules of tier 7, in registration order.
pub open spec fn builtin_tier7() -> Seq<RuleView> {
    seq![
        RuleView {
            id: "calc.limit"@,
            domain: Domain::Calculus,
            name: "Limit Evaluation"@,
            description: "Evaluate lim(x->a) f(x). Direct substitution, factoring, L'Hopital's rule."@,
            prerequisites: seq!["alg.substitute"@, "alg.factor"@],
            patterns: seq![PatternType::LimitEvaluation],
            properties: Seq::<Property>::empty(),
            inverse: None,
            operation: Operation::LimitEval,
        },
        RuleView {
            id: "calc.deriv_basic"@,
            domain: Domain::Calculus,
            name: "Basic Derivative"@,
            description: "Power rule: d/dx[x^n] = n*x^(n-1). Constant: d/dx[c] = 0. Sum rule."@,
            prerequisites: seq!["pre.exponent_rules"@, "ext.mul"@, "ext.sub"@],
            patterns: seq![PatternType::DerivativeBasic],
            properties: Seq::<Property>::empty(),
            inverse: Some("calc.integral_basic"@),
            operation: Operation::DerivBasic,
        },
        RuleView {
            id: "calc.deriv_chain"@,
            domain: Domain::Calculus,
            name: "Chain Rule"@,
            description: "d/dx[f(g(x))] = f'(g(x)) * g'(x)."@,
            prerequisites: seq!["calc.deriv_basic"@, "alg.func_compose"@],
            patterns: seq![PatternType::DerivativeChainRule],
            properties: Seq::<Property>::empty(),
            inverse: None,
            operation: Operation::DerivChain,
        },
        RuleView {
            id: "calc.deriv_product"@,
            domain: Domain::Calculus,
            name: "Product Rule"@,
            description: "d/dx[f(x)*g(x)] = f'(x)*g(x) + f(x)*g'(x)."@,
            prerequisites: seq!["calc.deriv_basic"@, "ext.mul"@, "ext.add"@],
            patterns: seq![PatternType::DerivativeProductRule],
            properties: Seq::<Property>::empty(),
            inverse: None,
            operation: Operation::DerivProduct,
        },
        RuleView {
            id: "calc.deriv_quotient"@,
            domain: Domain::Calculus,
            name: "Quotient Rule"@,
            description: "d/dx[f/g] = (f'g - fg') / g^2."@,
            prerequisites: seq!["calc.deriv_basic"@, "ext.mul"@, "ext.sub"@, "pre.exponent"@],
            patterns: seq![PatternType::DerivativeQuotientRule],
            properties: Seq::<Property>::empty(),
            inverse: None,
            operation: Operation::DerivQuotient,
        },
        RuleView {
            id: "calc.integral_basic"@,
            domain: Domain::Calculus,
            name: "Basic Integral"@,
            description: "Power rule: integral of x^n = x^(n+1)/(n+1) + C. Constant multiple. Sum rule."@,
            prerequisites: seq!["pre.exponent_rules"@, "ext.div"@, "ext.add"@],
            patterns: seq![PatternType::IntegralBasic],
            properties: Seq::<Property>::empty(),
            inverse: Some("calc.deriv_basic"@),
            operation: Operation::IntegralBasic,
        },
        RuleView {
            id: "calc.integral_usub"@,
            domain: Domain::Calculus,
            name: "Integration by Substitution"@,
            description: "U-substitution: integral of f(g(x))*g'(x) dx = integral of f(u) du."@,
            prerequisites: seq!["calc.integral_basic"@, "calc.deriv_chain"@],
            patterns: seq![PatternType::IntegralBySubstitution],
            properties: Seq::<Property>::empty(),
            inverse: None,
            operation: Operation::IntegralUSub,
        },
        RuleView {
            id: "calc.integral_parts"@,
            domain: Domain::Calculus,
            name: "Integration by Parts"@,
            description: "integral of u dv = uv - integral of v du."@,
            prerequisites: seq!["calc.integral_basic"@, "calc.deriv_basic"@],
            patterns: seq![PatternType::IntegralByParts],
            properties: Seq::<Property>::empty(),
            inverse: None,
            operation: Operation::IntegralParts,
        },
        RuleView {
            id: "calc.definite_integral"@,
            domain: Domain::Calculus,
            name: "Definite Integral"@,
            description: "Evaluate integral from a to b = F(b) - F(a) where F is antiderivative."@,
            prerequisites: seq!["calc.integral_basic"@, "alg.substitute"@, "ext.sub"@],
            patterns: seq![PatternType::DefiniteIntegral],
            properties: Seq::<Property>::empty(),
            inverse: None,
            operation: Operation::DefiniteIntegralEval,
        },
        RuleView {
            id: "calc.series_conv"@,
            domain: Domain::Calculus,
            name: "Series Convergence"@,
            description: "Test convergence: ratio test, root test, comparison, integral test, alternating series."@,
            prerequisites: seq!["calc.limit"@, "adv.series"@],
            patterns: seq![PatternType::SeriesConvergence],
            properties: Seq::<Property>::empty(),
            inverse: None,
            operation: Operation::SeriesConvergenceTest,
        },
        RuleView {
            id: "calc.taylor"@,
            domain: Domain::Calculus,
            name: "Taylor Series"@,
            description: "f(x) = sum of f^(n)(a)/n! * (x-a)^n. Expand function as infinite polynomial."@,
            prerequisites: seq!["calc.deriv_basic"@, "adv.series"@, "pre.exponent"@],
            patterns: seq![PatternType::TaylorSeries],
            properties: Seq::<Property>::empty(),
            inverse: None,
            operation: Operation::TaylorExpand,
        },
        RuleView {
            id: "calc.diff_eq"@,
            domain: Domain::Calculus,
            name: "Differential Equation"@,
            description: "Solve ODEs: separable, first-order linear, second-order with constant coefficients."@,
            prerequisites: seq!["calc.integral_basic"@, "calc.deriv_basic"@, "alg.linear_solve"@],
            patterns: seq![PatternType::DifferentialEquation],
            properties: Seq::<Property>::empty(),
            inverse: None,
            operation: Operation::SolveDE,
        },
        RuleView {
            id: "calc.partial_deriv"@,
            domain: Domain::Calculus,
            name: "Partial Derivative"@,
            description: "Differentiate with respect to one variable, treating others as constants."@,
            prerequisites: seq!["calc.deriv_basic"@],
            patterns: seq![PatternType::PartialDerivative],
            properties: Seq::<Property>::empty(),
            inverse: None,
            operation: Operation::PartialDeriv,
        },
        RuleView {
            id: "calc.multi_integral"@,
            domain: Domain::Calculus,
            name: "Multiple Integral"@,
            description: "Evaluate double/triple integrals by iterated integration."@,
            prerequisites: seq!["calc.definite_integral"@],
            patterns: seq![PatternType::MultipleIntegral],
            properties: Seq::<Property>::empty(),
            inverse: None,
            operation: Operation::MultiIntegral,
        },
    ]
}

/// The built-in rules of tier 8, in registration order.
pub open spec fn builtin_tier8() -> Seq<RuleView> {
    seq![
        RuleView {
            id: "la.vec_add"@,
            domain: Domain::LinearAlgebra,
            name: "Vector Addition"@,
            description: "Add vectors component-wise."@,
            prerequisites: seq!["ext.add"@],
            patterns: seq![PatternType::VectorAddition],
            properties: seq![Property::Commutative, Property::Associative],
            inverse: None,
            operation: Operation::VecAdd,
        },
        RuleView {
            id: "la.dot_product"@,
            domain: Domain::LinearAlgebra,
            name: "Dot Product"@,
            description: "a . b = sum of a_i * b_i. Produces scalar."@,
            prerequisites: seq!["ext.mul"@, "ext.add"@],
            patterns: seq![PatternType::VectorDotProduct],
            properties: seq![Property::Commutative],
            inverse: None,
            operation: Operation::DotProduct,
        },
        RuleView {
            id: "la.cross_product"@,
            domain: Domain::LinearAlgebra,
            name: "Cross Product"@,
            description: "a x b = (a2b3-a3b2, a3b1-a1b3, a1b2-a2b1). Produces vector. 3D only."@,
            prerequisites: seq!["ext.mul"@, "ext.sub"@],
            patterns: seq![PatternType::VectorCrossProduct],
            properties: Seq::<Property>::empty(),
            inverse: None,
            operation: Operation::CrossProduct,
        },
        RuleView {
            id: "la.vec_norm"@,
            domain: Domain::LinearAlgebra,
            name: "Vector Norm"@,
            description: "||v|| = sqrt(sum of v_i^2). Euclidean length."@,
            prerequisites: seq!["pre.sqrt"@, "pre.exponent"@, "ext.add"@],
            patterns: seq![PatternType::VectorNorm],
            properties: Seq::<Property>::empty(),
            inverse: None,
            operation: Operation::VecNorm,
        },
        RuleView {
            id: "la.transpose"@,
            domain: Domain::LinearAlgebra,
            name: "Matrix Transpose"@,
            description: "(A^T)_ij = A_ji. Swap rows and columns."@,
            prerequisites: Seq::<Seq<char>>::empty(),
            patterns: seq![PatternType::MatrixTranspose],
            properties: Seq::<Property>::empty(),
            inverse: None,
            operation: Operation::Transpose,
        },
        RuleView {
            id: "la.eigenvalue"@,
            domain: Domain::LinearAlgebra,
            name: "Eigenvalue"@,
            description: "Find lambda where det(A - lambda*I) = 0."@,
            prerequisites: seq!["adv.mat_det"@, "alg.quadratic_solve"@],
            patterns: seq![PatternType::Eigenvalue],
            properties: Seq::<Property>::empty(),
            inverse: None,
            operation: Operation::EigenvalueCalc,
        },
        RuleView {
            id: "la.eigenvector"@,
            domain: Domain::LinearAlgebra,
            name: "Eigenvector"@,
            description: "Find v where Av = lambda*v. Solve (A - lambda*I)v = 0."@,
            prerequisites: seq!["la.eigenvalue"@, "adv.system_solve"@],
            patterns: seq![PatternType::Eigenvector],
            properties: Seq::<Property>::empty(),
            inverse: None,
            operation: Operation::EigenvectorCalc,
        },
        RuleView {
            id: "la.linear_transform"@,
            domain: Domain::LinearAlgebra,
            name: "Linear Transformation"@,
            description: "T(v) = Av. Apply matrix to vector."@,
            prerequisites: seq!["adv.mat_mul"@],
            patterns: seq![PatternType::LinearTransformation],
            properties: Seq::<Property>::empty(),
            inverse: None,
            operation: Operation::LinearTransform,
        },
        RuleView {
            id: "la.mat_decompose"@,
            domain: Domain::LinearAlgebra,
            name: "Matrix Decomposition"@,
            description: "LU, QR, SVD, Cholesky decompositions."@,
            prerequisites: seq!["adv.mat_mul"@, "adv.mat_det"@, "la.vec_norm"@],
            patterns: seq![PatternType::MatrixDecomposition],
            properties: Seq::<Property>::empty(),
            inverse: None,
            operation: Operation::MatDecompose,
        },
        RuleView {
            id: "la.vec_project"@,
            domain: Domain::LinearAlgebra,
            name: "Vector Projection"@,
            description: "proj_b(a) = (a.b / b.b) * b."@,
            prerequisites: seq!["la.dot_product"@, "ext.div"@, "ext.mul"@],
            patterns: seq![PatternType::VectorProjection],
            properties: Seq::<Property>::empty(),
            inverse: None,
            operation: Operation::VecProject,
        },
        RuleView {
            id: "la.gram_schmidt"@,
            domain: Domain::LinearAlgebra,
            name: "Gram-Schmidt"@,
            description: "Orthogonalize a set of vectors."@,
            prerequisites: seq!["la.vec_project"@, "la.vec_norm"@],
            patterns: seq![PatternType::GramSchmidt],
            properties: Seq::<Property>::empty(),
            inverse: None,
            operation: Operation::GramSchmidtCalc,
        },
        RuleView {
            id: "la.rank_nullity"@,
            domain: Domain::LinearAlgebra,
            name: "Rank and Nullity"@,
            description: "rank(A) + nullity(A) = n. Compute via row echelon form."@,
            prerequisites: seq!["adv.system_solve"@],
            patterns: seq![PatternType::RankNullity],
            properties: Seq::<Property>::empty(),
            inverse: None,
            operation: Operation::RankNullityCalc,
        },
    ]
}

/// The built-in rules of tier 9, in registration order.
pub open spec fn builtin_tier9() -> Seq<RuleView> {
    seq![
        RuleView {
            id: "abs.mod_arith"@,
            domain: Domain::AbstractApplied,
            name: "Modular Arithmetic"@,
            description: "a mod n. Clock arithmetic. Congruence relations."@,
            prerequisites: seq!["ext.div"@],
            patterns: seq![PatternType::ModularArithmetic],
            properties: Seq::<Property>::empty(),
            inverse: None,
            operation: Operation::ModArith,
        },
        RuleView {
            id: "abs.permutation"@,
            domain: Domain::AbstractApplied,
            name: "Permutation"@,
            description: "P(n,r) = n! / (n-r)!. Ordered arrangements."@,
            prerequisites: seq!["ext.mul"@, "ext.div"@],
            patterns: seq![PatternType::Permutation],
            properties: Seq::<Property>::empty(),
            inverse: None,
            operation: Operation::PermutationCount,
        },
        RuleView {
            id: "abs.combination"@,
            domain: Domain::AbstractApplied,
            name: "Combination"@,
            description: "C(n,r) = n! / (r! * (n-r)!). Unordered selections."@,
            prerequisites: seq!["abs.permutation"@, "ext.div"@],
            patterns: seq![PatternType::Combination],
            properties: Seq::<Property>::empty(),
            inverse: None,
            operation: Operation::CombinationCount,
        },
        RuleView {
            id: "abs.prob_basic"@,
            domain: Domain::AbstractApplied,
            name: "Basic Probability"@,
            description: "P(A) = favorable outcomes / total outcomes. 0 <= P(A) <= 1."@,
            prerequisites: seq!["ext.div"@, "abs.combination"@],
            patterns: seq![PatternType::ProbabilityBasic],
            properties: Seq::<Property>::empty(),
            inverse: None,
            operation: Operation::ProbCalc,
        },
        RuleView {
            id: "abs.prob_cond"@,
            domain: Domain::AbstractApplied,
            name: "Conditional Probability"@,
            description: "P(A|B) = P(A and B) / P(B)."@,
            prerequisites: seq!["abs.prob_basic"@, "ext.div"@],
            patterns: seq![PatternType::ProbabilityConditional],
            properties: Seq::<Property>::empty(),
            inverse: None,
            operation: Operation::CondProbCalc,
        },
        RuleView {
            id: "abs.bayes"@,
            domain: Domain::AbstractApplied,
            name: "Bayes' Theorem"@,
            description: "P(A|B) = P(B|A) * P(A) / P(B)."@,
            prerequisites: seq!["abs.prob_cond"@, "ext.mul"@, "ext.div"@],
            patterns: seq![PatternType::BayesTheorem],
            properties: Seq::<Property>::empty(),
            inverse: None,
            operation: Operation::BayesCalc,
        },
        RuleView {
            id: "abs.expected_val"@,
            domain: Domain::AbstractApplied,
            name: "Expected Value"@,
            description: "E[X] = sum of x_i * P(x_i). Weighted average of outcomes."@,
            prerequisites: seq!["abs.prob_basic"@, "ext.mul"@, "ext.add"@],
            patterns: seq![PatternType::ExpectedValue],
            properties: Seq::<Property>::empty(),
            inverse: None,
            operation: Operation::ExpectedValCalc,
        },
        RuleView {
            id: "abs.variance"@,
            domain: Domain::AbstractApplied,
            name: "Variance"@,
            description: "Var(X) = E[X^2] - (E[X])^2. Measure of spread."@,
            prerequisites: seq!["abs.expected_val"@, "pre.exponent"@, "ext.sub"@],
            patterns: seq![PatternType::Variance],
            properties: Seq::<Property>::empty(),
            inverse: None,
            operation: Operation::VarianceCalc,
        },
        RuleView {
            id: "abs.std_dev"@,
            domain: Domain::AbstractApplied,
            name: "Standard Deviation"@,
            description: "sigma = sqrt(Var(X)). Square root of variance."@,
            prerequisites: seq!["abs.variance"@, "pre.sqrt"@],
            patterns: seq![PatternType::StandardDeviation],
            properties: Seq::<Property>::empty(),
            inverse: None,
            operation: Operation::StdDevCalc,
        },
        RuleView {
            id: "abs.normal_dist"@,
            domain: Domain::AbstractApplied,
            name: "Normal Distribution"@,
            description: "Z-scores, area under curve, probability from normal distribution."@,
            prerequisites: seq!["abs.std_dev"@, "abs.expected_val"@, "ext.div"@],
            patterns: seq![PatternType::NormalDistribution],
            properties: Seq::<Property>::empty(),
            inverse: None,
            operation: Operation::NormalDistCalc,
        },
        RuleView {
            id: "abs.hyp_test"@,
            domain: Domain::AbstractApplied,
            name: "Hypothesis Test"@,
            description: "Test statistical hypotheses: z-test, t-test, chi-square."@,
            prerequisites: seq!["abs.normal_dist"@, "abs.std_dev"@],
            patterns: seq![PatternType::HypothesisTest],
            properties: Seq::<Property>::empty(),
            inverse: None,
            operation: Operation::HypTestCalc,
        },
        RuleView {
            id: "abs.graph_adj"@,
            domain: Domain::AbstractApplied,
            name: "Graph Adjacency"@,
            description: "Build and query adjacency matrix/list representations of graphs."@,
            prerequisites: seq!["adv.mat_add"@],
            patterns: seq![PatternType::GraphAdjacency],
            properties: Seq::<Property>::empty(),
            inverse: None,
            operation: Operation::GraphAdjCalc,
        },
        RuleView {
            id: "abs.shortest_path"@,
            domain: Domain::AbstractApplied,
            name: "Shortest Path"@,
            description: "Find shortest path in graph: Dijkstra's, Bellman-Ford, Floyd-Warshall."@,
            prerequisites: seq!["abs.graph_adj"@, "ext.add"@],
            patterns: seq![PatternType::ShortestPath],
            properties: Seq::<Property>::empty(),
            inverse: None,
            operation: Operation::ShortestPathCalc,
        },
        RuleView {
            id: "abs.optimize"@,
            domain: Domain::AbstractApplied,
            name: "Optimization"@,
            description: "Find min/max of functions with or without constraints. Lagrange multipliers."@,
            prerequisites: seq!["calc.deriv_basic"@, "adv.system_solve"@],
            patterns: seq![PatternType::Optimization],
            properties: Seq::<Property>::empty(),
            inverse: None,
            operation: Operation::OptimizeCalc,
        },
    ]
}

/// The registrations of the built-in library: the tiers in order.
pub open spec fn builtin_library() -> Seq<RuleView> {
    builtin_tier0() + builtin_tier1() + builtin_tier2() + builtin_tier3() + builtin_tier4() + builtin_tier5() + builtin_tier6() + builtin_tier7() + builtin_tier8() + builtin_tier9()
}


/// After registering a rule, its id refers to it, and every other id refers
/// to what it referred to before.
pub proof fn law_register_then_lookup(regs: Seq<RuleView>, r: RuleView, other: Seq<char>)
    requires
        other != r.id,
    ensures
        lookup(regs.push(r), r.id) == Some(r),
        lookup(regs.push(r), other) == lookup(regs, other),
{
    let s = regs.push(r);
    assert(s.last() == r);
    assert(s.drop_last() =~= regs);
    lemma_latest_index_props(regs, other);
    let k = latest_index(regs, other);
    if k >= 0 {
        assert(s[k] == regs[k]);
    }
}

/// The ids of the first `n` registrations that are in a domain (duplicates
/// included), in order.
pub open spec fn domain_ids(regs: Seq<RuleView>, domain: Domain, n: int) -> Seq<Seq<char>>
    decreases n,
{
    if n <= 0 {
        Seq::empty()
    } else if regs[n - 1].domain == domain {
        domain_ids(regs, domain, n - 1).push(regs[n - 1].id)
    } else {
        domain_ids(regs, domain, n - 1)
    }
}

/// How many of the patterns match `p`.
pub open spec fn count_matching(pats: Seq<PatternType>, p: PatternType) -> nat
    decreases pats.len(),
{
    if pats.len() == 0 {
        0
    } else {
        count_matching(pats.drop_last(), p) + (if pats.last().equiv(p) { 1nat } else { 0nat })
    }
}

/// The ids indexed under pattern `p` by the first `n` registrations: each
/// registration contributes its id once per listed pattern matching `p`.
pub open spec fn pattern_ids(regs: Seq<RuleView>, p: PatternType, n: int) -> Seq<Seq<char>>
    decreases n,
{
    if n <= 0 {
        Seq::empty()
    } else {
        pattern_ids(regs, p, n - 1) + Seq::new(
            count_matching(regs[n - 1].patterns, p),
            |k: int| regs[n - 1].id,
        )
    }
}

/// The rules indexed under a pattern, in indexing order.
pub open spec fn pattern_rules_of(regs: Seq<RuleView>, p: PatternType) -> Seq<RuleView> {
    pattern_ids(regs, p, regs.len() as int).map_values(|id: Seq<char>| lookup(regs, id)->Some_0)
}

/// `a` is at least as specific as `b`: fewer patterns, or as many patterns and
/// at most as many prerequisites.
pub open spec fn at_least_as_specific(a: RuleView, b: RuleView) -> bool {
    a.patterns.len() < b.patterns.len() || (a.patterns.len() == b.patterns.len() && a.prerequisites.len()
        <= b.prerequisites.len())
}

/// `r` inserted into `s` after the last rule at least as specific as it.
pub open spec fn insert_by_specificity(s: Seq<RuleView>, r: RuleView) -> Seq<RuleView>
    decreases s.len(),
{
    if s.len() == 0 {
        seq![r]
    } else if at_least_as_specific(s.last(), r) {
        s.push(r)
    } else {
        insert_by_specificity(s.drop_last(), r).push(s.last())
    }
}

/// The rules ordered most specific first; equally specific rules keep their order.
pub open spec fn by_specificity(s: Seq<RuleView>) -> Seq<RuleView>
    decreases s.len(),
{
    if s.len() == 0 {
        Seq::empty()
    } else {
        insert_by_specificity(by_specificity(s.drop_last()), s.last())
    }
}

/// Each rule is at least as specific as every later one.
pub open spec fn specificity_sorted(s: Seq<RuleView>) -> bool {
    forall|i: int, j: int| 0 <= i < j < s.len() ==> at_least_as_specific(#[trigger] s[i], #[trigger] s[j])
}

proof fn lemma_insert_bounded(s: Seq<RuleView>, r: RuleView, m: RuleView)
    requires
        forall|i: int| 0 <= i < s.len() ==> at_least_as_specific(#[trigger] s[i], m),
        at_least_as_specific(r, m),
    ensures
        insert_by_specificity(s, r).len() == s.len() + 1,
        forall|i: int|
            0 <= i < insert_by_specificity(s, r).len() ==> at_least_as_specific(
                #[trigger] insert_by_specificity(s, r)[i],
                m,
            ),
    decreases s.len(),
{
    if s.len() > 0 && !at_least_as_specific(s.last(), r) {
        let t = s.drop_last();
        assert forall|i: int| 0 <= i < t.len() implies at_least_as_specific(#[trigger] t[i], m) by {
            assert(t[i] == s[i]);
        }
        lemma_insert_bounded(t, r, m);
        assert(at_least_as_specific(s[s.len() - 1], m));
    }
}

proof fn lemma_insert_sorted(s: Seq<RuleView>, r: RuleView)
    requires
        specificity_sorted(s),
    ensures
        specificity_sorted(insert_by_specificity(s, r)),
        insert_by_specificity(s, r).len() == s.len() + 1,
    decreases s.len(),
{
    let t = insert_by_specificity(s, r);
    if s.len() == 0 {
    } else if at_least_as_specific(s.last(), r) {
        assert forall|i: int, j: int| 0 <= i < j < t.len() implies at_least_as_specific(
            #[trigger] t[i],
            #[trigger] t[j],
        ) by {
            if j == s.len() {
                assert(at_least_as_specific(s[i], s[s.len() - 1]) || i == s.len() - 1);
            }
        }
    } else {
        let d = s.drop_last();
        let last = s.last();
        assert(specificity_sorted(d)) by {
            assert forall|i: int, j: int| 0 <= i < j < d.len() implies at_least_as_specific(
                #[trigger] d[i],
                #[trigger] d[j],
            ) by {
                assert(d[i] == s[i] && d[j] == s[j]);
            }
        }
        lemma_insert_sorted(d, r);
        assert forall|i: int| 0 <= i < d.len() implies at_least_as_specific(#[trigger] d[i], last) by {
            assert(d[i] == s[i]);
            assert(s[s.len() - 1] == last);
        }
        lemma_insert_bounded(d, r, last);
        let u = insert_by_specificity(d, r);
        assert(t == u.push(last));
        assert forall|i: int, j: int| 0 <= i < j < t.len() implies at_least_as_specific(
            #[trigger] t[i],
            #[trigger] t[j],
        ) by {
            if j < u.len() {
                assert(t[i] == u[i] && t[j] == u[j]);
            } else {
                assert(t[i] == u[i]);
                assert(at_least_as_specific(u[i], last));
            }
        }
    }
}

/// Ordering by specificity gives a sorted sequence of the same length.
pub proof fn lemma_by_specificity_sorted(s: Seq<RuleView>)
    ensures
        specificity_sorted(by_specificity(s)),
        by_specificity(s).len() == s.len(),
    decreases s.len(),
{
    if s.len() > 0 {
        lemma_by_specificity_sorted(s.drop_last());
        lemma_insert_sorted(by_specificity(s.drop_last()), s.last());
    }
}

/// `rs` lists, in order, the rules that the ids refer to.
pub open spec fn refers_to(rs: Seq<&Rule>, regs: Seq<RuleView>, ids: Seq<Seq<char>>) -> bool {
    &&& rs.len() == ids.len()
    &&& forall|k: int| 0 <= k < rs.len() ==> lookup(regs, ids[k]) == Some((#[trigger] rs[k])@)
}

proof fn lemma_latest_index_found(regs: Seq<RuleView>, id: Seq<char>, i: int)
    requires
        0 <= i < regs.len(),
        regs[i].id == id,
        forall|j: int| i < j < regs.len() ==> (#[trigger] regs[j]).id != id,
    ensures
        latest_index(regs, id) == i,
    decreases regs.len(),
{
    if i < regs.len() - 1 {
        let r0 = regs.drop_last();
        assert forall|j: int| i < j < r0.len() implies (#[trigger] r0[j]).id != id by {
            assert(r0[j] == regs[j]);
        }
        assert(regs[regs.len() - 1].id != id);
        lemma_latest_index_found(r0, id, i);
    }
}

proof fn lemma_latest_index_missing(regs: Seq<RuleView>, id: Seq<char>)
    requires
        forall|j: int| 0 <= j < regs.len() ==> (#[trigger] regs[j]).id != id,
    ensures
        latest_index(regs, id) == -1,
    decreases regs.len(),
{
    if regs.len() > 0 {
        let r0 = regs.drop_last();
        assert forall|j: int| 0 <= j < r0.len() implies (#[trigger] r0[j]).id != id by {
            assert(r0[j] == regs[j]);
        }
        assert(regs[regs.len() - 1].id != id);
        lemma_latest_index_missing(r0, id);
    }
}

/// `latest_index` points at a registration with the id, after which none has it.
pub proof fn lemma_latest_index_props(regs: Seq<RuleView>, id: Seq<char>)
    ensures
        -1 <= latest_index(regs, id) < regs.len(),
        latest_index(regs, id) >= 0 ==> regs[latest_index(regs, id)].id == id,
        latest_index(regs, id) >= 0 ==> is_latest(regs, latest_index(regs, id)),
        latest_index(regs, id) == -1 <==> !has_id(regs, id),
    decreases regs.len(),
{
    if regs.len() > 0 {
        let r0 = regs.drop_last();
        lemma_latest_index_props(r0, id);
        if regs.last().id != id {
            if latest_index(r0, id) >= 0 {
                let k = latest_index(r0, id);
                assert(regs[k] == r0[k]);
                assert forall|j: int| k < j < regs.len() implies (#[trigger] regs[j]).id != regs[k].id by {
                    if j < r0.len() {
                        assert(regs[j] == r0[j]);
                    }
                }
            }
            if has_id(regs, id) {
                let i = choose|i: int| 0 <= i < regs.len() && (#[trigger] regs[i]).id == id;
                assert(r0[i] == regs[i]);
            }
            if has_id(r0, id) {
                let i = choose|i: int| 0 <= i < r0.len() && (#[trigger] r0[i]).id == id;
                assert(r0[i] == regs[i]);
            }
        } else {
            assert(regs[regs.len() - 1].id == id);
        }
    }
}

/// Every id indexed under a pattern is the id of a registration.
pub proof fn lemma_pattern_ids_held(regs: Seq<RuleView>, p: PatternType, n: int)
    requires
        n <= regs.len(),
    ensures
        forall|k: int| 0 <= k < pattern_ids(regs, p, n).len() ==> has_id(regs, #[trigger] pattern_ids(regs, p, n)[k]),
    decreases n,
{
    if n > 0 {
        lemma_pattern_ids_held(regs, p, n - 1);
        let prev = pattern_ids(regs, p, n - 1);
        let ids = pattern_ids(regs, p, n);
        assert forall|k: int| 0 <= k < ids.len() implies has_id(regs, #[trigger] ids[k]) by {
            if k < prev.len() {
                assert(ids[k] == prev[k]);
            } else {
                assert(ids[k] == regs[n - 1].id);
            }
        }
    }
}

// ============================================================================
// RULE LIBRARY
// ============================================================================

/// The rule library: every rule registered with it, indexed by id, domain and pattern.
pub struct RuleLibrary {
    rules: Vec<Rule>,
}

impl View for RuleLibrary {
    type V = Seq<RuleView>;

    /// The registrations, in order.
    closed spec fn view(&self) -> Seq<RuleView> {
        self.rules@.map_values(|r: Rule| r@)
    }
}

impl Default for RuleLibrary {
    /// The built-in library.
    fn default() -> (lib: Self)
        ensures
            lib@ == builtin_library(),
    {
        RuleLibrary::new()
    }
}

impl RuleLibrary {
    /// A library with all built-in rules of the ten tiers.
    pub fn new() -> (lib: RuleLibrary)
        ensures
            lib@ == builtin_library(),
    {
        let mut lib = RuleLibrary { rules: Vec::new() };
        proof {
            assert(lib@ =~= Seq::<RuleView>::empty());
        }
        lib.register_tier0();
        proof {
            assert(lib@ =~= builtin_tier0());
        }
        lib.register_tier1();
        lib.register_tier2();
        lib.register_tier3();
        lib.register_tier4();
        lib.register_tier5();
        lib.register_tier6();
        lib.register_tier7();
        lib.register_tier8();
        lib.register_tier9();
        lib
    }

    /// Registers a rule, indexing it by id, domain and pattern. A rule with an
    /// id already present replaces the earlier one.
    pub fn register(&mut self, rule: Rule)
        ensures
            final(self)@ == old(self)@.push(rule@),
    {
        self.rules.push(rule);
        proof {
            assert(self@ =~= old(self)@.push(rule@));
        }
    }

    /// Position of the most recent registration with the id.
    fn position_of(&self, id: &str) -> (r: Option<usize>)
        ensures
            r is None ==> latest_index(self@, id@) == -1,
            r matches Some(i) ==> latest_index(self@, id@) == i && i < self@.len(),
    {
        let mut i: usize = self.rules.len();
        while i > 0
            invariant
                i <= self.rules@.len(),
                self@.len() == self.rules@.len(),
                forall|j: int| i <= j < self@.len() ==> (#[trigger] self@[j]).id != id@,
            decreases i,
        {
            i = i - 1;
            if str_eq(self.rules[i].id.as_str(), id) {
                proof {
                    lemma_latest_index_found(self@, id@, i as int);
                }
                return Some(i);
            }
        }
        proof {
            lemma_latest_index_missing(self@, id@);
        }
        None
    }

    /// The rule with the given id.
    pub fn get(&self, id: &str) -> (r: Option<&Rule>)
        ensures
            r is None <==> lookup(self@, id@) is None,
            r matches Some(x) ==> lookup(self@, id@) == Some(x@),
    {
        match self.position_of(id) {
            Some(i) => Some(&self.rules[i]),
            None => None,
        }
    }

    /// The rules matching a pattern, most specific first: by fewest patterns,
    /// then fewest prerequisites, and in indexing order among equally
    /// specific rules.
    pub fn retrieve_by_pattern(&self, pattern: &PatternType) -> (r: Vec<&Rule>)
        ensures
            rule_views(r@) == by_specificity(pattern_rules_of(self@, *pattern)),
            forall|i: int, j: int|
                0 <= i < j < r@.len() ==> at_least_as_specific(#[trigger] r@[i]@, #[trigger] r@[j]@),
    {
        let indexed = self.indexed_by_pattern(pattern);
        let ghost cs = pattern_rules_of(self@, *pattern);
        proof {
            let ids = pattern_ids(self@, *pattern, self@.len() as int);
            assert forall|k: int| 0 <= k < cs.len() implies #[trigger] cs[k] == indexed@[k]@ by {
                assert(lookup(self@, ids[k]) == Some(indexed@[k]@));
            }
            assert(rule_views(indexed@) =~= cs);
        }
        let mut out: Vec<&Rule> = Vec::new();
        let mut i: usize = 0;
        while i < indexed.len()
            invariant
                i <= indexed@.len(),
                rule_views(indexed@) == cs,
                rule_views(out@) == by_specificity(cs.take(i as int)),
            decreases indexed@.len() - i,
        {
            let x = indexed[i];
            let ghost before = rule_views(out@);
            let mut pos: usize = out.len();
            proof {
                assert(before.take(pos as int) =~= before);
                assert(before.skip(pos as int) =~= Seq::<RuleView>::empty());
                assert(insert_by_specificity(before, x@) + Seq::<RuleView>::empty() =~= insert_by_specificity(
                    before,
                    x@,
                ));
            }
            while pos > 0 && !(out[pos - 1].patterns.len() < x.patterns.len() || (out[pos - 1].patterns.len()
                == x.patterns.len() && out[pos - 1].prerequisites.len() <= x.prerequisites.len()))
                invariant
                    pos <= out@.len(),
                    rule_views(out@) == before,
                    insert_by_specificity(before, x@) == insert_by_specificity(before.take(pos as int), x@)
                        + before.skip(pos as int),
                decreases pos,
            {
                proof {
                    let t = before.take(pos as int);
                    assert(t.last() == before[pos - 1]);
                    assert(t.drop_last() =~= before.take(pos - 1));
                    assert(before[pos - 1] == out@[pos - 1]@);
                    assert(insert_by_specificity(t, x@) == insert_by_specificity(before.take(pos - 1), x@).push(
                        before[pos - 1],
                    ));
                    assert(insert_by_specificity(before.take(pos - 1), x@).push(before[pos - 1]) + before.skip(
                        pos as int,
                    ) =~= insert_by_specificity(before.take(pos - 1), x@) + before.skip(pos - 1));
                }
                pos = pos - 1;
            }
            proof {
                let t = before.take(pos as int);
                if pos > 0 {
                    assert(t.last() == before[pos - 1]);
                    assert(before[pos - 1] == out@[pos - 1]@);
                    assert(insert_by_specificity(t, x@) == t.push(x@));
                } else {
                    assert(t =~= Seq::<RuleView>::empty());
                    assert(insert_by_specificity(t, x@) == seq![x@]);
                }
            }
            out.insert(pos, x);
            proof {
                let t = before.take(pos as int);
                assert(rule_views(out@) =~= t.push(x@) + before.skip(pos as int));
                assert(cs.take(i + 1).drop_last() =~= cs.take(i as int));
                assert(cs.take(i + 1).last() == x@);
            }
            i = i + 1;
        }
        proof {
            assert(cs.take(i as int) =~= cs);
            lemma_by_specificity_sorted(cs);
            let v = rule_views(out@);
            assert forall|i: int, j: int| 0 <= i < j < out@.len() implies at_least_as_specific(
                #[trigger] out@[i]@,
                #[trigger] out@[j]@,
            ) by {
                assert(v[i] == out@[i]@ && v[j] == out@[j]@);
            }
        }
        out
    }

    /// The rules matching a pattern, in indexing order.
    pub(crate) fn indexed_by_pattern(&self, pattern: &PatternType) -> (r: Vec<&Rule>)
        ensures
            refers_to(r@, self@, pattern_ids(self@, *pattern, self@.len() as int)),
    {
        let mut out: Vec<&Rule> = Vec::new();
        let mut i: usize = 0;
        while i < self.rules.len()
            invariant
                i <= self.rules@.len(),
                self@.len() == self.rules@.len(),
                refers_to(out@, self@, pattern_ids(self@, *pattern, i as int)),
            decreases self.rules@.len() - i,
        {
            let rule = &self.rules[i];
            let ghost before = pattern_ids(self@, *pattern, i as int);
            let mut j: usize = 0;
            while j < rule.patterns.len()
                invariant
                    i < self.rules@.len(),
                    self@.len() == self.rules@.len(),
                    rule == self.rules@[i as int],
                    j <= rule.patterns@.len(),
                    refers_to(
                        out@,
                        self@,
                        before + Seq::new(
                            count_matching(rule.patterns@.take(j as int), *pattern),
                            |k: int| rule.id@,
                        ),
                    ),
                decreases rule.patterns@.len() - j,
            {
                proof {
                    assert(rule.patterns@.take(j + 1).drop_last() =~= rule.patterns@.take(j as int));
                }
                if rule.patterns[j].same_as(pattern) {
                    let target = self.get(rule.id.as_str());
                    proof {
                        lemma_latest_index_props(self@, rule.id@);
                        assert(self@[i as int] == rule@);
                    }
                    match target {
                        Some(t) => {
                            out.push(t);
                        },
                        None => {},
                    }
                }
                j = j + 1;
                proof {
                    let ids = before + Seq::new(
                        count_matching(rule.patterns@.take(j as int), *pattern),
                        |k: int| rule.id@,
                    );
                    assert forall|k: int| 0 <= k < out@.len() implies lookup(self@, ids[k]) == Some(
                        (#[trigger] out@[k])@,
                    ) by {
                        if k >= before.len() {
                            assert(ids[k] == rule.id@);
                        }
                    }
                }
            }
            proof {
                assert(rule.patterns@.take(j as int) =~= rule.patterns@);
                assert(self@[i as int] == rule@);
                assert(pattern_ids(self@, *pattern, i + 1) == before + Seq::new(
                    count_matching(rule.patterns@, *pattern),
                    |k: int| rule.id@,
                ));
            }
            i = i + 1;
        }
        out
    }

    /// The rules registered in a domain (a rule registered twice is listed twice).
    pub fn retrieve_by_domain(&self, domain: Domain) -> (r: Vec<&Rule>)
        ensures
            refers_to(r@, self@, domain_ids(self@, domain, self@.len() as int)),
    {
        let mut out: Vec<&Rule> = Vec::new();
        let mut i: usize = 0;
        while i < self.rules.len()
            invariant
                i <= self.rules@.len(),
                self@.len() == self.rules@.len(),
                refers_to(out@, self@, domain_ids(self@, domain, i as int)),
            decreases self.rules@.len() - i,
        {
            if self.rules[i].domain == domain {
                let target = self.get(self.rules[i].id.as_str());
                proof {
                    lemma_latest_index_props(self@, self@[i as int].id);
                }
                match target {
                    Some(t) => {
                        out.push(t);
                    },
                    None => {},
                }
            }
            i = i + 1;
        }
        out
    }

    /// The rules of a tier, each id once.
    pub fn retrieve_by_tier(&self, tier: u8) -> (r: Vec<&Rule>)
        ensures
            r@.len() == tier_upto(self@, tier as nat, self@.len() as int).len(),
            forall|k: int| 0 <= k < r@.len() ==> (#[trigger] r@[k])@ == tier_upto(self@, tier as nat, self@.len() as int)[k],
            forall|k: int| 0 <= k < r@.len() ==> (#[trigger] r@[k])@.tier() == tier,
            forall|k: int| 0 <= k < r@.len() ==> lookup(self@, (#[trigger] r@[k])@.id) == Some(r@[k]@),
            forall|i: int|
                0 <= i < self@.len() && is_latest(self@, i) && (#[trigger] self@[i]).tier() == tier ==> exists|k: int|
                    0 <= k < r@.len() && (#[trigger] r@[k])@ == self@[i],
    {
        proof {
            law_tier_rules(self@, tier as nat, self@.len() as int);
        }
        let mut out: Vec<&Rule> = Vec::new();
        let mut i: usize = 0;
        while i < self.rules.len()
            invariant
                i <= self.rules@.len(),
                self@.len() == self.rules@.len(),
                out@.len() == tier_upto(self@, tier as nat, i as int).len(),
                forall|k: int| 0 <= k < out@.len() ==> (#[trigger] out@[k])@ == tier_upto(self@, tier as nat, i as int)[k],
            decreases self.rules@.len() - i,
        {
            let latest = self.is_latest_at(i);
            if latest && self.rules[i].tier() == tier {
                out.push(&self.rules[i]);
            }
            i = i + 1;
        }
        proof {
            let t = tier_upto(self@, tier as nat, self@.len() as int);
            assert forall|k: int| 0 <= k < out@.len() implies lookup(self@, (#[trigger] out@[k])@.id) == Some(
                out@[k]@,
            ) by {
                assert(out@[k]@ == t[k]);
                let j = choose|j: int| 0 <= j < self@.len() && is_latest(self@, j) && self@[j] == #[trigger] t[k];
                lemma_latest_index_found(self@, self@[j].id, j);
            }
            assert forall|j: int|
                0 <= j < self@.len() && is_latest(self@, j) && (#[trigger] self@[j]).tier() == tier implies exists|k: int|
                0 <= k < out@.len() && (#[trigger] out@[k])@ == self@[j] by {
                assert(t.contains(self@[j]));
                let k = choose|k: int| 0 <= k < t.len() && t[k] == self@[j];
                assert(out@[k]@ == t[k]);
            }
        }
        out
    }

    /// Whether registration `i` is the most recent one with its id.
    fn is_latest_at(&self, i: usize) -> (b: bool)
        requires
            i < self@.len(),
        ensures
            b == is_latest(self@, i as int),
    {
        assert(self@.len() == self.rules@.len());
        let n = self.rules.len();
        let id = self.rules[i].id.as_str();
        assert(id@ == self@[i as int].id);
        let mut j: usize = i + 1;
        while j < self.rules.len()
            invariant
                i < j <= self.rules@.len(),
                self@.len() == self.rules@.len(),
                id@ == self@[i as int].id,
                forall|k: int| i < k < j ==> (#[trigger] self@[k]).id != self@[i as int].id,
            decreases self.rules@.len() - j,
        {
            assert(self@[j as int].id == self.rules@[j as int].id@);
            if str_eq(self.rules[j].id.as_str(), id) {
                return false;
            }
            j = j + 1;
        }
        true
    }

    /// The ids of all rules in the library, each once.
    pub fn all_ids(&self) -> (r: Vec<&str>)
        ensures
            r@.len() == held_rules(self@).len(),
            forall|k: int| 0 <= k < r@.len() ==> (#[trigger] r@[k])@ == held_rules(self@)[k].id,
    {
        let mut out: Vec<&str> = Vec::new();
        let mut i: usize = 0;
        while i < self.rules.len()
            invariant
                i <= self.rules@.len(),
                self@.len() == self.rules@.len(),
                out@.len() == latest_upto(self@, i as int).len(),
                forall|k: int| 0 <= k < out@.len() ==> (#[trigger] out@[k])@ == latest_upto(self@, i as int)[k].id,
            decreases self.rules@.len() - i,
        {
            if self.is_latest_at(i) {
                out.push(self.rules[i].id.as_str());
            }
            i = i + 1;
        }
        out
    }

    /// Number of rules in the library (each id counted once).
    pub fn count(&self) -> (n: usize)
        ensures
            n == held_rules(self@).len(),
    {
        let mut n: usize = 0;
        let mut i: usize = 0;
        while i < self.rules.len()
            invariant
                i <= self.rules@.len(),
                self@.len() == self.rules@.len(),
                n == latest_upto(self@, i as int).len(),
                n <= i,
            decreases self.rules@.len() - i,
        {
            if self.is_latest_at(i) {
                n = n + 1;
            }
            i = i + 1;
        }
        n
    }

    /// Number of rules registered in a domain (a rule registered twice counts twice).
    pub fn count_domain(&self, domain: Domain) -> (n: usize)
        ensures
            n == domain_ids(self@, domain, self@.len() as int).len(),
    {
        let mut n: usize = 0;
        let mut i: usize = 0;
        while i < self.rules.len()
            invariant
                i <= self.rules@.len(),
                self@.len() == self.rules@.len(),
                n == domain_ids(self@, domain, i as int).len(),
                n <= i,
            decreases self.rules@.len() - i,
        {
            if self.rules[i].domain == domain {
                n = n + 1;
            }
            i = i + 1;
        }
        n
    }

    /// Whether the rule exists and every one of its prerequisites is in the library.
    pub fn prerequisites_satisfied(&self, rule_id: &str) -> (b: bool)
        ensures
            b == (lookup(self@, rule_id@) matches Some(r) && forall|k: int|
                0 <= k < r.prerequisites.len() ==> has_id(self@, #[trigger] r.prerequisites[k])),
    {
        match self.get(rule_id) {
            None => false,
            Some(rule) => {
                let mut k: usize = 0;
                while k < rule.prerequisites.len()
                    invariant
                        k <= rule.prerequisites@.len(),
                        lookup(self@, rule_id@) == Some(rule@),
                        forall|q: int| 0 <= q < k ==> has_id(self@, #[trigger] rule@.prerequisites[q]),
                    decreases rule.prerequisites@.len() - k,
                {
                    let found = self.position_of(rule.prerequisites[k].as_str());
                    proof {
                        lemma_latest_index_props(self@, rule@.prerequisites[k as int]);
                    }
                    if found.is_none() {
                        return false;
                    }
                    k = k + 1;
                }
                true
            },
        }
    }
}

// ============================================================================
// PREREQUISITE CHAINS
// ============================================================================

/// The ids of a sequence of rules.
pub open spec fn ids_of(rs: Seq<RuleView>) -> Seq<Seq<char>> {
    rs.map_values(|r: RuleView| r.id)
}

/// The views of a sequence of rule references.
pub open spec fn rule_views(rs: Seq<&Rule>) -> Seq<RuleView> {
    rs.map_values(|r: &Rule| r@)
}

/// Each element of `chain` is the rule the library holds for its id, and no
/// id occurs twice.
pub open spec fn held_and_distinct(regs: Seq<RuleView>, chain: Seq<RuleView>) -> bool {
    &&& forall|k: int| 0 <= k < chain.len() ==> lookup(regs, (#[trigger] chain[k]).id) == Some(chain[k])
    &&& forall|a: int, b: int|
        0 <= a < b < chain.len() ==> (#[trigger] chain[a]).id != (#[trigger] chain[b]).id
}

/// Every prerequisite of a rule in `chain` that the library holds is itself in `chain`.
pub open spec fn prerequisite_closed(regs: Seq<RuleView>, chain: Seq<RuleView>) -> bool {
    forall|k: int, q: int|
        0 <= k < chain.len() && 0 <= q < chain[k].prerequisites.len() && has_id(
            regs,
            #[trigger] chain[k].prerequisites[q],
        ) ==> ids_of(chain).contains(chain[k].prerequisites[q])
}

/// Every prerequisite of a rule in `chain` that the library holds appears
/// earlier in `chain`.
pub open spec fn prerequisites_first(regs: Seq<RuleView>, chain: Seq<RuleView>) -> bool {
    forall|k: int, q: int|
        0 <= k < chain.len() && 0 <= q < chain[k].prerequisites.len() && has_id(
            regs,
            #[trigger] chain[k].prerequisites[q],
        ) ==> exists|j: int| 0 <= j < k && (#[trigger] chain[j]).id == chain[k].prerequisites[q]
}

/// `rank` strictly decreases from each held rule to each of its held prerequisites:
/// the prerequisite relation has no cycle.
pub open spec fn ranked_by(regs: Seq<RuleView>, rank: spec_fn(Seq<char>) -> nat) -> bool {
    forall|id: Seq<char>, q: int|
        #![trigger lookup(regs, id), rank(id), has_id(regs, lookup(regs, id)->Some_0.prerequisites[q])]
        lookup(regs, id) is Some && 0 <= q < lookup(regs, id)->Some_0.prerequisites.len() && has_id(
            regs,
            lookup(regs, id)->Some_0.prerequisites[q],
        ) ==> rank(lookup(regs, id)->Some_0.prerequisites[q]) < rank(id)
}

/// The prerequisite relation of the library has no cycle.
pub open spec fn acyclic(regs: Seq<RuleView>) -> bool {
    exists|rank: spec_fn(Seq<char>) -> nat| ranked_by(regs, rank)
}

/// Number of registrations whose id is not in `visited`.
pub open spec fn unvisited_count(regs: Seq<RuleView>, visited: Seq<Seq<char>>) -> nat
    decreases regs.len(),
{
    if regs.len() == 0 {
        0
    } else {
        unvisited_count(regs.drop_last(), visited) + (if visited.contains(regs.last().id) {
            0nat
        } else {
            1nat
        })
    }
}

proof fn lemma_unvisited_mono(regs: Seq<RuleView>, v1: Seq<Seq<char>>, v2: Seq<Seq<char>>)
    requires
        forall|x: Seq<char>| v1.contains(x) ==> v2.contains(x),
    ensures
        unvisited_count(regs, v2) <= unvisited_count(regs, v1),
    decreases regs.len(),
{
    if regs.len() > 0 {
        lemma_unvisited_mono(regs.drop_last(), v1, v2);
    }
}

/// Depth-first resolution of `id` with the ids `v` already visited and at
/// most `n` nested visits: the ids it appends to the chain, and the visited
/// ids afterwards. A visited id adds nothing; an id the library does not hold
/// is marked visited; a held id is marked visited, its prerequisites are
/// resolved in their declared order, and then it is appended.
pub open spec fn dfs_visit(regs: Seq<RuleView>, id: Seq<char>, v: Seq<Seq<char>>, n: nat) -> (
    Seq<Seq<char>>,
    Seq<Seq<char>>,
)
    decreases n, 0nat,
{
    if v.contains(id) {
        (Seq::empty(), v)
    } else if !has_id(regs, id) || n == 0 {
        (Seq::empty(), v.push(id))
    } else {
        let r = dfs_list(regs, lookup(regs, id)->Some_0.prerequisites, v.push(id), (n - 1) as nat);
        (r.0.push(id), r.1)
    }
}

/// Depth-first resolution of each id of `ps` in turn.
pub open spec fn dfs_list(regs: Seq<RuleView>, ps: Seq<Seq<char>>, v: Seq<Seq<char>>, n: nat) -> (
    Seq<Seq<char>>,
    Seq<Seq<char>>,
)
    decreases n, ps.len() + 1,
{
    if ps.len() == 0 {
        (Seq::empty(), v)
    } else {
        let a = dfs_list(regs, ps.drop_last(), v, n);
        let b = dfs_visit(regs, ps.last(), a.1, n);
        (a.0 + b.0, b.1)
    }
}

/// The ids of the prerequisite chain of `id`, in depth-first order: each
/// rule after the prerequisites it reaches first, in declared order.
pub open spec fn dfs_chain_ids(regs: Seq<RuleView>, id: Seq<char>) -> Seq<Seq<char>> {
    dfs_visit(regs, id, Seq::empty(), regs.len() + 1).0
}

proof fn lemma_unvisited_le_len(regs: Seq<RuleView>, v: Seq<Seq<char>>)
    ensures
        unvisited_count(regs, v) <= regs.len(),
    decreases regs.len(),
{
    if regs.len() > 0 {
        lemma_unvisited_le_len(regs.drop_last(), v);
    }
}

proof fn lemma_unvisited_strict(regs: Seq<RuleView>, v1: Seq<Seq<char>>, v2: Seq<Seq<char>>, id: Seq<char>)
    requires
        forall|x: Seq<char>| v1.contains(x) ==> v2.contains(x),
        has_id(regs, id),
        !v1.contains(id),
        v2.contains(id),
    ensures
        unvisited_count(regs, v2) < unvisited_count(regs, v1),
    decreases regs.len(),
{
    let r0 = regs.drop_last();
    if regs.last().id == id {
        lemma_unvisited_mono(r0, v1, v2);
    } else {
        let i = choose|i: int| 0 <= i < regs.len() && (#[trigger] regs[i]).id == id;
        assert(r0[i] == regs[i]);
        lemma_unvisited_strict(r0, v1, v2, id);
    }
}

/// `path` follows prerequisites: each id is held, and each after the first is
/// a prerequisite of the rule held for the id before it.
pub open spec fn is_prereq_path(regs: Seq<RuleView>, path: Seq<Seq<char>>) -> bool {
    &&& path.len() > 0
    &&& forall|k: int| 0 <= k < path.len() ==> has_id(regs, #[trigger] path[k])
    &&& forall|k: int|
        0 <= k < path.len() - 1 ==> lookup(regs, #[trigger] path[k])->Some_0.prerequisites.contains(
            path[k + 1],
        )
}

/// `to` is reached from the held id `from` by following held prerequisites.
pub open spec fn reaches(regs: Seq<RuleView>, from: Seq<char>, to: Seq<char>) -> bool {
    exists|path: Seq<Seq<char>>| is_prereq_path(regs, path) && path[0] == from && path.last() == to
}

/// A held id reaches itself.
pub proof fn lemma_reaches_refl(regs: Seq<RuleView>, id: Seq<char>)
    requires
        has_id(regs, id),
    ensures
        reaches(regs, id, id),
{
    let path = seq![id];
    assert(is_prereq_path(regs, path));
    assert(path[0] == id && path.last() == id);
    assert(is_prereq_path(regs, path) && path[0] == id && path.last() == id);
}

proof fn lemma_reaches_step(regs: Seq<RuleView>, a: Seq<char>, b: Seq<char>, c: Seq<char>)
    requires
        reaches(regs, a, b),
        has_id(regs, c),
        lookup(regs, b)->Some_0.prerequisites.contains(c),
    ensures
        reaches(regs, a, c),
{
    let path = choose|path: Seq<Seq<char>>| is_prereq_path(regs, path) && path[0] == a && path.last() == b;
    let p2 = path.push(c);
    assert forall|k: int| 0 <= k < p2.len() implies has_id(regs, #[trigger] p2[k]) by {
        if k < path.len() {
            assert(p2[k] == path[k]);
        }
    }
    assert forall|k: int| 0 <= k < p2.len() - 1 implies lookup(regs, #[trigger] p2[k])->Some_0.prerequisites.contains(
        p2[k + 1],
    ) by {
        assert(p2[k] == path[k]);
        if k < path.len() - 1 {
            assert(p2[k + 1] == path[k + 1]);
        }
    }
    assert(is_prereq_path(regs, p2));
    assert(p2[0] == a && p2.last() == c);
    assert(is_prereq_path(regs, p2) && p2[0] == a && p2.last() == c);
}

proof fn lemma_path_in_chain(regs: Seq<RuleView>, chain: Seq<RuleView>, path: Seq<Seq<char>>, k: int)
    requires
        is_prereq_path(regs, path),
        0 <= k < path.len(),
        held_and_distinct(regs, chain),
        prerequisite_closed(regs, chain),
        ids_of(chain).contains(path[0]),
    ensures
        ids_of(chain).contains(path[k]),
    decreases k,
{
    if k > 0 {
        lemma_path_in_chain(regs, chain, path, k - 1);
        let j = choose|j: int| 0 <= j < ids_of(chain).len() && ids_of(chain)[j] == path[k - 1];
        assert(lookup(regs, chain[j].id) == Some(chain[j]));
        assert(lookup(regs, path[k - 1])->Some_0.prerequisites.contains(path[k]));
        let q = choose|q: int| 0 <= q < chain[j].prerequisites.len() && chain[j].prerequisites[q] == path[k];
        assert(has_id(regs, path[k]));
        assert(has_id(regs, chain[j].prerequisites[q]));
    }
}

/// Every rule of `chain` and every stack entry is reached from `root`.
spec fn rooted(regs: Seq<RuleView>, root: Seq<char>, chain: Seq<RuleView>, stack: Seq<Seq<char>>) -> bool {
    &&& forall|k: int| 0 <= k < chain.len() ==> reaches(regs, root, (#[trigger] chain[k]).id)
    &&& forall|k: int| 0 <= k < stack.len() ==> reaches(regs, root, #[trigger] stack[k])
}

/// The state of the depth-first resolution: `chain` holds finished rules, `stack`
/// the ids being resolved (each a prerequisite of the one before), `visited`
/// every id seen so far.
spec fn dfs_state(
    regs: Seq<RuleView>,
    chain: Seq<RuleView>,
    visited: Seq<Seq<char>>,
    stack: Seq<Seq<char>>,
) -> bool {
    &&& held_and_distinct(regs, chain)
    &&& forall|k: int| 0 <= k < chain.len() ==> visited.contains((#[trigger] chain[k]).id)
    &&& forall|k: int| 0 <= k < stack.len() ==> visited.contains(#[trigger] stack[k])
    &&& forall|k: int|
        0 <= k < stack.len() ==> has_id(regs, #[trigger] stack[k]) && !ids_of(chain).contains(
            stack[k],
        )
    &&& forall|x: Seq<char>|
        #[trigger] visited.contains(x) ==> ids_of(chain).contains(x) || stack.contains(x) || !has_id(
            regs,
            x,
        )
    &&& forall|k: int, q: int|
        0 <= k < chain.len() && 0 <= q < chain[k].prerequisites.len() ==> visited.contains(
            #[trigger] chain[k].prerequisites[q],
        )
    &&& forall|k: int|
        0 <= k < stack.len() - 1 ==> lookup(regs, #[trigger] stack[k])->Some_0.prerequisites.contains(
            stack[k + 1],
        )
}

/// Along a stack whose entries are each a prerequisite of the one before, a
/// ranking of the library strictly decreases.
proof fn lemma_stack_ranks(
    regs: Seq<RuleView>,
    stack: Seq<Seq<char>>,
    rank: spec_fn(Seq<char>) -> nat,
    k: int,
)
    requires
        ranked_by(regs, rank),
        0 <= k < stack.len(),
        forall|i: int| 0 <= i < stack.len() ==> has_id(regs, #[trigger] stack[i]),
        forall|i: int|
            0 <= i < stack.len() - 1 ==> lookup(regs, #[trigger] stack[i])->Some_0.prerequisites.contains(
                stack[i + 1],
            ),
    ensures
        rank(stack[k]) >= rank(stack.last()),
    decreases stack.len() - k,
{
    if k < stack.len() - 1 {
        lemma_stack_ranks(regs, stack, rank, k + 1);
        lemma_latest_index_props(regs, stack[k]);
        let r = lookup(regs, stack[k])->Some_0;
        assert(r.prerequisites.contains(stack[k + 1]));
        let q = choose|q: int| 0 <= q < r.prerequisites.len() && r.prerequisites[q] == stack[k + 1];
        assert(has_id(regs, stack[k + 1]));
        assert(rank(r.prerequisites[q]) < rank(stack[k]));
    }
}

fn contains_string(v: &Vec<String>, s: &str) -> (b: bool)
    ensures
        b == string_views(v@).contains(s@),
{
    let mut i: usize = 0;
    while i < v.len()
        invariant
            i <= v@.len(),
            forall|k: int| 0 <= k < i ==> (#[trigger] v@[k])@ != s@,
        decreases v@.len() - i,
    {
        if str_eq(v[i].as_str(), s) {
            assert(string_views(v@)[i as int] == s@);
            return true;
        }
        i = i + 1;
    }
    assert forall|k: int| 0 <= k < string_views(v@).len() implies string_views(v@)[k] != s@ by {
        assert(string_views(v@)[k] == v@[k]@);
    }
    false
}

impl RuleLibrary {
    /// Resolves the full prerequisite chain of a rule, depth first: each rule
    /// after its prerequisites, resolved in their declared order, the target
    /// last, each rule once.
    pub fn resolve_chain(&self, rule_id: &str) -> (chain: Vec<&Rule>)
        ensures
            held_and_distinct(self@, rule_views(chain@)),
            prerequisite_closed(self@, rule_views(chain@)),
            acyclic(self@) ==> prerequisites_first(self@, rule_views(chain@)),
            has_id(self@, rule_id@) ==> chain@.len() > 0 && chain@.last()@.id == rule_id@,
            !has_id(self@, rule_id@) ==> chain@.len() == 0,
            forall|x: Seq<char>|
                #![trigger ids_of(rule_views(chain@)).contains(x)]
                #![trigger reaches(self@, rule_id@, x)]
                ids_of(rule_views(chain@)).contains(x) <==> reaches(self@, rule_id@, x),
            ids_of(rule_views(chain@)) == dfs_chain_ids(self@, rule_id@),
    {
        let mut chain: Vec<&Rule> = Vec::new();
        let mut visited: Vec<String> = Vec::new();
        let ghost rank = choose|rank: spec_fn(Seq<char>) -> nat| ranked_by(self@, rank);
        proof {
            assert(rule_views(chain@) =~= Seq::<RuleView>::empty());
            assert(string_views(visited@) =~= Seq::<Seq<char>>::empty());
            lemma_unvisited_le_len(self@, Seq::empty());
        }
        self.resolve_recursive(
            rule_id,
            &mut chain,
            &mut visited,
            Ghost(Seq::empty()),
            Ghost(rank),
            Ghost(rule_id@),
            Ghost(self@.len() + 1),
        );
        proof {
            let cv = rule_views(chain@);
            let vv = string_views(visited@);
            assert forall|k: int, q: int|
                0 <= k < cv.len() && 0 <= q < cv[k].prerequisites.len() && has_id(
                    self@,
                    #[trigger] cv[k].prerequisites[q],
                ) implies ids_of(cv).contains(cv[k].prerequisites[q]) by {
                assert(vv.contains(cv[k].prerequisites[q]));
            }
            if has_id(self@, rule_id@) {
                assert(vv.contains(rule_id@));
                assert(ids_of(cv).contains(rule_id@));
            }
            assert forall|x: Seq<char>| ids_of(cv).contains(x) implies reaches(self@, rule_id@, x) by {
                let k = choose|k: int| 0 <= k < ids_of(cv).len() && ids_of(cv)[k] == x;
                assert(reaches(self@, rule_id@, cv[k].id));
            }
            assert forall|x: Seq<char>| reaches(self@, rule_id@, x) implies ids_of(cv).contains(x) by {
                let path = choose|path: Seq<Seq<char>>|
                    is_prereq_path(self@, path) && path[0] == rule_id@ && path.last() == x;
                assert(has_id(self@, path[0]));
                lemma_path_in_chain(self@, cv, path, path.len() - 1);
            }
        }
        chain
    }

    fn resolve_recursive<'a>(
        &'a self,
        rule_id: &str,
        chain: &mut Vec<&'a Rule>,
        visited: &mut Vec<String>,
        Ghost(stack): Ghost<Seq<Seq<char>>>,
        Ghost(rank): Ghost<spec_fn(Seq<char>) -> nat>,
        Ghost(root): Ghost<Seq<char>>,
        Ghost(n): Ghost<nat>,
    )
        requires
            n > unvisited_count(self@, string_views(old(visited)@)),
            dfs_state(self@, rule_views(old(chain)@), string_views(old(visited)@), stack),
            rooted(self@, root, rule_views(old(chain)@), stack),
            stack.len() == 0 ==> rule_id@ == root,
            stack.len() > 0 ==> lookup(self@, stack.last())->Some_0.prerequisites.contains(rule_id@),
            ranked_by(self@, rank) ==> prerequisites_first(self@, rule_views(old(chain)@)),
        ensures
            dfs_state(self@, rule_views(final(chain)@), string_views(final(visited)@), stack),
            rooted(self@, root, rule_views(final(chain)@), stack),
            ranked_by(self@, rank) ==> prerequisites_first(self@, rule_views(final(chain)@)),
            rule_views(final(chain)@).subrange(0, old(chain)@.len() as int) == rule_views(old(chain)@),
            old(chain)@.len() <= final(chain)@.len(),
            forall|x: Seq<char>|
                string_views(old(visited)@).contains(x) ==> #[trigger] string_views(final(visited)@).contains(x),
            string_views(final(visited)@).contains(rule_id@),
            !string_views(old(visited)@).contains(rule_id@) && has_id(self@, rule_id@)
                ==> final(chain)@.len() > 0 && final(chain)@.last()@.id == rule_id@,
            !has_id(self@, rule_id@) ==> final(chain)@ == old(chain)@,
            ids_of(rule_views(final(chain)@)) == ids_of(rule_views(old(chain)@)) + dfs_visit(
                self@,
                rule_id@,
                string_views(old(visited)@),
                n,
            ).0,
            string_views(final(visited)@) == dfs_visit(self@, rule_id@, string_views(old(visited)@), n).1,
        decreases unvisited_count(self@, string_views(old(visited)@)),
    {
        if contains_string(visited, rule_id) {
            proof {
                assert(ids_of(rule_views(chain@)) + Seq::<Seq<char>>::empty() =~= ids_of(rule_views(chain@)));
            }
            return;
        }
        let ghost v0 = string_views(visited@);
        let ghost ids0 = ids_of(rule_views(chain@));
        visited.push(String::from_str(rule_id));
        proof {
            assert(string_views(visited@) =~= v0.push(rule_id@));
            lemma_push_keeps(v0, rule_id@);
            lemma_latest_index_props(self@, rule_id@);
        }
        match self.get(rule_id) {
            None => {
                proof {
                    lemma_dfs_skip(self@, rule_views(chain@), v0, stack, rule_id@);
                    assert(ids0 + Seq::<Seq<char>>::empty() =~= ids0);
                }
            },
            Some(rule) => {
                let ghost stack2 = stack.push(rule_id@);
                let ghost c0 = rule_views(chain@);
                proof {
                    lemma_dfs_enter(self@, c0, v0, stack, rule_id@);
                    if stack.len() == 0 {
                        lemma_reaches_refl(self@, rule_id@);
                    } else {
                        assert(reaches(self@, root, stack[stack.len() - 1]));
                        lemma_reaches_step(self@, root, stack.last(), rule_id@);
                    }
                    assert forall|k: int| 0 <= k < stack2.len() implies reaches(self@, root, #[trigger] stack2[k]) by {
                        if k < stack.len() {
                            assert(stack2[k] == stack[k]);
                        }
                    }
                    lemma_unvisited_strict(self@, v0, string_views(visited@), rule_id@);
                    assert(rule@.prerequisites.take(0) =~= Seq::<Seq<char>>::empty());
                    assert(ids_of(rule_views(chain@)) + Seq::<Seq<char>>::empty() =~= ids_of(rule_views(chain@)));
                }
                let ghost ps = rule@.prerequisites;
                let ghost v1 = string_views(visited@);
                let mut k: usize = 0;
                while k < rule.prerequisites.len()
                    invariant
                        lookup(self@, rule_id@) == Some(rule@),
                        rule@.id == rule_id@,
                        stack2 == stack.push(rule_id@),
                        !stack.contains(rule_id@),
                        k <= rule.prerequisites@.len(),
                        dfs_state(self@, rule_views(chain@), string_views(visited@), stack2),
                        rooted(self@, root, rule_views(chain@), stack2),
                        reaches(self@, root, rule_id@),
                        ranked_by(self@, rank) ==> prerequisites_first(self@, rule_views(chain@)),
                        rule_views(chain@).subrange(0, c0.len() as int) == c0,
                        c0.len() <= chain@.len(),
                        forall|x: Seq<char>| v0.contains(x) ==> #[trigger] string_views(visited@).contains(x),
                        string_views(visited@).contains(rule_id@),
                        v0 == string_views(old(visited)@),
                        unvisited_count(self@, string_views(visited@)) < unvisited_count(self@, v0),
                        forall|q: int| 0 <= q < k ==> string_views(visited@).contains(#[trigger] rule@.prerequisites[q]),
                        n > unvisited_count(self@, v0),
                        ps == rule@.prerequisites,
                        v1 == v0.push(rule_id@),
                        ids0 == ids_of(rule_views(old(chain)@)),
                        ids_of(rule_views(chain@)) == ids0 + dfs_list(self@, ps.take(k as int), v1, (n - 1) as nat).0,
                        string_views(visited@) == dfs_list(self@, ps.take(k as int), v1, (n - 1) as nat).1,
                    decreases rule.prerequisites@.len() - k,
                {
                    let ghost vb = string_views(visited@);
                    let ghost cb = rule_views(chain@);
                    proof {
                        assert(rule@.prerequisites[k as int] == rule.prerequisites@[k as int]@);
                        assert(rule@.prerequisites.contains(rule.prerequisites@[k as int]@));
                    }
                    self.resolve_recursive(
                        rule.prerequisites[k].as_str(),
                        chain,
                        visited,
                        Ghost(stack2),
                        Ghost(rank),
                        Ghost(root),
                        Ghost((n - 1) as nat),
                    );
                    proof {
                        lemma_unvisited_mono(self@, vb, string_views(visited@));
                        let c1 = rule_views(chain@);
                        assert(c1.subrange(0, c0.len() as int) =~= cb.subrange(0, c0.len() as int));
                        let t = ps.take(k + 1);
                        assert(t.drop_last() =~= ps.take(k as int));
                        assert(t.last() == ps[k as int]);
                        let a = dfs_list(self@, ps.take(k as int), v1, (n - 1) as nat);
                        let b = dfs_visit(self@, ps[k as int], a.1, (n - 1) as nat);
                        assert(dfs_list(self@, t, v1, (n - 1) as nat) == (a.0 + b.0, b.1));
                        assert(ids_of(rule_views(chain@)) =~= ids0 + (a.0 + b.0));
                    }
                    k = k + 1;
                }
                let ghost cb = rule_views(chain@);
                chain.push(rule);
                proof {
                    assert(rule_views(chain@) =~= cb.push(rule@));
                    assert(ps.take(k as int) =~= ps);
                    assert(ids_of(cb.push(rule@)) =~= ids_of(cb).push(rule_id@));
                    let r = dfs_list(self@, ps, v1, (n - 1) as nat);
                    assert(dfs_visit(self@, rule_id@, v0, n) == (r.0.push(rule_id@), r.1));
                    assert(ids_of(rule_views(chain@)) =~= ids0 + r.0.push(rule_id@));
                    lemma_dfs_finish(self@, cb, string_views(visited@), stack, rule_id@, rule@, rank);
                    let c1 = cb.push(rule@);
                    assert forall|k2: int| 0 <= k2 < c1.len() implies reaches(self@, root, (#[trigger] c1[k2]).id) by {
                        if k2 < cb.len() {
                            assert(c1[k2] == cb[k2]);
                        }
                    }
                    assert forall|k2: int| 0 <= k2 < stack.len() implies reaches(self@, root, #[trigger] stack[k2]) by {
                        assert(stack2[k2] == stack[k2]);
                    }
                    assert(rule_views(chain@).subrange(0, c0.len() as int) =~= cb.subrange(0, c0.len() as int));
                }
            },
        }
    }
}

/// Pushing onto a sequence keeps what it held and adds the new element.
proof fn lemma_push_keeps(v: Seq<Seq<char>>, x: Seq<char>)
    ensures
        forall|y: Seq<char>| v.contains(y) ==> #[trigger] v.push(x).contains(y),
        v.push(x).contains(x),
{
    assert(v.push(x)[v.len() as int] == x);
    assert forall|y: Seq<char>| v.contains(y) implies #[trigger] v.push(x).contains(y) by {
        let j = choose|j: int| 0 <= j < v.len() && v[j] == y;
        assert(v.push(x)[j] == v[j]);
    }
}

/// Marking an id the library does not hold as visited keeps the resolution state.
proof fn lemma_dfs_skip(
    regs: Seq<RuleView>,
    chain: Seq<RuleView>,
    v0: Seq<Seq<char>>,
    stack: Seq<Seq<char>>,
    id: Seq<char>,
)
    requires
        dfs_state(regs, chain, v0, stack),
        !has_id(regs, id),
    ensures
        dfs_state(regs, chain, v0.push(id), stack),
{
    let vv = v0.push(id);
    assert forall|x: Seq<char>| #[trigger] vv.contains(x) implies ids_of(chain).contains(x)
        || stack.contains(x) || !has_id(regs, x) by {
        if x != id {
            let j = choose|j: int| 0 <= j < vv.len() && vv[j] == x;
            assert(vv[v0.len() as int] == id);
            assert(v0[j] == x);
            assert(v0.contains(x));
        }
    }
    assert forall|k: int| 0 <= k < chain.len() implies vv.contains((#[trigger] chain[k]).id) by {
        assert(v0.contains(chain[k].id));
        let j = choose|j: int| 0 <= j < v0.len() && v0[j] == chain[k].id;
        assert(vv[j] == v0[j]);
    }
    assert forall|k: int| 0 <= k < stack.len() implies vv.contains(#[trigger] stack[k]) by {
        assert(v0.contains(stack[k]));
        let j = choose|j: int| 0 <= j < v0.len() && v0[j] == stack[k];
        assert(vv[j] == v0[j]);
    }
    assert forall|k: int, q: int|
        0 <= k < chain.len() && 0 <= q < chain[k].prerequisites.len() implies vv.contains(
            #[trigger] chain[k].prerequisites[q],
        ) by {
        assert(v0.contains(chain[k].prerequisites[q]));
        let j = choose|j: int| 0 <= j < v0.len() && v0[j] == chain[k].prerequisites[q];
        assert(vv[j] == v0[j]);
    }
}

/// Entering a held, unvisited id that is a prerequisite of the top of the stack:
/// it is marked visited and pushed on the stack.
proof fn lemma_dfs_enter(
    regs: Seq<RuleView>,
    chain: Seq<RuleView>,
    v0: Seq<Seq<char>>,
    stack: Seq<Seq<char>>,
    id: Seq<char>,
)
    requires
        dfs_state(regs, chain, v0, stack),
        !v0.contains(id),
        has_id(regs, id),
        stack.len() > 0 ==> lookup(regs, stack.last())->Some_0.prerequisites.contains(id),
    ensures
        dfs_state(regs, chain, v0.push(id), stack.push(id)),
        !stack.contains(id),
        !ids_of(chain).contains(id),
{
    let vv = v0.push(id);
    let stack2 = stack.push(id);
    assert(vv[v0.len() as int] == id);
    assert forall|x: Seq<char>| v0.contains(x) implies #[trigger] vv.contains(x) by {
        let j = choose|j: int| 0 <= j < v0.len() && v0[j] == x;
        assert(vv[j] == v0[j]);
    }
    assert(!stack.contains(id)) by {
        if stack.contains(id) {
            let k = choose|k: int| 0 <= k < stack.len() && stack[k] == id;
            assert(v0.contains(stack[k]));
        }
    }
    assert(!ids_of(chain).contains(id)) by {
        if ids_of(chain).contains(id) {
            let k = choose|k: int| 0 <= k < ids_of(chain).len() && ids_of(chain)[k] == id;
            assert(v0.contains(chain[k].id));
        }
    }
    assert forall|x: Seq<char>| #[trigger] vv.contains(x) implies ids_of(chain).contains(x)
        || stack2.contains(x) || !has_id(regs, x) by {
        if x != id {
            let j = choose|j: int| 0 <= j < vv.len() && vv[j] == x;
            assert(vv[v0.len() as int] == id);
            assert(v0[j] == x);
            assert(v0.contains(x));
            if stack.contains(x) {
                let k = choose|k: int| 0 <= k < stack.len() && stack[k] == x;
                assert(stack2[k] == x);
            }
        } else {
            assert(stack2[stack.len() as int] == x);
        }
    }
    assert forall|k: int| 0 <= k < stack2.len() implies has_id(regs, #[trigger] stack2[k])
        && !ids_of(chain).contains(stack2[k]) && vv.contains(stack2[k]) by {
        if k < stack.len() {
            assert(stack2[k] == stack[k]);
        }
    }
    assert forall|k: int| 0 <= k < chain.len() implies vv.contains((#[trigger] chain[k]).id) by {
        assert(v0.contains(chain[k].id));
    }
    assert forall|k: int, q: int|
        0 <= k < chain.len() && 0 <= q < chain[k].prerequisites.len() implies vv.contains(
            #[trigger] chain[k].prerequisites[q],
        ) by {
        assert(v0.contains(chain[k].prerequisites[q]));
    }
    assert forall|k: int| 0 <= k < stack2.len() - 1 implies lookup(
        regs,
        #[trigger] stack2[k],
    )->Some_0.prerequisites.contains(stack2[k + 1]) by {
        if k < stack.len() - 1 {
            assert(stack2[k] == stack[k] && stack2[k + 1] == stack[k + 1]);
        } else {
            assert(stack2[k] == stack.last());
        }
    }
}

/// Finishing a held id whose prerequisites are all visited: it moves from the
/// top of the stack to the end of the chain.
proof fn lemma_dfs_finish(
    regs: Seq<RuleView>,
    cb: Seq<RuleView>,
    vv: Seq<Seq<char>>,
    stack: Seq<Seq<char>>,
    id: Seq<char>,
    rule: RuleView,
    rank: spec_fn(Seq<char>) -> nat,
)
    requires
        dfs_state(regs, cb, vv, stack.push(id)),
        lookup(regs, id) == Some(rule),
        rule.id == id,
        !stack.contains(id),
        forall|q: int| 0 <= q < rule.prerequisites.len() ==> vv.contains(#[trigger] rule.prerequisites[q]),
        ranked_by(regs, rank) ==> prerequisites_first(regs, cb),
    ensures
        dfs_state(regs, cb.push(rule), vv, stack),
        ranked_by(regs, rank) ==> prerequisites_first(regs, cb.push(rule)),
{
    let stack2 = stack.push(id);
    let c1 = cb.push(rule);
    assert(stack2[stack.len() as int] == id);
    assert(!ids_of(cb).contains(id));
    assert forall|a: int, b: int| 0 <= a < b < c1.len() implies (#[trigger] c1[a]).id
        != (#[trigger] c1[b]).id by {
        if b == cb.len() {
            assert(ids_of(cb)[a] == cb[a].id);
        } else {
            assert(c1[a] == cb[a] && c1[b] == cb[b]);
        }
    }
    assert forall|k2: int| 0 <= k2 < c1.len() implies lookup(regs, (#[trigger] c1[k2]).id)
        == Some(c1[k2]) by {
        if k2 < cb.len() {
            assert(c1[k2] == cb[k2]);
        }
    }
    assert forall|k2: int| 0 <= k2 < stack.len() implies has_id(regs, #[trigger] stack[k2])
        && !ids_of(c1).contains(stack[k2]) && vv.contains(stack[k2]) by {
        assert(stack2[k2] == stack[k2]);
        assert(stack[k2] != id);
        if ids_of(c1).contains(stack[k2]) {
            let j = choose|j: int| 0 <= j < ids_of(c1).len() && ids_of(c1)[j] == stack[k2];
            if j < cb.len() {
                assert(ids_of(cb)[j] == stack[k2]);
            }
        }
    }
    assert forall|x: Seq<char>| #[trigger] vv.contains(x) implies ids_of(c1).contains(x)
        || stack.contains(x) || !has_id(regs, x) by {
        if ids_of(cb).contains(x) {
            let j = choose|j: int| 0 <= j < ids_of(cb).len() && ids_of(cb)[j] == x;
            assert(ids_of(c1)[j] == x);
        } else if stack2.contains(x) {
            let j = choose|j: int| 0 <= j < stack2.len() && stack2[j] == x;
            if j < stack.len() {
                assert(stack[j] == x);
            } else {
                assert(ids_of(c1)[cb.len() as int] == x);
            }
        }
    }
    assert forall|k2: int| 0 <= k2 < c1.len() implies vv.contains((#[trigger] c1[k2]).id) by {
        if k2 < cb.len() {
            assert(c1[k2] == cb[k2]);
        } else {
            assert(vv.contains(stack2[stack.len() as int]));
        }
    }
    assert forall|k2: int, q: int|
        0 <= k2 < c1.len() && 0 <= q < c1[k2].prerequisites.len() implies vv.contains(
            #[trigger] c1[k2].prerequisites[q],
        ) by {
        if k2 < cb.len() {
            assert(c1[k2] == cb[k2]);
        }
    }
    assert forall|k2: int| 0 <= k2 < stack.len() - 1 implies lookup(
        regs,
        #[trigger] stack[k2],
    )->Some_0.prerequisites.contains(stack[k2 + 1]) by {
        assert(stack2[k2] == stack[k2] && stack2[k2 + 1] == stack[k2 + 1]);
    }
    if ranked_by(regs, rank) {
        assert forall|k2: int, q: int|
            0 <= k2 < c1.len() && 0 <= q < c1[k2].prerequisites.len() && has_id(
                regs,
                #[trigger] c1[k2].prerequisites[q],
            ) implies exists|j: int| 0 <= j < k2 && (#[trigger] c1[j]).id == c1[k2].prerequisites[q] by {
            if k2 < cb.len() {
                assert(c1[k2] == cb[k2]);
                let j = choose|j: int| 0 <= j < k2 && (#[trigger] cb[j]).id == cb[k2].prerequisites[q];
                assert(c1[j] == cb[j]);
            } else {
                let p = rule.prerequisites[q];
                assert(vv.contains(p));
                // a held prerequisite ranks below the rule, and the rule below every
                // stack entry, so p is not on the stack: it is finished
                assert(rank(p) < rank(id));
                if stack2.contains(p) {
                    let j = choose|j: int| 0 <= j < stack2.len() && stack2[j] == p;
                    lemma_stack_ranks(regs, stack2, rank, j);
                }
                let j = choose|j: int| 0 <= j < ids_of(cb).len() && ids_of(cb)[j] == p;
                assert(c1[j] == cb[j]);
            }
        }
    }
}

impl RuleLibrary {
    fn register_tier0(&mut self)
        ensures
            final(self)@ == old(self)@ + builtin_tier0(),
    {
        let ghost start = self@;
        self.register(
            make_rule(
                "core.add",
                Domain::CoreArithmetic,
                "Single-Digit Addition",
                "Retrieve addition fact from Value Core table. a + b for digits 0-9.",
                vec![],
                vec![PatternType::SingleDigitAddition],
                vec![Property::Commutative, Property::Associative, Property::HasIdentity],
                Some("core.sub"),
                Operation::ValueCoreAdd,
            ),
        );
        self.register(
            make_rule(
                "core.sub",
                Domain::CoreArithmetic,
                "Single-Digit Subtraction",
                "Retrieve subtraction fact from Value Core table. a - b where a >= b.",
                vec![],
                vec![PatternType::SingleDigitSubtraction],
                vec![Property::HasIdentity],
                Some("core.add"),
                Operation::ValueCoreSub,
            ),
        );
        self.register(
            make_rule(
                "core.mul",
                Domain::CoreArithmetic,
                "Single-Digit Multiplication",
                "Retrieve multiplication fact from Value Core table. a * b for digits 0-9.",
                vec![],
                vec![PatternType::SingleDigitMultiplication],
                vec![Property::Commutative, Property::Associative, Property::HasIdentity],
                Some("core.div"),
                Operation::ValueCoreMul,
            ),
        );
        self.register(
            make_rule(
                "core.div",
                Domain::CoreArithmetic,
                "Single-Digit Division",
                "Retrieve division fact from Value Core. a / b where b != 0 and a divisible by b.",
                vec![],
                vec![PatternType::SingleDigitDivision],
                vec![],
                Some("core.mul"),
                Operation::ValueCoreDiv,
            ),
        );
        assert(self@ =~~= start + builtin_tier0());
    }

    fn register_tier1(&mut self)
        ensures
            final(self)@ == old(self)@ + builtin_tier1(),
    {
        let ghost start = self@;
        self.register(
            make_rule(
                "ext.add",
                Domain::ExtendedArithmetic,
                "Multi-Digit Addition",
                "Add multi-digit numbers using positional addition with carry propagation. Each digit-pair addition uses core.add.",
                vec!["core.add"],
                vec![PatternType::MultiDigitAddition],
                vec![Property::Commutative, Property::Associative, Property::HasIdentity],
                Some("ext.sub"),
                Operation::MultiDigitAdd,
            ),
        );
        self.register(
            make_rule(
                "ext.sub",
                Domain::ExtendedArithmetic,
                "Multi-Digit Subtraction",
                "Subtract multi-digit numbers using positional subtraction with borrow propagation.",
                vec!["core.sub", "core.add"],
                vec![PatternType::MultiDigitSubtraction],
                vec![Property::HasIdentity],
                Some("ext.add"),
                Operation::MultiDigitSub,
            ),
        );
        self.register(
            make_rule(
                "ext.mul",
                Domain::ExtendedArithmetic,
                "Multi-Digit Multiplication",
                "Multiply multi-digit numbers using long multiplication. Each partial product uses core.mul and accumulates via ext.add.",
                vec!["core.mul", "ext.add"],
                vec![PatternType::MultiDigitMultiplication],
                vec![Property::Commutative, Property::Associative, Property::HasIdentity],
                Some("ext.div"),
                Operation::MultiDigitMul,
            ),
        );
        self.register(
            make_rule(
                "ext.div",
                Domain::ExtendedArithmetic,
                "Multi-Digit Division",
                "Divide multi-digit numbers using long division. Returns quotient and remainder.",
                vec!["core.div", "ext.mul", "ext.sub"],
                vec![PatternType::MultiDigitDivision],
                vec![],
                Some("ext.mul"),
                Operation::MultiDigitDiv,
            ),
        );
        self.register(
            make_rule(
                "ext.decompose",
                Domain::ExtendedArithmetic,
                "Place Value Decomposition",
                "Decompose a number into digit-place pairs. 347 = 3*100 + 4*10 + 7*1.",
                vec![],
                vec![PatternType::PlaceValueDecomposition],
                vec![],
                Some("ext.compose"),
                Operation::Decompose,
            ),
        );
        self.register(
            make_rule(
                "ext.compose",
                Domain::ExtendedArithmetic,
                "Place Value Composition",
                "Compose a number from digit-place pairs. Inverse of decomposition.",
                vec!["core.mul", "core.add"],
                vec![PatternType::PlaceValueComposition],
                vec![],
                Some("ext.decompose"),
                Operation::Compose,
            ),
        );
        self.register(
            make_rule(
                "ext.order_of_ops",
                Domain::ExtendedArithmetic,
                "Order of Operations",
                "Apply PEMDAS/BODMAS: Parentheses, Exponents, Multiplication/Division (L-R), Addition/Subtraction (L-R).",
                vec!["core.add", "core.sub", "core.mul", "core.div"],
                vec![PatternType::OrderOfOperations],
                vec![],
                None,
                Operation::OrderOfOps,
            ),
        );
        assert(self@ =~~= start + builtin_tier1());
    }

    fn register_tier2(&mut self)
        ensures
            final(self)@ == old(self)@ + builtin_tier2(),
    {
        let ghost start = self@;
        self.register(
            make_rule(
                "prop.commutative",
                Domain::Properties,
                "Commutative Property",
                "For addition and multiplication: a + b = b + a, a * b = b * a. Order doesn't matter.",
                vec!["core.add", "core.mul"],
                vec![PatternType::CommutativeApplication],
                vec![Property::Commutative],
                None,
                Operation::Commute,
            ),
        );
        self.register(
            make_rule(
                "prop.associative",
                Domain::Properties,
                "Associative Property",
                "For addition and multiplication: (a+b)+c = a+(b+c). Grouping doesn't matter.",
                vec!["core.add", "core.mul"],
                vec![PatternType::AssociativeApplication],
                vec![Property::Associative],
                None,
                Operation::Associate,
            ),
        );
        self.register(
            make_rule(
                "prop.distributive",
                Domain::Properties,
                "Distributive Property (Expansion)",
                "a * (b + c) = a*b + a*c. Multiplication distributes over addition.",
                vec!["core.mul", "core.add"],
                vec![PatternType::DistributiveExpansion],
                vec![Property::Distributive],
                Some("prop.factor"),
                Operation::Distribute,
            ),
        );
        self.register(
            make_rule(
                "prop.factor",
                Domain::Properties,
                "Distributive Property (Factoring)",
                "a*b + a*c = a*(b+c). The reverse of distribution — extract common factor.",
                vec!["core.mul", "core.add", "core.div"],
                vec![PatternType::DistributiveFactoring],
                vec![Property::Distributive],
                Some("prop.distributive"),
                Operation::Factor,
            ),
        );
        self.register(
            make_rule(
                "prop.identity",
                Domain::Properties,
                "Identity Elements",
                "Additive identity: a + 0 = a. Multiplicative identity: a * 1 = a.",
                vec!["core.add", "core.mul"],
                vec![PatternType::IdentityApplication],
                vec![Property::HasIdentity],
                None,
                Operation::ApplyIdentity,
            ),
        );
        self.register(
            make_rule(
                "prop.inverse",
                Domain::Properties,
                "Inverse Elements",
                "Additive inverse: a + (-a) = 0. Multiplicative inverse: a * (1/a) = 1.",
                vec!["core.add", "core.mul", "core.sub", "core.div"],
                vec![PatternType::InverseApplication],
                vec![Property::HasInverse],
                None,
                Operation::ApplyInverse,
            ),
        );
        assert(self@ =~~= start + builtin_tier2());
    }

    fn register_tier3(&mut self)
        ensures
            final(self)@ == old(self)@ + builtin_tier3(),
    {
        let ghost start = self@;
        self.register(
            make_rule(
                "pre.gcd",
                Domain::PreAlgebra,
                "Greatest Common Divisor",
                "Find the GCD of two numbers using the Euclidean algorithm.",
                vec!["ext.div"],
                vec![PatternType::GCD],
                vec![Property::Commutative],
                None,
                Operation::ComputeGCD,
            ),
        );
        self.register(
            make_rule(
                "pre.lcm",
                Domain::PreAlgebra,
                "Least Common Multiple",
                "Find LCM via: LCM(a,b) = (a*b) / GCD(a,b).",
                vec!["pre.gcd", "ext.mul", "ext.div"],
                vec![PatternType::LCM],
                vec![Property::Commutative],
                None,
                Operation::ComputeLCM,
            ),
        );
        self.register(
            make_rule(
                "pre.prime_factor",
                Domain::PreAlgebra,
                "Prime Factorization",
                "Decompose a number into its prime factors.",
                vec!["ext.div"],
                vec![PatternType::PrimeFactorization],
                vec![],
                None,
                Operation::PrimeFactorize,
            ),
        );
        self.register(
            make_rule(
                "pre.frac_simplify",
                Domain::PreAlgebra,
                "Fraction Simplification",
                "Simplify a/b by dividing numerator and denominator by their GCD.",
                vec!["pre.gcd", "ext.div"],
                vec![PatternType::FractionSimplification],
                vec![],
                None,
                Operation::FractionSimplify,
            ),
        );
        self.register(
            make_rule(
                "pre.frac_add",
                Domain::PreAlgebra,
                "Fraction Addition",
                "a/b + c/d = (a*d + c*b) / (b*d), then simplify.",
                vec!["ext.mul", "ext.add", "pre.lcm", "pre.frac_simplify"],
                vec![PatternType::FractionAddition],
                vec![Property::Commutative, Property::Associative],
                Some("pre.frac_sub"),
                Operation::FractionAdd,
            ),
        );
        self.register(
            make_rule(
                "pre.frac_sub",
                Domain::PreAlgebra,
                "Fraction Subtraction",
                "a/b - c/d = (a*d - c*b) / (b*d), then simplify.",
                vec!["ext.mul", "ext.sub", "pre.lcm", "pre.frac_simplify"],
                vec![PatternType::FractionSubtraction],
                vec![],
                Some("pre.frac_add"),
                Operation::FractionSub,
            ),
        );
        self.register(
            make_rule(
                "pre.frac_mul",
                Domain::PreAlgebra,
                "Fraction Multiplication",
                "(a/b) * (c/d) = (a*c) / (b*d), then simplify.",
                vec!["ext.mul", "pre.frac_simplify"],
                vec![PatternType::FractionMultiplication],
                vec![Property::Commutative, Property::Associative],
                Some("pre.frac_div"),
                Operation::FractionMul,
            ),
        );
        self.register(
            make_rule(
                "pre.frac_div",
                Domain::PreAlgebra,
                "Fraction Division",
                "(a/b) / (c/d) = (a/b) * (d/c) = (a*d) / (b*c). Multiply by reciprocal.",
                vec!["pre.frac_mul"],
                vec![PatternType::FractionDivision],
                vec![],
                Some("pre.frac_mul"),
                Operation::FractionDiv,
            ),
        );
        self.register(
            make_rule(
                "pre.decimal",
                Domain::PreAlgebra,
                "Decimal Conversion",
                "Convert between fractions and decimals. a/b = a divided by b.",
                vec!["ext.div"],
                vec![PatternType::DecimalConversion],
                vec![],
                None,
                Operation::DecimalConvert,
            ),
        );
        self.register(
            make_rule(
                "pre.percent",
                Domain::PreAlgebra,
                "Percentage Calculation",
                "x% of n = (x/100) * n. Convert between percentage, decimal, and fraction.",
                vec!["pre.decimal", "ext.mul", "ext.div"],
                vec![PatternType::PercentageCalculation],
                vec![],
                None,
                Operation::PercentCalc,
            ),
        );
        self.register(
            make_rule(
                "pre.exponent",
                Domain::PreAlgebra,
                "Exponent Evaluation",
                "a^n = a * a * ... * a (n times). Built on repeated multiplication.",
                vec!["ext.mul"],
                vec![PatternType::ExponentEvaluation],
                vec![],
                Some("pre.nth_root"),
                Operation::ExponentEval,
            ),
        );
        self.register(
            make_rule(
                "pre.exponent_rules",
                Domain::PreAlgebra,
                "Exponent Rules",
                "Product: a^m * a^n = a^(m+n). Quotient: a^m / a^n = a^(m-n). Power: (a^m)^n = a^(m*n). Zero: a^0 = 1. Negative: a^(-n) = 1/a^n.",
                vec!["pre.exponent", "ext.add", "ext.sub", "ext.mul"],
                vec![PatternType::ExponentRules],
                vec![],
                None,
                Operation::ExponentRule,
            ),
        );
        self.register(
            make_rule(
                "pre.sqrt",
                Domain::PreAlgebra,
                "Square Root",
                "sqrt(a) = b where b^2 = a. Inverse of squaring.",
                vec!["pre.exponent"],
                vec![PatternType::SquareRoot],
                vec![],
                Some("pre.exponent"),
                Operation::SqrtCalc,
            ),
        );
        self.register(
            make_rule(
                "pre.nth_root",
                Domain::PreAlgebra,
                "Nth Root",
                "n-th root of a = b where b^n = a. Generalization of square root.",
                vec!["pre.exponent"],
                vec![PatternType::NthRoot],
                vec![],
                Some("pre.exponent"),
                Operation::NthRootCalc,
            ),
        );
        self.register(
            make_rule(
                "pre.abs",
                Domain::PreAlgebra,
                "Absolute Value",
                "|a| = a if a >= 0, -a if a < 0. Distance from zero.",
                vec![],
                vec![PatternType::AbsoluteValue],
                vec![],
                None,
                Operation::AbsoluteVal,
            ),
        );
        self.register(
            make_rule(
                "pre.sci_notation",
                Domain::PreAlgebra,
                "Scientific Notation",
                "Express as a * 10^n where 1 <= a < 10.",
                vec!["pre.exponent", "pre.decimal"],
                vec![PatternType::ScientificNotation],
                vec![],
                None,
                Operation::SciNotation,
            ),
        );
        self.register(
            make_rule(
                "pre.ratio",
                Domain::PreAlgebra,
                "Ratio",
                "Express the relationship a:b and simplify.",
                vec!["pre.gcd", "ext.div"],
                vec![PatternType::Ratio],
                vec![],
                None,
                Operation::FractionSimplify,
            ),
        );
        self.register(
            make_rule(
                "pre.proportion",
                Domain::PreAlgebra,
                "Proportion",
                "If a/b = c/d, then a*d = b*c (cross multiplication).",
                vec!["ext.mul", "ext.div"],
                vec![PatternType::Proportion],
                vec![],
                None,
                Operation::FractionDiv,
            ),
        );
        assert(self@ =~~= start + builtin_tier3());
    }

    fn register_tier4(&mut self)
        ensures
            final(self)@ == old(self)@ + builtin_tier4(),
    {
        let ghost start = self@;
        self.register(
            make_rule(
                "alg.substitute",
                Domain::Algebra,
                "Variable Substitution",
                "Replace a variable with a known value and evaluate.",
                vec!["core.add", "core.mul"],
                vec![PatternType::VariableSubstitution],
                vec![],
                None,
                Operation::Substitute,
            ),
        );
        self.register(
            make_rule(
                "alg.like_terms",
                Domain::Algebra,
                "Combine Like Terms",
                "ax + bx = (a+b)x. Terms with the same variable and exponent combine by adding coefficients.",
                vec!["ext.add", "prop.distributive"],
                vec![PatternType::LikeTermsCombination],
                vec![Property::Commutative],
                None,
                Operation::CombineLikeTerms,
            ),
        );
        self.register(
            make_rule(
                "alg.linear_solve",
                Domain::Algebra,
                "Solve Linear Equation",
                "Solve ax + b = c for x. x = (c - b) / a.",
                vec!["ext.sub", "ext.div", "alg.like_terms"],
                vec![PatternType::LinearEquationSolve],
                vec![],
                None,
                Operation::SolveLinear,
            ),
        );
        self.register(
            make_rule(
                "alg.linear_inequality",
                Domain::Algebra,
                "Solve Linear Inequality",
                "Solve ax + b < c. Same as linear equation but flip inequality when dividing by negative.",
                vec!["alg.linear_solve"],
                vec![PatternType::LinearInequalitySolve],
                vec![],
                None,
                Operation::SolveLinearInequality,
            ),
        );
        self.register(
            make_rule(
                "alg.quadratic_solve",
                Domain::Algebra,
                "Solve Quadratic Equation",
                "Solve ax^2 + bx + c = 0 via quadratic formula: x = (-b +/- sqrt(b^2-4ac)) / (2a).",
                vec!["pre.sqrt", "ext.mul", "ext.sub", "ext.div"],
                vec![PatternType::QuadraticEquationSolve],
                vec![],
                None,
                Operation::SolveQuadratic,
            ),
        );
        self.register(
            make_rule(
                "alg.poly_add",
                Domain::Algebra,
                "Polynomial Addition",
                "Add polynomials by combining like terms.",
                vec!["alg.like_terms"],
                vec![PatternType::PolynomialAddition],
                vec![Property::Commutative, Property::Associative],
                None,
                Operation::PolyAdd,
            ),
        );
        self.register(
            make_rule(
                "alg.poly_mul",
                Domain::Algebra,
                "Polynomial Multiplication",
                "Multiply polynomials by distributing each term. FOIL for binomials.",
                vec!["prop.distributive", "alg.like_terms", "pre.exponent_rules"],
                vec![PatternType::PolynomialMultiplication],
                vec![Property::Commutative, Property::Associative],
                Some("alg.poly_div"),
                Operation::PolyMul,
            ),
        );
        self.register(
            make_rule(
                "alg.poly_div",
                Domain::Algebra,
                "Polynomial Division",
                "Divide polynomials using long division or synthetic division.",
                vec!["ext.div", "alg.like_terms"],
                vec![PatternType::PolynomialDivision],
                vec![],
                Some("alg.poly_mul"),
                Operation::PolyDiv,
            ),
        );
        self.register(
            make_rule(
                "alg.factor",
                Domain::Algebra,
                "Factoring",
                "Factor polynomial expressions: GCF, difference of squares, trinomials, grouping.",
                vec!["prop.factor", "pre.gcd"],
                vec![PatternType::Factoring],
                vec![],
                Some("alg.poly_mul"),
                Operation::PolyFactor,
            ),
        );
        self.register(
            make_rule(
                "alg.func_eval",
                Domain::Algebra,
                "Function Evaluation",
                "Evaluate f(x) at x = a by substituting and computing.",
                vec!["alg.substitute"],
                vec![PatternType::FunctionEvaluation],
                vec![],
                None,
                Operation::FuncEval,
            ),
        );
        self.register(
            make_rule(
                "alg.func_compose",
                Domain::Algebra,
                "Function Composition",
                "f(g(x)): substitute g(x) into f.",
                vec!["alg.func_eval", "alg.substitute"],
                vec![PatternType::FunctionComposition],
                vec![],
                None,
                Operation::FuncCompose,
            ),
        );
        self.register(
            make_rule(
                "alg.slope",
                Domain::Algebra,
                "Slope Calculation",
                "m = (y2-y1)/(x2-x1). Rise over run between two points.",
                vec!["ext.sub", "ext.div"],
                vec![PatternType::SlopeIntercept, PatternType::PointSlope],
                vec![],
                None,
                Operation::SlopeCalc,
            ),
        );
        self.register(
            make_rule(
                "alg.domain_range",
                Domain::Algebra,
                "Domain and Range",
                "Determine valid input (domain) and output (range) of a function.",
                vec!["alg.func_eval"],
                vec![PatternType::DomainRange],
                vec![],
                None,
                Operation::DomainRangeCalc,
            ),
        );
        assert(self@ =~~= start + builtin_tier4());
    }

    fn register_tier5(&mut self)
        ensures
            final(self)@ == old(self)@ + builtin_tier5(),
    {
        let ghost start = self@;
        self.register(
            make_rule(
                "adv.system_solve",
                Domain::AdvancedAlgebra,
                "Solve System of Equations",
                "Solve systems via substitution, elimination, or Cramer's rule.",
                vec!["alg.linear_solve", "ext.mul", "ext.sub"],
                vec![PatternType::SystemOfEquations],
                vec![],
                None,
                Operation::SolveSystem,
            ),
        );
        self.register(
            make_rule(
                "adv.mat_add",
                Domain::AdvancedAlgebra,
                "Matrix Addition",
                "Add matrices element-wise. Matrices must have same dimensions.",
                vec!["ext.add"],
                vec![PatternType::MatrixAddition],
                vec![Property::Commutative, Property::Associative],
                None,
                Operation::MatAdd,
            ),
        );
        self.register(
            make_rule(
                "adv.mat_mul",
                Domain::AdvancedAlgebra,
                "Matrix Multiplication",
                "Multiply matrices. (AB)_ij = sum of A_ik * B_kj. Dimensions must be compatible.",
                vec!["ext.mul", "ext.add"],
                vec![PatternType::MatrixMultiplication],
                vec![Property::Associative],
                None,
                Operation::MatMul,
            ),
        );
        self.register(
            make_rule(
                "adv.mat_det",
                Domain::AdvancedAlgebra,
                "Matrix Determinant",
                "Compute determinant. 2x2: ad-bc. Larger: cofactor expansion.",
                vec!["ext.mul", "ext.sub"],
                vec![PatternType::MatrixDeterminant],
                vec![],
                None,
                Operation::MatDet,
            ),
        );
        self.register(
            make_rule(
                "adv.mat_inv",
                Domain::AdvancedAlgebra,
                "Matrix Inverse",
                "Find A^(-1) such that A * A^(-1) = I. Requires det(A) != 0.",
                vec!["adv.mat_det", "adv.mat_mul"],
                vec![PatternType::MatrixInverse],
                vec![],
                None,
                Operation::MatInv,
            ),
        );
        self.register(
            make_rule(
                "adv.complex_add",
                Domain::AdvancedAlgebra,
                "Complex Addition",
                "(a+bi) + (c+di) = (a+c) + (b+d)i. Add real and imaginary parts separately.",
                vec!["ext.add"],
                vec![PatternType::ComplexAddition],
                vec![Property::Commutative, Property::Associative],
                None,
                Operation::ComplexAdd,
            ),
        );
        self.register(
            make_rule(
                "adv.complex_mul",
                Domain::AdvancedAlgebra,
                "Complex Multiplication",
                "(a+bi)(c+di) = (ac-bd) + (ad+bc)i. FOIL with i^2 = -1.",
                vec!["ext.mul", "ext.sub", "ext.add"],
                vec![PatternType::ComplexMultiplication],
                vec![Property::Commutative, Property::Associative],
                None,
                Operation::ComplexMul,
            ),
        );
        self.register(
            make_rule(
                "adv.complex_conj",
                Domain::AdvancedAlgebra,
                "Complex Conjugate",
                "Conjugate of a+bi is a-bi.",
                vec![],
                vec![PatternType::ComplexConjugate],
                vec![],
                None,
                Operation::ComplexConj,
            ),
        );
        self.register(
            make_rule(
                "adv.complex_mod",
                Domain::AdvancedAlgebra,
                "Complex Modulus",
                "|a+bi| = sqrt(a^2 + b^2).",
                vec!["pre.sqrt", "pre.exponent", "ext.add"],
                vec![PatternType::ComplexModulus],
                vec![],
                None,
                Operation::ComplexMod,
            ),
        );
        self.register(
            make_rule(
                "adv.arith_seq",
                Domain::AdvancedAlgebra,
                "Arithmetic Sequence",
                "a_n = a_1 + (n-1)d. Sum: S_n = n/2 * (a_1 + a_n).",
                vec!["ext.add", "ext.mul", "ext.div"],
                vec![PatternType::ArithmeticSequence],
                vec![],
                None,
                Operation::ArithSeq,
            ),
        );
        self.register(
            make_rule(
                "adv.geom_seq",
                Domain::AdvancedAlgebra,
                "Geometric Sequence",
                "a_n = a_1 * r^(n-1). Sum: S_n = a_1 * (1-r^n)/(1-r).",
                vec!["ext.mul", "pre.exponent", "ext.div"],
                vec![PatternType::GeometricSequence],
                vec![],
                None,
                Operation::GeomSeq,
            ),
        );
        self.register(
            make_rule(
                "adv.series",
                Domain::AdvancedAlgebra,
                "Series Sum",
                "Evaluate finite or convergent infinite series.",
                vec!["adv.arith_seq", "adv.geom_seq"],
                vec![PatternType::SeriesSum],
                vec![],
                None,
                Operation::SeriesEval,
            ),
        );
        self.register(
            make_rule(
                "adv.log",
                Domain::AdvancedAlgebra,
                "Logarithm Evaluation",
                "log_b(x) = y means b^y = x. The inverse of exponentiation.",
                vec!["pre.exponent"],
                vec![PatternType::Logarithm],
                vec![],
                Some("pre.exponent"),
                Operation::LogEval,
            ),
        );
        self.register(
            make_rule(
                "adv.log_rules",
                Domain::AdvancedAlgebra,
                "Logarithm Rules",
                "Product: log(ab) = log(a)+log(b). Quotient: log(a/b) = log(a)-log(b). Power: log(a^n) = n*log(a). Change of base: log_b(x) = log(x)/log(b).",
                vec!["adv.log", "ext.add", "ext.sub", "ext.mul", "ext.div"],
                vec![PatternType::LogarithmRules],
                vec![],
                None,
                Operation::LogRule,
            ),
        );
        self.register(
            make_rule(
                "adv.exp_equation",
                Domain::AdvancedAlgebra,
                "Solve Exponential Equation",
                "Solve b^x = c by taking logarithm of both sides.",
                vec!["adv.log", "adv.log_rules"],
                vec![PatternType::ExponentialEquation],
                vec![],
                None,
                Operation::SolveExponential,
            ),
        );
        assert(self@ =~~= start + builtin_tier5());
    }

    fn register_tier6(&mut self)
        ensures
            final(self)@ == old(self)@ + builtin_tier6(),
    {
        let ghost start = self@;
        self.register(
            make_rule(
                "trig.eval",
                Domain::Trigonometry,
                "Trigonometric Function Evaluation",
                "Evaluate sin, cos, tan, csc, sec, cot at a given angle.",
                vec!["ext.div", "pre.sqrt"],
                vec![PatternType::TrigEvaluation],
                vec![],
                Some("trig.inverse"),
                Operation::TrigEval,
            ),
        );
        self.register(
            make_rule(
                "trig.identity",
                Domain::Trigonometry,
                "Trigonometric Identity",
                "Apply identities: Pythagorean (sin^2+cos^2=1), double angle, sum/difference, half angle.",
                vec!["trig.eval", "pre.exponent", "ext.add"],
                vec![PatternType::TrigIdentity],
                vec![],
                None,
                Operation::TrigIdentityApply,
            ),
        );
        self.register(
            make_rule(
                "trig.inverse",
                Domain::Trigonometry,
                "Inverse Trigonometric Functions",
                "Evaluate arcsin, arccos, arctan. Returns angle for given ratio.",
                vec!["trig.eval"],
                vec![PatternType::InverseTrig],
                vec![],
                Some("trig.eval"),
                Operation::InverseTrigEval,
            ),
        );
        self.register(
            make_rule(
                "trig.unit_circle",
                Domain::Trigonometry,
                "Unit Circle Lookup",
                "Retrieve exact trig values for standard angles (0, 30, 45, 60, 90, etc.).",
                vec!["pre.sqrt", "ext.div"],
                vec![PatternType::UnitCircleLookup],
                vec![],
                None,
                Operation::UnitCircle,
            ),
        );
        self.register(
            make_rule(
                "trig.law_sines",
                Domain::Trigonometry,
                "Law of Sines",
                "a/sin(A) = b/sin(B) = c/sin(C).",
                vec!["trig.eval", "ext.div"],
                vec![PatternType::LawOfSines],
                vec![],
                None,
                Operation::LawSines,
            ),
        );
        self.register(
            make_rule(
                "trig.law_cosines",
                Domain::Trigonometry,
                "Law of Cosines",
                "c^2 = a^2 + b^2 - 2ab*cos(C). Generalization of Pythagorean theorem.",
                vec!["trig.eval", "pre.exponent", "pre.sqrt", "ext.mul", "ext.sub"],
                vec![PatternType::LawOfCosines],
                vec![],
                None,
                Operation::LawCosines,
            ),
        );
        self.register(
            make_rule(
                "trig.solve_eq",
                Domain::Trigonometry,
                "Solve Trigonometric Equation",
                "Solve equations involving trig functions for unknown angles.",
                vec!["trig.inverse", "trig.identity"],
                vec![PatternType::TrigEquationSolve],
                vec![],
                None,
                Operation::SolveTrigEq,
            ),
        );
        self.register(
            make_rule(
                "trig.polar_rect",
                Domain::Trigonometry,
                "Polar-Rectangular Conversion",
                "Rectangular to polar: r=sqrt(x^2+y^2), theta=atan(y/x). Polar to rectangular: x=r*cos(theta), y=r*sin(theta).",
                vec!["trig.eval", "trig.inverse", "pre.sqrt", "pre.exponent"],
                vec![PatternType::PolarRectangularConversion],
                vec![],
                None,
                Operation::PolarRectConvert,
            ),
        );
        assert(self@ =~~= start + builtin_tier6());
    }

    fn register_tier7(&mut self)
        ensures
            final(self)@ == old(self)@ + builtin_tier7(),
    {
        let ghost start = self@;
        self.register(
            make_rule(
                "calc.limit",
                Domain::Calculus,
                "Limit Evaluation",
                "Evaluate lim(x->a) f(x). Direct substitution, factoring, L'Hopital's rule.",
                vec!["alg.substitute", "alg.factor"],
                vec![PatternType::LimitEvaluation],
                vec![],
                None,
                Operation::LimitEval,
            ),
        );
        self.register(
            make_rule(
                "calc.deriv_basic",
                Domain::Calculus,
                "Basic Derivative",
                "Power rule: d/dx[x^n] = n*x^(n-1). Constant: d/dx[c] = 0. Sum rule.",
                vec!["pre.exponent_rules", "ext.mul", "ext.sub"],
                vec![PatternType::DerivativeBasic],
                vec![],
                Some("calc.integral_basic"),
                Operation::DerivBasic,
            ),
        );
        self.register(
            make_rule(
                "calc.deriv_chain",
                Domain::Calculus,
                "Chain Rule",
                "d/dx[f(g(x))] = f'(g(x)) * g'(x).",
                vec!["calc.deriv_basic", "alg.func_compose"],
                vec![PatternType::DerivativeChainRule],
                vec![],
                None,
                Operation::DerivChain,
            ),
        );
        self.register(
            make_rule(
                "calc.deriv_product",
                Domain::Calculus,
                "Product Rule",
                "d/dx[f(x)*g(x)] = f'(x)*g(x) + f(x)*g'(x).",
                vec!["calc.deriv_basic", "ext.mul", "ext.add"],
                vec![PatternType::DerivativeProductRule],
                vec![],
                None,
                Operation::DerivProduct,
            ),
        );
        self.register(
            make_rule(
                "calc.deriv_quotient",
                Domain::Calculus,
                "Quotient Rule",
                "d/dx[f/g] = (f'g - fg') / g^2.",
                vec!["calc.deriv_basic", "ext.mul", "ext.sub", "pre.exponent"],
                vec![PatternType::DerivativeQuotientRule],
                vec![],
                None,
                Operation::DerivQuotient,
            ),
        );
        self.register(
            make_rule(
                "calc.integral_basic",
                Domain::Calculus,
                "Basic Integral",
                "Power rule: integral of x^n = x^(n+1)/(n+1) + C. Constant multiple. Sum rule.",
                vec!["pre.exponent_rules", "ext.div", "ext.add"],
                vec![PatternType::IntegralBasic],
                vec![],
                Some("calc.deriv_basic"),
                Operation::IntegralBasic,
            ),
        );
        self.register(
            make_rule(
                "calc.integral_usub",
                Domain::Calculus,
                "Integration by Substitution",
                "U-substitution: integral of f(g(x))*g'(x) dx = integral of f(u) du.",
                vec!["calc.integral_basic", "calc.deriv_chain"],
                vec![PatternType::IntegralBySubstitution],
                vec![],
                None,
                Operation::IntegralUSub,
            ),
        );
        self.register(
            make_rule(
                "calc.integral_parts",
                Domain::Calculus,
                "Integration by Parts",
                "integral of u dv = uv - integral of v du.",
                vec!["calc.integral_basic", "calc.deriv_basic"],
                vec![PatternType::IntegralByParts],
                vec![],
                None,
                Operation::IntegralParts,
            ),
        );
        self.register(
            make_rule(
                "calc.definite_integral",
                Domain::Calculus,
                "Definite Integral",
                "Evaluate integral from a to b = F(b) - F(a) where F is antiderivative.",
                vec!["calc.integral_basic", "alg.substitute", "ext.sub"],
                vec![PatternType::DefiniteIntegral],
                vec![],
                None,
                Operation::DefiniteIntegralEval,
            ),
        );
        self.register(
            make_rule(
                "calc.series_conv",
                Domain::Calculus,
                "Series Convergence",
                "Test convergence: ratio test, root test, comparison, integral test, alternating series.",
                vec!["calc.limit", "adv.series"],
                vec![PatternType::SeriesConvergence],
                vec![],
                None,
                Operation::SeriesConvergenceTest,
            ),
        );
        self.register(
            make_rule(
                "calc.taylor",
                Domain::Calculus,
                "Taylor Series",
                "f(x) = sum of f^(n)(a)/n! * (x-a)^n. Expand function as infinite polynomial.",
                vec!["calc.deriv_basic", "adv.series", "pre.exponent"],
                vec![PatternType::TaylorSeries],
                vec![],
                None,
                Operation::TaylorExpand,
            ),
        );
        self.register(
            make_rule(
                "calc.diff_eq",
                Domain::Calculus,
                "Differential Equation",
                "Solve ODEs: separable, first-order linear, second-order with constant coefficients.",
                vec!["calc.integral_basic", "calc.deriv_basic", "alg.linear_solve"],
                vec![PatternType::DifferentialEquation],
                vec![],
                None,
                Operation::SolveDE,
            ),
        );
        self.register(
            make_rule(
                "calc.partial_deriv",
                Domain::Calculus,
                "Partial Derivative",
                "Differentiate with respect to one variable, treating others as constants.",
                vec!["calc.deriv_basic"],
                vec![PatternType::PartialDerivative],
                vec![],
                None,
                Operation::PartialDeriv,
            ),
        );
        self.register(
            make_rule(
                "calc.multi_integral",
                Domain::Calculus,
                "Multiple Integral",
                "Evaluate double/triple integrals by iterated integration.",
                vec!["calc.definite_integral"],
                vec![PatternType::MultipleIntegral],
                vec![],
                None,
                Operation::MultiIntegral,
            ),
        );
        assert(self@ =~~= start + builtin_tier7());
    }

    fn register_tier8(&mut self)
        ensures
            final(self)@ == old(self)@ + builtin_tier8(),
    {
        let ghost start = self@;
        self.register(
            make_rule(
                "la.vec_add",
                Domain::LinearAlgebra,
                "Vector Addition",
                "Add vectors component-wise.",
                vec!["ext.add"],
                vec![PatternType::VectorAddition],
                vec![Property::Commutative, Property::Associative],
                None,
                Operation::VecAdd,
            ),
        );
        self.register(
            make_rule(
                "la.dot_product",
                Domain::LinearAlgebra,
                "Dot Product",
                "a . b = sum of a_i * b_i. Produces scalar.",
                vec!["ext.mul", "ext.add"],
                vec![PatternType::VectorDotProduct],
                vec![Property::Commutative],
                None,
                Operation::DotProduct,
            ),
        );
        self.register(
            make_rule(
                "la.cross_product",
                Domain::LinearAlgebra,
                "Cross Product",
                "a x b = (a2b3-a3b2, a3b1-a1b3, a1b2-a2b1). Produces vector. 3D only.",
                vec!["ext.mul", "ext.sub"],
                vec![PatternType::VectorCrossProduct],
                vec![],
                None,
                Operation::CrossProduct,
            ),
        );
        self.register(
            make_rule(
                "la.vec_norm",
                Domain::LinearAlgebra,
                "Vector Norm",
                "||v|| = sqrt(sum of v_i^2). Euclidean length.",
                vec!["pre.sqrt", "pre.exponent", "ext.add"],
                vec![PatternType::VectorNorm],
                vec![],
                None,
                Operation::VecNorm,
            ),
        );
        self.register(
            make_rule(
                "la.transpose",
                Domain::LinearAlgebra,
                "Matrix Transpose",
                "(A^T)_ij = A_ji. Swap rows and columns.",
                vec![],
                vec![PatternType::MatrixTranspose],
                vec![],
                None,
                Operation::Transpose,
            ),
        );
        self.register(
            make_rule(
                "la.eigenvalue",
                Domain::LinearAlgebra,
                "Eigenvalue",
                "Find lambda where det(A - lambda*I) = 0.",
                vec!["adv.mat_det", "alg.quadratic_solve"],
                vec![PatternType::Eigenvalue],
                vec![],
                None,
                Operation::EigenvalueCalc,
            ),
        );
        self.register(
            make_rule(
                "la.eigenvector",
                Domain::LinearAlgebra,
                "Eigenvector",
                "Find v where Av = lambda*v. Solve (A - lambda*I)v = 0.",
                vec!["la.eigenvalue", "adv.system_solve"],
                vec![PatternType::Eigenvector],
                vec![],
                None,
                Operation::EigenvectorCalc,
            ),
        );
        self.register(
            make_rule(
                "la.linear_transform",
                Domain::LinearAlgebra,
                "Linear Transformation",
                "T(v) = Av. Apply matrix to vector.",
                vec!["adv.mat_mul"],
                vec![PatternType::LinearTransformation],
                vec![],
                None,
                Operation::LinearTransform,
            ),
        );
        self.register(
            make_rule(
                "la.mat_decompose",
                Domain::LinearAlgebra,
                "Matrix Decomposition",
                "LU, QR, SVD, Cholesky decompositions.",
                vec!["adv.mat_mul", "adv.mat_det", "la.vec_norm"],
                vec![PatternType::MatrixDecomposition],
                vec![],
                None,
                Operation::MatDecompose,
            ),
        );
        self.register(
            make_rule(
                "la.vec_project",
                Domain::LinearAlgebra,
                "Vector Projection",
                "proj_b(a) = (a.b / b.b) * b.",
                vec!["la.dot_product", "ext.div", "ext.mul"],
                vec![PatternType::VectorProjection],
                vec![],
                None,
                Operation::VecProject,
            ),
        );
        self.register(
            make_rule(
                "la.gram_schmidt",
                Domain::LinearAlgebra,
                "Gram-Schmidt",
                "Orthogonalize a set of vectors.",
                vec!["la.vec_project", "la.vec_norm"],
                vec![PatternType::GramSchmidt],
                vec![],
                None,
                Operation::GramSchmidtCalc,
            ),
        );
        self.register(
            make_rule(
                "la.rank_nullity",
                Domain::LinearAlgebra,
                "Rank and Nullity",
                "rank(A) + nullity(A) = n. Compute via row echelon form.",
                vec!["adv.system_solve"],
                vec![PatternType::RankNullity],
                vec![],
                None,
                Operation::RankNullityCalc,
            ),
        );
        assert(self@ =~~= start + builtin_tier8());
    }

    fn register_tier9(&mut self)
        ensures
            final(self)@ == old(self)@ + builtin_tier9(),
    {
        let ghost start = self@;
        self.register(
            make_rule(
                "abs.mod_arith",
                Domain::AbstractApplied,
                "Modular Arithmetic",
                "a mod n. Clock arithmetic. Congruence relations.",
                vec!["ext.div"],
                vec![PatternType::ModularArithmetic],
                vec![],
                None,
                Operation::ModArith,
            ),
        );
        self.register(
            make_rule(
                "abs.permutation",
                Domain::AbstractApplied,
                "Permutation",
                "P(n,r) = n! / (n-r)!. Ordered arrangements.",
                vec!["ext.mul", "ext.div"],
                vec![PatternType::Permutation],
                vec![],
                None,
                Operation::PermutationCount,
            ),
        );
        self.register(
            make_rule(
                "abs.combination",
                Domain::AbstractApplied,
                "Combination",
                "C(n,r) = n! / (r! * (n-r)!). Unordered selections.",
                vec!["abs.permutation", "ext.div"],
                vec![PatternType::Combination],
                vec![],
                None,
                Operation::CombinationCount,
            ),
        );
        self.register(
            make_rule(
                "abs.prob_basic",
                Domain::AbstractApplied,
                "Basic Probability",
                "P(A) = favorable outcomes / total outcomes. 0 <= P(A) <= 1.",
                vec!["ext.div", "abs.combination"],
                vec![PatternType::ProbabilityBasic],
                vec![],
                None,
                Operation::ProbCalc,
            ),
        );
        self.register(
            make_rule(
                "abs.prob_cond",
                Domain::AbstractApplied,
                "Conditional Probability",
                "P(A|B) = P(A and B) / P(B).",
                vec!["abs.prob_basic", "ext.div"],
                vec![PatternType::ProbabilityConditional],
                vec![],
                None,
                Operation::CondProbCalc,
            ),
        );
        self.register(
            make_rule(
                "abs.bayes",
                Domain::AbstractApplied,
                "Bayes' Theorem",
                "P(A|B) = P(B|A) * P(A) / P(B).",
                vec!["abs.prob_cond", "ext.mul", "ext.div"],
                vec![PatternType::BayesTheorem],
                vec![],
                None,
                Operation::BayesCalc,
            ),
        );
        self.register(
            make_rule(
                "abs.expected_val",
                Domain::AbstractApplied,
                "Expected Value",
                "E[X] = sum of x_i * P(x_i). Weighted average of outcomes.",
                vec!["abs.prob_basic", "ext.mul", "ext.add"],
                vec![PatternType::ExpectedValue],
                vec![],
                None,
                Operation::ExpectedValCalc,
            ),
        );
        self.register(
            make_rule(
                "abs.variance",
                Domain::AbstractApplied,
                "Variance",
                "Var(X) = E[X^2] - (E[X])^2. Measure of spread.",
                vec!["abs.expected_val", "pre.exponent", "ext.sub"],
                vec![PatternType::Variance],
                vec![],
                None,
                Operation::VarianceCalc,
            ),
        );
        self.register(
            make_rule(
                "abs.std_dev",
                Domain::AbstractApplied,
                "Standard Deviation",
                "sigma = sqrt(Var(X)). Square root of variance.",
                vec!["abs.variance", "pre.sqrt"],
                vec![PatternType::StandardDeviation],
                vec![],
                None,
                Operation::StdDevCalc,
            ),
        );
        self.register(
            make_rule(
                "abs.normal_dist",
                Domain::AbstractApplied,
                "Normal Distribution",
                "Z-scores, area under curve, probability from normal distribution.",
                vec!["abs.std_dev", "abs.expected_val", "ext.div"],
                vec![PatternType::NormalDistribution],
                vec![],
                None,
                Operation::NormalDistCalc,
            ),
        );
        self.register(
            make_rule(
                "abs.hyp_test",
                Domain::AbstractApplied,
                "Hypothesis Test",
                "Test statistical hypotheses: z-test, t-test, chi-square.",
                vec!["abs.normal_dist", "abs.std_dev"],
                vec![PatternType::HypothesisTest],
                vec![],
                None,
                Operation::HypTestCalc,
            ),
        );
        self.register(
            make_rule(
                "abs.graph_adj",
                Domain::AbstractApplied,
                "Graph Adjacency",
                "Build and query adjacency matrix/list representations of graphs.",
                vec!["adv.mat_add"],
                vec![PatternType::GraphAdjacency],
                vec![],
                None,
                Operation::GraphAdjCalc,
            ),
        );
        self.register(
            make_rule(
                "abs.shortest_path",
                Domain::AbstractApplied,
                "Shortest Path",
                "Find shortest path in graph: Dijkstra's, Bellman-Ford, Floyd-Warshall.",
                vec!["abs.graph_adj", "ext.add"],
                vec![PatternType::ShortestPath],
                vec![],
                None,
                Operation::ShortestPathCalc,
            ),
        );
        self.register(
            make_rule(
                "abs.optimize",
                Domain::AbstractApplied,
                "Optimization",
                "Find min/max of functions with or without constraints. Lagrange multipliers.",
                vec!["calc.deriv_basic", "adv.system_solve"],
                vec![PatternType::Optimization],
                vec![],
                None,
                Operation::OptimizeCalc,
            ),
        );
        assert(self@ =~~= start + builtin_tier9());
    }

}

}
