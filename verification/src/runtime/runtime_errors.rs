//! Errors reported during evaluation.
//!
//! Every runtime error carries the location of the innermost failing
//! construct; a resolution failure also carries the unresolved name.
use crate::tokenize::Ident;
use crate::{LocatableContent, Location};
use vstd::prelude::*;
use vstd::string::StringExecFns;

verus! {

/// A function name that the registry does not know, with its location.
#[derive(Debug)]
pub struct ResolutionError(pub LocatableContent<Ident>);

impl ResolutionError {
    pub fn new(ident: LocatableContent<Ident>) -> (r: Self)
        ensures
            r.0 == ident,
    {
        Self(ident)
    }

    /// The unresolved name.
    pub fn name(&self) -> (r: &Ident)
        ensures
            r == self.0.content,
    {
        self.0.content()
    }

    pub fn location(&self) -> (r: Location)
        ensures
            r == self.0.location,
    {
        *self.0.location()
    }
}

/// A call of a non-returning function in a position that expects a value.
#[derive(Debug)]
pub struct NonReturingFunctionError(pub Location);

impl NonReturingFunctionError {
    pub fn new(location: Location) -> (r: Self)
        ensures
            r.0 == location,
    {
        Self(location)
    }

    pub fn location(&self) -> (r: Location)
        ensures
            r == self.0,
    {
        self.0
    }
}

/// Mathematical model of a runtime error.
pub ghost enum SpecRuntimeError {
    Resolution { name: Seq<char>, location: Location },
    NonReturning { location: Location },
    DivisionByZero { location: Location },
    NumericOverflow { location: Location },
    TypeMismatch { location: Location },
}

impl SpecRuntimeError {
    pub open spec fn spec_location(self) -> Location {
        match self {
            SpecRuntimeError::Resolution { location, .. } => location,
            SpecRuntimeError::NonReturning { location } => location,
            SpecRuntimeError::DivisionByZero { location } => location,
            SpecRuntimeError::NumericOverflow { location } => location,
            SpecRuntimeError::TypeMismatch { location } => location,
        }
    }
}

/// An error raised while evaluating an expression.
#[derive(Debug)]
pub enum RuntimeError {
    /// An unknown function name.
    Resolution(ResolutionError),
    /// A non-returning function used where a value is needed.
    NonReturning(NonReturingFunctionError),
    /// Division by an operand equal to zero.
    DivisionByZero(Location),
    /// An exact rational result that does not fit the numeric range.
    NumericOverflow(Location),
    /// A binary operator applied to operands that are not both numbers.
    /// With `Value` presently holding numbers only this cannot arise; the
    /// variant is reserved for further value kinds.
    TypeMismatch(Location),
}

pub open spec fn rt_err_view(e: RuntimeError) -> SpecRuntimeError {
    match e {
        RuntimeError::Resolution(re) => SpecRuntimeError::Resolution {
            name: re.0.content@,
            location: re.0.location,
        },
        RuntimeError::NonReturning(ne) => SpecRuntimeError::NonReturning { location: ne.0 },
        RuntimeError::DivisionByZero(l) => SpecRuntimeError::DivisionByZero { location: l },
        RuntimeError::NumericOverflow(l) => SpecRuntimeError::NumericOverflow { location: l },
        RuntimeError::TypeMismatch(l) => SpecRuntimeError::TypeMismatch { location: l },
    }
}

impl RuntimeError {
    /// The location of the innermost failing construct.
    pub fn location(&self) -> (r: Location)
        ensures
            r == rt_err_view(*self).spec_location(),
    {
        match self {
            RuntimeError::Resolution(re) => re.location(),
            RuntimeError::NonReturning(ne) => ne.location(),
            RuntimeError::DivisionByZero(l) => *l,
            RuntimeError::NumericOverflow(l) => *l,
            RuntimeError::TypeMismatch(l) => *l,
        }
    }

    /// What the message of each error kind says.
    pub open spec fn spec_message(self) -> Seq<char> {
        match self {
            RuntimeError::Resolution(_) => "could not resolve the function name"@,
            RuntimeError::NonReturning(_) => "a non-returning function cannot be used here"@,
            RuntimeError::DivisionByZero(_) => "division by zero"@,
            RuntimeError::NumericOverflow(_) => "result outside the exact numeric range"@,
            RuntimeError::TypeMismatch(_) => "operands are not numbers"@,
        }
    }

    /// A short description of the failure; the offending name and location
    /// are available from the variant itself.
    pub fn message(&self) -> (r: String)
        ensures
            r@ == self.spec_message(),
    {
        match self {
            RuntimeError::Resolution(_) => String::from_str("could not resolve the function name"),
            RuntimeError::NonReturning(_) => String::from_str(
                "a non-returning function cannot be used here",
            ),
            RuntimeError::DivisionByZero(_) => String::from_str("division by zero"),
            RuntimeError::NumericOverflow(_) => String::from_str(
                "result outside the exact numeric range",
            ),
            RuntimeError::TypeMismatch(_) => String::from_str("operands are not numbers"),
        }
    }
}

} // verus!
