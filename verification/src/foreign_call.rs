//! The parameter shape of a foreign call: a scalar limb or an array of
//! limbs.

use vstd::prelude::*;

verus! {

/// Single input or output of a foreign call.
#[derive(Debug, PartialEq, Eq, Clone)]
pub enum ForeignCallParam<F> {
    Single(F),
    Array(Vec<F>),
}

/// How many limbs a parameter carries.
pub open spec fn param_count<F>(p: ForeignCallParam<F>) -> int {
    match p {
        ForeignCallParam::Single(_) => 1,
        ForeignCallParam::Array(values) => values.len() as int,
    }
}

impl<F> ForeignCallParam<F> where F: Clone {
    /// The number of limbs this parameter carries.
    pub fn len(&self) -> (r: usize)
        ensures
            r == param_count(*self),
    {
        match self {
            ForeignCallParam::Single(_) => 1,
            ForeignCallParam::Array(values) => values.len(),
        }
    }

    /// The limbs of this parameter, a scalar counting as one.
    pub fn get_values(&self) -> (r: Vec<F>)
        ensures
            r@.len() == param_count(*self),
    {
        match self {
            ForeignCallParam::Single(value) => {
                let mut v: Vec<F> = Vec::new();
                v.push(value.clone());
                v
            },
            ForeignCallParam::Array(values) => values.clone(),
        }
    }
}

impl<F> From<F> for ForeignCallParam<F> {
    fn from(value: F) -> (r: Self) {
        ForeignCallParam::Single(value)
    }
}

impl<F> vstd::std_specs::convert::FromSpecImpl<F> for ForeignCallParam<F> {
    open spec fn obeys_from_spec() -> bool {
        true
    }

    open spec fn from_spec(value: F) -> Self {
        ForeignCallParam::Single(value)
    }
}

impl<F> From<Vec<F>> for ForeignCallParam<F> {
    fn from(values: Vec<F>) -> (r: Self) {
        ForeignCallParam::Array(values)
    }
}

impl<F> vstd::std_specs::convert::FromSpecImpl<Vec<F>> for ForeignCallParam<F> {
    open spec fn obeys_from_spec() -> bool {
        true
    }

    open spec fn from_spec(values: Vec<F>) -> Self {
        ForeignCallParam::Array(values)
    }
}

} // verus!
