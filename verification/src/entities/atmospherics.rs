use vstd::prelude::*;

verus! {

/// A gas that an atmosphere can hold.
#[derive(Clone, Copy, Debug, PartialEq, Eq, Structural, Hash)]
pub enum Gas {
    Oxygen,
    Nitrogen,
    CarbonDioxide,
}

/// The name under which a gas is shown.
pub open spec fn gas_name(gas: Gas) -> Seq<char> {
    match gas {
        Gas::Oxygen => "Oxygen"@,
        Gas::Nitrogen => "Nitrogen"@,
        Gas::CarbonDioxide => "CarbonDioxide"@,
    }
}

impl Gas {
    /// The name under which the gas is shown.
    pub fn name(&self) -> (s: String)
        ensures
            s@ == gas_name(*self),
    {
        match self {
            Gas::Oxygen => "Oxygen".to_owned(),
            Gas::Nitrogen => "Nitrogen".to_owned(),
            Gas::CarbonDioxide => "CarbonDioxide".to_owned(),
        }
    }
}

} // verus!
