//! Configuration of the staking engine's running product.
//!
//! The precision is the number of digits and of decimal places that the
//! running product keeps. When the product falls below
//! 10^-max_decimal_places it is scaled up; above 10^max_digits it is scaled
//! down. A bound that is not set disables the matching scaling.
use crate::config_manager::Updatable;
use vstd::prelude::*;

verus! {

/// One change to one element of a set-shaped configuration field.
#[derive(Clone, Copy, Debug, PartialEq, Eq, Hash)]
pub enum UpdateSetInput<T> {
    Add(T),
    Remove(T),
}

/// The configuration of a staking engine.
#[derive(Clone, Copy, Debug, Default, PartialEq, Eq, Structural)]
pub struct StakingEngineConfig {
    /// The maximum number of digits of the running product.
    pub max_digits: Option<u8>,
    /// The maximum number of decimal places of the running product.
    pub max_decimal_places: Option<u8>,
    /// The maximum number of resources distributed as rewards, which bounds
    /// the state's growth.
    pub max_resource_count: Option<u32>,
}

/// A change to one field of a [`StakingEngineConfig`].
#[derive(Clone, Copy, Debug, PartialEq, Eq, Hash, Structural)]
pub enum UpdateStakingEngineConfigInput {
    MaxDigits(Option<u8>),
    MaxDecimalPlaces(Option<u8>),
    MaxResourceCount(Option<u32>),
}

pub open spec fn valid_max_digits(v: Option<u8>) -> bool {
    match v {
        Some(d) => 0 < d <= 41,
        None => true,
    }
}

pub open spec fn valid_max_decimal_places(v: Option<u8>) -> bool {
    match v {
        Some(d) => 0 < d <= 36,
        None => true,
    }
}

pub open spec fn valid_max_resource_count(v: Option<u32>) -> bool {
    match v {
        Some(c) => c > 0,
        None => true,
    }
}

impl StakingEngineConfig {
    pub open spec fn is_valid(self) -> bool {
        &&& valid_max_digits(self.max_digits)
        &&& valid_max_decimal_places(self.max_decimal_places)
        &&& valid_max_resource_count(self.max_resource_count)
    }

    /// The message that names the first field whose value is invalid.
    pub open spec fn invalid_field_message(self) -> Seq<char> {
        if !valid_max_digits(self.max_digits) {
            "Invalid StakingEngineConfig::max_digits"@
        } else if !valid_max_decimal_places(self.max_decimal_places) {
            "Invalid StakingEngineConfig::max_decimal_places"@
        } else {
            "Invalid StakingEngineConfig::max_resource_count"@
        }
    }

    /// The configuration after one change.
    pub open spec fn with_input(self, input: UpdateStakingEngineConfigInput) -> Self {
        match input {
            UpdateStakingEngineConfigInput::MaxDigits(v) => StakingEngineConfig {
                max_digits: v,
                ..self
            },
            UpdateStakingEngineConfigInput::MaxDecimalPlaces(v) => StakingEngineConfig {
                max_decimal_places: v,
                ..self
            },
            UpdateStakingEngineConfigInput::MaxResourceCount(v) => StakingEngineConfig {
                max_resource_count: v,
                ..self
            },
        }
    }

    /// The configuration after a batch of changes, applied in order.
    pub open spec fn with_inputs(self, inputs: Seq<UpdateStakingEngineConfigInput>) -> Self
        decreases inputs.len(),
    {
        if inputs.len() == 0 {
            self
        } else {
            self.with_inputs(inputs.drop_last()).with_input(inputs.last())
        }
    }

    /// Applies one change.
    pub fn apply_input(&mut self, input: UpdateStakingEngineConfigInput)
        ensures
            *final(self) == old(self).with_input(input),
    {
        match input {
            UpdateStakingEngineConfigInput::MaxDigits(v) => self.max_digits = v,
            UpdateStakingEngineConfigInput::MaxDecimalPlaces(v) => self.max_decimal_places = v,
            UpdateStakingEngineConfigInput::MaxResourceCount(v) => self.max_resource_count = v,
        }
    }
}

impl Updatable<Vec<UpdateStakingEngineConfigInput>> for StakingEngineConfig {
    /// Applies every change in order, then checks the result.
    fn update(&mut self, inputs: Vec<UpdateStakingEngineConfigInput>) -> (r: Result<(), String>)
        ensures
            *final(self) == old(self).with_inputs(inputs@),
            r is Ok <==> final(self).is_valid(),
            r matches Err(m) ==> m@ == final(self).invalid_field_message(),
    {
        let mut i: usize = 0;
        while i < inputs.len()
            invariant
                0 <= i <= inputs@.len(),
                *self == old(self).with_inputs(inputs@.take(i as int)),
            decreases inputs@.len() - i,
        {
            proof {
                assert(inputs@.take(i + 1).drop_last() =~= inputs@.take(i as int));
            }
            self.apply_input(inputs[i]);
            i += 1;
        }
        proof {
            assert(inputs@.take(i as int) =~= inputs@);
        }
        self.check()
    }

    /// Checks every field, naming the first invalid one.
    fn check(&self) -> (r: Result<(), String>)
        ensures
            r is Ok <==> self.is_valid(),
            r matches Err(m) ==> m@ == self.invalid_field_message(),
    {
        let digits_ok = match self.max_digits {
            Some(d) => d > 0 && d <= 41,
            None => true,
        };
        if !digits_ok {
            return Err("Invalid StakingEngineConfig::max_digits".to_string());
        }
        let places_ok = match self.max_decimal_places {
            Some(d) => d > 0 && d <= 36,
            None => true,
        };
        if !places_ok {
            return Err("Invalid StakingEngineConfig::max_decimal_places".to_string());
        }
        let count_ok = match self.max_resource_count {
            Some(c) => c > 0,
            None => true,
        };
        if !count_ok {
            return Err("Invalid StakingEngineConfig::max_resource_count".to_string());
        }
        Ok(())
    }
}

} // verus!
