//! The tri-state validity model and the validators that turn non-valid
//! outcomes into descriptive errors.

pub mod distances_values;
pub mod group_values;
pub mod temperatures_values;
pub mod validator;
pub mod validity;
