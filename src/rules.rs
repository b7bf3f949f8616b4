//! The checks that a rule goes through, one module each.
pub mod check_property;
pub mod check_value;
pub mod unit_check;
pub mod duplicate_declaration;
