pub mod laws;
pub mod lsystem;
pub mod rules;
mod seq_util;

pub use lsystem::LSystem;
pub use rules::RuleSet;
