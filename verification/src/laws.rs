//! What holds of the grammar, proved from its definitions.

pub mod idempotence;
pub mod literals;
pub mod numbers;
pub mod progress;
pub mod scanning;
pub mod soundness;
pub mod structures;
