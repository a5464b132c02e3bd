pub mod schema;
pub mod schema_proofs;
pub mod semantics;
pub mod semantics_proofs;

pub use schema::validate_schema;
pub use semantics::validate_semantics;
