//! Axiom: capability physics (identity hashing, issuance, lineage validation)
//! and the bare-metal substrate's pure logic (physical frame allocation and
//! descriptor table encoding), each stated and proved with Verus.

pub mod crypto;
pub mod table;
pub mod capability;
pub mod store;
pub mod validator;
pub mod laws;
pub mod kernel;
