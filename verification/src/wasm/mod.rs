pub mod abi;
pub mod loader;
