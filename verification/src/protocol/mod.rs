pub mod mask;
pub mod ping;
