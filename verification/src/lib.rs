//! Integer core of a small linear-regression toolkit: the error kinds, the
//! rules by which each operation admits its input, the ordering of samples
//! given by their IEEE 754 encodings, and the positions that summaries and
//! projections read.

pub mod erro;
pub mod codigo;
pub mod ordem;
pub mod resumo;
pub mod previsao;

pub use crate::erro::RegressaoError;
pub use crate::erro::Resultado;
