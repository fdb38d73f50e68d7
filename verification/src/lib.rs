//! Interactive calculator core: an input-rewriting pipeline over session
//! state (previous answer, user variables) and a display-format command
//! handler. Arithmetic itself is delegated to an external evaluator; the
//! rewriting, state policy and command grammar are specified and verified
//! here.

pub mod commands;
pub mod eval;
pub mod laws;
pub mod parser;
pub mod text;
