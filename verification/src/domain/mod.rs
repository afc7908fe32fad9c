pub mod effect;
pub mod error;
pub mod globs;
pub mod matcher;
pub mod refspec;
pub mod text;
