//! What holds of the library as a whole: of every configuration, every state
//! and every sequence of operations.

pub mod answers;
pub mod console;
pub mod cookies;
pub mod exchange;
pub mod fields;
pub mod forwarding;
pub mod history;
pub mod models;
pub mod routing;
pub mod settings;
pub mod strings;
pub mod tables;
