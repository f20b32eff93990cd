//! What holds of the library as a whole.

pub mod capture;
pub mod clients;
pub mod commands;
pub mod documents;
pub mod forms;
pub mod hardware;
pub mod listening;
pub mod numbers;
pub mod packets;
pub mod requests;
pub mod settings;
pub mod shapes;
pub mod texts;
pub mod triggers;
pub mod waves;
