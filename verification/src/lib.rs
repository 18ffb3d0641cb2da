//! Configuration, health and statistics logic of the review engine's web API,
//! stated and proved with Verus.

pub mod text;
pub mod json;
pub mod models;
pub mod config;
pub mod keyed;
pub mod digest;
pub mod llm_health;
pub mod git_health;
pub mod llm_latency;
pub mod llm_probe;
pub mod llm;
pub mod secrets;
pub mod dashboard;
pub mod callback;
pub mod feedback;
pub mod catalog;
