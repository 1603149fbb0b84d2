//! The knowledge-capture, grounding and review logic of ZhiForge, verified.
pub mod text;
pub mod grounding;
pub mod internalization;
pub mod capture;
pub mod search;
pub mod review;
pub mod curation;
pub mod management;
pub mod librarian;
pub mod merge;
pub mod research;
pub mod semantic;
pub mod inbox;
pub mod task_center;
pub mod source;
pub mod graph;
pub mod health;
pub mod claims;
pub mod assessment;
