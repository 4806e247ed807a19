//! Decision logic, geometry, text scanning and pixel composition of an
//! image subject-extraction tool that combines a reinforcement-learning
//! localisation agent, a salient-object segmentation model and a classical
//! image-processing pipeline.

pub mod geometry;
pub mod policy;
pub mod pipeline;
pub mod text;
pub mod models;
pub mod training_log;
pub mod encoding;
pub mod compose;
pub mod classical;
pub mod background;
