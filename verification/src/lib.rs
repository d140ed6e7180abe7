//! Verified core of a model inference server: request queues, worker
//! selection, streaming, uploads and the HTTP rules around them.

pub mod batch;
pub mod collector;
pub mod floats;
pub mod health;
pub mod http;
pub mod ids;
pub mod json;
pub mod kserve;
pub mod message;
pub mod nearest;
pub mod options;
pub mod outlier;
pub mod picker;
pub mod priority;
pub mod queue;
pub mod range;
pub mod routes;
pub mod stream;
pub mod tensors;
pub mod text;
pub mod time;
pub mod upload;
pub mod utf8;
