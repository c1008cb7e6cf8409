pub mod args;
pub mod codec;
pub mod matrix;
pub mod pipeline;
