//! Multi-scale differential dynamic microscopy: the integer and structural
//! core of the streaming pipeline (tiling, windowing, lag planning, mask
//! geometry, accumulation bookkeeping and the orchestration state machine).
pub mod frame;
pub mod tiling;
pub mod window;
pub mod annuli;
pub mod lag;
pub mod pipeline;
pub mod accumulator;
