//! Integer matrix multiplication with verified kernels.
//!
//! `model` states what a product is; `cpu` holds the row kernels, the
//! sequential and work-stealing multiplications and the row assembly used
//! by the task-based ones; `layout` holds the row-major buffer helpers of
//! the tiled accelerator path; `generate` fills random operands.

pub mod model;
pub mod cpu;
pub mod task;
pub mod layout;
pub mod generate;
