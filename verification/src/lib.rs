pub mod backend_interface;
pub mod blocks;
pub mod json;
pub mod mark;
pub mod new_ids;
pub mod step;
pub mod steps_actualisor;
pub mod steps_generator;
pub mod text;
pub mod utilities;
