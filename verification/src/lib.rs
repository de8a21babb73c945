pub mod text;
pub mod reason;
pub mod perceive;
pub mod act;
pub mod bench;
pub mod agent;
pub mod marks;
