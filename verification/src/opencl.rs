pub mod memory;
