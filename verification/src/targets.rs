pub mod target;
