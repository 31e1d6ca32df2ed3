pub mod neighbors;
