pub mod cell_keys;
pub mod key;
pub mod mesh_tree;
pub mod parser;
pub mod parser_error;
