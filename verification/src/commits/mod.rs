//! The commit table shared by `commits`, `log` and `merge --review`.

pub mod args;
pub mod files;
pub mod rows;
pub mod md;
pub mod render;
pub mod argv;
pub mod view;
pub mod table;
pub mod words;
