//! `log`: one path's history across the listed branches.

pub mod paths;
