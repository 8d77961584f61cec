pub mod backup;
pub mod backup_restore;
pub mod calendar;
pub mod cf;
pub mod cli;
pub mod display;
pub mod edit;
pub mod fields;
pub mod json;
pub mod lc;
pub mod models;
pub mod names;
pub mod note;
pub mod num;
pub mod restore;
pub mod stats;
pub mod task;
pub mod text;
pub mod view;
