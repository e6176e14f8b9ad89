pub mod walker;
