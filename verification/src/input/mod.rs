pub mod backtrack;
pub mod editor;
pub mod split;
