pub mod editor;
pub mod menu;
pub mod panels;
pub mod state;
