pub mod keysym;
pub mod settings;
pub mod shortcuts;
pub mod text;
