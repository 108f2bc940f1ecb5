pub mod text;
pub mod timestamp;
pub mod names;
pub mod dib;
pub mod png;
pub mod icon;
pub mod tray;
