pub mod text;
pub mod numeral;
pub mod lrc;
pub mod truncate;
pub mod sort;
pub mod playlist;
pub mod menu;
pub mod lyrics;
pub mod art;
pub mod controls;
pub mod ui;
pub mod output;
pub mod screen;
