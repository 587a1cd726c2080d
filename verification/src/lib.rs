pub mod canvas;
pub mod color;
pub mod color_editer;
pub mod export_image;
pub mod grid;
pub mod new_file;
pub mod region;
pub mod replay;
pub mod timeline;
pub mod undo;
