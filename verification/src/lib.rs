pub mod container;
pub mod container_list;
pub mod image;
pub mod image_list;
pub mod index_map;
pub mod info_panel;
pub mod list_model;
pub mod text;
