pub mod text;
pub mod ini;
pub mod util;
pub mod version;
pub mod str_map;
pub mod mod_info;
pub mod mod_config;
pub mod rendering_api;
pub mod vmb;
pub mod log;
pub mod archive;
pub mod app_data;
pub mod game_wrapper;
pub mod scoped_term_buffer;
