pub mod bits;
pub mod camera;
pub mod cdmc;
pub mod ci;
pub mod clock;
pub mod decode_cache_profile;
pub mod framebuffer;
pub mod job;
pub mod json;
pub mod machine;
pub mod ops;
pub mod overlay;
pub mod path;
pub mod saves;
pub mod scratch;
pub mod screenshot;
pub mod scsi_plan;
pub mod settings;
pub mod sgi_vh;
pub mod snapshot;
pub mod std_text;
pub mod table;
pub mod text;
pub mod toml_text;
pub mod toml_value;
pub mod transfer;
pub mod ui;
pub mod video_source;
