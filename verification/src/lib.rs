pub mod audio;
pub mod bar;
pub mod bluetooth;
pub mod bluetooth_cli;
pub mod clock;
pub mod config;
pub mod json;
pub mod lettering;
pub mod notifications;
pub mod painting;
pub mod panel;
pub mod pipewire_audio;
pub mod pipewire_cli;
pub mod render;
pub mod session;
pub mod system;
pub mod text;
