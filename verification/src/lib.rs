//! The decisions behind a software-rendered, host-driven user interface.

pub mod aot;
pub mod aot_generator;
pub mod chunks;
pub mod damage;
pub mod display_context;
pub mod double;
pub mod draw_plan;
pub mod dropfiles;
pub mod embed_host;
pub mod embed_probe;
pub mod event_loop;
pub mod fragment;
pub mod frames;
pub mod glyph;
pub mod instances;
pub mod jit;
pub mod png;
pub mod render;
pub mod single;
pub mod sonda_teclado_movil;
pub mod studio_pipe;
pub mod studio_tick_watchdog;
pub mod text;
pub mod texture;
pub mod view;
pub mod virtual_gpu;
pub mod windows;
