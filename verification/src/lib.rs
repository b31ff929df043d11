//! Core logic of the taskbar background service: window filtering, whitelists,
//! device and network bookkeeping, input-method selection and text formats.

pub mod bluetooth;
pub mod constants;
pub mod copydata;
pub mod geometry;
pub mod icon_packs;
pub mod icons;
pub mod identity;
pub mod imaging;
pub mod input_method;
pub mod logs;
pub mod messages;
pub mod network;
pub mod notification;
pub mod registry_values;
pub mod resources;
pub mod start_menu;
pub mod taskbar_items;
pub mod text;
pub mod user_apps;
pub mod utils;
pub mod whitelist;
pub mod window_filter;
