//! Render and input engine of a multi-channel volume-control device.
//!
//! Analog sliders feed an ADC, a small monochrome display shows animated
//! feedback, and the channel that was touched last is highlighted. This crate
//! holds the logic of that device: the packed 4-bit grayscale codec, the
//! compositing effects, the ADC sampling state machine, the screen state
//! machine with its scenes, and the two-buffer frame handoff.

pub mod adc;
pub mod animation_node;
pub mod deej_usb;
pub mod filtered_bmp;
pub mod frame;
pub mod graphics;
pub mod gray4;
pub mod gray4_effects;
pub mod screen;
pub mod shared;
pub mod sprite;
pub mod volume_indicator;
