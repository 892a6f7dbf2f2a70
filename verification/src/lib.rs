//! A small, portable game framework: entity bookkeeping, render resource
//! descriptions and input device state.
pub mod ecs;
pub mod graphics;
pub mod handle;
pub mod time;
pub mod input;
