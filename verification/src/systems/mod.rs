pub mod atmosphere_system;
pub mod event_system;
pub mod power_system;
pub mod state_align_system;
