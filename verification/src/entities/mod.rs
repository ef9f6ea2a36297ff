pub mod components;
pub mod intents;
pub mod power_components;
pub mod atmospherics;
pub mod props;
