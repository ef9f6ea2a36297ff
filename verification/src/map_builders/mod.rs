pub mod common;
pub mod empty_plain;
pub mod ship_corridors;
pub mod ship_fittings;
pub mod ship_layout;
pub mod ship_population;
pub mod small_cargo_ship;
pub mod system_test_map;
