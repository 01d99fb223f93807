//! World clock panel applet: verified parsing, ordering and state logic.
pub mod text;
pub mod zones;
pub mod applet;
pub mod locale;
pub mod world_clocks;
