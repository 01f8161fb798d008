//! The Edwards curve E521.
pub mod closure;
pub mod e521;
pub mod group;
pub mod params;
