//! Time model for pointing an altitude-azimuth mount: instants on the UTC time line,
//! short spans of time, their civil (calendar) decomposition and the symmetric sampling
//! window used to estimate angular rates.
pub mod instant;
pub mod civil;
pub mod sampling;
