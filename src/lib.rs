//! Pricing and accounting engine of a concentrated-liquidity market maker:
//! scaled-integer arithmetic, tick to square-root-price conversion, single
//! swap steps, range accounting and a fixed-capacity price history.
pub mod decimals;
pub mod errors;
pub mod math;
pub mod oracle;
pub mod state;
pub mod wide;
