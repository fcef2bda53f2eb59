//! A verified portfolio-allocation core: a price series store that
//! answers point-in-time queries by exact lookup or day-ratio
//! interpolation, an eligibility filter over investor profiles, a
//! persistent decaying learned-score store, an allocation engine that
//! turns a spend-fraction-limited budget into whole-share counts under
//! hard budget and diversification ceilings, and a pre-submission
//! validator.
//!
//! All quantities are plain integers: money in cents, returns in basis
//! points, volatility in basis points, learned scores in milli-points.
pub mod budget;
pub mod dates;
pub mod filter;
pub mod investor;
pub mod points;
pub mod portfolio;
pub mod prices;
pub mod ranking;
pub mod stocks;
pub mod validate;
pub mod text;
