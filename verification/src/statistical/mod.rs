//! The statistical functions.
pub mod count_and_average;
pub mod frequency;
pub mod mode_functions;
pub mod rank_eq_avg;
pub mod large_small;
pub mod countifs;
pub mod ifs;
pub mod permut;
pub mod criteria_ranges;
pub mod value_walk;
pub mod regression;
