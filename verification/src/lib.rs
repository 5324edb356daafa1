//! Verified core of the spreadsheet function library.
pub mod array_size;
pub mod gcd_lcm;
pub mod grid;
pub mod lookup_and_reference;
pub mod math_and_trigonometry;
pub mod mathematical_sum;
pub mod model_util;
pub mod roman;
pub mod spill_functions;
pub mod statistical;
pub mod text;
pub mod types;
pub mod wildcard;
pub mod value_order;
