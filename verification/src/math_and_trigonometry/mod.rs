//! The array functions of the math and trigonometry group.
pub mod matrix;
pub mod mmult;
pub mod sumproduct;
pub mod sequence;
pub mod multinomial;
