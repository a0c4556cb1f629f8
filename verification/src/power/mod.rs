//! Power sequencing of the vector coprocessor.

pub mod hvx;
