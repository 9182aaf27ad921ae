//! What holds of the scheme as a whole.
pub mod algebra;
pub mod balance;
pub mod circle;
pub mod conservation;
pub mod consistency;
pub mod course;
pub mod direct;
pub mod exact;
pub mod fourier;
pub mod gauss;
pub mod halting;
pub mod largest;
pub mod noslip;
pub mod numerals;
pub mod options;
pub mod order;
pub mod output;
pub mod placement;
pub mod relaxation;
pub mod repetition;
pub mod report;
pub mod rim;
pub mod section;
pub mod setup;
pub mod shape;
pub mod sine;
pub mod speed;
pub mod stages;
pub mod stream;
pub mod street;
pub mod sums;
pub mod totals;
pub mod transposition;
pub mod unique;
pub mod walls;
