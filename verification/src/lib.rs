pub mod backoff;
pub mod bytes;
pub mod double;
pub mod fixed_digits;
pub mod markup;
pub mod numeral;
pub mod polybar_module;
pub mod quotient;
pub mod text;
pub mod theme;
pub mod views;
