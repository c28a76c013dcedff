//! Exact rational arithmetic for a desktop calculator: arbitrary-precision
//! naturals and rationals, the calculator engine, decimal formatting of
//! rationals and the state machine behind the calculator's keypad.
pub mod natural;
pub mod rational;
pub mod text;
pub mod format;
pub mod decimal;
pub mod engine;
pub mod gui;
