//! Countdown durations: a verified parser for free-form duration
//! expressions such as `"1h, 30m and 15s"` or `"1 hour 15 seconds"`, and a
//! verified formatter that renders a number of seconds through a template
//! such as `"%H:%M:%S"`.
//!
//! Both halves are pure: the parser turns a string into a whole number of
//! seconds (or an error), and the formatter turns seconds plus a template
//! into a display string. The surrounding program (argument handling, the
//! polling loop that writes the countdown to a file) lives outside this
//! library and only passes plain values through these two functions.

pub mod duration;
pub mod formatter;
pub mod laws;
pub mod parser;

pub use duration::Duration;
pub use duration::ParseError;
