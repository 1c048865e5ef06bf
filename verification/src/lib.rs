//! State and decisions behind a small gallery of interactive widgets: click
//! counters, a list of counters that grows and shrinks, text fields, a numeric
//! input that reports why a text is not a number, and the notices shown while
//! background work is pending.
//!
//! Nothing here renders, listens or waits. Each type holds what a widget
//! shows, each function says what an event makes of it, and whoever embeds
//! them in a user interface does the rest.

pub mod counter;
pub mod dyn_list;
pub mod form;
pub mod numeric;
pub mod remote;
