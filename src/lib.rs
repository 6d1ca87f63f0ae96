//! Countdown timers driven by free-form duration text.
//!
//! The library reads expressions such as `"1h 30m"`, `"5:30pm"` or
//! `"(10m + 45) * 3"`, turns them into durations or into a lazy sequence of
//! duration literals, and runs a chain of countdown timers from them.
//! Every function takes the current time as a plain value, so the whole
//! state machine is deterministic and verified.

pub mod clock;
pub mod duration;
pub mod error;
pub mod event;
pub mod laws;
pub mod lexer;
pub mod multi;
pub mod multi_timer;
pub mod number;
pub mod sequence;
pub mod single;
pub mod snapshot;
pub mod text;
pub mod timer;
pub mod timer_list;
pub mod token;
pub mod units;

pub use lexer::Group as UnparsedToken;
pub use lexer::GroupKind as UnparsedTokenType;
