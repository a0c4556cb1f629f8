//! Thread lifecycle: creation checks, futex wait queues, state queries and
//! stop decisions.

pub mod create;
pub mod futex;
pub mod state;
pub mod stop;
