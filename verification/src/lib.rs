//! A single-threaded cooperative task runtime: futures as explicit poll
//! state machines, a deadline-ordered timer registry, a FIFO executor with
//! spawn / join / select combinators, and a few small companion modules
//! (error conversion, parallel Fibonacci, configuration data).

pub mod config;
pub mod dynamic_errors;
pub mod executor;
pub mod fib;
pub mod future;
pub mod structured_errors;
