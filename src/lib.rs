//! Constructor functions for freestanding programs.
//!
//! A constructor is a function with no parameters and no return value that
//! must run before the program's real work starts. Registering one places a
//! pointer to it in the `ctors` link section; the linker concatenates the
//! contributions of every module into one contiguous table, bounded by a start
//! and a one-past-end address, and the runtime walks that table once per call
//! of the entry point, invoking each slot in order.
//!
//! The library holds the two decision procedures of that scheme, verified:
//! - [`registration`]: which annotated items are accepted, and the symbols
//!   emitted for an accepted one;
//! - [`section`]: the walk over a section's address range, slot by slot.
//!
//! [`syntax`] connects the first to `syn`'s parser.

pub mod registration;
pub mod section;
pub mod syntax;

