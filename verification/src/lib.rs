//! Object model and garbage-collection substrate of a Lisp interpreter.
//!
//! A value is a tagged word ([`object::tagged`]): an integer, a symbol, or
//! a reference to a boxed object ([`object::boxed`]) in a slot of the arena
//! ([`gc::heap`]). The context ([`gc::context`]) owns the arena with all
//! that keeps its objects alive: the scoped roots ([`gc::root`]), the
//! interned symbols and the environment ([`env`]). Its collector
//! ([`gc::collect`]) marks what the roots reach ([`gc::reach`]) and sweeps
//! the rest.
//!
//! A reference is good for as long as its object is alive. The contracts
//! say so: an operation takes values that are valid in the context, and
//! says which values are valid when it is done. After a collection those
//! are the values that the roots reach; whoever keeps a value across an
//! allocation roots it first.
//!
//! On top of this stand structural equality ([`structure`]), lists
//! ([`list`]), copying between arenas ([`copy`]), the primitives
//! ([`data`]), the built-in subroutines as a call reaches them
//! ([`builtin`]), and calling ([`eval`]).
pub mod builtin;
pub mod copy;
pub mod data;
pub mod env;
pub mod error;
pub mod eval;
pub mod gc;
pub mod list;
pub mod object;
pub mod structure;
