//! Dispatcher of service runtimes.
//!
//! A node hosts several runtimes, each of which deploys artifacts and runs service
//! instances made of them. The [`Dispatcher`](dispatcher::Dispatcher) keeps the runtimes and
//! the table that says which runtime each running instance lives in; it hands every request
//! to the runtime it belongs to and keeps the information schema up to date.
//!
//! * [`types`] and [`error`]: identifiers, messages and errors.
//! * [`runtime`]: what a runtime offers, for runtimes to implement.
//! * [`schema`]: the information schema, as a fork of the storage gives access to it.
//! * [`context`] and [`action`]: the setting of a call, and the actions a call may leave behind.
//! * [`dispatcher`]: the dispatcher itself.
//! * [`model`]: the dispatcher's state and its transitions, in mathematical terms.
//! * [`methods`]: which transition each method makes of what it is given.
//! * [`effects`]: what each transition comes to in the runtimes, the schema and the lookup table.
//! * [`laws`]: what holds of the dispatcher over several requests.
//! * [`gathering`]: what holds of the runtimes that it is made with, and of what it gathers from
//!   them.

pub mod action;
pub mod context;
pub mod dispatcher;
pub mod effects;
pub mod error;
pub mod gathering;
pub mod laws;
pub mod methods;
pub mod model;
pub mod runtime;
pub mod schema;
pub mod types;
