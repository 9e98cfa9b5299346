//! Verified core of a read-only database-metadata service.
//!
//! The service answers two catalog queries: a list of databases matching a
//! name pattern (optionally omitting templates) and a list of schemas
//! matching a name pattern, sorted by schema name.  This crate holds the
//! logic of those answers — SQL `LIKE` pattern matching, default-argument
//! resolution, template filtering and name ordering — each function with a
//! proved contract.  The surrounding process (connection pool, SQL fetch,
//! GraphQL wiring, HTTP) feeds rows in and serves the results out.

pub mod db;
pub mod like;
pub mod order;
pub mod schema;
pub mod sdl;
