//! Configuration model of a documentation portal: services, their doc
//! sections, and the HTML index rendered from them.
//!
//! - `keys`: key order and vectors kept sorted by key, used as maps.
//! - `svc`: doc sections, services and the configuration.
//! - `html`: escaping and the index fragment.
//! - `cli`: what each configuration subcommand does.
//! - `laws`: laws of adding, removing, looking up and rebuilding.
pub mod cli;
pub mod html;
pub mod keys;
pub mod laws;
pub mod svc;
