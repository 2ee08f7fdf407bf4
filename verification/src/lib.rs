//! A bridge between natively compiled subgraph mappings and an indexing host
//! that expects modules laid out by a managed, garbage-collected toolchain.
//!
//! The library models the linear memory of a module as a value and states,
//! as verified contracts, the three conventions that the host relies on.
//!
//! The managed-object protocol:
//!
//! * `memory`: linear memory, little-endian reads and writes, the heap
//!   cursor;
//! * `allocator`: the bump allocator, which puts a 20-byte header before
//!   every object and never moves the cursor back.
//!
//! The wire encoding of values:
//!
//! * `asc`: wire pointers, strings as UTF-16LE, byte buffers;
//! * `shapes`: arrays (a header object and a separate buffer) and tagged
//!   variants;
//! * `types`, `value`: the native values, of which the arbitrary-precision
//!   numbers are handles that the host owns;
//! * `store`: store values and entities (typed maps);
//! * `ethereum`: chain records and chain values;
//! * `data_source`, `log`, `crypto`, `ipfs`: what is written for the other
//!   requests to the host.
//!
//! Every writer states the exact layout of what it wrote (`is_...`), every
//! reader what it reads (`..._dec`) from what memory (`..._ok`), and the
//! round-trip lemmas connect the two.
//!
//! The module contract:
//!
//! * `host`: the imports, all from the namespace `env`; a call to the host
//!   is a value (`HostCall`) that the embedding carries out;
//! * `contract`: the exports with their signatures, the names of the
//!   handler exports, and the check of a module against the contract;
//! * `wasm`: the surface of a compiled module, read with `walrus`.
//!
//! Around these:
//!
//! * `testing`: a store and chain records for testing handlers;
//! * `deploy`, `yaml`: what the deployment of a subgraph decides;
//! * `prelude`: what a mapping needs in scope.

pub mod allocator;
pub mod asc;
pub mod contract;
pub mod crypto;
pub mod data_source;
pub mod deploy;
pub mod ethereum;
pub mod host;
pub mod ipfs;
pub mod log;
pub mod memory;
pub mod prelude;
pub mod shapes;
pub mod store;
pub mod testing;
pub mod types;
pub mod value;
pub mod wasm;
pub mod yaml;
