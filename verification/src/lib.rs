//! Building blocks of a telemetry relay.
//!
//! The core is [`partition`]: grouping a list of metric buckets by a routing
//! key, in place, and handing out each group as a view into one shared
//! buffer. [`permutation`] moves the buckets, [`order`] says how keys
//! compare, and [`view`] holds the views.
//!
//! Around it stand the rules that the relay applies to what passes through:
//! [`sample`] checks and cleans profiles, [`defaults`] adds the metric
//! extraction that every project gets, [`traits`] and [`value`] describe the
//! structures of the protocol, [`statsd`] names the counters of the
//! allocator, and [`harness`] writes the addresses and headers that tests
//! reach a relay with.

pub mod defaults;
pub mod harness;
pub mod order;
pub mod partition;
pub mod permutation;
pub mod sample;
pub mod statsd;
pub mod text;
pub mod traits;
pub mod value;
pub mod view;
