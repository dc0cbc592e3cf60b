//! Page-fault event capture pipeline: the fixed-layout event record, the
//! bounded transport that carries records from the probe to the collector,
//! the probe's capture-and-publish step and the collector's drain loop.

pub mod event;
pub mod transport;
pub mod probe;
pub mod collector;
pub mod pipeline;
pub mod sink;
