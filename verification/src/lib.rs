//! Attribution of per-CPU kernel networking cost: classification of sampled
//! kernel stacks, conversion of raw counters into CPU-time fractions, and the
//! metric tree those fractions are published through.

pub mod analyzer;
pub mod breakdown;
pub mod classifier;
pub mod collector;
pub mod counts;
pub mod events;
pub mod exposition;
pub mod kallsyms;
pub mod ksyms;
pub mod logfile;
pub mod metrics;
pub mod probe;
pub mod procstat;
pub mod sizing;
pub mod text;
pub mod transport;
