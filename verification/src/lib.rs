//! A verified core for a FASTQ preprocessor: per-record trimming and
//! filtering transforms, paired-end overlap analysis and correction, and the
//! order-preserving pack pipeline that drives them.

pub mod adapter_trimmer;
pub mod bases;
pub mod base_correction;
pub mod matcher;
pub mod overlap;
pub mod pipeline;
pub mod poly;
pub mod compress;
pub mod config;
pub mod fastq;
pub mod laws;
pub mod filter;
pub mod record;
pub mod sliding_window;
pub mod report;
