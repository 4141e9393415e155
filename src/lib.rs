//! A live FASTQ viewer's core: quality scoring, record layout, the header
//! banner and the producer's state machine.
pub mod quality;
pub mod text;
pub mod layout;
pub mod header;
pub mod cli;
pub mod pipeline;
