use vstd::prelude::*;

pub mod text;
pub mod nucleotide;
pub mod domain;
pub mod fasta;
pub mod fastq;
pub mod parsers;
pub mod genbank;
pub mod repository;
pub mod storage;
pub mod application;
pub mod commands;
pub mod dimer;
pub mod hairpin;
pub mod primer;
pub mod stats;

pub use domain::{BaseCount, Range, Topology};

verus! {

} // verus!
