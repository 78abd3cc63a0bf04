//! Core of a k-mer based taxonomic classifier: an inverted index from k-mer
//! codes to reference sequences, a strand-orientation vote for queries, and the
//! per-query match-count engine, with the run that ties them together; also
//! the two-bit k-mer codec and a FASTA record splitter that feed it.

pub mod count;
pub mod index;
pub mod orientation;
pub mod intersection;
pub mod run;
pub mod codec;
pub mod fasta;
