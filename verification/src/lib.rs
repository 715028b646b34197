pub mod accessors;
pub mod cli;
pub mod dns;
pub mod flatten;
pub mod maps;
pub mod net;
pub mod pkl;
pub mod seqs;
pub mod sorted;
pub mod strs;
pub mod text;
pub mod topology;
pub mod trust;
pub mod validate;
