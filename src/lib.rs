// Conversion of scanned documents to Markdown through a remote recognition
// service: size-based chunking, per-chunk normalisation of the recognised pages,
// and ordered merging of the partial results.
pub mod chunking;
pub mod config;
pub mod i18n;
pub mod merge;
pub mod normalize;
pub mod provider;
pub mod run;
pub mod text;
