//! An in-memory gazetteer index: place names from GeoNames-style tab-separated
//! files, gathered into a sorted term index over a finite-state transducer, and
//! searched by exact name, prefix, subsequence, edit distance or regular
//! expression.
pub mod data;
pub mod error;
pub mod order;
pub mod outside;
pub mod ingest;
pub mod index;
pub mod search;
pub mod routes;
pub mod duui;
