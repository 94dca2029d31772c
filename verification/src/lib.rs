//! Reconciliation engine for COCO-format annotated-image dataset descriptions.
//!
//! The crate merges any number of independently authored dataset description
//! files into one consistent dataset: structurally identical categories and
//! licenses are collapsed to a single canonical entry, image id collisions are
//! resolved by dropping or reassigning, and annotation ids (panoptic segment
//! ids included) are kept unique in one shared namespace.  Every reference
//! between entities in the merged output is guaranteed to resolve.
//!
//! [`merge::merge_coco_files`] is the entry point; it is specified exactly by
//! [`merge::spec_merge`], and [`laws`] states and proves what that
//! specification guarantees.

pub mod classify;
pub mod conv;
pub mod idmap;
pub mod laws;
pub mod merge;
pub mod model;
pub mod path;
