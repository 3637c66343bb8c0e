//! Catalogue and pixel normalisation for a browsable store of DICOM files.
//!
//! The crate holds the rules of a small DICOM viewer: how decoded pixel
//! buffers become 8-bit display buffers, how the files of a store fold into
//! a patient, study and series tree, which request paths stay inside the
//! store, and how a directory listing is ordered. Reading files, serving
//! HTTP and painting a canvas are left to the program around it.

pub mod access;
pub mod catalog;
pub mod dataset;
pub mod keyed;
pub mod listing;
pub mod pixel;
pub mod surface;
pub mod text;
