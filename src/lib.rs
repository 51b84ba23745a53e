//! Deck portability: the block model, the export packager and the import
//! unpacker of a flashcard collection, with their contracts.
pub mod model;
pub mod paths;
pub mod pathmap;
pub mod pick;
pub mod tags;
pub mod archive;
pub mod error;
pub mod export;
pub mod import;
pub mod laws;
pub mod listing;
