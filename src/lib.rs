//! Indexing of rhythm-game song folders: parsing of the `info.dat`
//! declaration, content hashing, the catalog-id cache, the catalog
//! response reader, canonical folder names and the scan bookkeeping.
pub mod action;
pub mod cache;
pub mod catalog;
pub mod digest;
pub mod json;
pub mod naming;
pub mod pool;
pub mod scan;
pub mod song;
pub mod text;

pub use action::Action;
pub use cache::{IdCache, UNRESOLVED_ID};
pub use scan::{collect_scan, sort_by_name, FolderOutcome, ScanReport, SongLoad};
pub use song::{BeatmapCharacteristic, Declaration, DifficultyBeatmap, DifficultyBeatmapSet, Song};
