//! Writer for the on-disk export format consumed by Pioneer DJ players:
//! the paged `export.pdb` database (little-endian), the per-track ANLZ
//! analysis files (big-endian), and the small auxiliary files beside them.
//!
//! Every byte the library emits is pinned by a specification: each public
//! builder ensures that its output equals a spec-level description of the
//! format, so the layout documented here is the layout that is produced.

pub mod anlz;
pub mod auxiliary;
pub mod bytes;
pub mod config;
pub mod error;
pub mod fingerprint;
pub mod page;
pub mod pdb;
pub mod string;
pub mod subsonic;
pub mod textfmt;
pub mod track;
pub mod validate;

pub use anlz::generate_2ex_file;
pub use anlz::generate_anlz_full_path;
pub use anlz::generate_anlz_path;
pub use anlz::generate_dat_file;
pub use anlz::generate_ext_file;
pub use auxiliary::artwork_folder_path;
pub use auxiliary::artwork_full_name;
pub use auxiliary::artwork_thumbnail_name;
pub use auxiliary::generate_devsetting;
pub use auxiliary::generate_djprofile;
pub use auxiliary::DeviceBackupInfo;
pub use error::Error;
pub use error::Result;
pub use pdb::PdbBuilder;
pub use string::encode_isrc;
pub use string::encode_string;
pub use string::encoded_length;
pub use track::Beat;
pub use track::BeatGrid;
pub use track::CuePoint;
pub use track::CueType;
pub use track::FileType;
pub use track::HotCueColor;
pub use track::Key;
pub use track::TrackAnalysis;
pub use track::Waveform;
pub use track::WaveformColorEntry;
pub use track::WaveformColorPreview;
pub use track::WaveformColorPreviewColumn;
pub use track::WaveformColumn;
pub use track::WaveformDetail;
pub use track::WaveformPreview;
pub use validate::validate_pdb;
pub use validate::PdbStats;
pub use validate::ValidationResult;
