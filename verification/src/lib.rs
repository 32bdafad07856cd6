//! Editing of Python wheel archives: descriptor codecs, record keeping,
//! integrity validation and repacking, with machine-checked contracts.

pub mod archive;
pub mod decimal;
pub mod editor;
pub mod elf;
pub mod elf_layout;
pub mod error;
pub mod folding_laws;
pub mod hash;
pub mod header_laws;
pub mod headers;
pub mod metadata;
pub mod metadata_laws;
pub mod name;
pub mod reader;
pub mod record;
pub mod record_laws;
pub mod repack_laws;
pub mod text;
pub mod validator;
pub mod wheel_info;
pub mod wheel_info_laws;
pub mod writer;

pub use archive::ArchiveWriter;
pub use editor::WheelEditor;
pub use elf::ElfInfo;
pub use elf::ElfModification;
pub use error::ElfError;
pub use error::MetadataError;
pub use error::RecordError;
pub use error::ValidationError;
pub use error::ValidationResult;
pub use error::WheelError;
pub use error::WheelInfoError;
pub use hash::hash_content;
pub use hash::StreamHasher;
pub use metadata::FieldValue;
pub use metadata::Metadata;
pub use name::dist_info_name;
pub use name::normalize_dist_info_name;
pub use reader::WheelReader;
pub use record::Record;
pub use record::RecordEntry;
pub use validator::validate_wheel;
pub use wheel_info::WheelInfo;
pub use wheel_info::WheelTag;
pub use writer::write_modified;
pub use writer::write_modified_extended;
