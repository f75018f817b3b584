//! The local names of the AFF4-L lexicon.

use vstd::prelude::*;

verus! {

/// The original unencoded file path and name.
pub const ORIGINAL_FILE_NAME: &'static str = "originalFileName";

/// Birth time of a file's content and metadata.
pub const BIRTH_TIME: &'static str = "birthTime";

/// Last modified time of a file's content.
pub const LAST_WRITTEN: &'static str = "lastWritten";

/// Last modified time of a file's filesystem metadata.
pub const RECORD_CHANGED: &'static str = "recordChanged";

/// Last access time of a file's content.
pub const LAST_ACCESSED: &'static str = "lastAccessed";

/// Class: a suspect file.
pub const FILE_IMAGE: &'static str = "FileImage";

/// Class: a suspect folder.
pub const FOLDER: &'static str = "Folder";

/// Class: a suspect folder, as existing containers spell it.
pub const FOLDER_IMAGE: &'static str = "FolderImage";

/// What a folder contains.
pub const CHILD: &'static str = "child";

/// Class: a logical acquisition.
pub const LOGICAL_ACQUISITION_TASK: &'static str = "LogicalAcquisitionTask";

/// Points to the root of an acquisition.
pub const FILESYSTEM_ROOT: &'static str = "filesystemRoot";

/// The Unix file mode, type bits and permissions, as an integer.
pub const FILE_MODE: &'static str = "fileMode";

/// The separator that the recorded paths of an acquisition use.
pub const PATH_SEPARATOR: &'static str = "pathSeparator";

/// Class: a file's extended attribute.
pub const FILE_EXTENDED_ATTRIBUTE: &'static str = "FileExtendedAttribute";

/// Reaches an extended attribute from its file.
pub const EXTENDED_ATTRIBUTE: &'static str = "extendedAttribute";

/// A substream's name.
pub const NAME: &'static str = "name";

/// Carries a stream's bytes inside the metadata.
pub const DATA_STREAM: &'static str = "dataStream";

/// Class: content stored as a ZIP segment, as the 2019 paper spells it.
pub const ZIP_SEGMENT: &'static str = "zip_segment";

/// The entry's own name.
pub const FILE_NAME: &'static str = "fileName";

/// The entry's full path.
pub const ORIGINAL_PATH_NAME: &'static str = "originalPathName";

/// The entry's own name as read, in base64.
pub const FILE_NAME_RAW: &'static str = "fileNameRaw";

/// The entry's full path as read, in base64.
pub const ORIGINAL_PATH_NAME_RAW: &'static str = "originalPathNameRaw";

/// Class: content stored as a ZIP segment, as v1.0-ALPHA spells it.
pub const ZIP_SEGMENT_V21: &'static str = "ZipSegment";

} // verus!
