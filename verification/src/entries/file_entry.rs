use vstd::prelude::*;

verus! {

/// A `File` table of the manifest's flatbuffer as read: scalar fields hold
/// their value (or the schema's default), and the string and vector fields
/// are `None` where the table leaves them out.
#[derive(Debug, Default, Clone, PartialEq, Eq)]
pub struct FileTable {
    /// Id of the file entry.
    pub id: u64,
    /// Id of the directory entry to which it belongs.
    pub directory_id: u64,
    /// Size of the file entry in bytes.
    pub size: u32,
    /// Name of the file entry, where present.
    pub name: Option<String>,
    /// Applicable languages, as a bit mask.
    pub language_mask: u64,
    /// Field of unknown use.
    pub unk5: u8,
    /// Field of unknown use.
    pub unk6: u8,
    /// Ids of the chunks that make up the file, where present.
    pub chunk_ids: Option<Vec<u64>>,
    /// Field of unknown use.
    pub unk8: u8,
    /// Symbolic link of the file entry, where present.
    pub symlink: Option<String>,
    /// Field of unknown use.
    pub unk10: u16,
    /// Id of the param entry, which describes content-defined chunking.
    pub param_id: u8,
    /// Permissions of the file entry.
    pub permissions: u8,
}

/// Single file entry object.
///
/// This is identical to the `File` table of the manifest schema and exists to
/// provide a persistent structure for the file entry.
#[derive(Debug, Default, Clone, PartialEq, Eq)]
pub struct FileEntry {
    /// Id of the file entry.
    pub id: u64,
    /// Id of the directory entry, to which it belongs.
    pub directory_id: u64,
    /// Size of the file entry in bytes.
    pub size: u32,
    /// Name of the file entry.
    pub name: String,
    /// Applicable languages, stored as a bit mask.
    pub language_mask: u64,
    /// Field with an unknown function and type (it might also be an [`i8`]).
    pub unk5: u8,
    /// Field with an unknown function and type (it might also be an [`i8`]).
    pub unk6: u8,
    /// A vector of chunk ids that make up the file.
    pub chunk_ids: Vec<u64>,
    /// Field with an unknown function and type (it might also be an [`i8`]).
    ///
    /// NOTE: seems to always be 1 when a part of `.app` file on macOS.
    pub unk8: u8,
    /// Symbolic link of the file entry.
    pub symlink: String,
    /// Field with an unknown function and type (it might also be an [`i16`]).
    pub unk10: u16,
    /// Id of the param entry, which provides info about content-defined chunking.
    pub param_id: u8,
    /// Permissions for the given file entry.
    pub permissions: u8,
}

/// The text of an optional string field: the empty text where it is absent.
pub open spec fn text_or_empty(s: Option<String>) -> Seq<char> {
    match s {
        Some(s) => s@,
        None => Seq::empty(),
    }
}

/// The items of an optional vector field: none where it is absent.
pub open spec fn items_or_empty(v: Option<Vec<u64>>) -> Seq<u64> {
    match v {
        Some(v) => v@,
        None => Seq::empty(),
    }
}

impl FileEntry {
    /// The entry for the table `file`: every field carries over, and the
    /// absent name, symlink and chunk ids become empty.
    pub fn from(file: FileTable) -> (entry: FileEntry)
        ensures
            entry.id == file.id,
            entry.directory_id == file.directory_id,
            entry.size == file.size,
            entry.name@ == text_or_empty(file.name),
            entry.language_mask == file.language_mask,
            entry.unk5 == file.unk5,
            entry.unk6 == file.unk6,
            entry.chunk_ids@ == items_or_empty(file.chunk_ids),
            entry.unk8 == file.unk8,
            entry.symlink@ == text_or_empty(file.symlink),
            entry.unk10 == file.unk10,
            entry.param_id == file.param_id,
            entry.permissions == file.permissions,
    {
        let name = match file.name {
            Some(name) => name,
            None => String::new(),
        };
        let chunk_ids = match file.chunk_ids {
            Some(chunk_ids) => chunk_ids,
            None => Vec::new(),
        };
        let symlink = match file.symlink {
            Some(symlink) => symlink,
            None => String::new(),
        };
        FileEntry {
            id: file.id,
            directory_id: file.directory_id,
            size: file.size,
            name,
            language_mask: file.language_mask,
            unk5: file.unk5,
            unk6: file.unk6,
            chunk_ids,
            unk8: file.unk8,
            symlink,
            unk10: file.unk10,
            param_id: file.param_id,
            permissions: file.permissions,
        }
    }
}

} // verus!
