//! The other records of the application (user handles, stored files) and
//! their validation rules against the network's properties.
use vstd::prelude::*;
use crate::compose::FileManifest;

verus! {

/// Limits that the network was configured with.
pub struct SnapmailProperties {
    pub min_handle_length: u8,
    pub max_handle_length: u16,
    pub max_chunk_size: usize,
    pub max_file_size: u64,
}

/// Why a record is invalid.
#[derive(PartialEq, Eq, Structural, Clone, Copy, Debug)]
pub enum Invalid {
    UsernameTooShort,
    UsernameTooLong,
    /// A chunk holds more than the maximum, given here in KiB.
    ChunkTooBig { max_chunk_kib: usize },
    /// A file is larger than the maximum, given here in KiB.
    FileTooBig { max_file_kib: u64 },
    EmptyFile,
    NoChunks,
}

/// The username of an agent.
pub struct Handle {
    pub username: String,
}

/// One piece of a stored file.
pub struct FileChunk {
    pub data_hash: String,
    pub chunk_index: usize,
    pub chunk: String,
}

/// Length in bytes of the UTF-8 encoding of `s`.
pub open spec fn byte_len(s: Seq<char>) -> nat {
    vstd::utf8::encode_utf8(s).len()
}

impl Handle {
    pub fn new(name: String) -> (r: Handle)
        ensures
            r.username@ == name@,
    {
        Handle { username: name }
    }

    pub fn empty() -> (r: Handle)
        ensures
            r.username@.len() == 0,
    {
        Handle { username: String::new() }
    }

    pub fn dummy() -> (r: Handle)
        ensures
            r.username@ == "dummy"@,
    {
        Handle { username: String::from_str("dummy") }
    }

    /// The username's byte length must lie within the configured bounds.
    pub fn validate(&self, properties: &SnapmailProperties) -> (r: Result<(), Invalid>)
        ensures
            byte_len(self.username@) < properties.min_handle_length ==> r == Err::<(), Invalid>(
                Invalid::UsernameTooShort,
            ),
            properties.min_handle_length <= byte_len(self.username@) <= properties.max_handle_length
                ==> r is Ok,
            properties.min_handle_length <= byte_len(self.username@) && byte_len(self.username@)
                > properties.max_handle_length ==> r == Err::<(), Invalid>(Invalid::UsernameTooLong),
    {
        let len = self.username.as_str().as_bytes().len();
        if len < properties.min_handle_length as usize {
            return Err(Invalid::UsernameTooShort);
        }
        if len > properties.max_handle_length as usize {
            return Err(Invalid::UsernameTooLong);
        }
        Ok(())
    }
}

impl FileChunk {
    pub fn new(data_hash: String, chunk_index: usize, chunk: String) -> (r: FileChunk)
        ensures
            r.data_hash@ == data_hash@,
            r.chunk_index == chunk_index,
            r.chunk@ == chunk@,
    {
        FileChunk { data_hash, chunk_index, chunk }
    }

    /// A chunk may not exceed the configured size in bytes.
    pub fn validate(&self, properties: &SnapmailProperties) -> (r: Result<(), Invalid>)
        ensures
            byte_len(self.chunk@) > properties.max_chunk_size ==> r == Err::<(), Invalid>(
                Invalid::ChunkTooBig { max_chunk_kib: properties.max_chunk_size / 1024 },
            ),
            byte_len(self.chunk@) <= properties.max_chunk_size ==> r is Ok,
    {
        if self.chunk.as_str().as_bytes().len() > properties.max_chunk_size {
            return Err(Invalid::ChunkTooBig { max_chunk_kib: properties.max_chunk_size / 1024 });
        }
        Ok(())
    }
}

impl FileManifest {
    /// A file must be non-empty, within the configured size, and made of at
    /// least one chunk.
    pub fn validate(&self, properties: &SnapmailProperties) -> (r: Result<(), Invalid>)
        ensures
            self.orig_filesize > properties.max_file_size ==> r == Err::<(), Invalid>(
                Invalid::FileTooBig { max_file_kib: properties.max_file_size / 1024 },
            ),
            self.orig_filesize <= properties.max_file_size && self.orig_filesize < 1 ==> r == Err::<
                (),
                Invalid,
            >(Invalid::EmptyFile),
            1 <= self.orig_filesize <= properties.max_file_size && self.chunks@.len() < 1 ==> r
                == Err::<(), Invalid>(Invalid::NoChunks),
            1 <= self.orig_filesize <= properties.max_file_size && self.chunks@.len() >= 1 ==> r is Ok,
    {
        if self.orig_filesize > properties.max_file_size {
            return Err(Invalid::FileTooBig { max_file_kib: properties.max_file_size / 1024 });
        }
        if self.orig_filesize < 1 {
            return Err(Invalid::EmptyFile);
        }
        if self.chunks.len() < 1 {
            return Err(Invalid::NoChunks);
        }
        Ok(())
    }
}

/// The first manifest of `manifests` whose content hash is `data_hash`.
pub fn find_manifest(manifests: &Vec<FileManifest>, data_hash: &String) -> (r: Option<usize>)
    ensures
        r matches Some(i) ==> i < manifests@.len() && manifests@[i as int].data_hash@ == data_hash@
            && forall|j: int| 0 <= j < i ==> manifests@[j].data_hash@ != data_hash@,
        r is None ==> forall|j: int| 0 <= j < manifests@.len() ==> manifests@[j].data_hash@ != data_hash@,
{
    let mut i: usize = 0;
    while i < manifests.len()
        invariant
            i <= manifests@.len(),
            forall|j: int| 0 <= j < i ==> manifests@[j].data_hash@ != data_hash@,
        decreases manifests@.len() - i,
    {
        if manifests[i].data_hash == *data_hash {
            return Some(i);
        }
        i += 1;
    }
    None
}

} // verus!
