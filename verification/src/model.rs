//! The parts of a container's description that several modules share.

use vstd::prelude::*;

verus! {

/// A digest algorithm, as a recorded digest's datatype names it.
#[derive(Debug, Clone, Copy, PartialEq, Eq, Structural)]
pub enum HashAlgorithm {
    /// MD5.
    Md5,
    /// SHA-1.
    Sha1,
    /// SHA-256.
    Sha256,
    /// SHA-512.
    Sha512,
    /// BLAKE2b.
    Blake2b,
    /// BLAKE3.
    Blake3,
    /// A SHA-512 over other digests: the root of an image's hash tree.
    BlockMapSha512,
}

/// The local name an algorithm has in the AFF4 vocabulary.
pub open spec fn algorithm_name(a: HashAlgorithm) -> Seq<char> {
    match a {
        HashAlgorithm::Md5 => "MD5"@,
        HashAlgorithm::Sha1 => "SHA1"@,
        HashAlgorithm::Sha256 => "SHA256"@,
        HashAlgorithm::Sha512 => "SHA512"@,
        HashAlgorithm::Blake2b => "Blake2b"@,
        HashAlgorithm::Blake3 => "BLAKE3"@,
        HashAlgorithm::BlockMapSha512 => "blockMapHashSHA512"@,
    }
}

impl HashAlgorithm {
    /// The local name this algorithm has in the AFF4 vocabulary.
    pub fn name(self) -> (r: &'static str)
        ensures
            r@ == algorithm_name(self),
    {
        match self {
            HashAlgorithm::Md5 => "MD5",
            HashAlgorithm::Sha1 => "SHA1",
            HashAlgorithm::Sha256 => "SHA256",
            HashAlgorithm::Sha512 => "SHA512",
            HashAlgorithm::Blake2b => "Blake2b",
            HashAlgorithm::Blake3 => "BLAKE3",
            HashAlgorithm::BlockMapSha512 => "blockMapHashSHA512",
        }
    }
}

/// What kind of object a resource is, by its most specific type.
#[derive(Debug, Clone, Copy, PartialEq, Eq, Structural)]
pub enum ObjectRole {
    /// A bytestream stored in bevies.
    ImageStream,
    /// An address space assembled from streams.
    MapObject,
    /// A disk image.
    DiskImage,
    /// An image of any other kind.
    Image,
    /// A logical file.
    FileImage,
    /// A logical folder.
    FolderImage,
    /// The per-chunk digests of a stream.
    BlockHashes,
    /// A ZIP volume.
    ZipVolume,
    /// Anything else.
    Other,
}

/// Whether a role is listed among a container's images.
pub open spec fn role_is_image(role: ObjectRole) -> bool {
    role == ObjectRole::DiskImage || role == ObjectRole::Image || role == ObjectRole::FileImage
        || role == ObjectRole::FolderImage
}

impl ObjectRole {
    /// Whether this role is listed among a container's images.
    pub fn is_image(self) -> (r: bool)
        ensures
            r == role_is_image(self),
    {
        match self {
            ObjectRole::DiskImage => true,
            ObjectRole::Image => true,
            ObjectRole::FileImage => true,
            ObjectRole::FolderImage => true,
            _ => false,
        }
    }
}

/// A digest that a container records.
#[derive(Debug)]
pub struct StoredHash {
    /// The algorithm its datatype names.
    pub algorithm: HashAlgorithm,
    /// The recorded value, in hexadecimal.
    pub hex: String,
    /// The local name of the property it was recorded under.
    pub predicate: String,
}

/// What a [`StoredHash`] says, as plain values.
#[verifier::ext_equal]
pub struct StoredHashView {
    /// The algorithm its datatype names.
    pub algorithm: HashAlgorithm,
    /// The recorded value, in hexadecimal.
    pub hex: Seq<char>,
    /// The local name of the property it was recorded under.
    pub predicate: Seq<char>,
}

impl View for StoredHash {
    type V = StoredHashView;

    open spec fn view(&self) -> StoredHashView {
        StoredHashView {
            algorithm: self.algorithm,
            hex: self.hex@,
            predicate: self.predicate@,
        }
    }
}

impl Clone for StoredHash {
    fn clone(&self) -> (r: Self)
        ensures
            r@ == self@,
    {
        StoredHash {
            algorithm: self.algorithm,
            hex: self.hex.clone(),
            predicate: self.predicate.clone(),
        }
    }
}

/// What a list of recorded digests says.
pub open spec fn stored_views(list: Seq<StoredHash>) -> Seq<StoredHashView> {
    Seq::new(list.len(), |i: int| list[i]@)
}

} // verus!
