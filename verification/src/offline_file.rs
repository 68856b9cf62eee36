//! Read access to a closed cache file.

use vstd::prelude::*;
use vstd::slice::slice_subrange;

use crate::bytes::{fnv1a, fnv1a_update, lemma_fnv1a_concat};
use crate::checksum::Crc32c;

verus! {

/// A closed file that nobody writes to while it is being read.
///
/// An implementation holds whatever keeps writers away, such as an exclusive
/// lock, for as long as the value lives. One outside the verified code leaves
/// out the bytes and their reliability; what is reported of such a file is as
/// right as its reads are.
pub trait OfflineFile {
    /// Why a read failed.
    type Error;

    /// The bytes of the file.
    closed spec fn contents(&self) -> Seq<u8> {
        arbitrary()
    }

    /// Reads inside the file never fail.
    closed spec fn reliable(&self) -> bool {
        arbitrary()
    }

    /// The length of the file.
    fn len(&self) -> (length: u64)
        ensures
            length == self.contents().len(),
    ;

    /// Reads `length` bytes at `offset`, all of them or none.
    fn read_exact_at(&self, offset: u64, length: usize) -> (result: Result<Vec<u8>, Self::Error>)
        ensures
            result matches Ok(bytes) ==> {
                &&& offset + length <= self.contents().len()
                &&& bytes@ == self.contents().subrange(offset as int, offset + length)
            },
            self.reliable() && offset + length <= self.contents().len() ==> result is Ok,
    ;
}

/// A read past the end of a file image.
#[derive(Clone, Copy, Debug, PartialEq, Eq, Structural)]
pub struct UnexpectedEnd;

/// A file held in memory.
pub struct FileImage {
    bytes: Vec<u8>,
}

impl FileImage {
    /// An image with the given contents.
    pub fn new(bytes: Vec<u8>) -> (image: FileImage)
        ensures
            image.contents() == bytes@,
            image.reliable(),
    {
        FileImage { bytes }
    }
}

impl OfflineFile for FileImage {
    type Error = UnexpectedEnd;

    closed spec fn contents(&self) -> Seq<u8> {
        self.bytes@
    }

    closed spec fn reliable(&self) -> bool {
        true
    }

    fn len(&self) -> (length: u64) {
        self.bytes.len() as u64
    }

    fn read_exact_at(&self, offset: u64, length: usize) -> (result: Result<Vec<u8>, UnexpectedEnd>)
        ensures
            result is Ok == (offset + length <= self.contents().len()),
    {
        if length > self.bytes.len() || offset > (self.bytes.len() - length) as u64 {
            return Err(UnexpectedEnd);
        }
        let start = offset as usize;
        let mut bytes: Vec<u8> = Vec::new();
        bytes.extend_from_slice(slice_subrange(self.bytes.as_slice(), start, start + length));
        assert(bytes@ =~= self.bytes@.subrange(start as int, start + length));
        Ok(bytes)
    }
}

/// Bytes read at a time while a payload is streamed.
pub const VERIFY_BUFFER_SIZE: usize = 65536;

/// Streams a range of the file into a checksum and, if asked to, into an FNV-1a
/// hash, with a bounded buffer.
pub fn stream_payload<F: OfflineFile>(
    file: &F,
    offset: u64,
    length: u64,
    checksum: &mut Crc32c,
    hash: Option<u64>,
) -> (result: Result<Option<u64>, F::Error>)
    requires
        offset + length <= file.contents().len(),
    ensures
        match result {
            Ok(updated) => {
                let range = file.contents().subrange(offset as int, offset + length);
                &&& final(checksum).bytes() == old(checksum).bytes() + range
                &&& updated == (match hash {
                    Some(start) => Some(fnv1a(start, range)),
                    None => None,
                })
            },
            Err(_) => !file.reliable(),
        },
{
    let ghost range = file.contents().subrange(offset as int, offset + length);
    let file_len = file.len();
    let mut current = hash;
    let mut done: u64 = 0;
    assert(old(checksum).bytes() + range.take(0) =~= old(checksum).bytes());
    while done < length
        invariant
            done <= length,
            offset + length <= file.contents().len(),
            file_len == file.contents().len(),
            range == file.contents().subrange(offset as int, offset + length),
            checksum.bytes() == old(checksum).bytes() + range.take(done as int),
            current == (match hash {
                Some(start) => Some(fnv1a(start, range.take(done as int))),
                None => None,
            }),
        decreases length - done,
    {
        let chunk: usize = if length - done < VERIFY_BUFFER_SIZE as u64 {
            (length - done) as usize
        } else {
            VERIFY_BUFFER_SIZE
        };
        let bytes = match file.read_exact_at(offset + done, chunk) {
            Ok(bytes) => bytes,
            Err(error) => {
                return Err(error);
            },
        };
        proof {
            let before = range.take(done as int);
            assert(range.take(done + chunk) =~= before + bytes@);
            assert(old(checksum).bytes() + range.take(done + chunk) =~= old(checksum).bytes() + before + bytes@);
            if let Some(start) = hash {
                lemma_fnv1a_concat(start, before, bytes@);
            }
        }
        checksum.update(bytes.as_slice());
        if let Some(value) = current {
            current = Some(fnv1a_update(value, bytes.as_slice()));
        }
        done = done + chunk as u64;
    }
    assert(range.take(length as int) =~= range);
    Ok(current)
}

} // verus!
