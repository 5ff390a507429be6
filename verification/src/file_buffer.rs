//! The loaded file: bytes read onto the heap, or a read-only memory map.
//!
//! Opening the file is I/O and happens outside this library; here are the
//! choice of strategy and uniform access to the bytes.

use memmap2::Mmap;
use vstd::prelude::*;

verus! {

/// `memmap2::Mmap`, a read-only memory map of a file.
#[verifier::external_type_specification]
#[verifier::external_body]
pub struct ExMmap(Mmap);

/// The bytes a memory map holds, as a collection of bytes. A map's contents
/// are fixed for as long as it exists only because `memmap2` makes the
/// creator of a file-backed map promise it: its constructors are `unsafe`,
/// and its documentation (`MmapOptions`, section Safety) says that using a map
/// whose file is modified afterwards, in or out of process, is undefined
/// behaviour. The viewer makes that promise where it maps a file; a map whose
/// file changes breaks it, and with it every statement about the bytes.
pub uninterp spec fn mapped_bytes(m: Mmap) -> Seq<u8>;

/// Dereferences a `memmap2::Mmap` to its byte slice (`<Mmap as Deref>::deref`);
/// the contract ties the slice to the map's named contents.
#[verifier::external_body]
fn mapped_slice(m: &Mmap) -> (r: &[u8])
    ensures
        r@ == mapped_bytes(*m),
{
    &m[..]
}

/// Files of this size or larger are memory-mapped (1 MiB).
pub const MMAP_THRESHOLD: u64 = 1048576;

/// How a file of a given size is loaded.
#[derive(Clone, Copy, PartialEq, Eq, Structural, Debug)]
pub enum LoadStrategy {
    /// An empty file: no read at all.
    Empty,
    /// Read the whole file onto the heap.
    Read,
    /// Map the file into memory.
    MapFile,
}

/// The loading strategy for a file of `len` bytes: nothing for an empty file,
/// a memory map from 1 MiB on, a plain read below.
pub fn load_strategy(len: u64) -> (s: LoadStrategy)
    ensures
        len == 0 ==> s == LoadStrategy::Empty,
        0 < len < MMAP_THRESHOLD ==> s == LoadStrategy::Read,
        len >= MMAP_THRESHOLD ==> s == LoadStrategy::MapFile,
{
    if len == 0 {
        LoadStrategy::Empty
    } else if len >= MMAP_THRESHOLD {
        LoadStrategy::MapFile
    } else {
        LoadStrategy::Read
    }
}

/// A read-only buffer holding the file's bytes.
pub enum FileBuffer {
    /// Bytes read onto the heap (small files).
    Vec(Vec<u8>),
    /// A memory-mapped file (large files).
    Mmap(Mmap),
}

impl View for FileBuffer {
    type V = Seq<u8>;

    open spec fn view(&self) -> Seq<u8> {
        match self {
            FileBuffer::Vec(v) => v@,
            FileBuffer::Mmap(m) => mapped_bytes(*m),
        }
    }
}

impl FileBuffer {
    /// The file contents.
    pub fn data(&self) -> (r: &[u8])
        ensures
            r@ == self@,
    {
        match self {
            FileBuffer::Vec(v) => v.as_slice(),
            FileBuffer::Mmap(m) => mapped_slice(m),
        }
    }

    /// The file size in bytes.
    pub fn len(&self) -> (n: usize)
        ensures
            n == self@.len(),
    {
        self.data().len()
    }

    /// Whether the file is empty.
    pub fn is_empty(&self) -> (b: bool)
        ensures
            b == (self@.len() == 0),
    {
        self.len() == 0
    }
}

} // verus!
