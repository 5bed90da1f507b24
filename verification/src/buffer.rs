//! The code buffer, and the record of the memory that code is loaded into.
//!
//! The library asks for no memory itself. It says how much is needed for a
//! buffer of code, and keeps the record of what its user has mapped.

use vstd::prelude::*;

verus! {

/// What can be rendered as machine code.
pub trait Bytecode {
    /// The bytes that stand for the value.
    fn encode(&self) -> Vec<u8>;
}

/// A backend that can be told to trace what it emits.
pub trait DebugMod {
    /// Switches tracing on or off.
    fn debug_mod(&mut self, debug_mod: bool);
}

/// A code buffer: bytes are appended to it and never changed.
#[derive(Debug, PartialEq, Eq)]
pub struct Asm {
    bytes: Vec<u8>,
}

impl Clone for Asm {
    fn clone(&self) -> (copy: Self)
        ensures
            copy@ == self@,
    {
        Asm { bytes: self.bytes.clone() }
    }
}

impl View for Asm {
    type V = Seq<u8>;

    closed spec fn view(&self) -> Seq<u8> {
        self.bytes@
    }
}

impl Asm {
    /// An empty buffer.
    pub fn new() -> (buffer: Asm)
        ensures
            buffer@ == Seq::<u8>::empty(),
    {
        Asm { bytes: Vec::with_capacity(64) }
    }

    /// Appends `code`.
    pub fn put(&mut self, code: &[u8])
        ensures
            final(self)@ == old(self)@ + code@,
    {
        self.bytes.extend_from_slice(code);
    }

    /// The bytes appended so far.
    pub fn buffer(&self) -> (bytes: &[u8])
        ensures
            bytes@ == self@,
    {
        self.bytes.as_slice()
    }

    /// The number of bytes that a mapping must hold to take the code. There
    /// is nothing to load from an empty buffer.
    pub fn prepare(&self) -> (r: Result<usize, AllocError>)
        ensures
            r == (if self@.len() == 0 {
                Err::<usize, AllocError>(AllocError::EmptyBuffer)
            } else {
                Ok::<usize, AllocError>(self@.len() as usize)
            }),
    {
        if self.bytes.is_empty() {
            Err(AllocError::EmptyBuffer)
        } else {
            Ok(self.bytes.len())
        }
    }
}

impl Bytecode for Asm {
    /// A copy of the bytes appended so far.
    fn encode(&self) -> (bytes: Vec<u8>)
        ensures
            bytes@ == self@,
    {
        self.bytes.clone()
    }
}

/// Why code cannot be loaded.
#[derive(Debug, PartialEq, Eq, Clone, Copy, Hash, Structural)]
pub enum AllocError {
    /// There is no code.
    EmptyBuffer,
    /// No memory was granted.
    MapFailed,
}

/// The record of a mapping that holds loaded code: where it lies and how
/// many bytes it holds. A record is made once for a mapping and cannot be
/// copied, so that its owner is the one to release the mapping.
#[derive(Debug, PartialEq, Eq)]
pub struct Elf {
    func: usize,
    size: usize,
}

impl Elf {
    /// The address at which the mapping lies.
    pub closed spec fn spec_addr(&self) -> usize {
        self.func
    }

    /// The number of bytes that the mapping holds.
    pub closed spec fn spec_len(&self) -> usize {
        self.size
    }

    /// Every record is of a mapping that lies somewhere and is not empty.
    #[verifier::type_invariant]
    pub closed spec fn well_formed(&self) -> bool {
        self.func != 0 && self.func != usize::MAX && self.size > 0
    }

    /// A record is of a mapping that lies somewhere and is not empty.
    pub proof fn lemma_mapped(&self)
        requires
            self.well_formed(),
        ensures
            self.spec_addr() != 0,
            self.spec_addr() != usize::MAX,
            self.spec_len() > 0,
    {
    }

    /// Records a mapping of `size` bytes that was answered with the address
    /// `addr`. There is no mapping of no bytes; and the request has failed
    /// where the address is zero or has all bits set, which is what the
    /// system answers in place of an address.
    pub fn mapped(addr: usize, size: usize) -> (r: Result<Elf, AllocError>)
        ensures
            size == 0 ==> r == Err::<Elf, AllocError>(AllocError::EmptyBuffer),
            size != 0 && (addr == 0 || addr == usize::MAX) ==> r == Err::<Elf, AllocError>(
                AllocError::MapFailed,
            ),
            size != 0 && addr != 0 && addr != usize::MAX ==> (r matches Ok(elf) && elf.spec_addr()
                == addr && elf.spec_len() == size),
    {
        if size == 0 {
            Err(AllocError::EmptyBuffer)
        } else if addr == 0 || addr == usize::MAX {
            Err(AllocError::MapFailed)
        } else {
            Ok(Elf { func: addr, size })
        }
    }

    /// The address at which the mapping lies.
    pub fn addr(&self) -> (addr: usize)
        ensures
            addr == self.spec_addr(),
    {
        self.func
    }

    /// The number of bytes that the mapping holds.
    pub fn len(&self) -> (len: usize)
        ensures
            len == self.spec_len(),
    {
        self.size
    }
}

} // verus!
