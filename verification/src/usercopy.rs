//! User memory access: pointers and slices into user space that were
//! checked against the current address space before use.
//!
//! The check itself reads the live page tables and is made by the caller;
//! these types record its outcome and bound every later access by it.
use vstd::prelude::*;
use crate::error::{KernelError, KernelResult};

verus! {

/// The kind of access a user buffer is checked for.
#[derive(Debug, Clone, Copy, PartialEq, Eq, Structural)]
pub enum Access {
    Read,
    Write,
}

/// A user-space pointer to a buffer of `T`s whose range passed the access
/// check.
pub struct UserPtr<T> {
    addr: u64,
    _marker: core::marker::PhantomData<T>,
}

impl<T> UserPtr<T> {
    pub closed spec fn spec_addr(&self) -> u64 {
        self.addr
    }

    /// Wrap the user address `addr` once the access check on its range has
    /// been made: `access_ok` is that check's outcome. A failed check gives
    /// `InvalidAddress`.
    pub fn new(addr: u64, access_ok: bool) -> (r: KernelResult<Self>)
        ensures
            access_ok ==> (r matches Ok(p) && p.spec_addr() == addr),
            !access_ok ==> r == Err::<Self, KernelError>(KernelError::InvalidAddress),
    {
        if !access_ok {
            return Err(KernelError::InvalidAddress);
        }
        Ok(UserPtr { addr, _marker: core::marker::PhantomData })
    }

    /// The checked user address.
    pub fn addr(&self) -> (r: u64)
        ensures
            r == self.spec_addr(),
    {
        self.addr
    }
}

/// A user-space byte buffer whose range passed the read check.
pub struct UserSlice {
    addr: u64,
    len: usize,
}

impl UserSlice {
    pub closed spec fn spec_addr(&self) -> u64 {
        self.addr
    }

    pub closed spec fn spec_len(&self) -> usize {
        self.len
    }

    /// Wrap the user range `addr .. addr + len` once its read check has been
    /// made: `access_ok` is that check's outcome. A failed check gives
    /// `InvalidAddress`.
    pub fn read(addr: u64, len: usize, access_ok: bool) -> (r: KernelResult<Self>)
        ensures
            access_ok ==> (r matches Ok(s) && s.spec_addr() == addr && s.spec_len() == len),
            !access_ok ==> r == Err::<Self, KernelError>(KernelError::InvalidAddress),
    {
        if !access_ok {
            return Err(KernelError::InvalidAddress);
        }
        Ok(UserSlice { addr, len })
    }

    /// The checked user address.
    pub fn addr(&self) -> (r: u64)
        ensures
            r == self.spec_addr(),
    {
        self.addr
    }

    pub fn len(&self) -> (r: usize)
        ensures
            r == self.spec_len(),
    {
        self.len
    }

    pub fn is_empty(&self) -> (r: bool)
        ensures
            r == (self.spec_len() == 0),
    {
        self.len == 0
    }

    /// The byte at offset `idx`, read from `user`, the buffer's contents.
    /// An offset past the end gives `InvalidAddress`.
    pub fn read_byte(&self, idx: usize, user: &[u8]) -> (r: KernelResult<u8>)
        requires
            user@.len() == self.spec_len(),
        ensures
            idx < self.spec_len() ==> r == Ok::<u8, KernelError>(user@[idx as int]),
            idx >= self.spec_len() ==> r == Err::<u8, KernelError>(KernelError::InvalidAddress),
    {
        if idx >= self.len {
            return Err(KernelError::InvalidAddress);
        }
        Ok(user[idx])
    }

    /// Copy the buffer's contents `user` into the front of `dest`. A `dest`
    /// shorter than the buffer gives `InvalidAddress` and is left unchanged;
    /// bytes of `dest` past the buffer's length are never touched.
    pub fn copy_to_kernel(&self, user: &[u8], dest: &mut [u8]) -> (r: KernelResult<()>)
        requires
            user@.len() == self.spec_len(),
        ensures
            old(dest)@.len() < self.spec_len() ==> r == Err::<(), KernelError>(
                KernelError::InvalidAddress,
            ) && final(dest)@ == old(dest)@,
            old(dest)@.len() >= self.spec_len() ==> r == Ok::<(), KernelError>(()) && final(dest)@
                == user@ + old(dest)@.subrange(self.spec_len() as int, old(dest)@.len() as int),
    {
        if dest.len() < self.len {
            return Err(KernelError::InvalidAddress);
        }
        let mut i: usize = 0;
        while i < self.len
            invariant
                user@.len() == self.len,
                self.len <= dest@.len(),
                dest@.len() == old(dest)@.len(),
                i <= self.len,
                forall|k: int| 0 <= k < i ==> dest@[k] == user@[k],
                forall|k: int| self.len <= k < dest@.len() ==> dest@[k] == old(dest)@[k],
            decreases self.len - i,
        {
            dest[i] = user[i];
            i = i + 1;
        }
        assert(dest@ =~= user@ + old(dest)@.subrange(self.len as int, old(dest)@.len() as int));
        Ok(())
    }
}

} // verus!
