//! Containers for secrets: a box for one value and a byte buffer of fixed
//! capacity. Each records whether its memory has been pinned against
//! swapping (the pinning itself is an operating-system call made by the
//! program around this library) and can be destroyed: its secrets are
//! overwritten with zero where they lie, then released, and it holds
//! nothing.

use vstd::prelude::*;

verus! {

/// A box that holds one secret value on the heap until it is destroyed.
pub struct SecureBox<T> {
    value: Option<Box<T>>,
    locked: bool,
}

impl<T> SecureBox<T> {
    /// Whether the box still holds its value.
    pub closed spec fn is_live(&self) -> bool {
        self.value is Some
    }

    /// The value held (meaningful while the box is live).
    pub closed spec fn content(&self) -> T {
        *self.value->Some_0
    }

    /// Whether the box's memory is recorded as pinned.
    pub closed spec fn is_locked(&self) -> bool {
        self.locked
    }

    /// A box holding `value`, not yet pinned. A zero-sized type is refused:
    /// there is no memory to protect.
    pub fn new(value: T) -> (r: Result<SecureBox<T>, String>)
        ensures
            vstd::layout::size_of::<T>() == 0 ==> r is Err && r->Err_0@ == "SecureBox: zero-sized type"@,
            vstd::layout::size_of::<T>() != 0 ==> r is Ok && r->Ok_0.is_live() && r->Ok_0.content()
                == value && !r->Ok_0.is_locked(),
    {
        if core::mem::size_of::<T>() == 0 {
            return Err(String::from_str("SecureBox: zero-sized type"));
        }
        Ok(SecureBox { value: Some(Box::new(value)), locked: false })
    }

    /// Whether the box's memory is recorded as pinned.
    pub fn locked(&self) -> (r: bool)
        ensures
            r == self.is_locked(),
    {
        self.locked
    }

    /// Records whether the caller managed to pin the box's memory.
    pub fn set_locked(&mut self, locked: bool)
        ensures
            final(self).is_locked() == locked,
            final(self).is_live() == old(self).is_live(),
            final(self).content() == old(self).content(),
    {
        self.locked = locked;
    }

    /// Whether the box still holds its value.
    pub fn holds_value(&self) -> (r: bool)
        ensures
            r == self.is_live(),
    {
        self.value.is_some()
    }

    /// The value held.
    pub fn get(&self) -> (r: &T)
        requires
            self.is_live(),
        ensures
            *r == self.content(),
    {
        let b = self.value.as_ref().unwrap();
        &**b
    }

    /// The value held, for changing it in place.
    pub fn get_mut(&mut self) -> (r: &mut T)
        requires
            old(self).is_live(),
        ensures
            *r == old(self).content(),
            final(self).is_live(),
            final(self).content() == *final(r),
            final(self).is_locked() == old(self).is_locked(),
    {
        let b = self.value.as_mut().unwrap();
        &mut **b
    }

}

/// A value whose secrets can be overwritten with zero where they lie.
pub trait Wipe {
    /// Whether the value holds only zeros.
    spec fn is_wiped(&self) -> bool;

    /// Overwrites the value with zeros, in place.
    fn wipe(&mut self)
        ensures
            final(self).is_wiped(),
    ;
}

impl<const N: usize> Wipe for [u8; N] {
    open spec fn is_wiped(&self) -> bool {
        forall|i: int| 0 <= i < N ==> self@[i] == 0
    }

    fn wipe(&mut self) {
        for i in 0..N
            invariant
                self@.len() == N,
                forall|j: int| 0 <= j < i ==> self@[j] == 0,
        {
            self[i] = 0;
        }
    }
}

impl<T: Wipe> SecureBox<T> {
    /// Overwrites the value with zeros, then drops it and releases its
    /// memory; the box is then empty and no longer pinned. Destroying an
    /// empty box does nothing.
    pub fn destroy(&mut self)
        ensures
            !final(self).is_live(),
            old(self).is_live() ==> !final(self).is_locked(),
            !old(self).is_live() ==> final(self).is_locked() == old(self).is_locked(),
    {
        if self.value.is_none() {
            return;
        }
        let v = self.get_mut();
        v.wipe();
        assert(self.content().is_wiped());
        self.value = None;
        self.locked = false;
    }
}

/// A byte buffer of fixed capacity for secrets, zeroed when it is created
/// and again before its memory is released.
pub struct SecureVec {
    buf: Vec<u8>,
    len: usize,
    capacity: usize,
    locked: bool,
}

impl SecureVec {
    /// The buffer's invariant: `len` bytes in use out of `capacity`, all of
    /// which are allocated.
    pub closed spec fn wf(&self) -> bool {
        &&& self.len <= self.capacity
        &&& self.buf@.len() == self.capacity
    }

    /// The bytes in use.
    pub closed spec fn bytes(&self) -> Seq<u8> {
        self.buf@.take(self.len as int)
    }

    /// How many bytes the buffer can hold.
    pub closed spec fn spec_capacity(&self) -> nat {
        self.capacity as nat
    }

    /// Whether the buffer's memory is recorded as pinned.
    pub closed spec fn is_locked(&self) -> bool {
        self.locked
    }

    /// An empty buffer that can hold `capacity` bytes, all zero. A zero
    /// capacity is refused, and so is one that no allocation can have (over
    /// `isize::MAX` once rounded up to a multiple of eight).
    pub fn with_capacity(capacity: usize) -> (r: Result<SecureVec, String>)
        ensures
            capacity == 0 ==> r is Err && r->Err_0@ == "SecureVec: zero capacity"@,
            capacity > isize::MAX - 7 ==> r is Err && r->Err_0@
                == "invalid parameters to Layout::from_size_align"@,
            0 < capacity <= isize::MAX - 7 ==> r is Ok && r->Ok_0.wf() && r->Ok_0.bytes()
                == Seq::<u8>::empty() && r->Ok_0.spec_capacity() == capacity
                && !r->Ok_0.is_locked(),
    {
        if capacity == 0 {
            return Err(String::from_str("SecureVec: zero capacity"));
        }
        if capacity > (isize::MAX as usize) - 7 {
            return Err(String::from_str("invalid parameters to Layout::from_size_align"));
        }
        let buf: Vec<u8> = vec![0u8; capacity];
        let r = SecureVec { buf, len: 0, capacity, locked: false };
        assert(r.bytes() =~= Seq::<u8>::empty());
        Ok(r)
    }

    /// A buffer holding exactly `data`, with capacity for no more. Empty
    /// data is refused, as a zero capacity is.
    pub fn from_bytes(data: &[u8]) -> (r: Result<SecureVec, String>)
        ensures
            data@.len() == 0 ==> r is Err && r->Err_0@ == "SecureVec: zero capacity"@,
            data@.len() > isize::MAX - 7 ==> r is Err && r->Err_0@
                == "invalid parameters to Layout::from_size_align"@,
            0 < data@.len() <= isize::MAX - 7 ==> r is Ok && r->Ok_0.wf() && r->Ok_0.bytes()
                == data@ && r->Ok_0.spec_capacity() == data@.len() && !r->Ok_0.is_locked(),
    {
        let mut v = match SecureVec::with_capacity(data.len()) {
            Ok(v) => v,
            Err(e) => return Err(e),
        };
        assert(v.bytes().len() == v.len);
        for i in 0..data.len()
            invariant
                v.buf@.len() == data@.len(),
                v.capacity == data@.len(),
                v.len == 0,
                !v.locked,
                forall|j: int| 0 <= j < i ==> v.buf@[j] == data@[j],
        {
            v.buf[i] = data[i];
        }
        v.len = data.len();
        assert(v.bytes() =~= data@);
        Ok(v)
    }

    /// The number of bytes in use.
    pub fn len(&self) -> (r: usize)
        requires
            self.wf(),
        ensures
            r == self.bytes().len(),
    {
        self.len
    }

    /// Whether no byte is in use.
    pub fn is_empty(&self) -> (r: bool)
        requires
            self.wf(),
        ensures
            r == (self.bytes().len() == 0),
    {
        self.len() == 0
    }

    /// The bytes in use.
    pub fn as_slice(&self) -> (r: &[u8])
        requires
            self.wf(),
        ensures
            r@ == self.bytes(),
    {
        vstd::slice::slice_subrange(self.buf.as_slice(), 0, self.len)
    }

    /// Appends `data` when it fits in the remaining capacity; otherwise the
    /// buffer is left as it was and the call fails.
    pub fn extend_from_slice(&mut self, data: &[u8]) -> (r: Result<(), String>)
        requires
            old(self).wf(),
            old(self).bytes().len() + data@.len() <= usize::MAX,
        ensures
            final(self).wf(),
            final(self).spec_capacity() == old(self).spec_capacity(),
            final(self).is_locked() == old(self).is_locked(),
            old(self).bytes().len() + data@.len() > old(self).spec_capacity() ==> r is Err
                && r->Err_0@ == "SecureVec: would exceed capacity"@ && final(self).bytes()
                == old(self).bytes(),
            old(self).bytes().len() + data@.len() <= old(self).spec_capacity() ==> r is Ok
                && final(self).bytes() == old(self).bytes() + data@,
    {
        let new_len = self.len + data.len();
        if new_len > self.capacity {
            return Err(String::from_str("SecureVec: would exceed capacity"));
        }
        let start = self.len;
        for i in 0..data.len()
            invariant
                self.wf(),
                self.len == start,
                start + data@.len() <= self.capacity,
                self.capacity == old(self).capacity,
                self.locked == old(self).locked,
                forall|j: int| 0 <= j < start ==> self.buf@[j] == old(self).buf@[j],
                forall|j: int| 0 <= j < i ==> self.buf@[start + j] == data@[j],
        {
            self.buf[start + i] = data[i];
        }
        self.len = new_len;
        assert(self.bytes() =~= old(self).bytes() + data@);
        Ok(())
    }

    /// Whether the buffer's memory is recorded as pinned.
    pub fn locked(&self) -> (r: bool)
        ensures
            r == self.is_locked(),
    {
        self.locked
    }

    /// Records whether the caller managed to pin the buffer's memory.
    pub fn set_locked(&mut self, locked: bool)
        ensures
            final(self).is_locked() == locked,
            final(self).wf() == old(self).wf(),
            final(self).bytes() == old(self).bytes(),
            final(self).spec_capacity() == old(self).spec_capacity(),
    {
        self.locked = locked;
    }

    /// Overwrites every byte of the buffer with zero, then releases it: the
    /// buffer is left empty, with no capacity, and no longer pinned.
    pub fn destroy(&mut self)
        ensures
            final(self).wf(),
            final(self).bytes() == Seq::<u8>::empty(),
            final(self).spec_capacity() == 0,
            !final(self).is_locked(),
    {
        let n = self.buf.len();
        for i in 0..n
            invariant
                self.buf@.len() == n,
                forall|j: int| 0 <= j < i ==> self.buf@[j] == 0u8,
        {
            self.buf[i] = 0u8;
        }
        self.locked = false;
        self.buf = Vec::new();
        self.len = 0;
        self.capacity = 0;
        assert(self.bytes() =~= Seq::<u8>::empty());
    }
}

} // verus!
