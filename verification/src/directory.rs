//! Which receive buffer belongs to which connection.
//!
//! A close completion carries only the connection handle. The directory is
//! where the reactor finds the buffer that has to be freed with it.

use std::collections::HashMap;
use vstd::prelude::*;
use crate::op::Fd;

verus! {

broadcast use vstd::std_specs::hash::group_hash_axioms;

/// A map from live connection handles to the index of the buffer each one
/// currently owns. A connection has at most one binding.
pub struct Directory {
    bindings: HashMap<Fd, u16>,
}

impl View for Directory {
    type V = Map<Fd, u16>;

    /// The bindings: connection handle to buffer index.
    closed spec fn view(&self) -> Map<Fd, u16> {
        self.bindings@
    }
}

impl Directory {
    /// An empty directory.
    pub fn new() -> (directory: Directory)
        ensures
            directory@ == Map::<Fd, u16>::empty(),
    {
        Directory { bindings: HashMap::new() }
    }

    /// The directory never holds infinitely many bindings.
    pub proof fn lemma_finite(&self)
        ensures
            self@.dom().finite(),
    {
    }

    /// Number of bound connections.
    pub fn len(&self) -> (n: usize)
        ensures
            n == self@.len(),
    {
        self.bindings.len()
    }

    /// The buffer bound to a connection, if any.
    pub fn get(&self, fd: Fd) -> (r: Option<u16>)
        ensures
            r == (if self@.contains_key(fd) {
                Some(self@[fd])
            } else {
                None
            }),
    {
        match self.bindings.get(&fd) {
            Some(index) => Some(*index),
            None => None,
        }
    }

    /// Binds a connection to a buffer, replacing any binding it had. Returns
    /// the index that was replaced, so that the caller can free it.
    pub fn bind(&mut self, fd: Fd, index: u16) -> (prior: Option<u16>)
        ensures
            final(self)@ == old(self)@.insert(fd, index),
            prior == (if old(self)@.contains_key(fd) {
                Some(old(self)@[fd])
            } else {
                None
            }),
    {
        self.bindings.insert(fd, index)
    }

    /// Removes and returns a connection's binding. A connection that was
    /// never bound, or whose binding was taken before, yields `None` and
    /// leaves the directory as it was.
    pub fn take(&mut self, fd: Fd) -> (r: Option<u16>)
        ensures
            final(self)@ == old(self)@.remove(fd),
            r == (if old(self)@.contains_key(fd) {
                Some(old(self)@[fd])
            } else {
                None
            }),
    {
        self.bindings.remove(&fd)
    }
}

} // verus!
