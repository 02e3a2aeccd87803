//! Byte strings: arguments, paths and environment variables as the operating system sees them.

use vstd::prelude::*;
use vstd::slice::slice_to_vec;

verus! {

/// Anything that can be read as an operating system string.
///
/// Text stands for its UTF-8 encoding; raw bytes stand for themselves.
pub trait AsOsBytes {
    /// The bytes of the string.
    spec fn os_bytes(&self) -> Seq<u8>;

    fn as_os_bytes(&self) -> (bytes: &[u8])
        ensures
            bytes@ == self.os_bytes(),
    ;
}

impl<'a> AsOsBytes for &'a [u8] {
    open spec fn os_bytes(&self) -> Seq<u8> {
        self@
    }

    fn as_os_bytes(&self) -> (bytes: &[u8]) {
        *self
    }
}

impl<'a> AsOsBytes for &'a Vec<u8> {
    open spec fn os_bytes(&self) -> Seq<u8> {
        self@
    }

    fn as_os_bytes(&self) -> (bytes: &[u8]) {
        self.as_slice()
    }
}

impl AsOsBytes for Vec<u8> {
    open spec fn os_bytes(&self) -> Seq<u8> {
        self@
    }

    fn as_os_bytes(&self) -> (bytes: &[u8]) {
        self.as_slice()
    }
}

impl<'a> AsOsBytes for &'a str {
    open spec fn os_bytes(&self) -> Seq<u8> {
        text(self@)
    }

    fn as_os_bytes(&self) -> (bytes: &[u8]) {
        self.as_bytes()
    }
}

impl<'a> AsOsBytes for &'a String {
    open spec fn os_bytes(&self) -> Seq<u8> {
        text(self@)
    }

    fn as_os_bytes(&self) -> (bytes: &[u8]) {
        self.as_str().as_bytes()
    }
}

impl AsOsBytes for String {
    open spec fn os_bytes(&self) -> Seq<u8> {
        text(self@)
    }

    fn as_os_bytes(&self) -> (bytes: &[u8]) {
        self.as_str().as_bytes()
    }
}

/// The bytes of a text.
pub open spec fn text(chars: Seq<char>) -> Seq<u8> {
    vstd::utf8::encode_utf8(chars)
}

/// The contents of a list of byte strings.
pub open spec fn contents(strings: Seq<Vec<u8>>) -> Seq<Seq<u8>> {
    strings.map_values(|s: Vec<u8>| s@)
}

/// Reads an operating system string into a vector of its own.
pub(crate) fn own<T: AsOsBytes>(string: &T) -> (bytes: Vec<u8>)
    ensures
        bytes@ == string.os_bytes(),
{
    slice_to_vec(string.as_os_bytes())
}

/// Copies a list of byte strings.
pub(crate) fn copy_all(strings: &Vec<Vec<u8>>) -> (copy: Vec<Vec<u8>>)
    ensures
        contents(copy@) == contents(strings@),
{
    let mut copy: Vec<Vec<u8>> = Vec::new();
    let mut i: usize = 0;
    while i < strings.len()
        invariant
            i <= strings.len(),
            contents(copy@) == contents(strings@).take(i as int),
        decreases strings.len() - i,
    {
        let ghost before = contents(copy@);
        copy.push(slice_to_vec(strings[i].as_slice()));
        proof {
            assert(contents(copy@) =~= before.push(strings@[i as int]@));
            assert(contents(strings@).take(i + 1) =~= before.push(strings@[i as int]@));
        }
        i = i + 1;
    }
    proof {
        assert(contents(strings@).take(i as int) =~= contents(strings@));
    }
    copy
}

/// Compares two byte strings.
pub(crate) fn same(a: &Vec<u8>, b: &Vec<u8>) -> (equal: bool)
    ensures
        equal == (a@ == b@),
{
    if a.len() != b.len() {
        return false;
    }
    let mut i: usize = 0;
    while i < a.len()
        invariant
            a.len() == b.len(),
            i <= a.len(),
            forall|j: int| 0 <= j < i ==> a@[j] == b@[j],
        decreases a.len() - i,
    {
        if a[i] != b[i] {
            return false;
        }
        i = i + 1;
    }
    proof {
        assert(a@ =~= b@);
    }
    true
}

} // verus!
