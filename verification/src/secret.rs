//! Wiping of secrets.

use vstd::prelude::*;
use zeroize::Zeroize;

verus! {

/// Zeros in the place of `length` bytes.
pub open spec fn zeros(length: nat) -> Seq<u8> {
    Seq::new(length, |i: int| 0u8)
}

/// `zeroize::Zeroize::zeroize` of `String`.
///
/// Claimed: the text is empty afterwards. That the memory it occupied holds
/// zeros is what the call is for; no contract here can speak of it.
#[verifier::external_body]
pub(crate) fn wipe(text: &mut String)
    ensures
        final(text)@ == Seq::<char>::empty(),
    opens_invariants none
    no_unwind
{
    text.zeroize();
}

/// `zeroize::Zeroize::zeroize` of an array of bytes.
///
/// Claimed: every byte is 0 afterwards.
#[verifier::external_body]
pub(crate) fn wipe_bytes<const N: usize>(bytes: &mut [u8; N])
    ensures
        final(bytes)@ == zeros(N as nat),
    opens_invariants none
    no_unwind
{
    bytes.zeroize();
}

/// `zeroize::Zeroize::zeroize` of `Vec<u8>`.
///
/// Claimed: the vector is empty afterwards. That the memory it occupied holds
/// zeros is what the call is for; no contract here can speak of it.
#[verifier::external_body]
pub(crate) fn wipe_vec(bytes: &mut Vec<u8>)
    ensures
        final(bytes)@ == Seq::<u8>::empty(),
    opens_invariants none
    no_unwind
{
    bytes.zeroize();
}

/// A text that is wiped when it is dropped.
pub struct Secret {
    text: String,
}

impl View for Secret {
    type V = Seq<char>;

    closed spec fn view(&self) -> Seq<char> {
        self.text@
    }
}

impl Secret {
    /// A secret with the given text.
    pub fn new(text: &str) -> (secret: Self)
        ensures
            secret@ == text@,
    {
        Secret { text: String::from_str(text) }
    }

    /// A copy of the text, which is no longer wiped by itself.
    pub fn expose(&self) -> (text: String)
        ensures
            text@ == self@,
    {
        self.text.clone()
    }
}

impl Clone for Secret {
    fn clone(&self) -> (secret: Self)
        ensures
            secret@ == self@,
    {
        Secret { text: self.text.clone() }
    }
}

impl Drop for Secret {
    fn drop(&mut self)
        opens_invariants none
        no_unwind
    {
        wipe(&mut self.text);
    }
}

} // verus!
