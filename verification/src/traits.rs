//! What the field and group types have in common: a raw byte encoding, a
//! textual encoding, and, for the fields, random sampling.
use vstd::prelude::*;
use vstd::string::StringSliceAdditionalSpecFns;
use crate::common::Base;
use crate::text::ascii_text;

verus! {

/// The raw encoding: fixed in width, canonical, and checked on the way in.
pub trait RawSerializable: View + Sized {
    /// The bytes that encode the value `v`.
    spec fn raw_encoding(v: Self::V) -> Seq<u8>;

    /// The value that the front of `bytes` encodes, with the number of bytes
    /// that make it up; `None` where the front of `bytes` encodes no value.
    spec fn raw_decoding(bytes: Seq<u8>) -> Option<(Self::V, nat)>;

    /// Encodes the value. This never fails.
    fn serialize_raw(&self) -> (r: Result<Vec<u8>, ()>)
        ensures
            r is Ok,
            r->Ok_0@ == Self::raw_encoding(self@),
    ;

    /// Decodes a value from the front of `bytes` into `self` and returns how
    /// many bytes it read. On failure `self` is left as it was.
    fn deserialize_raw(&mut self, bytes: &[u8]) -> (r: Result<usize, ()>)
        ensures
            match Self::raw_decoding(bytes@) {
                Some((v, n)) => r == Ok::<usize, ()>(n as usize) && final(self)@ == v,
                None => r is Err && *final(self) == *old(self),
            },
    ;
}

/// The textual encoding, in base ten or sixteen.
pub trait Formattable: View + Sized {
    /// The text of the value `v`, as ASCII bytes.
    spec fn text_of(v: Self::V, base: Base) -> Seq<u8>;

    /// The value that `text` denotes; `None` where it denotes none.
    spec fn value_of_text(text: Seq<u8>, base: Base) -> Option<Self::V>;

    /// Parses `buffer` into `self`. On failure `self` is left as it was.
    fn set_str(&mut self, buffer: &str, io_mode: Base) -> (r: Result<(), ()>)
        ensures
            match Self::value_of_text(buffer.spec_bytes(), io_mode) {
                Some(v) => r is Ok && final(self)@ == v,
                None => r is Err && *final(self) == *old(self),
            },
    ;

    /// Writes the value as text.
    fn get_str(&self, io_mode: Base) -> (s: String)
        ensures
            s@ == ascii_text(Self::text_of(self@, io_mode)),
    ;
}

/// Sampling from the operating system's random source.
pub trait Random: View + Sized {
    /// The number of random bytes that go into one sample.
    spec fn sample_width() -> nat;

    /// The value that the given random bytes are turned into.
    spec fn sample_of(bytes: Seq<u8>) -> Self::V;

    /// Replaces `self` by a fresh sample: [`Self::sample_width`] bytes from
    /// the random source, turned into a value by [`Self::sample_of`]. Fails,
    /// leaving `self` as it was, only where the random source does.
    fn set_by_csprng(&mut self) -> (r: Result<(), ()>)
        ensures
            r is Err ==> *final(self) == *old(self),
            r is Ok ==> exists|bytes: Seq<u8>|
                bytes.len() == Self::sample_width() && final(self)@ == #[trigger] Self::sample_of(
                    bytes,
                ),
    ;
}

} // verus!
