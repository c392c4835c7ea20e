//! Raw names: the bytes under which a function or a member is known and
//! looked up, whether or not they read as text.

use crate::sorted::Keyed;
use crate::text::{decode_name, decoded, encode_text, is_outcome, DecodingError};
use vstd::prelude::*;
use vstd::utf8::encode_utf8;

verus! {

/// The raw name of a function, a field or a type.
#[derive(Debug, PartialEq, Eq, Hash)]
pub struct NameContainer(pub Vec<u8>);

impl View for NameContainer {
    type V = Seq<u8>;

    open spec fn view(&self) -> Seq<u8> {
        self.0@
    }
}

impl Clone for NameContainer {
    fn clone(&self) -> (r: Self)
        ensures
            r@ == self@,
    {
        NameContainer(self.0.clone())
    }
}

impl NameContainer {
    /// The name made of the given bytes.
    pub fn new(bytes: Vec<u8>) -> (r: NameContainer)
        ensures
            r@ == bytes@,
    {
        NameContainer(bytes)
    }

    /// The name whose bytes are the UTF-8 encoding of `text`.
    pub fn from_text(text: &str) -> (r: NameContainer)
        ensures
            r@ == encode_utf8(text@),
    {
        NameContainer(encode_text(text))
    }

    /// The bytes of the name.
    pub fn as_bytes(&self) -> (r: &[u8])
        ensures
            r@ == self@,
    {
        self.0.as_slice()
    }

    /// The name as text. Fails where the bytes are not valid UTF-8.
    pub fn decode(&self) -> (r: Result<String, DecodingError>)
        ensures
            is_outcome(r, decoded(self@)),
    {
        decode_name(&self.0)
    }
}

impl Keyed for NameContainer {
    open spec fn key(&self) -> Seq<u8> {
        self@
    }

    fn key_bytes(&self) -> (k: Vec<u8>) {
        self.0.clone()
    }
}

} // verus!
