//! The parameter document as it crosses to a filter: its bytes, closed by
//! one zero byte.

use vstd::prelude::*;
use vstd::string::StringSliceAdditionalSpecFns;
use crate::error::{Error, ErrorView};

verus! {

/// Whether `position` is where the first zero byte of `bytes` stands.
pub open spec fn first_zero(bytes: Seq<u8>, position: int) -> bool {
    &&& 0 <= position < bytes.len()
    &&& bytes[position] == 0
    &&& forall|k: int| 0 <= k < position ==> bytes[k] != 0
}

/// Whether `bytes` is free of zero bytes.
pub open spec fn zero_free(bytes: Seq<u8>) -> bool {
    forall|k: int| 0 <= k < bytes.len() ==> bytes[k] != 0
}

/// The marshalled form of a text with the bytes `bytes`.
pub open spec fn marshalled(bytes: Seq<u8>) -> Seq<u8> {
    bytes.push(0)
}

/// Position of the first zero byte of `bytes`, where there is one.
pub open spec fn zero_position(bytes: Seq<u8>) -> int {
    choose|position: int| first_zero(bytes, position)
}

/// What marshalling a text with the bytes `bytes` gives: the marshalled
/// form, or the position of the first zero byte.
pub open spec fn marshal_spec(bytes: Seq<u8>) -> Result<Seq<u8>, ErrorView> {
    if zero_free(bytes) {
        Ok(marshalled(bytes))
    } else {
        Err(ErrorView::EmbeddedTerminator(zero_position(bytes)))
    }
}

/// The view of what `marshal` returns.
pub open spec fn marshal_view(result: Result<Vec<u8>, Error>) -> Result<Seq<u8>, ErrorView> {
    match result {
        Ok(buffer) => Ok(buffer@),
        Err(error) => Err(error@),
    }
}

/// Marshals the parameter text: its bytes followed by one zero byte. A text
/// that holds a zero byte itself cannot cross, and is refused with the
/// position of its first zero byte.
pub fn marshal(text: &str) -> (result: Result<Vec<u8>, Error>)
    ensures
        marshal_view(result) == marshal_spec(text.spec_bytes()),
        match result {
            Ok(buffer) => zero_free(text.spec_bytes()) && buffer@ == marshalled(text.spec_bytes()),
            Err(Error::EmbeddedTerminator(position)) => first_zero(
                text.spec_bytes(),
                position as int,
            ),
            Err(_) => false,
        },
{
    let bytes: &[u8] = text.as_bytes();
    let len: usize = bytes.len();
    let mut buffer: Vec<u8> = Vec::new();
    let mut at: usize = 0;
    while at < len
        invariant
            bytes@ == text.spec_bytes(),
            len == bytes@.len(),
            at <= len,
            buffer@ == bytes@.subrange(0, at as int),
            forall|k: int| 0 <= k < at ==> bytes@[k] != 0,
        decreases len - at,
    {
        let byte: u8 = bytes[at];
        if byte == 0 {
            proof {
                lemma_first_zero_unique(bytes@, at as int);
            }
            return Err(Error::EmbeddedTerminator(at));
        }
        buffer.push(byte);
        at = at + 1;
        assert(buffer@ =~= bytes@.subrange(0, at as int));
    }
    assert(bytes@.subrange(0, len as int) =~= bytes@);
    buffer.push(0);
    Ok(buffer)
}

/// A text has one first zero byte at most: where `position` is it, the
/// text is not free of zero bytes and `zero_position` names `position`.
pub proof fn lemma_first_zero_unique(bytes: Seq<u8>, position: int)
    requires
        first_zero(bytes, position),
    ensures
        !zero_free(bytes),
        zero_position(bytes) == position,
{
    let chosen = zero_position(bytes);
    assert(first_zero(bytes, chosen));
    if chosen < position {
        assert(bytes[chosen] != 0);
    } else if position < chosen {
        assert(bytes[position] != 0);
    }
}

/// A marshalled buffer ends in its only zero byte.
pub proof fn lemma_marshalled_terminated(bytes: Seq<u8>)
    requires
        zero_free(bytes),
    ensures
        first_zero(marshalled(bytes), bytes.len() as int),
        marshalled(bytes).len() == bytes.len() + 1,
{
}

} // verus!
