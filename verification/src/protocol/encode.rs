//! Encoding protocol values into a byte buffer.
use vstd::prelude::*;

use crate::io::IoErrorKind;

verus! {

/// Why a protocol value could not be encoded.
#[derive(Debug, PartialEq, Eq, Structural)]
pub enum ProtoEncodeErr {
    IoErr(IoErrorKind),
    InvalidSeqLen(usize),
    SeqTooShort(usize, usize),
    SeqTooLong(usize, usize),
    SeqLenMismatch(usize, usize),
}

/// A call that appended exactly the bytes of `out`, or failed with its error
/// after appending some bytes.
pub open spec fn encoded(
    out: Result<Seq<u8>, ProtoEncodeErr>,
    r: Result<(), ProtoEncodeErr>,
    before: Seq<u8>,
    after: Seq<u8>,
) -> bool {
    match out {
        Ok(bytes) => r == Ok::<(), ProtoEncodeErr>(()) && after == before + bytes,
        Err(e) => r == Err::<(), ProtoEncodeErr>(e) && before.is_prefix_of(after),
    }
}

/// Two encodings in a row: the bytes of both, or the first error.
pub open spec fn then_encode(
    a: Result<Seq<u8>, ProtoEncodeErr>,
    b: Result<Seq<u8>, ProtoEncodeErr>,
) -> Result<Seq<u8>, ProtoEncodeErr> {
    match a {
        Err(e) => Err(e),
        Ok(x) => match b {
            Err(e) => Err(e),
            Ok(y) => Ok(x + y),
        },
    }
}

/// A value that can be written to the protocol's byte stream.
pub trait ProtoEncode {
    type Repr: DeepView;

    spec fn spec_encode(data: <Self::Repr as DeepView>::V) -> Result<Seq<u8>, ProtoEncodeErr>;

    fn encode(data: &Self::Repr, writer: &mut Vec<u8>) -> (r: Result<(), ProtoEncodeErr>)
        ensures
            encoded(Self::spec_encode(data.deep_view()), r, old(writer)@, final(writer)@),
    ;
}

/// A length-prefixed sequence: its length is written first, then its items.
pub trait ProtoEncodeSeq {
    type Repr: DeepView;

    /// The length that the header announces.
    spec fn spec_seq_len(data: <Self::Repr as DeepView>::V) -> nat;

    /// The header.
    spec fn spec_encode_len(data: <Self::Repr as DeepView>::V) -> Result<Seq<u8>, ProtoEncodeErr>;

    /// The items.
    spec fn spec_encode_seq(data: <Self::Repr as DeepView>::V) -> Result<Seq<u8>, ProtoEncodeErr>;

    fn encode_len(data: &Self::Repr, writer: &mut Vec<u8>) -> (r: Result<usize, ProtoEncodeErr>)
        ensures
            encoded(
                Self::spec_encode_len(data.deep_view()),
                match r {
                    Ok(_) => Ok(()),
                    Err(e) => Err(e),
                },
                old(writer)@,
                final(writer)@,
            ),
            r matches Ok(n) ==> n == Self::spec_seq_len(data.deep_view()),
    ;

    fn encode_seq(data: &Self::Repr, writer: &mut Vec<u8>, len: usize) -> (r: Result<
        (),
        ProtoEncodeErr,
    >)
        ensures
            encoded(Self::spec_encode_seq(data.deep_view()), r, old(writer)@, final(writer)@),
    ;
}


/// A sequence is a prefix of itself followed by anything.
pub proof fn lemma_prefix_of_append(a: Seq<u8>, b: Seq<u8>)
    ensures
        a.is_prefix_of(a + b),
{
    assert forall|k: int| 0 <= k < a.len() implies a[k] == (a + b)[k] by {}
}

/// Being a prefix is transitive.
pub proof fn lemma_prefix_trans(a: Seq<u8>, b: Seq<u8>, c: Seq<u8>)
    requires
        a.is_prefix_of(b),
        b.is_prefix_of(c),
    ensures
        a.is_prefix_of(c),
{
    assert forall|k: int| 0 <= k < a.len() implies a[k] == c[k] by {
        assert(a[k] == b[k]);
    }
}

} // verus!
