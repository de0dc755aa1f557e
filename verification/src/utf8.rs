//! Lossy decoding of raw bytes into text.

use crate::seqs::joined;
use vstd::prelude::*;
use vstd::utf8::{
    decode_first_scalar, decode_utf8, length_of_first_scalar, pop_first_scalar, valid_utf8,
    valid_utf8_concat,
};

verus! {

/// The text that `String::from_utf8_lossy` makes of bytes that are not
/// well-formed UTF-8: what decodes is decoded, and U+FFFD stands in for
/// every ill-formed byte sequence.
pub uninterp spec fn repaired_text(bytes: Seq<u8>) -> Seq<char>;

/// The text of `bytes` under lossy decoding: well-formed UTF-8 is decoded as
/// it stands, anything else is repaired.
pub open spec fn lossy_text(bytes: Seq<u8>) -> Seq<char> {
    if valid_utf8(bytes) {
        decode_utf8(bytes)
    } else {
        repaired_text(bytes)
    }
}

/// Calls `String::from_utf8_lossy` and takes ownership of what it returns.
/// Well-formed UTF-8 comes back decoded and unchanged; for other bytes the
/// result is a function of the bytes alone.
#[verifier::external_body]
pub(crate) fn decode_lossy(bytes: &[u8]) -> (r: String)
    ensures
        valid_utf8(bytes@) ==> r@ == decode_utf8(bytes@),
        !valid_utf8(bytes@) ==> r@ == repaired_text(bytes@),
{
    String::from_utf8_lossy(bytes).into_owned()
}

/// Each chunk decoded lossily on its own.
pub open spec fn lossy_texts(chunks: Seq<Seq<u8>>) -> Seq<Seq<char>> {
    chunks.map_values(|chunk: Seq<u8>| lossy_text(chunk))
}

/// Well-formed UTF-8 decodes piece by piece: the text of two well-formed
/// byte sequences, one after the other, is the text of the first followed by
/// the text of the second.
pub proof fn lemma_decode_utf8_concat(a: Seq<u8>, b: Seq<u8>)
    requires
        valid_utf8(a),
        valid_utf8(b),
    ensures
        valid_utf8(a + b),
        decode_utf8(a + b) == decode_utf8(a) + decode_utf8(b),
    decreases a.len(),
{
    valid_utf8_concat(a, b);
    if a.len() == 0 {
        assert(Seq::<char>::empty() + decode_utf8(b) =~= decode_utf8(b));
    } else {
        let rest = pop_first_scalar(a);
        assert(rest.len() < a.len()) by {
            assert(length_of_first_scalar(a) <= a.len());
        }
        lemma_decode_utf8_concat(rest, b);
        assert(pop_first_scalar(a + b) =~= rest + b);
        let head = seq![decode_first_scalar(a) as char];
        assert(head + (decode_utf8(rest) + decode_utf8(b)) =~= (head + decode_utf8(rest))
            + decode_utf8(b));
    }
}

/// Lossy decoding is exact on well-formed chunks: where every chunk is
/// well-formed UTF-8 on its own, the texts of the chunks join to the text of
/// the joined bytes.
pub proof fn lemma_lossy_text_of_valid_chunks(chunks: Seq<Seq<u8>>)
    requires
        forall|i: int| 0 <= i < chunks.len() ==> valid_utf8(#[trigger] chunks[i]),
    ensures
        valid_utf8(joined(chunks)),
        joined(lossy_texts(chunks)) == lossy_text(joined(chunks)),
    decreases chunks.len(),
{
    let texts = lossy_texts(chunks);
    if chunks.len() == 0 {
        assert(decode_utf8(joined(chunks)) =~= Seq::<char>::empty());
    } else {
        let before = chunks.drop_last();
        assert forall|i: int| 0 <= i < before.len() implies valid_utf8(#[trigger] before[i]) by {
            assert(before[i] == chunks[i]);
        }
        lemma_lossy_text_of_valid_chunks(before);
        lemma_decode_utf8_concat(joined(before), chunks.last());
        assert(texts.drop_last() =~= lossy_texts(before));
    }
}

} // verus!
