//! Tokenizers, and the one that works on bytes.

use crate::bytes::{decoded_lossily, string_from_utf8_lossy};
use vstd::prelude::*;
use vstd::utf8::{encode_utf8, encode_utf8_decode_utf8, encode_utf8_valid_utf8};

verus! {

/// What turns text into tokens and back.
pub trait Tokenizer {
    spec fn spec_encode(&self, text: Seq<char>) -> Seq<u32>;

    spec fn spec_decode(&self, tokens: Seq<u32>) -> Seq<char>;

    fn encode(&self, text: &str) -> (r: Vec<u32>)
        ensures
            r@ == self.spec_encode(text@),
    ;

    fn decode(&self, tokens: &[u32]) -> (r: String)
        ensures
            r@ == self.spec_decode(tokens@),
    ;
}

/// One token for each byte of a text.
#[derive(Debug, Clone, Copy, PartialEq, Eq)]
pub struct ByteTokenizer;

/// The bytes of a text as tokens.
pub open spec fn byte_tokens(text: Seq<char>) -> Seq<u32> {
    encode_utf8(text).map_values(|b: u8| b as u32)
}

/// The byte of a token; a question mark for a token that is none.
pub open spec fn token_byte(token: u32) -> u8 {
    if token < 256 {
        token as u8
    } else {
        63
    }
}

/// The bytes of tokens.
pub open spec fn token_bytes(tokens: Seq<u32>) -> Seq<u8> {
    tokens.map_values(|t: u32| token_byte(t))
}

/// The text of tokens that stand for bytes.
pub open spec fn byte_text(tokens: Seq<u32>) -> Seq<char> {
    decoded_lossily(token_bytes(tokens))
}

/// The tokens of bytes.
pub fn tokens_of_bytes(bytes: &[u8]) -> (r: Vec<u32>)
    ensures
        r@ == bytes@.map_values(|b: u8| b as u32),
{
    let mut out: Vec<u32> = Vec::new();
    let mut i: usize = 0;
    while i < bytes.len()
        invariant
            i <= bytes@.len(),
            out@ == bytes@.map_values(|b: u8| b as u32).take(i as int),
        decreases bytes@.len() - i,
    {
        out.push(bytes[i] as u32);
        i += 1;
        assert(out@ =~= bytes@.map_values(|b: u8| b as u32).take(i as int));
    }
    assert(out@ =~= bytes@.map_values(|b: u8| b as u32));
    out
}

impl Tokenizer for ByteTokenizer {
    open spec fn spec_encode(&self, text: Seq<char>) -> Seq<u32> {
        byte_tokens(text)
    }

    open spec fn spec_decode(&self, tokens: Seq<u32>) -> Seq<char> {
        byte_text(tokens)
    }

    fn encode(&self, text: &str) -> (r: Vec<u32>) {
        tokens_of_bytes(text.as_bytes())
    }

    fn decode(&self, tokens: &[u32]) -> (r: String) {
        let mut bytes: Vec<u8> = Vec::new();
        let mut i: usize = 0;
        while i < tokens.len()
            invariant
                i <= tokens@.len(),
                bytes@ == token_bytes(tokens@).take(i as int),
            decreases tokens@.len() - i,
        {
            let token: u32 = tokens[i];
            bytes.push(
                if token < 256 {
                    token as u8
                } else {
                    63
                },
            );
            i += 1;
            assert(bytes@ =~= token_bytes(tokens@).take(i as int));
        }
        assert(bytes@ =~= token_bytes(tokens@));
        string_from_utf8_lossy(&bytes)
    }
}

/// Decoding the bytes of a text gives the text back.
pub proof fn byte_round_trip(text: Seq<char>)
    ensures
        byte_text(byte_tokens(text)) == text,
{
    assert(token_bytes(byte_tokens(text)) =~= encode_utf8(text));
    encode_utf8_valid_utf8(text);
    encode_utf8_decode_utf8(text);
}

} // verus!
