//! The local sub-word tokenizer used for token accounting, held behind a
//! small trusted boundary.
//!
//! The library only ever consumes the *count* of the token sequence that
//! the tokenizer produces for a text.

use vstd::prelude::*;

verus! {

#[verifier::external_type_specification]
#[verifier::external_body]
pub struct ExCoreBPE(tiktoken_rs::CoreBPE);

/// How many tokens the `cl100k_base` tokenizer produces for a text, with
/// its special tokens allowed. The count is a function of the text alone:
/// the vocabulary, the special-token set and the splitting rule are fixed
/// data of that tokenizer.
pub uninterp spec fn token_count_of(s: Seq<char>) -> nat;

/// Whether the `cl100k_base` tokenizer succeeds on a text — its regex
/// engine can give up on pathological inputs. Like the count, success is
/// a function of the text alone: the split pattern and the engine's
/// limits are fixed.
pub uninterp spec fn tokenizes(s: Seq<char>) -> bool;

/// The `cl100k_base` sub-word tokenizer. The only constructor is
/// [`Tokenizer::load`], so every value of this type carries that one
/// tokenizer, which keeps [`token_count_of`] and [`tokenizes`] functions
/// of the text alone.
pub struct Tokenizer {
    bpe: tiktoken_rs::CoreBPE,
}

impl Tokenizer {
    /// Relies on tiktoken_rs::cl100k_base: it builds the tokenizer from
    /// the vocabulary data embedded in that crate, and that fixed data is
    /// well-formed, so the build always succeeds.
    #[verifier::external_body]
    pub fn load() -> (r: Option<Tokenizer>)
        ensures
            r is Some,
    {
        match tiktoken_rs::cl100k_base() {
            Ok(bpe) => Some(Tokenizer { bpe }),
            Err(_) => None,
        }
    }

    /// Relies on tiktoken_rs::CoreBPE::encode (with
    /// CoreBPE::special_tokens supplying the allowed special-token set,
    /// exactly as CoreBPE::encode_with_special_tokens does): it splits the
    /// text deterministically and returns its token sequence, of which
    /// only the length is kept. It fails exactly when the tokenizer's
    /// regex engine gives up on the text — a condition of the text alone,
    /// named [`tokenizes`] — and the failure becomes `None` here, so it
    /// cannot panic.
    #[verifier::external_body]
    pub fn token_count(&self, s: &str) -> (r: Option<usize>)
        ensures
            r is Some <==> tokenizes(s@),
            r matches Some(n) ==> n as nat == token_count_of(s@),
    {
        let allowed = self.bpe.special_tokens();
        match self.bpe.encode(s, &allowed) {
            Ok((tokens, _)) => Some(tokens.len()),
            Err(_) => None,
        }
    }
}

} // verus!
