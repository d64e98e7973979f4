//! Text to token ids and back.

use crate::codec::{
    decoder_leaves_some, encodes_any, leaves_some, parts_encode_any, texts_of, DEPTH,
};
use crate::json::{json_of, json_tree, Json, JsonTree};
use vstd::prelude::*;
use vstd::string::*;

verus! {

/// A tokenizer of the `tokenizers` crate.
#[verifier::external_type_specification]
#[verifier::external_body]
pub struct ExTokenizer(tokenizers::Tokenizer);

/// What `serde_json::to_value` makes of a tokenizer's normalizer,
/// pre-tokenizer, post-processor, truncation, padding, added vocabulary and the
/// ids of the tokens in it, in a list, if anything.
pub uninterp spec fn encoder_parts(tok: tokenizers::Tokenizer) -> Option<JsonTree>;

/// What `serde_json::to_value` makes of a tokenizer's decoder, if anything.
pub uninterp spec fn decoder_part(tok: tokenizers::Tokenizer) -> Option<JsonTree>;

/// A tokenizer once `tokenizers::Tokenizer::add_tokens` was called with no
/// tokens.
pub uninterp spec fn reindexed(tok: tokenizers::Tokenizer) -> tokenizers::Tokenizer;

/// Whether `ids` can be what `tokenizers::Tokenizer::encode` makes of a text
/// without special tokens. A tokenizer with BPE dropout encodes one text in
/// different ways, so more than one answer may be possible.
pub uninterp spec fn may_encode(
    tok: tokenizers::Tokenizer,
    text: Seq<char>,
    ids: Option<Seq<u32>>,
) -> bool;

/// The token that `tokenizers::Tokenizer::id_to_token` has for an id, if any.
pub uninterp spec fn id_token(tok: tokenizers::Tokenizer, id: u32) -> Option<Seq<char>>;

/// Whether `tokenizers::AddedVocabulary::is_special_token` says so of a token.
pub uninterp spec fn special_token(tok: tokenizers::Tokenizer, token: Seq<char>) -> bool;

/// The text that `tokenizers::Tokenizer::decode` makes of ids, special tokens
/// left out, if it makes any.
pub uninterp spec fn decoded_text(tok: tokenizers::Tokenizer, ids: Seq<u32>) -> Option<Seq<char>>;

/// The parts of the tokenizer encode any text.
pub open spec fn is_encoder(tok: tokenizers::Tokenizer) -> bool {
    encoder_parts(tok) matches Some(parts) && encodes_any(parts)
}

/// The tokenizer has looked up its added tokens under the normalizer that it
/// has.
pub open spec fn is_indexed(tok: tokenizers::Tokenizer) -> bool {
    exists|t: tokenizers::Tokenizer| is_encoder(t) && tok == #[trigger] reindexed(t)
}

/// The tokens of the first `n` ids that a decoder gets: those that there are,
/// without the special ones.
pub open spec fn shown(tok: tokenizers::Tokenizer, ids: Seq<u32>, n: nat) -> Seq<Seq<char>>
    decreases n,
{
    if n == 0 {
        Seq::empty()
    } else {
        let before = shown(tok, ids, (n - 1) as nat);
        match id_token(tok, ids[n - 1]) {
            Some(token) => if special_token(tok, token) {
                before
            } else {
                before.push(token)
            },
            None => before,
        }
    }
}

/// The decoder of the tokenizer takes the tokens of these ids: any tokens at
/// all, or at least these.
pub open spec fn takes(tok: tokenizers::Tokenizer, ids: Seq<u32>) -> bool {
    let tokens = shown(tok, ids, ids.len());
    decoder_part(tok) matches Some(part) && (leaves_some(part, None, false, DEPTH as nat) is Some
        || leaves_some(part, Some(tokens), tokens.len() > 0, DEPTH as nat) is Some)
}

/// `serde_json::to_value` of what a tokenizer encodes with: its normalizer,
/// pre-tokenizer, post-processor, truncation, padding, added vocabulary and the
/// ids of the tokens in it.
#[verifier::external_body]
fn describe_encoder(tok: &tokenizers::Tokenizer) -> (parts: Result<
    serde_json::Value,
    serde_json::Error,
>)
    ensures
        match parts {
            Ok(value) => encoder_parts(*tok) == Some(json_tree(value)),
            Err(_) => encoder_parts(*tok) is None,
        },
{
    serde_json::to_value((
        tok.get_normalizer(),
        tok.get_pre_tokenizer(),
        tok.get_post_processor(),
        tok.get_truncation(),
        tok.get_padding(),
        tok.get_added_vocabulary(),
        tok.get_added_vocabulary().get_vocab(),
    ))
}

/// `serde_json::to_value` of a tokenizer's decoder.
#[verifier::external_body]
fn describe_decoder(tok: &tokenizers::Tokenizer) -> (part: Result<
    serde_json::Value,
    serde_json::Error,
>)
    ensures
        match part {
            Ok(value) => decoder_part(*tok) == Some(json_tree(value)),
            Err(_) => decoder_part(*tok) is None,
        },
{
    serde_json::to_value(tok.get_decoder())
}

/// `tokenizers::Tokenizer::add_tokens` with no tokens: looks up the added
/// tokens again, under the normalizer that the tokenizer has. Nothing else
/// changes. A normalizer that was put in place after the tokens were added may
/// differ from the one they were looked up under, which may have left some of
/// them empty; an empty token matches within characters.
#[verifier::external_body]
fn reindex(tok: tokenizers::Tokenizer) -> (t: tokenizers::Tokenizer)
    requires
        is_encoder(tok),
    ensures
        t == reindexed(tok),
        encoder_parts(t) == encoder_parts(tok),
        decoder_part(t) == decoder_part(tok),
{
    let mut t = tok;
    t.add_tokens(&[]);
    t
}

/// `tokenizers::Tokenizer::encode` without special tokens: the ids of a text.
/// Which of the possible encodings comes out is left open. It takes any text
/// where the tokenizer's parts do and its added tokens are indexed: regexes that
/// give up end their matches there, as long as the crate is built with
/// `fancy-regex`.
#[verifier::external_body]
fn encode_ids(tok: &tokenizers::Tokenizer, text: &str) -> (ids: Option<Vec<u32>>)
    requires
        is_encoder(*tok),
        is_indexed(*tok),
    ensures
        match ids {
            Some(ids) => may_encode(*tok, text@, Some(ids@)),
            None => may_encode(*tok, text@, None),
        },
{
    tok.encode(text, false).ok().map(|e| e.get_ids().to_vec())
}

/// `tokenizers::Tokenizer::id_to_token`: the token of an id, if it has one.
#[verifier::external_body]
fn find_token(tok: &tokenizers::Tokenizer, id: u32) -> (token: Option<String>)
    ensures
        match token {
            Some(token) => id_token(*tok, id) == Some(token@),
            None => id_token(*tok, id) is None,
        },
{
    tok.id_to_token(id)
}

/// `tokenizers::AddedVocabulary::is_special_token`: whether a token is special.
#[verifier::external_body]
fn is_special(tok: &tokenizers::Tokenizer, token: &str) -> (yes: bool)
    ensures
        yes == special_token(*tok, token@),
{
    tok.get_added_vocabulary().is_special_token(token)
}

/// `tokenizers::Tokenizer::decode` with special tokens left out: a text that
/// depends on the tokenizer and the ids alone, and is only named.
#[verifier::external_body]
fn decode_ids(tok: &tokenizers::Tokenizer, ids: &[u32]) -> (text: Option<String>)
    requires
        takes(*tok, ids@),
    ensures
        match text {
            Some(text) => decoded_text(*tok, ids@) == Some(text@),
            None => decoded_text(*tok, ids@) is None,
        },
{
    tok.decode(ids, true).ok()
}

/// Why a text cannot be generated from or to.
#[derive(Debug, Clone, Copy, PartialEq, Eq, Structural)]
pub enum TokenError {
    /// The tokenizer failed on the prompt.
    Encode,
    /// The prompt has no tokens.
    EmptyPrompt,
    /// The tokenizer failed on the ids.
    Decode,
    /// A part of the tokenizer may not take the text or the tokens.
    Unsupported,
}

/// The prompt that an encoding stands for: there must be one, and it must not
/// be empty.
pub fn accept_ids(ids: Option<Vec<u32>>) -> (r: Result<Vec<u32>, TokenError>)
    ensures
        r == (match ids {
            None => Err(TokenError::Encode),
            Some(v) => if v@.len() == 0 {
                Err(TokenError::EmptyPrompt)
            } else {
                Ok(v)
            },
        }),
{
    match ids {
        None => Err(TokenError::Encode),
        Some(v) => if v.len() == 0 {
            Err(TokenError::EmptyPrompt)
        } else {
            Ok(v)
        },
    }
}

/// A tokenizer, and what it can be used for.
pub struct Codec {
    tok: tokenizers::Tokenizer,
    encodes: bool,
    decoder: Option<Json>,
}

impl Codec {
    /// The tokenizer.
    pub closed spec fn view(self) -> tokenizers::Tokenizer {
        self.tok
    }

    pub closed spec fn wf(self) -> bool {
        &&& self.encodes == is_encoder(self.tok)
        &&& self.encodes ==> is_indexed(self.tok)
        &&& decoder_part(self.tok) == (match self.decoder {
            Some(json) => Some(json@),
            None => None,
        })
    }

    /// Looks at the parts of a tokenizer.
    pub fn new(tok: tokenizers::Tokenizer) -> (codec: Self)
        ensures
            codec.wf(),
            codec@ == (if is_encoder(tok) {
                reindexed(tok)
            } else {
                tok
            }),
            is_encoder(codec@) == is_encoder(tok),
            decoder_part(codec@) == decoder_part(tok),
    {
        let encodes: bool = match describe_encoder(&tok) {
            Ok(value) => parts_encode_any(&json_of(value)),
            Err(_) => false,
        };
        let tok: tokenizers::Tokenizer = if encodes {
            reindex(tok)
        } else {
            tok
        };
        let decoder: Option<Json> = match describe_decoder(&tok) {
            Ok(value) => Some(json_of(value)),
            Err(_) => None,
        };
        Codec { tok, encodes, decoder }
    }

    /// The tokens that the decoder gets for these ids.
    fn tokens_of(&self, ids: &Vec<u32>) -> (tokens: Vec<String>)
        ensures
            texts_of(tokens@) == shown(self@, ids@, ids@.len()),
    {
        let mut tokens: Vec<String> = Vec::new();
        let mut i: usize = 0;
        assert(texts_of(tokens@) =~= Seq::<Seq<char>>::empty());
        while i < ids.len()
            invariant
                i <= ids@.len(),
                texts_of(tokens@) == shown(self@, ids@, i as nat),
            decreases ids@.len() - i,
        {
            if let Some(token) = find_token(&self.tok, ids[i]) {
                if !is_special(&self.tok, token.as_str()) {
                    let ghost before = tokens@;
                    tokens.push(token);
                    assert(texts_of(tokens@) =~= texts_of(before).push(token@));
                }
            }
            i += 1;
        }
        tokens
    }

    /// Whether the decoder takes the tokens of these ids.
    fn can_decode(&self, ids: &Vec<u32>) -> (yes: bool)
        requires
            self.wf(),
        ensures
            yes == takes(self@, ids@),
    {
        match &self.decoder {
            Some(decoder) => {
                if decoder_leaves_some(decoder, None, false, DEPTH).is_some() {
                    return true;
                }
                let tokens: Vec<String> = self.tokens_of(ids);
                decoder_leaves_some(decoder, Some(&tokens), tokens.len() > 0, DEPTH).is_some()
            },
            None => false,
        }
    }
}

/// The token ids of a prompt, of which there is at least one.
pub fn tokenize(codec: &Codec, prompt: &str) -> (r: Result<Vec<u32>, TokenError>)
    requires
        codec.wf(),
    ensures
        if is_encoder(codec@) {
            match r {
                Ok(ids) => ids@.len() > 0 && may_encode(codec@, prompt@, Some(ids@)),
                Err(TokenError::EmptyPrompt) => may_encode(
                    codec@,
                    prompt@,
                    Some(Seq::<u32>::empty()),
                ),
                Err(TokenError::Encode) => may_encode(codec@, prompt@, None),
                Err(_) => false,
            }
        } else {
            r == Err::<Vec<u32>, TokenError>(TokenError::Unsupported)
        },
{
    if !codec.encodes {
        return Err(TokenError::Unsupported);
    }
    let ids: Option<Vec<u32>> = encode_ids(&codec.tok, prompt);
    proof {
        if ids is Some && ids->0@.len() == 0 {
            assert(ids->0@ =~= Seq::<u32>::empty());
        }
    }
    accept_ids(ids)
}

/// The text of token ids, special tokens left out.
pub fn detokenize(codec: &Codec, ids: &Vec<u32>) -> (r: Result<String, TokenError>)
    requires
        codec.wf(),
    ensures
        if takes(codec@, ids@) {
            match decoded_text(codec@, ids@) {
                Some(text) => r matches Ok(s) && s@ == text,
                None => r matches Err(e) && e == TokenError::Decode,
            }
        } else {
            r matches Err(e) && e == TokenError::Unsupported
        },
{
    if !codec.can_decode(ids) {
        return Err(TokenError::Unsupported);
    }
    match decode_ids(&codec.tok, ids.as_slice()) {
        Some(text) => Ok(text),
        None => Err(TokenError::Decode),
    }
}

/// Bytes of a text.
pub open spec fn text_bytes(s: Seq<char>) -> Seq<u8> {
    vstd::utf8::encode_utf8(s)
}

/// The text `full` can be cut behind as many bytes as `printed` has.
pub open spec fn can_cut(printed: Seq<char>, full: Seq<char>) -> bool {
    vstd::utf8::is_char_boundary(text_bytes(full), text_bytes(printed).len() as int)
}

/// The new fragment of a text that is streamed as it grows: what follows as
/// many bytes as were printed. There is none while the text has not grown, or
/// would be cut within a character.
pub fn next_piece(printed: &str, full: &str) -> (piece: Option<String>)
    ensures
        match piece {
            Some(p) => {
                &&& text_bytes(full@).len() > text_bytes(printed@).len()
                &&& can_cut(printed@, full@)
                &&& text_bytes(p@) == text_bytes(full@).skip(text_bytes(printed@).len() as int)
            },
            None => text_bytes(full@).len() <= text_bytes(printed@).len() || !can_cut(
                printed@,
                full@,
            ),
        },
{
    let n: usize = printed.as_bytes().len();
    let m: usize = full.as_bytes().len();
    if m <= n || !full.is_char_boundary(n) {
        return None;
    }
    let (_, rest) = full.split_at(n);
    proof {
        assert(rest.spec_bytes() =~= full.spec_bytes().skip(n as int));
    }
    Some(rest.to_owned())
}

/// Streamed fragments add up: where a text starts with what was printed, the
/// fragment behind it completes the text.
pub proof fn law_pieces_add_up(printed: Seq<char>, full: Seq<char>, piece: Seq<char>)
    requires
        text_bytes(printed).len() <= text_bytes(full).len(),
        text_bytes(full).take(text_bytes(printed).len() as int) == text_bytes(printed),
        text_bytes(piece) == text_bytes(full).skip(text_bytes(printed).len() as int),
    ensures
        printed + piece == full,
{
    let n = text_bytes(printed).len() as int;
    assert(text_bytes(full) =~= text_bytes(printed) + text_bytes(piece));
    crate::order::lemma_encode_concat(printed, piece);
    vstd::utf8::encode_utf8_decode_utf8(printed + piece);
    vstd::utf8::encode_utf8_decode_utf8(full);
}

} // verus!
