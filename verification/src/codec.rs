//! Which tokenizers can be used: the parts of a tokenizer, as documents, and
//! whether they take every text and every list of tokens.
//!
//! Parts that the `tokenizers` crate accepts can still panic on some input: a
//! template that asks for a second text, a regex that refers to a group without
//! an end, a stride as long as the text is cut to. What is admitted here
//! does not.

use crate::json::{member_trees, trees, Json, JsonTree};
use crate::text::{chars_of, same_text};
use vstd::prelude::*;
use vstd::string::*;

verus! {

/// Lists and objects that may be nested in the description of a part.
pub const DEPTH: usize = 100;

/// Tokens to which a text may be padded.
pub const PADDING_LIMIT: u64 = 0x100_0000;

/// The type that a part says it is of.
pub open spec fn kind_of(t: JsonTree) -> Seq<char> {
    match t.text_at("type"@) {
        Some(s) => s,
        None => ""@,
    }
}

fn kind<'a>(json: &'a Json) -> (kind: &'a str)
    ensures
        kind@ == kind_of(json@),
{
    match json.get_str("type") {
        Some(s) => s,
        None => "",
    }
}

/// There is a text under `key`, and it is not empty.
pub open spec fn has_text(t: JsonTree, key: Seq<char>) -> bool {
    t.text_at(key) matches Some(s) && s.len() > 0
}

fn holds_text(json: &Json, key: &str) -> (yes: bool)
    ensures
        yes == has_text(json@, key@),
{
    proof {
        reveal_strlit("");
    }
    match json.get_str(key) {
        Some(s) => {
            let empty: bool = same_text(s, "");
            proof {
                if s@.len() == 0 {
                    assert(s@ =~= ""@);
                }
            }
            !empty
        },
        None => false,
    }
}

/// At position `i` a regex refers to what it has matched so far: it moves the
/// start of its match with `\K`, or has a backreference or a conditional.
pub open spec fn refers_at(regex: Seq<char>, i: int) -> bool {
    ||| 0 <= i < regex.len() - 1 && regex[i] == '\\' && (regex[i + 1] == 'K' || regex[i + 1] == 'k'
        || '0' <= regex[i + 1] <= '9')
    ||| 0 <= i < regex.len() - 2 && regex[i] == '(' && regex[i + 1] == '?' && regex[i + 2] == '('
    ||| 0 <= i < regex.len() - 3 && regex[i] == '(' && regex[i + 1] == '?' && regex[i + 2] == 'P'
        && regex[i + 3] == '='
}

/// A regex refers to what it has matched so far. A match can then start in
/// front of the match before, and a group be referred to that has no end yet.
pub open spec fn refers_back(regex: Seq<char>) -> bool {
    exists|i: int| #[trigger] refers_at(regex, i)
}

fn can_refer_back(regex: &str) -> (yes: bool)
    ensures
        yes == refers_back(regex@),
{
    let chars: Vec<char> = chars_of(regex);
    let len: usize = chars.len();
    let mut i: usize = 0;
    while i < len
        invariant
            chars@ == regex@,
            len == chars@.len(),
            i <= len,
            forall|j: int| j < i ==> !#[trigger] refers_at(regex@, j),
        decreases len - i,
    {
        let left: usize = len - i;
        let c: char = chars[i];
        let escape: bool = left > 1 && c == '\\' && (chars[i + 1] == 'K' || chars[i + 1] == 'k' || (
        '0' <= chars[i + 1] && chars[i + 1] <= '9'));
        let conditional: bool = left > 2 && c == '(' && chars[i + 1] == '?' && chars[i + 2] == '(';
        let named: bool = left > 3 && c == '(' && chars[i + 1] == '?' && chars[i + 2] == 'P'
            && chars[i + 3] == '=';
        if escape || conditional || named {
            assert(refers_at(regex@, i as int));
            return true;
        }
        i += 1;
    }
    false
}

/// A pattern is a literal text, or a regex that does not refer back.
pub open spec fn is_steady(pattern: JsonTree) -> bool {
    pattern.text_at("String"@) is Some || (pattern.text_at("Regex"@) matches Some(r)
        && !refers_back(r))
}

fn is_steady_pattern(pattern: &Json) -> (yes: bool)
    ensures
        yes == is_steady(pattern@),
{
    if pattern.get_str("String").is_some() {
        return true;
    }
    match pattern.get_str("Regex") {
        Some(r) => !can_refer_back(r),
        None => false,
    }
}

/// A part has a pattern of that sort.
pub open spec fn has_steady(t: JsonTree) -> bool {
    t.member("pattern"@) matches Some(p) && is_steady(p)
}

fn holds_steady(json: &Json) -> (yes: bool)
    ensures
        yes == has_steady(json@),
{
    match json.get("pattern") {
        Some(p) => is_steady_pattern(p),
        None => false,
    }
}

/// A normalizer leaves no text empty, and keeps every character tied to one of
/// the text that it came from. An added token that is left empty would match
/// within characters, and a character that came from nothing is beyond what a
/// later step keeps of where characters were.
pub open spec fn keeps_text(t: JsonTree, n: nat) -> bool
    decreases n,
{
    let k = kind_of(t);
    if t == JsonTree::Null || k == "NFC"@ || k == "NFD"@ || k == "NFKC"@ || k == "NFKD"@ || k
        == "Lowercase"@ || k == "ByteLevel"@ {
        true
    } else if k == "Prepend"@ {
        has_text(t, "prepend"@)
    } else if k == "Replace"@ {
        &&& t.member("pattern"@) matches Some(p)
        &&& has_text(p, "String"@)
        &&& has_text(t, "content"@)
    } else if k == "Sequence"@ {
        &&& n > 0
        &&& t.items_at("normalizers"@) matches Some(items)
        &&& forall|i: int|
            #![trigger items[i]]
            0 <= i < items.len() ==> keeps_text(items[i], (n - 1) as nat)
    } else {
        false
    }
}

/// Whether a normalizer leaves no text empty.
pub fn normalizer_keeps_text(json: &Json, n: usize) -> (yes: bool)
    ensures
        yes == keeps_text(json@, n as nat),
    decreases n,
{
    if let Json::Null = json {
        return true;
    }
    let k: &str = kind(json);
    if same_text(k, "NFC") || same_text(k, "NFD") || same_text(k, "NFKC") || same_text(k, "NFKD")
        || same_text(k, "Lowercase") || same_text(k, "ByteLevel") {
        return true;
    }
    if same_text(k, "Prepend") {
        return holds_text(json, "prepend");
    }
    if same_text(k, "Replace") {
        return match json.get("pattern") {
            Some(p) => holds_text(p, "String") && holds_text(json, "content"),
            None => false,
        };
    }
    if !same_text(k, "Sequence") || n == 0 {
        return false;
    }
    let items: &Vec<Json> = match json.get_array("normalizers") {
        Some(items) => items,
        None => return false,
    };
    let ghost all = trees(items@);
    let mut i: usize = 0;
    let mut ok: bool = true;
    while i < items.len() && ok
        invariant
            i <= items@.len(),
            0 < n,
            all == trees(items@),
            ok ==> forall|j: int|
                #![trigger all[j]]
                0 <= j < i ==> keeps_text(all[j], (n - 1) as nat),
            !ok ==> exists|j: int|
                #![trigger all[j]]
                0 <= j < all.len() && !keeps_text(all[j], (n - 1) as nat),
        decreases items@.len() - i,
    {
        assert(all[i as int] == items@[i as int]@);
        ok = normalizer_keeps_text(&items[i], n - 1);
        i += 1;
    }
    proof {
        if !ok {
            let j = choose|j: int|
                #![trigger all[j]]
                0 <= j < all.len() && !keeps_text(all[j], (n - 1) as nat);
            let items = json@.items_at("normalizers"@)->0;
            assert(items[j] == all[j]);
            assert(!keeps_text(items[j], (n as nat - 1) as nat));
        }
    }
    ok
}

/// A normalizer leaves something of every letter and digit, and keeps every
/// character tied to one of the text that it came from.
pub open spec fn keeps_words(t: JsonTree, n: nat) -> bool
    decreases n,
{
    let k = kind_of(t);
    if t == JsonTree::Null || k == "NFC"@ || k == "NFD"@ || k == "NFKC"@ || k == "NFKD"@ || k
        == "Lowercase"@ || k == "ByteLevel"@ || k == "BertNormalizer"@ || k == "Nmt"@ || k
        == "Strip"@ || k == "StripAccents"@ {
        true
    } else if k == "Prepend"@ {
        has_text(t, "prepend"@)
    } else if k == "Sequence"@ {
        &&& n > 0
        &&& t.items_at("normalizers"@) matches Some(items)
        &&& forall|i: int|
            #![trigger items[i]]
            0 <= i < items.len() ==> keeps_words(items[i], (n - 1) as nat)
    } else {
        false
    }
}

/// Whether a normalizer leaves something of every letter and digit.
pub fn normalizer_keeps_words(json: &Json, n: usize) -> (yes: bool)
    ensures
        yes == keeps_words(json@, n as nat),
    decreases n,
{
    if let Json::Null = json {
        return true;
    }
    let k: &str = kind(json);
    if same_text(k, "NFC") || same_text(k, "NFD") || same_text(k, "NFKC") || same_text(k, "NFKD")
        || same_text(k, "Lowercase") || same_text(k, "ByteLevel") || same_text(k, "BertNormalizer")
        || same_text(k, "Nmt") || same_text(k, "Strip") || same_text(k, "StripAccents") {
        return true;
    }
    if same_text(k, "Prepend") {
        return holds_text(json, "prepend");
    }
    if !same_text(k, "Sequence") || n == 0 {
        return false;
    }
    let items: &Vec<Json> = match json.get_array("normalizers") {
        Some(items) => items,
        None => return false,
    };
    let ghost all = trees(items@);
    let mut i: usize = 0;
    let mut ok: bool = true;
    while i < items.len() && ok
        invariant
            i <= items@.len(),
            0 < n,
            all == trees(items@),
            ok ==> forall|j: int|
                #![trigger all[j]]
                0 <= j < i ==> keeps_words(all[j], (n - 1) as nat),
            !ok ==> exists|j: int|
                #![trigger all[j]]
                0 <= j < all.len() && !keeps_words(all[j], (n - 1) as nat),
        decreases items@.len() - i,
    {
        assert(all[i as int] == items@[i as int]@);
        ok = normalizer_keeps_words(&items[i], n - 1);
        i += 1;
    }
    proof {
        if !ok {
            let j = choose|j: int|
                #![trigger all[j]]
                0 <= j < all.len() && !keeps_words(all[j], (n - 1) as nat);
            let items = json@.items_at("normalizers"@)->0;
            assert(items[j] == all[j]);
            assert(!keeps_words(items[j], (n as nat - 1) as nat));
        }
    }
    ok
}

/// A text has an ASCII letter or digit.
pub open spec fn has_word(text: Seq<char>) -> bool {
    exists|i: int|
        #![trigger text[i]]
        0 <= i < text.len() && ('0' <= text[i] <= '9' || 'A' <= text[i] <= 'Z' || 'a' <= text[i]
            <= 'z')
}

fn holds_word(text: &str) -> (yes: bool)
    ensures
        yes == has_word(text@),
{
    let chars: Vec<char> = chars_of(text);
    let mut i: usize = 0;
    while i < chars.len()
        invariant
            i <= chars@.len(),
            chars@ == text@,
            forall|j: int|
                #![trigger chars@[j]]
                0 <= j < i ==> !('0' <= chars@[j] <= '9' || 'A' <= chars@[j] <= 'Z' || 'a'
                    <= chars@[j] <= 'z'),
        decreases chars@.len() - i,
    {
        let c: char = chars[i];
        if ('0' <= c && c <= '9') || ('A' <= c && c <= 'Z') || ('a' <= c && c <= 'z') {
            assert(text@[i as int] == c);
            return true;
        }
        i += 1;
    }
    false
}

/// Every added token has a letter or a digit.
pub open spec fn all_words(t: JsonTree) -> bool {
    &&& t matches JsonTree::Object(members)
    &&& forall|i: int| #![trigger members[i]] 0 <= i < members.len() ==> has_word(members[i].0)
}

fn are_words(json: &Json) -> (yes: bool)
    ensures
        yes == all_words(json@),
{
    match json {
        Json::Object(members) => {
            let ghost all = member_trees(members@);
            let mut ok: bool = true;
            let mut i: usize = 0;
            while i < members.len() && ok
                invariant
                    i <= members@.len(),
                    all == member_trees(members@),
                    ok ==> forall|j: int|
                        #![trigger all[j]]
                        0 <= j < i ==> has_word(all[j].0),
                    !ok ==> exists|j: int|
                        #![trigger all[j]]
                        0 <= j < all.len() && !has_word(all[j].0),
                decreases members@.len() - i,
            {
                assert(all[i as int].0 == members@[i as int].0@);
                ok = holds_word(members[i].0.as_str());
                i += 1;
            }
            proof {
                if !ok {
                    let j = choose|j: int|
                        #![trigger all[j]]
                        0 <= j < all.len() && !has_word(all[j].0);
                    let members = json@->Object_0;
                    assert(members[j] == all[j]);
                }
            }
            ok
        },
        _ => false,
    }
}

/// A normalizer leaves none of the added tokens empty: none at all, or none
/// that has a letter or a digit, where all have.
pub open spec fn normalizes(t: JsonTree, added: JsonTree) -> bool {
    keeps_text(t, DEPTH as nat) || (keeps_words(t, DEPTH as nat) && all_words(added))
}

/// A pre-tokenizer splits any text.
pub open spec fn splits_any(t: JsonTree, n: nat) -> bool
    decreases n,
{
    let k = kind_of(t);
    if t == JsonTree::Null || k == "BertPreTokenizer"@ || k == "ByteLevel"@ || k
        == "CharDelimiterSplit"@ || k == "Digits"@ || k == "Metaspace"@ || k == "Punctuation"@ || k
        == "UnicodeScripts"@ || k == "Whitespace"@ || k == "WhitespaceSplit"@ {
        true
    } else if k == "FixedLength"@ {
        t.uint_at("length"@) matches Some(len) && len > 0
    } else if k == "Split"@ {
        has_steady(t)
    } else if k == "Sequence"@ {
        &&& n > 0
        &&& t.items_at("pretokenizers"@) matches Some(items)
        &&& forall|i: int|
            #![trigger items[i]]
            0 <= i < items.len() ==> splits_any(items[i], (n - 1) as nat)
    } else {
        false
    }
}

/// Whether a pre-tokenizer splits any text.
pub fn pre_tokenizer_splits_any(json: &Json, n: usize) -> (yes: bool)
    ensures
        yes == splits_any(json@, n as nat),
    decreases n,
{
    if let Json::Null = json {
        return true;
    }
    let k: &str = kind(json);
    if same_text(k, "BertPreTokenizer") || same_text(k, "ByteLevel") || same_text(
        k,
        "CharDelimiterSplit",
    ) || same_text(k, "Digits") || same_text(k, "Metaspace") || same_text(k, "Punctuation")
        || same_text(k, "UnicodeScripts") || same_text(k, "Whitespace") || same_text(
        k,
        "WhitespaceSplit",
    ) {
        return true;
    }
    if same_text(k, "FixedLength") {
        return match json.get_u64("length") {
            Some(len) => len > 0,
            None => false,
        };
    }
    if same_text(k, "Split") {
        return holds_steady(json);
    }
    if !same_text(k, "Sequence") || n == 0 {
        return false;
    }
    let items: &Vec<Json> = match json.get_array("pretokenizers") {
        Some(items) => items,
        None => return false,
    };
    let ghost all = trees(items@);
    let mut i: usize = 0;
    let mut ok: bool = true;
    while i < items.len() && ok
        invariant
            i <= items@.len(),
            0 < n,
            all == trees(items@),
            ok ==> forall|j: int|
                #![trigger all[j]]
                0 <= j < i ==> splits_any(all[j], (n - 1) as nat),
            !ok ==> exists|j: int|
                #![trigger all[j]]
                0 <= j < all.len() && !splits_any(all[j], (n - 1) as nat),
        decreases items@.len() - i,
    {
        assert(all[i as int] == items@[i as int]@);
        ok = pre_tokenizer_splits_any(&items[i], n - 1);
        i += 1;
    }
    proof {
        if !ok {
            let j = choose|j: int|
                #![trigger all[j]]
                0 <= j < all.len() && !splits_any(all[j], (n - 1) as nat);
            let items = json@.items_at("pretokenizers"@)->0;
            assert(items[j] == all[j]);
            assert(!splits_any(items[j], (n as nat - 1) as nat));
        }
    }
    ok
}

/// A piece of a template stands for a text, not for a special token.
pub open spec fn is_sequence(piece: JsonTree) -> bool {
    piece.member("Sequence"@) is Some
}

/// A piece of a template stands for the second of two texts.
pub open spec fn is_second(piece: JsonTree) -> bool {
    piece.member("Sequence"@) matches Some(s) && s.text_at("id"@) != Some("A"@)
}

/// How many of the first `n` pieces stand for texts.
pub open spec fn sequences(pieces: Seq<JsonTree>, n: nat) -> nat
    decreases n,
{
    if n == 0 {
        0
    } else {
        sequences(pieces, (n - 1) as nat) + (if is_sequence(pieces[n - 1]) {
            1nat
        } else {
            0
        })
    }
}

/// Some piece stands for the second of two texts.
pub open spec fn asks_for_second(pieces: Seq<JsonTree>) -> bool {
    exists|i: int| #![trigger pieces[i]] 0 <= i < pieces.len() && is_second(pieces[i])
}

fn count_sequences(pieces: &Vec<Json>) -> (r: (usize, bool))
    ensures
        r.0 == sequences(trees(pieces@), pieces@.len()),
        r.1 == asks_for_second(trees(pieces@)),
{
    let ghost all = trees(pieces@);
    let mut count: usize = 0;
    let mut second: bool = false;
    let mut i: usize = 0;
    while i < pieces.len()
        invariant
            i <= pieces@.len(),
            all == trees(pieces@),
            count <= i,
            count == sequences(all, i as nat),
            second == exists|j: int| #![trigger all[j]] 0 <= j < i && is_second(all[j]),
        decreases pieces@.len() - i,
    {
        assert(all[i as int] == pieces@[i as int]@);
        let ghost before = second;
        if let Some(s) = pieces[i].get("Sequence") {
            count += 1;
            let first: bool = match s.get_str("id") {
                Some(id) => same_text(id, "A"),
                None => false,
            };
            if !first {
                second = true;
                assert(is_second(all[i as int]));
            }
        }
        proof {
            if before {
                let j = choose|j: int| #![trigger all[j]] 0 <= j < i && is_second(all[j]);
                assert(0 <= j < i + 1 && is_second(all[j]));
            }
        }
        i += 1;
    }
    (count, second)
}

/// How many encodings a post-processor makes of `k`, where special tokens are
/// left out; `None` where it has no template for so many, or the template asks
/// for one that is not there.
pub open spec fn encodings_after(t: JsonTree, k: nat, n: nat) -> Option<nat>
    decreases n, 0nat,
{
    let kind = kind_of(t);
    if t == JsonTree::Null || kind == "BertProcessing"@ || kind == "ByteLevel"@ || kind
        == "RobertaProcessing"@ {
        Some(k)
    } else if kind == "TemplateProcessing"@ {
        match (t.items_at("single"@), t.items_at("pair"@)) {
            (Some(single), _) if k == 1 => if asks_for_second(single) {
                None
            } else {
                Some(sequences(single, single.len()))
            },
            (_, Some(pair)) if k == 2 => Some(sequences(pair, pair.len())),
            _ => None,
        }
    } else if kind == "Sequence"@ && n > 0 {
        match t.items_at("processors"@) {
            Some(items) => encodings_through(items, items.len(), k, (n - 1) as nat),
            None => None,
        }
    } else {
        None
    }
}

/// How many encodings the first `m` of some post-processors make of `k`.
pub open spec fn encodings_through(items: Seq<JsonTree>, m: nat, k: nat, n: nat) -> Option<nat>
    decreases n, m + 1,
{
    if m == 0 {
        Some(k)
    } else {
        match encodings_through(items, (m - 1) as nat, k, n) {
            Some(j) => encodings_after(items[m - 1], j, n),
            None => None,
        }
    }
}

/// How many encodings a post-processor makes of `k`.
pub fn count_encodings(json: &Json, k: usize, n: usize) -> (after: Option<usize>)
    ensures
        match after {
            Some(m) => encodings_after(json@, k as nat, n as nat) == Some(m as nat),
            None => encodings_after(json@, k as nat, n as nat) is None,
        },
    decreases n,
{
    if let Json::Null = json {
        return Some(k);
    }
    let kind: &str = kind(json);
    if same_text(kind, "BertProcessing") || same_text(kind, "ByteLevel") || same_text(
        kind,
        "RobertaProcessing",
    ) {
        return Some(k);
    }
    if same_text(kind, "TemplateProcessing") {
        if k == 1 {
            return match json.get_array("single") {
                Some(single) => {
                    let (count, second): (usize, bool) = count_sequences(single);
                    if second {
                        None
                    } else {
                        Some(count)
                    }
                },
                None => None,
            };
        }
        if k == 2 {
            return match json.get_array("pair") {
                Some(pair) => Some(count_sequences(pair).0),
                None => None,
            };
        }
        return None;
    }
    if !same_text(kind, "Sequence") || n == 0 {
        return None;
    }
    let items: &Vec<Json> = match json.get_array("processors") {
        Some(items) => items,
        None => return None,
    };
    let ghost all = trees(items@);
    let ghost depth = (n - 1) as nat;
    let mut have: Option<usize> = Some(k);
    let mut i: usize = 0;
    while i < items.len()
        invariant
            i <= items@.len(),
            0 < n,
            depth == n - 1,
            all == trees(items@),
            match have {
                Some(m) => encodings_through(all, i as nat, k as nat, depth) == Some(m as nat),
                None => encodings_through(all, i as nat, k as nat, depth) is None,
            },
        decreases items@.len() - i,
    {
        assert(all[i as int] == items@[i as int]@);
        have = match have {
            Some(m) => count_encodings(&items[i], m, n - 1),
            None => None,
        };
        i += 1;
    }
    have
}

/// A text that is cut is cut where its parts can overlap as asked.
pub open spec fn cuts_any(t: JsonTree) -> bool {
    t == JsonTree::Null || match (t.uint_at("max_length"@), t.uint_at("stride"@)) {
        (Some(max), Some(stride)) => max == 0 || stride < max,
        _ => false,
    }
}

/// Whether a text can be cut as asked.
pub fn truncation_cuts_any(json: &Json) -> (yes: bool)
    ensures
        yes == cuts_any(json@),
{
    if let Json::Null = json {
        return true;
    }
    match (json.get_u64("max_length"), json.get_u64("stride")) {
        (Some(max), Some(stride)) => max == 0 || stride < max,
        _ => false,
    }
}

/// A text is padded to no more than the limit.
pub open spec fn pads_within(t: JsonTree) -> bool {
    t == JsonTree::Null || {
        &&& t.text_at("strategy"@) is Some || (t.member("strategy"@) matches Some(s) && s.uint_at(
            "Fixed"@,
        ) matches Some(n) && n <= PADDING_LIMIT)
        &&& t.member("pad_to_multiple_of"@) == Some(JsonTree::Null) || (t.uint_at(
            "pad_to_multiple_of"@,
        ) matches Some(n) && n <= PADDING_LIMIT)
    }
}

/// Whether a text is padded to no more than the limit.
pub fn padding_is_within(json: &Json) -> (yes: bool)
    ensures
        yes == pads_within(json@),
{
    if let Json::Null = json {
        return true;
    }
    let strategy: bool = match json.get("strategy") {
        Some(s) => match s.as_str() {
            Some(_) => true,
            None => match s.get_u64("Fixed") {
                Some(n) => n <= PADDING_LIMIT,
                None => false,
            },
        },
        None => false,
    };
    let multiple: bool = match json.get("pad_to_multiple_of") {
        Some(Json::Null) => true,
        Some(m) => match m.as_u64() {
            Some(n) => n <= PADDING_LIMIT,
            None => false,
        },
        None => false,
    };
    strategy && multiple
}

/// Some token takes the spaces on this side of it along.
pub open spec fn strips(tokens: Seq<JsonTree>, side: Seq<char>) -> bool {
    exists|i: int|
        #![trigger tokens[i]]
        0 <= i < tokens.len() && tokens[i].flag_at(side) != Some(false)
}

fn any_strips(tokens: &Vec<Json>, side: &str) -> (yes: bool)
    ensures
        yes == strips(trees(tokens@), side@),
{
    let ghost all = trees(tokens@);
    let mut i: usize = 0;
    while i < tokens.len()
        invariant
            i <= tokens@.len(),
            all == trees(tokens@),
            forall|j: int|
                #![trigger all[j]]
                0 <= j < i ==> all[j].flag_at(side@) == Some(false),
        decreases tokens@.len() - i,
    {
        assert(all[i as int] == tokens@[i as int]@);
        match tokens[i].get_bool(side) {
            Some(false) => {},
            _ => {
                assert(all[i as int].flag_at(side@) != Some(false));
                return true;
            },
        }
        i += 1;
    }
    false
}

/// No two added tokens can claim the same spaces: where one takes those behind
/// it along and another those in front of it, the second could end before it
/// starts.
pub open spec fn claims_once(t: JsonTree) -> bool {
    t matches JsonTree::Array(tokens) && !(strips(tokens, "lstrip"@) && strips(tokens, "rstrip"@))
}

/// Whether no two added tokens can claim the same spaces.
pub fn tokens_claim_once(json: &Json) -> (yes: bool)
    ensures
        yes == claims_once(json@),
{
    match json {
        Json::Array(tokens) => !(any_strips(tokens, "lstrip") && any_strips(tokens, "rstrip")),
        _ => false,
    }
}

/// A tokenizer with these parts encodes any text: its normalizer,
/// pre-tokenizer, post-processor, truncation, padding, the added tokens that it
/// shows, and the ids of all that were added.
pub open spec fn encodes_any(t: JsonTree) -> bool {
    &&& t matches JsonTree::Array(parts)
    &&& parts.len() == 7
    &&& normalizes(parts[0], parts[6])
    &&& splits_any(parts[1], DEPTH as nat)
    &&& encodings_after(parts[2], 1, DEPTH as nat) is Some
    &&& cuts_any(parts[3])
    &&& pads_within(parts[4])
    &&& claims_once(parts[5])
}

/// Whether a tokenizer with these parts encodes any text.
pub fn parts_encode_any(json: &Json) -> (yes: bool)
    ensures
        yes == encodes_any(json@),
{
    match json {
        Json::Array(parts) => {
            if parts.len() != 7 {
                return false;
            }
            proof {
                let all = trees(parts@);
                assert(all[0] == parts@[0]@ && all[1] == parts@[1]@ && all[2] == parts@[2]@);
                assert(all[3] == parts@[3]@ && all[4] == parts@[4]@ && all[5] == parts@[5]@);
                assert(all[6] == parts@[6]@);
            }
            (normalizer_keeps_text(&parts[0], DEPTH) || (normalizer_keeps_words(&parts[0], DEPTH)
                && are_words(&parts[6]))) && pre_tokenizer_splits_any(&parts[1], DEPTH)
                && count_encodings(&parts[2], 1, DEPTH).is_some() && truncation_cuts_any(&parts[3])
                && padding_is_within(&parts[4]) && tokens_claim_once(&parts[5])
        },
        _ => false,
    }
}

/// A token that consists of nothing but the character that is stripped leaves
/// room for all that is stripped at both ends.
pub open spec fn strips_apart(token: Seq<char>, c: char, start: nat, stop: nat) -> bool {
    let front = if start < token.len() {
        start
    } else {
        token.len()
    };
    (exists|i: int| #![trigger token[i]] 0 <= i < token.len() && token[i] != c) || front + stop
        <= token.len()
}

fn can_strip(token: &str, c: char, start: u64, stop: u64) -> (yes: bool)
    ensures
        yes == strips_apart(token@, c, start as nat, stop as nat),
{
    let chars: Vec<char> = chars_of(token);
    let mut i: usize = 0;
    while i < chars.len()
        invariant
            i <= chars@.len(),
            chars@ == token@,
            forall|j: int| #![trigger chars@[j]] 0 <= j < i ==> chars@[j] == c,
        decreases chars@.len() - i,
    {
        if chars[i] != c {
            assert(token@[i as int] != c);
            return true;
        }
        i += 1;
    }
    let len: u64 = chars.len() as u64;
    let front: u64 = if start < len {
        start
    } else {
        len
    };
    stop <= len - front
}

/// The texts of a list of tokens.
pub open spec fn texts_of(tokens: Seq<String>) -> Seq<Seq<char>> {
    Seq::new(tokens.len(), |i: int| tokens[i]@)
}

/// A decoder that strips characters takes these tokens: any, where it leaves
/// their ends alone, else those that leave room for what it strips.
pub open spec fn strips_all(t: JsonTree, tokens: Option<Seq<Seq<char>>>) -> bool {
    match (t.text_at("content"@), t.uint_at("start"@), t.uint_at("stop"@)) {
        (Some(c), Some(start), Some(stop)) => stop == 0 || {
            &&& c.len() == 1
            &&& tokens matches Some(all)
            &&& forall|i: int|
                #![trigger all[i]]
                0 <= i < all.len() ==> strips_apart(all[i], c[0], start as nat, stop as nat)
        },
        _ => false,
    }
}

fn can_strip_all(json: &Json, tokens: Option<&Vec<String>>) -> (yes: bool)
    ensures
        yes == strips_all(
            json@,
            match tokens {
                Some(t) => Some(texts_of(t@)),
                None => None,
            },
        ),
{
    let (content, start, stop): (&str, u64, u64) = match (
        json.get_str("content"),
        json.get_u64("start"),
        json.get_u64("stop"),
    ) {
        (Some(c), Some(start), Some(stop)) => (c, start, stop),
        _ => return false,
    };
    if stop == 0 {
        return true;
    }
    let content: Vec<char> = chars_of(content);
    if content.len() != 1 {
        return false;
    }
    let c: char = content[0];
    match tokens {
        Some(tokens) => {
            let ghost all = texts_of(tokens@);
            let mut ok: bool = true;
            let mut i: usize = 0;
            while i < tokens.len() && ok
                invariant
                    i <= tokens@.len(),
                    all == texts_of(tokens@),
                    ok ==> forall|j: int|
                        #![trigger all[j]]
                        0 <= j < i ==> strips_apart(all[j], c, start as nat, stop as nat),
                    !ok ==> exists|j: int|
                        #![trigger all[j]]
                        0 <= j < all.len() && !strips_apart(all[j], c, start as nat, stop as nat),
                decreases tokens@.len() - i,
            {
                assert(all[i as int] == tokens@[i as int]@);
                ok = can_strip(tokens[i].as_str(), c, start, stop);
                i += 1;
            }
            proof {
                if !ok {
                    let j = choose|j: int|
                        #![trigger all[j]]
                        0 <= j < all.len() && !strips_apart(
                            all[j],
                            c,
                            start as nat,
                            stop as nat,
                        );
                    assert(Some(all)->0[j] == all[j]);
                }
            }
            ok
        },
        None => false,
    }
}

/// Whether a decoder takes a list of tokens, which are known or of which it is
/// known that there are `some`; and whether it then leaves some. `None` where
/// it may not take them.
pub open spec fn leaves_some(
    t: JsonTree,
    tokens: Option<Seq<Seq<char>>>,
    some: bool,
    n: nat,
) -> Option<bool>
    decreases n, 0nat,
{
    let k = kind_of(t);
    if t == JsonTree::Null || k == "ByteFallback"@ || k == "Metaspace"@ || k == "WordPiece"@ {
        Some(some)
    } else if k == "ByteLevel"@ || k == "Fuse"@ {
        Some(true)
    } else if k == "CTC"@ {
        Some(false)
    } else if k == "BPEDecoder"@ {
        if some {
            Some(true)
        } else {
            None
        }
    } else if k == "Replace"@ {
        if has_steady(t) {
            Some(some)
        } else {
            None
        }
    } else if k == "Strip"@ {
        if strips_all(t, tokens) {
            Some(some)
        } else {
            None
        }
    } else if k == "Sequence"@ && n > 0 {
        match t.items_at("decoders"@) {
            Some(items) => leaves_some_through(items, items.len(), tokens, some, (n - 1) as nat),
            None => None,
        }
    } else {
        None
    }
}

/// The same of the first `m` of some decoders, one behind the other: only the
/// first sees the tokens as they are known.
pub open spec fn leaves_some_through(
    items: Seq<JsonTree>,
    m: nat,
    tokens: Option<Seq<Seq<char>>>,
    some: bool,
    n: nat,
) -> Option<bool>
    decreases n, m + 1,
{
    if m == 0 {
        Some(some)
    } else {
        match leaves_some_through(items, (m - 1) as nat, tokens, some, n) {
            Some(left) => leaves_some(
                items[m - 1],
                if m == 1 {
                    tokens
                } else {
                    None
                },
                left,
                n,
            ),
            None => None,
        }
    }
}

/// Whether a decoder takes a list of tokens, and leaves some.
pub fn decoder_leaves_some(json: &Json, tokens: Option<&Vec<String>>, some: bool, n: usize) -> (left:
    Option<bool>)
    ensures
        left == leaves_some(
            json@,
            match tokens {
                Some(t) => Some(texts_of(t@)),
                None => None,
            },
            some,
            n as nat,
        ),
    decreases n,
{
    if let Json::Null = json {
        return Some(some);
    }
    let k: &str = kind(json);
    if same_text(k, "ByteFallback") || same_text(k, "Metaspace") || same_text(k, "WordPiece") {
        return Some(some);
    }
    if same_text(k, "ByteLevel") || same_text(k, "Fuse") {
        return Some(true);
    }
    if same_text(k, "CTC") {
        return Some(false);
    }
    if same_text(k, "BPEDecoder") {
        return if some {
            Some(true)
        } else {
            None
        };
    }
    if same_text(k, "Replace") {
        return if holds_steady(json) {
            Some(some)
        } else {
            None
        };
    }
    if same_text(k, "Strip") {
        return if can_strip_all(json, tokens) {
            Some(some)
        } else {
            None
        };
    }
    if !same_text(k, "Sequence") || n == 0 {
        return None;
    }
    let items: &Vec<Json> = match json.get_array("decoders") {
        Some(items) => items,
        None => return None,
    };
    let ghost all = trees(items@);
    let ghost depth = (n - 1) as nat;
    let ghost known = match tokens {
        Some(t) => Some(texts_of(t@)),
        None => None,
    };
    let mut left: Option<bool> = Some(some);
    let mut i: usize = 0;
    while i < items.len()
        invariant
            i <= items@.len(),
            0 < n,
            depth == n - 1,
            all == trees(items@),
            known == (match tokens {
                Some(t) => Some(texts_of(t@)),
                None => None,
            }),
            left == leaves_some_through(all, i as nat, known, some, depth),
        decreases items@.len() - i,
    {
        assert(all[i as int] == items@[i as int]@);
        let seen: Option<&Vec<String>> = if i == 0 {
            tokens
        } else {
            None
        };
        left = match left {
            Some(some) => decoder_leaves_some(&items[i], seen, some, n - 1),
            None => None,
        };
        i += 1;
    }
    left
}

} // verus!
