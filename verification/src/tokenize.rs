//! Tokenizers: turning raw text into the base token sequence.
//!
//! Offsets are byte offsets into the original input, stated through vstd's
//! UTF-8 model: the byte offset of character index `i` is the length of the
//! UTF-8 encoding of the first `i` characters.

use vstd::prelude::*;

use vstd::string::StrSliceExecFns;
use vstd::string::StringExecFns;
use vstd::utf8::encode_utf8;

use crate::token::{Token, TokenView};

verus! {

/// How raw text is cut into base tokens.
///
/// * `Raw` emits the whole input as a single token.
/// * `Simple` emits the maximal runs of alphanumeric characters; everything
///   else separates tokens and is never emitted.
/// * `Whitespace` emits the maximal runs of non-whitespace characters.
#[derive(Clone, Copy, Debug)]
pub enum Tokenizer {
    Raw,
    Simple,
    Whitespace,
}

/// What `char::is_alphanumeric` returns for a character: a fixed Unicode
/// character class, a function of the character alone.
pub uninterp spec fn alnum(c: char) -> bool;

/// Relies on `char::is_alphanumeric`: whether the character is in the
/// Unicode classes Alphabetic, Nd, Nl or No, a fixed class named by [`alnum`].
#[verifier::external_body]
fn is_alnum_char(c: char) -> (r: bool)
    ensures
        r == alnum(c),
{
    c.is_alphanumeric()
}

/// The Unicode `White_Space` characters, the class that
/// `char::is_whitespace` recognizes.
pub open spec fn white(c: char) -> bool {
    let u = c as u32;
    (0x09 <= u && u <= 0x0D) || u == 0x20 || u == 0x85 || u == 0xA0 || u == 0x1680 || (0x2000
        <= u && u <= 0x200A) || u == 0x2028 || u == 0x2029 || u == 0x202F || u == 0x205F || u
        == 0x3000
}

fn is_white_char(c: char) -> (r: bool)
    ensures
        r == white(c),
{
    let u = c as u32;
    (0x09 <= u && u <= 0x0D) || u == 0x20 || u == 0x85 || u == 0xA0 || u == 0x1680 || (0x2000
        <= u && u <= 0x200A) || u == 0x2028 || u == 0x2029 || u == 0x202F || u == 0x205F || u
        == 0x3000
}

/// Whether a character belongs inside a token for the given tokenizer.
pub open spec fn token_char(t: Tokenizer, c: char) -> bool {
    match t {
        Tokenizer::Raw => true,
        Tokenizer::Simple => alnum(c),
        Tokenizer::Whitespace => !white(c),
    }
}

fn is_token_char(t: &Tokenizer, c: char) -> (r: bool)
    ensures
        r == token_char(*t, c),
{
    match t {
        Tokenizer::Raw => true,
        Tokenizer::Simple => is_alnum_char(c),
        Tokenizer::Whitespace => !is_white_char(c),
    }
}

/// The byte offset of character index `i` in the text `s`: the length in
/// bytes of the UTF-8 encoding of the first `i` characters, read through
/// `usize` as the executable code reads it. For any text that fits in
/// memory (see [`text_fits`]) this is the encoding length itself.
pub open spec fn byte_off(s: Seq<char>, i: int) -> int {
    (encode_utf8(s.take(i)).len() as usize) as int
}

/// The view of a base token spanning character indices `[from, to)` of `s`,
/// at word position `pos`.
pub open spec fn tok_view(s: Seq<char>, from: int, to: int, pos: int) -> TokenView {
    TokenView {
        text: s.subrange(from, to),
        offset_from: byte_off(s, from),
        offset_to: byte_off(s, to),
        position: pos,
        position_length: 1,
    }
}

/// UTF-8 encoding distributes over concatenation of character sequences.
proof fn lemma_encode_utf8_concat(a: Seq<char>, b: Seq<char>)
    ensures
        encode_utf8(a + b) == encode_utf8(a) + encode_utf8(b),
    decreases a.len(),
{
    if a.len() == 0 {
        assert(a + b =~= b);
        assert(encode_utf8(a) + encode_utf8(b) =~= encode_utf8(b));
    } else {
        assert((a + b).drop_first() =~= a.drop_first() + b);
        lemma_encode_utf8_concat(a.drop_first(), b);
        assert(encode_utf8(a + b) =~= encode_utf8(a) + encode_utf8(b));
    }
}

/// Whether the whole text's UTF-8 encoding fits the machine's byte range,
/// as every text held in memory does.
pub open spec fn text_fits(s: Seq<char>) -> bool {
    encode_utf8(s).len() <= usize::MAX
}

/// Byte offsets grow with the character index: for a text that fits in
/// memory, an earlier character never sits at a later byte.
pub proof fn lemma_byte_off_monotone(s: Seq<char>, i: int, j: int)
    requires
        0 <= i <= j <= s.len(),
        text_fits(s),
    ensures
        byte_off(s, i) == encode_utf8(s.take(i)).len(),
        byte_off(s, i) <= byte_off(s, j) <= encode_utf8(s).len(),
{
    assert(s =~= s.take(j) + s.subrange(j, s.len() as int));
    lemma_encode_utf8_concat(s.take(j), s.subrange(j, s.len() as int));
    assert(s.take(j) =~= s.take(i) + s.subrange(i, j));
    lemma_encode_utf8_concat(s.take(i), s.subrange(i, j));
}

/// The end of the run of token characters that starts at index `i`: the
/// first index at or after `i` that is past the text or holds a separator.
pub open spec fn run_end(t: Tokenizer, s: Seq<char>, i: int) -> int
    decreases s.len() - i when 0 <= i <= s.len()
{
    if i >= s.len() || !token_char(t, s[i]) {
        i
    } else {
        run_end(t, s, i + 1)
    }
}

pub proof fn run_end_bounds(t: Tokenizer, s: Seq<char>, i: int)
    requires
        0 <= i <= s.len(),
    ensures
        i <= run_end(t, s, i) <= s.len(),
        i < s.len() && token_char(t, s[i]) ==> i + 1 <= run_end(t, s, i),
    decreases s.len() - i,
{
    if i < s.len() && token_char(t, s[i]) {
        run_end_bounds(t, s, i + 1);
    }
}

/// The run tokens of `s` from character index `i` on, the next one taking
/// word position `pos`: each maximal run of token characters becomes one
/// token, separators are skipped.
pub open spec fn run_tokens(t: Tokenizer, s: Seq<char>, i: int, pos: int) -> Seq<TokenView>
    decreases s.len() - i when 0 <= i <= s.len() via run_tokens_dec
{
    if i >= s.len() {
        Seq::empty()
    } else if !token_char(t, s[i]) {
        run_tokens(t, s, i + 1, pos)
    } else {
        seq![tok_view(s, i, run_end(t, s, i), pos)] + run_tokens(t, s, run_end(t, s, i), pos + 1)
    }
}

#[via_fn]
proof fn run_tokens_dec(t: Tokenizer, s: Seq<char>, i: int, pos: int) {
    if 0 <= i < s.len() && token_char(t, s[i]) {
        run_end_bounds(t, s, i);
    }
}

/// The token sequence a tokenizer produces on the text `s`.
pub open spec fn base_tokens(t: Tokenizer, s: Seq<char>) -> Seq<TokenView> {
    match t {
        Tokenizer::Raw => seq![
            TokenView {
                text: s,
                offset_from: 0,
                offset_to: byte_off(s, s.len() as int),
                position: 0,
                position_length: 1,
            },
        ],
        Tokenizer::Simple => run_tokens(t, s, 0, 0),
        Tokenizer::Whitespace => run_tokens(t, s, 0, 0),
    }
}

/// Each token's byte span is well-formed and starts at or after `lo`, its
/// position is at least `pos`, spans never overlap or run backwards, and
/// positions strictly increase along the sequence.
pub open spec fn tokens_ordered(toks: Seq<TokenView>, lo: int, pos: int) -> bool {
    &&& (forall|k: int|
        0 <= k < toks.len() ==> {
            let tv = #[trigger] toks[k];
            lo <= tv.offset_from && tv.offset_from <= tv.offset_to && pos <= tv.position
        })
    &&& (forall|k1: int, k2: int|
        #![trigger toks[k1], toks[k2]]
        0 <= k1 < k2 < toks.len() ==> toks[k1].offset_to <= toks[k2].offset_from
            && toks[k1].position < toks[k2].position)
}

proof fn lemma_run_tokens_ordered(t: Tokenizer, s: Seq<char>, i: int, pos: int)
    requires
        0 <= i <= s.len(),
        text_fits(s),
    ensures
        tokens_ordered(run_tokens(t, s, i, pos), byte_off(s, i), pos),
    decreases s.len() - i,
{
    let out = run_tokens(t, s, i, pos);
    if i >= s.len() {
    } else if !token_char(t, s[i]) {
        lemma_run_tokens_ordered(t, s, i + 1, pos);
        lemma_byte_off_monotone(s, i, i + 1);
    } else {
        let e = run_end(t, s, i);
        run_end_bounds(t, s, i);
        lemma_run_tokens_ordered(t, s, e, pos + 1);
        lemma_byte_off_monotone(s, i, e);
        let first = tok_view(s, i, e, pos);
        let rest = run_tokens(t, s, e, pos + 1);
        assert(out == seq![first] + rest);
        assert(out[0] == first);
        assert forall|k: int| 1 <= k < out.len() implies out[k] == rest[k - 1] by {
            assert((seq![first] + rest)[k] == rest[k - 1]);
        }
        assert forall|k: int|
            0 <= k < out.len() implies {
            let tv = #[trigger] out[k];
            byte_off(s, i) <= tv.offset_from && tv.offset_from <= tv.offset_to && pos
                <= tv.position
        } by {
            if k >= 1 {
                assert(rest[k - 1].offset_from >= byte_off(s, e));
            }
        }
        assert forall|k1: int, k2: int|
            #![trigger out[k1], out[k2]]
            0 <= k1 < k2 < out.len() implies out[k1].offset_to <= out[k2].offset_from
            && out[k1].position < out[k2].position by {
            if k1 == 0 {
                assert(rest[k2 - 1].offset_from >= byte_off(s, e));
                assert(rest[k2 - 1].position >= pos + 1);
            } else {
                assert(rest[k1 - 1].offset_to <= rest[k2 - 1].offset_from);
                assert(rest[k1 - 1].position < rest[k2 - 1].position);
            }
        }
    }
}

/// Across any tokenizer's stream, spans reference the original text in
/// order: each token's byte span is well-formed, offsets are monotonically
/// non-decreasing from token to token, and positions strictly increase.
pub proof fn lemma_base_tokens_ordered(t: Tokenizer, s: Seq<char>)
    requires
        text_fits(s),
    ensures
        tokens_ordered(base_tokens(t, s), 0, 0),
{
    lemma_byte_off_monotone(s, 0, s.len() as int);
    assert(s.take(0) =~= Seq::<char>::empty());
    match t {
        Tokenizer::Raw => {
        },
        _ => {
            lemma_run_tokens_ordered(t, s, 0, 0);
        },
    }
}

/// The views of a token vector, in order.
pub open spec fn abs_tokens(ts: Seq<Token>) -> Seq<TokenView> {
    ts.map_values(|tk: Token| tk@)
}

/// Runs a tokenizer on a text, producing the base tokens eagerly.
pub fn tokenize(t: &Tokenizer, s: &str) -> (r: Vec<Token>)
    ensures
        abs_tokens(r@) == base_tokens(*t, s@),
{
    match t {
        Tokenizer::Raw => {
            let mut v: Vec<Token> = Vec::new();
            let text = String::from_str(s);
            let to = s.len();
            v.push(
                Token { text, offset_from: 0, offset_to: to, position: 0, position_length: 1 },
            );
            proof {
                assert(s@.take(s@.len() as int) =~= s@);
                assert(abs_tokens(v@) =~= base_tokens(*t, s@));
            }
            v
        },
        _ => tokenize_runs(t, s),
    }
}

/// Emits one token per maximal run of token characters, walking the text
/// left to right.
fn tokenize_runs(t: &Tokenizer, s: &str) -> (r: Vec<Token>)
    ensures
        abs_tokens(r@) == run_tokens(*t, s@, 0, 0),
{
    let n = s.unicode_len();
    let mut v: Vec<Token> = Vec::new();
    let mut i: usize = 0;
    let mut pos: usize = 0;
    while i < n
        invariant
            n == s@.len(),
            i <= n,
            pos <= i,
            run_tokens(*t, s@, 0, 0) == abs_tokens(v@) + run_tokens(*t, s@, i as int, pos as int),
        decreases n - i,
    {
        let c = s.get_char(i);
        if !is_token_char(t, c) {
            proof {
                assert(run_tokens(*t, s@, i as int, pos as int) == run_tokens(
                    *t,
                    s@,
                    i as int + 1,
                    pos as int,
                ));
            }
            i = i + 1;
        } else {
            let start = i;
            i = i + 1;
            while i < n && is_token_char(t, s.get_char(i))
                invariant
                    n == s@.len(),
                    start < i <= n,
                    token_char(*t, s@[start as int]),
                    run_end(*t, s@, start as int) == run_end(*t, s@, i as int),
                decreases n - i,
            {
                i = i + 1;
            }
            proof {
                assert(run_end(*t, s@, i as int) == i as int);
                run_end_bounds(*t, s@, start as int);
            }
            let text = String::from_str(s.substring_char(start, i));
            let from_b = s.substring_char(0, start).len();
            let to_b = s.substring_char(0, i).len();
            let tok = Token {
                text,
                offset_from: from_b,
                offset_to: to_b,
                position: pos,
                position_length: 1,
            };
            proof {
                assert(s@.take(start as int) =~= s@.subrange(0, start as int));
                assert(s@.take(i as int) =~= s@.subrange(0, i as int));
                assert(tok@ == tok_view(s@, start as int, i as int, pos as int));
                assert(run_tokens(*t, s@, start as int, pos as int) == seq![
                    tok_view(s@, start as int, i as int, pos as int),
                ] + run_tokens(*t, s@, i as int, pos as int + 1));
                assert(abs_tokens(v@.push(tok)) =~= abs_tokens(v@) + seq![tok@]);
            }
            v.push(tok);
            pos = pos + 1;
        }
    }
    proof {
        assert(run_tokens(*t, s@, i as int, pos as int) =~= Seq::<TokenView>::empty());
        assert(abs_tokens(v@) + Seq::<TokenView>::empty() =~= abs_tokens(v@));
    }
    v
}

} // verus!
