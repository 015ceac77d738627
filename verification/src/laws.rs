//! The codec's guarantees that relate several functions, each stated over
//! the specification model and proved once for all inputs.

use vstd::prelude::*;

use crate::codec::{
    encodable, find_end_from, hidden_of, is_end_pair_at, lemma_payload_ok, spec_decode,
    spec_encode, spec_find_end, unhidden_of, DecodeError, CANCEL_TAG, FALLBACK_CHAR, FALLBACK_TAG,
    FULL_STOP_TAG, START_TAG, TAG_BASE,
};

verus! {

/// Law: shifting an encodable character into the Tags block and back out
/// returns the very same character.
pub proof fn lemma_hide_unhide(c: char)
    requires
        encodable(c),
    ensures
        unhidden_of(hidden_of(c)) == c,
{
    vstd::utf8::char_is_scalar(c);
    vstd::utf8::char_u32_cast(c, c as u32);
}

/// Law: decoding an envelope made from any payload of encodable characters
/// gives back exactly that payload.
pub proof fn lemma_round_trip(s: Seq<char>)
    requires
        forall|i: int| 0 <= i < s.len() ==> encodable(#[trigger] s[i]),
    ensures
        spec_decode(spec_encode(s)) == Ok::<Seq<char>, DecodeError>(s),
{
    let e = spec_encode(s);
    let len = s.len() as int;
    assert(e[0] == START_TAG);
    assert(e[len + 2] == CANCEL_TAG);
    assert(e[len + 1] == FULL_STOP_TAG);
    assert(is_end_pair_at(e, len + 2));
    assert(spec_find_end(e) == Some(len + 1));
    assert forall|m: int| 1 <= m < len + 1 implies (e[m] as u32) >= TAG_BASE by {
        assert(e[m] == hidden_of(s[m - 1]));
    }
    lemma_payload_ok(e, 1, len + 1);
    let decoded = e.subrange(1, len + 1).map_values(|c: char| unhidden_of(c));
    assert forall|m: int| 0 <= m < len implies decoded[m] == s[m] by {
        assert(e.subrange(1, len + 1)[m] == hidden_of(s[m]));
        lemma_hide_unhide(s[m]);
    }
    assert(decoded =~= s);
}

/// The backward scan never stops short: starting anywhere at or above a
/// position that ends a sentinel pair, it reports that pair or a later one.
proof fn lemma_find_end_at_least(s: Seq<char>, from: int, i: int)
    requires
        is_end_pair_at(s, i),
        i <= from,
    ensures
        match find_end_from(s, from) {
            Some(b) => b >= i - 1,
            None => false,
        },
    decreases from,
{
    if !is_end_pair_at(s, from) {
        lemma_find_end_at_least(s, from - 1, i);
    }
}

/// Law: the closing boundary the decoder uses is the rightmost one. Wherever
/// a FULL_STOP/CANCEL pair stands, the boundary found lies at or beyond it,
/// and itself ends such a pair.
pub proof fn lemma_rightmost_boundary(s: Seq<char>, i: int)
    requires
        is_end_pair_at(s, i),
    ensures
        match spec_find_end(s) {
            Some(b) => b >= i - 1 && is_end_pair_at(s, b + 1),
            None => false,
        },
{
    lemma_find_end_at_least(s, s.len() - 1, i);
    if let Some(b) = spec_find_end(s) {
        crate::codec::lemma_find_end_some(s, s.len() - 1, b);
    }
}

/// A character's hidden form is the FULL_STOP sentinel exactly for `'.'`,
/// and the CANCEL sentinel exactly for the delete control character: the
/// only two payload characters that can plant a closing pair of their own.
proof fn lemma_hidden_sentinels(c: char)
    ensures
        (hidden_of(c) == FULL_STOP_TAG) <==> c == '.',
        (hidden_of(c) == CANCEL_TAG) <==> c == '\u{7F}',
{
    vstd::utf8::char_is_scalar(c);
    vstd::utf8::char_u32_cast(c, c as u32);
}

/// The backward scan finds nothing when no position ends a sentinel pair.
proof fn lemma_find_end_none(s: Seq<char>, from: int)
    requires
        forall|i: int| 0 < i <= from ==> !is_end_pair_at(s, i),
    ensures
        find_end_from(s, from) == None::<int>,
    decreases from,
{
    if from > 0 {
        lemma_find_end_none(s, from - 1);
    }
}

/// Law: an envelope with its closing sentinel pair truncated off no longer
/// decodes; the decoder reports the missing end markers. This holds of every
/// payload in which `'.'` is never directly followed by the delete control
/// character: that one adjacency hides to a FULL_STOP/CANCEL pair of its
/// own, which the truncated envelope would then close on.
pub proof fn lemma_missing_terminator(s: Seq<char>)
    requires
        forall|i: int| 0 <= i < s.len() - 1 ==> !(#[trigger] s[i] == '.' && s[i + 1] == '\u{7F}'),
    ensures
        spec_decode(spec_encode(s).subrange(0, s.len() as int + 1)) == Err::<Seq<char>, DecodeError>(
            DecodeError::MissingEndMarkers,
        ),
{
    let e = spec_encode(s);
    let t = e.subrange(0, s.len() as int + 1);
    let len = s.len() as int;
    assert(t[0] == START_TAG);
    assert forall|i: int| 0 < i <= len implies !is_end_pair_at(t, i) by {
        if i >= 2 {
            assert(t[i] == hidden_of(s[i - 1]));
            assert(t[i - 1] == hidden_of(s[i - 2]));
            lemma_hidden_sentinels(s[i - 1]);
            lemma_hidden_sentinels(s[i - 2]);
            assert(!(s[i - 2] == '.' && s[i - 1] == '\u{7F}'));
        }
    }
    lemma_find_end_none(t, len);
}

/// Law: a character that cannot be shifted into the Tags block is encoded as
/// the hidden question mark, and its envelope decodes to a literal `'?'`
/// rather than to the original character.
pub proof fn lemma_fallback_substitution(c: char)
    requires
        !encodable(c),
    ensures
        hidden_of(c) == FALLBACK_TAG,
        spec_decode(spec_encode(seq![c])) == Ok::<Seq<char>, DecodeError>(seq![FALLBACK_CHAR]),
{
    let e = spec_encode(seq![c]);
    assert(e[0] == START_TAG);
    assert(e[1] == FALLBACK_TAG);
    assert(e[2] == FULL_STOP_TAG);
    assert(e[3] == CANCEL_TAG);
    assert(is_end_pair_at(e, 3));
    assert(spec_find_end(e) == Some(2int));
    lemma_payload_ok(e, 1, 2);
    assert(unhidden_of(FALLBACK_TAG) == FALLBACK_CHAR);
    assert(e.subrange(1, 2).map_values(|ch: char| unhidden_of(ch)) =~= seq![FALLBACK_CHAR]);
}

} // verus!
