//! The codec: mapping visible characters to hidden tag characters and back,
//! with a delimiter protocol that lets the hidden stream be located inside
//! arbitrary text.

use vstd::prelude::*;
use vstd::string::StrSliceExecFns;

verus! {

/// Offset added to a character's code point to move it into the Tags block.
pub const TAG_BASE: u32 = 0xE0000;

/// Sentinel opening every envelope (the language-tag introducer).
pub const START_TAG: char = '\u{E0001}';

/// First half of the closing sentinel pair.
pub const FULL_STOP_TAG: char = '\u{E002E}';

/// Second half of the closing sentinel pair.
pub const CANCEL_TAG: char = '\u{E007F}';

/// Hidden character substituted when a code point cannot be shifted into the
/// Tags block: the hidden form of `'?'`.
pub const FALLBACK_TAG: char = '\u{E003F}';

/// Visible character substituted when a hidden character does not shift back
/// to a valid code point.
pub const FALLBACK_CHAR: char = '?';

/// A Unicode scalar value: any code point except the surrogate range.
pub open spec fn is_scalar_value(v: int) -> bool {
    (0 <= v && v < 0xD800) || (0xE000 <= v && v <= 0x10FFFF)
}

/// The hidden form of one visible character: its code point shifted up by
/// [`TAG_BASE`], or [`FALLBACK_TAG`] when the shifted value is not a scalar
/// value.
pub open spec fn hidden_of(c: char) -> char {
    if is_scalar_value(c as u32 + TAG_BASE) {
        ((c as u32 + TAG_BASE) as u32) as char
    } else {
        FALLBACK_TAG
    }
}

/// Whether a character survives the round trip: shifting it by [`TAG_BASE`]
/// lands on a valid scalar value, so encoding does not fall back to
/// [`FALLBACK_TAG`].
pub open spec fn encodable(c: char) -> bool {
    is_scalar_value(c as u32 + TAG_BASE)
}

/// Relies on char::from_u32: returns `Some` exactly when the argument is a
/// Unicode scalar value, and the character returned has that code point.
pub assume_specification[ char::from_u32 ](i: u32) -> (r: Option<char>)
    ensures
        r is Some <==> is_scalar_value(i as int),
        r matches Some(c) ==> c as u32 == i,
;

/// Shift one character into the Tags block, falling back to [`FALLBACK_TAG`]
/// when the shifted code point is not a valid scalar value.
fn hide_char(c: char) -> (r: char)
    ensures
        r == hidden_of(c),
{
    proof {
        vstd::utf8::char_is_scalar(c);
    }
    let v: u32 = c as u32;
    match char::from_u32(v + TAG_BASE) {
        Some(h) => {
            proof {
                vstd::utf8::char_u32_cast(h, (v + TAG_BASE) as u32);
            }
            h
        },
        None => FALLBACK_TAG,
    }
}

/// The visible form of one hidden character: its code point shifted down by
/// [`TAG_BASE`], or [`FALLBACK_CHAR`] when the shifted value is not a scalar
/// value. Meaningful only for characters at or above [`TAG_BASE`]; decoding
/// rejects the others before this map is applied.
pub open spec fn unhidden_of(c: char) -> char {
    if is_scalar_value(c as u32 - TAG_BASE) {
        ((c as u32 - TAG_BASE) as u32) as char
    } else {
        FALLBACK_CHAR
    }
}

/// Shift one hidden character back out of the Tags block, falling back to
/// [`FALLBACK_CHAR`] when the shifted code point is not a valid scalar value.
fn unhide_char(c: char) -> (r: char)
    requires
        c as u32 >= TAG_BASE,
    ensures
        r == unhidden_of(c),
{
    let v: u32 = c as u32;
    match char::from_u32(v - TAG_BASE) {
        Some(ch) => {
            proof {
                vstd::utf8::char_u32_cast(ch, (v - TAG_BASE) as u32);
            }
            ch
        },
        None => FALLBACK_CHAR,
    }
}

/// The envelope produced for a payload: the start sentinel, one hidden
/// character per payload character in order, then the closing sentinel pair.
pub open spec fn spec_encode(s: Seq<char>) -> Seq<char> {
    seq![START_TAG] + s.map_values(|c: char| hidden_of(c)) + seq![FULL_STOP_TAG, CANCEL_TAG]
}

/// Why a decode failed.
#[derive(Clone, Copy, Debug, PartialEq, Eq, Structural)]
pub enum DecodeError {
    /// The input had no characters at all.
    EmptyInput,
    /// The first character was not [`START_TAG`].
    MissingStartTag,
    /// No [`FULL_STOP_TAG`] immediately followed by [`CANCEL_TAG`] anywhere.
    MissingEndMarkers,
    /// A payload character below [`TAG_BASE`]; carries the offender.
    InvalidHiddenCharacter(char),
}

/// Whether position `i` ends a closing sentinel pair: [`CANCEL_TAG`] at `i`
/// with [`FULL_STOP_TAG`] immediately before it.
pub open spec fn is_end_pair_at(s: Seq<char>, i: int) -> bool {
    1 <= i && i < s.len() && s[i] == CANCEL_TAG && s[i - 1] == FULL_STOP_TAG
}

/// The boundary found by scanning backward from position `from`: the largest
/// `i <= from` ending a closing sentinel pair, reported as `i - 1` (the
/// position of the [`FULL_STOP_TAG`]), or `None` when there is no such pair.
pub open spec fn find_end_from(s: Seq<char>, from: int) -> Option<int>
    decreases from,
{
    if from <= 0 {
        None
    } else if is_end_pair_at(s, from) {
        Some(from - 1)
    } else {
        find_end_from(s, from - 1)
    }
}

/// The closing boundary of an envelope: the position of the [`FULL_STOP_TAG`]
/// of the rightmost adjacent FULL_STOP/CANCEL pair, or `None` when no such
/// pair exists.
pub open spec fn spec_find_end(s: Seq<char>) -> Option<int> {
    find_end_from(s, s.len() - 1)
}

/// The result of decoding the payload slice `s[from..end]`: the characters
/// shifted back down, or the first (leftmost) character below [`TAG_BASE`]
/// as an error.
pub open spec fn spec_decode_payload(s: Seq<char>, from: int, end: int) -> Result<
    Seq<char>,
    DecodeError,
>
    decreases end - from,
{
    if from >= end {
        Ok(Seq::empty())
    } else if (s[from] as u32) < TAG_BASE {
        Err(DecodeError::InvalidHiddenCharacter(s[from]))
    } else {
        match spec_decode_payload(s, from + 1, end) {
            Ok(rest) => Ok(seq![unhidden_of(s[from])] + rest),
            Err(e) => Err(e),
        }
    }
}

/// The result of decoding an arbitrary character sequence: each check of the
/// envelope protocol in order, then the payload between the start sentinel
/// and the rightmost closing boundary.
pub open spec fn spec_decode(s: Seq<char>) -> Result<Seq<char>, DecodeError> {
    if s.len() == 0 {
        Err(DecodeError::EmptyInput)
    } else if s[0] != START_TAG {
        Err(DecodeError::MissingStartTag)
    } else {
        match spec_find_end(s) {
            None => Err(DecodeError::MissingEndMarkers),
            Some(end) => spec_decode_payload(s, 1, end),
        }
    }
}

/// Relies on String::push: appends exactly one character at the end.
#[verifier::external_body]
fn push_char(s: &mut String, c: char)
    ensures
        final(s)@ == old(s)@.push(c),
{
    s.push(c);
}

/// The encoder/decoder. It carries no state: both directions are pure
/// functions of their input.
pub struct HiddenTextTool {}

impl HiddenTextTool {
    /// A fresh tool.
    pub fn new() -> Self {
        Self {}
    }

    /// Wrap `input` in an envelope: the start sentinel, every character
    /// shifted into the Tags block, then the closing sentinel pair. Never
    /// fails; a character that cannot be shifted becomes [`FALLBACK_TAG`].
    pub fn encode_text(&self, input: &str) -> (r: String)
        ensures
            r@ == spec_encode(input@),
            r@.len() == input@.len() + 3,
    {
        let n: usize = input.unicode_len();
        let mut out = String::new();
        push_char(&mut out, START_TAG);
        let mut i: usize = 0;
        while i < n
            invariant
                i <= n,
                n == input@.len(),
                out@ == seq![START_TAG] + input@.subrange(0, i as int).map_values(
                    |c: char| hidden_of(c),
                ),
            decreases n - i,
        {
            let c = input.get_char(i);
            let h = hide_char(c);
            push_char(&mut out, h);
            proof {
                assert(input@.subrange(0, i + 1).map_values(|ch: char| hidden_of(ch))
                    =~= input@.subrange(0, i as int).map_values(|ch: char| hidden_of(ch)).push(
                    hidden_of(input@[i as int]),
                ));
            }
            i = i + 1;
        }
        push_char(&mut out, FULL_STOP_TAG);
        push_char(&mut out, CANCEL_TAG);
        proof {
            assert(input@.subrange(0, n as int) =~= input@);
            assert(out@ =~= spec_encode(input@));
        }
        out
    }

    /// Open an envelope: check the start sentinel, find the rightmost
    /// closing FULL_STOP/CANCEL pair, and shift every payload character back
    /// out of the Tags block. Fails exactly as [`spec_decode`] says: on empty
    /// input, on a missing start sentinel, on a missing closing pair, and on
    /// the leftmost payload character below [`TAG_BASE`].
    pub fn decode_text(&self, input: &str) -> (r: Result<String, DecodeError>)
        ensures
            match r {
                Ok(out) => spec_decode(input@) == Ok::<Seq<char>, DecodeError>(out@),
                Err(e) => spec_decode(input@) == Err::<Seq<char>, DecodeError>(e),
            },
    {
        let n: usize = input.unicode_len();
        if n == 0 {
            return Err(DecodeError::EmptyInput);
        }
        if input.get_char(0) != START_TAG {
            return Err(DecodeError::MissingStartTag);
        }
        let mut j: usize = n - 1;
        let mut boundary: usize = 0;
        let mut found: bool = false;
        while !found && j >= 1
            invariant
                n == input@.len(),
                1 <= n,
                j <= n - 1,
                !found ==> spec_find_end(input@) == find_end_from(input@, j as int),
                found ==> spec_find_end(input@) == Some(boundary as int),
            decreases (if found { 0int } else { j as int + 1 }),
        {
            if input.get_char(j) == CANCEL_TAG && input.get_char(j - 1) == FULL_STOP_TAG {
                boundary = j - 1;
                found = true;
            } else {
                j = j - 1;
            }
        }
        if !found {
            return Err(DecodeError::MissingEndMarkers);
        }
        let end: usize = boundary;
        proof {
            lemma_find_end_some(input@, n - 1, end as int);
        }
        let mut out = String::new();
        let mut k: usize = 1;
        while k < end
            invariant
                n == input@.len(),
                spec_find_end(input@) == Some(end as int),
                1 <= end < n,
                1 <= k <= end,
                input@[0] == START_TAG,
                forall|m: int| 1 <= m < k ==> (input@[m] as u32) >= TAG_BASE,
                out@ == input@.subrange(1, k as int).map_values(|c: char| unhidden_of(c)),
            decreases end - k,
        {
            let c = input.get_char(k);
            if (c as u32) < TAG_BASE {
                proof {
                    lemma_payload_err(input@, 1, k as int, end as int);
                }
                return Err(DecodeError::InvalidHiddenCharacter(c));
            }
            let u = unhide_char(c);
            push_char(&mut out, u);
            proof {
                assert(input@.subrange(1, k + 1).map_values(|ch: char| unhidden_of(ch))
                    =~= input@.subrange(1, k as int).map_values(|ch: char| unhidden_of(ch)).push(
                    unhidden_of(input@[k as int]),
                ));
            }
            k = k + 1;
        }
        proof {
            lemma_payload_ok(input@, 1, end as int);
        }
        Ok(out)
    }
}

/// A boundary reported by the backward scan really ends a sentinel pair, and
/// lies at or below the position the scan started from.
pub(crate) proof fn lemma_find_end_some(s: Seq<char>, from: int, b: int)
    requires
        find_end_from(s, from) == Some(b),
    ensures
        is_end_pair_at(s, b + 1),
        b + 1 <= from,
    decreases from,
{
    if from > 0 && !is_end_pair_at(s, from) {
        lemma_find_end_some(s, from - 1, b);
    }
}

/// Decoding a payload slice whose characters all lie at or above
/// [`TAG_BASE`] succeeds, and yields exactly the shifted-down characters.
pub(crate) proof fn lemma_payload_ok(s: Seq<char>, from: int, end: int)
    requires
        0 <= from <= end <= s.len(),
        forall|m: int| from <= m < end ==> (s[m] as u32) >= TAG_BASE,
    ensures
        spec_decode_payload(s, from, end) == Ok::<Seq<char>, DecodeError>(
            s.subrange(from, end).map_values(|c: char| unhidden_of(c)),
        ),
    decreases end - from,
{
    if from >= end {
        assert(s.subrange(from, end).map_values(|c: char| unhidden_of(c))
            =~= Seq::<char>::empty());
    } else {
        lemma_payload_ok(s, from + 1, end);
        assert(s.subrange(from, end).map_values(|c: char| unhidden_of(c)) =~= seq![
            unhidden_of(s[from]),
        ] + s.subrange(from + 1, end).map_values(|c: char| unhidden_of(c)));
    }
}

/// Decoding a payload slice fails on its leftmost character below
/// [`TAG_BASE`], and reports that character.
proof fn lemma_payload_err(s: Seq<char>, from: int, bad: int, end: int)
    requires
        0 <= from <= bad < end <= s.len(),
        forall|m: int| from <= m < bad ==> (s[m] as u32) >= TAG_BASE,
        (s[bad] as u32) < TAG_BASE,
    ensures
        spec_decode_payload(s, from, end) == Err::<Seq<char>, DecodeError>(
            DecodeError::InvalidHiddenCharacter(s[bad]),
        ),
    decreases bad - from,
{
    if from < bad {
        lemma_payload_err(s, from + 1, bad, end);
    }
}

/// The input with one layer of surrounding matching quotes removed: the
/// first and last characters are dropped when both are `"` or both are `'`,
/// and the input is kept as it is otherwise.
pub open spec fn spec_strip_quotes(s: Seq<char>) -> Seq<char> {
    if s.len() >= 2 && ((s[0] == '"' && s[s.len() - 1] == '"') || (s[0] == '\'' && s[s.len()
        - 1] == '\'')) {
        s.subrange(1, s.len() - 1)
    } else {
        s
    }
}

/// Strip one layer of surrounding matching quotes (`"…"` or `'…'`), for
/// input pasted from a shell or from the encoder's quoted output. Anything
/// not wrapped in a matching pair is returned unchanged.
pub fn strip_quotes(text: &str) -> (r: &str)
    ensures
        r@ == spec_strip_quotes(text@),
{
    let n: usize = text.unicode_len();
    if n >= 2 {
        let first = text.get_char(0);
        let last = text.get_char(n - 1);
        if (first == '"' && last == '"') || (first == '\'' && last == '\'') {
            return text.substring_char(1, n - 1);
        }
    }
    text
}

} // verus!
