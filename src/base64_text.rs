use vstd::prelude::*;

verus! {

/// The character that stands for the six-bit value `v` in the standard base64 alphabet.
pub open spec fn b64_char(v: int) -> char {
    if v < 26 {
        ((65 + v) as u8) as char
    } else if v < 52 {
        ((97 + v - 26) as u8) as char
    } else if v < 62 {
        ((48 + v - 52) as u8) as char
    } else if v == 62 {
        '+'
    } else {
        '/'
    }
}

/// Standard base64 of `b`, with `=` padding.
pub open spec fn b64_of(b: Seq<u8>) -> Seq<char>
    decreases b.len(),
{
    if b.len() == 0 {
        Seq::empty()
    } else if b.len() == 1 {
        seq![b64_char((b[0] as int) / 4), b64_char(((b[0] as int) % 4) * 16), '=', '=']
    } else if b.len() == 2 {
        seq![
            b64_char((b[0] as int) / 4),
            b64_char(((b[0] as int) % 4) * 16 + (b[1] as int) / 16),
            b64_char(((b[1] as int) % 16) * 4),
            '=',
        ]
    } else {
        seq![
            b64_char((b[0] as int) / 4),
            b64_char(((b[0] as int) % 4) * 16 + (b[1] as int) / 16),
            b64_char(((b[1] as int) % 16) * 4 + (b[2] as int) / 64),
            b64_char((b[2] as int) % 64),
        ] + b64_of(b.subrange(3, b.len() as int))
    }
}

/// A character of base64 text: a letter, a digit, `+`, `/` or `=`.
pub open spec fn is_b64_text_char(c: char) -> bool {
    ('A' <= c && c <= 'Z') || ('a' <= c && c <= 'z') || ('0' <= c && c <= '9') || c == '+'
        || c == '/' || c == '='
}

/// Each six-bit value stands for an alphabet character.
pub proof fn lemma_b64_char_in_alphabet(v: int)
    requires
        0 <= v < 64,
    ensures
        is_b64_text_char(b64_char(v)),
{
}

/// Base64 text holds only alphabet characters and padding.
pub proof fn lemma_b64_of_chars(b: Seq<u8>)
    ensures
        forall|i: int| 0 <= i < b64_of(b).len() ==> is_b64_text_char(#[trigger] b64_of(b)[i]),
    decreases b.len(),
{
    if b.len() >= 1 {
        lemma_b64_char_in_alphabet((b[0] as int) / 4);
        lemma_b64_char_in_alphabet(((b[0] as int) % 4) * 16);
    }
    if b.len() >= 2 {
        lemma_b64_char_in_alphabet(((b[0] as int) % 4) * 16 + (b[1] as int) / 16);
        lemma_b64_char_in_alphabet(((b[1] as int) % 16) * 4);
    }
    if b.len() >= 3 {
        let rest = b.subrange(3, b.len() as int);
        lemma_b64_of_chars(rest);
        lemma_b64_char_in_alphabet(((b[1] as int) % 16) * 4 + (b[2] as int) / 64);
        lemma_b64_char_in_alphabet((b[2] as int) % 64);
        let head = seq![
            b64_char((b[0] as int) / 4),
            b64_char(((b[0] as int) % 4) * 16 + (b[1] as int) / 16),
            b64_char(((b[1] as int) % 16) * 4 + (b[2] as int) / 64),
            b64_char((b[2] as int) % 64),
        ];
        assert(b64_of(b) == head + b64_of(rest));
        assert forall|i: int| 0 <= i < b64_of(b).len() implies is_b64_text_char(
            #[trigger] b64_of(b)[i],
        ) by {
            if i >= 4 {
                assert(b64_of(b)[i] == b64_of(rest)[i - 4]);
            }
        }
    }
}

/// What `base64::decode` makes of `s`: the bytes, or `None` where it reports an error.
pub uninterp spec fn b64_decoded(s: Seq<char>) -> Option<Seq<u8>>;

/// Relies on `base64::encode` (standard alphabet, with padding); it panics only where the
/// encoded length overflows `usize`.
#[verifier::external_body]
pub(crate) fn encode_b64(b: &[u8]) -> (r: String)
    requires
        b@.len() <= usize::MAX / 2,
    ensures
        r@ == b64_of(b@),
{
    base64::encode(b)
}

/// Relies on `base64::decode` (standard alphabet): text that is the encoding of some bytes
/// decodes to them.
#[verifier::external_body]
pub(crate) fn decode_b64(s: &str) -> (r: Option<Vec<u8>>)
    ensures
        r is Some <==> b64_decoded(s@) is Some,
        r is Some ==> r->0@ == b64_decoded(s@)->0,
        forall|x: Seq<u8>| #[trigger] b64_of(x) == s@ ==> r is Some && r->0@ == x,
{
    base64::decode(s).ok()
}

} // verus!
