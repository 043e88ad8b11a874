use vstd::prelude::*;
use crate::base64_text::{b64_of, is_b64_text_char, lemma_b64_of_chars};

verus! {

/// Carriage return and line feed, the line terminator of the message.
pub open spec fn crlf() -> Seq<char> {
    seq!['\r', '\n']
}

/// Each line followed by CRLF, concatenated.
pub open spec fn join_crlf(ls: Seq<Seq<char>>) -> Seq<char>
    decreases ls.len(),
{
    if ls.len() == 0 {
        Seq::empty()
    } else {
        join_crlf(ls.drop_last()) + ls.last() + crlf()
    }
}

/// Joining one more line appends it and its CRLF.
pub proof fn lemma_join_crlf_push(ls: Seq<Seq<char>>, l: Seq<char>)
    ensures
        join_crlf(ls.push(l)) == join_crlf(ls) + l + crlf(),
{
    assert(ls.push(l).drop_last() =~= ls);
}

/// Joining a single line gives it and its CRLF.
pub proof fn lemma_join_crlf_one(l: Seq<char>)
    ensures
        join_crlf(seq![l]) == l + crlf(),
{
    lemma_join_crlf_push(Seq::empty(), l);
    assert(Seq::<Seq<char>>::empty().push(l) =~= seq![l]);
    assert(join_crlf(Seq::<Seq<char>>::empty()) == Seq::<char>::empty());
    assert(Seq::<char>::empty() + l =~= l);
}

/// Joining distributes over concatenation of line sequences.
pub proof fn lemma_join_crlf_concat(a: Seq<Seq<char>>, b: Seq<Seq<char>>)
    ensures
        join_crlf(a + b) == join_crlf(a) + join_crlf(b),
    decreases b.len(),
{
    if b.len() == 0 {
        assert(a + b =~= a);
        assert(join_crlf(b) =~= Seq::<char>::empty());
        assert(join_crlf(a) + join_crlf(b) =~= join_crlf(a));
    } else {
        lemma_join_crlf_concat(a, b.drop_last());
        assert((a + b).drop_last() =~= a + b.drop_last());
        assert((a + b).last() == b.last());
        assert(join_crlf(a + b) =~= join_crlf(a) + join_crlf(b));
    }
}

/// The lines concatenated, without terminators.
pub open spec fn concat_lines(ls: Seq<Seq<char>>) -> Seq<char>
    decreases ls.len(),
{
    if ls.len() == 0 {
        Seq::empty()
    } else {
        concat_lines(ls.drop_last()) + ls.last()
    }
}

/// Concatenating lines distributes over concatenation of line sequences.
pub proof fn lemma_concat_lines_concat(a: Seq<Seq<char>>, b: Seq<Seq<char>>)
    ensures
        concat_lines(a + b) == concat_lines(a) + concat_lines(b),
    decreases b.len(),
{
    if b.len() == 0 {
        assert(a + b =~= a);
        assert(concat_lines(a) + concat_lines(b) =~= concat_lines(a));
    } else {
        lemma_concat_lines_concat(a, b.drop_last());
        assert((a + b).drop_last() =~= a + b.drop_last());
        assert(concat_lines(a + b) =~= concat_lines(a) + concat_lines(b));
    }
}

/// The first index at or after `i` where `s` holds `c`, or `s.len()` if there is none.
pub open spec fn index_of(s: Seq<char>, c: char, i: int) -> int
    decreases s.len() - i,
{
    if i >= s.len() {
        s.len() as int
    } else if s[i] == c {
        i
    } else {
        index_of(s, c, i + 1)
    }
}

/// The scan for `c` stops within bounds, at a `c` if it finds one, past no other `c`.
pub proof fn lemma_index_of(s: Seq<char>, c: char, i: int)
    requires
        0 <= i <= s.len(),
    ensures
        i <= index_of(s, c, i) <= s.len(),
        index_of(s, c, i) < s.len() ==> s[index_of(s, c, i)] == c,
        forall|j: int| i <= j < index_of(s, c, i) ==> s[j] != c,
    decreases s.len() - i,
{
    if i < s.len() && s[i] != c {
        lemma_index_of(s, c, i + 1);
    }
}

/// A scan that stops at `k` finds the first `c` at or after `i`.
pub proof fn lemma_index_of_at(s: Seq<char>, c: char, i: int, k: int)
    requires
        0 <= i <= k <= s.len(),
        forall|j: int| i <= j < k ==> s[j] != c,
        k == s.len() || s[k] == c,
    ensures
        index_of(s, c, i) == k,
    decreases k - i,
{
    if i < k {
        lemma_index_of_at(s, c, i + 1, k);
    }
}

/// `l` without one trailing carriage return.
pub open spec fn strip_cr(l: Seq<char>) -> Seq<char> {
    if l.len() > 0 && l.last() == '\r' {
        l.drop_last()
    } else {
        l
    }
}

/// The lines of `s` from index `i` on: split at each line feed, one trailing carriage return
/// dropped from each, and no empty line after a final line feed.
pub open spec fn lines_from(s: Seq<char>, i: int) -> Seq<Seq<char>>
    decreases s.len() + 1 - i,
{
    if i < 0 || i >= s.len() {
        Seq::empty()
    } else {
        let k = index_of(s, '\n', i);
        proof {
            lemma_index_of(s, '\n', i);
        }
        seq![strip_cr(s.subrange(i, k))] + lines_from(s, k + 1)
    }
}

/// The lines of `s`.
pub open spec fn lines(s: Seq<char>) -> Seq<Seq<char>> {
    lines_from(s, 0)
}

/// The greatest number of base64 characters on one body line.
pub open spec fn max_line_length() -> int {
    76
}

/// `t` cut into lines of `max_line_length()` characters from index `i` on; the last may be
/// shorter.
pub open spec fn wrap_from(t: Seq<char>, i: int) -> Seq<Seq<char>>
    decreases t.len() - i,
{
    if i < 0 || i >= t.len() {
        Seq::empty()
    } else if t.len() - i <= max_line_length() {
        seq![t.subrange(i, t.len() as int)]
    } else {
        seq![t.subrange(i, i + max_line_length())] + wrap_from(t, i + max_line_length())
    }
}

/// The body lines of a part whose content is `body`.
pub open spec fn body_lines(body: Seq<u8>) -> Seq<Seq<char>> {
    wrap_from(b64_of(body), 0)
}

/// Concatenating a single line gives it.
pub proof fn lemma_concat_lines_one(l: Seq<char>)
    ensures
        concat_lines(seq![l]) == l,
{
    assert(seq![l].drop_last() =~= Seq::<Seq<char>>::empty());
    assert(concat_lines(Seq::<Seq<char>>::empty()) == Seq::<char>::empty());
    assert(Seq::<char>::empty() + l =~= l);
}

/// Wrapped lines hold one to 76 characters, all but the last exactly 76, only characters
/// of the text, and together the text from `i` on.
pub proof fn lemma_wrap_from(t: Seq<char>, i: int)
    requires
        0 <= i <= t.len(),
    ensures
        forall|j: int|
            0 <= j < wrap_from(t, i).len() ==> 0 < (#[trigger] wrap_from(t, i)[j]).len()
                <= max_line_length(),
        forall|j: int|
            0 <= j < wrap_from(t, i).len() - 1 ==> (#[trigger] wrap_from(t, i)[j]).len()
                == max_line_length(),
        (forall|m: int| 0 <= m < t.len() ==> is_b64_text_char(#[trigger] t[m])) ==> (forall|
            j: int,
            k: int,
        |
            0 <= j < wrap_from(t, i).len() && 0 <= k < wrap_from(t, i)[j].len()
                ==> is_b64_text_char(#[trigger] wrap_from(t, i)[j][k])),
        concat_lines(wrap_from(t, i)) == t.subrange(i, t.len() as int),
    decreases t.len() - i,
{
    if i < t.len() {
        let w = wrap_from(t, i);
        if t.len() - i <= max_line_length() {
            assert(w == seq![t.subrange(i, t.len() as int)]);
            lemma_concat_lines_one(t.subrange(i, t.len() as int));
        } else {
            let e = i + max_line_length();
            let line = t.subrange(i, e);
            let rest = wrap_from(t, e);
            lemma_wrap_from(t, e);
            assert(w == seq![line] + rest);
            lemma_concat_lines_concat(seq![line], rest);
            lemma_concat_lines_one(line);
            assert(concat_lines(w) =~= t.subrange(i, t.len() as int));
            assert forall|j: int| 0 <= j < w.len() implies 0 < (#[trigger] w[j]).len()
                <= max_line_length() by {
                if j > 0 {
                    assert(w[j] == rest[j - 1]);
                }
            }
            assert forall|j: int| 0 <= j < w.len() - 1 implies (#[trigger] w[j]).len()
                == max_line_length() by {
                if j > 0 {
                    assert(w[j] == rest[j - 1]);
                }
            }
            if forall|m: int| 0 <= m < t.len() ==> is_b64_text_char(#[trigger] t[m]) {
                assert forall|j: int, k: int|
                    0 <= j < w.len() && 0 <= k < w[j].len() implies is_b64_text_char(
                    #[trigger] w[j][k],
                ) by {
                    if j > 0 {
                        assert(w[j] == rest[j - 1]);
                        assert(is_b64_text_char(rest[j - 1][k]));
                    } else {
                        assert(w[j][k] == t[i + k]);
                    }
                }
            }
        }
    } else {
        assert(t.subrange(i, t.len() as int) =~= Seq::<char>::empty());
    }
}

/// The body lines of every part: each holds between one and 76 characters of base64 text,
/// all but the last exactly 76, none holds a carriage return or a line feed, and together
/// they hold the base64 text of the body. In the message each is followed by CRLF.
pub proof fn lemma_body_lines(body: Seq<u8>)
    ensures
        forall|j: int|
            0 <= j < body_lines(body).len() ==> 0 < (#[trigger] body_lines(body)[j]).len() <= 76,
        forall|j: int|
            0 <= j < body_lines(body).len() - 1 ==> (#[trigger] body_lines(body)[j]).len() == 76,
        forall|j: int, k: int|
            0 <= j < body_lines(body).len() && 0 <= k < body_lines(body)[j].len()
                ==> is_b64_text_char(#[trigger] body_lines(body)[j][k]),
        concat_lines(body_lines(body)) == b64_of(body),
{
    let t = b64_of(body);
    lemma_b64_of_chars(body);
    lemma_wrap_from(t, 0);
    assert(t.subrange(0, t.len() as int) =~= t);
}

pub open spec fn content_type_prefix() -> Seq<char> {
    "Content-Type: "@
}

pub open spec fn version_line() -> Seq<char> {
    "MIME-Version: 1.0"@
}

pub open spec fn encoding_line() -> Seq<char> {
    "Content-Transfer-Encoding: base64"@
}

pub open spec fn disposition_prefix() -> Seq<char> {
    "Content-Disposition: attachment; filename=\""@
}

pub open spec fn envelope_prefix() -> Seq<char> {
    "Content-Type: multipart/mixed; boundary=\""@
}

pub open spec fn quote() -> Seq<char> {
    seq!['"']
}

pub open spec fn dashes() -> Seq<char> {
    seq!['-', '-']
}

/// The lines of one part: its headers, a blank line, its body lines and the blank line that
/// ends it.
pub open spec fn part_lines(subtype: Seq<char>, filename: Seq<char>, body: Seq<u8>) -> Seq<
    Seq<char>,
> {
    seq![
        content_type_prefix() + subtype,
        version_line(),
        encoding_line(),
        disposition_prefix() + filename + quote(),
        Seq::<char>::empty(),
    ] + body_lines(body) + seq![Seq::<char>::empty()]
}

/// The delimiter line before each part.
pub open spec fn delimiter(boundary: Seq<char>) -> Seq<char> {
    dashes() + boundary
}

/// The delimiter line that ends the message.
pub open spec fn terminator(boundary: Seq<char>) -> Seq<char> {
    dashes() + boundary + dashes()
}

/// The envelope's `Content-Type` line.
pub open spec fn envelope_line(boundary: Seq<char>) -> Seq<char> {
    envelope_prefix() + boundary + quote()
}

} // verus!
