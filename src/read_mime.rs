use vstd::prelude::*;
use crate::base64_text::{b64_decoded, b64_of, decode_b64};
use crate::boundary::is_boundary;
use crate::make_mime::{encode_spec, FragmentView};
use crate::round_trip::{
    encoded_part_of, kept, lemma_parse_encoded, lemma_restore_all, names_fit, restored_of,
};
use crate::mime::{
    concat_lines, dashes, delimiter, disposition_prefix, envelope_prefix, index_of,
    lemma_index_of_at, lines, lines_from, strip_cr, terminator, version_line,
};
use crate::text::{chars_of, copy_bytes, copy_range, eq_chars, string_of};

verus! {

/// `s` begins with `p`.
pub open spec fn starts_with(s: Seq<char>, p: Seq<char>) -> bool {
    s.len() >= p.len() && s.subrange(0, p.len() as int) == p
}

/// For a line that begins with `p`, the characters after `p` up to the first `"`; `None` when
/// the line does not begin with `p` or no `"` follows.
pub open spec fn quoted_after(l: Seq<char>, p: Seq<char>) -> Option<Seq<char>> {
    if starts_with(l, p) {
        let rest = l.subrange(p.len() as int, l.len() as int);
        let q = index_of(rest, '"', 0);
        if q < rest.len() {
            Some(rest.subrange(0, q))
        } else {
            None
        }
    } else {
        None
    }
}

/// The boundary declared by the envelope's `Content-Type` line, if it is well formed.
pub open spec fn envelope_boundary(l: Seq<char>) -> Option<Seq<char>> {
    match quoted_after(l, envelope_prefix()) {
        Some(b) => if b.len() > 0 {
            Some(b)
        } else {
            None
        },
        None => None,
    }
}

/// The lines `ls[s..i]` as a chunk, when a chunk is open at `s`.
pub open spec fn close_chunk(ls: Seq<Seq<char>>, start: Option<int>, i: int) -> Seq<
    Seq<Seq<char>>,
> {
    match start {
        Some(s) => seq![ls.subrange(s, i)],
        None => Seq::empty(),
    }
}

/// The chunks of lines between delimiters, scanning from line `i` with a chunk open at `start`
/// (none before the first delimiter). The terminator, or the end of the lines, closes the
/// last chunk.
pub open spec fn chunks_from(ls: Seq<Seq<char>>, b: Seq<char>, i: int, start: Option<int>) -> Seq<
    Seq<Seq<char>>,
>
    decreases ls.len() - i,
{
    if i < 0 || i >= ls.len() {
        close_chunk(ls, start, ls.len() as int)
    } else if ls[i] == terminator(b) {
        close_chunk(ls, start, i)
    } else if ls[i] == delimiter(b) {
        close_chunk(ls, start, i) + chunks_from(ls, b, i + 1, Some(i + 1))
    } else {
        chunks_from(ls, b, i + 1, start)
    }
}

/// The first index at or after `j` of an empty line, or `c.len()`.
pub open spec fn first_empty(c: Seq<Seq<char>>, j: int) -> int
    decreases c.len() - j,
{
    if j < 0 || j >= c.len() {
        c.len() as int
    } else if c[j].len() == 0 {
        j
    } else {
        first_empty(c, j + 1)
    }
}

/// The first index in `j..h` of a line that begins with `p`, or `h`.
pub open spec fn first_with_prefix(c: Seq<Seq<char>>, p: Seq<char>, j: int, h: int) -> int
    decreases h - j,
{
    if j < 0 || j >= h || j >= c.len() {
        h
    } else if starts_with(c[j], p) {
        j
    } else {
        first_with_prefix(c, p, j + 1, h)
    }
}

/// The declared filename and base64 text of one chunk; `None` where the header block has no
/// end or no `Content-Disposition` filename.
pub open spec fn parse_chunk(c: Seq<Seq<char>>) -> Option<(Seq<char>, Seq<char>)> {
    let h = first_empty(c, 0);
    if h >= c.len() {
        None
    } else {
        let d = first_with_prefix(c, disposition_prefix(), 0, h);
        if d >= h {
            None
        } else {
            match quoted_after(c[d], disposition_prefix()) {
                Some(n) => Some((n, concat_lines(c.subrange(h + 1, c.len() as int)))),
                None => None,
            }
        }
    }
}

/// A scan that stops at `k` finds the first empty line at or after `j`.
pub proof fn lemma_first_empty_at(c: Seq<Seq<char>>, j: int, k: int)
    requires
        0 <= j <= k <= c.len(),
        forall|m: int| j <= m < k ==> c[m].len() != 0,
        k == c.len() || c[k].len() == 0,
    ensures
        first_empty(c, j) == k,
    decreases k - j,
{
    if j < k {
        lemma_first_empty_at(c, j + 1, k);
    }
}

/// A scan that stops at `k` finds the first line in `j..h` that begins with `p`.
pub proof fn lemma_first_with_prefix_at(c: Seq<Seq<char>>, p: Seq<char>, j: int, k: int, h: int)
    requires
        0 <= j <= k <= h <= c.len(),
        forall|m: int| j <= m < k ==> !starts_with(c[m], p),
        k == h || starts_with(c[k], p),
    ensures
        first_with_prefix(c, p, j, h) == k,
    decreases k - j,
{
    if j < k {
        lemma_first_with_prefix_at(c, p, j + 1, k, h);
    }
}

/// Why a message cannot be decoded at all.
#[derive(PartialEq, Eq, Structural, Debug, Clone, Copy)]
pub enum CodecError {
    /// The first line is not `Content-Type: multipart/mixed; boundary="..."`.
    MalformedEnvelope,
}

/// The mathematical value of a parsed message.
pub ghost struct ParsedView {
    pub conformant: bool,
    pub parts: Seq<Option<(Seq<char>, Seq<char>)>>,
}

/// What the message splits into, before any base64 is decoded.
pub open spec fn parse_spec(msg: Seq<char>) -> Result<ParsedView, CodecError> {
    let ls = lines(msg);
    if ls.len() == 0 {
        Err(CodecError::MalformedEnvelope)
    } else {
        match envelope_boundary(ls[0]) {
            None => Err(CodecError::MalformedEnvelope),
            Some(b) => Ok(
                ParsedView {
                    conformant: ls.len() >= 2 && ls[1] == version_line(),
                    parts: chunks_from(ls, b, 2, None).map_values(
                        |c: Seq<Seq<char>>| parse_chunk(c),
                    ),
                },
            ),
        }
    }
}

/// The views of a vector of lines.
pub open spec fn lines_view(v: Seq<Vec<char>>) -> Seq<Seq<char>> {
    v.map_values(|l: Vec<char>| l@)
}

/// Splits characters into lines: at each line feed, with one trailing carriage return dropped
/// from each line, and no empty line after a final line feed.
pub fn split_lines(v: &Vec<char>) -> (r: Vec<Vec<char>>)
    ensures
        lines_view(r@) == lines(v@),
{
    let mut out: Vec<Vec<char>> = Vec::new();
    let mut i: usize = 0;
    while i < v.len()
        invariant
            i <= v.len(),
            lines_view(out@) + lines_from(v@, i as int) == lines(v@),
        decreases v.len() - i,
    {
        let mut k: usize = i;
        while k < v.len() && v[k] != '\n'
            invariant
                i <= k <= v.len(),
                forall|j: int| i <= j < k ==> v@[j] != '\n',
            decreases v.len() - k,
        {
            k += 1;
        }
        proof {
            lemma_index_of_at(v@, '\n', i as int, k as int);
        }
        let end: usize = if k > i && v[k - 1] == '\r' {
            k - 1
        } else {
            k
        };
        let line = copy_range(v, i, end);
        let ghost before = out@;
        out.push(line);
        proof {
            let raw = v@.subrange(i as int, k as int);
            assert(strip_cr(raw) =~= line@);
            assert(lines_from(v@, i as int) == seq![strip_cr(raw)] + lines_from(v@, k + 1));
            assert(lines_view(out@) =~= lines_view(before).push(line@));
            assert(lines_view(out@) + lines_from(v@, k + 1) =~= lines_view(before) + lines_from(
                v@,
                i as int,
            ));
        }
        if k < v.len() {
            i = k + 1;
        } else {
            assert(lines_from(v@, k + 1) =~= lines_from(v@, k as int));
            i = k;
        }
    }
    assert(lines_from(v@, i as int) =~= Seq::<Seq<char>>::empty());
    assert(lines_view(out@) =~= lines(v@));
    out
}

/// Whether `s` begins with `p`.
pub(crate) fn starts_with_exec(s: &Vec<char>, p: &Vec<char>) -> (r: bool)
    ensures
        r == starts_with(s@, p@),
{
    if s.len() < p.len() {
        return false;
    }
    let mut i: usize = 0;
    while i < p.len()
        invariant
            i <= p.len() <= s.len(),
            forall|j: int| 0 <= j < i ==> s@[j] == p@[j],
        decreases p.len() - i,
    {
        if s[i] != p[i] {
            assert(s@.subrange(0, p.len() as int)[i as int] != p@[i as int]);
            return false;
        }
        i += 1;
    }
    assert(s@.subrange(0, p.len() as int) =~= p@);
    true
}

/// The characters after the prefix `p` of `l`, up to the first `"`.
fn quoted_after_exec(l: &Vec<char>, p: &Vec<char>) -> (r: Option<Vec<char>>)
    ensures
        r is None <==> quoted_after(l@, p@) is None,
        r is Some ==> quoted_after(l@, p@) == Some(r->0@),
{
    if !starts_with_exec(l, p) {
        return None;
    }
    let rest = copy_range(l, p.len(), l.len());
    let mut q: usize = 0;
    while q < rest.len() && rest[q] != '"'
        invariant
            q <= rest.len(),
            forall|j: int| 0 <= j < q ==> rest@[j] != '"',
        decreases rest.len() - q,
    {
        q += 1;
    }
    proof {
        lemma_index_of_at(rest@, '"', 0, q as int);
    }
    if q < rest.len() {
        Some(copy_range(&rest, 0, q))
    } else {
        None
    }
}

/// One part as found in a message: its declared filename and its base64 text.
pub struct EncodedPart {
    pub filename: String,
    pub text: String,
}

/// The view of an optional part.
pub open spec fn part_view(p: Option<EncodedPart>) -> Option<(Seq<char>, Seq<char>)> {
    match p {
        Some(e) => Some((e.filename@, e.text@)),
        None => None,
    }
}

/// Parses the chunk `ls[s..e]`.
fn parse_chunk_exec(ls: &Vec<Vec<char>>, s: usize, e: usize, dp: &Vec<char>) -> (r: Option<
    EncodedPart,
>)
    requires
        s <= e <= ls.len(),
        dp@ == disposition_prefix(),
    ensures
        part_view(r) == parse_chunk(lines_view(ls@).subrange(s as int, e as int)),
{
    let ghost c = lines_view(ls@).subrange(s as int, e as int);
    let mut h: usize = s;
    while h < e && ls[h].len() != 0
        invariant
            s <= h <= e <= ls.len(),
            c == lines_view(ls@).subrange(s as int, e as int),
            forall|m: int| 0 <= m < h - s ==> c[m].len() != 0,
        decreases e - h,
    {
        assert(c[h - s] == ls@[h as int]@);
        h += 1;
    }
    proof {
        if h < e {
            assert(c[h - s] == ls@[h as int]@);
        }
        lemma_first_empty_at(c, 0, h - s);
    }
    if h >= e {
        return None;
    }
    let mut d: usize = s;
    while d < h && !starts_with_exec(&ls[d], dp)
        invariant
            s <= d <= h < e <= ls.len(),
            c == lines_view(ls@).subrange(s as int, e as int),
            dp@ == disposition_prefix(),
            forall|m: int| 0 <= m < d - s ==> !starts_with(c[m], disposition_prefix()),
        decreases h - d,
    {
        assert(c[d - s] == ls@[d as int]@);
        d += 1;
    }
    proof {
        if d < h {
            assert(c[d - s] == ls@[d as int]@);
        }
        lemma_first_with_prefix_at(c, disposition_prefix(), 0, d - s, h - s);
    }
    if d >= h {
        return None;
    }
    assert(c[d - s] == ls@[d as int]@);
    match quoted_after_exec(&ls[d], dp) {
        None => None,
        Some(name) => {
            let mut text: Vec<char> = Vec::new();
            let mut t: usize = h + 1;
            while t < e
                invariant
                    h + 1 <= t <= e <= ls.len(),
                    s <= h,
                    c == lines_view(ls@).subrange(s as int, e as int),
                    text@ == concat_lines(c.subrange(h + 1 - s, t - s)),
                decreases e - t,
            {
                let line = &ls[t];
                let ghost before = text@;
                let mut k: usize = 0;
                while k < line.len()
                    invariant
                        k <= line.len(),
                        text@ == before + line@.take(k as int),
                    decreases line.len() - k,
                {
                    text.push(line[k]);
                    k += 1;
                    assert(line@.take(k as int) =~= line@.take((k - 1) as int).push(line@[k - 1]));
                }
                proof {
                    assert(line@.take(line.len() as int) =~= line@);
                    let prev = c.subrange(h + 1 - s, t - s);
                    assert(c.subrange(h + 1 - s, t + 1 - s) =~= prev.push(line@));
                    assert(concat_lines(prev.push(line@)) == concat_lines(prev) + line@) by {
                        assert(prev.push(line@).drop_last() =~= prev);
                    }
                }
                t += 1;
            }
            Some(EncodedPart { filename: string_of(&name), text: string_of(&text) })
        },
    }
}

/// A message split into parts, before any base64 is decoded.
pub struct ParsedMessage {
    /// Whether the second line is `MIME-Version: 1.0`.
    pub conformant: bool,
    /// One entry per part, in order; `None` where the part's headers could not be parsed.
    pub parts: Vec<Option<EncodedPart>>,
}

impl View for ParsedMessage {
    type V = ParsedView;

    open spec fn view(&self) -> ParsedView {
        ParsedView { conformant: self.conformant, parts: self.parts@.map_values(|p: Option<EncodedPart>| part_view(p)) }
    }
}

/// The chunk start as an integer.
pub open spec fn start_view(start: Option<usize>) -> Option<int> {
    match start {
        Some(s) => Some(s as int),
        None => None,
    }
}

/// `--` and the boundary, with a trailing `--` for the terminator.
fn dashed(b: &Vec<char>, trailing: bool) -> (r: Vec<char>)
    ensures
        trailing ==> r@ == terminator(b@),
        !trailing ==> r@ == delimiter(b@),
{
    let mut r: Vec<char> = Vec::new();
    r.push('-');
    r.push('-');
    let mut i: usize = 0;
    while i < b.len()
        invariant
            i <= b.len(),
            r@ == dashes() + b@.take(i as int),
        decreases b.len() - i,
    {
        r.push(b[i]);
        i += 1;
        assert(b@.take(i as int) =~= b@.take((i - 1) as int).push(b@[i - 1]));
        assert(r@ =~= dashes() + b@.take(i as int));
    }
    assert(b@.take(b.len() as int) =~= b@);
    if trailing {
        r.push('-');
        r.push('-');
        assert(r@ =~= terminator(b@));
    } else {
        assert(r@ =~= delimiter(b@));
    }
    r
}

impl ParsedMessage {
    /// Splits a message into its parts: reads the boundary from the envelope's
    /// `Content-Type` line, then parses the header block of each part between delimiters.
    pub fn parse(msg: &str) -> (r: Result<ParsedMessage, CodecError>)
        ensures
            r is Ok ==> parse_spec(msg@) == Ok::<ParsedView, CodecError>(r->Ok_0@),
            r is Err ==> parse_spec(msg@) == Err::<ParsedView, CodecError>(r->Err_0),
    {
        let v = chars_of(msg);
        let ls = split_lines(&v);
        let ghost big_l = lines_view(ls@);
        if ls.len() == 0 {
            return Err(CodecError::MalformedEnvelope);
        }
        let ep = chars_of("Content-Type: multipart/mixed; boundary=\"");
        assert(big_l[0] == ls@[0]@);
        let b = match quoted_after_exec(&ls[0], &ep) {
            None => {
                return Err(CodecError::MalformedEnvelope);
            },
            Some(b) => b,
        };
        if b.len() == 0 {
            return Err(CodecError::MalformedEnvelope);
        }
        let vl = chars_of("MIME-Version: 1.0");
        let conformant = ls.len() >= 2 && eq_chars(&ls[1], &vl);
        proof {
            if ls.len() >= 2 {
                assert(big_l[1] == ls@[1]@);
            }
        }
        let dp = chars_of("Content-Disposition: attachment; filename=\"");
        let delim = dashed(&b, false);
        let term = dashed(&b, true);
        let mut parts: Vec<Option<EncodedPart>> = Vec::new();
        let mut start: Option<usize> = None;
        let mut i: usize = 2;
        let mut finished = false;
        let ghost all = chunks_from(big_l, b@, 2, None);
        let ghost mut done: Seq<Seq<Seq<char>>> = Seq::empty();
        while i < ls.len() && !finished
            invariant
                2 <= i,
                big_l == lines_view(ls@),
                dp@ == disposition_prefix(),
                delim@ == delimiter(b@),
                term@ == terminator(b@),
                all == chunks_from(big_l, b@, 2, None),
                start is Some ==> 2 <= start->0 <= i <= ls.len(),
                parts@.map_values(|p: Option<EncodedPart>| part_view(p)) == done.map_values(
                    |c: Seq<Seq<char>>| parse_chunk(c),
                ),
                !finished ==> done + chunks_from(big_l, b@, i as int, start_view(start)) == all,
                finished ==> done == all,
            decreases ls.len() - i,
        {
            assert(big_l[i as int] == ls@[i as int]@);
            let is_term = eq_chars(&ls[i], &term);
            let is_delim = !is_term && eq_chars(&ls[i], &delim);
            if is_term || is_delim {
                let ghost old_done = done;
                let ghost old_parts = parts@;
                if let Some(s) = start {
                    let p = parse_chunk_exec(&ls, s, i, &dp);
                    parts.push(p);
                    proof {
                        done = done.push(big_l.subrange(s as int, i as int));
                        assert(parts@.map_values(|p: Option<EncodedPart>| part_view(p))
                            =~= old_parts.map_values(|p: Option<EncodedPart>| part_view(p)).push(part_view(p)));
                        assert(done.map_values(|c: Seq<Seq<char>>| parse_chunk(c))
                            =~= old_done.map_values(|c: Seq<Seq<char>>| parse_chunk(c)).push(
                            parse_chunk(big_l.subrange(s as int, i as int)),
                        ));
                    }
                }
                proof {
                    assert(done =~= old_done + close_chunk(big_l, start_view(start), i as int));
                }
                if is_term {
                    finished = true;
                } else {
                    proof {
                        assert(done + chunks_from(big_l, b@, i + 1, Some(i + 1)) =~= old_done + (
                        close_chunk(big_l, start_view(start), i as int) + chunks_from(big_l, b@, i + 1, Some(i + 1))));
                    }
                    start = Some(i + 1);
                }
            }
            i += 1;
        }
        if !finished {
            let ghost old_done = done;
            let ghost old_parts = parts@;
            if let Some(s) = start {
                let p = parse_chunk_exec(&ls, s, ls.len(), &dp);
                parts.push(p);
                proof {
                    done = done.push(big_l.subrange(s as int, ls.len() as int));
                    assert(parts@.map_values(|p: Option<EncodedPart>| part_view(p))
                        =~= old_parts.map_values(|p: Option<EncodedPart>| part_view(p)).push(part_view(p)));
                    assert(done.map_values(|c: Seq<Seq<char>>| parse_chunk(c))
                        =~= old_done.map_values(|c: Seq<Seq<char>>| parse_chunk(c)).push(
                        parse_chunk(big_l.subrange(s as int, ls.len() as int)),
                    ));
                }
            }
            proof {
                assert(done =~= old_done + close_chunk(big_l, start_view(start), ls.len() as int));
                assert(chunks_from(big_l, b@, i as int, start_view(start)) == close_chunk(big_l, start_view(start), big_l.len() as int));
            }
        }
        let r = ParsedMessage { conformant, parts };
        assert(r@.parts =~= all.map_values(|c: Seq<Seq<char>>| parse_chunk(c)));
        Ok(r)
    }
}

/// A fragment recovered from a message.
pub struct RestoredFragment {
    pub filename: String,
    pub content: Vec<u8>,
}

/// A problem with one part, or with the envelope, that does not stop decoding.
pub enum Diagnostic {
    /// The envelope's second line is not `MIME-Version: 1.0`.
    NonConformantVersion,
    /// The part at this position has no header block end or no `Content-Disposition` filename.
    PartHeaderUnparseable(usize),
    /// The body of the part with this filename is not valid base64.
    Base64DecodeFailure(String),
}

/// The mathematical value of a `Diagnostic`.
pub ghost enum DiagnosticView {
    NonConformantVersion,
    PartHeaderUnparseable(int),
    Base64DecodeFailure(Seq<char>),
}

impl View for Diagnostic {
    type V = DiagnosticView;

    open spec fn view(&self) -> DiagnosticView {
        match self {
            Diagnostic::NonConformantVersion => DiagnosticView::NonConformantVersion,
            Diagnostic::PartHeaderUnparseable(i) => DiagnosticView::PartHeaderUnparseable(*i as int),
            Diagnostic::Base64DecodeFailure(n) => DiagnosticView::Base64DecodeFailure(n@),
        }
    }
}

/// The fragments recovered from a message, in order, and the diagnostics met on the way.
pub struct Decoded {
    pub fragments: Vec<RestoredFragment>,
    pub diagnostics: Vec<Diagnostic>,
}

/// The mathematical value of a `Decoded`.
pub ghost struct DecodedView {
    pub fragments: Seq<(Seq<char>, Seq<u8>)>,
    pub diagnostics: Seq<DiagnosticView>,
}

impl View for Decoded {
    type V = DecodedView;

    open spec fn view(&self) -> DecodedView {
        DecodedView {
            fragments: self.fragments@.map_values(|f: RestoredFragment| (f.filename@, f.content@)),
            diagnostics: self.diagnostics@.map_values(|d: Diagnostic| d@),
        }
    }
}

/// The fragments and diagnostics of the first `n` parts, given what the base64 text of each
/// part decoded to (`None` for a failure).
pub open spec fn restore_upto(
    parts: Seq<Option<(Seq<char>, Seq<char>)>>,
    decoded: Seq<Option<Seq<u8>>>,
    n: int,
) -> DecodedView
    decreases n,
{
    if n <= 0 {
        DecodedView { fragments: Seq::empty(), diagnostics: Seq::empty() }
    } else {
        let prev = restore_upto(parts, decoded, n - 1);
        match parts[n - 1] {
            None => DecodedView {
                fragments: prev.fragments,
                diagnostics: prev.diagnostics.push(DiagnosticView::PartHeaderUnparseable(n - 1)),
            },
            Some((name, _text)) => match decoded[n - 1] {
                Some(x) => DecodedView {
                    fragments: prev.fragments.push((name, x)),
                    diagnostics: prev.diagnostics,
                },
                None => DecodedView {
                    fragments: prev.fragments,
                    diagnostics: prev.diagnostics.push(DiagnosticView::Base64DecodeFailure(name)),
                },
            },
        }
    }
}

/// The outcome of decoding a parsed message, given what each part's text decoded to.
pub open spec fn restore_spec(p: ParsedView, decoded: Seq<Option<Seq<u8>>>) -> DecodedView {
    let r = restore_upto(p.parts, decoded, p.parts.len() as int);
    if p.conformant {
        r
    } else {
        DecodedView {
            fragments: r.fragments,
            diagnostics: seq![DiagnosticView::NonConformantVersion] + r.diagnostics,
        }
    }
}

/// The views of optional byte vectors.
pub open spec fn decoded_view(v: Seq<Option<Vec<u8>>>) -> Seq<Option<Seq<u8>>> {
    v.map_values(
        |o: Option<Vec<u8>>|
            match o {
                Some(x) => Some(x@),
                None => None,
            },
    )
}

/// What base64 decoding makes of each part's text.
pub open spec fn decode_texts(parts: Seq<Option<(Seq<char>, Seq<char>)>>) -> Seq<Option<Seq<u8>>> {
    parts.map_values(
        |p: Option<(Seq<char>, Seq<char>)>|
            match p {
                Some((_name, text)) => b64_decoded(text),
                None => None,
            },
    )
}

/// The outcome of decoding the message `msg`.
pub open spec fn decode_spec(msg: Seq<char>) -> Result<DecodedView, CodecError> {
    match parse_spec(msg) {
        Ok(p) => Ok(restore_spec(p, decode_texts(p.parts))),
        Err(e) => Err(e),
    }
}

impl ParsedMessage {
    /// The fragments and diagnostics of this message, given what each part's base64 text
    /// decoded to (`None` where decoding failed, or where the part has no header).
    pub fn restore(&self, decoded: &Vec<Option<Vec<u8>>>) -> (r: Decoded)
        requires
            decoded.len() == self.parts.len(),
        ensures
            r@ == restore_spec(self@, decoded_view(decoded@)),
    {
        let ghost parts = self@.parts;
        let ghost dv = decoded_view(decoded@);
        let mut fragments: Vec<RestoredFragment> = Vec::new();
        let mut diagnostics: Vec<Diagnostic> = Vec::new();
        let ghost pre: Seq<DiagnosticView> = Seq::empty();
        if !self.conformant {
            diagnostics.push(Diagnostic::NonConformantVersion);
            proof {
                pre = seq![DiagnosticView::NonConformantVersion];
            }
        }
        let mut i: usize = 0;
        while i < self.parts.len()
            invariant
                i <= self.parts.len() == decoded.len(),
                parts == self@.parts,
                dv == decoded_view(decoded@),
                pre == (if self.conformant { Seq::empty() } else { seq![DiagnosticView::NonConformantVersion] }),
                fragments@.map_values(|f: RestoredFragment| (f.filename@, f.content@))
                    == restore_upto(parts, dv, i as int).fragments,
                diagnostics@.map_values(|d: Diagnostic| d@) == pre + restore_upto(parts, dv, i as int).diagnostics,
            decreases self.parts.len() - i,
        {
            let ghost old_f = fragments@;
            let ghost old_d = diagnostics@;
            assert(parts[i as int] == part_view(self.parts@[i as int]));
            assert(dv[i as int] == (match decoded@[i as int] { Some(x) => Some(x@), None => None }));
            match &self.parts[i] {
                None => {
                    diagnostics.push(Diagnostic::PartHeaderUnparseable(i));
                    assert(diagnostics@.map_values(|d: Diagnostic| d@) =~= old_d.map_values(|d: Diagnostic| d@).push(DiagnosticView::PartHeaderUnparseable(i as int)));
                    assert(fragments@ == old_f);
                },
                Some(p) => {
                    match &decoded[i] {
                        Some(x) => {
                            fragments.push(RestoredFragment { filename: p.filename.clone(), content: copy_bytes(x) });
                            assert(fragments@.map_values(|f: RestoredFragment| (f.filename@, f.content@)) =~= old_f.map_values(|f: RestoredFragment| (f.filename@, f.content@)).push((p.filename@, x@)));
                            assert(diagnostics@ == old_d);
                        },
                        None => {
                            diagnostics.push(Diagnostic::Base64DecodeFailure(p.filename.clone()));
                            assert(diagnostics@.map_values(|d: Diagnostic| d@) =~= old_d.map_values(|d: Diagnostic| d@).push(DiagnosticView::Base64DecodeFailure(p.filename@)));
                            assert(fragments@ == old_f);
                        },
                    }
                },
            }
            proof {
                assert((pre + restore_upto(parts, dv, i as int).diagnostics).push(DiagnosticView::PartHeaderUnparseable(i as int)) =~= pre + restore_upto(parts, dv, i as int).diagnostics.push(DiagnosticView::PartHeaderUnparseable(i as int)));
                if let Some(p) = self.parts@[i as int] {
                    assert((pre + restore_upto(parts, dv, i as int).diagnostics).push(DiagnosticView::Base64DecodeFailure(p.filename@)) =~= pre + restore_upto(parts, dv, i as int).diagnostics.push(DiagnosticView::Base64DecodeFailure(p.filename@)));
                }
            }
            i += 1;
        }
        let r = Decoded { fragments, diagnostics };
        proof {
            if self.conformant {
                assert(pre + restore_upto(parts, dv, parts.len() as int).diagnostics =~= restore_upto(parts, dv, parts.len() as int).diagnostics);
            }
        }
        r
    }
}

/// Decoding `t` with base64 gives back whatever `t` is the encoding of.
pub open spec fn decodes_back(t: Seq<char>) -> bool {
    forall|x: Seq<u8>| #[trigger] b64_of(x) == t ==> b64_decoded(t) == Some(x)
}

/// The base64 text of a part, or nothing for a part without a header.
pub open spec fn text_of(p: Option<(Seq<char>, Seq<char>)>) -> Seq<char> {
    match p {
        Some((_name, text)) => text,
        None => Seq::empty(),
    }
}

/// Decodes cloud-init user-data messages.
pub struct ReadMime;

impl ReadMime {
    /// Decodes a message into its fragments, in order. Parts without a parseable header or
    /// with invalid base64 are skipped and reported; only a malformed envelope fails the whole.
    pub fn read_mime(msg: &str) -> (r: Result<Decoded, CodecError>)
        ensures
            r is Err <==> parse_spec(msg@) is Err,
            r is Err <==> (lines(msg@).len() == 0 || envelope_boundary(lines(msg@)[0]) is None),
            r is Err ==> r->Err_0 == CodecError::MalformedEnvelope,
            r is Ok ==> decode_spec(msg@) == Ok::<DecodedView, CodecError>(r->Ok_0@),
            forall|fs: Seq<FragmentView>, b: Seq<char>|
                is_boundary(b) && names_fit(fs) && #[trigger] encode_spec(fs, b) == msg@ ==> r is Ok
                    && r->Ok_0@ == (DecodedView {
                    fragments: restored_of(fs),
                    diagnostics: Seq::empty(),
                }),
    {
        let parsed = match ParsedMessage::parse(msg) {
            Ok(p) => p,
            Err(e) => {
                proof {
                    assert forall|fs: Seq<FragmentView>, b: Seq<char>|
                        is_boundary(b) && names_fit(fs) && #[trigger] encode_spec(fs, b) == msg@ implies false by {
                        lemma_parse_encoded(fs, b);
                    }
                }
                return Err(e);
            },
        };
        let ghost parts = parsed@.parts;
        let mut decoded: Vec<Option<Vec<u8>>> = Vec::new();
        let mut i: usize = 0;
        while i < parsed.parts.len()
            invariant
                i <= parsed.parts.len(),
                parts == parsed@.parts,
                decoded_view(decoded@) == decode_texts(parts).take(i as int),
                forall|j: int|
                    0 <= j < i && #[trigger] parts[j] is Some ==> decodes_back(text_of(parts[j])),
            decreases parsed.parts.len() - i,
        {
            assert(parts[i as int] == part_view(parsed.parts@[i as int]));
            let ghost old_d = decoded@;
            let d = match &parsed.parts[i] {
                Some(p) => decode_b64(p.text.as_str()),
                None => None,
            };
            decoded.push(d);
            assert(decoded_view(decoded@) =~= decoded_view(old_d).push(match d { Some(x) => Some(x@), None => None }));
            assert(decode_texts(parts).take(i as int + 1) =~= decode_texts(parts).take(i as int).push(decode_texts(parts)[i as int]));
            i += 1;
        }
        assert(decode_texts(parts).take(i as int) =~= decode_texts(parts));
        let restored = parsed.restore(&decoded);
        proof {
            assert forall|fs: Seq<FragmentView>, b: Seq<char>|
                is_boundary(b) && names_fit(fs) && #[trigger] encode_spec(fs, b) == msg@ implies restored@
                    == (DecodedView { fragments: restored_of(fs), diagnostics: Seq::empty() }) by {
                lemma_parse_encoded(fs, b);
                let ks = kept(fs);
                let dv = decoded_view(decoded@);
                assert(parts == ks.map_values(|f: FragmentView| encoded_part_of(f)));
                assert forall|j: int| 0 <= j < dv.len() implies #[trigger] dv[j] == Some(ks[j].body) by {
                    assert(parts[j] == encoded_part_of(ks[j]));
                    assert(decodes_back(text_of(parts[j])));
                    assert(text_of(parts[j]) == b64_of(ks[j].body));
                    assert(dv[j] == decode_texts(parts)[j]);
                }
                lemma_restore_all(ks, parts, dv, ks.len() as int);
                assert(ks.take(ks.len() as int) =~= ks);
            }
        }
        Ok(restored)
    }
}

} // verus!
