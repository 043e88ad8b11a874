use vstd::prelude::*;
use crate::base64_text::{b64_of, is_b64_text_char};
use crate::boundary::is_boundary;
use crate::make_mime::{encode_spec, message_lines, parts_lines, FragmentView};
use crate::mime::{
    body_lines, concat_lines, content_type_prefix, crlf, delimiter, disposition_prefix,
    encoding_line, envelope_line, envelope_prefix, join_crlf, lemma_body_lines,
    lemma_concat_lines_concat, lemma_concat_lines_one, lemma_index_of_at,
    lemma_join_crlf_concat, lemma_join_crlf_one, lines, lines_from, part_lines, quote, strip_cr,
    terminator, version_line,
};
use crate::read_mime::{
    chunks_from, close_chunk, envelope_boundary, lemma_first_empty_at,
    lemma_first_with_prefix_at, parse_chunk, parse_spec, quoted_after, restore_upto,
    starts_with, CodecError, DecodedView, ParsedView,
};
use crate::registry::subtype_of;

verus! {

/// `s` holds no line feed.
pub open spec fn no_newline(s: Seq<char>) -> bool {
    forall|i: int| 0 <= i < s.len() ==> s[i] != '\n'
}

/// A filename that a part header can carry: no `"` and no line feed.
pub open spec fn name_fits(n: Seq<char>) -> bool {
    forall|i: int| 0 <= i < n.len() ==> n[i] != '"' && n[i] != '\n'
}

/// Every fragment's name fits in a part header.
pub open spec fn names_fit(fs: Seq<FragmentView>) -> bool {
    forall|i: int| 0 <= i < fs.len() ==> name_fits(#[trigger] fs[i].relative_name)
}

/// The fragments whose content kind is registered, in order.
pub open spec fn kept(fs: Seq<FragmentView>) -> Seq<FragmentView>
    decreases fs.len(),
{
    if fs.len() == 0 {
        Seq::empty()
    } else if subtype_of(fs.last().content_kind) is Some {
        kept(fs.drop_last()).push(fs.last())
    } else {
        kept(fs.drop_last())
    }
}

/// The lines of the part of a fragment whose content kind is registered.
pub open spec fn chunk_of(f: FragmentView) -> Seq<Seq<char>> {
    part_lines(subtype_of(f.content_kind)->0, f.relative_name, f.body)
}

/// What parsing finds in the part of a fragment: its name and the base64 text of its body.
pub open spec fn encoded_part_of(f: FragmentView) -> Option<(Seq<char>, Seq<char>)> {
    Some((f.relative_name, b64_of(f.body)))
}

/// The lines one fragment adds to the message: a delimiter and its part where its content
/// kind is registered, nothing otherwise.
pub open spec fn leading_lines(f: FragmentView, boundary: Seq<char>) -> Seq<Seq<char>> {
    match subtype_of(f.content_kind) {
        Some(t) => seq![delimiter(boundary)] + part_lines(t, f.relative_name, f.body),
        None => Seq::empty(),
    }
}

/// The parts and the kept fragments, read from the first fragment on.
pub proof fn lemma_front(fs: Seq<FragmentView>, boundary: Seq<char>)
    requires
        fs.len() > 0,
    ensures
        parts_lines(fs, boundary) == leading_lines(fs[0], boundary) + parts_lines(
            fs.subrange(1, fs.len() as int),
            boundary,
        ),
        kept(fs) == (if subtype_of(fs[0].content_kind) is Some {
            seq![fs[0]]
        } else {
            Seq::empty()
        }) + kept(fs.subrange(1, fs.len() as int)),
    decreases fs.len(),
{
    let rest = fs.subrange(1, fs.len() as int);
    if fs.len() == 1 {
        assert(fs.drop_last() =~= Seq::<FragmentView>::empty());
        assert(rest =~= Seq::<FragmentView>::empty());
        assert(parts_lines(fs, boundary) =~= leading_lines(fs[0], boundary) + parts_lines(
            rest,
            boundary,
        ));
        assert(kept(fs) =~= (if subtype_of(fs[0].content_kind) is Some {
            seq![fs[0]]
        } else {
            Seq::empty()
        }) + kept(rest));
    } else {
        let init = fs.drop_last();
        lemma_front(init, boundary);
        assert(init[0] == fs[0]);
        assert(init.subrange(1, init.len() as int) =~= rest.drop_last());
        assert(rest.last() == fs.last());
        assert(parts_lines(fs, boundary) =~= leading_lines(fs[0], boundary) + parts_lines(
            rest,
            boundary,
        ));
        assert(kept(fs) =~= (if subtype_of(fs[0].content_kind) is Some {
            seq![fs[0]]
        } else {
            Seq::empty()
        }) + kept(rest));
    }
}

/// Splitting CRLF-joined lines gives them back, where no line holds a line feed.
pub proof fn lemma_lines_join(p: Seq<char>, ls: Seq<Seq<char>>)
    requires
        forall|j: int| 0 <= j < ls.len() ==> no_newline(#[trigger] ls[j]),
    ensures
        lines_from(p + join_crlf(ls), p.len() as int) == ls,
    decreases ls.len(),
{
    let s = p + join_crlf(ls);
    if ls.len() == 0 {
        assert(join_crlf(ls) =~= Seq::<char>::empty());
        assert(lines_from(s, p.len() as int) =~= Seq::<Seq<char>>::empty());
    } else {
        let l = ls[0];
        let rest = ls.subrange(1, ls.len() as int);
        assert(ls =~= seq![l] + rest);
        lemma_join_crlf_concat(seq![l], rest);
        lemma_join_crlf_one(l);
        let p2 = p + l + crlf();
        assert(s =~= p2 + join_crlf(rest));
        let a = p.len() as int;
        let k = a + l.len() + 1;
        assert(no_newline(ls[0]));
        assert forall|j: int| a <= j < k implies s[j] != '\n' by {
            if j < a + l.len() {
                assert(s[j] == l[j - a]);
            } else {
                assert(s[j] == '\r');
            }
        }
        assert(s[k] == '\n');
        lemma_index_of_at(s, '\n', a, k);
        assert(s.subrange(a, k) =~= l.push('\r'));
        assert(strip_cr(l.push('\r')) =~= l);
        assert forall|j: int| 0 <= j < rest.len() implies no_newline(#[trigger] rest[j]) by {
            assert(rest[j] == ls[j + 1]);
        }
        lemma_lines_join(p2, rest);
        assert(lines_from(s, a) == seq![l] + lines_from(s, k + 1));
        assert(lines_from(s, a) =~= ls);
    }
}

/// A line that can never be taken for a delimiter: empty, or not starting with `-`.
pub open spec fn plain_line(l: Seq<char>) -> bool {
    l.len() == 0 || l[0] != '-'
}

/// The fixed header texts hold no line feed, and differ where parsing tells them apart.
pub proof fn lemma_literals()
    ensures
        no_newline(envelope_prefix()),
        no_newline(content_type_prefix()),
        no_newline(version_line()),
        no_newline(encoding_line()),
        no_newline(disposition_prefix()),
        no_newline(quote()),
        content_type_prefix().len() == 14,
        content_type_prefix()[0] == 'C',
        content_type_prefix()[8] == 'T',
        version_line().len() == 17,
        version_line()[0] == 'M',
        encoding_line().len() == 33,
        encoding_line()[0] == 'C',
        disposition_prefix().len() == 43,
        disposition_prefix()[0] == 'C',
        disposition_prefix()[8] == 'D',
        disposition_prefix()[42] == '"',
        envelope_prefix().len() == 41,
        no_newline("text/jinja2; charset=\"utf8\""@),
{
    reveal_strlit("Content-Type: multipart/mixed; boundary=\"");
    reveal_strlit("Content-Type: ");
    reveal_strlit("MIME-Version: 1.0");
    reveal_strlit("Content-Transfer-Encoding: base64");
    reveal_strlit("Content-Disposition: attachment; filename=\"");
    reveal_strlit("text/jinja2; charset=\"utf8\"");
}

/// The lines of a registered fragment's part: none holds a line feed, and none can be taken
/// for a delimiter.
pub proof fn lemma_part_shape(f: FragmentView)
    requires
        subtype_of(f.content_kind) is Some,
        name_fits(f.relative_name),
    ensures
        forall|j: int|
            0 <= j < chunk_of(f).len() ==> no_newline(#[trigger] chunk_of(f)[j]) && plain_line(
                chunk_of(f)[j],
            ),
{
    lemma_literals();
    lemma_body_lines(f.body);
    let c = chunk_of(f);
    let t = subtype_of(f.content_kind)->0;
    let bl = body_lines(f.body);
    assert(t == "text/jinja2; charset=\"utf8\""@);
    assert forall|j: int| 0 <= j < c.len() implies no_newline(#[trigger] c[j]) && plain_line(
        c[j],
    ) by {
        if j == 0 {
            assert(c[j] == content_type_prefix() + t);
        } else if j == 1 {
        } else if j == 2 {
        } else if j == 3 {
            assert(c[j] == disposition_prefix() + f.relative_name + quote());
        } else if j == 4 {
        } else if j < 5 + bl.len() {
            assert(c[j] == bl[j - 5]);
            assert forall|k: int| 0 <= k < bl[j - 5].len() implies #[trigger] bl[j - 5][k] != '\n' by {
                assert(is_b64_text_char(bl[j - 5][k]));
            }
            assert(is_b64_text_char(bl[j - 5][0]));
        } else {
            assert(c[j] == Seq::<char>::empty());
        }
    }
}

/// Parsing the part of a registered fragment finds its name and the base64 text of its body.
pub proof fn lemma_parse_part(f: FragmentView)
    requires
        subtype_of(f.content_kind) is Some,
        name_fits(f.relative_name),
    ensures
        parse_chunk(chunk_of(f)) == encoded_part_of(f),
{
    lemma_literals();
    lemma_body_lines(f.body);
    let c = chunk_of(f);
    let t = subtype_of(f.content_kind)->0;
    let bl = body_lines(f.body);
    let d = disposition_prefix();
    let n = f.relative_name;
    assert(c[0] == content_type_prefix() + t);
    assert(c[3] == d + n + quote());
    assert(c[4] == Seq::<char>::empty());
    lemma_first_empty_at(c, 0, 4);
    assert(!starts_with(c[0], d)) by {
        if starts_with(c[0], d) {
            assert(c[0].subrange(0, d.len() as int)[8] == d[8]);
        }
    }
    let l3 = c[3];
    assert(l3.subrange(0, d.len() as int) =~= d);
    lemma_first_with_prefix_at(c, d, 0, 3, 4);
    let rest = l3.subrange(d.len() as int, l3.len() as int);
    assert(rest =~= n + quote());
    assert forall|j: int| 0 <= j < n.len() implies rest[j] != '"' by {
        assert(rest[j] == n[j]);
    }
    lemma_index_of_at(rest, '"', 0, n.len() as int);
    assert(rest.subrange(0, n.len() as int) =~= n);
    assert(quoted_after(l3, d) == Some(n));
    let body = c.subrange(5, c.len() as int);
    assert(body =~= bl + seq![Seq::<char>::empty()]);
    lemma_concat_lines_concat(bl, seq![Seq::<char>::empty()]);
    lemma_concat_lines_one(Seq::<char>::empty());
    assert(concat_lines(body) =~= b64_of(f.body));
}

/// Lines that are neither delimiter nor terminator leave the chunking unchanged.
pub proof fn lemma_chunks_skip(
    ls: Seq<Seq<char>>,
    b: Seq<char>,
    i: int,
    n: int,
    start: Option<int>,
)
    requires
        0 <= i <= n <= ls.len(),
        forall|j: int| i <= j < n ==> #[trigger] ls[j] != delimiter(b) && ls[j] != terminator(b),
    ensures
        chunks_from(ls, b, i, start) == chunks_from(ls, b, n, start),
    decreases n - i,
{
    if i < n {
        lemma_chunks_skip(ls, b, i + 1, n, start);
    }
}

/// A plain line is neither a delimiter nor the terminator.
pub proof fn lemma_plain_not_delimiter(l: Seq<char>, b: Seq<char>)
    requires
        plain_line(l),
    ensures
        l != delimiter(b),
        l != terminator(b),
{
    if l.len() > 0 {
        assert(delimiter(b)[0] == '-');
        assert(terminator(b)[0] == '-');
    } else {
        assert(delimiter(b).len() >= 2);
        assert(terminator(b).len() >= 2);
    }
}

/// The chunks found from line `p` on, where the lines of the fragments' parts stand from `p`
/// and the terminator follows them.
pub proof fn lemma_chunks(
    ls: Seq<Seq<char>>,
    b: Seq<char>,
    fs: Seq<FragmentView>,
    p: int,
    start: Option<int>,
)
    requires
        0 <= p,
        p + parts_lines(fs, b).len() < ls.len(),
        ls.subrange(p, p + parts_lines(fs, b).len()) == parts_lines(fs, b),
        ls[p + parts_lines(fs, b).len()] == terminator(b),
        names_fit(fs),
        start is Some ==> 0 <= start->0 <= p,
    ensures
        chunks_from(ls, b, p, start) == close_chunk(ls, start, p) + kept(fs).map_values(
            |f: FragmentView| chunk_of(f),
        ),
    decreases fs.len(),
{
    let k = parts_lines(fs, b);
    if fs.len() == 0 {
        assert(kept(fs).map_values(|f: FragmentView| chunk_of(f)) =~= Seq::<Seq<Seq<char>>>::empty());
        assert(close_chunk(ls, start, p) + Seq::<Seq<Seq<char>>>::empty() =~= close_chunk(ls, start, p));
    } else {
        let rest = fs.subrange(1, fs.len() as int);
        lemma_front(fs, b);
        let k2 = parts_lines(rest, b);
        assert(names_fit(rest)) by {
            assert forall|i: int| 0 <= i < rest.len() implies name_fits(#[trigger] rest[i].relative_name) by {
                assert(rest[i] == fs[i + 1]);
            }
        }
        let f = fs[0];
        assert(name_fits(fs[0].relative_name));
        match subtype_of(f.content_kind) {
            None => {
                assert(k == k2);
                lemma_chunks(ls, b, rest, p, start);
                assert(kept(fs) =~= kept(rest));
            },
            Some(t) => {
                let pl = part_lines(t, f.relative_name, f.body);
                assert(pl == chunk_of(f));
                let q = p + 1 + pl.len();
                assert(k =~= seq![delimiter(b)] + pl + k2);
                assert(ls[p] == k[0]);
                assert(ls[p] == delimiter(b));
                assert(delimiter(b) != terminator(b)) by {
                    assert(delimiter(b).len() != terminator(b).len());
                }
                assert(chunks_from(ls, b, p, start) == close_chunk(ls, start, p) + chunks_from(
                    ls,
                    b,
                    p + 1,
                    Some(p + 1),
                ));
                lemma_part_shape(f);
                assert forall|j: int| p + 1 <= j < q implies #[trigger] ls[j] != delimiter(b)
                    && ls[j] != terminator(b) by {
                    assert(ls[j] == k[j - p]);
                    assert(k[j - p] == pl[j - p - 1]);
                    assert(plain_line(chunk_of(f)[j - p - 1]));
                    lemma_plain_not_delimiter(ls[j], b);
                }
                lemma_chunks_skip(ls, b, p + 1, q, Some(p + 1));
                assert(ls.subrange(q, q + k2.len()) =~= k2) by {
                    assert forall|j: int| 0 <= j < k2.len() implies ls.subrange(q, q + k2.len())[j] == k2[j] by {
                        assert(ls[q + j] == k[q + j - p]);
                    }
                }
                lemma_chunks(ls, b, rest, q, Some(p + 1));
                assert(ls.subrange(p + 1, q) =~= pl) by {
                    assert forall|j: int| 0 <= j < pl.len() implies ls.subrange(p + 1, q)[j] == pl[j] by {
                        assert(ls[p + 1 + j] == k[1 + j]);
                    }
                }
                assert(kept(fs) =~= seq![f] + kept(rest));
                assert(kept(fs).map_values(|f: FragmentView| chunk_of(f)) =~= seq![chunk_of(f)]
                    + kept(rest).map_values(|f: FragmentView| chunk_of(f)));
                assert(chunks_from(ls, b, p, start) =~= close_chunk(ls, start, p) + kept(fs).map_values(
                    |f: FragmentView| chunk_of(f),
                ));
            },
        }
    }
}

/// A boundary holds no line feed and no `"`.
pub proof fn lemma_boundary_chars(b: Seq<char>)
    requires
        is_boundary(b),
    ensures
        no_newline(b),
        forall|i: int| 0 <= i < b.len() ==> #[trigger] b[i] != '"',
{
    assert forall|i: int| 0 <= i < b.len() implies #[trigger] b[i] != '"' && b[i] != '\n' by {
        if 15 <= i < b.len() - 2 {
            assert('0' <= b[i] <= '9');
        }
    }
}

/// No line of the parts holds a line feed.
pub proof fn lemma_parts_no_newline(fs: Seq<FragmentView>, b: Seq<char>)
    requires
        no_newline(b),
        names_fit(fs),
    ensures
        forall|j: int|
            0 <= j < parts_lines(fs, b).len() ==> no_newline(#[trigger] parts_lines(fs, b)[j]),
    decreases fs.len(),
{
    if fs.len() > 0 {
        let init = fs.drop_last();
        assert(names_fit(init)) by {
            assert forall|i: int| 0 <= i < init.len() implies name_fits(#[trigger] init[i].relative_name) by {
                assert(init[i] == fs[i]);
            }
        }
        lemma_parts_no_newline(init, b);
        let f = fs.last();
        assert(name_fits(fs[fs.len() - 1].relative_name));
        if subtype_of(f.content_kind) is Some {
            lemma_part_shape(f);
            let prev = parts_lines(init, b);
            let pl = chunk_of(f);
            assert(parts_lines(fs, b) == prev + seq![delimiter(b)] + pl);
            assert(no_newline(delimiter(b)));
            assert forall|j: int| 0 <= j < parts_lines(fs, b).len() implies no_newline(
                #[trigger] parts_lines(fs, b)[j],
            ) by {
                if j < prev.len() {
                    assert(parts_lines(fs, b)[j] == prev[j]);
                } else if j == prev.len() {
                } else {
                    assert(parts_lines(fs, b)[j] == pl[j - prev.len() - 1]);
                }
            }
        }
    }
}

/// Every kept fragment has a registered content kind and a name that fits a header.
pub proof fn lemma_kept(fs: Seq<FragmentView>)
    requires
        names_fit(fs),
    ensures
        forall|i: int|
            0 <= i < kept(fs).len() ==> subtype_of((#[trigger] kept(fs)[i]).content_kind) is Some
                && name_fits(kept(fs)[i].relative_name),
    decreases fs.len(),
{
    if fs.len() > 0 {
        let init = fs.drop_last();
        assert(names_fit(init)) by {
            assert forall|i: int| 0 <= i < init.len() implies name_fits(#[trigger] init[i].relative_name) by {
                assert(init[i] == fs[i]);
            }
        }
        lemma_kept(init);
        assert(name_fits(fs[fs.len() - 1].relative_name));
    }
}

/// Parsing a message that encodes the fragments `fs` finds a conformant envelope and, in
/// order, the name and the base64 text of the body of each fragment whose content kind is
/// registered.
pub proof fn lemma_parse_encoded(fs: Seq<FragmentView>, b: Seq<char>)
    requires
        is_boundary(b),
        names_fit(fs),
    ensures
        parse_spec(encode_spec(fs, b)) == Ok::<ParsedView, CodecError>(
            ParsedView {
                conformant: true,
                parts: kept(fs).map_values(|f: FragmentView| encoded_part_of(f)),
            },
        ),
{
    lemma_literals();
    lemma_boundary_chars(b);
    lemma_parts_no_newline(fs, b);
    let ls = message_lines(fs, b);
    let k = parts_lines(fs, b);
    let env = seq![envelope_line(b), version_line(), Seq::<char>::empty()];
    let tl = seq![terminator(b), Seq::<char>::empty()];
    assert(ls == env + k + tl);
    assert(no_newline(delimiter(b)));
    assert(no_newline(terminator(b)));
    assert forall|j: int| 0 <= j < ls.len() implies no_newline(#[trigger] ls[j]) by {
        if j < 3 {
        } else if j < 3 + k.len() {
            assert(ls[j] == k[j - 3]);
        } else {
        }
    }
    lemma_lines_join(Seq::empty(), ls);
    assert(Seq::<char>::empty() + join_crlf(ls) =~= encode_spec(fs, b));
    assert(lines(encode_spec(fs, b)) == ls);
    let l0 = ls[0];
    let ep = envelope_prefix();
    assert(l0 == ep + b + quote());
    assert(l0.subrange(0, ep.len() as int) =~= ep);
    let rest = l0.subrange(ep.len() as int, l0.len() as int);
    assert(rest =~= b + quote());
    assert forall|j: int| 0 <= j < b.len() implies rest[j] != '"' by {
        assert(rest[j] == b[j]);
    }
    lemma_index_of_at(rest, '"', 0, b.len() as int);
    assert(rest.subrange(0, b.len() as int) =~= b);
    assert(envelope_boundary(l0) == Some(b));
    lemma_plain_not_delimiter(ls[2], b);
    lemma_chunks_skip(ls, b, 2, 3, None);
    assert(ls.subrange(3, 3 + k.len() as int) =~= k);
    assert(ls[3 + k.len() as int] == terminator(b));
    lemma_chunks(ls, b, fs, 3, None);
    let chunks = kept(fs).map_values(|f: FragmentView| chunk_of(f));
    assert(chunks_from(ls, b, 2, None) =~= chunks);
    lemma_kept(fs);
    assert forall|i: int| 0 <= i < chunks.len() implies #[trigger] parse_chunk(chunks[i])
        == encoded_part_of(kept(fs)[i]) by {
        lemma_parse_part(kept(fs)[i]);
    }
    assert(chunks.map_values(|c: Seq<Seq<char>>| parse_chunk(c)) =~= kept(fs).map_values(
        |f: FragmentView| encoded_part_of(f),
    ));
}

/// The fragments that decoding a message encoding `fs` gives back: the name and body of each
/// fragment whose content kind is registered, in order.
pub open spec fn restored_of(fs: Seq<FragmentView>) -> Seq<(Seq<char>, Seq<u8>)> {
    kept(fs).map_values(|f: FragmentView| (f.relative_name, f.body))
}

/// Restoring parts that all decoded to their fragments' bodies gives back the fragments and
/// no diagnostic.
pub proof fn lemma_restore_all(
    ks: Seq<FragmentView>,
    parts: Seq<Option<(Seq<char>, Seq<char>)>>,
    dv: Seq<Option<Seq<u8>>>,
    n: int,
)
    requires
        parts == ks.map_values(|f: FragmentView| encoded_part_of(f)),
        dv.len() == parts.len(),
        forall|i: int| 0 <= i < dv.len() ==> #[trigger] dv[i] == Some(ks[i].body),
        0 <= n <= ks.len(),
    ensures
        restore_upto(parts, dv, n) == (DecodedView {
            fragments: ks.take(n).map_values(|f: FragmentView| (f.relative_name, f.body)),
            diagnostics: Seq::empty(),
        }),
    decreases n,
{
    if n > 0 {
        lemma_restore_all(ks, parts, dv, n - 1);
        assert(parts[n - 1] == encoded_part_of(ks[n - 1]));
        assert(dv[n - 1] == Some(ks[n - 1].body));
        assert(ks.take(n).map_values(|f: FragmentView| (f.relative_name, f.body)) =~= ks.take(
            n - 1,
        ).map_values(|f: FragmentView| (f.relative_name, f.body)).push(
            (ks[n - 1].relative_name, ks[n - 1].body),
        ));
    } else {
        assert(ks.take(0).map_values(|f: FragmentView| (f.relative_name, f.body))
            =~= Seq::<(Seq<char>, Seq<u8>)>::empty());
    }
}

} // verus!
