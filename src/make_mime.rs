use vstd::prelude::*;
use vstd::string::StringExecFns;
use crate::base64_text::encode_b64;
use crate::boundary::{boundary_of, generate_boundary};
use crate::mime::{
    body_lines, content_type_prefix, crlf, delimiter, disposition_prefix, encoding_line,
    envelope_line, index_of, join_crlf, lemma_index_of_at, lemma_join_crlf_concat,
    lemma_join_crlf_one, lemma_join_crlf_push, part_lines, quote, terminator, version_line,
    wrap_from,
};
use crate::registry::{resolve_subtype, subtype_of};
use crate::text::{chars_of, copy_range, string_of};

verus! {

/// One named unit of provisioning content.
pub struct Fragment {
    /// The path-like name declared for the fragment in the message.
    pub relative_name: String,
    /// The content kind, looked up in the registry.
    pub content_kind: String,
    /// The raw content.
    pub body: Vec<u8>,
}

/// The mathematical value of a `Fragment`.
pub ghost struct FragmentView {
    pub relative_name: Seq<char>,
    pub content_kind: Seq<char>,
    pub body: Seq<u8>,
}

impl View for Fragment {
    type V = FragmentView;

    open spec fn view(&self) -> FragmentView {
        FragmentView {
            relative_name: self.relative_name@,
            content_kind: self.content_kind@,
            body: self.body@,
        }
    }
}

/// The lines of all parts, in order: a delimiter and the part's lines for each fragment whose
/// content kind is registered; the others are left out.
pub open spec fn parts_lines(fs: Seq<FragmentView>, boundary: Seq<char>) -> Seq<Seq<char>>
    decreases fs.len(),
{
    if fs.len() == 0 {
        Seq::empty()
    } else {
        let rest = parts_lines(fs.drop_last(), boundary);
        let f = fs.last();
        match subtype_of(f.content_kind) {
            Some(t) => rest + seq![delimiter(boundary)] + part_lines(t, f.relative_name, f.body),
            None => rest,
        }
    }
}

/// The lines of the whole message.
pub open spec fn message_lines(fs: Seq<FragmentView>, boundary: Seq<char>) -> Seq<Seq<char>> {
    seq![envelope_line(boundary), version_line(), Seq::<char>::empty()] + parts_lines(fs, boundary)
        + seq![terminator(boundary), Seq::<char>::empty()]
}

/// The message that encodes the fragments `fs` with the given boundary.
pub open spec fn encode_spec(fs: Seq<FragmentView>, boundary: Seq<char>) -> Seq<char> {
    join_crlf(message_lines(fs, boundary))
}

/// The views of a vector of fragments.
pub open spec fn fragments_view(v: Seq<Fragment>) -> Seq<FragmentView> {
    v.map_values(|f: Fragment| f@)
}

/// Fragment bodies whose base64 length fits in memory.
pub open spec fn bodies_fit(v: Seq<Fragment>) -> bool {
    forall|i: int| 0 <= i < v.len() ==> (#[trigger] v[i]).body@.len() <= usize::MAX / 2
}

/// Appends `line` and CRLF.
fn append_line(out: &mut String, line: &str)
    ensures
        final(out)@ == old(out)@ + line@ + crlf(),
{
    out.append(line);
    out.append("\r\n");
    proof {
        reveal_strlit("\r\n");
    }
}

/// An unregistered fragment adds no lines to the parts.
pub proof fn lemma_parts_lines_skip(
    before: Seq<FragmentView>,
    u: FragmentView,
    after: Seq<FragmentView>,
    boundary: Seq<char>,
)
    requires
        subtype_of(u.content_kind) is None,
    ensures
        parts_lines(before.push(u) + after, boundary) == parts_lines(before + after, boundary),
    decreases after.len(),
{
    if after.len() == 0 {
        assert(before.push(u) + after =~= before.push(u));
        assert(before + after =~= before);
        assert(before.push(u).drop_last() =~= before);
    } else {
        lemma_parts_lines_skip(before, u, after.drop_last(), boundary);
        assert((before.push(u) + after).drop_last() =~= before.push(u) + after.drop_last());
        assert((before + after).drop_last() =~= before + after.drop_last());
        assert((before.push(u) + after).last() == after.last());
        assert((before + after).last() == after.last());
    }
}

/// Leaving out a fragment whose content kind is not registered changes nothing in the
/// message: its part is absent and every other part appears as before.
pub proof fn lemma_unregistered_left_out(
    before: Seq<FragmentView>,
    u: FragmentView,
    after: Seq<FragmentView>,
    boundary: Seq<char>,
)
    requires
        subtype_of(u.content_kind) is None,
    ensures
        encode_spec(before.push(u) + after, boundary) == encode_spec(before + after, boundary),
{
    lemma_parts_lines_skip(before, u, after, boundary);
}

/// `s` without its trailing `/` characters.
pub open spec fn trim_end_slashes(s: Seq<char>) -> Seq<char>
    decreases s.len(),
{
    if s.len() > 0 && s.last() == '/' {
        trim_end_slashes(s.drop_last())
    } else {
        s
    }
}

/// The characters of `s` after its last `/`.
pub open spec fn last_component(s: Seq<char>) -> Seq<char>
    decreases s.len(),
{
    if s.len() == 0 || s.last() == '/' {
        Seq::empty()
    } else {
        last_component(s.drop_last()).push(s.last())
    }
}

/// The filename declared for `file_name` read from the directory `work_dir`: the directory's
/// own name, a `/`, then `file_name`; just `file_name` where the directory has no name.
pub open spec fn declared_name(work_dir: Seq<char>, file_name: Seq<char>) -> Seq<char> {
    let root = last_component(trim_end_slashes(work_dir));
    if root.len() == 0 {
        file_name
    } else {
        root + seq!['/'] + file_name
    }
}

/// Builds MIME messages in the cloud-init user-data format.
pub struct MakeMime;

impl MakeMime {
    /// Splits a part entry `<file name>_<content kind>` at its first `_`.
    pub fn parse_part_spec(entry: &str) -> (r: Option<(String, String)>)
        ensures
            match r {
                Some((name, kind)) => {
                    let k = index_of(entry@, '_', 0);
                    &&& k < entry@.len()
                    &&& name@ == entry@.subrange(0, k)
                    &&& kind@ == entry@.subrange(k + 1, entry@.len() as int)
                },
                None => index_of(entry@, '_', 0) == entry@.len(),
            },
    {
        let v = chars_of(entry);
        let mut k: usize = 0;
        while k < v.len() && v[k] != '_'
            invariant
                k <= v.len(),
                forall|j: int| 0 <= j < k ==> v@[j] != '_',
            decreases v.len() - k,
        {
            k += 1;
        }
        proof {
            lemma_index_of_at(v@, '_', 0, k as int);
        }
        if k == v.len() {
            None
        } else {
            let name = copy_range(&v, 0, k);
            let kind = copy_range(&v, k + 1, v.len());
            Some((string_of(&name), string_of(&kind)))
        }
    }

    /// The filename declared in the message for `file_name` read from `work_dir`: the path
    /// with everything above the directory's own name taken off.
    pub fn declared_filename(work_dir: &str, file_name: &str) -> (r: String)
        ensures
            r@ == declared_name(work_dir@, file_name@),
    {
        let w = chars_of(work_dir);
        let mut e: usize = w.len();
        assert(w@.take(e as int) =~= w@);
        while e > 0 && w[e - 1] == '/'
            invariant
                e <= w.len(),
                trim_end_slashes(w@.take(e as int)) == trim_end_slashes(w@),
            decreases e,
        {
            assert(w@.take(e as int).drop_last() =~= w@.take(e - 1));
            e -= 1;
        }
        let ghost t = w@.take(e as int);
        assert(trim_end_slashes(t) == t);
        let mut b: usize = e;
        while b > 0 && w[b - 1] != '/'
            invariant
                b <= e <= w.len(),
                t == w@.take(e as int),
                last_component(t) == last_component(w@.take(b as int)) + w@.subrange(b as int, e as int),
            decreases b,
        {
            assert(w@.take(b as int).drop_last() =~= w@.take(b - 1));
            assert(w@.subrange(b - 1, e as int) =~= seq![w@[b - 1]] + w@.subrange(b as int, e as int));
            assert(last_component(w@.take(b - 1)).push(w@[b - 1]) + w@.subrange(b as int, e as int)
                =~= last_component(w@.take(b - 1)) + w@.subrange(b - 1, e as int));
            b -= 1;
        }
        assert(last_component(w@.take(b as int)) =~= Seq::<char>::empty());
        let root = copy_range(&w, b, e);
        assert(root@ =~= last_component(t));
        if root.len() == 0 {
            String::from_str(file_name)
        } else {
            let mut r = string_of(&root);
            r.push('/');
            r.append(file_name);
            r
        }
    }

    /// Appends the base64 body of `body` to `out`, in lines of at most 76 characters, each
    /// ended by CRLF.
    fn write_body(out: &mut String, body: &[u8])
        requires
            body@.len() <= usize::MAX / 2,
        ensures
            final(out)@ == old(out)@ + join_crlf(body_lines(body@)),
    {
        let text = encode_b64(body);
        let t = chars_of(text.as_str());
        let ghost target = old(out)@ + join_crlf(wrap_from(t@, 0));
        let mut i: usize = 0;
        while i < t.len()
            invariant
                i <= t.len(),
                out@ + join_crlf(wrap_from(t@, i as int)) == target,
            decreases t.len() - i,
        {
            let e: usize = if t.len() - i <= 76 {
                t.len()
            } else {
                i + 76
            };
            let ghost before = out@;
            let mut k: usize = i;
            while k < e
                invariant
                    i <= k <= e <= t.len(),
                    out@ == before + t@.subrange(i as int, k as int),
                decreases e - k,
            {
                out.push(t[k]);
                k += 1;
                assert(t@.subrange(i as int, k as int) =~= t@.subrange(i as int, (k - 1) as int).push(
                    t@[k - 1],
                ));
            }
            out.append("\r\n");
            proof {
                reveal_strlit("\r\n");
                let line = t@.subrange(i as int, e as int);
                let rest = wrap_from(t@, e as int);
                assert(wrap_from(t@, i as int) == seq![line] + rest);
                lemma_join_crlf_concat(seq![line], rest);
                lemma_join_crlf_one(line);
                assert(out@ + join_crlf(rest) =~= before + join_crlf(wrap_from(t@, i as int)));
            }
            i = e;
        }
        assert(join_crlf(wrap_from(t@, t.len() as int)) =~= Seq::<char>::empty());
        assert(out@ =~= target);
    }

    /// Appends the lines of one part to `out`.
    fn write_part(out: &mut String, subtype: &str, filename: &str, body: &[u8])
        requires
            body@.len() <= usize::MAX / 2,
        ensures
            final(out)@ == old(out)@ + join_crlf(part_lines(subtype@, filename@, body@)),
    {
        let ghost start = out@;
        out.append("Content-Type: ");
        out.append(subtype);
        out.append("\r\n");
        append_line(out, "MIME-Version: 1.0");
        append_line(out, "Content-Transfer-Encoding: base64");
        out.append("Content-Disposition: attachment; filename=\"");
        out.append(filename);
        append_line(out, "\"");
        append_line(out, "");
        let ghost mid = out@;
        Self::write_body(out, body);
        append_line(out, "");
        proof {
            reveal_strlit("\r\n");
            reveal_strlit("");
            reveal_strlit("\"");
            let head = seq![
                content_type_prefix() + subtype@,
                version_line(),
                encoding_line(),
                disposition_prefix() + filename@ + quote(),
                Seq::<char>::empty(),
            ];
            let bl = body_lines(body@);
            let tail = seq![Seq::<char>::empty()];
            let l0 = content_type_prefix() + subtype@;
            let l3 = disposition_prefix() + filename@ + quote();
            let e = Seq::<char>::empty();
            lemma_join_crlf_one(l0);
            lemma_join_crlf_push(seq![l0], version_line());
            lemma_join_crlf_push(seq![l0, version_line()], encoding_line());
            lemma_join_crlf_push(seq![l0, version_line(), encoding_line()], l3);
            lemma_join_crlf_push(seq![l0, version_line(), encoding_line(), l3], e);
            assert(seq![l0].push(version_line()) =~= seq![l0, version_line()]);
            assert(seq![l0, version_line()].push(encoding_line()) =~= seq![l0, version_line(), encoding_line()]);
            assert(seq![l0, version_line(), encoding_line()].push(l3) =~= seq![l0, version_line(), encoding_line(), l3]);
            assert(seq![l0, version_line(), encoding_line(), l3].push(e) =~= head);
            assert(mid =~= start + join_crlf(head));
            lemma_join_crlf_one(Seq::<char>::empty());
            assert(Seq::<char>::empty() + crlf() =~= crlf());
            lemma_join_crlf_concat(head, bl);
            lemma_join_crlf_concat(head + bl, tail);
            assert(part_lines(subtype@, filename@, body@) == head + bl + tail);
            assert(out@ =~= start + join_crlf(part_lines(subtype@, filename@, body@)));
        }
    }

    /// Formats one fragment as a MIME part: its headers, a blank line, and its body in base64,
    /// in CRLF-terminated lines of at most 76 characters.
    pub fn format_mime_part(subtype: &str, filename: &str, body: &[u8]) -> (r: String)
        requires
            body@.len() <= usize::MAX / 2,
        ensures
            r@ == join_crlf(part_lines(subtype@, filename@, body@)),
    {
        let mut out = String::new();
        Self::write_part(&mut out, subtype, filename, body);
        assert(out@ =~= join_crlf(part_lines(subtype@, filename@, body@)));
        out
    }

    /// Encodes the fragments, in order, as one multipart message with the given boundary.
    /// Fragments whose content kind is not registered are left out.
    pub fn make_mime_with_boundary(fragments: &Vec<Fragment>, boundary: &str) -> (r: String)
        requires
            bodies_fit(fragments@),
        ensures
            r@ == encode_spec(fragments_view(fragments@), boundary@),
    {
        let ghost fs = fragments_view(fragments@);
        let mut out = String::new();
        out.append("Content-Type: multipart/mixed; boundary=\"");
        out.append(boundary);
        append_line(&mut out, "\"");
        append_line(&mut out, "MIME-Version: 1.0");
        append_line(&mut out, "");
        let ghost env = seq![envelope_line(boundary@), version_line(), Seq::<char>::empty()];
        proof {
            reveal_strlit("");
            reveal_strlit("\"");
            lemma_join_crlf_one(envelope_line(boundary@));
            lemma_join_crlf_push(seq![envelope_line(boundary@)], version_line());
            lemma_join_crlf_push(seq![envelope_line(boundary@), version_line()], Seq::<char>::empty());
            assert(seq![envelope_line(boundary@)].push(version_line()) =~= seq![envelope_line(boundary@), version_line()]);
            assert(seq![envelope_line(boundary@), version_line()].push(Seq::<char>::empty()) =~= env);
            assert(join_crlf(env) =~= out@);
        }
        let mut i: usize = 0;
        while i < fragments.len()
            invariant
                i <= fragments.len(),
                bodies_fit(fragments@),
                fs == fragments_view(fragments@),
                out@ == join_crlf(env + parts_lines(fs.take(i as int), boundary@)),
            decreases fragments.len() - i,
        {
            let f = &fragments[i];
            let ghost prev = parts_lines(fs.take(i as int), boundary@);
            assert(fs.take(i as int + 1).drop_last() =~= fs.take(i as int));
            assert(fs.take(i as int + 1).last() == f@);
            assert(f.body@.len() <= usize::MAX / 2);
            match resolve_subtype(f.content_kind.as_str()) {
                Some(subtype) => {
                    let ghost before = out@;
                    out.append("--");
                    out.append(boundary);
                    append_line(&mut out, "");
                    let ghost mid = out@;
                    Self::write_part(&mut out, subtype, f.relative_name.as_str(), f.body.as_slice());
                    proof {
                        reveal_strlit("");
                        reveal_strlit("--");
                        let dl = seq![delimiter(boundary@)];
                        let pl = part_lines(subtype@, f.relative_name@, f.body@);
                        lemma_join_crlf_one(delimiter(boundary@));
                        assert(mid =~= before + join_crlf(dl));
                        lemma_join_crlf_concat(env + prev, dl);
                        lemma_join_crlf_concat(env + prev + dl, pl);
                        assert(parts_lines(fs.take(i as int + 1), boundary@) == prev + dl + pl);
                        assert(env + (prev + dl + pl) =~= env + prev + dl + pl);
                    }
                },
                None => {
                    assert(parts_lines(fs.take(i as int + 1), boundary@) == prev);
                },
            }
            i += 1;
        }
        let ghost before = out@;
        out.append("--");
        out.append(boundary);
        append_line(&mut out, "--");
        append_line(&mut out, "");
        proof {
            reveal_strlit("");
            reveal_strlit("--");
            assert(fs.take(fragments.len() as int) =~= fs);
            let tl = seq![terminator(boundary@), Seq::<char>::empty()];
            lemma_join_crlf_one(terminator(boundary@));
            lemma_join_crlf_push(seq![terminator(boundary@)], Seq::<char>::empty());
            assert(seq![terminator(boundary@)].push(Seq::<char>::empty()) =~= tl);
            lemma_join_crlf_concat(env + parts_lines(fs, boundary@), tl);
            assert(message_lines(fs, boundary@) =~= env + parts_lines(fs, boundary@) + tl);
            assert(out@ =~= encode_spec(fs, boundary@));
        }
        out
    }

    /// Encodes the fragments, in order, as one multipart message under a freshly generated
    /// boundary. Fragments whose content kind is not registered are left out.
    pub fn make_mime(fragments: &Vec<Fragment>) -> (r: String)
        requires
            bodies_fit(fragments@),
        ensures
            exists|h: u64| r@ == encode_spec(fragments_view(fragments@), boundary_of(h as nat)),
    {
        let boundary = generate_boundary();
        Self::make_mime_with_boundary(fragments, boundary.as_str())
    }
}

} // verus!
