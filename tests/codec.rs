use chiron::boundary::{format_boundary, generate_boundary};
use chiron::make_mime::{Fragment, MakeMime};
use chiron::read_mime::{CodecError, Diagnostic, ParsedMessage, ReadMime};
use chiron::registry::resolve_subtype;

const BOUNDARY: &str = "===============1234567890==";

fn fragment(name: &str, kind: &str, body: &[u8]) -> Fragment {
    Fragment {
        relative_name: name.to_string(),
        content_kind: kind.to_string(),
        body: body.to_vec(),
    }
}

fn is_boundary_shape(b: &str) -> bool {
    let chars: Vec<char> = b.chars().collect();
    chars.len() >= 18
        && chars[..15].iter().all(|c| *c == '=')
        && chars[15..chars.len() - 2].iter().all(|c| c.is_ascii_digit())
        && chars[chars.len() - 2..].iter().all(|c| *c == '=')
}

#[test]
fn encodes_single_jinja2_fragment_exactly() {
    let msg = MakeMime::make_mime_with_boundary(
        &vec![fragment("a/install.yml", "jinja2", b"echo hi")],
        BOUNDARY,
    );
    let expected = "Content-Type: multipart/mixed; boundary=\"===============1234567890==\"\r\n\
MIME-Version: 1.0\r\n\
\r\n\
--===============1234567890==\r\n\
Content-Type: text/jinja2; charset=\"utf8\"\r\n\
MIME-Version: 1.0\r\n\
Content-Transfer-Encoding: base64\r\n\
Content-Disposition: attachment; filename=\"a/install.yml\"\r\n\
\r\n\
ZWNobyBoaQ==\r\n\
\r\n\
--===============1234567890==--\r\n\
\r\n";
    assert_eq!(msg, expected);
}

#[test]
fn concrete_body_decodes_to_echo_hi() {
    let msg = MakeMime::make_mime_with_boundary(
        &vec![fragment("a/install.yml", "jinja2", b"echo hi")],
        BOUNDARY,
    );
    assert!(msg.contains("Content-Disposition: attachment; filename=\"a/install.yml\"\r\n"));
    let body_line = msg.lines().nth(9).unwrap();
    assert_eq!(base64::decode(body_line).unwrap(), b"echo hi".to_vec());
    let decoded = ReadMime::read_mime(&msg).ok().unwrap();
    assert_eq!(decoded.fragments.len(), 1);
    assert_eq!(decoded.fragments[0].filename, "a/install.yml");
    assert_eq!(decoded.fragments[0].content, b"echo hi".to_vec());
}

#[test]
fn second_part_with_unparseable_headers_is_reported() {
    let msg = "Content-Type: multipart/mixed; boundary=\"===============42==\"\r\n\
MIME-Version: 1.0\r\n\
\r\n\
--===============42==\r\n\
Content-Type: text/jinja2; charset=\"utf8\"\r\n\
MIME-Version: 1.0\r\n\
Content-Transfer-Encoding: base64\r\n\
Content-Disposition: attachment; filename=\"a/one.yml\"\r\n\
\r\n\
b25l\r\n\
\r\n\
--===============42==\r\n\
Content-Type: text/jinja2; charset=\"utf8\"\r\n\
X-Broken header without a filename\r\n\
\r\n\
dHdv\r\n\
\r\n\
--===============42==--\r\n";
    let decoded = ReadMime::read_mime(msg).ok().unwrap();
    assert_eq!(decoded.fragments.len(), 1);
    assert_eq!(decoded.fragments[0].filename, "a/one.yml");
    assert_eq!(decoded.fragments[0].content, b"one".to_vec());
    assert_eq!(decoded.diagnostics.len(), 1);
    assert!(matches!(decoded.diagnostics[0], Diagnostic::PartHeaderUnparseable(1)));
}

#[test]
fn missing_envelope_is_malformed() {
    let msg = "MIME-Version: 1.0\r\n\r\n--x\r\nContent-Disposition: attachment; filename=\"a\"\r\n\r\nYQ==\r\n--x--\r\n";
    assert!(matches!(ReadMime::read_mime(msg), Err(CodecError::MalformedEnvelope)));
    assert!(matches!(ReadMime::read_mime(""), Err(CodecError::MalformedEnvelope)));
    assert!(matches!(
        ReadMime::read_mime("Content-Type: multipart/mixed; boundary=\"\"\r\n"),
        Err(CodecError::MalformedEnvelope)
    ));
    assert!(matches!(
        ReadMime::read_mime("Content-Type: multipart/mixed; boundary=\"abc\r\n"),
        Err(CodecError::MalformedEnvelope)
    ));
}

#[test]
fn unknown_content_kind_is_left_out() {
    let frags = vec![
        fragment("a/one.sh", "x-shellscript", b"echo one"),
        fragment("a/two.yml", "jinja2", b"two"),
        fragment("a/three.yml", "Jinja2", b"three"),
    ];
    let msg = MakeMime::make_mime_with_boundary(&frags, BOUNDARY);
    assert!(!msg.contains("a/one.sh"));
    assert!(!msg.contains("a/three.yml"));
    assert!(msg.contains("filename=\"a/two.yml\""));
    let only = MakeMime::make_mime_with_boundary(&vec![fragment("a/two.yml", "jinja2", b"two")], BOUNDARY);
    assert_eq!(msg, only);
    let decoded = ReadMime::read_mime(&msg).ok().unwrap();
    assert_eq!(decoded.fragments.len(), 1);
    assert_eq!(decoded.fragments[0].content, b"two".to_vec());
}

#[test]
fn round_trip_restores_fragments() {
    let big: Vec<u8> = (0..(3 * 1024 * 1024 + 1)).map(|i| (i % 251) as u8).collect();
    let binary: Vec<u8> = (0..=255u8).collect();
    let frags = vec![
        fragment("cloud_init/empty.yml", "jinja2", b""),
        fragment("cloud_init/binary.bin", "jinja2", &binary),
        fragment("cloud_init/big.bin", "jinja2", &big),
        fragment("cloud_init/crlf.txt", "jinja2", b"line one\r\n--===\r\nline two\n"),
    ];
    let msg = MakeMime::make_mime(&frags);
    let decoded = ReadMime::read_mime(&msg).ok().unwrap();
    assert_eq!(decoded.diagnostics.len(), 0);
    assert_eq!(decoded.fragments.len(), frags.len());
    for (f, r) in frags.iter().zip(decoded.fragments.iter()) {
        assert_eq!(f.relative_name, r.filename);
        assert_eq!(f.body, r.content);
    }
}

#[test]
fn body_lines_are_at_most_76_chars_and_crlf_terminated() {
    let body: Vec<u8> = (0..1000u32).map(|i| (i * 7 % 256) as u8).collect();
    let part = MakeMime::format_mime_part("text/jinja2; charset=\"utf8\"", "a/b", &body);
    let start = part.find("\r\n\r\n").unwrap() + 4;
    assert!(part.ends_with("\r\n\r\n"));
    let body_text = &part[start..part.len() - 2];
    let lines: Vec<&str> = body_text.split_terminator("\r\n").collect();
    assert!(body_text.ends_with("\r\n"));
    assert!(!body_text.replace("\r\n", "").contains('\n'));
    for (i, l) in lines.iter().enumerate() {
        assert!(l.len() <= 76);
        if i + 1 < lines.len() {
            assert_eq!(l.len(), 76);
        }
    }
    assert_eq!(base64::decode(lines.concat()).unwrap(), body);
}

#[test]
fn format_mime_part_headers() {
    let part = MakeMime::format_mime_part("text/x", "dir/f.yml", b"abc");
    assert_eq!(
        part,
        "Content-Type: text/x\r\nMIME-Version: 1.0\r\nContent-Transfer-Encoding: base64\r\n\
Content-Disposition: attachment; filename=\"dir/f.yml\"\r\n\r\nYWJj\r\n\r\n"
    );
    let empty = MakeMime::format_mime_part("text/x", "e", b"");
    assert!(empty.ends_with("filename=\"e\"\r\n\r\n\r\n"));
}

#[test]
fn generated_boundaries_have_the_shape_and_differ() {
    let a = generate_boundary();
    let b = generate_boundary();
    assert!(is_boundary_shape(&a), "{}", a);
    assert!(is_boundary_shape(&b), "{}", b);
    assert_ne!(a, b);
}

#[test]
fn format_boundary_renders_decimal() {
    assert_eq!(format_boundary(0), "===============0==");
    assert_eq!(format_boundary(1234567890), "===============1234567890==");
    assert_eq!(format_boundary(u64::MAX), "===============18446744073709551615==");
}

#[test]
fn registry_lookup_is_exact() {
    assert_eq!(resolve_subtype("jinja2"), Some("text/jinja2; charset=\"utf8\""));
    assert_eq!(resolve_subtype("JINJA2"), None);
    assert_eq!(resolve_subtype("jinja"), None);
    assert_eq!(resolve_subtype(""), None);
}

#[test]
fn non_conformant_version_is_reported() {
    let msg = "Content-Type: multipart/mixed; boundary=\"b\"\n\
MIME-Version: 2.0\n\
--b\n\
Content-Disposition: attachment; filename=\"x\"\n\
\n\
YQ==\n\
--b--\n";
    let decoded = ReadMime::read_mime(msg).ok().unwrap();
    assert_eq!(decoded.fragments.len(), 1);
    assert_eq!(decoded.fragments[0].content, b"a".to_vec());
    assert!(matches!(decoded.diagnostics[0], Diagnostic::NonConformantVersion));
}

#[test]
fn invalid_base64_is_reported() {
    let msg = "Content-Type: multipart/mixed; boundary=\"b\"\r\n\
MIME-Version: 1.0\r\n\
--b\r\n\
Content-Disposition: attachment; filename=\"bad\"\r\n\
\r\n\
!!!!\r\n\
--b\r\n\
Content-Disposition: attachment; filename=\"good\"\r\n\
\r\n\
Zm9v\r\n\
--b--\r\n";
    let decoded = ReadMime::read_mime(msg).ok().unwrap();
    assert_eq!(decoded.fragments.len(), 1);
    assert_eq!(decoded.fragments[0].filename, "good");
    assert_eq!(decoded.fragments[0].content, b"foo".to_vec());
    assert_eq!(decoded.diagnostics.len(), 1);
    match &decoded.diagnostics[0] {
        Diagnostic::Base64DecodeFailure(name) => assert_eq!(name, "bad"),
        _ => panic!("expected a base64 failure"),
    }
}

#[test]
fn parse_splits_parts_before_decoding() {
    let msg = MakeMime::make_mime_with_boundary(
        &vec![fragment("a/x", "jinja2", b"hello"), fragment("a/y", "jinja2", b"")],
        BOUNDARY,
    );
    let parsed = ParsedMessage::parse(&msg).ok().unwrap();
    assert!(parsed.conformant);
    assert_eq!(parsed.parts.len(), 2);
    let p0 = parsed.parts[0].as_ref().unwrap();
    assert_eq!(p0.filename, "a/x");
    assert_eq!(p0.text, "aGVsbG8=");
    let p1 = parsed.parts[1].as_ref().unwrap();
    assert_eq!(p1.text, "");
    let restored = parsed.restore(&vec![Some(b"H".to_vec()), None]);
    assert_eq!(restored.fragments.len(), 1);
    assert_eq!(restored.fragments[0].content, b"H".to_vec());
    assert!(matches!(&restored.diagnostics[0], Diagnostic::Base64DecodeFailure(n) if n == "a/y"));
}

#[test]
fn preamble_and_missing_terminator() {
    let msg = "Content-Type: multipart/mixed; boundary=\"q\"\r\n\
MIME-Version: 1.0\r\n\
some preamble\r\n\
--q\r\n\
Content-Disposition: attachment; filename=\"p\"\r\n\
\r\n\
YW\r\n\
Jj\r\n";
    let decoded = ReadMime::read_mime(msg).ok().unwrap();
    assert_eq!(decoded.fragments.len(), 1);
    assert_eq!(decoded.fragments[0].content, b"abc".to_vec());
    assert_eq!(decoded.diagnostics.len(), 0);
}

#[test]
fn part_without_blank_line_is_unparseable() {
    let msg = "Content-Type: multipart/mixed; boundary=\"q\"\r\n\
MIME-Version: 1.0\r\n\
--q\r\n\
Content-Disposition: attachment; filename=\"p\"\r\n\
--q--\r\n";
    let decoded = ReadMime::read_mime(msg).ok().unwrap();
    assert_eq!(decoded.fragments.len(), 0);
    assert!(matches!(decoded.diagnostics[0], Diagnostic::PartHeaderUnparseable(0)));
}

#[test]
fn part_spec_splits_at_first_underscore() {
    let (name, kind) = MakeMime::parse_part_spec("install-azcli.yml_jinja2").unwrap();
    assert_eq!(name, "install-azcli.yml");
    assert_eq!(kind, "jinja2");
    let (name, kind) = MakeMime::parse_part_spec("a_b_c").unwrap();
    assert_eq!(name, "a");
    assert_eq!(kind, "b_c");
    assert!(MakeMime::parse_part_spec("no-kind.yml").is_none());
}

#[test]
fn declared_filename_keeps_directory_name() {
    assert_eq!(MakeMime::declared_filename(".config/cloud_init", "install.yml"), "cloud_init/install.yml");
    assert_eq!(MakeMime::declared_filename("/abs/path/a/", "install.yml"), "a/install.yml");
    assert_eq!(MakeMime::declared_filename("cloud_init", "x.yml"), "cloud_init/x.yml");
    assert_eq!(MakeMime::declared_filename("", "x.yml"), "x.yml");
}

#[test]
fn base64_wrapper_encodes() {
    let part = MakeMime::format_mime_part("t", "n", b"\x00\xff");
    assert!(part.contains("\r\nAP8=\r\n"));
}
