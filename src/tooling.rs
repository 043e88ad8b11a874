use vstd::prelude::*;
use vstd::string::StringExecFns;
use crate::read_mime::starts_with;
use crate::text::{chars_of, copy_range, string_of};

verus! {

/// `s` ends with `p`.
pub open spec fn ends_with(s: Seq<char>, p: Seq<char>) -> bool {
    s.len() >= p.len() && s.subrange(s.len() - p.len(), s.len() as int) == p
}

/// The name every lab file carries.
pub open spec fn lab_suffix() -> Seq<char> {
    "/.runmd"@
}

/// The paths among `s` that name a lab file, in order.
pub open spec fn lab_paths(s: Seq<Seq<char>>) -> Seq<Seq<char>>
    decreases s.len(),
{
    if s.len() == 0 {
        Seq::empty()
    } else if ends_with(s.last(), lab_suffix()) {
        lab_paths(s.drop_last()).push(s.last())
    } else {
        lab_paths(s.drop_last())
    }
}

/// The views of a vector of strings.
pub open spec fn strings_view(v: Seq<String>) -> Seq<Seq<char>> {
    v.map_values(|s: String| s@)
}

/// Whether `s` ends with `p`.
fn ends_with_exec(s: &Vec<char>, p: &Vec<char>) -> (r: bool)
    ensures
        r == ends_with(s@, p@),
{
    if s.len() < p.len() {
        return false;
    }
    let off = s.len() - p.len();
    let mut i: usize = 0;
    while i < p.len()
        invariant
            i <= p.len(),
            off + p.len() == s.len(),
            forall|j: int| 0 <= j < i ==> s@[off + j] == p@[j],
        decreases p.len() - i,
    {
        if s[off + i] != p[i] {
            assert(s@.subrange(off as int, s.len() as int)[i as int] != p@[i as int]);
            return false;
        }
        i += 1;
    }
    assert(s@.subrange(off as int, s.len() as int) =~= p@);
    true
}

/// The embedded design files.
pub struct Design;

impl Design {
    /// The lab files among the embedded design files: those whose path ends in `/.runmd`.
    pub fn labs(files: &Vec<String>) -> (r: Vec<String>)
        ensures
            strings_view(r@) == lab_paths(strings_view(files@)),
    {
        let suffix = chars_of("/.runmd");
        let mut out: Vec<String> = Vec::new();
        let mut i: usize = 0;
        while i < files.len()
            invariant
                i <= files.len(),
                suffix@ == lab_suffix(),
                strings_view(out@) == lab_paths(strings_view(files@).take(i as int)),
            decreases files.len() - i,
        {
            let ghost before = out@;
            let f = chars_of(files[i].as_str());
            let ghost prefix = strings_view(files@).take(i as int + 1);
            assert(prefix.drop_last() =~= strings_view(files@).take(i as int));
            assert(prefix.last() == files@[i as int]@);
            if ends_with_exec(&f, &suffix) {
                out.push(files[i].clone());
                assert(strings_view(out@) =~= strings_view(before).push(files@[i as int]@));
            }
            i += 1;
        }
        assert(strings_view(files@).take(files.len() as int) =~= strings_view(files@));
        out
    }
}

/// The source path of an install config:
/// `{src_dir}/{tool_name}/{src_type}-{block_name}.{ext}`.
pub open spec fn install_path(
    src_dir: Seq<char>,
    tool_name: Seq<char>,
    src_type: Seq<char>,
    block_name: Seq<char>,
    ext: Seq<char>,
) -> Seq<char> {
    src_dir + seq!['/'] + tool_name + seq!['/'] + src_type + seq!['-'] + block_name + seq!['.']
        + ext
}

/// `s` with every leading repetition of `p` removed.
pub open spec fn trim_start_all(s: Seq<char>, p: Seq<char>) -> Seq<char>
    decreases s.len(),
{
    if p.len() > 0 && starts_with(s, p) {
        trim_start_all(s.subrange(p.len() as int, s.len() as int), p)
    } else {
        s
    }
}

/// The directory of bundled shell scripts.
pub open spec fn shell_lib_dir() -> Seq<char> {
    "lib/sh"@
}

/// The directory of bundled shell scripts, with its separator.
pub open spec fn shell_lib_prefix() -> Seq<char> {
    "lib/sh/"@
}

/// Installs a config file.
pub struct Install;

impl Install {
    /// The path an install config is loaded from; `src_type` defaults to `install`.
    pub fn file_src(
        src_dir: &str,
        tool_name: &str,
        src_type: Option<&str>,
        block_name: &str,
        ext: &str,
    ) -> (r: String)
        ensures
            r@ == install_path(
                src_dir@,
                tool_name@,
                match src_type {
                    Some(t) => t@,
                    None => "install"@,
                },
                block_name@,
                ext@,
            ),
    {
        let mut r = String::from_str(src_dir);
        r.push('/');
        r.append(tool_name);
        r.push('/');
        match src_type {
            Some(t) => r.append(t),
            None => r.append("install"),
        }
        r.push('-');
        r.append(block_name);
        r.push('.');
        r.append(ext);
        r
    }

    /// For a source under the bundled shell scripts, the script's name within them.
    pub fn lib_file_name(file_src: &str) -> (r: Option<String>)
        ensures
            r is Some <==> starts_with(file_src@, shell_lib_dir()),
            r is Some ==> r->0@ == trim_start_all(file_src@, shell_lib_prefix()),
    {
        let s = chars_of(file_src);
        let dir = chars_of("lib/sh");
        if !crate::read_mime::starts_with_exec(&s, &dir) {
            return None;
        }
        let p = chars_of("lib/sh/");
        proof {
            reveal_strlit("lib/sh/");
        }
        let mut rest = s;
        while crate::read_mime::starts_with_exec(&rest, &p)
            invariant
                p@ == shell_lib_prefix(),
                p@.len() == 7,
                trim_start_all(rest@, p@) == trim_start_all(file_src@, shell_lib_prefix()),
            decreases rest.len(),
        {
            rest = copy_range(&rest, p.len(), rest.len());
        }
        Some(string_of(&rest))
    }
}

/// The command line that compiles an elm file.
pub open spec fn elm_make_command(elm_src: Seq<char>, elm_dst: Seq<char>) -> Seq<char> {
    "elm make "@ + elm_src + " --output "@ + elm_dst + seq!['\n']
}

/// Compiles elm sources.
pub struct MakeElm;

impl MakeElm {
    /// `elm make {elm_src} --output {elm_dst}`, ended by a line feed.
    pub fn command(elm_src: &str, elm_dst: &str) -> (r: String)
        ensures
            r@ == elm_make_command(elm_src@, elm_dst@),
    {
        let mut r = String::from_str("elm make ");
        r.append(elm_src);
        r.append(" --output ");
        r.append(elm_dst);
        r.push('\n');
        r
    }
}

} // verus!
