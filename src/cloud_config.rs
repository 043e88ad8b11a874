use vstd::prelude::*;
use vstd::string::StringExecFns;
use crate::tooling::strings_view;

verus! {

/// The modules of a cloud-init cloud config that this tool models.
pub struct CloudConfig {
    pub package_update: Option<bool>,
    pub package_upgrade: Option<bool>,
    pub packages: Option<Vec<String>>,
    pub runcmd: Option<Vec<String>>,
}

/// `true` or `false`.
pub open spec fn bool_text(b: bool) -> Seq<char> {
    if b {
        "true"@
    } else {
        "false"@
    }
}

/// One ` - item` line per item.
pub open spec fn list_text(items: Seq<Seq<char>>) -> Seq<char>
    decreases items.len(),
{
    if items.len() == 0 {
        Seq::empty()
    } else {
        list_text(items.drop_last()) + " - "@ + items.last() + seq!['\n']
    }
}

/// A `key: value` line where the value is present.
pub open spec fn flag_text(key: Seq<char>, v: Option<bool>) -> Seq<char> {
    match v {
        Some(b) => key + ": "@ + bool_text(b) + seq!['\n'],
        None => Seq::empty(),
    }
}

/// A `key:` line followed by its items where the list is present.
pub open spec fn section_text(key: Seq<char>, v: Option<Seq<Seq<char>>>) -> Seq<char> {
    match v {
        Some(items) => key + seq![':', '\n'] + list_text(items),
        None => Seq::empty(),
    }
}

/// The strings of an optional list.
pub open spec fn opt_list_view(v: Option<Vec<String>>) -> Option<Seq<Seq<char>>> {
    match v {
        Some(items) => Some(strings_view(items@)),
        None => None,
    }
}

/// The YAML text of a cloud config: each present module in turn.
pub open spec fn cloud_config_text(c: CloudConfig) -> Seq<char> {
    flag_text("package_update"@, c.package_update) + flag_text("package_upgrade"@, c.package_upgrade)
        + section_text("packages"@, opt_list_view(c.packages)) + section_text(
        "runcmd"@,
        opt_list_view(c.runcmd),
    )
}

/// Appends the line of a flag that is set.
fn append_flag(out: &mut String, key: &str, v: Option<bool>)
    ensures
        final(out)@ == old(out)@ + flag_text(key@, v),
{
    match v {
        Some(b) => {
            out.append(key);
            out.append(": ");
            if b {
                out.append("true");
            } else {
                out.append("false");
            }
            out.push('\n');
        },
        None => {
            assert(old(out)@ + Seq::<char>::empty() =~= old(out)@);
        },
    }
}

/// Appends a list section that is present.
fn append_section(out: &mut String, key: &str, v: &Option<Vec<String>>)
    ensures
        final(out)@ == old(out)@ + section_text(key@, opt_list_view(*v)),
{
    match v {
        Some(items) => {
            out.append(key);
            out.push(':');
            out.push('\n');
            let ghost head = out@;
            let mut i: usize = 0;
            while i < items.len()
                invariant
                    i <= items.len(),
                    out@ == head + list_text(strings_view(items@).take(i as int)),
                decreases items.len() - i,
            {
                out.append(" - ");
                out.append(items[i].as_str());
                out.push('\n');
                proof {
                    let t = strings_view(items@).take(i as int + 1);
                    assert(t.drop_last() =~= strings_view(items@).take(i as int));
                    assert(t.last() == items@[i as int]@);
                }
                i += 1;
            }
            assert(strings_view(items@).take(items.len() as int) =~= strings_view(items@));
        },
        None => {
            assert(old(out)@ + Seq::<char>::empty() =~= old(out)@);
        },
    }
}

impl CloudConfig {
    /// The config as cloud-init YAML: `package_update` and `package_upgrade` where set, then
    /// the `packages` and `runcmd` lists where present, one ` - item` line per entry.
    pub fn to_string(&self) -> (r: String)
        ensures
            r@ == cloud_config_text(*self),
    {
        let mut out = String::new();
        append_flag(&mut out, "package_update", self.package_update);
        append_flag(&mut out, "package_upgrade", self.package_upgrade);
        append_section(&mut out, "packages", &self.packages);
        append_section(&mut out, "runcmd", &self.runcmd);
        assert(out@ =~= cloud_config_text(*self));
        out
    }
}

} // verus!
