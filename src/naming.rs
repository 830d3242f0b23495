//! Short names for an artifact inside a package's directory.

use vstd::prelude::*;

use crate::text::has_prefix;

verus! {

/// `s` with every `-` replaced by `_`.
pub open spec fn underscored(s: Seq<char>) -> Seq<char> {
    s.map_values(|c: char| if c == '-' {
        '_'
    } else {
        c
    })
}

/// The text after the last `.` of `s`, or all of `s` when it has none.
pub open spec fn extension(s: Seq<char>) -> Seq<char>
    decreases s.len(),
{
    if s.len() == 0 {
        s
    } else if s.last() == '.' {
        Seq::empty()
    } else {
        extension(s.drop_last()).push(s.last())
    }
}

/// The file name without its `<name>_<version>_` lead (dashes counted as
/// underscores); a file name that does not follow that convention is
/// reduced to its extension.
pub open spec fn reduced_filename(name: Seq<char>, version: Seq<char>, filename: Seq<char>) -> Seq<
    char,
> {
    let lead = underscored(name + seq!['_'] + version);
    if has_prefix(underscored(filename), lead) && lead.len() < filename.len() {
        filename.skip(lead.len() as int + 1)
    } else {
        extension(filename)
    }
}

fn underscore(s: &str) -> (r: String)
    ensures
        r@ == underscored(s@),
{
    let n = s.unicode_len();
    let mut out = String::new();
    let mut i: usize = 0;
    while i < n
        invariant
            n == s@.len(),
            i <= n,
            out@ == underscored(s@.take(i as int)),
        decreases n - i,
    {
        let c = s.get_char(i);
        proof {
            reveal_strlit("_");
            assert(s@.take(i + 1) == s@.take(i as int).push(c));
        }
        if c == '-' {
            out.append("_");
        } else {
            out.append(s.substring_char(i, i + 1));
        }
        assert(out@ =~= underscored(s@.take(i + 1)));
        i = i + 1;
    }
    assert(s@.take(n as int) == s@);
    out
}

fn extension_of(s: &str) -> (r: String)
    ensures
        r@ == extension(s@),
{
    let n = s.unicode_len();
    let mut i: usize = n;
    while i > 0
        invariant
            n == s@.len(),
            i <= n,
            forall|j: int| i <= j < n ==> s@[j] != '.',
        ensures
            i <= n,
            forall|j: int| i <= j < n ==> s@[j] != '.',
            i > 0 ==> s@[i - 1] == '.',
        decreases i,
    {
        if s.get_char(i - 1) == '.' {
            break;
        }
        i = i - 1;
    }
    let r = s.substring_char(i, n).to_string();
    proof {
        lemma_extension(s@, i as int);
    }
    r
}

proof fn lemma_extension(s: Seq<char>, i: int)
    requires
        0 <= i <= s.len(),
        i > 0 ==> s[i - 1] == '.',
        forall|j: int| i <= j < s.len() ==> s[j] != '.',
    ensures
        extension(s) == s.subrange(i, s.len() as int),
    decreases s.len(),
{
    if s.len() > i {
        let t = s.drop_last();
        assert forall|j: int| i <= j < t.len() implies t[j] != '.' by {
            assert(t[j] == s[j]);
        }
        if i > 0 {
            assert(t[i - 1] == s[i - 1]);
        }
        lemma_extension(t, i);
        assert(s.subrange(i, s.len() as int) == t.subrange(i, t.len() as int).push(s.last()));
    } else if s.len() > 0 {
        assert(s.last() == s[i - 1]);
    }
}

/// Splits an artifact into the parts of its place in a package directory:
/// the name, the version, and the file name reduced as `reduced_filename`
/// says.
pub fn package_name_to_path(name: &String, version: &str, package_filename: &str) -> (r: (
    String,
    String,
    String,
))
    ensures
        r.0@ == name@,
        r.1@ == version@,
        r.2@ == reduced_filename(name@, version@, package_filename@),
{
    proof {
        reveal_strlit("_");
    }
    let mut lead = name.clone();
    lead.append("_");
    lead.append(version);
    assert(lead@ == name@ + seq!['_'] + version@);
    let lead = underscore(lead.as_str());
    let under = underscore(package_filename);
    let n = package_filename.unicode_len();
    let m = lead.unicode_len();
    let reduced = if crate::filter::starts_with(under.as_str(), lead.as_str()) && m < n {
        package_filename.substring_char(m + 1, n).to_string()
    } else {
        extension_of(package_filename)
    };
    assert(reduced@ == reduced_filename(name@, version@, package_filename@));
    (name.clone(), version.to_string(), reduced)
}

} // verus!
