//! Default destination paths: a `BackUp` folder under the user's home
//! directory, with the source's last path segment as the subfolder.
use vstd::prelude::*;

verus! {

use vstd::string::StrSliceExecFns;
use vstd::string::StringExecFns;
use crate::text::{push_char, str_eq};

/// Relies on dirs_next::home_dir: the user's home directory as the
/// platform reports it, if it has one; converted lossily to a string.
/// Nothing is promised of the value — it depends on the environment.
#[verifier::external_body]
fn home_dir_string() -> (r: Option<String>) {
    dirs_next::home_dir().map(|p| p.to_string_lossy().to_string())
}

/// The backup root a given home directory yields: `<home>/BackUp`,
/// or `./BackUp` without one.
pub open spec fn backup_root_spec(home: Option<Seq<char>>) -> Seq<char> {
    match home {
        Some(h) => h + "/BackUp"@,
        None => "./BackUp"@,
    }
}

/// The backup root under a home directory, when the platform reports
/// one.
pub fn backup_root_for(home: Option<String>) -> (r: String)
    ensures
        r@ == backup_root_spec(
            match home {
                Some(h) => Some(h@),
                None => None,
            },
        ),
{
    match home {
        Some(h) => {
            let ghost hv = h@;
            let mut s = h;
            s.append("/BackUp");
            proof {
                assert(s@ == hv + "/BackUp"@);
            }
            s
        },
        None => String::from_str("./BackUp"),
    }
}

/// The default backup root: the root for whatever home directory the
/// platform reports. `backup_root_for` pins the value per case.
pub fn default_backup_root() -> (r: String)
    ensures
        exists|home: Option<Seq<char>>| r@ == backup_root_spec(home),
{
    let home = home_dir_string();
    let r = backup_root_for(home);
    r
}

/// Strip trailing separators and trailing lone-dot segments of a
/// path, one character at a time: `a/b///`, `a/b/.` and `a/b/./`
/// all leave `a/b`.
pub open spec fn strip_leaf_noise(s: Seq<char>) -> Seq<char>
    decreases s.len(),
{
    if s.len() > 0 && s.last() == '/' {
        strip_leaf_noise(s.drop_last())
    } else if s.len() >= 2 && s.last() == '.' && s[s.len() - 2] == '/' {
        strip_leaf_noise(s.drop_last())
    } else {
        s
    }
}

/// The index after the last separator among the first `i` characters.
pub open spec fn after_last_sep(s: Seq<char>, i: int) -> int
    decreases i,
{
    if i <= 0 {
        0
    } else if s[i - 1] == '/' {
        i
    } else {
        after_last_sep(s, i - 1)
    }
}

/// The last path segment of a source path, or `backup` when it has
/// none to use (an empty path, a bare root, a path of dot segments,
/// or one ending in a parent segment).
pub open spec fn leaf_spec(s: Seq<char>) -> Seq<char> {
    let t = strip_leaf_noise(s);
    let l = t.skip(after_last_sep(t, t.len() as int));
    if l.len() == 0 || l == "."@ || l == ".."@ {
        "backup"@
    } else {
        l
    }
}

/// The last path segment of a source path.
pub fn source_leaf(s: &str) -> (r: String)
    ensures
        r@ == leaf_spec(s@),
{
    let n: usize = s.unicode_len();
    let mut end: usize = n;
    proof {
        assert(s@.take(n as int) =~= s@);
    }
    while end > 0 && (s.get_char(end - 1) == '/' || (end >= 2 && s.get_char(end - 1) == '.'
        && s.get_char(end - 2) == '/'))
        invariant
            end <= n,
            n == s@.len(),
            strip_leaf_noise(s@) == strip_leaf_noise(s@.take(end as int)),
        decreases end,
    {
        proof {
            assert(s@.take(end as int).last() == s@[end - 1]);
            if end >= 2 {
                assert(s@.take(end as int)[end - 2] == s@[end - 2]);
            }
            assert(s@.take(end as int).drop_last() =~= s@.take(end - 1));
        }
        end = end - 1;
    }
    proof {
        if end > 0 {
            assert(s@.take(end as int).last() == s@[end - 1]);
        }
        if end >= 2 {
            assert(s@.take(end as int)[end - 2] == s@[end - 2]);
        }
        assert(strip_leaf_noise(s@.take(end as int)) == s@.take(end as int));
    }
    let ghost t = s@.take(end as int);
    let mut start: usize = end;
    while start > 0 && s.get_char(start - 1) != '/'
        invariant
            start <= end,
            end <= n,
            n == s@.len(),
            t == s@.take(end as int),
            after_last_sep(t, end as int) == after_last_sep(t, start as int),
            forall|k: int| start <= k < end ==> t[k] == s@[k],
        decreases start,
    {
        proof {
            assert(t[start - 1] == s@[start - 1]);
        }
        start = start - 1;
    }
    proof {
        if start > 0 {
            assert(t[start - 1] == s@[start - 1]);
        }
        assert(after_last_sep(t, start as int) == start);
        assert(t.skip(start as int) =~= s@.subrange(start as int, end as int));
    }
    let l = s.substring_char(start, end);
    if l.unicode_len() == 0 || str_eq(l, ".") || str_eq(l, "..") {
        String::from_str("backup")
    } else {
        String::from_str(l)
    }
}

/// The destination a source gets under a given root: the root, a
/// separator, and the source's last path segment.
pub fn dest_for_source_under(root: &str, source: &str) -> (r: String)
    ensures
        r@ == root@ + seq!['/'] + leaf_spec(source@),
{
    let mut s = String::from_str(root);
    push_char(&mut s, '/');
    let leaf = source_leaf(source);
    s.append(leaf.as_str());
    proof {
        assert(s@ =~= root@ + seq!['/'] + leaf_spec(source@));
    }
    s
}

/// The default destination for a source: its last path segment under
/// the default backup root. `backup_root_for` and
/// `dest_for_source_under` pin the value for a given home directory.
pub fn default_dest_for_source(source: &str) -> (r: String)
    ensures
        exists|home: Option<Seq<char>>|
            r@ == backup_root_spec(home) + seq!['/'] + leaf_spec(source@),
{
    let root = default_backup_root();
    let r = dest_for_source_under(root.as_str(), source);
    proof {
        let home = choose|home: Option<Seq<char>>| root@ == backup_root_spec(home);
        assert(r@ =~= backup_root_spec(home) + seq!['/'] + leaf_spec(source@));
    }
    r
}

} // verus!
