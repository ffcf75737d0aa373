//! Skip rules: normalized extension and folder tokens, and the filter
//! evaluator that decides which files and folders a copy excludes.
//!
//! Tokens are validated and normalized once, on input: lowercased, with
//! the `*.`- and `.`-prefixes of an extension token removed. Matching is
//! whole-token and case-insensitive; a file without an extension is
//! never skipped by extension rules.
use vstd::prelude::*;

verus! {

use vstd::string::StrSliceExecFns;
use crate::text::{
    lower_char,
    lower_seq,
    lower_str,
    is_space_char,
    is_space_exec,
    trim_spec,
    trim,
    str_eq,
    split_ws_spec,
    split_ws,
};

/// Characters that a stored token may hold: no whitespace (tokens are
/// space-joined on disk) and no comma (fields are comma-separated).
pub open spec fn token_chars_ok(t: Seq<char>) -> bool {
    forall|k: int| 0 <= k < t.len() ==> !is_space_char(#[trigger] t[k]) && t[k] != ','
}

/// A stored folder token: nonempty, plain characters, lowercase.
pub open spec fn wf_folder_token(t: Seq<char>) -> bool {
    t.len() > 0 && token_chars_ok(t) && lower_seq(t) == t
}

/// A stored extension token: additionally free of the `*.` and `.`
/// prefixes that input and the persisted form may carry.
pub open spec fn wf_ext_token(t: Seq<char>) -> bool {
    wf_folder_token(t) && t[0] != '.' && !(t.len() >= 2 && t[0] == '*' && t[1] == '.')
}

/// A token list with no duplicates.
pub open spec fn distinct_seqs(ts: Seq<Seq<char>>) -> bool {
    forall|i: int, j: int| 0 <= i < j < ts.len() ==> ts[i] != ts[j]
}

pub open spec fn views_of(ts: Seq<String>) -> Seq<Seq<char>> {
    ts.map_values(|t: String| t@)
}

pub open spec fn wf_ext_tokens(ts: Seq<Seq<char>>) -> bool {
    distinct_seqs(ts) && forall|i: int| 0 <= i < ts.len() ==> wf_ext_token(#[trigger] ts[i])
}

pub open spec fn wf_folder_tokens(ts: Seq<Seq<char>>) -> bool {
    distinct_seqs(ts) && forall|i: int| 0 <= i < ts.len() ==> wf_folder_token(#[trigger] ts[i])
}

// ---------------------------------------------------------------------------
// Normalization of extension tokens.
// ---------------------------------------------------------------------------
/// Remove every leading `*.` pair.
pub open spec fn strip_star_dot(t: Seq<char>) -> Seq<char>
    decreases t.len(),
{
    if t.len() >= 2 && t[0] == '*' && t[1] == '.' {
        strip_star_dot(t.skip(2))
    } else {
        t
    }
}

/// Remove every remaining leading dot.
pub open spec fn strip_dots(t: Seq<char>) -> Seq<char>
    decreases t.len(),
{
    if t.len() >= 1 && t[0] == '.' {
        strip_dots(t.drop_first())
    } else {
        t
    }
}

/// The stored form of a raw extension token: prefixes removed, then
/// lowercased.
pub open spec fn normalize_ext_spec(t: Seq<char>) -> Seq<char> {
    lower_seq(strip_dots(strip_star_dot(t)))
}

/// Normalize one raw extension token.
pub fn normalize_ext_token(s: &str) -> (r: String)
    ensures
        r@ == normalize_ext_spec(s@),
{
    let n: usize = s.unicode_len();
    let mut i: usize = 0;
    proof {
        assert(s@.skip(0) =~= s@);
    }
    while n - i > 1 && s.get_char(i) == '*' && s.get_char(i + 1) == '.'
        invariant
            i <= n,
            n == s@.len(),
            strip_star_dot(s@) == strip_star_dot(s@.skip(i as int)),
        decreases n - i,
    {
        proof {
            let rest = s@.skip(i as int);
            assert(rest[0] == s@[i as int] && rest[1] == s@[i + 1]);
            assert(rest.skip(2) =~= s@.skip(i + 2));
        }
        i = i + 2;
    }
    proof {
        let rest = s@.skip(i as int);
        if i < n {
            assert(rest[0] == s@[i as int]);
        }
        if i + 1 < n {
            assert(rest[1] == s@[i + 1]);
        }
        assert(strip_star_dot(rest) == rest);
    }
    while i < n && s.get_char(i) == '.'
        invariant
            i <= n,
            n == s@.len(),
            strip_dots(strip_star_dot(s@)) == strip_dots(s@.skip(i as int)),
        decreases n - i,
    {
        proof {
            let rest = s@.skip(i as int);
            assert(rest[0] == s@[i as int]);
            assert(rest.drop_first() =~= s@.skip(i + 1));
        }
        i = i + 1;
    }
    proof {
        let rest = s@.skip(i as int);
        if i < n {
            assert(rest[0] == s@[i as int]);
        }
        assert(strip_dots(rest) == rest);
        assert(s@.skip(i as int) =~= s@.subrange(i as int, n as int));
    }
    let tail = s.substring_char(i, n);
    lower_str(tail)
}

/// `"*.log *.tmp"` becomes `["log", "tmp"]`: tokens are split at
/// whitespace, their `*.` and `.` prefixes removed, and lowercased.
pub fn parse_skip_tokens(label: &str) -> (r: Vec<String>)
    ensures
        views_of(r@) == split_ws_spec(label@).map_values(|t: Seq<char>| normalize_ext_spec(t)),
{
    let raw = split_ws(label);
    let mut r: Vec<String> = Vec::new();
    let mut i: usize = 0;
    while i < raw.len()
        invariant
            i <= raw@.len(),
            views_of(raw@) == split_ws_spec(label@),
            views_of(r@) == split_ws_spec(label@).map_values(
                |t: Seq<char>| normalize_ext_spec(t),
            ).take(i as int),
        decreases raw@.len() - i,
    {
        let t = normalize_ext_token(raw[i].as_str());
        let ghost prev = views_of(r@);
        r.push(t);
        proof {
            let m = split_ws_spec(label@).map_values(|t: Seq<char>| normalize_ext_spec(t));
            assert(views_of(r@) =~= prev.push(r@.last()@));
            assert(r@.last()@ == m[i as int]);
            assert(views_of(r@) =~= m.take(i + 1));
        }
        i = i + 1;
    }
    proof {
        let m = split_ws_spec(label@).map_values(|t: Seq<char>| normalize_ext_spec(t));
        assert(m.take(m.len() as int) =~= m);
    }
    r
}

// ---------------------------------------------------------------------------
// Token list membership and insertion.
// ---------------------------------------------------------------------------
/// Whether the list holds this exact token.
pub fn contains_token(list: &Vec<String>, t: &str) -> (r: bool)
    ensures
        r == views_of(list@).contains(t@),
{
    let mut i: usize = 0;
    while i < list.len()
        invariant
            i <= list@.len(),
            forall|k: int| 0 <= k < i ==> views_of(list@)[k] != t@,
        decreases list@.len() - i,
    {
        if str_eq(list[i].as_str(), t) {
            proof {
                assert(views_of(list@)[i as int] == t@);
            }
            return true;
        }
        i = i + 1;
    }
    proof {
        assert(forall|k: int| 0 <= k < views_of(list@).len() ==> views_of(list@)[k] != t@);
    }
    false
}

/// What adding a token to a skip list did.
pub enum TokenAdd {
    /// The token was appended.
    Added,
    /// The same token (after normalization) was already present; the
    /// list is unchanged and a duplicate warning is owed.
    Duplicate,
    /// The input held nothing once trimmed and normalized.
    EmptyToken,
    /// The token holds whitespace or a comma, which the stored form
    /// cannot carry.
    InvalidToken,
}

/// A token list after one insertion attempt: unchanged on a duplicate.
pub open spec fn add_token_spec(ts: Seq<Seq<char>>, t: Seq<char>) -> Seq<Seq<char>> {
    if ts.contains(t) {
        ts
    } else {
        ts.push(t)
    }
}

/// The outcome that the insertion reports for a valid token.
pub open spec fn add_token_outcome(ts: Seq<Seq<char>>, t: Seq<char>) -> TokenAdd {
    if ts.contains(t) {
        TokenAdd::Duplicate
    } else {
        TokenAdd::Added
    }
}

/// Add one raw extension token to a skip list: trimmed, normalized,
/// refused when empty, invalid or already present.
pub fn add_extension_token(list: &mut Vec<String>, raw: &str) -> (r: TokenAdd)
    ensures
        ({
            let t = normalize_ext_spec(trim_spec(raw@));
            &&& t.len() == 0 ==> r is EmptyToken && old(list)@ == final(list)@
            &&& t.len() > 0 && !(token_chars_ok(t) && t[0] != '.' && !(t.len() >= 2 && t[0] == '*'
                && t[1] == '.')) ==> r is InvalidToken && old(list)@ == final(list)@
            &&& t.len() > 0 && token_chars_ok(t) && t[0] != '.' && !(t.len() >= 2 && t[0] == '*'
                && t[1] == '.') ==> {
                &&& r == add_token_outcome(views_of(old(list)@), t)
                &&& views_of(final(list)@) == add_token_spec(views_of(old(list)@), t)
                &&& wf_ext_token(t)
                &&& wf_ext_tokens(views_of(old(list)@)) ==> wf_ext_tokens(views_of(final(list)@))
            }
        }),
{
    let trimmed = trim(raw);
    let t = normalize_ext_token(trimmed.as_str());
    let n: usize = t.as_str().unicode_len();
    if n == 0 {
        return TokenAdd::EmptyToken;
    }
    proof {
        lemma_lower_seq_idempotent(strip_dots(strip_star_dot(trim_spec(raw@))));
    }
    if !token_ok_exec(t.as_str()) {
        return TokenAdd::InvalidToken;
    }
    if t.as_str().get_char(0) == '.' {
        return TokenAdd::InvalidToken;
    }
    if n >= 2 && t.as_str().get_char(0) == '*' && t.as_str().get_char(1) == '.' {
        return TokenAdd::InvalidToken;
    }
    if contains_token(list, t.as_str()) {
        return TokenAdd::Duplicate;
    }
    let ghost prev = views_of(list@);
    list.push(t);
    proof {
        assert(views_of(list@) =~= prev.push(list@.last()@));
        let now = views_of(list@);
        if wf_ext_tokens(prev) {
            assert forall|i: int, j: int| 0 <= i < j < now.len() implies now[i] != now[j] by {
                if j == now.len() - 1 {
                    assert(!prev.contains(now[j]));
                }
            }
        }
    }
    TokenAdd::Added
}

/// Add one raw folder token to a skip list: trimmed and lowercased,
/// refused when empty, invalid or already present.
pub fn add_folder_token(list: &mut Vec<String>, raw: &str) -> (r: TokenAdd)
    ensures
        ({
            let t = lower_seq(trim_spec(raw@));
            &&& t.len() == 0 ==> r is EmptyToken && old(list)@ == final(list)@
            &&& t.len() > 0 && !token_chars_ok(t) ==> r is InvalidToken && old(list)@ == final(list)@
            &&& t.len() > 0 && token_chars_ok(t) ==> {
                &&& r == add_token_outcome(views_of(old(list)@), t)
                &&& views_of(final(list)@) == add_token_spec(views_of(old(list)@), t)
                &&& wf_folder_token(t)
                &&& wf_folder_tokens(views_of(old(list)@)) ==> wf_folder_tokens(
                    views_of(final(list)@),
                )
            }
        }),
{
    let trimmed = trim(raw);
    let t = lower_str(trimmed.as_str());
    let n: usize = t.as_str().unicode_len();
    if n == 0 {
        return TokenAdd::EmptyToken;
    }
    proof {
        lemma_lower_seq_idempotent(trim_spec(raw@));
    }
    if !token_ok_exec(t.as_str()) {
        return TokenAdd::InvalidToken;
    }
    if contains_token(list, t.as_str()) {
        return TokenAdd::Duplicate;
    }
    let ghost prev = views_of(list@);
    list.push(t);
    proof {
        assert(views_of(list@) =~= prev.push(list@.last()@));
        let now = views_of(list@);
        if wf_folder_tokens(prev) {
            assert forall|i: int, j: int| 0 <= i < j < now.len() implies now[i] != now[j] by {
                if j == now.len() - 1 {
                    assert(!prev.contains(now[j]));
                }
            }
        }
    }
    TokenAdd::Added
}

/// Whether every character may stand in a stored token.
pub fn token_ok_exec(t: &str) -> (r: bool)
    ensures
        r == token_chars_ok(t@),
{
    let n: usize = t.unicode_len();
    let mut i: usize = 0;
    while i < n
        invariant
            i <= n,
            n == t@.len(),
            forall|k: int| 0 <= k < i ==> !is_space_char(#[trigger] t@[k]) && t@[k] != ',',
        decreases n - i,
    {
        let c = t.get_char(i);
        if is_space_exec(c) || c == ',' {
            return false;
        }
        i = i + 1;
    }
    true
}

/// Lowercasing is idempotent.
pub proof fn lemma_lower_seq_idempotent(s: Seq<char>)
    ensures
        lower_seq(lower_seq(s)) == lower_seq(s),
{
    assert(lower_seq(lower_seq(s)) =~= lower_seq(s)) by {
        assert forall|i: int| 0 <= i < s.len() implies lower_char(lower_char(s[i])) == lower_char(
            s[i],
        ) by {}
    }
}

/// Prefix stripping commutes with lowercasing: case never makes or
/// unmakes a `*.` prefix.
proof fn lemma_strip_star_dot_lower(t: Seq<char>)
    ensures
        strip_star_dot(lower_seq(t)) == lower_seq(strip_star_dot(t)),
    decreases t.len(),
{
    let lt = lower_seq(t);
    assert(lt.len() == t.len());
    if t.len() >= 2 {
        assert(lt[0] == lower_char(t[0]) && lt[1] == lower_char(t[1]));
    }
    if t.len() >= 2 && t[0] == '*' && t[1] == '.' {
        assert(lt[0] == '*' && lt[1] == '.');
        assert(lt.skip(2) =~= lower_seq(t.skip(2)));
        lemma_strip_star_dot_lower(t.skip(2));
    } else {
        if t.len() >= 2 {
            assert(lower_char(t[0]) == '*' ==> t[0] == '*');
            assert(lower_char(t[1]) == '.' ==> t[1] == '.');
        }
        assert(strip_star_dot(lt) == lt);
    }
}

/// Dot stripping commutes with lowercasing.
proof fn lemma_strip_dots_lower(t: Seq<char>)
    ensures
        strip_dots(lower_seq(t)) == lower_seq(strip_dots(t)),
    decreases t.len(),
{
    let lt = lower_seq(t);
    if t.len() >= 1 {
        assert(lt[0] == lower_char(t[0]));
    }
    if t.len() >= 1 && t[0] == '.' {
        assert(lt[0] == '.');
        assert(lt.drop_first() =~= lower_seq(t.drop_first()));
        lemma_strip_dots_lower(t.drop_first());
    } else {
        if t.len() >= 1 {
            assert(lower_char(t[0]) == '.' ==> t[0] == '.');
        }
        assert(strip_dots(lt) == lt);
    }
}

/// Normalization ignores letter case: tokens equal up to case
/// normalize to the same stored token.
pub proof fn lemma_normalize_case_insensitive(a: Seq<char>, b: Seq<char>)
    requires
        lower_seq(a) == lower_seq(b),
    ensures
        normalize_ext_spec(a) == normalize_ext_spec(b),
{
    lemma_normalize_of_lower(a);
    lemma_normalize_of_lower(b);
}

/// Normalizing the lowercased token is normalizing the token.
proof fn lemma_normalize_of_lower(a: Seq<char>)
    ensures
        normalize_ext_spec(lower_seq(a)) == normalize_ext_spec(a),
{
    lemma_strip_star_dot_lower(a);
    assert(strip_dots(strip_star_dot(lower_seq(a))) == strip_dots(
        lower_seq(strip_star_dot(a)),
    ));
    lemma_strip_dots_lower(strip_star_dot(a));
    lemma_lower_seq_idempotent(strip_dots(strip_star_dot(a)));
}

/// Law (filter idempotence, extensions): adding the same extension
/// token twice, in any letter case, leaves the stored set as after the
/// first add, and the second add reports a duplicate.
pub proof fn lemma_ext_add_idempotent(ts: Seq<Seq<char>>, raw1: Seq<char>, raw2: Seq<char>)
    requires
        lower_seq(raw1) == lower_seq(raw2),
    ensures
        normalize_ext_spec(raw2) == normalize_ext_spec(raw1),
        add_token_spec(add_token_spec(ts, normalize_ext_spec(raw1)), normalize_ext_spec(raw2))
            == add_token_spec(ts, normalize_ext_spec(raw1)),
        add_token_outcome(add_token_spec(ts, normalize_ext_spec(raw1)), normalize_ext_spec(raw2))
            is Duplicate,
{
    lemma_normalize_case_insensitive(raw1, raw2);
    let t = normalize_ext_spec(raw1);
    let once = add_token_spec(ts, t);
    if ts.contains(t) {
        assert(once.contains(t));
    } else {
        assert(once[once.len() - 1] == t);
        assert(once.contains(t));
    }
}

/// Law (filter idempotence, folders): adding the same folder token
/// twice, in any letter case, leaves the stored set as after the first
/// add, and the second add reports a duplicate.
pub proof fn lemma_folder_add_idempotent(ts: Seq<Seq<char>>, raw1: Seq<char>, raw2: Seq<char>)
    requires
        lower_seq(raw1) == lower_seq(raw2),
    ensures
        add_token_spec(add_token_spec(ts, lower_seq(raw1)), lower_seq(raw2)) == add_token_spec(
            ts,
            lower_seq(raw1),
        ),
        add_token_outcome(add_token_spec(ts, lower_seq(raw1)), lower_seq(raw2)) is Duplicate,
{
    let t = lower_seq(raw1);
    let once = add_token_spec(ts, t);
    if ts.contains(t) {
        assert(once.contains(t));
    } else {
        assert(once[once.len() - 1] == t);
        assert(once.contains(t));
    }
}

// ---------------------------------------------------------------------------
// The filter evaluator.
// ---------------------------------------------------------------------------
/// The index after the last `.` of a file name that is not its first
/// character, or 0 when there is none: the start of the extension.
pub open spec fn ext_start(name: Seq<char>, i: int) -> int
    decreases i,
{
    if i <= 1 {
        0
    } else if name[i - 1] == '.' {
        i
    } else {
        ext_start(name, i - 1)
    }
}

/// The extension of a file name: what follows the last dot, where a
/// dot in first position (a hidden file) does not count.
pub open spec fn file_ext_spec(name: Seq<char>) -> Option<Seq<char>> {
    if ext_start(name, name.len() as int) == 0 {
        None
    } else {
        Some(name.skip(ext_start(name, name.len() as int)))
    }
}

/// Whether extension rules exclude this file name: a case-insensitive
/// whole-token match of a nonempty extension.
pub open spec fn file_skipped_spec(name: Seq<char>, exts: Seq<Seq<char>>) -> bool {
    match file_ext_spec(name) {
        Option::None => false,
        Option::Some(e) => e.len() > 0 && exts.contains(lower_seq(e)),
    }
}

/// Whether folder rules exclude this folder name (and so its subtree):
/// a case-insensitive whole-token match.
pub open spec fn folder_skipped_spec(name: Seq<char>, folders: Seq<Seq<char>>) -> bool {
    folders.contains(lower_seq(name))
}

/// Decide exclusion of a file by the extension skip rules.
pub fn file_is_skipped(name: &str, exts: &Vec<String>) -> (r: bool)
    ensures
        r == file_skipped_spec(name@, views_of(exts@)),
{
    let n: usize = name.unicode_len();
    let mut j: usize = n;
    while j > 1 && name.get_char(j - 1) != '.'
        invariant
            j <= n,
            n == name@.len(),
            ext_start(name@, n as int) == ext_start(name@, j as int),
        decreases j,
    {
        j = j - 1;
    }
    if j <= 1 {
        proof {
            assert(ext_start(name@, n as int) == 0);
        }
        false
    } else {
        proof {
            assert(ext_start(name@, n as int) == j);
            assert(name@.skip(j as int) =~= name@.subrange(j as int, n as int));
        }
        let e = name.substring_char(j, n);
        if e.unicode_len() == 0 {
            false
        } else {
            let low = lower_str(e);
            contains_token(exts, low.as_str())
        }
    }
}

/// Decide exclusion of a folder by the folder skip rules.
pub fn folder_is_skipped(name: &str, folders: &Vec<String>) -> (r: bool)
    ensures
        r == folder_skipped_spec(name@, views_of(folders@)),
{
    let low = lower_str(name);
    contains_token(folders, low.as_str())
}

} // verus!
