//! Character and string groundwork: ASCII case folding, trimming,
//! separator-based splitting and joining, and a decimal codec.
//!
//! All contracts are stated over `Seq<char>` views; the splitting and
//! joining functions come with inverse lemmas that the persistence
//! round-trip proof rests on.
use vstd::prelude::*;

verus! {

use vstd::string::StrSliceExecFns;
use vstd::string::StringExecFns;

/// Lowercase image of an ASCII letter; any other character is unchanged.
pub open spec fn lower_char(c: char) -> char {
    if 'A' <= c && c <= 'Z' {
        ((c as u32) + 32) as char
    } else {
        c
    }
}

/// Characterwise ASCII lowercasing.
pub open spec fn lower_seq(s: Seq<char>) -> Seq<char> {
    Seq::new(s.len(), |i: int| lower_char(s[i]))
}

/// The whitespace characters recognised between configuration tokens.
pub open spec fn is_space_char(c: char) -> bool {
    c == ' ' || c == '\t' || c == '\r' || c == '\n'
}

/// ASCII-lowercase one character.
pub fn lower_char_exec(c: char) -> (r: char)
    ensures
        r == lower_char(c),
{
    if 'A' <= c && c <= 'Z' {
        let b: u8 = (c as u8) + 32;
        b as char
    } else {
        c
    }
}

pub fn is_space_exec(c: char) -> (r: bool)
    ensures
        r == is_space_char(c),
{
    c == ' ' || c == '\t' || c == '\r' || c == '\n'
}

/// Relies on `String::push` of std: appends exactly one character.
#[verifier::external_body]
pub(crate) fn push_char(s: &mut String, c: char)
    ensures
        final(s)@ == old(s)@.push(c),
{
    s.push(c)
}

/// ASCII-lowercase a whole string.
pub fn lower_str(s: &str) -> (r: String)
    ensures
        r@ == lower_seq(s@),
{
    let n: usize = s.unicode_len();
    let mut r = String::new();
    let mut i: usize = 0;
    while i < n
        invariant
            i <= n,
            n == s@.len(),
            r@ == lower_seq(s@.take(i as int)),
        decreases n - i,
    {
        let c = lower_char_exec(s.get_char(i));
        push_char(&mut r, c);
        proof {
            assert(lower_seq(s@.take(i + 1)) =~= lower_seq(s@.take(i as int)).push(lower_char(
                s@[i as int],
            )));
        }
        i = i + 1;
    }
    proof {
        assert(s@.take(n as int) =~= s@);
    }
    r
}

/// Character-for-character string equality.
pub fn str_eq(a: &str, b: &str) -> (r: bool)
    ensures
        r == (a@ == b@),
{
    let na: usize = a.unicode_len();
    let nb: usize = b.unicode_len();
    if na != nb {
        return false;
    }
    let mut i: usize = 0;
    while i < na
        invariant
            i <= na,
            na == a@.len(),
            na == b@.len(),
            forall|k: int| 0 <= k < i ==> a@[k] == b@[k],
        decreases na - i,
    {
        if a.get_char(i) != b.get_char(i) {
            return false;
        }
        i = i + 1;
    }
    proof {
        assert(a@ =~= b@);
    }
    true
}

pub open spec fn trim_end_spec(s: Seq<char>) -> Seq<char>
    decreases s.len(),
{
    if s.len() > 0 && is_space_char(s.last()) {
        trim_end_spec(s.drop_last())
    } else {
        s
    }
}

pub open spec fn trim_start_spec(s: Seq<char>) -> Seq<char>
    decreases s.len(),
{
    if s.len() > 0 && is_space_char(s[0]) {
        trim_start_spec(s.drop_first())
    } else {
        s
    }
}

/// A string with surrounding whitespace removed.
pub open spec fn trim_spec(s: Seq<char>) -> Seq<char> {
    trim_start_spec(trim_end_spec(s))
}

/// Remove trailing whitespace only.
pub fn trim_end(s: &str) -> (r: String)
    ensures
        r@ == trim_end_spec(s@),
{
    let n: usize = s.unicode_len();
    let mut end: usize = n;
    proof {
        assert(s@.take(n as int) =~= s@);
    }
    while end > 0 && is_space_exec(s.get_char(end - 1))
        invariant
            end <= n,
            n == s@.len(),
            trim_end_spec(s@) == trim_end_spec(s@.take(end as int)),
        decreases end,
    {
        proof {
            assert(s@.take(end as int).last() == s@[end - 1]);
            assert(s@.take(end as int).drop_last() =~= s@.take(end - 1));
        }
        end = end - 1;
    }
    proof {
        if end > 0 {
            assert(s@.take(end as int).last() == s@[end - 1]);
        }
        assert(trim_end_spec(s@.take(end as int)) == s@.take(end as int));
        assert(s@.take(end as int) =~= s@.subrange(0, end as int));
    }
    let sub = s.substring_char(0, end);
    String::from_str(sub)
}

/// Remove leading and trailing whitespace.
pub fn trim(s: &str) -> (r: String)
    ensures
        r@ == trim_spec(s@),
{
    let n: usize = s.unicode_len();
    let mut end: usize = n;
    proof {
        assert(s@.take(n as int) =~= s@);
    }
    while end > 0 && is_space_exec(s.get_char(end - 1))
        invariant
            end <= n,
            n == s@.len(),
            trim_end_spec(s@) == trim_end_spec(s@.take(end as int)),
        decreases end,
    {
        proof {
            assert(s@.take(end as int).last() == s@[end - 1]);
            assert(s@.take(end as int).drop_last() =~= s@.take(end - 1));
        }
        end = end - 1;
    }
    proof {
        if end > 0 {
            assert(s@.take(end as int).last() == s@[end - 1]);
        }
        assert(trim_end_spec(s@.take(end as int)) == s@.take(end as int));
        assert(s@.take(end as int).skip(0) =~= s@.take(end as int));
    }
    let mut start: usize = 0;
    while start < end && is_space_exec(s.get_char(start))
        invariant
            start <= end <= n,
            n == s@.len(),
            trim_end_spec(s@) == s@.take(end as int),
            trim_start_spec(s@.take(end as int)) == trim_start_spec(
                s@.take(end as int).skip(start as int),
            ),
        decreases end - start,
    {
        proof {
            let t = s@.take(end as int).skip(start as int);
            assert(t[0] == s@[start as int]);
            assert(t.drop_first() =~= s@.take(end as int).skip(start + 1));
        }
        start = start + 1;
    }
    proof {
        let t = s@.take(end as int).skip(start as int);
        if start < end {
            assert(t[0] == s@[start as int]);
        }
        assert(trim_start_spec(t) == t);
        assert(t =~= s@.subrange(start as int, end as int));
    }
    let sub = s.substring_char(start, end);
    String::from_str(sub)
}

// ---------------------------------------------------------------------------
// Splitting at a separator character, and joining with one.
// ---------------------------------------------------------------------------
pub open spec fn split_char_rec(s: Seq<char>, sep: char, cur: Seq<char>) -> Seq<Seq<char>>
    decreases s.len(),
{
    if s.len() == 0 {
        seq![cur]
    } else if s[0] == sep {
        seq![cur] + split_char_rec(s.drop_first(), sep, Seq::empty())
    } else {
        split_char_rec(s.drop_first(), sep, cur.push(s[0]))
    }
}

/// The fields of `s` between occurrences of `sep`; an empty string has
/// one empty field, as with `str::split`.
pub open spec fn split_char_spec(s: Seq<char>, sep: char) -> Seq<Seq<char>> {
    split_char_rec(s, sep, Seq::empty())
}

/// The parts joined with a single `sep` between neighbours.
pub open spec fn join_char_spec(parts: Seq<Seq<char>>, sep: char) -> Seq<char>
    decreases parts.len(),
{
    if parts.len() == 0 {
        Seq::empty()
    } else if parts.len() == 1 {
        parts[0]
    } else {
        parts[0].push(sep) + join_char_spec(parts.drop_first(), sep)
    }
}

/// Split a string at every occurrence of `sep`.
pub fn split_char(s: &str, sep: char) -> (r: Vec<String>)
    ensures
        r@.map_values(|t: String| t@) == split_char_spec(s@, sep),
        r@.len() >= 1,
{
    let n: usize = s.unicode_len();
    let mut r: Vec<String> = Vec::new();
    let mut cur = String::new();
    let mut i: usize = 0;
    proof {
        assert(s@.skip(0) =~= s@);
        assert(cur@ =~= Seq::<char>::empty());
        assert(r@.map_values(|t: String| t@) + split_char_rec(s@, sep, Seq::empty())
            =~= split_char_rec(s@, sep, Seq::empty()));
    }
    while i < n
        invariant
            i <= n,
            n == s@.len(),
            split_char_spec(s@, sep) == r@.map_values(|t: String| t@) + split_char_rec(
                s@.skip(i as int),
                sep,
                cur@,
            ),
        decreases n - i,
    {
        let c = s.get_char(i);
        proof {
            let rest = s@.skip(i as int);
            assert(rest[0] == s@[i as int]);
            assert(rest.drop_first() =~= s@.skip(i + 1));
        }
        if c == sep {
            let ghost prev = r@.map_values(|t: String| t@);
            r.push(cur);
            cur = String::new();
            proof {
                assert(r@.map_values(|t: String| t@) =~= prev.push(r@.last()@));
                assert(prev + (seq![r@.last()@] + split_char_rec(s@.skip(i + 1), sep, Seq::empty()))
                    =~= r@.map_values(|t: String| t@) + split_char_rec(
                    s@.skip(i + 1),
                    sep,
                    Seq::empty(),
                ));
            }
        } else {
            push_char(&mut cur, c);
        }
        i = i + 1;
    }
    proof {
        assert(s@.skip(n as int) =~= Seq::<char>::empty());
    }
    let ghost prev = r@.map_values(|t: String| t@);
    r.push(cur);
    proof {
        assert(r@.map_values(|t: String| t@) =~= prev.push(r@.last()@));
        assert(prev + seq![r@.last()@] =~= prev.push(r@.last()@));
    }
    r
}

/// Join strings with a single `sep` between neighbours.
pub fn join_char(parts: &Vec<String>, sep: char) -> (r: String)
    ensures
        r@ == join_char_spec(parts@.map_values(|t: String| t@), sep),
{
    let mut r = String::new();
    let mut i: usize = 0;
    while i < parts.len()
        invariant
            i <= parts@.len(),
            r@ == join_char_spec(parts@.map_values(|t: String| t@).take(i as int), sep),
        decreases parts@.len() - i,
    {
        let ghost views = parts@.map_values(|t: String| t@);
        if i > 0 {
            push_char(&mut r, sep);
        }
        let mut piece = parts[i].clone();
        r.append(piece.as_str());
        proof {
            assert(views.take(i + 1) =~= views.take(i as int).push(views[i as int]));
            lemma_join_char_push(views.take(i as int), views[i as int], sep);
        }
        i = i + 1;
    }
    proof {
        let views = parts@.map_values(|t: String| t@);
        assert(views.take(views.len() as int) =~= views);
    }
    r
}

/// Appending one more part extends the join by a separator and the part.
pub proof fn lemma_join_char_push(parts: Seq<Seq<char>>, x: Seq<char>, sep: char)
    ensures
        join_char_spec(parts.push(x), sep) == if parts.len() == 0 {
            x
        } else {
            (join_char_spec(parts, sep).push(sep) + x)
        },
    decreases parts.len(),
{
    if parts.len() == 0 {
        assert(parts.push(x).len() == 1);
        assert(join_char_spec(parts.push(x), sep) == parts.push(x)[0]);
    } else if parts.len() == 1 {
        let p = parts.push(x);
        assert(p.len() == 2);
        assert(p.drop_first() =~= seq![x]);
        assert(join_char_spec(seq![x], sep) == x);
        assert(p[0] == parts[0]);
        assert(join_char_spec(p, sep) == p[0].push(sep) + join_char_spec(p.drop_first(), sep));
        assert(join_char_spec(parts, sep) == parts[0]);
    } else {
        assert(parts.push(x).drop_first() =~= parts.drop_first().push(x));
        lemma_join_char_push(parts.drop_first(), x, sep);
        assert(join_char_spec(parts.push(x), sep) == parts[0].push(sep) + (join_char_spec(
            parts.drop_first(),
            sep,
        ).push(sep) + x));
        assert(parts[0].push(sep) + (join_char_spec(parts.drop_first(), sep).push(sep) + x) =~= (
        parts[0].push(sep) + join_char_spec(parts.drop_first(), sep)).push(sep) + x);
    }
}

/// Scanning a separator-free stretch only grows the current field.
proof fn lemma_split_char_rec_no_sep(x: Seq<char>, rest: Seq<char>, sep: char, cur: Seq<char>)
    requires
        forall|k: int| 0 <= k < x.len() ==> x[k] != sep,
    ensures
        split_char_rec(x + rest, sep, cur) == split_char_rec(rest, sep, cur + x),
    decreases x.len(),
{
    if x.len() == 0 {
        assert(x + rest =~= rest);
        assert(cur + x =~= cur);
    } else {
        assert((x + rest)[0] == x[0]);
        assert((x + rest).drop_first() =~= x.drop_first() + rest);
        lemma_split_char_rec_no_sep(x.drop_first(), rest, sep, cur.push(x[0]));
        assert(cur.push(x[0]) + x.drop_first() =~= cur + x);
    }
}

/// Splitting undoes joining when no part contains the separator.
pub proof fn lemma_split_join_char(parts: Seq<Seq<char>>, sep: char)
    requires
        parts.len() >= 1,
        forall|i: int, k: int|
            0 <= i < parts.len() && 0 <= k < parts[i].len() ==> #[trigger] parts[i][k] != sep,
    ensures
        split_char_spec(join_char_spec(parts, sep), sep) == parts,
    decreases parts.len(),
{
    if parts.len() == 1 {
        lemma_split_char_rec_no_sep(parts[0], Seq::empty(), sep, Seq::empty());
        assert(parts[0] + Seq::<char>::empty() =~= parts[0]);
        assert(Seq::<char>::empty() + parts[0] =~= parts[0]);
        assert(split_char_spec(join_char_spec(parts, sep), sep) =~= parts);
    } else {
        let tail = parts.drop_first();
        let j = join_char_spec(parts, sep);
        assert(j == parts[0].push(sep) + join_char_spec(tail, sep));
        assert(j =~= parts[0] + (seq![sep] + join_char_spec(tail, sep)));
        lemma_split_char_rec_no_sep(parts[0], seq![sep] + join_char_spec(tail, sep), sep,
            Seq::empty());
        assert(Seq::<char>::empty() + parts[0] =~= parts[0]);
        let r = seq![sep] + join_char_spec(tail, sep);
        assert(r[0] == sep);
        assert(r.drop_first() =~= join_char_spec(tail, sep));
        lemma_split_join_char(tail, sep);
        assert(seq![parts[0]] + split_char_spec(join_char_spec(tail, sep), sep) =~= parts);
    }
}

// ---------------------------------------------------------------------------
// Whitespace-separated tokens.
// ---------------------------------------------------------------------------
pub open spec fn split_ws_rec(s: Seq<char>, cur: Seq<char>) -> Seq<Seq<char>>
    decreases s.len(),
{
    if s.len() == 0 {
        if cur.len() == 0 {
            Seq::empty()
        } else {
            seq![cur]
        }
    } else if is_space_char(s[0]) {
        (if cur.len() == 0 {
            Seq::empty()
        } else {
            seq![cur]
        }) + split_ws_rec(s.drop_first(), Seq::empty())
    } else {
        split_ws_rec(s.drop_first(), cur.push(s[0]))
    }
}

/// The whitespace-separated tokens of `s`; runs of whitespace yield no
/// empty tokens, as with `str::split_whitespace`.
pub open spec fn split_ws_spec(s: Seq<char>) -> Seq<Seq<char>> {
    split_ws_rec(s, Seq::empty())
}

/// Split a string at whitespace into its tokens.
pub fn split_ws(s: &str) -> (r: Vec<String>)
    ensures
        r@.map_values(|t: String| t@) == split_ws_spec(s@),
{
    let n: usize = s.unicode_len();
    let mut r: Vec<String> = Vec::new();
    let mut cur = String::new();
    let mut i: usize = 0;
    proof {
        assert(s@.skip(0) =~= s@);
        assert(cur@ =~= Seq::<char>::empty());
        assert(r@.map_values(|t: String| t@) + split_ws_rec(s@, Seq::empty()) =~= split_ws_rec(
            s@,
            Seq::empty(),
        ));
    }
    while i < n
        invariant
            i <= n,
            n == s@.len(),
            split_ws_spec(s@) == r@.map_values(|t: String| t@) + split_ws_rec(
                s@.skip(i as int),
                cur@,
            ),
        decreases n - i,
    {
        let c = s.get_char(i);
        proof {
            let rest = s@.skip(i as int);
            assert(rest[0] == s@[i as int]);
            assert(rest.drop_first() =~= s@.skip(i + 1));
        }
        if is_space_exec(c) {
            proof {
                assert(split_ws_rec(s@.skip(i as int), cur@) == (if cur@.len() == 0 {
                    Seq::<Seq<char>>::empty()
                } else {
                    seq![cur@]
                }) + split_ws_rec(s@.skip(i + 1), Seq::empty()));
            }
            if cur.unicode_len() > 0 {
                let ghost prev = r@.map_values(|t: String| t@);
                r.push(cur);
                cur = String::new();
                proof {
                    assert(cur@ =~= Seq::<char>::empty());
                    assert(r@.map_values(|t: String| t@) =~= prev.push(r@.last()@));
                    assert(prev + (seq![r@.last()@] + split_ws_rec(s@.skip(i + 1), Seq::empty()))
                        =~= r@.map_values(|t: String| t@) + split_ws_rec(
                        s@.skip(i + 1),
                        Seq::empty(),
                    ));
                }
            } else {
                proof {
                    assert(cur@ =~= Seq::<char>::empty());
                    assert(Seq::<Seq<char>>::empty() + split_ws_rec(s@.skip(i + 1), Seq::empty())
                        =~= split_ws_rec(s@.skip(i + 1), Seq::empty()));
                }
            }
        } else {
            let ghost before = cur@;
            push_char(&mut cur, c);
            proof {
                assert(split_ws_rec(s@.skip(i as int), before) == split_ws_rec(
                    s@.skip(i + 1),
                    cur@,
                ));
            }
        }
        i = i + 1;
    }
    proof {
        assert(s@.skip(n as int) =~= Seq::<char>::empty());
    }
    if cur.unicode_len() > 0 {
        let ghost prev = r@.map_values(|t: String| t@);
        r.push(cur);
        proof {
            assert(r@.map_values(|t: String| t@) =~= prev.push(r@.last()@));
            assert(prev + seq![r@.last()@] =~= prev.push(r@.last()@));
        }
    } else {
        proof {
            assert(r@.map_values(|t: String| t@) + Seq::<Seq<char>>::empty() =~= r@.map_values(
                |t: String| t@,
            ));
        }
    }
    r
}

/// A string without whitespace trims to itself.
pub proof fn lemma_trim_no_space(s: Seq<char>)
    requires
        forall|k: int| 0 <= k < s.len() ==> !is_space_char(#[trigger] s[k]),
    ensures
        trim_spec(s) == s,
        trim_end_spec(s) == s,
{
    if s.len() > 0 {
        assert(!is_space_char(s.last()));
        assert(!is_space_char(s[0]));
    }
}

/// Every character of a join is the separator or a character of one
/// of the parts.
pub proof fn lemma_join_char_chars(parts: Seq<Seq<char>>, sep: char)
    ensures
        forall|k: int|
            0 <= k < join_char_spec(parts, sep).len() ==> join_char_spec(parts, sep)[k] == sep
                || exists|i: int|
                0 <= i < parts.len() && (#[trigger] parts[i]).contains(
                    join_char_spec(parts, sep)[k],
                ),
    decreases parts.len(),
{
    let j = join_char_spec(parts, sep);
    if parts.len() == 0 {
    } else if parts.len() == 1 {
        assert forall|k: int| 0 <= k < j.len() implies j[k] == sep || exists|i: int|
            0 <= i < parts.len() && (#[trigger] parts[i]).contains(j[k]) by {
            assert(parts[0][k] == j[k]);
            assert(parts[0].contains(j[k]));
        }
    } else {
        let tail = parts.drop_first();
        let jt = join_char_spec(tail, sep);
        lemma_join_char_chars(tail, sep);
        assert forall|k: int| 0 <= k < j.len() implies j[k] == sep || exists|i: int|
            0 <= i < parts.len() && (#[trigger] parts[i]).contains(j[k]) by {
            if k < parts[0].len() {
                assert(j[k] == parts[0][k]);
                assert(parts[0].contains(j[k]));
            } else if k == parts[0].len() {
                assert(j[k] == sep);
            } else {
                let k2 = k - parts[0].len() - 1;
                assert(j[k] == jt[k2]);
                if jt[k2] != sep {
                    let i = choose|i: int| 0 <= i < tail.len() && (#[trigger] tail[i]).contains(
                        jt[k2],
                    );
                    assert(parts[i + 1] == tail[i]);
                    assert(parts[i + 1].contains(j[k]));
                }
            }
        }
    }
}

/// A join ends with the last character of its last part.
pub proof fn lemma_join_char_last(parts: Seq<Seq<char>>, sep: char)
    requires
        parts.len() >= 1,
        parts.last().len() > 0,
    ensures
        join_char_spec(parts, sep).len() > 0,
        join_char_spec(parts, sep).last() == parts.last().last(),
    decreases parts.len(),
{
    if parts.len() == 1 {
    } else {
        let tail = parts.drop_first();
        assert(tail.last() == parts.last());
        lemma_join_char_last(tail, sep);
    }
}

/// Scanning a whitespace-free stretch only grows the current token.
proof fn lemma_split_ws_rec_no_space(x: Seq<char>, rest: Seq<char>, cur: Seq<char>)
    requires
        forall|k: int| 0 <= k < x.len() ==> !is_space_char(#[trigger] x[k]),
    ensures
        split_ws_rec(x + rest, cur) == split_ws_rec(rest, cur + x),
    decreases x.len(),
{
    if x.len() == 0 {
        assert(x + rest =~= rest);
        assert(cur + x =~= cur);
    } else {
        assert((x + rest)[0] == x[0]);
        assert((x + rest).drop_first() =~= x.drop_first() + rest);
        lemma_split_ws_rec_no_space(x.drop_first(), rest, cur.push(x[0]));
        assert(cur.push(x[0]) + x.drop_first() =~= cur + x);
    }
}

/// Whitespace splitting undoes space-joining for nonempty,
/// whitespace-free tokens.
pub proof fn lemma_split_join_ws(tokens: Seq<Seq<char>>)
    requires
        forall|i: int| 0 <= i < tokens.len() ==> (#[trigger] tokens[i]).len() > 0,
        forall|i: int, k: int|
            0 <= i < tokens.len() && 0 <= k < tokens[i].len() ==> !is_space_char(
                #[trigger] tokens[i][k],
            ),
    ensures
        split_ws_spec(join_char_spec(tokens, ' ')) == tokens,
    decreases tokens.len(),
{
    if tokens.len() == 0 {
        assert(split_ws_spec(join_char_spec(tokens, ' ')) =~= tokens);
    } else if tokens.len() == 1 {
        lemma_split_ws_rec_no_space(tokens[0], Seq::empty(), Seq::empty());
        assert(tokens[0] + Seq::<char>::empty() =~= tokens[0]);
        assert(Seq::<char>::empty() + tokens[0] =~= tokens[0]);
        assert(split_ws_spec(join_char_spec(tokens, ' ')) =~= tokens);
    } else {
        let tail = tokens.drop_first();
        let j = join_char_spec(tokens, ' ');
        assert(j == tokens[0].push(' ') + join_char_spec(tail, ' '));
        assert(j =~= tokens[0] + (seq![' '] + join_char_spec(tail, ' ')));
        lemma_split_ws_rec_no_space(tokens[0], seq![' '] + join_char_spec(tail, ' '), Seq::empty());
        assert(Seq::<char>::empty() + tokens[0] =~= tokens[0]);
        let r = seq![' '] + join_char_spec(tail, ' ');
        assert(is_space_char(r[0]));
        assert(r.drop_first() =~= join_char_spec(tail, ' '));
        lemma_split_join_ws(tail);
        assert(seq![tokens[0]] + split_ws_spec(join_char_spec(tail, ' ')) =~= tokens);
    }
}

// ---------------------------------------------------------------------------
// Decimal numbers.
// ---------------------------------------------------------------------------
pub open spec fn dec_digit_char(d: nat) -> char {
    (('0' as u32) + d) as char
}

pub open spec fn is_dec_digit(c: char) -> bool {
    '0' <= c && c <= '9'
}

pub open spec fn digit_val(c: char) -> nat {
    ((c as u32) - ('0' as u32)) as nat
}

pub open spec fn all_dec_digits(s: Seq<char>) -> bool {
    forall|k: int| 0 <= k < s.len() ==> is_dec_digit(#[trigger] s[k])
}

/// The usual decimal rendering of `n`, most significant digit first.
pub open spec fn dec_seq(n: nat) -> Seq<char>
    decreases n,
{
    if n < 10 {
        seq![dec_digit_char(n)]
    } else {
        dec_seq(n / 10).push(dec_digit_char(n % 10))
    }
}

/// The value of a digit string read in base ten.
pub open spec fn dec_val(s: Seq<char>) -> nat
    decreases s.len(),
{
    if s.len() == 0 {
        0
    } else {
        dec_val(s.drop_last()) * 10 + digit_val(s.last())
    }
}

/// Render a number in decimal.
pub fn u32_to_dec(n: u32) -> (r: String)
    ensures
        r@ == dec_seq(n as nat),
    decreases n,
{
    if n < 10 {
        let mut r = String::new();
        push_char(&mut r, ((n as u8) + 48) as char);
        proof {
            assert(Seq::<char>::empty().push(dec_digit_char(n as nat)) =~= seq![
                dec_digit_char(n as nat),
            ]);
        }
        r
    } else {
        let mut r = u32_to_dec(n / 10);
        push_char(&mut r, (((n % 10) as u8) + 48) as char);
        r
    }
}

/// Parse an unsigned decimal number; fails on anything but a nonempty
/// all-digit string whose value fits.
pub fn parse_u32_str(s: &str) -> (r: Option<u32>)
    ensures
        match r {
            Some(v) => s@.len() > 0 && all_dec_digits(s@) && dec_val(s@) == v as nat,
            None => s@.len() == 0 || !all_dec_digits(s@) || dec_val(s@) > u32::MAX as nat,
        },
{
    let n: usize = s.unicode_len();
    if n == 0 {
        return None;
    }
    let mut acc: u64 = 0;
    let mut i: usize = 0;
    while i < n
        invariant
            i <= n,
            n == s@.len(),
            acc <= u32::MAX as u64,
            acc as nat == dec_val(s@.take(i as int)),
            all_dec_digits(s@.take(i as int)),
        decreases n - i,
    {
        let c = s.get_char(i);
        if !('0' <= c && c <= '9') {
            proof {
                assert(!is_dec_digit(s@[i as int]));
            }
            return None;
        }
        let d: u64 = ((c as u32) - 48) as u64;
        acc = acc * 10 + d;
        proof {
            assert(s@.take(i + 1).drop_last() =~= s@.take(i as int));
            assert(s@.take(i + 1).last() == s@[i as int]);
        }
        i = i + 1;
        if acc > u32::MAX as u64 {
            proof {
                if all_dec_digits(s@) {
                    lemma_dec_val_take_le(s@, i as int);
                }
            }
            return None;
        }
    }
    proof {
        assert(s@.take(n as int) =~= s@);
    }
    Some(acc as u32)
}

/// A digit prefix never exceeds the whole digit string in value.
proof fn lemma_dec_val_take_le(s: Seq<char>, i: int)
    requires
        0 <= i <= s.len(),
        all_dec_digits(s),
    ensures
        dec_val(s.take(i)) <= dec_val(s),
    decreases s.len() - i,
{
    if i == s.len() {
        assert(s.take(i) =~= s);
    } else {
        assert(s.take(i + 1).drop_last() =~= s.take(i));
        assert(dec_val(s.take(i + 1)) == dec_val(s.take(i)) * 10 + digit_val(s.take(i + 1).last()));
        lemma_dec_val_take_le(s, i + 1);
    }
}

/// Reading a decimal rendering back gives the number: digits only, and
/// the exact value.
pub proof fn lemma_dec_round_trip(n: nat)
    ensures
        dec_seq(n).len() >= 1,
        all_dec_digits(dec_seq(n)),
        dec_val(dec_seq(n)) == n,
    decreases n,
{
    if n < 10 {
        assert(dec_seq(n) == seq![dec_digit_char(n)]);
        assert(seq![dec_digit_char(n)].drop_last() =~= Seq::<char>::empty());
        assert(dec_val(dec_seq(n)) == dec_val(Seq::<char>::empty()) * 10 + digit_val(
            dec_digit_char(n),
        ));
        assert(digit_val(dec_digit_char(n)) == n);
    } else {
        lemma_dec_round_trip(n / 10);
        assert(dec_seq(n).drop_last() =~= dec_seq(n / 10));
        assert(dec_val(dec_seq(n)) == dec_val(dec_seq(n / 10)) * 10 + digit_val(
            dec_digit_char(n % 10),
        ));
        assert(digit_val(dec_digit_char(n % 10)) == n % 10);
        assert((n / 10) * 10 + n % 10 == n) by (nonlinear_arith);
    }
}

/// Digits are never separators or whitespace.
pub proof fn lemma_digits_are_plain(s: Seq<char>)
    requires
        all_dec_digits(s),
    ensures
        forall|k: int| 0 <= k < s.len() ==> s[k] != ',',
        forall|k: int| 0 <= k < s.len() ==> !is_space_char(#[trigger] s[k]),
        forall|k: int| 0 <= k < s.len() ==> s[k] != '\n',
{
    assert forall|k: int| 0 <= k < s.len() implies s[k] != ',' && !is_space_char(s[k]) && s[k]
        != '\n' by {
        assert(is_dec_digit(s[k]));
    }
}

// ---------------------------------------------------------------------------
// Booleans.
// ---------------------------------------------------------------------------
/// The rendering of a boolean, as `bool::to_string` gives it.
pub open spec fn bool_seq(b: bool) -> Seq<char> {
    if b {
        "true"@
    } else {
        "false"@
    }
}

pub fn bool_to_str(b: bool) -> (r: String)
    ensures
        r@ == bool_seq(b),
{
    if b {
        String::from_str("true")
    } else {
        String::from_str("false")
    }
}

/// Parse `"true"` or `"false"`; anything else fails.
pub fn parse_bool_str(s: &str) -> (r: Option<bool>)
    ensures
        r == (if s@ == bool_seq(true) {
            Some(true)
        } else if s@ == bool_seq(false) {
            Some(false)
        } else {
            Option::<bool>::None
        }),
{
    if str_eq(s, "true") {
        Some(true)
    } else if str_eq(s, "false") {
        Some(false)
    } else {
        None
    }
}

/// The two boolean renderings are distinct digit-free plain words.
pub proof fn lemma_bool_seq_facts()
    ensures
        bool_seq(true) != bool_seq(false),
        forall|b: bool, k: int|
            0 <= k < bool_seq(b).len() ==> #[trigger] bool_seq(b)[k] != ',' && !is_space_char(
                bool_seq(b)[k],
            ),
{
    reveal_strlit("true");
    reveal_strlit("false");
    assert(bool_seq(true).len() == 4);
    assert(bool_seq(false).len() == 5);
    assert forall|b: bool, k: int| 0 <= k < bool_seq(b).len() implies #[trigger] bool_seq(b)[k]
        != ',' && !is_space_char(bool_seq(b)[k]) by {
        if b {
            assert(bool_seq(b)[0] == 't' && bool_seq(b)[1] == 'r' && bool_seq(b)[2] == 'u'
                && bool_seq(b)[3] == 'e');
        } else {
            assert(bool_seq(b)[0] == 'f' && bool_seq(b)[1] == 'a' && bool_seq(b)[2] == 'l'
                && bool_seq(b)[3] == 's' && bool_seq(b)[4] == 'e');
        }
    }
}

} // verus!
