//! The persisted form of the job collection: a title line, a count
//! line, then one comma-separated record per job. Skip lists are
//! space-joined inside their field. Fields carry no escaping, so paths
//! and tokens holding commas or line breaks are rejected at the door
//! (see the job invariant). Malformed records — fewer than three
//! fields, an empty or repeated path — are skipped on load; missing
//! trailing fields take their defaults. Loaded jobs are idle, with the
//! load time as their last-run time, and saving then loading a
//! well-formed collection reproduces it exactly.
use vstd::prelude::*;

verus! {

use vstd::string::StrSliceExecFns;
use vstd::string::StringExecFns;
use crate::text::{
    trim,
    trim_spec,
    trim_end,
    trim_end_spec,
    lower_seq,
    lower_str,
    str_eq,
    is_space_char,
    split_char,
    split_char_spec,
    join_char,
    join_char_spec,
    split_ws,
    split_ws_spec,
    dec_seq,
    dec_val,
    all_dec_digits,
    u32_to_dec,
    parse_u32_str,
    bool_seq,
    bool_to_str,
    lemma_dec_round_trip,
    lemma_digits_are_plain,
    lemma_bool_seq_facts,
    lemma_split_join_char,
    lemma_split_join_ws,
    lemma_join_char_chars,
    lemma_join_char_last,
    lemma_trim_no_space,
};
use crate::filter::{
    views_of,
    wf_ext_token,
    wf_folder_token,
    wf_ext_tokens,
    wf_folder_tokens,
    token_chars_ok,
    token_ok_exec,
    normalize_ext_spec,
    normalize_ext_token,
    contains_token,
    lemma_lower_seq_idempotent,
};
use crate::job::{Job, JobV, wf_job, record_text_ok, record_text_ok_exec};
use crate::control::{jobs_model, wf_jobs, complete_job};

// ---------------------------------------------------------------------------
// Encoding.
// ---------------------------------------------------------------------------
/// The six fields of one record.
pub open spec fn record_fields(j: JobV) -> Seq<Seq<char>> {
    seq![
        j.source,
        j.dest,
        dec_seq(j.period as nat),
        join_char_spec(j.exts, ' '),
        join_char_spec(j.folders, ' '),
        bool_seq(j.archive),
    ]
}

/// One persisted record line.
pub open spec fn record_line_spec(j: JobV) -> Seq<char> {
    join_char_spec(record_fields(j), ',')
}

/// The whole persisted file, as lines: title, count, records.
pub open spec fn encode_lines_spec(jobs: Seq<JobV>) -> Seq<Seq<char>> {
    seq!["Count"@, dec_seq(jobs.len() as nat)] + jobs.map_values(|j: JobV| record_line_spec(j))
}

/// Encode one job as its record line.
pub fn encode_job(j: &Job) -> (r: String)
    ensures
        r@ == record_line_spec(j@),
{
    let mut fields: Vec<String> = Vec::new();
    fields.push(j.source_path.clone());
    fields.push(j.dest_path.clone());
    fields.push(u32_to_dec(j.period_hours));
    fields.push(join_char(&j.skip_extensions, ' '));
    fields.push(join_char(&j.skip_folders, ' '));
    fields.push(bool_to_str(j.archive_enabled));
    let r = join_char(&fields, ',');
    proof {
        assert(fields@.map_values(|t: String| t@) =~= record_fields(j@));
    }
    r
}

/// Encode the collection as the lines of the persisted file. The
/// running flags are not written: every job is persisted idle.
pub fn encode_collection(jobs: &Vec<Job>) -> (r: Vec<String>)
    requires
        jobs@.len() <= u32::MAX,
    ensures
        r@.map_values(|l: String| l@) == encode_lines_spec(jobs_model(jobs@)),
{
    let ghost target = encode_lines_spec(jobs_model(jobs@));
    let mut r: Vec<String> = Vec::new();
    r.push(String::from_str("Count"));
    r.push(u32_to_dec(jobs.len() as u32));
    proof {
        assert(r@.map_values(|l: String| l@) =~= target.take(2));
    }
    let mut i: usize = 0;
    while i < jobs.len()
        invariant
            i <= jobs@.len(),
            jobs@.len() <= u32::MAX,
            target == encode_lines_spec(jobs_model(jobs@)),
            r@.map_values(|l: String| l@) == target.take(2 + i),
        decreases jobs@.len() - i,
    {
        let ghost prev = r@.map_values(|l: String| l@);
        let line = encode_job(&jobs[i]);
        r.push(line);
        proof {
            assert(r@.map_values(|l: String| l@) =~= prev.push(r@.last()@));
            assert(target[2 + i] == record_line_spec(jobs_model(jobs@)[i as int]));
            assert(r@.map_values(|l: String| l@) =~= target.take(2 + i + 1));
        }
        i = i + 1;
    }
    proof {
        assert(target.take(target.len() as int) =~= target);
    }
    r
}

// ---------------------------------------------------------------------------
// Parsing.
// ---------------------------------------------------------------------------
/// The period field of a record: a positive number that fits, or the
/// default of 24.
pub open spec fn period_field_spec(f: Seq<char>) -> u32 {
    if f.len() > 0 && all_dec_digits(f) && 1 <= dec_val(f) <= u32::MAX as nat {
        dec_val(f) as u32
    } else {
        24
    }
}

/// The count line: a number that fits, or zero.
pub open spec fn count_field_spec(l: Seq<char>) -> u32 {
    let t = trim_spec(l);
    if t.len() > 0 && all_dec_digits(t) && dec_val(t) <= u32::MAX as nat {
        dec_val(t) as u32
    } else {
        0
    }
}

/// The stored extension tokens of one raw token list: normalized, with
/// ill-formed tokens and repeats dropped.
pub open spec fn collect_ext_spec(raw: Seq<Seq<char>>) -> Seq<Seq<char>>
    decreases raw.len(),
{
    if raw.len() == 0 {
        Seq::empty()
    } else {
        let acc = collect_ext_spec(raw.drop_last());
        let t = normalize_ext_spec(raw.last());
        if wf_ext_token(t) && !acc.contains(t) {
            acc.push(t)
        } else {
            acc
        }
    }
}

/// The stored folder tokens of one raw token list: lowercased, with
/// ill-formed tokens and repeats dropped.
pub open spec fn collect_folder_spec(raw: Seq<Seq<char>>) -> Seq<Seq<char>>
    decreases raw.len(),
{
    if raw.len() == 0 {
        Seq::empty()
    } else {
        let acc = collect_folder_spec(raw.drop_last());
        let t = lower_seq(raw.last());
        if wf_folder_token(t) && !acc.contains(t) {
            acc.push(t)
        } else {
            acc
        }
    }
}

/// One parsed record: `None` for a malformed one. Trailing whitespace
/// of the line is ignored; a record is malformed when it has fewer
/// than three fields, an empty or separator-tainted path, or equal
/// source and destination. Missing fields default to a period of 24,
/// empty skip lists and no archiving. The job is loaded idle with
/// `now` as its last-run time.
pub open spec fn parse_record_spec(line: Seq<char>, now: i64) -> Option<JobV> {
    let fields = split_char_spec(trim_end_spec(line), ',');
    if fields.len() < 3 {
        None
    } else if fields[0].len() == 0 || fields[1].len() == 0 || !record_text_ok(fields[0])
        || !record_text_ok(fields[1]) || fields[0] == fields[1] {
        None
    } else {
        Some(
            JobV {
                source: fields[0],
                dest: fields[1],
                period: period_field_spec(fields[2]),
                exts: if fields.len() >= 4 {
                    collect_ext_spec(split_ws_spec(fields[3]))
                } else {
                    Seq::empty()
                },
                folders: if fields.len() >= 5 {
                    collect_folder_spec(split_ws_spec(fields[4]))
                } else {
                    Seq::empty()
                },
                archive: fields.len() >= 6 && fields[5] == "true"@,
                last_run: now,
                running: false,
            },
        )
    }
}

/// The jobs of a list of record lines, malformed ones skipped.
pub open spec fn parse_records_spec(recs: Seq<Seq<char>>, now: i64) -> Seq<JobV>
    decreases recs.len(),
{
    if recs.len() == 0 {
        Seq::empty()
    } else {
        parse_records_spec(recs.drop_last(), now) + (match parse_record_spec(recs.last(), now) {
            Some(j) => seq![j],
            None => Seq::empty(),
        })
    }
}

/// The jobs of a whole persisted file: the title line is ignored, the
/// count line bounds how many records are read.
pub open spec fn parse_collection_spec(lines: Seq<Seq<char>>, now: i64) -> Seq<JobV> {
    if lines.len() < 2 {
        Seq::empty()
    } else {
        let cnt = count_field_spec(lines[1]) as int;
        let avail = lines.len() - 2;
        let m = if cnt <= avail {
            cnt
        } else {
            avail as int
        };
        parse_records_spec(lines.subrange(2, 2 + m), now)
    }
}

/// Parse the period field of a record.
pub fn parse_period_field(f: &str) -> (r: u32)
    ensures
        r == period_field_spec(f@),
        r >= 1,
{
    let p = parse_u32_str(f);
    match p {
        Some(v) => if v >= 1 {
            v
        } else {
            24
        },
        None => 24,
    }
}

/// Parse the count line.
pub fn parse_count_field(l: &str) -> (r: u32)
    ensures
        r == count_field_spec(l@),
{
    let t = trim(l);
    let p = parse_u32_str(t.as_str());
    match p {
        Some(v) => v,
        None => 0,
    }
}

/// Collect the stored extension tokens of a raw token list.
pub fn collect_ext_tokens(raw: &Vec<String>) -> (r: Vec<String>)
    ensures
        views_of(r@) == collect_ext_spec(views_of(raw@)),
        wf_ext_tokens(views_of(r@)),
{
    let ghost rv = views_of(raw@);
    let mut r: Vec<String> = Vec::new();
    let mut i: usize = 0;
    proof {
        assert(rv.take(0) =~= Seq::<Seq<char>>::empty());
        assert(views_of(r@) =~= Seq::<Seq<char>>::empty());
    }
    while i < raw.len()
        invariant
            i <= raw@.len(),
            rv == views_of(raw@),
            views_of(r@) == collect_ext_spec(rv.take(i as int)),
            wf_ext_tokens(views_of(r@)),
        decreases raw@.len() - i,
    {
        proof {
            assert(rv.take(i + 1).drop_last() =~= rv.take(i as int));
            assert(rv.take(i + 1).last() == raw@[i as int]@);
        }
        let t = normalize_ext_token(raw[i].as_str());
        proof {
            lemma_lower_seq_idempotent(
                crate::filter::strip_dots(crate::filter::strip_star_dot(raw@[i as int]@)),
            );
        }
        let n: usize = t.as_str().unicode_len();
        let mut keep = n > 0 && token_ok_exec(t.as_str());
        if keep && t.as_str().get_char(0) == '.' {
            keep = false;
        }
        if keep && n >= 2 && t.as_str().get_char(0) == '*' && t.as_str().get_char(1) == '.' {
            keep = false;
        }
        if keep && contains_token(&r, t.as_str()) {
            keep = false;
        }
        proof {
            assert(keep == (wf_ext_token(t@) && !views_of(r@).contains(t@)));
        }
        if keep {
            let ghost prev = views_of(r@);
            r.push(t);
            proof {
                assert(views_of(r@) =~= prev.push(r@.last()@));
                assert forall|a: int, b: int| 0 <= a < b < views_of(r@).len() implies views_of(
                    r@,
                )[a] != views_of(r@)[b] by {
                    if b == views_of(r@).len() - 1 {
                        assert(!prev.contains(views_of(r@)[b]));
                    }
                }
            }
        }
        i = i + 1;
    }
    proof {
        assert(rv.take(rv.len() as int) =~= rv);
    }
    r
}

/// Collect the stored folder tokens of a raw token list.
pub fn collect_folder_tokens(raw: &Vec<String>) -> (r: Vec<String>)
    ensures
        views_of(r@) == collect_folder_spec(views_of(raw@)),
        wf_folder_tokens(views_of(r@)),
{
    let ghost rv = views_of(raw@);
    let mut r: Vec<String> = Vec::new();
    let mut i: usize = 0;
    proof {
        assert(rv.take(0) =~= Seq::<Seq<char>>::empty());
        assert(views_of(r@) =~= Seq::<Seq<char>>::empty());
    }
    while i < raw.len()
        invariant
            i <= raw@.len(),
            rv == views_of(raw@),
            views_of(r@) == collect_folder_spec(rv.take(i as int)),
            wf_folder_tokens(views_of(r@)),
        decreases raw@.len() - i,
    {
        proof {
            assert(rv.take(i + 1).drop_last() =~= rv.take(i as int));
            assert(rv.take(i + 1).last() == raw@[i as int]@);
        }
        let t = lower_str(raw[i].as_str());
        proof {
            lemma_lower_seq_idempotent(raw@[i as int]@);
        }
        let n: usize = t.as_str().unicode_len();
        let mut keep = n > 0 && token_ok_exec(t.as_str());
        if keep && contains_token(&r, t.as_str()) {
            keep = false;
        }
        proof {
            assert(keep == (wf_folder_token(t@) && !views_of(r@).contains(t@)));
        }
        if keep {
            let ghost prev = views_of(r@);
            r.push(t);
            proof {
                assert(views_of(r@) =~= prev.push(r@.last()@));
                assert forall|a: int, b: int| 0 <= a < b < views_of(r@).len() implies views_of(
                    r@,
                )[a] != views_of(r@)[b] by {
                    if b == views_of(r@).len() - 1 {
                        assert(!prev.contains(views_of(r@)[b]));
                    }
                }
            }
        }
        i = i + 1;
    }
    proof {
        assert(rv.take(rv.len() as int) =~= rv);
    }
    r
}

/// Parse one record line; a malformed one yields `None`.
pub fn parse_record(line: &str, now: i64) -> (r: Option<Job>)
    ensures
        match r {
            Some(job) => parse_record_spec(line@, now) == Some(job@) && wf_job(job@)
                && !job@.running,
            None => parse_record_spec(line@, now) is None,
        },
{
    let l = trim_end(line);
    let fields = split_char(l.as_str(), ',');
    if fields.len() < 3 {
        return None;
    }
    let ghost fv = split_char_spec(trim_end_spec(line@), ',');
    proof {
        assert(views_of(fields@) == fv);
        assert(fields@[0]@ == fv[0] && fields@[1]@ == fv[1] && fields@[2]@ == fv[2]);
    }
    if fields[0].as_str().unicode_len() == 0 || fields[1].as_str().unicode_len() == 0 {
        return None;
    }
    if !record_text_ok_exec(fields[0].as_str()) || !record_text_ok_exec(fields[1].as_str()) {
        return None;
    }
    if str_eq(fields[0].as_str(), fields[1].as_str()) {
        return None;
    }
    let period = parse_period_field(fields[2].as_str());
    let exts: Vec<String> = if fields.len() >= 4 {
        let raw = split_ws(fields[3].as_str());
        collect_ext_tokens(&raw)
    } else {
        Vec::new()
    };
    let folders: Vec<String> = if fields.len() >= 5 {
        let raw = split_ws(fields[4].as_str());
        collect_folder_tokens(&raw)
    } else {
        Vec::new()
    };
    let archive = fields.len() >= 6 && str_eq(fields[5].as_str(), "true");
    let job = Job {
        source_path: fields[0].clone(),
        dest_path: fields[1].clone(),
        period_hours: period,
        skip_extensions: exts,
        skip_folders: folders,
        archive_enabled: archive,
        last_run_at: now,
        running: false,
    };
    proof {
        if fields@.len() >= 4 {
            assert(fields@[3]@ == fv[3]);
        }
        if fields@.len() >= 5 {
            assert(fields@[4]@ == fv[4]);
        }
        if fields@.len() >= 6 {
            assert(fields@[5]@ == fv[5]);
        }
        assert(views_of(Seq::<String>::empty()) =~= Seq::<Seq<char>>::empty());
        assert(parse_record_spec(line@, now) == Some(job@));
    }
    Some(job)
}

/// Parse the lines of a persisted file into the loaded collection:
/// every loaded job is well-formed and idle.
pub fn parse_collection(lines: &Vec<String>, now: i64) -> (jobs: Vec<Job>)
    ensures
        jobs_model(jobs@) == parse_collection_spec(lines@.map_values(|l: String| l@), now),
        wf_jobs(jobs_model(jobs@)),
        forall|i: int| 0 <= i < jobs@.len() ==> !(#[trigger] jobs_model(jobs@)[i]).running,
{
    let ghost lv = lines@.map_values(|l: String| l@);
    let mut jobs: Vec<Job> = Vec::new();
    if lines.len() < 2 {
        proof {
            assert(jobs_model(jobs@) =~= Seq::<JobV>::empty());
        }
        return jobs;
    }
    let cnt = parse_count_field(lines[1].as_str());
    let avail: usize = lines.len() - 2;
    let m: usize = if (cnt as usize) <= avail {
        cnt as usize
    } else {
        avail
    };
    proof {
        assert(lv.subrange(2, 2) =~= Seq::<Seq<char>>::empty());
        assert(jobs_model(jobs@) =~= Seq::<JobV>::empty());
    }
    let mut k: usize = 0;
    while k < m
        invariant
            k <= m,
            m <= lv.len() - 2,
            lv.len() <= usize::MAX,
            lv == lines@.map_values(|l: String| l@),
            lv.len() == lines@.len(),
            jobs_model(jobs@) == parse_records_spec(lv.subrange(2, 2 + k as int), now),
            wf_jobs(jobs_model(jobs@)),
            forall|i: int| 0 <= i < jobs@.len() ==> !(#[trigger] jobs_model(jobs@)[i]).running,
        decreases m - k,
    {
        proof {
            assert(lv.subrange(2, 2 + k + 1).drop_last() =~= lv.subrange(2, 2 + k as int));
            assert(lv.subrange(2, 2 + k + 1).last() == lines@[2 + k as int]@);
        }
        let rec = parse_record(lines[2 + k].as_str(), now);
        match rec {
            Some(job) => {
                let ghost prev = jobs_model(jobs@);
                jobs.push(job);
                proof {
                    assert(jobs_model(jobs@) =~= prev.push(jobs@.last()@));
                    assert(jobs_model(jobs@) =~= prev + seq![jobs@.last()@]);
                    assert forall|i: int| 0 <= i < jobs_model(jobs@).len() implies wf_job(
                        #[trigger] jobs_model(jobs@)[i],
                    ) && !jobs_model(jobs@)[i].running by {
                        if i < prev.len() {
                            assert(wf_job(prev[i]) && !prev[i].running);
                        }
                    }
                }
            },
            None => {
                proof {
                    assert(jobs_model(jobs@) + Seq::<JobV>::empty() =~= jobs_model(jobs@));
                }
            },
        }
        k = k + 1;
    }
    proof {
        let cspec = parse_collection_spec(lv, now);
        assert(lv[1] == lines@[1]@);
        if (count_field_spec(lv[1]) as int) <= lv.len() - 2 {
            assert(m == count_field_spec(lv[1]) as int);
        } else {
            assert(m == lv.len() - 2);
        }
    }
    jobs
}

// ---------------------------------------------------------------------------
// The round trip: saving then loading reproduces the collection.
// ---------------------------------------------------------------------------
/// A well-formed stored extension token is already normalized.
proof fn lemma_normalize_wf_ext_identity(t: Seq<char>)
    requires
        wf_ext_token(t),
    ensures
        normalize_ext_spec(t) == t,
{
    assert(crate::filter::strip_star_dot(t) == t);
    assert(crate::filter::strip_dots(t) == t);
}

/// Collecting an already well-formed extension token list changes
/// nothing.
proof fn lemma_collect_ext_identity(ts: Seq<Seq<char>>)
    requires
        wf_ext_tokens(ts),
    ensures
        collect_ext_spec(ts) == ts,
    decreases ts.len(),
{
    if ts.len() == 0 {
        assert(collect_ext_spec(ts) =~= ts);
    } else {
        let front = ts.drop_last();
        assert(wf_ext_tokens(front));
        lemma_collect_ext_identity(front);
        assert(wf_ext_token(ts.last()));
        lemma_normalize_wf_ext_identity(ts.last());
        if front.contains(ts.last()) {
            let k = choose|k: int| 0 <= k < front.len() && front[k] == ts.last();
            assert(ts[k] == ts[ts.len() - 1]);
            assert(false);
        }
        assert(collect_ext_spec(ts) == front.push(ts.last()));
        assert(front.push(ts.last()) =~= ts);
    }
}

/// Collecting an already well-formed folder token list changes
/// nothing.
proof fn lemma_collect_folder_identity(ts: Seq<Seq<char>>)
    requires
        wf_folder_tokens(ts),
    ensures
        collect_folder_spec(ts) == ts,
    decreases ts.len(),
{
    if ts.len() == 0 {
        assert(collect_folder_spec(ts) =~= ts);
    } else {
        let front = ts.drop_last();
        assert(wf_folder_tokens(front));
        lemma_collect_folder_identity(front);
        assert(wf_folder_token(ts.last()));
        if front.contains(ts.last()) {
            let k = choose|k: int| 0 <= k < front.len() && front[k] == ts.last();
            assert(ts[k] == ts[ts.len() - 1]);
            assert(false);
        }
        assert(collect_folder_spec(ts) == front.push(ts.last()));
        assert(front.push(ts.last()) =~= ts);
    }
}

/// No character of a well-formed record field is a comma.
proof fn lemma_record_fields_comma_free(j: JobV)
    requires
        wf_job(j),
    ensures
        forall|i: int, k: int|
            0 <= i < record_fields(j).len() && 0 <= k < record_fields(j)[i].len()
                ==> #[trigger] record_fields(j)[i][k] != ',',
{
    let fields = record_fields(j);
    lemma_dec_round_trip(j.period as nat);
    lemma_digits_are_plain(dec_seq(j.period as nat));
    lemma_bool_seq_facts();
    lemma_join_char_chars(j.exts, ' ');
    lemma_join_char_chars(j.folders, ' ');
    assert forall|i: int, k: int|
        0 <= i < fields.len() && 0 <= k < fields[i].len() implies #[trigger] fields[i][k]
        != ',' by {
        if i == 3 {
            let jn = join_char_spec(j.exts, ' ');
            if jn[k] != ' ' {
                let w = choose|w: int| 0 <= w < j.exts.len() && (#[trigger] j.exts[w]).contains(
                    jn[k],
                );
                assert(wf_ext_token(j.exts[w]));
                let c = choose|c: int| 0 <= c < j.exts[w].len() && j.exts[w][c] == jn[k];
                assert(token_chars_ok(j.exts[w]));
            }
        } else if i == 4 {
            let jn = join_char_spec(j.folders, ' ');
            if jn[k] != ' ' {
                let w = choose|w: int|
                    0 <= w < j.folders.len() && (#[trigger] j.folders[w]).contains(jn[k]);
                assert(wf_folder_token(j.folders[w]));
                let c = choose|c: int| 0 <= c < j.folders[w].len() && j.folders[w][c] == jn[k];
                assert(token_chars_ok(j.folders[w]));
            }
        }
    }
}

/// Law (round trip, one record): parsing the encoded record of a
/// well-formed job yields the job back, idle, with the load time as
/// its last-run time.
pub proof fn lemma_record_round_trip(j: JobV, now: i64)
    requires
        wf_job(j),
    ensures
        parse_record_spec(record_line_spec(j), now) == Some(complete_job(j, now)),
{
    let fields = record_fields(j);
    let line = record_line_spec(j);
    lemma_bool_seq_facts();
    // The line ends with the last character of the boolean field, which
    // is no whitespace, so trailing-whitespace removal is the identity.
    reveal_strlit("true");
    reveal_strlit("false");
    assert(fields.last() == bool_seq(j.archive));
    assert(bool_seq(true).len() == 4 && bool_seq(true)[3] == 'e');
    assert(bool_seq(false).len() == 5 && bool_seq(false)[4] == 'e');
    assert(fields.last().len() > 0);
    lemma_join_char_last(fields, ',');
    assert(line.last() == 'e');
    assert(!is_space_char(line.last()));
    assert(trim_end_spec(line) == line);
    // Splitting undoes the joining of the six comma-free fields.
    lemma_record_fields_comma_free(j);
    lemma_split_join_char(fields, ',');
    let parsed_fields = split_char_spec(trim_end_spec(line), ',');
    assert(parsed_fields == fields);
    assert(fields.len() == 6);
    assert(fields[0] == j.source && fields[1] == j.dest);
    // The period field parses back to the period.
    lemma_dec_round_trip(j.period as nat);
    assert(period_field_spec(fields[2]) == j.period);
    // The skip lists split and collect back to themselves.
    assert(forall|i: int| 0 <= i < j.exts.len() ==> (#[trigger] j.exts[i]).len() > 0);
    assert forall|i: int, k: int|
        0 <= i < j.exts.len() && 0 <= k < j.exts[i].len() implies !is_space_char(
        #[trigger] j.exts[i][k],
    ) by {
        assert(wf_ext_token(j.exts[i]));
        assert(token_chars_ok(j.exts[i]));
    }
    lemma_split_join_ws(j.exts);
    lemma_collect_ext_identity(j.exts);
    assert(collect_ext_spec(split_ws_spec(fields[3])) == j.exts);
    assert(forall|i: int| 0 <= i < j.folders.len() ==> (#[trigger] j.folders[i]).len() > 0);
    assert forall|i: int, k: int|
        0 <= i < j.folders.len() && 0 <= k < j.folders[i].len() implies !is_space_char(
        #[trigger] j.folders[i][k],
    ) by {
        assert(wf_folder_token(j.folders[i]));
        assert(token_chars_ok(j.folders[i]));
    }
    lemma_split_join_ws(j.folders);
    lemma_collect_folder_identity(j.folders);
    assert(collect_folder_spec(split_ws_spec(fields[4])) == j.folders);
    // The archive flag reads back: the two renderings are distinct.
    assert((fields[5] == "true"@) == j.archive);
    assert(parse_record_spec(line, now) == Some(complete_job(j, now)));
}

/// Parsing the encoded records of well-formed jobs yields them all
/// back, in order.
proof fn lemma_parse_records_encoded(jobs: Seq<JobV>, now: i64)
    requires
        forall|i: int| 0 <= i < jobs.len() ==> wf_job(#[trigger] jobs[i]),
    ensures
        parse_records_spec(jobs.map_values(|j: JobV| record_line_spec(j)), now)
            == jobs.map_values(|j: JobV| complete_job(j, now)),
    decreases jobs.len(),
{
    let recs = jobs.map_values(|j: JobV| record_line_spec(j));
    let out = jobs.map_values(|j: JobV| complete_job(j, now));
    if jobs.len() == 0 {
        assert(parse_records_spec(recs, now) =~= out);
    } else {
        let front = jobs.drop_last();
        assert(recs.drop_last() =~= front.map_values(|j: JobV| record_line_spec(j)));
        lemma_parse_records_encoded(front, now);
        lemma_record_round_trip(jobs.last(), now);
        assert(recs.last() == record_line_spec(jobs.last()));
        assert(parse_records_spec(recs, now) == front.map_values(|j: JobV| complete_job(j, now))
            + seq![complete_job(jobs.last(), now)]);
        assert(front.map_values(|j: JobV| complete_job(j, now)) + seq![
            complete_job(jobs.last(), now),
        ] =~= out);
    }
}

/// Law (round trip): saving a well-formed collection and loading it
/// back reproduces the same jobs — paths, period, skip sets, archive
/// flag — in the same order, each idle with the load time as its
/// last-run time.
pub proof fn lemma_save_load_round_trip(jobs: Seq<JobV>, now: i64)
    requires
        forall|i: int| 0 <= i < jobs.len() ==> wf_job(#[trigger] jobs[i]),
        jobs.len() <= u32::MAX,
    ensures
        parse_collection_spec(encode_lines_spec(jobs), now) == jobs.map_values(
            |j: JobV| complete_job(j, now),
        ),
{
    let lines = encode_lines_spec(jobs);
    let recs = jobs.map_values(|j: JobV| record_line_spec(j));
    assert(lines.len() == jobs.len() + 2);
    assert(lines[1] == dec_seq(jobs.len() as nat));
    lemma_dec_round_trip(jobs.len() as nat);
    lemma_digits_are_plain(lines[1]);
    lemma_trim_no_space(lines[1]);
    assert(count_field_spec(lines[1]) == jobs.len() as u32);
    assert(lines.subrange(2, 2 + jobs.len() as int) =~= recs);
    lemma_parse_records_encoded(jobs, now);
}

} // verus!
