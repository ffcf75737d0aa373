//! The copy engine's decision core.
//!
//! A source tree is modelled as the list of its files, each a path of
//! name components with the file name last. A mirror copy keeps exactly
//! the files excluded by no skip rule: a folder-name match anywhere on
//! the path excludes the whole subtree, an extension match excludes the
//! file. A per-file copy failure is counted as a warning and the run
//! carries on; only structural failures (an unreadable directory, an
//! uncreatable destination) abort a run, and the caller reports those
//! separately. The filesystem walk itself asks `folder_is_skipped` and
//! `file_is_skipped` entry by entry and so realises the same plan.
use vstd::prelude::*;

verus! {

use crate::filter::{
    views_of,
    file_skipped_spec,
    folder_skipped_spec,
    file_is_skipped,
    folder_is_skipped,
};
use crate::text::str_eq;

/// The model of a list of component paths.
pub open spec fn paths_of(ps: Seq<Vec<String>>) -> Seq<Seq<Seq<char>>> {
    ps.map_values(|p: Vec<String>| views_of(p@))
}

/// Whether the filter rules keep this file: no folder component of its
/// path matches a folder token, and its extension matches no extension
/// token.
pub open spec fn path_kept(
    p: Seq<Seq<char>>,
    exts: Seq<Seq<char>>,
    folders: Seq<Seq<char>>,
) -> bool {
    &&& p.len() >= 1
    &&& forall|k: int| 0 <= k < p.len() - 1 ==> !folder_skipped_spec(#[trigger] p[k], folders)
    &&& !file_skipped_spec(p[p.len() - 1], exts)
}

/// The files a mirror copy writes: those the rules keep and whose copy
/// does not fail, in source order.
pub open spec fn plan_copied(
    files: Seq<Seq<Seq<char>>>,
    exts: Seq<Seq<char>>,
    folders: Seq<Seq<char>>,
    failing: Seq<Seq<Seq<char>>>,
) -> Seq<Seq<Seq<char>>>
    decreases files.len(),
{
    if files.len() == 0 {
        Seq::empty()
    } else {
        plan_copied(files.drop_last(), exts, folders, failing) + (if path_kept(
            files.last(),
            exts,
            folders,
        ) && !failing.contains(files.last()) {
            seq![files.last()]
        } else {
            Seq::empty()
        })
    }
}

/// The number of per-file warnings a mirror copy reports: one for each
/// kept file whose copy fails.
pub open spec fn plan_warnings(
    files: Seq<Seq<Seq<char>>>,
    exts: Seq<Seq<char>>,
    folders: Seq<Seq<char>>,
    failing: Seq<Seq<Seq<char>>>,
) -> nat
    decreases files.len(),
{
    if files.len() == 0 {
        0
    } else {
        plan_warnings(files.drop_last(), exts, folders, failing) + (if path_kept(
            files.last(),
            exts,
            folders,
        ) && failing.contains(files.last()) {
            1nat
        } else {
            0nat
        })
    }
}

/// What one mirror copy did: the files written and the per-file
/// failures encountered.
pub struct CopyReport {
    pub copied: Vec<Vec<String>>,
    pub warnings: usize,
}

/// Whether two component paths are equal.
pub fn path_eq(a: &Vec<String>, b: &Vec<String>) -> (r: bool)
    ensures
        r == (views_of(a@) == views_of(b@)),
{
    if a.len() != b.len() {
        proof {
            assert(views_of(a@).len() != views_of(b@).len());
        }
        return false;
    }
    let mut i: usize = 0;
    while i < a.len()
        invariant
            i <= a@.len(),
            a@.len() == b@.len(),
            forall|k: int| 0 <= k < i ==> views_of(a@)[k] == views_of(b@)[k],
        decreases a@.len() - i,
    {
        if !str_eq(a[i].as_str(), b[i].as_str()) {
            proof {
                assert(views_of(a@)[i as int] != views_of(b@)[i as int]);
            }
            return false;
        }
        i = i + 1;
    }
    proof {
        assert(views_of(a@) =~= views_of(b@));
    }
    true
}

/// Whether the list holds this component path.
pub fn contains_path(list: &Vec<Vec<String>>, p: &Vec<String>) -> (r: bool)
    ensures
        r == paths_of(list@).contains(views_of(p@)),
{
    let mut i: usize = 0;
    while i < list.len()
        invariant
            i <= list@.len(),
            forall|k: int| 0 <= k < i ==> paths_of(list@)[k] != views_of(p@),
        decreases list@.len() - i,
    {
        if path_eq(&list[i], p) {
            proof {
                assert(paths_of(list@)[i as int] == views_of(p@));
            }
            return true;
        }
        i = i + 1;
    }
    proof {
        assert(forall|k: int| 0 <= k < paths_of(list@).len() ==> paths_of(list@)[k] != views_of(p@));
    }
    false
}

/// Whether the filter rules keep this file.
pub fn path_is_kept(p: &Vec<String>, exts: &Vec<String>, folders: &Vec<String>) -> (r: bool)
    ensures
        r == path_kept(views_of(p@), views_of(exts@), views_of(folders@)),
{
    let n = p.len();
    if n == 0 {
        return false;
    }
    let mut k: usize = 0;
    while k < n - 1
        invariant
            k <= n - 1,
            n >= 1,
            n == p@.len(),
            forall|j: int|
                0 <= j < k ==> !folder_skipped_spec(
                    #[trigger] views_of(p@)[j],
                    views_of(folders@),
                ),
        decreases n - k,
    {
        if folder_is_skipped(p[k].as_str(), folders) {
            proof {
                assert(folder_skipped_spec(views_of(p@)[k as int], views_of(folders@)));
            }
            return false;
        }
        k = k + 1;
    }
    let keep = !file_is_skipped(p[n - 1].as_str(), exts);
    proof {
        assert(views_of(p@)[n - 1] == p@[n - 1]@);
    }
    keep
}

/// Mirror-copy one source file list: every kept file whose copy
/// succeeds lands in the destination, a failed copy is one warning and
/// never aborts the run, and source order is preserved. `failing`
/// names the files whose copy attempt fails.
pub fn copy_plan(
    files: &Vec<Vec<String>>,
    exts: &Vec<String>,
    folders: &Vec<String>,
    failing: &Vec<Vec<String>>,
) -> (r: CopyReport)
    ensures
        paths_of(r.copied@) == plan_copied(
            paths_of(files@),
            views_of(exts@),
            views_of(folders@),
            paths_of(failing@),
        ),
        r.warnings as nat == plan_warnings(
            paths_of(files@),
            views_of(exts@),
            views_of(folders@),
            paths_of(failing@),
        ),
        r.warnings <= files@.len(),
{
    let ghost fv = paths_of(files@);
    let ghost ev = views_of(exts@);
    let ghost dv = views_of(folders@);
    let ghost gv = paths_of(failing@);
    let mut copied: Vec<Vec<String>> = Vec::new();
    let mut warnings: usize = 0;
    let mut i: usize = 0;
    proof {
        assert(fv.take(0) =~= Seq::<Seq<Seq<char>>>::empty());
    }
    while i < files.len()
        invariant
            i <= files@.len(),
            fv == paths_of(files@),
            ev == views_of(exts@),
            dv == views_of(folders@),
            gv == paths_of(failing@),
            paths_of(copied@) == plan_copied(fv.take(i as int), ev, dv, gv),
            warnings as nat == plan_warnings(fv.take(i as int), ev, dv, gv),
            warnings <= i,
        decreases files@.len() - i,
    {
        proof {
            assert(fv.take(i + 1).drop_last() =~= fv.take(i as int));
            assert(fv.take(i + 1).last() == views_of(files@[i as int]@));
        }
        let kept = path_is_kept(&files[i], exts, folders);
        if kept {
            if contains_path(failing, &files[i]) {
                warnings = warnings + 1;
                proof {
                    assert(paths_of(copied@) + Seq::<Seq<Seq<char>>>::empty() =~= paths_of(
                        copied@,
                    ));
                }
            } else {
                let ghost prev = paths_of(copied@);
                let mut item: Vec<String> = Vec::new();
                let mut c: usize = 0;
                while c < files[i].len()
                    invariant
                        c <= files@[i as int]@.len(),
                        i < files@.len(),
                        views_of(item@) == views_of(files@[i as int]@).take(c as int),
                    decreases files@[i as int]@.len() - c,
                {
                    let ghost pv = views_of(item@);
                    item.push(files[i][c].clone());
                    proof {
                        assert(views_of(item@) =~= pv.push(item@.last()@));
                        assert(views_of(item@) =~= views_of(files@[i as int]@).take(c + 1));
                    }
                    c = c + 1;
                }
                copied.push(item);
                proof {
                    let w = views_of(files@[i as int]@);
                    assert(w.take(w.len() as int) =~= w);
                    assert(paths_of(copied@) =~= prev.push(views_of(copied@.last()@)));
                    assert(paths_of(copied@) =~= prev + seq![w]);
                }
            }
        } else {
            proof {
                assert(paths_of(copied@) + Seq::<Seq<Seq<char>>>::empty() =~= paths_of(copied@));
            }
        }
        i = i + 1;
    }
    proof {
        assert(fv.take(files@.len() as int) =~= fv);
    }
    CopyReport { copied, warnings }
}

/// A run's overall outcome: only structural failure flips it; per-file
/// warnings are surfaced separately and leave success untouched.
pub fn run_success(structural_ok: bool, _file_warnings: usize) -> (r: bool)
    ensures
        r == structural_ok,
{
    structural_ok
}

/// Law: a file excluded by a folder rule or an extension rule is never
/// copied, whatever else happens; a kept file is copied exactly when
/// its own copy does not fail.
pub proof fn lemma_copy_correctness(
    files: Seq<Seq<Seq<char>>>,
    exts: Seq<Seq<char>>,
    folders: Seq<Seq<char>>,
    failing: Seq<Seq<Seq<char>>>,
    f: Seq<Seq<char>>,
)
    ensures
        !path_kept(f, exts, folders) ==> !plan_copied(files, exts, folders, failing).contains(f),
        files.contains(f) && path_kept(f, exts, folders) && !failing.contains(f) ==> plan_copied(
            files,
            exts,
            folders,
            failing,
        ).contains(f),
    decreases files.len(),
{
    if files.len() > 0 {
        lemma_copy_correctness(files.drop_last(), exts, folders, failing, f);
        let rest = plan_copied(files.drop_last(), exts, folders, failing);
        let whole = plan_copied(files, exts, folders, failing);
        if !path_kept(f, exts, folders) {
            assert forall|k: int| 0 <= k < whole.len() implies whole[k] != f by {
                if k < rest.len() {
                    assert(rest[k] == whole[k]);
                    assert(!rest.contains(f));
                }
            }
        }
        if files.contains(f) && path_kept(f, exts, folders) && !failing.contains(f) {
            if f == files.last() {
                assert(whole[whole.len() - 1] == f);
            } else {
                let k = choose|k: int| 0 <= k < files.len() && files[k] == f;
                assert(files.drop_last()[k] == f);
                assert(files.drop_last().contains(f));
                let k2 = choose|k2: int| 0 <= k2 < rest.len() && rest[k2] == f;
                assert(whole[k2] == f);
            }
        }
    }
}

} // verus!
