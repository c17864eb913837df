//! Committing an installation: the canonical target directory for a
//! localization id, the filter that turns an extraction plan into the
//! actions placed under that target (replace semantics: the old tree goes
//! away first), and the model of what a commit does to the installed file
//! tree, with its idempotence law.

use vstd::prelude::*;

verus! {

use crate::archive::ActionV;
use crate::archive::ExtractAction;
use crate::archive::action_views;

/// The ghost image of a segment path.
pub open spec fn path_view(p: Seq<String>) -> Seq<Seq<char>> {
    p.map(|i: int, s: String| s@)
}

/// Builds the canonical target path for a localization id, relative to the
/// install root.
pub fn lang_directory_segments(id: &String) -> (r: Vec<String>)
    ensures
        path_view(r@) == seq!["LimbusCompany_Data"@, "Lang"@, id@],
{
    let mut r: Vec<String> = Vec::new();
    r.push("LimbusCompany_Data".to_owned());
    r.push("Lang".to_owned());
    r.push(id.clone());
    proof {
        assert(path_view(r@) =~= seq!["LimbusCompany_Data"@, "Lang"@, id@]);
    }
    r
}

/// The defensively skipped entry name: an archive that bundles its own
/// source zip does not get it installed.
pub open spec fn bundled_archive_name() -> Seq<char> {
    "localization.zip"@
}

/// Whether an extraction action survives the commit filter for the given
/// payload directory: it lies strictly below the payload, and no segment
/// below the payload is the bundled archive name. The name is filtered at
/// every depth, which also prunes the whole subtree of a directory so
/// named.
pub open spec fn commit_keeps(a: ActionV, payload: Seq<Seq<char>>) -> bool {
    &&& payload.len() < a.path.len()
    &&& a.path.take(payload.len() as int) == payload
    &&& forall|t: int|
        payload.len() <= t < a.path.len() ==> #[trigger] a.path[t] != bundled_archive_name()
}

/// The surviving action, relativized to the payload directory.
pub open spec fn commit_rel(a: ActionV, payload: Seq<Seq<char>>) -> ActionV {
    ActionV {
        path: a.path.skip(payload.len() as int),
        is_dir: a.is_dir,
        mode: a.mode,
        data: a.data,
    }
}

/// The actions a commit performs under the target directory: the surviving
/// actions of the plan, relativized, in order.
pub open spec fn commit_plan_of(actions: Seq<ActionV>, payload: Seq<Seq<char>>) -> Seq<ActionV>
    decreases actions.len(),
{
    if actions.len() == 0 {
        Seq::<ActionV>::empty()
    } else {
        commit_plan_of(actions.drop_last(), payload) + (if commit_keeps(
            actions.last(),
            payload,
        ) {
            seq![commit_rel(actions.last(), payload)]
        } else {
            Seq::<ActionV>::empty()
        })
    }
}

/// Filters an extraction plan down to the payload directory's contents,
/// relativized, skipping any entry with a `localization.zip` segment below
/// the payload. The caller removes the previously installed tree and
/// applies these actions under the freshly created target directory.
pub fn commit_plan(actions: &Vec<ExtractAction>, payload: &Vec<String>) -> (r: Vec<ExtractAction>)
    ensures
        action_views(r@) == commit_plan_of(action_views(actions@), path_view(payload@)),
{
    let ghost avs = action_views(actions@);
    let ghost pv = path_view(payload@);
    let skip_name: String = "localization.zip".to_owned();
    let plen = payload.len();
    let mut r: Vec<ExtractAction> = Vec::new();
    let n = actions.len();
    let mut i: usize = 0;
    while i < n
        invariant
            0 <= i <= n,
            n == actions@.len(),
            plen == payload@.len(),
            avs == action_views(actions@),
            pv == path_view(payload@),
            skip_name@ == bundled_archive_name(),
            action_views(r@) == commit_plan_of(avs.take(i as int), pv),
        decreases n - i,
    {
        let act = &actions[i];
        proof {
            assert(avs[i as int] == act@);
            assert(avs.take(i as int + 1).drop_last() =~= avs.take(i as int));
            assert(avs.take(i as int + 1).last() == avs[i as int]);
        }
        let mut keep = plen < act.path.len();
        if keep {
            let mut j: usize = 0;
            while j < plen && keep
                invariant
                    0 <= j <= plen,
                    plen == payload@.len(),
                    plen < act.path@.len(),
                    0 <= i < actions@.len(),
                    act == actions@[i as int],
                    pv == path_view(payload@),
                    keep ==> forall|t: int| 0 <= t < j ==> act.path@[t]@ == pv[t],
                    !keep ==> act@.path.take(plen as int) != pv,
                decreases plen - j,
            {
                if !act.path[j].eq(&payload[j]) {
                    proof {
                        assert(act.path@[j as int]@ != pv[j as int]);
                        assert(act@.path[j as int] == act.path@[j as int]@);
                        if act@.path.take(plen as int) == pv {
                            assert(act@.path.take(plen as int)[j as int] == pv[j as int]);
                            assert(false);
                        }
                    }
                    keep = false;
                }
                j += 1;
            }
            if keep {
                proof {
                    assert forall|t: int| 0 <= t < plen implies act@.path.take(plen as int)[t]
                        == pv[t] by {
                        assert(act@.path[t] == act.path@[t]@);
                    }
                    assert(act@.path.take(plen as int) =~= pv);
                }
                let path_len = act.path.len();
                let mut q = plen;
                while q < path_len && keep
                    invariant
                        plen <= q <= path_len,
                        path_len == act.path@.len(),
                        plen < act.path@.len(),
                        plen == payload@.len(),
                        0 <= i < actions@.len(),
                        act == actions@[i as int],
                        pv == path_view(payload@),
                        skip_name@ == bundled_archive_name(),
                        keep ==> forall|t: int|
                            plen <= t < q ==> #[trigger] act@.path[t] != bundled_archive_name(),
                        !keep ==> !commit_keeps(act@, pv),
                    decreases path_len - q,
                {
                    if act.path[q].eq(&skip_name) {
                        proof {
                            assert(act@.path[q as int] == act.path@[q as int]@);
                            assert(act@.path[q as int] == bundled_archive_name());
                            assert(!commit_keeps(act@, pv));
                        }
                        keep = false;
                    } else {
                        proof {
                            assert(act@.path[q as int] == act.path@[q as int]@);
                        }
                    }
                    q += 1;
                }
            }
        }
        if keep {
            proof {
                assert(commit_keeps(avs[i as int], pv));
            }
            let mut path: Vec<String> = Vec::new();
            let mut t = plen;
            while t < act.path.len()
                invariant
                    plen <= t <= act.path@.len(),
                    act == actions@[i as int],
                    0 <= i < actions@.len(),
                    path_view(path@) == act@.path.subrange(plen as int, t as int),
                decreases act.path@.len() - t,
            {
                let ghost prevp = path@;
                let c = act.path[t].clone();
                let ghost cv = c@;
                path.push(c);
                proof {
                    assert(prevp.map(|q: int, s: String| s@).len() == prevp.len());
                    assert forall|q: int| 0 <= q < path@.len() implies (#[trigger] path@[q])@
                        == act@.path.subrange(plen as int, t as int + 1)[q] by {
                        if q < path@.len() - 1 {
                            assert(path@[q] == prevp[q]);
                            assert(prevp.map(|q2: int, s: String| s@)[q] == prevp[q]@);
                        } else {
                            assert(path@[q] == c);
                            assert(act@.path[t as int] == act.path@[t as int]@);
                        }
                    }
                    assert(path_view(path@) =~= act@.path.subrange(plen as int, t as int + 1));
                }
                t += 1;
            }
            let mut data: Vec<u8> = Vec::new();
            let mut b: usize = 0;
            while b < act.data.len()
                invariant
                    0 <= b <= act.data@.len(),
                    act == actions@[i as int],
                    data@ == act.data@.take(b as int),
                decreases act.data@.len() - b,
            {
                data.push(act.data[b]);
                proof {
                    assert(data@ =~= act.data@.take(b as int + 1));
                }
                b += 1;
            }
            let mode = match &act.mode {
                Some(v) => Some(*v),
                None => None,
            };
            let out = ExtractAction { path, is_dir: act.is_dir, mode, data };
            let ghost prevr = r@;
            proof {
                assert(data@ =~= act.data@);
                assert(act@.path.subrange(plen as int, act.path@.len() as int) =~= act@.path.skip(
                    plen as int,
                ));
                assert(out@ == commit_rel(avs[i as int], pv));
            }
            r.push(out);
            proof {
                assert(action_views(prevr).len() == prevr.len());
                assert forall|q: int| 0 <= q < r@.len() implies (#[trigger] action_views(r@)[q])
                    == commit_plan_of(avs.take(i as int + 1), pv)[q] by {
                    assert(action_views(r@)[q] == r@[q]@);
                    if q < r@.len() - 1 {
                        assert(r@[q] == prevr[q]);
                        assert(action_views(prevr)[q] == prevr[q]@);
                    } else {
                        assert(r@[q] == out);
                    }
                }
                assert(action_views(r@) =~= commit_plan_of(avs.take(i as int + 1), pv));
            }
        } else {
            proof {
                assert(!commit_keeps(avs[i as int], pv));
                assert(action_views(r@) =~= commit_plan_of(avs.take(i as int + 1), pv));
            }
        }
        i += 1;
    }
    proof {
        assert(avs.take(n as int) =~= avs);
    }
    r
}

/// Whether `p` lies at or below the directory `target`.
pub open spec fn under_dir(target: Seq<Seq<char>>, p: Seq<Seq<char>>) -> bool {
    target.len() <= p.len() && p.take(target.len() as int) == target
}

/// The installed file tree after a commit: a map from segment paths to file
/// contents in which everything previously under the target directory is
/// gone, the staged files (keyed by payload-relative path) are present under
/// the target, and everything outside the target is untouched. Replace
/// semantics, not merge: stale files from a previous version never linger.
pub open spec fn install_effect(
    state: Map<Seq<Seq<char>>, Seq<u8>>,
    target: Seq<Seq<char>>,
    files: Map<Seq<Seq<char>>, Seq<u8>>,
) -> Map<Seq<Seq<char>>, Seq<u8>> {
    Map::new(
        |p: Seq<Seq<char>>|
            (under_dir(target, p) && files.contains_key(p.skip(target.len() as int))) || (
            state.contains_key(p) && !under_dir(target, p)),
        |p: Seq<Seq<char>>|
            if under_dir(target, p) && files.contains_key(p.skip(target.len() as int)) {
                files[p.skip(target.len() as int)]
            } else {
                state[p]
            },
    )
}

/// The files a commit plan stages, keyed by their target-relative path.
pub open spec fn files_of_plan(actions: Seq<ActionV>) -> Map<Seq<Seq<char>>, Seq<u8>> {
    Map::new(
        |p: Seq<Seq<char>>|
            exists|i: int| 0 <= i < actions.len() && !actions[i].is_dir && actions[i].path == p,
        |p: Seq<Seq<char>>|
            actions[choose|i: int|
                0 <= i < actions.len() && !actions[i].is_dir && actions[i].path == p].data,
    )
}

/// The idempotence law of installation: committing the same staged files for
/// the same target twice in sequence leaves the installed tree in exactly
/// the state one commit leaves, because a commit first removes everything
/// under the target and then stages the files afresh.
pub proof fn lemma_install_idempotent(
    state: Map<Seq<Seq<char>>, Seq<u8>>,
    target: Seq<Seq<char>>,
    files: Map<Seq<Seq<char>>, Seq<u8>>,
)
    ensures
        install_effect(install_effect(state, target, files), target, files) == install_effect(
            state,
            target,
            files,
        ),
{
    let a = install_effect(state, target, files);
    let b = install_effect(a, target, files);
    assert forall|p: Seq<Seq<char>>| #[trigger] b.contains_key(p) == a.contains_key(p) by {
        if under_dir(target, p) {
            assert(b.contains_key(p) == (files.contains_key(p.skip(target.len() as int))));
            assert(a.contains_key(p) == (files.contains_key(p.skip(target.len() as int))));
        }
    }
    assert forall|p: Seq<Seq<char>>| a.contains_key(p) implies #[trigger] b[p] == a[p] by {
        if !(under_dir(target, p) && files.contains_key(p.skip(target.len() as int)))
            && a.contains_key(p) {
            assert(a[p] == state[p]);
        }
    }
    assert(b =~= a);
}


/// The guard survives the commit: when every extraction action has a
/// non-empty path of harmless segments (as the extraction plan guarantees),
/// every action of the commit plan does too, since a surviving path is a
/// strict suffix of one of them. Nothing a commit writes can leave the
/// target directory.
pub proof fn lemma_commit_keeps_guard(actions: Seq<ActionV>, payload: Seq<Seq<char>>)
    requires
        forall|i: int, j: int|
            0 <= i < actions.len() && 0 <= j < actions[i].path.len() ==> crate::archive::segment_ok(
                #[trigger] actions[i].path[j],
            ),
    ensures
        forall|i: int|
            0 <= i < commit_plan_of(actions, payload).len() ==> #[trigger] commit_plan_of(
                actions,
                payload,
            )[i].path.len() > 0,
        forall|i: int, j: int|
            0 <= i < commit_plan_of(actions, payload).len() && 0 <= j < commit_plan_of(
                actions,
                payload,
            )[i].path.len() ==> crate::archive::segment_ok(
                #[trigger] commit_plan_of(actions, payload)[i].path[j],
            ),
    decreases actions.len(),
{
    if actions.len() > 0 {
        let pre = actions.drop_last();
        assert forall|i: int, j: int|
            0 <= i < pre.len() && 0 <= j < pre[i].path.len() implies crate::archive::segment_ok(
            #[trigger] pre[i].path[j],
        ) by {
            assert(pre[i] == actions[i]);
            assert(crate::archive::segment_ok(actions[i].path[j]));
        }
        lemma_commit_keeps_guard(pre, payload);
        let c = commit_plan_of(actions, payload);
        let cpre = commit_plan_of(pre, payload);
        assert forall|i: int| 0 <= i < c.len() implies #[trigger] c[i].path.len() > 0 by {
            if i < cpre.len() {
                assert(c[i] == cpre[i]);
                assert(cpre[i].path.len() > 0);
            } else {
                assert(commit_keeps(actions.last(), payload));
                assert(c[i] == commit_rel(actions.last(), payload));
            }
        }
        assert forall|i: int, j: int|
            0 <= i < c.len() && 0 <= j < c[i].path.len() implies crate::archive::segment_ok(
            #[trigger] c[i].path[j],
        ) by {
            if i < cpre.len() {
                assert(c[i] == cpre[i]);
                assert(crate::archive::segment_ok(cpre[i].path[j]));
            } else {
                assert(commit_keeps(actions.last(), payload));
                let a = commit_rel(actions.last(), payload);
                assert(c[i] == a);
                assert(a.path[j] == actions.last().path[payload.len() + j]);
                assert(actions[actions.len() - 1] == actions.last());
                assert(crate::archive::segment_ok(
                    actions[actions.len() - 1].path[payload.len() + j],
                ));
            }
        }
    }
}

} // verus!
