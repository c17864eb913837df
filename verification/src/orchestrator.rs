//! The batch-update workflow: diffing the installed records against a
//! freshly fetched catalog and deciding, per installed localization, whether
//! it is unknown to the catalog (left untouched, never auto-uninstalled),
//! already up to date (equal version and target directory present), or
//! queued for updating. The caller drives the per-key locked install for
//! each queued decision and aborts the whole batch on the first failure.

use vstd::prelude::*;

verus! {

use crate::errors::Error;
use crate::models::InstalledEntryV;
use crate::models::InstalledMetadata;
use crate::models::Localization;

/// The ghost images of a list of ids.
pub open spec fn id_views(s: Seq<String>) -> Seq<Seq<char>> {
    s.map(|i: int, t: String| t@)
}

/// What the evaluation decides for one installed localization.
pub enum UpdateDecision {
    /// The catalog no longer lists the id: signal it and leave the
    /// installed state untouched.
    UnknownLocalization { id: String },
    /// The catalog version equals the installed version and the target
    /// directory is present: no action.
    UpToDate { id: String },
    /// Queued for updating from the catalog record at this index.
    Update { id: String, catalog_index: usize },
}

/// The first catalog index carrying the given id, or -1 when there is none.
pub open spec fn catalog_first(catalog: Seq<Localization>, id: Seq<char>) -> int
    decreases catalog.len(),
{
    if catalog.len() == 0 {
        -1
    } else if catalog[0].id@ == id {
        0
    } else {
        let r = catalog_first(catalog.drop_first(), id);
        if r < 0 {
            -1
        } else {
            r + 1
        }
    }
}

proof fn lemma_catalog_first_at(catalog: Seq<Localization>, id: Seq<char>, k: int)
    requires
        0 <= k <= catalog.len(),
        forall|t: int| 0 <= t < k ==> catalog[t].id@ != id,
        k < catalog.len() ==> catalog[k].id@ == id,
    ensures
        catalog_first(catalog, id) == if k == catalog.len() {
            -1int
        } else {
            k
        },
    decreases k,
{
    if k == 0 {
        if catalog.len() == 0 {
        } else if catalog[0].id@ == id {
        } else {
            lemma_catalog_first_none(catalog, id);
        }
    } else {
        lemma_catalog_first_at(catalog.drop_first(), id, k - 1);
    }
}

proof fn lemma_catalog_first_none(catalog: Seq<Localization>, id: Seq<char>)
    requires
        forall|t: int| 0 <= t < catalog.len() ==> catalog[t].id@ != id,
    ensures
        catalog_first(catalog, id) == -1,
    decreases catalog.len(),
{
    if catalog.len() > 0 {
        lemma_catalog_first_none(catalog.drop_first(), id);
    }
}

/// The decision the evaluation owes for one installed record: unknown when
/// no catalog record carries its id; up to date when the first such record
/// has an equal version and the target directory is present; queued for
/// updating otherwise.
pub open spec fn decision_for(
    e: InstalledEntryV,
    catalog: Seq<Localization>,
    present: Seq<Seq<char>>,
    d: UpdateDecision,
) -> bool {
    let k = catalog_first(catalog, e.id);
    if k < 0 {
        d matches UpdateDecision::UnknownLocalization { id } && id@ == e.id
    } else if catalog[k].version@ == e.version && present.contains(e.id) {
        d matches UpdateDecision::UpToDate { id } && id@ == e.id
    } else {
        d matches UpdateDecision::Update { id, catalog_index } && id@ == e.id && catalog_index == k
    }
}

/// Whether the id is among those whose target directory exists.
fn contains_id(list: &Vec<String>, id: &String) -> (b: bool)
    ensures
        b == id_views(list@).contains(id@),
{
    let n = list.len();
    let mut k: usize = 0;
    while k < n
        invariant
            0 <= k <= n,
            n == list@.len(),
            forall|t: int| 0 <= t < k ==> id_views(list@)[t] != id@,
        decreases n - k,
    {
        if list[k].eq(id) {
            proof {
                assert(id_views(list@)[k as int] == id@);
            }
            return true;
        }
        proof {
            assert(id_views(list@)[k as int] == list@[k as int]@);
        }
        k += 1;
    }
    proof {
        assert forall|t: int|
            0 <= t < id_views(list@).len() implies #[trigger] id_views(list@)[t] != id@ by {
            assert(id_views(list@)[t] != id@);
        }
    }
    false
}

/// Evaluates every installed localization against the catalog: one decision
/// per installed record, in storage order. `dirs_present` lists the ids
/// whose installed target directory currently exists.
pub fn evaluate_updates(
    installed: &InstalledMetadata,
    catalog: &Vec<Localization>,
    dirs_present: &Vec<String>,
) -> (r: Vec<UpdateDecision>)
    ensures
        r@.len() == installed.entries().len(),
        forall|i: int|
            0 <= i < r@.len() ==> decision_for(
                installed.entries()[i],
                catalog@,
                id_views(dirs_present@),
                #[trigger] r@[i],
            ),
{
    let mut r: Vec<UpdateDecision> = Vec::new();
    let n = installed.installed.len();
    let cn = catalog.len();
    let mut i: usize = 0;
    while i < n
        invariant
            0 <= i <= n,
            n == installed.installed@.len(),
            cn == catalog@.len(),
            r@.len() == i,
            forall|t: int|
                0 <= t < i ==> decision_for(
                    installed.entries()[t],
                    catalog@,
                    id_views(dirs_present@),
                    #[trigger] r@[t],
                ),
        decreases n - i,
    {
        let e = &installed.installed[i];
        let ghost ev = installed.entries()[i as int];
        proof {
            assert(ev == e@);
        }
        let mut k: usize = 0;
        let mut found = false;
        while k < cn && !found
            invariant
                0 <= k <= cn,
                cn == catalog@.len(),
                0 <= i < installed.installed@.len(),
                e == installed.installed@[i as int],
                ev == e@,
                !found ==> forall|t: int| 0 <= t < k ==> catalog@[t].id@ != ev.id,
                found ==> k < cn && catalog@[k as int].id@ == ev.id && forall|t: int|
                    0 <= t < k ==> catalog@[t].id@ != ev.id,
            decreases cn - k + (if found {
                0int
            } else {
                1int
            }),
        {
            if catalog[k].id.eq(&e.id) {
                found = true;
            } else {
                k += 1;
            }
        }
        let d = if !found {
            proof {
                lemma_catalog_first_at(catalog@, ev.id, k as int);
            }
            UpdateDecision::UnknownLocalization { id: e.id.clone() }
        } else {
            proof {
                lemma_catalog_first_at(catalog@, ev.id, k as int);
            }
            if catalog[k].version.eq(&e.version) && contains_id(dirs_present, &e.id) {
                UpdateDecision::UpToDate { id: e.id.clone() }
            } else {
                UpdateDecision::Update { id: e.id.clone(), catalog_index: k }
            }
        };
        let ghost prevr = r@;
        proof {
            assert(decision_for(ev, catalog@, id_views(dirs_present@), d));
        }
        r.push(d);
        proof {
            assert forall|t: int|
                0 <= t < i as int + 1 implies decision_for(
                installed.entries()[t],
                catalog@,
                id_views(dirs_present@),
                #[trigger] r@[t],
            ) by {
                if t < i as int {
                    assert(r@[t] == prevr[t]);
                }
            }
        }
        i += 1;
    }
    proof {
        assert(installed.entries().len() == installed.installed@.len());
    }
    r
}

/// Refuses to start an install, uninstall, or update while the target game
/// runs: the precondition surfaces as a GameRunningError, never as silent
/// progress.
pub fn ensure_game_not_running(running: bool) -> (r: Result<(), Error>)
    ensures
        r is Ok <==> !running,
        r is Err ==> r matches Err(Error::GameRunningError),
{
    if running {
        Err(Error::GameRunningError)
    } else {
        Ok(())
    }
}

} // verus!
