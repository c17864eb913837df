//! Layout resolution: locating, inside an extracted archive, the directory
//! that holds the installable language payload, according to the declared
//! format. The `new` format takes the extraction root; `compatible` and
//! `auto` search for a directory that directly contains the marker
//! subdirectory; an unrecognized tag is a hard error naming the tag, never
//! a silent default.

use vstd::prelude::*;

verus! {

use crate::archive::ActionV;
use crate::archive::ExtractAction;
use crate::archive::action_views;
use crate::errors::Error;
use crate::models::Format;
use vstd::string::StringExecFns;

/// The marker directory name the search looks for.
pub open spec fn marker_name() -> Seq<char> {
    "StoryData"@
}

/// Whether the plan puts the marker directory directly under the path
/// `prefix = actions[i].path.take(l)`: action `i` has the marker as its
/// `l`-th segment, and that segment names a directory (it is followed by
/// more segments, or the action itself creates a directory).
pub open spec fn marker_at(actions: Seq<ActionV>, i: int, l: int) -> bool {
    &&& 0 <= i < actions.len()
    &&& 0 <= l < actions[i].path.len()
    &&& actions[i].path[l] == marker_name()
    &&& (actions[i].is_dir || l + 1 < actions[i].path.len())
}

/// Whether any directory in the plan directly contains the marker.
pub open spec fn has_marker(actions: Seq<ActionV>) -> bool {
    exists|i: int, l: int| marker_at(actions, i, l)
}

/// Whether some marker occurrence precedes `(i, l)` in plan order: an
/// earlier action, or the same action at a shallower segment.
pub open spec fn marker_before(actions: Seq<ActionV>, i: int, l: int) -> bool {
    exists|i2: int, l2: int|
        marker_at(actions, i2, l2) && (i2 < i || (i2 == i && l2 < l))
}

/// Whether `d` is the canonical payload directory of the plan: the parent
/// of the first marker occurrence in plan order.
pub open spec fn first_payload_dir(actions: Seq<ActionV>, d: Seq<Seq<char>>) -> bool {
    exists|i: int, l: int|
        marker_at(actions, i, l) && !marker_before(actions, i, l) && d == actions[i].path.take(l)
}

/// The canonical payload directory is unique, so the `compatible` and
/// `auto` formats resolve to the same directory over the same plan.
pub proof fn lemma_first_payload_dir_unique(
    actions: Seq<ActionV>,
    d1: Seq<Seq<char>>,
    d2: Seq<Seq<char>>,
)
    requires
        first_payload_dir(actions, d1),
        first_payload_dir(actions, d2),
    ensures
        d1 == d2,
{
    let (i1, l1) = choose|i: int, l: int|
        marker_at(actions, i, l) && !marker_before(actions, i, l) && d1 == actions[i].path.take(
            l,
        );
    let (i2, l2) = choose|i: int, l: int|
        marker_at(actions, i, l) && !marker_before(actions, i, l) && d2 == actions[i].path.take(
            l,
        );
    if i1 < i2 || (i1 == i2 && l1 < l2) {
        assert(marker_at(actions, i1, l1) && (i1 < i2 || (i1 == i2 && l1 < l2)));
        assert(marker_before(actions, i2, l2));
    } else if i2 < i1 || (i2 == i1 && l2 < l1) {
        assert(marker_at(actions, i2, l2) && (i2 < i1 || (i2 == i1 && l2 < l1)));
        assert(marker_before(actions, i1, l1));
    }
}

/// Resolves the payload directory for the given format over an extraction
/// plan, as a path relative to the extraction root.
///
/// For `new` the root itself is the payload. For `compatible` and `auto`
/// the parent of the first marker occurrence in plan order is returned; it
/// exists exactly when some entry path goes through the marker. The choice
/// is canonical, so both search formats resolve to the same directory
/// (`lemma_first_payload_dir_unique`).
pub fn find_language_directory(actions: &Vec<ExtractAction>, format: &Format) -> (r: Result<
    Vec<String>,
    Error,
>)
    ensures
        format is New ==> (r matches Ok(d) && d@.len() == 0),
        (format is Compatible || format is Auto) ==> ((r is Ok <==> has_marker(
            action_views(actions@),
        )) && (r matches Ok(d) ==> first_payload_dir(
            action_views(actions@),
            d@.map(|i: int, s: String| s@),
        ))),
        format matches Format::Unknown(tag) ==> (r matches Err(e) && e matches
            Error::ConfigurationError { detail } && detail@ == "unknown localization format: "@
            + tag@),
        (format is Compatible || format is Auto) && !has_marker(action_views(actions@))
            ==> (r matches Err(e) && e is DecodeError),
{
    match format {
        Format::New => Ok(Vec::new()),
        Format::Unknown(tag) => {
            let mut detail = "unknown localization format: ".to_owned();
            detail.append(tag.as_str());
            Err(Error::ConfigurationError { detail })
        },
        Format::Compatible => search_marker(actions),
        Format::Auto => search_marker(actions),
    }
}

/// The depth search behind `compatible` and `auto`: some directory of the
/// plan that directly contains the marker, or a decode error when none
/// exists.
fn search_marker(actions: &Vec<ExtractAction>) -> (r: Result<Vec<String>, Error>)
    ensures
        r is Ok <==> has_marker(action_views(actions@)),
        r matches Ok(d) ==> first_payload_dir(
            action_views(actions@),
            d@.map(|i: int, s: String| s@),
        ),
        r matches Err(e) ==> e is DecodeError,
{
    let ghost avs = action_views(actions@);
    let marker: String = "StoryData".to_owned();
    let n = actions.len();
    let mut i: usize = 0;
    while i < n
        invariant
            0 <= i <= n,
            n == actions@.len(),
            avs == action_views(actions@),
            marker@ == marker_name(),
            forall|a: int, l: int| 0 <= a < i ==> !marker_at(avs, a, l),
        decreases n - i,
    {
        let act = &actions[i];
        let m = act.path.len();
        let mut l: usize = 0;
        while l < m
            invariant
                0 <= l <= m,
                m == act.path@.len(),
                act == actions@[i as int],
                0 <= i < actions@.len(),
                avs == action_views(actions@),
                marker@ == marker_name(),
                forall|a: int, t: int| 0 <= a < i ==> !marker_at(avs, a, t),
                forall|t: int| 0 <= t < l ==> !marker_at(avs, i as int, t),
            decreases m - l,
        {
            if act.path[l].eq(&marker) && (act.is_dir || l + 1 < m) {
                proof {
                    assert(avs[i as int].path == act.path@.map(
                        |t: int, s: String| s@,
                    ));
                    assert(avs[i as int].path[l as int] == act.path@[l as int]@);
                    assert(marker_at(avs, i as int, l as int));
                }
                let mut d: Vec<String> = Vec::new();
                let mut t: usize = 0;
                while t < l
                    invariant
                        0 <= t <= l < act.path@.len(),
                        act == actions@[i as int],
                        0 <= i < actions@.len(),
                        avs == action_views(actions@),
                        d@.map(|q: int, s: String| s@) == avs[i as int].path.take(
                            t as int,
                        ),
                    decreases l - t,
                {
                    let ghost prevd = d@;
                    let c = act.path[t].clone();
                    let ghost cv = c@;
                    proof {
                        assert(cv == act.path@[t as int]@);
                    }
                    d.push(c);
                    proof {
                        assert(prevd.map(|q: int, s: String| s@).len() == prevd.len());
                        assert(prevd.len() == t as int);
                        assert forall|q: int| 0 <= q < t as int + 1 implies (
                        #[trigger] d@[q])@ == avs[i as int].path.take(t as int + 1)[q] by {
                            if q < t as int {
                                assert(d@[q] == prevd[q]);
                                assert(prevd.map(|q2: int, s: String| s@)[q] == prevd[q]@);
                            } else {
                                assert(d@[q] == c);
                                assert(avs[i as int].path[q] == act.path@[q]@);
                            }
                        }
                        assert(d@.map(|q: int, s: String| s@) =~= avs[i as int].path.take(
                            t as int + 1,
                        ));
                    }
                    t += 1;
                }
                proof {
                    assert forall|i2: int, l2: int|
                        marker_at(avs, i2, l2) implies !(i2 < i as int || (i2 == i as int && l2
                        < l as int)) by {
                        if i2 < i as int {
                            assert(!marker_at(avs, i2, l2));
                        } else if i2 == i as int && l2 < l as int {
                            assert(!marker_at(avs, i2, l2));
                        }
                    }
                    assert(!marker_before(avs, i as int, l as int));
                    assert(marker_at(avs, i as int, l as int) && !marker_before(
                        avs,
                        i as int,
                        l as int,
                    ) && d@.map(|q: int, s: String| s@) == avs[i as int].path.take(l as int));
                }
                return Ok(d);
            }
            proof {
                assert(avs[i as int].path[l as int] == act.path@[l as int]@);
                assert(!marker_at(avs, i as int, l as int));
            }
            l += 1;
        }
        proof {
            assert forall|t: int| true implies !marker_at(avs, i as int, t) by {
                if 0 <= t < avs[i as int].path.len() {
                    assert(!marker_at(avs, i as int, t));
                }
            }
        }
        i += 1;
    }
    proof {
        assert forall|a: int, l: int| true implies !marker_at(avs, a, l) by {
            if 0 <= a < avs.len() {
                assert(!marker_at(avs, a, l));
            }
        }
    }
    Err(
        Error::DecodeError {
            detail: "no directory containing StoryData found in the archive".to_owned(),
        },
    )
}

} // verus!
