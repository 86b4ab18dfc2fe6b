//! The catalog of all sessions, grouped by project and ordered by recency.

use vstd::prelude::*;
use crate::recency::{
    lemma_newest_first_dates, lemma_newest_first_items, newest_first, older, place, place_of,
};
use crate::session_types::{ProjectGroup, ProjectGroupView, SessionSummary, SessionSummaryView};

verus! {

/// The start times of the sessions, position by position.
pub open spec fn session_dates(sessions: Seq<SessionSummaryView>) -> Seq<Option<i64>> {
    Seq::new(sessions.len(), |i: int| sessions[i].start_time)
}

/// The sessions newest first by start time. A session without a start time
/// counts as the oldest.
pub open spec fn ordered_sessions(sessions: Seq<SessionSummaryView>) -> Seq<SessionSummaryView> {
    newest_first(sessions, session_dates(sessions))
}

/// The date of a group: the start time of its first session.
pub open spec fn group_date(group: ProjectGroupView) -> Option<i64> {
    if group.sessions.len() > 0 {
        group.sessions[0].start_time
    } else {
        None
    }
}

pub open spec fn group_dates(groups: Seq<ProjectGroupView>) -> Seq<Option<i64>> {
    Seq::new(groups.len(), |i: int| group_date(groups[i]))
}

/// The groups that have a session, each with its sessions newest first.
pub open spec fn listed_groups(groups: Seq<ProjectGroupView>) -> Seq<ProjectGroupView>
    decreases groups.len(),
{
    if groups.len() == 0 {
        Seq::empty()
    } else {
        let rest = listed_groups(groups.drop_last());
        let group = groups.last();
        if group.sessions.len() == 0 {
            rest
        } else {
            rest.push(ProjectGroupView { sessions: ordered_sessions(group.sessions), ..group })
        }
    }
}

/// The catalog made of the given groups: groups without a session are left
/// out, the sessions of each group stand newest first, and the groups stand
/// by the start time of their newest session, newest first. A group none of
/// whose sessions has a start time counts as the oldest.
pub open spec fn catalog(groups: Seq<ProjectGroupView>) -> Seq<ProjectGroupView> {
    let listed = listed_groups(groups);
    newest_first(listed, group_dates(listed))
}

/// The ordered sessions are the sessions that came in, each as often as
/// before, and none of them is followed by a newer one.
pub proof fn lemma_ordered_sessions(sessions: Seq<SessionSummaryView>)
    ensures
        ordered_sessions(sessions).len() == sessions.len(),
        ordered_sessions(sessions).to_multiset() == sessions.to_multiset(),
        forall|a: int, b: int|
            0 <= a < b < sessions.len() ==> !older(
                #[trigger] ordered_sessions(sessions)[a].start_time,
                #[trigger] ordered_sessions(sessions)[b].start_time,
            ),
{
    let dates = session_dates(sessions);
    let sorted = ordered_sessions(sessions);
    let sorted_dates = newest_first(dates, dates);
    lemma_newest_first_items(sessions, dates);
    lemma_newest_first_dates(dates);
    assert forall|k: int| 0 <= k < sessions.len() implies sorted_dates[k]
        == #[trigger] sorted[k].start_time by {
        let i = choose|i: int|
            0 <= i < sessions.len() && sorted[k] == sessions[i] && sorted_dates[k] == dates[i];
        assert(dates[i] == sessions[i].start_time);
    }
    assert forall|a: int, b: int| 0 <= a < b < sessions.len() implies !older(
        #[trigger] sorted[a].start_time,
        #[trigger] sorted[b].start_time,
    ) by {
        assert(!older(sorted_dates[a], sorted_dates[b]));
    }
}

/// Every listed group has a session, and its sessions stand newest first.
pub proof fn lemma_listed_groups(groups: Seq<ProjectGroupView>)
    ensures
        forall|k: int|
            0 <= k < listed_groups(groups).len() ==> {
                let group = #[trigger] listed_groups(groups)[k];
                &&& group.sessions.len() > 0
                &&& forall|a: int, b: int|
                    0 <= a < b < group.sessions.len() ==> !older(
                        #[trigger] group.sessions[a].start_time,
                        #[trigger] group.sessions[b].start_time,
                    )
            },
    decreases groups.len(),
{
    if groups.len() > 0 {
        lemma_listed_groups(groups.drop_last());
        lemma_ordered_sessions(groups.last().sessions);
    }
}

/// In the catalog no group is without sessions; no group is followed by one
/// whose newest session is newer; and within a group no session is followed
/// by a newer one. So a session that started at 200 stands before one that
/// started at 100, and a group with a dated session before a group without.
pub proof fn lemma_catalog_order(groups: Seq<ProjectGroupView>)
    ensures
        forall|k: int| 0 <= k < catalog(groups).len() ==> (#[trigger] catalog(groups)[k]).sessions.len() > 0,
        forall|i: int, j: int|
            0 <= i < j < catalog(groups).len() ==> !older(
                group_date(#[trigger] catalog(groups)[i]),
                group_date(#[trigger] catalog(groups)[j]),
            ),
        forall|k: int, a: int, b: int|
            0 <= k < catalog(groups).len() && 0 <= a < b < catalog(groups)[k].sessions.len()
                ==> !older(
                #[trigger] catalog(groups)[k].sessions[a].start_time,
                #[trigger] catalog(groups)[k].sessions[b].start_time,
            ),
{
    let listed = listed_groups(groups);
    let dates = group_dates(listed);
    let sorted = catalog(groups);
    let sorted_dates = newest_first(dates, dates);
    lemma_listed_groups(groups);
    lemma_newest_first_items(listed, dates);
    lemma_newest_first_dates(dates);
    assert forall|k: int| 0 <= k < sorted.len() implies sorted_dates[k] == group_date(
        #[trigger] sorted[k],
    ) && exists|i: int| 0 <= i < listed.len() && sorted[k] == listed[i] by {
        let i = choose|i: int|
            0 <= i < listed.len() && sorted[k] == listed[i] && sorted_dates[k] == dates[i];
        assert(dates[i] == group_date(listed[i]));
    }
    assert forall|i: int, j: int| 0 <= i < j < sorted.len() implies !older(
        group_date(#[trigger] sorted[i]),
        group_date(#[trigger] sorted[j]),
    ) by {
        assert(!older(sorted_dates[i], sorted_dates[j]));
    }
    assert forall|k: int| 0 <= k < sorted.len() implies (#[trigger] sorted[k]).sessions.len()
        > 0 by {
        let i = choose|i: int| 0 <= i < listed.len() && sorted[k] == listed[i];
        assert(listed[i].sessions.len() > 0);
    }
    assert forall|k: int, a: int, b: int|
        0 <= k < sorted.len() && 0 <= a < b < sorted[k].sessions.len() implies !older(
        #[trigger] sorted[k].sessions[a].start_time,
        #[trigger] sorted[k].sessions[b].start_time,
    ) by {
        let i = choose|i: int| 0 <= i < listed.len() && sorted[k] == listed[i];
        let group = listed[i];
        assert(!older(group.sessions[a].start_time, group.sessions[b].start_time));
    }
}

/// Orders the sessions of a project newest first.
pub fn sort_sessions(sessions: Vec<SessionSummary>) -> (r: Vec<SessionSummary>)
    ensures
        r.deep_view() == ordered_sessions(sessions.deep_view()),
{
    let ghost views = sessions.deep_view();
    let ghost all_dates = session_dates(views);
    let mut out: Vec<SessionSummary> = Vec::new();
    let mut dates: Vec<Option<i64>> = Vec::new();
    proof {
        assert(out.deep_view() =~= newest_first(views.take(0), all_dates.take(0)));
        assert(dates@ =~= newest_first(all_dates.take(0), all_dates.take(0)));
    }
    for session in it: sessions
        invariant
            views.len() == it.seq().len(),
            all_dates == session_dates(views),
            forall|k: int| 0 <= k < views.len() ==> (#[trigger] it.seq()[k])@ == views[k],
            out.len() == dates.len(),
            out.deep_view() == newest_first(views.take(it.index()), all_dates.take(it.index())),
            dates@ == newest_first(all_dates.take(it.index()), all_dates.take(it.index())),
    {
        let ghost k = it.index();
        let ghost before = out.deep_view();
        let ghost added = session@;
        let date = session.start_time;
        proof {
            assert(views.take(k + 1).drop_last() =~= views.take(k));
            assert(all_dates.take(k + 1).drop_last() =~= all_dates.take(k));
            assert(views.take(k + 1).last() == added);
            assert(all_dates.take(k + 1).last() == date);
        }
        place(&mut out, &mut dates, session, date);
        assert(out.deep_view() =~= before.insert(place_of(
            newest_first(all_dates.take(k), all_dates.take(k)),
            date,
        ), added));
    }
    proof {
        assert(views.take(views.len() as int) =~= views);
        assert(all_dates.take(views.len() as int) =~= all_dates);
    }
    out
}

/// Builds the catalog from the groups as they were found: one group for each
/// project directory, its sessions in any order.
pub fn get_all_sessions(groups: Vec<ProjectGroup>) -> (r: Vec<ProjectGroup>)
    ensures
        r.deep_view() == catalog(groups.deep_view()),
{
    let ghost views = groups.deep_view();
    let mut listed: Vec<ProjectGroup> = Vec::new();
    proof {
        assert(listed.deep_view() =~= listed_groups(views.take(0)));
    }
    for group in it: groups
        invariant
            views.len() == it.seq().len(),
            forall|k: int| 0 <= k < views.len() ==> (#[trigger] it.seq()[k])@ == views[k],
            listed.deep_view() == listed_groups(views.take(it.index())),
    {
        let ghost k = it.index();
        proof {
            assert(views.take(k + 1).drop_last() =~= views.take(k));
            assert(views.take(k + 1).last() == group@);
        }
        let ProjectGroup { project, project_encoded, sessions } = group;
        if sessions.len() > 0 {
            let ghost before = listed.deep_view();
            let sorted = sort_sessions(sessions);
            let kept = ProjectGroup { project, project_encoded, sessions: sorted };
            let ghost added = kept@;
            listed.push(kept);
            assert(listed.deep_view() =~= before.push(added));
        }
    }
    proof {
        assert(views.take(views.len() as int) =~= views);
    }
    let ghost kept_views = listed.deep_view();
    let ghost all_dates = group_dates(kept_views);
    let mut out: Vec<ProjectGroup> = Vec::new();
    let mut dates: Vec<Option<i64>> = Vec::new();
    proof {
        assert(out.deep_view() =~= newest_first(kept_views.take(0), all_dates.take(0)));
        assert(dates@ =~= newest_first(all_dates.take(0), all_dates.take(0)));
    }
    for group in it: listed
        invariant
            kept_views.len() == it.seq().len(),
            all_dates == group_dates(kept_views),
            forall|k: int| 0 <= k < kept_views.len() ==> (#[trigger] it.seq()[k])@ == kept_views[k],
            out.len() == dates.len(),
            out.deep_view() == newest_first(kept_views.take(it.index()), all_dates.take(it.index())),
            dates@ == newest_first(all_dates.take(it.index()), all_dates.take(it.index())),
    {
        let ghost k = it.index();
        let ghost before = out.deep_view();
        let ghost added = group@;
        let date = if group.sessions.len() > 0 {
            group.sessions[0].start_time
        } else {
            None
        };
        proof {
            assert(kept_views.take(k + 1).drop_last() =~= kept_views.take(k));
            assert(all_dates.take(k + 1).drop_last() =~= all_dates.take(k));
            assert(kept_views.take(k + 1).last() == added);
            assert(all_dates.take(k + 1).last() == date);
        }
        place(&mut out, &mut dates, group, date);
        assert(out.deep_view() =~= before.insert(place_of(
            newest_first(all_dates.take(k), all_dates.take(k)),
            date,
        ), added));
    }
    proof {
        assert(kept_views.take(kept_views.len() as int) =~= kept_views);
        assert(all_dates.take(kept_views.len() as int) =~= all_dates);
    }
    out
}

} // verus!
