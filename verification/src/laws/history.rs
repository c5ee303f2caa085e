//! What the log keeps and shows.

use crate::state;
use crate::state::{LogFilter, RequestLogView};
use vstd::prelude::*;

verus! {

/// The log after several entries.
pub open spec fn logged_all(logs: Seq<RequestLogView>, entries: Seq<RequestLogView>) -> Seq<
    RequestLogView,
>
    decreases entries.len(),
{
    if entries.len() == 0 {
        logs
    } else {
        state::logged(logged_all(logs, entries.drop_last()), entries.last())
    }
}

/// The log holds the newest requests, in the order in which they came, and as
/// many of them as it keeps.
pub proof fn law_log_keeps_newest(entries: Seq<RequestLogView>)
    ensures
        logged_all(Seq::<RequestLogView>::empty(), entries) == entries.skip(
            if entries.len() > state::LOG_CAPACITY {
                entries.len() - state::LOG_CAPACITY
            } else {
                0
            },
        ),
    decreases entries.len(),
{
    let none = Seq::<RequestLogView>::empty();
    let cap = state::LOG_CAPACITY as int;
    if entries.len() == 0 {
        assert(entries.skip(0) =~= none);
    } else {
        let front = entries.drop_last();
        law_log_keeps_newest(front);
        let before = logged_all(none, front);
        if entries.len() > cap {
            assert(before.len() == cap);
            assert(before.drop_first().push(entries.last()) =~= entries.skip(
                entries.len() - cap,
            ));
        } else {
            assert(before.push(entries.last()) =~= entries.skip(0));
        }
    }
}

/// What the log shows are entries of it that pass, no more than asked for; all
/// of them where there are no more.
pub proof fn law_recent(logs: Seq<RequestLogView>, limit: nat, f: LogFilter)
    ensures
        state::recent(logs, limit, f).len() <= limit,
        forall|i: int|
            0 <= i < state::recent(logs, limit, f).len() ==> state::log_passes(
                f,
                #[trigger] state::recent(logs, limit, f)[i],
            ) && logs.contains(state::recent(logs, limit, f)[i]),
        state::recent(logs, limit, f).len() < limit ==> forall|i: int|
            0 <= i < logs.len() && state::log_passes(f, #[trigger] logs[i]) ==> state::recent(
                logs,
                limit,
                f,
            ).contains(logs[i]),
{
    let pred = |l: RequestLogView| state::log_passes(f, l);
    let rev = logs.reverse();
    let found = rev.filter(pred);
    let shown = state::recent(logs, limit, f);
    assert forall|i: int| 0 <= i < shown.len() implies state::log_passes(f, #[trigger] shown[i])
        && logs.contains(shown[i]) by {
        assert(shown[i] == found[i]);
        rev.lemma_filter_pred(pred, i);
        assert(found.contains(found[i]));
        rev.lemma_filter_contains_rev(pred, found[i]);
        let k = choose|k: int| 0 <= k < rev.len() && rev[k] == found[i];
        assert(logs[logs.len() - 1 - k] == found[i]);
    }
    if shown.len() < limit {
        assert forall|i: int| 0 <= i < logs.len() && state::log_passes(
            f,
            #[trigger] logs[i],
        ) implies shown.contains(logs[i]) by {
            rev.lemma_filter_contains(pred, logs.len() - 1 - i);
        }
    }
}

/// Once its entries are cleared, nothing of a frontend is shown; the entries
/// of the others stay.
pub proof fn law_cleared(logs: Seq<RequestLogView>, id: Seq<char>)
    ensures
        forall|i: int|
            0 <= i < state::cleared(logs, Some(id)).len() ==> (#[trigger] state::cleared(
                logs,
                Some(id),
            )[i]).frontend != id,
        forall|i: int|
            0 <= i < logs.len() && (#[trigger] logs[i]).frontend != id ==> state::cleared(
                logs,
                Some(id),
            ).contains(logs[i]),
        state::cleared(logs, None).len() == 0,
{
    let pred = |l: RequestLogView| l.frontend != id;
    let left = state::cleared(logs, Some(id));
    assert forall|i: int| 0 <= i < left.len() implies (#[trigger] left[i]).frontend != id by {
        logs.lemma_filter_pred(pred, i);
    }
    assert forall|i: int| 0 <= i < logs.len() && (#[trigger] logs[i]).frontend
        != id implies left.contains(logs[i]) by {
        logs.lemma_filter_contains(pred, i);
    }
}

/// An entry is shown where it is of the frontend that is asked for, and its
/// status is neither below the one bound nor above the other.
pub proof fn law_log_passes(f: LogFilter, l: RequestLogView)
    ensures
        state::log_passes(f, l) <==> (f.frontend is None || l.frontend == f.frontend->0) && (
        f.status_min is None || l.status >= f.status_min->0) && (f.status_max is None || l.status
            <= f.status_max->0),
{
}

/// A new entry that passes is shown first, before what else is shown; one that
/// does not pass changes nothing of what is shown.
pub proof fn law_newest_first(logs: Seq<RequestLogView>, l: RequestLogView, limit: nat, f: LogFilter)
    requires
        limit > 0,
    ensures
        state::log_passes(f, l) ==> state::recent(logs.push(l), limit, f) == seq![l]
            + state::recent(logs, (limit - 1) as nat, f),
        !state::log_passes(f, l) ==> state::recent(logs.push(l), limit, f) == state::recent(
            logs,
            limit,
            f,
        ),
        state::recent(Seq::<RequestLogView>::empty(), limit, f).len() == 0,
        state::recent(logs, 0, f).len() == 0,
{
    let pred = |x: RequestLogView| state::log_passes(f, x);
    let one = seq![l];
    let rev = logs.reverse();
    assert(logs.push(l).reverse() =~= one + rev);
    Seq::filter_distributes_over_add(one, rev, pred);
    let none = Seq::<RequestLogView>::empty();
    none.lemma_filter_push(l, pred);
    assert(none.push(l) =~= one);
    reveal(Seq::filter);
    assert(none.filter(pred) =~= none);
    assert(none.reverse() =~= none);
    let found = rev.filter(pred);
    if state::log_passes(f, l) {
        assert(one.filter(pred) =~= one);
        assert(logs.push(l).reverse().filter(pred) =~= one + found);
        if found.len() > limit - 1 {
            assert((one + found).take(limit as int) =~= one + found.take(limit - 1));
        }
    } else {
        assert(one.filter(pred) =~= none);
        assert(none + found =~= found);
    }
}

/// Clearing a frontend takes its entries out one by one and keeps the others
/// in their order; clearing all leaves none.
pub proof fn law_cleared_one_by_one(logs: Seq<RequestLogView>, l: RequestLogView, id: Seq<char>)
    ensures
        state::cleared(logs.push(l), Some(id)) == (if l.frontend == id {
            state::cleared(logs, Some(id))
        } else {
            state::cleared(logs, Some(id)).push(l)
        }),
        state::cleared(Seq::<RequestLogView>::empty(), Some(id)).len() == 0,
        state::cleared(logs, None).len() == 0,
{
    let pred = |x: RequestLogView| x.frontend != id;
    logs.lemma_filter_push(l, pred);
    reveal(Seq::filter);
}

} // verus!
