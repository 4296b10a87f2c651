use vstd::prelude::*;

use crate::accum::{lies_under, record_step, visit_step};

verus! {

/// One step of a scan, as the accumulator sees it: either a directory was
/// visited, or a file of some size was found at some path.
pub enum ScanEvent {
    Dir(Seq<char>),
    File(Seq<char>, u64),
}

/// Whether the event visits the directory `d`.
pub open spec fn visits_dir(e: ScanEvent, d: Seq<char>) -> bool {
    match e {
        ScanEvent::Dir(p) => p == d,
        ScanEvent::File(_, _) => false,
    }
}

/// The totals after playing the whole scan `events` against the totals `m`,
/// one `visit_step` or `record_step` at a time.
pub open spec fn run_steps(
    m: Map<Seq<char>, u64>,
    sep: char,
    events: Seq<ScanEvent>,
) -> Map<Seq<char>, u64>
    decreases events.len(),
{
    if events.len() == 0 {
        m
    } else {
        let next = match events[0] {
            ScanEvent::Dir(p) => visit_step(m, p),
            ScanEvent::File(p, s) => record_step(m, sep, p, s),
        };
        run_steps(next, sep, events.subrange(1, events.len() as int))
    }
}

/// The bytes that the scan `events` sends to the directory `d`: the sum of the
/// sizes of the files in it that lie under `d`.
pub open spec fn matching_sum(sep: char, d: Seq<char>, events: Seq<ScanEvent>) -> int
    decreases events.len(),
{
    if events.len() == 0 {
        0
    } else {
        let head: int = match events[0] {
            ScanEvent::Dir(_) => 0,
            ScanEvent::File(p, s) => if lies_under(d, sep, p) {
                s as int
            } else {
                0
            },
        };
        head + matching_sum(sep, d, events.subrange(1, events.len() as int))
    }
}

/// Every recorded total is 0.
pub open spec fn all_zero(m: Map<Seq<char>, u64>) -> bool {
    forall|d: Seq<char>| m.dom().contains(d) ==> m[d] == 0
}

/// File sizes are nonnegative, so a matching sum is never negative.
pub proof fn lemma_matching_sum_nonneg(sep: char, d: Seq<char>, events: Seq<ScanEvent>)
    ensures
        matching_sum(sep, d, events) >= 0,
    decreases events.len(),
{
    if events.len() > 0 {
        lemma_matching_sum_nonneg(sep, d, events.subrange(1, events.len() as int));
    }
}

/// A scan of a tree with only empty directories — one whose events hold no
/// file — leaves every directory's recorded total at 0.
pub proof fn lemma_dirs_only_all_zero(m: Map<Seq<char>, u64>, sep: char, events: Seq<ScanEvent>)
    requires
        all_zero(m),
        forall|i: int| 0 <= i < events.len() ==> events[i] is Dir,
    ensures
        all_zero(run_steps(m, sep, events)),
    decreases events.len(),
{
    if events.len() > 0 {
        let next = match events[0] {
            ScanEvent::Dir(p) => visit_step(m, p),
            ScanEvent::File(p, s) => record_step(m, sep, p, s),
        };
        assert(all_zero(next));
        let rest = events.subrange(1, events.len() as int);
        assert(forall|i: int| 0 <= i < rest.len() ==> rest[i] is Dir);
        lemma_dirs_only_all_zero(next, sep, rest);
    }
}

/// Lying under a directory carries up through ancestors: if `a` is an ancestor
/// of `d` and `path` lies under `d`, then `path` lies under `a` too.
pub proof fn lemma_lies_under_transitive(a: Seq<char>, d: Seq<char>, sep: char, path: Seq<char>)
    requires
        lies_under(a, sep, d),
        lies_under(d, sep, path),
    ensures
        lies_under(a, sep, path),
{
    let ae = a.push(sep);
    assert(d.subrange(0, ae.len() as int) == ae);
    assert(path.subrange(0, d.len() as int + 1) == d.push(sep));
    assert forall|k: int| 0 <= k < ae.len() implies path[k] == ae[k] by {
        assert(d[k] == d.push(sep)[k]);
        assert(path[k] == path.subrange(0, d.len() as int + 1)[k]);
        assert(ae[k] == d.subrange(0, ae.len() as int)[k]);
    }
    assert(path.subrange(0, ae.len() as int) =~= ae);
}

/// Recording one file of `size` bytes at `path` adds exactly `size` to the
/// total of the directory `d` the file lies under — and, by the lemma above,
/// to every ancestor of `d` as well; every other total is untouched.
pub proof fn lemma_record_adds_to_ancestors(
    m: Map<Seq<char>, u64>,
    sep: char,
    path: Seq<char>,
    size: u64,
    d: Seq<char>,
)
    requires
        m.dom().contains(d),
        lies_under(d, sep, path),
        m[d] + size <= u64::MAX,
    ensures
        record_step(m, sep, path, size)[d] == m[d] + size,
        forall|a: Seq<char>|
            m.dom().contains(a) && lies_under(a, sep, d) && m[a] + size <= u64::MAX
                ==> record_step(m, sep, path, size)[a] == m[a] + size,
        forall|o: Seq<char>|
            m.dom().contains(o) && !lies_under(o, sep, path) ==> record_step(m, sep, path, size)[o]
                == m[o],
{
    assert forall|a: Seq<char>|
        m.dom().contains(a) && lies_under(a, sep, d) && m[a] + size
            <= u64::MAX implies record_step(m, sep, path, size)[a] == m[a] + size by {
        lemma_lies_under_transitive(a, d, sep, path);
    }
}

/// The heart of the aggregation, transitive across depth: a directory's final
/// total is its starting total plus the bytes of every later file that lies
/// under it — direct children and files in nested subdirectories alike —
/// provided the directory is never visited again and the sum stays in range.
pub proof fn lemma_total_is_matching_sum(
    m: Map<Seq<char>, u64>,
    sep: char,
    d: Seq<char>,
    events: Seq<ScanEvent>,
)
    requires
        m.dom().contains(d),
        forall|i: int| 0 <= i < events.len() ==> !visits_dir(#[trigger] events[i], d),
        m[d] + matching_sum(sep, d, events) <= u64::MAX,
    ensures
        run_steps(m, sep, events).dom().contains(d),
        run_steps(m, sep, events)[d] == m[d] + matching_sum(sep, d, events),
    decreases events.len(),
{
    if events.len() > 0 {
        let rest = events.subrange(1, events.len() as int);
        lemma_matching_sum_nonneg(sep, d, rest);
        assert(forall|i: int| 0 <= i < rest.len() ==> !visits_dir(#[trigger] rest[i], d)) by {
            assert(forall|i: int|
                0 <= i < rest.len() ==> rest[i] == events[i + 1] && !visits_dir(
                    #[trigger] events[i + 1],
                    d,
                ));
        }
        match events[0] {
            ScanEvent::Dir(p) => {
                assert(!visits_dir(events[0], d));
                let next = visit_step(m, p);
                assert(next.dom().contains(d) && next[d] == m[d]);
                lemma_total_is_matching_sum(next, sep, d, rest);
            },
            ScanEvent::File(p, s) => {
                let next = record_step(m, sep, p, s);
                assert(next.dom().contains(d));
                if lies_under(d, sep, p) {
                    assert(m[d] + s <= m[d] + matching_sum(sep, d, events));
                    assert(next[d] == m[d] + s);
                } else {
                    assert(next[d] == m[d]);
                }
                lemma_total_is_matching_sum(next, sep, d, rest);
            },
        }
    }
}

/// Determinism of the whole aggregation: two scans that see the same events,
/// starting from the same totals, record the same totals — re-running the tool
/// against the same tree yields identical byte totals.
pub proof fn lemma_run_deterministic(
    m1: Map<Seq<char>, u64>,
    m2: Map<Seq<char>, u64>,
    sep: char,
    events1: Seq<ScanEvent>,
    events2: Seq<ScanEvent>,
)
    requires
        m1 == m2,
        events1 == events2,
    ensures
        run_steps(m1, sep, events1) == run_steps(m2, sep, events2),
{
}

} // verus!
