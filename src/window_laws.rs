use vstd::prelude::*;

use crate::rate_limiter::{Window, admits, cap, lookup, next_window, record};

verus! {

/// What a run of calls from one client at the times `times` returns, starting
/// from the window `w`.
pub open spec fn outcomes(max: nat, window: nat, w: Option<Window>, times: Seq<nat>) -> Seq<bool>
    decreases times.len(),
{
    if times.len() == 0 {
        Seq::empty()
    } else {
        seq![admits(max, window, w, times[0])] + outcomes(
            max,
            window,
            Some(next_window(max, window, w, times[0])),
            times.drop_first(),
        )
    }
}

/// The client's window after a run of calls at the times `times`, starting from `w`.
pub open spec fn final_window(max: nat, window: nat, w: Option<Window>, times: Seq<nat>) -> Option<
    Window,
>
    decreases times.len(),
{
    if times.len() == 0 {
        w
    } else {
        final_window(
            max,
            window,
            Some(next_window(max, window, w, times[0])),
            times.drop_first(),
        )
    }
}

/// How many calls of a run were admitted.
pub open spec fn admitted(results: Seq<bool>) -> nat
    decreases results.len(),
{
    if results.len() == 0 {
        0
    } else {
        (if results[0] {
            1nat
        } else {
            0nat
        }) + admitted(results.drop_first())
    }
}

/// Within a window that began at `s` and holds `c` requests, the `i`-th call
/// of a run is admitted exactly when `c + i` is below the limit; the window
/// keeps its start, and its count grows up to the limit and no further.
pub proof fn lemma_within_window(max: nat, window: nat, c: nat, s: nat, times: Seq<nat>)
    requires
        forall|i: int| 0 <= i < times.len() ==> #[trigger] times[i] <= s + window,
    ensures
        outcomes(max, window, Some(Window { count: c, start: s }), times).len() == times.len(),
        forall|i: int|
            0 <= i < times.len() ==> #[trigger] outcomes(
                max,
                window,
                Some(Window { count: c, start: s }),
                times,
            )[i] == (c + i < max),
        final_window(max, window, Some(Window { count: c, start: s }), times) == Some(
            Window {
                count: if c >= max {
                    c
                } else if c + times.len() < max {
                    c + times.len()
                } else {
                    max
                },
                start: s,
            },
        ),
    decreases times.len(),
{
    if times.len() > 0 {
        let w = Some(Window { count: c, start: s });
        let nc: nat = if c < max { c + 1 } else { c };
        assert(next_window(max, window, w, times[0]) == Window { count: nc, start: s });
        let rest = times.drop_first();
        assert forall|i: int| 0 <= i < rest.len() implies #[trigger] rest[i] <= s + window by {
            assert(rest[i] == times[i + 1]);
        }
        lemma_within_window(max, window, nc, s, rest);
        let out = outcomes(max, window, w, times);
        assert forall|i: int| 0 <= i < times.len() implies #[trigger] out[i] == (c + i < max) by {
            if i > 0 {
                assert(out[i] == outcomes(
                    max,
                    window,
                    Some(Window { count: nc, start: s }),
                    rest,
                )[i - 1]);
            }
        }
    }
}

/// A client seen for the first time, calling `max` times or more within one
/// window (no call later than `window` after the first), has its first `max`
/// calls admitted and every later one rejected.
pub proof fn lemma_window_limit(max: nat, window: nat, times: Seq<nat>)
    requires
        times.len() > 0,
        forall|i: int| 0 <= i < times.len() ==> #[trigger] times[i] <= times[0] + window,
    ensures
        outcomes(max, window, None, times).len() == times.len(),
        forall|i: int|
            0 <= i < times.len() ==> #[trigger] outcomes(max, window, None, times)[i] == (i < max),
{
    let t0 = times[0];
    let c: nat = if 0 < max { 1 } else { 0 };
    assert(next_window(max, window, None, t0) == Window { count: c, start: t0 });
    let rest = times.drop_first();
    assert forall|i: int| 0 <= i < rest.len() implies #[trigger] rest[i] <= t0 + window by {
        assert(rest[i] == times[i + 1]);
    }
    lemma_within_window(max, window, c, t0, rest);
    let out = outcomes(max, window, None, times);
    assert forall|i: int| 0 <= i < times.len() implies #[trigger] out[i] == (i < max) by {
        if i > 0 {
            assert(out[i] == outcomes(max, window, Some(Window { count: c, start: t0 }), rest)[i
                - 1]);
        }
    }
}

proof fn lemma_admitted_prefix(max: nat, results: Seq<bool>)
    requires
        forall|i: int| 0 <= i < results.len() ==> #[trigger] results[i] == (i < max),
    ensures
        admitted(results) == if results.len() < max { results.len() } else { max },
    decreases results.len(),
{
    if results.len() > 0 {
        let rest = results.drop_first();
        if max > 0 {
            assert forall|i: int| 0 <= i < rest.len() implies #[trigger] rest[i] == (i < (max
                - 1) as nat) by {
                assert(rest[i] == results[i + 1]);
            }
            lemma_admitted_prefix((max - 1) as nat, rest);
        } else {
            assert forall|i: int| 0 <= i < rest.len() implies #[trigger] rest[i] == (i < max) by {
                assert(rest[i] == results[i + 1]);
            }
            lemma_admitted_prefix(max, rest);
        }
    }
}

/// A burst of `max + k` calls from one new client within one window, taken in
/// any order that a lock serialises them in, admits exactly `max` of them and
/// rejects exactly `k`.
pub proof fn lemma_burst(max: nat, window: nat, k: nat, times: Seq<nat>)
    requires
        k > 0,
        times.len() == max + k,
        forall|i: int| 0 <= i < times.len() ==> #[trigger] times[i] <= times[0] + window,
    ensures
        admitted(outcomes(max, window, None, times)) == max,
        times.len() - admitted(outcomes(max, window, None, times)) == k,
{
    lemma_window_limit(max, window, times);
    lemma_admitted_prefix(max, outcomes(max, window, None, times));
}

/// Once more than `window` has elapsed since the window began, a call is
/// admitted, whatever the count, and opens a new window holding that one call.
pub proof fn lemma_window_reset(max: nat, window: nat, w: Window, now: nat)
    requires
        now > w.start + window,
    ensures
        admits(max, window, Some(w), now),
        next_window(max, window, Some(w), now) == (Window { count: 1, start: now }),
{
}

/// A call exactly `window` after the window began still belongs to that
/// window: it is judged by the old count and resets nothing.
pub proof fn lemma_boundary(max: nat, window: nat, w: Window, now: nat)
    requires
        now == w.start + window,
    ensures
        admits(max, window, Some(w), now) == (w.count < max),
        next_window(max, window, Some(w), now).start == w.start,
{
}

/// Rejected calls leave a full window as it was; after it runs out, the next
/// call opens a fresh window and `max - 1` more calls are admitted in it
/// before the next rejection.
pub proof fn lemma_rejections_not_counted(
    max: nat,
    window: nat,
    s: nat,
    rejected: Seq<nat>,
    later: Seq<nat>,
)
    requires
        forall|i: int| 0 <= i < rejected.len() ==> #[trigger] rejected[i] <= s + window,
        later.len() > 0,
        later[0] > s + window,
        forall|i: int| 0 <= i < later.len() ==> #[trigger] later[i] <= later[0] + window,
    ensures
        forall|i: int|
            0 <= i < rejected.len() ==> !#[trigger] outcomes(
                max,
                window,
                Some(Window { count: max, start: s }),
                rejected,
            )[i],
        final_window(max, window, Some(Window { count: max, start: s }), rejected) == Some(
            Window { count: max, start: s },
        ),
        outcomes(max, window, Some(Window { count: max, start: s }), later)[0],
        forall|i: int|
            0 < i < later.len() ==> #[trigger] outcomes(
                max,
                window,
                Some(Window { count: max, start: s }),
                later,
            )[i] == (i < max),
{
    let w = Some(Window { count: max, start: s });
    lemma_within_window(max, window, max, s, rejected);
    let t = later[0];
    lemma_window_reset(max, window, Window { count: max, start: s }, t);
    let rest = later.drop_first();
    assert forall|i: int| 0 <= i < rest.len() implies #[trigger] rest[i] <= t + window by {
        assert(rest[i] == later[i + 1]);
    }
    lemma_within_window(max, window, 1, t, rest);
    let out = outcomes(max, window, w, later);
    assert forall|i: int| 0 < i < later.len() implies #[trigger] out[i] == (i < max) by {
        assert(out[i] == outcomes(max, window, Some(Window { count: 1, start: t }), rest)[i - 1]);
    }
}

/// A call from one client changes no other client's window.
pub proof fn lemma_isolation(
    max: nat,
    window: nat,
    m: Map<Seq<char>, Window>,
    a: Seq<char>,
    b: Seq<char>,
    now: nat,
)
    requires
        a != b,
    ensures
        lookup(record(max, window, m, a, now), b) == lookup(m, b),
        admits(max, window, lookup(record(max, window, m, a, now), b), now) == admits(
            max,
            window,
            lookup(m, b),
            now,
        ),
{
}

/// No call takes a window over the cap.
pub proof fn lemma_cap_kept(max: nat, window: nat, w: Option<Window>, now: nat)
    requires
        w is Some ==> w->Some_0.count <= cap(max),
    ensures
        next_window(max, window, w, now).count <= cap(max),
{
}

} // verus!
