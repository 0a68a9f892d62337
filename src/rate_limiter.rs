use vstd::prelude::*;

verus! {

/// The counting window of one client: the requests admitted in it so far and
/// the moment it began.
pub struct Window {
    pub count: nat,
    pub start: nat,
}

/// Time elapsed from `start` to `now`, saturating at zero when `now` lies before `start`.
pub open spec fn elapsed(start: nat, now: nat) -> nat {
    if now >= start {
        (now - start) as nat
    } else {
        0
    }
}

/// The window that a call at `now` is judged against: the client's own, or a
/// fresh empty one for a client seen for the first time.
pub open spec fn current(w: Option<Window>, now: nat) -> Window {
    match w {
        Some(w) => w,
        None => Window { count: 0, start: now },
    }
}

/// Whether a call at `now` is admitted: its window has run out (strictly more
/// than `window` has elapsed), or the window still has room.
pub open spec fn admits(max: nat, window: nat, w: Option<Window>, now: nat) -> bool {
    let cur = current(w, now);
    elapsed(cur.start, now) > window || cur.count < max
}

/// The client's window after a call at `now`: reset to one request when it ran
/// out, one more request when there was room, unchanged on a rejection.
pub open spec fn next_window(max: nat, window: nat, w: Option<Window>, now: nat) -> Window {
    let cur = current(w, now);
    if elapsed(cur.start, now) > window {
        Window { count: 1, start: now }
    } else if cur.count < max {
        Window { count: cur.count + 1, start: cur.start }
    } else {
        cur
    }
}

/// The window that `m` holds for `id`, if any.
pub open spec fn lookup(m: Map<Seq<char>, Window>, id: Seq<char>) -> Option<Window> {
    if m.contains_key(id) {
        Some(m[id])
    } else {
        None
    }
}

/// All windows after one call from `id` at `now`: only the caller's entry changes.
pub open spec fn record(
    max: nat,
    window: nat,
    m: Map<Seq<char>, Window>,
    id: Seq<char>,
    now: nat,
) -> Map<Seq<char>, Window> {
    m.insert(id, next_window(max, window, lookup(m, id), now))
}

/// The largest count a window can hold: `max`, or one where `max` is zero
/// (a reset always admits the call that opens the new window).
pub open spec fn cap(max: nat) -> nat {
    if max == 0 {
        1
    } else {
        max
    }
}

/// One tracked client: its identifier and its current window.
struct ClientData {
    id: String,
    requests: u64,
    window_start: u64,
}

impl ClientData {
    spec fn window(&self) -> Window {
        Window { count: self.requests as nat, start: self.window_start as nat }
    }
}

/// Tracks, for each client identifier, the requests admitted in its current
/// fixed window, and admits a request only while the window has room.
pub struct RateLimiter {
    max_requests: u64,
    window: u64,
    clients: Vec<ClientData>,
    windows: Ghost<Map<Seq<char>, Window>>,
}

impl View for RateLimiter {
    type V = Map<Seq<char>, Window>;

    closed spec fn view(&self) -> Map<Seq<char>, Window> {
        self.windows@
    }
}

impl RateLimiter {
    /// The most requests admitted in one window.
    pub closed spec fn max_requests(&self) -> nat {
        self.max_requests as nat
    }

    /// The length of a window, in the caller's clock ticks.
    pub closed spec fn window(&self) -> nat {
        self.window as nat
    }

    /// One entry per identifier, each agreeing with the model, none over the cap.
    pub closed spec fn wf(&self) -> bool {
        &&& forall|i: int, j: int|
            0 <= i < j < self.clients@.len() ==> self.clients@[i].id@ != self.clients@[j].id@
        &&& forall|i: int|
            0 <= i < self.clients@.len() ==> self.windows@.contains_key(
                #[trigger] self.clients@[i].id@,
            ) && self.windows@[self.clients@[i].id@] == self.clients@[i].window()
        &&& forall|k: Seq<char>|
            #[trigger] self.windows@.contains_key(k) ==> exists|i: int|
                0 <= i < self.clients@.len() && #[trigger] self.clients@[i].id@ == k
        &&& forall|k: Seq<char>|
            #[trigger] self.windows@.contains_key(k) ==> self.windows@[k].count <= cap(
                self.max_requests as nat,
            )
    }

    /// A limiter that admits `max_requests` requests per client in each window
    /// of `window` ticks, with no client seen yet.
    pub fn new(max_requests: u64, window: u64) -> (r: RateLimiter)
        ensures
            r.wf(),
            r.max_requests() == max_requests,
            r.window() == window,
            r@ == Map::<Seq<char>, Window>::empty(),
    {
        RateLimiter {
            max_requests,
            window,
            clients: Vec::new(),
            windows: Ghost(Map::empty()),
        }
    }

    fn find(&self, id: &String) -> (r: Option<usize>)
        ensures
            match r {
                Some(i) => i < self.clients@.len() && self.clients@[i as int].id@ == id@,
                None => forall|j: int|
                    0 <= j < self.clients@.len() ==> #[trigger] self.clients@[j].id@ != id@,
            },
    {
        let mut i: usize = 0;
        while i < self.clients.len()
            invariant
                i <= self.clients@.len(),
                forall|j: int| 0 <= j < i ==> #[trigger] self.clients@[j].id@ != id@,
            decreases self.clients@.len() - i,
        {
            if self.clients[i].id == *id {
                return Some(i);
            }
            i = i + 1;
        }
        None
    }

    /// Decides whether a request from `ip` at time `now` is admitted, and
    /// records it in that client's window when it is.
    pub fn is_allowed(&mut self, ip: &str, now: u64) -> (allowed: bool)
        requires
            old(self).wf(),
        ensures
            final(self).wf(),
            final(self).max_requests() == old(self).max_requests(),
            final(self).window() == old(self).window(),
            allowed == admits(
                old(self).max_requests(),
                old(self).window(),
                lookup(old(self)@, ip@),
                now as nat,
            ),
            final(self)@ == record(
                old(self).max_requests(),
                old(self).window(),
                old(self)@,
                ip@,
                now as nat,
            ),
    {
        let key = ip.to_owned();
        let found = self.find(&key);
        let (count, start) = match found {
            Some(i) => (self.clients[i].requests, self.clients[i].window_start),
            None => (0, now),
        };
        proof {
            if found.is_none() {
                if self.windows@.contains_key(key@) {
                    let i = choose|i: int|
                        0 <= i < self.clients@.len() && #[trigger] self.clients@[i].id@ == key@;
                    assert(self.clients@[i].id@ != key@);
                }
            }
        }
        let elapsed = if now >= start {
            now - start
        } else {
            0
        };
        let (allowed, requests, window_start) = if elapsed > self.window {
            (true, 1, now)
        } else if count < self.max_requests {
            (true, count + 1, start)
        } else {
            (false, count, start)
        };
        let entry = ClientData { id: key, requests, window_start };
        let ghost old_clients = self.clients@;
        let ghost w = entry.window();
        match found {
            Some(i) => {
                self.clients.set(i, entry);
                proof {
                    assert forall|j: int| 0 <= j < self.clients@.len() implies #[trigger] self.clients@[j].id@ == old_clients[j].id@ by {}
                }
            },
            None => {
                self.clients.push(entry);
                proof {
                    assert forall|j: int| 0 <= j < old_clients.len() implies #[trigger] self.clients@[j] == old_clients[j] by {}
                }
            },
        }
        self.windows = Ghost(self.windows@.insert(key@, w));
        proof {
            let n = self.clients@.len();
            assert forall|k: Seq<char>| #[trigger] self.windows@.contains_key(k) implies exists|i: int|
                0 <= i < n && #[trigger] self.clients@[i].id@ == k by {
                if k == key@ {
                    let idx: int = match found { Some(i) => i as int, None => n - 1 };
                    assert(self.clients@[idx].id@ == k);
                } else {
                    assert(old(self).windows@.contains_key(k));
                    let i = choose|i: int|
                        0 <= i < old_clients.len() && #[trigger] old_clients[i].id@ == k;
                    assert(self.clients@[i].id@ == k);
                }
            }
        }
        allowed
    }
}

} // verus!
