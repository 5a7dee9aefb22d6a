//! The periodic sweep that ends the sessions of clients that stopped pinging.
use vstd::prelude::*;

use crate::state::{sessions_of, ClientMessage, Outbound, ServerState};

verus! {

/// How long a client may go without a ping, in milliseconds.
pub const PING_TIMEOUT_MS: u64 = 60_000;

/// How often the sweep runs, in milliseconds.
pub const CLEAN_INTERVAL_MS: u64 = 5_000;

impl ServerState {
    /// Client `i` has not pinged for more than `PING_TIMEOUT_MS` at `now`.
    pub open spec fn ping_timed_out(&self, i: int, now: u64) -> bool {
        now >= self.clients@[i].last_ping && now - self.clients@[i].last_ping > PING_TIMEOUT_MS
    }

    /// One sweep at `now`: a `Disconnect` for each client whose last ping is
    /// more than a minute old, in the order of the clients.
    pub fn clean_run(&self, now: u64) -> (r: Vec<Outbound>)
        ensures
            forall|k: int| 0 <= k < r@.len() ==> (#[trigger] r@[k]).message == ClientMessage::Disconnect,
            forall|s: u32|
                #[trigger] sessions_of(r@).contains(s) <==> exists|i: int|
                    0 <= i < self.clients@.len() && #[trigger] self.clients@[i].session_id == s
                        && self.ping_timed_out(i, now),
    {
        let mut out: Vec<Outbound> = Vec::new();
        let mut i: usize = 0;
        while i < self.clients.len()
            invariant
                i <= self.clients@.len(),
                forall|k: int| 0 <= k < out@.len() ==> (#[trigger] out@[k]).message == ClientMessage::Disconnect,
                forall|s: u32|
                    #[trigger] sessions_of(out@).contains(s) <==> exists|m: int|
                        0 <= m < i && #[trigger] self.clients@[m].session_id == s
                            && self.ping_timed_out(m, now),
            decreases self.clients@.len() - i,
        {
            let c = &self.clients[i];
            let ghost old_out = out@;
            let hit = now >= c.last_ping && now - c.last_ping > PING_TIMEOUT_MS;
            if hit {
                out.push(Outbound { session_id: c.session_id, message: ClientMessage::Disconnect });
                assert(sessions_of(out@) =~= sessions_of(old_out).push(c.session_id));
            } else {
                assert(sessions_of(out@) =~= sessions_of(old_out));
            }
            i = i + 1;
            assert forall|s: u32|
                #[trigger] sessions_of(out@).contains(s) <==> exists|m: int|
                    0 <= m < i && #[trigger] self.clients@[m].session_id == s
                        && self.ping_timed_out(m, now) by {
                assert(sessions_of(old_out).contains(s) <==> exists|m: int|
                    0 <= m < i - 1 && #[trigger] self.clients@[m].session_id == s
                        && self.ping_timed_out(m, now));
                if hit {
                    assert(sessions_of(out@).contains(s) <==> sessions_of(old_out).contains(s) || s == self.clients@[i - 1].session_id) by {
                        if s == self.clients@[i - 1].session_id {
                            assert(sessions_of(out@)[sessions_of(old_out).len() as int] == s);
                        }
                        if sessions_of(old_out).contains(s) {
                            let w = choose|w: int| 0 <= w < sessions_of(old_out).len() && sessions_of(old_out)[w] == s;
                            assert(sessions_of(out@)[w] == s);
                        }
                        if sessions_of(out@).contains(s) {
                            let w = choose|w: int| 0 <= w < sessions_of(out@).len() && sessions_of(out@)[w] == s;
                            if w < sessions_of(old_out).len() {
                                assert(sessions_of(old_out)[w] == s);
                            }
                        }
                    }
                }
            }
        }
        out
    }
}

} // verus!
