//! The choice of the CELT version that clients are asked to use.
use vstd::prelude::*;

use crate::proto::{CodecVersion, ServerMessage};
use crate::state::{Client, Effects, ServerState};

verus! {

/// How often `x` occurs in `s`.
pub open spec fn count_in(s: Seq<i32>, x: i32) -> nat
    decreases s.len(),
{
    if s.len() == 0 {
        0
    } else {
        count_in(s.drop_last(), x) + if s.last() == x {
            1nat
        } else {
            0nat
        }
    }
}

/// How often `x` occurs among the codec versions that the clients list.
pub open spec fn total_count(cs: Seq<Client>, x: i32) -> nat
    decreases cs.len(),
{
    if cs.len() == 0 {
        0
    } else {
        total_count(cs.drop_last(), x) + count_in(cs.last().codecs@, x)
    }
}

/// A count held within the range of `u64`.
pub open spec fn sat(n: nat) -> u64 {
    if n > u64::MAX {
        u64::MAX
    } else {
        n as u64
    }
}

/// Some client lists a codec version.
pub open spec fn any_codec(cs: Seq<Client>) -> bool {
    exists|k: int| 0 <= k < cs.len() && (#[trigger] cs[k]).codecs@.len() > 0
}

/// `v` is listed at least as often as any other version.
pub open spec fn most_common(cs: Seq<Client>, v: i32) -> bool {
    forall|x: i32| #[trigger] sat(total_count(cs, x)) <= sat(total_count(cs, v))
}

proof fn lemma_count_zero_if_absent(cs: Seq<Client>, x: i32)
    requires
        !any_codec(cs),
    ensures
        total_count(cs, x) == 0,
    decreases cs.len(),
{
    if cs.len() > 0 {
        assert(cs.last().codecs@.len() == 0) by {
            if cs.last().codecs@.len() > 0 {
                assert(cs[cs.len() - 1].codecs@.len() > 0);
            }
        }
        assert(!any_codec(cs.drop_last())) by {
            if any_codec(cs.drop_last()) {
                let k = choose|k: int| 0 <= k < cs.drop_last().len() && (#[trigger] cs.drop_last()[k]).codecs@.len() > 0;
                assert(cs[k].codecs@.len() > 0);
            }
        }
        lemma_count_zero_if_absent(cs.drop_last(), x);
    }
}

proof fn lemma_count_positive(cs: Seq<Client>, k: int, m: int)
    requires
        0 <= k < cs.len(),
        0 <= m < cs[k].codecs@.len(),
    ensures
        total_count(cs, cs[k].codecs@[m]) > 0,
    decreases cs.len(),
{
    let x = cs[k].codecs@[m];
    if k == cs.len() - 1 {
        lemma_count_in_positive(cs[k].codecs@, m);
    } else {
        assert(cs.drop_last()[k] == cs[k]);
        lemma_count_positive(cs.drop_last(), k, m);
    }
}

proof fn lemma_count_in_positive(s: Seq<i32>, m: int)
    requires
        0 <= m < s.len(),
    ensures
        count_in(s, s[m]) > 0,
    decreases s.len(),
{
    if m < s.len() - 1 {
        assert(s.drop_last()[m] == s[m]);
        lemma_count_in_positive(s.drop_last(), m);
    }
}

fn count_list(s: &Vec<i32>, x: i32) -> (r: u64)
    ensures
        r == sat(count_in(s@, x)),
{
    let mut n: u64 = 0;
    let mut i: usize = 0;
    while i < s.len()
        invariant
            i <= s@.len(),
            n == sat(count_in(s@.subrange(0, i as int), x)),
        decreases s@.len() - i,
    {
        assert(s@.subrange(0, i + 1).drop_last() =~= s@.subrange(0, i as int));
        if s[i] == x && n < u64::MAX {
            n = n + 1;
        }
        i = i + 1;
    }
    assert(s@.subrange(0, i as int) =~= s@);
    n
}

impl ServerState {
    /// How often `x` is listed, held within `u64`.
    fn count_version(&self, x: i32) -> (r: u64)
        ensures
            r == sat(total_count(self.clients@, x)),
    {
        let mut n: u64 = 0;
        let mut k: usize = 0;
        while k < self.clients.len()
            invariant
                k <= self.clients@.len(),
                n == sat(total_count(self.clients@.subrange(0, k as int), x)),
            decreases self.clients@.len() - k,
        {
            assert(self.clients@.subrange(0, k + 1).drop_last() =~= self.clients@.subrange(0, k as int));
            let c = count_list(&self.clients[k].codecs, x);
            n = if n > u64::MAX - c {
                u64::MAX
            } else {
                n + c
            };
            k = k + 1;
        }
        assert(self.clients@.subrange(0, k as int) =~= self.clients@);
        n
    }

    /// Picks the most common codec version that clients list. Where it is
    /// the one preferred now, returns the current codec message; otherwise
    /// switches the preference to the other CELT slot, stores the version
    /// there, broadcasts the new codec message and returns `None`.
    pub fn check_codec(&mut self, effects: &mut Effects) -> (r: Option<CodecVersion>)
        requires
            old(self).wf(),
        ensures
            final(self).wf(),
            final(self).clients == old(self).clients,
            final(self).channels == old(self).channels,
            final(effects).direct == old(effects).direct,
            !any_codec(old(self).clients@) ==> r is Some,
            r matches Some(cv) ==> *final(self) == *old(self) && *final(effects) == *old(effects) && cv == old(
                self,
            ).codec_state.get_codec_version_spec() && (!any_codec(old(self).clients@) || most_common(
                old(self).clients@,
                old(self).codec_state.version(),
            )),
            r is None ==> {
                let cs = final(self).codec_state;
                &&& cs.prefer_alpha == !old(self).codec_state.prefer_alpha
                &&& cs.opus == old(self).codec_state.opus
                &&& (cs.prefer_alpha ==> cs.beta == old(self).codec_state.beta)
                &&& (!cs.prefer_alpha ==> cs.alpha == old(self).codec_state.alpha)
                &&& cs.version() != old(self).codec_state.version()
                &&& most_common(old(self).clients@, cs.version())
                &&& final(effects).broadcast@ == old(effects).broadcast@.push(
                    ServerMessage::CodecVersion(cs.get_codec_version_spec()),
                )
            },
    {
        let current = self.codec_state.get_version();
        let mut best = current;
        let mut best_n: u64 = 0;
        let mut k: usize = 0;
        while k < self.clients.len()
            invariant
                k <= self.clients@.len(),
                best_n == 0 ==> best == current,
                best_n == sat(total_count(self.clients@, best)) || (best_n == 0 && best == current),
                forall|q: int, m: int|
                    0 <= q < k && 0 <= m < self.clients@[q].codecs@.len() ==> sat(
                        total_count(self.clients@, #[trigger] self.clients@[q].codecs@[m]),
                    ) <= best_n,
                forall|q: int| 0 <= q < k ==> (#[trigger] self.clients@[q]).codecs@.len() > 0 ==> best_n > 0,
                best_n > 0 ==> any_codec(self.clients@),
            decreases self.clients@.len() - k,
        {
            let codecs = &self.clients[k].codecs;
            let mut m: usize = 0;
            while m < codecs.len()
                invariant
                    k < self.clients@.len(),
                    codecs == &self.clients@[k as int].codecs,
                    m <= codecs@.len(),
                    best_n == 0 ==> best == current,
                    best_n == sat(total_count(self.clients@, best)) || (best_n == 0 && best == current),
                    forall|q: int, j: int|
                        0 <= q < k && 0 <= j < self.clients@[q].codecs@.len() ==> sat(
                            total_count(self.clients@, #[trigger] self.clients@[q].codecs@[j]),
                        ) <= best_n,
                    forall|j: int| 0 <= j < m ==> sat(total_count(self.clients@, #[trigger] codecs@[j])) <= best_n,
                    forall|q: int| 0 <= q < k ==> (#[trigger] self.clients@[q]).codecs@.len() > 0 ==> best_n > 0,
                    m > 0 ==> best_n > 0,
                    best_n > 0 ==> any_codec(self.clients@),
                decreases codecs@.len() - m,
            {
                let v = codecs[m];
                let n = self.count_version(v);
                proof {
                    lemma_count_positive(self.clients@, k as int, m as int);
                }
                if n > best_n {
                    best = v;
                    best_n = n;
                    assert(self.clients@[k as int].codecs@.len() > 0);
                }
                m = m + 1;
            }
            k = k + 1;
        }
        proof {
            if any_codec(self.clients@) {
                let q = choose|q: int| 0 <= q < self.clients@.len() && (#[trigger] self.clients@[q]).codecs@.len() > 0;
                assert(best_n > 0);
                assert forall|x: i32| #[trigger] sat(total_count(self.clients@, x)) <= sat(total_count(self.clients@, best)) by {
                    if total_count(self.clients@, x) > 0 {
                        lemma_occurs(self.clients@, x);
                    }
                }
            }
        }
        if best == current {
            return Some(self.codec_state.get_codec_version());
        }
        assert(any_codec(self.clients@)) by {
            if !any_codec(self.clients@) {
                lemma_count_zero_if_absent(self.clients@, best);
            }
        }
        self.codec_state.prefer_alpha = !self.codec_state.prefer_alpha;
        if self.codec_state.prefer_alpha {
            self.codec_state.alpha = best;
        } else {
            self.codec_state.beta = best;
        }
        let cv = self.codec_state.get_codec_version();
        effects.broadcast.push(ServerMessage::CodecVersion(cv));
        None
    }
}

/// A version that is counted is listed by some client.
proof fn lemma_occurs(cs: Seq<Client>, x: i32)
    requires
        total_count(cs, x) > 0,
    ensures
        exists|q: int, m: int| 0 <= q < cs.len() && 0 <= m < cs[q].codecs@.len() && #[trigger] cs[q].codecs@[m] == x,
    decreases cs.len(),
{
    if count_in(cs.last().codecs@, x) > 0 {
        lemma_occurs_in(cs.last().codecs@, x);
        let m = choose|m: int| 0 <= m < cs.last().codecs@.len() && cs.last().codecs@[m] == x;
        assert(cs[cs.len() - 1].codecs@[m] == x);
    } else {
        lemma_occurs(cs.drop_last(), x);
        let (q, m) = choose|q: int, m: int| 0 <= q < cs.drop_last().len() && 0 <= m < cs.drop_last()[q].codecs@.len() && #[trigger] cs.drop_last()[q].codecs@[m] == x;
        assert(cs[q].codecs@[m] == x);
    }
}

proof fn lemma_occurs_in(s: Seq<i32>, x: i32)
    requires
        count_in(s, x) > 0,
    ensures
        exists|m: int| 0 <= m < s.len() && s[m] == x,
    decreases s.len(),
{
    if s.last() == x {
        assert(s[s.len() - 1] == x);
    } else {
        lemma_occurs_in(s.drop_last(), x);
        let m = choose|m: int| 0 <= m < s.drop_last().len() && s.drop_last()[m] == x;
        assert(s[m] == x);
    }
}

} // verus!
