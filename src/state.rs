//! The server's clients, channels and codec choice, and the rules that route
//! voice between clients.
use vstd::prelude::*;

use crate::crypt::CryptState;
use crate::proto::{ChannelState, CodecVersion, ServerMessage, UserState};
use crate::voice::{Clientbound, VoicePacket};

verus! {

/// A UDP peer: an IPv6 address (IPv4 mapped) and a port.
#[derive(Clone, Copy, Debug, PartialEq, Eq, Structural)]
pub struct PeerAddr {
    pub ip: u128,
    pub port: u16,
}

/// A whisper slot: the sessions and channels that hear audio sent to it.
pub struct VoiceTarget {
    pub sessions: Vec<u32>,
    pub channels: Vec<u32>,
}

impl VoiceTarget {
    /// An empty slot.
    pub fn new() -> (r: Self)
        ensures
            r.sessions@ == Seq::<u32>::empty(),
            r.channels@ == Seq::<u32>::empty(),
    {
        VoiceTarget { sessions: Vec::new(), channels: Vec::new() }
    }
}

/// A node of the channel tree.
pub struct Channel {
    pub id: u32,
    pub parent_id: Option<u32>,
    pub name: String,
    pub description: String,
    pub temporary: bool,
    /// Sessions that hear the channel without being in it.
    pub listeners: Vec<u32>,
}

impl Channel {
    /// A channel without listeners.
    pub fn new(id: u32, parent_id: Option<u32>, name: String, description: String, temporary: bool) -> (r: Self)
        ensures
            r.id == id,
            r.parent_id == parent_id,
            r.name@ == name@,
            r.description@ == description@,
            r.temporary == temporary,
            r.listeners@ == Seq::<u32>::empty(),
    {
        Channel { id, parent_id, name, description, temporary, listeners: Vec::new() }
    }

    /// The channel's description as sent to clients; its position is its id.
    pub fn get_channel_state(&self) -> (r: ChannelState)
        ensures
            r.channel_id == Some(self.id),
            r.name matches Some(n) && n@ == self.name@,
            r.description matches Some(d) && d@ == self.description@,
            r.parent == self.parent_id,
            r.temporary == Some(self.temporary),
            r.position == Some(self.id as i32),
    {
        ChannelState {
            channel_id: Some(self.id),
            parent: self.parent_id,
            name: Some(self.name.clone()),
            description: Some(self.description.clone()),
            temporary: Some(self.temporary),
            position: Some(#[verifier::truncate] (self.id as i32)),
        }
    }
}

/// The codec versions in use, and which of the two CELT versions is preferred.
pub struct CodecState {
    pub opus: bool,
    pub alpha: i32,
    pub beta: i32,
    pub prefer_alpha: bool,
}

impl Default for CodecState {
    fn default() -> (r: Self)
        ensures
            r.opus && r.alpha == 0 && r.beta == 0 && !r.prefer_alpha,
    {
        CodecState::new()
    }
}

impl CodecState {
    /// Opus on, no CELT version chosen.
    pub fn new() -> (r: Self)
        ensures
            r.opus && r.alpha == 0 && r.beta == 0 && !r.prefer_alpha,
    {
        CodecState { opus: true, alpha: 0, beta: 0, prefer_alpha: false }
    }

    pub open spec fn version(&self) -> i32 {
        if self.prefer_alpha {
            self.alpha
        } else {
            self.beta
        }
    }

    /// The preferred CELT version.
    pub fn get_version(&self) -> (r: i32)
        ensures
            r == self.version(),
    {
        if self.prefer_alpha {
            return self.alpha;
        }
        self.beta
    }

    pub open spec fn get_codec_version_spec(&self) -> CodecVersion {
        CodecVersion {
            alpha: self.alpha,
            beta: self.beta,
            prefer_alpha: self.prefer_alpha,
            opus: self.opus,
        }
    }

    /// The message that tells clients which codecs to use.
    pub fn get_codec_version(&self) -> (r: CodecVersion)
        ensures
            r == self.get_codec_version_spec(),
    {
        CodecVersion {
            alpha: self.alpha,
            beta: self.beta,
            prefer_alpha: self.prefer_alpha,
            opus: self.opus,
        }
    }
}

/// A connected client.
pub struct Client {
    pub session_id: u32,
    pub channel_id: u32,
    /// The user name given at authentication.
    pub name: String,
    pub tokens: Vec<String>,
    pub mute: bool,
    pub deaf: bool,
    pub use_opus: bool,
    pub codecs: Vec<i32>,
    pub crypt_state: CryptState,
    /// The peer that the client's voice datagrams come from, once one decrypted.
    pub udp_peer: Option<PeerAddr>,
    /// The 30 whisper slots; wire target `t` is slot `t - 1`.
    pub targets: Vec<VoiceTarget>,
    /// When the client last pinged, in milliseconds.
    pub last_ping: u64,
}

/// Number of whisper slots of a client.
pub const TARGET_SLOTS: usize = 30;

/// What a client's session is told to do.
pub enum ClientMessage {
    /// Route this packet from the client to its listeners.
    RouteVoicePacket(VoicePacket<Clientbound>),
    /// Send this packet to the client.
    SendVoicePacket(VoicePacket<Clientbound>),
    /// Send this control message to the client.
    SendMessage(ServerMessage),
    /// End the client's session.
    Disconnect,
}

/// A message for the session of client `session_id`.
pub struct Outbound {
    pub session_id: u32,
    pub message: ClientMessage,
}

/// The sessions that a list of messages goes to, in order.
pub open spec fn sessions_of(v: Seq<Outbound>) -> Seq<u32> {
    v.map_values(|o: Outbound| o.session_id)
}

/// What a step of the server asks to be sent: messages for single sessions,
/// and control messages for every connected client.
pub struct Effects {
    pub direct: Vec<Outbound>,
    pub broadcast: Vec<ServerMessage>,
}

impl Effects {
    /// Nothing to send.
    pub fn new() -> (r: Self)
        ensures
            r.direct@.len() == 0,
            r.broadcast@.len() == 0,
    {
        Effects { direct: Vec::new(), broadcast: Vec::new() }
    }
}

/// The whole state of the server.
pub struct ServerState {
    pub clients: Vec<Client>,
    pub channels: Vec<Channel>,
    pub codec_state: CodecState,
}

impl ServerState {
    /// Session ids and channel ids are unique, every client has its 30
    /// whisper slots and a well-formed crypt state and is in a channel that
    /// exists, the root channel is there, and no UDP peer is bound twice.
    pub open spec fn wf(&self) -> bool {
        &&& forall|i: int, j: int|
            0 <= i < j < self.clients@.len() ==> #[trigger] self.clients@[i].session_id
                != #[trigger] self.clients@[j].session_id
        &&& forall|i: int, j: int|
            0 <= i < j < self.channels@.len() ==> #[trigger] self.channels@[i].id
                != #[trigger] self.channels@[j].id
        &&& forall|i: int|
            0 <= i < self.clients@.len() ==> (#[trigger] self.clients@[i]).targets@.len()
                == TARGET_SLOTS && self.clients@[i].crypt_state.wf()
        &&& forall|i: int|
            0 <= i < self.clients@.len() ==> self.has_channel((#[trigger] self.clients@[i]).channel_id)
        &&& self.root_ok()
        &&& self.peers_unique()
    }

    /// No two clients are bound to the same UDP peer.
    pub open spec fn peers_unique(&self) -> bool {
        forall|i: int, j: int|
            0 <= i < j < self.clients@.len() && self.clients@[i].udp_peer is Some ==> #[trigger] self.clients@[i].udp_peer
                != #[trigger] self.clients@[j].udp_peer
    }

    /// The root channel, 0, is there and is not temporary.
    pub open spec fn root_ok(&self) -> bool {
        exists|j: int| 0 <= j < self.channels@.len() && (#[trigger] self.channels@[j]).id == 0 && !self.channels@[j].temporary
    }

    pub open spec fn has_client(&self, s: u32) -> bool {
        exists|i: int| 0 <= i < self.clients@.len() && #[trigger] self.clients@[i].session_id == s
    }

    pub open spec fn has_channel(&self, c: u32) -> bool {
        exists|j: int| 0 <= j < self.channels@.len() && #[trigger] self.channels@[j].id == c
    }

    /// The sessions whose client is in channel `c`.
    pub open spec fn members(&self, c: u32) -> Set<u32> {
        Set::new(
            |s: u32|
                exists|i: int|
                    0 <= i < self.clients@.len() && #[trigger] self.clients@[i].session_id == s
                        && self.clients@[i].channel_id == c,
        )
    }

    /// Who hears channel `c`: its members and the connected sessions among
    /// its listeners; nobody where there is no such channel.
    pub open spec fn listeners_of(&self, c: u32) -> Set<u32> {
        Set::new(
            |s: u32|
                self.has_channel(c) && (self.members(c).contains(s) || (self.has_client(s)
                    && exists|j: int|
                    0 <= j < self.channels@.len() && #[trigger] self.channels@[j].id == c
                        && self.channels@[j].listeners@.contains(s))),
        )
    }

    /// Who hears whisper slot `t`: its connected sessions and everyone who
    /// hears one of its channels.
    pub open spec fn whisper_set(&self, t: VoiceTarget) -> Set<u32> {
        Set::new(
            |s: u32|
                (t.sessions@.contains(s) && self.has_client(s)) || exists|k: int|
                    0 <= k < t.channels@.len() && #[trigger] self.listeners_of(
                        t.channels@[k],
                    ).contains(s),
        )
    }

    /// Who receives audio that client `i` sends to wire target `target`:
    /// loopback reaches the sender alone, whatever its mute; a muted sender
    /// reaches nobody else; channel talk and whisper reach their hearers but
    /// the sender; other targets reach nobody.
    pub open spec fn recipients(&self, i: int, target: u8) -> Set<u32> {
        let c = self.clients@[i];
        if target == 31 {
            set![c.session_id]
        } else if c.mute {
            Set::empty()
        } else if target == 0 {
            self.listeners_of(c.channel_id).remove(c.session_id)
        } else if target <= 30 {
            self.whisper_set(c.targets@[target - 1]).remove(c.session_id)
        } else {
            Set::empty()
        }
    }
}


fn contains_u32(v: &Vec<u32>, x: u32) -> (r: bool)
    ensures
        r == v@.contains(x),
{
    let mut i: usize = 0;
    while i < v.len()
        invariant
            i <= v@.len(),
            forall|k: int| 0 <= k < i ==> v@[k] != x,
        decreases v@.len() - i,
    {
        if v[i] == x {
            return true;
        }
        i = i + 1;
    }
    false
}

/// Adds `x` to the set that `v` holds.
fn push_unique(v: &mut Vec<u32>, x: u32)
    requires
        old(v)@.no_duplicates(),
    ensures
        final(v)@.no_duplicates(),
        final(v)@.to_set() == old(v)@.to_set().insert(x),
{
    if !contains_u32(v, x) {
        v.push(x);
        assert(final(v)@.to_set() =~= old(v)@.to_set().insert(x)) by {
            assert forall|y: u32| final(v)@.contains(y) <==> old(v)@.contains(y) || y == x by {
                if final(v)@.contains(y) {
                    let k = choose|k: int| 0 <= k < final(v)@.len() && final(v)@[k] == y;
                    if k < old(v)@.len() {
                        assert(old(v)@[k] == y);
                    }
                }
                if old(v)@.contains(y) {
                    let k = choose|k: int| 0 <= k < old(v)@.len() && old(v)@[k] == y;
                    assert(final(v)@[k] == y);
                }
                if y == x {
                    assert(final(v)@[old(v)@.len() as int] == x);
                }
            }
        }
    } else {
        assert(old(v)@.to_set() =~= old(v)@.to_set().insert(x));
    }
}

impl ServerState {
    /// The index of the client with session `s`.
    pub fn client_index(&self, s: u32) -> (r: Option<usize>)
        requires
            self.wf(),
        ensures
            r matches Some(i) ==> i < self.clients@.len() && self.clients@[i as int].session_id == s,
            r is None ==> !self.has_client(s),
    {
        let mut i: usize = 0;
        while i < self.clients.len()
            invariant
                i <= self.clients@.len(),
                forall|k: int| 0 <= k < i ==> self.clients@[k].session_id != s,
            decreases self.clients@.len() - i,
        {
            if self.clients[i].session_id == s {
                return Some(i);
            }
            i = i + 1;
        }
        None
    }

    /// The index of the channel with id `c`.
    pub fn channel_index(&self, c: u32) -> (r: Option<usize>)
        requires
            self.wf(),
        ensures
            r matches Some(j) ==> j < self.channels@.len() && self.channels@[j as int].id == c,
            r is None ==> !self.has_channel(c),
    {
        let mut j: usize = 0;
        while j < self.channels.len()
            invariant
                j <= self.channels@.len(),
                forall|k: int| 0 <= k < j ==> self.channels@[k].id != c,
            decreases self.channels@.len() - j,
        {
            if self.channels[j].id == c {
                return Some(j);
            }
            j = j + 1;
        }
        None
    }

    /// Adds everyone who hears channel `c` to the set that `out` holds.
    fn add_listeners(&self, c: u32, out: &mut Vec<u32>)
        requires
            self.wf(),
            old(out)@.no_duplicates(),
        ensures
            final(out)@.no_duplicates(),
            final(out)@.to_set() == old(out)@.to_set().union(self.listeners_of(c)),
    {
        let ghost start = out@.to_set();
        let j = match self.channel_index(c) {
            None => {
                assert(self.listeners_of(c) =~= Set::empty());
                assert(start.union(self.listeners_of(c)) =~= start);
                return;
            },
            Some(j) => j,
        };
        let mut i: usize = 0;
        while i < self.clients.len()
            invariant
                self.wf(),
                i <= self.clients@.len(),
                out@.no_duplicates(),
                out@.to_set() == start.union(
                    Set::new(
                        |s: u32|
                            exists|k: int|
                                0 <= k < i && #[trigger] self.clients@[k].session_id == s
                                    && self.clients@[k].channel_id == c,
                    ),
                ),
            decreases self.clients@.len() - i,
        {
            let ghost before = out@.to_set();
            if self.clients[i].channel_id == c {
                push_unique(out, self.clients[i].session_id);
            }
            i = i + 1;
            assert(out@.to_set() =~= start.union(
                Set::new(
                    |s: u32|
                        exists|k: int|
                            0 <= k < i && #[trigger] self.clients@[k].session_id == s
                                && self.clients@[k].channel_id == c,
                ),
            )) by {
                assert forall|s: u32|
                    (exists|k: int|
                        0 <= k < i && #[trigger] self.clients@[k].session_id == s
                            && self.clients@[k].channel_id == c) ==> out@.to_set().contains(s) by {
                    if exists|k: int|
                        0 <= k < i && #[trigger] self.clients@[k].session_id == s
                            && self.clients@[k].channel_id == c {
                        let k = choose|k: int|
                            0 <= k < i && #[trigger] self.clients@[k].session_id == s
                                && self.clients@[k].channel_id == c;
                        if k < i - 1 {
                            assert(before.contains(s));
                        }
                    }
                }
            }
        }
        assert(Set::new(
            |s: u32|
                exists|k: int|
                    0 <= k < self.clients@.len() && #[trigger] self.clients@[k].session_id == s
                        && self.clients@[k].channel_id == c,
        ) =~= self.members(c));
        let ghost mid = out@.to_set();
        let listeners = &self.channels[j].listeners;
        let mut m: usize = 0;
        while m < listeners.len()
            invariant
                self.wf(),
                j < self.channels@.len(),
                listeners == &self.channels@[j as int].listeners,
                m <= listeners@.len(),
                out@.no_duplicates(),
                out@.to_set() == mid.union(
                    Set::new(
                        |s: u32|
                            (exists|k: int| 0 <= k < m && #[trigger] listeners@[k] == s)
                                && self.has_client(s),
                    ),
                ),
            decreases listeners@.len() - m,
        {
            let l = listeners[m];
            let ghost before = out@.to_set();
            match self.client_index(l) {
                Some(_) => {
                    push_unique(out, l);
                },
                None => {},
            }
            m = m + 1;
            assert(out@.to_set() =~= mid.union(
                Set::new(
                    |s: u32|
                        (exists|k: int| 0 <= k < m && #[trigger] listeners@[k] == s)
                            && self.has_client(s),
                ),
            )) by {
                assert forall|s: u32|
                    (exists|k: int| 0 <= k < m && #[trigger] listeners@[k] == s) && self.has_client(
                        s,
                    ) implies out@.to_set().contains(s) by {
                    let k = choose|k: int| 0 <= k < m && #[trigger] listeners@[k] == s;
                    if k < m - 1 {
                        assert(before.contains(s));
                    }
                }
                assert forall|s: u32|
                    out@.to_set().contains(s) && !mid.contains(s) implies (exists|k: int|
                        0 <= k < m && #[trigger] listeners@[k] == s) && self.has_client(s) by {
                    if !before.contains(s) {
                        assert(s == l);
                        assert(listeners@[m - 1] == s);
                    }
                }
            }
        }
        assert(out@.to_set() =~= start.union(self.listeners_of(c))) by {
            assert forall|s: u32| self.listeners_of(c).contains(s) implies out@.to_set().contains(s) by {
                if !self.members(c).contains(s) {
                    let jj = choose|jj: int|
                        0 <= jj < self.channels@.len() && #[trigger] self.channels@[jj].id == c
                            && self.channels@[jj].listeners@.contains(s);
                    assert(jj == j as int);
                    let k = choose|k: int| 0 <= k < listeners@.len() && listeners@[k] == s;
                    assert(listeners@[k] == s);
                }
            }
            assert forall|s: u32| out@.to_set().contains(s) && !start.contains(s) implies self.listeners_of(c).contains(s) by {
                assert(self.channels@[j as int].id == c);
                assert(self.has_channel(c));
                if !mid.contains(s) {
                    let k = choose|k: int| 0 <= k < listeners@.len() && #[trigger] listeners@[k] == s;
                    assert(self.channels@[j as int].listeners@.contains(s));
                }
            }
        }
    }
}

impl ServerState {
    /// Adds everyone who hears whisper slot `t` to the set that `out` holds.
    fn add_whisper(&self, t: &VoiceTarget, out: &mut Vec<u32>)
        requires
            self.wf(),
            old(out)@.no_duplicates(),
        ensures
            final(out)@.no_duplicates(),
            final(out)@.to_set() == old(out)@.to_set().union(self.whisper_set(*t)),
    {
        let ghost start = out@.to_set();
        let mut i: usize = 0;
        while i < t.sessions.len()
            invariant
                self.wf(),
                i <= t.sessions@.len(),
                out@.no_duplicates(),
                out@.to_set() == start.union(
                    Set::new(
                        |s: u32|
                            (exists|k: int| 0 <= k < i && #[trigger] t.sessions@[k] == s)
                                && self.has_client(s),
                    ),
                ),
            decreases t.sessions@.len() - i,
        {
            let x = t.sessions[i];
            let ghost before = out@.to_set();
            match self.client_index(x) {
                Some(_) => {
                    push_unique(out, x);
                },
                None => {},
            }
            i = i + 1;
            assert(out@.to_set() =~= start.union(
                Set::new(
                    |s: u32|
                        (exists|k: int| 0 <= k < i && #[trigger] t.sessions@[k] == s)
                            && self.has_client(s),
                ),
            )) by {
                assert forall|s: u32|
                    (exists|k: int| 0 <= k < i && #[trigger] t.sessions@[k] == s) && self.has_client(
                        s,
                    ) implies out@.to_set().contains(s) by {
                    let k = choose|k: int| 0 <= k < i && #[trigger] t.sessions@[k] == s;
                    if k < i - 1 {
                        assert(before.contains(s));
                    }
                }
                assert forall|s: u32|
                    out@.to_set().contains(s) && !start.contains(s) implies (exists|k: int|
                        0 <= k < i && #[trigger] t.sessions@[k] == s) && self.has_client(s) by {
                    if !before.contains(s) {
                        assert(t.sessions@[i - 1] == s);
                    }
                }
            }
        }
        let ghost mid = out@.to_set();
        let mut m: usize = 0;
        while m < t.channels.len()
            invariant
                self.wf(),
                m <= t.channels@.len(),
                out@.no_duplicates(),
                out@.to_set() == mid.union(
                    Set::new(
                        |s: u32|
                            exists|k: int|
                                0 <= k < m && #[trigger] self.listeners_of(t.channels@[k]).contains(
                                    s,
                                ),
                    ),
                ),
            decreases t.channels@.len() - m,
        {
            let ghost before = out@.to_set();
            self.add_listeners(t.channels[m], out);
            m = m + 1;
            assert(out@.to_set() =~= mid.union(
                Set::new(
                    |s: u32|
                        exists|k: int|
                            0 <= k < m && #[trigger] self.listeners_of(t.channels@[k]).contains(s),
                ),
            )) by {
                assert forall|s: u32|
                    (exists|k: int|
                        0 <= k < m && #[trigger] self.listeners_of(t.channels@[k]).contains(
                            s,
                        )) implies out@.to_set().contains(s) by {
                    let k = choose|k: int|
                        0 <= k < m && #[trigger] self.listeners_of(t.channels@[k]).contains(s);
                    if k < m - 1 {
                        assert(before.contains(s));
                    }
                }
                assert forall|s: u32|
                    out@.to_set().contains(s) && !mid.contains(s) implies (exists|k: int|
                        0 <= k < m && #[trigger] self.listeners_of(t.channels@[k]).contains(s)) by {
                    if !before.contains(s) {
                        assert(self.listeners_of(t.channels@[m - 1]).contains(s));
                    }
                }
            }
        }
        assert(out@.to_set() =~= start.union(self.whisper_set(*t)));
    }

    /// The sessions that receive audio that client `i` sends to wire target `target`.
    pub fn recipients_of(&self, i: usize, target: u8) -> (r: Vec<u32>)
        requires
            self.wf(),
            i < self.clients@.len(),
        ensures
            r@.no_duplicates(),
            r@.to_set() == self.recipients(i as int, target),
    {
        let c = &self.clients[i];
        let mut all: Vec<u32> = Vec::new();
        if target == 31 {
            all.push(c.session_id);
            assert(all@.to_set() =~= set![c.session_id]) by {
                assert(all@[0] == c.session_id);
            }
            return all;
        }
        if c.mute || target > 30 {
            assert(all@.to_set() =~= Set::<u32>::empty());
            return all;
        }
        assert(all@.to_set() =~= Set::<u32>::empty());
        if target == 0 {
            self.add_listeners(c.channel_id, &mut all);
        } else {
            self.add_whisper(&c.targets[(target - 1) as usize], &mut all);
        }
        let ghost heard = all@.to_set();
        let mut r: Vec<u32> = Vec::new();
        let mut k: usize = 0;
        while k < all.len()
            invariant
                k <= all@.len(),
                all@.no_duplicates(),
                r@.no_duplicates(),
                r@.to_set() == Set::new(
                    |s: u32| (exists|m: int| 0 <= m < k && #[trigger] all@[m] == s) && s != c.session_id,
                ),
            decreases all@.len() - k,
        {
            let x = all[k];
            let ghost before = r@.to_set();
            if x != c.session_id {
                push_unique(&mut r, x);
            }
            k = k + 1;
            assert(r@.to_set() =~= Set::new(
                |s: u32| (exists|m: int| 0 <= m < k && #[trigger] all@[m] == s) && s != c.session_id,
            )) by {
                assert forall|s: u32|
                    (exists|m: int| 0 <= m < k && #[trigger] all@[m] == s) && s != c.session_id
                        implies r@.to_set().contains(s) by {
                    let m = choose|m: int| 0 <= m < k && #[trigger] all@[m] == s;
                    if m < k - 1 {
                        assert(before.contains(s));
                    }
                }
                assert forall|s: u32| r@.to_set().contains(s) implies (exists|m: int|
                    0 <= m < k && #[trigger] all@[m] == s) && s != c.session_id by {
                    if !before.contains(s) {
                        assert(all@[k - 1] == s);
                    }
                }
            }
        }
        assert(r@.to_set() =~= heard.remove(c.session_id));
        r
    }

    /// The voice router: the packet that client `sender` sent, addressed to
    /// each of its recipients. A ping or an unknown sender reaches nobody.
    pub fn route_voice_packet(&self, sender: u32, packet: &VoicePacket<Clientbound>) -> (r: Vec<
        Outbound,
    >)
        requires
            self.wf(),
        ensures
            forall|k: int|
                0 <= k < r@.len() ==> ((#[trigger] r@[k]).message matches ClientMessage::SendVoicePacket(p)
                    && p@ == packet@),
            match packet {
                VoicePacket::Audio { target, .. } => match self.client_index_spec(sender) {
                    Some(i) => r@.map_values(|o: Outbound| o.session_id).to_set() == self.recipients(
                        i,
                        *target,
                    ) && r@.map_values(|o: Outbound| o.session_id).no_duplicates(),
                    None => r@.len() == 0,
                },
                VoicePacket::Ping { .. } => r@.len() == 0,
            },
    {
        let mut out: Vec<Outbound> = Vec::new();
        let target = match packet {
            VoicePacket::Audio { target, .. } => *target,
            VoicePacket::Ping { .. } => {
                return out;
            },
        };
        let i = match self.client_index(sender) {
            Some(i) => i,
            None => {
                return out;
            },
        };
        proof {
            self.lemma_client_index_spec(sender, i as int);
        }
        let who = self.recipients_of(i, target);
        let mut k: usize = 0;
        while k < who.len()
            invariant
                k <= who@.len(),
                out@.len() == k,
                forall|m: int| 0 <= m < k ==> (#[trigger] out@[m]).session_id == who@[m],
                forall|m: int|
                    0 <= m < k ==> ((#[trigger] out@[m]).message matches ClientMessage::SendVoicePacket(p)
                        && p@ == packet@),
            decreases who@.len() - k,
        {
            out.push(Outbound { session_id: who[k], message: ClientMessage::SendVoicePacket(packet.duplicate()) });
            k = k + 1;
        }
        assert(out@.map_values(|o: Outbound| o.session_id) =~= who@);
        out
    }

    /// The index of the client with session `s`, if any.
    pub open spec fn client_index_spec(&self, s: u32) -> Option<int> {
        if self.has_client(s) {
            Some(choose|i: int| 0 <= i < self.clients@.len() && #[trigger] self.clients@[i].session_id == s)
        } else {
            None
        }
    }

    pub proof fn lemma_client_index_spec(&self, s: u32, i: int)
        requires
            self.wf(),
            0 <= i < self.clients@.len(),
            self.clients@[i].session_id == s,
        ensures
            self.client_index_spec(s) == Some(i),
    {
        let j = choose|j: int| 0 <= j < self.clients@.len() && #[trigger] self.clients@[j].session_id == s;
        if j != i {
            if j < i {
                assert(self.clients@[j].session_id != self.clients@[i].session_id);
            } else {
                assert(self.clients@[i].session_id != self.clients@[j].session_id);
            }
        }
    }
}

/// The lowest positive id that `used` does not hold, if one below `u32::MAX` is free.
pub open spec fn lowest_free(used: spec_fn(u32) -> bool, r: Option<u32>) -> bool {
    match r {
        Some(id) => 0 < id && !used(id) && forall|x: u32| 0 < x < id ==> #[trigger] used(x),
        None => forall|x: u32| 0 < x < u32::MAX ==> #[trigger] used(x),
    }
}

impl ServerState {
    /// A server with only the root channel, 0, named "Root".
    pub fn new() -> (r: Self)
        ensures
            r.wf(),
            r.clients@.len() == 0,
            r.channels@.len() == 1,
            r.channels@[0].id == 0,
            r.channels@[0].parent_id is None,
            !r.channels@[0].temporary,
            r.channels@[0].name@ == "Root"@,
    {
        let mut channels: Vec<Channel> = Vec::new();
        channels.push(Channel::new(0, None, "Root".to_string(), "Root channel".to_string(), false));
        ServerState { clients: Vec::new(), channels, codec_state: CodecState::new() }
    }

    /// The lowest positive session id that no client holds.
    pub fn get_free_session_id(&self) -> (r: Option<u32>)
        requires
            self.wf(),
        ensures
            lowest_free(|x: u32| self.has_client(x), r),
    {
        let mut id: u32 = 1;
        loop
            invariant
                self.wf(),
                0 < id < u32::MAX,
                forall|x: u32| 0 < x < id ==> #[trigger] self.has_client(x),
            decreases u32::MAX - id,
        {
            match self.client_index(id) {
                None => {
                    return Some(id);
                },
                Some(_) => {
                    if id == u32::MAX - 1 {
                        assert forall|x: u32| 0 < x < u32::MAX implies #[trigger] self.has_client(x) by {
                            if x == id {
                            }
                        }
                        return None;
                    }
                    id = id + 1;
                },
            }
        }
    }

    /// The lowest positive channel id that no channel holds.
    pub fn get_free_channel_id(&self) -> (r: Option<u32>)
        requires
            self.wf(),
        ensures
            lowest_free(|x: u32| self.has_channel(x), r),
            r is None ==> forall|x: u32| 0 < x < u32::MAX ==> #[trigger] self.has_channel(x),
            r matches Some(id) ==> !self.has_channel(id) && 0 < id && forall|x: u32| 0 < x < id ==> #[trigger] self.has_channel(x),
    {
        let mut id: u32 = 1;
        loop
            invariant
                self.wf(),
                0 < id < u32::MAX,
                forall|x: u32| 0 < x < id ==> #[trigger] self.has_channel(x),
            decreases u32::MAX - id,
        {
            match self.channel_index(id) {
                None => {
                    return Some(id);
                },
                Some(_) => {
                    if id == u32::MAX - 1 {
                        assert forall|x: u32| 0 < x < u32::MAX implies #[trigger] self.has_channel(x) by {
                            if x == id {
                            }
                        }
                        return None;
                    }
                    id = id + 1;
                },
            }
        }
    }

    /// Registers a client in the root channel under the lowest free session id.
    pub fn add_client(
        &mut self,
        name: String,
        tokens: Vec<String>,
        use_opus: bool,
        codecs: Vec<i32>,
        crypt_state: CryptState,
        now: u64,
    ) -> (r: Option<u32>)
        requires
            old(self).wf(),
            crypt_state.wf(),
        ensures
            final(self).wf(),
            lowest_free(|x: u32| old(self).has_client(x), r),
            r is None ==> *final(self) == *old(self),
            r matches Some(id) ==> final(self).clients@.len() == old(self).clients@.len() + 1
                && final(self).clients@.subrange(0, old(self).clients@.len() as int) == old(self).clients@
                && ({
                let c = final(self).clients@.last();
                &&& c.session_id == id
                &&& c.channel_id == 0
                &&& c.name@ == name@
                &&& !c.mute && !c.deaf
                &&& c.udp_peer is None
                &&& c.last_ping == now
                &&& c.codecs@ == codecs@
                &&& forall|t: int| 0 <= t < TARGET_SLOTS ==> (#[trigger] c.targets@[t]).sessions@.len() == 0
                    && c.targets@[t].channels@.len() == 0
            }),
            final(self).channels == old(self).channels,
            final(self).codec_state == old(self).codec_state,
    {
        let id = match self.get_free_session_id() {
            None => {
                return None;
            },
            Some(id) => id,
        };
        let mut targets: Vec<VoiceTarget> = Vec::new();
        let mut t: usize = 0;
        while t < TARGET_SLOTS
            invariant
                t <= TARGET_SLOTS,
                targets@.len() == t,
                forall|k: int| 0 <= k < t ==> (#[trigger] targets@[k]).sessions@.len() == 0
                    && targets@[k].channels@.len() == 0,
            decreases TARGET_SLOTS - t,
        {
            targets.push(VoiceTarget::new());
            t = t + 1;
        }
        let client = Client {
            session_id: id,
            channel_id: 0,
            name,
            tokens,
            mute: false,
            deaf: false,
            use_opus,
            codecs,
            crypt_state,
            udp_peer: None,
            targets,
            last_ping: now,
        };
        let ghost old_clients = self.clients@;
        self.clients.push(client);
        assert(self.clients@.subrange(0, old_clients.len() as int) =~= old_clients);
        assert forall|i: int, j: int|
            0 <= i < j < self.clients@.len() implies #[trigger] self.clients@[i].session_id
                != #[trigger] self.clients@[j].session_id by {
            if j == old_clients.len() {
                assert(old_clients[i].session_id == self.clients@[i].session_id);
            }
        }
        Some(id)
    }

    /// Adds a channel under the lowest free channel id.
    pub fn add_channel(&mut self, parent: u32, name: String, description: String, temporary: bool) -> (r: Option<u32>)
        requires
            old(self).wf(),
        ensures
            final(self).wf(),
            lowest_free(|x: u32| old(self).has_channel(x), r),
            r is None ==> forall|x: u32| 0 < x < u32::MAX ==> #[trigger] old(self).has_channel(x),
            r is None ==> *final(self) == *old(self),
            r matches Some(id) ==> !old(self).has_channel(id) && 0 < id && forall|x: u32| 0 < x < id ==> #[trigger] old(self).has_channel(x),
            r matches Some(id) ==> final(self).channels@.len() == old(self).channels@.len() + 1
                && final(self).channels@.subrange(0, old(self).channels@.len() as int) == old(self).channels@
                && final(self).channels@.last().id == id
                && final(self).channels@.last().parent_id == Some(parent)
                && final(self).channels@.last().name@ == name@
                && final(self).channels@.last().description@ == description@
                && final(self).channels@.last().temporary == temporary
                && final(self).channels@.last().listeners@.len() == 0,
            final(self).clients == old(self).clients,
            final(self).codec_state == old(self).codec_state,
    {
        let id = match self.get_free_channel_id() {
            None => {
                return None;
            },
            Some(id) => id,
        };
        let ghost old_channels = self.channels@;
        self.channels.push(Channel::new(id, Some(parent), name, description, temporary));
        assert(self.channels@.subrange(0, old_channels.len() as int) =~= old_channels);
        assert forall|i: int, j: int|
            0 <= i < j < self.channels@.len() implies #[trigger] self.channels@[i].id
                != #[trigger] self.channels@[j].id by {
            if j == old_channels.len() {
                assert(old_channels[i].id == self.channels@[i].id);
            }
        }
        Some(id)
    }

    /// The session of the client whose user name is `name`.
    pub fn get_client_by_name(&self, name: &String) -> (r: Option<u32>)
        ensures
            r matches Some(s) ==> exists|i: int|
                0 <= i < self.clients@.len() && #[trigger] self.clients@[i].session_id == s
                    && self.clients@[i].name@ == name@,
            r is None ==> forall|i: int|
                0 <= i < self.clients@.len() ==> (#[trigger] self.clients@[i]).name@ != name@,
    {
        let mut i: usize = 0;
        while i < self.clients.len()
            invariant
                i <= self.clients@.len(),
                forall|k: int| 0 <= k < i ==> (#[trigger] self.clients@[k]).name@ != name@,
            decreases self.clients@.len() - i,
        {
            if self.clients[i].name == *name {
                return Some(self.clients[i].session_id);
            }
            i = i + 1;
        }
        None
    }

    /// The id of the channel named `name`.
    pub fn get_channel_by_name(&self, name: &String) -> (r: Option<u32>)
        ensures
            r matches Some(c) ==> exists|j: int|
                0 <= j < self.channels@.len() && #[trigger] self.channels@[j].id == c
                    && self.channels@[j].name@ == name@,
            r is None ==> forall|j: int|
                0 <= j < self.channels@.len() ==> (#[trigger] self.channels@[j]).name@ != name@,
    {
        let mut j: usize = 0;
        while j < self.channels.len()
            invariant
                j <= self.channels@.len(),
                forall|k: int| 0 <= k < j ==> (#[trigger] self.channels@[k]).name@ != name@,
            decreases self.channels@.len() - j,
        {
            if self.channels[j].name == *name {
                return Some(self.channels[j].id);
            }
            j = j + 1;
        }
        None
    }

    /// The session of the client bound to UDP peer `addr`.
    pub fn get_client_by_socket(&self, addr: PeerAddr) -> (r: Option<u32>)
        ensures
            r matches Some(s) ==> exists|i: int|
                0 <= i < self.clients@.len() && #[trigger] self.clients@[i].session_id == s
                    && self.clients@[i].udp_peer == Some(addr),
            r is None ==> forall|i: int|
                0 <= i < self.clients@.len() ==> (#[trigger] self.clients@[i]).udp_peer != Some(addr),
    {
        let mut i: usize = 0;
        while i < self.clients.len()
            invariant
                i <= self.clients@.len(),
                forall|k: int| 0 <= k < i ==> (#[trigger] self.clients@[k]).udp_peer != Some(addr),
            decreases self.clients@.len() - i,
        {
            if self.clients[i].udp_peer == Some(addr) {
                return Some(self.clients[i].session_id);
            }
            i = i + 1;
        }
        None
    }
}

impl Client {
    /// Sets whether the server drops the client's audio.
    pub fn mute(&mut self, mute: bool)
        ensures
            final(self).mute == mute,
            final(self).session_id == old(self).session_id,
            final(self).targets == old(self).targets,
            final(self).crypt_state == old(self).crypt_state,
            final(self).udp_peer == old(self).udp_peer,
            final(self).last_ping == old(self).last_ping,
            final(self).tokens == old(self).tokens,
            final(self).name == old(self).name,
            final(self).channel_id == old(self).channel_id,
    {
        self.mute = mute;
    }

    /// Takes mute and deaf from a user state where it gives them.
    pub fn update(&mut self, state: &UserState)
        ensures
            final(self).mute == (match state.mute {
                Some(m) => m,
                None => old(self).mute,
            }),
            final(self).deaf == (match state.deaf {
                Some(d) => d,
                None => old(self).deaf,
            }),
            final(self).session_id == old(self).session_id,
            final(self).channel_id == old(self).channel_id,
            final(self).name == old(self).name,
            final(self).targets == old(self).targets,
            final(self).crypt_state == old(self).crypt_state,
            final(self).udp_peer == old(self).udp_peer,
            final(self).last_ping == old(self).last_ping,
            final(self).tokens == old(self).tokens,
    {
        if let Some(m) = state.mute {
            self.mute = m;
        }
        if let Some(d) = state.deaf {
            self.deaf = d;
        }
    }

    /// Puts the client in channel `channel_id`; returns the channel it left,
    /// or `None` where it was there already.
    pub fn join_channel(&mut self, channel_id: u32) -> (r: Option<u32>)
        ensures
            final(self).channel_id == channel_id,
            old(self).channel_id == channel_id ==> r is None,
            old(self).channel_id != channel_id ==> r == Some(old(self).channel_id),
            final(self).session_id == old(self).session_id,
            final(self).mute == old(self).mute,
            final(self).deaf == old(self).deaf,
            final(self).targets == old(self).targets,
            final(self).crypt_state == old(self).crypt_state,
            final(self).udp_peer == old(self).udp_peer,
            final(self).last_ping == old(self).last_ping,
            final(self).tokens == old(self).tokens,
    {
        if channel_id == self.channel_id {
            return None;
        }
        let left = self.channel_id;
        self.channel_id = channel_id;
        Some(left)
    }

    /// Whisper slot `id` (0 to 29).
    pub fn get_target(&self, id: usize) -> (r: Option<&VoiceTarget>)
        ensures
            id < self.targets@.len() ==> r == Some(&self.targets@[id as int]),
            id >= self.targets@.len() ==> r is None,
    {
        if id < self.targets.len() {
            Some(&self.targets[id])
        } else {
            None
        }
    }

    /// The client's description as sent to others.
    pub fn get_user_state(&self) -> (r: UserState)
        ensures
            r.session == Some(self.session_id),
            r.user_id == Some(self.session_id),
            r.channel_id == Some(self.channel_id),
            r.name matches Some(n) && n@ == self.name@,
            r.mute is None && r.deaf is None,
            r.listening_channel_add@.len() == 0 && r.listening_channel_remove@.len() == 0,
    {
        UserState {
            session: Some(self.session_id),
            user_id: Some(self.session_id),
            name: Some(self.name.clone()),
            channel_id: Some(self.channel_id),
            mute: None,
            deaf: None,
            listening_channel_add: Vec::new(),
            listening_channel_remove: Vec::new(),
        }
    }
}

impl ServerState {
    /// Some client is in channel `c`, or some channel has `c` as its parent.
    pub open spec fn channel_in_use(&self, c: u32) -> bool {
        (exists|i: int| 0 <= i < self.clients@.len() && #[trigger] self.clients@[i].channel_id == c)
            || (exists|j: int|
            0 <= j < self.channels@.len() && #[trigger] self.channels@[j].parent_id == Some(c))
    }

    /// Channel `c` goes once it is left: nobody is in it, it has no child,
    /// and it is temporary or already gone.
    pub open spec fn channel_removable(&self, c: u32) -> bool {
        !self.channel_in_use(c) && (!self.has_channel(c) || exists|j: int|
            0 <= j < self.channels@.len() && #[trigger] self.channels@[j].id == c
                && self.channels@[j].temporary)
    }

    /// Whether some client is in channel `c` or some channel is its child.
    pub fn is_channel_in_use(&self, c: u32) -> (r: bool)
        ensures
            r == self.channel_in_use(c),
    {
        let mut i: usize = 0;
        while i < self.clients.len()
            invariant
                i <= self.clients@.len(),
                forall|k: int| 0 <= k < i ==> (#[trigger] self.clients@[k]).channel_id != c,
            decreases self.clients@.len() - i,
        {
            if self.clients[i].channel_id == c {
                return true;
            }
            i = i + 1;
        }
        let mut j: usize = 0;
        while j < self.channels.len()
            invariant
                j <= self.channels@.len(),
                forall|k: int| 0 <= k < self.clients@.len() ==> (#[trigger] self.clients@[k]).channel_id != c,
                forall|k: int| 0 <= k < j ==> (#[trigger] self.channels@[k]).parent_id != Some(c),
            decreases self.channels@.len() - j,
        {
            if self.channels[j].parent_id == Some(c) {
                return true;
            }
            j = j + 1;
        }
        false
    }

    /// Evaluates channel `leave` after a client left it: removes it and
    /// broadcasts its removal when it is removable, and keeps it otherwise.
    pub fn check_leave_channel(&mut self, leave: u32, effects: &mut Effects) -> (r: Option<u32>)
        requires
            old(self).wf(),
        ensures
            final(self).wf(),
            final(self).clients == old(self).clients,
            final(self).codec_state == old(self).codec_state,
            final(effects).direct == old(effects).direct,
            old(self).channel_removable(leave) ==> r == Some(leave) && !final(self).has_channel(
                leave,
            ) && (forall|c: u32| c != leave ==> final(self).has_channel(c) == old(self).has_channel(c))
                && final(effects).broadcast@.len() == old(effects).broadcast@.len() + 1
                && final(effects).broadcast@.subrange(0, old(effects).broadcast@.len() as int)
                == old(effects).broadcast@ && (final(effects).broadcast@.last() matches ServerMessage::ChannelRemove { channel_id }
                && channel_id == leave),
            !old(self).channel_removable(leave) ==> r is None && final(self).channels == old(self).channels
                && final(effects).broadcast == old(effects).broadcast,
            final(self).channels@ == old(self).channels@ || exists|j0: int|
                0 <= j0 < old(self).channels@.len() && final(self).channels@ == old(self).channels@.remove(j0)
                && old(self).channels@[j0].id == leave,
    {
        if self.is_channel_in_use(leave) {
            return None;
        }
        assert(!self.channel_in_use(leave));
        match self.channel_index(leave) {
            Some(j) => {
                if !self.channels[j].temporary {
                    assert(!self.channel_removable(leave)) by {
                        if exists|k: int|
                            0 <= k < self.channels@.len() && #[trigger] self.channels@[k].id == leave
                                && self.channels@[k].temporary {
                            let k = choose|k: int|
                                0 <= k < self.channels@.len() && #[trigger] self.channels@[k].id
                                    == leave && self.channels@[k].temporary;
                            if k < j {
                                assert(self.channels@[k].id != self.channels@[j as int].id);
                            } else if k > j {
                                assert(self.channels@[j as int].id != self.channels@[k].id);
                            }
                        }
                    }
                    return None;
                }
                let ghost old_channels = self.channels@;
                self.channels.remove(j);
                assert(self.channels@ == old_channels.remove(j as int));
                assert forall|c: u32| c != leave implies self.has_channel(c) == (exists|k: int|
                    0 <= k < old_channels.len() && #[trigger] old_channels[k].id == c) by {
                    if exists|k: int| 0 <= k < old_channels.len() && #[trigger] old_channels[k].id == c {
                        let k = choose|k: int| 0 <= k < old_channels.len() && #[trigger] old_channels[k].id == c;
                        if k < j {
                            assert(self.channels@[k].id == c);
                        } else {
                            assert(k != j);
                            assert(self.channels@[k - 1].id == c);
                        }
                    }
                }
                assert(!self.has_channel(leave)) by {
                    if self.has_channel(leave) {
                        let k = choose|k: int| 0 <= k < self.channels@.len() && #[trigger] self.channels@[k].id == leave;
                        if k < j {
                            assert(old_channels[k].id == leave);
                            assert(old_channels[k].id != old_channels[j as int].id);
                        } else {
                            assert(old_channels[k + 1].id == leave);
                            assert(old_channels[j as int].id != old_channels[k + 1].id);
                        }
                    }
                }
                assert forall|a: int, b: int|
                    0 <= a < b < self.channels@.len() implies #[trigger] self.channels@[a].id
                        != #[trigger] self.channels@[b].id by {
                    let oa = if a < j { a } else { a + 1 };
                    let ob = if b < j { b } else { b + 1 };
                    assert(old_channels[oa].id != old_channels[ob].id);
                }
                assert forall|k: int| 0 <= k < self.clients@.len() implies self.has_channel((#[trigger] self.clients@[k]).channel_id) by {
                    let c = self.clients@[k].channel_id;
                    assert(c != leave);
                    assert(exists|q: int| 0 <= q < old_channels.len() && #[trigger] old_channels[q].id == c);
                }
                assert(self.root_ok()) by {
                    let q = choose|q: int| 0 <= q < old_channels.len() && (#[trigger] old_channels[q]).id == 0 && !old_channels[q].temporary;
                    assert(q != j);
                    let nq = if q < j { q } else { q - 1 };
                    assert(self.channels@[nq] == old_channels[q]);
                }
            },
            None => {},
        }
        effects.broadcast.push(ServerMessage::ChannelRemove { channel_id: leave });
        assert(effects.broadcast@.subrange(0, old(effects).broadcast@.len() as int) =~= old(effects).broadcast@);
        Some(leave)
    }
}

/// Takes every `x` out of `v`.
pub fn remove_all(v: &mut Vec<u32>, x: u32)
    ensures
        forall|y: u32| final(v)@.contains(y) <==> old(v)@.contains(y) && y != x,
{
    let mut kept: Vec<u32> = Vec::new();
    let mut i: usize = 0;
    while i < v.len()
        invariant
            i <= v@.len(),
            *v == *old(v),
            forall|y: u32| kept@.contains(y) <==> (exists|k: int| 0 <= k < i && #[trigger] v@[k] == y) && y != x,
        decreases v@.len() - i,
    {
        let ghost before = kept@;
        if v[i] != x {
            kept.push(v[i]);
        }
        i = i + 1;
        assert forall|y: u32| kept@.contains(y) <==> (exists|k: int| 0 <= k < i && #[trigger] v@[k] == y) && y != x by {
            if kept@.contains(y) {
                let k = choose|k: int| 0 <= k < kept@.len() && kept@[k] == y;
                if k < before.len() {
                    assert(before[k] == y);
                    assert(before.contains(y));
                } else {
                    assert(v@[i - 1] == y);
                }
            }
            if (exists|k: int| 0 <= k < i && #[trigger] v@[k] == y) && y != x {
                let k = choose|k: int| 0 <= k < i && #[trigger] v@[k] == y;
                if k < i - 1 {
                    assert(before.contains(y));
                    let m = choose|m: int| 0 <= m < before.len() && before[m] == y;
                    assert(kept@[m] == y);
                } else {
                    assert(kept@[kept@.len() - 1] == y);
                }
            }
        }
    }
    assert forall|y: u32| old(v)@.contains(y) implies (exists|k: int| 0 <= k < i && #[trigger] v@[k] == y) by {
        let k = choose|k: int| 0 <= k < old(v)@.len() && old(v)@[k] == y;
        assert(v@[k] == y);
    }
    *v = kept;
}

impl ServerState {
    /// Moves client `i` to channel `channel`. A move to another channel
    /// broadcasts the client's new description and then evaluates the channel
    /// it left, whose id is returned where that channel was removed.
    pub fn set_client_channel(&mut self, i: usize, channel: u32, effects: &mut Effects) -> (r: Option<u32>)
        requires
            old(self).wf(),
            i < old(self).clients@.len(),
            old(self).has_channel(channel),
        ensures
            final(self).wf(),
            final(self).clients@.len() == old(self).clients@.len(),
            final(self).clients@[i as int].channel_id == channel,
            forall|k: int| 0 <= k < old(self).clients@.len() && k != i ==> #[trigger] final(self).clients@[k] == old(self).clients@[k],
            final(self).clients@[i as int].session_id == old(self).clients@[i as int].session_id,
            final(self).clients@[i as int].mute == old(self).clients@[i as int].mute,
            final(self).clients@[i as int].deaf == old(self).clients@[i as int].deaf,
            old(self).clients@[i as int].channel_id == channel ==> r is None && *final(self) == *old(self) && *final(effects) == *old(effects),
            old(self).clients@[i as int].channel_id != channel ==> (final(effects).broadcast@[old(effects).broadcast@.len() as int] matches ServerMessage::UserState(u) && u.session == Some(old(self).clients@[i as int].session_id) && u.channel_id == Some(channel)),
            final(effects).direct == old(effects).direct,
            final(effects).broadcast@.len() >= old(effects).broadcast@.len(),
            final(effects).broadcast@.subrange(0, old(effects).broadcast@.len() as int) == old(effects).broadcast@,
            r matches Some(l) ==> l == old(self).clients@[i as int].channel_id && !final(self).has_channel(l),
            final(self).channels@ == old(self).channels@ || exists|j0: int|
                0 <= j0 < old(self).channels@.len() && final(self).channels@ == old(self).channels@.remove(j0)
                && old(self).channels@[j0].id != channel,
            old(self).clients@[i as int].channel_id != channel ==> {
                let l = old(self).clients@[i as int].channel_id;
                &&& leave_removable(*old(self), i as int, l) ==> r == Some(l)
                    && (forall|c: u32| c != l ==> final(self).has_channel(c) == old(self).has_channel(c))
                    && final(effects).broadcast@.len() == old(effects).broadcast@.len() + 2
                    && (final(effects).broadcast@[old(effects).broadcast@.len() as int + 1] matches ServerMessage::ChannelRemove { channel_id }
                    && channel_id == l)
                &&& !leave_removable(*old(self), i as int, l) ==> r is None && final(self).channels == old(self).channels
                    && final(effects).broadcast@.len() == old(effects).broadcast@.len() + 1
            },
    {
        let leave = self.clients[i].channel_id;
        if leave == channel {
            return None;
        }
        let ghost before = self.clients@;
        self.clients[i].join_channel(channel);
        assert forall|k: int| 0 <= k < before.len() && k != i implies #[trigger] self.clients@[k] == before[k] by {}
        assert forall|a: int, b: int|
            0 <= a < b < self.clients@.len() implies #[trigger] self.clients@[a].session_id
                != #[trigger] self.clients@[b].session_id by {
            assert(before[a].session_id != before[b].session_id);
        }
        assert forall|k: int| 0 <= k < self.clients@.len() implies (#[trigger] self.clients@[k]).targets@.len()
                == TARGET_SLOTS && self.clients@[k].crypt_state.wf() by {
            assert(before[k].targets@.len() == TARGET_SLOTS);
        }
        assert forall|k: int| 0 <= k < self.clients@.len() implies self.has_channel((#[trigger] self.clients@[k]).channel_id) by {
            if k != i {
                assert(self.clients@[k] == before[k]);
            }
        }
        assert(self.channel_removable(leave) == leave_removable(*old(self), i as int, leave)) by {
            if self.channel_in_use(leave) {
                if exists|k: int| 0 <= k < self.clients@.len() && #[trigger] self.clients@[k].channel_id == leave {
                    let k = choose|k: int| 0 <= k < self.clients@.len() && #[trigger] self.clients@[k].channel_id == leave;
                    assert(k != i);
                    assert(before[k].channel_id == leave);
                }
            }
            if !leave_removable(*old(self), i as int, leave) {
                if !(forall|k: int| 0 <= k < before.len() && k != i ==> (#[trigger] before[k]).channel_id != leave) {
                    let k = choose|k: int| !(0 <= k < before.len() && k != i ==> (#[trigger] before[k]).channel_id != leave);
                    assert(self.clients@[k].channel_id == leave);
                }
                if !(forall|j: int| 0 <= j < self.channels@.len() ==> (#[trigger] self.channels@[j]).parent_id != Some(leave)) {
                    let j = choose|j: int| !(0 <= j < self.channels@.len() ==> (#[trigger] self.channels@[j]).parent_id != Some(leave));
                    assert(self.channels@[j].parent_id == Some(leave));
                }
            }
        }
        let user_state = self.clients[i].get_user_state();
        effects.broadcast.push(ServerMessage::UserState(user_state));
        let ghost mid = effects.broadcast@;
        let r = self.check_leave_channel(leave, effects);
        assert(effects.broadcast@[old(effects).broadcast@.len() as int] == mid[old(effects).broadcast@.len() as int]) by {
            if r is Some {
                assert(effects.broadcast@.subrange(0, mid.len() as int) == mid);
            }
        }
        assert(effects.broadcast@.subrange(0, old(effects).broadcast@.len() as int) =~= old(effects).broadcast@) by {
            if r is Some {
                assert(effects.broadcast@.subrange(0, mid.len() as int) == mid);
                assert forall|k: int| 0 <= k < old(effects).broadcast@.len() implies effects.broadcast@[k] == old(effects).broadcast@[k] by {
                    assert(effects.broadcast@.subrange(0, mid.len() as int)[k] == mid[k]);
                }
            }
        }
        r
    }

    /// Ends client `session`'s presence: drops it from the clients, from every
    /// channel's listeners and every whisper slot, broadcasts its removal, and
    /// evaluates the channel it was in.
    #[verifier::loop_isolation(false)]
    pub fn disconnect(&mut self, session: u32, effects: &mut Effects) -> (r: Option<u32>)
        requires
            old(self).wf(),
        ensures
            final(self).wf(),
            !final(self).has_client(session),
            forall|s: u32| s != session ==> final(self).has_client(s) == old(self).has_client(s),
            forall|j: int| 0 <= j < final(self).channels@.len() ==> !(#[trigger] final(self).channels@[j]).listeners@.contains(session),
            forall|k: int, t: int| 0 <= k < final(self).clients@.len() && 0 <= t < TARGET_SLOTS
                ==> !(#[trigger] final(self).clients@[k].targets@[t]).sessions@.contains(session),
            old(self).has_client(session) ==> (final(effects).broadcast@[old(effects).broadcast@.len() as int] matches ServerMessage::UserRemove { session: s, reason }
                && s == session && reason@ == "disconnected"@),
            !old(self).has_client(session) ==> r is None && final(effects).broadcast == old(effects).broadcast,
            r matches Some(l) ==> !final(self).has_channel(l),
            old(self).has_client(session) ==> {
                let i = old(self).client_index_spec(session)->0;
                let l = old(self).clients@[i].channel_id;
                &&& leave_removable(*old(self), i, l) ==> r == Some(l)
                    && (forall|c: u32| c != l ==> final(self).has_channel(c) == old(self).has_channel(c))
                    && final(effects).broadcast@.len() == old(effects).broadcast@.len() + 2
                    && (final(effects).broadcast@[old(effects).broadcast@.len() as int + 1] matches ServerMessage::ChannelRemove { channel_id }
                    && channel_id == l)
                &&& !leave_removable(*old(self), i, l) ==> r is None
                    && final(effects).broadcast@.len() == old(effects).broadcast@.len() + 1
            },
    {
        let ghost mut gi: int = 0;
        let leave = match self.client_index(session) {
            None => None,
            Some(i) => {
                proof {
                    gi = i as int;
                    self.lemma_client_index_spec(session, i as int);
                }
                let leave = self.clients[i].channel_id;
                let ghost before = self.clients@;
                self.clients.remove(i);
                assert(self.clients@ == before.remove(i as int));
                assert forall|a: int, b: int|
                    0 <= a < b < self.clients@.len() implies #[trigger] self.clients@[a].session_id
                        != #[trigger] self.clients@[b].session_id by {
                    let oa = if a < i { a } else { a + 1 };
                    let ob = if b < i { b } else { b + 1 };
                    assert(before[oa].session_id != before[ob].session_id);
                }
                assert forall|k: int| 0 <= k < self.clients@.len() implies (#[trigger] self.clients@[k]).targets@.len()
                        == TARGET_SLOTS && self.clients@[k].crypt_state.wf() by {
                    let ok = if k < i { k } else { k + 1 };
                    assert(before[ok].targets@.len() == TARGET_SLOTS);
                }
                assert forall|s: u32| s != session implies self.has_client(s) == old(self).has_client(s) by {
                    if old(self).has_client(s) {
                        let k = choose|k: int| 0 <= k < before.len() && #[trigger] before[k].session_id == s;
                        if k < i {
                            assert(self.clients@[k].session_id == s);
                        } else {
                            assert(k != i);
                            assert(self.clients@[k - 1].session_id == s);
                        }
                    }
                    if self.has_client(s) {
                        let k = choose|k: int| 0 <= k < self.clients@.len() && #[trigger] self.clients@[k].session_id == s;
                        let ok = if k < i { k } else { k + 1 };
                        assert(before[ok].session_id == s);
                    }
                }
                assert(!self.has_client(session)) by {
                    if self.has_client(session) {
                        let k = choose|k: int| 0 <= k < self.clients@.len() && #[trigger] self.clients@[k].session_id == session;
                        let ok = if k < i { k } else { k + 1 };
                        if ok < i {
                            assert(before[ok].session_id != before[i as int].session_id);
                        } else {
                            assert(before[i as int].session_id != before[ok].session_id);
                        }
                    }
                }
                Some(leave)
            },
        };
        let ghost after_remove = *self;
        let mut j: usize = 0;
        while j < self.channels.len()
            invariant
                j <= self.channels@.len(),
                self.wf(),
                self.clients == after_remove.clients,
                self.codec_state == after_remove.codec_state,
                self.channels@.len() == after_remove.channels@.len(),
                forall|k: int| 0 <= k < self.channels@.len() ==> (#[trigger] self.channels@[k]).id == after_remove.channels@[k].id
                    && self.channels@[k].parent_id == after_remove.channels@[k].parent_id
                    && self.channels@[k].temporary == after_remove.channels@[k].temporary,
                forall|k: int| 0 <= k < j ==> !(#[trigger] self.channels@[k]).listeners@.contains(session),
            decreases self.channels@.len() - j,
        {
            let ghost prev = self.channels@;
            let ghost prev_state = *self;
            remove_all(&mut self.channels[j].listeners, session);
            assert forall|k: int| 0 <= k < self.channels@.len() && k != j implies #[trigger] self.channels@[k] == prev[k] by {}
            proof {
                self.lemma_wf_channels_kept(prev_state);
            }
            j = j + 1;
        }
        let ghost after_channels = *self;
        let mut k: usize = 0;
        while k < self.clients.len()
            invariant
                k <= self.clients@.len(),
                self.wf(),
                self.channels == after_channels.channels,
                self.codec_state == after_channels.codec_state,
                self.clients@.len() == after_channels.clients@.len(),
                forall|m: int| 0 <= m < self.clients@.len() ==> (#[trigger] self.clients@[m]).session_id == after_channels.clients@[m].session_id
                    && self.clients@[m].channel_id == after_channels.clients@[m].channel_id,
                forall|m: int, t: int| 0 <= m < k && 0 <= t < TARGET_SLOTS
                    ==> !(#[trigger] self.clients@[m].targets@[t]).sessions@.contains(session),
            decreases self.clients@.len() - k,
        {
            let mut t: usize = 0;
            while t < TARGET_SLOTS
                invariant
                    k < self.clients@.len(),
                    t <= TARGET_SLOTS,
                    self.wf(),
                    self.channels == after_channels.channels,
                    self.codec_state == after_channels.codec_state,
                    self.clients@.len() == after_channels.clients@.len(),
                    forall|m: int| 0 <= m < self.clients@.len() ==> (#[trigger] self.clients@[m]).session_id == after_channels.clients@[m].session_id
                        && self.clients@[m].channel_id == after_channels.clients@[m].channel_id,
                    forall|m: int, u: int| 0 <= m < k && 0 <= u < TARGET_SLOTS
                        ==> !(#[trigger] self.clients@[m].targets@[u]).sessions@.contains(session),
                    forall|u: int| 0 <= u < t ==> !(#[trigger] self.clients@[k as int].targets@[u]).sessions@.contains(session),
                decreases TARGET_SLOTS - t,
            {
                let ghost prev = self.clients@;
                assert(self.clients@[k as int].targets@.len() == TARGET_SLOTS);
                remove_all(&mut self.clients[k].targets[t].sessions, session);
                assert forall|m: int| 0 <= m < self.clients@.len() && m != k implies #[trigger] self.clients@[m] == prev[m] by {}
                assert forall|u: int| 0 <= u < TARGET_SLOTS && u != t implies #[trigger] self.clients@[k as int].targets@[u] == prev[k as int].targets@[u] by {}
                assert forall|a: int, b: int|
                    0 <= a < b < self.clients@.len() implies #[trigger] self.clients@[a].session_id
                        != #[trigger] self.clients@[b].session_id by {
                    assert(prev[a].session_id != prev[b].session_id);
                }
                assert forall|m: int| 0 <= m < self.clients@.len() implies (#[trigger] self.clients@[m]).targets@.len()
                        == TARGET_SLOTS && self.clients@[m].crypt_state.wf() by {
                    assert(prev[m].targets@.len() == TARGET_SLOTS);
                }
                t = t + 1;
            }
            k = k + 1;
        }
        assert forall|s: u32| self.has_client(s) == after_remove.has_client(s) by {
            if self.has_client(s) {
                let m = choose|m: int| 0 <= m < self.clients@.len() && #[trigger] self.clients@[m].session_id == s;
                assert(after_remove.clients@[m].session_id == s);
            }
            if after_remove.has_client(s) {
                let m = choose|m: int| 0 <= m < after_remove.clients@.len() && #[trigger] after_remove.clients@[m].session_id == s;
                assert(self.clients@[m].session_id == s);
            }
        }
        match leave {
            None => None,
            Some(l) => {
                let reason = "disconnected".to_string();
                proof {
                    broadcast use vstd::string::to_string_from_display_ensures_for_str;
                }
                assert(reason@ == "disconnected"@);
                effects.broadcast.push(ServerMessage::UserRemove { session, reason });
                let ghost mid = effects.broadcast@;
                let ghost before_leave = *self;
                assert(old(self).clients@[gi].channel_id == l);
                assert(self.channel_removable(l) == leave_removable(*old(self), gi, l)) by {
                    assert forall|m: int| 0 <= m < self.clients@.len() implies (#[trigger] self.clients@[m]).channel_id
                        == old(self).clients@[if m < gi { m } else { m + 1 }].channel_id by {
                        assert(self.clients@[m].channel_id == after_channels.clients@[m].channel_id);
                        assert(after_channels.clients@[m] == after_remove.clients@[m]);
                    }
                    assert(self.channels@.len() == old(self).channels@.len());
                    assert forall|j: int| 0 <= j < self.channels@.len() implies (#[trigger] self.channels@[j]).id == old(self).channels@[j].id
                        && self.channels@[j].parent_id == old(self).channels@[j].parent_id
                        && self.channels@[j].temporary == old(self).channels@[j].temporary by {
                        assert(self.channels@[j] == after_channels.channels@[j]);
                    }
                    if self.channel_removable(l) {
                        assert forall|k: int| 0 <= k < old(self).clients@.len() && k != gi implies (#[trigger] old(self).clients@[k]).channel_id != l by {
                            let m = if k < gi { k } else { k - 1 };
                            assert(self.clients@[m].channel_id == old(self).clients@[k].channel_id);
                        }
                        assert forall|j: int| 0 <= j < old(self).channels@.len() implies (#[trigger] old(self).channels@[j]).parent_id != Some(l) by {
                            assert(self.channels@[j].parent_id == old(self).channels@[j].parent_id);
                        }
                        if self.has_channel(l) {
                            let j = choose|j: int| 0 <= j < self.channels@.len() && (#[trigger] self.channels@[j]).id == l && self.channels@[j].temporary;
                            assert(old(self).channels@[j].id == l);
                        } else {
                            assert forall|j: int| 0 <= j < old(self).channels@.len() implies (#[trigger] old(self).channels@[j]).id != l by {
                                assert(self.channels@[j].id == old(self).channels@[j].id);
                            }
                        }
                    }
                    if leave_removable(*old(self), gi, l) {
                        assert forall|m: int| 0 <= m < self.clients@.len() implies (#[trigger] self.clients@[m]).channel_id != l by {
                            let k = if m < gi { m } else { m + 1 };
                            assert(old(self).clients@[k].channel_id != l);
                        }
                        assert forall|j: int| 0 <= j < self.channels@.len() implies (#[trigger] self.channels@[j]).parent_id != Some(l) by {
                            assert(old(self).channels@[j].parent_id != Some(l));
                        }
                        if self.has_channel(l) {
                            let j = choose|j: int| 0 <= j < self.channels@.len() && (#[trigger] self.channels@[j]).id == l;
                            assert(old(self).channels@[j].id == l);
                            let j2 = choose|j2: int| 0 <= j2 < old(self).channels@.len() && (#[trigger] old(self).channels@[j2]).id == l && old(self).channels@[j2].temporary;
                            assert(self.channels@[j2].id == l && self.channels@[j2].temporary);
                        }
                    }
                }
                assert forall|c: u32| before_leave.has_channel(c) == old(self).has_channel(c) by {
                    if before_leave.has_channel(c) {
                        let j = choose|j: int| 0 <= j < before_leave.channels@.len() && #[trigger] before_leave.channels@[j].id == c;
                        assert(old(self).channels@[j].id == c);
                    }
                    if old(self).has_channel(c) {
                        let j = choose|j: int| 0 <= j < old(self).channels@.len() && #[trigger] old(self).channels@[j].id == c;
                        assert(before_leave.channels@[j].id == c);
                    }
                }
                let r = self.check_leave_channel(l, effects);
                assert(effects.broadcast@[old(effects).broadcast@.len() as int] == mid[old(effects).broadcast@.len() as int]) by {
                    if r is Some {
                        assert(effects.broadcast@.subrange(0, mid.len() as int) == mid);
                    }
                }
                assert forall|j: int| 0 <= j < self.channels@.len() implies !(#[trigger] self.channels@[j]).listeners@.contains(session) by {
                    if self.channels@ != before_leave.channels@ {
                        let j0 = choose|j0: int|
                            0 <= j0 < before_leave.channels@.len() && self.channels@ == before_leave.channels@.remove(j0);
                        let oj = if j < j0 { j } else { j + 1 };
                        assert(self.channels@[j] == before_leave.channels@[oj]);
                    }
                }
                r
            },
        }
    }
}

impl ServerState {
    /// `self` is `before` with client `i` changed in fields other than its
    /// session id, whisper slot count and crypt state's well-formedness.
    pub proof fn lemma_wf_after_update(&self, before: Seq<Client>, i: int)
        requires
            before.len() == self.clients@.len(),
            0 <= i < before.len(),
            forall|a: int, b: int|
                0 <= a < b < before.len() ==> #[trigger] before[a].session_id != #[trigger] before[b].session_id,
            forall|k: int| 0 <= k < before.len() ==> (#[trigger] before[k]).targets@.len() == TARGET_SLOTS
                && before[k].crypt_state.wf(),
            forall|k: int| 0 <= k < before.len() && k != i ==> #[trigger] self.clients@[k] == before[k],
            self.clients@[i].session_id == before[i].session_id,
            self.clients@[i].targets@.len() == TARGET_SLOTS,
            self.clients@[i].crypt_state.wf(),
            forall|a: int, b: int|
                0 <= a < b < self.channels@.len() ==> #[trigger] self.channels@[a].id != #[trigger] self.channels@[b].id,
            forall|k: int| 0 <= k < before.len() ==> self.has_channel((#[trigger] before[k]).channel_id),
            self.clients@[i].channel_id == before[i].channel_id,
            self.root_ok(),
            forall|a: int, b: int|
                0 <= a < b < before.len() && before[a].udp_peer is Some ==> #[trigger] before[a].udp_peer
                    != #[trigger] before[b].udp_peer,
            self.clients@[i].udp_peer is None || self.clients@[i].udp_peer == before[i].udp_peer || forall|k: int|
                0 <= k < before.len() && k != i ==> (#[trigger] before[k]).udp_peer != self.clients@[i].udp_peer,
        ensures
            self.wf(),
    {
        assert forall|a: int, b: int|
            0 <= a < b < self.clients@.len() && self.clients@[a].udp_peer is Some implies #[trigger] self.clients@[a].udp_peer
                != #[trigger] self.clients@[b].udp_peer by {
            if a != i && b != i {
                assert(before[a].udp_peer != before[b].udp_peer);
            } else if a == i {
                if self.clients@[i].udp_peer == before[i].udp_peer {
                    assert(before[a].udp_peer != before[b].udp_peer);
                } else {
                    assert(before[b].udp_peer != self.clients@[i].udp_peer);
                }
            } else {
                if self.clients@[i].udp_peer == before[i].udp_peer {
                    assert(before[a].udp_peer != before[b].udp_peer);
                } else if self.clients@[i].udp_peer is Some {
                    assert(before[a].udp_peer != self.clients@[i].udp_peer);
                }
            }
        }
        assert forall|k: int| 0 <= k < self.clients@.len() implies self.has_channel((#[trigger] self.clients@[k]).channel_id) by {
            assert(self.has_channel(before[k].channel_id));
        }
        assert forall|a: int, b: int|
            0 <= a < b < self.clients@.len() implies #[trigger] self.clients@[a].session_id
                != #[trigger] self.clients@[b].session_id by {
            assert(before[a].session_id != before[b].session_id);
        }
        assert forall|k: int| 0 <= k < self.clients@.len() implies (#[trigger] self.clients@[k]).targets@.len()
                == TARGET_SLOTS && self.clients@[k].crypt_state.wf() by {
            assert(before[k].targets@.len() == TARGET_SLOTS);
        }
    }
}

/// The welcome text sent in `ServerSync`.
pub const WELCOME_TEXT: &'static str = "SoZ Mumble Server";

/// The bandwidth limit sent in `ServerSync`, in bit/s.
pub const MAX_BANDWIDTH: u32 = 144000;

impl ServerState {
    /// Every channel's description, then every client's, in order.
    pub fn sync_client_and_channels(&self) -> (r: Vec<ServerMessage>)
        ensures
            r@.len() == self.channels@.len() + self.clients@.len(),
            forall|j: int| 0 <= j < self.channels@.len() ==> (#[trigger] r@[j] matches ServerMessage::ChannelState(c)
                && c.channel_id == Some(self.channels@[j].id)),
            forall|k: int| 0 <= k < self.clients@.len() ==> (#[trigger] r@[self.channels@.len() + k] matches ServerMessage::UserState(u)
                && u.session == Some(self.clients@[k].session_id) && u.channel_id == Some(self.clients@[k].channel_id)),
    {
        let mut out: Vec<ServerMessage> = Vec::new();
        let mut j: usize = 0;
        while j < self.channels.len()
            invariant
                j <= self.channels@.len(),
                out@.len() == j,
                forall|q: int| 0 <= q < j ==> (#[trigger] out@[q] matches ServerMessage::ChannelState(c)
                    && c.channel_id == Some(self.channels@[q].id)),
            decreases self.channels@.len() - j,
        {
            out.push(ServerMessage::ChannelState(self.channels[j].get_channel_state()));
            j = j + 1;
        }
        let mut k: usize = 0;
        while k < self.clients.len()
            invariant
                k <= self.clients@.len(),
                out@.len() == self.channels@.len() + k,
                forall|q: int| 0 <= q < self.channels@.len() ==> (#[trigger] out@[q] matches ServerMessage::ChannelState(c)
                    && c.channel_id == Some(self.channels@[q].id)),
                forall|q: int| 0 <= q < k ==> (#[trigger] out@[self.channels@.len() + q] matches ServerMessage::UserState(u)
                    && u.session == Some(self.clients@[q].session_id) && u.channel_id == Some(self.clients@[q].channel_id)),
            decreases self.clients@.len() - k,
        {
            out.push(ServerMessage::UserState(self.clients[k].get_user_state()));
            k = k + 1;
        }
        out
    }

    /// Registers a client that completed its handshake and says what to send:
    /// the codec choice (to the client where it stayed, to all where it
    /// changed), every channel and user, the client's own description, the
    /// server sync and config (to the client), and the client's description
    /// to all. `None` where no session id is free.
    pub fn join(
        &mut self,
        name: String,
        tokens: Vec<String>,
        use_opus: bool,
        codecs: Vec<i32>,
        crypt_state: CryptState,
        now: u64,
        effects: &mut Effects,
    ) -> (r: Option<u32>)
        requires
            old(self).wf(),
            crypt_state.wf(),
        ensures
            final(self).wf(),
            lowest_free(|x: u32| old(self).has_client(x), r),
            r is None ==> *final(self) == *old(self) && *final(effects) == *old(effects),
            r matches Some(id) ==> {
                let n0 = old(effects).direct@.len();
                let d = final(effects).direct@;
                let nc = final(self).channels@.len();
                let nu = final(self).clients@.len();
                let k0 = d.len() - (nc + nu + 3);
                &&& final(self).has_client(id)
                &&& final(effects).broadcast@.len() > 0
                &&& final(effects).broadcast@.last() matches ServerMessage::UserState(u) && u.session == Some(id)
                &&& d.len() >= n0 + nc + nu + 3
                &&& d.subrange(0, n0 as int) == old(effects).direct@
                &&& (k0 == n0 || (k0 == n0 + 1 && d[n0 as int].session_id == id
                    && d[n0 as int].message == ClientMessage::SendMessage(ServerMessage::CodecVersion(final(self).codec_state.get_codec_version_spec()))))
                &&& forall|m: int| k0 <= m < d.len() ==> (#[trigger] d[m]).session_id == id
                &&& forall|j: int| 0 <= j < nc ==> ((#[trigger] d[k0 + j]).message matches ClientMessage::SendMessage(ServerMessage::ChannelState(c))
                    && c.channel_id == Some(final(self).channels@[j].id))
                &&& forall|k: int| 0 <= k < nu ==> ((#[trigger] d[k0 + nc + k]).message matches ClientMessage::SendMessage(ServerMessage::UserState(u))
                    && u.session == Some(final(self).clients@[k].session_id))
                &&& d[d.len() - 3].message matches ClientMessage::SendMessage(ServerMessage::UserState(u)) && u.session == Some(id)
                &&& d[d.len() - 2].message matches ClientMessage::SendMessage(ServerMessage::ServerSync { session, max_bandwidth, .. })
                    && session == id && max_bandwidth == MAX_BANDWIDTH
                &&& d.last().message matches ClientMessage::SendMessage(ServerMessage::ServerConfig { allow_html, message_length, image_message_length })
                    && allow_html && message_length == 512 && image_message_length == 0
            },
    {
        let id = match self.add_client(name, tokens, use_opus, codecs, crypt_state, now) {
            None => {
                return None;
            },
            Some(id) => id,
        };
        let i = self.clients.len() - 1;
        assert(self.clients@[i as int].session_id == id);
        let ghost n0 = old(effects).direct@.len();
        match self.check_codec(effects) {
            Some(cv) => {
                effects.direct.push(Outbound { session_id: id, message: ClientMessage::SendMessage(ServerMessage::CodecVersion(cv)) });
                assert(effects.direct@.subrange(0, n0 as int) =~= old(effects).direct@);
                assert(effects.direct@[n0 as int].message == ClientMessage::SendMessage(
                    ServerMessage::CodecVersion(self.codec_state.get_codec_version_spec())));
            },
            None => {
                assert(effects.direct@.subrange(0, n0 as int) =~= old(effects).direct@);
            },
        }
        let mut sync = self.sync_client_and_channels();
        let ghost orig = sync@;
        let ghost base = effects.direct@;
        let ghost st = *self;
        while sync.len() > 0
            invariant
                *self == st,
                sync@.len() <= orig.len(),
                sync@ == orig.subrange(orig.len() - sync@.len(), orig.len() as int),
                effects.direct@.len() == base.len() + (orig.len() - sync@.len()),
                effects.direct@.subrange(0, base.len() as int) == base,
                forall|m: int| 0 <= m < orig.len() - sync@.len() ==> (#[trigger] effects.direct@[base.len() + m]).session_id == id
                    && effects.direct@[base.len() + m].message == ClientMessage::SendMessage(orig[m]),
            decreases sync@.len(),
        {
            let m = sync.remove(0);
            effects.direct.push(Outbound { session_id: id, message: ClientMessage::SendMessage(m) });
            assert(effects.direct@.subrange(0, base.len() as int) =~= base);
            assert(sync@ =~= orig.subrange(orig.len() - sync@.len(), orig.len() as int));
        }
        let ghost after_sync = effects.direct@;
        let own = self.clients[i].get_user_state();
        effects.direct.push(Outbound { session_id: id, message: ClientMessage::SendMessage(ServerMessage::UserState(own)) });
        effects.direct.push(Outbound {
            session_id: id,
            message: ClientMessage::SendMessage(ServerMessage::ServerSync {
                session: id,
                max_bandwidth: MAX_BANDWIDTH,
                welcome_text: WELCOME_TEXT.to_string(),
            }),
        });
        effects.direct.push(Outbound {
            session_id: id,
            message: ClientMessage::SendMessage(ServerMessage::ServerConfig {
                allow_html: true,
                message_length: 512,
                image_message_length: 0,
            }),
        });
        let broadcast_state = self.clients[i].get_user_state();
        effects.broadcast.push(ServerMessage::UserState(broadcast_state));
        assert forall|m: int| 0 <= m < after_sync.len() implies #[trigger] effects.direct@[m] == after_sync[m] by {}
        assert forall|m: int| 0 <= m < base.len() implies #[trigger] effects.direct@[m] == base[m] by {
            assert(after_sync.subrange(0, base.len() as int)[m] == base[m]);
        }
        assert(orig.len() == self.channels@.len() + self.clients@.len());
        assert forall|m: int| base.len() <= m < effects.direct@.len() implies (#[trigger] effects.direct@[m]).session_id == id by {
            if m < after_sync.len() {
                assert(after_sync[base.len() + (m - base.len())].session_id == id);
            }
        }
        assert forall|j: int| 0 <= j < self.channels@.len() implies ((#[trigger] effects.direct@[base.len() + j]).message matches ClientMessage::SendMessage(ServerMessage::ChannelState(c))
            && c.channel_id == Some(self.channels@[j].id)) by {
            assert(after_sync[base.len() + j].message == ClientMessage::SendMessage(orig[j]));
        }
        assert forall|k: int| 0 <= k < self.clients@.len() implies ((#[trigger] effects.direct@[base.len() + self.channels@.len() + k]).message matches ClientMessage::SendMessage(ServerMessage::UserState(u))
            && u.session == Some(self.clients@[k].session_id)) by {
            let m = self.channels@.len() + k;
            assert(after_sync[base.len() + m].message == ClientMessage::SendMessage(orig[m]));
        }
        assert(effects.direct@.subrange(0, n0 as int) =~= old(effects).direct@) by {
            assert forall|m: int| 0 <= m < n0 implies effects.direct@[m] == old(effects).direct@[m] by {
                assert(base.subrange(0, n0 as int)[m] == old(effects).direct@[m]);
            }
        }
        Some(id)
    }
}

/// Channel talk from a sender that is not muted reaches exactly the members
/// of its channel and the connected listeners of that channel, but never the
/// sender itself.
pub proof fn lemma_channel_talk(st: &ServerState, i: int, s: u32)
    requires
        0 <= i < st.clients@.len(),
        !st.clients@[i].mute,
    ensures
        st.recipients(i, 0).contains(s) <==> s != st.clients@[i].session_id && st.has_channel(
            st.clients@[i].channel_id,
        ) && (st.members(st.clients@[i].channel_id).contains(s) || (st.has_client(s) && exists|j: int|
            0 <= j < st.channels@.len() && #[trigger] st.channels@[j].id == st.clients@[i].channel_id
                && st.channels@[j].listeners@.contains(s))),
{
}

/// Whisper to slot `t` reaches the slot's connected sessions and the hearers
/// of its channels, but never the sender itself.
pub proof fn lemma_whisper(st: &ServerState, i: int, t: u8, s: u32)
    requires
        0 <= i < st.clients@.len(),
        !st.clients@[i].mute,
        1 <= t <= 30,
    ensures
        st.recipients(i, t).contains(s) <==> s != st.clients@[i].session_id
            && st.whisper_set(st.clients@[i].targets@[t - 1]).contains(s),
{
}

/// A muted sender reaches nobody, except itself through loopback, which
/// reaches the sender alone whether or not it is muted.
pub proof fn lemma_mute_and_loopback(st: &ServerState, i: int, t: u8)
    requires
        0 <= i < st.clients@.len(),
    ensures
        st.clients@[i].mute && t != 31 ==> st.recipients(i, t) == Set::<u32>::empty(),
        st.recipients(i, 31) == set![st.clients@[i].session_id],
{
}

impl ServerState {
    /// `self` is `prev` with channels changed in their listeners alone.
    pub proof fn lemma_wf_channels_kept(&self, prev: ServerState)
        requires
            prev.wf(),
            self.clients == prev.clients,
            self.channels@.len() == prev.channels@.len(),
            forall|j: int| 0 <= j < self.channels@.len() ==> (#[trigger] self.channels@[j]).id == prev.channels@[j].id
                && self.channels@[j].temporary == prev.channels@[j].temporary,
        ensures
            self.wf(),
            forall|c: u32| self.has_channel(c) == prev.has_channel(c),
    {
        assert forall|c: u32| self.has_channel(c) == prev.has_channel(c) by {
            if self.has_channel(c) {
                let j = choose|j: int| 0 <= j < self.channels@.len() && #[trigger] self.channels@[j].id == c;
                assert(prev.channels@[j].id == c);
            }
            if prev.has_channel(c) {
                let j = choose|j: int| 0 <= j < prev.channels@.len() && #[trigger] prev.channels@[j].id == c;
                assert(self.channels@[j].id == c);
            }
        }
        assert forall|a: int, b: int|
            0 <= a < b < self.channels@.len() implies #[trigger] self.channels@[a].id != #[trigger] self.channels@[b].id by {
            assert(prev.channels@[a].id != prev.channels@[b].id);
        }
        assert forall|i: int| 0 <= i < self.clients@.len() implies self.has_channel((#[trigger] self.clients@[i]).channel_id) by {
            assert(prev.has_channel(prev.clients@[i].channel_id));
        }
        let r = choose|j: int| 0 <= j < prev.channels@.len() && (#[trigger] prev.channels@[j]).id == 0 && !prev.channels@[j].temporary;
        assert(self.channels@[r].id == 0 && !self.channels@[r].temporary);
    }
}

impl ServerState {
    /// Binds client `i` to UDP peer `addr`, unbinding any other client from it.
    pub fn set_client_socket(&mut self, i: usize, addr: PeerAddr)
        requires
            old(self).wf(),
            i < old(self).clients@.len(),
        ensures
            final(self).wf(),
            final(self).channels == old(self).channels,
            final(self).clients@.len() == old(self).clients@.len(),
            final(self).clients@[i as int].udp_peer == Some(addr),
            forall|k: int| 0 <= k < final(self).clients@.len() && k != i ==> (#[trigger] final(self).clients@[k]).udp_peer
                == (if old(self).clients@[k].udp_peer == Some(addr) { None } else { old(self).clients@[k].udp_peer }),
            forall|k: int| 0 <= k < final(self).clients@.len() ==> (#[trigger] final(self).clients@[k]).session_id
                == old(self).clients@[k].session_id && final(self).clients@[k].crypt_state == old(self).clients@[k].crypt_state,
    {
        self.remove_client_by_socket(addr);
        let ghost before = self.clients@;
        self.clients[i].udp_peer = Some(addr);
        proof {
            self.lemma_wf_after_update(before, i as int);
        }
    }

    /// Unbinds every client from UDP peer `addr`.
    pub fn remove_client_by_socket(&mut self, addr: PeerAddr)
        requires
            old(self).wf(),
        ensures
            final(self).wf(),
            final(self).channels == old(self).channels,
            final(self).clients@.len() == old(self).clients@.len(),
            forall|k: int| 0 <= k < final(self).clients@.len() ==> (#[trigger] final(self).clients@[k]).udp_peer
                == (if old(self).clients@[k].udp_peer == Some(addr) { None } else { old(self).clients@[k].udp_peer }),
            forall|k: int| 0 <= k < final(self).clients@.len() ==> (#[trigger] final(self).clients@[k]).session_id
                == old(self).clients@[k].session_id && final(self).clients@[k].crypt_state == old(self).clients@[k].crypt_state
                && final(self).clients@[k].channel_id == old(self).clients@[k].channel_id,
    {
        let mut k: usize = 0;
        while k < self.clients.len()
            invariant
                self.wf(),
                k <= self.clients@.len(),
                self.channels == old(self).channels,
                self.clients@.len() == old(self).clients@.len(),
                forall|m: int| 0 <= m < k ==> (#[trigger] self.clients@[m]).udp_peer
                    == (if old(self).clients@[m].udp_peer == Some(addr) { None } else { old(self).clients@[m].udp_peer }),
                forall|m: int| k <= m < self.clients@.len() ==> #[trigger] self.clients@[m] == old(self).clients@[m],
                forall|m: int| 0 <= m < self.clients@.len() ==> (#[trigger] self.clients@[m]).session_id
                    == old(self).clients@[m].session_id && self.clients@[m].crypt_state == old(self).clients@[m].crypt_state
                    && self.clients@[m].channel_id == old(self).clients@[m].channel_id,
            decreases self.clients@.len() - k,
        {
            if self.clients[k].udp_peer == Some(addr) {
                let ghost before = self.clients@;
                self.clients[k].udp_peer = None;
                proof {
                    self.lemma_wf_after_update(before, k as int);
                }
            }
            k = k + 1;
        }
    }
}

/// Channel `l` goes once client `i` of `s` leaves it: no other client is in
/// it, no channel is its child, and it is temporary or already gone.
pub open spec fn leave_removable(s: ServerState, i: int, l: u32) -> bool {
    &&& forall|k: int| 0 <= k < s.clients@.len() && k != i ==> (#[trigger] s.clients@[k]).channel_id != l
    &&& forall|j: int| 0 <= j < s.channels@.len() ==> (#[trigger] s.channels@[j]).parent_id != Some(l)
    &&& (!s.has_channel(l) || exists|j: int| 0 <= j < s.channels@.len() && (#[trigger] s.channels@[j]).id == l
        && s.channels@[j].temporary)
}

} // verus!
