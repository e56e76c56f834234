//! Session assembly and the pipe-healing state machine: the decisions of
//! the control loop, with the multiplex's attachment history and dead
//! count as verified state. The runner performs the network work and feeds
//! the outcomes back in.

use vstd::prelude::*;
use crate::addr::SockAddr;
use crate::bridge::{
    BridgeDescriptor, ExitRecord, DIRECT_GROUP, eligible, views_of, spec_filter_bridges,
    spec_exit_key, string_is, filter_bridges, extract_exit_key,
};
use crate::dial::{spec_sess_id, format_sess_id, DialPlan};
use crate::bridge::{UDP_TAG, TLS_TAG};

verus! {

/// Seconds of user inactivity after which the healer stops waking.
pub const ACTIVITY_WINDOW_SECS: u64 = 300;

/// Lower bound, in milliseconds, of the healer's random dwell before each
/// round; the dwell jitters reconnect storms.
pub const HEAL_JITTER_MIN_MS: u64 = 1000;

/// Upper bound, in milliseconds, of the healer's random dwell; the draw is
/// uniform in the half-open range between the two bounds.
pub const HEAL_JITTER_MAX_MS: u64 = 3000;

/// Why a session could not be assembled.
#[derive(Clone, Copy, Debug, PartialEq, Eq, Structural)]
pub enum SessError {
    /// The directory named no exit.
    NoExit,
    /// The directory returned no bridges for the exit.
    NoBridges,
    /// No bridge carried a well-formed end-to-end key.
    NoKey,
}

/// What one attached pipe records, as mathematical values.
#[verifier::ext_equal]
pub struct PipeView {
    pub protocol: Seq<char>,
    pub peer: SockAddr,
    pub sess_id: Seq<char>,
    pub alloc_group: Seq<char>,
}

/// One pipe as the core remembers it after a successful dial: its protocol,
/// its peer, the session identifier it was dialed with, and the allocation
/// group of the bridge it came from.
#[derive(Debug)]
pub struct PipeInfo {
    pub protocol: String,
    pub peer: SockAddr,
    pub sess_id: String,
    pub alloc_group: String,
}

impl View for PipeInfo {
    type V = PipeView;

    open spec fn view(&self) -> PipeView {
        PipeView {
            protocol: self.protocol@,
            peer: self.peer,
            sess_id: self.sess_id@,
            alloc_group: self.alloc_group@,
        }
    }
}

/// What a session is, as mathematical values.
#[verifier::ext_equal]
pub struct SessionView {
    pub sess_id: Seq<char>,
    pub exit_key: Seq<u8>,
    pub exit_hostname: Seq<char>,
    pub use_bridges: bool,
    pub attached: Seq<PipeView>,
    pub dead_count: nat,
}

/// A session is well formed when its end-to-end key is 32 bytes, every pipe
/// in its attachment history was dialed with the session's own identifier,
/// and — under bridges-only policy — none came from the `direct` group.
pub open spec fn session_wf(s: SessionView) -> bool {
    &&& s.exit_key.len() == 32
    &&& forall|i: int|
        0 <= i < s.attached.len() ==> (#[trigger] s.attached[i]).sess_id == s.sess_id
    &&& s.use_bridges ==> forall|i: int|
        0 <= i < s.attached.len() ==> (#[trigger] s.attached[i]).alloc_group != DIRECT_GROUP@
}

/// One session: the identifier drawn at assembly, the exit's multiplex
/// public key, the policy in force, the history of attached pipes, and the
/// number of pruned pipes not yet replaced.
#[derive(Debug)]
pub struct Session {
    pub sess_id: String,
    pub exit_key: Vec<u8>,
    pub exit_hostname: String,
    pub use_bridges: bool,
    pub attached: Vec<PipeInfo>,
    pub dead_count: u64,
}

impl View for Session {
    type V = SessionView;

    open spec fn view(&self) -> SessionView {
        SessionView {
            sess_id: self.sess_id@,
            exit_key: self.exit_key@,
            exit_hostname: self.exit_hostname@,
            use_bridges: self.use_bridges,
            attached: self.attached@.map_values(|p: PipeInfo| p@),
            dead_count: self.dead_count as nat,
        }
    }
}

/// Assembles a session from what the directory answered: resolves the exit,
/// refuses an empty bridge list, extracts the end-to-end key from the first
/// well-formed obfuscated-UDP bridge, fixes the session identifier from the
/// given draw, and returns the fresh session together with the bridges that
/// survive the policy filter — the ones to dial.
pub fn assemble_session(
    exit: Option<ExitRecord>,
    bridges: &Vec<BridgeDescriptor>,
    use_bridges: bool,
    sess_rand: u128,
) -> (r: Result<(Session, Vec<BridgeDescriptor>), SessError>)
    ensures
        match r {
            Ok(p) => {
                &&& exit is Some
                &&& bridges@.len() > 0
                &&& spec_exit_key(views_of(bridges@)) == Some(p.0@.exit_key)
                &&& p.0@.sess_id == spec_sess_id(sess_rand)
                &&& p.0@.exit_hostname == exit->Some_0.hostname@
                &&& p.0@.use_bridges == use_bridges
                &&& p.0@.attached.len() == 0
                &&& p.0@.dead_count == 0
                &&& session_wf(p.0@)
                &&& views_of(p.1@) == spec_filter_bridges(views_of(bridges@), use_bridges)
                &&& forall|i: int|
                    0 <= i < p.1@.len() ==> eligible(#[trigger] p.1@[i]@, use_bridges)
            },
            Err(e) => {
                &&& (e == SessError::NoExit <==> exit is None)
                &&& (e == SessError::NoBridges <==> exit is Some && bridges@.len() == 0)
                &&& (e == SessError::NoKey <==> exit is Some && bridges@.len() > 0
                    && spec_exit_key(views_of(bridges@)) is None)
            },
        },
{
    let ex = match exit {
        None => {
            return Err(SessError::NoExit);
        },
        Some(ex) => ex,
    };
    if bridges.len() == 0 {
        return Err(SessError::NoBridges);
    }
    let key = match extract_exit_key(bridges) {
        None => {
            return Err(SessError::NoKey);
        },
        Some(k) => k,
    };
    let to_dial = filter_bridges(bridges, use_bridges);
    let sess_id = format_sess_id(sess_rand);
    let session = Session {
        sess_id,
        exit_key: key,
        exit_hostname: ex.hostname,
        use_bridges,
        attached: Vec::new(),
        dead_count: 0,
    };
    proof {
        assert(session@.attached =~= Seq::<PipeView>::empty());
    }
    Ok((session, to_dial))
}

impl Session {
    /// Records one pipe that a successful dial attached to the multiplex.
    /// The pipe must carry this session's identifier and respect the
    /// bridges-only policy; both are guaranteed for every plan this library
    /// makes.
    pub fn attach_pipe(&mut self, info: PipeInfo)
        requires
            session_wf(old(self)@),
            info@.sess_id == old(self)@.sess_id,
            old(self)@.use_bridges ==> info@.alloc_group != DIRECT_GROUP@,
        ensures
            final(self)@ == (SessionView {
                attached: old(self)@.attached.push(info@),
                ..old(self)@
            }),
            session_wf(final(self)@),
    {
        let ghost prev = self@;
        self.attached.push(info);
        proof {
            assert(self@.attached =~= prev.attached.push(info@));
            assert(self@ =~= (SessionView { attached: prev.attached.push(info@), ..prev }));
        }
    }

    /// Adds the pipes the sweep just pruned to the running dead count.
    pub fn note_pruned(&mut self, cleared: u64)
        requires
            session_wf(old(self)@),
            old(self).dead_count + cleared <= u64::MAX,
        ensures
            final(self)@ == (SessionView {
                dead_count: (old(self)@.dead_count + cleared) as nat,
                ..old(self)@
            }),
            session_wf(final(self)@),
    {
        let ghost prev = self@;
        self.dead_count = self.dead_count + cleared;
        proof {
            assert(self@ =~= (SessionView { dead_count: (prev.dead_count + cleared) as nat, ..prev }));
        }
    }

    /// True while the healer still owes replacement pipes.
    pub fn needs_healing(&self) -> (r: bool)
        ensures
            r == (self@.dead_count > 0),
    {
        self.dead_count > 0
    }

    /// One successful healing step: the replacement pipe is recorded and one
    /// dead slot is repaid.
    pub fn heal_attach(&mut self, info: PipeInfo)
        requires
            session_wf(old(self)@),
            old(self)@.dead_count > 0,
            info@.sess_id == old(self)@.sess_id,
            old(self)@.use_bridges ==> info@.alloc_group != DIRECT_GROUP@,
        ensures
            final(self)@ == spec_heal_attach(old(self)@, info@),
            session_wf(final(self)@),
    {
        let ghost prev = self@;
        self.attached.push(info);
        self.dead_count = self.dead_count - 1;
        proof {
            assert(self@.attached =~= prev.attached.push(info@));
            assert(self@ =~= spec_heal_attach(prev, info@));
        }
    }

    /// A healing round that found no bridge at all still repays the slot, as
    /// the control loop does.
    pub fn heal_no_bridge(&mut self)
        requires
            session_wf(old(self)@),
            old(self)@.dead_count > 0,
        ensures
            final(self)@ == (SessionView {
                dead_count: (old(self)@.dead_count - 1) as nat,
                ..old(self)@
            }),
            session_wf(final(self)@),
    {
        let ghost prev = self@;
        self.dead_count = self.dead_count - 1;
        proof {
            assert(self@ =~= (SessionView {
                dead_count: (prev.dead_count - 1) as nat,
                ..prev
            }));
        }
    }

    /// What to do with the first bridge of the freshly shuffled list: stop
    /// the round when it breaks the bridges-only policy (compliance
    /// overrides liveness), repay the slot when there is none, dial it
    /// otherwise.
    pub fn heal_pick(&self, first: Option<&BridgeDescriptor>) -> (r: HealAction)
        ensures
            (r == HealAction::StopRound) <==> (first is Some && self@.use_bridges
                && first->Some_0@.alloc_group == DIRECT_GROUP@),
            (r == HealAction::SkipSlot) <==> (first is None),
            (r == HealAction::DialFirst) <==> (first is Some && eligible(
                first->Some_0@,
                self@.use_bridges,
            )),
    {
        match first {
            None => HealAction::SkipSlot,
            Some(b) => {
                if self.use_bridges && string_is(&b.alloc_group, DIRECT_GROUP) {
                    HealAction::StopRound
                } else {
                    HealAction::DialFirst
                }
            },
        }
    }
}

/// The pipe record a successful dial leaves behind: the plan's protocol,
/// peer and session identifier, and the allocation group of the bridge the
/// plan was made for.
pub fn pipe_record(plan: &DialPlan, bridge: &BridgeDescriptor) -> (r: PipeInfo)
    ensures
        r@.protocol == plan.spec_protocol(),
        r@.peer == plan.spec_endpoint(),
        r@.sess_id == plan.spec_sess_id(),
        r@.alloc_group == bridge@.alloc_group,
{
    let (protocol, peer, sess_id) = match plan {
        DialPlan::Udp { endpoint, sess_id, .. } => (UDP_TAG.to_owned(), *endpoint, sess_id),
        DialPlan::Tls { endpoint, sess_id, .. } => (TLS_TAG.to_owned(), *endpoint, sess_id),
    };
    PipeInfo {
        protocol,
        peer,
        sess_id: sess_id.clone(),
        alloc_group: bridge.alloc_group.clone(),
    }
}

/// The healer's choice for one drained slot.
#[derive(Clone, Copy, Debug, PartialEq, Eq, Structural)]
pub enum HealAction {
    /// The shuffled head violates the bridges-only policy: end this round.
    StopRound,
    /// The refreshed list is empty: repay the slot without dialing.
    SkipSlot,
    /// Dial the shuffled head.
    DialFirst,
}

/// The healer's fate on each wake: it goes on exactly while the multiplex is
/// still alive.
#[derive(Clone, Copy, Debug, PartialEq, Eq, Structural)]
pub enum HealerPoll {
    Continue,
    Terminate,
}

/// Decides the healer's fate from one attempt to reach the multiplex. The
/// healer holds the multiplex only weakly; the moment the last strong
/// reference is gone the upgrade fails and the healer ends — within one
/// loop period.
pub fn healer_poll(upgraded: bool) -> (r: HealerPoll)
    ensures
        (r == HealerPoll::Terminate) <==> !upgraded,
{
    if upgraded {
        HealerPoll::Continue
    } else {
        HealerPoll::Terminate
    }
}

/// One successful healing step, on the mathematical session.
pub open spec fn spec_heal_attach(s: SessionView, p: PipeView) -> SessionView {
    SessionView {
        attached: s.attached.push(p),
        dead_count: (s.dead_count - 1) as nat,
        ..s
    }
}

/// A run of successful healing steps, one per pipe.
pub open spec fn spec_heal_run(s: SessionView, ps: Seq<PipeView>) -> SessionView
    decreases ps.len(),
{
    if ps.len() == 0 {
        s
    } else {
        spec_heal_run(spec_heal_attach(s, ps[0]), ps.drop_first())
    }
}

/// Healer liveness: a well-formed session with `k` dead slots, fed one
/// successful replacement per slot — each dialed with the session's own
/// identifier and respecting the policy — ends with no dead slot, its
/// history extended by exactly those pipes, still well formed.
pub proof fn lemma_healer_restores(s: SessionView, ps: Seq<PipeView>)
    requires
        session_wf(s),
        ps.len() == s.dead_count,
        forall|i: int| 0 <= i < ps.len() ==> (#[trigger] ps[i]).sess_id == s.sess_id,
        s.use_bridges ==> forall|i: int|
            0 <= i < ps.len() ==> (#[trigger] ps[i]).alloc_group != DIRECT_GROUP@,
    ensures
        spec_heal_run(s, ps).dead_count == 0,
        spec_heal_run(s, ps).attached == s.attached + ps,
        spec_heal_run(s, ps).sess_id == s.sess_id,
        session_wf(spec_heal_run(s, ps)),
    decreases ps.len(),
{
    if ps.len() == 0 {
        assert(spec_heal_run(s, ps).attached =~= s.attached + ps);
    } else {
        let s1 = spec_heal_attach(s, ps[0]);
        assert(session_wf(s1)) by {
            assert(forall|i: int|
                0 <= i < s.attached.len() ==> s1.attached[i] == s.attached[i]);
            assert(s1.attached.last() == ps[0]);
        }
        let t = ps.drop_first();
        assert(forall|i: int| 0 <= i < t.len() ==> t[i] == ps[i + 1]);
        lemma_healer_restores(s1, t);
        assert(spec_heal_run(s, ps) == spec_heal_run(s1, t));
        assert(s1.attached + t =~= s.attached + ps);
    }
}

/// Session-id stability: in a well-formed session, every pipe of the
/// attachment history — initial or healed — carries the session's own
/// identifier.
pub proof fn lemma_session_id_stability(s: SessionView, i: int)
    requires
        session_wf(s),
        0 <= i < s.attached.len(),
    ensures
        s.attached[i].sess_id == s.sess_id,
{
}

/// Filter soundness: under bridges-only policy, no pipe of a well-formed
/// session's attachment history came from the `direct` allocation group.
pub proof fn lemma_filter_soundness(s: SessionView, i: int)
    requires
        session_wf(s),
        s.use_bridges,
        0 <= i < s.attached.len(),
    ensures
        s.attached[i].alloc_group != DIRECT_GROUP@,
{
}

} // verus!
