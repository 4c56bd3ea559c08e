//! Session state synchronizer.
//!
//! The synchronizer is the single owner of the session state: the roster of
//! online users, the message history, and the local identity fixed at
//! construction.  Inbound frame texts are decoded through the codec and
//! reconciled by [`step`]; user intents become outbound frame texts.  The
//! transport itself is a collaborator outside this crate: construction and
//! [`Synchronizer::submit_message`] hand back the frame text that must be
//! sent, and the caller reports a failed send — a failed send never changes
//! the state here, a submitted message enters the history only when the
//! server echoes it back.

use vstd::prelude::*;
use vstd::string::*;
use crate::codec::decode_event;
use crate::codec::encode_message;
use crate::codec::encode_register;
use crate::codec::spec_decode_event;
use crate::codec::spec_encode_message;
use crate::codec::spec_encode_register;
use crate::codec::DomainEvent;
use crate::codec::EventV;
use crate::codec::ProtocolDecodeError;

verus! {

// ---------------------------------------------------------------------------
// Avatar derivation
// ---------------------------------------------------------------------------

/// The avatar reference derived from a participant's name.
pub open spec fn spec_avatar(name: Seq<char>) -> Seq<char> {
    "https://avatars.dicebear.com/api/adventurer-neutral/"@ + name + ".svg"@
}

/// The avatar reference for `name`.  Purely a function of the name, so two
/// independent holders of the same name always compute the same reference.
pub fn avatar(name: &str) -> (r: String)
    ensures
        r@ == spec_avatar(name@),
{
    let mut out = String::new();
    out.append("https://avatars.dicebear.com/api/adventurer-neutral/");
    out.append(name);
    out.append(".svg");
    proof {
        assert(out@ =~= spec_avatar(name@));
    }
    out
}

/// The avatar derivation is deterministic: equal names yield identical
/// references.
pub proof fn lemma_avatar_deterministic(a: Seq<char>, b: Seq<char>)
    requires
        a == b,
    ensures
        spec_avatar(a) == spec_avatar(b),
{
}

// ---------------------------------------------------------------------------
// Session data
// ---------------------------------------------------------------------------

/// One online participant: a name and the avatar reference derived from it.
#[derive(Debug)]
pub struct UserProfile {
    pub name: String,
    pub avatar: String,
}

pub ghost struct UserProfileV {
    pub name: Seq<char>,
    pub avatar: Seq<char>,
}

impl View for UserProfile {
    type V = UserProfileV;

    open spec fn view(&self) -> UserProfileV {
        UserProfileV { name: self.name@, avatar: self.avatar@ }
    }
}

/// One received chat message.  The sender need not be in the current
/// roster: participants who left stay attributable.
#[derive(Debug)]
pub struct ChatMessage {
    pub from: String,
    pub body: String,
}

pub ghost struct ChatMessageV {
    pub from: Seq<char>,
    pub body: Seq<char>,
}

impl View for ChatMessage {
    type V = ChatMessageV;

    open spec fn view(&self) -> ChatMessageV {
        ChatMessageV { from: self.from@, body: self.body@ }
    }
}

pub open spec fn views_of_users(us: Seq<UserProfile>) -> Seq<UserProfileV> {
    Seq::new(us.len(), |i: int| us[i]@)
}

pub open spec fn views_of_messages(ms: Seq<ChatMessage>) -> Seq<ChatMessageV> {
    Seq::new(ms.len(), |i: int| ms[i]@)
}

/// The profile the synchronizer builds for one roster name.
pub open spec fn profile_for(name: Seq<char>) -> UserProfileV {
    UserProfileV { name: name, avatar: spec_avatar(name) }
}

/// One profile per roster name, in the order given.
pub open spec fn roster_users(names: Seq<Seq<char>>) -> Seq<UserProfileV> {
    Seq::new(names.len(), |i: int| profile_for(names[i]))
}

/// The aggregate a presentation layer reads.
#[derive(Debug)]
pub struct SessionState {
    pub users: Vec<UserProfile>,
    pub messages: Vec<ChatMessage>,
    pub self_name: String,
}

pub ghost struct SessionStateV {
    pub users: Seq<UserProfileV>,
    pub messages: Seq<ChatMessageV>,
    pub self_name: Seq<char>,
}

impl View for SessionState {
    type V = SessionStateV;

    open spec fn view(&self) -> SessionStateV {
        SessionStateV {
            users: views_of_users(self.users@),
            messages: views_of_messages(self.messages@),
            self_name: self.self_name@,
        }
    }
}

// ---------------------------------------------------------------------------
// The reconciliation rules, as a transition function
// ---------------------------------------------------------------------------

/// The reconciled collections, without the fixed identity.
pub ghost struct StateV {
    pub users: Seq<UserProfileV>,
    pub messages: Seq<ChatMessageV>,
}

/// How one decoded event changes the reconciled collections: a roster
/// snapshot replaces the users wholesale, a received message is appended
/// to the history, and an unrecognized frame changes nothing.
pub open spec fn step(st: StateV, ev: EventV) -> StateV {
    match ev {
        EventV::RosterReplaced { names } => StateV {
            users: roster_users(names),
            messages: st.messages,
        },
        EventV::MessageReceived { from, body } => StateV {
            users: st.users,
            messages: st.messages.push(ChatMessageV { from, body }),
        },
        EventV::Unrecognized => st,
    }
}

/// The state after applying a sequence of events in order.
pub open spec fn run(st: StateV, evs: Seq<EventV>) -> StateV
    decreases evs.len(),
{
    if evs.len() == 0 {
        st
    } else {
        run(step(st, evs[0]), evs.drop_first())
    }
}

// ---------------------------------------------------------------------------
// The synchronizer
// ---------------------------------------------------------------------------

/// The synchronizer's lifecycle: accepting inbound events and outbound
/// intents, or torn down, after which every operation is a no-op.
#[derive(Debug)]
pub enum Lifecycle {
    Active,
    Closed,
}

/// What one inbound frame did: mutated the state (so a change notification
/// is due), was tolerated without a change, or failed to decode (reported,
/// dropped, never fatal to the stream).
#[derive(Debug)]
pub enum InboundOutcome {
    Changed,
    Ignored,
    DecodeFailed(ProtocolDecodeError),
}

/// The session state synchronizer: single owner and single writer of the
/// session state.
pub struct Synchronizer {
    state: SessionState,
    lifecycle: Lifecycle,
}

pub ghost struct SynchronizerV {
    pub users: Seq<UserProfileV>,
    pub messages: Seq<ChatMessageV>,
    pub self_name: Seq<char>,
    pub active: bool,
}

impl View for Synchronizer {
    type V = SynchronizerV;

    closed spec fn view(&self) -> SynchronizerV {
        SynchronizerV {
            users: self.state@.users,
            messages: self.state@.messages,
            self_name: self.state@.self_name,
            active: self.lifecycle is Active,
        }
    }
}

impl SynchronizerV {
    /// The reconciled part of the state.
    pub open spec fn reconciled(self) -> StateV {
        StateV { users: self.users, messages: self.messages }
    }
}

/// Whether `c` is blank space.
pub open spec fn is_space(c: char) -> bool {
    c == ' ' || c == '\t' || c == '\n' || c == '\r'
}

/// Whether `t` is empty once trimmed of blank space.
pub open spec fn is_blank(t: Seq<char>) -> bool {
    forall|i: int| 0 <= i < t.len() ==> is_space(t[i])
}

/// Build one profile per roster name, in order.
fn profiles_for(names: &Vec<String>) -> (r: Vec<UserProfile>)
    ensures
        views_of_users(r@) == roster_users(names.deep_view()),
{
    let mut r: Vec<UserProfile> = Vec::new();
    let mut i: usize = 0;
    while i < names.len()
        invariant
            i <= names.len(),
            views_of_users(r@) == roster_users(names.deep_view().take(i as int)),
        decreases names.len() - i,
    {
        let name = names[i].clone();
        let av = avatar(names[i].as_str());
        let ghost r0 = r@;
        let ghost pv = UserProfileV { name: name@, avatar: av@ };
        proof {
            assert(pv == profile_for(names.deep_view()[i as int]));
        }
        r.push(UserProfile { name, avatar: av });
        i = i + 1;
        proof {
            let nv = names.deep_view();
            assert(views_of_users(r0).len() == r0.len());
            assert(roster_users(nv.take(i as int - 1)).len() == i as int - 1);
            assert(r0.len() == i as int - 1);
            assert forall|j: int| 0 <= j < i implies views_of_users(r@)[j] == roster_users(
                nv.take(i as int),
            )[j] by {
                assert(nv.take(i as int)[j] == nv[j]);
                if j < i as int - 1 {
                    assert(views_of_users(r0)[j] == roster_users(nv.take(i as int - 1))[j]);
                    assert(roster_users(nv.take(i as int - 1))[j] == profile_for(nv[j]));
                    assert(r@[j] == r0[j]);
                } else {
                    assert(r@[j]@ == pv);
                    assert(pv == profile_for(nv[j]));
                }
            }
            assert(views_of_users(r@) =~= roster_users(nv.take(i as int)));
        }
    }
    proof {
        assert(names.deep_view().take(names.len() as int) =~= names.deep_view());
    }
    r
}

impl Synchronizer {
    /// Construction: a fresh, empty, active session for `self_name`, and
    /// the registration frame that announces it.  The caller hands that
    /// frame to the transport; registration is fire-and-forget, so a failed
    /// send is reported by the caller and never prevents construction.
    pub fn create(self_name: String) -> (r: (Synchronizer, String))
        ensures
            r.0@.users == Seq::<UserProfileV>::empty(),
            r.0@.messages == Seq::<ChatMessageV>::empty(),
            r.0@.self_name == self_name@,
            r.0@.active,
            r.1@ == spec_encode_register(self_name@),
    {
        let frame = encode_register(self_name.as_str());
        let s = Synchronizer {
            state: SessionState { users: Vec::new(), messages: Vec::new(), self_name },
            lifecycle: Lifecycle::Active,
        };
        proof {
            assert(s@.users =~= Seq::<UserProfileV>::empty());
            assert(s@.messages =~= Seq::<ChatMessageV>::empty());
        }
        (s, frame)
    }

    /// Read-only snapshot of the session state.
    pub fn current_state(&self) -> (r: &SessionState)
        ensures
            r@.users == self@.users,
            r@.messages == self@.messages,
            r@.self_name == self@.self_name,
    {
        &self.state
    }

    /// Whether the synchronizer still accepts events and intents.
    pub fn is_active(&self) -> (r: bool)
        ensures
            r == self@.active,
    {
        match self.lifecycle {
            Lifecycle::Active => true,
            Lifecycle::Closed => false,
        }
    }

    /// Tear-down: the state stays readable, every later operation no-ops.
    pub fn close(&mut self)
        ensures
            final(self)@.users == old(self)@.users,
            final(self)@.messages == old(self)@.messages,
            final(self)@.self_name == old(self)@.self_name,
            !final(self)@.active,
    {
        self.lifecycle = Lifecycle::Closed;
    }

    /// Decode one inbound frame text and reconcile the state with it.
    ///
    /// A roster snapshot replaces `users` wholesale, a received message is
    /// appended to `messages` (both due a change notification), an
    /// unrecognized kind is tolerated silently, and a malformed frame is
    /// reported and dropped without touching the state; none of these ever
    /// escapes to the caller as a failure.  After close, a no-op.
    pub fn handle_inbound(&mut self, raw: &str) -> (o: InboundOutcome)
        ensures
            !old(self)@.active ==> final(self)@ == old(self)@ && o is Ignored,
            old(self)@.active ==> final(self)@.active && final(self)@.self_name == old(
                self,
            )@.self_name,
            old(self)@.active ==> match spec_decode_event(raw@) {
                Some(ev) => {
                    &&& final(self)@.reconciled() == step(old(self)@.reconciled(), ev)
                    &&& (ev is Unrecognized ==> o is Ignored && final(self)@ == old(self)@)
                    &&& (!(ev is Unrecognized) ==> o is Changed)
                },
                None => {
                    &&& final(self)@ == old(self)@
                    &&& o matches InboundOutcome::DecodeFailed(e) && e.raw@ == raw@
                },
            },
    {
        match self.lifecycle {
            Lifecycle::Closed => {
                return InboundOutcome::Ignored;
            },
            Lifecycle::Active => {},
        }
        match decode_event(raw) {
            Err(e) => InboundOutcome::DecodeFailed(e),
            Ok(ev) => match ev {
                DomainEvent::Unrecognized => InboundOutcome::Ignored,
                DomainEvent::RosterReplaced { names } => {
                    let users = profiles_for(&names);
                    self.state.users = users;
                    InboundOutcome::Changed
                },
                DomainEvent::MessageReceived { from, body } => {
                    self.state.messages.push(ChatMessage { from, body });
                    proof {
                        assert(views_of_messages(self.state.messages@) =~= views_of_messages(
                            old(self).state.messages@,
                        ).push(ChatMessageV { from: from@, body: body@ }));
                    }
                    InboundOutcome::Changed
                },
            },
        }
    }

    /// Encode the outbound chat frame for `body` — unless the synchronizer
    /// is closed or `body` trims to nothing, in which case nothing is to be
    /// sent.  The state never changes here: a submitted message enters the
    /// history only when the server echoes it back, so a failed send leaves
    /// no phantom entry.
    pub fn submit_message(&self, body: &str) -> (r: Option<String>)
        ensures
            self@.active && !is_blank(body@) ==> (r matches Some(f) && f@ == spec_encode_message(
                body@,
            )),
            !(self@.active && !is_blank(body@)) ==> r is None,
    {
        match self.lifecycle {
            Lifecycle::Closed => {
                return None;
            },
            Lifecycle::Active => {},
        }
        let n = body.unicode_len();
        let mut i: usize = 0;
        while i < n
            invariant
                self@.active,
                n == body@.len(),
                i <= n,
                forall|j: int| 0 <= j < i ==> is_space(body@[j]),
            decreases n - i,
        {
            let c = body.get_char(i);
            if !(c == ' ' || c == '\t' || c == '\n' || c == '\r') {
                proof {
                    assert(!is_space(body@[i as int]));
                    assert(!is_blank(body@));
                    assert(self@.active);
                }
                return Some(encode_message(body));
            }
            i = i + 1;
        }
        proof {
            assert(is_blank(body@));
        }
        None
    }
}

// ---------------------------------------------------------------------------
// Laws of the event stream
// ---------------------------------------------------------------------------

/// Applying a sequence and then one more event is applying that event to
/// the state the sequence produced.
pub proof fn lemma_run_snoc(st: StateV, evs: Seq<EventV>, ev: EventV)
    ensures
        run(st, evs.push(ev)) == step(run(st, evs), ev),
    decreases evs.len(),
{
    if evs.len() == 0 {
        assert(evs.push(ev)[0] == ev);
        assert(evs.push(ev).drop_first() =~= Seq::<EventV>::empty());
        assert(run(step(st, ev), Seq::<EventV>::empty()) == step(st, ev));
        assert(run(st, evs) == st);
    } else {
        assert(evs.push(ev)[0] == evs[0]);
        assert(evs.push(ev).drop_first() =~= evs.drop_first().push(ev));
        lemma_run_snoc(step(st, evs[0]), evs.drop_first(), ev);
    }
}

/// However the session got where it is, a roster snapshot replaces the
/// users wholesale: after any event sequence ending in `RosterReplaced`,
/// `users` is exactly one profile per name of that last snapshot, in its
/// order, each carrying the name and its derived avatar; and a snapshot
/// without duplicate names yields users without duplicate names.
pub proof fn lemma_roster_replaces_wholesale(st: StateV, evs: Seq<EventV>, names: Seq<Seq<char>>)
    ensures
        run(st, evs.push(EventV::RosterReplaced { names })).users == roster_users(names),
        roster_users(names).len() == names.len(),
        forall|i: int| 0 <= i < names.len() ==> roster_users(names)[i] == profile_for(names[i]),
        (forall|i: int, j: int| 0 <= i < j < names.len() ==> names[i] != names[j]) ==> (forall|
            i: int,
            j: int,
        |
            0 <= i < j < names.len() ==> roster_users(names)[i].name != roster_users(
                names,
            )[j].name),
{
    lemma_run_snoc(st, evs, EventV::RosterReplaced { names });
}

/// The messages a sequence of events appends, in receipt order.
pub open spec fn messages_of(evs: Seq<EventV>) -> Seq<ChatMessageV>
    decreases evs.len(),
{
    if evs.len() == 0 {
        Seq::empty()
    } else {
        (match evs[0] {
            EventV::MessageReceived { from, body } => seq![ChatMessageV { from, body }],
            _ => Seq::empty(),
        }) + messages_of(evs.drop_first())
    }
}

/// History is append-only in receipt order: after any event sequence, the
/// messages are those already present followed by exactly the received
/// messages, in order, with nothing reordered, lost or invented; in
/// particular the length grows by exactly the number of `MessageReceived`
/// events.
pub proof fn lemma_messages_append_only(st: StateV, evs: Seq<EventV>)
    ensures
        run(st, evs).messages == st.messages + messages_of(evs),
        run(st, evs).messages.len() == st.messages.len() + messages_of(evs).len(),
    decreases evs.len(),
{
    if evs.len() == 0 {
        assert(st.messages + messages_of(evs) =~= st.messages);
    } else {
        lemma_messages_append_only(step(st, evs[0]), evs.drop_first());
        match evs[0] {
            EventV::MessageReceived { from, body } => {
                assert(step(st, evs[0]).messages + messages_of(evs.drop_first()) =~= st.messages
                    + (seq![ChatMessageV { from, body }] + messages_of(evs.drop_first())));
            },
            _ => {
                assert(step(st, evs[0]).messages + messages_of(evs.drop_first()) =~= st.messages
                    + (Seq::<ChatMessageV>::empty() + messages_of(evs.drop_first())));
            },
        }
    }
}

} // verus!
