//! The per-connection session: its state machine and the registry
//! operations it performs at each stage of its life.
//!
//! A session is created when the listener accepts a connection, obtains a
//! display name in a blocking handshake, participates in the broadcast
//! while active, and on teardown removes its handle and announces its
//! departure. The transitions here are pure decisions; the surrounding
//! program performs the network reads and writes and feeds the outcome
//! back as a [`SessionEvent`].

use vstd::prelude::*;
use tokio::sync::mpsc::UnboundedSender;
use crate::protocol::{join_notice, join_notice_seq, exit_notice, exit_notice_seq};
use crate::registry::Registry;

verus! {

/// Where a session stands between accept and teardown.
#[derive(Clone, Copy, Debug, PartialEq, Eq, Structural)]
pub enum SessionState {
    /// The transport connection is being established.
    Connecting,
    /// Waiting for the first text frame, the peer's display name.
    Handshaking,
    /// Registered and participating in the broadcast.
    Active,
    /// A read error, end of stream or write failure was seen; the loops
    /// are winding down.
    Closing,
    /// Both loops have exited and the registry entry is gone.
    Closed,
}

/// What the network and the session's two loops can report.
#[derive(Clone, Copy, Debug, PartialEq, Eq, Structural)]
pub enum SessionEvent {
    /// The transport connection was accepted and upgraded.
    Accepted,
    /// The first inbound frame was a text message: the display name.
    NameReceived,
    /// The first inbound frame was missing or not text.
    HandshakeFailed,
    /// A network-level read error on an active session.
    ReadError,
    /// The inbound stream ended without an explicit error.
    EndOfStream,
    /// A network write failed; the peer is treated as gone.
    WriteFailed,
    /// Both the reader and the writer loop have terminated and the
    /// registry entry has been removed.
    LoopsExited,
}

/// The session state machine: `Connecting -> Handshaking` on accept,
/// `Handshaking -> Active` only on a first text frame,
/// `Handshaking -> Closed` directly on handshake failure,
/// `Active -> Closing` on the first read error, end of stream or write
/// failure, and `Closing -> Closed` once both loops have exited. An
/// event that does not apply to the current state leaves it unchanged.
pub open spec fn step_spec(s: SessionState, e: SessionEvent) -> SessionState {
    match (s, e) {
        (SessionState::Connecting, SessionEvent::Accepted) => SessionState::Handshaking,
        (SessionState::Handshaking, SessionEvent::NameReceived) => SessionState::Active,
        (SessionState::Handshaking, SessionEvent::HandshakeFailed) => SessionState::Closed,
        (SessionState::Active, SessionEvent::ReadError) => SessionState::Closing,
        (SessionState::Active, SessionEvent::EndOfStream) => SessionState::Closing,
        (SessionState::Active, SessionEvent::WriteFailed) => SessionState::Closing,
        (SessionState::Closing, SessionEvent::LoopsExited) => SessionState::Closed,
        (_, _) => s,
    }
}

/// Advances a session's state by one observed event.
pub fn session_step(s: SessionState, e: SessionEvent) -> (r: SessionState)
    ensures
        r == step_spec(s, e),
{
    match (s, e) {
        (SessionState::Connecting, SessionEvent::Accepted) => SessionState::Handshaking,
        (SessionState::Handshaking, SessionEvent::NameReceived) => SessionState::Active,
        (SessionState::Handshaking, SessionEvent::HandshakeFailed) => SessionState::Closed,
        (SessionState::Active, SessionEvent::ReadError) => SessionState::Closing,
        (SessionState::Active, SessionEvent::EndOfStream) => SessionState::Closing,
        (SessionState::Active, SessionEvent::WriteFailed) => SessionState::Closing,
        (SessionState::Closing, SessionEvent::LoopsExited) => SessionState::Closed,
        (_, _) => s,
    }
}

/// A closed session never comes back: no event leads out of `Closed`.
pub proof fn lemma_closed_is_final(e: SessionEvent)
    ensures
        step_spec(SessionState::Closed, e) == SessionState::Closed,
{
}

/// Registers a freshly named peer and announces it: the handle is
/// inserted first, then the join notice goes to every registered handle,
/// the new one included — self-notification is part of the contract.
/// Fails only when the identifier space is exhausted; then nothing is
/// registered and nothing is broadcast.
pub fn client_joins(reg: &mut Registry, tx: UnboundedSender<String>, name: &str) -> (r: Option<
    u64,
>)
    requires
        old(reg).wf(),
    ensures
        final(reg).wf(),
        r is Some <==> old(reg).can_register(),
        match r {
            Some(id) => {
                &&& !old(reg).ids().contains(id)
                &&& final(reg).ids() == old(reg).ids().push(id)
                &&& final(reg).sent().dom() == old(reg).sent().dom().insert(id)
                &&& forall|c: u64| old(reg).sent().dom().contains(c)
                    ==> #[trigger] final(reg).sent()[c] == old(reg).sent()[c].push(
                    join_notice_seq(name@),
                )
                &&& final(reg).sent()[id] == seq![join_notice_seq(name@)]
            },
            None => *final(reg) == *old(reg),
        },
{
    let id_opt = reg.register(tx);
    match id_opt {
        Some(id) => {
            let ghost mid = *reg;
            let notice = join_notice(name);
            reg.broadcast(notice.as_str());
            proof {
                assert(!old(reg).sent().dom().contains(id));
                assert(reg.sent().dom() =~= old(reg).sent().dom().insert(id));
                assert(mid.sent()[id] == Seq::<Seq<char>>::empty());
                assert(reg.sent()[id] =~= seq![join_notice_seq(name@)]);
                assert forall|c: u64| old(reg).sent().dom().contains(c) implies #[trigger] reg
                    .sent()[c] == old(reg).sent()[c].push(join_notice_seq(name@)) by {
                    assert(mid.sent()[c] == old(reg).sent()[c]);
                }
            }
            Some(id)
        },
        None => None,
    }
}

/// Relays one well-formed inbound frame verbatim to every registered
/// handle, the sender's own included — the broadcast is not exclusive
/// of the sender.
pub fn relay_frame(reg: &mut Registry, text: &str)
    requires
        old(reg).wf(),
    ensures
        final(reg).wf(),
        final(reg).can_register() == old(reg).can_register(),
        final(reg).ids() == old(reg).ids(),
        final(reg).sent().dom() == old(reg).sent().dom(),
        forall|c: u64| old(reg).sent().dom().contains(c) ==> #[trigger] final(reg).sent()[c]
            == old(reg).sent()[c].push(text@),
{
    reg.broadcast(text);
}

/// Tears a session's registry entry down and announces the departure:
/// the handle is removed first, then the leave notice goes to every
/// remaining handle — never to the departed one. Removing an already
/// removed handle is a no-op, but the notice is still broadcast, so the
/// caller emits it at most once per session (the state machine's single
/// `Active -> Closing` transition).
pub fn client_leaves(reg: &mut Registry, id: u64, name: &str)
    requires
        old(reg).wf(),
    ensures
        final(reg).wf(),
        final(reg).can_register() == old(reg).can_register(),
        final(reg).ids() == old(reg).ids().remove_value(id),
        !final(reg).ids().contains(id),
        !final(reg).sent().dom().contains(id),
        final(reg).sent().dom() == old(reg).sent().dom().remove(id),
        forall|c: u64| c != id && old(reg).sent().dom().contains(c)
            ==> #[trigger] final(reg).sent()[c] == old(reg).sent()[c].push(exit_notice_seq(name@)),
{
    reg.deregister(id);
    let ghost mid = *reg;
    let notice = exit_notice(name);
    reg.broadcast(notice.as_str());
    proof {
        assert(reg.sent().dom() =~= old(reg).sent().dom().remove(id));
        assert forall|c: u64| c != id && old(reg).sent().dom().contains(c) implies #[trigger] reg
            .sent()[c] == old(reg).sent()[c].push(exit_notice_seq(name@)) by {
            assert(mid.sent()[c] == old(reg).sent()[c]);
        }
    }
}

/// Law: messages from one sender reach every recipient unchanged and in
/// the order sent. `h0`, `h1`, `h2` are a recipient's delivery histories
/// before and after two successive relays by the same sender, as
/// [`relay_frame`] ensures them: afterwards the history ends with `m1`
/// immediately followed by `m2`, with everything earlier untouched. Each
/// recipient's writer drains its channel in order, so the wire order
/// follows the history order.
pub proof fn lemma_relay_order_preserved(
    h0: Map<u64, Seq<Seq<char>>>,
    h1: Map<u64, Seq<Seq<char>>>,
    h2: Map<u64, Seq<Seq<char>>>,
    b: u64,
    m1: Seq<char>,
    m2: Seq<char>,
)
    requires
        h0.dom().contains(b),
        h1.dom() == h0.dom(),
        h2.dom() == h1.dom(),
        forall|c: u64| h0.dom().contains(c) ==> #[trigger] h1[c] == h0[c].push(m1),
        forall|c: u64| h1.dom().contains(c) ==> #[trigger] h2[c] == h1[c].push(m2),
    ensures
        h2[b] == h0[b] + seq![m1, m2],
        h2[b].take(h0[b].len() as int) == h0[b],
{
    assert(h2[b] =~= h0[b] + seq![m1, m2]);
    assert(h2[b].take(h0[b].len() as int) =~= h0[b]);
}

/// Law: when a peer joins, every already-connected peer — and the
/// newcomer itself — receives exactly one join notice bearing the new
/// name. `pre` and `post` are the delivery histories around one
/// [`client_joins`] that registered `id`, as its contract ensures them.
pub proof fn lemma_join_notice_exactly_once(
    pre: Map<u64, Seq<Seq<char>>>,
    post: Map<u64, Seq<Seq<char>>>,
    id: u64,
    name: Seq<char>,
)
    requires
        !pre.dom().contains(id),
        post.dom() == pre.dom().insert(id),
        forall|c: u64| pre.dom().contains(c) ==> #[trigger] post[c] == pre[c].push(
            join_notice_seq(name),
        ),
        post[id] == seq![join_notice_seq(name)],
    ensures
        forall|c: u64| pre.dom().contains(c) ==> (#[trigger] post[c]).len() == pre[c].len() + 1,
        forall|c: u64| pre.dom().contains(c) ==> (#[trigger] post[c]).last() == join_notice_seq(
            name,
        ),
        forall|c: u64| pre.dom().contains(c) ==> (#[trigger] post[c]).take(pre[c].len() as int)
            == pre[c],
        post[id].len() == 1,
        post[id][0] == join_notice_seq(name),
{
    assert forall|c: u64| pre.dom().contains(c) implies (#[trigger] post[c]).take(
        pre[c].len() as int,
    ) == pre[c] by {
        assert(post[c].take(pre[c].len() as int) =~= pre[c]);
    }
}

/// Law: when a peer leaves, every remaining peer's history gains exactly
/// one leave notice bearing the departed name, and nothing is ever
/// delivered to the departed handle afterwards: its entry is gone from
/// the histories, and stays gone under any later broadcast, which only
/// touches registered handles. `pre` and `post` are the delivery
/// histories around one [`client_leaves`] for handle `a`, as its
/// contract ensures them, and `later` any history a sequence of further
/// broadcasts leads to.
pub proof fn lemma_leave_notice_exactly_once(
    pre: Map<u64, Seq<Seq<char>>>,
    post: Map<u64, Seq<Seq<char>>>,
    later: Map<u64, Seq<Seq<char>>>,
    a: u64,
    name: Seq<char>,
)
    requires
        post.dom() == pre.dom().remove(a),
        forall|c: u64| c != a && pre.dom().contains(c) ==> #[trigger] post[c] == pre[c].push(
            exit_notice_seq(name),
        ),
        later.dom() == post.dom(),
    ensures
        forall|c: u64| post.dom().contains(c) ==> (#[trigger] post[c]).len() == pre[c].len() + 1,
        forall|c: u64| post.dom().contains(c) ==> (#[trigger] post[c]).last() == exit_notice_seq(
            name,
        ),
        forall|c: u64| post.dom().contains(c) ==> (#[trigger] post[c]).take(pre[c].len() as int)
            == pre[c],
        !post.dom().contains(a),
        !later.dom().contains(a),
{
    assert forall|c: u64| post.dom().contains(c) implies (#[trigger] post[c]).take(
        pre[c].len() as int,
    ) == pre[c] by {
        assert(c != a && pre.dom().contains(c));
        assert(post[c].take(pre[c].len() as int) =~= pre[c]);
    }
}

} // verus!
