//! How the replicas follow the authoritative directory.
//!
//! The model: the server processes the events of the transport one after the
//! other, and every message it sends to an identity is appended to that
//! identity's stream, which the transport delivers in order. The client of a
//! joined identity has connected, has sent `Join`, and applies its stream
//! from the start; what it has not applied yet is in flight. The laws below
//! hold after every sequence of events.

use crate::client::{connected, idle, receive, ClientPhase, ClientView};
use crate::protocol::{
    ClientId, ClientMessageView, Directory, ProtocolViolation, ServerMessageView,
};
use crate::server::{server_step, silent, DispatchView, ServerEventView, ServerStep};
use vstd::prelude::*;

verus! {

/// The server's directory and, for every joined identity, all that the
/// server has sent it since its `Join`, oldest first.
pub struct Network {
    pub directory: Directory,
    pub streams: Map<ClientId, Seq<ServerMessageView>>,
}

/// The network before any event: nobody is joined.
pub open spec fn start() -> Network {
    Network { directory: Map::empty(), streams: Map::empty() }
}

/// The stream of `id` after the server has sent `sent` in answer to an event
/// from `sender`: a reply opens the sender's stream anew, and the broadcast is
/// appended for each recipient.
pub open spec fn stream_after(
    before: Seq<ServerMessageView>,
    id: ClientId,
    sender: ClientId,
    sent: DispatchView,
) -> Seq<ServerMessageView> {
    let base = match sent.reply {
        Some(m) if id == sender => seq![m],
        _ => before,
    };
    match sent.broadcast {
        Some(m) if sent.recipients.contains(id) => base.push(m),
        _ => base,
    }
}

/// The network after the server has processed `event`. An event that the
/// server ignores as a violation changes nothing; the stream of an identity
/// that has left is dropped with its connection.
pub open spec fn step(net: Network, event: ServerEventView) -> Network {
    let after = server_step(net.directory, event);
    match after.outcome {
        Err(_) => net,
        Ok(sent) => Network {
            directory: after.directory,
            streams: Map::new(
                |id: ClientId| after.directory.contains_key(id),
                |id: ClientId| stream_after(net.streams[id], id, event.origin(), sent),
            ),
        },
    }
}

/// The network after the server has processed `events`, first to last.
pub open spec fn run(events: Seq<ServerEventView>) -> Network
    decreases events.len(),
{
    if events.len() == 0 {
        start()
    } else {
        step(run(events.drop_last()), events.last())
    }
}

/// The session after a client in session `c` has applied `messages`, first
/// to last.
pub open spec fn apply_all(c: ClientView, messages: Seq<ServerMessageView>) -> ClientView
    decreases messages.len(),
{
    if messages.len() == 0 {
        c
    } else {
        receive(apply_all(c, messages.drop_last()), messages.last()).0
    }
}

/// The session of a client named `name` that has connected, has sent `Join`
/// and has applied `stream`, first to last.
pub open spec fn drained(name: Seq<char>, stream: Seq<ServerMessageView>) -> ClientView {
    apply_all(connected(idle(name)), stream)
}

/// Whether a client named `name` finds every message of `stream` in order
/// when it applies them after its `Join`.
pub open spec fn in_order(name: Seq<char>, stream: Seq<ServerMessageView>) -> bool
    decreases stream.len(),
{
    stream.len() == 0 || (in_order(name, stream.drop_last()) && receive(
        drained(name, stream.drop_last()),
        stream.last(),
    ).1 is Ok)
}

/// What holds of a joined identity `id` in `net`: applying its stream leaves
/// its client joined under `id`, with a replica equal to the directory, and
/// the stream has no violation in it and never tells `id` that it has left.
pub open spec fn follows(net: Network, id: ClientId) -> bool {
    let name = net.directory[id];
    let stream = net.streams[id];
    let client = drained(name, stream);
    &&& net.streams.contains_key(id)
    &&& client.phase == ClientPhase::Joined
    &&& client.local_id == Some(id)
    &&& client.name == name
    &&& client.replica == net.directory
    &&& in_order(name, stream)
    &&& forall|i: int|
        0 <= i < stream.len() ==> #[trigger] stream[i] != (ServerMessageView::ClientDisconnected {
            client_id: id,
        })
}

/// Every joined identity follows.
pub open spec fn coherent(net: Network) -> bool {
    forall|id: ClientId| net.directory.contains_key(id) ==> #[trigger] follows(net, id)
}

/// Applying one more message is one more `receive`.
proof fn lemma_push(name: Seq<char>, stream: Seq<ServerMessageView>, m: ServerMessageView)
    ensures
        drained(name, stream.push(m)) == receive(drained(name, stream), m).0,
        in_order(name, stream.push(m)) == (in_order(name, stream) && receive(
            drained(name, stream),
            m,
        ).1 is Ok),
{
    assert(stream.push(m).drop_last() =~= stream);
}

/// Applying messages in two batches is applying them in one.
pub proof fn lemma_apply_all_in_parts(
    c: ClientView,
    first: Seq<ServerMessageView>,
    rest: Seq<ServerMessageView>,
)
    ensures
        apply_all(c, first + rest) == apply_all(apply_all(c, first), rest),
    decreases rest.len(),
{
    if rest.len() == 0 {
        assert(first + rest =~= first);
    } else {
        lemma_apply_all_in_parts(c, first, rest.drop_last());
        assert((first + rest).drop_last() =~= first + rest.drop_last());
    }
}

/// A step keeps a coherent network coherent.
proof fn lemma_step_coherent(net: Network, event: ServerEventView)
    requires
        coherent(net),
    ensures
        coherent(step(net, event)),
{
    let next = step(net, event);
    let after = server_step(net.directory, event);
    assert forall|id: ClientId| next.directory.contains_key(id) implies #[trigger] follows(
        next,
        id,
    ) by {
        match after.outcome {
            Err(_) => {
                assert(follows(net, id));
            },
            Ok(sent) => {
                let before = net.streams[id];
                let stream = next.streams[id];
                assert(stream == stream_after(before, id, event.origin(), sent));
                if net.directory.contains_key(id) {
                    assert(follows(net, id));
                    let name = net.directory[id];
                    match sent.broadcast {
                        Some(m) if sent.recipients.contains(id) => {
                            assert(stream == before.push(m));
                            lemma_push(name, before, m);
                            assert(drained(name, stream).replica =~= next.directory);
                        },
                        _ => {
                            assert(stream == before);
                            assert(next.directory =~= net.directory);
                        },
                    }
                } else {
                    let name = next.directory[id];
                    let init = ServerMessageView::InitClient {
                        client_id: id,
                        usernames: net.directory,
                    };
                    assert(stream == seq![init]);
                    let none = Seq::<ServerMessageView>::empty();
                    assert(seq![init] =~= none.push(init));
                    lemma_push(name, none, init);
                    assert(drained(name, stream).replica =~= next.directory);
                }
            },
        }
    }
}

/// The network is coherent after every sequence of events.
pub proof fn lemma_run_coherent(events: Seq<ServerEventView>)
    ensures
        coherent(run(events)),
    decreases events.len(),
{
    if events.len() > 0 {
        lemma_run_coherent(events.drop_last());
        lemma_step_coherent(run(events.drop_last()), events.last());
    }
}

/// Convergence. After any sequence of events, take the client of a joined
/// identity, which has applied the first `applied` messages of its stream
/// while the others are in flight. Once it has applied those too, it is
/// joined under that identity, and its replica is the authoritative directory
/// with the client's own entry replaced by what the client knows of itself:
/// its identity and the name it sent. As that name is the one the server
/// recorded, the replica equals the directory.
pub proof fn lemma_replicas_converge(events: Seq<ServerEventView>, id: ClientId, applied: int)
    requires
        run(events).directory.contains_key(id),
        0 <= applied <= run(events).streams[id].len(),
    ensures
        ({
            let net = run(events);
            let stream = net.streams[id];
            let now = drained(net.directory[id], stream.take(applied));
            let client = apply_all(now, stream.skip(applied));
            &&& client.phase == ClientPhase::Joined
            &&& client.local_id == Some(id)
            &&& client.replica == net.directory.remove(id).insert(id, client.name)
            &&& client.replica == net.directory
        }),
{
    lemma_run_coherent(events);
    let net = run(events);
    let stream = net.streams[id];
    assert(follows(net, id));
    assert(net.directory.remove(id).insert(id, net.directory[id]) =~= net.directory);
    lemma_apply_all_in_parts(
        connected(idle(net.directory[id])),
        stream.take(applied),
        stream.skip(applied),
    );
    assert(stream.take(applied) + stream.skip(applied) =~= stream);
}

/// The server sends an identity that is joined nothing that its client would
/// find out of order; in particular it never tells it that it has left
/// itself.
pub proof fn lemma_no_self_disconnect(events: Seq<ServerEventView>, id: ClientId)
    requires
        run(events).directory.contains_key(id),
    ensures
        ({
            let net = run(events);
            &&& in_order(net.directory[id], net.streams[id])
            &&& forall|i: int|
                0 <= i < net.streams[id].len() ==> #[trigger] net.streams[id][i] != (
                ServerMessageView::ClientDisconnected { client_id: id })
        }),
{
    lemma_run_coherent(events);
    assert(follows(run(events), id));
}

/// How many broadcasts an outcome of the server holds.
pub open spec fn broadcasts<E>(outcome: Result<DispatchView, E>) -> nat {
    match outcome {
        Ok(sent) if sent.broadcast is Some => 1,
        _ => 0,
    }
}

/// Teardown happens once. When `Disconnect{}` from a joined identity and the
/// closing of its connection are both processed, in either order, the first
/// removes the identity and broadcasts `ClientDisconnected` to those that
/// remain, and the second is a silent no-op: no error, no change, nothing
/// sent.
pub proof fn lemma_teardown_once(dir: Directory, id: ClientId)
    requires
        dir.contains_key(id),
    ensures
        ({
            let said = ServerEventView::Received {
                client_id: id,
                message: ClientMessageView::Disconnect,
            };
            let lost = ServerEventView::ConnectionLost { client_id: id };
            let gone = ServerMessageView::ClientDisconnected { client_id: id };
            let once = DispatchView {
                reply: None,
                broadcast: Some(gone),
                recipients: dir.remove(id).dom(),
            };
            let first = server_step(dir, said);
            let second = server_step(first.directory, lost);
            let other_first = server_step(dir, lost);
            let other_second = server_step(other_first.directory, said);
            &&& first.directory == dir.remove(id)
            &&& first.outcome == Ok::<DispatchView, ProtocolViolation>(once)
            &&& second.directory == first.directory
            &&& second.outcome == Ok::<DispatchView, ProtocolViolation>(silent())
            &&& broadcasts(first.outcome) + broadcasts(second.outcome) == 1
            &&& other_first.directory == dir.remove(id)
            &&& other_first.outcome == Ok::<DispatchView, ProtocolViolation>(once)
            &&& other_second.directory == other_first.directory
            &&& other_second.outcome == Ok::<DispatchView, ProtocolViolation>(silent())
            &&& broadcasts(other_first.outcome) + broadcasts(other_second.outcome) == 1
        }),
{
}

/// A departure is never an error. For every directory and every identity,
/// joined or not, `Disconnect{}` and the closing of the connection have the
/// same outcome, which is not a violation; processed once more, either of
/// them changes nothing and sends nothing.
pub proof fn lemma_departure_idempotent(dir: Directory, id: ClientId)
    ensures
        ({
            let said = ServerEventView::Received {
                client_id: id,
                message: ClientMessageView::Disconnect,
            };
            let lost = ServerEventView::ConnectionLost { client_id: id };
            let after = server_step(dir, said);
            &&& after == server_step(dir, lost)
            &&& after.outcome is Ok
            &&& !after.directory.contains_key(id)
            &&& server_step(after.directory, said) == (ServerStep {
                directory: after.directory,
                outcome: Ok(silent()),
            })
            &&& server_step(after.directory, lost) == (ServerStep {
                directory: after.directory,
                outcome: Ok(silent()),
            })
        }),
{
}

/// The name under which `id` stands joined after `events`, if it does: the
/// one of its first `Join` since it last left, or since the start.
pub open spec fn standing(events: Seq<ServerEventView>, id: ClientId) -> Option<Seq<char>>
    decreases events.len(),
{
    if events.len() == 0 {
        None
    } else {
        let before = standing(events.drop_last(), id);
        match events.last() {
            ServerEventView::Received { client_id, message: ClientMessageView::Join { name } } => {
                if client_id == id && before is None {
                    Some(name)
                } else {
                    before
                }
            },
            ServerEventView::Received { client_id, message: ClientMessageView::Disconnect } => {
                if client_id == id {
                    None
                } else {
                    before
                }
            },
            ServerEventView::ConnectionLost { client_id } => {
                if client_id == id {
                    None
                } else {
                    before
                }
            },
            ServerEventView::Connected { .. } => before,
        }
    }
}

/// The directory holds exactly the joined. After any sequence of events, an
/// identity is in the directory if and only if it has joined and has not
/// left since, and it is there under the name it joined with.
pub proof fn lemma_directory_holds_the_joined(events: Seq<ServerEventView>, id: ClientId)
    ensures
        run(events).directory.contains_key(id) <==> standing(events, id) is Some,
        standing(events, id) matches Some(name) ==> run(events).directory[id] == name,
    decreases events.len(),
{
    if events.len() > 0 {
        lemma_directory_holds_the_joined(events.drop_last(), id);
    }
}

/// Order of joining. When `a` joins and then `b` joins, the snapshot that
/// `b` is sent already holds `a`, and the replica of `a`, once its client has
/// applied its stream, holds `b`.
pub proof fn lemma_join_order(
    events: Seq<ServerEventView>,
    a: ClientId,
    name_a: Seq<char>,
    b: ClientId,
    name_b: Seq<char>,
)
    requires
        a != b,
        !run(events).directory.contains_key(a),
        !run(events).directory.contains_key(b),
    ensures
        ({
            let join_a = ServerEventView::Received {
                client_id: a,
                message: ClientMessageView::Join { name: name_a },
            };
            let join_b = ServerEventView::Received {
                client_id: b,
                message: ClientMessageView::Join { name: name_b },
            };
            let net = run(events.push(join_a).push(join_b));
            &&& net.streams[b].len() > 0
            &&& net.streams[b][0] matches ServerMessageView::InitClient { client_id, usernames }
            &&& client_id == b
            &&& usernames.contains_pair(a, name_a)
            &&& !usernames.contains_key(b)
            &&& drained(name_a, net.streams[a]).replica.contains_pair(b, name_b)
        }),
{
    let join_a = ServerEventView::Received {
        client_id: a,
        message: ClientMessageView::Join { name: name_a },
    };
    let join_b = ServerEventView::Received {
        client_id: b,
        message: ClientMessageView::Join { name: name_b },
    };
    let one = events.push(join_a);
    let two = one.push(join_b);
    assert(one.drop_last() =~= events);
    assert(two.drop_last() =~= one);
    let first = step(run(events), join_a);
    let net = step(first, join_b);
    assert(run(one) == first);
    assert(run(two) == net);
    assert(first.directory.contains_pair(a, name_a));
    assert(net.directory.contains_pair(a, name_a));
    assert(net.directory.contains_pair(b, name_b));
    lemma_run_coherent(two);
    assert(follows(net, a));
}

} // verus!
