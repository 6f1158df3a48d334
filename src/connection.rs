use vstd::prelude::*;
use crate::channel::{after_send, send_error, ChannelModel, MessageChannel};
use crate::config::ConnectionConfig;
use crate::error::QuinnetError;

verus! {

/// Lifecycle of a connection.
///
/// `Connecting` becomes `Connected` on a successful handshake, or
/// `Disconnected` when the handshake fails or the certificate is rejected.
/// `Connected` (or `Connecting`) becomes `Disconnecting` on a local close, a
/// remote close or a keep-alive timeout, and `Disconnecting` becomes
/// `Disconnected` once the outbound queues are flushed or the close times out.
#[derive(Debug, Clone, Copy, PartialEq, Eq, Structural)]
pub enum ConnectionState {
    Connecting,
    Connected,
    Disconnecting,
    Disconnected,
}

/// Whether a connection in state `s` has stopped accepting outbound messages.
pub open spec fn is_closing(s: ConnectionState) -> bool {
    s == ConnectionState::Disconnecting || s == ConnectionState::Disconnected
}

/// An empty, open channel of the given capacity.
pub open spec fn fresh_channel(capacity: nat) -> ChannelModel {
    ChannelModel { messages: Seq::empty(), capacity, closed: false }
}

/// The same channels, each closed.
pub open spec fn closed_all(chs: Seq<ChannelModel>) -> Seq<ChannelModel> {
    chs.map_values(|c: ChannelModel| ChannelModel { closed: true, ..c })
}

/// The models of a sequence of channels.
pub open spec fn channel_models(chs: Seq<MessageChannel>) -> Seq<ChannelModel> {
    chs.map_values(|c: MessageChannel| c@)
}

/// Every channel of `chs` holds no more than its capacity.
pub open spec fn all_within_capacity(chs: Seq<ChannelModel>) -> bool {
    forall|i: int| 0 <= i < chs.len() ==> #[trigger] chs[i].messages.len() <= chs[i].capacity
}

/// What a connection holds: its state, its outbound and inbound data
/// channels (one of each per channel index), the control channel for
/// termination signals, and its keep-alive clock in seconds.
pub struct ConnectionModel {
    pub state: ConnectionState,
    pub outbound: Seq<ChannelModel>,
    pub inbound: Seq<ChannelModel>,
    pub kill: ChannelModel,
    pub keep_alive_interval: nat,
    pub timeout_multiple: nat,
    pub last_heard: nat,
    pub last_keep_alive_sent: nat,
}

/// Whether, at time `now`, the peer has been silent for longer than the
/// timeout multiple of the keep-alive interval.
pub open spec fn keep_alive_expired(m: ConnectionModel, now: nat) -> bool {
    now > m.last_heard + m.keep_alive_interval * m.timeout_multiple
}

/// Whether, at time `now`, a keep-alive interval has passed since the last
/// liveness signal was sent.
pub open spec fn keep_alive_due(m: ConnectionModel, now: nat) -> bool {
    now >= m.last_keep_alive_sent + m.keep_alive_interval
}

/// Whether every outbound channel has been flushed.
pub open spec fn outbound_flushed(m: ConnectionModel) -> bool {
    forall|i: int| 0 <= i < m.outbound.len() ==> (#[trigger] m.outbound[i]).messages.len() == 0
}

/// The connection after a local close, a remote close or a keep-alive
/// timeout: a connection that is not yet closing becomes `Disconnecting`,
/// its outbound channels stop accepting messages, and a termination signal
/// `signal` joins the control channel if there is room.
pub open spec fn after_close(m: ConnectionModel, signal: Vec<u8>) -> ConnectionModel {
    if is_closing(m.state) {
        m
    } else {
        ConnectionModel {
            state: ConnectionState::Disconnecting,
            outbound: closed_all(m.outbound),
            kill: after_send(m.kill, signal),
            ..m
        }
    }
}

/// Every channel holds no more than its capacity, the outbound and inbound
/// channels come in pairs, a closing connection accepts no outbound message
/// and a disconnected one accepts no inbound message.
pub open spec fn connection_ok(m: ConnectionModel) -> bool {
    &&& m.outbound.len() == m.inbound.len()
    &&& all_within_capacity(m.outbound)
    &&& all_within_capacity(m.inbound)
    &&& m.kill.messages.len() <= m.kill.capacity
    &&& is_closing(m.state) ==> forall|i: int| 0 <= i < m.outbound.len() ==> (#[trigger] m.outbound[i]).closed
    &&& m.state == ConnectionState::Disconnected ==> forall|i: int|
        0 <= i < m.inbound.len() ==> (#[trigger] m.inbound[i]).closed
}

/// The payloads queued on the first `n` channels of `chs`, each tagged with
/// its channel index: channel by channel in index order, and oldest first
/// within a channel.
pub open spec fn tagged_messages(chs: Seq<ChannelModel>, n: nat) -> Seq<(usize, Vec<u8>)>
    decreases n,
{
    if n == 0 {
        Seq::empty()
    } else {
        tagged_messages(chs, (n - 1) as nat) + chs[n - 1].messages.map_values(
            |p: Vec<u8>| ((n - 1) as usize, p),
        )
    }
}

/// One client-to-server link: its state machine, its bounded channels and
/// its keep-alive clock.
pub struct Connection {
    state: ConnectionState,
    outbound: Vec<MessageChannel>,
    inbound: Vec<MessageChannel>,
    kill: MessageChannel,
    keep_alive_interval_s: u64,
    timeout_multiple: u64,
    last_heard_s: u64,
    last_keep_alive_sent_s: u64,
}

impl View for Connection {
    type V = ConnectionModel;

    closed spec fn view(&self) -> ConnectionModel {
        ConnectionModel {
            state: self.state,
            outbound: channel_models(self.outbound@),
            inbound: channel_models(self.inbound@),
            kill: self.kill@,
            keep_alive_interval: self.keep_alive_interval_s as nat,
            timeout_multiple: self.timeout_multiple as nat,
            last_heard: self.last_heard_s as nat,
            last_keep_alive_sent: self.last_keep_alive_sent_s as nat,
        }
    }
}

fn close_channels(chs: &mut Vec<MessageChannel>)
    requires
        all_within_capacity(channel_models(old(chs)@)),
    ensures
        channel_models(final(chs)@) == closed_all(channel_models(old(chs)@)),
        all_within_capacity(channel_models(final(chs)@)),
{
    let ghost start = channel_models(chs@);
    let mut i: usize = 0;
    while i < chs.len()
        invariant
            0 <= i <= chs.len(),
            chs.len() == start.len(),
            forall|k: int| 0 <= k < i ==> #[trigger] chs@[k]@ == (ChannelModel { closed: true, ..start[k] }),
            forall|k: int| i <= k < chs.len() ==> #[trigger] chs@[k]@ == start[k],
            start == channel_models(old(chs)@),
            all_within_capacity(start),
        decreases chs.len() - i,
    {
        chs[i].close();
        i += 1;
    }
    assert(channel_models(chs@) =~= closed_all(start));
}

impl Connection {
    /// See `connection_ok`.
    pub open spec fn wf(&self) -> bool {
        connection_ok(self@)
    }

    /// A connection in the `Connecting` state with `num_channels` empty data
    /// channels in each direction, an empty control channel, and its
    /// keep-alive clock started at `now_s`.
    pub fn new(config: &ConnectionConfig, num_channels: usize, now_s: u64) -> (r: Connection)
        ensures
            r.wf(),
            r@.state == ConnectionState::Connecting,
            r@.outbound == Seq::new(num_channels as nat, |i: int| fresh_channel(config.message_queue_size as nat)),
            r@.inbound == Seq::new(num_channels as nat, |i: int| fresh_channel(config.message_queue_size as nat)),
            r@.kill == fresh_channel(config.kill_message_queue_size as nat),
            r@.keep_alive_interval == config.keep_alive_interval_s,
            r@.timeout_multiple == config.keep_alive_timeout_multiple,
            r@.last_heard == now_s,
            r@.last_keep_alive_sent == now_s,
    {
        let ghost fresh = fresh_channel(config.message_queue_size as nat);
        let mut outbound: Vec<MessageChannel> = Vec::new();
        let mut inbound: Vec<MessageChannel> = Vec::new();
        let mut i: usize = 0;
        while i < num_channels
            invariant
                0 <= i <= num_channels,
                outbound.len() == i,
                inbound.len() == i,
                fresh == fresh_channel(config.message_queue_size as nat),
                forall|k: int| 0 <= k < i ==> #[trigger] outbound@[k]@ == fresh,
                forall|k: int| 0 <= k < i ==> #[trigger] inbound@[k]@ == fresh,
            decreases num_channels - i,
        {
            outbound.push(MessageChannel::new(config.message_queue_size));
            inbound.push(MessageChannel::new(config.message_queue_size));
            i += 1;
        }
        let r = Connection {
            state: ConnectionState::Connecting,
            outbound,
            inbound,
            kill: MessageChannel::new(config.kill_message_queue_size),
            keep_alive_interval_s: config.keep_alive_interval_s,
            timeout_multiple: config.keep_alive_timeout_multiple,
            last_heard_s: now_s,
            last_keep_alive_sent_s: now_s,
        };
        assert(r@.outbound =~= Seq::new(num_channels as nat, |i: int| fresh));
        assert(r@.inbound =~= Seq::new(num_channels as nat, |i: int| fresh));
        r
    }

    /// Enqueues `payload` on outbound channel `channel` without blocking.
    /// Fails with `ChannelClosed` once the connection is closing, and with
    /// `FullQueue` when that channel is at capacity; on failure nothing is
    /// queued.
    pub fn send_message(&mut self, channel: usize, payload: Vec<u8>) -> (r: Result<(), QuinnetError>)
        requires
            old(self).wf(),
            channel < old(self)@.outbound.len(),
        ensures
            final(self).wf(),
            final(self)@ == (ConnectionModel {
                outbound: old(self)@.outbound.update(
                    channel as int,
                    after_send(old(self)@.outbound[channel as int], payload),
                ),
                ..old(self)@
            }),
            r == match send_error(old(self)@.outbound[channel as int]) {
                Some(e) => Err::<(), QuinnetError>(e),
                None => Ok::<(), QuinnetError>(()),
            },
            is_closing(old(self)@.state) ==> r == Err::<(), QuinnetError>(QuinnetError::ChannelClosed)
                && final(self)@ == old(self)@,
    {
        let r = self.outbound[channel].send(payload);
        proof {
            assert(channel_models(self.outbound@) =~= old(self)@.outbound.update(
                channel as int,
                after_send(old(self)@.outbound[channel as int], payload),
            ));
            if is_closing(old(self)@.state) {
                assert(channel_models(self.outbound@) =~= old(self)@.outbound);
            }
        }
        r
    }

    /// Takes the oldest payload queued on outbound channel `channel`, for the
    /// transport to write; `None` when there is none. A closing connection
    /// still hands out what it holds, so that it can be flushed.
    pub fn next_outbound(&mut self, channel: usize) -> (r: Option<Vec<u8>>)
        requires
            old(self).wf(),
            channel < old(self)@.outbound.len(),
        ensures
            final(self).wf(),
            ({
                let c = old(self)@.outbound[channel as int];
                &&& c.messages.len() == 0 ==> r.is_none() && final(self)@ == old(self)@
                &&& c.messages.len() > 0 ==> r == Some(c.messages[0]) && final(self)@ == (ConnectionModel {
                    outbound: old(self)@.outbound.update(
                        channel as int,
                        ChannelModel { messages: c.messages.drop_first(), ..c },
                    ),
                    ..old(self)@
                })
            }),
    {
        let r = self.outbound[channel].try_recv();
        proof {
            let c = old(self)@.outbound[channel as int];
            if c.messages.len() == 0 {
                assert(channel_models(self.outbound@) =~= old(self)@.outbound);
            } else {
                assert(channel_models(self.outbound@) =~= old(self)@.outbound.update(
                    channel as int,
                    ChannelModel { messages: c.messages.drop_first(), ..c },
                ));
            }
        }
        r
    }

    /// Queues a payload that arrived from the peer on inbound channel
    /// `channel`, for the host to poll. Fails with `ChannelClosed` once the
    /// connection is disconnected, and with `FullQueue` when that channel is
    /// at capacity; on failure nothing is queued.
    pub fn deliver_inbound(&mut self, channel: usize, payload: Vec<u8>) -> (r: Result<(), QuinnetError>)
        requires
            old(self).wf(),
            channel < old(self)@.inbound.len(),
        ensures
            final(self).wf(),
            final(self)@ == (ConnectionModel {
                inbound: old(self)@.inbound.update(
                    channel as int,
                    after_send(old(self)@.inbound[channel as int], payload),
                ),
                ..old(self)@
            }),
            r == match send_error(old(self)@.inbound[channel as int]) {
                Some(e) => Err::<(), QuinnetError>(e),
                None => Ok::<(), QuinnetError>(()),
            },
            old(self)@.state == ConnectionState::Disconnected ==> r == Err::<(), QuinnetError>(
                QuinnetError::ChannelClosed,
            ) && final(self)@ == old(self)@,
    {
        let r = self.inbound[channel].send(payload);
        proof {
            assert(channel_models(self.inbound@) =~= old(self)@.inbound.update(
                channel as int,
                after_send(old(self)@.inbound[channel as int], payload),
            ));
            if old(self)@.state == ConnectionState::Disconnected {
                assert(channel_models(self.inbound@) =~= old(self)@.inbound);
            }
        }
        r
    }

    /// Takes every payload queued on inbound channel `channel`, oldest first,
    /// without blocking; an empty channel gives an empty result.
    pub fn poll_inbound(&mut self, channel: usize) -> (r: Vec<Vec<u8>>)
        requires
            old(self).wf(),
            channel < old(self)@.inbound.len(),
        ensures
            final(self).wf(),
            r@ == old(self)@.inbound[channel as int].messages,
            final(self)@ == (ConnectionModel {
                inbound: old(self)@.inbound.update(
                    channel as int,
                    ChannelModel { messages: Seq::empty(), ..old(self)@.inbound[channel as int] },
                ),
                ..old(self)@
            }),
    {
        let r = self.inbound[channel].drain();
        proof {
            assert(channel_models(self.inbound@) =~= old(self)@.inbound.update(
                channel as int,
                ChannelModel { messages: Seq::empty(), ..old(self)@.inbound[channel as int] },
            ));
        }
        r
    }

    /// Takes every payload queued on every inbound channel, tagged with its
    /// channel index: channel by channel, oldest first within a channel. The
    /// inbound channels are left empty.
    pub fn poll_received(&mut self) -> (r: Vec<(usize, Vec<u8>)>)
        requires
            old(self).wf(),
        ensures
            final(self).wf(),
            r@ == tagged_messages(old(self)@.inbound, old(self)@.inbound.len()),
            final(self)@ == (ConnectionModel {
                inbound: old(self)@.inbound.map_values(|c: ChannelModel| ChannelModel { messages: Seq::empty(), ..c }),
                ..old(self)@
            }),
    {
        let ghost start = old(self)@.inbound;
        let mut out: Vec<(usize, Vec<u8>)> = Vec::new();
        let mut i: usize = 0;
        while i < self.inbound.len()
            invariant
                0 <= i <= self.inbound.len(),
                self.wf(),
                start == old(self)@.inbound,
                self@.inbound.len() == start.len(),
                self@ == (ConnectionModel { inbound: self@.inbound, ..old(self)@ }),
                forall|k: int| 0 <= k < i ==> #[trigger] self@.inbound[k] == (ChannelModel { messages: Seq::empty(), ..start[k] }),
                forall|k: int| i <= k < start.len() ==> #[trigger] self@.inbound[k] == start[k],
                out@ == tagged_messages(start, i as nat),
            decreases self.inbound.len() - i,
        {
            let mut msgs = self.poll_inbound(i);
            let ghost taken = msgs@;
            let ghost before = out@;
            let mut j: usize = 0;
            while j < msgs.len()
                invariant
                    0 <= j <= msgs.len(),
                    i < start.len(),
                    msgs.len() == taken.len(),
                    taken == start[i as int].messages,
                    forall|k: int| j <= k < msgs.len() ==> #[trigger] msgs@[k] == taken[k],
                    out@ == before + taken.take(j as int).map_values(|p: Vec<u8>| (i, p)),
                decreases msgs.len() - j,
            {
                let mut p: Vec<u8> = Vec::new();
                std::mem::swap(&mut p, &mut msgs[j]);
                out.push((i, p));
                proof {
                    assert(taken.take(j + 1) =~= taken.take(j as int).push(taken[j as int]));
                    assert(taken.take(j + 1).map_values(|p: Vec<u8>| (i, p)) =~= taken.take(j as int).map_values(
                        |p: Vec<u8>| (i, p),
                    ).push((i, taken[j as int])));
                }
                j += 1;
            }
            proof {
                assert(taken.take(j as int) =~= taken);
                assert(((i + 1) as nat - 1) as usize == i);
            }
            i += 1;
        }
        proof {
            assert(self@.inbound =~= start.map_values(|c: ChannelModel| ChannelModel { messages: Seq::empty(), ..c }));
        }
        out
    }

    /// Takes the oldest termination signal queued on the control channel,
    /// for the background tasks to act on; `None` when there is none.
    pub fn next_kill_signal(&mut self) -> (r: Option<Vec<u8>>)
        requires
            old(self).wf(),
        ensures
            final(self).wf(),
            old(self)@.kill.messages.len() == 0 ==> r.is_none() && final(self)@ == old(self)@,
            old(self)@.kill.messages.len() > 0 ==> r == Some(old(self)@.kill.messages[0]) && final(self)@ == (
            ConnectionModel {
                kill: ChannelModel { messages: old(self)@.kill.messages.drop_first(), ..old(self)@.kill },
                ..old(self)@
            }),
    {
        self.kill.try_recv()
    }

    /// Closes the connection, locally, on the peer's request or on a
    /// keep-alive timeout: a connection that is not yet closing becomes
    /// `Disconnecting`, its outbound channels stop accepting messages (what
    /// they hold stays to be flushed), and an empty termination signal joins
    /// the control channel. A closing connection is left as it is.
    pub fn close(&mut self)
        requires
            old(self).wf(),
        ensures
            final(self).wf(),
            exists|signal: Vec<u8>|
                signal@.len() == 0 && final(self)@ == after_close(old(self)@, signal),
    {
        if self.state == ConnectionState::Connecting || self.state == ConnectionState::Connected {
            close_channels(&mut self.outbound);
            let signal: Vec<u8> = Vec::new();
            let ghost sig = signal;
            let _ = self.kill.send(signal);
            self.state = ConnectionState::Disconnecting;
            assert(self@ == after_close(old(self)@, sig));
        } else {
            let unused: Vec<u8> = Vec::new();
            assert(self@ == after_close(old(self)@, unused));
        }
    }

    /// Ends a close: a `Disconnecting` connection whose outbound channels are
    /// all flushed, or whose close has timed out, becomes `Disconnected` and
    /// stops accepting inbound payloads. Returns whether it did; otherwise
    /// nothing changes.
    pub fn finish_close(&mut self, close_timed_out: bool) -> (r: bool)
        requires
            old(self).wf(),
        ensures
            final(self).wf(),
            r == (old(self)@.state == ConnectionState::Disconnecting && (close_timed_out
                || outbound_flushed(old(self)@))),
            r ==> final(self)@ == (ConnectionModel {
                state: ConnectionState::Disconnected,
                inbound: closed_all(old(self)@.inbound),
                ..old(self)@
            }),
            !r ==> final(self)@ == old(self)@,
    {
        if self.state != ConnectionState::Disconnecting {
            return false;
        }
        let mut flushed = true;
        let mut i: usize = 0;
        while i < self.outbound.len()
            invariant
                0 <= i <= self.outbound.len(),
                self.wf(),
                flushed == forall|k: int| 0 <= k < i ==> (#[trigger] self@.outbound[k]).messages.len() == 0,
            decreases self.outbound.len() - i,
        {
            let empty = self.outbound[i].is_empty();
            proof {
                assert(self@.outbound[i as int] == self.outbound@[i as int]@);
            }
            if !empty {
                flushed = false;
            }
            i += 1;
        }
        if !(close_timed_out || flushed) {
            return false;
        }
        close_channels(&mut self.inbound);
        self.state = ConnectionState::Disconnected;
        true
    }

    /// Records a successful handshake at time `now_s`: a `Connecting`
    /// connection becomes `Connected` and its keep-alive clock restarts.
    /// Returns whether it did; otherwise nothing changes.
    pub fn handshake_succeeded(&mut self, now_s: u64) -> (r: bool)
        requires
            old(self).wf(),
        ensures
            final(self).wf(),
            r == (old(self)@.state == ConnectionState::Connecting),
            r ==> final(self)@ == (ConnectionModel {
                state: ConnectionState::Connected,
                last_heard: now_s as nat,
                last_keep_alive_sent: now_s as nat,
                ..old(self)@
            }),
            !r ==> final(self)@ == old(self)@,
    {
        if self.state != ConnectionState::Connecting {
            return false;
        }
        self.state = ConnectionState::Connected;
        self.last_heard_s = now_s;
        self.last_keep_alive_sent_s = now_s;
        true
    }

    /// Records a failed handshake, a rejected certificate among them: a
    /// `Connecting` connection becomes `Disconnected` at once and all its
    /// channels stop accepting payloads. Returns whether it did; otherwise
    /// nothing changes.
    pub fn handshake_failed(&mut self) -> (r: bool)
        requires
            old(self).wf(),
        ensures
            final(self).wf(),
            r == (old(self)@.state == ConnectionState::Connecting),
            r ==> final(self)@ == (ConnectionModel {
                state: ConnectionState::Disconnected,
                outbound: closed_all(old(self)@.outbound),
                inbound: closed_all(old(self)@.inbound),
                ..old(self)@
            }),
            !r ==> final(self)@ == old(self)@,
    {
        if self.state != ConnectionState::Connecting {
            return false;
        }
        close_channels(&mut self.outbound);
        close_channels(&mut self.inbound);
        self.state = ConnectionState::Disconnected;
        true
    }

    /// Records that a keep-alive signal or data came from the peer at time
    /// `now_s`; the clock never moves back.
    pub fn record_activity(&mut self, now_s: u64)
        requires
            old(self).wf(),
        ensures
            final(self).wf(),
            final(self)@ == (ConnectionModel {
                last_heard: if now_s > old(self)@.last_heard { now_s as nat } else { old(self)@.last_heard },
                ..old(self)@
            }),
    {
        if now_s > self.last_heard_s {
            self.last_heard_s = now_s;
        }
    }

    /// Records that a keep-alive signal was sent to the peer at time `now_s`;
    /// the clock never moves back.
    pub fn record_keep_alive_sent(&mut self, now_s: u64)
        requires
            old(self).wf(),
        ensures
            final(self).wf(),
            final(self)@ == (ConnectionModel {
                last_keep_alive_sent: if now_s > old(self)@.last_keep_alive_sent {
                    now_s as nat
                } else {
                    old(self)@.last_keep_alive_sent
                },
                ..old(self)@
            }),
    {
        if now_s > self.last_keep_alive_sent_s {
            self.last_keep_alive_sent_s = now_s;
        }
    }

    /// Whether, at time `now_s`, the peer has been silent for longer than
    /// the timeout multiple of the keep-alive interval.
    pub fn is_keep_alive_expired(&self, now_s: u64) -> (r: bool)
        ensures
            r == keep_alive_expired(self@, now_s as nat),
    {
        if now_s <= self.last_heard_s {
            return false;
        }
        let silent = now_s - self.last_heard_s;
        match self.keep_alive_interval_s.checked_mul(self.timeout_multiple) {
            Some(limit) => silent > limit,
            None => false,
        }
    }

    /// Whether, at time `now_s`, a keep-alive signal is due.
    pub fn is_keep_alive_due(&self, now_s: u64) -> (r: bool)
        ensures
            r == keep_alive_due(self@, now_s as nat),
    {
        if now_s < self.last_keep_alive_sent_s {
            return false;
        }
        now_s - self.last_keep_alive_sent_s >= self.keep_alive_interval_s
    }

    /// Closes a `Connected` connection whose peer has been silent for too
    /// long at time `now_s`. Returns whether it did; otherwise nothing
    /// changes.
    pub fn check_keep_alive(&mut self, now_s: u64) -> (r: bool)
        requires
            old(self).wf(),
        ensures
            final(self).wf(),
            r == (old(self)@.state == ConnectionState::Connected && keep_alive_expired(
                old(self)@,
                now_s as nat,
            )),
            r ==> exists|signal: Vec<u8>|
                signal@.len() == 0 && final(self)@ == after_close(old(self)@, signal),
            r ==> final(self)@.state == ConnectionState::Disconnecting,
            !r ==> final(self)@ == old(self)@,
    {
        if self.state == ConnectionState::Connected && self.is_keep_alive_expired(now_s) {
            self.close();
            true
        } else {
            false
        }
    }

    /// The current state.
    pub fn state(&self) -> (r: ConnectionState)
        ensures
            r == self@.state,
    {
        self.state
    }

    /// The number of data channels in each direction.
    pub fn num_channels(&self) -> (r: usize)
        requires
            self.wf(),
        ensures
            r == self@.outbound.len(),
            r == self@.inbound.len(),
    {
        self.outbound.len()
    }
}

/// Once a connection is closing, and so once it is disconnected, a send on
/// any of its channels fails with `ChannelClosed` and queues nothing.
pub proof fn lemma_closing_connection_rejects_sends(m: ConnectionModel, channel: int, payload: Vec<u8>)
    requires
        connection_ok(m),
        is_closing(m.state),
        0 <= channel < m.outbound.len(),
    ensures
        send_error(m.outbound[channel]) == Some(QuinnetError::ChannelClosed),
        after_send(m.outbound[channel], payload) == m.outbound[channel],
{
    assert(m.outbound[channel].closed);
}

} // verus!
