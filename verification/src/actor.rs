//! The supervision rules of one long-lived connection: when to connect,
//! what to do once the transport is open, how long to wait after a failure,
//! and which received lines go to the subscriber.
//!
//! Nothing here touches the network. The caller opens the transport, reads,
//! writes and sleeps; it tells the actor what happened and does what the
//! actor answers.

use crate::backoff::{lemma_after_advance, lemma_nth_delay, Backoff, BackoffPolicy};
use crate::codec::OGNCodecError;
use vstd::arithmetic::power::pow;
use vstd::math::min;
use vstd::prelude::*;
use vstd::string::{StrSliceExecFns, StringExecFns};

verus! {

/// The interval of the first retry, in milliseconds.
pub const INITIAL_INTERVAL_MILLIS: u64 = 500;

/// The factor by which the retry interval grows with each failure.
pub const MULTIPLIER: u64 = 2;

/// The longest retry interval, in milliseconds.
pub const MAX_INTERVAL_MILLIS: u64 = 60_000;

/// The time between two keepalive lines, in seconds.
pub const KEEPALIVE_INTERVAL_SECS: u64 = 30;

/// The character that begins a comment line.
pub const COMMENT_MARKER: char = '#';

/// The line that is sent as a keepalive.
pub const KEEPALIVE_MESSAGE: &'static str = "# keep alive";

/// The user name of the login line for a client that only listens.
pub const USERNAME: &'static str = "test";

/// The password of the login line for a client that only listens.
pub const PASSWORD: &'static str = "-1";

/// A line received from the server that is no comment.
#[derive(Debug)]
pub struct OGNMessage {
    pub raw: String,
}

impl Clone for OGNMessage {
    fn clone(&self) -> (copy: OGNMessage)
        ensures
            copy == *self,
    {
        OGNMessage { raw: self.raw.clone() }
    }
}

/// Where the connection stands.
#[derive(Clone, Copy, Debug, PartialEq, Eq, Structural)]
pub enum Phase {
    /// Nothing has happened yet.
    Idle,
    /// The transport is being opened.
    Connecting,
    /// The transport is open and the login line has been handed out.
    Connected,
    /// The last attempt or session has failed and the next attempt is due
    /// after a delay.
    WaitingBackoff,
}

/// What can go wrong.
#[derive(Clone, Copy, Debug, PartialEq, Eq, Structural)]
pub enum Failure {
    /// The decoder met a frame that is too long.
    MaxLineLengthExceeded,
    /// Reading from or writing to the transport failed.
    TransportError,
    /// The read or the write direction ended cleanly.
    StreamEnded,
    /// The subscriber did not accept a message.
    DeliveryRejected,
}

/// What the caller reports to the actor.
#[derive(Clone, Copy, Debug, PartialEq, Eq, Structural)]
pub enum Event {
    /// The actor is started, or the delay after a failure is over.
    Start,
    /// The transport is open.
    ConnectSucceeded,
    /// The transport could not be opened.
    ConnectFailed,
    /// Something went wrong while the session was running.
    Failed(Failure),
    /// The keepalive timer fired.
    KeepaliveDue,
}

/// What the actor asks the caller to do.
#[derive(Clone, Copy, Debug, PartialEq, Eq, Structural)]
pub enum Action {
    /// Nothing: the event changes nothing in this phase.
    Ignore,
    /// Drop what is left of the last session, decode buffer and write handle,
    /// and open the transport.
    Connect,
    /// Send the login line, keep the write handle, start reading frames and
    /// arm the keepalive timer.
    OpenSession,
    /// Drop the write handle and report `Event::Start` after this many
    /// milliseconds.
    RetryAfter(u64),
    /// Send the keepalive line and arm the keepalive timer again.
    SendKeepalive,
    /// Send nothing, since there is no write handle, and arm the keepalive
    /// timer again.
    SkipKeepalive,
}

/// What becomes of a received line.
#[derive(Debug)]
pub enum Relayed {
    /// The line is data: offer the message to the subscriber, once and
    /// without blocking, and drop it if the subscriber does not accept it.
    Deliver(OGNMessage),
    /// The line is a comment of the server: log its text, deliver nothing.
    Control(String),
    /// No line was received but an error: log it, deliver nothing.
    ReceiveError(OGNCodecError),
}

/// The line begins with the comment marker.
pub open spec fn is_comment(line: Seq<char>) -> bool {
    line.len() > 0 && line[0] == COMMENT_MARKER
}

/// The text of a comment line: the line without the comment marker and
/// without the one space that may follow it.
pub open spec fn control_text(line: Seq<char>) -> Seq<char> {
    if line.len() >= 2 && line[1] == ' ' {
        line.skip(2)
    } else {
        line.skip(1)
    }
}

/// The login line: `user <username> pass <password> vers <name> <version>`.
pub open spec fn login_line(
    username: Seq<char>,
    password: Seq<char>,
    app_name: Seq<char>,
    app_version: Seq<char>,
) -> Seq<char> {
    "user "@ + username + " pass "@ + password + " vers "@ + app_name + " "@ + app_version
}

/// Builds the line that is sent first on a new connection.
pub fn login_message(username: &str, password: &str, app_name: &str, app_version: &str) -> (line:
    String)
    ensures
        line@ == login_line(username@, password@, app_name@, app_version@),
{
    let mut line = "user ".to_owned();
    line.append(username);
    line.append(" pass ");
    line.append(password);
    line.append(" vers ");
    line.append(app_name);
    line.append(" ");
    line.append(app_version);
    line
}

/// The value of an actor.
pub struct Supervisor {
    pub phase: Phase,
    pub backoff: Backoff,
}

/// Whether a failure ends the session. A rejected delivery does not: the
/// message is dropped and the connection stays as it is.
pub open spec fn ends_session(failure: Failure) -> bool {
    failure != Failure::DeliveryRejected
}

impl Supervisor {
    /// Whether the session's write handle exists.
    pub open spec fn has_writer(self) -> bool {
        self.phase == Phase::Connected
    }

    /// The actor after a failure that is answered with a delay.
    pub open spec fn backed_off(self) -> (Supervisor, Action) {
        (
            Supervisor { phase: Phase::WaitingBackoff, backoff: self.backoff.advance() },
            Action::RetryAfter(self.backoff.delay() as u64),
        )
    }

    /// The actor after `event`, and what it asks for.
    pub open spec fn step(self, event: Event) -> (Supervisor, Action) {
        match event {
            Event::Start => if self.phase == Phase::Idle || self.phase == Phase::WaitingBackoff {
                (Supervisor { phase: Phase::Connecting, ..self }, Action::Connect)
            } else {
                (self, Action::Ignore)
            },
            Event::ConnectSucceeded => if self.phase == Phase::Connecting {
                (
                    Supervisor { phase: Phase::Connected, backoff: self.backoff.reset() },
                    Action::OpenSession,
                )
            } else {
                (self, Action::Ignore)
            },
            Event::ConnectFailed => if self.phase == Phase::Connecting {
                self.backed_off()
            } else {
                (self, Action::Ignore)
            },
            Event::Failed(failure) => if self.phase == Phase::Connected && ends_session(failure) {
                self.backed_off()
            } else {
                (self, Action::Ignore)
            },
            Event::KeepaliveDue => if self.has_writer() {
                (self, Action::SendKeepalive)
            } else {
                (self, Action::SkipKeepalive)
            },
        }
    }

    /// The actor after a number of attempts in a row that all failed to
    /// open the transport.
    pub open spec fn after_failed_attempts(self, attempts: nat) -> Supervisor
        decreases attempts,
    {
        if attempts == 0 {
            self
        } else {
            self.after_failed_attempts((attempts - 1) as nat).step(Event::Start).0.step(
                Event::ConnectFailed,
            ).0
        }
    }
}

/// The state machine that keeps one connection to the server alive. It
/// never stops: every failure is answered with a delay and a new attempt.
pub struct OGNActor {
    phase: Phase,
    backoff: BackoffPolicy,
}

impl View for OGNActor {
    type V = Supervisor;

    closed spec fn view(&self) -> Supervisor {
        Supervisor { phase: self.phase, backoff: self.backoff@ }
    }
}

impl OGNActor {
    /// An idle actor whose retry interval starts at
    /// `INITIAL_INTERVAL_MILLIS`, grows by `MULTIPLIER` and stops growing at
    /// `MAX_INTERVAL_MILLIS`.
    pub fn new() -> (actor: OGNActor)
        ensures
            actor@ == (Supervisor {
                phase: Phase::Idle,
                backoff: Backoff {
                    current: INITIAL_INTERVAL_MILLIS as nat,
                    initial: INITIAL_INTERVAL_MILLIS as nat,
                    multiplier: MULTIPLIER as nat,
                    max: MAX_INTERVAL_MILLIS as nat,
                },
            }),
    {
        OGNActor::with_backoff(
            BackoffPolicy::new(INITIAL_INTERVAL_MILLIS, MULTIPLIER, MAX_INTERVAL_MILLIS),
        )
    }

    /// An idle actor with a backoff policy of the caller's.
    pub fn with_backoff(backoff: BackoffPolicy) -> (actor: OGNActor)
        ensures
            actor@ == (Supervisor { phase: Phase::Idle, backoff: backoff@ }),
    {
        OGNActor { phase: Phase::Idle, backoff }
    }

    /// Where the connection stands.
    pub fn phase(&self) -> (phase: Phase)
        ensures
            phase == self@.phase,
    {
        self.phase
    }

    /// The backoff policy as it stands.
    pub fn backoff(&self) -> (policy: &BackoffPolicy)
        ensures
            policy@ == self@.backoff,
    {
        &self.backoff
    }

    /// Whether the session's write handle exists. A timer that fires late
    /// asks this before it writes.
    pub fn has_writer(&self) -> (present: bool)
        ensures
            present == self@.has_writer(),
    {
        self.phase == Phase::Connected
    }

    fn back_off(&mut self) -> (action: Action)
        ensures
            (final(self)@, action) == old(self)@.backed_off(),
    {
        let delay = self.backoff.next_backoff();
        self.phase = Phase::WaitingBackoff;
        Action::RetryAfter(delay)
    }

    /// Takes note of `event` and says what to do about it.
    pub fn handle_event(&mut self, event: Event) -> (action: Action)
        ensures
            (final(self)@, action) == old(self)@.step(event),
    {
        match event {
            Event::Start => {
                if self.phase == Phase::Idle || self.phase == Phase::WaitingBackoff {
                    self.phase = Phase::Connecting;
                    Action::Connect
                } else {
                    Action::Ignore
                }
            },
            Event::ConnectSucceeded => {
                if self.phase == Phase::Connecting {
                    self.backoff.reset();
                    self.phase = Phase::Connected;
                    Action::OpenSession
                } else {
                    Action::Ignore
                }
            },
            Event::ConnectFailed => {
                if self.phase == Phase::Connecting {
                    self.back_off()
                } else {
                    Action::Ignore
                }
            },
            Event::Failed(failure) => {
                if self.phase == Phase::Connected && failure != Failure::DeliveryRejected {
                    self.back_off()
                } else {
                    Action::Ignore
                }
            },
            Event::KeepaliveDue => {
                if self.has_writer() {
                    Action::SendKeepalive
                } else {
                    Action::SkipKeepalive
                }
            },
        }
    }

    /// Sorts a received line: a line that begins with the comment marker is
    /// for the log only, every other line is a message for the subscriber.
    pub fn handle(&self, line: Result<String, OGNCodecError>) -> (relayed: Relayed)
        ensures
            match line {
                Ok(text) => if is_comment(text@) {
                    relayed matches Relayed::Control(control) && control@ == control_text(text@)
                } else {
                    relayed matches Relayed::Deliver(message) && message.raw@ == text@
                },
                Err(error) => relayed matches Relayed::ReceiveError(e) && e == error,
            },
    {
        match line {
            Ok(text) => {
                let s = text.as_str();
                if s.is_empty() || s.get_char(0) != COMMENT_MARKER {
                    Relayed::Deliver(OGNMessage { raw: text })
                } else {
                    let len = s.unicode_len();
                    let from: usize = if len >= 2 && s.get_char(1) == ' ' {
                        2
                    } else {
                        1
                    };
                    Relayed::Control(s.substring_char(from, len).to_owned())
                }
            },
            Err(error) => Relayed::ReceiveError(error),
        }
    }
}

/// The `n`th attempt in a row that fails is answered with the delay of the
/// policy after `n - 1` failures, and the policy goes on from one attempt
/// to the next.
pub proof fn lemma_retry_delays(actor: Supervisor, n: nat)
    requires
        n >= 1,
        actor.phase == Phase::Idle || actor.phase == Phase::WaitingBackoff,
    ensures
        ({
            let attempt = actor.after_failed_attempts((n - 1) as nat).step(Event::Start);
            let failure = attempt.0.step(Event::ConnectFailed);
            &&& attempt.1 == Action::Connect
            &&& failure.1 == Action::RetryAfter(
                actor.backoff.after((n - 1) as nat).delay() as u64,
            )
            &&& failure.0 == actor.after_failed_attempts(n)
            &&& failure.0.phase == Phase::WaitingBackoff
            &&& failure.0.backoff == actor.backoff.after(n)
        }),
    decreases n,
{
    let before = (n - 1) as nat;
    if n > 1 {
        lemma_retry_delays(actor, before);
    } else {
        assert(actor.after_failed_attempts(0) == actor);
        assert(actor.backoff.after(0) == actor.backoff);
    }
    assert(actor.backoff.after(n) == actor.backoff.after(before).advance());
    assert(actor.after_failed_attempts(n) == actor.after_failed_attempts(before).step(
        Event::Start,
    ).0.step(Event::ConnectFailed).0);
}

/// After a successful connection the delays start again: the session's end
/// is answered with the initial interval, and the `n`th attempt after it
/// that fails with the initial interval times the multiplier to the power
/// of `n`, both held to the maximum.
pub proof fn lemma_retries_after_success(actor: Supervisor, failure: Failure, n: nat)
    requires
        actor.phase == Phase::Connecting,
        ends_session(failure),
        actor.backoff.max <= u64::MAX,
    ensures
        ({
            let session = actor.step(Event::ConnectSucceeded);
            let lost = session.0.step(Event::Failed(failure));
            let attempt = lost.0.after_failed_attempts(n).step(Event::Start);
            &&& session.1 == Action::OpenSession
            &&& session.0.backoff == actor.backoff.reset()
            &&& lost.1 == Action::RetryAfter(
                min(actor.backoff.initial as int, actor.backoff.max as int) as u64,
            )
            &&& attempt.0.step(Event::ConnectFailed).1 == Action::RetryAfter(
                min(
                    actor.backoff.initial * pow(actor.backoff.multiplier as int, n + 1),
                    actor.backoff.max as int,
                ) as u64,
            )
        }),
{
    let policy = actor.backoff;
    let lost = actor.step(Event::ConnectSucceeded).0.step(Event::Failed(failure));
    lemma_retry_delays(lost.0, n + 1);
    assert(lost.0.backoff == policy.reset().advance());
    lemma_after_advance(policy.reset(), n);
    lemma_nth_delay(policy, n + 2);
}

/// The actor never gives up: a failed attempt and a lost session are both
/// answered with a delay, and once the delay is over the next attempt is
/// made.
pub proof fn lemma_never_gives_up(actor: Supervisor, failure: Failure)
    requires
        ends_session(failure),
    ensures
        actor.phase == Phase::Connecting ==> actor.step(Event::ConnectFailed).1 is RetryAfter
            && actor.step(Event::ConnectFailed).0.phase == Phase::WaitingBackoff,
        actor.phase == Phase::Connected ==> actor.step(Event::Failed(failure)).1 is RetryAfter
            && actor.step(Event::Failed(failure)).0.phase == Phase::WaitingBackoff,
        actor.phase == Phase::WaitingBackoff ==> actor.step(Event::Start) == (
            Supervisor { phase: Phase::Connecting, ..actor },
            Action::Connect,
        ),
{
}

/// The keepalive line is a comment: a server that echoes it, or a peer that
/// reads it, finds nothing to deliver.
pub proof fn lemma_keepalive_is_comment()
    ensures
        is_comment(KEEPALIVE_MESSAGE@),
{
    reveal_strlit("# keep alive");
}

} // verus!
