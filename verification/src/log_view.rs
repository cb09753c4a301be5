//! Reading logs: which attempts are shown, what is replayed, and how a live view goes on from
//! where the last read ended.

use crate::errors::{ApiError, ApiErrorView};
use crate::log_tail;
use crate::runs::{Attempt, StepRecord};
use crate::sort::{self, Ranked};
use crate::text;
use vstd::prelude::*;

verus! {

/// The attempts to show: the requested one, or all of the step's in order.
pub open spec fn selection(attempts: Seq<Seq<char>>, requested: Option<Seq<char>>) -> Option<Seq<Seq<char>>> {
    match requested {
        Some(a) => if attempts.contains(a) {
            Some(seq![a])
        } else {
            None
        },
        None => Some(attempts),
    }
}

/// The attempts of a step whose logs are shown.
pub fn select_attempts(attempts: &Vec<String>, requested: &Option<String>) -> (r: Result<Vec<String>, ApiError>)
    ensures
        match r {
            Ok(v) => selection(text::views(attempts@), text::opt_view(*requested)) == Some(text::views(v@)),
            Err(e) => selection(text::views(attempts@), text::opt_view(*requested)) is None && e@ == ApiErrorView::NotFound,
        },
{
    match requested {
        Some(a) => {
            if !text::contains_string(attempts, a.as_str()) {
                return Err(ApiError::NotFound);
            }
            let mut v: Vec<String> = Vec::new();
            v.push(a.clone());
            assert(text::views(v@) =~= seq![a@]);
            Ok(v)
        },
        None => Ok(text::clone_strings(attempts)),
    }
}

/// The step name that the shown stream is kept under.
pub open spec fn read_name(step: Seq<char>, sidecar: Option<u64>) -> Seq<char> {
    match sidecar {
        Some(i) => step + "::service-"@ + text::decimal(i as nat),
        None => step,
    }
}

/// The step name that the shown stream is kept under.
pub fn read_step(step: &str, sidecar: Option<u64>) -> (r: String)
    ensures
        r@ == read_name(step@, sidecar),
{
    match sidecar {
        Some(i) => log_tail::sidecar_stream_key(step, i),
        None => step.to_owned(),
    }
}

/// Whether a view goes on after the replay: the run still goes, and the step's latest attempt is
/// among those shown. Earlier attempts never change.
pub fn follows(terminal: bool, attempts: &Vec<String>, selected: &Vec<String>) -> (r: bool)
    ensures
        r == (!terminal && attempts@.len() > 0 && text::views(selected@).contains(attempts@.last()@)),
{
    if terminal || attempts.len() == 0 {
        return false;
    }
    text::contains_string(selected, attempts[attempts.len() - 1].as_str())
}

/// A stream as a view reads it: the step name it is kept under, and an attempt.
#[derive(Debug)]
pub struct LogStream {
    pub step: String,
    pub attempt: String,
}

/// The mathematical model of a [`LogStream`].
pub struct StreamView {
    pub step: Seq<char>,
    pub attempt: Seq<char>,
}

impl View for LogStream {
    type V = StreamView;

    open spec fn view(&self) -> StreamView {
        StreamView { step: self.step@, attempt: self.attempt@ }
    }
}

impl LogStream {
    fn copy(&self) -> (r: LogStream)
        ensures
            r@ == self@,
    {
        LogStream { step: self.step.clone(), attempt: self.attempt.clone() }
    }
}

pub open spec fn stream_views(v: Seq<LogStream>) -> Seq<StreamView> {
    v.map_values(|s: LogStream| s@)
}

/// What a read of a stream gave: its bytes and the number to read on from.
#[derive(Debug)]
pub struct StreamRead {
    pub body: Vec<u8>,
    pub next: u64,
}

/// How far each stream of a view was read.
#[derive(Debug)]
pub struct LogFeed {
    pub seen: Vec<(String, String, u64)>,
}

pub open spec fn last_seen(seen: Seq<(String, String, u64)>, s: StreamView) -> Option<u64>
    decreases seen.len(),
{
    if seen.len() == 0 {
        None
    } else if seen.last().0@ == s.step && seen.last().1@ == s.attempt {
        Some(seen.last().2)
    } else {
        last_seen(seen.drop_last(), s)
    }
}

impl LogFeed {
    /// Where the next read of a stream starts.
    pub open spec fn position(self, s: StreamView) -> u64 {
        match last_seen(self.seen@, s) {
            Some(n) => n,
            None => 0,
        }
    }

    pub fn new() -> (r: LogFeed)
        ensures
            forall|s: StreamView| #[trigger] r.position(s) == 0,
    {
        LogFeed { seen: Vec::new() }
    }

    /// The number to read a stream on from.
    pub fn from_seq(&self, stream: &LogStream) -> (r: u64)
        ensures
            r == self.position(stream@),
    {
        let ghost s = stream@;
        let mut i: usize = self.seen.len();
        assert(self.seen@.take(i as int) =~= self.seen@);
        while i > 0
            invariant
                i <= self.seen@.len(),
                s == stream@,
                last_seen(self.seen@, s) == last_seen(self.seen@.take(i as int), s),
            decreases i,
        {
            let ghost now = self.seen@.take(i as int);
            i = i - 1;
            assert(now.drop_last() =~= self.seen@.take(i as int));
            assert(now.last() == self.seen@[i as int]);
            if text::str_eq(self.seen[i].0.as_str(), stream.step.as_str()) && text::str_eq(
                self.seen[i].1.as_str(),
                stream.attempt.as_str(),
            ) {
                return self.seen[i].2;
            }
        }
        0
    }

    /// Notes how far a stream was read.
    pub fn note(&mut self, stream: &LogStream, next: u64)
        ensures
            forall|s: StreamView|
                #[trigger] final(self).position(s) == (if s == stream@ {
                    next
                } else {
                    old(self).position(s)
                }),
    {
        let ghost before = self.seen@;
        self.seen.push((stream.step.clone(), stream.attempt.clone(), next));
        assert(self.seen@.drop_last() =~= before);
    }
}

/// The ids of attempts.
pub open spec fn attempt_ids(attempts: Seq<Attempt>) -> Seq<Seq<char>> {
    attempts.map_values(|a: Attempt| a.id@)
}

/// The streams of a step's attempts, in their order.
pub open spec fn streams_at(step: Seq<char>, attempts: Seq<Seq<char>>) -> Seq<StreamView> {
    attempts.map_values(|a: Seq<char>| StreamView { step, attempt: a })
}

/// The streams of every attempt of every step, in their order.
pub open spec fn streams_of(steps: Seq<StepRecord>) -> Seq<StreamView>
    decreases steps.len(),
{
    if steps.len() == 0 {
        Seq::empty()
    } else {
        streams_of(steps.drop_last()) + streams_at(steps.last().id@, attempt_ids(steps.last().attempts@))
    }
}

fn ids(attempts: &Vec<Attempt>) -> (r: Vec<String>)
    ensures
        text::views(r@) == attempt_ids(attempts@),
{
    let mut out: Vec<String> = Vec::new();
    let mut i: usize = 0;
    while i < attempts.len()
        invariant
            i <= attempts@.len(),
            text::views(out@) == attempt_ids(attempts@).take(i as int),
        decreases attempts@.len() - i,
    {
        let ghost before = text::views(out@);
        out.push(attempts[i].id.clone());
        assert(text::views(out@) =~= before.push(attempts@[i as int].id@));
        assert(attempt_ids(attempts@).take(i + 1) =~= before.push(attempts@[i as int].id@));
        i = i + 1;
    }
    assert(attempt_ids(attempts@).take(i as int) =~= attempt_ids(attempts@));
    out
}

fn push_streams(out: &mut Vec<LogStream>, step: &str, attempts: &Vec<String>)
    ensures
        stream_views(final(out)@) == stream_views(old(out)@) + streams_at(step@, text::views(attempts@)),
{
    let ghost before = stream_views(out@);
    let ghost more = streams_at(step@, text::views(attempts@));
    let mut i: usize = 0;
    assert(before + more.take(0) =~= before);
    while i < attempts.len()
        invariant
            i <= attempts@.len(),
            more == streams_at(step@, text::views(attempts@)),
            stream_views(out@) == before + more.take(i as int),
        decreases attempts@.len() - i,
    {
        let ghost now = stream_views(out@);
        out.push(LogStream { step: step.to_owned(), attempt: attempts[i].clone() });
        assert(stream_views(out@) =~= now.push(more[i as int]));
        assert(before + more.take(i + 1) =~= (before + more.take(i as int)).push(more[i as int]));
        i = i + 1;
    }
    assert(more.take(i as int) =~= more);
}

/// The streams of every attempt of every step, in their order.
pub fn run_streams(steps: &Vec<StepRecord>) -> (r: Vec<LogStream>)
    ensures
        stream_views(r@) == streams_of(steps@),
{
    let mut out: Vec<LogStream> = Vec::new();
    let mut i: usize = 0;
    assert(stream_views(out@) =~= streams_of(steps@.take(0)));
    while i < steps.len()
        invariant
            i <= steps@.len(),
            stream_views(out@) == streams_of(steps@.take(i as int)),
        decreases steps@.len() - i,
    {
        let ghost now = steps@.take(i + 1);
        assert(now.drop_last() =~= steps@.take(i as int));
        assert(now.last() == steps@[i as int]);
        let attempts = ids(&steps[i].attempts);
        push_streams(&mut out, steps[i].id.as_str(), &attempts);
        i = i + 1;
    }
    assert(steps@.take(i as int) =~= steps@);
    out
}

/// What a view sends.
#[derive(Debug)]
pub enum FeedEvent {
    /// Nothing new: a comment that keeps the connection open.
    Keepalive,
    Data(Vec<u8>),
}

/// The mathematical model of a [`FeedEvent`].
pub enum SentView {
    Keepalive,
    Data(Seq<u8>),
}

impl View for FeedEvent {
    type V = SentView;

    open spec fn view(&self) -> SentView {
        match *self {
            FeedEvent::Keepalive => SentView::Keepalive,
            FeedEvent::Data(b) => SentView::Data(b@),
        }
    }
}

/// What a view does next.
#[derive(Debug)]
pub enum LogNext {
    /// Read a stream from a chunk on.
    Read { stream: LogStream, from: u64 },
    /// Wait a while, then read the run's status and, after it, its steps.
    Wait,
    /// The view is complete.
    Close,
}

/// The mathematical model of a [`LogNext`].
pub enum NextView {
    Read { stream: StreamView, from: u64 },
    Wait,
    Close,
}

impl View for LogNext {
    type V = NextView;

    open spec fn view(&self) -> NextView {
        match *self {
            LogNext::Read { stream, from } => NextView::Read { stream: stream@, from },
            LogNext::Wait => NextView::Wait,
            LogNext::Close => NextView::Close,
        }
    }
}

/// What a view sends now, if anything, and what it does then.
#[derive(Debug)]
pub struct LogTurn {
    pub send: Option<FeedEvent>,
    pub next: LogNext,
}

/// The mathematical model of a [`LogTurn`].
pub struct TurnView {
    pub send: Option<SentView>,
    pub next: NextView,
}

impl View for LogTurn {
    type V = TurnView;

    open spec fn view(&self) -> TurnView {
        TurnView {
            send: match self.send {
                Some(e) => Some(e@),
                None => None,
            },
            next: self.next@,
        }
    }
}

/// What came of the last turn.
#[derive(Debug)]
pub enum LogOutcome {
    /// The stream's bytes; `None` where it could not be read.
    Read(Option<StreamRead>),
    /// Whether the run was found terminal, and its steps as they stand now.
    Waited { terminal: bool, steps: Vec<StepRecord> },
}

/// Where a view stands.
#[derive(Debug)]
pub enum LogPhase {
    /// What is stored is being replayed, stream by stream.
    Replaying { streams: Vec<LogStream>, at: usize },
    Waiting,
    /// The streams are read on, one by one; `body` is what they gave so far.
    Polling { streams: Vec<LogStream>, at: usize, body: Vec<u8>, terminal: bool },
    Closed,
}

/// The mathematical model of a [`LogPhase`].
pub enum LogPhaseView {
    Replaying { streams: Seq<StreamView>, at: int },
    Waiting,
    Polling { streams: Seq<StreamView>, at: int, body: Seq<u8>, terminal: bool },
    Closed,
}

impl View for LogPhase {
    type V = LogPhaseView;

    open spec fn view(&self) -> LogPhaseView {
        match *self {
            LogPhase::Replaying { streams, at } => LogPhaseView::Replaying {
                streams: stream_views(streams@),
                at: at as int,
            },
            LogPhase::Waiting => LogPhaseView::Waiting,
            LogPhase::Polling { streams, at, body, terminal } => LogPhaseView::Polling {
                streams: stream_views(streams@),
                at: at as int,
                body: body@,
                terminal,
            },
            LogPhase::Closed => LogPhaseView::Closed,
        }
    }
}

/// One reader's view of logs: a replay of what is stored and, where it follows the run, polls for
/// what is written after.
#[derive(Debug)]
pub struct LogSession {
    pub follow: bool,
    /// The streams shown; `None` for all that the run has at each poll.
    pub fixed: Option<Vec<LogStream>>,
    pub feed: LogFeed,
    pub phase: LogPhase,
}

pub open spec fn opt_streams(o: Option<Vec<LogStream>>) -> Option<Seq<StreamView>> {
    match o {
        Some(v) => Some(stream_views(v@)),
        None => None,
    }
}

/// The replay of the streams from one on, and what follows the last.
pub open spec fn replay_from(streams: Seq<StreamView>, at: int, follow: bool) -> (LogPhaseView, NextView) {
    if at < streams.len() {
        (LogPhaseView::Replaying { streams, at }, NextView::Read { stream: streams[at], from: 0 })
    } else if follow {
        (LogPhaseView::Waiting, NextView::Wait)
    } else {
        (LogPhaseView::Closed, NextView::Close)
    }
}

/// What a poll sends of the bytes it gathered.
pub open spec fn poll_result(body: Seq<u8>) -> SentView {
    if body.len() == 0 {
        SentView::Keepalive
    } else {
        SentView::Data(body)
    }
}

/// A poll of the streams from one on, each read from its position, and what it sends at its end.
/// The poll that found the run terminal is the last.
pub open spec fn poll_from(feed: LogFeed, streams: Seq<StreamView>, at: int, body: Seq<u8>, terminal: bool) -> (
    LogPhaseView,
    TurnView,
) {
    if at < streams.len() {
        (
            LogPhaseView::Polling { streams, at, body, terminal },
            TurnView { send: None, next: NextView::Read { stream: streams[at], from: feed.position(streams[at]) } },
        )
    } else if terminal {
        (LogPhaseView::Closed, TurnView { send: Some(poll_result(body)), next: NextView::Close })
    } else {
        (LogPhaseView::Waiting, TurnView { send: Some(poll_result(body)), next: NextView::Wait })
    }
}

impl LogSession {
    pub open spec fn wf(self) -> bool {
        match self.phase@ {
            LogPhaseView::Replaying { streams, at } => at < streams.len(),
            LogPhaseView::Polling { streams, at, .. } => at < streams.len(),
            _ => true,
        }
    }

    /// The outcome is that of the turn handed out last.
    pub open spec fn expects(self, out: LogOutcome) -> bool {
        match self.phase@ {
            LogPhaseView::Replaying { .. } => out is Read,
            LogPhaseView::Waiting => out is Waited,
            LogPhaseView::Polling { .. } => out is Read,
            LogPhaseView::Closed => false,
        }
    }

    /// Where a stream is read on from after an outcome. A replayed stream that could not be read
    /// starts over; a polled one is read again from the same place.
    pub open spec fn position_after(self, out: LogOutcome, s: StreamView) -> u64 {
        match (self.phase@, out) {
            (LogPhaseView::Replaying { streams, at }, LogOutcome::Read(read)) => if streams[at] == s {
                match read {
                    Some(x) => x.next,
                    None => 0,
                }
            } else {
                self.feed.position(s)
            },
            (LogPhaseView::Polling { streams, at, .. }, LogOutcome::Read(Some(x))) => if streams[at] == s {
                x.next
            } else {
                self.feed.position(s)
            },
            _ => self.feed.position(s),
        }
    }

    /// The phase and the turn that follow an outcome, given the positions after it.
    pub open spec fn after(self, out: LogOutcome, feed: LogFeed) -> (LogPhaseView, TurnView) {
        match (self.phase@, out) {
            (LogPhaseView::Replaying { streams, at }, LogOutcome::Read(read)) => {
                let (phase, next) = replay_from(streams, at + 1, self.follow);
                let send = match read {
                    Some(x) => if x.body@.len() == 0 {
                        None
                    } else {
                        Some(SentView::Data(x.body@))
                    },
                    None => None,
                };
                (phase, TurnView { send, next })
            },
            (LogPhaseView::Waiting, LogOutcome::Waited { terminal, steps }) => {
                let streams = match opt_streams(self.fixed) {
                    Some(v) => v,
                    None => streams_of(steps@),
                };
                poll_from(feed, streams, 0, Seq::empty(), terminal)
            },
            (LogPhaseView::Polling { streams, at, body, terminal }, LogOutcome::Read(read)) => {
                let body = match read {
                    Some(x) => body + x.body@,
                    None => body,
                };
                poll_from(feed, streams, at + 1, body, terminal)
            },
            _ => (LogPhaseView::Closed, TurnView { send: None, next: NextView::Close }),
        }
    }

    /// The session and the turn that follow an outcome.
    pub open spec fn stepped(self, out: LogOutcome, new: LogSession, turn: LogTurn) -> bool {
        &&& new.follow == self.follow
        &&& opt_streams(new.fixed) == opt_streams(self.fixed)
        &&& forall|s: StreamView| #[trigger] new.feed.position(s) == self.position_after(out, s)
        &&& (new.phase@, turn@) == self.after(out, new.feed)
    }

    /// A view of the streams that are shown now.
    pub open spec fn begun(self, turn: LogTurn, streams: Seq<StreamView>, fixed: bool, follow: bool) -> bool {
        &&& self.wf()
        &&& self.follow == follow
        &&& opt_streams(self.fixed) == (if fixed {
            Some(streams)
        } else {
            None
        })
        &&& forall|s: StreamView| #[trigger] self.feed.position(s) == 0
        &&& turn@.send is None
        &&& (self.phase@, turn@.next) == replay_from(streams, 0, follow)
    }

    fn begin(streams: Vec<LogStream>, fixed: bool, follow: bool) -> (r: (LogSession, LogTurn))
        ensures
            r.0.begun(r.1, stream_views(streams@), fixed, follow),
    {
        let kept = if fixed {
            Some(copy_streams(&streams))
        } else {
            None
        };
        let (phase, next) = replay_on(streams, 0, follow);
        (LogSession { follow, fixed: kept, feed: LogFeed::new(), phase }, LogTurn { send: None, next })
    }

    /// Takes what came of the last turn and says what is sent and done next.
    pub fn step(self, out: LogOutcome) -> (r: (LogSession, LogTurn))
        requires
            self.wf(),
            self.expects(out),
        ensures
            r.0.wf(),
            self.stepped(out, r.0, r.1),
    {
        let LogSession { follow, fixed, feed, phase } = self;
        let mut feed = feed;
        match (phase, out) {
            (LogPhase::Replaying { streams, at }, LogOutcome::Read(read)) => {
                assert(stream_views(streams@)[at as int] == streams@[at as int]@);
                assert(at < streams.len());
                let send = match read {
                    Some(x) => {
                        feed.note(&streams[at], x.next);
                        if x.body.len() == 0 {
                            None
                        } else {
                            Some(FeedEvent::Data(x.body))
                        }
                    },
                    None => {
                        feed.note(&streams[at], 0);
                        None
                    },
                };
                let (phase, next) = replay_on(streams, at + 1, follow);
                (LogSession { follow, fixed, feed, phase }, LogTurn { send, next })
            },
            (LogPhase::Waiting, LogOutcome::Waited { terminal, steps }) => {
                let streams = match &fixed {
                    Some(v) => copy_streams(v),
                    None => run_streams(&steps),
                };
                let (phase, turn) = poll_on(&feed, streams, 0, Vec::new(), terminal);
                (LogSession { follow, fixed, feed, phase }, turn)
            },
            (LogPhase::Polling { streams, at, body, terminal }, LogOutcome::Read(read)) => {
                assert(stream_views(streams@)[at as int] == streams@[at as int]@);
                assert(at < streams.len());
                let mut body = body;
                match read {
                    Some(x) => {
                        feed.note(&streams[at], x.next);
                        let mut bytes: Vec<u8> = x.body;
                        body.append(&mut bytes);
                    },
                    None => {},
                }
                let (phase, turn) = poll_on(&feed, streams, at + 1, body, terminal);
                (LogSession { follow, fixed, feed, phase }, turn)
            },
            _ => (
                LogSession { follow, fixed, feed, phase: LogPhase::Closed },
                LogTurn { send: None, next: LogNext::Close },
            ),
        }
    }
}

fn copy_streams(v: &Vec<LogStream>) -> (r: Vec<LogStream>)
    ensures
        stream_views(r@) == stream_views(v@),
{
    let mut out: Vec<LogStream> = Vec::new();
    let mut i: usize = 0;
    while i < v.len()
        invariant
            i <= v@.len(),
            stream_views(out@) == stream_views(v@).take(i as int),
        decreases v@.len() - i,
    {
        let ghost before = stream_views(out@);
        out.push(v[i].copy());
        assert(stream_views(out@) =~= before.push(v@[i as int]@));
        assert(stream_views(v@).take(i + 1) =~= before.push(v@[i as int]@));
        i = i + 1;
    }
    assert(stream_views(v@).take(i as int) =~= stream_views(v@));
    out
}

fn replay_on(streams: Vec<LogStream>, at: usize, follow: bool) -> (r: (LogPhase, LogNext))
    ensures
        (r.0@, r.1@) == replay_from(stream_views(streams@), at as int, follow),
{
    if at < streams.len() {
        assert(stream_views(streams@)[at as int] == streams@[at as int]@);
        let next = LogNext::Read { stream: streams[at].copy(), from: 0 };
        (LogPhase::Replaying { streams, at }, next)
    } else if follow {
        (LogPhase::Waiting, LogNext::Wait)
    } else {
        (LogPhase::Closed, LogNext::Close)
    }
}

fn poll_on(feed: &LogFeed, streams: Vec<LogStream>, at: usize, body: Vec<u8>, terminal: bool) -> (r: (
    LogPhase,
    LogTurn,
))
    ensures
        (r.0@, r.1@) == poll_from(*feed, stream_views(streams@), at as int, body@, terminal),
{
    if at < streams.len() {
        assert(stream_views(streams@)[at as int] == streams@[at as int]@);
        let from = feed.from_seq(&streams[at]);
        let next = LogNext::Read { stream: streams[at].copy(), from };
        return (LogPhase::Polling { streams, at, body, terminal }, LogTurn { send: None, next });
    }
    let sent = if body.len() == 0 {
        FeedEvent::Keepalive
    } else {
        FeedEvent::Data(body)
    };
    if terminal {
        (LogPhase::Closed, LogTurn { send: Some(sent), next: LogNext::Close })
    } else {
        (LogPhase::Waiting, LogTurn { send: Some(sent), next: LogNext::Wait })
    }
}

/// The view of a whole run: every attempt of every step, and those that come while it goes.
pub fn get_logs(terminal: bool, steps: &Vec<StepRecord>) -> (r: (LogSession, LogTurn))
    ensures
        r.0.begun(r.1, streams_of(steps@), false, !terminal),
{
    LogSession::begin(run_streams(steps), false, !terminal)
}

/// Which of a step's logs are asked for.
#[derive(Debug)]
pub struct StepLogsQuery {
    pub attempt: Option<String>,
    pub sidecar: Option<u64>,
}

/// The first step with an id.
pub open spec fn step_named(steps: Seq<StepRecord>, id: Seq<char>) -> Option<StepRecord>
    decreases steps.len(),
{
    if steps.len() == 0 {
        None
    } else if steps[0].id@ == id {
        Some(steps[0])
    } else {
        step_named(steps.drop_first(), id)
    }
}

fn find_step<'a>(steps: &'a Vec<StepRecord>, id: &str) -> (r: Option<&'a StepRecord>)
    ensures
        match r {
            Some(s) => step_named(steps@, id@) == Some(*s),
            None => step_named(steps@, id@) is None,
        },
{
    let mut i: usize = 0;
    assert(steps@.skip(0) =~= steps@);
    while i < steps.len()
        invariant
            i <= steps@.len(),
            step_named(steps@, id@) == step_named(steps@.skip(i as int), id@),
        decreases steps@.len() - i,
    {
        assert(steps@.skip(i as int)[0] == steps@[i as int]);
        if text::str_eq(steps[i].id.as_str(), id) {
            return Some(&steps[i]);
        }
        assert(steps@.skip(i as int).drop_first() =~= steps@.skip(i + 1));
        i = i + 1;
    }
    None
}

/// The view of one step: the requested attempt or all that the step has, of the step's own stream
/// or of a sidecar's. It follows the run where the step's latest attempt is among those shown.
pub open spec fn step_view(terminal: bool, steps: Seq<StepRecord>, step: Seq<char>, q: StepLogsQuery) -> Option<
    (Seq<StreamView>, bool),
> {
    match step_named(steps, step) {
        None => None,
        Some(found) => {
            let attempts = attempt_ids(found.attempts@);
            match selection(attempts, text::opt_view(q.attempt)) {
                None => None,
                Some(shown) => Some(
                    (
                        streams_at(read_name(step, q.sidecar), shown),
                        !terminal && attempts.len() > 0 && shown.contains(attempts.last()),
                    ),
                ),
            }
        },
    }
}

/// The view of one step's logs. A step that the run does not have is not found, nor an attempt
/// that the step does not have.
pub fn get_step_logs(terminal: bool, steps: &Vec<StepRecord>, step: &str, q: &StepLogsQuery) -> (r: Result<
    (LogSession, LogTurn),
    ApiError,
>)
    ensures
        match r {
            Ok(s) => step_view(terminal, steps@, step@, *q) matches Some(v) && s.0.begun(s.1, v.0, true, v.1),
            Err(e) => step_view(terminal, steps@, step@, *q) is None && e@ == ApiErrorView::NotFound,
        },
{
    let found = match find_step(steps, step) {
        Some(s) => s,
        None => {
            return Err(ApiError::NotFound);
        },
    };
    let attempts = ids(&found.attempts);
    let selected = match select_attempts(&attempts, &q.attempt) {
        Ok(v) => v,
        Err(e) => {
            return Err(e);
        },
    };
    let follow = follows(terminal, &attempts, &selected);
    let name = read_step(step, q.sidecar);
    let mut streams: Vec<LogStream> = Vec::new();
    push_streams(&mut streams, name.as_str(), &selected);
    assert(stream_views(streams@) =~= streams_at(name@, text::views(selected@)));
    proof {
        let all = text::views(attempts@);
        if attempts@.len() > 0 {
            assert(all.last() == attempts@.last()@);
        }
    }
    Ok(LogSession::begin(streams, true, follow))
}

/// The view of one stream of a shared service.
pub fn get_service_logs(terminal: bool, stream: LogStream) -> (r: (LogSession, LogTurn))
    ensures
        r.0.begun(r.1, seq![stream@], true, !terminal),
{
    let ghost shown = stream@;
    let mut streams: Vec<LogStream> = Vec::new();
    streams.push(stream);
    assert(stream_views(streams@) =~= seq![shown]);
    LogSession::begin(streams, true, !terminal)
}

/// A view reads no byte twice and skips none: where a stream is read on from changes only when
/// that stream is read, to where the read ended, and a poll reads each stream from there.
pub proof fn views_read_on_where_they_ended(a: LogSession, out: LogOutcome, b: LogSession, turn: LogTurn, s: StreamView)
    requires
        a.wf(),
        a.expects(out),
        a.phase@ !is Replaying,
        a.stepped(out, b, turn),
    ensures
        b.feed.position(s) != a.feed.position(s) ==> (a.phase@ matches LogPhaseView::Polling { streams, at, .. }
            && streams[at] == s && (out matches LogOutcome::Read(Some(x)) && b.feed.position(s) == x.next)),
        turn@.next matches NextView::Read { stream, from } ==> from == b.feed.position(stream),
{
}

/// A view that follows its run ends with the first poll that found the run terminal, and with no
/// other; a view that does not follow ends with its replay.
pub proof fn views_end_one_poll_after_the_run(a: LogSession, out: LogOutcome, b: LogSession, turn: LogTurn)
    requires
        a.wf(),
        a.expects(out),
        a.stepped(out, b, turn),
    ensures
        turn@.next is Close ==> match a.phase@ {
            LogPhaseView::Replaying { streams, at } => !a.follow && at + 1 == streams.len(),
            LogPhaseView::Waiting => out->terminal,
            LogPhaseView::Polling { terminal, .. } => terminal,
            LogPhaseView::Closed => false,
        },
        turn@.next is Wait ==> match a.phase@ {
            LogPhaseView::Replaying { streams, at } => a.follow && at + 1 == streams.len(),
            LogPhaseView::Waiting => !out->terminal,
            LogPhaseView::Polling { terminal, .. } => !terminal,
            LogPhaseView::Closed => false,
        },
{
}

/// A shared service of a run.
#[derive(Debug)]
pub struct RunService {
    pub name: String,
    pub status: String,
    pub take: i64,
    pub created_at: i64,
}

/// A service as the run's page lists it.
#[derive(Debug)]
pub struct ServiceStatusDto {
    pub name: String,
    pub status: String,
    pub take: i64,
    pub created_at: i64,
}

impl Ranked for ServiceStatusDto {
    open spec fn ranks_before(&self, other: &Self) -> bool {
        text::lex_le(self.name@, other.name@)
    }

    proof fn rank_total(a: &Self, b: &Self) {
        text::lex_le_total(a.name@, b.name@);
    }

    proof fn rank_transitive(a: &Self, b: &Self, c: &Self) {
        text::lex_le_transitive(a.name@, b.name@, c.name@);
    }

    fn may_precede(&self, other: &Self) -> (r: bool) {
        text::str_le(self.name.as_str(), other.name.as_str())
    }
}

/// No service has a later take.
pub open spec fn is_latest_take(services: Seq<RunService>, take: i64) -> bool {
    forall|i: int| 0 <= i < services.len() ==> (#[trigger] services[i]).take <= take
}

/// The services of the latest take, in their order.
pub open spec fn current(services: Seq<RunService>, all: Seq<RunService>) -> Seq<RunService>
    decreases services.len(),
{
    if services.len() == 0 {
        services
    } else if is_latest_take(all, services.last().take) {
        current(services.drop_last(), all).push(services.last())
    } else {
        current(services.drop_last(), all)
    }
}

/// The listing of a service.
pub open spec fn listed(d: ServiceStatusDto, s: RunService) -> bool {
    d.name@ == s.name@ && d.status@ == s.status@ && d.take == s.take && d.created_at == s.created_at
}

/// The page lists the services one for one.
pub open spec fn all_listed(ds: Seq<ServiceStatusDto>, services: Seq<RunService>) -> bool {
    ds.len() == services.len() && forall|i: int| 0 <= i < ds.len() ==> listed(#[trigger] ds[i], services[i])
}

fn service_status_dto(s: &RunService) -> (r: ServiceStatusDto)
    ensures
        listed(r, *s),
{
    ServiceStatusDto { name: s.name.clone(), status: s.status.clone(), take: s.take, created_at: s.created_at }
}

/// The latest take there is.
fn latest_take(services: &Vec<RunService>) -> (r: Option<i64>)
    ensures
        match r {
            Some(t) => is_latest_take(services@, t) && exists|i: int|
                0 <= i < services@.len() && (#[trigger] services@[i]).take == t,
            None => services@.len() == 0,
        },
{
    if services.len() == 0 {
        return None;
    }
    let mut t: i64 = services[0].take;
    let mut i: usize = 1;
    assert(services@[0].take == t);
    while i < services.len()
        invariant
            1 <= i <= services@.len(),
            forall|j: int| 0 <= j < i ==> (#[trigger] services@[j]).take <= t,
            exists|j: int| 0 <= j < i && (#[trigger] services@[j]).take == t,
        decreases services@.len() - i,
    {
        if services[i].take > t {
            t = services[i].take;
            assert(services@[i as int].take == t);
        }
        i = i + 1;
    }
    Some(t)
}

/// The services of a run's current take, as its page lists them: in the order of their names.
pub fn get_services(services: &Vec<RunService>) -> (r: Vec<ServiceStatusDto>)
    ensures
        sort::in_order(r@),
        exists|all: Seq<ServiceStatusDto>|
            #[trigger] all_listed(all, current(services@, services@)) && r@ == sort::sorted(all),
{
    let mut out: Vec<ServiceStatusDto> = Vec::new();
    let latest = match latest_take(services) {
        None => {
            assert(all_listed(out@, current(services@, services@)));
            return out;
        },
        Some(t) => t,
    };
    let mut i: usize = 0;
    while i < services.len()
        invariant
            i <= services@.len(),
            is_latest_take(services@, latest),
            exists|j: int| 0 <= j < services@.len() && (#[trigger] services@[j]).take == latest,
            out@.len() == current(services@.take(i as int), services@).len(),
            forall|j: int|
                0 <= j < out@.len() ==> listed(#[trigger] out@[j], current(services@.take(i as int), services@)[j]),
        decreases services@.len() - i,
    {
        let ghost now = services@.take(i + 1);
        assert(now.drop_last() =~= services@.take(i as int));
        assert(now.last() == services@[i as int]);
        proof {
            let j = choose|j: int| 0 <= j < services@.len() && (#[trigger] services@[j]).take == latest;
            assert(is_latest_take(services@, services@[i as int].take) <==> services@[i as int].take == latest) by {
                if is_latest_take(services@, services@[i as int].take) {
                    assert(services@[j].take <= services@[i as int].take);
                }
            }
        }
        if services[i].take == latest {
            out.push(service_status_dto(&services[i]));
        }
        i = i + 1;
    }
    assert(services@.take(i as int) =~= services@);
    assert(all_listed(out@, current(services@, services@)));
    proof {
        sort::sorted_is_ordered_permutation(out@);
    }
    sort::sort(out)
}

/// The run has the service at the take.
pub open spec fn has_service(services: Seq<RunService>, name: Seq<char>, take: i64) -> bool {
    exists|i: int| 0 <= i < services.len() && (#[trigger] services[i]).name@ == name && services[i].take == take
}

/// The take is the latest of the service.
pub open spec fn latest_of(services: Seq<RunService>, name: Seq<char>, take: i64) -> bool {
    has_service(services, name, take) && forall|i: int|
        0 <= i < services.len() && (#[trigger] services[i]).name@ == name ==> services[i].take <= take
}

/// The take whose logs are shown: the requested one, which the service must have, or else the
/// service's latest.
pub fn service_take(services: &Vec<RunService>, name: &str, requested: Option<i64>) -> (r: Result<i64, ApiError>)
    ensures
        match r {
            Ok(t) => match requested {
                Some(q) => t == q && has_service(services@, name@, q),
                None => latest_of(services@, name@, t),
            },
            Err(e) => e@ == ApiErrorView::NotFound && match requested {
                Some(q) => !has_service(services@, name@, q),
                None => forall|i: int| 0 <= i < services@.len() ==> (#[trigger] services@[i]).name@ != name@,
            },
        },
{
    let mut best: Option<i64> = None;
    let mut i: usize = 0;
    while i < services.len()
        invariant
            i <= services@.len(),
            match best {
                Some(t) => has_service(services@.take(i as int), name@, t) && match requested {
                    Some(q) => t == q,
                    None => latest_of(services@.take(i as int), name@, t),
                },
                None => match requested {
                    Some(q) => !has_service(services@.take(i as int), name@, q),
                    None => forall|j: int| 0 <= j < i ==> (#[trigger] services@[j]).name@ != name@,
                },
            },
        decreases services@.len() - i,
    {
        let s = &services[i];
        let ghost was = services@.take(i as int);
        let ghost now = services@.take(i + 1);
        let ghost before = best;
        assert(now[i as int] == services@[i as int]);
        assert(forall|j: int| 0 <= j < i ==> #[trigger] now[j] == was[j]);
        assert(forall|j: int| 0 <= j < i ==> #[trigger] was[j] == services@[j]);
        let same = text::str_eq(s.name.as_str(), name);
        if same {
            match requested {
                Some(q) => {
                    if s.take == q {
                        best = Some(q);
                    }
                },
                None => match best {
                    Some(t) => {
                        if s.take > t {
                            best = Some(s.take);
                        }
                    },
                    None => {
                        best = Some(s.take);
                    },
                },
            }
        }
        proof {
            if let Some(t) = before {
                let k = choose|k: int| 0 <= k < was.len() && (#[trigger] was[k]).name@ == name@ && was[k].take == t;
                assert(now[k].name@ == name@ && now[k].take == t);
            }
            if let Some(t) = best {
                if before != best {
                    assert(now[i as int].take == t);
                }
                assert(has_service(now, name@, t));
            }
            if requested is Some && best is None {
                let q = requested->Some_0;
                assert forall|k: int| 0 <= k < now.len() implies !((#[trigger] now[k]).name@ == name@ && now[k].take == q) by {
                    if k < i {
                        assert(was[k] == now[k]);
                    }
                }
            }
            if requested is None && best is Some {
                let t = best->Some_0;
                assert forall|k: int| 0 <= k < now.len() && (#[trigger] now[k]).name@ == name@ implies now[k].take <= t by {
                    if k < i {
                        assert(was[k] == now[k]);
                        assert(services@[k].name@ == name@);
                    }
                }
            }
        }
        i = i + 1;
    }
    assert(services@.take(i as int) =~= services@);
    match best {
        Some(t) => Ok(t),
        None => Err(ApiError::NotFound),
    }
}

/// A view begins with the first of its streams, from its beginning; where there is none it waits
/// if it follows its run, and is complete otherwise.
pub proof fn views_begin_at_the_beginning(a: LogSession, turn: LogTurn, streams: Seq<StreamView>, fixed: bool, follow: bool)
    requires
        a.begun(turn, streams, fixed, follow),
    ensures
        streams.len() > 0 ==> turn@.next == (NextView::Read { stream: streams[0], from: 0 }) && a.phase@ == (
        LogPhaseView::Replaying { streams, at: 0 }),
        streams.len() == 0 && follow ==> turn@.next is Wait && a.phase@ is Waiting,
        streams.len() == 0 && !follow ==> turn@.next is Close && a.phase@ is Closed,
        turn@.send is None,
        a.follow == follow,
        opt_streams(a.fixed) == if fixed {
            Some(streams)
        } else {
            None
        },
{
}

/// A replay sends what each stream gave and reads every stream from its beginning, one behind the
/// other; it remembers where each read ended.
pub proof fn replays_show_every_stream(a: LogSession, read: Option<StreamRead>, b: LogSession, turn: LogTurn)
    requires
        a.wf(),
        a.phase@ is Replaying,
        a.stepped(LogOutcome::Read(read), b, turn),
    ensures
        ({
            let streams = a.phase@->Replaying_streams;
            let at = a.phase@->Replaying_at;
            &&& at + 1 < streams.len() ==> turn@.next == (NextView::Read { stream: streams[at + 1], from: 0 }) && b.phase@ == (
            LogPhaseView::Replaying { streams, at: at + 1 })
            &&& at + 1 == streams.len() && a.follow ==> turn@.next is Wait && b.phase@ is Waiting
            &&& at + 1 == streams.len() && !a.follow ==> turn@.next is Close && b.phase@ is Closed
            &&& read matches Some(x) ==> b.feed.position(streams[at]) == x.next
            &&& read is None ==> b.feed.position(streams[at]) == 0
        }),
        read is Some && read->0.body@.len() > 0 ==> turn@.send == Some(SentView::Data(read->0.body@)),
        read is Some && read->0.body@.len() == 0 ==> turn@.send is None,
        read is None ==> turn@.send is None,
{
}

/// A poll reads every stream once, each from where the last read of it ended, and sends at its
/// end everything that they gave, in their order; where they gave nothing it sends a sign of life.
pub proof fn polls_send_everything_they_read(a: LogSession, read: Option<StreamRead>, b: LogSession, turn: LogTurn)
    requires
        a.wf(),
        a.phase@ is Polling,
        a.stepped(LogOutcome::Read(read), b, turn),
    ensures
        ({
            let streams = a.phase@->Polling_streams;
            let at = a.phase@->Polling_at;
            let terminal = a.phase@->terminal;
            let gathered = a.phase@->body + match read {
                Some(x) => x.body@,
                None => Seq::empty(),
            };
            &&& at + 1 < streams.len() ==> {
                &&& turn@.send is None
                &&& turn@.next == (NextView::Read { stream: streams[at + 1], from: b.feed.position(streams[at + 1]) })
                &&& b.phase@ == (LogPhaseView::Polling { streams, at: at + 1, body: gathered, terminal })
            }
            &&& at + 1 == streams.len() ==> {
                &&& turn@.send == Some(
                    if gathered.len() == 0 {
                        SentView::Keepalive
                    } else {
                        SentView::Data(gathered)
                    },
                )
                &&& if terminal {
                    turn@.next is Close && b.phase@ is Closed
                } else {
                    turn@.next is Wait && b.phase@ is Waiting
                }
            }
        }),
{
    assert(a.phase@->body + Seq::<u8>::empty() =~= a.phase@->body);
}

/// A poll begins with the first of the streams that are shown: those the view was made for, or
/// all that the run has by then.
pub proof fn polls_begin_with_the_first_stream(
    a: LogSession,
    terminal: bool,
    steps: Vec<StepRecord>,
    b: LogSession,
    turn: LogTurn,
)
    requires
        a.phase@ is Waiting,
        a.stepped(LogOutcome::Waited { terminal, steps }, b, turn),
    ensures
        ({
            let streams = if a.fixed is Some {
                stream_views(a.fixed->0@)
            } else {
                streams_of(steps@)
            };
            &&& streams.len() > 0 ==> {
                &&& turn@.send is None
                &&& turn@.next == (NextView::Read { stream: streams[0], from: a.feed.position(streams[0]) })
                &&& b.phase@ == (LogPhaseView::Polling { streams, at: 0, body: Seq::<u8>::empty(), terminal })
            }
            &&& streams.len() == 0 ==> turn@.send == Some(SentView::Keepalive) && (turn@.next is Close <==> terminal)
        }),
        opt_streams(b.fixed) == opt_streams(a.fixed),
{
}

/// The streams of a run are those of its steps one behind the other, and a step has one for each
/// of its attempts, in their order.
pub proof fn every_attempt_has_its_stream(first: Seq<StepRecord>, more: Seq<StepRecord>, step: StepRecord, i: int)
    ensures
        streams_of(first + more) == streams_of(first) + streams_of(more),
        streams_of(seq![step]).len() == step.attempts@.len(),
        0 <= i < step.attempts@.len() ==> streams_of(seq![step])[i] == (StreamView {
            step: step.id@,
            attempt: step.attempts@[i].id@,
        }),
    decreases more.len(),
{
    reveal_with_fuel(streams_of, 2);
    assert(seq![step].drop_last() =~= Seq::<StepRecord>::empty());
    assert(streams_of(seq![step]) =~= streams_at(step.id@, attempt_ids(step.attempts@)));
    if more.len() == 0 {
        assert(first + more =~= first);
        assert(streams_of(first) + streams_of(more) =~= streams_of(first));
    } else {
        let rest = more.drop_last();
        every_attempt_has_its_stream(first, rest, step, i);
        assert((first + more).drop_last() =~= first + rest);
        assert((first + more).last() == more.last());
        assert(streams_of(first + more) =~= streams_of(first) + streams_of(more));
    }
}

/// The first step with an id is the one shown, and a step that is not there is not found.
pub proof fn the_first_step_of_a_name_is_shown(steps: Seq<StepRecord>, id: Seq<char>, i: int)
    requires
        0 <= i <= steps.len(),
        forall|j: int| 0 <= j < i ==> (#[trigger] steps[j]).id@ != id,
        i < steps.len() ==> steps[i].id@ == id,
    ensures
        step_named(steps, id) == (if i < steps.len() {
            Some(steps[i])
        } else {
            None
        }),
    decreases steps.len(),
{
    if i > 0 {
        let rest = steps.drop_first();
        assert(steps[0].id@ != id);
        assert forall|j: int| 0 <= j < i - 1 implies (#[trigger] rest[j]).id@ != id by {
            assert(rest[j] == steps[j + 1]);
        }
        if i < steps.len() {
            assert(rest[i - 1] == steps[i]);
        }
        the_first_step_of_a_name_is_shown(rest, id, i - 1);
    }
}

/// A step's logs are those of the attempt that was asked for, or of all attempts where none was;
/// an attempt that the step does not have is not found. They go on while the run does, where the
/// latest attempt is among them.
pub proof fn step_logs_are_those_asked_for(terminal: bool, steps: Seq<StepRecord>, step: Seq<char>, q: StepLogsQuery, i: int)
    requires
        step_named(steps, step) is Some,
    ensures
        ({
            let attempts = step_named(steps, step)->0.attempts@;
            let kept_under = match q.sidecar {
                Some(k) => step + "::service-"@ + text::decimal(k as nat),
                None => step,
            };
            let shown = step_view(terminal, steps, step, q);
            &&& q.attempt is None ==> {
                &&& shown is Some
                &&& (shown->0).0.len() == attempts.len()
                &&& 0 <= i < attempts.len() ==> (shown->0).0[i] == (StreamView {
                    step: kept_under,
                    attempt: attempts[i].id@,
                })
                &&& (shown->0).1 <==> !terminal && attempts.len() > 0
            }
            &&& q.attempt matches Some(a) ==> {
                &&& 0 <= i < attempts.len() && attempts[i].id@ == a@ ==> {
                    &&& shown is Some
                    &&& (shown->0).0 == seq![StreamView { step: kept_under, attempt: a@ }]
                    &&& (shown->0).1 <==> !terminal && attempts.last().id@ == a@
                }
                &&& (forall|j: int| 0 <= j < attempts.len() ==> (#[trigger] attempts[j]).id@ != a@) ==> shown is None
            }
        }),
{
    let attempts = step_named(steps, step)->0.attempts@;
    let all = attempt_ids(attempts);
    if attempts.len() > 0 {
        assert(all.last() == attempts.last().id@);
        assert(all[all.len() - 1] == all.last());
        assert(all.contains(all.last()));
    }
    if let Some(a) = q.attempt {
        if 0 <= i < attempts.len() && attempts[i].id@ == a@ {
            assert(all[i] == a@);
            let shown = seq![a@];
            assert(streams_at(read_name(step, q.sidecar), shown) =~= seq![
                StreamView { step: read_name(step, q.sidecar), attempt: a@ },
            ]);
            assert(shown[0] == a@);
        }
    }
}

/// The page lists every service of the latest take, and none of an earlier one.
pub proof fn services_of_the_latest_take_are_listed(services: Seq<RunService>, all: Seq<RunService>, s: RunService)
    ensures
        current(services, all).contains(s) <==> services.contains(s) && forall|i: int|
            0 <= i < all.len() ==> (#[trigger] all[i]).take <= s.take,
    decreases services.len(),
{
    if services.len() > 0 {
        let rest = services.drop_last();
        let before = current(rest, all);
        let now = current(services, all);
        services_of_the_latest_take_are_listed(rest, all, s);
        if now.contains(s) {
            let k = choose|k: int| 0 <= k < now.len() && now[k] == s;
            if k < before.len() {
                assert(before[k] == s);
                let j = choose|j: int| 0 <= j < rest.len() && rest[j] == s;
                assert(services[j] == s);
            } else {
                assert(services[services.len() - 1] == s);
            }
        }
        if services.contains(s) && is_latest_take(all, s.take) {
            let j = choose|j: int| 0 <= j < services.len() && services[j] == s;
            if j < rest.len() {
                assert(rest[j] == s);
                let k = choose|k: int| 0 <= k < before.len() && before[k] == s;
                assert(now[k] == s);
            } else {
                assert(now[now.len() - 1] == s);
            }
        }
    }
}

/// A listed service says what is known of it.
pub proof fn services_are_listed_as_they_are(ds: Seq<ServiceStatusDto>, services: Seq<RunService>, i: int)
    requires
        all_listed(ds, services),
        0 <= i < services.len(),
    ensures
        ds.len() == services.len(),
        ds[i].name@ == services[i].name@ && ds[i].status@ == services[i].status@,
        ds[i].take == services[i].take && ds[i].created_at == services[i].created_at,
{
    assert(listed(ds[i], services[i]));
}

} // verus!
