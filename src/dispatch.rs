//! The dispatch pipeline: one inbound message becomes independent
//! notification jobs, each of which signs, composes and sends on its own.
//!
//! The calls out (resolving a flight's tickets, signing a ticket, sending a
//! mail) are made by the caller, which hands their outcomes back here; the
//! decisions of what to do next, and the state of each job, are kept here.
use vstd::prelude::*;
use crate::codec::{decode, event_of, DecodeError};
use crate::compose::{base64_standard, body_text, compose, Message};
use crate::config::MailContent;
use crate::model::{Event, EventView, Ticket, UpdatesConsumer};

verus! {

/// A remote call failed.
pub struct RpcError {
    pub message: String,
}

/// Why a mail could not be sent.
pub enum SendError {
    /// The recipient's or the sender's address is malformed.
    AddressParseError(String),
    /// The message could not be assembled.
    BuildError(String),
    /// The mail transport refused or could not deliver the message.
    TransportError(String),
}

/// Why a job failed.
pub enum JobError {
    Rpc(RpcError),
    Send(SendError),
}

/// One ticket's worth of work: the ticket and the text to send about it.
pub struct NotificationJob {
    pub ticket: Ticket,
    pub subject: String,
    pub reason: String,
}

/// Where a job stands.
pub enum JobState {
    /// The ticket has no passenger: nobody to notify, and nothing failed.
    Skipped,
    /// Waiting for the signed code.
    SigningCode,
    /// The mail is composed; waiting for the transport.
    Sending,
    Done,
    Failed(JobError),
}

/// How the jobs of a message ended.
pub struct Summary {
    pub done: usize,
    pub failed: usize,
    pub skipped: usize,
}

/// What became of a message once it is decoded.
pub enum Inbound {
    /// The payload does not decode; the message is dropped.
    Dropped(DecodeError),
    /// A flight update: the flight's tickets must be resolved first.
    Resolve(String),
    /// The jobs to run.
    Expanded(Vec<NotificationJob>),
}

pub open spec fn is_terminal(s: JobState) -> bool {
    s is Skipped || s is Done || s is Failed
}

/// A message is acknowledged once every one of its jobs is over.
pub open spec fn acknowledged(states: Seq<JobState>) -> bool {
    forall|i: int| 0 <= i < states.len() ==> is_terminal(#[trigger] states[i])
}

pub open spec fn initial_state(j: NotificationJob) -> JobState {
    if j.ticket.passenger is None {
        JobState::Skipped
    } else {
        JobState::SigningCode
    }
}

pub open spec fn signed_state(signed: Result<Vec<u8>, RpcError>) -> JobState {
    match signed {
        Ok(_) => JobState::Sending,
        Err(e) => JobState::Failed(JobError::Rpc(e)),
    }
}

pub open spec fn sent_state(sent: Result<(), SendError>) -> JobState {
    match sent {
        Ok(_) => JobState::Done,
        Err(e) => JobState::Failed(JobError::Send(e)),
    }
}

/// The job for `ticket`, with the given subject and reason text.
pub open spec fn job_for(t: Ticket, subject: Seq<char>, reason: Seq<char>, j: NotificationJob) -> bool {
    j.ticket == t && j.subject@ == subject && j.reason@ == reason
}

/// `m` is the notification of job `j`, with the signed code `code`.
pub open spec fn is_job_message(
    m: Message,
    j: NotificationJob,
    content: MailContent,
    code: Seq<u8>,
) -> bool {
    &&& j.ticket.passenger matches Some(p)
    &&& m.from_name@ == content.sender_name@
    &&& m.from_address@ == content.sender_address@
    &&& m.to_name@ == p.name@
    &&& m.to_address@ == p.email@
    &&& m.subject@ == j.subject@
    &&& m.body@ == body_text(
        j.reason@,
        content.frontend_ticket_url_prefix@,
        j.ticket.url@,
        base64_standard(code),
    )
}

/// Number of states that satisfy `f`.
pub open spec fn count_states(states: Seq<JobState>, f: spec_fn(JobState) -> bool) -> nat
    decreases states.len(),
{
    if states.len() == 0 {
        0
    } else {
        count_states(states.drop_last(), f) + if f(states.last()) {
            1nat
        } else {
            0nat
        }
    }
}

/// Number of tickets that have no passenger.
pub open spec fn count_without_passenger(ts: Seq<Ticket>) -> nat
    decreases ts.len(),
{
    if ts.len() == 0 {
        0
    } else {
        count_without_passenger(ts.drop_last()) + if ts.last().passenger is None {
            1nat
        } else {
            0nat
        }
    }
}

/// Decodes a message taken from the queue of `kind` and decides what comes
/// next. A ticket update becomes exactly one job and needs no resolving.
pub fn receive(kind: UpdatesConsumer, payload: &[u8], content: &MailContent) -> (r: Inbound)
    ensures
        match event_of(kind, payload@) {
            Err(e) => r == Inbound::Dropped(e),
            Ok(EventView::FlightUpdated { flight_id }) => r matches Inbound::Resolve(id) && id@
                == flight_id,
            Ok(EventView::TicketUpdated { ticket }) => r matches Inbound::Expanded(jobs)
                && jobs@.len() == 1 && jobs@[0].ticket@ == ticket && jobs@[0].subject@
                == content.ticket_update_subject@ && jobs@[0].reason@
                == content.ticket_update_body@,
        },
{
    match decode(kind, payload) {
        Err(e) => Inbound::Dropped(e),
        Ok(Event::FlightUpdated { flight_id }) => Inbound::Resolve(flight_id),
        Ok(Event::TicketUpdated { ticket }) => {
            let mut jobs: Vec<NotificationJob> = Vec::new();
            jobs.push(
                NotificationJob {
                    ticket,
                    subject: content.ticket_update_subject.clone(),
                    reason: content.ticket_update_body.clone(),
                },
            );
            Inbound::Expanded(jobs)
        },
    }
}

/// Expands a flight update into one job per resolved ticket, in order. A
/// failed resolution drops the whole event.
pub fn expand_flight(resolved: Result<Vec<Ticket>, RpcError>, content: &MailContent) -> (r: Result<
    Vec<NotificationJob>,
    RpcError,
>)
    ensures
        match resolved {
            Err(e) => r == Err::<Vec<NotificationJob>, RpcError>(e),
            Ok(ts) => r matches Ok(jobs) && jobs@.len() == ts@.len() && forall|i: int|
                0 <= i < ts@.len() ==> job_for(
                    #[trigger] ts@[i],
                    content.flight_update_subject@,
                    content.flight_update_body@,
                    jobs@[i],
                ),
        },
{
    let mut rest = match resolved {
        Err(e) => return Err(e),
        Ok(ts) => ts,
    };
    let ghost ts = rest@;
    let mut jobs: Vec<NotificationJob> = Vec::new();
    while rest.len() > 0
        invariant
            jobs@.len() + rest@.len() == ts.len(),
            rest@ == ts.skip(jobs@.len() as int),
            forall|i: int|
                0 <= i < jobs@.len() ==> job_for(
                    #[trigger] ts[i],
                    content.flight_update_subject@,
                    content.flight_update_body@,
                    jobs@[i],
                ),
        decreases rest@.len(),
    {
        let t = rest.remove(0);
        assert(rest@ =~= ts.skip(jobs@.len() as int + 1));
        jobs.push(
            NotificationJob {
                ticket: t,
                subject: content.flight_update_subject.clone(),
                reason: content.flight_update_body.clone(),
            },
        );
    }
    Ok(jobs)
}

/// The jobs of one message and the state of each.
pub struct Dispatch {
    pub jobs: Vec<NotificationJob>,
    pub states: Vec<JobState>,
}

impl Dispatch {
    /// One state per job; a job is under way only if its ticket has a
    /// passenger.
    pub open spec fn wf(&self) -> bool {
        &&& self.jobs@.len() == self.states@.len()
        &&& forall|i: int|
            0 <= i < self.states@.len() && (self.states@[i] is SigningCode
                || self.states@[i] is Sending) ==> (#[trigger] self.jobs@[i]).ticket.passenger is Some
    }

    /// Starts the jobs of a message: those whose ticket has no passenger are
    /// skipped, the others wait for their signed code.
    pub fn new(jobs: Vec<NotificationJob>) -> (r: Dispatch)
        ensures
            r.wf(),
            r.jobs@ == jobs@,
            forall|i: int| 0 <= i < jobs@.len() ==> r.states@[i] == initial_state(#[trigger] jobs@[i]),
    {
        let mut states: Vec<JobState> = Vec::new();
        let mut i: usize = 0;
        while i < jobs.len()
            invariant
                i <= jobs@.len(),
                states@.len() == i,
                forall|k: int| 0 <= k < i ==> states@[k] == initial_state(#[trigger] jobs@[k]),
            decreases jobs@.len() - i,
        {
            if jobs[i].ticket.passenger.is_none() {
                states.push(JobState::Skipped);
            } else {
                states.push(JobState::SigningCode);
            }
            i = i + 1;
        }
        Dispatch { jobs, states }
    }

    /// Takes the signer's answer for job `i`. A failure ends that job alone;
    /// a signed code gives the composed mail to send. No other job changes.
    pub fn on_signed(
        &mut self,
        i: usize,
        signed: Result<Vec<u8>, RpcError>,
        content: &MailContent,
    ) -> (r: Option<Message>)
        requires
            old(self).wf(),
            i < old(self).jobs@.len(),
            old(self).states@[i as int] is SigningCode,
        ensures
            final(self).wf(),
            final(self).jobs@ == old(self).jobs@,
            final(self).states@ == old(self).states@.update(i as int, signed_state(signed)),
            match signed {
                Ok(c) => r matches Some(m) && is_job_message(
                    m,
                    old(self).jobs@[i as int],
                    *content,
                    c@,
                ),
                Err(_) => r is None,
            },
    {
        match signed {
            Err(e) => {
                self.states[i] = JobState::Failed(JobError::Rpc(e));
                None
            },
            Ok(code) => {
                let job = &self.jobs[i];
                let m = match &job.ticket.passenger {
                    Some(p) => compose(
                        content.sender_name.as_str(),
                        content.sender_address.as_str(),
                        p.name.as_str(),
                        p.email.as_str(),
                        job.subject.as_str(),
                        job.reason.as_str(),
                        content.frontend_ticket_url_prefix.as_str(),
                        job.ticket.url.as_str(),
                        code.as_slice(),
                    ),
                    None => {
                        assert(false);
                        return None;
                    },
                };
                self.states[i] = JobState::Sending;
                Some(m)
            },
        }
    }

    /// Takes the transport's answer for job `i`, which ends that job. No
    /// other job changes.
    pub fn on_sent(&mut self, i: usize, sent: Result<(), SendError>)
        requires
            old(self).wf(),
            i < old(self).jobs@.len(),
            old(self).states@[i as int] is Sending,
        ensures
            final(self).wf(),
            final(self).jobs@ == old(self).jobs@,
            final(self).states@ == old(self).states@.update(i as int, sent_state(sent)),
    {
        match sent {
            Ok(()) => {
                self.states[i] = JobState::Done;
            },
            Err(e) => {
                self.states[i] = JobState::Failed(JobError::Send(e));
            },
        }
    }

    /// Counts the jobs that are done, failed and skipped.
    pub fn summary(&self) -> (r: Summary)
        ensures
            r.done == count_states(self.states@, |s: JobState| s is Done),
            r.failed == count_states(self.states@, |s: JobState| s is Failed),
            r.skipped == count_states(self.states@, |s: JobState| s is Skipped),
    {
        let mut r = Summary { done: 0, failed: 0, skipped: 0 };
        let mut i: usize = 0;
        while i < self.states.len()
            invariant
                i <= self.states@.len(),
                r.done == count_states(self.states@.take(i as int), |s: JobState| s is Done),
                r.failed == count_states(self.states@.take(i as int), |s: JobState| s is Failed),
                r.skipped == count_states(self.states@.take(i as int), |s: JobState| s is Skipped),
            decreases self.states@.len() - i,
        {
            proof {
                let t = self.states@.take(i + 1);
                assert(t.drop_last() =~= self.states@.take(i as int));
                lemma_count_states_bound(self.states@.take(i as int), |s: JobState| s is Done);
                lemma_count_states_bound(self.states@.take(i as int), |s: JobState| s is Failed);
                lemma_count_states_bound(self.states@.take(i as int), |s: JobState| s is Skipped);
            }
            match &self.states[i] {
                JobState::Done => r.done = r.done + 1,
                JobState::Failed(_) => r.failed = r.failed + 1,
                JobState::Skipped => r.skipped = r.skipped + 1,
                _ => {},
            }
            i = i + 1;
        }
        assert(self.states@.take(i as int) =~= self.states@);
        r
    }

    /// Whether every job is over, so that the message is acknowledged.
    pub fn is_acknowledged(&self) -> (r: bool)
        ensures
            r == acknowledged(self.states@),
    {
        let mut i: usize = 0;
        while i < self.states.len()
            invariant
                i <= self.states@.len(),
                forall|k: int| 0 <= k < i ==> is_terminal(#[trigger] self.states@[k]),
            decreases self.states@.len() - i,
        {
            match &self.states[i] {
                JobState::SigningCode | JobState::Sending => return false,
                _ => {},
            }
            i = i + 1;
        }
        true
    }
}

/// Fan-out of a flight update: of N resolved tickets of which M have no
/// passenger, the started jobs (one per ticket, in order) put exactly N - M
/// into signing, on the way to one send attempt each, and skip the other M;
/// none of them has failed.
pub proof fn lemma_fan_out_counts(ts: Seq<Ticket>, jobs: Seq<NotificationJob>, states: Seq<JobState>)
    requires
        jobs.len() == ts.len(),
        states.len() == jobs.len(),
        forall|i: int| 0 <= i < ts.len() ==> (#[trigger] jobs[i]).ticket == ts[i],
        forall|i: int| 0 <= i < jobs.len() ==> states[i] == initial_state(#[trigger] jobs[i]),
    ensures
        count_states(states, |s: JobState| s is SigningCode) == ts.len() - count_without_passenger(
            ts,
        ),
        count_states(states, |s: JobState| s is Skipped) == count_without_passenger(ts),
        count_states(states, |s: JobState| s is Failed) == 0,
    decreases ts.len(),
{
    if ts.len() > 0 {
        let n = ts.len() - 1;
        lemma_fan_out_counts(ts.drop_last(), jobs.drop_last(), states.drop_last());
        assert(jobs[n].ticket == ts[n]);
        assert(states[n] == initial_state(jobs[n]));
        lemma_count_without_passenger_bound(ts.drop_last());
    }
}

proof fn lemma_count_without_passenger_bound(ts: Seq<Ticket>)
    ensures
        count_without_passenger(ts) <= ts.len(),
    decreases ts.len(),
{
    if ts.len() > 0 {
        lemma_count_without_passenger_bound(ts.drop_last());
    }
}

/// Job isolation: a signer failure for job `i` ends that job as failed and
/// leaves every other job as it was; once the others are over, the message
/// is acknowledged all the same.
pub proof fn lemma_sign_failure_isolated(states: Seq<JobState>, i: int, e: RpcError)
    requires
        0 <= i < states.len(),
        states[i] is SigningCode,
    ensures
        ({
            let next = states.update(i, signed_state(Err(e)));
            &&& next[i] == JobState::Failed(JobError::Rpc(e))
            &&& forall|j: int| 0 <= j < states.len() && j != i ==> next[j] == states[j]
            &&& (forall|j: int| 0 <= j < states.len() && j != i ==> is_terminal(#[trigger] states[j]))
                ==> acknowledged(next)
        }),
{
    let next = states.update(i, signed_state(Err(e)));
    if forall|j: int| 0 <= j < states.len() && j != i ==> is_terminal(#[trigger] states[j]) {
        assert forall|j: int| 0 <= j < next.len() implies is_terminal(#[trigger] next[j]) by {
            if j != i {
                assert(is_terminal(states[j]));
            }
        }
    }
}

/// A send failure for job `i` likewise ends that job alone.
pub proof fn lemma_send_failure_isolated(states: Seq<JobState>, i: int, e: SendError)
    requires
        0 <= i < states.len(),
        states[i] is Sending,
    ensures
        ({
            let next = states.update(i, sent_state(Err(e)));
            &&& next[i] == JobState::Failed(JobError::Send(e))
            &&& forall|j: int| 0 <= j < states.len() && j != i ==> next[j] == states[j]
        }),
{
}

proof fn lemma_count_states_bound(states: Seq<JobState>, f: spec_fn(JobState) -> bool)
    ensures
        count_states(states, f) <= states.len(),
    decreases states.len(),
{
    if states.len() > 0 {
        lemma_count_states_bound(states.drop_last(), f);
    }
}

} // verus!
