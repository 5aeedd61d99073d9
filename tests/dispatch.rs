use updatesvc::codec::{encode, encode_flight_id, DecodeError};
use updatesvc::config::MailContent;
use updatesvc::dispatch::{expand_flight, receive, Dispatch, Inbound, JobError, JobState, RpcError, SendError};
use updatesvc::model::{Event, Passenger, Ticket, UpdatesConsumer};

fn content() -> MailContent {
    MailContent::with_defaults("https://front/".to_string())
}

fn ticket(id: &str, passenger: Option<(&str, &str)>) -> Ticket {
    Ticket {
        id: id.to_string(),
        url: format!("tickets/{}", id),
        passenger: passenger.map(|(n, e)| Passenger { name: n.to_string(), email: e.to_string() }),
        valid: true,
    }
}

fn rpc_error() -> RpcError {
    RpcError { message: "unavailable".to_string() }
}

#[test]
fn flight_scenario_notifies_only_the_passenger() {
    let c = content();
    let flight_id = match receive(UpdatesConsumer::FlightsConsumer, &encode_flight_id("F1"), &c) {
        Inbound::Resolve(id) => id,
        _ => panic!("flight updates are resolved first"),
    };
    assert_eq!(flight_id, "F1");
    let jobs = expand_flight(Ok(vec![ticket("T1", Some(("Ann", "ann@x.com"))), ticket("T2", None)]), &c)
        .unwrap_or_else(|_| panic!("resolution succeeded"));
    assert_eq!(jobs.len(), 2);
    assert_eq!(jobs[0].subject, "An update on your flight");
    let mut d = Dispatch::new(jobs);
    assert!(matches!(d.states[0], JobState::SigningCode));
    assert!(matches!(d.states[1], JobState::Skipped));
    let m = d.on_signed(0, Ok(vec![1, 2, 3]), &c).unwrap();
    assert_eq!(m.to_address, "ann@x.com");
    assert_eq!(m.to_name, "Ann");
    assert!(m.body.contains("https://front/tickets/T1"));
    assert!(m.body.contains("base64,AQID"));
    assert!(!d.is_acknowledged());
    d.on_sent(0, Ok(()));
    assert!(matches!(d.states[0], JobState::Done));
    assert!(matches!(d.states[1], JobState::Skipped));
    assert!(d.is_acknowledged());
    let s = d.summary();
    assert_eq!((s.done, s.failed, s.skipped), (1, 0, 1));
}

#[test]
fn ticket_scenario_signer_failure_fails_the_job() {
    let c = content();
    let e = Event::TicketUpdated { ticket: ticket("T3", Some(("Cy", "cy@z.net"))) };
    let jobs = match receive(UpdatesConsumer::TicketsConsumer, &encode(&e), &c) {
        Inbound::Expanded(jobs) => jobs,
        _ => panic!("a ticket update needs no resolving"),
    };
    assert_eq!(jobs.len(), 1);
    assert_eq!(jobs[0].ticket.id, "T3");
    let mut d = Dispatch::new(jobs);
    assert!(d.on_signed(0, Err(rpc_error()), &c).is_none());
    assert!(matches!(&d.states[0], JobState::Failed(JobError::Rpc(e)) if e.message == "unavailable"));
    assert!(d.is_acknowledged());
    let s = d.summary();
    assert_eq!((s.done, s.failed, s.skipped), (0, 1, 0));
}

#[test]
fn ticket_update_gives_exactly_one_job() {
    let c = content();
    let e = Event::TicketUpdated { ticket: ticket("T4", None) };
    match receive(UpdatesConsumer::TicketsConsumer, &encode(&e), &c) {
        Inbound::Expanded(jobs) => {
            assert_eq!(jobs.len(), 1);
            assert_eq!(jobs[0].subject, "An update on your ticket");
            assert!(jobs[0].reason.ends_with("new ticket!\n"));
            let d = Dispatch::new(jobs);
            assert!(matches!(d.states[0], JobState::Skipped));
            assert!(d.is_acknowledged());
        },
        _ => panic!("one job expected"),
    }
}

#[test]
fn signer_failure_leaves_siblings_running() {
    let c = content();
    let ts = vec![
        ticket("A", Some(("A", "a@x.com"))),
        ticket("B", Some(("B", "b@x.com"))),
        ticket("C", Some(("C", "c@x.com"))),
    ];
    let mut d = Dispatch::new(expand_flight(Ok(ts), &c).unwrap_or_else(|_| panic!("resolved")));
    assert!(d.on_signed(1, Err(rpc_error()), &c).is_none());
    assert!(matches!(d.states[0], JobState::SigningCode));
    assert!(matches!(d.states[2], JobState::SigningCode));
    assert!(d.on_signed(0, Ok(vec![9]), &c).is_some());
    assert!(d.on_signed(2, Ok(vec![8]), &c).is_some());
    d.on_sent(0, Ok(()));
    d.on_sent(2, Err(SendError::TransportError("refused".to_string())));
    assert!(matches!(d.states[0], JobState::Done));
    assert!(matches!(d.states[1], JobState::Failed(JobError::Rpc(_))));
    assert!(matches!(d.states[2], JobState::Failed(JobError::Send(SendError::TransportError(_)))));
    assert!(d.is_acknowledged());
    let s = d.summary();
    assert_eq!((s.done, s.failed, s.skipped), (1, 2, 0));
}

#[test]
fn fan_out_counts_skipped_tickets() {
    let c = content();
    let ts = vec![
        ticket("A", Some(("A", "a@x.com"))),
        ticket("B", None),
        ticket("C", Some(("C", "c@x.com"))),
    ];
    let d = Dispatch::new(expand_flight(Ok(ts), &c).unwrap_or_else(|_| panic!("resolved")));
    let signing = d.states.iter().filter(|s| matches!(s, JobState::SigningCode)).count();
    assert_eq!(signing, 2);
    assert_eq!(d.summary().skipped, 1);
    assert_eq!(d.summary().failed, 0);
}

#[test]
fn empty_flight_has_no_jobs_and_is_acknowledged() {
    let d = Dispatch::new(expand_flight(Ok(vec![]), &content()).unwrap_or_else(|_| panic!("resolved")));
    assert!(d.jobs.is_empty());
    assert!(d.is_acknowledged());
}

#[test]
fn resolver_failure_drops_the_event() {
    match expand_flight(Err(rpc_error()), &content()) {
        Err(e) => assert_eq!(e.message, "unavailable"),
        Ok(_) => panic!("the event is dropped"),
    }
}

#[test]
fn undecodable_message_is_dropped() {
    assert!(matches!(receive(UpdatesConsumer::FlightsConsumer, &[0xff], &content()), Inbound::Dropped(DecodeError::Malformed)));
}

#[test]
fn address_failure_fails_only_its_job() {
    let c = content();
    let ts = vec![ticket("A", Some(("A", "a@x.com"))), ticket("B", Some(("B", "b@x.com")))];
    let mut d = Dispatch::new(expand_flight(Ok(ts), &c).unwrap_or_else(|_| panic!("resolved")));
    d.on_signed(0, Ok(vec![1]), &c);
    d.on_sent(0, Err(SendError::AddressParseError("A <a>".to_string())));
    assert!(matches!(d.states[1], JobState::SigningCode));
    assert!(!d.is_acknowledged());
}
