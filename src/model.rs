//! The domain values that flow through the dispatcher.
use vstd::prelude::*;

verus! {

/// Who travels on a ticket and where to reach them.
pub struct Passenger {
    pub name: String,
    pub email: String,
}

/// A ticket as the ticket service knows it. A ticket without a passenger
/// is valid; nobody is notified for it.
pub struct Ticket {
    pub id: String,
    pub url: String,
    pub passenger: Option<Passenger>,
    pub valid: bool,
}

/// A decoded inbound update.
pub enum Event {
    FlightUpdated { flight_id: String },
    TicketUpdated { ticket: Ticket },
}

/// Which queue a message came from, and so which message it carries.
#[derive(Clone, Copy, Debug, PartialEq, Eq, Structural)]
pub enum UpdatesConsumer {
    FlightsConsumer,
    TicketsConsumer,
}

pub struct PassengerView {
    pub name: Seq<char>,
    pub email: Seq<char>,
}

pub struct TicketView {
    pub id: Seq<char>,
    pub url: Seq<char>,
    pub passenger: Option<PassengerView>,
    pub valid: bool,
}

pub enum EventView {
    FlightUpdated { flight_id: Seq<char> },
    TicketUpdated { ticket: TicketView },
}

impl View for Passenger {
    type V = PassengerView;

    open spec fn view(&self) -> PassengerView {
        PassengerView { name: self.name@, email: self.email@ }
    }
}

pub open spec fn passenger_view(p: Option<Passenger>) -> Option<PassengerView> {
    match p {
        Some(p) => Some(p@),
        None => None,
    }
}

impl View for Ticket {
    type V = TicketView;

    open spec fn view(&self) -> TicketView {
        TicketView {
            id: self.id@,
            url: self.url@,
            passenger: passenger_view(self.passenger),
            valid: self.valid,
        }
    }
}

impl View for Event {
    type V = EventView;

    open spec fn view(&self) -> EventView {
        match self {
            Event::FlightUpdated { flight_id } => EventView::FlightUpdated { flight_id: flight_id@ },
            Event::TicketUpdated { ticket } => EventView::TicketUpdated { ticket: ticket@ },
        }
    }
}

} // verus!
