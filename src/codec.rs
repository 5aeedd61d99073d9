//! Decoding of the flight and ticket update messages, and their encoding.
//!
//! Flight: field 1 the flight id (text).
//! Ticket: field 1 id (text), 2 passenger (message), 3 url (text),
//! 4 valid (varint, non-zero is true).
//! Passenger: field 1 name (text), 2 email (text).
//! A missing field takes its empty value; of a repeated field the last one
//! counts; fields of other numbers are skipped.
use vstd::prelude::*;
use vstd::utf8::{
    decode_utf8, encode_utf8, encode_utf8_decode_utf8, encode_utf8_valid_utf8, valid_utf8,
};
use crate::model::{Event, EventView, Passenger, PassengerView, Ticket, TicketView, UpdatesConsumer};
use vstd::string::StringSliceAdditionalSpecFns;
use crate::wire::{
    after, parse_field, parse_fields, read_fields, fields_view, varint_bytes,
    write_varint, lemma_varint_round_trip, Field, FieldValue, WireValue,
};

verus! {

/// Why a payload could not be decoded.
#[derive(Clone, Copy, Debug, PartialEq, Eq, Structural)]
pub enum DecodeError {
    /// The bytes are not a well-formed sequence of fields.
    Malformed,
    /// A known field carries a payload of the wrong kind.
    WrongWireType,
    /// A text field is not valid UTF-8.
    InvalidText,
}

/// The value of the last field numbered `n`.
pub open spec fn last_value(fs: Seq<(u64, WireValue)>, n: u64) -> Option<WireValue>
    decreases fs.len(),
{
    if fs.len() == 0 {
        None
    } else if fs.last().0 == n {
        Some(fs.last().1)
    } else {
        last_value(fs.drop_last(), n)
    }
}

pub open spec fn text_of(v: Option<WireValue>) -> Result<Seq<char>, DecodeError> {
    match v {
        None => Ok(Seq::empty()),
        Some(WireValue::Bytes(b)) => if valid_utf8(b) {
            Ok(decode_utf8(b))
        } else {
            Err(DecodeError::InvalidText)
        },
        Some(_) => Err(DecodeError::WrongWireType),
    }
}

pub open spec fn flag_of(v: Option<WireValue>) -> Result<bool, DecodeError> {
    match v {
        None => Ok(false),
        Some(WireValue::Varint(x)) => Ok(x != 0),
        Some(_) => Err(DecodeError::WrongWireType),
    }
}

pub open spec fn passenger_of(b: Seq<u8>) -> Result<PassengerView, DecodeError> {
    match parse_fields(b) {
        None => Err(DecodeError::Malformed),
        Some(fs) => match text_of(last_value(fs, 1)) {
            Err(e) => Err(e),
            Ok(name) => match text_of(last_value(fs, 2)) {
                Err(e) => Err(e),
                Ok(email) => Ok(PassengerView { name, email }),
            },
        },
    }
}

pub open spec fn optional_passenger_of(v: Option<WireValue>) -> Result<
    Option<PassengerView>,
    DecodeError,
> {
    match v {
        None => Ok(None),
        Some(WireValue::Bytes(b)) => match passenger_of(b) {
            Ok(p) => Ok(Some(p)),
            Err(e) => Err(e),
        },
        Some(_) => Err(DecodeError::WrongWireType),
    }
}

pub open spec fn ticket_of(b: Seq<u8>) -> Result<TicketView, DecodeError> {
    match parse_fields(b) {
        None => Err(DecodeError::Malformed),
        Some(fs) => match text_of(last_value(fs, 1)) {
            Err(e) => Err(e),
            Ok(id) => match optional_passenger_of(last_value(fs, 2)) {
                Err(e) => Err(e),
                Ok(passenger) => match text_of(last_value(fs, 3)) {
                    Err(e) => Err(e),
                    Ok(url) => match flag_of(last_value(fs, 4)) {
                        Err(e) => Err(e),
                        Ok(valid) => Ok(TicketView { id, url, passenger, valid }),
                    },
                },
            },
        },
    }
}

pub open spec fn flight_id_of(b: Seq<u8>) -> Result<Seq<char>, DecodeError> {
    match parse_fields(b) {
        None => Err(DecodeError::Malformed),
        Some(fs) => text_of(last_value(fs, 1)),
    }
}

/// The event that a payload from the queue of `kind` carries.
pub open spec fn event_of(kind: UpdatesConsumer, b: Seq<u8>) -> Result<EventView, DecodeError> {
    match kind {
        UpdatesConsumer::FlightsConsumer => match flight_id_of(b) {
            Ok(flight_id) => Ok(EventView::FlightUpdated { flight_id }),
            Err(e) => Err(e),
        },
        UpdatesConsumer::TicketsConsumer => match ticket_of(b) {
            Ok(ticket) => Ok(EventView::TicketUpdated { ticket }),
            Err(e) => Err(e),
        },
    }
}

/// Relies on std::str::from_utf8: it accepts exactly the valid UTF-8
/// sequences, and the text it gives is their decoding.
#[verifier::external_body]
fn utf8_text(b: &[u8]) -> (r: Option<String>)
    ensures
        match r {
            Some(s) => valid_utf8(b@) && s@ == decode_utf8(b@),
            None => !valid_utf8(b@),
        },
{
    match std::str::from_utf8(b) {
        Ok(s) => Some(String::from(s)),
        Err(_) => None,
    }
}

fn last_field(fs: &Vec<Field>, n: u64) -> (r: Option<&FieldValue>)
    ensures
        match last_value(fields_view(fs@), n) {
            Some(v) => r matches Some(x) && x@ == v,
            None => r is None,
        },
{
    let mut i: usize = fs.len();
    assert(fs@.take(i as int) =~= fs@);
    while i > 0
        invariant
            i <= fs@.len(),
            last_value(fields_view(fs@), n) == last_value(fields_view(fs@.take(i as int)), n),
        decreases i,
    {
        assert(fields_view(fs@.take(i as int)).drop_last() =~= fields_view(
            fs@.take(i - 1),
        ));
        if fs[i - 1].number == n {
            return Some(&fs[i - 1].value);
        }
        i = i - 1;
    }
    None
}

fn text_value(v: Option<&FieldValue>) -> (r: Result<String, DecodeError>)
    ensures
        match text_of(
            match v {
                Some(x) => Some(x@),
                None => None,
            },
        ) {
            Ok(s) => r matches Ok(t) && t@ == s,
            Err(e) => r == Err::<String, DecodeError>(e),
        },
{
    match v {
        None => Ok(String::new()),
        Some(FieldValue::Bytes(b)) => match utf8_text(b.as_slice()) {
            Some(s) => Ok(s),
            None => Err(DecodeError::InvalidText),
        },
        Some(_) => Err(DecodeError::WrongWireType),
    }
}

fn decode_passenger(b: &[u8]) -> (r: Result<Passenger, DecodeError>)
    ensures
        match passenger_of(b@) {
            Ok(p) => r matches Ok(q) && q@ == p,
            Err(e) => r == Err::<Passenger, DecodeError>(e),
        },
{
    let fs = match read_fields(b) {
        Some(fs) => fs,
        None => return Err(DecodeError::Malformed),
    };
    let name = text_value(last_field(&fs, 1))?;
    let email = text_value(last_field(&fs, 2))?;
    Ok(Passenger { name, email })
}

/// Decodes a ticket message.
pub fn decode_ticket(b: &[u8]) -> (r: Result<Ticket, DecodeError>)
    ensures
        match ticket_of(b@) {
            Ok(t) => r matches Ok(u) && u@ == t,
            Err(e) => r == Err::<Ticket, DecodeError>(e),
        },
{
    let fs = match read_fields(b) {
        Some(fs) => fs,
        None => return Err(DecodeError::Malformed),
    };
    let id = text_value(last_field(&fs, 1))?;
    let passenger = match last_field(&fs, 2) {
        None => None,
        Some(FieldValue::Bytes(pb)) => Some(decode_passenger(pb.as_slice())?),
        Some(_) => return Err(DecodeError::WrongWireType),
    };
    let url = text_value(last_field(&fs, 3))?;
    let valid = match last_field(&fs, 4) {
        None => false,
        Some(FieldValue::Varint(x)) => *x != 0,
        Some(_) => return Err(DecodeError::WrongWireType),
    };
    Ok(Ticket { id, url, passenger, valid })
}

/// Decodes a flight message to the flight's id.
pub fn decode_flight_id(b: &[u8]) -> (r: Result<String, DecodeError>)
    ensures
        match flight_id_of(b@) {
            Ok(s) => r matches Ok(t) && t@ == s,
            Err(e) => r == Err::<String, DecodeError>(e),
        },
{
    let fs = match read_fields(b) {
        Some(fs) => fs,
        None => return Err(DecodeError::Malformed),
    };
    text_value(last_field(&fs, 1))
}

/// Decodes a payload taken from the queue of `kind` into the event it
/// carries. Never panics: a malformed payload gives an error.
pub fn decode(kind: UpdatesConsumer, b: &[u8]) -> (r: Result<Event, DecodeError>)
    ensures
        match event_of(kind, b@) {
            Ok(e) => r matches Ok(x) && x@ == e,
            Err(e) => r == Err::<Event, DecodeError>(e),
        },
{
    match kind {
        UpdatesConsumer::FlightsConsumer => {
            let flight_id = decode_flight_id(b)?;
            Ok(Event::FlightUpdated { flight_id })
        },
        UpdatesConsumer::TicketsConsumer => {
            let ticket = decode_ticket(b)?;
            Ok(Event::TicketUpdated { ticket })
        },
    }
}

/// A length-delimited field.
pub open spec fn bytes_field(number: u64, d: Seq<u8>) -> Seq<u8> {
    varint_bytes((number * 8 + 2) as nat) + varint_bytes(d.len()) + d
}

/// A varint field.
pub open spec fn varint_field(number: u64, v: u64) -> Seq<u8> {
    varint_bytes((number * 8) as nat) + varint_bytes(v as nat)
}

pub open spec fn passenger_bytes(p: PassengerView) -> Seq<u8> {
    bytes_field(1, encode_utf8(p.name)) + bytes_field(2, encode_utf8(p.email))
}

pub open spec fn ticket_bytes(t: TicketView) -> Seq<u8> {
    bytes_field(1, encode_utf8(t.id)) + match t.passenger {
        Some(p) => bytes_field(2, passenger_bytes(p)),
        None => Seq::empty(),
    } + bytes_field(3, encode_utf8(t.url)) + if t.valid {
        varint_field(4, 1)
    } else {
        Seq::empty()
    }
}

pub open spec fn flight_bytes(flight_id: Seq<char>) -> Seq<u8> {
    bytes_field(1, encode_utf8(flight_id))
}

/// The payload that carries `e`, and the queue it travels on.
pub open spec fn event_bytes(e: EventView) -> Seq<u8> {
    match e {
        EventView::FlightUpdated { flight_id } => flight_bytes(flight_id),
        EventView::TicketUpdated { ticket } => ticket_bytes(ticket),
    }
}

pub open spec fn event_kind(e: EventView) -> UpdatesConsumer {
    match e {
        EventView::FlightUpdated { .. } => UpdatesConsumer::FlightsConsumer,
        EventView::TicketUpdated { .. } => UpdatesConsumer::TicketsConsumer,
    }
}

/// Every length in the encoding of `e` fits the 64-bit length prefix.
pub open spec fn event_fits(e: EventView) -> bool {
    event_bytes(e).len() <= u64::MAX
}

fn write_bytes_field(out: &mut Vec<u8>, number: u64, d: &[u8])
    requires
        1 <= number <= 15,
    ensures
        final(out)@ == old(out)@ + bytes_field(number, d@),
{
    write_varint(out, number * 8 + 2);
    write_varint(out, d.len() as u64);
    let ghost mid = out@;
    let mut i: usize = 0;
    while i < d.len()
        invariant
            i <= d@.len(),
            out@ == mid + d@.take(i as int),
        decreases d@.len() - i,
    {
        out.push(d[i]);
        assert(d@.take(i + 1) =~= d@.take(i as int).push(d@[i as int]));
        i = i + 1;
    }
    assert(d@.take(i as int) =~= d@);
    assert(out@ =~= old(out)@ + bytes_field(number, d@));
}

fn encode_passenger(p: &Passenger) -> (r: Vec<u8>)
    ensures
        r@ == passenger_bytes(p@),
{
    let mut out: Vec<u8> = Vec::new();
    write_bytes_field(&mut out, 1, p.name.as_str().as_bytes());
    write_bytes_field(&mut out, 2, p.email.as_str().as_bytes());
    assert(out@ =~= passenger_bytes(p@));
    out
}

/// Encodes a ticket message.
pub fn encode_ticket(t: &Ticket) -> (r: Vec<u8>)
    ensures
        r@ == ticket_bytes(t@),
{
    let mut out: Vec<u8> = Vec::new();
    write_bytes_field(&mut out, 1, t.id.as_str().as_bytes());
    match &t.passenger {
        Some(p) => {
            let inner = encode_passenger(p);
            write_bytes_field(&mut out, 2, inner.as_slice());
        },
        None => {},
    }
    write_bytes_field(&mut out, 3, t.url.as_str().as_bytes());
    if t.valid {
        write_varint(&mut out, 4 * 8);
        write_varint(&mut out, 1);
    }
    assert(out@ =~= ticket_bytes(t@));
    out
}

/// Encodes a flight message that carries only the flight's id.
pub fn encode_flight_id(flight_id: &str) -> (r: Vec<u8>)
    ensures
        r@ == flight_bytes(flight_id@),
{
    let mut out: Vec<u8> = Vec::new();
    write_bytes_field(&mut out, 1, flight_id.as_bytes());
    assert(out@ =~= flight_bytes(flight_id@));
    out
}

/// Encodes `e` as the payload of the queue that carries its kind.
pub fn encode(e: &Event) -> (r: Vec<u8>)
    ensures
        r@ == event_bytes(e@),
{
    match e {
        Event::FlightUpdated { flight_id } => encode_flight_id(flight_id.as_str()),
        Event::TicketUpdated { ticket } => encode_ticket(ticket),
    }
}

proof fn lemma_parse_bytes_field(number: u64, d: Seq<u8>, rest: Seq<u8>)
    requires
        1 <= number <= 15,
        d.len() <= u64::MAX,
    ensures
        parse_fields(bytes_field(number, d) + rest) == match parse_fields(rest) {
            Some(r) => Some(seq![(number, WireValue::Bytes(d))] + r),
            None => None,
        },
{
    let k = (number * 8 + 2) as nat;
    let s = bytes_field(number, d) + rest;
    let kb = varint_bytes(k);
    let lb = varint_bytes(d.len());
    lemma_varint_round_trip(k, lb + d + rest);
    assert(s =~= kb + (lb + d + rest));
    let s1 = after(s, kb.len());
    assert(s1 =~= lb + (d + rest));
    lemma_varint_round_trip(d.len(), d + rest);
    assert(s1.subrange(lb.len() as int, (lb.len() + d.len()) as int) =~= d);
    assert(k as u64 / 8 == number && k as u64 % 8 == 2);
    let n = kb.len() + lb.len() + d.len();
    assert(parse_field(s) == Some((number, WireValue::Bytes(d), n)));
    assert(after(s, n) =~= rest);
}

proof fn lemma_parse_varint_field(number: u64, v: u64, rest: Seq<u8>)
    requires
        1 <= number <= 15,
    ensures
        parse_fields(varint_field(number, v) + rest) == match parse_fields(rest) {
            Some(r) => Some(seq![(number, WireValue::Varint(v))] + r),
            None => None,
        },
{
    let k = (number * 8) as nat;
    let s = varint_field(number, v) + rest;
    let kb = varint_bytes(k);
    let vb = varint_bytes(v as nat);
    lemma_varint_round_trip(k, vb + rest);
    assert(s =~= kb + (vb + rest));
    let s1 = after(s, kb.len());
    assert(s1 =~= vb + rest);
    lemma_varint_round_trip(v as nat, rest);
    assert(k as u64 / 8 == number && k as u64 % 8 == 0);
    let n = kb.len() + vb.len();
    assert(parse_field(s) == Some((number, WireValue::Varint(v), n)));
    assert(after(s, n) =~= rest);
}

proof fn lemma_text_round_trip(c: Seq<char>)
    ensures
        text_of(Some(WireValue::Bytes(encode_utf8(c)))) == Ok::<Seq<char>, DecodeError>(c),
{
    encode_utf8_valid_utf8(c);
    encode_utf8_decode_utf8(c);
}

/// Decoding the encoding of a passenger gives the passenger back.
pub proof fn lemma_passenger_round_trip(p: PassengerView)
    requires
        passenger_bytes(p).len() <= u64::MAX,
    ensures
        passenger_of(passenger_bytes(p)) == Ok::<PassengerView, DecodeError>(p),
{
    let b1 = encode_utf8(p.name);
    let b2 = encode_utf8(p.email);
    let e = Seq::<u8>::empty();
    assert(parse_fields(e) == Some(Seq::<(u64, WireValue)>::empty()));
    lemma_parse_bytes_field(2, b2, e);
    assert(bytes_field(2, b2) + e =~= bytes_field(2, b2));
    lemma_parse_bytes_field(1, b1, bytes_field(2, b2));
    let fs = seq![(1u64, WireValue::Bytes(b1)), (2u64, WireValue::Bytes(b2))];
    assert(parse_fields(passenger_bytes(p)) == Some(fs)) by {
        assert(seq![(2u64, WireValue::Bytes(b2))] + Seq::empty() =~= seq![(2u64, WireValue::Bytes(b2))]);
        assert(seq![(1u64, WireValue::Bytes(b1))] + seq![(2u64, WireValue::Bytes(b2))] =~= fs);
    }
    assert(fs.drop_last() =~= seq![(1u64, WireValue::Bytes(b1))]);
    assert(last_value(fs, 1) == Some(WireValue::Bytes(b1))) by {
        reveal_with_fuel(last_value, 3);
    }
    assert(last_value(fs, 2) == Some(WireValue::Bytes(b2)));
    lemma_text_round_trip(p.name);
    lemma_text_round_trip(p.email);
}

proof fn lemma_last_value_at(fs: Seq<(u64, WireValue)>, n: u64, i: int)
    requires
        0 <= i < fs.len(),
        fs[i].0 == n,
        forall|j: int| i < j < fs.len() ==> fs[j].0 != n,
    ensures
        last_value(fs, n) == Some(fs[i].1),
    decreases fs.len(),
{
    if i < fs.len() - 1 {
        lemma_last_value_at(fs.drop_last(), n, i);
    }
}

proof fn lemma_last_value_none(fs: Seq<(u64, WireValue)>, n: u64)
    requires
        forall|j: int| 0 <= j < fs.len() ==> fs[j].0 != n,
    ensures
        last_value(fs, n) is None,
    decreases fs.len(),
{
    if fs.len() > 0 {
        lemma_last_value_none(fs.drop_last(), n);
    }
}

/// Decoding the encoding of a ticket gives the ticket back.
pub proof fn lemma_ticket_round_trip(t: TicketView)
    requires
        ticket_bytes(t).len() <= u64::MAX,
    ensures
        ticket_of(ticket_bytes(t)) == Ok::<TicketView, DecodeError>(t),
{
    let e = Seq::<u8>::empty();
    let bid = encode_utf8(t.id);
    let burl = encode_utf8(t.url);
    let pb = match t.passenger {
        Some(p) => bytes_field(2, passenger_bytes(p)),
        None => e,
    };
    let vb = if t.valid {
        varint_field(4, 1)
    } else {
        e
    };
    let pf = match t.passenger {
        Some(p) => seq![(2u64, WireValue::Bytes(passenger_bytes(p)))],
        None => Seq::<(u64, WireValue)>::empty(),
    };
    let vf = if t.valid {
        seq![(4u64, WireValue::Varint(1))]
    } else {
        Seq::<(u64, WireValue)>::empty()
    };
    assert(parse_fields(e) == Some(Seq::<(u64, WireValue)>::empty()));
    if t.valid {
        lemma_parse_varint_field(4, 1, e);
        assert(varint_field(4, 1) + e =~= varint_field(4, 1));
        assert(seq![(4u64, WireValue::Varint(1))] + Seq::<(u64, WireValue)>::empty() =~= vf);
    }
    assert(parse_fields(vb) == Some(vf));
    assert(ticket_bytes(t) =~= bytes_field(1, bid) + (pb + (bytes_field(3, burl) + vb)));
    assert(ticket_bytes(t).len() >= bid.len() + pb.len() + burl.len());
    lemma_parse_bytes_field(3, burl, vb);
    let f3 = seq![(3u64, WireValue::Bytes(burl))] + vf;
    match t.passenger {
        Some(p) => {
            assert(passenger_bytes(p).len() <= pb.len());
            lemma_parse_bytes_field(2, passenger_bytes(p), bytes_field(3, burl) + vb);
        },
        None => {
            assert(pb + (bytes_field(3, burl) + vb) =~= bytes_field(3, burl) + vb);
            assert(pf + f3 =~= f3);
        },
    }
    assert(parse_fields(pb + (bytes_field(3, burl) + vb)) == Some(pf + f3));
    lemma_parse_bytes_field(1, bid, pb + (bytes_field(3, burl) + vb));
    let fs = seq![(1u64, WireValue::Bytes(bid))] + (pf + f3);
    assert(parse_fields(ticket_bytes(t)) == Some(fs));
    let ip = pf.len() as int;
    lemma_last_value_at(fs, 1, 0);
    lemma_last_value_at(fs, 3, 1 + ip);
    lemma_text_round_trip(t.id);
    lemma_text_round_trip(t.url);
    match t.passenger {
        Some(p) => {
            lemma_last_value_at(fs, 2, 1);
            lemma_passenger_round_trip(p);
        },
        None => {
            lemma_last_value_none(fs, 2);
        },
    }
    if t.valid {
        lemma_last_value_at(fs, 4, 2 + ip);
    } else {
        lemma_last_value_none(fs, 4);
    }
}

/// Decoding the payload that encodes an event, taken from the queue of the
/// event's kind, gives back exactly that event.
pub proof fn lemma_decode_encode(e: EventView)
    requires
        event_fits(e),
    ensures
        event_of(event_kind(e), event_bytes(e)) == Ok::<EventView, DecodeError>(e),
{
    match e {
        EventView::FlightUpdated { flight_id } => {
            let b = encode_utf8(flight_id);
            let ev = Seq::<u8>::empty();
            assert(parse_fields(ev) == Some(Seq::<(u64, WireValue)>::empty()));
            lemma_parse_bytes_field(1, b, ev);
            assert(bytes_field(1, b) + ev =~= bytes_field(1, b));
            let fs = seq![(1u64, WireValue::Bytes(b))];
            assert(seq![(1u64, WireValue::Bytes(b))] + Seq::<(u64, WireValue)>::empty() =~= fs);
            lemma_last_value_at(fs, 1, 0);
            lemma_text_round_trip(flight_id);
        },
        EventView::TicketUpdated { ticket } => {
            lemma_ticket_round_trip(ticket);
        },
    }
}

} // verus!
