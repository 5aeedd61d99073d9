use updatesvc::codec::{decode, decode_flight_id, decode_ticket, encode, encode_flight_id, encode_ticket, DecodeError};
use updatesvc::model::{Event, Passenger, Ticket, UpdatesConsumer};
use updatesvc::wire::{read_fields, read_varint, write_varint, FieldValue};

fn ticket(id: &str, url: &str, passenger: Option<(&str, &str)>, valid: bool) -> Ticket {
    Ticket {
        id: id.to_string(),
        url: url.to_string(),
        passenger: passenger.map(|(n, e)| Passenger { name: n.to_string(), email: e.to_string() }),
        valid,
    }
}

#[test]
fn flight_id_has_exact_bytes() {
    assert_eq!(encode_flight_id("F1"), vec![0x0a, 0x02, b'F', b'1']);
}

#[test]
fn varint_reads_multi_byte_value() {
    assert_eq!(read_varint(&[0xac, 0x02, 0x07], 0), Some((300, 2)));
    assert_eq!(read_varint(&[0x07, 0xac, 0x02], 1), Some((300, 3)));
}

#[test]
fn varint_incomplete_or_too_large_is_refused() {
    assert_eq!(read_varint(&[0x80, 0x80], 0), None);
    let mut big = vec![0xff; 10];
    big.push(0x01);
    assert_eq!(read_varint(&big, 0), None);
    let mut max = vec![0xff; 9];
    max.push(0x01);
    assert_eq!(read_varint(&max, 0), Some((u64::MAX, 10)));
}

#[test]
fn varint_write_then_read() {
    for n in [0u64, 1, 127, 128, 300, 16384, u64::MAX] {
        let mut out = Vec::new();
        write_varint(&mut out, n);
        assert_eq!(read_varint(&out, 0), Some((n, out.len())));
    }
    let mut out = Vec::new();
    write_varint(&mut out, 300);
    assert_eq!(out, vec![0xac, 0x02]);
}

#[test]
fn fields_are_read_in_order() {
    let b = [0x08, 0x96, 0x01, 0x12, 0x01, b'x', 0x1d, 1, 2, 3, 4];
    let fs = read_fields(&b).unwrap();
    assert_eq!(fs.len(), 3);
    assert_eq!(fs[0].number, 1);
    assert!(matches!(fs[0].value, FieldValue::Varint(150)));
    assert!(matches!(&fs[1].value, FieldValue::Bytes(v) if v == &vec![b'x']));
    assert!(matches!(&fs[2].value, FieldValue::Fixed(v) if v == &vec![1, 2, 3, 4]));
}

#[test]
fn ticket_round_trip_with_passenger() {
    let t = ticket("T1", "tickets/T1", Some(("Ann", "ann@x.com")), true);
    let b = encode_ticket(&t);
    let d = decode_ticket(&b).unwrap();
    assert_eq!(d.id, "T1");
    assert_eq!(d.url, "tickets/T1");
    assert!(d.valid);
    let p = d.passenger.unwrap();
    assert_eq!(p.name, "Ann");
    assert_eq!(p.email, "ann@x.com");
}

#[test]
fn ticket_round_trip_without_passenger() {
    let t = ticket("T2", "u", None, false);
    let d = decode_ticket(&encode_ticket(&t)).unwrap();
    assert_eq!(d.id, "T2");
    assert!(d.passenger.is_none());
    assert!(!d.valid);
}

#[test]
fn event_round_trip_both_kinds() {
    let e = Event::FlightUpdated { flight_id: "F1".to_string() };
    match decode(UpdatesConsumer::FlightsConsumer, &encode(&e)) {
        Ok(Event::FlightUpdated { flight_id }) => assert_eq!(flight_id, "F1"),
        _ => panic!("flight update expected"),
    }
    let e = Event::TicketUpdated { ticket: ticket("T3", "u3", Some(("Bo", "bo@y.org")), true) };
    match decode(UpdatesConsumer::TicketsConsumer, &encode(&e)) {
        Ok(Event::TicketUpdated { ticket }) => {
            assert_eq!(ticket.id, "T3");
            assert_eq!(ticket.passenger.unwrap().email, "bo@y.org");
        },
        _ => panic!("ticket update expected"),
    }
}

#[test]
fn non_ascii_text_round_trips() {
    let e = encode_flight_id("Zürich ✈");
    assert_eq!(decode_flight_id(&e).unwrap(), "Zürich ✈");
}

#[test]
fn empty_payload_gives_empty_values() {
    assert_eq!(decode_flight_id(&[]).unwrap(), "");
    let t = decode_ticket(&[]).unwrap();
    assert_eq!(t.id, "");
    assert!(t.passenger.is_none());
    assert!(!t.valid);
}

#[test]
fn truncated_payload_is_malformed() {
    let b = encode_flight_id("F1");
    assert!(matches!(decode_flight_id(&b[..3]), Err(DecodeError::Malformed)));
    assert!(matches!(decode(UpdatesConsumer::TicketsConsumer, &[0x0a]), Err(DecodeError::Malformed)));
    assert!(matches!(decode_flight_id(&[0x00, 0x01]), Err(DecodeError::Malformed)));
    assert!(matches!(decode_flight_id(&[0x0b]), Err(DecodeError::Malformed)));
}

#[test]
fn wrong_wire_type_is_refused() {
    assert!(matches!(decode_flight_id(&[0x08, 0x01]), Err(DecodeError::WrongWireType)));
    assert!(matches!(decode_ticket(&[0x22, 0x00]), Err(DecodeError::WrongWireType)));
}

#[test]
fn invalid_utf8_is_refused() {
    assert!(matches!(decode_flight_id(&[0x0a, 0x01, 0xff]), Err(DecodeError::InvalidText)));
}

#[test]
fn unknown_fields_skipped_and_last_value_wins() {
    let mut b = encode_flight_id("old");
    b.extend_from_slice(&[0x10, 0x05, 0x1a, 0x01, b'z', 0x25, 0, 0, 0, 0]);
    b.extend_from_slice(&encode_flight_id("new"));
    assert_eq!(decode_flight_id(&b).unwrap(), "new");
}
