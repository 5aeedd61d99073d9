use updatesvc::compose::{append_line_breaks, check_addresses, compose, mailbox_text, render_body, address_outcome, Message};
use updatesvc::config::{
    default_flight_update_body, default_flight_update_subject, default_rabbitmq_port, default_sender_address,
    default_sender_name, default_smtp_host, default_smtp_port, default_ticket_update_body,
    default_ticket_update_subject, default_ticketsrvc_url, default_validationsvc_url, MailConfig, MailContent,
};

const HEAD: &str = "<html><body><p>";
const MID: &str = "\">Your ticket</a></p><img style=\"image-rendering: pixelated; height: auto; width: 25%;\" src=\"data:image/png;base64,";

#[test]
fn newlines_become_line_breaks() {
    let mut out = String::new();
    append_line_breaks(&mut out, "a\nb\n\nc");
    assert_eq!(out, "a<br/>b<br/><br/>c");
}

#[test]
fn text_without_newline_is_unchanged() {
    let mut out = String::from("x");
    append_line_breaks(&mut out, "plain <text> ü");
    assert_eq!(out, "xplain <text> ü");
}

#[test]
fn body_is_rendered_exactly() {
    let b = render_body("Hi\nthere", "https://f/", "t/1", "AQID");
    let expected = format!("{}Hi<br/>there</p><p><a href=\"https://f/t/1{}AQID\" /></body></html>", HEAD, MID);
    assert_eq!(b, expected);
}

#[test]
fn compose_embeds_code_as_base64() {
    let m = compose("S", "s@x.com", "Ann", "ann@x.com", "Subj", "R", "p/", "u", &[1, 2, 3]);
    assert_eq!(m.to_name, "Ann");
    assert_eq!(m.to_address, "ann@x.com");
    assert_eq!(m.from_name, "S");
    assert_eq!(m.subject, "Subj");
    assert_eq!(m.body, format!("{}R</p><p><a href=\"p/u{}AQID\" /></body></html>", HEAD, MID));
    let m = compose("S", "s@x.com", "Ann", "ann@x.com", "Subj", "R", "p/", "u", &[0xff, 0xee]);
    assert!(m.body.contains("base64,/+4=\""));
}

#[test]
fn mailbox_text_is_name_and_address() {
    assert_eq!(mailbox_text("Ann", "ann@x.com"), "Ann <ann@x.com>");
}

fn message(from: &str, to: &str) -> Message {
    Message {
        from_name: "Sender".to_string(),
        from_address: from.to_string(),
        to_name: "Ann".to_string(),
        to_address: to.to_string(),
        subject: String::new(),
        body: String::new(),
    }
}

#[test]
fn valid_addresses_pass_the_check() {
    assert!(check_addresses(&message("s@x.com", "ann@x.com")).is_ok());
}

#[test]
fn malformed_address_is_reported() {
    assert_eq!(check_addresses(&message("s@x.com", "not an address")), Err("Ann <not an address>".to_string()));
    assert_eq!(check_addresses(&message("", "ann@x.com")), Err("Sender <>".to_string()));
}

#[test]
fn address_outcome_prefers_sender() {
    assert_eq!(address_outcome("a".into(), false, "b".into(), false), Err("a".to_string()));
    assert_eq!(address_outcome("a".into(), true, "b".into(), false), Err("b".to_string()));
    assert_eq!(address_outcome("a".into(), true, "b".into(), true), Ok(()));
}

#[test]
fn defaults_are_the_documented_ones() {
    assert_eq!(default_rabbitmq_port(), 5672);
    assert_eq!(default_smtp_port(), 25);
    assert_eq!(default_smtp_host(), "mailsvc");
    assert_eq!(default_ticketsrvc_url(), "grpc://ticketsvc:50051");
    assert_eq!(default_validationsvc_url(), "grpc://validationsvc:50051");
    assert_eq!(default_sender_name(), "Simurgh Airlines");
    assert_eq!(default_sender_address(), "update@simurghairlines.com");
    assert_eq!(default_flight_update_subject(), "An update on your flight");
    assert_eq!(default_ticket_update_subject(), "An update on your ticket");
    assert!(default_flight_update_body().starts_with("Hello, recently your flight"));
    assert!(default_ticket_update_body().ends_with("new ticket!\n"));
    let c = MailConfig::with_defaults();
    assert_eq!(c.smtp_host, "mailsvc");
    let m = MailContent::with_defaults("https://f/".to_string());
    assert_eq!(m.frontend_ticket_url_prefix, "https://f/");
    assert_eq!(m.sender_name, "Simurgh Airlines");
}
