//! Settings read from the environment, with their defaults.
use vstd::prelude::*;
use vstd::string::StringExecFns;

verus! {

/// Where the broker and the two remote services are.
pub struct Options {
    pub rabbitmq_host: String,
    pub rabbitmq_port: u16,
    pub rabbitmq_username: String,
    pub rabbitmq_password: String,
    pub ticketsrvc_url: String,
    pub validationsvc_url: String,
}

/// Where the mail transport is.
pub struct MailConfig {
    pub smtp_host: String,
    pub smtp_port: u16,
}

/// Who the mail comes from, what it says for each kind of update, and the
/// prefix that turns a ticket's url into a link.
pub struct MailContent {
    pub sender_name: String,
    pub sender_address: String,
    pub flight_update_subject: String,
    pub flight_update_body: String,
    pub ticket_update_subject: String,
    pub ticket_update_body: String,
    pub frontend_ticket_url_prefix: String,
}

pub fn default_rabbitmq_port() -> (r: u16)
    ensures
        r == 5672,
{
    5672
}

pub fn default_validationsvc_url() -> (r: String)
    ensures
        r@ == "grpc://validationsvc:50051"@,
{
    String::from_str("grpc://validationsvc:50051")
}

pub fn default_ticketsrvc_url() -> (r: String)
    ensures
        r@ == "grpc://ticketsvc:50051"@,
{
    String::from_str("grpc://ticketsvc:50051")
}

pub fn default_smtp_host() -> (r: String)
    ensures
        r@ == "mailsvc"@,
{
    String::from_str("mailsvc")
}

pub fn default_smtp_port() -> (r: u16)
    ensures
        r == 25,
{
    25
}

pub fn default_sender_name() -> (r: String)
    ensures
        r@ == "Simurgh Airlines"@,
{
    String::from_str("Simurgh Airlines")
}

pub fn default_sender_address() -> (r: String)
    ensures
        r@ == "update@simurghairlines.com"@,
{
    String::from_str("update@simurghairlines.com")
}

pub fn default_flight_update_subject() -> (r: String)
    ensures
        r@ == "An update on your flight"@,
{
    String::from_str("An update on your flight")
}

pub fn default_flight_update_body() -> (r: String)
    ensures
        r@
            == "Hello, recently your flight has recieved an update. Follow the link down here to retrieve you new ticket!"@,
{
    String::from_str(
        "Hello, recently your flight has recieved an update. Follow the link down here to retrieve you new ticket!",
    )
}

pub fn default_ticket_update_subject() -> (r: String)
    ensures
        r@ == "An update on your ticket"@,
{
    String::from_str("An update on your ticket")
}

pub fn default_ticket_update_body() -> (r: String)
    ensures
        r@
            == "Hello, recently your ticket has been updated. Follow the link down here to retrieve you new ticket!\n"@,
{
    String::from_str(
        "Hello, recently your ticket has been updated. Follow the link down here to retrieve you new ticket!\n",
    )
}

impl MailConfig {
    /// The mail transport settings when the environment sets none.
    pub fn with_defaults() -> (r: MailConfig)
        ensures
            r.smtp_host@ == "mailsvc"@,
            r.smtp_port == 25,
    {
        MailConfig { smtp_host: default_smtp_host(), smtp_port: default_smtp_port() }
    }
}

impl MailContent {
    /// The default texts, with the given link prefix (which has no default).
    pub fn with_defaults(frontend_ticket_url_prefix: String) -> (r: MailContent)
        ensures
            r.sender_name@ == "Simurgh Airlines"@,
            r.sender_address@ == "update@simurghairlines.com"@,
            r.flight_update_subject@ == "An update on your flight"@,
            r.flight_update_body@
                == "Hello, recently your flight has recieved an update. Follow the link down here to retrieve you new ticket!"@,
            r.ticket_update_subject@ == "An update on your ticket"@,
            r.ticket_update_body@
                == "Hello, recently your ticket has been updated. Follow the link down here to retrieve you new ticket!\n"@,
            r.frontend_ticket_url_prefix@ == frontend_ticket_url_prefix@,
    {
        MailContent {
            sender_name: default_sender_name(),
            sender_address: default_sender_address(),
            flight_update_subject: default_flight_update_subject(),
            flight_update_body: default_flight_update_body(),
            ticket_update_subject: default_ticket_update_subject(),
            ticket_update_body: default_ticket_update_body(),
            frontend_ticket_url_prefix,
        }
    }
}

} // verus!
