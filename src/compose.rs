//! Rendering of the notification mail.
use vstd::prelude::*;
use vstd::string::{StrSliceExecFns, StringExecFns};

verus! {

/// The line-break marker that stands for a newline in the body.
pub open spec fn line_break() -> Seq<char> {
    seq!['<', 'b', 'r', '/', '>']
}

/// What one character of the reason text becomes in the body.
pub open spec fn rendered_char(c: char) -> Seq<char> {
    if c == '\n' {
        line_break()
    } else {
        seq![c]
    }
}

/// The reason text with every newline replaced by a line-break marker.
pub open spec fn line_breaks(s: Seq<char>) -> Seq<char>
    decreases s.len(),
{
    if s.len() == 0 {
        Seq::empty()
    } else {
        line_breaks(s.drop_last()) + rendered_char(s.last())
    }
}

/// The mail body: the reason text, a link made of the prefix and the
/// ticket's url, and the signed code as an inline base64 image.
pub open spec fn body_text(
    reason: Seq<char>,
    url_prefix: Seq<char>,
    url: Seq<char>,
    code: Seq<char>,
) -> Seq<char> {
    "<html><body><p>"@ + line_breaks(reason) + "</p><p><a href=\""@ + url_prefix + url
        + "\">Your ticket</a></p><img style=\"image-rendering: pixelated; height: auto; width: 25%;\" src=\"data:image/png;base64,"@
        + code + "\" /></body></html>"@
}

/// Names what base64's standard engine makes of some bytes.
pub uninterp spec fn base64_standard(b: Seq<u8>) -> Seq<char>;

/// Relies on base64's `Engine::encode` with the `STANDARD` engine: padded
/// standard-alphabet base64, four characters for every started group of
/// three bytes. It panics only when that length overflows `usize`, which a
/// slice (at most `isize::MAX` bytes) cannot make happen.
#[verifier::external_body]
fn base64_encode(b: &[u8]) -> (r: String)
    ensures
        r@ == base64_standard(b@),
        r@.len() == 4 * ((b@.len() + 2) / 3),
{
    base64::Engine::encode(&base64::engine::general_purpose::STANDARD, b)
}

/// Relies on `String::push`: appends the character.
#[verifier::external_body]
fn push_char(s: &mut String, c: char)
    ensures
        final(s)@ == old(s)@.push(c),
{
    s.push(c)
}

/// Appends the reason text to `out`, each newline as a line-break marker.
pub fn append_line_breaks(out: &mut String, reason: &str)
    ensures
        final(out)@ == old(out)@ + line_breaks(reason@),
{
    let n = reason.unicode_len();
    let mut i: usize = 0;
    proof {
        assert(reason@.take(0) =~= Seq::<char>::empty());
        assert(old(out)@ + Seq::<char>::empty() =~= old(out)@);
    }
    while i < n
        invariant
            n == reason@.len(),
            i <= n,
            out@ == old(out)@ + line_breaks(reason@.take(i as int)),
        decreases n - i,
    {
        let c = reason.get_char(i);
        let ghost pre = out@;
        if c == '\n' {
            out.append("<br/>");
            proof {
                reveal_strlit("<br/>");
                assert("<br/>"@ =~= line_break());
            }
        } else {
            push_char(out, c);
        }
        proof {
            assert(reason@.take(i + 1).drop_last() =~= reason@.take(i as int));
            assert(out@ =~= old(out)@ + line_breaks(reason@.take(i + 1)));
        }
        i = i + 1;
    }
    assert(reason@.take(n as int) =~= reason@);
}

/// Renders the mail body from the reason text, the link prefix, the
/// ticket's url and the signed code already in base64.
pub fn render_body(reason: &str, url_prefix: &str, url: &str, code: &str) -> (r: String)
    ensures
        r@ == body_text(reason@, url_prefix@, url@, code@),
{
    let mut out = String::from_str("<html><body><p>");
    append_line_breaks(&mut out, reason);
    out.append("</p><p><a href=\"");
    out.append(url_prefix);
    out.append(url);
    out.append(
        "\">Your ticket</a></p><img style=\"image-rendering: pixelated; height: auto; width: 25%;\" src=\"data:image/png;base64,",
    );
    out.append(code);
    out.append("\" /></body></html>");
    out
}

/// A composed notification, ready for the mail transport.
pub struct Message {
    pub from_name: String,
    pub from_address: String,
    pub to_name: String,
    pub to_address: String,
    pub subject: String,
    pub body: String,
}

/// Composes the notification to one recipient; the signed code is embedded
/// as base64. Cannot fail: a malformed address is found when sending.
pub fn compose(
    sender_name: &str,
    sender_address: &str,
    recipient_name: &str,
    recipient_address: &str,
    subject: &str,
    reason: &str,
    url_prefix: &str,
    ticket_url: &str,
    signed_code: &[u8],
) -> (r: Message)
    ensures
        r.from_name@ == sender_name@,
        r.from_address@ == sender_address@,
        r.to_name@ == recipient_name@,
        r.to_address@ == recipient_address@,
        r.subject@ == subject@,
        r.body@ == body_text(reason@, url_prefix@, ticket_url@, base64_standard(signed_code@)),
{
    let code = base64_encode(signed_code);
    let body = render_body(reason, url_prefix, ticket_url, code.as_str());
    Message {
        from_name: String::from_str(sender_name),
        from_address: String::from_str(sender_address),
        to_name: String::from_str(recipient_name),
        to_address: String::from_str(recipient_address),
        subject: String::from_str(subject),
        body,
    }
}

/// The text of a mailbox: `name <address>`.
pub open spec fn mailbox_of(name: Seq<char>, address: Seq<char>) -> Seq<char> {
    name + " <"@ + address + ">"@
}

/// Names whether lettre reads a text as a mailbox.
pub uninterp spec fn lettre_mailbox_ok(s: Seq<char>) -> bool;

/// Relies on lettre's `FromStr for Mailbox`: whether the text parses as a
/// mailbox, which depends on the text alone.
#[verifier::external_body]
fn parses_as_mailbox(s: &str) -> (r: bool)
    ensures
        r == lettre_mailbox_ok(s@),
{
    s.parse::<lettre::message::Mailbox>().is_ok()
}

/// Writes the mailbox text of a name and an address.
pub fn mailbox_text(name: &str, address: &str) -> (r: String)
    ensures
        r@ == mailbox_of(name@, address@),
{
    let mut r = String::from_str(name);
    r.append(" <");
    r.append(address);
    r.append(">");
    r
}

/// The outcome of the address check, given whether each mailbox text
/// parses: the sender's is looked at first.
pub fn address_outcome(
    from_text: String,
    from_ok: bool,
    to_text: String,
    to_ok: bool,
) -> (r: Result<(), String>)
    ensures
        r == if !from_ok {
            Err::<(), String>(from_text)
        } else if !to_ok {
            Err(to_text)
        } else {
            Ok(())
        },
{
    if !from_ok {
        Err(from_text)
    } else if !to_ok {
        Err(to_text)
    } else {
        Ok(())
    }
}

/// Checks that both the sender's and the recipient's mailbox parse; gives
/// the first text that does not.
pub fn check_addresses(m: &Message) -> (r: Result<(), String>)
    ensures
        match r {
            Ok(()) => lettre_mailbox_ok(mailbox_of(m.from_name@, m.from_address@))
                && lettre_mailbox_ok(mailbox_of(m.to_name@, m.to_address@)),
            Err(t) => (!lettre_mailbox_ok(mailbox_of(m.from_name@, m.from_address@)) && t@
                == mailbox_of(m.from_name@, m.from_address@)) || (lettre_mailbox_ok(
                mailbox_of(m.from_name@, m.from_address@),
            ) && !lettre_mailbox_ok(mailbox_of(m.to_name@, m.to_address@)) && t@ == mailbox_of(
                m.to_name@,
                m.to_address@,
            )),
        },
{
    let from_text = mailbox_text(m.from_name.as_str(), m.from_address.as_str());
    let from_ok = parses_as_mailbox(from_text.as_str());
    let to_text = mailbox_text(m.to_name.as_str(), m.to_address.as_str());
    let to_ok = parses_as_mailbox(to_text.as_str());
    address_outcome(from_text, from_ok, to_text, to_ok)
}

/// A reason text without newlines is embedded unchanged.
pub proof fn lemma_line_breaks_plain(s: Seq<char>)
    requires
        !s.contains('\n'),
    ensures
        line_breaks(s) == s,
    decreases s.len(),
{
    if s.len() > 0 {
        assert(!s.drop_last().contains('\n')) by {
            if s.drop_last().contains('\n') {
                let k = choose|k: int| 0 <= k < s.drop_last().len() && s.drop_last()[k] == '\n';
                assert(s[k] == '\n');
            }
        }
        lemma_line_breaks_plain(s.drop_last());
        assert(s.drop_last() + seq![s.last()] =~= s);
    }
}

/// Rendering splits over concatenation: each part renders on its own.
pub proof fn lemma_line_breaks_concat(a: Seq<char>, b: Seq<char>)
    ensures
        line_breaks(a + b) == line_breaks(a) + line_breaks(b),
    decreases b.len(),
{
    if b.len() == 0 {
        assert(a + b =~= a);
        assert(line_breaks(a) + line_breaks(b) =~= line_breaks(a));
    } else {
        assert((a + b).drop_last() =~= a + b.drop_last());
        lemma_line_breaks_concat(a, b.drop_last());
        assert(line_breaks(a) + line_breaks(b.drop_last()) + rendered_char(b.last()) =~= line_breaks(
            a,
        ) + (line_breaks(b.drop_last()) + rendered_char(b.last())));
    }
}

/// No newline is left in the rendered text.
pub proof fn lemma_line_breaks_no_newline(s: Seq<char>)
    ensures
        !line_breaks(s).contains('\n'),
    decreases s.len(),
{
    if s.len() > 0 {
        lemma_line_breaks_no_newline(s.drop_last());
        let l = line_breaks(s.drop_last());
        let c = rendered_char(s.last());
        assert(!c.contains('\n'));
        if (l + c).contains('\n') {
            let k = choose|k: int| 0 <= k < (l + c).len() && (l + c)[k] == '\n';
            if k < l.len() {
                assert(l[k] == '\n');
            } else {
                assert(c[k - l.len()] == '\n');
            }
        }
    }
}

/// Each newline becomes one marker and every other character stays as it
/// is: the text is rendered character by character, the rendered text has
/// no newline left, and rendering it again changes nothing.
pub proof fn lemma_line_breaks_law(a: Seq<char>, b: Seq<char>)
    ensures
        line_breaks(a + seq!['\n'] + b) == line_breaks(a) + line_break() + line_breaks(b),
        !line_breaks(a).contains('\n'),
        line_breaks(line_breaks(a)) == line_breaks(a),
        !a.contains('\n') ==> line_breaks(a) == a,
{
    lemma_line_breaks_concat(a + seq!['\n'], b);
    lemma_line_breaks_concat(a, seq!['\n']);
    let nl = seq!['\n'];
    assert(nl.drop_last() =~= Seq::<char>::empty());
    assert(nl.last() == '\n');
    assert(line_breaks(nl) == line_breaks(nl.drop_last()) + rendered_char(nl.last()));
    assert(Seq::<char>::empty() + line_break() =~= line_break());
    lemma_line_breaks_no_newline(a);
    lemma_line_breaks_plain(line_breaks(a));
    if !a.contains('\n') {
        lemma_line_breaks_plain(a);
    }
}

} // verus!
