//! The handlers' decisions for each URC: the commands they submit and the
//! notifications they raise, given the answers that came back.
use vstd::prelude::*;
use crate::handlers::{clip_from, clip_number, find_pdu, last_pdu, NotificationType};
use crate::pdu::{pdu_decode, read_incoming_sms, record_of, PduError, SmsData};
use crate::sms_cache::{cache_step, PartialSmsCache};
use crate::text::{chars_of, contains, pieces, push_str, seq_contains, string_of};
use vstd::string::StringSliceAdditionalSpecFns;

verus! {

/// A notification to raise: category, sender, text.
pub struct Notice {
    pub kind: NotificationType,
    pub sender: String,
    pub content: String,
}

/// What the call handler raises for a line: a ring from an unknown caller,
/// or the number of a `+CLIP:` line.
pub fn call_notice(line: &str) -> (r: Option<Notice>)
    ensures
        seq_contains(line@, "RING"@) ==> r is Some && r->Some_0.kind == NotificationType::Call
            && r->Some_0.sender@ == "System"@ && r->Some_0.content@ == "Incoming Call (Ring)"@,
        !seq_contains(line@, "RING"@) ==> match clip_from(line@, 0) {
            Some(n) => r is Some && r->Some_0.kind == NotificationType::Call && r->Some_0.sender@ == n
                && r->Some_0.content@ == "Incoming Call"@,
            None => r is None,
        },
{
    let l = chars_of(line);
    if contains(l.as_slice(), chars_of("RING").as_slice()) {
        return Some(
            Notice {
                kind: NotificationType::Call,
                sender: string_of(chars_of("System").as_slice()),
                content: string_of(chars_of("Incoming Call (Ring)").as_slice()),
            },
        );
    }
    match clip_number(line) {
        Some(n) => Some(
            Notice {
                kind: NotificationType::Call,
                sender: n,
                content: string_of(chars_of("Incoming Call").as_slice()),
            },
        ),
        None => None,
    }
}

/// What the memory-full handler raises.
pub fn memory_full_notice() -> (r: Notice)
    ensures
        r.kind == NotificationType::MemoryFull,
        r.sender@ == "System"@,
        r.content@ == "SMS Memory Full"@,
{
    Notice {
        kind: NotificationType::MemoryFull,
        sender: string_of(chars_of("System").as_slice()),
        content: string_of(chars_of("SMS Memory Full").as_slice()),
    }
}

/// `AT+CMGR=<index>`: read the message at `index`.
pub fn read_command(index: &str) -> (r: String)
    ensures
        r@ == "AT+CMGR="@ + index@,
{
    let mut r = String::new();
    push_str(&mut r, "AT+CMGR=");
    push_str(&mut r, index);
    r
}

/// `AT+CMGD=<index>`: delete the message at `index`.
pub fn delete_command(index: &str) -> (r: String)
    ensures
        r@ == "AT+CMGD="@ + index@,
{
    let mut r = String::new();
    push_str(&mut r, "AT+CMGD=");
    push_str(&mut r, index);
    r
}

/// What a `+CMGR` answer yields.
pub enum SmsFetch {
    /// No line of it is a PDU.
    NoPdu,
    /// The PDU, decoded.
    Decoded(SmsData),
    /// A PDU that does not decode, with the reason.
    Undecodable(String, PduError),
}

/// Finds and decodes the PDU of a `+CMGR` answer.
pub fn fetch_sms(data: &str) -> (r: SmsFetch)
    ensures
        match last_pdu(pieces(data@, '\n'), pieces(data@, '\n').len() as int) {
            None => r is NoPdu,
            Some(p) => match pdu_decode(vstd::utf8::encode_utf8(p)) {
                Ok(l) => r is Decoded && record_of(r->Decoded_0, l),
                Err(e) => r is Undecodable && r->Undecodable_0@ == p && r->Undecodable_1 == e,
            },
        },
{
    match find_pdu(data) {
        None => SmsFetch::NoPdu,
        Some(p) => {
            let ps = p.as_str();
            assert(ps.spec_bytes() == vstd::utf8::encode_utf8(p@));
            match read_incoming_sms(ps) {
                Ok(d) => SmsFetch::Decoded(d),
                Err(e) => SmsFetch::Undecodable(p, e),
            }
        },
    }
}

/// The fallback notice for a PDU that does not decode.
pub fn raw_pdu_notice(pdu: &str) -> (r: Notice)
    ensures
        r.kind == NotificationType::SMS,
        r.sender@ == "Unknown"@,
        r.content@ == "Raw PDU: "@ + pdu@,
{
    let mut c = String::new();
    push_str(&mut c, "Raw PDU: ");
    push_str(&mut c, pdu);
    Notice { kind: NotificationType::SMS, sender: string_of(chars_of("Unknown").as_slice()), content: c }
}

/// Handles a decoded SMS at time `now`: a whole message is raised at once;
/// a part goes into the cache, and the joined message is raised when it
/// completes its set.
pub fn process_sms(cache: &mut PartialSmsCache, sms: SmsData, now: u64) -> (r: Option<Notice>)
    requires
        old(cache).wf(),
    ensures
        final(cache).wf(),
        match sms.partial_info {
            None => final(cache)@ == old(cache)@ && r is Some && r->Some_0.kind == NotificationType::SMS
                && r->Some_0.sender@ == sms.sender@ && r->Some_0.content@ == sms.content@,
            Some(p) => {
                let step = cache_step(old(cache)@, sms.sender@, p, sms.content@, now);
                &&& final(cache)@ == step.0
                &&& match step.1 {
                    Some(t) => r is Some && r->Some_0.kind == NotificationType::SMS && r->Some_0.sender@
                        == sms.sender@ && r->Some_0.content@ == t,
                    None => r is None,
                }
            },
        },
{
    match sms.partial_info {
        None => Some(Notice { kind: NotificationType::SMS, sender: sms.sender, content: sms.content }),
        Some(p) => {
            let done = cache.insert_part(sms.sender.as_str(), p, sms.content.as_str(), now);
            match done {
                Some(t) => Some(Notice { kind: NotificationType::SMS, sender: sms.sender, content: t }),
                None => None,
            }
        },
    }
}

} // verus!
