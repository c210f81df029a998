//! The dial supervisor's decisions: whether a `+CGPADDR` answer holds a
//! usable address, what a check does on each edge, and the commands it sends.
use vstd::prelude::*;
use crate::text::{
    chars_eq, chars_of, contains, pieces, seq_contains, seq_starts_with, split_on, starts_with,
    str_trim_of, strip, strip_chars, lemma_split_acc_len, string_of, tail_from, trim_str, lower_of, lowercase, upper_of,
    uppercase, views, push_str,
};

verus! {

/// The characters stripped from each side of an address field.
pub open spec fn addr_strip_set() -> Seq<char> {
    seq!['"', ' ', '\r', '\n']
}

/// An address that counts as assigned: not a sentinel, and IPv4-like (a
/// dot, at most 15 characters) or IPv6-like (a colon, at most 39).
pub open spec fn valid_address(a: Seq<char>) -> bool {
    a.len() > 0 && a != "0.0.0.0"@ && a != "::"@ && ((seq_contains(a, "."@) && a.len() <= 15) || (
    seq_contains(a, ":"@) && a.len() <= 39))
}

/// The address fields of a trimmed `+CGPADDR:` line: the comma-separated
/// segments after the colon, the PDP index (first segment) left out.
pub open spec fn address_fields(t: Seq<char>) -> Seq<Seq<char>> {
    pieces(str_trim_of(t.subrange(9, t.len() as int)), ',').drop_first()
}

/// A line of the answer that reports a usable address.
pub open spec fn line_has_ip(l: Seq<char>) -> bool {
    let t = str_trim_of(l);
    seq_starts_with(t, "+CGPADDR:"@) && exists|j: int| 0 <= j < address_fields(t).len() && valid_address(
        strip(#[trigger] address_fields(t)[j], addr_strip_set()),
    )
}

/// Some line of the answer reports a usable address.
pub open spec fn has_ip_spec(data: Seq<char>) -> bool {
    exists|i: int| 0 <= i < pieces(data, '\n').len() && line_has_ip(#[trigger] pieces(data, '\n')[i])
}

fn addr_strip_chars() -> (r: Vec<char>)
    ensures
        r@ == addr_strip_set(),
{
    let r = vec!['"', ' ', '\r', '\n'];
    assert(r@ == addr_strip_set());
    r
}

/// Whether one address field holds a usable address.
pub fn is_valid_address(a: &[char]) -> (r: bool)
    ensures
        r == valid_address(a@),
{
    if a.len() == 0 || chars_eq(a, chars_of("0.0.0.0").as_slice()) || chars_eq(a, chars_of("::").as_slice()) {
        return false;
    }
    (contains(a, chars_of(".").as_slice()) && a.len() <= 15) || (contains(a, chars_of(":").as_slice()) && a.len() <= 39)
}

fn line_reports_ip(line: &[char]) -> (r: bool)
    ensures
        r == line_has_ip(line@),
{
    let t = trim_str(string_of(line).as_str());
    let tv = chars_of(t.as_str());
    if !starts_with(tv.as_slice(), chars_of("+CGPADDR:").as_slice()) {
        return false;
    }
    proof {
        reveal_strlit("+CGPADDR:");
    }
    let rest = tail_from(tv.as_slice(), 9);
    let data = trim_str(string_of(rest.as_slice()).as_str());
    let segs = split_on(chars_of(data.as_str()).as_slice(), ',');
    let ghost fields = address_fields(tv@);
    proof {
        lemma_split_acc_len(seq![], data@, ',');
        assert(tv@ == str_trim_of(line@));
        assert(data@ == str_trim_of(tv@.subrange(9, tv@.len() as int)));
    }
    let set = addr_strip_chars();
    let mut j: usize = 1;
    while j < segs.len()
        invariant
            1 <= j <= segs@.len() || segs@.len() == 0,
            segs@.len() == fields.len() + 1,
            segs@.len() == pieces(data@, ',').len(),
            fields == address_fields(tv@),
            tv@ == str_trim_of(line@),
            seq_starts_with(tv@, "+CGPADDR:"@),
            forall|k: int| 0 <= k < segs@.len() ==> #[trigger] segs@[k]@ == pieces(data@, ',')[k],
            fields == pieces(data@, ',').drop_first(),
            set@ == addr_strip_set(),
            forall|k: int| 0 <= k < j - 1 ==> !valid_address(strip(#[trigger] fields[k], addr_strip_set())),
        decreases segs@.len() - j,
    {
        let clean = strip_chars(segs[j].as_slice(), set.as_slice());
        assert(pieces(data@, ',').drop_first()[j - 1] == pieces(data@, ',')[j as int]);
        assert(segs@[j as int]@ == fields[j - 1]);
        if is_valid_address(clean.as_slice()) {
            assert(valid_address(strip(address_fields(str_trim_of(line@))[j - 1], addr_strip_set())));
            return true;
        }
        j += 1;
    }
    false
}

/// Whether a `+CGPADDR` answer holds a usable address on some line.
pub fn has_valid_ip(data: &str) -> (r: bool)
    ensures
        r == has_ip_spec(data@),
{
    let lines = split_on(chars_of(data).as_slice(), '\n');
    let mut i: usize = 0;
    while i < lines.len()
        invariant
            i <= lines@.len(),
            lines@.len() == pieces(data@, '\n').len(),
            forall|k: int| 0 <= k < lines@.len() ==> #[trigger] lines@[k]@ == pieces(data@, '\n')[k],
            forall|k: int| 0 <= k < i ==> !line_has_ip(#[trigger] pieces(data@, '\n')[k]),
        decreases lines@.len() - i,
    {
        if line_reports_ip(lines[i].as_slice()) {
            return true;
        }
        i += 1;
    }
    false
}

/// What one IP check leads to.
#[derive(Debug, Clone, Copy, PartialEq, Eq, Structural)]
pub enum DialAction {
    /// Connected as before: nothing to do.
    Nothing,
    /// A rising edge: set up URC reporting, find the interface, apply the
    /// host network policy once.
    Setup,
    /// No address: dial.
    Dial,
}

/// Whether the supervisor last saw an address.
pub struct DialState {
    pub is_connected: bool,
}

impl DialState {
    pub fn new() -> (r: DialState)
        ensures
            !r.is_connected,
    {
        DialState { is_connected: false }
    }

    /// Records one IP check.
    pub fn on_ip_check(&mut self, has_ip: bool) -> (r: DialAction)
        ensures
            final(self).is_connected == has_ip,
            r == if !has_ip {
                DialAction::Dial
            } else if old(self).is_connected {
                DialAction::Nothing
            } else {
                DialAction::Setup
            },
    {
        if has_ip {
            if self.is_connected {
                DialAction::Nothing
            } else {
                self.is_connected = true;
                DialAction::Setup
            }
        } else {
            self.is_connected = false;
            DialAction::Dial
        }
    }
}

/// The URC-reporting setup sent on a rising edge.
pub fn setup_commands() -> (r: Vec<String>)
    ensures
        views(r@) == seq!["AT+CNMI=2,1,0,2,0"@, "AT+CMGF=0"@, "AT+CLIP=1"@],
{
    let mut r: Vec<String> = Vec::new();
    r.push(string_of(chars_of("AT+CNMI=2,1,0,2,0").as_slice()));
    r.push(string_of(chars_of("AT+CMGF=0").as_slice()));
    r.push(string_of(chars_of("AT+CLIP=1").as_slice()));
    assert(views(r@) =~= seq!["AT+CNMI=2,1,0,2,0"@, "AT+CMGF=0"@, "AT+CLIP=1"@]);
    r
}

/// The PDP type for `AT+CGDCONT`: IPV4V6, IPV6 or IP, from the configured
/// text read in upper case.
pub open spec fn pdp_type_spec(p: Seq<char>) -> Seq<char> {
    let u = upper_of(p);
    if seq_contains(u, "IPV4V6"@) {
        "IPV4V6"@
    } else if seq_contains(u, "IPV6"@) {
        "IPV6"@
    } else {
        "IP"@
    }
}

pub fn pdp_type_for(pdp_type: &str) -> (r: String)
    ensures
        r@ == pdp_type_spec(pdp_type@),
{
    let u = uppercase(pdp_type);
    let uv = chars_of(u.as_str());
    if contains(uv.as_slice(), chars_of("IPV4V6").as_slice()) {
        string_of(chars_of("IPV4V6").as_slice())
    } else if contains(uv.as_slice(), chars_of("IPV6").as_slice()) {
        string_of(chars_of("IPV6").as_slice())
    } else {
        string_of(chars_of("IP").as_slice())
    }
}

/// The dial sequence: the PDP context, then the activations that the
/// different modem families answer to.
pub fn dial_commands(pdp_type: &str) -> (r: Vec<String>)
    ensures
        views(r@) == seq![
            "AT+CGDCONT=1,\""@ + pdp_type_spec(pdp_type@) + "\",\"auto\""@,
            "AT+QNETDEVCTL=1,1,1"@,
            "AT+CGACT=1,1"@,
            "AT+CGACT=1,0"@,
        ],
{
    let t = pdp_type_for(pdp_type);
    let mut c = String::new();
    push_str(&mut c, "AT+CGDCONT=1,\"");
    push_str(&mut c, t.as_str());
    push_str(&mut c, "\",\"auto\"");
    let mut r: Vec<String> = Vec::new();
    r.push(c);
    r.push(string_of(chars_of("AT+QNETDEVCTL=1,1,1").as_slice()));
    r.push(string_of(chars_of("AT+CGACT=1,1").as_slice()));
    r.push(string_of(chars_of("AT+CGACT=1,0").as_slice()));
    assert(views(r@) =~= seq![
        "AT+CGDCONT=1,\""@ + pdp_type_spec(pdp_type@) + "\",\"auto\""@,
        "AT+QNETDEVCTL=1,1,1"@,
        "AT+CGACT=1,1"@,
        "AT+CGACT=1,0"@,
    ]);
    r
}

/// The interface to configure: the configured name unless it is empty or
/// `auto`, else the detected one, else `usb0`.
pub fn detect_modem_ifname(configured: &str, detected: Option<String>) -> (r: String)
    ensures
        configured@.len() > 0 && configured@ != "auto"@ ==> r@ == configured@,
        !(configured@.len() > 0 && configured@ != "auto"@) ==> r@ == match detected {
            Some(d) => d@,
            None => "usb0"@,
        },
{
    let cv = chars_of(configured);
    if cv.len() > 0 && !chars_eq(cv.as_slice(), chars_of("auto").as_slice()) {
        return string_of(cv.as_slice());
    }
    match detected {
        Some(d) => d,
        None => string_of(chars_of("usb0").as_slice()),
    }
}

/// An interface worth probing: not loopback, a bridge or a wireless one.
pub fn is_candidate_iface(name: &str) -> (r: bool)
    ensures
        r == !(name@ == "lo"@ || seq_starts_with(name@, "br-"@) || seq_starts_with(name@, "wl"@)
            || seq_starts_with(name@, "ra"@)),
{
    let n = chars_of(name);
    !(chars_eq(n.as_slice(), chars_of("lo").as_slice()) || starts_with(n.as_slice(), chars_of("br-").as_slice())
        || starts_with(n.as_slice(), chars_of("wl").as_slice()) || starts_with(
        n.as_slice(),
        chars_of("ra").as_slice(),
    ))
}

/// USB vendor IDs of cellular modem makers (Huawei MT5700, Quectel,
/// Fibocom, Huawei, ZTE, Qualcomm).
pub open spec fn modem_vendors() -> Seq<Seq<char>> {
    seq!["3466"@, "2c7c"@, "2cb7"@, "12d1"@, "19d2"@, "05c6"@]
}

/// Whether a USB vendor ID file's text names a modem maker.
pub fn is_modem_vendor(vid: &str) -> (r: bool)
    ensures
        r == modem_vendors().contains(lower_of(str_trim_of(vid@))),
{
    let t = trim_str(vid);
    let l = lowercase(t.as_str());
    let lv = chars_of(l.as_str());
    assert(t@ == str_trim_of(vid@));
    assert(l@ == lower_of(t@));
    assert(lv@ == lower_of(str_trim_of(vid@)));
    let known = vec![
        chars_of("3466"),
        chars_of("2c7c"),
        chars_of("2cb7"),
        chars_of("12d1"),
        chars_of("19d2"),
        chars_of("05c6"),
    ];
    let mut i: usize = 0;
    while i < known.len()
        invariant
            i <= known@.len(),
            known@.len() == 6,
            forall|k: int| 0 <= k < 6 ==> #[trigger] known@[k]@ == modem_vendors()[k],
            lv@ == lower_of(str_trim_of(vid@)),
            forall|k: int| 0 <= k < i ==> modem_vendors()[k] != lv@,
        decreases known@.len() - i,
    {
        if chars_eq(known[i].as_slice(), lv.as_slice()) {
            assert(modem_vendors()[i as int] == lv@);
            assert(modem_vendors().contains(lv@));
            assert(modem_vendors().contains(lower_of(str_trim_of(vid@))));
            return true;
        }
        i += 1;
    }
    proof {
        if modem_vendors().contains(lv@) {
            let k = choose|k: int| 0 <= k < 6 && modem_vendors()[k] == lv@;
        }
    }
    false
}

} // verus!
