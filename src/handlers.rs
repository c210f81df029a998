//! What the URC handlers read out of lines and responses, and what they do
//! with it. The handlers themselves run on the dispatch worker; here are
//! their grammars and decisions.
use vstd::prelude::*;
use crate::config::NotificationConfig;
use crate::text::{
    chars_of, occurs_at, pieces, push_chars, push_str, seq_starts_with, split_on, starts_with,
    str_trim_of, string_of, tail_from, trim_str, views, decimal, dec,
};

verus! {

/// The notification categories, each with its own enable flag.
#[derive(Debug, Clone, Copy, PartialEq, Eq, Structural)]
pub enum NotificationType {
    SMS,
    Call,
    MemoryFull,
    Signal,
}

/// A notification handed to the channels.
#[derive(Debug, Clone)]
pub struct NotificationMessage {
    pub sender: String,
    pub content: String,
    pub notification_type: NotificationType,
}

/// The notification settings that decide which categories go out; the
/// channels that deliver them live with the daemon.
pub struct NotificationManager {
    pub config: NotificationConfig,
}

impl NotificationManager {
    pub fn new(config: NotificationConfig) -> (r: NotificationManager)
        ensures
            r.config == config,
    {
        NotificationManager { config }
    }

    /// The message to hand to every channel, when its category is enabled.
    pub fn message_for(&self, sender: &str, content: &str, t: NotificationType) -> (r: Option<NotificationMessage>)
        ensures
            match r {
                Some(m) => should_notify_spec(self.config, t) && m.sender@ == sender@ && m.content@ == content@
                    && m.notification_type == t,
                None => !should_notify_spec(self.config, t),
            },
    {
        if should_notify(&self.config, t) {
            Some(NotificationMessage { sender: crate::text::text(sender), content: crate::text::text(content), notification_type: t })
        } else {
            None
        }
    }
}

pub open spec fn should_notify_spec(c: NotificationConfig, t: NotificationType) -> bool {
    match t {
        NotificationType::SMS => c.notify_sms,
        NotificationType::Call => c.notify_call,
        NotificationType::MemoryFull => c.notify_memory_full,
        NotificationType::Signal => c.notify_signal,
    }
}

/// Whether the configuration lets a notification of this category out.
pub fn should_notify(config: &NotificationConfig, t: NotificationType) -> (r: bool)
    ensures
        r == match t {
            NotificationType::SMS => config.notify_sms,
            NotificationType::Call => config.notify_call,
            NotificationType::MemoryFull => config.notify_memory_full,
            NotificationType::Signal => config.notify_signal,
        },
{
    match t {
        NotificationType::SMS => config.notify_sms,
        NotificationType::Call => config.notify_call,
        NotificationType::MemoryFull => config.notify_memory_full,
        NotificationType::Signal => config.notify_signal,
    }
}

pub open spec fn is_digit(c: char) -> bool {
    '0' <= c && c <= '9'
}

/// A word character of an SMS storage name: ASCII letter, digit or `_`.
pub open spec fn is_word(c: char) -> bool {
    is_digit(c) || ('a' <= c && c <= 'z') || ('A' <= c && c <= 'Z') || c == '_'
}

pub open spec fn is_space(c: char) -> bool {
    c == ' ' || c == '\t' || c == '\n' || c == '\r' || c == '\x0B' || c == '\x0C'
}

pub open spec fn is_not_quote(c: char) -> bool {
    c != '"'
}

/// The classes of characters that the grammars below run over.
#[derive(Debug, Clone, Copy, PartialEq, Eq, Structural)]
pub enum CharClass {
    Digit,
    Word,
    Space,
    NotQuote,
}

pub open spec fn in_class(k: CharClass, c: char) -> bool {
    match k {
        CharClass::Digit => is_digit(c),
        CharClass::Word => is_word(c),
        CharClass::Space => is_space(c),
        CharClass::NotQuote => is_not_quote(c),
    }
}

/// How many characters of class `k` follow one another from `i` on.
pub open spec fn run_len(l: Seq<char>, i: int, k: CharClass) -> int
    decreases l.len() - i,
{
    if 0 <= i < l.len() && in_class(k, l[i]) {
        1 + run_len(l, i + 1, k)
    } else {
        0
    }
}

proof fn lemma_run_len(l: Seq<char>, i: int, k: CharClass)
    requires
        0 <= i <= l.len(),
    ensures
        0 <= run_len(l, i, k) <= l.len() - i,
        forall|j: int| i <= j < i + run_len(l, i, k) ==> in_class(k, #[trigger] l[j]),
        i + run_len(l, i, k) < l.len() ==> !in_class(k, l[i + run_len(l, i, k)]),
    decreases l.len() - i,
{
    if i < l.len() && in_class(k, l[i]) {
        lemma_run_len(l, i + 1, k);
    }
}

fn class_has(k: CharClass, c: char) -> (r: bool)
    ensures
        r == in_class(k, c),
{
    match k {
        CharClass::Digit => '0' <= c && c <= '9',
        CharClass::Word => ('0' <= c && c <= '9') || ('a' <= c && c <= 'z') || ('A' <= c && c <= 'Z') || c == '_',
        CharClass::Space => c == ' ' || c == '\t' || c == '\n' || c == '\r' || c == '\x0B' || c == '\x0C',
        CharClass::NotQuote => c != '"',
    }
}

/// The length of the run of class `k` at `i`.
pub fn run_at(l: &[char], i: usize, k: CharClass) -> (r: usize)
    requires
        i <= l@.len(),
    ensures
        r == run_len(l@, i as int, k),
        i + r <= l@.len(),
        forall|j: int| i <= j < i + r ==> in_class(k, #[trigger] l@[j]),
{
    let mut j = i;
    proof {
        lemma_run_len(l@, i as int, k);
    }
    while j < l.len() && class_has(k, l[j])
        invariant
            i <= j <= l@.len(),
            run_len(l@, i as int, k) == (j - i) + run_len(l@, j as int, k),
        decreases l@.len() - j,
    {
        j += 1;
    }
    j - i
}

/// The SMS index in a `+CMTI: "<store>",<index>` notice starting at `p`.
pub open spec fn cmti_at(l: Seq<char>, p: int) -> Option<Seq<char>> {
    let q = p + 8;
    let w = run_len(l, q, CharClass::Word);
    let r = q + w;
    if w > 0 && r + 1 < l.len() && l[r] == '"' && l[r + 1] == ',' {
        let s = r + 2 + run_len(l, r + 2, CharClass::Space);
        let d = run_len(l, s, CharClass::Digit);
        if d > 0 {
            Some(l.subrange(s, s + d))
        } else {
            None
        }
    } else {
        None
    }
}

pub open spec fn occurs(l: Seq<char>, p: int, n: Seq<char>) -> bool {
    0 <= p && p + n.len() <= l.len() && l.subrange(p, p + n.len()) == n
}

/// The first notice from position `p` on.
pub open spec fn cmti_from(l: Seq<char>, p: int) -> Option<Seq<char>>
    decreases l.len() - p,
{
    if p < 0 || p >= l.len() {
        None
    } else if occurs(l, p, "+CMTI: \""@) && cmti_at(l, p) is Some {
        cmti_at(l, p)
    } else {
        cmti_from(l, p + 1)
    }
}

fn copy_chars(l: &[char], from: usize, to: usize) -> (r: Vec<char>)
    requires
        from <= to <= l@.len(),
    ensures
        r@ == l@.subrange(from as int, to as int),
{
    let mut out: Vec<char> = Vec::new();
    let mut k = from;
    while k < to
        invariant
            from <= k <= to <= l@.len(),
            out@ == l@.subrange(from as int, k as int),
        decreases to - k,
    {
        out.push(l[k]);
        assert(l@.subrange(from as int, k as int).push(l@[k as int]) == l@.subrange(from as int, k + 1));
        k += 1;
    }
    out
}

pub open spec fn opt_chars(o: Option<Vec<char>>) -> Option<Seq<char>> {
    match o {
        Some(v) => Some(v@),
        None => None,
    }
}

fn cmti_candidate(l: &[char], p: usize) -> (r: Option<Vec<char>>)
    requires
        p + 8 <= l@.len(),
    ensures
        opt_chars(r) == cmti_at(l@, p as int),
{
    let len = l.len();
    let q = p + 8;
    let w = run_at(l, q, CharClass::Word);
    let r = q + w;
    if w > 0 && l.len() - r > 1 && l[r] == '"' && l[r + 1] == ',' {
        let sp = run_at(l, r + 2, CharClass::Space);
        let s = r + 2 + sp;
        let d = run_at(l, s, CharClass::Digit);
        if d > 0 {
            return Some(copy_chars(l, s, s + d));
        }
    }
    None
}

/// The SMS index that a `+CMTI:` line announces.
pub fn cmti_index(line: &str) -> (r: Option<String>)
    ensures
        match r {
            Some(s) => cmti_from(line@, 0) == Some(s@),
            None => cmti_from(line@, 0) is None,
        },
{
    let l = chars_of(line);
    let pat = chars_of("+CMTI: \"");
    proof {
        reveal_strlit("+CMTI: \"");
    }
    let mut p: usize = 0;
    while p < l.len()
        invariant
            p <= l@.len(),
            pat@ == "+CMTI: \""@,
            pat@.len() == 8,
            l@ == line@,
            cmti_from(l@, 0) == cmti_from(l@, p as int),
        decreases l@.len() - p,
    {
        if occurs_at(l.as_slice(), pat.as_slice(), p) {
            match cmti_candidate(l.as_slice(), p) {
                Some(v) => {
                    return Some(string_of(v.as_slice()));
                },
                None => {},
            }
        }
        p += 1;
    }
    None
}

/// The caller's number in a `+CLIP: "<number>"` line starting at `p`.
pub open spec fn clip_at(l: Seq<char>, p: int) -> Option<Seq<char>> {
    let q = p + 8;
    let n = run_len(l, q, CharClass::NotQuote);
    if n > 0 && q + n < l.len() {
        Some(l.subrange(q, q + n))
    } else {
        None
    }
}

pub open spec fn clip_from(l: Seq<char>, p: int) -> Option<Seq<char>>
    decreases l.len() - p,
{
    if p < 0 || p >= l.len() {
        None
    } else if occurs(l, p, "+CLIP: \""@) && clip_at(l, p) is Some {
        clip_at(l, p)
    } else {
        clip_from(l, p + 1)
    }
}

fn clip_candidate(l: &[char], p: usize) -> (r: Option<Vec<char>>)
    requires
        p + 8 <= l@.len(),
    ensures
        opt_chars(r) == clip_at(l@, p as int),
{
    let len = l.len();
    let q = p + 8;
    let n = run_at(l, q, CharClass::NotQuote);
    if n > 0 && q + n < l.len() {
        return Some(copy_chars(l, q, q + n));
    }
    None
}

/// The caller's number that a `+CLIP:` line carries.
pub fn clip_number(line: &str) -> (r: Option<String>)
    ensures
        match r {
            Some(s) => clip_from(line@, 0) == Some(s@),
            None => clip_from(line@, 0) is None,
        },
{
    let l = chars_of(line);
    let pat = chars_of("+CLIP: \"");
    proof {
        reveal_strlit("+CLIP: \"");
    }
    let mut p: usize = 0;
    while p < l.len()
        invariant
            p <= l@.len(),
            pat@ == "+CLIP: \""@,
            pat@.len() == 8,
            l@ == line@,
            clip_from(l@, 0) == clip_from(l@, p as int),
        decreases l@.len() - p,
    {
        if occurs_at(l.as_slice(), pat.as_slice(), p) {
            match clip_candidate(l.as_slice(), p) {
                Some(v) => {
                    return Some(string_of(v.as_slice()));
                },
                None => {},
            }
        }
        p += 1;
    }
    None
}

pub open spec fn is_hex_char(c: char) -> bool {
    is_digit(c) || ('a' <= c && c <= 'f') || ('A' <= c && c <= 'F')
}

/// A response line that holds a PDU: more than 10 hex digits and nothing
/// else.
pub open spec fn is_pdu_text(t: Seq<char>) -> bool {
    t.len() > 10 && forall|i: int| 0 <= i < t.len() ==> is_hex_char(#[trigger] t[i])
}

/// The last line (trimmed) among the first `n` that holds a PDU.
pub open spec fn last_pdu(ls: Seq<Seq<char>>, n: int) -> Option<Seq<char>>
    decreases n,
{
    if n <= 0 {
        None
    } else if is_pdu_text(str_trim_of(ls[n - 1])) {
        Some(str_trim_of(ls[n - 1]))
    } else {
        last_pdu(ls, n - 1)
    }
}

fn is_pdu_line(t: &[char]) -> (r: bool)
    ensures
        r == is_pdu_text(t@),
{
    if t.len() <= 10 {
        return false;
    }
    let mut i: usize = 0;
    while i < t.len()
        invariant
            i <= t@.len(),
            forall|k: int| 0 <= k < i ==> is_hex_char(#[trigger] t@[k]),
        decreases t@.len() - i,
    {
        let c = t[i];
        if !(('0' <= c && c <= '9') || ('a' <= c && c <= 'f') || ('A' <= c && c <= 'F')) {
            return false;
        }
        i += 1;
    }
    true
}

/// The PDU in a `+CMGR` response: the last line that is a long hex string.
pub fn find_pdu(data: &str) -> (r: Option<String>)
    ensures
        match r {
            Some(s) => last_pdu(pieces(data@, '\n'), pieces(data@, '\n').len() as int) == Some(s@),
            None => last_pdu(pieces(data@, '\n'), pieces(data@, '\n').len() as int) is None,
        },
{
    let lines = split_on(chars_of(data).as_slice(), '\n');
    let ghost ls = pieces(data@, '\n');
    let mut n = lines.len();
    while n > 0
        invariant
            n <= lines@.len(),
            lines@.len() == ls.len(),
            ls == pieces(data@, '\n'),
            forall|k: int| 0 <= k < lines@.len() ==> #[trigger] lines@[k]@ == ls[k],
            last_pdu(ls, ls.len() as int) == last_pdu(ls, n as int),
        decreases n,
    {
        let t = trim_str(string_of(lines[n - 1].as_slice()).as_str());
        let tv = chars_of(t.as_str());
        if is_pdu_line(tv.as_slice()) {
            return Some(t);
        }
        n -= 1;
    }
    None
}

/// A field's text: ASCII digits, with at most a `-` in front.
pub open spec fn numeric_shape(f: Seq<char>) -> bool {
    forall|j: int| 0 <= j < f.len() ==> (is_digit(#[trigger] f[j]) || (j == 0 && f[j] == '-'))
}

/// Where a numeric field that starts at `i` ends (a `-` first when it may
/// be negative, then one or more digits), or -1 when none stands there.
pub open spec fn field_end(l: Seq<char>, i: int, signed: bool) -> int {
    let s = if signed && 0 <= i < l.len() && l[i] == '-' {
        i + 1
    } else {
        i
    };
    let d = run_len(l, s, CharClass::Digit);
    if d > 0 {
        s + d
    } else {
        -1
    }
}

/// The seven comma-separated fields of a `^MONSC:` record from field `n`
/// on, starting at `i`; the last three may be negative.
pub open spec fn fields_from(l: Seq<char>, i: int, n: nat) -> Option<Seq<Seq<char>>>
    decreases 7 - n,
{
    if n >= 7 {
        Some(seq![])
    } else {
        let e = field_end(l, i, n >= 4);
        if e < 0 {
            None
        } else if n == 6 {
            Some(seq![l.subrange(i, e)])
        } else if e < l.len() && l[e] == ',' {
            match fields_from(l, e + 1, n + 1) {
                Some(rest) => Some(seq![l.subrange(i, e)] + rest),
                None => None,
            }
        } else {
            None
        }
    }
}

/// The fields of the first record announced by `pat` from `p` on.
pub open spec fn record_from(l: Seq<char>, p: int, pat: Seq<char>) -> Option<Seq<Seq<char>>>
    decreases l.len() - p,
{
    if p < 0 || p >= l.len() {
        None
    } else if occurs(l, p, pat) && fields_from(l, p + pat.len(), 0) is Some {
        fields_from(l, p + pat.len(), 0)
    } else {
        record_from(l, p + 1, pat)
    }
}

fn field_end_at(l: &[char], i: usize, signed: bool) -> (r: Option<usize>)
    requires
        i <= l@.len(),
    ensures
        match r {
            Some(e) => field_end(l@, i as int, signed) == e && i < e <= l@.len() && numeric_shape(
                l@.subrange(i as int, e as int),
            ),
            None => field_end(l@, i as int, signed) == -1,
        },
{
    let len = l.len();
    let s = if signed && i < len && l[i] == '-' {
        i + 1
    } else {
        i
    };
    let d = run_at(l, s, CharClass::Digit);
    if d > 0 {
        proof {
            let f = l@.subrange(i as int, (s + d) as int);
            assert forall|j: int| 0 <= j < f.len() implies (is_digit(#[trigger] f[j]) || (j == 0 && f[j] == '-')) by {
                assert(f[j] == l@[i + j]);
                if i + j >= s {
                    assert(in_class(CharClass::Digit, l@[i + j]));
                }
            }
        }
        Some(s + d)
    } else {
        None
    }
}

fn fields_at(l: &[char], start: usize) -> (r: Option<Vec<String>>)
    requires
        start <= l@.len(),
    ensures
        match r {
            Some(v) => fields_from(l@, start as int, 0) == Some(views(v@)) && v@.len() == 7 && forall|k: int|
                0 <= k < 7 ==> numeric_shape(#[trigger] v@[k]@),
            None => fields_from(l@, start as int, 0) is None,
        },
{
    let mut out: Vec<String> = Vec::new();
    let mut i = start;
    let mut n: usize = 0;
    while n < 7
        invariant
            n <= 7,
            i <= l@.len(),
            out@.len() == n,
            forall|k: int| 0 <= k < n ==> numeric_shape(#[trigger] out@[k]@),
            n < 7 ==> match fields_from(l@, i as int, n as nat) {
                Some(rest) => fields_from(l@, start as int, 0) == Some(views(out@) + rest),
                None => fields_from(l@, start as int, 0) is None,
            },
            n == 7 ==> fields_from(l@, start as int, 0) == Some(views(out@)),
        decreases 7 - n,
    {
        match field_end_at(l, i, n >= 4) {
            None => {
                return None;
            },
            Some(e) => {
                let piece = string_of(copy_chars(l, i, e).as_slice());
                let ghost before = views(out@);
                if n == 6 {
                    out.push(piece);
                    assert(views(out@) == before + seq![l@.subrange(i as int, e as int)]);
                    n = 7;
                } else if e < l.len() && l[e] == ',' {
                    proof {
                        match fields_from(l@, e + 1, (n + 1) as nat) {
                            Some(rest) => {
                                assert(before + (seq![l@.subrange(i as int, e as int)] + rest) == before.push(
                                    l@.subrange(i as int, e as int),
                                ) + rest);
                            },
                            None => {},
                        }
                    }
                    out.push(piece);
                    assert(views(out@) == before.push(l@.subrange(i as int, e as int)));
                    i = e + 1;
                    n += 1;
                } else {
                    return None;
                }
            },
        }
    }
    Some(out)
}

fn record_in(l: &[char], pat: &[char]) -> (r: Option<Vec<String>>)
    ensures
        match r {
            Some(v) => record_from(l@, 0, pat@) == Some(views(v@)) && v@.len() == 7 && forall|k: int|
                0 <= k < 7 ==> numeric_shape(#[trigger] v@[k]@),
            None => record_from(l@, 0, pat@) is None,
        },
{
    let mut p: usize = 0;
    while p < l.len()
        invariant
            p <= l@.len(),
            record_from(l@, 0, pat@) == record_from(l@, p as int, pat@),
        decreases l@.len() - p,
    {
        if occurs_at(l, pat, p) {
            match fields_at(l, p + pat.len()) {
                Some(v) => {
                    return Some(v);
                },
                None => {},
            }
        }
        p += 1;
    }
    None
}

/// The value of a run of ASCII digits.
pub open spec fn digits_value(t: Seq<char>) -> int
    decreases t.len(),
{
    if t.len() == 0 {
        0
    } else {
        digits_value(t.drop_last()) * 10 + (t.last() as int - 48)
    }
}

/// A field read as `i32`, as `str::parse::<i32>().unwrap_or(0)` does with
/// digits and an optional `-`: 0 when the value does not fit.
pub open spec fn field_i32(t: Seq<char>) -> i32 {
    let v = if t.len() > 0 && t[0] == '-' {
        -digits_value(t.drop_first())
    } else {
        digits_value(t)
    };
    if i32::MIN <= v <= i32::MAX {
        v as i32
    } else {
        0
    }
}

proof fn lemma_digits_value_nonneg(t: Seq<char>)
    requires
        forall|i: int| 0 <= i < t.len() ==> is_digit(#[trigger] t[i]),
    ensures
        digits_value(t) >= 0,
    decreases t.len(),
{
    if t.len() > 0 {
        lemma_digits_value_nonneg(t.drop_last());
        assert(is_digit(t[t.len() - 1]));
    }
}

/// Reads a field made of an optional `-` and ASCII digits.
pub fn parse_field_i32(t: &[char]) -> (r: i32)
    requires
        numeric_shape(t@),
    ensures
        r == field_i32(t@),
{
    let neg = t.len() > 0 && t[0] == '-';
    let start: usize = if neg {
        1
    } else {
        0
    };
    let ghost ds = t@.subrange(start as int, t@.len() as int);
    let mut acc: u64 = 0;
    let mut big = false;
    let mut i = start;
    while i < t.len()
        invariant
            start <= i <= t@.len(),
            ds == t@.subrange(start as int, t@.len() as int),
            start == 1 ==> t@[0] == '-',
            numeric_shape(t@),
            start == 0 ==> (t@.len() == 0 || t@[0] != '-'),
            !big ==> acc == digits_value(t@.subrange(start as int, i as int)) && acc <= 2147483648,
            big ==> digits_value(t@.subrange(start as int, i as int)) > 2147483648,
        decreases t@.len() - i,
    {
        let d = (t[i] as u32 - 48) as u64;
        proof {
            let pre = t@.subrange(start as int, i as int);
            assert(t@.subrange(start as int, i + 1).drop_last() == pre);
            assert(is_digit(t@[i as int]) || (i == 0 && t@[0] == '-'));
            assert(is_digit(t@[i as int]));
            assert forall|k: int| 0 <= k < pre.len() implies is_digit(#[trigger] pre[k]) by {
                assert(pre[k] == t@[start + k]);
                assert(is_digit(t@[start + k]) || (start + k == 0 && t@[0] == '-'));
            }
            lemma_digits_value_nonneg(pre);
        }
        if !big {
            let next = acc * 10 + d;
            if next > 2147483648 {
                big = true;
            } else {
                acc = next;
            }
        }
        i += 1;
    }
    proof {
        assert(t@.subrange(start as int, t@.len() as int) == ds);
        if neg {
            assert(t@.drop_first() == ds);
        } else {
            assert(ds == t@);
        }
    }
    if big {
        return 0;
    }
    if neg {
        (0 - acc as i64) as i32
    } else if acc <= 2147483647 {
        acc as i32
    } else {
        0
    }
}

/// Which radio a `^MONSC` record is about.
#[derive(Debug, Clone, Copy, PartialEq, Eq, Structural)]
pub enum Rat {
    Nr,
    Lte,
}

/// Serving-cell figures from `AT^MONSC`: ARFCN and PCI as written, RSRP and
/// RSRQ, and SINR (NR) or RSSI (LTE).
pub struct SignalReport {
    pub rat: Rat,
    pub arfcn: String,
    pub pci: String,
    pub rsrp: i32,
    pub rsrq: i32,
    pub quality: i32,
}

/// The record of a `^MONSC` answer: the NR one if any, else the LTE one.
pub open spec fn monsc_fields(data: Seq<char>) -> Option<(Rat, Seq<Seq<char>>)> {
    match record_from(data, 0, "^MONSC: NR,"@) {
        Some(f) => Some((Rat::Nr, f)),
        None => match record_from(data, 0, "^MONSC: LTE,"@) {
            Some(f) => Some((Rat::Lte, f)),
            None => None,
        },
    }
}


/// An integer in decimal, with a `-` when negative.
pub open spec fn int_text(v: int) -> Seq<char> {
    if v < 0 {
        "-"@ + dec((-v) as nat)
    } else {
        dec(v as nat)
    }
}

fn push_int(out: &mut String, v: i32)
    ensures
        final(out)@ == old(out)@ + int_text(v as int),
{
    if v < 0 {
        push_str(out, "-");
        let m = (0 - (v as i64)) as u64;
        push_chars(out, decimal(m).as_slice());
    } else {
        push_chars(out, decimal(v as u64).as_slice());
    }
}

/// The notification text for a serving-cell record.
pub open spec fn signal_message(rat: Rat, f: Seq<Seq<char>>) -> Seq<char> {
    match rat {
        Rat::Nr => "\u{1f4f6} 5G Signal Info\nRAT: NR\nARFCN: "@ + f[1] + "\nPCI: "@ + f[2] + "\nRSRP: "@ + int_text(
            field_i32(f[4]) as int,
        ) + " dBm\nRSRQ: "@ + int_text(field_i32(f[5]) as int) + " dB\nSINR: "@ + int_text(field_i32(f[6]) as int)
            + " dB"@,
        Rat::Lte => "\u{1f4f6} 4G Signal Info\nRAT: LTE\nARFCN: "@ + f[1] + "\nPCI: "@ + f[2] + "\nRSRP: "@ + int_text(
            field_i32(f[4]) as int,
        ) + " dBm\nRSRQ: "@ + int_text(field_i32(f[5]) as int) + " dB\nRSSI: "@ + int_text(field_i32(f[6]) as int)
            + " dBm"@,
    }
}

/// RSRP (dBm) below which the signal counts as very poor, by default.
pub const DEFAULT_RSRP_LOW: i32 = -110;

/// RSRP (dBm) above which the signal counts as excellent, by default.
pub const DEFAULT_RSRP_HIGH: i32 = -60;

/// The signal is worth a notification when RSRP lies below `low` or above
/// `high`.
pub open spec fn signal_alert_spec(data: Seq<char>, low: i32, high: i32) -> Option<Seq<char>> {
    match monsc_fields(data) {
        Some((rat, f)) => if field_i32(f[4]) < low || field_i32(f[4]) > high {
            Some(signal_message(rat, f))
        } else {
            None
        },
        None => None,
    }
}

fn monsc_record(data: &str) -> (r: Option<(Rat, Vec<String>)>)
    ensures
        match r {
            Some((rat, v)) => monsc_fields(data@) == Some((rat, views(v@))) && v@.len() == 7 && forall|k: int|
                0 <= k < 7 ==> numeric_shape(#[trigger] v@[k]@),
            None => monsc_fields(data@) is None,
        },
{
    let l = chars_of(data);
    match record_in(l.as_slice(), chars_of("^MONSC: NR,").as_slice()) {
        Some(v) => Some((Rat::Nr, v)),
        None => match record_in(l.as_slice(), chars_of("^MONSC: LTE,").as_slice()) {
            Some(v) => Some((Rat::Lte, v)),
            None => None,
        },
    }
}

/// The serving-cell record of an `AT^MONSC` answer.
pub fn parse_monsc(data: &str) -> (r: Option<SignalReport>)
    ensures
        match monsc_fields(data@) {
            Some((rat, f)) => r is Some && r->Some_0.rat == rat && r->Some_0.arfcn@ == f[1] && r->Some_0.pci@ == f[2]
                && r->Some_0.rsrp == field_i32(f[4]) && r->Some_0.rsrq == field_i32(f[5]) && r->Some_0.quality
                == field_i32(f[6]),
            None => r is None,
        },
{
    match monsc_record(data) {
        Some((rat, v)) => Some(
            SignalReport {
                rat,
                arfcn: v[1].clone(),
                pci: v[2].clone(),
                rsrp: parse_field_i32(chars_of(v[4].as_str()).as_slice()),
                rsrq: parse_field_i32(chars_of(v[5].as_str()).as_slice()),
                quality: parse_field_i32(chars_of(v[6].as_str()).as_slice()),
            },
        ),
        None => None,
    }
}

/// The notification text for an `AT^MONSC` answer, when RSRP crosses one of
/// the configured extremes.
pub fn signal_alert(data: &str, low: i32, high: i32) -> (r: Option<String>)
    ensures
        opt_string(r) == signal_alert_spec(data@, low, high),
{
    match monsc_record(data) {
        Some((rat, v)) => {
            let rsrp = parse_field_i32(chars_of(v[4].as_str()).as_slice());
            if !(rsrp < low || rsrp > high) {
                return None;
            }
            let rsrq = parse_field_i32(chars_of(v[5].as_str()).as_slice());
            let q = parse_field_i32(chars_of(v[6].as_str()).as_slice());
            let mut m = String::new();
            match rat {
                Rat::Nr => push_str(&mut m, "\u{1f4f6} 5G Signal Info\nRAT: NR\nARFCN: "),
                Rat::Lte => push_str(&mut m, "\u{1f4f6} 4G Signal Info\nRAT: LTE\nARFCN: "),
            }
            push_str(&mut m, v[1].as_str());
            push_str(&mut m, "\nPCI: ");
            push_str(&mut m, v[2].as_str());
            push_str(&mut m, "\nRSRP: ");
            push_int(&mut m, rsrp);
            push_str(&mut m, " dBm\nRSRQ: ");
            push_int(&mut m, rsrq);
            match rat {
                Rat::Nr => {
                    push_str(&mut m, " dB\nSINR: ");
                    push_int(&mut m, q);
                    push_str(&mut m, " dB");
                },
                Rat::Lte => {
                    push_str(&mut m, " dB\nRSSI: ");
                    push_int(&mut m, q);
                    push_str(&mut m, " dBm");
                },
            }
            Some(m)
        },
        None => None,
    }
}

pub open spec fn opt_string(o: Option<String>) -> Option<Seq<char>> {
    match o {
        Some(s) => Some(s@),
        None => None,
    }
}

/// The trimmed comma-separated fields after `^PDCPDATAINFO:`, when the line
/// starts so and has at least 14 of them.
pub open spec fn pdcp_spec(l: Seq<char>) -> Option<Seq<Seq<char>>> {
    let f = pieces(l.subrange(14, l.len() as int), ',').map_values(|p: Seq<char>| str_trim_of(p));
    if seq_starts_with(l, "^PDCPDATAINFO:"@) && f.len() >= 14 {
        Some(f)
    } else {
        None
    }
}

/// The fields of a `^PDCPDATAINFO:` line: id, PDU session id, discard
/// timer, delays (average, min, max), queue buffer times and packet counts,
/// uplink/downlink rates and discard counters.
pub fn pdcp_fields(line: &str) -> (r: Option<Vec<String>>)
    ensures
        match pdcp_spec(line@) {
            Some(f) => r is Some && views(r->Some_0@) == f,
            None => r is None,
        },
{
    let l = chars_of(line);
    if !starts_with(l.as_slice(), chars_of("^PDCPDATAINFO:").as_slice()) {
        return None;
    }
    proof {
        reveal_strlit("^PDCPDATAINFO:");
    }
    let rest = tail_from(l.as_slice(), 14);
    let ps = split_on(rest.as_slice(), ',');
    let ghost f = pieces(l@.subrange(14, l@.len() as int), ',').map_values(|p: Seq<char>| str_trim_of(p));
    if ps.len() < 14 {
        return None;
    }
    let mut out: Vec<String> = Vec::new();
    let mut i: usize = 0;
    while i < ps.len()
        invariant
            i <= ps@.len(),
            ps@.len() == f.len(),
            rest@ == l@.subrange(14, l@.len() as int),
            f == pieces(rest@, ',').map_values(|p: Seq<char>| str_trim_of(p)),
            forall|k: int| 0 <= k < ps@.len() ==> #[trigger] ps@[k]@ == pieces(rest@, ',')[k],
            views(out@) == f.subrange(0, i as int),
        decreases ps@.len() - i,
    {
        let t = trim_str(string_of(ps[i].as_slice()).as_str());
        assert(f[i as int] == str_trim_of(pieces(rest@, ',')[i as int]));
        assert(t@ == f[i as int]);
        let ghost before = out@;
        out.push(t);
        assert(views(out@) =~= views(before).push(f[i as int]));
        assert(views(out@) =~= f.subrange(0, i + 1));
        i += 1;
    }
    assert(f.subrange(0, ps@.len() as int) == f);
    Some(out)
}

} // verus!
