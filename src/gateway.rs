//! The UI gateway's part of the command path: control words, command
//! sanitising, and the echo stripping applied to responses.
use vstd::prelude::*;
use crate::models::{ATResponse, ResponseView, opt_view};
use crate::text::{
    chars_eq, chars_of, join, pieces, push_char, push_chars, push_str, seq_contains, seq_starts_with,
    split_on, starts_with, contains, str_trim_of, strip, strip_chars, string_of, trim_str, views,
};

verus! {

/// What a client's text message asks for.
pub enum ClientRequest {
    /// The heartbeat `ping`: answer `pong`.
    Pong,
    /// `AT+CONNECT?`: answered locally.
    ConnectQuery,
    /// `GET_SYS_LOGS`: send the log file.
    GetLogs,
    /// `CLEAR_SYS_LOGS`: truncate the log file.
    ClearLogs,
    /// A modem command to submit, already sanitised.
    Submit(String),
}

/// `s` without CR and LF characters.
pub open spec fn drop_crlf(s: Seq<char>) -> Seq<char> {
    s.filter(|c: char| c != '\n' && c != '\r')
}

/// `s` with every `OK` taken out, left to right, as `str::replace` does.
pub open spec fn drop_ok(s: Seq<char>) -> Seq<char>
    decreases s.len(),
{
    if s.len() == 0 {
        seq![]
    } else if s.len() >= 2 && s[0] == 'O' && s[1] == 'K' {
        drop_ok(s.subrange(2, s.len() as int))
    } else {
        seq![s[0]] + drop_ok(s.drop_first())
    }
}

/// The band setting with an empty trailing pair (`,"",""`) rebuilt from
/// its first five fields, the fifth unquoted and quoted again.
pub open spec fn rebuild_syscfgex(c: Seq<char>) -> Seq<char> {
    let p = pieces(c, ',');
    if seq_contains(c, ",\"\",\""@ + "\""@) && p.len() >= 5 {
        p[0] + ","@ + p[1] + ","@ + p[2] + ","@ + p[3] + ",\""@ + strip(p[4], seq!['"']) + "\",\"\",\"\""@
    } else {
        c
    }
}

/// `AT^SYSCFGEX` commands lose CR, LF and `OK`, get their band field
/// rebuilt, and end in CR; other commands pass as they are.
pub open spec fn sanitize_spec(c: Seq<char>) -> Seq<char> {
    if seq_starts_with(c, "AT^SYSCFGEX"@) {
        rebuild_syscfgex(drop_ok(drop_crlf(c))).push('\r')
    } else {
        c
    }
}

fn without_crlf(s: &[char]) -> (r: Vec<char>)
    ensures
        r@ == drop_crlf(s@),
{
    let mut r: Vec<char> = Vec::new();
    let mut i: usize = 0;
    while i < s.len()
        invariant
            i <= s@.len(),
            r@ == drop_crlf(s@.subrange(0, i as int)),
        decreases s@.len() - i,
    {
        proof {
            reveal(Seq::filter);
            assert(s@.subrange(0, i + 1).drop_last() == s@.subrange(0, i as int));
        }
        if s[i] != '\n' && s[i] != '\r' {
            r.push(s[i]);
        }
        i += 1;
    }
    assert(s@.subrange(0, s@.len() as int) == s@);
    r
}

fn without_ok(s: &[char]) -> (r: Vec<char>)
    ensures
        r@ == drop_ok(s@),
{
    let mut r: Vec<char> = Vec::new();
    let mut i: usize = 0;
    assert(s@.subrange(0, s@.len() as int) == s@);
    while i < s.len()
        invariant
            i <= s@.len(),
            drop_ok(s@) == r@ + drop_ok(s@.subrange(i as int, s@.len() as int)),
        decreases s@.len() - i,
    {
        let ghost rest = s@.subrange(i as int, s@.len() as int);
        if s.len() - i >= 2 && s[i] == 'O' && s[i + 1] == 'K' {
            assert(rest.subrange(2, rest.len() as int) == s@.subrange(i + 2, s@.len() as int));
            i += 2;
        } else {
            assert(rest.drop_first() == s@.subrange(i + 1, s@.len() as int));
            assert(r@ + (seq![s@[i as int]] + drop_ok(rest.drop_first())) == r@.push(s@[i as int]) + drop_ok(
                rest.drop_first(),
            ));
            r.push(s[i]);
            i += 1;
        }
    }
    assert(s@.subrange(s@.len() as int, s@.len() as int) == Seq::<char>::empty());
    assert(r@ + Seq::<char>::empty() == r@);
    r
}

/// Sanitises a command from the UI before it is submitted.
pub fn sanitize_command(cmd: &str) -> (r: String)
    ensures
        r@ == sanitize_spec(cmd@),
{
    let c = chars_of(cmd);
    if !starts_with(c.as_slice(), chars_of("AT^SYSCFGEX").as_slice()) {
        return string_of(c.as_slice());
    }
    let a = without_crlf(c.as_slice());
    let b = without_ok(a.as_slice());
    let mut out = String::new();
    let p = split_on(b.as_slice(), ',');
    if contains(b.as_slice(), chars_of(",\"\",\"\"").as_slice()) && p.len() >= 5 {
        proof {
            assert(",\"\",\""@ + "\""@ == ",\"\",\"\""@) by {
                reveal_strlit(",\"\",\"");
                reveal_strlit("\"");
                reveal_strlit(",\"\",\"\"");
            }
        }
        push_chars(&mut out, p[0].as_slice());
        push_str(&mut out, ",");
        push_chars(&mut out, p[1].as_slice());
        push_str(&mut out, ",");
        push_chars(&mut out, p[2].as_slice());
        push_str(&mut out, ",");
        push_chars(&mut out, p[3].as_slice());
        push_str(&mut out, ",\"");
        let q = vec!['"'];
        let bands = strip_chars(p[4].as_slice(), q.as_slice());
        assert(q@ == seq!['"']);
        push_chars(&mut out, bands.as_slice());
        push_str(&mut out, "\",\"\",\"\"");
    } else {
        proof {
            assert(",\"\",\""@ + "\""@ == ",\"\",\"\""@) by {
                reveal_strlit(",\"\",\"");
                reveal_strlit("\"");
                reveal_strlit(",\"\",\"\"");
            }
        }
        push_chars(&mut out, b.as_slice());
    }
    push_char(&mut out, '\r');
    out
}

/// Reads one client message: the heartbeat, the locally answered words,
/// or a command (the JSON `command` field when the message had one, else
/// the text itself).
pub fn client_request(text: &str, json_command: Option<String>) -> (r: ClientRequest)
    ensures
        text@ == "ping"@ ==> r is Pong,
        text@ != "ping"@ ==> ({
            let c = match json_command {
                Some(j) => j@,
                None => text@,
            };
            &&& str_trim_of(c) == "AT+CONNECT?"@ ==> r is ConnectQuery
            &&& str_trim_of(c) == "GET_SYS_LOGS"@ ==> r is GetLogs
            &&& str_trim_of(c) == "CLEAR_SYS_LOGS"@ ==> r is ClearLogs
            &&& (str_trim_of(c) != "AT+CONNECT?"@ && str_trim_of(c) != "GET_SYS_LOGS"@ && str_trim_of(c)
                != "CLEAR_SYS_LOGS"@) ==> (r is Submit && r->Submit_0@ == sanitize_spec(c))
        }),
{
    proof {
        reveal_strlit("AT+CONNECT?");
        reveal_strlit("GET_SYS_LOGS");
        reveal_strlit("CLEAR_SYS_LOGS");
        assert("AT+CONNECT?"@.len() == 11);
        assert("GET_SYS_LOGS"@.len() == 12);
        assert("CLEAR_SYS_LOGS"@.len() == 14);
    }
    let tv = chars_of(text);
    if chars_eq(tv.as_slice(), chars_of("ping").as_slice()) {
        return ClientRequest::Pong;
    }
    let ghost c = match &json_command {
        Some(j) => j@,
        None => text@,
    };
    let cmd = match json_command {
        Some(j) => j,
        None => string_of(tv.as_slice()),
    };
    let t = trim_str(cmd.as_str());
    let t = chars_of(t.as_str());
    assert(cmd@ == c);
    assert(t@ == str_trim_of(c));
    if chars_eq(t.as_slice(), chars_of("AT+CONNECT?").as_slice()) {
        return ClientRequest::ConnectQuery;
    }
    if chars_eq(t.as_slice(), chars_of("GET_SYS_LOGS").as_slice()) {
        return ClientRequest::GetLogs;
    }
    if chars_eq(t.as_slice(), chars_of("CLEAR_SYS_LOGS").as_slice()) {
        return ClientRequest::ClearLogs;
    }
    ClientRequest::Submit(sanitize_command(cmd.as_str()))
}

/// The local answer to `AT+CONNECT?`: connected over the network.
pub fn connect_response() -> (r: ATResponse)
    ensures
        r@ == (ResponseView { success: true, data: Some("+CONNECT: 0\r\nOK"@), error: None }),
{
    ATResponse::ok(Some(string_of(chars_of("+CONNECT: 0\r\nOK").as_slice())))
}

/// A line as `str::lines` gives it: without a CR before its LF.
pub open spec fn line_body(p: Seq<char>) -> Seq<char> {
    if p.len() > 0 && p.last() == '\r' {
        p.drop_last()
    } else {
        p
    }
}

/// The lines of a response that stay once empty lines and echoes of the
/// command are dropped.
pub open spec fn kept_lines(data: Seq<char>, cmd: Seq<char>) -> Seq<Seq<char>> {
    pieces(data, '\n').map_values(|p: Seq<char>| line_body(p)).filter(|l: Seq<char>| keep_line(l, cmd))
}

/// A response line that is neither blank nor the command's echo.
pub open spec fn keep_line(l: Seq<char>, cmd: Seq<char>) -> bool {
    str_trim_of(l).len() > 0 && str_trim_of(l) != str_trim_of(cmd)
}

/// A response body without echoes of the command and without empty lines,
/// the rest joined by CR LF.
pub fn strip_echo(data: &str, cmd: &str) -> (r: String)
    ensures
        r@ == join(kept_lines(data@, cmd@), "\r\n"@),
{
    let ps = split_on(chars_of(data).as_slice(), '\n');
    let ct = chars_of(trim_str(cmd).as_str());
    let ghost all = pieces(data@, '\n').map_values(|p: Seq<char>| line_body(p));
    let mut kept: Vec<String> = Vec::new();
    let mut i: usize = 0;
    while i < ps.len()
        invariant
            i <= ps@.len(),
            ps@.len() == pieces(data@, '\n').len(),
            forall|k: int| 0 <= k < ps@.len() ==> #[trigger] ps@[k]@ == pieces(data@, '\n')[k],
            all == pieces(data@, '\n').map_values(|p: Seq<char>| line_body(p)),
            ct@ == str_trim_of(cmd@),
            views(kept@) == all.subrange(0, i as int).filter(|l: Seq<char>| keep_line(l, cmd@)),
        decreases ps@.len() - i,
    {
        proof {
            reveal(Seq::filter);
            assert(all.subrange(0, i + 1).drop_last() == all.subrange(0, i as int));
        }
        let p = &ps[i];
        let n = p.len();
        let body = if n > 0 && p[n - 1] == '\r' {
            let mut v: Vec<char> = Vec::new();
            let mut k: usize = 0;
            while k < n - 1
                invariant
                    n == p@.len(),
                    n > 0,
                    k <= n - 1,
                    v@ == p@.subrange(0, k as int),
                decreases n - 1 - k,
            {
                v.push(p[k]);
                assert(p@.subrange(0, k as int).push(p@[k as int]) == p@.subrange(0, k + 1));
                k += 1;
            }
            assert(v@ == p@.drop_last());
            v
        } else {
            let mut v: Vec<char> = Vec::new();
            push_all(&mut v, p.as_slice());
            v
        };
        assert(body@ == all[i as int]);
        let line = string_of(body.as_slice());
        let t = chars_of(trim_str(line.as_str()).as_str());
        assert(line@ == all[i as int]);
        assert(keep_line(all[i as int], cmd@) == (t@.len() > 0 && t@ != ct@));
        if t.len() > 0 && !chars_eq(t.as_slice(), ct.as_slice()) {
            let ghost before = views(kept@);
            kept.push(line);
            assert(views(kept@) =~= before.push(all[i as int]));
        }
        i += 1;
    }
    assert(all.subrange(0, ps@.len() as int) == all);
    let mut out = String::new();
    push_joined_strings(&mut out, kept.as_slice());
    out
}

fn push_all(v: &mut Vec<char>, s: &[char])
    requires
        old(v)@.len() == 0,
    ensures
        final(v)@ == s@,
{
    let mut i: usize = 0;
    while i < s.len()
        invariant
            i <= s@.len(),
            v@ == s@.subrange(0, i as int),
        decreases s@.len() - i,
    {
        v.push(s[i]);
        assert(s@.subrange(0, i as int).push(s@[i as int]) == s@.subrange(0, i + 1));
        i += 1;
    }
    assert(s@.subrange(0, s@.len() as int) == s@);
}

fn push_joined_strings(out: &mut String, xs: &[String])
    ensures
        final(out)@ == old(out)@ + join(views(xs@), "\r\n"@),
{
    crate::text::push_joined(out, xs, "\r\n");
}

/// The reply that the gateway sends for a submitted command: the response
/// with its body stripped of echoes and empty lines.
pub fn gateway_reply(resp: &ATResponse, cmd: &str) -> (r: ATResponse)
    ensures
        r.success == resp.success,
        r.error == resp.error,
        opt_view(r.data) == match resp.data {
            Some(d) => Some(join(kept_lines(d@, cmd@), "\r\n"@)),
            None => None,
        },
{
    let data = match &resp.data {
        Some(d) => Some(strip_echo(d.as_str(), cmd)),
        None => None,
    };
    ATResponse { success: resp.success, data, error: resp.error.clone() }
}

/// Whether the key a client sent opens the session.
pub fn auth_accepts(expected: &str, provided: Option<String>) -> (r: bool)
    ensures
        r == match provided {
            Some(p) => p@ == expected@,
            None => false,
        },
{
    match provided {
        Some(p) => chars_eq(chars_of(p.as_str()).as_slice(), chars_of(expected).as_slice()),
        None => false,
    }
}

} // verus!
