//! The multiplexer's decisions: what one command expects back, how each line
//! read during a transaction is routed, and what happens to lines read while
//! no command is in flight. The actor that owns the transport runs these.
use vstd::prelude::*;
use vstd::string::StrSliceExecFns;
use crate::framer::{drain_lines, frame_lines, frame_rest};
use crate::models::{ATResponse, error_view, ok_view};
use crate::text::{
    chars_eq, chars_of, contains, push_chars, seq_contains, seq_starts_with, starts_with,
    str_trim_of, string_of, trim_str, utf8_lossy_of, views,
};
use crate::urc::{is_urc, is_urc_line};

verus! {

/// Overall deadline of one transaction, in milliseconds.
pub const TRANSACTION_DEADLINE_MS: u64 = 10000;

/// Index of the first `?` or `=` in `s`, or its length.
pub open spec fn stop_index(s: Seq<char>) -> int
    decreases s.len(),
{
    if s.len() == 0 || s[0] == '?' || s[0] == '=' {
        0
    } else {
        1 + stop_index(s.drop_first())
    }
}

proof fn lemma_stop_index(s: Seq<char>)
    ensures
        0 <= stop_index(s) <= s.len(),
        stop_index(s) < s.len() ==> (s[stop_index(s)] == '?' || s[stop_index(s)] == '='),
        forall|k: int| 0 <= k < stop_index(s) ==> s[k] != '?' && s[k] != '=',
    decreases s.len(),
{
    if s.len() > 0 && s[0] != '?' && s[0] != '=' {
        lemma_stop_index(s.drop_first());
        assert forall|k: int| 0 <= k < stop_index(s) implies s[k] != '?' && s[k] != '=' by {
            if k > 0 {
                assert(s[k] == s.drop_first()[k - 1]);
            }
        }
    }
}

/// The response-line prefix that a command `AT<X>[?|=...]` expects: `<X>`;
/// empty for a command of another shape.
pub open spec fn expected_prefix_of(c: Seq<char>) -> Seq<char> {
    if seq_starts_with(c, "AT"@) {
        let core = c.subrange(2, c.len() as int);
        core.subrange(0, stop_index(core))
    } else {
        seq![]
    }
}

/// The expected response-line prefix of an already trimmed command.
pub fn expected_prefix(clean: &[char]) -> (r: Vec<char>)
    ensures
        r@ == expected_prefix_of(clean@),
{
    let at = chars_of("AT");
    if !starts_with(clean, at.as_slice()) {
        return Vec::new();
    }
    proof {
        reveal_strlit("AT");
    }
    let ghost core = clean@.subrange(2, clean@.len() as int);
    let mut r: Vec<char> = Vec::new();
    let mut i: usize = 2;
    while i < clean.len() && clean[i] != '?' && clean[i] != '='
        invariant
            2 <= i <= clean@.len(),
            core == clean@.subrange(2, clean@.len() as int),
            r@ == core.subrange(0, i - 2),
            forall|k: int| 0 <= k < i - 2 ==> core[k] != '?' && core[k] != '=',
        decreases clean@.len() - i,
    {
        r.push(clean[i]);
        assert(core.subrange(0, i - 2).push(core[i - 2]) == core.subrange(0, i - 1));
        i += 1;
    }
    proof {
        lemma_stop_index(core);
        let e = stop_index(core);
        if e < i - 2 {
            assert(core[e] == '?' || core[e] == '=');
        }
        if i - 2 < e {
            assert(core[i - 2] == clean@[i as int]);
        }
    }
    r
}

/// A line that the transaction hands to the URC bus instead of keeping: a
/// URC that does not start with the command's (non-empty) expected prefix.
pub open spec fn diverted(l: Seq<char>, prefix: Seq<char>) -> bool {
    is_urc_line(l) && !(prefix.len() > 0 && seq_starts_with(l, prefix))
}

/// Informational lines as they stand in a response body, each followed by
/// CR LF.
pub open spec fn render(lines: Seq<Seq<char>>) -> Seq<char>
    decreases lines.len(),
{
    if lines.len() == 0 {
        seq![]
    } else {
        render(lines.drop_last()) + lines.last() + "\r\n"@
    }
}

/// How one line read during a transaction was taken.
pub enum LineOutcome {
    /// A URC: forward it to the URC bus and the broadcast bus.
    Diverted,
    /// Kept in the body; the transaction goes on.
    Pending,
    /// The transaction is over with this response.
    Finished(ATResponse),
}

/// One command in flight: the prefix that its own response lines carry, the
/// informational lines kept so far, and whether it has been answered.
pub struct Transaction {
    prefix: Vec<char>,
    body: Vec<String>,
    done: bool,
}

impl Transaction {
    pub closed spec fn prefix_view(&self) -> Seq<char> {
        self.prefix@
    }

    pub closed spec fn body_view(&self) -> Seq<Seq<char>> {
        views(self.body@)
    }

    pub closed spec fn is_done(&self) -> bool {
        self.done
    }

    /// No kept line is one that should have been diverted.
    pub open spec fn wf(&self) -> bool {
        forall|i: int| 0 <= i < self.body_view().len() ==> !diverted(#[trigger] self.body_view()[i], self.prefix_view())
    }

    /// Opens the transaction for `cmd` (trimmed before use).
    pub fn new(cmd: &str) -> (r: Transaction)
        ensures
            r.prefix_view() == expected_prefix_of(str_trim_of(cmd@)),
            r.body_view() == Seq::<Seq<char>>::empty(),
            !r.is_done(),
            r.wf(),
    {
        let clean = trim_str(cmd);
        let cv = chars_of(clean.as_str());
        let t = Transaction { prefix: expected_prefix(cv.as_slice()), body: Vec::new(), done: false };
        assert(t.body_view() == Seq::<Seq<char>>::empty());
        t
    }

    fn render_body(&self) -> (r: String)
        ensures
            r@ == render(self.body_view()),
    {
        let mut r = String::new();
        let mut i: usize = 0;
        while i < self.body.len()
            invariant
                i <= self.body@.len(),
                r@ == render(self.body_view().subrange(0, i as int)),
            decreases self.body@.len() - i,
        {
            let line = chars_of(self.body[i].as_str());
            push_chars(&mut r, line.as_slice());
            let crlf = chars_of("\r\n");
            push_chars(&mut r, crlf.as_slice());
            assert(self.body_view().subrange(0, i + 1).drop_last() == self.body_view().subrange(0, i as int));
            i += 1;
        }
        assert(self.body_view().subrange(0, self.body@.len() as int) == self.body_view());
        r
    }

    /// Routes one line read while the command is in flight.
    pub fn on_line(&mut self, line: String) -> (r: LineOutcome)
        requires
            !old(self).is_done(),
            old(self).wf(),
        ensures
            final(self).wf(),
            final(self).prefix_view() == old(self).prefix_view(),
            diverted(line@, old(self).prefix_view()) ==> r is Diverted && *final(self) == *old(self),
            !diverted(line@, old(self).prefix_view()) && line@ == "OK"@ ==> r is Finished
                && r->Finished_0@ == ok_view(Some(render(old(self).body_view()) + "OK"@))
                && final(self).is_done(),
            !diverted(line@, old(self).prefix_view()) && line@ != "OK"@ && seq_contains(line@, "ERROR"@)
                ==> r is Finished && r->Finished_0@ == error_view(line@)
                && final(self).is_done(),
            !diverted(line@, old(self).prefix_view()) && line@ != "OK"@ && !seq_contains(line@, "ERROR"@)
                && seq_starts_with(line@, ">"@) ==> r is Finished && r->Finished_0@ == ok_view(
                Some(render(old(self).body_view()) + line@),
            ) && final(self).is_done(),
            !diverted(line@, old(self).prefix_view()) && line@ != "OK"@ && !seq_contains(line@, "ERROR"@)
                && !seq_starts_with(line@, ">"@) ==> r is Pending && final(self).body_view()
                == old(self).body_view().push(line@) && !final(self).is_done(),
    {
        let lv = chars_of(line.as_str());
        let urc = is_urc(lv.as_slice());
        let mine = self.prefix.len() > 0 && starts_with(lv.as_slice(), self.prefix.as_slice());
        if urc && !mine {
            return LineOutcome::Diverted;
        }
        if chars_eq(lv.as_slice(), chars_of("OK").as_slice()) {
            let mut data = self.render_body();
            push_chars(&mut data, chars_of("OK").as_slice());
            self.done = true;
            return LineOutcome::Finished(ATResponse::ok(Some(data)));
        }
        if contains(lv.as_slice(), chars_of("ERROR").as_slice()) {
            self.done = true;
            return LineOutcome::Finished(ATResponse::error(line));
        }
        if starts_with(lv.as_slice(), chars_of(">").as_slice()) {
            let mut data = self.render_body();
            push_chars(&mut data, lv.as_slice());
            self.done = true;
            return LineOutcome::Finished(ATResponse::ok(Some(data)));
        }
        self.body.push(line);
        proof {
            assert(self.body_view() == old(self).body_view().push(line@));
        }
        LineOutcome::Pending
    }

    /// Takes one event: a line is routed as `on_line` routes it, a tick past
    /// the deadline answers `Timeout`, a closed transport answers
    /// `Connection closed`. An answered transaction answers nothing more.
    pub fn on_event(&mut self, ev: TxnEvent) -> (r: (Option<ATResponse>, bool))
        requires
            old(self).wf(),
        ensures
            final(self).wf(),
            final(self).prefix_view() == old(self).prefix_view(),
            r.0 is Some <==> (!old(self).is_done() && finishes(event_view(ev), old(self).prefix_view())),
            final(self).is_done() == (old(self).is_done() || finishes(event_view(ev), old(self).prefix_view())),
            r.1 == (!old(self).is_done() && (event_view(ev) matches EventView::Line(l) && diverted(
                l,
                old(self).prefix_view(),
            ))),
            !old(self).is_done() ==> match event_view(ev) {
                EventView::Tick(ms) => ms > TRANSACTION_DEADLINE_MS ==> r.0 is Some && r.0->Some_0@ == error_view(
                    "Timeout"@,
                ),
                EventView::Closed => r.0 is Some && r.0->Some_0@ == error_view("Connection closed"@),
                EventView::Line(_) => true,
            },
    {
        if self.done {
            return (None, false);
        }
        match ev {
            TxnEvent::Line(l) => match self.on_line(l) {
                LineOutcome::Diverted => (None, true),
                LineOutcome::Pending => (None, false),
                LineOutcome::Finished(resp) => (Some(resp), false),
            },
            TxnEvent::Tick(ms) => {
                if deadline_expired(ms) {
                    (Some(self.on_timeout()), false)
                } else {
                    (None, false)
                }
            },
            TxnEvent::Closed => (Some(self.on_closed()), false),
        }
    }

    /// The answer when the deadline passes with no final line.
    pub fn on_timeout(&mut self) -> (r: ATResponse)
        requires
            !old(self).is_done(),
        ensures
            r@ == error_view("Timeout"@),
            final(self).is_done(),
            final(self).prefix_view() == old(self).prefix_view(),
            final(self).body_view() == old(self).body_view(),
    {
        self.done = true;
        ATResponse::error(string_of(chars_of("Timeout").as_slice()))
    }

    /// The answer when the transport closes during the transaction.
    pub fn on_closed(&mut self) -> (r: ATResponse)
        requires
            !old(self).is_done(),
        ensures
            r@ == error_view("Connection closed"@),
            final(self).is_done(),
            final(self).prefix_view() == old(self).prefix_view(),
            final(self).body_view() == old(self).body_view(),
    {
        self.done = true;
        ATResponse::error(string_of(chars_of("Connection closed").as_slice()))
    }
}

/// What can happen to a command in flight.
pub enum TxnEvent {
    /// A line was framed from the transport.
    Line(String),
    /// The command has been in flight this many milliseconds.
    Tick(u64),
    /// The transport closed, or writing the command failed.
    Closed,
}

/// The view of an event that decides whether it ends the transaction.
pub enum EventView {
    Line(Seq<char>),
    Tick(u64),
    Closed,
}

pub open spec fn event_view(e: TxnEvent) -> EventView {
    match e {
        TxnEvent::Line(l) => EventView::Line(l@),
        TxnEvent::Tick(ms) => EventView::Tick(ms),
        TxnEvent::Closed => EventView::Closed,
    }
}

/// Whether an event answers a command that expects `prefix`: a final line
/// (`OK`, one holding `ERROR`, a `>` prompt) not diverted as a URC, the
/// deadline passing, or the transport closing.
pub open spec fn finishes(e: EventView, prefix: Seq<char>) -> bool {
    match e {
        EventView::Line(l) => !diverted(l, prefix) && (l == "OK"@ || seq_contains(l, "ERROR"@)
            || seq_starts_with(l, ">"@)),
        EventView::Tick(ms) => ms > TRANSACTION_DEADLINE_MS,
        EventView::Closed => true,
    }
}

/// How many answers a transaction gives to the events `evs`, starting
/// answered (`done`) or not.
pub open spec fn answers(done: bool, evs: Seq<EventView>, prefix: Seq<char>) -> nat
    decreases evs.len(),
{
    if evs.len() == 0 {
        0
    } else {
        let now = !done && finishes(evs[0], prefix);
        (if now {
            1nat
        } else {
            0nat
        }) + answers(done || now, evs.drop_first(), prefix)
    }
}

/// Every command is answered exactly once: a transaction that has not been
/// answered gives one answer to a run of events that holds a finishing
/// event (a final line, the deadline, the transport closing), and none to
/// one that does not; no run of events draws a second answer.
pub proof fn lemma_answered_once(evs: Seq<EventView>, prefix: Seq<char>)
    ensures
        answers(false, evs, prefix) == if exists|i: int| 0 <= i < evs.len() && finishes(#[trigger] evs[i], prefix) {
            1nat
        } else {
            0nat
        },
        answers(true, evs, prefix) == 0,
    decreases evs.len(),
{
    lemma_no_answer_after(evs, prefix);
    if evs.len() > 0 {
        let t = evs.drop_first();
        lemma_answered_once(t, prefix);
        if finishes(evs[0], prefix) {
            assert(finishes(evs[0], prefix));
        } else {
            if exists|i: int| 0 <= i < evs.len() && finishes(#[trigger] evs[i], prefix) {
                let i = choose|i: int| 0 <= i < evs.len() && finishes(#[trigger] evs[i], prefix);
                assert(i > 0);
                assert(t[i - 1] == evs[i]);
            }
            if exists|i: int| 0 <= i < t.len() && finishes(#[trigger] t[i], prefix) {
                let i = choose|i: int| 0 <= i < t.len() && finishes(#[trigger] t[i], prefix);
                assert(t[i] == evs[i + 1]);
            }
        }
    }
}

proof fn lemma_no_answer_after(evs: Seq<EventView>, prefix: Seq<char>)
    ensures
        answers(true, evs, prefix) == 0,
    decreases evs.len(),
{
    if evs.len() > 0 {
        lemma_no_answer_after(evs.drop_first(), prefix);
    }
}

/// Whether a transaction that started `elapsed_ms` ago has run out of time.
pub fn deadline_expired(elapsed_ms: u64) -> (r: bool)
    ensures
        r == (elapsed_ms > TRANSACTION_DEADLINE_MS),
{
    elapsed_ms > TRANSACTION_DEADLINE_MS
}

/// The bytes written for a command: the trimmed text, then CR LF.
pub fn command_bytes(cmd: &str) -> (r: Vec<u8>)
    ensures
        r@ == vstd::utf8::encode_utf8(str_trim_of(cmd@)) + seq![13u8, 10u8],
{
    let clean = trim_str(cmd);
    let mut r = clean.as_str().as_bytes_vec();
    r.push(13);
    r.push(10);
    r
}

/// The URC lines among `lines`, in order.
pub open spec fn urc_lines(lines: Seq<Seq<char>>) -> Seq<Seq<char>> {
    lines.filter(|l: Seq<char>| is_urc_line(l))
}

/// The decoded lines that framing `s` yields.
pub open spec fn decoded_lines(s: Seq<u8>) -> Seq<Seq<char>> {
    frame_lines(s).map_values(|l: Seq<u8>| utf8_lossy_of(l))
}

/// Takes every complete line out of `buffer` and returns the URCs among
/// them, in order, for the URC bus and the broadcast bus; other lines carry
/// no destination while no command is in flight and are dropped.
pub fn route_idle_lines(buffer: &mut Vec<u8>) -> (r: Vec<String>)
    ensures
        views(r@) == urc_lines(decoded_lines(old(buffer)@)),
        final(buffer)@ == frame_rest(old(buffer)@),
{
    let lines = drain_lines(buffer);
    let ghost all = views(lines@);
    assert(all == decoded_lines(old(buffer)@));
    let mut r: Vec<String> = Vec::new();
    let mut i: usize = 0;
    while i < lines.len()
        invariant
            i <= lines@.len(),
            all == views(lines@),
            views(r@) == urc_lines(all.subrange(0, i as int)),
        decreases lines@.len() - i,
    {
        proof {
            reveal(Seq::filter);
            assert(all.subrange(0, i + 1).drop_last() == all.subrange(0, i as int));
        }
        let lv = chars_of(lines[i].as_str());
        if is_urc(lv.as_slice()) {
            let ghost before = r@;
            let l = string_of(lv.as_slice());
            r.push(l);
            assert(views(r@) == views(before).push(all[i as int]));
        }
        i += 1;
    }
    assert(all.subrange(0, lines@.len() as int) == all);
    r
}

/// The drain before a command is sent: the URCs among the complete lines
/// are returned, and every byte left over (a stranded half line) is dropped.
pub fn predrain(buffer: &mut Vec<u8>) -> (r: Vec<String>)
    ensures
        views(r@) == urc_lines(decoded_lines(old(buffer)@)),
        final(buffer)@.len() == 0,
{
    let r = route_idle_lines(buffer);
    buffer.clear();
    r
}

/// A response keeps no URC of its own accord: every line of a well-formed
/// transaction's body, and the final line that ends it, is either not a URC
/// or starts with the command's own (non-empty) expected prefix, so that a
/// command whose expected prefix no URC starts with gets a body free of URCs.
pub proof fn lemma_body_has_no_urc(t: Transaction, last: Seq<char>)
    requires
        t.wf(),
        !diverted(last, t.prefix_view()),
    ensures
        forall|i: int| 0 <= i < t.body_view().len() ==> (!is_urc_line(#[trigger] t.body_view()[i]) || (
        t.prefix_view().len() > 0 && seq_starts_with(t.body_view()[i], t.prefix_view()))),
        !is_urc_line(last) || (t.prefix_view().len() > 0 && seq_starts_with(last, t.prefix_view())),
        t.prefix_view().len() == 0 ==> forall|i: int| 0 <= i < t.body_view().len() ==> !is_urc_line(
            #[trigger] t.body_view()[i],
        ),
{
    assert forall|i: int| 0 <= i < t.body_view().len() implies (!is_urc_line(#[trigger] t.body_view()[i]) || (
    t.prefix_view().len() > 0 && seq_starts_with(t.body_view()[i], t.prefix_view()))) by {
        assert(!diverted(t.body_view()[i], t.prefix_view()));
    }
}

} // verus!
