//! The schedule controller's decisions: which mode the clock asks for, the
//! lock commands of each mode, and what a tick does with the service state.
use vstd::prelude::*;
use crate::config::ScheduleConfig;
use crate::text::{
    chars_of, decimal, dec, join, pieces, push_chars, push_joined, push_str,
    split_on, str_trim_of, string_of, trim_str, views,
};
use crate::handlers::{is_digit, occurs, run_at, run_len, CharClass};
use crate::text::occurs_at;
use chrono::Timelike;

verus! {

/// Seconds in a day.
pub const DAY_SECS: u32 = 86400;

/// 22:00, the night start when the configured one does not parse.
pub const DEFAULT_NIGHT_START: u32 = 79200;

/// 06:00, the night end when the configured one does not parse.
pub const DEFAULT_NIGHT_END: u32 = 21600;

#[derive(Debug, Clone, Copy, PartialEq, Eq, Structural)]
pub enum ScheduleMode {
    Night,
    Day,
}

/// The time of day (seconds since midnight) that an `HH:MM` text names.
pub uninterp spec fn hhmm_of(s: Seq<char>) -> Option<u32>;

/// Two ASCII digits at `i` and their value.
pub open spec fn two_digits(s: Seq<char>, i: int) -> int {
    (s[i] as int - 48) * 10 + (s[i + 1] as int - 48)
}

/// The plain `HH:MM` shape: two digits, a colon, two digits.
pub open spec fn plain_hhmm(s: Seq<char>) -> bool {
    s.len() == 5 && s[2] == ':' && forall|i: int| 0 <= i < 5 && i != 2 ==> '0' <= #[trigger] s[i] && s[i] <= '9'
}

/// Relies on `chrono::NaiveTime::parse_from_str` with `%H:%M`: the time
/// read, as seconds since midnight; a `NaiveTime` lies within one day, and
/// a plain `HH:MM` with hour below 24 and minute below 60 reads as itself.
#[verifier::external_body]
fn parse_hhmm(s: &str) -> (r: Option<u32>)
    ensures
        r == hhmm_of(s@),
        r matches Some(v) ==> v < DAY_SECS,
        plain_hhmm(s@) && two_digits(s@, 0) < 24 && two_digits(s@, 3) < 60 ==> r == Some(
            (two_digits(s@, 0) * 3600 + two_digits(s@, 3) * 60) as u32,
        ),
{
    match chrono::NaiveTime::parse_from_str(s, "%H:%M") {
        Ok(t) => Some(t.num_seconds_from_midnight()),
        Err(_) => None,
    }
}

/// Relies on `chrono::Local::now`: the local time of day, in seconds since
/// midnight.
#[verifier::external_body]
fn local_now_secs() -> (r: u32)
    ensures
        r < DAY_SECS,
{
    chrono::Local::now().num_seconds_from_midnight()
}

pub open spec fn night_start_of(c: ScheduleConfig) -> u32 {
    match hhmm_of(c.night_start@) {
        Some(v) => v,
        None => DEFAULT_NIGHT_START,
    }
}

pub open spec fn night_end_of(c: ScheduleConfig) -> u32 {
    match hhmm_of(c.night_end@) {
        Some(v) => v,
        None => DEFAULT_NIGHT_END,
    }
}

/// `t` lies in the night window `[s, e)`, which crosses midnight when
/// `s > e`.
pub open spec fn in_window(t: u32, s: u32, e: u32) -> bool {
    if s <= e {
        s <= t && t < e
    } else {
        t >= s || t < e
    }
}

/// The mode asked for at time of day `t`; `None` when the window's mode is
/// disabled.
pub open spec fn mode_at_spec(c: ScheduleConfig, t: u32) -> Option<ScheduleMode> {
    if in_window(t, night_start_of(c), night_end_of(c)) {
        if c.night_enabled {
            Some(ScheduleMode::Night)
        } else {
            None
        }
    } else if c.day_enabled {
        Some(ScheduleMode::Day)
    } else {
        None
    }
}

/// The mode asked for at time of day `now_secs`.
pub fn mode_at(config: &ScheduleConfig, now_secs: u32) -> (r: Option<ScheduleMode>)
    ensures
        r == mode_at_spec(*config, now_secs),
{
    let s = match parse_hhmm(config.night_start.as_str()) {
        Some(v) => v,
        None => DEFAULT_NIGHT_START,
    };
    let e = match parse_hhmm(config.night_end.as_str()) {
        Some(v) => v,
        None => DEFAULT_NIGHT_END,
    };
    let night = if s <= e {
        s <= now_secs && now_secs < e
    } else {
        now_secs >= s || now_secs < e
    };
    if night {
        if config.night_enabled {
            Some(ScheduleMode::Night)
        } else {
            None
        }
    } else if config.day_enabled {
        Some(ScheduleMode::Day)
    } else {
        None
    }
}

/// The mode asked for now, by the local clock.
pub fn get_current_mode(config: &ScheduleConfig) -> (r: Option<ScheduleMode>)
    ensures
        exists|t: u32| t < DAY_SECS && r == mode_at_spec(*config, t),
{
    let t = local_now_secs();
    mode_at(config, t)
}

/// A night window that crosses midnight holds exactly the times at or after
/// its start or before its end.
pub proof fn lemma_night_across_midnight(t: u32, s: u32, e: u32)
    requires
        s > e,
    ensures
        in_window(t, s, e) <==> (t >= s || t < e),
{
}

/// The non-empty trimmed items of a comma-separated list.
pub open spec fn list_items(s: Seq<char>) -> Seq<Seq<char>> {
    pieces(s, ',').map_values(|p: Seq<char>| str_trim_of(p)).filter(|t: Seq<char>| t.len() > 0)
}

/// The non-empty trimmed items of a comma-separated list.
pub fn split_list(s: &str) -> (r: Vec<String>)
    ensures
        views(r@) == list_items(s@),
{
    let cs = chars_of(s);
    let ps = split_on(cs.as_slice(), ',');
    let ghost all = pieces(s@, ',').map_values(|p: Seq<char>| str_trim_of(p));
    let mut r: Vec<String> = Vec::new();
    let mut i: usize = 0;
    while i < ps.len()
        invariant
            i <= ps@.len(),
            ps@.len() == pieces(s@, ',').len(),
            forall|k: int| 0 <= k < ps@.len() ==> #[trigger] ps@[k]@ == pieces(s@, ',')[k],
            all == pieces(s@, ',').map_values(|p: Seq<char>| str_trim_of(p)),
            views(r@) == all.subrange(0, i as int).filter(|t: Seq<char>| t.len() > 0),
        decreases ps@.len() - i,
    {
        proof {
            reveal(Seq::filter);
            assert(all.subrange(0, i + 1).drop_last() == all.subrange(0, i as int));
        }
        let piece = string_of(ps[i].as_slice());
        let t = trim_str(piece.as_str());
        assert(t@ == all[i as int]);
        if !t.as_str().is_empty() {
            let ghost before = r@;
            r.push(t);
            assert(views(r@) == views(before).push(all[i as int]));
        }
        i += 1;
    }
    assert(all.subrange(0, ps@.len() as int) == all);
    r
}

pub open spec fn lte_unlock() -> Seq<char> {
    "AT^LTEFREQLOCK=0\r\n"@
}

pub open spec fn nr_unlock() -> Seq<char> {
    "AT^NRFREQLOCK=0\r\n"@
}

/// The LTE lock command: type 3 locks bands, type 1 band/ARFCN pairs, type
/// 2 band/ARFCN/PCI cells; a count mismatch, or another type, unlocks.
pub open spec fn lte_command(t: u8, bands: Seq<Seq<char>>, arfcns: Seq<char>, pcis: Seq<char>) -> Seq<char> {
    let a = list_items(arfcns);
    let p = list_items(pcis);
    let head = dec(bands.len()) + ",\""@ + join(bands, ","@);
    if t == 3 {
        "AT^LTEFREQLOCK=3,0,"@ + head + "\"\r\n"@
    } else if t == 1 {
        if bands.len() != a.len() {
            lte_unlock()
        } else {
            "AT^LTEFREQLOCK=1,0,"@ + head + "\",\""@ + join(a, ","@) + "\"\r\n"@
        }
    } else if t == 2 {
        if bands.len() != a.len() || a.len() != p.len() {
            lte_unlock()
        } else {
            "AT^LTEFREQLOCK=2,0,"@ + head + "\",\""@ + join(a, ","@) + "\",\""@ + join(p, ","@) + "\"\r\n"@
        }
    } else {
        lte_unlock()
    }
}

/// The NR lock command: as for LTE, with SCS types between ARFCNs and PCIs
/// for a cell lock.
pub open spec fn nr_command(t: u8, bands: Seq<Seq<char>>, arfcns: Seq<char>, scs: Seq<char>, pcis: Seq<char>) -> Seq<char> {
    let a = list_items(arfcns);
    let c = list_items(scs);
    let p = list_items(pcis);
    let head = dec(bands.len()) + ",\""@ + join(bands, ","@);
    if t == 3 {
        "AT^NRFREQLOCK=3,0,"@ + head + "\"\r\n"@
    } else if t == 1 {
        if bands.len() != a.len() {
            nr_unlock()
        } else {
            "AT^NRFREQLOCK=1,0,"@ + head + "\",\""@ + join(a, ","@) + "\"\r\n"@
        }
    } else if t == 2 {
        if bands.len() != a.len() || a.len() != c.len() || c.len() != p.len() {
            nr_unlock()
        } else {
            "AT^NRFREQLOCK=2,0,"@ + head + "\",\""@ + join(a, ","@) + "\",\""@ + join(c, ","@) + "\",\""@
                + join(p, ","@) + "\"\r\n"@
        }
    } else {
        nr_unlock()
    }
}

fn push_list(out: &mut String, xs: &[String])
    ensures
        final(out)@ == old(out)@ + "\",\""@ + join(views(xs@), ","@),
{
    push_str(out, "\",\"");
    push_joined(out, xs, ",");
}

pub fn build_lte_command(lock_type: u8, bands: &[String], arfcns: &str, pcis: &str) -> (r: String)
    ensures
        r@ == lte_command(lock_type, views(bands@), arfcns@, pcis@),
{
    let a = split_list(arfcns);
    let p = split_list(pcis);
    let n = bands.len();
    if lock_type == 3 || (lock_type == 1 && n == a.len()) || (lock_type == 2 && n == a.len() && a.len() == p.len()) {
        let mut r = String::new();
        if lock_type == 3 {
            push_str(&mut r, "AT^LTEFREQLOCK=3,0,");
        } else if lock_type == 1 {
            push_str(&mut r, "AT^LTEFREQLOCK=1,0,");
        } else {
            push_str(&mut r, "AT^LTEFREQLOCK=2,0,");
        }
        push_chars(&mut r, decimal(n as u64).as_slice());
        push_str(&mut r, ",\"");
        push_joined(&mut r, bands, ",");
        if lock_type != 3 {
            push_list(&mut r, a.as_slice());
        }
        if lock_type == 2 {
            push_list(&mut r, p.as_slice());
        }
        push_str(&mut r, "\"\r\n");
        return r;
    }
    string_of(chars_of("AT^LTEFREQLOCK=0\r\n").as_slice())
}

pub fn build_nr_command(lock_type: u8, bands: &[String], arfcns: &str, scs_types: &str, pcis: &str) -> (r: String)
    ensures
        r@ == nr_command(lock_type, views(bands@), arfcns@, scs_types@, pcis@),
{
    let a = split_list(arfcns);
    let c = split_list(scs_types);
    let p = split_list(pcis);
    let n = bands.len();
    if lock_type == 3 || (lock_type == 1 && n == a.len()) || (lock_type == 2 && n == a.len() && a.len() == c.len()
        && c.len() == p.len()) {
        let mut r = String::new();
        if lock_type == 3 {
            push_str(&mut r, "AT^NRFREQLOCK=3,0,");
        } else if lock_type == 1 {
            push_str(&mut r, "AT^NRFREQLOCK=1,0,");
        } else {
            push_str(&mut r, "AT^NRFREQLOCK=2,0,");
        }
        push_chars(&mut r, decimal(n as u64).as_slice());
        push_str(&mut r, ",\"");
        push_joined(&mut r, bands, ",");
        if lock_type != 3 {
            push_list(&mut r, a.as_slice());
        }
        if lock_type == 2 {
            push_list(&mut r, c.as_slice());
            push_list(&mut r, p.as_slice());
        }
        push_str(&mut r, "\"\r\n");
        return r;
    }
    string_of(chars_of("AT^NRFREQLOCK=0\r\n").as_slice())
}

/// A frequency or cell lock whose band list and ARFCN list differ in length
/// is sent as the unlock command, for LTE and for NR.
pub proof fn lemma_mismatch_unlocks(t: u8, bands: Seq<Seq<char>>, arfcns: Seq<char>, scs: Seq<char>, pcis: Seq<char>)
    requires
        t == 1 || t == 2,
        bands.len() != list_items(arfcns).len(),
    ensures
        lte_command(t, bands, arfcns, pcis) == lte_unlock(),
        nr_command(t, bands, arfcns, scs, pcis) == nr_unlock(),
{
}

/// One command of a mode switch, with the pause after it: always, or only
/// when the modem accepted it.
pub struct PlanStep {
    pub command: String,
    pub pause_secs: u64,
    pub pause_only_on_success: bool,
}

pub open spec fn step_view(s: PlanStep) -> (Seq<char>, u64, bool) {
    (s.command@, s.pause_secs, s.pause_only_on_success)
}

pub open spec fn steps_view(v: Seq<PlanStep>) -> Seq<(Seq<char>, u64, bool)> {
    v.map_values(|s: PlanStep| step_view(s))
}

/// The lock settings of one radio in one mode.
pub struct RadioLock {
    pub lock_type: u8,
    pub bands: String,
    pub arfcns: String,
    pub scs_types: String,
    pub pcis: String,
}

pub open spec fn lte_of(c: ScheduleConfig, m: ScheduleMode) -> (u8, Seq<char>, Seq<char>, Seq<char>) {
    match m {
        ScheduleMode::Night => (c.night_lte_type, c.night_lte_bands@, c.night_lte_arfcns@, c.night_lte_pcis@),
        ScheduleMode::Day => (c.day_lte_type, c.day_lte_bands@, c.day_lte_arfcns@, c.day_lte_pcis@),
    }
}

pub open spec fn nr_of(c: ScheduleConfig, m: ScheduleMode) -> (u8, Seq<char>, Seq<char>, Seq<char>, Seq<char>) {
    match m {
        ScheduleMode::Night => (
            c.night_nr_type,
            c.night_nr_bands@,
            c.night_nr_arfcns@,
            c.night_nr_scs_types@,
            c.night_nr_pcis@,
        ),
        ScheduleMode::Day => (c.day_nr_type, c.day_nr_bands@, c.day_nr_arfcns@, c.day_nr_scs_types@, c.day_nr_pcis@),
    }
}

/// The LTE step of a switch: the lock when a type and bands are set (none
/// when the band list has no items), else the unlock when so configured.
pub open spec fn lte_steps(c: ScheduleConfig, m: ScheduleMode) -> Seq<(Seq<char>, u64, bool)> {
    let (t, b, a, p) = lte_of(c, m);
    if t > 0 && str_trim_of(b).len() > 0 {
        if list_items(b).len() > 0 {
            seq![(lte_command(t, list_items(b), a, p), 1u64, false)]
        } else {
            seq![]
        }
    } else if c.unlock_lte {
        seq![(lte_unlock(), 1u64, false)]
    } else {
        seq![]
    }
}

pub open spec fn nr_steps(c: ScheduleConfig, m: ScheduleMode) -> Seq<(Seq<char>, u64, bool)> {
    let (t, b, a, s, p) = nr_of(c, m);
    if t > 0 && str_trim_of(b).len() > 0 {
        if list_items(b).len() > 0 {
            seq![(nr_command(t, list_items(b), a, s, p), 1u64, false)]
        } else {
            seq![]
        }
    } else if c.unlock_nr {
        seq![(nr_unlock(), 1u64, false)]
    } else {
        seq![]
    }
}

pub open spec fn airplane_on() -> (Seq<char>, u64, bool) {
    ("AT+CFUN=0\r\n"@, 2u64, true)
}

pub open spec fn airplane_off() -> (Seq<char>, u64, bool) {
    ("AT+CFUN=1\r\n"@, 5u64, true)
}

/// A mode switch: airplane mode on (if configured), LTE lock, NR lock,
/// airplane mode off.
pub open spec fn mode_plan(c: ScheduleConfig, m: ScheduleMode) -> Seq<(Seq<char>, u64, bool)> {
    (if c.toggle_airplane {
        seq![airplane_on()]
    } else {
        seq![]
    }) + lte_steps(c, m) + nr_steps(c, m) + (if c.toggle_airplane {
        seq![airplane_off()]
    } else {
        seq![]
    })
}

/// The full unlock: airplane mode on (if configured), both radios unlocked,
/// airplane mode off; every pause taken whatever the answer.
pub open spec fn unlock_plan_spec(c: ScheduleConfig) -> Seq<(Seq<char>, u64, bool)> {
    (if c.toggle_airplane {
        seq![("AT+CFUN=0\r\n"@, 2u64, false)]
    } else {
        seq![]
    }) + seq![(lte_unlock(), 1u64, false), (nr_unlock(), 1u64, false)] + (if c.toggle_airplane {
        seq![("AT+CFUN=1\r\n"@, 5u64, false)]
    } else {
        seq![]
    })
}

fn step(command: &str, pause_secs: u64, pause_only_on_success: bool) -> (r: PlanStep)
    ensures
        step_view(r) == (command@, pause_secs, pause_only_on_success),
{
    PlanStep { command: string_of(chars_of(command).as_slice()), pause_secs, pause_only_on_success }
}

fn radio_lock(c: &ScheduleConfig, m: ScheduleMode) -> (r: (RadioLock, RadioLock))
    ensures
        (r.0.lock_type, r.0.bands@, r.0.arfcns@, r.0.pcis@) == lte_of(*c, m),
        (r.1.lock_type, r.1.bands@, r.1.arfcns@, r.1.scs_types@, r.1.pcis@) == nr_of(*c, m),
{
    match m {
        ScheduleMode::Night => (
            RadioLock {
                lock_type: c.night_lte_type,
                bands: c.night_lte_bands.clone(),
                arfcns: c.night_lte_arfcns.clone(),
                scs_types: String::new(),
                pcis: c.night_lte_pcis.clone(),
            },
            RadioLock {
                lock_type: c.night_nr_type,
                bands: c.night_nr_bands.clone(),
                arfcns: c.night_nr_arfcns.clone(),
                scs_types: c.night_nr_scs_types.clone(),
                pcis: c.night_nr_pcis.clone(),
            },
        ),
        ScheduleMode::Day => (
            RadioLock {
                lock_type: c.day_lte_type,
                bands: c.day_lte_bands.clone(),
                arfcns: c.day_lte_arfcns.clone(),
                scs_types: String::new(),
                pcis: c.day_lte_pcis.clone(),
            },
            RadioLock {
                lock_type: c.day_nr_type,
                bands: c.day_nr_bands.clone(),
                arfcns: c.day_nr_arfcns.clone(),
                scs_types: c.day_nr_scs_types.clone(),
                pcis: c.day_nr_pcis.clone(),
            },
        ),
    }
}

/// The commands that switch to mode `m`, in order, with their pauses.
pub fn lock_plan(config: &ScheduleConfig, m: ScheduleMode) -> (r: Vec<PlanStep>)
    ensures
        steps_view(r@) == mode_plan(*config, m),
{
    let (lte, nr) = radio_lock(config, m);
    let mut r: Vec<PlanStep> = Vec::new();
    let ghost want = mode_plan(*config, m);
    if config.toggle_airplane {
        r.push(step("AT+CFUN=0\r\n", 2, true));
    }
    let ghost before_lte = steps_view(r@);
    let lte_trim = trim_str(lte.bands.as_str());
    if lte.lock_type > 0 && !lte_trim.as_str().is_empty() {
        let bl = split_list(lte.bands.as_str());
        if bl.len() > 0 {
            let cmd = build_lte_command(lte.lock_type, bl.as_slice(), lte.arfcns.as_str(), lte.pcis.as_str());
            r.push(PlanStep { command: cmd, pause_secs: 1, pause_only_on_success: false });
        }
    } else if config.unlock_lte {
        r.push(step("AT^LTEFREQLOCK=0\r\n", 1, false));
    }
    assert(steps_view(r@) == before_lte + lte_steps(*config, m));
    let ghost before_nr = steps_view(r@);
    let nr_trim = trim_str(nr.bands.as_str());
    if nr.lock_type > 0 && !nr_trim.as_str().is_empty() {
        let bl = split_list(nr.bands.as_str());
        if bl.len() > 0 {
            let cmd = build_nr_command(
                nr.lock_type,
                bl.as_slice(),
                nr.arfcns.as_str(),
                nr.scs_types.as_str(),
                nr.pcis.as_str(),
            );
            r.push(PlanStep { command: cmd, pause_secs: 1, pause_only_on_success: false });
        }
    } else if config.unlock_nr {
        r.push(step("AT^NRFREQLOCK=0\r\n", 1, false));
    }
    assert(steps_view(r@) == before_nr + nr_steps(*config, m));
    if config.toggle_airplane {
        r.push(step("AT+CFUN=1\r\n", 5, true));
    }
    assert(steps_view(r@) =~= want);
    r
}

/// The commands of the full unlock, in order, with their pauses.
pub fn unlock_plan(config: &ScheduleConfig) -> (r: Vec<PlanStep>)
    ensures
        steps_view(r@) == unlock_plan_spec(*config),
{
    let mut r: Vec<PlanStep> = Vec::new();
    if config.toggle_airplane {
        r.push(step("AT+CFUN=0\r\n", 2, false));
    }
    r.push(step("AT^LTEFREQLOCK=0\r\n", 1, false));
    r.push(step("AT^NRFREQLOCK=0\r\n", 1, false));
    if config.toggle_airplane {
        r.push(step("AT+CFUN=1\r\n", 5, false));
    }
    assert(steps_view(r@) =~= unlock_plan_spec(*config));
    r
}

/// What a tick does about the mode.
#[derive(Debug, Clone, Copy, PartialEq, Eq, Structural)]
pub enum ModeAction {
    /// The target is the mode in force.
    Keep,
    /// Switch to this mode (run its plan).
    Apply(ScheduleMode),
    /// No mode is asked for any more: run the full unlock.
    UnlockAll,
}

/// The controller's memory between ticks: the mode in force, when service
/// was last seen (seconds), and how many switches were started.
pub struct ScheduleState {
    pub current: Option<ScheduleMode>,
    pub last_service: u64,
    pub switch_count: u64,
}

impl ScheduleState {
    pub fn new(now: u64) -> (r: ScheduleState)
        ensures
            r.current is None,
            r.last_service == now,
            r.switch_count == 0,
    {
        ScheduleState { current: None, last_service: now, switch_count: 0 }
    }

    /// Compares the target mode with the one in force. Starting a switch
    /// counts it.
    pub fn mode_action(&mut self, target: Option<ScheduleMode>) -> (r: ModeAction)
        ensures
            final(self).current == old(self).current,
            final(self).last_service == old(self).last_service,
            target == old(self).current ==> r == ModeAction::Keep,
            target != old(self).current && target is Some ==> r == ModeAction::Apply(target->Some_0),
            target != old(self).current && target is None ==> r == ModeAction::UnlockAll,
            r is Apply ==> final(self).switch_count == if old(self).switch_count < u64::MAX {
                (old(self).switch_count + 1) as u64
            } else {
                old(self).switch_count
            },
            !(r is Apply) ==> final(self).switch_count == old(self).switch_count,
    {
        if target == self.current {
            return ModeAction::Keep;
        }
        match target {
            Some(m) => {
                if self.switch_count < u64::MAX {
                    self.switch_count = self.switch_count + 1;
                }
                ModeAction::Apply(m)
            },
            None => ModeAction::UnlockAll,
        }
    }

    /// Records the end of a switch: the target is in force only if the
    /// switch went through.
    pub fn on_mode_result(&mut self, target: Option<ScheduleMode>, ok: bool)
        ensures
            final(self).current == if ok { target } else { old(self).current },
            final(self).last_service == old(self).last_service,
            final(self).switch_count == old(self).switch_count,
    {
        if ok {
            self.current = target;
        }
    }

    /// Records the service check at `now`. With service the timer restarts;
    /// without it for `timeout` seconds or more, the answer is to run the
    /// full unlock, and the timer restarts too.
    pub fn on_service(&mut self, has_service: bool, now: u64, timeout: u64) -> (recover: bool)
        ensures
            final(self).current == old(self).current,
            final(self).switch_count == old(self).switch_count,
            recover == (!has_service && now >= old(self).last_service && now - old(self).last_service >= timeout),
            final(self).last_service == if has_service || recover { now } else { old(self).last_service },
    {
        if has_service {
            self.last_service = now;
            return false;
        }
        if now >= self.last_service && now - self.last_service >= timeout {
            self.last_service = now;
            return true;
        }
        false
    }
}

/// A registration report whose fields start at `q`: the `<n>` digits, a
/// comma, then a `<stat>` of 1 (home) or 5 (roaming) that no further digit
/// extends.
pub open spec fn registered_at(l: Seq<char>, q: int) -> bool {
    let d = run_len(l, q, CharClass::Digit);
    let s = q + d + 1;
    d > 0 && s < l.len() && l[q + d] == ',' && (l[s] == '1' || l[s] == '5') && !(s + 1 < l.len() && is_digit(
        l[s + 1],
    ))
}

/// Some report announced by `pat` from `p` on says registered.
pub open spec fn registered_from(l: Seq<char>, p: int, pat: Seq<char>) -> bool
    decreases l.len() - p,
{
    if p < 0 || p >= l.len() {
        false
    } else if occurs(l, p, pat) && registered_at(l, p + pat.len()) {
        true
    } else {
        registered_from(l, p + 1, pat)
    }
}

fn registered_in(l: &[char], pat: &[char]) -> (r: bool)
    ensures
        r == registered_from(l@, 0, pat@),
{
    let len = l.len();
    let mut p: usize = 0;
    while p < len
        invariant
            p <= len == l@.len(),
            registered_from(l@, 0, pat@) == registered_from(l@, p as int, pat@),
        decreases len - p,
    {
        if occurs_at(l, pat, p) {
            let q = p + pat.len();
            let d = run_at(l, q, CharClass::Digit);
            let e = q + d;
            if d > 0 && len - e > 1 && l[e] == ',' && (l[e + 1] == '1' || l[e + 1] == '5') {
                let after_is_digit = len - e > 2 && '0' <= l[e + 2] && l[e + 2] <= '9';
                if !after_is_digit {
                    return true;
                }
            }
        }
        p += 1;
    }
    false
}

/// Whether a `+CREG?` answer reports home (1) or roaming (5) registration,
/// whatever its `<n>` field.
pub fn creg_registered(data: &str) -> (r: bool)
    ensures
        r == registered_from(data@, 0, "+CREG: "@),
{
    registered_in(chars_of(data).as_slice(), chars_of("+CREG: ").as_slice())
}

/// Whether a `+CEREG?` answer reports home (1) or roaming (5) registration,
/// whatever its `<n>` field.
pub fn cereg_registered(data: &str) -> (r: bool)
    ensures
        r == registered_from(data@, 0, "+CEREG: "@),
{
    registered_in(chars_of(data).as_slice(), chars_of("+CEREG: ").as_slice())
}

} // verus!
