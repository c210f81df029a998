//! Configuration from the host registry: the `uci show` output read into
//! settings, typed lookups with defaults, and the configuration built from
//! them with the environment's overrides.
use vstd::prelude::*;
use crate::config::{
    AdvancedNetworkConfig, AtConfig, Config, IpConfig, NetworkConfig, NotificationConfig, ScheduleConfig,
    SerialConfig, WebSocketConfig,
};
use crate::models::ConnectionType;
use crate::text::{
    chars_eq, chars_of, pieces, seq_starts_with, split_on, starts_with, str_trim_of, strip,
    strip_chars, string_of, tail_from, text, trim_str, views,
};

verus! {

/// Index of the first `c` in `s`, or -1.
pub open spec fn index_of(s: Seq<char>, c: char) -> int
    decreases s.len(),
{
    if s.len() == 0 {
        -1
    } else if s[0] == c {
        0
    } else {
        let r = index_of(s.drop_first(), c);
        if r < 0 {
            -1
        } else {
            r + 1
        }
    }
}

proof fn lemma_index_of(s: Seq<char>, c: char)
    ensures
        -1 <= index_of(s, c) < s.len(),
        index_of(s, c) >= 0 ==> s[index_of(s, c)] == c,
        forall|k: int| 0 <= k < s.len() && (index_of(s, c) < 0 || k < index_of(s, c)) ==> s[k] != c,
    decreases s.len(),
{
    if s.len() > 0 && s[0] != c {
        lemma_index_of(s.drop_first(), c);
        assert forall|k: int| 0 <= k < s.len() && (index_of(s, c) < 0 || k < index_of(s, c)) implies s[k] != c by {
            if k > 0 {
                assert(s[k] == s.drop_first()[k - 1]);
            }
        }
    }
}

/// `k` without every leading repetition of `p`, as `str::trim_start_matches`.
pub open spec fn strip_prefix_all(k: Seq<char>, p: Seq<char>) -> Seq<char>
    decreases k.len(),
{
    if p.len() > 0 && seq_starts_with(k, p) {
        strip_prefix_all(k.subrange(p.len() as int, k.len() as int), p)
    } else {
        k
    }
}

pub open spec fn config_prefix() -> Seq<char> {
    "at-webserver.config."@
}

/// One `uci show` line: `at-webserver.config.<key>=<value>` gives the key
/// and the value without surrounding whitespace, single quotes and double
/// quotes; other lines give nothing.
pub open spec fn uci_entry(line: Seq<char>) -> Option<(Seq<char>, Seq<char>)> {
    let i = index_of(line, '=');
    if i < 0 {
        None
    } else {
        let k = line.subrange(0, i);
        let v = line.subrange(i + 1, line.len() as int);
        if seq_starts_with(k, config_prefix()) {
            Some((strip_prefix_all(k, config_prefix()), strip(strip(str_trim_of(v), seq!['\'']), seq!['"'])))
        } else {
            None
        }
    }
}

fn strip_prefix_repeated(k: &[char], p: &[char]) -> (r: Vec<char>)
    ensures
        r@ == strip_prefix_all(k@, p@),
{
    let mut cur: Vec<char> = tail_from(k, 0);
    assert(cur@ == k@);
    while p.len() > 0 && starts_with(cur.as_slice(), p)
        invariant
            strip_prefix_all(k@, p@) == strip_prefix_all(cur@, p@),
        decreases cur@.len(),
    {
        cur = tail_from(cur.as_slice(), p.len());
    }
    cur
}

/// Reads one line of `uci show` output.
pub fn parse_uci_line(line: &str) -> (r: Option<(String, String)>)
    ensures
        match uci_entry(line@) {
            Some((k, v)) => r is Some && r->Some_0.0@ == k && r->Some_0.1@ == v,
            None => r is None,
        },
{
    let l = chars_of(line);
    let mut i: usize = 0;
    while i < l.len() && l[i] != '='
        invariant
            i <= l@.len(),
            forall|k: int| 0 <= k < i ==> l@[k] != '=',
        decreases l@.len() - i,
    {
        i += 1;
    }
    proof {
        lemma_index_of(l@, '=');
        let p = index_of(l@, '=');
        if p >= 0 {
            assert(l@[p] == '=');
        }
        if i < l@.len() {
            assert(l@[i as int] == '=');
        }
        assert(index_of(l@, '=') == if i == l@.len() { -1 } else { i as int });
    }
    if i == l.len() {
        return None;
    }
    let mut key: Vec<char> = Vec::new();
    let mut k: usize = 0;
    while k < i
        invariant
            k <= i < l@.len(),
            key@ == l@.subrange(0, k as int),
        decreases i - k,
    {
        key.push(l[k]);
        assert(l@.subrange(0, k as int).push(l@[k as int]) == l@.subrange(0, k + 1));
        k += 1;
    }
    let prefix = chars_of("at-webserver.config.");
    if !starts_with(key.as_slice(), prefix.as_slice()) {
        return None;
    }
    let short = strip_prefix_repeated(key.as_slice(), prefix.as_slice());
    let value = tail_from(l.as_slice(), i + 1);
    let t = chars_of(trim_str(string_of(value.as_slice()).as_str()).as_str());
    let q1 = vec!['\''];
    let q2 = vec!['"'];
    assert(q1@ == seq!['\'']);
    assert(q2@ == seq!['"']);
    let a = strip_chars(t.as_slice(), q1.as_slice());
    let b = strip_chars(a.as_slice(), q2.as_slice());
    Some((string_of(short.as_slice()), string_of(b.as_slice())))
}

/// The settings read from `uci show`: keys with their values, a later line
/// overriding an earlier one.
pub struct UciSettings {
    pub entries: Vec<(String, String)>,
}

pub open spec fn entry_views(v: Seq<(String, String)>) -> Seq<(Seq<char>, Seq<char>)> {
    v.map_values(|e: (String, String)| (e.0@, e.1@))
}

/// The value that the last entry for `key` holds.
pub open spec fn lookup(es: Seq<(Seq<char>, Seq<char>)>, key: Seq<char>) -> Option<Seq<char>>
    decreases es.len(),
{
    if es.len() == 0 {
        None
    } else if es.last().0 == key {
        Some(es.last().1)
    } else {
        lookup(es.drop_last(), key)
    }
}

/// The entries that the lines of `uci show` output give, in order.
pub open spec fn uci_entries(lines: Seq<Seq<char>>) -> Seq<(Seq<char>, Seq<char>)>
    decreases lines.len(),
{
    if lines.len() == 0 {
        seq![]
    } else {
        let rest = uci_entries(lines.drop_last());
        match uci_entry(lines.last()) {
            Some(e) => rest.push(e),
            None => rest,
        }
    }
}

/// A string setting, or the default.
pub open spec fn str_or(es: Seq<(Seq<char>, Seq<char>)>, key: Seq<char>, d: Seq<char>) -> Seq<char> {
    match lookup(es, key) {
        Some(v) => v,
        None => d,
    }
}

/// A flag: `1`, `true`, `on` set it; `0`, `false`, `off` clear it; anything
/// else leaves the default.
pub open spec fn bool_or(es: Seq<(Seq<char>, Seq<char>)>, key: Seq<char>, d: bool) -> bool {
    match lookup(es, key) {
        Some(v) => if v == "1"@ || v == "true"@ || v == "on"@ {
            true
        } else if v == "0"@ || v == "false"@ || v == "off"@ {
            false
        } else {
            d
        },
        None => d,
    }
}

pub open spec fn all_digits(t: Seq<char>) -> bool {
    forall|i: int| 0 <= i < t.len() ==> '0' <= #[trigger] t[i] && t[i] <= '9'
}

pub open spec fn digits_num(t: Seq<char>) -> int
    decreases t.len(),
{
    if t.len() == 0 {
        0
    } else {
        digits_num(t.drop_last()) * 10 + (t.last() as int - 48)
    }
}

/// An unsigned number as `str::parse` reads it: an optional `+`, then one
/// or more ASCII digits, at most `max`.
pub open spec fn parse_uint(t: Seq<char>, max: int) -> Option<int> {
    let d = if t.len() > 0 && t[0] == '+' {
        t.drop_first()
    } else {
        t
    };
    if d.len() > 0 && all_digits(d) && digits_num(d) <= max {
        Some(digits_num(d))
    } else {
        None
    }
}

pub open spec fn num_or(es: Seq<(Seq<char>, Seq<char>)>, key: Seq<char>, d: int, max: int) -> int {
    match lookup(es, key) {
        Some(v) => match parse_uint(v, max) {
            Some(n) => n,
            None => d,
        },
        None => d,
    }
}

proof fn lemma_digits_num_nonneg(t: Seq<char>)
    requires
        all_digits(t),
    ensures
        digits_num(t) >= 0,
    decreases t.len(),
{
    if t.len() > 0 {
        assert(all_digits(t.drop_last()));
        lemma_digits_num_nonneg(t.drop_last());
        assert('0' <= t[t.len() - 1]);
    }
}

/// Reads an unsigned number no larger than `max`.
pub fn parse_number(t: &[char], max: u64) -> (r: Option<u64>)
    ensures
        match parse_uint(t@, max as int) {
            Some(n) => r == Some(n as u64),
            None => r is None,
        },
        parse_uint(t@, max as int) matches Some(n) ==> 0 <= n <= max,
{
    let start: usize = if t.len() > 0 && t[0] == '+' {
        1
    } else {
        0
    };
    let ghost d = t@.subrange(start as int, t@.len() as int);
    proof {
        if start == 1 {
            assert(t@.drop_first() == d);
        } else {
            assert(t@ == d);
        }
    }
    if t.len() == start {
        return None;
    }
    proof {
        if all_digits(d) {
            lemma_digits_num_nonneg(d);
        }
    }
    let mut acc: u128 = 0;
    let mut big = false;
    let mut i = start;
    while i < t.len()
        invariant
            start <= i <= t@.len(),
            d == t@.subrange(start as int, t@.len() as int),
            start <= 1,
            start == 1 ==> (t@.len() > 0 && t@[0] == '+'),
            start == 0 ==> !(t@.len() > 0 && t@[0] == '+'),
            all_digits(d) ==> digits_num(d) >= 0,
            forall|k: int| start <= k < i ==> '0' <= #[trigger] t@[k] && t@[k] <= '9',
            !big ==> acc == digits_num(t@.subrange(start as int, i as int)) && acc <= max,
            big ==> digits_num(t@.subrange(start as int, i as int)) > max,
        decreases t@.len() - i,
    {
        let c = t[i];
        let ghost pre = t@.subrange(start as int, i as int);
        assert(t@.subrange(start as int, i + 1).drop_last() == pre);
        if !('0' <= c && c <= '9') {
            assert(d[i - start] == c);
            assert(!all_digits(d));
            proof {
                if start == 1 {
                    assert(t@.drop_first() =~= d);
                } else {
                    assert(t@ =~= d);
                }
            }
            return None;
        }
        proof {
            assert forall|k: int| 0 <= k < pre.len() implies '0' <= #[trigger] pre[k] && pre[k] <= '9' by {
                assert(pre[k] == t@[start + k]);
            }
            lemma_digits_num_nonneg(pre);
        }
        let dv = (c as u32 - 48) as u128;
        if !big {
            let next = acc * 10 + dv;
            if next > max as u128 {
                big = true;
            } else {
                acc = next;
            }
        }
        i += 1;
    }
    proof {
        assert(t@.subrange(start as int, t@.len() as int) == d);
        if start == 1 {
            assert(t@.drop_first() =~= d);
        } else {
            assert(t@ =~= d);
        }
        assert forall|k: int| 0 <= k < d.len() implies '0' <= #[trigger] d[k] && d[k] <= '9' by {
            assert(d[k] == t@[start + k]);
        }
    }
    if big {
        return None;
    }
    Some(acc as u64)
}

impl UciSettings {
    pub open spec fn view_entries(&self) -> Seq<(Seq<char>, Seq<char>)> {
        entry_views(self.entries@)
    }

    /// The settings in the output of `uci show`.
    pub fn from_output(stdout: &str) -> (r: UciSettings)
        ensures
            r.view_entries() == uci_entries(pieces(stdout@, '\n')),
    {
        let lines = split_on(chars_of(stdout).as_slice(), '\n');
        let ghost ls = pieces(stdout@, '\n');
        let mut entries: Vec<(String, String)> = Vec::new();
        let mut i: usize = 0;
        while i < lines.len()
            invariant
                i <= lines@.len(),
                lines@.len() == ls.len(),
                ls == pieces(stdout@, '\n'),
                forall|k: int| 0 <= k < lines@.len() ==> #[trigger] lines@[k]@ == ls[k],
                entry_views(entries@) == uci_entries(ls.subrange(0, i as int)),
            decreases lines@.len() - i,
        {
            assert(ls.subrange(0, i + 1).drop_last() == ls.subrange(0, i as int));
            let line = string_of(lines[i].as_slice());
            match parse_uci_line(line.as_str()) {
                Some(e) => {
                    let ghost before = entries@;
                    entries.push(e);
                    assert(entry_views(entries@) =~= entry_views(before).push((e.0@, e.1@)));
                },
                None => {},
            }
            i += 1;
        }
        assert(ls.subrange(0, ls.len() as int) == ls);
        UciSettings { entries }
    }

    fn find(&self, key: &str) -> (r: Option<String>)
        ensures
            opt_seq(r) == lookup(self.view_entries(), key@),
    {
        let kv = chars_of(key);
        let mut j = self.entries.len();
        assert(self.view_entries().subrange(0, j as int) == self.view_entries());
        while j > 0
            invariant
                j <= self.entries@.len(),
                kv@ == key@,
                lookup(self.view_entries(), key@) == lookup(self.view_entries().subrange(0, j as int), key@),
            decreases j,
        {
            let ghost sub = self.view_entries().subrange(0, j as int);
            assert(sub.drop_last() == self.view_entries().subrange(0, j - 1));
            assert(sub.last() == (self.entries@[j - 1].0@, self.entries@[j - 1].1@));
            if chars_eq(chars_of(self.entries[j - 1].0.as_str()).as_slice(), kv.as_slice()) {
                return Some(self.entries[j - 1].1.clone());
            }
            j -= 1;
        }
        assert(self.view_entries().subrange(0, 0) == Seq::<(Seq<char>, Seq<char>)>::empty());
        None
    }

    /// A string setting, or the default.
    pub fn get_str(&self, key: &str, default: &str) -> (r: String)
        ensures
            r@ == str_or(self.view_entries(), key@, default@),
    {
        match self.find(key) {
            Some(v) => v,
            None => text(default),
        }
    }

    /// A flag setting, or the default.
    pub fn get_bool(&self, key: &str, default: bool) -> (r: bool)
        ensures
            r == bool_or(self.view_entries(), key@, default),
    {
        match self.find(key) {
            Some(v) => {
                let c = chars_of(v.as_str());
                let c = c.as_slice();
                if chars_eq(c, chars_of("1").as_slice()) || chars_eq(c, chars_of("true").as_slice()) || chars_eq(
                    c,
                    chars_of("on").as_slice(),
                ) {
                    true
                } else if chars_eq(c, chars_of("0").as_slice()) || chars_eq(c, chars_of("false").as_slice())
                    || chars_eq(c, chars_of("off").as_slice()) {
                    false
                } else {
                    default
                }
            },
            None => default,
        }
    }

    /// A number setting no larger than `max`, or the default.
    pub fn get_number(&self, key: &str, default: u64, max: u64) -> (r: u64)
        requires
            default <= max,
        ensures
            r == num_or(self.view_entries(), key@, default as int, max as int),
            r <= max,
    {
        match self.find(key) {
            Some(v) => match parse_number(chars_of(v.as_str()).as_slice(), max) {
                Some(n) => n,
                None => default,
            },
            None => default,
        }
    }

    /// The schedule settings.
    pub fn schedule_config(&self) -> (r: ScheduleConfig)
        ensures
            r.enabled == bool_or(self.view_entries(), "schedule_enabled"@, false),
            r.check_interval == num_or(self.view_entries(), "schedule_check_interval"@, 60, u64::MAX as int),
            r.timeout == num_or(self.view_entries(), "schedule_timeout"@, 180, u64::MAX as int),
            r.unlock_lte == bool_or(self.view_entries(), "schedule_unlock_lte"@, true),
            r.unlock_nr == bool_or(self.view_entries(), "schedule_unlock_nr"@, true),
            r.toggle_airplane == bool_or(self.view_entries(), "schedule_toggle_airplane"@, true),
            r.night_enabled == bool_or(self.view_entries(), "schedule_night_enabled"@, true),
            r.night_start@ == str_or(self.view_entries(), "schedule_night_start"@, "22:00"@),
            r.night_end@ == str_or(self.view_entries(), "schedule_night_end"@, "06:00"@),
            r.night_lte_type == num_or(self.view_entries(), "schedule_night_lte_type"@, 3, u8::MAX as int),
            r.night_lte_bands@ == str_or(self.view_entries(), "schedule_night_lte_bands"@, ""@),
            r.night_lte_arfcns@ == str_or(self.view_entries(), "schedule_night_lte_arfcns"@, ""@),
            r.night_lte_pcis@ == str_or(self.view_entries(), "schedule_night_lte_pcis"@, ""@),
            r.night_nr_type == num_or(self.view_entries(), "schedule_night_nr_type"@, 3, u8::MAX as int),
            r.night_nr_bands@ == str_or(self.view_entries(), "schedule_night_nr_bands"@, ""@),
            r.night_nr_arfcns@ == str_or(self.view_entries(), "schedule_night_nr_arfcns"@, ""@),
            r.night_nr_scs_types@ == str_or(self.view_entries(), "schedule_night_nr_scs_types"@, ""@),
            r.night_nr_pcis@ == str_or(self.view_entries(), "schedule_night_nr_pcis"@, ""@),
            r.day_enabled == bool_or(self.view_entries(), "schedule_day_enabled"@, true),
            r.day_lte_type == num_or(self.view_entries(), "schedule_day_lte_type"@, 3, u8::MAX as int),
            r.day_lte_bands@ == str_or(self.view_entries(), "schedule_day_lte_bands"@, ""@),
            r.day_lte_arfcns@ == str_or(self.view_entries(), "schedule_day_lte_arfcns"@, ""@),
            r.day_lte_pcis@ == str_or(self.view_entries(), "schedule_day_lte_pcis"@, ""@),
            r.day_nr_type == num_or(self.view_entries(), "schedule_day_nr_type"@, 3, u8::MAX as int),
            r.day_nr_bands@ == str_or(self.view_entries(), "schedule_day_nr_bands"@, ""@),
            r.day_nr_arfcns@ == str_or(self.view_entries(), "schedule_day_nr_arfcns"@, ""@),
            r.day_nr_scs_types@ == str_or(self.view_entries(), "schedule_day_nr_scs_types"@, ""@),
            r.day_nr_pcis@ == str_or(self.view_entries(), "schedule_day_nr_pcis"@, ""@),
    {
        ScheduleConfig {
            enabled: self.get_bool("schedule_enabled", false),
            check_interval: self.get_number("schedule_check_interval", 60, u64::MAX),
            timeout: self.get_number("schedule_timeout", 180, u64::MAX),
            unlock_lte: self.get_bool("schedule_unlock_lte", true),
            unlock_nr: self.get_bool("schedule_unlock_nr", true),
            toggle_airplane: self.get_bool("schedule_toggle_airplane", true),
            night_enabled: self.get_bool("schedule_night_enabled", true),
            night_start: self.get_str("schedule_night_start", "22:00"),
            night_end: self.get_str("schedule_night_end", "06:00"),
            night_lte_type: self.get_number("schedule_night_lte_type", 3, u8::MAX as u64) as u8,
            night_lte_bands: self.get_str("schedule_night_lte_bands", ""),
            night_lte_arfcns: self.get_str("schedule_night_lte_arfcns", ""),
            night_lte_pcis: self.get_str("schedule_night_lte_pcis", ""),
            night_nr_type: self.get_number("schedule_night_nr_type", 3, u8::MAX as u64) as u8,
            night_nr_bands: self.get_str("schedule_night_nr_bands", ""),
            night_nr_arfcns: self.get_str("schedule_night_nr_arfcns", ""),
            night_nr_scs_types: self.get_str("schedule_night_nr_scs_types", ""),
            night_nr_pcis: self.get_str("schedule_night_nr_pcis", ""),
            day_enabled: self.get_bool("schedule_day_enabled", true),
            day_lte_type: self.get_number("schedule_day_lte_type", 3, u8::MAX as u64) as u8,
            day_lte_bands: self.get_str("schedule_day_lte_bands", ""),
            day_lte_arfcns: self.get_str("schedule_day_lte_arfcns", ""),
            day_lte_pcis: self.get_str("schedule_day_lte_pcis", ""),
            day_nr_type: self.get_number("schedule_day_nr_type", 3, u8::MAX as u64) as u8,
            day_nr_bands: self.get_str("schedule_day_nr_bands", ""),
            day_nr_arfcns: self.get_str("schedule_day_nr_arfcns", ""),
            day_nr_scs_types: self.get_str("schedule_day_nr_scs_types", ""),
            day_nr_pcis: self.get_str("schedule_day_nr_pcis", ""),
        }
    }
}

pub open spec fn opt_seq(o: Option<String>) -> Option<Seq<char>> {
    match o {
        Some(s) => Some(s@),
        None => None,
    }
}

/// `None` for an empty value.
pub open spec fn non_empty(v: Seq<char>) -> Option<Seq<char>> {
    if v.len() == 0 {
        None
    } else {
        Some(v)
    }
}

/// The transport: `SERIAL` in the registry selects serial; the environment
/// variable `AT_CONNECTION_TYPE` (`SERIAL` or `NETWORK`) overrides it.
pub open spec fn connection_type_of(es: Seq<(Seq<char>, Seq<char>)>, ev: Seq<(Seq<char>, Seq<char>)>) -> ConnectionType {
    let base = if str_or(es, "connection_type"@, "NETWORK"@) == "SERIAL"@ {
        ConnectionType::Serial
    } else {
        ConnectionType::Network
    };
    match lookup(ev, "AT_CONNECTION_TYPE"@) {
        Some(v) => if v == "SERIAL"@ {
            ConnectionType::Serial
        } else if v == "NETWORK"@ {
            ConnectionType::Network
        } else {
            base
        },
        None => base,
    }
}

/// A string setting that an environment variable replaces when set.
pub open spec fn env_str_or(ev: Seq<(Seq<char>, Seq<char>)>, var: Seq<char>, v: Seq<char>) -> Seq<char> {
    match lookup(ev, var) {
        Some(e) => e,
        None => v,
    }
}

/// A number setting that an environment variable replaces when it parses.
pub open spec fn env_num_or(ev: Seq<(Seq<char>, Seq<char>)>, var: Seq<char>, max: int, v: int) -> int {
    match lookup(ev, var) {
        Some(e) => match parse_uint(e, max) {
            Some(n) => n,
            None => v,
        },
        None => v,
    }
}

/// The serial device: `serial_port`, or `serial_port_custom` when that is
/// `custom`.
pub open spec fn serial_port_of(es: Seq<(Seq<char>, Seq<char>)>) -> Seq<char> {
    let p = str_or(es, "serial_port"@, "/dev/ttyUSB0"@);
    if p == "custom"@ {
        str_or(es, "serial_port_custom"@, "/dev/ttyUSB0"@)
    } else {
        p
    }
}

fn env_number(env: &UciSettings, var: &str, max: u64, v: u64) -> (r: u64)
    requires
        v <= max,
    ensures
        r == env_num_or(env.view_entries(), var@, max as int, v as int),
        r <= max,
{
    match env.find(var) {
        Some(e) => match parse_number(chars_of(e.as_str()).as_slice(), max) {
            Some(n) => n,
            None => v,
        },
        None => v,
    }
}

fn env_string(env: &UciSettings, var: &str, v: String) -> (r: String)
    ensures
        r@ == env_str_or(env.view_entries(), var@, v@),
{
    match env.find(var) {
        Some(e) => e,
        None => v,
    }
}

fn non_empty_string(v: String) -> (r: Option<String>)
    ensures
        opt_seq(r) == non_empty(v@),
{
    if v.as_str().is_empty() {
        None
    } else {
        Some(v)
    }
}

impl Config {
    /// The configuration from the registry's settings, the DNS list read
    /// separately (the default pair when empty), and the environment's
    /// overrides of the transport and the log file.
    pub fn from_uci(settings: &UciSettings, dns_list: Vec<String>, env: &UciSettings) -> (r: Config)
        ensures
            r.at_config.connection_type == connection_type_of(settings.view_entries(), env.view_entries()),
            r.at_config.network.host@ == env_str_or(
                env.view_entries(),
                "AT_NETWORK_HOST"@,
                str_or(settings.view_entries(), "network_host"@, "192.168.8.1"@),
            ),
            r.at_config.network.port == env_num_or(
                env.view_entries(),
                "AT_NETWORK_PORT"@,
                u16::MAX as int,
                num_or(settings.view_entries(), "network_port"@, 20249, u16::MAX as int),
            ),
            r.at_config.network.timeout == num_or(settings.view_entries(), "network_timeout"@, 10, u64::MAX as int),
            r.at_config.serial.port@ == env_str_or(env.view_entries(), "AT_SERIAL_PORT"@, serial_port_of(settings.view_entries())),
            r.at_config.serial.baudrate == env_num_or(
                env.view_entries(),
                "AT_SERIAL_BAUDRATE"@,
                u32::MAX as int,
                num_or(settings.view_entries(), "serial_baudrate"@, 115200, u32::MAX as int),
            ),
            r.at_config.serial.timeout == num_or(settings.view_entries(), "serial_timeout"@, 10, u64::MAX as int),
            opt_seq(r.notification_config.wechat_webhook) == non_empty(str_or(settings.view_entries(), "wechat_webhook"@, ""@)),
            opt_seq(r.notification_config.log_file) == match lookup(env.view_entries(), "AT_LOG_FILE"@) {
                Some(v) => Some(v),
                None => non_empty(str_or(settings.view_entries(), "log_file"@, ""@)),
            },
            r.notification_config.notify_sms == bool_or(settings.view_entries(), "notify_sms"@, true),
            r.notification_config.notify_call == bool_or(settings.view_entries(), "notify_call"@, true),
            r.notification_config.notify_memory_full == bool_or(settings.view_entries(), "notify_memory_full"@, true),
            r.notification_config.notify_signal == bool_or(settings.view_entries(), "notify_signal"@, true),
            r.websocket_config.ipv4.host@ == "0.0.0.0"@,
            r.websocket_config.ipv6.host@ == "::"@,
            r.websocket_config.ipv4.port == num_or(settings.view_entries(), "websocket_port"@, 8765, u16::MAX as int),
            r.websocket_config.ipv6.port == r.websocket_config.ipv4.port,
            opt_seq(r.websocket_config.auth_key) == non_empty(str_or(settings.view_entries(), "websocket_auth_key"@, ""@)),
            r.advanced_network_config.pdp_type@ == str_or(settings.view_entries(), "pdp_type"@, "ipv4v6"@),
            r.advanced_network_config.ra_master == bool_or(settings.view_entries(), "ra_master"@, false),
            r.advanced_network_config.extend_prefix == bool_or(settings.view_entries(), "extend_prefix"@, true),
            r.advanced_network_config.do_not_add_dns == bool_or(settings.view_entries(), "do_not_add_dns"@, false),
            dns_list@.len() > 0 ==> r.advanced_network_config.dns_list@ == dns_list@,
            dns_list@.len() == 0 ==> crate::text::views(r.advanced_network_config.dns_list@) == seq![
                "223.5.5.5"@,
                "119.29.29.29"@,
            ],
            r.advanced_network_config.ifname@ == "auto"@,
            r.schedule_config.enabled == bool_or(settings.view_entries(), "schedule_enabled"@, false),
            r.schedule_config.night_start@ == str_or(settings.view_entries(), "schedule_night_start"@, "22:00"@),
            r.schedule_config.day_lte_bands@ == str_or(settings.view_entries(), "schedule_day_lte_bands"@, ""@),
    {
        let es = settings;
        let ct = es.get_str("connection_type", "NETWORK");
        let mut connection_type = if chars_eq(chars_of(ct.as_str()).as_slice(), chars_of("SERIAL").as_slice()) {
            ConnectionType::Serial
        } else {
            ConnectionType::Network
        };
        match env.find("AT_CONNECTION_TYPE") {
            Some(v) => {
                let c = chars_of(v.as_str());
                if chars_eq(c.as_slice(), chars_of("SERIAL").as_slice()) {
                    connection_type = ConnectionType::Serial;
                } else if chars_eq(c.as_slice(), chars_of("NETWORK").as_slice()) {
                    connection_type = ConnectionType::Network;
                }
            },
            None => {},
        }
        let host = env_string(env, "AT_NETWORK_HOST", es.get_str("network_host", "192.168.8.1"));
        let port = env_number(env, "AT_NETWORK_PORT", u16::MAX as u64, es.get_number("network_port", 20249, u16::MAX as u64)) as u16;
        let mut serial_port = es.get_str("serial_port", "/dev/ttyUSB0");
        if chars_eq(chars_of(serial_port.as_str()).as_slice(), chars_of("custom").as_slice()) {
            serial_port = es.get_str("serial_port_custom", "/dev/ttyUSB0");
        }
        let serial_port = env_string(env, "AT_SERIAL_PORT", serial_port);
        let baudrate = env_number(
            env,
            "AT_SERIAL_BAUDRATE",
            u32::MAX as u64,
            es.get_number("serial_baudrate", 115200, u32::MAX as u64),
        ) as u32;
        let log_file = match env.find("AT_LOG_FILE") {
            Some(v) => Some(v),
            None => non_empty_string(es.get_str("log_file", "")),
        };
        let ws_port = es.get_number("websocket_port", 8765, u16::MAX as u64) as u16;
        let dns = if dns_list.len() > 0 {
            dns_list
        } else {
            let mut d: Vec<String> = Vec::new();
            d.push(text("223.5.5.5"));
            d.push(text("119.29.29.29"));
            assert(crate::text::views(d@) =~= seq!["223.5.5.5"@, "119.29.29.29"@]);
            d
        };
        Config {
            at_config: AtConfig {
                connection_type,
                network: NetworkConfig {
                    host,
                    port,
                    timeout: es.get_number("network_timeout", 10, u64::MAX),
                },
                serial: SerialConfig {
                    port: serial_port,
                    baudrate,
                    timeout: es.get_number("serial_timeout", 10, u64::MAX),
                },
            },
            notification_config: NotificationConfig {
                wechat_webhook: non_empty_string(es.get_str("wechat_webhook", "")),
                log_file,
                notify_sms: es.get_bool("notify_sms", true),
                notify_call: es.get_bool("notify_call", true),
                notify_memory_full: es.get_bool("notify_memory_full", true),
                notify_signal: es.get_bool("notify_signal", true),
            },
            websocket_config: WebSocketConfig {
                ipv4: IpConfig { host: text("0.0.0.0"), port: ws_port },
                ipv6: IpConfig { host: text("::"), port: ws_port },
                auth_key: non_empty_string(es.get_str("websocket_auth_key", "")),
            },
            schedule_config: es.schedule_config(),
            advanced_network_config: AdvancedNetworkConfig {
                pdp_type: es.get_str("pdp_type", "ipv4v6"),
                ra_master: es.get_bool("ra_master", false),
                extend_prefix: es.get_bool("extend_prefix", true),
                do_not_add_dns: es.get_bool("do_not_add_dns", false),
                dns_list: dns,
                ifname: text("auto"),
            },
        }
    }
}

/// The words that `str::split_whitespace` finds in a text.
pub uninterp spec fn words_of(s: Seq<char>) -> Seq<Seq<char>>;

/// Relies on `str::split_whitespace`: the words of a text, in order.
#[verifier::external_body]
fn split_words(stdout: &str) -> (r: Vec<String>)
    ensures
        views(r@) == words_of(stdout@),
{
    let mut v: Vec<String> = Vec::new();
    for w in stdout.split_whitespace() {
        v.push(w.to_string());
    }
    v
}

/// The DNS servers that `uci get` prints, one word each.
pub fn dns_servers(stdout: &str) -> (r: Vec<String>)
    ensures
        views(r@) == words_of(stdout@),
{
    split_words(stdout)
}

} // verus!
