//! The partial-SMS cache: parts of long messages, keyed by sender and
//! concatenation reference, until every part is in.
use vstd::prelude::*;
use crate::pdu::PartialInfo;
use crate::text::{chars_eq, chars_of, push_chars};

verus! {

/// Seconds after its last update at which an incomplete entry is dropped.
pub const PARTIAL_TTL_SECS: u64 = 3600;

/// Slots per entry: one for each possible part number.
pub const SLOTS: usize = 256;

/// One incomplete message: who sent it, its reference, how many parts it
/// has, the text of each part received (slot = part number), and when it
/// was last updated.
pub struct PartialEntry {
    sender: Vec<char>,
    reference: u16,
    parts_count: u8,
    slots: Vec<Option<String>>,
    updated: u64,
}

pub struct EntryView {
    pub sender: Seq<char>,
    pub reference: u16,
    pub parts_count: u8,
    pub slots: Seq<Option<Seq<char>>>,
    pub updated: u64,
}

pub open spec fn slot_view(o: Option<String>) -> Option<Seq<char>> {
    match o {
        Some(s) => Some(s@),
        None => None,
    }
}

impl View for PartialEntry {
    type V = EntryView;

    closed spec fn view(&self) -> EntryView {
        EntryView {
            sender: self.sender@,
            reference: self.reference,
            parts_count: self.parts_count,
            slots: self.slots@.map_values(|o: Option<String>| slot_view(o)),
            updated: self.updated,
        }
    }
}

/// How many slots hold a part.
pub open spec fn filled(s: Seq<Option<Seq<char>>>) -> nat
    decreases s.len(),
{
    if s.len() == 0 {
        0
    } else {
        filled(s.drop_last()) + if s.last() is Some {
            1nat
        } else {
            0nat
        }
    }
}

/// The parts numbered 1 to `n`, in order, each one that is present.
pub open spec fn assembled(s: Seq<Option<Seq<char>>>, n: int) -> Seq<char>
    decreases n,
{
    if n <= 0 {
        seq![]
    } else {
        assembled(s, n - 1) + match s[n] {
            Some(t) => t,
            None => seq![],
        }
    }
}

/// An entry whose last update lies `PARTIAL_TTL_SECS` or more before `now`.
pub open spec fn expired(e: EntryView, now: u64) -> bool {
    now >= e.updated && now - e.updated >= PARTIAL_TTL_SECS
}

/// The cache: at most one entry per (sender, reference).
pub struct PartialSmsCache {
    entries: Vec<PartialEntry>,
}

impl View for PartialSmsCache {
    type V = Seq<EntryView>;

    closed spec fn view(&self) -> Seq<EntryView> {
        self.entries@.map_values(|e: PartialEntry| e@)
    }
}

/// Index of the entry for (sender, reference), or -1.
pub open spec fn key_index(es: Seq<EntryView>, sender: Seq<char>, reference: u16) -> int
    decreases es.len(),
{
    if es.len() == 0 {
        -1
    } else if es.last().sender == sender && es.last().reference == reference {
        es.len() - 1
    } else {
        key_index(es.drop_last(), sender, reference)
    }
}

proof fn lemma_key_index_bound(es: Seq<EntryView>, sender: Seq<char>, reference: u16)
    ensures
        -1 <= key_index(es, sender, reference) < es.len(),
        key_index(es, sender, reference) >= 0 ==> es[key_index(es, sender, reference)].sender == sender
            && es[key_index(es, sender, reference)].reference == reference,
        key_index(es, sender, reference) == -1 ==> forall|k: int| 0 <= k < es.len() ==> !(#[trigger] es[k].sender
            == sender && es[k].reference == reference),
    decreases es.len(),
{
    if es.len() > 0 {
        lemma_key_index_bound(es.drop_last(), sender, reference);
        if key_index(es, sender, reference) == -1 {
            assert forall|k: int| 0 <= k < es.len() implies !(#[trigger] es[k].sender == sender && es[k].reference
                == reference) by {
                if k < es.len() - 1 {
                    assert(es[k] == es.drop_last()[k]);
                }
            }
        }
    }
}

/// No two entries share a (sender, reference) key.
pub open spec fn keys_unique(es: Seq<EntryView>) -> bool {
    forall|i: int, j: int|
        0 <= i < es.len() && 0 <= j < es.len() && i != j ==> !(#[trigger] es[i].sender == #[trigger] es[j].sender
            && es[i].reference == es[j].reference)
}

proof fn lemma_remove_unique(es: Seq<EntryView>, i: int)
    requires
        keys_unique(es),
        0 <= i < es.len(),
    ensures
        keys_unique(es.remove(i)),
{
    let r = es.remove(i);
    assert forall|a: int, b: int| 0 <= a < r.len() && 0 <= b < r.len() && a != b implies !(
    #[trigger] r[a].sender == #[trigger] r[b].sender && r[a].reference == r[b].reference) by {
        let oa = if a < i { a } else { a + 1 };
        let ob = if b < i { b } else { b + 1 };
        assert(r[a] == es[oa]);
        assert(r[b] == es[ob]);
    }
}

proof fn lemma_update_unique(es: Seq<EntryView>, i: int, e: EntryView)
    requires
        keys_unique(es),
        0 <= i < es.len(),
        e.sender == es[i].sender,
        e.reference == es[i].reference,
    ensures
        keys_unique(es.update(i, e)),
{
    let u = es.update(i, e);
    assert forall|a: int, b: int| 0 <= a < u.len() && 0 <= b < u.len() && a != b implies !(
    #[trigger] u[a].sender == #[trigger] u[b].sender && u[a].reference == u[b].reference) by {
        assert(u[a].sender == es[a].sender && u[a].reference == es[a].reference);
        assert(u[b].sender == es[b].sender && u[b].reference == es[b].reference);
    }
}

proof fn lemma_push_unique(es: Seq<EntryView>, e: EntryView)
    requires
        keys_unique(es),
        key_index(es, e.sender, e.reference) == -1,
    ensures
        keys_unique(es.push(e)),
{
    lemma_key_index_bound(es, e.sender, e.reference);
    let u = es.push(e);
    assert forall|a: int, b: int| 0 <= a < u.len() && 0 <= b < u.len() && a != b implies !(
    #[trigger] u[a].sender == #[trigger] u[b].sender && u[a].reference == u[b].reference) by {
        if a == es.len() {
            assert(u[b] == es[b]);
            assert(!(es[b].sender == e.sender && es[b].reference == e.reference));
        } else if b == es.len() {
            assert(u[a] == es[a]);
            assert(!(es[a].sender == e.sender && es[a].reference == e.reference));
        } else {
            assert(u[a] == es[a]);
            assert(u[b] == es[b]);
        }
    }
}

/// The entries left after dropping the expired ones, in order.
pub open spec fn evict(es: Seq<EntryView>, now: u64) -> Seq<EntryView> {
    es.filter(|e: EntryView| !expired(e, now))
}

/// The entry for a part: the existing one for its key with the slot set and
/// the time refreshed, or a new one.
pub open spec fn entry_with(es: Seq<EntryView>, sender: Seq<char>, info: PartialInfo, text: Seq<char>, now: u64) -> EntryView {
    let i = key_index(es, sender, info.reference);
    let base = if i >= 0 {
        es[i]
    } else {
        EntryView {
            sender,
            reference: info.reference,
            parts_count: info.parts_count,
            slots: Seq::new(SLOTS as nat, |k: int| None),
            updated: now,
        }
    };
    EntryView { slots: base.slots.update(info.part_number as int, Some(text)), updated: now, ..base }
}

/// The cache after one part arrives, and the whole text if it completed the
/// message (whose entry then leaves the cache).
pub open spec fn cache_step(es: Seq<EntryView>, sender: Seq<char>, info: PartialInfo, text: Seq<char>, now: u64) -> (Seq<EntryView>, Option<Seq<char>>) {
    let kept = evict(es, now);
    let i = key_index(kept, sender, info.reference);
    let e = entry_with(kept, sender, info, text, now);
    if filled(e.slots) == e.parts_count {
        (if i >= 0 {
            kept.remove(i)
        } else {
            kept
        }, Some(assembled(e.slots, e.parts_count as int)))
    } else {
        (if i >= 0 {
            kept.update(i, e)
        } else {
            kept.push(e)
        }, None)
    }
}

impl PartialEntry {
    pub closed spec fn wf(&self) -> bool {
        self.slots@.len() == SLOTS
    }
}

impl PartialSmsCache {
    /// Every entry has a slot per part number, and no two entries share a
    /// (sender, reference) key.
    pub closed spec fn wf(&self) -> bool {
        &&& forall|i: int| 0 <= i < self.entries@.len() ==> (#[trigger] self.entries@[i]).wf()
        &&& keys_unique(self@)
    }

    pub fn new() -> (r: PartialSmsCache)
        ensures
            r@ == Seq::<EntryView>::empty(),
            r.wf(),
    {
        let r = PartialSmsCache { entries: Vec::new() };
        assert(r@ =~= Seq::<EntryView>::empty());
        r
    }

    pub fn len(&self) -> (r: usize)
        ensures
            r == self@.len(),
    {
        self.entries.len()
    }

    fn evict_expired(&mut self, now: u64)
        requires
            old(self).wf(),
        ensures
            final(self).wf(),
            final(self)@ == evict(old(self)@, now),
    {
        let ghost all = self@;
        let ghost n = all.len();
        let len0 = self.entries.len();
        assert(n == len0);
        let mut i: usize = 0;
        let mut j: usize = 0;
        proof {
            assert(all.subrange(0, 0) == Seq::<EntryView>::empty());
            reveal(Seq::filter);
            assert(evict(all.subrange(0, 0), now) == Seq::<EntryView>::empty());
            assert(self@ == evict(all.subrange(0, 0), now) + all.subrange(0, n as int));
        }
        while i < self.entries.len()
            invariant
                self.wf(),
                0 <= j <= n,
                n == all.len(),
                n <= usize::MAX,
                i == evict(all.subrange(0, j as int), now).len(),
                self@ == evict(all.subrange(0, j as int), now) + all.subrange(j as int, n as int),
            decreases n - j,
        {
            proof {
                reveal(Seq::filter);
                assert(all.subrange(0, j + 1).drop_last() == all.subrange(0, j as int));
                assert(self@[i as int] == all[j as int]);
                assert(all.subrange(j as int, n as int).drop_first() == all.subrange(j + 1, n as int));
            }
            assert(j < n);
            let e = &self.entries[i];
            let gone = now >= e.updated && now - e.updated >= PARTIAL_TTL_SECS;
            if gone {
                let ghost before = self@;
                self.entries.remove(i);
                assert(self@ == before.remove(i as int));
                proof {
                    lemma_remove_unique(before, i as int);
                }
                assert(self@ =~= evict(all.subrange(0, j + 1), now) + all.subrange(j + 1, n as int));
            } else {
                assert(self@ =~= evict(all.subrange(0, j + 1), now) + all.subrange(j + 1, n as int));
                i += 1;
            }
            j += 1;
        }
        proof {
            assert(all.subrange(j as int, n as int).len() == 0);
            assert(all.subrange(0, j as int) == all);
            assert(self@ =~= evict(all, now));
        }
    }

    fn find(&self, sender: &[char], reference: u16) -> (r: Option<usize>)
        ensures
            match r {
                Some(i) => i as int == key_index(self@, sender@, reference),
                None => key_index(self@, sender@, reference) == -1,
            },
            key_index(self@, sender@, reference) < self@.len(),
    {
        let mut j = self.entries.len();
        proof {
            assert(self@.subrange(0, j as int) == self@);
            lemma_key_index_bound(self@, sender@, reference);
        }
        while j > 0
            invariant
                j <= self@.len(),
                key_index(self@, sender@, reference) == key_index(self@.subrange(0, j as int), sender@, reference),
            decreases j,
        {
            let e = &self.entries[j - 1];
            proof {
                let sub = self@.subrange(0, j as int);
                assert(sub.last() == e@);
                assert(sub.drop_last() == self@.subrange(0, j - 1));
            }
            if e.reference == reference && chars_eq(e.sender.as_slice(), sender) {
                return Some(j - 1);
            }
            j -= 1;
        }
        assert(self@.subrange(0, 0) == Seq::<EntryView>::empty());
        None
    }

    /// Takes one part of a long message. Expired entries are dropped first;
    /// the part goes into the entry for its (sender, reference), made if
    /// missing, whose time is refreshed. When the entry then holds as many
    /// parts as the message has, it leaves the cache and the parts numbered
    /// 1 to that count come back joined in order.
    pub fn insert_part(&mut self, sender: &str, info: PartialInfo, content: &str, now: u64) -> (r: Option<String>)
        requires
            old(self).wf(),
        ensures
            final(self).wf(),
            keys_unique(final(self)@),
            final(self)@ == cache_step(old(self)@, sender@, info, content@, now).0,
            slot_view(r) == cache_step(old(self)@, sender@, info, content@, now).1,
    {
        self.evict_expired(now);
        let ghost kept = self@;
        assert(keys_unique(kept));
        let sv = chars_of(sender);
        let found = self.find(sv.as_slice(), info.reference);
        let mut e = match found {
            Some(i) => {
                let x = self.entries.remove(i);
                assert(self@ =~= kept.remove(i as int));
                x
            },
            None => {
                let mut slots: Vec<Option<String>> = Vec::new();
                while slots.len() < SLOTS
                    invariant
                        slots@.len() <= SLOTS,
                        forall|k: int| 0 <= k < slots@.len() ==> slots@[k] is None,
                    decreases SLOTS - slots@.len(),
                {
                    slots.push(None);
                }
                let fresh = PartialEntry {
                    sender: sv,
                    reference: info.reference,
                    parts_count: info.parts_count,
                    slots,
                    updated: now,
                };
                assert(fresh@.slots =~= Seq::new(SLOTS as nat, |k: int| None::<Seq<char>>));
                fresh
            },
        };
        let ghost base = e@;
        let ghost want = entry_with(kept, sender@, info, content@, now);
        let k = info.part_number as usize;
        e.slots[k] = Some(content.to_owned());
        e.updated = now;
        proof {
            assert(e@.slots =~= base.slots.update(k as int, Some(content@)));
            assert(e@ == want);
        }
        let mut cnt: usize = 0;
        let mut q: usize = 0;
        while q < e.slots.len()
            invariant
                e.slots@.len() == SLOTS,
                q <= SLOTS,
                cnt == filled(e@.slots.subrange(0, q as int)),
                cnt <= q,
            decreases SLOTS - q,
        {
            assert(e@.slots.subrange(0, q + 1).drop_last() == e@.slots.subrange(0, q as int));
            if e.slots[q].is_some() {
                cnt += 1;
            }
            q += 1;
        }
        assert(e@.slots.subrange(0, SLOTS as int) == e@.slots);
        if cnt == e.parts_count as usize {
            let mut text = String::new();
            let mut m: usize = 1;
            while m <= e.parts_count as usize
                invariant
                    e.slots@.len() == SLOTS,
                    e.parts_count < SLOTS,
                    1 <= m <= e.parts_count as usize + 1,
                    text@ == assembled(e@.slots, m - 1),
                decreases e.parts_count as usize + 1 - m,
            {
                match &e.slots[m] {
                    Some(t) => {
                        let tv = chars_of(t.as_str());
                        push_chars(&mut text, tv.as_slice());
                    },
                    None => {},
                }
                m += 1;
            }
            proof {
                if found is Some {
                    lemma_remove_unique(kept, found->Some_0 as int);
                }
            }
            Some(text)
        } else {
            match found {
                Some(i) => {
                    self.entries.insert(i, e);
                    assert(self@ =~= kept.update(i as int, want));
                    proof {
                        lemma_key_index_bound(kept, sender@, info.reference);
                        lemma_update_unique(kept, i as int, want);
                    }
                },
                None => {
                    self.entries.push(e);
                    assert(self@ =~= kept.push(want));
                    proof {
                        lemma_push_unique(kept, want);
                    }
                },
            }
            None
        }
    }
}

/// Slots after the parts `ps` (part number, text) are put into `s`, one
/// after another, as `insert_part` puts each into its entry.
pub open spec fn fill(s: Seq<Option<Seq<char>>>, ps: Seq<(u8, Seq<char>)>) -> Seq<Option<Seq<char>>>
    decreases ps.len(),
{
    if ps.len() == 0 {
        s
    } else {
        fill(s.update(ps[0].0 as int, Some(ps[0].1)), ps.drop_first())
    }
}

pub open spec fn distinct_numbers(ps: Seq<(u8, Seq<char>)>) -> bool {
    forall|i: int, j: int| 0 <= i < ps.len() && 0 <= j < ps.len() && i != j ==> #[trigger] ps[i].0 != #[trigger] ps[j].0
}

pub open spec fn empty_slots() -> Seq<Option<Seq<char>>> {
    Seq::new(SLOTS as nat, |k: int| None)
}

proof fn lemma_fill_at(s: Seq<Option<Seq<char>>>, ps: Seq<(u8, Seq<char>)>)
    requires
        s.len() == SLOTS,
        distinct_numbers(ps),
    ensures
        fill(s, ps).len() == SLOTS,
        forall|i: int| 0 <= i < ps.len() ==> fill(s, ps)[#[trigger] ps[i].0 as int] == Some(ps[i].1),
        forall|k: int| 0 <= k < SLOTS && (forall|i: int| 0 <= i < ps.len() ==> #[trigger] ps[i].0 != k) ==> fill(s, ps)[k] == s[k],
    decreases ps.len(),
{
    if ps.len() > 0 {
        let s1 = s.update(ps[0].0 as int, Some(ps[0].1));
        let t = ps.drop_first();
        assert(distinct_numbers(t)) by {
            assert forall|i: int, j: int| 0 <= i < t.len() && 0 <= j < t.len() && i != j implies #[trigger] t[i].0 != #[trigger] t[j].0 by {
                assert(t[i] == ps[i + 1]);
                assert(t[j] == ps[j + 1]);
            }
        }
        lemma_fill_at(s1, t);
        assert(fill(s, ps) == fill(s1, t));
        assert forall|i: int| 0 <= i < ps.len() implies fill(s, ps)[#[trigger] ps[i].0 as int] == Some(ps[i].1) by {
            if i == 0 {
                let k0 = ps[0].0 as int;
                assert forall|j: int| 0 <= j < t.len() implies #[trigger] t[j].0 != k0 by {
                    assert(t[j] == ps[j + 1]);
                    assert(ps[j + 1].0 != ps[0].0);
                }
                assert(fill(s1, t)[k0] == s1[k0]);
            } else {
                assert(t[i - 1] == ps[i]);
                assert(fill(s1, t)[t[i - 1].0 as int] == Some(t[i - 1].1));
            }
        }
        assert forall|k: int| 0 <= k < SLOTS && (forall|i: int| 0 <= i < ps.len() ==> #[trigger] ps[i].0 != k) implies fill(s, ps)[k] == s[k] by {
            assert(ps[0].0 != k);
            assert forall|j: int| 0 <= j < t.len() implies #[trigger] t[j].0 != k by {
                assert(t[j] == ps[j + 1]);
            }
            assert(fill(s1, t)[k] == s1[k]);
        }
    }
}

proof fn lemma_assembled_ext(a: Seq<Option<Seq<char>>>, b: Seq<Option<Seq<char>>>, n: int)
    requires
        a == b,
    ensures
        assembled(a, n) == assembled(b, n),
{
}

/// The order in which the parts of one message arrive does not matter: any
/// two orders of the same parts (distinct part numbers) fill the same slots,
/// so the joined text is the same.
pub proof fn lemma_part_order_irrelevant(ps1: Seq<(u8, Seq<char>)>, ps2: Seq<(u8, Seq<char>)>, n: int)
    requires
        distinct_numbers(ps1),
        distinct_numbers(ps2),
        ps1.to_set() == ps2.to_set(),
    ensures
        fill(empty_slots(), ps1) == fill(empty_slots(), ps2),
        assembled(fill(empty_slots(), ps1), n) == assembled(fill(empty_slots(), ps2), n),
{
    let e = empty_slots();
    lemma_fill_at(e, ps1);
    lemma_fill_at(e, ps2);
    let f1 = fill(e, ps1);
    let f2 = fill(e, ps2);
    assert forall|k: int| 0 <= k < SLOTS implies f1[k] == f2[k] by {
        if exists|i: int| 0 <= i < ps1.len() && #[trigger] ps1[i].0 == k {
            let i = choose|i: int| 0 <= i < ps1.len() && #[trigger] ps1[i].0 == k;
            assert(ps1.to_set().contains(ps1[i]));
            assert(ps2.to_set().contains(ps1[i]));
            let j = choose|j: int| 0 <= j < ps2.len() && ps2[j] == ps1[i];
            assert(ps2[j].0 == k);
        } else if exists|j: int| 0 <= j < ps2.len() && #[trigger] ps2[j].0 == k {
            let j = choose|j: int| 0 <= j < ps2.len() && #[trigger] ps2[j].0 == k;
            assert(ps2.to_set().contains(ps2[j]));
            assert(ps1.to_set().contains(ps2[j]));
            let i = choose|i: int| 0 <= i < ps1.len() && ps1[i] == ps2[j];
            assert(ps1[i].0 == k);
        } else {
            assert(f1[k] == e[k]);
            assert(f2[k] == e[k]);
        }
    }
    assert(f1 =~= f2);
    lemma_assembled_ext(f1, f2, n);
}

/// The (part number, text) pairs of arriving parts.
pub open spec fn parts_of(ps: Seq<(PartialInfo, Seq<char>)>) -> Seq<(u8, Seq<char>)> {
    ps.map_values(|p: (PartialInfo, Seq<char>)| (p.0.part_number, p.1))
}

/// The cache after the parts `ps` of one sender arrive one after another at
/// time `now`, and what the last arrival gave back.
pub open spec fn run_parts(es: Seq<EntryView>, sender: Seq<char>, ps: Seq<(PartialInfo, Seq<char>)>, now: u64) -> (Seq<EntryView>, Option<Seq<char>>)
    decreases ps.len(),
{
    if ps.len() == 0 {
        (es, None)
    } else {
        let step = cache_step(es, sender, ps[0].0, ps[0].1, now);
        if ps.len() == 1 {
            step
        } else {
            run_parts(step.0, sender, ps.drop_first(), now)
        }
    }
}

/// No entry has expired at `now`.
pub open spec fn none_expired(es: Seq<EntryView>, now: u64) -> bool {
    forall|i: int| 0 <= i < es.len() ==> !expired(#[trigger] es[i], now)
}

/// The parts all belong to message `reference` of `n` parts.
pub open spec fn one_message(ps: Seq<(PartialInfo, Seq<char>)>, reference: u16, n: u8) -> bool {
    forall|i: int| 0 <= i < ps.len() ==> (#[trigger] ps[i]).0.reference == reference && ps[i].0.parts_count == n
}

proof fn lemma_filled_update(s: Seq<Option<Seq<char>>>, j: int, t: Seq<char>)
    requires
        0 <= j < s.len(),
        s[j] is None,
    ensures
        filled(s.update(j, Some(t))) == filled(s) + 1,
    decreases s.len(),
{
    let u = s.update(j, Some(t));
    if j == s.len() - 1 {
        assert(u.drop_last() == s.drop_last());
    } else {
        assert(u.drop_last() == s.drop_last().update(j, Some(t)));
        lemma_filled_update(s.drop_last(), j, t);
    }
}

proof fn lemma_evict_none_expired(es: Seq<EntryView>, now: u64)
    requires
        none_expired(es, now),
    ensures
        evict(es, now) == es,
    decreases es.len(),
{
    reveal(Seq::filter);
    if es.len() > 0 {
        assert(none_expired(es.drop_last(), now)) by {
            assert forall|i: int| 0 <= i < es.drop_last().len() implies !expired(#[trigger] es.drop_last()[i], now) by {
                assert(es.drop_last()[i] == es[i]);
            }
        }
        lemma_evict_none_expired(es.drop_last(), now);
        assert(!expired(es.last(), now));
        assert(es.drop_last().push(es.last()) == es);
    }
}

proof fn lemma_key_index_is(es: Seq<EntryView>, j: int)
    requires
        keys_unique(es),
        0 <= j < es.len(),
    ensures
        key_index(es, es[j].sender, es[j].reference) == j,
{
    lemma_key_index_bound(es, es[j].sender, es[j].reference);
    let k = key_index(es, es[j].sender, es[j].reference);
    if k == -1 {
        assert(!(es[j].sender == es[j].sender && es[j].reference == es[j].reference));
    } else if k != j {
        assert(!(es[k].sender == es[j].sender && es[k].reference == es[j].reference));
    }
}

/// The run from a cache that holds the message's entry (slots `sl`), with
/// the remaining parts `ps`, ends with the joined text of `fill(sl, ps)`.
proof fn lemma_run_from_entry(es: Seq<EntryView>, sender: Seq<char>, ps: Seq<(PartialInfo, Seq<char>)>, now: u64, j: int, r: u16, n: u8)
    requires
        ps.len() >= 1,
        keys_unique(es),
        none_expired(es, now),
        0 <= j < es.len(),
        es[j].sender == sender,
        es[j].reference == r,
        es[j].parts_count == n,
        es[j].slots.len() == SLOTS,
        one_message(ps, r, n),
        distinct_numbers(parts_of(ps)),
        forall|i: int| 0 <= i < ps.len() ==> es[j].slots[(#[trigger] ps[i]).0.part_number as int] is None,
        filled(es[j].slots) + ps.len() == n,
    ensures
        run_parts(es, sender, ps, now).1 == Some(assembled(fill(es[j].slots, parts_of(ps)), n as int)),
    decreases ps.len(),
{
    let sl = es[j].slots;
    let p0 = ps[0];
    lemma_evict_none_expired(es, now);
    lemma_key_index_is(es, j);
    let e = entry_with(es, sender, p0.0, p0.1, now);
    let sl1 = sl.update(p0.0.part_number as int, Some(p0.1));
    assert(e.slots == sl1);
    assert(e.parts_count == n);
    lemma_filled_update(sl, p0.0.part_number as int, p0.1);
    assert(parts_of(ps)[0] == (p0.0.part_number, p0.1));
    assert(parts_of(ps).drop_first() == parts_of(ps.drop_first()));
    assert(fill(sl, parts_of(ps)) == fill(sl1, parts_of(ps.drop_first())));
    if ps.len() == 1 {
        assert(parts_of(ps.drop_first()).len() == 0);
        assert(fill(sl1, parts_of(ps.drop_first())) == sl1);
    } else {
        let es1 = es.update(j, e);
        assert(cache_step(es, sender, p0.0, p0.1, now).0 == es1);
        lemma_update_unique(es, j, e);
        assert(none_expired(es1, now)) by {
            assert forall|i: int| 0 <= i < es1.len() implies !expired(#[trigger] es1[i], now) by {
                if i != j {
                    assert(es1[i] == es[i]);
                }
            }
        }
        let rest = ps.drop_first();
        assert(one_message(rest, r, n)) by {
            assert forall|i: int| 0 <= i < rest.len() implies (#[trigger] rest[i]).0.reference == r && rest[i].0.parts_count == n by {
                assert(rest[i] == ps[i + 1]);
            }
        }
        assert(distinct_numbers(parts_of(rest))) by {
            assert forall|a: int, b: int| 0 <= a < parts_of(rest).len() && 0 <= b < parts_of(rest).len() && a != b implies #[trigger] parts_of(rest)[a].0 != #[trigger] parts_of(rest)[b].0 by {
                assert(parts_of(rest)[a] == parts_of(ps)[a + 1]);
                assert(parts_of(rest)[b] == parts_of(ps)[b + 1]);
            }
        }
        assert forall|i: int| 0 <= i < rest.len() implies es1[j].slots[(#[trigger] rest[i]).0.part_number as int] is None by {
            assert(rest[i] == ps[i + 1]);
            assert(parts_of(ps)[i + 1].0 != parts_of(ps)[0].0);
            assert(sl[ps[i + 1].0.part_number as int] is None);
        }
        lemma_run_from_entry(es1, sender, rest, now, j, r, n);
    }
}

/// The parts of one long message may arrive in any order: starting from a
/// cache without its entry (and no entry expired at `now`), any two orders
/// of the same `n` parts, with distinct part numbers, each end with the
/// joined text of parts 1 to `n`, and the two texts are equal.
pub proof fn lemma_arrival_order_irrelevant(
    es: Seq<EntryView>,
    sender: Seq<char>,
    ps1: Seq<(PartialInfo, Seq<char>)>,
    ps2: Seq<(PartialInfo, Seq<char>)>,
    now: u64,
    r: u16,
    n: u8,
)
    requires
        keys_unique(es),
        none_expired(es, now),
        key_index(es, sender, r) == -1,
        ps1.len() == n && ps2.len() == n && n >= 1,
        one_message(ps1, r, n),
        one_message(ps2, r, n),
        distinct_numbers(parts_of(ps1)),
        distinct_numbers(parts_of(ps2)),
        parts_of(ps1).to_set() == parts_of(ps2).to_set(),
    ensures
        run_parts(es, sender, ps1, now).1 == Some(assembled(fill(empty_slots(), parts_of(ps1)), n as int)),
        run_parts(es, sender, ps1, now).1 == run_parts(es, sender, ps2, now).1,
{
    lemma_first_part(es, sender, ps1, now, r, n);
    lemma_first_part(es, sender, ps2, now, r, n);
    lemma_part_order_irrelevant(parts_of(ps1), parts_of(ps2), n as int);
}

proof fn lemma_filled_empty(k: nat)
    ensures
        filled(Seq::new(k, |i: int| None::<Seq<char>>)) == 0,
    decreases k,
{
    if k > 0 {
        assert(Seq::new(k, |i: int| None::<Seq<char>>).drop_last() == Seq::new((k - 1) as nat, |i: int| None::<Seq<char>>));
        lemma_filled_empty((k - 1) as nat);
    }
}

proof fn lemma_first_part(es: Seq<EntryView>, sender: Seq<char>, ps: Seq<(PartialInfo, Seq<char>)>, now: u64, r: u16, n: u8)
    requires
        keys_unique(es),
        none_expired(es, now),
        key_index(es, sender, r) == -1,
        ps.len() == n && n >= 1,
        one_message(ps, r, n),
        distinct_numbers(parts_of(ps)),
    ensures
        run_parts(es, sender, ps, now).1 == Some(assembled(fill(empty_slots(), parts_of(ps)), n as int)),
{
    let p0 = ps[0];
    lemma_evict_none_expired(es, now);
    let e = entry_with(es, sender, p0.0, p0.1, now);
    let sl1 = empty_slots().update(p0.0.part_number as int, Some(p0.1));
    assert(e.slots == sl1);
    assert(e.parts_count == n);
    lemma_filled_empty(SLOTS as nat);
    lemma_filled_update(empty_slots(), p0.0.part_number as int, p0.1);
    assert(parts_of(ps)[0] == (p0.0.part_number, p0.1));
    assert(parts_of(ps).drop_first() == parts_of(ps.drop_first()));
    assert(fill(empty_slots(), parts_of(ps)) == fill(sl1, parts_of(ps.drop_first())));
    if ps.len() == 1 {
        assert(parts_of(ps.drop_first()).len() == 0);
        assert(fill(sl1, parts_of(ps.drop_first())) == sl1);
    } else {
        let es1 = es.push(e);
        assert(cache_step(es, sender, p0.0, p0.1, now).0 == es1);
        lemma_push_unique(es, e);
        let j = es.len() as int;
        assert(es1[j] == e);
        assert(none_expired(es1, now)) by {
            assert forall|i: int| 0 <= i < es1.len() implies !expired(#[trigger] es1[i], now) by {
                if i < j {
                    assert(es1[i] == es[i]);
                }
            }
        }
        let rest = ps.drop_first();
        assert(one_message(rest, r, n)) by {
            assert forall|i: int| 0 <= i < rest.len() implies (#[trigger] rest[i]).0.reference == r && rest[i].0.parts_count == n by {
                assert(rest[i] == ps[i + 1]);
            }
        }
        assert(distinct_numbers(parts_of(rest))) by {
            assert forall|a: int, b: int| 0 <= a < parts_of(rest).len() && 0 <= b < parts_of(rest).len() && a != b implies #[trigger] parts_of(rest)[a].0 != #[trigger] parts_of(rest)[b].0 by {
                assert(parts_of(rest)[a] == parts_of(ps)[a + 1]);
                assert(parts_of(rest)[b] == parts_of(ps)[b + 1]);
            }
        }
        assert forall|i: int| 0 <= i < rest.len() implies es1[j].slots[(#[trigger] rest[i]).0.part_number as int] is None by {
            assert(rest[i] == ps[i + 1]);
            assert(parts_of(ps)[i + 1].0 != parts_of(ps)[0].0);
        }
        lemma_run_from_entry(es1, sender, rest, now, j, r, n);
    }
}

} // verus!
