//! The URC classifier: which unsolicited result codes a line carries.
use vstd::prelude::*;
use crate::text::{chars_of, contains, seq_contains, seq_starts_with, starts_with};

verus! {

/// The closed set of URC categories, one per domain handler.
#[derive(Debug, Clone, Copy, PartialEq, Eq)]
pub enum UrcKind {
    Call,
    MemoryFull,
    NewSms,
    Pdcp,
    Signal,
}

/// Whether the handler for `k` takes the line `l`.
pub open spec fn handles(k: UrcKind, l: Seq<char>) -> bool {
    match k {
        UrcKind::Call => seq_contains(l, "RING"@) || seq_contains(l, "+CLIP:"@),
        UrcKind::MemoryFull => seq_contains(l, "+CIEV:\"MESSAGE\",0"@) || seq_contains(
            l,
            "+CMS ERROR: 322"@,
        ),
        UrcKind::NewSms => seq_contains(l, "+CMTI:"@),
        UrcKind::Pdcp => seq_starts_with(l, "^PDCPDATAINFO:"@),
        UrcKind::Signal => seq_contains(l, "^CERSSI:"@) || seq_contains(l, "^HCSQ:"@),
    }
}

/// The handlers in the order in which the dispatch worker runs them.
pub open spec fn kind_order() -> Seq<UrcKind> {
    seq![UrcKind::Call, UrcKind::MemoryFull, UrcKind::NewSms, UrcKind::Pdcp, UrcKind::Signal]
}

/// A line is a URC when any handler takes it.
pub open spec fn is_urc_line(l: Seq<char>) -> bool {
    exists|i: int| 0 <= i < 5 && handles(#[trigger] kind_order()[i], l)
}

/// The kinds whose handler takes `l`, in dispatch order.
pub open spec fn kinds_of(l: Seq<char>) -> Seq<UrcKind> {
    kind_order().filter(|k: UrcKind| handles(k, l))
}

/// Whether the handler for `k` takes `line`.
pub fn can_handle(k: UrcKind, line: &[char]) -> (r: bool)
    ensures
        r == handles(k, line@),
{
    match k {
        UrcKind::Call => contains(line, chars_of("RING").as_slice()) || contains(
            line,
            chars_of("+CLIP:").as_slice(),
        ),
        UrcKind::MemoryFull => contains(line, chars_of("+CIEV:\"MESSAGE\",0").as_slice())
            || contains(line, chars_of("+CMS ERROR: 322").as_slice()),
        UrcKind::NewSms => contains(line, chars_of("+CMTI:").as_slice()),
        UrcKind::Pdcp => starts_with(line, chars_of("^PDCPDATAINFO:").as_slice()),
        UrcKind::Signal => contains(line, chars_of("^CERSSI:").as_slice()) || contains(
            line,
            chars_of("^HCSQ:").as_slice(),
        ),
    }
}

fn all_kinds() -> (r: Vec<UrcKind>)
    ensures
        r@ == kind_order(),
{
    let r = vec![UrcKind::Call, UrcKind::MemoryFull, UrcKind::NewSms, UrcKind::Pdcp, UrcKind::Signal];
    assert(r@ == kind_order());
    r
}

/// The kinds whose handler takes `line`, in dispatch order.
pub fn handler_kinds(line: &[char]) -> (r: Vec<UrcKind>)
    ensures
        r@ == kinds_of(line@),
{
    let all = all_kinds();
    let mut r: Vec<UrcKind> = Vec::new();
    let mut i: usize = 0;
    while i < all.len()
        invariant
            all@ == kind_order(),
            i <= all@.len(),
            r@ == all@.subrange(0, i as int).filter(|k: UrcKind| handles(k, line@)),
        decreases all@.len() - i,
    {
        let k = all[i];
        proof {
            reveal(Seq::filter);
            assert(all@.subrange(0, i + 1).drop_last() == all@.subrange(0, i as int));
        }
        if can_handle(k, line) {
            r.push(k);
        }
        i += 1;
    }
    assert(all@.subrange(0, all@.len() as int) == all@);
    r
}

/// Whether any handler takes `line`.
pub fn is_urc(line: &[char]) -> (r: bool)
    ensures
        r == is_urc_line(line@),
{
    let all = all_kinds();
    let mut i: usize = 0;
    while i < all.len()
        invariant
            all@ == kind_order(),
            i <= all@.len(),
            forall|j: int| 0 <= j < i ==> !handles(#[trigger] kind_order()[j], line@),
        decreases all@.len() - i,
    {
        if can_handle(all[i], line) {
            return true;
        }
        i += 1;
    }
    false
}

/// Whether any handler takes the string `line`.
pub fn is_urc_str(line: &str) -> (r: bool)
    ensures
        r == is_urc_line(line@),
{
    let v = chars_of(line);
    is_urc(v.as_slice())
}

/// Takes `RING` and `+CLIP:` lines.
pub struct CallHandler;

/// Takes SIM-storage-full lines.
pub struct MemoryFullHandler;

/// Takes `+CMTI:` new-message notices.
pub struct NewSMSHandler;

/// Takes `^PDCPDATAINFO:` metrics lines.
pub struct PDCPDataHandler;

/// Takes `^CERSSI:` and `^HCSQ:` signal reports.
pub struct NetworkSignalHandler;

impl CallHandler {
    pub fn can_handle(&self, line: &str) -> (r: bool)
        ensures
            r == handles(UrcKind::Call, line@),
    {
        can_handle(UrcKind::Call, chars_of(line).as_slice())
    }
}

impl MemoryFullHandler {
    pub fn can_handle(&self, line: &str) -> (r: bool)
        ensures
            r == handles(UrcKind::MemoryFull, line@),
    {
        can_handle(UrcKind::MemoryFull, chars_of(line).as_slice())
    }
}

impl NewSMSHandler {
    pub fn can_handle(&self, line: &str) -> (r: bool)
        ensures
            r == handles(UrcKind::NewSms, line@),
    {
        can_handle(UrcKind::NewSms, chars_of(line).as_slice())
    }
}

impl PDCPDataHandler {
    pub fn can_handle(&self, line: &str) -> (r: bool)
        ensures
            r == handles(UrcKind::Pdcp, line@),
    {
        can_handle(UrcKind::Pdcp, chars_of(line).as_slice())
    }
}

impl NetworkSignalHandler {
    pub fn can_handle(&self, line: &str) -> (r: bool)
        ensures
            r == handles(UrcKind::Signal, line@),
    {
        can_handle(UrcKind::Signal, chars_of(line).as_slice())
    }
}

} // verus!
