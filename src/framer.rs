//! The line framer: turns the modem's byte stream into trimmed, non-empty
//! lines terminated by LF (a CR before it is trimmed away).
use vstd::prelude::*;
use crate::text::{utf8_lossy, utf8_lossy_of};

verus! {

pub const LF: u8 = 10;

/// ASCII whitespace as `u8::is_ascii_whitespace` has it.
pub open spec fn is_ws(b: u8) -> bool {
    b == 32 || b == 9 || b == 10 || b == 12 || b == 13
}

pub open spec fn trim_start(s: Seq<u8>) -> Seq<u8>
    decreases s.len(),
{
    if s.len() > 0 && is_ws(s[0]) {
        trim_start(s.drop_first())
    } else {
        s
    }
}

pub open spec fn trim_end(s: Seq<u8>) -> Seq<u8>
    decreases s.len(),
{
    if s.len() > 0 && is_ws(s.last()) {
        trim_end(s.drop_last())
    } else {
        s
    }
}

/// `s` without leading and trailing ASCII whitespace.
pub open spec fn trim(s: Seq<u8>) -> Seq<u8> {
    trim_end(trim_start(s))
}

/// Index of the first LF in `s`, or -1 when there is none.
pub open spec fn lf_index(s: Seq<u8>) -> int
    decreases s.len(),
{
    if s.len() == 0 {
        -1
    } else if s[0] == LF {
        0
    } else {
        let r = lf_index(s.drop_first());
        if r < 0 {
            -1
        } else {
            r + 1
        }
    }
}

pub proof fn lemma_lf_index_bound(s: Seq<u8>)
    ensures
        -1 <= lf_index(s) < s.len(),
        lf_index(s) >= 0 ==> s[lf_index(s)] == LF,
        forall|k: int| 0 <= k < s.len() && (lf_index(s) < 0 || k < lf_index(s)) ==> s[k] != LF,
    decreases s.len(),
{
    if s.len() > 0 && s[0] != LF {
        lemma_lf_index_bound(s.drop_first());
        assert forall|k: int| 0 <= k < s.len() && (lf_index(s) < 0 || k < lf_index(s)) implies s[k] != LF by {
            if k > 0 {
                assert(s[k] == s.drop_first()[k - 1]);
            }
        }
    }
}

proof fn lemma_lf_index_is(s: Seq<u8>, i: int)
    requires
        0 <= i <= s.len(),
        i < s.len() ==> s[i] == LF,
        forall|k: int| 0 <= k < i ==> s[k] != LF,
    ensures
        lf_index(s) == if i == s.len() { -1 } else { i },
{
    lemma_lf_index_bound(s);
    let p = lf_index(s);
    if p >= 0 {
        assert(s[p] == LF);
    }
    if i < s.len() {
        assert(s[i] == LF);
    }
}

/// The lines that the framer yields from `s`, in order.
pub open spec fn frame_lines(s: Seq<u8>) -> Seq<Seq<u8>>
    decreases s.len(),
{
    let p = lf_index(s);
    if p < 0 {
        seq![]
    } else {
        proof {
            lemma_lf_index_bound(s);
        }
        let l = trim(s.subrange(0, p));
        let rest = frame_lines(s.subrange(p + 1, s.len() as int));
        if l.len() == 0 {
            rest
        } else {
            seq![l] + rest
        }
    }
}

/// Index of the LF that ends the first non-blank segment of `s`, or -1
/// when every complete segment is blank.
pub open spec fn next_line_end(s: Seq<u8>) -> int
    decreases s.len(),
{
    let p = lf_index(s);
    if p < 0 {
        -1
    } else {
        proof {
            lemma_lf_index_bound(s);
        }
        if trim(s.subrange(0, p)).len() > 0 {
            p
        } else {
            let r = next_line_end(s.subrange(p + 1, s.len() as int));
            if r < 0 {
                -1
            } else {
                p + 1 + r
            }
        }
    }
}

proof fn lemma_next_line_end_bound(s: Seq<u8>)
    ensures
        -1 <= next_line_end(s) < s.len(),
    decreases s.len(),
{
    lemma_lf_index_bound(s);
    let p = lf_index(s);
    if p >= 0 {
        lemma_next_line_end_bound(s.subrange(p + 1, s.len() as int));
    }
}

/// What stays buffered once every complete line is taken: the bytes after
/// the last LF.
pub open spec fn frame_rest(s: Seq<u8>) -> Seq<u8>
    decreases s.len(),
{
    let p = lf_index(s);
    if p < 0 {
        s
    } else {
        proof {
            lemma_lf_index_bound(s);
        }
        frame_rest(s.subrange(p + 1, s.len() as int))
    }
}

/// The raw LF-terminated segments of `s`, before trimming.
pub open spec fn raw_segments(s: Seq<u8>) -> Seq<Seq<u8>>
    decreases s.len(),
{
    let p = lf_index(s);
    if p < 0 {
        seq![]
    } else {
        proof {
            lemma_lf_index_bound(s);
        }
        seq![s.subrange(0, p)] + raw_segments(s.subrange(p + 1, s.len() as int))
    }
}

/// Segments written back with an LF after each.
pub open spec fn join_lf(segs: Seq<Seq<u8>>) -> Seq<u8>
    decreases segs.len(),
{
    if segs.len() == 0 {
        seq![]
    } else {
        segs[0].push(LF) + join_lf(segs.drop_first())
    }
}

/// The trimmed segments, leaving out those that trim to nothing.
pub open spec fn nonempty_trimmed(segs: Seq<Seq<u8>>) -> Seq<Seq<u8>>
    decreases segs.len(),
{
    if segs.len() == 0 {
        seq![]
    } else {
        let l = trim(segs[0]);
        let rest = nonempty_trimmed(segs.drop_first());
        if l.len() == 0 {
            rest
        } else {
            seq![l] + rest
        }
    }
}

/// Framing loses nothing but line terminators and whitespace: the raw
/// segments, each followed by its LF, then the residual bytes, give back the
/// input exactly; and the yielded lines are those segments trimmed, with the
/// empty ones skipped.
pub proof fn lemma_framing_keeps_content(s: Seq<u8>)
    ensures
        join_lf(raw_segments(s)) + frame_rest(s) == s,
        frame_lines(s) == nonempty_trimmed(raw_segments(s)),
    decreases s.len(),
{
    lemma_lf_index_bound(s);
    let p = lf_index(s);
    if p >= 0 {
        let tail = s.subrange(p + 1, s.len() as int);
        lemma_framing_keeps_content(tail);
        let segs = raw_segments(s);
        assert(segs[0] == s.subrange(0, p));
        assert(segs.drop_first() == raw_segments(tail));
        assert(s.subrange(0, p).push(LF) + tail == s);
        assert(join_lf(segs) == s.subrange(0, p).push(LF) + join_lf(raw_segments(tail)));
        assert(join_lf(segs) + frame_rest(s) == s.subrange(0, p).push(LF) + (join_lf(
            raw_segments(tail),
        ) + frame_rest(tail)));
    } else {
        assert(join_lf(raw_segments(s)) == Seq::<u8>::empty());
        assert(Seq::<u8>::empty() + s == s);
    }
}

proof fn lemma_trim_start_skip(s: Seq<u8>, i: int)
    requires
        0 <= i <= s.len(),
        forall|k: int| 0 <= k < i ==> is_ws(#[trigger] s[k]),
    ensures
        trim_start(s) == trim_start(s.subrange(i, s.len() as int)),
    decreases i,
{
    if i > 0 {
        assert(is_ws(s[0]));
        assert(s.drop_first() == s.subrange(1, s.len() as int));
        let t = s.drop_first();
        assert forall|k: int| 0 <= k < i - 1 implies is_ws(#[trigger] t[k]) by {
            assert(t[k] == s[k + 1]);
        }
        lemma_trim_start_skip(t, i - 1);
        assert(t.subrange(i - 1, t.len() as int) == s.subrange(i, s.len() as int));
    } else {
        assert(s.subrange(0, s.len() as int) == s);
    }
}

proof fn lemma_trim_end_skip(s: Seq<u8>, j: int)
    requires
        0 <= j <= s.len(),
        forall|k: int| j <= k < s.len() ==> is_ws(#[trigger] s[k]),
    ensures
        trim_end(s) == trim_end(s.subrange(0, j)),
    decreases s.len() - j,
{
    if j < s.len() {
        assert(is_ws(s[s.len() - 1]));
        assert(s.last() == s[s.len() - 1]);
        let t = s.drop_last();
        assert forall|k: int| j <= k < t.len() implies is_ws(#[trigger] t[k]) by {
            assert(t[k] == s[k]);
        }
        lemma_trim_end_skip(t, j);
        assert(t.subrange(0, j) == s.subrange(0, j));
    } else {
        assert(s.subrange(0, j) == s);
    }
}

/// The bytes of `b[from..to]` without leading and trailing ASCII whitespace.
pub fn trim_bytes(b: &[u8], from: usize, to: usize) -> (r: Vec<u8>)
    requires
        from <= to <= b@.len(),
    ensures
        r@ == trim(b@.subrange(from as int, to as int)),
{
    let ghost seg = b@.subrange(from as int, to as int);
    let mut i = from;
    while i < to && is_ascii_ws(b[i])
        invariant
            from <= i <= to <= b@.len(),
            seg == b@.subrange(from as int, to as int),
            forall|k: int| 0 <= k < i - from ==> is_ws(#[trigger] seg[k]),
        decreases to - i,
    {
        i += 1;
    }
    proof {
        lemma_trim_start_skip(seg, i - from);
        let t = seg.subrange(i - from, seg.len() as int);
        assert(t == b@.subrange(i as int, to as int));
        if t.len() > 0 {
            assert(t[0] == b@[i as int]);
        }
        assert(trim_start(t) == t);
    }
    let mut j = to;
    while j > i && is_ascii_ws(b[j - 1])
        invariant
            from <= i <= j <= to <= b@.len(),
            forall|k: int| j <= k < to ==> is_ws(#[trigger] b@[k]),
        decreases j - i,
    {
        j -= 1;
    }
    let ghost t = b@.subrange(i as int, to as int);
    proof {
        assert forall|k: int| j - i <= k < t.len() implies is_ws(#[trigger] t[k]) by {
            assert(t[k] == b@[i + k]);
        }
        lemma_trim_end_skip(t, j - i);
        let u = t.subrange(0, j - i);
        assert(u == b@.subrange(i as int, j as int));
        if u.len() > 0 {
            assert(u.last() == b@[j - 1]);
        }
        assert(trim_end(u) == u);
    }
    let mut r: Vec<u8> = Vec::new();
    let mut k = i;
    while k < j
        invariant
            i <= k <= j <= b@.len(),
            r@ == b@.subrange(i as int, k as int),
        decreases j - k,
    {
        r.push(b[k]);
        assert(b@.subrange(i as int, k as int).push(b@[k as int]) == b@.subrange(i as int, k + 1));
        k += 1;
    }
    r
}

fn is_ascii_ws(b: u8) -> (r: bool)
    ensures
        r == is_ws(b),
{
    b == 32 || b == 9 || b == 10 || b == 12 || b == 13
}

/// Takes the next non-empty line (as bytes, trimmed) from the front of
/// `buffer`. Segments that trim to nothing are consumed and skipped. With no
/// complete line left, the buffer keeps only what follows its last LF.
pub fn extract_next_line_bytes(buffer: &mut Vec<u8>) -> (r: Option<Vec<u8>>)
    ensures
        match r {
            None => frame_lines(old(buffer)@) == Seq::<Seq<u8>>::empty()
                && final(buffer)@ == frame_rest(old(buffer)@),
            Some(l) => frame_lines(old(buffer)@).len() > 0
                && l@ == frame_lines(old(buffer)@)[0]
                && frame_lines(final(buffer)@) == frame_lines(old(buffer)@).drop_first()
                && frame_rest(final(buffer)@) == frame_rest(old(buffer)@)
                && 0 <= next_line_end(old(buffer)@) && final(buffer)@ == old(buffer)@.subrange(
                next_line_end(old(buffer)@) + 1,
                old(buffer)@.len() as int,
            ),
        },
{
    let ghost off: int = 0;
    assert(old(buffer)@.subrange(0, old(buffer)@.len() as int) == old(buffer)@);
    loop
        invariant
            frame_lines(buffer@) == frame_lines(old(buffer)@),
            frame_rest(buffer@) == frame_rest(old(buffer)@),
            0 <= off <= old(buffer)@.len(),
            buffer@ == old(buffer)@.subrange(off, old(buffer)@.len() as int),
            next_line_end(old(buffer)@) == if next_line_end(buffer@) < 0 {
                -1
            } else {
                off + next_line_end(buffer@)
            },
        decreases buffer@.len(),
    {
        let n = buffer.len();
        let mut pos: usize = 0;
        while pos < n && buffer[pos] != LF
            invariant
                n == buffer@.len(),
                pos <= n,
                forall|k: int| 0 <= k < pos ==> buffer@[k] != LF,
            decreases n - pos,
        {
            pos += 1;
        }
        proof {
            lemma_lf_index_is(buffer@, pos as int);
        }
        if pos == n {
            return None;
        }
        let line = trim_bytes(buffer.as_slice(), 0, pos);
        let mut rest: Vec<u8> = Vec::new();
        let mut k = pos + 1;
        while k < n
            invariant
                n == buffer@.len(),
                pos < k <= n,
                rest@ == buffer@.subrange(pos + 1, k as int),
            decreases n - k,
        {
            rest.push(buffer[k]);
            assert(buffer@.subrange(pos + 1, k as int).push(buffer@[k as int]) == buffer@.subrange(
                pos + 1,
                k + 1,
            ));
            k += 1;
        }
        proof {
            lemma_next_line_end_bound(rest@);
            assert(old(buffer)@.subrange(off + pos + 1, old(buffer)@.len() as int) == rest@);
        }
        *buffer = rest;
        proof {
            off = off + pos + 1;
        }
        if line.len() > 0 {
            return Some(line);
        }
    }
}

/// Takes the next non-empty line from the front of `buffer`, decoded as
/// UTF-8 with invalid sequences replaced.
pub fn extract_next_line(buffer: &mut Vec<u8>) -> (r: Option<String>)
    ensures
        match r {
            None => frame_lines(old(buffer)@) == Seq::<Seq<u8>>::empty()
                && final(buffer)@ == frame_rest(old(buffer)@),
            Some(l) => frame_lines(old(buffer)@).len() > 0
                && l@ == utf8_lossy_of(frame_lines(old(buffer)@)[0])
                && frame_lines(final(buffer)@) == frame_lines(old(buffer)@).drop_first()
                && frame_rest(final(buffer)@) == frame_rest(old(buffer)@)
                && 0 <= next_line_end(old(buffer)@) && final(buffer)@ == old(buffer)@.subrange(
                next_line_end(old(buffer)@) + 1,
                old(buffer)@.len() as int,
            ),
        },
{
    match extract_next_line_bytes(buffer) {
        None => None,
        Some(l) => Some(utf8_lossy(l.as_slice())),
    }
}

/// Takes every complete line out of `buffer`, in order; the buffer keeps the
/// bytes after its last LF.
pub fn drain_lines(buffer: &mut Vec<u8>) -> (r: Vec<String>)
    ensures
        r@.len() == frame_lines(old(buffer)@).len(),
        forall|i: int| 0 <= i < r@.len() ==> #[trigger] r@[i]@ == utf8_lossy_of(frame_lines(old(buffer)@)[i]),
        final(buffer)@ == frame_rest(old(buffer)@),
{
    let ghost all = frame_lines(buffer@);
    let mut out: Vec<String> = Vec::new();
    loop
        invariant
            all == frame_lines(old(buffer)@),
            frame_rest(buffer@) == frame_rest(old(buffer)@),
            out@.len() + frame_lines(buffer@).len() == all.len(),
            frame_lines(buffer@) == all.subrange(out@.len() as int, all.len() as int),
            forall|i: int| 0 <= i < out@.len() ==> #[trigger] out@[i]@ == utf8_lossy_of(all[i]),
        decreases frame_lines(buffer@).len(),
    {
        let ghost before = frame_lines(buffer@);
        match extract_next_line(buffer) {
            None => {
                return out;
            },
            Some(l) => {
                assert(before[0] == all[out@.len() as int]);
                out.push(l);
                assert(before.drop_first() == all.subrange(out@.len() as int, all.len() as int));
            },
        }
    }
}

} // verus!
