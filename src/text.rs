//! Character-sequence helpers shared by the parsers, and the few std string
//! operations that vstd leaves unspecified.
use vstd::prelude::*;

verus! {

/// `n` occurs in `h` as a contiguous run.
pub open spec fn seq_contains(h: Seq<char>, n: Seq<char>) -> bool {
    exists|i: int| 0 <= i && i + n.len() <= h.len() && #[trigger] h.subrange(i, i + n.len()) == n
}

/// `p` is a prefix of `s`.
pub open spec fn seq_starts_with(s: Seq<char>, p: Seq<char>) -> bool {
    p.len() <= s.len() && s.subrange(0, p.len() as int) == p
}

/// Relies on `String::push`: appends one character.
#[verifier::external_body]
pub(crate) fn push_char(s: &mut String, c: char)
    ensures
        final(s)@ == old(s)@.push(c),
{
    s.push(c)
}

/// The text that `String::from_utf8_lossy` makes of a byte sequence.
pub uninterp spec fn utf8_lossy_of(b: Seq<u8>) -> Seq<char>;

/// Every byte below 0x80 on its own.
pub open spec fn all_ascii(b: Seq<u8>) -> bool {
    forall|i: int| 0 <= i < b.len() ==> #[trigger] b[i] < 0x80
}

/// Relies on `String::from_utf8_lossy`: valid UTF-8 is decoded as is (ASCII
/// byte for character), invalid sequences become U+FFFD.
#[verifier::external_body]
pub(crate) fn utf8_lossy(b: &[u8]) -> (r: String)
    ensures
        r@ == utf8_lossy_of(b@),
        all_ascii(b@) ==> r@ == Seq::new(b@.len(), |i: int| b@[i] as char),
{
    String::from_utf8_lossy(b).into_owned()
}

/// What `str::trim` leaves of a string.
pub uninterp spec fn str_trim_of(s: Seq<char>) -> Seq<char>;

/// The ASCII characters that Unicode counts as White_Space: tab, LF,
/// vertical tab, form feed, CR and space.
pub open spec fn ascii_space() -> Seq<char> {
    seq!['\t', '\n', '\x0B', '\x0C', '\r', ' ']
}

/// Every character is ASCII.
pub open spec fn ascii_text(s: Seq<char>) -> bool {
    forall|i: int| 0 <= i < s.len() ==> (#[trigger] s[i] as u32) < 0x80
}

/// Relies on `str::trim`: the string without leading and trailing
/// White_Space characters; on ASCII text those are the six of
/// `ascii_space`.
#[verifier::external_body]
pub(crate) fn trim_str(s: &str) -> (r: String)
    ensures
        r@ == str_trim_of(s@),
        ascii_text(s@) ==> r@ == strip(s@, ascii_space()),
{
    s.trim().to_string()
}

/// The character views of a sequence of strings.
pub open spec fn views(v: Seq<String>) -> Seq<Seq<char>> {
    v.map_values(|s: String| s@)
}

/// Whether two character sequences are equal.
pub fn chars_eq(a: &[char], b: &[char]) -> (r: bool)
    ensures
        r == (a@ == b@),
{
    if a.len() != b.len() {
        return false;
    }
    let r = starts_with(a, b);
    assert(a@.subrange(0, b@.len() as int) == a@);
    r
}

/// The characters of a string, in order.
pub fn chars_of(s: &str) -> (r: Vec<char>)
    ensures
        r@ == s@,
{
    let n = s.unicode_len();
    let mut r: Vec<char> = Vec::new();
    let mut i: usize = 0;
    while i < n
        invariant
            n == s@.len(),
            i <= n,
            r@ == s@.subrange(0, i as int),
        decreases n - i,
    {
        r.push(s.get_char(i));
        i += 1;
    }
    assert(r@ == s@.subrange(0, n as int));
    r
}

/// A string holding the given characters.
pub fn string_of(v: &[char]) -> (r: String)
    ensures
        r@ == v@,
{
    let mut r = String::new();
    let mut i: usize = 0;
    while i < v.len()
        invariant
            i <= v@.len(),
            r@ == v@.subrange(0, i as int),
        decreases v@.len() - i,
    {
        push_char(&mut r, v[i]);
        assert(v@.subrange(0, i as int).push(v@[i as int]) == v@.subrange(0, i + 1));
        i += 1;
    }
    assert(v@.subrange(0, v@.len() as int) == v@);
    r
}

/// Appends characters to a string.
pub fn push_chars(s: &mut String, v: &[char])
    ensures
        final(s)@ == old(s)@ + v@,
{
    let ghost s0 = s@;
    let mut i: usize = 0;
    while i < v.len()
        invariant
            i <= v@.len(),
            s@ == s0 + v@.subrange(0, i as int),
        decreases v@.len() - i,
    {
        push_char(s, v[i]);
        assert(s0 + v@.subrange(0, i + 1) == (s0 + v@.subrange(0, i as int)).push(v@[i as int]));
        i += 1;
    }
    assert(v@.subrange(0, v@.len() as int) == v@);
}

/// Whether `p` is a prefix of `s`.
pub fn starts_with(s: &[char], p: &[char]) -> (r: bool)
    ensures
        r == seq_starts_with(s@, p@),
{
    if p.len() > s.len() {
        return false;
    }
    let mut i: usize = 0;
    while i < p.len()
        invariant
            p@.len() <= s@.len(),
            i <= p@.len(),
            forall|k: int| 0 <= k < i ==> s@[k] == p@[k],
        decreases p@.len() - i,
    {
        if s[i] != p[i] {
            assert(s@.subrange(0, p@.len() as int)[i as int] != p@[i as int]);
            return false;
        }
        i += 1;
    }
    assert(s@.subrange(0, p@.len() as int) == p@);
    true
}

/// Whether `n` occurs in `h` starting at `at`.
pub fn occurs_at(h: &[char], n: &[char], at: usize) -> (r: bool)
    requires
        at <= h@.len(),
    ensures
        r == (at + n@.len() <= h@.len() && h@.subrange(at as int, at + n@.len()) == n@),
{
    let hl = h.len();
    if n.len() > hl - at {
        return false;
    }
    let mut i: usize = 0;
    while i < n.len()
        invariant
            hl == h@.len(),
            at + n@.len() <= hl,
            i <= n@.len(),
            forall|k: int| 0 <= k < i ==> h@[at + k] == n@[k],
        decreases n@.len() - i,
    {
        if h[at + i] != n[i] {
            assert(h@.subrange(at as int, at + n@.len())[i as int] != n@[i as int]);
            return false;
        }
        i += 1;
    }
    assert(h@.subrange(at as int, at + n@.len()) == n@);
    true
}

/// Whether `n` occurs anywhere in `h`.
pub fn contains(h: &[char], n: &[char]) -> (r: bool)
    ensures
        r == seq_contains(h@, n@),
{
    if n.len() > h.len() {
        return false;
    }
    let last = h.len() - n.len();
    let mut i: usize = 0;
    loop
        invariant
            last + n@.len() == h@.len(),
            i <= last,
            forall|k: int| 0 <= k < i ==> #[trigger] h@.subrange(k, k + n@.len()) != n@,
        decreases last - i,
    {
        if occurs_at(h, n, i) {
            return true;
        }
        if i == last {
            assert forall|k: int| 0 <= k && k + n@.len() <= h@.len() implies #[trigger] h@.subrange(
                k,
                k + n@.len(),
            ) != n@ by {
                assert(k <= last);
            }
            return false;
        }
        i += 1;
    }
}

/// The pieces of `s` between separators `sep`, the current piece being
/// `cur` (so that `"".split(sep)` has one empty piece).
pub open spec fn split_acc(cur: Seq<char>, s: Seq<char>, sep: char) -> Seq<Seq<char>>
    decreases s.len(),
{
    if s.len() == 0 {
        seq![cur]
    } else if s[0] == sep {
        seq![cur] + split_acc(seq![], s.drop_first(), sep)
    } else {
        split_acc(cur.push(s[0]), s.drop_first(), sep)
    }
}

pub proof fn lemma_split_acc_len(cur: Seq<char>, s: Seq<char>, sep: char)
    ensures
        split_acc(cur, s, sep).len() >= 1,
    decreases s.len(),
{
    if s.len() > 0 {
        if s[0] == sep {
            lemma_split_acc_len(seq![], s.drop_first(), sep);
        } else {
            lemma_split_acc_len(cur.push(s[0]), s.drop_first(), sep);
        }
    }
}

/// The pieces of `s` between separators, as `str::split` gives them.
pub open spec fn pieces(s: Seq<char>, sep: char) -> Seq<Seq<char>> {
    split_acc(seq![], s, sep)
}

/// Splits `s` at every `sep`.
pub fn split_on(s: &[char], sep: char) -> (r: Vec<Vec<char>>)
    ensures
        r@.len() == pieces(s@, sep).len(),
        forall|i: int| 0 <= i < r@.len() ==> #[trigger] r@[i]@ == pieces(s@, sep)[i],
{
    let mut done: Vec<Vec<char>> = Vec::new();
    let mut cur: Vec<char> = Vec::new();
    let ghost dv: Seq<Seq<char>> = seq![];
    let mut i: usize = 0;
    assert(s@.subrange(0, s@.len() as int) == s@);
    while i < s.len()
        invariant
            i <= s@.len(),
            dv.len() == done@.len(),
            forall|k: int| 0 <= k < done@.len() ==> #[trigger] done@[k]@ == dv[k],
            pieces(s@, sep) == dv + split_acc(cur@, s@.subrange(i as int, s@.len() as int), sep),
        decreases s@.len() - i,
    {
        let ghost rest = s@.subrange(i as int, s@.len() as int);
        assert(rest.drop_first() == s@.subrange(i + 1, s@.len() as int));
        if s[i] == sep {
            proof {
                assert(dv + (seq![cur@] + split_acc(seq![], rest.drop_first(), sep)) == dv.push(cur@) + split_acc(seq![], rest.drop_first(), sep));
                dv = dv.push(cur@);
            }
            done.push(cur);
            cur = Vec::new();
            assert(cur@ == Seq::<char>::empty());
        } else {
            cur.push(s[i]);
        }
        i += 1;
    }
    proof {
        assert(s@.subrange(i as int, s@.len() as int) == Seq::<char>::empty());
        assert(pieces(s@, sep) == dv.push(cur@));
        dv = dv.push(cur@);
    }
    done.push(cur);
    done
}

/// The decimal digits of `n`.
pub open spec fn dec(n: nat) -> Seq<char>
    decreases n,
{
    if n < 10 {
        seq![((48 + n) as u8) as char]
    } else {
        dec(n / 10).push(((48 + n % 10) as u8) as char)
    }
}

/// `n` written in decimal.
pub fn decimal(n: u64) -> (r: Vec<char>)
    ensures
        r@ == dec(n as nat),
{
    let mut acc: Vec<char> = Vec::new();
    let mut m = n;
    while m >= 10
        invariant
            dec(n as nat) == dec(m as nat) + acc@,
        decreases m,
    {
        let d = (m % 10) as u8;
        let c = (48 + d) as char;
        let ghost a0 = acc@;
        acc.insert(0, c);
        assert(acc@ == seq![c] + a0);
        assert(dec(m as nat) == dec((m / 10) as nat).push(c));
        assert(dec(m as nat) + a0 == dec((m / 10) as nat) + acc@);
        m = m / 10;
    }
    let ghost a0 = acc@;
    acc.insert(0, (48 + m as u8) as char);
    assert(acc@ == dec(m as nat) + a0);
    acc
}

/// Character sequences joined with a separator between each two.
pub open spec fn join(xs: Seq<Seq<char>>, sep: Seq<char>) -> Seq<char>
    decreases xs.len(),
{
    if xs.len() == 0 {
        seq![]
    } else if xs.len() == 1 {
        xs[0]
    } else {
        join(xs.drop_last(), sep) + sep + xs.last()
    }
}

/// Appends the strings of `xs`, with `sep` between each two.
pub fn push_joined(out: &mut String, xs: &[String], sep: &str)
    ensures
        final(out)@ == old(out)@ + join(views(xs@), sep@),
{
    let ghost o = out@;
    let sv = chars_of(sep);
    let mut i: usize = 0;
    while i < xs.len()
        invariant
            i <= xs@.len(),
            sv@ == sep@,
            out@ == o + join(views(xs@).subrange(0, i as int), sep@),
        decreases xs@.len() - i,
    {
        let ghost before = out@;
        if i > 0 {
            push_chars(out, sv.as_slice());
        }
        let xv = chars_of(xs[i].as_str());
        push_chars(out, xv.as_slice());
        proof {
            let sub = views(xs@).subrange(0, i + 1);
            assert(sub.drop_last() == views(xs@).subrange(0, i as int));
            assert(sub.last() == xs@[i as int]@);
            if i == 0 {
                assert(out@ == o + join(sub, sep@));
            } else {
                assert(out@ == o + join(sub, sep@));
            }
        }
        i += 1;
    }
    assert(views(xs@).subrange(0, xs@.len() as int) == views(xs@));
}

/// An owned copy of a string slice.
pub fn text(s: &str) -> (r: String)
    ensures
        r@ == s@,
{
    string_of(chars_of(s).as_slice())
}

/// Appends the text of a string literal (or any `&str`).
pub fn push_str(out: &mut String, s: &str)
    ensures
        final(out)@ == old(out)@ + s@,
{
    let v = chars_of(s);
    push_chars(out, v.as_slice());
}

pub open spec fn strip_start(s: Seq<char>, set: Seq<char>) -> Seq<char>
    decreases s.len(),
{
    if s.len() > 0 && set.contains(s[0]) {
        strip_start(s.drop_first(), set)
    } else {
        s
    }
}

pub open spec fn strip_end(s: Seq<char>, set: Seq<char>) -> Seq<char>
    decreases s.len(),
{
    if s.len() > 0 && set.contains(s.last()) {
        strip_end(s.drop_last(), set)
    } else {
        s
    }
}

/// `s` without leading and trailing characters of `set`, as
/// `str::trim_matches` with a set of characters gives it.
pub open spec fn strip(s: Seq<char>, set: Seq<char>) -> Seq<char> {
    strip_end(strip_start(s, set), set)
}

fn in_set(c: char, set: &[char]) -> (r: bool)
    ensures
        r == set@.contains(c),
{
    let mut i: usize = 0;
    while i < set.len()
        invariant
            i <= set@.len(),
            forall|k: int| 0 <= k < i ==> set@[k] != c,
        decreases set@.len() - i,
    {
        if set[i] == c {
            return true;
        }
        i += 1;
    }
    false
}

proof fn lemma_strip_start_skip(s: Seq<char>, set: Seq<char>, i: int)
    requires
        0 <= i <= s.len(),
        forall|k: int| 0 <= k < i ==> set.contains(#[trigger] s[k]),
    ensures
        strip_start(s, set) == strip_start(s.subrange(i, s.len() as int), set),
    decreases i,
{
    if i > 0 {
        assert(set.contains(s[0]));
        let t = s.drop_first();
        assert forall|k: int| 0 <= k < i - 1 implies set.contains(#[trigger] t[k]) by {
            assert(t[k] == s[k + 1]);
        }
        lemma_strip_start_skip(t, set, i - 1);
        assert(t.subrange(i - 1, t.len() as int) == s.subrange(i, s.len() as int));
    } else {
        assert(s.subrange(0, s.len() as int) == s);
    }
}

proof fn lemma_strip_end_skip(s: Seq<char>, set: Seq<char>, j: int)
    requires
        0 <= j <= s.len(),
        forall|k: int| j <= k < s.len() ==> set.contains(#[trigger] s[k]),
    ensures
        strip_end(s, set) == strip_end(s.subrange(0, j), set),
    decreases s.len() - j,
{
    if j < s.len() {
        assert(set.contains(s[s.len() - 1]));
        assert(s.last() == s[s.len() - 1]);
        let t = s.drop_last();
        assert forall|k: int| j <= k < t.len() implies set.contains(#[trigger] t[k]) by {
            assert(t[k] == s[k]);
        }
        lemma_strip_end_skip(t, set, j);
        assert(t.subrange(0, j) == s.subrange(0, j));
    } else {
        assert(s.subrange(0, j) == s);
    }
}

/// `s` without leading and trailing characters of `set`.
pub fn strip_chars(s: &[char], set: &[char]) -> (r: Vec<char>)
    ensures
        r@ == strip(s@, set@),
{
    let n = s.len();
    let mut i: usize = 0;
    while i < n && in_set(s[i], set)
        invariant
            i <= n == s@.len(),
            forall|k: int| 0 <= k < i ==> set@.contains(#[trigger] s@[k]),
        decreases n - i,
    {
        i += 1;
    }
    proof {
        lemma_strip_start_skip(s@, set@, i as int);
        let t = s@.subrange(i as int, n as int);
        if t.len() > 0 {
            assert(t[0] == s@[i as int]);
        }
        assert(strip_start(t, set@) == t);
    }
    let mut j: usize = n;
    while j > i && in_set(s[j - 1], set)
        invariant
            i <= j <= n == s@.len(),
            forall|k: int| j <= k < n ==> set@.contains(#[trigger] s@[k]),
        decreases j - i,
    {
        j -= 1;
    }
    let ghost t = s@.subrange(i as int, n as int);
    proof {
        assert forall|k: int| j - i <= k < t.len() implies set@.contains(#[trigger] t[k]) by {
            assert(t[k] == s@[i + k]);
        }
        lemma_strip_end_skip(t, set@, j - i);
        let u = t.subrange(0, j - i);
        assert(u == s@.subrange(i as int, j as int));
        if u.len() > 0 {
            assert(u.last() == s@[j - 1]);
        }
        assert(strip_end(u, set@) == u);
    }
    let mut r: Vec<char> = Vec::new();
    let mut k = i;
    while k < j
        invariant
            i <= k <= j <= n == s@.len(),
            r@ == s@.subrange(i as int, k as int),
        decreases j - k,
    {
        r.push(s[k]);
        assert(s@.subrange(i as int, k as int).push(s@[k as int]) == s@.subrange(i as int, k + 1));
        k += 1;
    }
    r
}

/// The characters of `s` from `from` on.
pub fn tail_from(s: &[char], from: usize) -> (r: Vec<char>)
    requires
        from <= s@.len(),
    ensures
        r@ == s@.subrange(from as int, s@.len() as int),
{
    let mut r: Vec<char> = Vec::new();
    let mut k = from;
    while k < s.len()
        invariant
            from <= k <= s@.len(),
            r@ == s@.subrange(from as int, k as int),
        decreases s@.len() - k,
    {
        r.push(s[k]);
        assert(s@.subrange(from as int, k as int).push(s@[k as int]) == s@.subrange(from as int, k + 1));
        k += 1;
    }
    r
}

/// What `str::to_lowercase` makes of a string.
pub uninterp spec fn lower_of(s: Seq<char>) -> Seq<char>;

/// Relies on `str::to_lowercase`: the lowercase mapping of each character.
#[verifier::external_body]
pub(crate) fn lowercase(s: &str) -> (r: String)
    ensures
        r@ == lower_of(s@),
{
    s.to_lowercase()
}

/// What `str::to_uppercase` makes of a string.
pub uninterp spec fn upper_of(s: Seq<char>) -> Seq<char>;

/// Relies on `str::to_uppercase`: the uppercase mapping of each character.
#[verifier::external_body]
pub(crate) fn uppercase(s: &str) -> (r: String)
    ensures
        r@ == upper_of(s@),
{
    s.to_uppercase()
}

} // verus!
