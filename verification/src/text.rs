use vstd::prelude::*;

verus! {

/// Unicode `White_Space` characters, the set that `char::is_whitespace` accepts.
pub open spec fn is_ws(c: char) -> bool {
    ||| ('\t' <= c && c <= '\r')
    ||| c == ' '
    ||| c == '\u{85}'
    ||| c == '\u{a0}'
    ||| c == '\u{1680}'
    ||| ('\u{2000}' <= c && c <= '\u{200a}')
    ||| c == '\u{2028}'
    ||| c == '\u{2029}'
    ||| c == '\u{202f}'
    ||| c == '\u{205f}'
    ||| c == '\u{3000}'
}

pub fn is_whitespace(c: char) -> (b: bool)
    ensures
        b == is_ws(c),
{
    ('\t' <= c && c <= '\r') || c == ' ' || c == '\u{85}' || c == '\u{a0}' || c == '\u{1680}'
        || ('\u{2000}' <= c && c <= '\u{200a}') || c == '\u{2028}' || c == '\u{2029}' || c
        == '\u{202f}' || c == '\u{205f}' || c == '\u{3000}'
}

/// ASCII lowercase of one character; other characters are unchanged.
pub open spec fn lower_char(c: char) -> char {
    if 'A' <= c && c <= 'Z' {
        ((c as u32) + 32) as char
    } else {
        c
    }
}

pub open spec fn ascii_lower(s: Seq<char>) -> Seq<char> {
    s.map_values(|c: char| lower_char(c))
}

pub fn to_lower_char(c: char) -> (r: char)
    ensures
        r == lower_char(c),
{
    if 'A' <= c && c <= 'Z' {
        let b: u8 = c as u8;
        assert(b as u32 == c as u32);
        ((b + 32) as u8) as char
    } else {
        c
    }
}

/// The characters of a string slice, in order.
pub fn chars_of(s: &str) -> (out: Vec<char>)
    ensures
        out@ == s@,
{
    let mut out: Vec<char> = Vec::new();
    for c in it: s.chars()
        invariant
            out@ == it.seq().take(it.index() as int),
            it.seq() == s@,
    {
        out.push(c);
    }
    out
}


/// Builds a `String` holding exactly the given characters.
/// Trusted: `String::from_iter` over chars yields those chars in order (std documentation).
#[verifier::external_body]
pub fn string_from(v: &[char]) -> (s: String)
    ensures
        s@ == v@,
{
    String::from_iter(v.iter())
}

/// Appends the characters of `s` to `out`.
pub fn push_str(out: &mut Vec<char>, s: &str)
    ensures
        final(out)@ == old(out)@ + s@,
{
    for c in it: s.chars()
        invariant
            out@ == old(out)@ + it.seq().take(it.index() as int),
            it.seq() == s@,
    {
        out.push(c);
    }
    assert(s@.take(s@.len() as int) =~= s@);
}

/// Appends the characters of `s` to `out`.
pub fn push_all(out: &mut Vec<char>, s: &[char])
    ensures
        final(out)@ == old(out)@ + s@,
{
    let mut i: usize = 0;
    while i < s.len()
        invariant
            i <= s@.len(),
            out@ == old(out)@ + s@.take(i as int),
        decreases s@.len() - i,
    {
        out.push(s[i]);
        i += 1;
        assert(s@.take(i as int) =~= s@.take(i - 1).push(s@[i - 1]));
    }
    assert(s@.take(s@.len() as int) =~= s@);
}

/// A fresh vector holding `s[from..to]`.
pub fn copy_range(s: &[char], from: usize, to: usize) -> (out: Vec<char>)
    requires
        from <= to <= s@.len(),
    ensures
        out@ == s@.subrange(from as int, to as int),
{
    let mut out: Vec<char> = Vec::new();
    let mut i: usize = from;
    while i < to
        invariant
            from <= i <= to <= s@.len(),
            out@ == s@.subrange(from as int, i as int),
        decreases to - i,
    {
        out.push(s[i]);
        i += 1;
        assert(s@.subrange(from as int, i as int) =~= s@.subrange(from as int, i - 1).push(
            s@[i - 1],
        ));
    }
    out
}

/// Whether two character sequences are equal.
pub fn chars_eq(a: &[char], b: &[char]) -> (r: bool)
    ensures
        r == (a@ == b@),
{
    if a.len() != b.len() {
        return false;
    }
    let mut i: usize = 0;
    while i < a.len()
        invariant
            a@.len() == b@.len(),
            i <= a@.len(),
            forall|j: int| 0 <= j < i ==> a@[j] == b@[j],
        decreases a@.len() - i,
    {
        if a[i] != b[i] {
            return false;
        }
        i += 1;
    }
    assert(a@ =~= b@);
    true
}

/// Whether a character sequence equals a string slice.
pub fn eq_str(a: &[char], b: &str) -> (r: bool)
    ensures
        r == (a@ == b@),
{
    let bv = chars_of(b);
    chars_eq(a, bv.as_slice())
}

pub open spec fn starts_with(s: Seq<char>, p: Seq<char>) -> bool {
    p.len() <= s.len() && s.subrange(0, p.len() as int) == p
}

pub open spec fn ends_with(s: Seq<char>, p: Seq<char>) -> bool {
    p.len() <= s.len() && s.subrange(s.len() - p.len(), s.len() as int) == p
}

pub open spec fn occurs_at(s: Seq<char>, p: Seq<char>, i: int) -> bool {
    0 <= i && i + p.len() <= s.len() && s.subrange(i, i + p.len()) == p
}

pub open spec fn contains(s: Seq<char>, p: Seq<char>) -> bool {
    exists|i: int| occurs_at(s, p, i)
}

pub fn occurs_at_exec(s: &[char], p: &[char], i: usize) -> (r: bool)
    ensures
        r == occurs_at(s@, p@, i as int),
{
    if i > s.len() || p.len() > s.len() - i {
        return false;
    }
    let mut k: usize = 0;
    while k < p.len()
        invariant
            i + p@.len() <= s@.len(),
            s@.len() == s.len(),
            k <= p@.len(),
            forall|j: int| 0 <= j < k ==> s@[i + j] == p@[j],
        decreases p@.len() - k,
    {
        assert(i + k < s@.len());
        if s[i + k] != p[k] {
            assert(s@.subrange(i as int, i + p@.len())[k as int] != p@[k as int]);
            return false;
        }
        k += 1;
    }
    assert(s@.subrange(i as int, i + p@.len()) =~= p@);
    true
}

pub fn starts_with_exec(s: &[char], p: &[char]) -> (r: bool)
    ensures
        r == starts_with(s@, p@),
{
    occurs_at_exec(s, p, 0)
}

pub fn ends_with_exec(s: &[char], p: &[char]) -> (r: bool)
    ensures
        r == ends_with(s@, p@),
{
    if p.len() > s.len() {
        false
    } else {
        occurs_at_exec(s, p, s.len() - p.len())
    }
}

pub fn contains_exec(s: &[char], p: &[char]) -> (r: bool)
    ensures
        r == contains(s@, p@),
{
    if p.len() > s.len() {
        assert forall|i: int| !occurs_at(s@, p@, i) by {}
        return false;
    }
    let last = s.len() - p.len();
    let mut i: usize = 0;
    loop
        invariant
            p@.len() <= s@.len(),
            last == s@.len() - p@.len(),
            i <= last,
            forall|j: int| 0 <= j < i ==> !occurs_at(s@, p@, j),
        ensures
            forall|j: int| 0 <= j <= last ==> !occurs_at(s@, p@, j),
        decreases last - i,
    {
        if occurs_at_exec(s, p, i) {
            return true;
        }
        if i == last {
            break;
        }
        i += 1;
    }
    assert forall|j: int| !occurs_at(s@, p@, j) by {
        if 0 <= j && j <= last {
        }
    }
    false
}

pub fn contains_char(s: &[char], c: char) -> (r: bool)
    ensures
        r == s@.contains(c),
{
    let mut i: usize = 0;
    while i < s.len()
        invariant
            i <= s@.len(),
            forall|j: int| 0 <= j < i ==> s@[j] != c,
        decreases s@.len() - i,
    {
        if s[i] == c {
            return true;
        }
        i += 1;
    }
    false
}

pub fn lower_chars(s: &[char]) -> (out: Vec<char>)
    ensures
        out@ == ascii_lower(s@),
{
    let mut out: Vec<char> = Vec::new();
    let mut i: usize = 0;
    while i < s.len()
        invariant
            i <= s@.len(),
            out@ == ascii_lower(s@.take(i as int)),
        decreases s@.len() - i,
    {
        let c = to_lower_char(s[i]);
        out.push(c);
        i += 1;
        assert(ascii_lower(s@.take(i as int)) =~= ascii_lower(s@.take(i - 1)).push(c));
    }
    assert(s@.take(s@.len() as int) =~= s@);
    out
}


/// `s` without its leading whitespace.
pub open spec fn trim_start(s: Seq<char>) -> Seq<char>
    decreases s.len(),
{
    if s.len() > 0 && is_ws(s[0]) {
        trim_start(s.drop_first())
    } else {
        s
    }
}

/// `s` without its trailing whitespace.
pub open spec fn trim_end(s: Seq<char>) -> Seq<char>
    decreases s.len(),
{
    if s.len() > 0 && is_ws(s.last()) {
        trim_end(s.drop_last())
    } else {
        s
    }
}

/// `s` without leading and trailing whitespace, as `str::trim` gives it.
pub open spec fn trim(s: Seq<char>) -> Seq<char> {
    trim_end(trim_start(s))
}

/// Whether every character of `s` is whitespace.
pub open spec fn all_ws(s: Seq<char>) -> bool {
    forall|i: int| 0 <= i < s.len() ==> is_ws(#[trigger] s[i])
}

pub proof fn lemma_trim_start_all_ws(s: Seq<char>)
    ensures
        (trim_start(s).len() == 0) == all_ws(s),
    decreases s.len(),
{
    if s.len() > 0 && is_ws(s[0]) {
        lemma_trim_start_all_ws(s.drop_first());
        if all_ws(s.drop_first()) {
            assert forall|i: int| 0 <= i < s.len() implies is_ws(#[trigger] s[i]) by {
                if i > 0 {
                    assert(s[i] == s.drop_first()[i - 1]);
                }
            }
        }
        if all_ws(s) {
            assert forall|i: int| 0 <= i < s.drop_first().len() implies is_ws(
                #[trigger] s.drop_first()[i],
            ) by {
                assert(s.drop_first()[i] == s[i + 1]);
            }
        }
    } else if s.len() > 0 {
        assert(!is_ws(s[0]));
    }
}

pub proof fn lemma_trim_end_empty(s: Seq<char>)
    ensures
        (trim_end(s).len() == 0) == all_ws(s),
    decreases s.len(),
{
    if s.len() > 0 && is_ws(s.last()) {
        lemma_trim_end_empty(s.drop_last());
        if all_ws(s.drop_last()) {
            assert forall|i: int| 0 <= i < s.len() implies is_ws(#[trigger] s[i]) by {
                if i < s.len() - 1 {
                    assert(s[i] == s.drop_last()[i]);
                }
            }
        }
        if all_ws(s) {
            assert forall|i: int| 0 <= i < s.drop_last().len() implies is_ws(
                #[trigger] s.drop_last()[i],
            ) by {
                assert(s.drop_last()[i] == s[i]);
            }
        }
    } else if s.len() > 0 {
        assert(!is_ws(s[s.len() - 1]));
    }
}

/// The trimmed part of `s` is empty exactly when `s` is all whitespace.
pub proof fn lemma_trim_empty(s: Seq<char>)
    ensures
        (trim(s).len() == 0) == all_ws(s),
{
    lemma_trim_start_all_ws(s);
    lemma_trim_start_suffix(s);
    let t = trim_start(s);
    lemma_trim_end_empty(t);
    if all_ws(t) && t.len() > 0 {
        assert(!is_ws(t[0]));
    }
}

/// `trim_start(s)` is a suffix of `s`.
pub proof fn lemma_trim_start_suffix(s: Seq<char>)
    ensures
        trim_start(s).len() <= s.len(),
        trim_start(s) == s.subrange(s.len() - trim_start(s).len(), s.len() as int),
        trim_start(s).len() > 0 ==> !is_ws(trim_start(s)[0]),
    decreases s.len(),
{
    if s.len() > 0 && is_ws(s[0]) {
        lemma_trim_start_suffix(s.drop_first());
        let t = trim_start(s.drop_first());
        assert(s.drop_first().subrange(s.drop_first().len() - t.len(), s.drop_first().len() as int)
            =~= s.subrange(s.len() - t.len(), s.len() as int));
    } else {
        assert(s.subrange(0, s.len() as int) =~= s);
    }
}

/// `trim_end(s)` is a prefix of `s` that ends, where it is not empty, in a character other
/// than whitespace.
pub proof fn lemma_trim_end_prefix(s: Seq<char>)
    ensures
        trim_end(s).len() <= s.len(),
        trim_end(s) == s.take(trim_end(s).len() as int),
        trim_end(s).len() > 0 ==> !is_ws(trim_end(s).last()),
    decreases s.len(),
{
    if s.len() > 0 && is_ws(s.last()) {
        lemma_trim_end_prefix(s.drop_last());
        let t = trim_end(s.drop_last());
        assert(s.drop_last().take(t.len() as int) =~= s.take(t.len() as int));
    } else {
        assert(s.take(s.len() as int) =~= s);
    }
}

/// `trim(s)` is a stretch of `s` whose first and last characters are not whitespace.
pub proof fn lemma_trim_stretch(s: Seq<char>)
    ensures
        exists|a: int, b: int| 0 <= a <= b <= s.len() && trim(s) == s.subrange(a, b),
        trim(s).len() > 0 ==> !is_ws(trim(s)[0]) && !is_ws(trim(s).last()),
{
    lemma_trim_start_suffix(s);
    let t = trim_start(s);
    lemma_trim_end_prefix(t);
    let k = trim_end(t).len();
    let a = s.len() - t.len();
    assert(trim(s) =~= s.subrange(a, a + k));
    if k > 0 {
        assert(trim(s)[0] == t[0]);
    }
}

/// Whether no character of `l` is a newline.
pub open spec fn no_newline(l: Seq<char>) -> bool {
    forall|k: int| 0 <= k < l.len() ==> l[k] != '\n'
}

proof fn lemma_split_nl_no_newline(s: Seq<char>)
    ensures
        forall|i: int| 0 <= i < split_nl(s).len() ==> no_newline(#[trigger] split_nl(s)[i]),
    decreases s.len(),
{
    if s.len() > 0 {
        lemma_split_nl_no_newline(s.drop_last());
        lemma_split_nl_nonempty(s.drop_last());
        let p = split_nl(s.drop_last());
        let q = split_nl(s);
        assert forall|i: int| 0 <= i < q.len() implies no_newline(#[trigger] q[i]) by {
            if i < p.len() - 1 {
                assert(q[i] == p[i]);
            } else if i == p.len() - 1 && s.last() != '\n' {
                assert(q[i] == p.last().push(s.last()));
                assert(no_newline(p[i]));
                assert forall|k: int| 0 <= k < q[i].len() implies q[i][k] != '\n' by {
                    if k < p.last().len() {
                        assert(q[i][k] == p.last()[k]);
                    }
                }
            } else if i == p.len() - 1 {
                assert(q[i] == p[i]);
            }
        }
    }
}

/// Whether no character of `l` is `c`.
pub open spec fn lacks(l: Seq<char>, c: char) -> bool {
    forall|k: int| 0 <= k < l.len() ==> l[k] != c
}

/// The pieces of a text that lacks a character other than the newline lack it too.
pub proof fn lemma_split_nl_lacks(s: Seq<char>, c: char)
    requires
        c != '\n',
        lacks(s, c),
    ensures
        forall|i: int| 0 <= i < split_nl(s).len() ==> lacks(#[trigger] split_nl(s)[i], c),
    decreases s.len(),
{
    if s.len() > 0 {
        assert(lacks(s.drop_last(), c)) by {
            assert forall|k: int| 0 <= k < s.drop_last().len() implies s.drop_last()[k] != c by {
                assert(s.drop_last()[k] == s[k]);
            }
        }
        lemma_split_nl_lacks(s.drop_last(), c);
        lemma_split_nl_nonempty(s.drop_last());
        let p = split_nl(s.drop_last());
        let q = split_nl(s);
        assert forall|i: int| 0 <= i < q.len() implies lacks(#[trigger] q[i], c) by {
            if i < p.len() - 1 {
                assert(q[i] == p[i]);
            } else if i == p.len() - 1 && s.last() != '\n' {
                assert(q[i] == p.last().push(s.last()));
                assert(lacks(p[i], c));
                assert forall|k: int| 0 <= k < q[i].len() implies q[i][k] != c by {
                    if k < p.last().len() {
                        assert(q[i][k] == p.last()[k]);
                    }
                }
            } else if i == p.len() - 1 {
                assert(q[i] == p[i]);
            }
        }
    }
}

/// A text without carriage returns is left as it is by `normalize_newlines`.
pub proof fn lemma_normalize_newlines_without_cr(s: Seq<char>)
    requires
        lacks(s, '\r'),
    ensures
        normalize_newlines(s) == s,
    decreases s.len(),
{
    if s.len() > 0 {
        assert(s[0] != '\r');
        assert(lacks(s.drop_first(), '\r')) by {
            assert forall|k: int| 0 <= k < s.drop_first().len() implies s.drop_first()[k]
                != '\r' by {
                assert(s.drop_first()[k] == s[k + 1]);
            }
        }
        lemma_normalize_newlines_without_cr(s.drop_first());
        assert(seq![s[0]] + s.drop_first() =~= s);
    }
}

/// `normalize_newlines` leaves no carriage return.
pub proof fn lemma_normalize_newlines_no_cr(s: Seq<char>)
    ensures
        lacks(normalize_newlines(s), '\r'),
    decreases s.len(),
{
    if s.len() > 0 {
        lemma_normalize_newlines_no_cr(s.drop_first());
        let r = normalize_newlines(s.drop_first());
        let out = normalize_newlines(s);
        let h: Seq<char> = if s[0] == '\r' {
            if s.len() > 1 && s[1] == '\n' {
                seq![]
            } else {
                seq!['\n']
            }
        } else {
            seq![s[0]]
        };
        assert(out =~= h + r);
        assert forall|k: int| 0 <= k < out.len() implies out[k] != '\r' by {
            if k >= h.len() {
                assert(out[k] == r[k - h.len()]);
            }
        }
    }
}

/// The position just after the last newline of `s` (0 where there is none).
pub open spec fn last_nl_end(s: Seq<char>) -> int
    decreases s.len(),
{
    if s.len() == 0 {
        0
    } else if s.last() == '\n' {
        s.len() as int
    } else {
        last_nl_end(s.drop_last())
    }
}

/// The last piece of `split_nl(s)` is what follows the last newline of `s`, and the position
/// just after that newline follows a newline.
pub proof fn lemma_split_nl_last(s: Seq<char>)
    ensures
        0 <= last_nl_end(s) <= s.len(),
        split_nl(s).len() >= 1,
        split_nl(s).last() == s.subrange(last_nl_end(s), s.len() as int),
        last_nl_end(s) > 0 ==> s[last_nl_end(s) - 1] == '\n',
    decreases s.len(),
{
    lemma_split_nl_nonempty(s);
    if s.len() > 0 {
        lemma_split_nl_last(s.drop_last());
        if s.last() != '\n' {
            assert(s.drop_last().subrange(last_nl_end(s.drop_last()), s.len() - 1).push(s.last())
                =~= s.subrange(last_nl_end(s), s.len() as int));
        } else {
            assert(s.subrange(s.len() as int, s.len() as int) =~= Seq::<char>::empty());
        }
    }
}

/// No line that `lines` gives holds a newline.
pub proof fn lemma_lines_no_newline(s: Seq<char>)
    ensures
        forall|i: int| 0 <= i < lines(s).len() ==> no_newline(#[trigger] lines(s)[i]),
{
    lemma_split_nl_no_newline(s);
    lemma_split_nl_nonempty(s);
    let p = split_nl(s);
    let q = if p.last().len() == 0 {
        p.drop_last()
    } else {
        p
    };
    assert forall|i: int| 0 <= i < lines(s).len() implies no_newline(#[trigger] lines(s)[i]) by {
        assert(q[i] == p[i]);
        assert(lines(s)[i] == strip_cr(q[i]));
        assert forall|k: int| 0 <= k < lines(s)[i].len() implies lines(s)[i][k] != '\n' by {
            assert(lines(s)[i][k] == q[i][k]);
        }
    }
}

/// Bounds `(a, b)` with `s[a..b] == trim(s)`.
pub fn trim_bounds(s: &[char]) -> (r: (usize, usize))
    ensures
        r.0 <= r.1 <= s@.len(),
        s@.subrange(r.0 as int, r.1 as int) == trim(s@),
{
    let mut a: usize = 0;
    assert(s@.subrange(0, s@.len() as int) =~= s@);
    while a < s.len() && is_whitespace(s[a])
        invariant
            a <= s@.len(),
            trim_start(s@) == trim_start(s@.subrange(a as int, s@.len() as int)),
        decreases s@.len() - a,
    {
        assert(s@.subrange(a as int, s@.len() as int).drop_first() =~= s@.subrange(
            a + 1,
            s@.len() as int,
        ));
        a += 1;
    }
    let mid = Ghost(s@.subrange(a as int, s@.len() as int));
    assert(trim_start(s@) == mid@);
    let mut b: usize = s.len();
    while b > a && is_whitespace(s[b - 1])
        invariant
            a <= b <= s@.len(),
            trim_end(mid@) == trim_end(s@.subrange(a as int, b as int)),
        decreases b,
    {
        assert(s@.subrange(a as int, b as int).drop_last() =~= s@.subrange(a as int, b - 1));
        b -= 1;
    }
    (a, b)
}

/// `trim(s)` as a fresh vector.
pub fn trim_chars(s: &[char]) -> (out: Vec<char>)
    ensures
        out@ == trim(s@),
{
    let (a, b) = trim_bounds(s);
    copy_range(s, a, b)
}

pub fn all_whitespace(s: &[char]) -> (r: bool)
    ensures
        r == all_ws(s@),
{
    let mut i: usize = 0;
    while i < s.len()
        invariant
            i <= s@.len(),
            forall|j: int| 0 <= j < i ==> is_ws(#[trigger] s@[j]),
        decreases s@.len() - i,
    {
        if !is_whitespace(s[i]) {
            return false;
        }
        i += 1;
    }
    true
}

/// What `split_whitespace().join(" ")` gives: the whitespace-separated words of `s`,
/// each pair of consecutive words separated by one space.
/// A kept character that follows whitespace, and is not the first kept one, gets one space before it.
pub open spec fn collapse_ws(s: Seq<char>) -> Seq<char>
    decreases s.len(),
{
    if s.len() == 0 {
        seq![]
    } else {
        let prev = collapse_ws(s.drop_last());
        let c = s.last();
        if is_ws(c) {
            prev
        } else if prev.len() > 0 && is_ws(s[s.len() - 2]) {
            prev.push(' ').push(c)
        } else {
            prev.push(c)
        }
    }
}

/// Text whose only whitespace is single spaces between two other characters: no whitespace
/// at either end, no run of it, no tab or newline.
pub open spec fn single_spaced(t: Seq<char>) -> bool {
    forall|i: int|
        0 <= i < t.len() && is_ws(#[trigger] t[i]) ==> t[i] == ' ' && 0 < i < t.len() - 1
            && !is_ws(t[i - 1]) && !is_ws(t[i + 1])
}

/// Collapsing whitespace leaves text that is single-spaced.
pub proof fn lemma_collapse_ws_single_spaced(s: Seq<char>)
    ensures
        single_spaced(collapse_ws(s)),
    decreases s.len(),
{
    if s.len() > 0 {
        lemma_collapse_ws_single_spaced(s.drop_last());
        let prev = collapse_ws(s.drop_last());
        let c = s.last();
        let out = collapse_ws(s);
        if !is_ws(c) {
            assert(prev.len() > 0 ==> !is_ws(prev[prev.len() - 1]));
            assert forall|i: int| 0 <= i < out.len() && is_ws(#[trigger] out[i]) implies out[i]
                == ' ' && 0 < i < out.len() - 1 && !is_ws(out[i - 1]) && !is_ws(out[i + 1]) by {
                if i < prev.len() {
                    assert(out[i] == prev[i]);
                    assert(out[i - 1] == prev[i - 1]);
                    if i + 1 < prev.len() {
                        assert(out[i + 1] == prev[i + 1]);
                    }
                }
            }
        }
    }
}

pub fn collapse_ws_chars(s: &[char]) -> (out: Vec<char>)
    ensures
        out@ == collapse_ws(s@),
{
    let mut out: Vec<char> = Vec::new();
    let mut i: usize = 0;
    let mut prev_ws = false;
    while i < s.len()
        invariant
            i <= s@.len(),
            out@ == collapse_ws(s@.take(i as int)),
            prev_ws == (i > 0 && is_ws(s@[i - 1])),
        decreases s@.len() - i,
    {
        let c = s[i];
        let ghost t = s@.take(i + 1);
        assert(t.drop_last() =~= s@.take(i as int));
        if is_whitespace(c) {
            prev_ws = true;
        } else {
            if out.len() > 0 && prev_ws {
                out.push(' ');
            }
            out.push(c);
            prev_ws = false;
        }
        i += 1;
    }
    assert(s@.take(s@.len() as int) =~= s@);
    out
}

/// `clean_inline`: the words of `input` joined by single spaces.
pub fn clean_inline(input: &str) -> (out: String)
    ensures
        out@ == collapse_ws(input@),
{
    let v = chars_of(input);
    let r = collapse_ws_chars(v.as_slice());
    string_from(r.as_slice())
}

/// `parts` joined with `sep` between consecutive parts.
pub open spec fn join(parts: Seq<Seq<char>>, sep: Seq<char>) -> Seq<char>
    decreases parts.len(),
{
    if parts.len() == 0 {
        seq![]
    } else if parts.len() == 1 {
        parts[0]
    } else {
        join(parts.drop_last(), sep) + sep + parts.last()
    }
}

/// The pieces of `s` between `'\n'` characters (`str::split('\n')`): always at least one piece.
pub open spec fn split_nl(s: Seq<char>) -> Seq<Seq<char>>
    decreases s.len(),
{
    if s.len() == 0 {
        seq![seq![]]
    } else {
        let p = split_nl(s.drop_last());
        if s.last() == '\n' {
            p.push(seq![])
        } else {
            p.update(p.len() - 1, p.last().push(s.last()))
        }
    }
}

pub proof fn lemma_split_nl_nonempty(s: Seq<char>)
    ensures
        split_nl(s).len() >= 1,
    decreases s.len(),
{
    if s.len() > 0 {
        lemma_split_nl_nonempty(s.drop_last());
    }
}

/// One line without a final carriage return.
pub open spec fn strip_cr(l: Seq<char>) -> Seq<char> {
    if l.len() > 0 && l.last() == '\r' {
        l.drop_last()
    } else {
        l
    }
}

/// `str::lines`: the pieces between `'\n'`, each without a final `'\r'`,
/// with no final empty piece when `s` ends with `'\n'` or is empty.
pub open spec fn lines(s: Seq<char>) -> Seq<Seq<char>> {
    let p = split_nl(s);
    let q = if p.last().len() == 0 {
        p.drop_last()
    } else {
        p
    };
    q.map_values(|l: Seq<char>| strip_cr(l))
}

/// The pieces of `s` between `'\n'` characters.
pub fn split_nl_exec(s: &[char]) -> (out: Vec<Vec<char>>)
    ensures
        out@.len() == split_nl(s@).len(),
        forall|i: int| 0 <= i < out@.len() ==> #[trigger] out@[i]@ == split_nl(s@)[i],
{
    let mut out: Vec<Vec<char>> = Vec::new();
    let mut cur: Vec<char> = Vec::new();
    let mut i: usize = 0;
    while i < s.len()
        invariant
            i <= s@.len(),
            out@.len() + 1 == split_nl(s@.take(i as int)).len(),
            forall|j: int| 0 <= j < out@.len() ==> #[trigger] out@[j]@ == split_nl(s@.take(i as int))[j],
            cur@ == split_nl(s@.take(i as int)).last(),
        decreases s@.len() - i,
    {
        proof {
            lemma_split_nl_nonempty(s@.take(i as int));
        }
        let c = s[i];
        assert(s@.take(i + 1).drop_last() =~= s@.take(i as int));
        if c == '\n' {
            let done = cur;
            out.push(done);
            cur = Vec::new();
        } else {
            cur.push(c);
        }
        i += 1;
    }
    assert(s@.take(s@.len() as int) =~= s@);
    proof {
        lemma_split_nl_nonempty(s@);
    }
    out.push(cur);
    out
}

/// `str::lines`.
pub fn lines_exec(s: &[char]) -> (out: Vec<Vec<char>>)
    ensures
        out@.len() == lines(s@).len(),
        forall|i: int| 0 <= i < out@.len() ==> #[trigger] out@[i]@ == lines(s@)[i],
{
    let pieces = split_nl_exec(s);
    proof {
        lemma_split_nl_nonempty(s@);
    }
    let ghost p = split_nl(s@);
    let n = if pieces[pieces.len() - 1].len() == 0 {
        pieces.len() - 1
    } else {
        pieces.len()
    };
    let ghost q = if p.last().len() == 0 {
        p.drop_last()
    } else {
        p
    };
    assert(q.len() == n);
    let mut out: Vec<Vec<char>> = Vec::new();
    let mut i: usize = 0;
    while i < n
        invariant
            n <= pieces@.len(),
            pieces@.len() == p.len(),
            q.len() == n,
            forall|j: int| 0 <= j < n ==> q[j] == p[j],
            forall|j: int| 0 <= j < pieces@.len() ==> #[trigger] pieces@[j]@ == p[j],
            i <= n,
            out@.len() == i,
            forall|j: int| 0 <= j < i ==> #[trigger] out@[j]@ == strip_cr(q[j]),
        decreases n - i,
    {
        let piece = &pieces[i];
        let line = if piece.len() > 0 && piece[piece.len() - 1] == '\r' {
            copy_range(piece.as_slice(), 0, piece.len() - 1)
        } else {
            copy_range(piece.as_slice(), 0, piece.len())
        };
        proof {
            assert(piece@.subrange(0, piece@.len() as int) =~= piece@);
            assert(piece@.subrange(0, piece@.len() - 1) =~= piece@.drop_last());
        }
        out.push(line);
        i += 1;
    }
    out
}

/// Newline normalization: `"\r\n"` becomes `"\n"`, then any other `'\r'` becomes `'\n'`.
pub open spec fn normalize_newlines(s: Seq<char>) -> Seq<char>
    decreases s.len(),
{
    if s.len() == 0 {
        seq![]
    } else if s[0] == '\r' {
        if s.len() > 1 && s[1] == '\n' {
            normalize_newlines(s.drop_first())
        } else {
            seq!['\n'] + normalize_newlines(s.drop_first())
        }
    } else {
        seq![s[0]] + normalize_newlines(s.drop_first())
    }
}

pub fn normalize_newlines_exec(s: &[char]) -> (out: Vec<char>)
    ensures
        out@ == normalize_newlines(s@),
{
    let mut out: Vec<char> = Vec::new();
    let mut i: usize = 0;
    assert(s@.skip(0) =~= s@);
    while i < s.len()
        invariant
            i <= s@.len(),
            out@ + normalize_newlines(s@.skip(i as int)) == normalize_newlines(s@),
        decreases s@.len() - i,
    {
        let ghost rest = s@.skip(i as int);
        let ghost before = out@;
        assert(rest.drop_first() =~= s@.skip(i + 1));
        let c = s[i];
        if c == '\r' {
            if i + 1 < s.len() && s[i + 1] == '\n' {
                assert(rest[1] == s@[i + 1]);
            } else {
                out.push('\n');
                assert(before + (seq!['\n'] + normalize_newlines(rest.drop_first())) =~= out@
                    + normalize_newlines(rest.drop_first()));
            }
        } else {
            out.push(c);
            assert(before + (seq![c] + normalize_newlines(rest.drop_first())) =~= out@
                + normalize_newlines(rest.drop_first()));
        }
        i += 1;
    }
    assert(s@.skip(s@.len() as int) =~= Seq::<char>::empty());
    out
}


/// `parts` joined with `sep` between consecutive parts.
pub fn join_exec(parts: &Vec<Vec<char>>, sep: &[char]) -> (out: Vec<char>)
    ensures
        out@ == join(parts@.map_values(|p: Vec<char>| p@), sep@),
{
    let ghost pv = parts@.map_values(|p: Vec<char>| p@);
    let mut out: Vec<char> = Vec::new();
    let mut i: usize = 0;
    while i < parts.len()
        invariant
            i <= parts@.len(),
            pv == parts@.map_values(|p: Vec<char>| p@),
            out@ == join(pv.take(i as int), sep@),
        decreases parts@.len() - i,
    {
        assert(pv.take(i + 1).drop_last() =~= pv.take(i as int));
        if i > 0 {
            push_all(&mut out, sep);
        }
        push_all(&mut out, parts[i].as_slice());
        i += 1;
    }
    assert(pv.take(parts@.len() as int) =~= pv);
    out
}

pub open spec fn is_digit(c: char) -> bool {
    '0' <= c && c <= '9'
}

/// Decimal value of a string of ASCII digits.
pub open spec fn digits_value(s: Seq<char>) -> nat
    decreases s.len(),
{
    if s.len() == 0 {
        0
    } else {
        digits_value(s.drop_last()) * 10 + ((s.last() as u32) - ('0' as u32)) as nat
    }
}

/// `s` without one leading `'+'`.
pub open spec fn unsigned_digits(s: Seq<char>) -> Seq<char> {
    if s.len() > 0 && s[0] == '+' {
        s.drop_first()
    } else {
        s
    }
}

pub open spec fn all_digits(d: Seq<char>) -> bool {
    forall|i: int| 0 <= i < d.len() ==> is_digit(#[trigger] d[i])
}

/// What `str::parse::<usize>` accepts: an optional `'+'`, then one or more ASCII digits,
/// whose value fits in `usize`.
pub open spec fn parse_usize(s: Seq<char>) -> Option<usize> {
    let d = unsigned_digits(s);
    if d.len() > 0 && all_digits(d) && digits_value(d) <= usize::MAX {
        Some(digits_value(d) as usize)
    } else {
        None
    }
}

proof fn lemma_digits_value_grows(s: Seq<char>, i: int)
    requires
        0 <= i <= s.len(),
        forall|k: int| 0 <= k < s.len() ==> is_digit(#[trigger] s[k]),
    ensures
        digits_value(s.take(i)) <= digits_value(s),
    decreases s.len() - i,
{
    if i < s.len() {
        lemma_digits_value_grows(s, i + 1);
        assert(s.take(i + 1).drop_last() =~= s.take(i));
    } else {
        assert(s.take(i) =~= s);
    }
}

/// Decimal parse of a `usize`, as `str::parse::<usize>` does it.
pub fn parse_usize_exec(s: &[char]) -> (r: Option<usize>)
    ensures
        r == parse_usize(s@),
{
    let start: usize = if s.len() > 0 && s[0] == '+' {
        1
    } else {
        0
    };
    let ghost d = unsigned_digits(s@);
    assert(d =~= s@.subrange(start as int, s@.len() as int));
    if start >= s.len() {
        return None;
    }
    let mut value: usize = 0;
    let mut i: usize = start;
    while i < s.len()
        invariant
            start <= i <= s@.len(),
            start < s@.len(),
            d == s@.subrange(start as int, s@.len() as int),
            d == unsigned_digits(s@),
            forall|k: int| start <= k < i ==> is_digit(#[trigger] s@[k]),
            value == digits_value(s@.subrange(start as int, i as int)),
        decreases s@.len() - i,
    {
        let c = s[i];
        if !('0' <= c && c <= '9') {
            assert(d[i - start] == s@[i as int]);
            assert(!is_digit(d[i - start]));
            assert(!all_digits(d));
            return None;
        }
        assert(s@.subrange(start as int, i + 1).drop_last() =~= s@.subrange(start as int, i as int));
        let digit: usize = ((c as u32) - ('0' as u32)) as usize;
        let m = value.checked_mul(10);
        match m {
            None => {
                proof {
                    if all_digits(d) {
                        lemma_digits_value_grows(d, i + 1 - start);
                        assert(d.take(i + 1 - start) =~= s@.subrange(start as int, i + 1));
                    }
                }
                return None;
            },
            Some(m) => {
                match m.checked_add(digit) {
                    None => {
                        proof {
                            if all_digits(d) {
                                lemma_digits_value_grows(d, i + 1 - start);
                                assert(d.take(i + 1 - start) =~= s@.subrange(start as int, i + 1));
                            }
                        }
                        return None;
                    },
                    Some(v) => {
                        value = v;
                    },
                }
            },
        }
        i += 1;
    }
    assert forall|k: int| 0 <= k < d.len() implies is_digit(#[trigger] d[k]) by {
        assert(d[k] == s@[k + start]);
    }
    assert(s@.subrange(start as int, s@.len() as int) == d);
    Some(value)
}

} // verus!
