use vstd::prelude::*;

use crate::text::{
    all_whitespace, all_ws, chars_eq, chars_of, collapse_ws, collapse_ws_chars, contains_char,
    copy_range, join, join_exec, lines, lines_exec, normalize_newlines,
    normalize_newlines_exec, push_all, push_str, starts_with, starts_with_exec, string_from, trim,
    trim_chars, trim_end, eq_str, is_ws, lemma_lines_no_newline, lemma_trim_end_prefix,
    lemma_trim_stretch, no_newline, lacks, last_nl_end, lemma_normalize_newlines_no_cr,
    lemma_normalize_newlines_without_cr, lemma_split_nl_last, lemma_split_nl_lacks,
    lemma_split_nl_nonempty, split_nl, strip_cr, trim_start, contains, occurs_at,
};
use crate::weburl::{join_url, parse_url, url_join, url_parse, ParsedUrl};
use crate::dom::{
    attr, attr_spec, attrs_of, kids, node_texts, select_document, select_forest, select_spec,
    parse_html, text_of, AttrView, DomAttr, DomElement, DomNode, HtmlDocument, Sel, Selector, Tree,
};

verus! {

/// What `extract` finds in an HTML page: its title, its Markdown, and warnings.
#[derive(Debug)]
pub struct Extracted {
    pub title: Option<String>,
    pub content: String,
    pub warnings: Vec<String>,
}

pub struct ExtractedView {
    pub title: Option<Seq<char>>,
    pub content: Seq<char>,
    pub warnings: Seq<Seq<char>>,
}

pub open spec fn opt_view(o: Option<String>) -> Option<Seq<char>> {
    match o {
        Some(s) => Some(s@),
        None => None,
    }
}

pub open spec fn strings_view(v: Seq<String>) -> Seq<Seq<char>> {
    v.map_values(|s: String| s@)
}

impl View for Extracted {
    type V = ExtractedView;

    open spec fn view(&self) -> ExtractedView {
        ExtractedView {
            title: opt_view(self.title),
            content: self.content@,
            warnings: strings_view(self.warnings@),
        }
    }
}

// ---------------------------------------------------------------- Markdown text

/// The delimiter of an inline code span: two backticks when the code holds one, else one.
pub open spec fn inline_code_spec(code: Seq<char>) -> Seq<char> {
    let fence = if code.contains('`') {
        seq!['`', '`']
    } else {
        seq!['`']
    };
    fence + code + fence
}

/// An inline code span.
pub fn inline_code(code: &[char]) -> (out: Vec<char>)
    ensures
        out@ == inline_code_spec(code@),
{
    let two = contains_char(code, '`');
    let mut out: Vec<char> = Vec::new();
    out.push('`');
    if two {
        out.push('`');
    }
    push_all(&mut out, code);
    out.push('`');
    if two {
        out.push('`');
    }
    let ghost fence = if two {
        seq!['`', '`']
    } else {
        seq!['`']
    };
    assert(out@ =~= fence + code@ + fence);
    out
}

/// (longest run of backticks, length of the run that ends `s`).
pub open spec fn backtick_runs(s: Seq<char>) -> (nat, nat)
    decreases s.len(),
{
    if s.len() == 0 {
        (0, 0)
    } else {
        let (longest, current) = backtick_runs(s.drop_last());
        if s.last() == '`' {
            let c = current + 1;
            (if c > longest {
                c
            } else {
                longest
            }, c)
        } else {
            (longest, 0)
        }
    }
}

/// A code fence: one more backtick than the longest run of backticks in the code, and at
/// least three.
pub open spec fn code_fence_spec(code: Seq<char>) -> Seq<char> {
    let longest = backtick_runs(code).0;
    let n = if longest > 2 {
        longest
    } else {
        2
    };
    Seq::new(n + 1, |i: int| '`')
}

/// A code fence for a block of code.
pub fn code_fence_for(code: &[char]) -> (fence: Vec<char>)
    ensures
        fence@ == code_fence_spec(code@),
{
    let mut longest: usize = 0;
    let mut current: usize = 0;
    let mut i: usize = 0;
    while i < code.len()
        invariant
            i <= code@.len(),
            (longest as nat, current as nat) == backtick_runs(code@.take(i as int)),
            current <= i,
            longest <= i,
        decreases code@.len() - i,
    {
        assert(code@.take(i + 1).drop_last() =~= code@.take(i as int));
        if code[i] == '`' {
            current += 1;
            if current > longest {
                longest = current;
            }
        } else {
            current = 0;
        }
        i += 1;
    }
    assert(code@.take(code@.len() as int) =~= code@);
    let n = if longest > 2 {
        longest
    } else {
        2
    };
    let mut fence: Vec<char> = Vec::new();
    fence.push('`');
    let mut k: usize = 0;
    while k < n
        invariant
            k <= n,
            fence@ =~= Seq::new((k + 1) as nat, |j: int| '`'),
        decreases n - k,
    {
        fence.push('`');
        k += 1;
    }
    fence
}

/// `s[i..j]` is a run of backticks.
pub open spec fn backtick_run(s: Seq<char>, i: int, j: int) -> bool {
    0 <= i <= j <= s.len() && forall|k: int| i <= k < j ==> #[trigger] s[k] == '`'
}

proof fn lemma_backtick_runs_bound(s: Seq<char>, i: int, j: int)
    requires
        backtick_run(s, i, j),
    ensures
        j - i <= backtick_runs(s).0,
        j == s.len() ==> j - i <= backtick_runs(s).1,
    decreases s.len(),
{
    if s.len() > 0 {
        let t = s.drop_last();
        if j == s.len() {
            if i < j {
                assert(backtick_run(t, i, j - 1));
                lemma_backtick_runs_bound(t, i, j - 1);
                assert(s.last() == s[j - 1]);
            }
        } else {
            assert(backtick_run(t, i, j));
            lemma_backtick_runs_bound(t, i, j);
        }
    }
}

/// A code fence cannot occur inside the code it fences: it is longer than every run of
/// backticks in the code (and at least three backticks long).
pub proof fn lemma_code_fence_outlasts_runs(code: Seq<char>, i: int, j: int)
    requires
        backtick_run(code, i, j),
    ensures
        j - i < code_fence_spec(code).len(),
        code_fence_spec(code).len() >= 3,
{
    lemma_backtick_runs_bound(code, i, j);
}

/// One character of link text, escaped: backslash and square brackets get a backslash.
pub open spec fn escape_char(c: char) -> Seq<char> {
    if c == '\\' || c == '[' || c == ']' {
        seq!['\\', c]
    } else {
        seq![c]
    }
}

/// Link text with every backslash and square bracket escaped by a backslash.
pub open spec fn escape_link_spec(s: Seq<char>) -> Seq<char>
    decreases s.len(),
{
    if s.len() == 0 {
        seq![]
    } else {
        escape_char(s[0]) + escape_link_spec(s.drop_first())
    }
}

/// Escapes link text for Markdown.
pub fn escape_link_text(input: &[char]) -> (out: Vec<char>)
    ensures
        out@ == escape_link_spec(input@),
{
    let mut out: Vec<char> = Vec::new();
    let mut i: usize = 0;
    assert(input@.skip(0) =~= input@);
    while i < input.len()
        invariant
            i <= input@.len(),
            out@ + escape_link_spec(input@.skip(i as int)) == escape_link_spec(input@),
        decreases input@.len() - i,
    {
        let ghost before = out@;
        let ghost rest = input@.skip(i as int);
        assert(rest.drop_first() =~= input@.skip(i + 1));
        let c = input[i];
        if c == '\\' || c == '[' || c == ']' {
            out.push('\\');
        }
        out.push(c);
        assert(before + (escape_char(c) + escape_link_spec(rest.drop_first())) =~= out@
            + escape_link_spec(input@.skip(i + 1)));
        i += 1;
    }
    assert(input@.skip(input@.len() as int) =~= Seq::<char>::empty());
    assert(out@ + Seq::<char>::empty() =~= out@);
    out
}

/// Reads escaped text back: a backslash stands for the character after it.
pub open spec fn unescape(s: Seq<char>) -> Seq<char>
    decreases s.len(),
{
    if s.len() == 0 {
        seq![]
    } else if s[0] == '\\' && s.len() > 1 {
        seq![s[1]] + unescape(s.skip(2))
    } else {
        seq![s[0]] + unescape(s.drop_first())
    }
}

/// Escaping link text loses nothing: reading the escapes back gives the text again.
pub proof fn lemma_escape_link_roundtrip(s: Seq<char>)
    ensures
        unescape(escape_link_spec(s)) == s,
    decreases s.len(),
{
    if s.len() > 0 {
        lemma_escape_link_roundtrip(s.drop_first());
        let e = escape_link_spec(s);
        let rest = escape_link_spec(s.drop_first());
        let c = s[0];
        if c == '\\' || c == '[' || c == ']' {
            assert(e.skip(2) =~= rest);
            assert(e[1] == c);
        } else {
            assert(e.drop_first() =~= rest);
        }
        assert(seq![c] + s.drop_first() =~= s);
    }
}

/// A table cell with every `|` escaped by a backslash.
pub open spec fn escape_pipes(s: Seq<char>) -> Seq<char>
    decreases s.len(),
{
    if s.len() == 0 {
        seq![]
    } else {
        escape_pipes(s.drop_last()) + (if s.last() == '|' {
            seq!['\\', '|']
        } else {
            seq![s.last()]
        })
    }
}

fn push_escaped_pipes(out: &mut Vec<char>, s: &[char])
    ensures
        final(out)@ == old(out)@ + escape_pipes(s@),
{
    let ghost start = out@;
    let mut i: usize = 0;
    while i < s.len()
        invariant
            i <= s@.len(),
            out@ == start + escape_pipes(s@.take(i as int)),
        decreases s@.len() - i,
    {
        assert(s@.take(i + 1).drop_last() =~= s@.take(i as int));
        let ghost before = out@;
        if s[i] == '|' {
            out.push('\\');
            out.push('|');
            assert(out@ =~= before + seq!['\\', '|']);
        } else {
            out.push(s[i]);
            assert(out@ =~= before + seq![s@[i as int]]);
        }
        i += 1;
    }
    assert(s@.take(s@.len() as int) =~= s@);
}

pub open spec fn digit_char(d: nat) -> char {
    ((d + 48) as u32) as char
}

/// Decimal digits of a number.
pub open spec fn decimal(n: nat) -> Seq<char>
    decreases n,
{
    if n < 10 {
        seq![digit_char(n)]
    } else {
        decimal(n / 10) + seq![digit_char(n % 10)]
    }
}

/// Appends the decimal digits of `n`.
pub fn push_decimal(out: &mut Vec<char>, n: u128)
    ensures
        final(out)@ == old(out)@ + decimal(n as nat),
    decreases n,
{
    if n >= 10 {
        push_decimal(out, n / 10);
    }
    let d: u8 = (n % 10) as u8;
    let c = ((d + 48) as u8) as char;
    out.push(c);
}

/// Blank-line state of `normalize_markdown` after some lines: the text so far and how many
/// blank lines in a row came last.
pub open spec fn normalize_fold(ls: Seq<Seq<char>>) -> (Seq<char>, nat)
    decreases ls.len(),
{
    if ls.len() == 0 {
        (seq![], 0)
    } else {
        let (out, blanks) = normalize_fold(ls.drop_last());
        let line = trim_end(ls.last());
        if all_ws(line) {
            let b = blanks + 1;
            (if b <= 1 {
                out.push('\n')
            } else {
                out
            }, b)
        } else {
            (out + line + seq!['\n'], 0)
        }
    }
}

/// Markdown with newlines normalized, trailing whitespace removed from each line, runs of blank
/// lines shortened to one, and surrounding whitespace removed.
pub open spec fn normalize_markdown_spec(input: Seq<char>) -> Seq<char> {
    trim(normalize_fold(lines(normalize_newlines(input))).0)
}

/// Whether `t` never has three newlines in a row, that is, never two blank lines in a row.
pub open spec fn no_blank_run(t: Seq<char>) -> bool {
    forall|i: int|
        0 <= i && i + 2 < t.len() ==> !(#[trigger] t[i] == '\n' && t[i + 1] == '\n' && t[i + 2]
            == '\n')
}

proof fn lemma_fold_no_blank_run(ls: Seq<Seq<char>>)
    requires
        forall|i: int| 0 <= i < ls.len() ==> no_newline(#[trigger] ls[i]),
    ensures
        no_blank_run(normalize_fold(ls).0),
        normalize_fold(ls).1 == 0 ==> normalize_fold(ls).0.len() < 2 || normalize_fold(ls).0[
            normalize_fold(ls).0.len() - 2] != '\n',
    decreases ls.len(),
{
    if ls.len() > 0 {
        let init = ls.drop_last();
        assert forall|i: int| 0 <= i < init.len() implies no_newline(#[trigger] init[i]) by {
            assert(init[i] == ls[i]);
        }
        lemma_fold_no_blank_run(init);
        let (out, blanks) = normalize_fold(init);
        assert(no_newline(ls[ls.len() - 1]));
        let raw = ls.last();
        lemma_trim_end_prefix(raw);
        let line = trim_end(raw);
        if all_ws(line) {
            if blanks == 0 {
                let t = out.push('\n');
                assert forall|i: int| 0 <= i && i + 2 < t.len() implies !(#[trigger] t[i] == '\n'
                    && t[i + 1] == '\n' && t[i + 2] == '\n') by {
                    if i + 2 < out.len() {
                        assert(t[i] == out[i] && t[i + 1] == out[i + 1] && t[i + 2] == out[i + 2]);
                    } else {
                        assert(t[i] == out[out.len() - 2]);
                    }
                }
            }
        } else {
            assert(line.len() > 0);
            assert forall|k: int| 0 <= k < line.len() implies line[k] != '\n' by {
                assert(line[k] == raw[k]);
            }
            let t = out + line + seq!['\n'];
            assert(t[t.len() - 2] == line.last());
            assert forall|i: int| 0 <= i && i + 2 < t.len() implies !(#[trigger] t[i] == '\n'
                && t[i + 1] == '\n' && t[i + 2] == '\n') by {
                if i + 2 < out.len() {
                    assert(t[i] == out[i] && t[i + 1] == out[i + 1] && t[i + 2] == out[i + 2]);
                } else if i + 2 < out.len() + line.len() {
                    assert(t[i + 2] == line[i + 2 - out.len()]);
                } else {
                    assert(t[i + 1] == line.last());
                }
            }
        }
    }
}

/// Normalized Markdown never has two blank lines in a row, holds no carriage return, neither
/// starts nor ends with whitespace, has no line that ends in whitespace, and is left unchanged
/// by normalizing it again.
pub proof fn lemma_normalized_markdown_is_tidy(input: Seq<char>)
    ensures
        no_blank_run(normalize_markdown_spec(input)),
        normalize_markdown_spec(input).len() > 0 ==> !is_ws(normalize_markdown_spec(input)[0])
            && !is_ws(normalize_markdown_spec(input).last()),
        lacks(normalize_markdown_spec(input), '\r'),
        forall|i: int|
            0 <= i < normalize_markdown_spec(input).len() && #[trigger] normalize_markdown_spec(
                input,
            )[i] == '\n' ==> i > 0 && (normalize_markdown_spec(input)[i - 1] == '\n' || !is_ws(
                normalize_markdown_spec(input)[i - 1],
            )),
        trim(normalize_markdown_spec(input)) == normalize_markdown_spec(input),
        normalize_markdown_spec(normalize_markdown_spec(input)) == normalize_markdown_spec(input),
{
    lemma_normalized_markdown_tidy_markdown(input);
    lemma_tidy_markdown_is_fixed(normalize_markdown_spec(input));
    let ls = lines(normalize_newlines(input));
    lemma_lines_no_newline(normalize_newlines(input));
    lemma_fold_no_blank_run(ls);
    let out = normalize_fold(ls).0;
    lemma_trim_stretch(out);
    let (a, b) = choose|a: int, b: int| 0 <= a <= b <= out.len() && trim(out) == out.subrange(a, b);
    let r = trim(out);
    assert forall|i: int| 0 <= i && i + 2 < r.len() implies !(#[trigger] r[i] == '\n' && r[i + 1]
        == '\n' && r[i + 2] == '\n') by {
        assert(r[i] == out[a + i] && r[i + 1] == out[a + i + 1] && r[i + 2] == out[a + i + 2]);
    }
}

/// Text as normalized Markdown leaves it: no carriage return, no whitespace at either end, and
/// before each newline either a character other than whitespace, or a newline that itself
/// follows such a character.
pub open spec fn tidy_markdown(y: Seq<char>) -> bool {
    &&& lacks(y, '\r')
    &&& y.len() > 0 ==> !is_ws(y[0]) && !is_ws(y.last())
    &&& forall|i: int|
        0 <= i < y.len() && #[trigger] y[i] == '\n' ==> i > 0 && (!is_ws(y[i - 1]) || (y[i - 1]
            == '\n' && i > 1 && !is_ws(y[i - 2])))
}

proof fn lemma_trim_end_kept(w: Seq<char>)
    requires
        w.len() > 0,
        !is_ws(w.last()),
    ensures
        trim_end(w) == w,
        !all_ws(w),
{
    assert(!is_ws(w[w.len() - 1]));
}

/// Folding the complete lines of a prefix of tidy text gives that prefix up to its last
/// newline, with one pending blank line exactly when that newline ends an empty line.
proof fn lemma_fold_tidy_prefix(y: Seq<char>, n: int)
    requires
        tidy_markdown(y),
        0 <= n <= y.len(),
    ensures
        normalize_fold(split_nl(y.take(n)).drop_last()).0 == y.take(n).take(last_nl_end(y.take(n))),
        normalize_fold(split_nl(y.take(n)).drop_last()).1 == (if last_nl_end(y.take(n)) >= 2
            && y.take(n)[last_nl_end(y.take(n)) - 2] == '\n' {
            1nat
        } else {
            0nat
        }),
    decreases n,
{
    let s = y.take(n);
    lemma_split_nl_last(s);
    if n == 0 {
        assert(s =~= Seq::<char>::empty());
        assert(split_nl(s).drop_last() =~= Seq::<Seq<char>>::empty());
        assert(s.take(0) =~= Seq::<char>::empty());
    } else {
        let sp = y.take(n - 1);
        assert(s.drop_last() =~= sp);
        assert(s.last() == y[n - 1]);
        lemma_fold_tidy_prefix(y, n - 1);
        lemma_split_nl_last(sp);
        lemma_split_nl_nonempty(sp);
        let q = split_nl(sp);
        let pp = last_nl_end(sp);
        if y[n - 1] != '\n' {
            assert(split_nl(s).drop_last() =~= q.drop_last());
            assert(last_nl_end(s) == pp);
            assert(s.take(pp) =~= sp.take(pp));
            if pp >= 2 {
                assert(s[pp - 2] == sp[pp - 2]);
            }
        } else {
            assert(split_nl(s).drop_last() =~= q);
            assert(last_nl_end(s) == n);
            assert(s.take(n) =~= s);
            let w = q.last();
            assert(y[n - 1] == '\n');
            assert(n - 1 > 0);
            assert(sp.last() == y[n - 2]);
            if !is_ws(y[n - 2]) {
                lemma_split_nl_last(sp.drop_last());
                assert(pp <= n - 2);
                assert(w.last() == y[n - 2]);
                lemma_trim_end_kept(w);
                assert(sp.take(pp) + w + seq!['\n'] =~= s);
                assert(s[n - 2] == y[n - 2]);
            } else {
                assert(y[n - 2] == '\n' && n - 1 > 1 && !is_ws(y[n - 3]));
                assert(pp == n - 1);
                assert(w =~= Seq::<char>::empty());
                assert(trim_end(w) =~= Seq::<char>::empty());
                assert(sp[pp - 2] == y[n - 3]);
                assert(sp.take(n - 1).push('\n') =~= s);
                assert(s[n - 2] == y[n - 2]);
            }
        }
    }
}

/// Normalizing tidy text gives it back unchanged.
pub proof fn lemma_tidy_markdown_is_fixed(y: Seq<char>)
    requires
        tidy_markdown(y),
    ensures
        normalize_markdown_spec(y) == y,
        trim(y) == y,
{
    lemma_normalize_newlines_without_cr(y);
    if y.len() == 0 {
        assert(split_nl(y) =~= seq![Seq::<char>::empty()]);
        assert(lines(y) =~= Seq::<Seq<char>>::empty());
        assert(normalize_fold(lines(y)).0 =~= Seq::<char>::empty());
    } else {
        lemma_fold_tidy_prefix(y, y.len() as int);
        assert(y.take(y.len() as int) =~= y);
        lemma_split_nl_last(y);
        lemma_split_nl_last(y.drop_last());
        lemma_split_nl_lacks(y, '\r');
        let q = split_nl(y);
        let p = last_nl_end(y);
        let w = q.last();
        assert(y.last() != '\n');
        assert(p <= y.len() - 1);
        assert(w.last() == y.last());
        assert forall|i: int| 0 <= i < q.len() implies strip_cr(#[trigger] q[i]) == q[i] by {
            assert(lacks(q[i], '\r'));
            if q[i].len() > 0 {
                assert(q[i][q[i].len() - 1] != '\r');
            }
        }
        assert(lines(y) =~= q);
        lemma_trim_end_kept(w);
        assert(q.drop_last().push(w) =~= q);
        assert(y.take(p) + w + seq!['\n'] =~= y.push('\n'));
        let z = y.push('\n');
        assert(normalize_fold(lines(y)).0 == z);
        assert(z[0] == y[0]);
        assert(trim_start(z) == z);
        assert(z.drop_last() =~= y);
        assert(trim_end(z) == trim_end(y));
        assert(trim_end(y) == y) by {
            lemma_trim_end_kept(y);
        }
        assert(trim_start(y) == y);
    }
}

/// Lines, each followed by a newline.
pub open spec fn concat_nl(m: Seq<Seq<char>>) -> Seq<char>
    decreases m.len(),
{
    if m.len() == 0 {
        seq![]
    } else {
        concat_nl(m.drop_last()) + m.last() + seq!['\n']
    }
}

/// The lines that `normalize_fold` keeps, and how many blank lines in a row came last.
pub open spec fn kept_lines(ls: Seq<Seq<char>>) -> (Seq<Seq<char>>, nat)
    decreases ls.len(),
{
    if ls.len() == 0 {
        (seq![], 0)
    } else {
        let (m, b) = kept_lines(ls.drop_last());
        let line = trim_end(ls.last());
        if all_ws(line) {
            let b2 = b + 1;
            (if b2 <= 1 {
                m.push(seq![])
            } else {
                m
            }, b2)
        } else {
            (m.push(line), 0)
        }
    }
}

/// Lines as normalized Markdown keeps them: no newline or carriage return in a line, each
/// empty or ending in a character other than whitespace, and no two empty lines in a row.
pub open spec fn kept_tidy(m: Seq<Seq<char>>) -> bool {
    &&& forall|k: int|
        0 <= k < m.len() ==> no_newline(#[trigger] m[k]) && lacks(m[k], '\r') && (m[k].len() == 0
            || !is_ws(m[k].last()))
    &&& forall|k: int| 0 < k < m.len() && (#[trigger] m[k]).len() == 0 ==> m[k - 1].len() > 0
}

proof fn lemma_kept_lines(ls: Seq<Seq<char>>)
    requires
        forall|i: int| 0 <= i < ls.len() ==> no_newline(#[trigger] ls[i]) && lacks(ls[i], '\r'),
    ensures
        normalize_fold(ls).0 == concat_nl(kept_lines(ls).0),
        normalize_fold(ls).1 == kept_lines(ls).1,
        kept_tidy(kept_lines(ls).0),
        kept_lines(ls).1 == 0 ==> kept_lines(ls).0.len() == 0 || kept_lines(ls).0.last().len() > 0,
        kept_lines(ls).1 > 0 ==> kept_lines(ls).0.len() > 0 && kept_lines(ls).0.last().len() == 0,
    decreases ls.len(),
{
    if ls.len() > 0 {
        let init = ls.drop_last();
        assert forall|i: int| 0 <= i < init.len() implies no_newline(#[trigger] init[i]) && lacks(
            init[i],
            '\r',
        ) by {
            assert(init[i] == ls[i]);
        }
        lemma_kept_lines(init);
        let (m, b) = kept_lines(init);
        let raw = ls.last();
        assert(no_newline(ls[ls.len() - 1]) && lacks(ls[ls.len() - 1], '\r'));
        lemma_trim_end_prefix(raw);
        let line = trim_end(raw);
        if all_ws(line) {
            if b == 0 {
                let m2 = m.push(seq![]);
                assert(m2.drop_last() =~= m);
                assert(concat_nl(m2) =~= concat_nl(m) + seq!['\n']);
                assert forall|k: int| 0 <= k < m2.len() implies no_newline(#[trigger] m2[k])
                    && lacks(m2[k], '\r') && (m2[k].len() == 0 || !is_ws(m2[k].last())) by {
                    if k < m.len() {
                        assert(m2[k] == m[k]);
                    }
                }
                assert forall|k: int| 0 < k < m2.len() && (#[trigger] m2[k]).len() == 0 implies m2[k
                    - 1].len() > 0 by {
                    if k < m.len() {
                        assert(m2[k] == m[k] && m2[k - 1] == m[k - 1]);
                    } else {
                        assert(m2[k - 1] == m.last());
                    }
                }
            }
        } else {
            let m2 = m.push(line);
            assert(m2.drop_last() =~= m);
            assert(line.len() > 0);
            assert forall|k: int| 0 <= k < line.len() implies line[k] != '\n' && line[k] != '\r' by {
                assert(line[k] == raw[k]);
            }
            assert forall|k: int| 0 <= k < m2.len() implies no_newline(#[trigger] m2[k]) && lacks(
                m2[k],
                '\r',
            ) && (m2[k].len() == 0 || !is_ws(m2[k].last())) by {
                if k < m.len() {
                    assert(m2[k] == m[k]);
                }
            }
            assert forall|k: int| 0 < k < m2.len() && (#[trigger] m2[k]).len() == 0 implies m2[k
                - 1].len() > 0 by {
                if k < m.len() {
                    assert(m2[k] == m[k] && m2[k - 1] == m[k - 1]);
                }
            }
        }
    }
}

/// Before each newline of a text: the start, a character other than whitespace, or a newline
/// that follows the start or such a character.
pub open spec fn newlines_follow_text(out: Seq<char>) -> bool {
    forall|i: int|
        0 <= i < out.len() && #[trigger] out[i] == '\n' ==> i == 0 || !is_ws(out[i - 1]) || (out[i
            - 1] == '\n' && (i == 1 || !is_ws(out[i - 2])))
}

proof fn lemma_concat_kept(m: Seq<Seq<char>>)
    requires
        kept_tidy(m),
    ensures
        lacks(concat_nl(m), '\r'),
        newlines_follow_text(concat_nl(m)),
        concat_nl(m).len() > 0 ==> concat_nl(m).last() == '\n',
        m.len() > 0 && m.last().len() > 0 ==> concat_nl(m).len() >= 2 && !is_ws(
            concat_nl(m)[concat_nl(m).len() - 2],
        ),
        m.len() == 0 ==> concat_nl(m).len() == 0,
    decreases m.len(),
{
    if m.len() > 0 {
        let init = m.drop_last();
        assert forall|k: int| 0 < k < init.len() && (#[trigger] init[k]).len() == 0 implies init[k
            - 1].len() > 0 by {
            assert(init[k] == m[k] && init[k - 1] == m[k - 1]);
        }
        assert forall|k: int| 0 <= k < init.len() implies no_newline(#[trigger] init[k]) && lacks(
            init[k],
            '\r',
        ) && (init[k].len() == 0 || !is_ws(init[k].last())) by {
            assert(init[k] == m[k]);
        }
        lemma_concat_kept(init);
        let o = concat_nl(init);
        let x = m.last();
        assert(no_newline(m[m.len() - 1]) && lacks(m[m.len() - 1], '\r'));
        let out = concat_nl(m);
        assert(out =~= o + x + seq!['\n']);
        assert forall|k: int| 0 <= k < out.len() implies out[k] != '\r' by {
            if k < o.len() {
                assert(out[k] == o[k]);
            } else if k < o.len() + x.len() {
                assert(out[k] == x[k - o.len()]);
            }
        }
        assert forall|i: int| 0 <= i < out.len() && #[trigger] out[i] == '\n' implies i == 0
            || !is_ws(out[i - 1]) || (out[i - 1] == '\n' && (i == 1 || !is_ws(out[i - 2]))) by {
            if i < o.len() {
                assert(out[i] == o[i]);
                if i > 0 {
                    assert(out[i - 1] == o[i - 1]);
                }
                if i > 1 {
                    assert(out[i - 2] == o[i - 2]);
                }
            } else if i < o.len() + x.len() {
                assert(out[i] == x[i - o.len()]);
            } else if x.len() > 0 {
                assert(out[i - 1] == x.last());
            } else if o.len() > 0 {
                assert(m.len() >= 2);
                assert(m[m.len() - 2] == init.last());
                assert(out[i - 1] == o[o.len() - 1]);
                assert(out[i - 2] == o[o.len() - 2]);
            }
        }
        if x.len() > 0 {
            assert(out[out.len() - 2] == x.last());
        }
    }
}

/// Normalized Markdown is tidy: no carriage return, no whitespace at either end, and no line
/// that ends in whitespace.
proof fn lemma_normalized_markdown_tidy_markdown(input: Seq<char>)
    ensures
        tidy_markdown(normalize_markdown_spec(input)),
{
    let z = normalize_newlines(input);
    lemma_normalize_newlines_no_cr(input);
    let ls = lines(z);
    lemma_lines_no_newline(z);
    lemma_split_nl_lacks(z, '\r');
    lemma_split_nl_nonempty(z);
    assert forall|i: int| 0 <= i < ls.len() implies no_newline(#[trigger] ls[i]) && lacks(
        ls[i],
        '\r',
    ) by {
        let p = split_nl(z);
        assert(ls[i] == strip_cr(p[i]));
        assert(lacks(p[i], '\r'));
        assert forall|k: int| 0 <= k < ls[i].len() implies ls[i][k] != '\r' by {
            assert(ls[i][k] == p[i][k]);
        }
    }
    lemma_kept_lines(ls);
    let m = kept_lines(ls).0;
    lemma_concat_kept(m);
    let out = normalize_fold(ls).0;
    lemma_trim_stretch(out);
    let (a, b) = choose|a: int, b: int| 0 <= a <= b <= out.len() && trim(out) == out.subrange(a, b);
    let y = trim(out);
    assert forall|k: int| 0 <= k < y.len() implies y[k] != '\r' by {
        assert(y[k] == out[a + k]);
    }
    assert forall|i: int| 0 <= i < y.len() && #[trigger] y[i] == '\n' implies i > 0 && (!is_ws(
        y[i - 1],
    ) || (y[i - 1] == '\n' && i > 1 && !is_ws(y[i - 2]))) by {
        assert(y[i] == out[a + i]);
        assert(is_ws(y[i]));
        assert(i != 0);
        assert(y[i - 1] == out[a + i - 1]);
        if y[i - 1] == '\n' {
            assert(i - 1 != 0);
            assert(y[i - 2] == out[a + i - 2]);
        }
    }
}

fn trim_end_chars(s: &[char]) -> (out: Vec<char>)
    ensures
        out@ == trim_end(s@),
{
    let mut b: usize = s.len();
    assert(s@.subrange(0, s@.len() as int) =~= s@);
    while b > 0 && crate::text::is_whitespace(s[b - 1])
        invariant
            b <= s@.len(),
            trim_end(s@) == trim_end(s@.subrange(0, b as int)),
        decreases b,
    {
        assert(s@.subrange(0, b as int).drop_last() =~= s@.subrange(0, b - 1));
        b -= 1;
    }
    copy_range(s, 0, b)
}

/// Normalizes Markdown text.
pub fn normalize_markdown(input: &[char]) -> (out: Vec<char>)
    ensures
        out@ == normalize_markdown_spec(input@),
{
    let n = normalize_newlines_exec(input);
    let ls = lines_exec(n.as_slice());
    let ghost lv = lines(n@);
    let mut out: Vec<char> = Vec::new();
    let mut blanks: usize = 0;
    let mut i: usize = 0;
    while i < ls.len()
        invariant
            i <= ls@.len(),
            ls@.len() == lv.len(),
            forall|j: int| 0 <= j < ls@.len() ==> #[trigger] ls@[j]@ == lv[j],
            (out@, blanks as nat) == normalize_fold(lv.take(i as int)),
            blanks <= i,
        decreases ls@.len() - i,
    {
        assert(lv.take(i + 1).drop_last() =~= lv.take(i as int));
        assert(lv.take(i + 1).last() == ls@[i as int]@);
        let line = trim_end_chars(ls[i].as_slice());
        if all_whitespace(line.as_slice()) {
            blanks += 1;
            if blanks <= 1 {
                out.push('\n');
            }
        } else {
            blanks = 0;
            push_all(&mut out, line.as_slice());
            out.push('\n');
        }
        i += 1;
    }
    assert(lv.take(ls@.len() as int) =~= lv);
    trim_chars(out.as_slice())
}

pub open spec fn trim_start_char(s: Seq<char>, c: char) -> Seq<char>
    decreases s.len(),
{
    if s.len() > 0 && s[0] == c {
        trim_start_char(s.drop_first(), c)
    } else {
        s
    }
}

/// The body without its first line when that line is a heading whose text is the title.
pub open spec fn suppress_heading_spec(body: Seq<char>, title: Seq<char>) -> Seq<char> {
    let ls = lines(body);
    if ls.len() == 0 {
        seq![]
    } else {
        let first = ls[0];
        let heading_text = trim(trim_start_char(first, '#'));
        if starts_with(first, "#"@) && collapse_ws(heading_text) == collapse_ws(title) {
            join(ls.drop_first(), "\n"@)
        } else {
            body
        }
    }
}

fn trim_start_hashes(s: &[char]) -> (out: Vec<char>)
    ensures
        out@ == trim_start_char(s@, '#'),
{
    let mut a: usize = 0;
    assert(s@.skip(0) =~= s@);
    while a < s.len() && s[a] == '#'
        invariant
            a <= s@.len(),
            trim_start_char(s@, '#') == trim_start_char(s@.skip(a as int), '#'),
        decreases s@.len() - a,
    {
        assert(s@.skip(a as int).drop_first() =~= s@.skip(a + 1));
        a += 1;
    }
    assert(s@.skip(a as int) =~= s@.subrange(a as int, s@.len() as int));
    copy_range(s, a, s.len())
}

/// Drops a first line that repeats the title as a heading.
pub fn suppress_leading_duplicate_heading(body: &[char], title: &[char]) -> (out: Vec<char>)
    ensures
        out@ == suppress_heading_spec(body@, title@),
{
    let normalized_title = collapse_ws_chars(title);
    let ls = lines_exec(body);
    let ghost lv = lines(body@);
    if ls.len() == 0 {
        return Vec::new();
    }
    let first = &ls[0];
    let heading = trim_chars(trim_start_hashes(first.as_slice()).as_slice());
    let heading_clean = collapse_ws_chars(heading.as_slice());
    let starts = starts_with_exec(first.as_slice(), chars_of("#").as_slice());
    if starts && chars_eq(heading_clean.as_slice(), normalized_title.as_slice()) {
        let mut rest: Vec<Vec<char>> = Vec::new();
        let mut i: usize = 1;
        while i < ls.len()
            invariant
                1 <= i <= ls@.len(),
                ls@.len() == lv.len(),
                forall|j: int| 0 <= j < ls@.len() ==> #[trigger] ls@[j]@ == lv[j],
                rest@.map_values(|x: Vec<char>| x@) =~= lv.subrange(1, i as int),
            decreases ls@.len() - i,
        {
            let line = copy_range(ls[i].as_slice(), 0, ls[i].len());
            assert(ls@[i as int]@.subrange(0, ls@[i as int]@.len() as int) =~= ls@[i as int]@);
            let ghost before = rest@.map_values(|x: Vec<char>| x@);
            rest.push(line);
            assert(rest@.map_values(|x: Vec<char>| x@) =~= before.push(lv[i as int]));
            assert(lv.subrange(1, i + 1) =~= lv.subrange(1, i as int).push(lv[i as int]));
            i += 1;
        }
        assert(lv.subrange(1, lv.len() as int) =~= lv.drop_first());
        let nl = chars_of("\n");
        join_exec(&rest, nl.as_slice())
    } else {
        copy_range(body, 0, body.len())
    }
}

/// The lowercase words that mark navigation, chrome and advertising.
pub open spec fn noisy_word(w: Seq<char>) -> bool {
    ||| w == "nav"@
    ||| w == "navbar"@
    ||| w == "menu"@
    ||| w == "footer"@
    ||| w == "header"@
    ||| w == "cookie"@
    ||| w == "consent"@
    ||| w == "modal"@
    ||| w == "popup"@
    ||| w == "share"@
    ||| w == "social"@
    ||| w == "breadcrumb"@
    ||| w == "advert"@
    ||| w == "ads"@
    ||| w == "promo"@
    ||| w == "newsletter"@
    ||| w == "subscribe"@
    ||| w == "login"@
    ||| w == "signup"@
}

fn is_noisy_word(w: &[char]) -> (r: bool)
    ensures
        r == noisy_word(w@),
{
    eq_str(w, "nav") || eq_str(w, "navbar") || eq_str(w, "menu") || eq_str(w, "footer") || eq_str(
        w,
        "header",
    ) || eq_str(w, "cookie") || eq_str(w, "consent") || eq_str(w, "modal") || eq_str(w, "popup")
        || eq_str(w, "share") || eq_str(w, "social") || eq_str(w, "breadcrumb") || eq_str(
        w,
        "advert",
    ) || eq_str(w, "ads") || eq_str(w, "promo") || eq_str(w, "newsletter") || eq_str(
        w,
        "subscribe",
    ) || eq_str(w, "login") || eq_str(w, "signup")
}

pub open spec fn is_ascii_alnum(c: char) -> bool {
    ('0' <= c && c <= '9') || ('a' <= c && c <= 'z') || ('A' <= c && c <= 'Z')
}

/// The pieces of `s` between characters that are not ASCII letters or digits.
pub open spec fn alnum_pieces(s: Seq<char>) -> Seq<Seq<char>>
    decreases s.len(),
{
    if s.len() == 0 {
        seq![seq![]]
    } else {
        let p = alnum_pieces(s.drop_last());
        if !is_ascii_alnum(s.last()) {
            p.push(seq![])
        } else {
            p.update(p.len() - 1, p.last().push(s.last()))
        }
    }
}

proof fn lemma_alnum_pieces_nonempty(s: Seq<char>)
    ensures
        alnum_pieces(s).len() >= 1,
    decreases s.len(),
{
    if s.len() > 0 {
        lemma_alnum_pieces_nonempty(s.drop_last());
    }
}

/// Whether an attribute value has a word (a run of ASCII letters and digits) that, lowercased,
/// marks noise.
pub open spec fn has_noisy_token_spec(value: Seq<char>) -> bool {
    exists|i: int|
        0 <= i < alnum_pieces(value).len() && noisy_word(
            crate::text::ascii_lower(#[trigger] alnum_pieces(value)[i]),
        )
}

/// Whether an attribute value has a word that marks noise.
pub fn has_noisy_token(value: &[char]) -> (r: bool)
    ensures
        r == has_noisy_token_spec(value@),
{
    let mut cur: Vec<char> = Vec::new();
    let mut i: usize = 0;
    while i < value.len()
        invariant
            i <= value@.len(),
            cur@ == alnum_pieces(value@.take(i as int)).last(),
            forall|j: int|
                0 <= j < alnum_pieces(value@.take(i as int)).len() - 1 ==> !noisy_word(
                    crate::text::ascii_lower(#[trigger] alnum_pieces(value@.take(i as int))[j]),
                ),
        decreases value@.len() - i,
    {
        proof {
            lemma_alnum_pieces_nonempty(value@.take(i as int));
        }
        let ghost p = alnum_pieces(value@.take(i as int));
        assert(value@.take(i + 1).drop_last() =~= value@.take(i as int));
        let c = value[i];
        if !(('0' <= c && c <= '9') || ('a' <= c && c <= 'z') || ('A' <= c && c <= 'Z')) {
            let lower = crate::text::lower_chars(cur.as_slice());
            if is_noisy_word(lower.as_slice()) {
                proof {
                    let q = alnum_pieces(value@.take(i + 1));
                    assert(q[p.len() - 1] == p.last());
                    assert(value@.take(i + 1) =~= value@.take(i + 1));
                    lemma_noisy_prefix(value@, i + 1, p.len() - 1);
                }
                return true;
            }
            cur = Vec::new();
        } else {
            cur.push(c);
        }
        i += 1;
    }
    assert(value@.take(value@.len() as int) =~= value@);
    proof {
        lemma_alnum_pieces_nonempty(value@);
    }
    let lower = crate::text::lower_chars(cur.as_slice());
    is_noisy_word(lower.as_slice())
}

/// A noisy piece of a prefix's pieces (other than its last) stays a piece of the whole value.
proof fn lemma_noisy_prefix(value: Seq<char>, n: int, k: int)
    requires
        0 <= n <= value.len(),
        0 <= k < alnum_pieces(value.take(n)).len() - 1,
        noisy_word(crate::text::ascii_lower(alnum_pieces(value.take(n))[k])),
    ensures
        has_noisy_token_spec(value),
    decreases value.len() - n,
{
    lemma_alnum_pieces_nonempty(value.take(n));
    if n == value.len() {
        assert(value.take(n) =~= value);
    } else {
        let p = alnum_pieces(value.take(n));
        let q = alnum_pieces(value.take(n + 1));
        assert(value.take(n + 1).drop_last() =~= value.take(n));
        assert(q[k] == p[k]);
        lemma_noisy_prefix(value, n + 1, k);
    }
}

// ---------------------------------------------------------------- links

/// Where a link points, made absolute against the page's URL (or parsed on its own where the
/// page has none); fragment-only, `javascript:` and `mailto:` links point nowhere.
pub open spec fn absolutize_spec(href: Seq<char>, base: Option<Seq<char>>) -> Option<Seq<char>> {
    if starts_with(href, "#"@) || starts_with(href, "javascript:"@) || starts_with(
        href,
        "mailto:"@,
    ) {
        None
    } else {
        match base {
            Some(b) => url_join(b, href),
            None => match url_parse(href) {
                Some(u) => Some(u.serialized),
                None => None,
            },
        }
    }
}

pub open spec fn base_view(base: Option<&ParsedUrl>) -> Option<Seq<char>> {
    match base {
        Some(u) => Some(u@.serialized),
        None => None,
    }
}

/// Where a link points, made absolute.
pub fn absolutize(href: &[char], base: Option<&ParsedUrl>) -> (r: Option<Vec<char>>)
    ensures
        r matches Some(v) ==> absolutize_spec(href@, base_view(base)) == Some(v@),
        r is None ==> absolutize_spec(href@, base_view(base)) is None,
{
    if starts_with_exec(href, chars_of("#").as_slice()) || starts_with_exec(
        href,
        chars_of("javascript:").as_slice(),
    ) || starts_with_exec(href, chars_of("mailto:").as_slice()) {
        return None;
    }
    let h = string_from(href);
    match base {
        Some(b) => match join_url(b, h.as_str()) {
            Some(s) => Some(chars_of(s.as_str())),
            None => None,
        },
        None => match parse_url(h.as_str()) {
            Some(u) => Some(chars_of(u.serialized().as_str())),
            None => None,
        },
    }
}

// ---------------------------------------------------------------- noise

pub open spec fn noisy_tag(n: Seq<char>) -> bool {
    ||| n == "script"@
    ||| n == "style"@
    ||| n == "header"@
    ||| n == "nav"@
    ||| n == "footer"@
    ||| n == "form"@
    ||| n == "button"@
    ||| n == "iframe"@
    ||| n == "svg"@
    ||| n == "canvas"@
}

pub open spec fn noisy_attr(attrs: Seq<AttrView>, name: Seq<char>) -> bool {
    attr_spec(attrs, name) matches Some(v) && has_noisy_token_spec(v)
}

/// An element that is page chrome rather than content: by its tag, or by a noisy word in its
/// `class`, `id`, `role` or `aria-label`.
pub open spec fn is_noisy(t: Tree) -> bool {
    match t {
        Tree::Element(n, a, _) => noisy_tag(n) || noisy_attr(a, "class"@) || noisy_attr(a, "id"@)
            || noisy_attr(a, "role"@) || noisy_attr(a, "aria-label"@),
        _ => false,
    }
}

fn noisy_attr_exec(attrs: &Vec<DomAttr>, name: &str) -> (r: bool)
    ensures
        r == noisy_attr(crate::dom::attrs_view(attrs@), name@),
{
    match attr(attrs, name) {
        Some(v) => has_noisy_token(v.as_slice()),
        None => false,
    }
}

fn is_noisy_element(e: &DomElement) -> (r: bool)
    ensures
        r == is_noisy(Tree::Element(e.name@, crate::dom::attrs_view(e.attrs@), crate::dom::trees_of(e.children@))),
{
    let n = e.name.as_slice();
    eq_str(n, "script") || eq_str(n, "style") || eq_str(n, "header") || eq_str(n, "nav") || eq_str(
        n,
        "footer",
    ) || eq_str(n, "form") || eq_str(n, "button") || eq_str(n, "iframe") || eq_str(n, "svg")
        || eq_str(n, "canvas") || noisy_attr_exec(&e.attrs, "class") || noisy_attr_exec(&e.attrs, "id")
        || noisy_attr_exec(&e.attrs, "role") || noisy_attr_exec(&e.attrs, "aria-label")
}

// ---------------------------------------------------------------- inline rendering

/// Markdown for the inline content of a forest, before whitespace is collapsed.
pub open spec fn inline_forest(ts: Seq<Tree>, base: Option<Seq<char>>) -> Seq<char>
    decreases ts,
{
    if ts.len() == 0 {
        seq![]
    } else {
        let c = ts.last();
        let piece = match c {
            Tree::Text(x) => x,
            Tree::Other(_) => seq![],
            Tree::Element(name, attrs, k) => if is_noisy(c) {
                seq![]
            } else if name == "br"@ {
                seq!['\n']
            } else if name == "code"@ {
                let code = collapse_ws(text_of(c));
                if code.len() > 0 {
                    inline_code_spec(code)
                } else {
                    seq![]
                }
            } else {
                let text = collapse_ws(collapse_ws(inline_forest(k, base)));
                if name == "a"@ {
                    if text.len() == 0 {
                        seq![]
                    } else {
                        match (match attr_spec(attrs, "href"@) {
                            Some(h) => absolutize_spec(h, base),
                            None => None,
                        }) {
                            Some(h) => "["@ + escape_link_spec(text) + "](<"@ + h + ">)"@,
                            None => text,
                        }
                    }
                } else if name == "strong"@ || name == "b"@ {
                    if text.len() > 0 {
                        "**"@ + text + "**"@
                    } else {
                        seq![]
                    }
                } else if name == "em"@ || name == "i"@ {
                    if text.len() > 0 {
                        "*"@ + text + "*"@
                    } else {
                        seq![]
                    }
                } else {
                    collapse_ws(inline_forest(k, base))
                }
            },
        };
        inline_forest(ts.drop_last(), base) + piece
    }
}

/// Markdown for an element's inline content, whitespace collapsed.
pub open spec fn render_inline_spec(t: Tree, base: Option<Seq<char>>) -> Seq<char> {
    collapse_ws(inline_forest(kids(t), base))
}

fn wrap_text(out: &mut Vec<char>, open: &str, text: &[char], close: &str)
    ensures
        final(out)@ == old(out)@ + open@ + text@ + close@,
{
    push_str(out, open);
    push_all(out, text);
    push_str(out, close);
}

/// Markdown for the inline content of a forest, before whitespace is collapsed.
fn inline_children(forest: &Vec<DomNode>, base: Option<&ParsedUrl>) -> (out: Vec<char>)
    ensures
        out@ == inline_forest(crate::dom::trees_of(forest@), base_view(base)),
    decreases forest@,
{
    proof {
        crate::dom::lemma_trees_of(forest@);
    }
    let ghost ts = crate::dom::trees_of(forest@);
    let ghost bv = base_view(base);
    let mut out: Vec<char> = Vec::new();
    let mut i: usize = 0;
    while i < forest.len()
        invariant
            i <= forest@.len(),
            ts == crate::dom::trees_of(forest@),
            ts.len() == forest@.len(),
            bv == base_view(base),
            forall|j: int| 0 <= j < forest@.len() ==> #[trigger] ts[j] == forest@[j].tree(),
            out@ == inline_forest(ts.take(i as int), bv),
        decreases forest@.len() - i,
    {
        let ghost t = ts.take(i + 1);
        assert(t.drop_last() =~= ts.take(i as int));
        assert(t.last() == forest@[i as int].tree());
        let ghost before = out@;
        match &forest[i] {
            DomNode::Text(x) => {
                push_all(&mut out, x.as_slice());
            },
            DomNode::Other(_) => {
                assert(out@ =~= before + Seq::<char>::empty());
            },
            DomNode::Element(e) => {
                let name = e.name.as_slice();
                if is_noisy_element(e) {
                    assert(out@ =~= before + Seq::<char>::empty());
                } else if eq_str(name, "br") {
                    out.push('\n');
                    assert(out@ =~= before + seq!['\n']);
                } else if eq_str(name, "code") {
                    let code = collapse_ws_chars(crate::dom::text_of_exec(&forest[i]).as_slice());
                    if code.len() > 0 {
                        push_all(&mut out, inline_code(code.as_slice()).as_slice());
                    } else {
                        assert(out@ =~= before + Seq::<char>::empty());
                    }
                } else {
                    assert(decreases_to!(forest@ => e.children@));
                    let inner = inline_children(&e.children, base);
                    let once = collapse_ws_chars(inner.as_slice());
                    let text = collapse_ws_chars(once.as_slice());
                    if eq_str(name, "a") {
                        if text.len() == 0 {
                            assert(out@ =~= before + Seq::<char>::empty());
                        } else {
                            let target = match attr(&e.attrs, "href") {
                                Some(h) => absolutize(h.as_slice(), base),
                                None => None,
                            };
                            match target {
                                Some(h) => {
                                    push_str(&mut out, "[");
                                    push_all(&mut out, escape_link_text(text.as_slice()).as_slice());
                                    wrap_text(&mut out, "](<", h.as_slice(), ">)");
                                    assert(out@ =~= before + ("["@ + escape_link_spec(text@)
                                        + "](<"@ + h@ + ">)"@));
                                },
                                None => {
                                    push_all(&mut out, text.as_slice());
                                },
                            }
                        }
                    } else if eq_str(name, "strong") || eq_str(name, "b") {
                        if text.len() > 0 {
                            wrap_text(&mut out, "**", text.as_slice(), "**");
                            assert(out@ =~= before + ("**"@ + text@ + "**"@));
                        } else {
                            assert(out@ =~= before + Seq::<char>::empty());
                        }
                    } else if eq_str(name, "em") || eq_str(name, "i") {
                        if text.len() > 0 {
                            wrap_text(&mut out, "*", text.as_slice(), "*");
                            assert(out@ =~= before + ("*"@ + text@ + "*"@));
                        } else {
                            assert(out@ =~= before + Seq::<char>::empty());
                        }
                    } else {
                        push_all(&mut out, once.as_slice());
                    }
                }
            },
        }
        i += 1;
    }
    assert(ts.take(forest@.len() as int) =~= ts);
    out
}

/// Markdown for a node's inline content, whitespace collapsed.
pub fn render_inline(n: &DomNode, base: Option<&ParsedUrl>) -> (out: Vec<char>)
    ensures
        out@ == render_inline_spec(n.tree(), base_view(base)),
{
    match n {
        DomNode::Element(e) => collapse_ws_chars(inline_children(&e.children, base).as_slice()),
        DomNode::Other(k) => collapse_ws_chars(inline_children(k, base).as_slice()),
        DomNode::Text(_) => {
            assert(crate::text::collapse_ws(Seq::<char>::empty()) =~= Seq::<char>::empty());
            Vec::new()
        },
    }
}

// ---------------------------------------------------------------- block rendering

pub open spec fn vv(v: Seq<Vec<char>>) -> Seq<Seq<char>> {
    v.map_values(|x: Vec<char>| x@)
}

/// `replace("\r\n", "\n")`.
pub open spec fn crlf_to_lf(s: Seq<char>) -> Seq<char>
    decreases s.len(),
{
    if s.len() == 0 {
        seq![]
    } else if s[0] == '\r' && s.len() > 1 && s[1] == '\n' {
        crlf_to_lf(s.drop_first())
    } else {
        seq![s[0]] + crlf_to_lf(s.drop_first())
    }
}

fn crlf_to_lf_exec(s: &[char]) -> (out: Vec<char>)
    ensures
        out@ == crlf_to_lf(s@),
{
    let mut out: Vec<char> = Vec::new();
    let mut i: usize = 0;
    assert(s@.skip(0) =~= s@);
    while i < s.len()
        invariant
            i <= s@.len(),
            out@ + crlf_to_lf(s@.skip(i as int)) == crlf_to_lf(s@),
        decreases s@.len() - i,
    {
        let ghost rest = s@.skip(i as int);
        let ghost before = out@;
        assert(rest.drop_first() =~= s@.skip(i + 1));
        if s[i] == '\r' && i + 1 < s.len() && s[i + 1] == '\n' {
            assert(rest[1] == s@[i + 1]);
        } else {
            out.push(s[i]);
            assert(before + (seq![s@[i as int]] + crlf_to_lf(rest.drop_first())) =~= out@
                + crlf_to_lf(s@.skip(i + 1)));
        }
        i += 1;
    }
    assert(s@.skip(s@.len() as int) =~= Seq::<char>::empty());
    assert(out@ + Seq::<char>::empty() =~= out@);
    out
}

/// The code of a `pre` element: its text with CRLF made LF and surrounding newlines removed.
pub open spec fn pre_code(t: Tree) -> Seq<char> {
    trim_start_char(crate::fetch::trim_end_char(crlf_to_lf(text_of(t)), '\n'), '\n')
}

/// A fenced code block for a `pre` element, or nothing when it holds no code.
pub open spec fn render_pre_spec(t: Tree) -> Seq<char> {
    let code = pre_code(t);
    if code.len() == 0 {
        seq![]
    } else {
        let fence = code_fence_spec(code);
        fence + seq!['\n'] + code + seq!['\n'] + fence + "\n\n"@
    }
}

fn render_pre(n: &DomNode) -> (out: Vec<char>)
    ensures
        out@ == render_pre_spec(n.tree()),
{
    let text = crate::dom::text_of_exec(n);
    let lf = crlf_to_lf_exec(text.as_slice());
    let mut end: usize = lf.len();
    assert(lf@.subrange(0, lf@.len() as int) =~= lf@);
    while end > 0 && lf[end - 1] == '\n'
        invariant
            end <= lf@.len(),
            crate::fetch::trim_end_char(lf@, '\n') == crate::fetch::trim_end_char(
                lf@.subrange(0, end as int),
                '\n',
            ),
        decreases end,
    {
        assert(lf@.subrange(0, end as int).drop_last() =~= lf@.subrange(0, end - 1));
        end -= 1;
    }
    let mut start: usize = 0;
    let ghost mid = lf@.subrange(0, end as int);
    assert(mid.skip(0) =~= mid);
    while start < end && lf[start] == '\n'
        invariant
            start <= end <= lf@.len(),
            mid == lf@.subrange(0, end as int),
            trim_start_char(mid, '\n') == trim_start_char(mid.skip(start as int), '\n'),
        decreases end - start,
    {
        assert(mid.skip(start as int).drop_first() =~= mid.skip(start + 1));
        start += 1;
    }
    assert(mid.skip(start as int) =~= lf@.subrange(start as int, end as int));
    let code = copy_range(lf.as_slice(), start, end);
    if code.len() == 0 {
        return Vec::new();
    }
    let fence = code_fence_for(code.as_slice());
    let mut out: Vec<char> = Vec::new();
    push_all(&mut out, fence.as_slice());
    out.push('\n');
    push_all(&mut out, code.as_slice());
    out.push('\n');
    push_all(&mut out, fence.as_slice());
    push_str(&mut out, "\n\n");
    out
}

pub open spec fn is_heading(n: Seq<char>) -> bool {
    n.len() == 2 && n[0] == 'h' && '1' <= n[1] && n[1] <= '6'
}

pub open spec fn heading_level(n: Seq<char>) -> nat {
    ((n[1] as u32) - ('0' as u32)) as nat
}

pub open spec fn is_cell_name(n: Seq<char>) -> bool {
    n == "th"@ || n == "td"@
}

/// The non-empty rendered cells (`th` and `td`, in tree order) of a forest.
pub open spec fn cells_forest(ts: Seq<Tree>, base: Option<Seq<char>>) -> Seq<Seq<char>>
    decreases ts,
{
    if ts.len() == 0 {
        seq![]
    } else {
        let c = ts.last();
        let below = match c {
            Tree::Element(_, _, k) => cells_forest(k, base),
            Tree::Other(k) => cells_forest(k, base),
            Tree::Text(_) => seq![],
        };
        let own = match c {
            Tree::Element(n, _, _) => if is_cell_name(n) && render_inline_spec(c, base).len() > 0 {
                seq![render_inline_spec(c, base)]
            } else {
                seq![]
            },
            _ => seq![],
        };
        cells_forest(ts.drop_last(), base) + own + below
    }
}

/// The table rows (`tr`, in tree order) of a forest that have a non-empty cell, as their cells.
pub open spec fn rows_forest(ts: Seq<Tree>, base: Option<Seq<char>>) -> Seq<Seq<Seq<char>>>
    decreases ts,
{
    if ts.len() == 0 {
        seq![]
    } else {
        let c = ts.last();
        let below = match c {
            Tree::Element(_, _, k) => rows_forest(k, base),
            Tree::Other(k) => rows_forest(k, base),
            Tree::Text(_) => seq![],
        };
        let own = match c {
            Tree::Element(n, _, k) => if n == "tr"@ && cells_forest(k, base).len() > 0 {
                seq![cells_forest(k, base)]
            } else {
                seq![]
            },
            _ => seq![],
        };
        rows_forest(ts.drop_last(), base) + own + below
    }
}

pub open spec fn max_width(rows: Seq<Seq<Seq<char>>>) -> nat
    decreases rows.len(),
{
    if rows.len() == 0 {
        0
    } else {
        let m = max_width(rows.drop_last());
        if rows.last().len() > m {
            rows.last().len()
        } else {
            m
        }
    }
}

pub open spec fn repeat_seq(s: Seq<char>, n: nat) -> Seq<char>
    decreases n,
{
    if n == 0 {
        seq![]
    } else {
        repeat_seq(s, (n - 1) as nat) + s
    }
}

/// The cells of a row, each as ` cell |` with `|` escaped.
pub open spec fn cells_line(cells: Seq<Seq<char>>) -> Seq<char>
    decreases cells.len(),
{
    if cells.len() == 0 {
        seq![]
    } else {
        cells_line(cells.drop_last()) + seq![' '] + escape_pipes(cells.last()) + " |"@
    }
}

/// One table row, padded with empty cells to the table's width.
pub open spec fn row_line(row: Seq<Seq<char>>, width: nat) -> Seq<char> {
    seq!['|'] + cells_line(row) + repeat_seq("  |"@, (width - row.len()) as nat) + seq!['\n']
}

pub open spec fn rows_lines(rows: Seq<Seq<Seq<char>>>, width: nat) -> Seq<char>
    decreases rows.len(),
{
    if rows.len() == 0 {
        seq![]
    } else {
        rows_lines(rows.drop_last(), width) + row_line(rows.last(), width)
    }
}

/// A Markdown table for a `table` element: its first row as the header, then a separator, then
/// the other rows, all padded to the widest row; nothing when no row has a non-empty cell.
pub open spec fn render_table_spec(t: Tree, base: Option<Seq<char>>) -> Seq<char> {
    let rows = rows_forest(kids(t), base);
    if rows.len() == 0 {
        seq![]
    } else {
        let w = max_width(rows);
        row_line(rows[0], w) + seq!['|'] + repeat_seq(" --- |"@, w) + seq!['\n'] + rows_lines(
            rows.drop_first(),
            w,
        ) + seq!['\n']
    }
}

/// A blockquote line: `>` for a blank line, else `> ` and the line.
pub open spec fn quote_line(l: Seq<char>) -> Seq<char> {
    if all_ws(l) {
        seq!['>']
    } else {
        "> "@ + l
    }
}

pub open spec fn quote_lines(ls: Seq<Seq<char>>) -> Seq<Seq<char>> {
    ls.map_values(|l: Seq<char>| quote_line(l))
}

/// The lines of a list item under its marker: the first after the marker, blank ones empty,
/// the others indented by two spaces.
pub open spec fn item_lines(ls: Seq<Seq<char>>, marker: Seq<char>) -> Seq<char>
    decreases ls.len(),
{
    if ls.len() == 0 {
        seq![]
    } else {
        let l = ls.last();
        let line = if ls.len() == 1 {
            marker + seq![' '] + l + seq!['\n']
        } else if all_ws(l) {
            seq!['\n']
        } else {
            "  "@ + l + seq!['\n']
        };
        item_lines(ls.drop_last(), marker) + line
    }
}

/// Markdown for the blocks of a forest: text (whitespace collapsed) as paragraphs, elements
/// rendered, other nodes dropped.
pub open spec fn block_forest(ts: Seq<Tree>, base: Option<Seq<char>>) -> Seq<char>
    decreases ts, 0nat,
{
    if ts.len() == 0 {
        seq![]
    } else {
        let c = ts.last();
        let piece = match c {
            Tree::Text(x) => if collapse_ws(x).len() > 0 {
                collapse_ws(x) + "\n\n"@
            } else {
                seq![]
            },
            Tree::Element(_, _, _) => render_element_spec(c, base),
            Tree::Other(_) => seq![],
        };
        block_forest(ts.drop_last(), base) + piece
    }
}

/// Markdown for the children of a node.
pub open spec fn render_children_spec(t: Tree, base: Option<Seq<char>>) -> Seq<char>
    decreases t, 1nat,
{
    match t {
        Tree::Element(_, _, k) => block_forest(k, base),
        Tree::Other(k) => block_forest(k, base),
        Tree::Text(_) => seq![],
    }
}

/// A blockquote: its normalized content with each line quoted.
pub open spec fn render_blockquote_spec(t: Tree, base: Option<Seq<char>>) -> Seq<char>
    decreases t, 2nat,
{
    let body = normalize_markdown_spec(render_children_spec(t, base));
    if body.len() == 0 {
        seq![]
    } else {
        join(quote_lines(lines(body)), seq!['\n']) + "\n\n"@
    }
}

/// A list's items so far and the next number, over the children of a list element.
pub open spec fn list_fold(ts: Seq<Tree>, base: Option<Seq<char>>, ordered: bool) -> (
    Seq<char>,
    nat,
)
    decreases ts, 0nat,
{
    if ts.len() == 0 {
        (seq![], 1)
    } else {
        let (out, index) = list_fold(ts.drop_last(), base, ordered);
        let c = ts.last();
        match c {
            Tree::Element(n, _, _) => if n == "li"@ {
                let item = normalize_markdown_spec(render_children_spec(c, base));
                if item.len() == 0 {
                    (out, index)
                } else {
                    let marker = if ordered {
                        decimal(index) + seq!['.']
                    } else {
                        seq!['-']
                    };
                    (out + item_lines(lines(item), marker), if ordered {
                        index + 1
                    } else {
                        index
                    })
                }
            } else {
                (out, index)
            },
            _ => (out, index),
        }
    }
}

/// A list: each non-empty `li` child under a marker (`-`, or `1.`, `2.`, ... when ordered).
pub open spec fn render_list_spec(t: Tree, base: Option<Seq<char>>, ordered: bool) -> Seq<char>
    decreases t, 2nat,
{
    match t {
        Tree::Element(_, _, k) => {
            let out = list_fold(k, base, ordered).0;
            if out.len() > 0 {
                out + seq!['\n']
            } else {
                out
            }
        },
        _ => seq![],
    }
}

/// Markdown for an element.
pub open spec fn render_element_spec(t: Tree, base: Option<Seq<char>>) -> Seq<char>
    decreases t, 3nat,
{
    match t {
        Tree::Element(name, _, _) => if is_noisy(t) {
            seq![]
        } else if is_heading(name) {
            let text = render_inline_spec(t, base);
            if text.len() == 0 {
                seq![]
            } else {
                Seq::new(heading_level(name), |i: int| '#') + seq![' '] + text + "\n\n"@
            }
        } else if name == "p"@ || name == "figcaption"@ {
            let text = render_inline_spec(t, base);
            if text.len() == 0 {
                seq![]
            } else {
                text + "\n\n"@
            }
        } else if name == "br"@ {
            seq!['\n']
        } else if name == "pre"@ {
            render_pre_spec(t)
        } else if name == "blockquote"@ {
            render_blockquote_spec(t, base)
        } else if name == "ul"@ {
            render_list_spec(t, base, false)
        } else if name == "ol"@ {
            render_list_spec(t, base, true)
        } else if name == "table"@ {
            render_table_spec(t, base)
        } else if name == "hr"@ {
            "---\n\n"@
        } else if name == "script"@ || name == "style"@ || name == "svg"@ || name == "canvas"@
            || name == "iframe"@ || name == "noscript"@ {
            seq![]
        } else {
            render_children_spec(t, base)
        },
        _ => seq![],
    }
}

// ---------------------------------------------------------------- tables

fn collect_cells(forest: &Vec<DomNode>, base: Option<&ParsedUrl>, cells: &mut Vec<Vec<char>>)
    ensures
        vv(final(cells)@) == vv(old(cells)@) + cells_forest(crate::dom::trees_of(forest@), base_view(base)),
    decreases forest@,
{
    proof {
        crate::dom::lemma_trees_of(forest@);
    }
    let ghost ts = crate::dom::trees_of(forest@);
    let ghost bv = base_view(base);
    let ghost start = vv(cells@);
    let mut i: usize = 0;
    while i < forest.len()
        invariant
            i <= forest@.len(),
            ts == crate::dom::trees_of(forest@),
            ts.len() == forest@.len(),
            bv == base_view(base),
            forall|j: int| 0 <= j < forest@.len() ==> #[trigger] ts[j] == forest@[j].tree(),
            vv(cells@) == start + cells_forest(ts.take(i as int), bv),
        decreases forest@.len() - i,
    {
        let ghost t = ts.take(i + 1);
        assert(t.drop_last() =~= ts.take(i as int));
        assert(t.last() == forest@[i as int].tree());
        let ghost before = vv(cells@);
        match &forest[i] {
            DomNode::Element(e) => {
                if eq_str(e.name.as_slice(), "th") || eq_str(e.name.as_slice(), "td") {
                    let r = render_inline(&forest[i], base);
                    if r.len() > 0 {
                        cells.push(r);
                        assert(vv(cells@) =~= before + seq![r@]);
                    } else {
                        assert(vv(cells@) =~= before + Seq::<Seq<char>>::empty());
                    }
                } else {
                    assert(vv(cells@) =~= before + Seq::<Seq<char>>::empty());
                }
                let ghost mid = vv(cells@);
                assert(decreases_to!(forest@ => e.children@));
                collect_cells(&e.children, base, cells);
            },
            DomNode::Other(k) => {
                assert(vv(cells@) =~= before + Seq::<Seq<char>>::empty());
                assert(decreases_to!(forest@ => k@));
                collect_cells(k, base, cells);
            },
            DomNode::Text(_) => {
                assert(vv(cells@) =~= before + Seq::<Seq<char>>::empty()
                    + Seq::<Seq<char>>::empty());
            },
        }
        assert(vv(cells@) =~= start + cells_forest(t, bv));
        i += 1;
    }
    assert(ts.take(forest@.len() as int) =~= ts);
}

pub open spec fn vvv(v: Seq<Vec<Vec<char>>>) -> Seq<Seq<Seq<char>>> {
    v.map_values(|r: Vec<Vec<char>>| vv(r@))
}

#[verifier::rlimit(40)]
fn collect_rows(forest: &Vec<DomNode>, base: Option<&ParsedUrl>, rows: &mut Vec<Vec<Vec<char>>>)
    ensures
        vvv(final(rows)@) == vvv(old(rows)@) + rows_forest(crate::dom::trees_of(forest@), base_view(base)),
    decreases forest@,
{
    proof {
        crate::dom::lemma_trees_of(forest@);
    }
    let ghost ts = crate::dom::trees_of(forest@);
    let ghost bv = base_view(base);
    let ghost start = vvv(rows@);
    let mut i: usize = 0;
    while i < forest.len()
        invariant
            i <= forest@.len(),
            ts == crate::dom::trees_of(forest@),
            ts.len() == forest@.len(),
            bv == base_view(base),
            forall|j: int| 0 <= j < forest@.len() ==> #[trigger] ts[j] == forest@[j].tree(),
            vvv(rows@) == start + rows_forest(ts.take(i as int), bv),
        decreases forest@.len() - i,
    {
        let ghost t = ts.take(i + 1);
        assert(t.drop_last() =~= ts.take(i as int));
        assert(t.last() == forest@[i as int].tree());
        let ghost before = vvv(rows@);
        match &forest[i] {
            DomNode::Element(e) => {
                if eq_str(e.name.as_slice(), "tr") {
                    let mut cells: Vec<Vec<char>> = Vec::new();
                    collect_cells(&e.children, base, &mut cells);
                    assert(vv(Seq::<Vec<char>>::empty()) =~= Seq::<Seq<char>>::empty());
                    assert(vv(cells@) =~= cells_forest(crate::dom::trees_of(e.children@), bv));
                    if cells.len() > 0 {
                        rows.push(cells);
                        assert(vvv(rows@) =~= before + seq![vv(cells@)]);
                    } else {
                        assert(vvv(rows@) =~= before + Seq::<Seq<Seq<char>>>::empty());
                    }
                } else {
                    assert(vvv(rows@) =~= before + Seq::<Seq<Seq<char>>>::empty());
                }
                assert(decreases_to!(forest@ => e.children@));
                collect_rows(&e.children, base, rows);
            },
            DomNode::Other(k) => {
                assert(vvv(rows@) =~= before + Seq::<Seq<Seq<char>>>::empty());
                assert(decreases_to!(forest@ => k@));
                collect_rows(k, base, rows);
            },
            DomNode::Text(_) => {
                assert(vvv(rows@) =~= before + Seq::<Seq<Seq<char>>>::empty()
                    + Seq::<Seq<Seq<char>>>::empty());
            },
        }
        assert(vvv(rows@) =~= start + rows_forest(t, bv));
        i += 1;
    }
    assert(ts.take(forest@.len() as int) =~= ts);
}

fn push_row_line(out: &mut Vec<char>, row: &Vec<Vec<char>>, width: usize)
    requires
        row@.len() <= width,
    ensures
        final(out)@ == old(out)@ + row_line(vv(row@), width as nat),
{
    let ghost start = out@;
    out.push('|');
    let mut i: usize = 0;
    while i < row.len()
        invariant
            i <= row@.len(),
            out@ == start + seq!['|'] + cells_line(vv(row@).take(i as int)),
        decreases row@.len() - i,
    {
        assert(vv(row@).take(i + 1).drop_last() =~= vv(row@).take(i as int));
        let ghost before = out@;
        out.push(' ');
        push_escaped_pipes(out, row[i].as_slice());
        push_str(out, " |");
        assert(out@ =~= before + seq![' '] + escape_pipes(row@[i as int]@) + " |"@);
        i += 1;
    }
    assert(vv(row@).take(row@.len() as int) =~= vv(row@));
    let ghost mid = out@;
    let pad = width - row.len();
    let mut k: usize = 0;
    while k < pad
        invariant
            k <= pad,
            out@ == mid + repeat_seq("  |"@, k as nat),
        decreases pad - k,
    {
        push_str(out, "  |");
        k += 1;
    }
    out.push('\n');
    assert(out@ =~= start + row_line(vv(row@), width as nat));
}

/// A Markdown table for a `table` element.
fn render_table(n: &DomNode, base: Option<&ParsedUrl>) -> (out: Vec<char>)
    ensures
        out@ == render_table_spec(n.tree(), base_view(base)),
{
    let ghost bv = base_view(base);
    let mut rows: Vec<Vec<Vec<char>>> = Vec::new();
    assert(vvv(Seq::<Vec<Vec<char>>>::empty()) =~= Seq::<Seq<Seq<char>>>::empty());
    match n {
        DomNode::Element(e) => collect_rows(&e.children, base, &mut rows),
        DomNode::Other(k) => collect_rows(k, base, &mut rows),
        DomNode::Text(_) => {},
    }
    let ghost rv = vvv(rows@);
    assert(rv == rows_forest(kids(n.tree()), bv));
    if rows.len() == 0 {
        return Vec::new();
    }
    let mut width: usize = 0;
    let mut i: usize = 0;
    while i < rows.len()
        invariant
            i <= rows@.len(),
            rv == vvv(rows@),
            width as nat == max_width(rv.take(i as int)),
            forall|j: int| 0 <= j < i ==> (#[trigger] rows@[j])@.len() <= width,
        decreases rows@.len() - i,
    {
        assert(rv.take(i + 1).drop_last() =~= rv.take(i as int));
        assert(rv[i as int].len() == rows@[i as int]@.len());
        if rows[i].len() > width {
            width = rows[i].len();
        }
        i += 1;
    }
    assert(rv.take(rows@.len() as int) =~= rv);
    let mut out: Vec<char> = Vec::new();
    push_row_line(&mut out, &rows[0], width);
    out.push('|');
    let ghost mid = out@;
    let mut k: usize = 0;
    while k < width
        invariant
            k <= width,
            out@ == mid + repeat_seq(" --- |"@, k as nat),
        decreases width - k,
    {
        push_str(&mut out, " --- |");
        k += 1;
    }
    out.push('\n');
    let ghost head = out@;
    let mut r: usize = 1;
    while r < rows.len()
        invariant
            1 <= r <= rows@.len(),
            rv == vvv(rows@),
            forall|j: int| 0 <= j < rows@.len() ==> (#[trigger] rows@[j])@.len() <= width,
            out@ == head + rows_lines(rv.subrange(1, r as int), width as nat),
        decreases rows@.len() - r,
    {
        assert(rv.subrange(1, r + 1).drop_last() =~= rv.subrange(1, r as int));
        push_row_line(&mut out, &rows[r], width);
        r += 1;
    }
    assert(rv.subrange(1, rows@.len() as int) =~= rv.drop_first());
    out.push('\n');
    out
}

// ---------------------------------------------------------------- blocks

fn block_children(forest: &Vec<DomNode>, base: Option<&ParsedUrl>) -> (out: Vec<char>)
    ensures
        out@ == block_forest(crate::dom::trees_of(forest@), base_view(base)),
    decreases forest@, 0nat,
{
    proof {
        crate::dom::lemma_trees_of(forest@);
    }
    let ghost ts = crate::dom::trees_of(forest@);
    let ghost bv = base_view(base);
    let mut out: Vec<char> = Vec::new();
    let mut i: usize = 0;
    while i < forest.len()
        invariant
            i <= forest@.len(),
            ts == crate::dom::trees_of(forest@),
            ts.len() == forest@.len(),
            bv == base_view(base),
            forall|j: int| 0 <= j < forest@.len() ==> #[trigger] ts[j] == forest@[j].tree(),
            out@ == block_forest(ts.take(i as int), bv),
        decreases forest@.len() - i,
    {
        let ghost t = ts.take(i + 1);
        assert(t.drop_last() =~= ts.take(i as int));
        assert(t.last() == forest@[i as int].tree());
        let ghost before = out@;
        match &forest[i] {
            DomNode::Text(x) => {
                let y = collapse_ws_chars(x.as_slice());
                if y.len() > 0 {
                    push_all(&mut out, y.as_slice());
                    push_str(&mut out, "\n\n");
                    assert(out@ =~= before + (y@ + "\n\n"@));
                } else {
                    assert(out@ =~= before + Seq::<char>::empty());
                }
            },
            DomNode::Element(_) => {
                assert(decreases_to!(forest@ => forest@[i as int]));
                let piece = render_element(&forest[i], base);
                push_all(&mut out, piece.as_slice());
            },
            DomNode::Other(_) => {
                assert(out@ =~= before + Seq::<char>::empty());
            },
        }
        i += 1;
    }
    assert(ts.take(forest@.len() as int) =~= ts);
    out
}

/// Markdown for the children of a node.
fn render_children(n: &DomNode, base: Option<&ParsedUrl>) -> (out: Vec<char>)
    ensures
        out@ == render_children_spec(n.tree(), base_view(base)),
    decreases n, 1nat,
{
    match n {
        DomNode::Element(e) => {
            assert(decreases_to!(n => e.children@));
            block_children(&e.children, base)
        },
        DomNode::Other(k) => {
            assert(decreases_to!(n => k@));
            block_children(k, base)
        },
        DomNode::Text(_) => Vec::new(),
    }
}

fn render_blockquote(n: &DomNode, base: Option<&ParsedUrl>) -> (out: Vec<char>)
    ensures
        out@ == render_blockquote_spec(n.tree(), base_view(base)),
    decreases n, 2nat,
{
    let inner = render_children(n, base);
    let body = normalize_markdown(inner.as_slice());
    if body.len() == 0 {
        return Vec::new();
    }
    let ls = lines_exec(body.as_slice());
    let ghost lv = lines(body@);
    let mut quoted: Vec<Vec<char>> = Vec::new();
    let mut i: usize = 0;
    while i < ls.len()
        invariant
            i <= ls@.len(),
            ls@.len() == lv.len(),
            forall|j: int| 0 <= j < ls@.len() ==> #[trigger] ls@[j]@ == lv[j],
            vv(quoted@) =~= quote_lines(lv.take(i as int)),
        decreases ls@.len() - i,
    {
        let line = &ls[i];
        let q = if all_whitespace(line.as_slice()) {
            let mut q: Vec<char> = Vec::new();
            q.push('>');
            q
        } else {
            let mut q = chars_of("> ");
            push_all(&mut q, line.as_slice());
            q
        };
        assert(q@ == quote_line(lv[i as int]));
        let ghost before = vv(quoted@);
        quoted.push(q);
        assert(vv(quoted@) =~= before.push(q@));
        assert(quote_lines(lv.take(i + 1)) =~= quote_lines(lv.take(i as int)).push(
            quote_line(lv[i as int]),
        ));
        i += 1;
    }
    assert(lv.take(ls@.len() as int) =~= lv);
    let mut out = join_exec(&quoted, chars_of("\n").as_slice());
    assert(vv(quoted@) == quoted@.map_values(|p: Vec<char>| p@));
    push_str(&mut out, "\n\n");
    proof {
        reveal_strlit("\n");
        assert("\n"@ =~= seq!['\n']);
    }
    out
}

fn push_item_lines(out: &mut Vec<char>, item: &[char], marker: &[char])
    ensures
        final(out)@ == old(out)@ + item_lines(lines(item@), marker@),
{
    let ls = lines_exec(item);
    let ghost lv = lines(item@);
    let ghost start = out@;
    let mut i: usize = 0;
    while i < ls.len()
        invariant
            i <= ls@.len(),
            ls@.len() == lv.len(),
            forall|j: int| 0 <= j < ls@.len() ==> #[trigger] ls@[j]@ == lv[j],
            out@ == start + item_lines(lv.take(i as int), marker@),
        decreases ls@.len() - i,
    {
        assert(lv.take(i + 1).drop_last() =~= lv.take(i as int));
        let ghost before = out@;
        let line = &ls[i];
        if i == 0 {
            push_all(out, marker);
            out.push(' ');
            push_all(out, line.as_slice());
            out.push('\n');
            assert(out@ =~= before + (marker@ + seq![' '] + line@ + seq!['\n']));
        } else if all_whitespace(line.as_slice()) {
            out.push('\n');
            assert(out@ =~= before + seq!['\n']);
        } else {
            push_str(out, "  ");
            push_all(out, line.as_slice());
            out.push('\n');
            assert(out@ =~= before + ("  "@ + line@ + seq!['\n']));
        }
        i += 1;
    }
    assert(lv.take(ls@.len() as int) =~= lv);
}

fn render_list(n: &DomNode, base: Option<&ParsedUrl>, ordered: bool) -> (out: Vec<char>)
    ensures
        out@ == render_list_spec(n.tree(), base_view(base), ordered),
    decreases n, 2nat,
{
    let ghost bv = base_view(base);
    match n {
        DomNode::Element(e) => {
            let forest = &e.children;
            proof {
                crate::dom::lemma_trees_of(forest@);
            }
            let ghost ts = crate::dom::trees_of(forest@);
            let mut out: Vec<char> = Vec::new();
            let mut index: u128 = 1;
            let mut i: usize = 0;
            #[verifier::loop_isolation(false)]
            while i < forest.len()
                invariant
                    i <= forest@.len(),
                    ts == crate::dom::trees_of(forest@),
                    ts.len() == forest@.len(),
                    bv == base_view(base),
                    forall|j: int| 0 <= j < forest@.len() ==> #[trigger] ts[j] == forest@[j].tree(),
                    (out@, index as nat) == list_fold(ts.take(i as int), bv, ordered),
                    1 <= index <= i + 1,
                decreases forest@.len() - i,
            {
                let ghost t = ts.take(i + 1);
                assert(t.drop_last() =~= ts.take(i as int));
                assert(t.last() == forest@[i as int].tree());
                match &forest[i] {
                    DomNode::Element(li) => {
                        if eq_str(li.name.as_slice(), "li") {
                            assert(decreases_to!(n => e.children@));
                            assert(decreases_to!(e.children@ => e.children@[i as int]));
                            assert(decreases_to!(n => e.children@[i as int]));
                            let inner = render_children(&forest[i], base);
                            let item = normalize_markdown(inner.as_slice());
                            if item.len() > 0 {
                                let mut marker: Vec<char> = Vec::new();
                                if ordered {
                                    push_decimal(&mut marker, index);
                                    marker.push('.');
                                    index += 1;
                                } else {
                                    marker.push('-');
                                }
                                proof {
                                    if ordered {
                                        assert(marker@ =~= decimal((index - 1) as nat) + seq!['.']);
                                    } else {
                                        assert(marker@ =~= seq!['-']);
                                    }
                                }
                                push_item_lines(&mut out, item.as_slice(), marker.as_slice());
                            }
                        }
                    },
                    _ => {},
                }
                i += 1;
            }
            assert(ts.take(forest@.len() as int) =~= ts);
            if out.len() > 0 {
                out.push('\n');
            }
            out
        },
        _ => Vec::new(),
    }
}

/// Markdown for an element (and nothing for other nodes).
fn render_element(n: &DomNode, base: Option<&ParsedUrl>) -> (out: Vec<char>)
    ensures
        out@ == render_element_spec(n.tree(), base_view(base)),
    decreases n, 3nat,
{
    match n {
        DomNode::Element(e) => {
            let name = e.name.as_slice();
            if is_noisy_element(e) {
                return Vec::new();
            }
            if name.len() == 2 && name[0] == 'h' && '1' <= name[1] && name[1] <= '6' {
                let text = render_inline(n, base);
                if text.len() == 0 {
                    return Vec::new();
                }
                let level: usize = ((name[1] as u32) - ('0' as u32)) as usize;
                let mut out: Vec<char> = Vec::new();
                let mut k: usize = 0;
                while k < level
                    invariant
                        k <= level,
                        out@ =~= Seq::new(k as nat, |j: int| '#'),
                    decreases level - k,
                {
                    out.push('#');
                    k += 1;
                }
                out.push(' ');
                push_all(&mut out, text.as_slice());
                push_str(&mut out, "\n\n");
                return out;
            }
            if eq_str(name, "p") || eq_str(name, "figcaption") {
                let mut text = render_inline(n, base);
                if text.len() == 0 {
                    return Vec::new();
                }
                push_str(&mut text, "\n\n");
                text
            } else if eq_str(name, "br") {
                let mut out: Vec<char> = Vec::new();
                out.push('\n');
                out
            } else if eq_str(name, "pre") {
                render_pre(n)
            } else if eq_str(name, "blockquote") {
                render_blockquote(n, base)
            } else if eq_str(name, "ul") {
                render_list(n, base, false)
            } else if eq_str(name, "ol") {
                render_list(n, base, true)
            } else if eq_str(name, "table") {
                render_table(n, base)
            } else if eq_str(name, "hr") {
                chars_of("---\n\n")
            } else if eq_str(name, "script") || eq_str(name, "style") || eq_str(name, "svg")
                || eq_str(name, "canvas") || eq_str(name, "iframe") || eq_str(name, "noscript") {
                Vec::new()
            } else {
                render_children(n, base)
            }
        },
        _ => Vec::new(),
    }
}

// ---------------------------------------------------------------- choosing the content

/// The trimmed, non-empty pieces of text.
pub open spec fn visible_pieces(ps: Seq<Seq<char>>) -> Seq<Seq<char>>
    decreases ps.len(),
{
    if ps.len() == 0 {
        seq![]
    } else {
        let r = visible_pieces(ps.drop_last());
        let x = trim(ps.last());
        if x.len() == 0 {
            r
        } else {
            r.push(x)
        }
    }
}

/// The visible text of a node: its text nodes trimmed, blank ones dropped, joined by spaces.
pub open spec fn visible_text_spec(t: Tree) -> Seq<char> {
    join(visible_pieces(node_texts(t)), seq![' '])
}

/// The text nodes of several nodes, one node after the other.
pub open spec fn all_texts(ss: Seq<Tree>) -> Seq<Seq<char>>
    decreases ss.len(),
{
    if ss.len() == 0 {
        seq![]
    } else {
        all_texts(ss.drop_last()) + node_texts(ss.last())
    }
}

/// The text of the descendants that match a selector, text nodes joined by spaces.
pub open spec fn descendant_text_spec(t: Tree, s: Sel) -> Seq<char> {
    join(all_texts(select_forest(kids(t), s)), seq![' '])
}

/// How many descendants of a node match a selector.
pub open spec fn count_spec(t: Tree, s: Sel) -> nat {
    select_forest(kids(t), s).len()
}

pub open spec fn paragraph_sel() -> Sel {
    Sel::Names(seq!["p"@])
}

pub open spec fn heading_sel() -> Sel {
    Sel::Names(seq!["h1"@, "h2"@, "h3"@, "h4"@, "h5"@, "h6"@])
}

pub open spec fn code_sel() -> Sel {
    Sel::Names(seq!["pre"@, "code"@])
}

pub open spec fn anchor_sel() -> Sel {
    Sel::Names(seq!["a"@])
}

/// How much a node looks like the page's content, five times over: visible characters, 120
/// per paragraph, 40 per heading, 60 per code block, less 0.8 per character of link text;
/// zero when it has no visible text.
pub open spec fn score_spec(t: Tree) -> int {
    let n = visible_text_spec(t).len();
    if n == 0 {
        0
    } else {
        5 * n + 600 * count_spec(t, paragraph_sel()) + 200 * count_spec(t, heading_sel()) + 300
            * count_spec(t, code_sel()) - 4 * descendant_text_spec(t, anchor_sel()).len()
    }
}

/// The CSS selectors tried for the content root, in order.
pub open spec fn root_css() -> Seq<Seq<char>> {
    seq![
        "article"@,
        "main"@,
        "[role='main']"@,
        ".markdown-body"@,
        ".entry-content"@,
        ".post-content"@,
        ".article-content"@,
        ".content"@,
        "#content"@,
        "body"@,
    ]
}

/// The best candidate so far after some more candidates: a candidate that is not noise
/// replaces the best one when there is none yet or when it scores strictly higher.
pub open spec fn scan_candidates(cands: Seq<Tree>, best: Option<(Tree, int)>) -> Option<(Tree, int)>
    decreases cands.len(),
{
    if cands.len() == 0 {
        best
    } else {
        let b = scan_candidates(cands.drop_last(), best);
        let c = cands.last();
        if is_noisy(c) {
            b
        } else {
            match b {
                None => Some((c, score_spec(c))),
                Some((_, bs)) => if score_spec(c) > bs {
                    Some((c, score_spec(c)))
                } else {
                    b
                },
            }
        }
    }
}

/// The best candidate over the matches of several selectors, tried one after the other.
pub open spec fn best_over(cands: Seq<Seq<Tree>>) -> Option<(Tree, int)>
    decreases cands.len(),
{
    if cands.len() == 0 {
        None
    } else {
        scan_candidates(cands.last(), best_over(cands.drop_last()))
    }
}

/// Whether every selector parsed.
pub open spec fn all_parsed(ms: Seq<Option<Seq<Tree>>>) -> bool {
    forall|i: int| 0 <= i < ms.len() ==> (#[trigger] ms[i]) is Some
}

/// The matches of each selector (none for one that did not parse).
pub open spec fn unwrap_all(ms: Seq<Option<Seq<Tree>>>) -> Seq<Seq<Tree>> {
    ms.map_values(
        |m: Option<Seq<Tree>>|
            match m {
                Some(t) => t,
                None => seq![],
            },
    )
}

/// The element whose children become the page's Markdown, from the matches of each root
/// selector in turn; nothing where a selector did not parse.
pub open spec fn best_root_spec(ms: Seq<Option<Seq<Tree>>>) -> Option<Tree> {
    if all_parsed(ms) {
        match best_over(unwrap_all(ms)) {
            Some((t, _)) => Some(t),
            None => None,
        }
    } else {
        None
    }
}

fn push_name(v: &mut Vec<Vec<char>>, name: &str)
    ensures
        final(v)@.map_values(|x: Vec<char>| x@) == old(v)@.map_values(|x: Vec<char>| x@).push(
            name@,
        ),
{
    let c = chars_of(name);
    v.push(c);
    assert(v@.map_values(|x: Vec<char>| x@) =~= old(v)@.map_values(|x: Vec<char>| x@).push(
        name@,
    ));
}

fn empty_names() -> (v: Vec<Vec<char>>)
    ensures
        v@.map_values(|x: Vec<char>| x@) == Seq::<Seq<char>>::empty(),
{
    let v: Vec<Vec<char>> = Vec::new();
    assert(v@.map_values(|x: Vec<char>| x@) =~= Seq::<Seq<char>>::empty());
    v
}

fn select_below<'a>(n: &'a DomNode, sel: &Selector) -> (out: Vec<&'a DomNode>)
    ensures
        crate::dom::refs_trees(out@) == select_forest(kids(n.tree()), sel@),
{
    let mut out: Vec<&'a DomNode> = Vec::new();
    assert(crate::dom::refs_trees(out@) =~= Seq::<Tree>::empty());
    match n {
        DomNode::Element(e) => crate::dom::select_into(&e.children, sel, &mut out),
        DomNode::Other(k) => crate::dom::select_into(k, sel, &mut out),
        DomNode::Text(_) => {},
    }
    assert(crate::dom::refs_trees(out@) =~= select_forest(kids(n.tree()), sel@));
    out
}

fn visible_text(n: &DomNode) -> (out: Vec<char>)
    ensures
        out@ == visible_text_spec(n.tree()),
{
    let texts = crate::dom::node_texts_exec(n);
    let ghost tv = vv(texts@);
    let mut pieces: Vec<Vec<char>> = Vec::new();
    let mut i: usize = 0;
    while i < texts.len()
        invariant
            i <= texts@.len(),
            tv == vv(texts@),
            vv(pieces@) == visible_pieces(tv.take(i as int)),
        decreases texts@.len() - i,
    {
        assert(tv.take(i + 1).drop_last() =~= tv.take(i as int));
        let x = trim_chars(texts[i].as_slice());
        if x.len() > 0 {
            let ghost before = vv(pieces@);
            pieces.push(x);
            assert(vv(pieces@) =~= before.push(x@));
        }
        i += 1;
    }
    assert(tv.take(texts@.len() as int) =~= tv);
    let sp = chars_of(" ");
    proof {
        reveal_strlit(" ");
        assert(sp@ =~= seq![' ']);
    }
    join_exec(&pieces, sp.as_slice())
}

fn descendant_text(n: &DomNode, sel: &Selector) -> (out: Vec<char>)
    ensures
        out@ == descendant_text_spec(n.tree(), sel@),
{
    let matched = select_below(n, sel);
    let ghost mv = crate::dom::refs_trees(matched@);
    let mut pieces: Vec<Vec<char>> = Vec::new();
    let mut i: usize = 0;
    while i < matched.len()
        invariant
            i <= matched@.len(),
            mv == crate::dom::refs_trees(matched@),
            vv(pieces@) == all_texts(mv.take(i as int)),
        decreases matched@.len() - i,
    {
        assert(mv.take(i + 1).drop_last() =~= mv.take(i as int));
        assert(mv[i as int] == matched@[i as int].tree());
        let ts = crate::dom::node_texts_exec(matched[i]);
        let mut k: usize = 0;
        let ghost before = vv(pieces@);
        while k < ts.len()
            invariant
                k <= ts@.len(),
                vv(pieces@) == before + vv(ts@).take(k as int),
            decreases ts@.len() - k,
        {
            let piece = copy_range(ts[k].as_slice(), 0, ts[k].len());
            assert(ts@[k as int]@.subrange(0, ts@[k as int]@.len() as int) =~= ts@[k as int]@);
            let ghost b2 = vv(pieces@);
            pieces.push(piece);
            assert(vv(pieces@) =~= b2.push(ts@[k as int]@));
            assert(vv(ts@).take(k + 1) =~= vv(ts@).take(k as int).push(ts@[k as int]@));
            k += 1;
        }
        assert(vv(ts@).take(ts@.len() as int) =~= vv(ts@));
        i += 1;
    }
    assert(mv.take(matched@.len() as int) =~= mv);
    let sp = chars_of(" ");
    proof {
        reveal_strlit(" ");
        assert(sp@ =~= seq![' ']);
    }
    join_exec(&pieces, sp.as_slice())
}

/// Five times the content score of a node.
fn score_element(n: &DomNode) -> (s: i128)
    ensures
        s == score_spec(n.tree()),
{
    let text_len = visible_text(n).len();
    if text_len == 0 {
        return 0;
    }
    let mut pv = empty_names();
    push_name(&mut pv, "p");
    let p = Selector::Names(pv);
    let mut hv = empty_names();
    push_name(&mut hv, "h1");
    push_name(&mut hv, "h2");
    push_name(&mut hv, "h3");
    push_name(&mut hv, "h4");
    push_name(&mut hv, "h5");
    push_name(&mut hv, "h6");
    assert(hv@.map_values(|x: Vec<char>| x@) =~= seq!["h1"@, "h2"@, "h3"@, "h4"@, "h5"@, "h6"@]);
    let h = Selector::Names(hv);
    let mut cv = empty_names();
    push_name(&mut cv, "pre");
    push_name(&mut cv, "code");
    assert(cv@.map_values(|x: Vec<char>| x@) =~= seq!["pre"@, "code"@]);
    let c = Selector::Names(cv);
    let mut av = empty_names();
    push_name(&mut av, "a");
    let a = Selector::Names(av);
    assert(p@ == paragraph_sel());
    assert(h@ == heading_sel());
    assert(c@ == code_sel());
    assert(a@ == anchor_sel());
    let pc = select_below(n, &p).len();
    let hc = select_below(n, &h).len();
    let cc = select_below(n, &c).len();
    let lc = descendant_text(n, &a).len();
    (5 * (text_len as i128)) + 600 * (pc as i128) + 200 * (hc as i128) + 300 * (cc as i128) - 4 * (
    lc as i128)
}

fn noisy_node(n: &DomNode) -> (r: bool)
    ensures
        r == is_noisy(n.tree()),
{
    match n {
        DomNode::Element(e) => is_noisy_element(e),
        _ => false,
    }
}

/// The selector text at a position of `root_css`.
fn root_css_text(i: usize) -> (s: &'static str)
    requires
        i < 10,
    ensures
        s@ == root_css()[i as int],
{
    if i == 0 {
        "article"
    } else if i == 1 {
        "main"
    } else if i == 2 {
        "[role='main']"
    } else if i == 3 {
        ".markdown-body"
    } else if i == 4 {
        ".entry-content"
    } else if i == 5 {
        ".post-content"
    } else if i == 6 {
        ".article-content"
    } else if i == 7 {
        ".content"
    } else if i == 8 {
        "#content"
    } else {
        "body"
    }
}

pub open spec fn best_view(b: Option<(&DomNode, i128)>) -> Option<(Tree, int)> {
    match b {
        Some((n, s)) => Some((n.tree(), s as int)),
        None => None,
    }
}

/// The element whose children become the page's Markdown: over the matches of each root
/// selector in turn, the first one that is not noise and scores strictly higher than every one
/// before it; nothing where a selector did not parse.
pub fn best_root<'a>(roots: &'a Vec<Option<Vec<DomNode>>>) -> (r: Option<&'a DomNode>)
    ensures
        r matches Some(n) ==> best_root_spec(roots_view(roots@)) == Some(n.tree()),
        r is None ==> best_root_spec(roots_view(roots@)) is None,
{
    let ghost ms = roots_view(roots@);
    let ghost cs = unwrap_all(ms);
    let mut best: Option<(&'a DomNode, i128)> = None;
    let mut i: usize = 0;
    while i < roots.len()
        invariant
            i <= roots@.len(),
            ms == roots_view(roots@),
            cs == unwrap_all(ms),
            all_parsed(ms.take(i as int)),
            best_view(best) == best_over(cs.take(i as int)),
        decreases roots@.len() - i,
    {
        let cands = match &roots[i] {
            Some(c) => c,
            None => {
                assert(!all_parsed(ms)) by {
                    assert(ms[i as int] is None);
                }
                return None;
            },
        };
        assert(cs.take(i + 1).drop_last() =~= cs.take(i as int));
        assert(cs[i as int] == crate::dom::trees_of(cands@));
        proof {
            crate::dom::lemma_trees_of(cands@);
        }
        let ghost cv = crate::dom::trees_of(cands@);
        let ghost b0 = best_view(best);
        let mut j: usize = 0;
        while j < cands.len()
            invariant
                j <= cands@.len(),
                cv == crate::dom::trees_of(cands@),
                cv.len() == cands@.len(),
                forall|k: int| 0 <= k < cands@.len() ==> #[trigger] cv[k] == cands@[k].tree(),
                best_view(best) == scan_candidates(cv.take(j as int), b0),
            decreases cands@.len() - j,
        {
            assert(cv.take(j + 1).drop_last() =~= cv.take(j as int));
            let c = &cands[j];
            if !noisy_node(c) {
                let sc = score_element(c);
                match best {
                    None => {
                        best = Some((c, sc));
                    },
                    Some((_, bs)) => {
                        if sc > bs {
                            best = Some((c, sc));
                        }
                    },
                }
            }
            j += 1;
        }
        assert(cv.take(cands@.len() as int) =~= cv);
        assert forall|k: int| 0 <= k < i + 1 implies (#[trigger] ms.take(i + 1)[k]) is Some by {
            if k < i {
                assert(ms.take(i + 1)[k] == ms.take(i as int)[k]);
            }
        }
        i += 1;
    }
    assert(ms.take(roots@.len() as int) =~= ms);
    assert(cs.take(roots@.len() as int) =~= cs);
    match best {
        Some((n, _)) => Some(n),
        None => None,
    }
}

// ---------------------------------------------------------------- what the page's selectors match

/// The elements that the selectors of a page match, each in the order `scraper::Html::select`
/// yields them (`None` for a selector that does not parse): the title, the title and
/// description metadata, and the candidates for the content root.
#[derive(Debug)]
pub struct PageMatches {
    pub title: Option<Vec<DomNode>>,
    pub og_title: Option<Vec<DomNode>>,
    pub twitter_title: Option<Vec<DomNode>>,
    pub description: Option<Vec<DomNode>>,
    pub og_description: Option<Vec<DomNode>>,
    pub roots: Vec<Option<Vec<DomNode>>>,
}

pub struct PageMatchesView {
    pub title: Option<Seq<Tree>>,
    pub og_title: Option<Seq<Tree>>,
    pub twitter_title: Option<Seq<Tree>>,
    pub description: Option<Seq<Tree>>,
    pub og_description: Option<Seq<Tree>>,
    pub roots: Seq<Option<Seq<Tree>>>,
}

pub open spec fn opt_trees(o: Option<Vec<DomNode>>) -> Option<Seq<Tree>> {
    match o {
        Some(v) => Some(crate::dom::trees_of(v@)),
        None => None,
    }
}

pub open spec fn roots_view(r: Seq<Option<Vec<DomNode>>>) -> Seq<Option<Seq<Tree>>> {
    r.map_values(|o: Option<Vec<DomNode>>| opt_trees(o))
}

impl View for PageMatches {
    type V = PageMatchesView;

    open spec fn view(&self) -> PageMatchesView {
        PageMatchesView {
            title: opt_trees(self.title),
            og_title: opt_trees(self.og_title),
            twitter_title: opt_trees(self.twitter_title),
            description: opt_trees(self.description),
            og_description: opt_trees(self.og_description),
            roots: roots_view(self.roots@),
        }
    }
}

/// What the page's selectors match in an HTML text.
pub open spec fn page_matches_spec(html: Seq<char>) -> PageMatchesView {
    PageMatchesView {
        title: select_spec(html, "title"@),
        og_title: select_spec(html, "meta[property='og:title']"@),
        twitter_title: select_spec(html, "meta[name='twitter:title']"@),
        description: select_spec(html, "meta[name='description']"@),
        og_description: select_spec(html, "meta[property='og:description']"@),
        roots: root_css().map_values(|c: Seq<char>| select_spec(html, c)),
    }
}

/// Runs the page's selectors over a parsed document.
pub fn page_matches(doc: &HtmlDocument) -> (m: PageMatches)
    ensures
        m@ == page_matches_spec(doc.source()),
{
    let ghost css = root_css();
    let mut roots: Vec<Option<Vec<DomNode>>> = Vec::new();
    let mut i: usize = 0;
    while i < 10
        invariant
            i <= 10,
            css == root_css(),
            roots_view(roots@) =~= css.take(i as int).map_values(
                |c: Seq<char>| select_spec(doc.source(), c),
            ),
        decreases 10 - i,
    {
        let m = select_document(doc, root_css_text(i));
        let ghost before = roots_view(roots@);
        roots.push(m);
        assert(roots_view(roots@) =~= before.push(opt_trees(m)));
        assert(css.take(i + 1).map_values(|c: Seq<char>| select_spec(doc.source(), c))
            =~= css.take(i as int).map_values(|c: Seq<char>| select_spec(doc.source(), c)).push(
            select_spec(doc.source(), css[i as int]),
        ));
        i += 1;
    }
    assert(css.take(10) =~= css);
    PageMatches {
        title: select_document(doc, "title"),
        og_title: select_document(doc, "meta[property='og:title']"),
        twitter_title: select_document(doc, "meta[name='twitter:title']"),
        description: select_document(doc, "meta[name='description']"),
        og_description: select_document(doc, "meta[property='og:description']"),
        roots,
    }
}

// ---------------------------------------------------------------- title and description

pub open spec fn non_empty(v: Seq<char>) -> Option<Seq<char>> {
    if v.len() == 0 {
        None
    } else {
        Some(v)
    }
}

/// The text of the first match, whitespace collapsed; nothing where there is no match or the
/// text is empty.
pub open spec fn first_text_spec(m: Option<Seq<Tree>>) -> Option<Seq<char>> {
    match m {
        Some(ts) => if ts.len() > 0 {
            non_empty(collapse_ws(text_of(ts[0])))
        } else {
            None
        },
        None => None,
    }
}

/// The `content` attribute of the first match, whitespace collapsed; nothing where there is no
/// match or the attribute is missing or empty.
pub open spec fn meta_content_spec(m: Option<Seq<Tree>>) -> Option<Seq<char>> {
    match m {
        Some(ts) => if ts.len() > 0 {
            match attr_spec(attrs_of(ts[0]), "content"@) {
                Some(v) => non_empty(collapse_ws(v)),
                None => None,
            }
        } else {
            None
        },
        None => None,
    }
}

pub open spec fn or_else(a: Option<Seq<char>>, b: Option<Seq<char>>) -> Option<Seq<char>> {
    match a {
        Some(x) => Some(x),
        None => b,
    }
}

/// The page's title: `<title>`, else `og:title`, else `twitter:title`.
pub open spec fn title_spec(page: PageMatchesView) -> Option<Seq<char>> {
    or_else(
        first_text_spec(page.title),
        or_else(meta_content_spec(page.og_title), meta_content_spec(page.twitter_title)),
    )
}

/// The page's description (`description`, else `og:description`), left out where it repeats
/// the title.
pub open spec fn description_spec(page: PageMatchesView, title: Option<Seq<char>>) -> Option<
    Seq<char>,
> {
    let d = or_else(meta_content_spec(page.description), meta_content_spec(page.og_description));
    match d {
        Some(v) => if title == Some(v) {
            None
        } else {
            Some(v)
        },
        None => None,
    }
}

fn non_empty_exec(v: Vec<char>) -> (r: Option<Vec<char>>)
    ensures
        r matches Some(x) ==> non_empty(v@) == Some(x@),
        r is None ==> non_empty(v@) is None,
{
    if v.len() == 0 {
        None
    } else {
        Some(v)
    }
}

fn first_text(m: &Option<Vec<DomNode>>) -> (r: Option<Vec<char>>)
    ensures
        r matches Some(x) ==> first_text_spec(opt_trees(*m)) == Some(x@),
        r is None ==> first_text_spec(opt_trees(*m)) is None,
{
    match m {
        Some(v) => {
            if v.len() == 0 {
                return None;
            }
            proof {
                crate::dom::lemma_trees_of(v@);
            }
            let t = crate::dom::text_of_exec(&v[0]);
            non_empty_exec(collapse_ws_chars(t.as_slice()))
        },
        None => None,
    }
}

fn meta_content(m: &Option<Vec<DomNode>>) -> (r: Option<Vec<char>>)
    ensures
        r matches Some(x) ==> meta_content_spec(opt_trees(*m)) == Some(x@),
        r is None ==> meta_content_spec(opt_trees(*m)) is None,
{
    match m {
        Some(v) => {
            if v.len() == 0 {
                return None;
            }
            proof {
                crate::dom::lemma_trees_of(v@);
            }
            match &v[0] {
                DomNode::Element(e) => match attr(&e.attrs, "content") {
                    Some(c) => non_empty_exec(collapse_ws_chars(c.as_slice())),
                    None => None,
                },
                _ => {
                    assert(attrs_of(v@[0].tree()) =~= Seq::<AttrView>::empty());
                    None
                },
            }
        },
        None => None,
    }
}

fn page_title(page: &PageMatches) -> (r: Option<Vec<char>>)
    ensures
        r matches Some(x) ==> title_spec(page@) == Some(x@),
        r is None ==> title_spec(page@) is None,
{
    match first_text(&page.title) {
        Some(t) => Some(t),
        None => match meta_content(&page.og_title) {
            Some(t) => Some(t),
            None => meta_content(&page.twitter_title),
        },
    }
}

fn page_description(page: &PageMatches, title: &Option<Vec<char>>) -> (r: Option<Vec<char>>)
    ensures
        r matches Some(x) ==> description_spec(page@, opt_chars(*title)) == Some(x@),
        r is None ==> description_spec(page@, opt_chars(*title)) is None,
{
    let d = match meta_content(&page.description) {
        Some(v) => Some(v),
        None => meta_content(&page.og_description),
    };
    match d {
        Some(v) => {
            let same = match title {
                Some(t) => chars_eq(t.as_slice(), v.as_slice()),
                None => false,
            };
            if same {
                None
            } else {
                Some(v)
            }
        },
        None => None,
    }
}

pub open spec fn opt_chars(o: Option<Vec<char>>) -> Option<Seq<char>> {
    match o {
        Some(v) => Some(v@),
        None => None,
    }
}

// ---------------------------------------------------------------- the whole page

/// `# title` and a blank line, where there is a title.
pub open spec fn title_block(title: Option<Seq<char>>) -> Seq<char> {
    match title {
        Some(t) => "# "@ + t + "\n\n"@,
        None => seq![],
    }
}

/// The description and a blank line, where there is one.
pub open spec fn description_block(d: Option<Seq<char>>) -> Seq<char> {
    match d {
        Some(v) => v + "\n\n"@,
        None => seq![],
    }
}

/// The Markdown of the content root, without a first heading that repeats the title.
pub open spec fn body_block(
    page: PageMatchesView,
    title: Option<Seq<char>>,
    base: Option<Seq<char>>,
) -> Seq<char> {
    match best_root_spec(page.roots) {
        Some(r) => {
            let b = render_children_spec(r, base);
            match title {
                Some(t) => suppress_heading_spec(b, t),
                None => b,
            }
        },
        None => seq![],
    }
}

/// What `extract` makes of what the page's selectors match and the page's URL (by its
/// serialization, where it parsed).
pub open spec fn extract_matches_spec(page: PageMatchesView, base: Option<Seq<char>>) -> ExtractedView {
    let title = title_spec(page);
    let content = normalize_markdown_spec(
        title_block(title) + description_block(description_spec(page, title)) + body_block(
            page,
            title,
            base,
        ),
    );
    ExtractedView {
        title,
        content,
        warnings: if content.len() < 200 {
            seq!["low_content_yield"@]
        } else {
            seq![]
        },
    }
}

/// What `extract` makes of an HTML page fetched from `final_url`.
pub open spec fn extract_spec(html: Seq<char>, final_url: Seq<char>) -> ExtractedView {
    extract_matches_spec(
        page_matches_spec(html),
        match url_parse(final_url) {
            Some(u) => Some(u.serialized),
            None => None,
        },
    )
}

/// Extracts the title and Markdown of a page from what its selectors match; `base` is the
/// page's URL, against which links are made absolute.
pub fn extract_from_matches(page: &PageMatches, base: Option<&ParsedUrl>) -> (e: Extracted)
    ensures
        e@ == extract_matches_spec(page@, base_view(base)),
{
    let title = page_title(page);
    let description = page_description(page, &title);
    let ghost tv = opt_chars(title);
    let mut content: Vec<char> = Vec::new();
    match &title {
        Some(t) => {
            push_str(&mut content, "# ");
            push_all(&mut content, t.as_slice());
            push_str(&mut content, "\n\n");
        },
        None => {},
    }
    assert(content@ =~= title_block(tv));
    let ghost c1 = content@;
    match &description {
        Some(d) => {
            push_all(&mut content, d.as_slice());
            push_str(&mut content, "\n\n");
        },
        None => {},
    }
    assert(content@ =~= c1 + description_block(opt_chars(description)));
    let ghost c2 = content@;
    match best_root(&page.roots) {
        Some(root) => {
            let body = render_children(root, base);
            match &title {
                Some(t) => {
                    let b = suppress_leading_duplicate_heading(body.as_slice(), t.as_slice());
                    push_all(&mut content, b.as_slice());
                },
                None => {
                    push_all(&mut content, body.as_slice());
                },
            }
        },
        None => {},
    }
    assert(content@ =~= c2 + body_block(page@, tv, base_view(base)));
    let normalized = normalize_markdown(content.as_slice());
    let mut warnings: Vec<String> = Vec::new();
    if normalized.len() < 200 {
        warnings.push(string_from(chars_of("low_content_yield").as_slice()));
    }
    let title_out = match title {
        Some(t) => Some(string_from(t.as_slice())),
        None => None,
    };
    let e = Extracted { title: title_out, content: string_from(normalized.as_slice()), warnings };
    assert(strings_view(e.warnings@) =~= extract_matches_spec(page@, base_view(base)).warnings);
    e
}

/// Extracts the title and Markdown of an HTML page fetched from `final_url`.
pub fn extract(html: &str, final_url: &str) -> (e: Extracted)
    ensures
        e@ == extract_spec(html@, final_url@),
{
    let doc = parse_html(html);
    let page = page_matches(&doc);
    let base = parse_url(final_url);
    let e = match &base {
        Some(b) => extract_from_matches(&page, Some(b)),
        None => extract_from_matches(&page, None),
    };
    e
}

/// The Markdown that `extract` gives never has two blank lines in a row, holds no carriage
/// return, neither starts nor ends with whitespace, and is left unchanged by normalizing it
/// again; it is flagged `low_content_yield` exactly when it is shorter than 200 characters.
pub proof fn lemma_extracted_markdown_is_tidy(page: PageMatchesView, base: Option<Seq<char>>)
    ensures
        no_blank_run(extract_matches_spec(page, base).content),
        extract_matches_spec(page, base).content.len() > 0 ==> !is_ws(
            extract_matches_spec(page, base).content[0],
        ) && !is_ws(extract_matches_spec(page, base).content.last()),
        lacks(extract_matches_spec(page, base).content, '\r'),
        normalize_markdown_spec(extract_matches_spec(page, base).content) == extract_matches_spec(
            page,
            base,
        ).content,
        extract_matches_spec(page, base).warnings.contains("low_content_yield"@) == (
        extract_matches_spec(page, base).content.len() < 200),
{
    let title = title_spec(page);
    lemma_normalized_markdown_is_tidy(
        title_block(title) + description_block(description_spec(page, title)) + body_block(
            page,
            title,
            base,
        ),
    );
    let e = extract_matches_spec(page, base);
    if e.content.len() < 200 {
        assert(e.warnings[0] == "low_content_yield"@);
    }
}

proof fn lemma_lines_empty(s: Seq<char>)
    ensures
        lines(s).len() == 0 ==> s.len() == 0,
{
    lemma_split_nl_nonempty(s);
    if s.len() > 0 {
        lemma_split_nl_nonempty(s.drop_last());
        let p = split_nl(s);
        if s.last() == '\n' {
            assert(p.len() >= 2);
        } else {
            assert(p.last().len() > 0);
        }
    }
}

/// Only a first heading that repeats the title is dropped: where the body's first line is not
/// a heading whose text (whitespace collapsed) equals the title (whitespace collapsed), the
/// body is kept whole; otherwise just that first line goes.
pub proof fn lemma_only_title_heading_dropped(body: Seq<char>, title: Seq<char>)
    ensures
        !(lines(body).len() > 0 && starts_with(lines(body)[0], "#"@) && collapse_ws(
            trim(trim_start_char(lines(body)[0], '#')),
        ) == collapse_ws(title)) ==> suppress_heading_spec(body, title) == body,
        suppress_heading_spec(body, title) == body || suppress_heading_spec(body, title) == join(
            lines(body).drop_first(),
            "\n"@,
        ),
{
    lemma_lines_empty(body);
    if lines(body).len() == 0 {
        assert(body =~= Seq::<char>::empty());
    }
}

proof fn lemma_item_lines_prefix(ls: Seq<Seq<char>>, marker: Seq<char>, j: int)
    requires
        0 <= j <= ls.len(),
    ensures
        item_lines(ls.take(j), marker).len() <= item_lines(ls, marker).len(),
        item_lines(ls, marker).take(item_lines(ls.take(j), marker).len() as int) == item_lines(
            ls.take(j),
            marker,
        ),
    decreases ls.len(),
{
    if j == ls.len() {
        assert(ls.take(j) =~= ls);
        assert(item_lines(ls, marker).take(item_lines(ls, marker).len() as int) =~= item_lines(
            ls,
            marker,
        ));
    } else {
        lemma_item_lines_prefix(ls.drop_last(), marker, j);
        assert(ls.drop_last().take(j) =~= ls.take(j));
        let a = item_lines(ls.take(j), marker);
        let b = item_lines(ls.drop_last(), marker);
        let c = item_lines(ls, marker);
        assert(c.take(a.len() as int) =~= b.take(a.len() as int));
    }
}

proof fn lemma_item_lines_ends(ls: Seq<Seq<char>>, marker: Seq<char>)
    requires
        ls.len() > 0,
    ensures
        item_lines(ls, marker).len() > 0,
        item_lines(ls, marker).last() == '\n',
{
    let l = ls.last();
    let line = if ls.len() == 1 {
        marker + seq![' '] + l + seq!['\n']
    } else if all_ws(l) {
        seq!['\n']
    } else {
        "  "@ + l + seq!['\n']
    };
    let out = item_lines(ls, marker);
    assert(out == item_lines(ls.drop_last(), marker) + line);
    assert(line.len() > 0 && line.last() == '\n');
    assert(out.last() == line.last());
}

/// In a rendered list item, the first line follows the marker and a space, and every later
/// line that is not blank stands on a line of its own indented by two spaces, so that blocks
/// nested in the item stay under it.
pub proof fn lemma_item_lines_nest(ls: Seq<Seq<char>>, marker: Seq<char>)
    ensures
        ls.len() > 0 ==> starts_with(
            item_lines(ls, marker),
            marker + seq![' '] + ls[0] + seq!['\n'],
        ),
        forall|k: int|
            1 <= k < ls.len() && !all_ws(#[trigger] ls[k]) ==> contains(
                item_lines(ls, marker),
                seq!['\n'] + "  "@ + ls[k] + seq!['\n'],
            ),
{
    if ls.len() > 0 {
        lemma_item_lines_prefix(ls, marker, 1);
        let f = item_lines(ls.take(1), marker);
        assert(ls.take(1).drop_last() =~= Seq::<Seq<char>>::empty());
        assert(ls.take(1).last() == ls[0]);
        assert(item_lines(Seq::<Seq<char>>::empty(), marker) =~= Seq::<char>::empty());
        assert(f =~= marker + seq![' '] + ls[0] + seq!['\n']);
        assert(item_lines(ls, marker).subrange(0, f.len() as int) =~= f);
    }
    assert forall|k: int| 1 <= k < ls.len() && !all_ws(#[trigger] ls[k]) implies contains(
        item_lines(ls, marker),
        seq!['\n'] + "  "@ + ls[k] + seq!['\n'],
    ) by {
        lemma_item_lines_prefix(ls, marker, k + 1);
        let a = item_lines(ls.take(k), marker);
        let b = item_lines(ls.take(k + 1), marker);
        assert(ls.take(k + 1).drop_last() =~= ls.take(k));
        assert(ls.take(k + 1).last() == ls[k]);
        let line = "  "@ + ls[k] + seq!['\n'];
        lemma_item_lines_ends(ls.take(k), marker);
        assert(!all_ws(ls.take(k + 1).last()));
        assert(b == a + line);
        let p = seq!['\n'] + line;
        let c = item_lines(ls, marker);
        let at = a.len() - 1;
        assert(c.take(b.len() as int) == b);
        assert(c.subrange(at, at + p.len()) =~= b.subrange(at, at + p.len()));
        assert(b.subrange(at, at + p.len()) =~= p);
        assert(occurs_at(c, p, at));
        assert(p =~= seq!['\n'] + "  "@ + ls[k] + seq!['\n']);
    }
}

} // verus!
