//! JSX text normalization and the small template-string helpers.
//!
//! The normalizer collapses multi-line JSX text exactly the way mainstream
//! JSX engines do: tabs become spaces, every line but the first is trimmed at
//! its start, every line but the last is trimmed at its end, and non-empty
//! lines are joined with single spaces.

use vstd::prelude::*;

use crate::chars::{is_space, char_is_space, push_char_from, push_space};

verus! {

/// Tabs replaced by single spaces.
pub open spec fn detab(s: Seq<char>) -> Seq<char> {
    s.map_values(
        |c: char|
            if c == '\t' {
                ' '
            } else {
                c
            },
    )
}

/// The position of the first line feed, or the length when there is none.
pub open spec fn first_nl(s: Seq<char>) -> int
    decreases s,
{
    if s.len() == 0 {
        0
    } else if s[0] == '\n' {
        0
    } else {
        1 + first_nl(s.drop_first())
    }
}

pub proof fn lemma_first_nl(s: Seq<char>)
    ensures
        0 <= first_nl(s) <= s.len(),
        forall|j: int| 0 <= j < first_nl(s) ==> s[j] != '\n',
        first_nl(s) < s.len() ==> s[first_nl(s)] == '\n',
    decreases s,
{
    if s.len() > 0 && s[0] != '\n' {
        lemma_first_nl(s.drop_first());
        assert forall|j: int| 0 <= j < first_nl(s) implies s[j] != '\n' by {
            if j > 0 {
                assert(s[j] == s.drop_first()[j - 1]);
            }
        }
    }
}

pub proof fn lemma_first_nl_is(s: Seq<char>, i: int)
    requires
        0 <= i <= s.len(),
        forall|j: int| 0 <= j < i ==> s[j] != '\n',
        i < s.len() ==> s[i] == '\n',
    ensures
        first_nl(s) == i,
    decreases s,
{
    if s.len() > 0 && s[0] != '\n' {
        assert forall|j: int| 0 <= j < i - 1 implies s.drop_first()[j] != '\n' by {
            assert(s.drop_first()[j] == s[j + 1]);
        }
        lemma_first_nl_is(s.drop_first(), i - 1);
    }
}

/// A carriage return standing just before the line feed is dropped.
pub open spec fn strip_cr(l: Seq<char>) -> Seq<char> {
    if l.len() > 0 && l.last() == '\r' {
        l.drop_last()
    } else {
        l
    }
}

/// The lines of a string, split at line feeds (a preceding carriage return is
/// dropped), with no trailing empty line for a final line feed and no lines
/// at all for the empty string.
pub open spec fn lines_of(s: Seq<char>) -> Seq<Seq<char>>
    decreases s.len(),
    via lines_of_decreases
{
    if s.len() == 0 {
        Seq::empty()
    } else {
        let i = first_nl(s);
        if i == s.len() {
            seq![s]
        } else {
            seq![strip_cr(s.take(i))] + lines_of(s.skip(i + 1))
        }
    }
}

#[via_fn]
proof fn lines_of_decreases(s: Seq<char>) {
    lemma_first_nl(s);
}

/// How many white-space characters the line starts with.
pub open spec fn leading_ws(l: Seq<char>) -> int
    decreases l,
{
    if l.len() > 0 && is_space(l[0]) {
        1 + leading_ws(l.drop_first())
    } else {
        0
    }
}

pub proof fn lemma_leading_ws(l: Seq<char>)
    ensures
        0 <= leading_ws(l) <= l.len(),
        forall|j: int| 0 <= j < leading_ws(l) ==> is_space(l[j]),
        leading_ws(l) < l.len() ==> !is_space(l[leading_ws(l)]),
    decreases l,
{
    if l.len() > 0 && is_space(l[0]) {
        lemma_leading_ws(l.drop_first());
        assert forall|j: int| 0 <= j < leading_ws(l) implies is_space(l[j]) by {
            if j > 0 {
                assert(l[j] == l.drop_first()[j - 1]);
            }
        }
    }
}

pub proof fn lemma_leading_ws_is(l: Seq<char>, i: int)
    requires
        0 <= i <= l.len(),
        forall|j: int| 0 <= j < i ==> is_space(l[j]),
        i < l.len() ==> !is_space(l[i]),
    ensures
        leading_ws(l) == i,
    decreases l,
{
    if l.len() > 0 && is_space(l[0]) {
        assert forall|j: int| 0 <= j < i - 1 implies is_space(l.drop_first()[j]) by {
            assert(l.drop_first()[j] == l[j + 1]);
        }
        lemma_leading_ws_is(l.drop_first(), i - 1);
    }
}

/// How many white-space characters the line ends with.
pub open spec fn trailing_ws(l: Seq<char>) -> int
    decreases l,
{
    if l.len() > 0 && is_space(l.last()) {
        1 + trailing_ws(l.drop_last())
    } else {
        0
    }
}

pub proof fn lemma_trailing_ws(l: Seq<char>)
    ensures
        0 <= trailing_ws(l) <= l.len(),
        forall|j: int| l.len() - trailing_ws(l) <= j < l.len() ==> is_space(l[j]),
        trailing_ws(l) < l.len() ==> !is_space(l[l.len() - trailing_ws(l) - 1]),
    decreases l,
{
    if l.len() > 0 && is_space(l.last()) {
        lemma_trailing_ws(l.drop_last());
        assert forall|j: int| l.len() - trailing_ws(l) <= j < l.len() implies is_space(l[j]) by {
            if j < l.len() - 1 {
                assert(l[j] == l.drop_last()[j]);
            }
        }
    }
}

pub proof fn lemma_trailing_ws_is(l: Seq<char>, k: int)
    requires
        0 <= k <= l.len(),
        forall|j: int| k <= j < l.len() ==> is_space(l[j]),
        k > 0 ==> !is_space(l[k - 1]),
    ensures
        trailing_ws(l) == l.len() - k,
    decreases l,
{
    if l.len() > 0 && is_space(l.last()) {
        let k2: int = if k == l.len() {
            k - 1
        } else {
            k
        };
        assert forall|j: int| k2 <= j < l.drop_last().len() implies is_space(l.drop_last()[j]) by {
            assert(l.drop_last()[j] == l[j]);
        }
        lemma_trailing_ws_is(l.drop_last(), k2);
    }
}

/// One line after position-dependent trimming: the first line keeps its
/// start, the last line keeps its end.
pub open spec fn trim_line(l: Seq<char>, first: bool, last: bool) -> Seq<char> {
    let a = if first {
        l
    } else {
        l.skip(leading_ws(l))
    };
    if last {
        a
    } else {
        a.take(a.len() - trailing_ws(a))
    }
}

/// All lines trimmed according to their positions.
pub open spec fn trimmed_lines(ls: Seq<Seq<char>>) -> Seq<Seq<char>> {
    ls.map(|i: int, l: Seq<char>| trim_line(l, i == 0, i == ls.len() - 1))
}

/// Appending one line: exactly one space separates a non-empty accumulated
/// result from a non-empty line; empty lines contribute nothing but also no
/// separator.
pub open spec fn append_line(acc: Seq<char>, l: Seq<char>) -> Seq<char> {
    if acc.len() > 0 && l.len() > 0 {
        acc + seq![' '] + l
    } else {
        acc + l
    }
}

pub open spec fn join_acc(ls: Seq<Seq<char>>, acc: Seq<char>) -> Seq<char>
    decreases ls,
{
    if ls.len() == 0 {
        acc
    } else {
        join_acc(ls.drop_first(), append_line(acc, ls[0]))
    }
}

/// The normalized form of JSX text.
pub open spec fn normalize_text(s: Seq<char>) -> Seq<char> {
    join_acc(trimmed_lines(lines_of(detab(s))), Seq::empty())
}

fn detab_str(s: &str) -> (r: String)
    ensures
        r@ == detab(s@),
{
    let n = s.unicode_len();
    let mut r = String::new();
    let mut i: usize = 0;
    while i < n
        invariant
            n == s@.len(),
            i <= n,
            r@ =~= detab(s@).take(i as int),
        decreases n - i,
    {
        if s.get_char(i) == '\t' {
            push_space(&mut r);
        } else {
            push_char_from(&mut r, s, i);
        }
        proof {
            assert(r@ =~= detab(s@).take(i as int + 1));
        }
        i = i + 1;
    }
    proof {
        assert(detab(s@).take(n as int) =~= detab(s@));
    }
    r
}

/// Views of a list of owned lines.
pub open spec fn lines_view(v: Seq<String>) -> Seq<Seq<char>> {
    v.map_values(|l: String| l@)
}

fn split_lines(t: &str) -> (r: Vec<String>)
    ensures
        lines_view(r@) == lines_of(t@),
    decreases t@.len(),
{
    let n = t.unicode_len();
    if n == 0 {
        let r: Vec<String> = Vec::new();
        proof {
            assert(lines_view(r@) =~= lines_of(t@));
        }
        return r;
    }
    let mut i: usize = 0;
    while i < n && t.get_char(i) != '\n'
        invariant
            n == t@.len(),
            i <= n,
            forall|j: int| 0 <= j < i ==> t@[j] != '\n',
        decreases n - i,
    {
        i = i + 1;
    }
    proof {
        lemma_first_nl_is(t@, i as int);
    }
    if i == n {
        let mut r: Vec<String> = Vec::new();
        r.push(t.to_owned());
        proof {
            assert(lines_view(r@) =~= seq![t@]);
        }
        return r;
    }
    let head_end: usize = if i > 0 && t.get_char(i - 1) == '\r' {
        i - 1
    } else {
        i
    };
    let head = t.substring_char(0, head_end);
    let tail = t.substring_char(i + 1, n);
    proof {
        let tk = t@.take(i as int);
        if i > 0 {
            assert(tk.last() == t@[i as int - 1]);
        }
        if head_end < i {
            assert(tk.drop_last() =~= t@.subrange(0, head_end as int));
        }
        assert(strip_cr(tk) =~= t@.subrange(0, head_end as int));
        assert(tail@ == t@.skip(i as int + 1));
    }
    let mut rest = split_lines(tail);
    let mut r: Vec<String> = Vec::new();
    r.push(head.to_owned());
    r.append(&mut rest);
    proof {
        assert(lines_view(r@) =~= seq![strip_cr(t@.take(i as int))] + lines_of(t@.skip(
            i as int + 1,
        )));
    }
    r
}


fn trim_line_str(l: &str, first: bool, last: bool) -> (r: String)
    ensures
        r@ == trim_line(l@, first, last),
{
    let n = l.unicode_len();
    let mut start: usize = 0;
    if !first {
        while start < n && char_is_space(l.get_char(start))
            invariant
                n == l@.len(),
                start <= n,
                forall|j: int| 0 <= j < start ==> is_space(l@[j]),
            decreases n - start,
        {
            start = start + 1;
        }
        proof {
            lemma_leading_ws_is(l@, start as int);
        }
    }
    let mut end: usize = n;
    if !last {
        while end > start && char_is_space(l.get_char(end - 1))
            invariant
                n == l@.len(),
                start <= end <= n,
                forall|j: int| end <= j < n ==> is_space(l@[j]),
            decreases end,
        {
            end = end - 1;
        }
    }
    let piece = l.substring_char(start, end);
    let r = piece.to_owned();
    proof {
        let a = if first {
            l@
        } else {
            l@.skip(start as int)
        };
        assert(a =~= l@.subrange(start as int, n as int));
        if !last {
            assert forall|j: int| end - start <= j < a.len() implies is_space(a[j]) by {
                assert(a[j] == l@[start + j]);
            }
            if end > start {
                assert(!is_space(a[end - start - 1]));
            }
            lemma_trailing_ws_is(a, end as int - start as int);
            assert(a.take(a.len() - trailing_ws(a)) =~= l@.subrange(start as int, end as int));
        }
        assert(r@ == trim_line(l@, first, last));
    }
    r
}

fn join_lines(lines: &Vec<String>) -> (r: String)
    ensures
        r@ == join_acc(lines_view(lines@), Seq::empty()),
{
    let n = lines.len();
    let ghost lv = lines_view(lines@);
    let mut out = String::new();
    let mut i: usize = 0;
    proof {
        assert(lv.skip(0) =~= lv);
    }
    while i < n
        invariant
            n == lines@.len(),
            i <= n,
            lv == lines_view(lines@),
            lv.len() == n,
            join_acc(lv, Seq::empty()) == join_acc(lv.skip(i as int), out@),
        decreases n - i,
    {
        proof {
            assert(lv.skip(i as int)[0] == lines@[i as int]@);
            assert(lv.skip(i as int).drop_first() =~= lv.skip(i as int + 1));
        }
        let ghost out0 = out@;
        let line = &lines[i];
        if out.unicode_len() > 0 && line.as_str().unicode_len() > 0 {
            push_space(&mut out);
            out.append(line.as_str());
            proof {
                assert(out@ =~= append_line(out0, lv.skip(i as int)[0]));
            }
        } else {
            out.append(line.as_str());
            proof {
                assert(out@ =~= append_line(out0, lv.skip(i as int)[0]));
            }
        }
        i = i + 1;
    }
    proof {
        assert(lv.skip(n as int) =~= Seq::<Seq<char>>::empty());
    }
    out
}

/// Collapses raw JSX text to its normalized single-line form: tabs become
/// spaces, every line but the first is trimmed at its start, every line but
/// the last is trimmed at its end, and non-empty lines are joined with single
/// spaces, so interior blank lines collapse away while the text's true
/// boundary white space is preserved.
pub fn jsx_text_to_string(atom: &str) -> (res: String)
    ensures
        res@ == normalize_text(atom@),
{
    let content = detab_str(atom);
    let lines = split_lines(content.as_str());
    let n = lines.len();
    let ghost lv = lines_view(lines@);
    let mut trimmed: Vec<String> = Vec::new();
    let mut i: usize = 0;
    while i < n
        invariant
            n == lines@.len(),
            lv == lines_view(lines@),
            lv.len() == n,
            i <= n,
            lines_view(trimmed@) =~= trimmed_lines(lv).take(i as int),
        decreases n - i,
    {
        let is_first = i == 0;
        let is_last = i + 1 == n;
        let ghost tr0 = trimmed@;
        let t = trim_line_str(lines[i].as_str(), is_first, is_last);
        trimmed.push(t);
        proof {
            assert(lv[i as int] == lines@[i as int]@);
            assert(t@ == trim_line(lv[i as int], is_first, is_last));
            assert(lines_view(tr0).len() == tr0.len());
            assert(trimmed_lines(lv).len() == lv.len());
            assert(tr0.len() == i);
            assert(trimmed@ =~= tr0.push(t));
            assert forall|k: int| 0 <= k < i + 1 implies lines_view(trimmed@)[k] == trimmed_lines(
                lv,
            ).take(i as int + 1)[k] by {
                assert(trimmed_lines(lv)[k] == trim_line(lv[k], k == 0, k == lv.len() - 1));
                if k < i {
                    assert(lines_view(trimmed@)[k] == trimmed@[k]@);
                    assert(trimmed@[k] == tr0[k]);
                    assert(lines_view(tr0)[k] == trimmed_lines(lv).take(i as int)[k]);
                } else {
                    assert(trimmed@[k] == t);
                }
            }
            assert(lines_view(trimmed@) =~= trimmed_lines(lv).take(i as int + 1));
        }
        i = i + 1;
    }
    proof {
        assert(trimmed_lines(lv).take(n as int) =~= trimmed_lines(lv));
        assert(lines_view(trimmed@) =~= trimmed_lines(lines_of(detab(atom@))));
    }
    join_lines(&trimmed)
}


/// `n` spaces.
pub open spec fn spaces(n: nat) -> Seq<char>
    decreases n,
{
    if n == 0 {
        Seq::empty()
    } else {
        spaces((n - 1) as nat).push(' ')
    }
}

pub open spec fn add_spaces_rec(lines: Seq<Seq<char>>, count: nat) -> Seq<char>
    decreases lines,
{
    if lines.len() == 0 {
        Seq::empty()
    } else {
        spaces(count) + lines[0] + seq!['\n'] + add_spaces_rec(lines.drop_first(), count)
    }
}

/// Every line of the input indented by `count` spaces, each line closed with
/// a line feed.
pub open spec fn spec_add_spaces(s: Seq<char>, count: nat) -> Seq<char> {
    add_spaces_rec(lines_of(s), count)
}

fn make_spaces(count: usize) -> (r: String)
    ensures
        r@ == spaces(count as nat),
{
    let mut r = String::new();
    let mut i: usize = 0;
    while i < count
        invariant
            i <= count,
            r@ =~= spaces(i as nat),
        decreases count - i,
    {
        push_space(&mut r);
        i = i + 1;
    }
    r
}

/// Indents every line of the input by `count` spaces and closes each line
/// with a line feed.
pub fn add_spaces_to_lines_with_count(input: &str, count: usize) -> (result: String)
    ensures
        result@ == spec_add_spaces(input@, count as nat),
{
    proof {
        reveal_strlit("\n");
    }
    let pad = make_spaces(count);
    let lines = split_lines(input);
    let ghost lv = lines_view(lines@);
    let n = lines.len();
    let mut result = String::new();
    let mut i: usize = 0;
    proof {
        assert(lv.skip(0) =~= lv);
    }
    while i < n
        invariant
            n == lines@.len(),
            lv == lines_view(lines@),
            lv.len() == n,
            i <= n,
            pad@ == spaces(count as nat),
            spec_add_spaces(input@, count as nat) == result@ + add_spaces_rec(
                lv.skip(i as int),
                count as nat,
            ),
        decreases n - i,
    {
        proof {
            assert(lv.skip(i as int)[0] == lines@[i as int]@);
            assert(lv.skip(i as int).drop_first() =~= lv.skip(i as int + 1));
        }
        let ghost r0 = result@;
        result.append(pad.as_str());
        result.append(lines[i].as_str());
        result.append("\n");
        proof {
            reveal_strlit("\n");
            assert(result@ =~= r0 + (spaces(count as nat) + lv.skip(i as int)[0] + seq!['\n']));
            assert(result@ + add_spaces_rec(lv.skip(i as int + 1), count as nat) =~= r0
                + add_spaces_rec(lv.skip(i as int), count as nat));
        }
        i = i + 1;
    }
    proof {
        assert(lv.skip(n as int) =~= Seq::<Seq<char>>::empty());
        assert(result@ + Seq::<char>::empty() =~= result@);
    }
    result
}

/// Indents every line by the default two spaces.
pub fn add_spaces_to_lines(input: &str) -> (result: String)
    ensures
        result@ == spec_add_spaces(input@, 2),
{
    add_spaces_to_lines_with_count(input, 2)
}

/// Wraps a value in template interpolation braces.
pub fn gen_template(val: &str) -> (r: String)
    ensures
        r@ == "{{"@ + val@ + "}}"@,
{
    let mut r = String::new();
    r.append("{{");
    r.append(val);
    r.append("}}");
    r
}

/// The interpolation that reads a dynamic node's value field at runtime.
pub fn gen_template_v(node_path: &str) -> (r: String)
    ensures
        r@ == "{{"@ + node_path@ + ".v}}"@,
{
    let mut r = String::new();
    r.append("{{");
    r.append(node_path);
    r.append(".v}}");
    r
}

/// No line feed and no tab anywhere in the sequence.
pub open spec fn no_nl_tab(s: Seq<char>) -> bool {
    forall|i: int| 0 <= i < s.len() ==> s[i] != '\n' && s[i] != '\t'
}

proof fn lemma_detab_id(s: Seq<char>)
    requires
        forall|i: int| 0 <= i < s.len() ==> s[i] != '\t',
    ensures
        detab(s) == s,
{
    assert(detab(s) =~= s);
}

proof fn lemma_lines_no_nl_tab(t: Seq<char>)
    requires
        forall|i: int| 0 <= i < t.len() ==> t[i] != '\t',
    ensures
        forall|i: int| 0 <= i < lines_of(t).len() ==> no_nl_tab(#[trigger] lines_of(t)[i]),
    decreases t.len(),
{
    lemma_first_nl(t);
    if t.len() > 0 {
        let k = first_nl(t);
        if k == t.len() {
            assert(no_nl_tab(lines_of(t)[0]));
        } else {
            let tail = t.skip(k + 1);
            assert forall|i: int| 0 <= i < tail.len() implies tail[i] != '\t' by {
                assert(tail[i] == t[k + 1 + i]);
            }
            lemma_lines_no_nl_tab(tail);
            let head = strip_cr(t.take(k));
            assert(no_nl_tab(head)) by {
                assert forall|j: int| 0 <= j < head.len() implies head[j] != '\n' && head[j] != '\t'
                    by {
                    assert(head[j] == t[j]);
                }
            }
            assert forall|i: int| 0 <= i < lines_of(t).len() implies no_nl_tab(
                #[trigger] lines_of(t)[i],
            ) by {
                if i > 0 {
                    assert(lines_of(t)[i] == lines_of(tail)[i - 1]);
                }
            }
        }
    }
}

proof fn lemma_trim_no_nl_tab(l: Seq<char>, first: bool, last: bool)
    requires
        no_nl_tab(l),
    ensures
        no_nl_tab(trim_line(l, first, last)),
{
    lemma_leading_ws(l);
    let a = if first {
        l
    } else {
        l.skip(leading_ws(l))
    };
    assert(no_nl_tab(a)) by {
        assert forall|j: int| 0 <= j < a.len() implies a[j] != '\n' && a[j] != '\t' by {
            if !first {
                assert(a[j] == l[leading_ws(l) + j]);
            }
        }
    }
    lemma_trailing_ws(a);
    let b = a.take(a.len() - trailing_ws(a));
    assert(no_nl_tab(b)) by {
        assert forall|j: int| 0 <= j < b.len() implies b[j] != '\n' && b[j] != '\t' by {
            assert(b[j] == a[j]);
        }
    }
}

proof fn lemma_join_no_nl_tab(ls: Seq<Seq<char>>, acc: Seq<char>)
    requires
        no_nl_tab(acc),
        forall|i: int| 0 <= i < ls.len() ==> no_nl_tab(#[trigger] ls[i]),
    ensures
        no_nl_tab(join_acc(ls, acc)),
    decreases ls,
{
    if ls.len() > 0 {
        let acc2 = append_line(acc, ls[0]);
        assert(no_nl_tab(acc2)) by {
            assert forall|j: int| 0 <= j < acc2.len() implies acc2[j] != '\n' && acc2[j] != '\t'
                by {
                assert(no_nl_tab(ls[0]));
            }
        }
        assert forall|i: int| 0 <= i < ls.drop_first().len() implies no_nl_tab(
            #[trigger] ls.drop_first()[i],
        ) by {
            assert(ls.drop_first()[i] == ls[i + 1]);
        }
        lemma_join_no_nl_tab(ls.drop_first(), acc2);
    }
}

/// The normalized form of any text holds no line feed and no tab.
pub proof fn lemma_normalize_no_nl_tab(s: Seq<char>)
    ensures
        no_nl_tab(normalize_text(s)),
{
    let t = detab(s);
    assert(forall|i: int| 0 <= i < t.len() ==> t[i] != '\t');
    lemma_lines_no_nl_tab(t);
    let ls = lines_of(t);
    let tls = trimmed_lines(ls);
    assert forall|i: int| 0 <= i < tls.len() implies no_nl_tab(#[trigger] tls[i]) by {
        assert(tls[i] == trim_line(ls[i], i == 0, i == ls.len() - 1));
        lemma_trim_no_nl_tab(ls[i], i == 0, i == ls.len() - 1);
    }
    lemma_join_no_nl_tab(tls, Seq::empty());
}

proof fn lemma_normalize_plain(u: Seq<char>)
    requires
        u.len() > 0,
        no_nl_tab(u),
    ensures
        normalize_text(u) == u,
{
    lemma_detab_id(u);
    lemma_first_nl_is(u, u.len() as int);
    assert(lines_of(u) == seq![u]);
    let tls = trimmed_lines(seq![u]);
    assert(tls =~= seq![u]) by {
        assert(tls[0] == trim_line(u, true, true));
    }
    assert(join_acc(seq![u], Seq::empty()) == join_acc(
        seq![u].drop_first(),
        append_line(Seq::empty(), u),
    ));
    assert(seq![u].drop_first() =~= Seq::<Seq<char>>::empty());
    assert(append_line(Seq::empty(), u) =~= u);
    assert(normalize_text(u) == u);
}

/// Law: text normalization is idempotent; normalizing an already-normalized
/// string returns it unchanged.
pub proof fn lemma_normalize_idempotent(s: Seq<char>)
    ensures
        normalize_text(normalize_text(s)) == normalize_text(s),
{
    lemma_normalize_no_nl_tab(s);
    let u = normalize_text(s);
    if u.len() == 0 {
        assert(detab(u) =~= Seq::<char>::empty());
        assert(lines_of(detab(u)) == Seq::<Seq<char>>::empty());
        assert(trimmed_lines(Seq::<Seq<char>>::empty()) =~= Seq::<Seq<char>>::empty());
        assert(normalize_text(u) =~= u);
    } else {
        lemma_normalize_plain(u);
    }
}

} // verus!
