//! Selecting help lines for a queried command.
//!
//! The help text is a line-per-command file whose lines carry the command
//! word, a `>` mark, and a description. A query selects the lines whose
//! command part contains the query, matched without regard to ASCII case.

use vstd::prelude::*;
use vstd::string::StrSliceExecFns;
use crate::parser::is_blank;
use crate::text::push_char;

verus! {

/// The character's code point, with an upper-case letter folded to its
/// lower-case counterpart.
pub open spec fn folded(c: char) -> int {
    if 'A' <= c <= 'Z' {
        (c as u32) + 32
    } else {
        c as int
    }
}

fn fold_eq(a: char, b: char) -> (r: bool)
    ensures
        r == (folded(a) == folded(b)),
{
    let fa: u32 = if 'A' <= a && a <= 'Z' {
        a as u32 + 32
    } else {
        a as u32
    };
    let fb: u32 = if 'A' <= b && b <= 'Z' {
        b as u32 + 32
    } else {
        b as u32
    };
    fa == fb
}

/// `needle` occurs in `hay` starting at `k`, without regard to case.
pub open spec fn occurs_at(hay: Seq<char>, needle: Seq<char>, k: int) -> bool {
    &&& 0 <= k
    &&& k + needle.len() <= hay.len()
    &&& forall|j: int| 0 <= j < needle.len() ==> folded(hay[k + j]) == folded(#[trigger] needle[j])
}

/// `needle` occurs somewhere in `hay`, without regard to case.
pub open spec fn contains_folded(hay: Seq<char>, needle: Seq<char>) -> bool {
    exists|k: int| #[trigger] occurs_at(hay, needle, k)
}

fn occurs_at_exec(hay: &Vec<char>, needle: &Vec<char>, k: usize) -> (r: bool)
    requires
        k + needle@.len() <= hay@.len(),
    ensures
        r == occurs_at(hay@, needle@, k as int),
{
    let hay_len = hay.len();
    let mut j: usize = 0;
    while j < needle.len()
        invariant
            j <= needle@.len(),
            hay_len == hay@.len(),
            k + needle@.len() <= hay_len,
            forall|i: int| 0 <= i < j ==> folded(hay@[k + i]) == folded(#[trigger] needle@[i]),
        decreases needle@.len() - j,
    {
        if !fold_eq(hay[k + j], needle[j]) {
            return false;
        }
        j = j + 1;
    }
    true
}

fn contains_folded_exec(hay: &Vec<char>, needle: &Vec<char>) -> (r: bool)
    ensures
        r == contains_folded(hay@, needle@),
{
    if needle.len() > hay.len() {
        proof {
            assert(forall|k: int| !occurs_at(hay@, needle@, k));
        }
        return false;
    }
    if needle.len() == 0 {
        proof {
            assert(occurs_at(hay@, needle@, 0));
        }
        return true;
    }
    let last = hay.len() - needle.len();
    let mut k: usize = 0;
    while k <= last
        invariant
            1 <= needle@.len() <= hay@.len(),
            last == hay@.len() - needle@.len(),
            last < usize::MAX,
            k <= last + 1,
            forall|i: int| 0 <= i < k ==> !#[trigger] occurs_at(hay@, needle@, i),
        decreases last + 1 - k,
    {
        if occurs_at_exec(hay, needle, k) {
            return true;
        }
        k = k + 1;
    }
    proof {
        assert forall|i: int| !#[trigger] occurs_at(hay@, needle@, i) by {
            if occurs_at(hay@, needle@, i) {
                assert(0 <= i <= last);
            }
        }
    }
    false
}

/// The characters of a string, for indexed scanning.
fn chars_of(s: &str) -> (r: Vec<char>)
    ensures
        r@ == s@,
{
    let n = s.unicode_len();
    let mut out: Vec<char> = Vec::new();
    let mut i: usize = 0;
    while i < n
        invariant
            i <= n,
            n == s@.len(),
            out@ == s@.take(i as int),
        decreases n - i,
    {
        out.push(s.get_char(i));
        proof {
            assert(out@ =~= s@.take(i + 1));
        }
        i = i + 1;
    }
    proof {
        assert(s@.take(n as int) =~= s@);
    }
    out
}

/// The position of the first `>` in the line, or its length when none.
pub open spec fn mark_from(line: Seq<char>, i: int) -> int
    decreases line.len() - i,
    when 0 <= i <= line.len()
{
    if i >= line.len() {
        i
    } else if line[i] == '>' {
        i
    } else {
        mark_from(line, i + 1)
    }
}

/// The command part of a help line: what stands before the first `>`,
/// blanks stripped from both ends.
pub open spec fn command_part(line: Seq<char>) -> Seq<char> {
    trim_blanks(line.take(mark_from(line, 0)))
}

/// The sequence with leading and trailing blanks stripped.
pub open spec fn trim_blanks(s: Seq<char>) -> Seq<char>
    decreases s.len(),
{
    if s.len() > 0 && is_blank(s[0]) {
        trim_blanks(s.drop_first())
    } else if s.len() > 0 && is_blank(s.last()) {
        trim_blanks(s.drop_last())
    } else {
        s
    }
}

/// A help line answers the query when it carries a `>` mark and its command
/// part contains the query, matched without regard to case.
pub open spec fn line_matches(line: Seq<char>, query: Seq<char>) -> bool {
    mark_from(line, 0) < line.len() && contains_folded(command_part(line), query)
}

proof fn lemma_mark_from(line: Seq<char>, i: int)
    requires
        0 <= i <= line.len(),
    ensures
        i <= mark_from(line, i) <= line.len(),
    decreases line.len() - i,
{
    if i < line.len() && line[i] != '>' {
        lemma_mark_from(line, i + 1);
    }
}

fn line_matches_exec(line: &Vec<char>, query: &Vec<char>) -> (r: bool)
    ensures
        r == line_matches(line@, query@),
{
    let n = line.len();
    let mut m: usize = 0;
    while m < n && line[m] != '>'
        invariant
            m <= n,
            n == line@.len(),
            mark_from(line@, 0) == mark_from(line@, m as int),
        decreases n - m,
    {
        m = m + 1;
    }
    proof {
        lemma_mark_from(line@, 0);
        assert(mark_from(line@, 0) == m as int);
    }
    if m >= n {
        return false;
    }
    // trim the blanks off the command part
    let mut lo: usize = 0;
    let mut hi: usize = m;
    let ghost head = line@.take(m as int);
    proof {
        assert(head.subrange(0, m as int) =~= head);
    }
    while lo < hi && (is_blank_exec(line[lo]) || is_blank_exec(line[hi - 1]))
        invariant
            0 <= lo <= hi <= m <= line@.len(),
            head == line@.take(m as int),
            trim_blanks(head) == trim_blanks(head.subrange(lo as int, hi as int)),
        decreases hi - lo,
    {
        if is_blank_exec(line[lo]) {
            proof {
                let cur = head.subrange(lo as int, hi as int);
                assert(cur.drop_first() =~= head.subrange(lo + 1, hi as int));
            }
            lo = lo + 1;
        } else {
            proof {
                let cur = head.subrange(lo as int, hi as int);
                assert(cur.drop_last() =~= head.subrange(lo as int, hi - 1));
            }
            hi = hi - 1;
        }
    }
    proof {
        let cur = head.subrange(lo as int, hi as int);
        assert(trim_blanks(cur) == cur);
        assert(command_part(line@) == cur);
    }
    let mut part: Vec<char> = Vec::new();
    let mut i = lo;
    proof {
        assert(part@ =~= line@.take(m as int).subrange(lo as int, lo as int));
    }
    while i < hi
        invariant
            lo <= i <= hi <= m <= line@.len(),
            part@ == line@.take(m as int).subrange(lo as int, i as int),
        decreases hi - i,
    {
        part.push(line[i]);
        proof {
            assert(part@ =~= line@.take(m as int).subrange(lo as int, i + 1));
        }
        i = i + 1;
    }
    contains_folded_exec(&part, query)
}

fn is_blank_exec(c: char) -> (r: bool)
    ensures
        r == is_blank(c),
{
    c == ' ' || c == '\t' || c == '\n' || c == '\r'
}

#[via_fn]
proof fn lines_from_dec(s: Seq<char>, i: int) {
    lemma_line_len_from(s, i);
}

/// The lines of a text, split at newlines; a final newline closes the last
/// line rather than opening an empty one.
pub open spec fn lines_from(s: Seq<char>, i: int) -> Seq<Seq<char>>
    decreases s.len() - i,
    when 0 <= i <= s.len()
    via lines_from_dec
{
    if i >= s.len() {
        Seq::empty()
    } else {
        let l = line_len_from(s, i);
        if i + l >= s.len() {
            seq![s.subrange(i, i + l)]
        } else {
            seq![s.subrange(i, i + l)] + lines_from(s, i + l + 1)
        }
    }
}

/// The length of the line starting at `i`: the run up to a newline.
pub open spec fn line_len_from(s: Seq<char>, i: int) -> int
    decreases s.len() - i,
    when 0 <= i <= s.len()
{
    if i >= s.len() || s[i] == '\n' {
        0
    } else {
        1 + line_len_from(s, i + 1)
    }
}

/// The lines of a text.
pub open spec fn lines_of(s: Seq<char>) -> Seq<Seq<char>> {
    lines_from(s, 0)
}

proof fn lemma_line_len_from(s: Seq<char>, i: int)
    requires
        0 <= i <= s.len(),
    ensures
        0 <= line_len_from(s, i) <= s.len() - i,
    decreases s.len() - i,
{
    if i < s.len() && s[i] != '\n' {
        lemma_line_len_from(s, i + 1);
    }
}

proof fn lemma_line_len_range(s: Seq<char>, i: int, j: int)
    requires
        0 <= i <= j <= s.len(),
        forall|k: int| i <= k < j ==> s[k] != '\n',
        j == s.len() || s[j] == '\n',
    ensures
        line_len_from(s, i) == j - i,
    decreases j - i,
{
    if i < j {
        lemma_line_len_range(s, i + 1, j);
    }
}

/// Splits a text into its lines.
fn split_lines(s: &str) -> (r: Vec<Vec<char>>)
    ensures
        r@.map_values(|l: Vec<char>| l@) == lines_of(s@),
{
    let n = s.unicode_len();
    let mut out: Vec<Vec<char>> = Vec::new();
    let mut i: usize = 0;
    proof {
        assert(out@.map_values(|l: Vec<char>| l@) =~= Seq::<Seq<char>>::empty());
    }
    while i < n
        invariant
            i <= n,
            n == s@.len(),
            lines_of(s@) == out@.map_values(|l: Vec<char>| l@) + lines_from(s@, i as int),
        decreases n - i,
    {
        let ghost pre = out@.map_values(|l: Vec<char>| l@);
        let mut cur: Vec<char> = Vec::new();
        let mut j = i;
        while j < n && s.get_char(j) != '\n'
            invariant
                i <= j <= n,
                n == s@.len(),
                cur@ == s@.subrange(i as int, j as int),
                forall|k: int| i <= k < j ==> s@[k] != '\n',
            decreases n - j,
        {
            cur.push(s.get_char(j));
            proof {
                assert(cur@ =~= s@.subrange(i as int, j + 1));
            }
            j = j + 1;
        }
        proof {
            lemma_line_len_range(s@, i as int, j as int);
        }
        out.push(cur);
        proof {
            assert(out@.map_values(|l: Vec<char>| l@) =~= pre.push(s@.subrange(
                i as int,
                j as int,
            )));
            if (j as int) + 1 <= s@.len() {
                assert(pre.push(s@.subrange(i as int, j as int)) + lines_from(s@, j + 1)
                    =~= pre + lines_from(s@, i as int));
            } else {
                assert(pre.push(s@.subrange(i as int, j as int)) =~= pre + lines_from(
                    s@,
                    i as int,
                ));
            }
        }
        if j >= n {
            proof {
                assert(out@.map_values(|l: Vec<char>| l@) =~= lines_of(s@));
            }
            return out;
        }
        i = j + 1;
    }
    proof {
        assert(out@.map_values(|l: Vec<char>| l@) + lines_from(s@, i as int) =~= out@.map_values(
            |l: Vec<char>| l@,
        ));
    }
    out
}

/// The matching lines joined by newlines.
pub open spec fn joined_lines(ls: Seq<Seq<char>>) -> Seq<char>
    decreases ls.len(),
{
    if ls.len() == 0 {
        Seq::empty()
    } else if ls.len() == 1 {
        ls[0]
    } else {
        joined_lines(ls.drop_last()) + "\n"@ + ls.last()
    }
}

proof fn lemma_joined_lines_push(ls: Seq<Seq<char>>, l: Seq<char>)
    ensures
        joined_lines(ls.push(l)) == if ls.len() == 0 {
            l
        } else {
            joined_lines(ls) + "\n"@ + l
        },
{
    assert(ls.push(l).drop_last() =~= ls);
    assert(ls.push(l).last() == l);
    if ls.len() == 0 {
        assert(ls.push(l)[0] == l);
    }
}

/// Selects the help lines whose command part contains the query, without
/// regard to ASCII case, joined by newlines; none matching is reported as
/// such.
pub fn filter_help(text: &str, query: &str) -> (r: Option<String>)
    ensures
        ({
            let matched = lines_of(text@).filter(|l: Seq<char>| line_matches(l, query@));
            match r {
                Some(s) => matched.len() > 0 && s@ == joined_lines(matched),
                None => matched.len() == 0,
            }
        }),
{
    let lines = split_lines(text);
    let needle = chars_of(query);
    let ghost all = lines@.map_values(|l: Vec<char>| l@);
    let ghost pred = |l: Seq<char>| line_matches(l, query@);
    let mut out = String::new();
    let mut matched: usize = 0;
    let mut i: usize = 0;
    proof {
        reveal(Seq::filter);
        assert(all.take(0).filter(pred) =~= Seq::<Seq<char>>::empty());
    }
    while i < lines.len()
        invariant
            i <= lines.len(),
            all == lines@.map_values(|l: Vec<char>| l@),
            all.len() == lines@.len(),
            needle@ == query@,
            pred == (|l: Seq<char>| line_matches(l, query@)),
            matched == all.take(i as int).filter(pred).len(),
            out@ == joined_lines(all.take(i as int).filter(pred)),
        decreases lines.len() - i,
    {
        let line = &lines[i];
        let is_match = line_matches_exec(line, &needle);
        proof {
            assert(all[i as int] == line@);
            assert(all.take(i + 1) =~= all.take(i as int).push(all[i as int]));
            reveal(Seq::filter);
            assert(all.take(i as int).push(all[i as int]).drop_last() =~= all.take(i as int));
        }
        if is_match {
            if matched > 0 {
                out.append("\n");
            }
            let mut rendered = String::new();
            let mut j: usize = 0;
            while j < line.len()
                invariant
                    j <= line@.len(),
                    rendered@ == line@.take(j as int),
                decreases line@.len() - j,
            {
                push_char(&mut rendered, line[j]);
                proof {
                    assert(rendered@ =~= line@.take(j + 1));
                }
                j = j + 1;
            }
            proof {
                assert(line@.take(line@.len() as int) =~= line@);
            }
            out.append(rendered.as_str());
            proof {
                lemma_joined_lines_push(all.take(i as int).filter(pred), line@);
                all.take(i as int).lemma_filter_len(pred);
            }
            matched = matched + 1;
        }
        i = i + 1;
    }
    proof {
        assert(all.take(all.len() as int) =~= all);
    }
    if matched == 0 {
        None
    } else {
        Some(out)
    }
}

} // verus!
