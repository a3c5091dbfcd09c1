//! Text files as sequences of lines: splitting as `str::lines` does, and
//! writing lines back joined by newlines.

use vstd::prelude::*;
use crate::text::{chars_of, string_of, append_str};

verus! {

/// A line without a final carriage return, if it has one.
pub open spec fn strip_cr(line: Seq<char>) -> Seq<char> {
    if line.len() > 0 && line.last() == '\r' {
        line.drop_last()
    } else {
        line
    }
}

/// Reading `s` from the start: the lines that a newline has already ended
/// (each without its `"\n"` or `"\r\n"`), and the characters read since the
/// last newline.
pub open spec fn scan_lines(s: Seq<char>) -> (Seq<Seq<char>>, Seq<char>)
    decreases s.len(),
{
    if s.len() == 0 {
        (seq![], seq![])
    } else {
        let (done, tail) = scan_lines(s.drop_last());
        if s.last() == '\n' {
            (done.push(strip_cr(tail)), seq![])
        } else {
            (done, tail.push(s.last()))
        }
    }
}

/// The lines of `s`, as `str::lines` yields them: split at each `"\n"`,
/// a `"\r"` before the `"\n"` dropped, and no empty line after a final
/// newline.
pub open spec fn lines_of(s: Seq<char>) -> Seq<Seq<char>> {
    let (done, tail) = scan_lines(s);
    if tail.len() == 0 {
        done
    } else {
        done.push(tail)
    }
}

/// The lines joined by single newlines, as `[String]::join("\n")` gives them.
pub open spec fn join_lines(lines: Seq<Seq<char>>) -> Seq<char>
    decreases lines.len(),
{
    if lines.len() == 0 {
        seq![]
    } else if lines.len() == 1 {
        lines[0]
    } else {
        join_lines(lines.drop_last()) + seq!['\n'] + lines.last()
    }
}

/// The text of a file that holds `lines`: the lines joined by newlines,
/// and one newline more at the end.
pub open spec fn file_text(lines: Seq<Seq<char>>) -> Seq<char> {
    join_lines(lines).push('\n')
}

/// A line that reads back as itself: it holds no newline and does not end
/// in a carriage return.
pub open spec fn clean_line(line: Seq<char>) -> bool {
    &&& !line.contains('\n')
    &&& !(line.len() > 0 && line.last() == '\r')
}

/// Every line in `lines` is clean.
pub open spec fn all_clean(lines: Seq<Seq<char>>) -> bool {
    forall|i: int| 0 <= i < lines.len() ==> clean_line(#[trigger] lines[i])
}

/// Splits `text` into its lines.
pub fn split_lines(text: &str) -> (lines: Vec<String>)
    ensures
        lines.deep_view() == lines_of(text@),
{
    let v = chars_of(text);
    let mut lines: Vec<String> = Vec::new();
    let mut cur: Vec<char> = Vec::new();
    let mut i: usize = 0;
    while i < v.len()
        invariant
            i <= v.len(),
            v@ == text@,
            scan_lines(v@.subrange(0, i as int)) == (lines.deep_view(), cur@),
        decreases v.len() - i,
    {
        let c = v[i];
        assert(v@.subrange(0, i + 1).drop_last() =~= v@.subrange(0, i as int));
        let ghost before = lines.deep_view();
        if c == '\n' {
            if cur.len() > 0 && cur[cur.len() - 1] == '\r' {
                cur.pop();
            }
            let line = string_of(&cur);
            lines.push(line);
            assert(lines.deep_view() =~= before.push(line@));
            cur = Vec::new();
        } else {
            cur.push(c);
        }
        i = i + 1;
    }
    assert(v@.subrange(0, v@.len() as int) =~= v@);
    if cur.len() > 0 {
        let ghost before = lines.deep_view();
        let line = string_of(&cur);
        lines.push(line);
        assert(lines.deep_view() =~= before.push(line@));
    }
    lines
}

/// Joins `lines` with single newlines between them.
pub fn join_with_newlines(lines: &Vec<String>) -> (text: String)
    ensures
        text@ == join_lines(lines.deep_view()),
{
    let mut text = String::new();
    let mut i: usize = 0;
    while i < lines.len()
        invariant
            i <= lines.len(),
            text@ == join_lines(lines.deep_view().take(i as int)),
        decreases lines.len() - i,
    {
        let ghost prefix = lines.deep_view().take(i + 1);
        assert(prefix.drop_last() =~= lines.deep_view().take(i as int));
        if i > 0 {
            append_str(&mut text, "\n");
            proof {
                reveal_strlit("\n");
            }
        }
        append_str(&mut text, lines[i].as_str());
        assert(prefix.last() == lines[i as int]@);
        i = i + 1;
    }
    assert(lines.deep_view().take(lines.len() as int) =~= lines.deep_view());
    text
}

/// The text of a file that holds `lines`: `lines.join("\n") + "\n"`.
pub fn render_file(lines: &Vec<String>) -> (text: String)
    ensures
        text@ == file_text(lines.deep_view()),
{
    let mut text = join_with_newlines(lines);
    append_str(&mut text, "\n");
    proof {
        reveal_strlit("\n");
    }
    assert(text@ =~= join_lines(lines.deep_view()).push('\n'));
    text
}


/// Reading on past a point where no line is unfinished: the lines of the
/// second part follow those of the first.
pub proof fn lemma_scan_concat(p: Seq<char>, m: Seq<char>)
    requires
        scan_lines(p).1.len() == 0,
    ensures
        scan_lines(p + m) == (scan_lines(p).0 + scan_lines(m).0, scan_lines(m).1),
    decreases m.len(),
{
    if m.len() == 0 {
        assert(p + m =~= p);
        assert(scan_lines(p).0 + seq![] =~= scan_lines(p).0);
    } else {
        lemma_scan_concat(p, m.drop_last());
        assert((p + m).drop_last() =~= p + m.drop_last());
        let (d, _) = scan_lines(p);
        let (dm, tm) = scan_lines(m.drop_last());
        if m.last() == '\n' {
            assert((d + dm).push(strip_cr(tm)) =~= d + dm.push(strip_cr(tm)));
        }
    }
}

/// A text without newlines is one unfinished line.
pub proof fn lemma_scan_no_newline(t: Seq<char>)
    requires
        !t.contains('\n'),
    ensures
        scan_lines(t) == (Seq::<Seq<char>>::empty(), t),
    decreases t.len(),
{
    if t.len() > 0 {
        assert(t.drop_last().len() < t.len());
        assert(!t.drop_last().contains('\n')) by {
            if t.drop_last().contains('\n') {
                let k = choose|k: int| 0 <= k < t.drop_last().len() && t.drop_last()[k] == '\n';
                assert(t[k] == '\n');
            }
        }
        lemma_scan_no_newline(t.drop_last());
        assert(t[t.len() - 1] != '\n');
        assert(t.drop_last().push(t.last()) =~= t);
    }
}

/// A clean line followed by a newline reads as that one line.
pub proof fn lemma_scan_one_line(t: Seq<char>)
    requires
        clean_line(t),
    ensures
        scan_lines(t.push('\n')) == (seq![t], Seq::<char>::empty()),
{
    lemma_scan_no_newline(t);
    assert(t.push('\n').drop_last() =~= t);
    assert(Seq::<Seq<char>>::empty().push(t) =~= seq![t]);
}

/// A non-empty list of clean lines, joined: all lines but the last are
/// finished, the last is still open.
pub proof fn lemma_scan_join(lines: Seq<Seq<char>>)
    requires
        lines.len() > 0,
        all_clean(lines),
    ensures
        scan_lines(join_lines(lines)) == (lines.drop_last(), lines.last()),
    decreases lines.len(),
{
    if lines.len() == 1 {
        assert(clean_line(lines[0]));
        lemma_scan_no_newline(lines[0]);
        assert(lines.drop_last() =~= Seq::<Seq<char>>::empty());
    } else {
        let init = lines.drop_last();
        assert(all_clean(init)) by {
            assert forall|i: int| 0 <= i < init.len() implies clean_line(#[trigger] init[i]) by {
                assert(init[i] == lines[i]);
            }
        }
        lemma_scan_join(init);
        let head = join_lines(init).push('\n');
        assert(join_lines(init) + seq!['\n'] =~= head);
        assert(head.drop_last() =~= join_lines(init));
        assert(clean_line(init.last())) by {
            assert(init.last() == lines[lines.len() - 2]);
        }
        assert(strip_cr(init.last()) == init.last());
        assert(init.drop_last().push(init.last()) =~= init);
        assert(scan_lines(head) == (init, Seq::<char>::empty()));
        assert(clean_line(lines.last())) by {
            assert(lines.last() == lines[lines.len() - 1]);
        }
        lemma_scan_no_newline(lines.last());
        lemma_scan_concat(head, lines.last());
        assert(init + Seq::<Seq<char>>::empty() =~= init);
    }
}

/// Writing a non-empty list of clean lines to a file and reading the file
/// back gives the same lines.
pub proof fn law_read_back_written_lines(lines: Seq<Seq<char>>)
    requires
        lines.len() > 0,
        all_clean(lines),
    ensures
        lines_of(file_text(lines)) == lines,
{
    lemma_scan_join(lines);
    let t = join_lines(lines).push('\n');
    assert(t.drop_last() =~= join_lines(lines));
    assert(lines.last() == lines[lines.len() - 1]);
    assert(strip_cr(lines.last()) == lines.last());
    assert(lines.drop_last().push(lines.last()) =~= lines);
}

/// A text whose lines are all finished: empty, or ending in a newline.
pub open spec fn ends_complete(s: Seq<char>) -> bool {
    s.len() == 0 || s.last() == '\n'
}

/// In a text that is empty or ends in a newline, no line is unfinished.
pub proof fn lemma_complete_scan(s: Seq<char>)
    requires
        ends_complete(s),
    ensures
        scan_lines(s).1.len() == 0,
        lines_of(s) == scan_lines(s).0,
{
}

/// Appending a clean line and a newline to a text that is empty or ends in
/// a newline adds exactly that line to its lines.
pub proof fn law_append_line(s: Seq<char>, line: Seq<char>)
    requires
        ends_complete(s),
        clean_line(line),
    ensures
        lines_of(s + line.push('\n')) == lines_of(s).push(line),
{
    lemma_complete_scan(s);
    lemma_scan_one_line(line);
    lemma_scan_concat(s, line.push('\n'));
    assert(scan_lines(s).0 + seq![line] =~= scan_lines(s).0.push(line));
}

/// Putting a clean line and a newline in front of a text puts that line in
/// front of its lines.
pub proof fn law_prepend_line(line: Seq<char>, s: Seq<char>)
    requires
        clean_line(line),
    ensures
        lines_of(line.push('\n') + s) == seq![line] + lines_of(s),
{
    lemma_scan_one_line(line);
    lemma_scan_concat(line.push('\n'), s);
    let (d, t) = scan_lines(s);
    if t.len() != 0 {
        assert((seq![line] + d).push(t) =~= seq![line] + d.push(t));
    }
}

/// No line of a text holds a newline.
pub proof fn lemma_lines_have_no_newline(s: Seq<char>)
    ensures
        forall|i: int| 0 <= i < lines_of(s).len() ==> !(#[trigger] lines_of(s)[i]).contains('\n'),
{
    lemma_scan_lines_no_newline(s);
}

proof fn lemma_strip_cr_no_newline(t: Seq<char>)
    requires
        !t.contains('\n'),
    ensures
        !strip_cr(t).contains('\n'),
{
    if strip_cr(t).contains('\n') {
        let k = choose|k: int| 0 <= k < strip_cr(t).len() && strip_cr(t)[k] == '\n';
        assert(t[k] == '\n');
    }
}

proof fn lemma_scan_lines_no_newline(s: Seq<char>)
    ensures
        forall|i: int|
            0 <= i < scan_lines(s).0.len() ==> !(#[trigger] scan_lines(s).0[i]).contains('\n'),
        !scan_lines(s).1.contains('\n'),
    decreases s.len(),
{
    if s.len() > 0 {
        lemma_scan_lines_no_newline(s.drop_last());
        let (d, t) = scan_lines(s.drop_last());
        if s.last() == '\n' {
            lemma_strip_cr_no_newline(t);
            assert(!Seq::<char>::empty().contains('\n'));
            assert forall|i: int| 0 <= i < d.push(strip_cr(t)).len() implies !(
            #[trigger] d.push(strip_cr(t))[i]).contains('\n') by {
                if i < d.len() {
                    assert(d.push(strip_cr(t))[i] == d[i]);
                }
            }
        } else {
            assert(!t.push(s.last()).contains('\n')) by {
                if t.push(s.last()).contains('\n') {
                    let k = choose|k: int|
                        0 <= k < t.push(s.last()).len() && t.push(s.last())[k] == '\n';
                    if k < t.len() {
                        assert(t[k] == '\n');
                    }
                }
            }
        }
    }
}

/// Characters without a newline extend the unfinished line.
pub proof fn lemma_scan_extend(p: Seq<char>, m: Seq<char>)
    requires
        !m.contains('\n'),
    ensures
        scan_lines(p + m) == (scan_lines(p).0, scan_lines(p).1 + m),
    decreases m.len(),
{
    if m.len() == 0 {
        assert(p + m =~= p);
        assert(scan_lines(p).1 + m =~= scan_lines(p).1);
    } else {
        assert(!m.drop_last().contains('\n')) by {
            if m.drop_last().contains('\n') {
                let k = choose|k: int| 0 <= k < m.drop_last().len() && m.drop_last()[k] == '\n';
                assert(m[k] == '\n');
            }
        }
        lemma_scan_extend(p, m.drop_last());
        assert((p + m).drop_last() =~= p + m.drop_last());
        assert(m[m.len() - 1] != '\n');
        assert((scan_lines(p).1 + m.drop_last()).push(m.last()) =~= scan_lines(p).1 + m);
    }
}

} // verus!
