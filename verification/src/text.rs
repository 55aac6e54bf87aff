//! Plain-text helpers: block-element renderings of rasters and boxed text.

use vstd::prelude::*;

verus! {

/// Appends one character to a string (`String::push`).
#[verifier::external_body]
pub(crate) fn push_char(s: &mut String, c: char)
    ensures
        final(s)@ == old(s)@.push(c),
{
    s.push(c);
}

/// The characters of `s`, in order.
pub fn chars_of(s: &str) -> (v: Vec<char>)
    ensures
        v@ == s@,
{
    let mut v: Vec<char> = Vec::new();
    for c in it: s.chars()
        invariant
            v@ == it.seq().take(it.index() as int),
    {
        v.push(c);
    }
    v
}

/// Position of the first `'\n'` in `t`, or `t.len()` when there is none.
pub open spec fn newline_pos(t: Seq<char>) -> int
    decreases t.len(),
{
    if t.len() == 0 {
        0
    } else if t[0] == '\n' {
        0
    } else {
        1 + newline_pos(t.drop_first())
    }
}

/// A line without the `'\r'` of a `"\r\n"` terminator.
pub open spec fn strip_cr(line: Seq<char>) -> Seq<char> {
    if line.len() > 0 && line.last() == '\r' {
        line.drop_last()
    } else {
        line
    }
}

/// The lines of `t` as `str::lines` yields them: split at `'\n'`, a `'\r'`
/// before the `'\n'` removed, no empty last line after a final `'\n'`.
pub open spec fn split_lines(t: Seq<char>) -> Seq<Seq<char>>
    decreases t.len(),
{
    if t.len() == 0 {
        Seq::empty()
    } else {
        let k = newline_pos(t);
        proof {
            lemma_newline_pos_bounds(t);
        }
        if k >= t.len() {
            seq![t]
        } else {
            seq![strip_cr(t.take(k))] + split_lines(t.skip(k + 1))
        }
    }
}

/// Where the first newline of `t` lies, and that none comes before it.
pub proof fn lemma_newline_pos_bounds(t: Seq<char>)
    ensures
        0 <= newline_pos(t) <= t.len(),
        newline_pos(t) < t.len() ==> t[newline_pos(t)] == '\n',
        forall|j: int| 0 <= j < newline_pos(t) ==> t[j] != '\n',
    decreases t.len(),
{
    if t.len() > 0 && t[0] != '\n' {
        lemma_newline_pos_bounds(t.drop_first());
        assert forall|j: int| 0 <= j < newline_pos(t) implies t[j] != '\n' by {
            if j > 0 {
                assert(t[j] == t.drop_first()[j - 1]);
            }
        }
    }
}

proof fn lemma_newline_pos_exact(t: Seq<char>, m: int)
    requires
        0 <= m <= t.len(),
        forall|j: int| 0 <= j < m ==> t[j] != '\n',
        m < t.len() ==> t[m] == '\n',
    ensures
        newline_pos(t) == m,
    decreases t.len(),
{
    if t.len() > 0 && m > 0 {
        assert forall|j: int| 0 <= j < m - 1 implies t.drop_first()[j] != '\n' by {
            assert(t.drop_first()[j] == t[j + 1]);
        }
        lemma_newline_pos_exact(t.drop_first(), m - 1);
    }
}

/// Splits a character sequence into lines as `str::lines` does.
pub fn split_lines_exec(t: &Vec<char>) -> (lines: Vec<Vec<char>>)
    ensures
        lines@.len() == split_lines(t@).len(),
        forall|i: int| 0 <= i < lines@.len() ==> #[trigger] lines@[i]@ == split_lines(t@)[i],
{
    let n = t.len();
    let mut lines: Vec<Vec<char>> = Vec::new();
    let mut current: Vec<char> = Vec::new();
    let mut start: usize = 0;
    let mut i: usize = 0;
    let ghost mut done: Seq<Seq<char>> = Seq::empty();
    proof {
        assert(t@.skip(0) =~= t@);
        assert(done + split_lines(t@) =~= split_lines(t@));
    }
    while i < n
        invariant
            n == t@.len(),
            start <= i <= n,
            current@ == t@.subrange(start as int, i as int),
            forall|j: int| start <= j < i ==> t@[j] != '\n',
            lines@.len() == done.len(),
            forall|k: int| 0 <= k < lines@.len() ==> #[trigger] lines@[k]@ == done[k],
            split_lines(t@) == done + split_lines(t@.skip(start as int)),
        decreases n - i,
    {
        if t[i] == '\n' {
            let ghost rest = t@.skip(start as int);
            proof {
                lemma_newline_pos_exact(rest, i - start);
                assert(rest.take(i - start) =~= current@);
                assert(rest.skip(i - start + 1) =~= t@.skip(i + 1));
            }
            let mut line = current;
            if line.len() > 0 && line[line.len() - 1] == '\r' {
                line.pop();
            }
            proof {
                assert(line@ == strip_cr(rest.take(i - start)));
                done = done.push(line@);
            }
            lines.push(line);
            current = Vec::new();
            start = i + 1;
            proof {
                assert(split_lines(t@) =~= done + split_lines(t@.skip(start as int)));
            }
        } else {
            current.push(t[i]);
        }
        i = i + 1;
    }
    if start < n {
        let ghost rest = t@.skip(start as int);
        proof {
            lemma_newline_pos_exact(rest, n - start);
            assert(rest =~= current@);
            done = done.push(current@);
            assert(split_lines(t@) =~= done);
        }
        lines.push(current);
    } else {
        proof {
            assert(t@.skip(start as int) =~= Seq::<char>::empty());
            assert(split_lines(t@) =~= done);
        }
    }
    lines
}

/// `n` copies of `c`.
pub open spec fn repeat(c: char, n: int) -> Seq<char> {
    Seq::new(if n >= 0 { n as nat } else { 0 }, |i: int| c)
}

/// Length of the longest of `lines`, 0 when there are none.
pub open spec fn max_len(lines: Seq<Seq<char>>) -> int
    decreases lines.len(),
{
    if lines.len() == 0 {
        0
    } else {
        let rest = max_len(lines.drop_last());
        if lines.last().len() > rest {
            lines.last().len() as int
        } else {
            rest
        }
    }
}

/// The boxed rows: each line between `'│'` bars, padded with spaces to `width`,
/// followed by a newline.
pub open spec fn boxed_rows(lines: Seq<Seq<char>>, width: int) -> Seq<char>
    decreases lines.len(),
{
    if lines.len() == 0 {
        Seq::empty()
    } else {
        boxed_rows(lines.drop_last(), width) + seq!['│'] + lines.last() + repeat(
            ' ',
            width - lines.last().len(),
        ) + seq!['│', '\n']
    }
}

/// Text `t` drawn inside a box of light box-drawing characters, as wide as its
/// longest line.
pub open spec fn bordered(t: Seq<char>) -> Seq<char> {
    let lines = split_lines(t);
    let width = max_len(lines);
    seq!['┌'] + repeat('─', width) + seq!['┐', '\n'] + boxed_rows(lines, width) + seq!['└'] + repeat(
        '─',
        width,
    ) + seq!['┘']
}

/// The rows of a picture joined with `'\n'` between them.
pub open spec fn joined_rows(rows: Seq<Seq<char>>) -> Seq<char>
    decreases rows.len(),
{
    if rows.len() == 0 {
        Seq::empty()
    } else if rows.len() == 1 {
        rows[0]
    } else {
        joined_rows(rows.drop_last()) + seq!['\n'] + rows.last()
    }
}

/// Joining a first row in front of more rows puts one `'\n'` between it and
/// the join of the rest.
proof fn lemma_joined_rows_front(x: Seq<char>, rows: Seq<Seq<char>>)
    ensures
        joined_rows(seq![x] + rows) == if rows.len() == 0 {
            x
        } else {
            x + seq!['\n'] + joined_rows(rows)
        },
    decreases rows.len(),
{
    let all = seq![x] + rows;
    if rows.len() == 0 {
        assert(all =~= seq![x]);
    } else if rows.len() == 1 {
        assert(all.drop_last() =~= seq![x]);
        assert(all.last() == rows[0]);
        assert(joined_rows(seq![x]) == x);
        assert(joined_rows(all) == joined_rows(all.drop_last()) + seq!['\n'] + all.last());
        assert(joined_rows(rows) == rows[0]);
    } else {
        lemma_joined_rows_front(x, rows.drop_last());
        assert(all.drop_last() =~= seq![x] + rows.drop_last());
        assert(all.last() == rows.last());
        assert(joined_rows(all) == joined_rows(all.drop_last()) + seq!['\n'] + all.last());
        assert(joined_rows(rows) == joined_rows(rows.drop_last()) + seq!['\n'] + rows.last());
        assert(x + seq!['\n'] + joined_rows(rows.drop_last()) + seq!['\n'] + rows.last() =~= x + seq!['\n']
            + (joined_rows(rows.drop_last()) + seq!['\n'] + rows.last()));
    }
}

/// Splitting text without `'\r'` into lines and joining them back with
/// `'\n'` gives the text again, less one final `'\n'`: no line is lost,
/// empty ones included, and none is made up.
pub proof fn lemma_split_lines_join(t: Seq<char>)
    requires
        !t.contains('\r'),
    ensures
        joined_rows(split_lines(t)) == if t.len() > 0 && t.last() == '\n' {
            t.drop_last()
        } else {
            t
        },
    decreases t.len(),
{
    if t.len() > 0 {
        let k = newline_pos(t);
        lemma_newline_pos_bounds(t);
        if k >= t.len() {
            assert(t.last() != '\n');
        } else {
            let first = t.take(k);
            let rest = t.skip(k + 1);
            assert(!first.contains('\r')) by {
                if first.contains('\r') {
                    let j = choose|j: int| 0 <= j < first.len() && first[j] == '\r';
                    assert(t[j] == '\r');
                }
            }
            assert(strip_cr(first) == first);
            assert(!rest.contains('\r')) by {
                if rest.contains('\r') {
                    let j = choose|j: int| 0 <= j < rest.len() && rest[j] == '\r';
                    assert(t[j + k + 1] == '\r');
                }
            }
            lemma_split_lines_join(rest);
            lemma_joined_rows_front(first, split_lines(rest));
            if rest.len() == 0 {
                assert(t.drop_last() =~= first);
            } else {
                assert(split_lines(rest).len() > 0);
                assert(t.last() == rest.last());
                if rest.last() == '\n' {
                    assert(t.drop_last() =~= first + seq!['\n'] + rest.drop_last());
                } else {
                    assert(t =~= first + seq!['\n'] + rest);
                }
            }
        }
    }
}

/// The box width is the length of the longest line: no line is longer, and
/// some line is that long (0 when there are no lines).
pub proof fn lemma_max_len_bound(lines: Seq<Seq<char>>)
    ensures
        max_len(lines) >= 0,
        forall|i: int| 0 <= i < lines.len() ==> #[trigger] lines[i].len() <= max_len(lines),
        lines.len() == 0 ==> max_len(lines) == 0,
        lines.len() > 0 ==> exists|i: int| 0 <= i < lines.len() && #[trigger] lines[i].len() == max_len(lines),
    decreases lines.len(),
{
    if lines.len() > 0 {
        lemma_max_len_bound(lines.drop_last());
        assert forall|i: int| 0 <= i < lines.len() implies #[trigger] lines[i].len() <= max_len(lines) by {
            if i < lines.len() - 1 {
                assert(lines[i] == lines.drop_last()[i]);
            }
        }
        if lines.last().len() > max_len(lines.drop_last()) {
            assert(lines[lines.len() - 1].len() == max_len(lines));
        } else if lines.len() == 1 {
            assert(lines[0].len() == max_len(lines));
        } else {
            let j = choose|j: int| 0 <= j < lines.drop_last().len() && #[trigger] lines.drop_last()[j].len() == max_len(lines.drop_last());
            assert(lines[j].len() == max_len(lines));
        }
    }
}

fn push_repeat(out: &mut String, c: char, n: usize)
    ensures
        final(out)@ == old(out)@ + repeat(c, n as int),
{
    let mut k: usize = 0;
    while k < n
        invariant
            k <= n,
            out@ == old(out)@ + repeat(c, k as int),
        decreases n - k,
    {
        push_char(out, c);
        k = k + 1;
        proof {
            assert(out@ =~= old(out)@ + repeat(c, k as int));
        }
    }
}

fn push_all(out: &mut String, chars: &Vec<char>)
    ensures
        final(out)@ == old(out)@ + chars@,
{
    let mut k: usize = 0;
    while k < chars.len()
        invariant
            k <= chars.len(),
            out@ == old(out)@ + chars@.take(k as int),
        decreases chars.len() - k,
    {
        push_char(out, chars[k]);
        k = k + 1;
        proof {
            assert(out@ =~= old(out)@ + chars@.take(k as int));
        }
    }
    proof {
        assert(chars@.take(chars.len() as int) =~= chars@);
    }
}

/// Wraps multi-line text in a box of light box-drawing characters as wide as
/// its longest line (counted in characters); shorter lines are padded with
/// spaces.
pub fn border_ascii_art(art: &str) -> (out: String)
    ensures
        out@ == bordered(art@),
{
    let chars = chars_of(art);
    let lines = split_lines_exec(&chars);
    let ghost ls = split_lines(art@);
    let mut width: usize = 0;
    let mut k: usize = 0;
    while k < lines.len()
        invariant
            k <= lines@.len(),
            lines@.len() == ls.len(),
            forall|i: int| 0 <= i < lines@.len() ==> #[trigger] lines@[i]@ == ls[i],
            width == max_len(ls.take(k as int)),
        decreases lines.len() - k,
    {
        proof {
            assert(ls.take(k + 1).drop_last() =~= ls.take(k as int));
        }
        if lines[k].len() > width {
            width = lines[k].len();
        }
        k = k + 1;
    }
    proof {
        assert(ls.take(lines.len() as int) =~= ls);
        lemma_max_len_bound(ls);
    }
    let mut out = String::new();
    push_char(&mut out, '┌');
    push_repeat(&mut out, '─', width);
    push_char(&mut out, '┐');
    push_char(&mut out, '\n');
    let ghost head = out@;
    let mut k: usize = 0;
    while k < lines.len()
        invariant
            k <= lines@.len(),
            lines@.len() == ls.len(),
            forall|i: int| 0 <= i < lines@.len() ==> #[trigger] lines@[i]@ == ls[i],
            forall|i: int| 0 <= i < ls.len() ==> #[trigger] ls[i].len() <= width,
            out@ == head + boxed_rows(ls.take(k as int), width as int),
        decreases lines.len() - k,
    {
        let ghost before = out@;
        push_char(&mut out, '│');
        push_all(&mut out, &lines[k]);
        assert(ls[k as int].len() <= width);
        push_repeat(&mut out, ' ', width - lines[k].len());
        push_char(&mut out, '│');
        push_char(&mut out, '\n');
        proof {
            assert(ls.take(k + 1).drop_last() =~= ls.take(k as int));
            assert(ls.take(k + 1).last() == ls[k as int]);
            assert(out@ =~= head + boxed_rows(ls.take(k + 1), width as int));
        }
        k = k + 1;
    }
    push_char(&mut out, '└');
    push_repeat(&mut out, '─', width);
    push_char(&mut out, '┘');
    proof {
        assert(ls.take(lines.len() as int) =~= ls);
        assert(out@ =~= bordered(art@));
    }
    out
}

/// Joins picture rows with `'\n'` between them.
pub fn to_ascii_art(rows: &[&str]) -> (out: String)
    ensures
        out@ == joined_rows(rows@.map_values(|r: &str| r@)),
{
    let ghost rs = rows@.map_values(|r: &str| r@);
    let mut out = String::new();
    let mut k: usize = 0;
    while k < rows.len()
        invariant
            k <= rows@.len(),
            rs == rows@.map_values(|r: &str| r@),
            out@ == joined_rows(rs.take(k as int)),
        decreases rows.len() - k,
    {
        if k > 0 {
            push_char(&mut out, '\n');
        }
        let row = chars_of(rows[k]);
        push_all(&mut out, &row);
        proof {
            assert(rs.take(k + 1).drop_last() =~= rs.take(k as int));
            assert(rs.take(k + 1).last() == rs[k as int]);
            if k == 0 {
                assert(out@ =~= joined_rows(rs.take(1)));
            } else {
                assert(out@ =~= joined_rows(rs.take(k + 1)));
            }
        }
        k = k + 1;
    }
    proof {
        assert(rs.take(rows.len() as int) =~= rs);
    }
    out
}

} // verus!
