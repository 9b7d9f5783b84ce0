//! Building blocks on character lines: each line is a `Vec<char>`, the text
//! is a `Vec<Vec<char>>` whose deep view is a `Seq<Seq<char>>`.
use vstd::prelude::*;

verus! {

/// The characters of each line.
pub open spec fn text_of(ls: Seq<Vec<char>>) -> Seq<Seq<char>> {
    ls.map_values(|l: Vec<char>| l@)
}

/// `col` clamped to a line of length `len`.
pub open spec fn clamp(col: int, len: nat) -> int {
    if col < len {
        col
    } else {
        len as int
    }
}

/// `line` with `t` put in front of its character number `col` (clamped).
pub open spec fn insert_at(line: Seq<char>, col: int, t: Seq<char>) -> Seq<char> {
    line.take(clamp(col, line.len())) + t + line.skip(clamp(col, line.len()))
}

/// `line` without its characters `from..to` (both clamped).
pub open spec fn remove_range(line: Seq<char>, from: int, to: int) -> Seq<char> {
    line.take(clamp(from, line.len())) + line.skip(clamp(to, line.len()))
}

pub fn clone_line(l: &Vec<char>) -> (r: Vec<char>)
    ensures
        r@ == l@,
{
    let mut r: Vec<char> = Vec::new();
    let mut i: usize = 0;
    while i < l.len()
        invariant
            i <= l@.len(),
            r@ == l@.take(i as int),
        decreases l@.len() - i,
    {
        r.push(l[i]);
        assert(l@.take(i + 1) =~= l@.take(i as int).push(l@[i as int]));
        i += 1;
    }
    assert(l@.take(l@.len() as int) =~= l@);
    r
}

pub fn clone_lines(ls: &Vec<Vec<char>>) -> (r: Vec<Vec<char>>)
    ensures
        text_of(r@) == text_of(ls@),
{
    let mut r: Vec<Vec<char>> = Vec::new();
    let mut i: usize = 0;
    while i < ls.len()
        invariant
            i <= ls@.len(),
            text_of(r@) == text_of(ls@).take(i as int),
        decreases ls@.len() - i,
    {
        let ghost prev = text_of(r@);
        let l = clone_line(&ls[i]);
        r.push(l);
        assert(text_of(r@) =~= prev.push(ls@[i as int]@));
        assert(text_of(ls@).take(i + 1) =~= text_of(ls@).take(i as int).push(ls@[i as int]@));
        i += 1;
    }
    assert(text_of(ls@).take(ls@.len() as int) =~= text_of(ls@));
    r
}

/// `a` followed by `b`.
pub fn join_chars(a: &Vec<char>, b: &Vec<char>) -> (r: Vec<char>)
    ensures
        r@ == a@ + b@,
{
    let mut r = clone_line(a);
    let mut i: usize = 0;
    while i < b.len()
        invariant
            i <= b@.len(),
            r@ == a@ + b@.take(i as int),
        decreases b@.len() - i,
    {
        r.push(b[i]);
        assert(a@ + b@.take(i + 1) =~= (a@ + b@.take(i as int)).push(b@[i as int]));
        i += 1;
    }
    assert(b@.take(b@.len() as int) =~= b@);
    r
}

/// Characters `from..to` of `v`, for `from <= to <= len`.
pub fn slice_of(v: &Vec<char>, from: usize, to: usize) -> (r: Vec<char>)
    requires
        from <= to <= v@.len(),
    ensures
        r@ == v@.subrange(from as int, to as int),
{
    let mut r: Vec<char> = Vec::new();
    let mut i = from;
    while i < to
        invariant
            from <= i <= to <= v@.len(),
            r@ == v@.subrange(from as int, i as int),
        decreases to - i,
    {
        r.push(v[i]);
        assert(v@.subrange(from as int, i + 1) =~= v@.subrange(from as int, i as int).push(
            v@[i as int],
        ));
        i += 1;
    }
    r
}

/// `line` with `t` inserted at character `col` (clamped to the end).
pub fn insert_chars(line: &Vec<char>, col: usize, t: &Vec<char>) -> (r: Vec<char>)
    ensures
        r@ == insert_at(line@, col as int, t@),
{
    let n = line.len();
    let c = if col < n { col } else { n };
    let head = slice_of(line, 0, c);
    let tail = slice_of(line, c, n);
    let ht = join_chars(&head, t);
    let r = join_chars(&ht, &tail);
    assert(line@.take(c as int) =~= line@.subrange(0, c as int));
    assert(line@.skip(c as int) =~= line@.subrange(c as int, n as int));
    r
}

/// `line` without characters `from..to` (both clamped to the end).
pub fn remove_chars(line: &Vec<char>, from: usize, to: usize) -> (r: Vec<char>)
    requires
        from <= to,
    ensures
        r@ == remove_range(line@, from as int, to as int),
{
    let n = line.len();
    let a = if from < n { from } else { n };
    let b = if to < n { to } else { n };
    let head = slice_of(line, 0, a);
    let tail = slice_of(line, b, n);
    let r = join_chars(&head, &tail);
    assert(line@.take(a as int) =~= line@.subrange(0, a as int));
    assert(line@.skip(b as int) =~= line@.subrange(b as int, n as int));
    r
}

/// Replaces line `r`.
pub fn set_line(lines: &mut Vec<Vec<char>>, r: usize, line: Vec<char>)
    requires
        r < old(lines)@.len(),
    ensures
        text_of(final(lines)@) == text_of(old(lines)@).update(r as int, line@),
        final(lines)@.len() == old(lines)@.len(),
{
    let ghost l = line@;
    lines.set(r, line);
    assert(text_of(lines@) =~= text_of(old(lines)@).update(r as int, l));
}

/// Inserts `line` so that it becomes line number `r`.
pub fn insert_line(lines: &mut Vec<Vec<char>>, r: usize, line: Vec<char>)
    requires
        r <= old(lines)@.len(),
    ensures
        text_of(final(lines)@) == text_of(old(lines)@).insert(r as int, line@),
        final(lines)@.len() == old(lines)@.len() + 1,
{
    let ghost l = line@;
    lines.insert(r, line);
    assert(text_of(lines@) =~= text_of(old(lines)@).insert(r as int, l));
}

/// Removes line `r` and hands it back.
pub fn remove_line(lines: &mut Vec<Vec<char>>, r: usize) -> (line: Vec<char>)
    requires
        r < old(lines)@.len(),
    ensures
        text_of(final(lines)@) == text_of(old(lines)@).remove(r as int),
        line@ == text_of(old(lines)@)[r as int],
        final(lines)@.len() == old(lines)@.len() - 1,
{
    let line = lines.remove(r);
    assert(text_of(lines@) =~= text_of(old(lines)@).remove(r as int));
    line
}

/// Lines `0..row`, then `mid`, then the lines after `last`.
pub fn splice_lines(lines: &Vec<Vec<char>>, row: usize, last: usize, mid: Vec<Vec<char>>) -> (r: Vec<
    Vec<char>,
>)
    requires
        row <= last < lines@.len(),
    ensures
        text_of(r@) == text_of(lines@).take(row as int) + text_of(mid@) + text_of(lines@).skip(
            last + 1,
        ),
        r@.len() == row + mid@.len() + lines@.len() - last - 1,
{
    let mut r: Vec<Vec<char>> = Vec::new();
    let mut i: usize = 0;
    while i < row
        invariant
            i <= row <= last < lines@.len(),
            text_of(r@) == text_of(lines@).take(i as int),
        decreases row - i,
    {
        let ghost prev = text_of(r@);
        r.push(clone_line(&lines[i]));
        assert(text_of(r@) =~= prev.push(lines@[i as int]@));
        assert(text_of(lines@).take(i + 1) =~= text_of(lines@).take(i as int).push(lines@[i as int]@));
        i += 1;
    }
    let mut j: usize = 0;
    while j < mid.len()
        invariant
            j <= mid@.len(),
            text_of(r@) == text_of(lines@).take(row as int) + text_of(mid@).take(j as int),
        decreases mid@.len() - j,
    {
        let ghost prev = text_of(r@);
        r.push(clone_line(&mid[j]));
        assert(text_of(r@) =~= prev.push(mid@[j as int]@));
        assert(text_of(mid@).take(j + 1) =~= text_of(mid@).take(j as int).push(mid@[j as int]@));
        assert(text_of(r@) =~= text_of(lines@).take(row as int) + text_of(mid@).take(j + 1));
        j += 1;
    }
    assert(text_of(mid@).take(mid@.len() as int) =~= text_of(mid@));
    let n = lines.len();
    let mut k: usize = last + 1;
    while k < n
        invariant
            last + 1 <= k <= n == lines@.len(),
            text_of(r@) == text_of(lines@).take(row as int) + text_of(mid@)
                + text_of(lines@).subrange(last + 1, k as int),
        decreases n - k,
    {
        let ghost prev = text_of(r@);
        r.push(clone_line(&lines[k]));
        assert(text_of(r@) =~= prev.push(lines@[k as int]@));
        assert(text_of(lines@).subrange(last + 1, k + 1) =~= text_of(lines@).subrange(last + 1, k as int).push(lines@[k as int]@));
        assert(text_of(r@) =~= text_of(lines@).take(row as int) + text_of(mid@)
            + text_of(lines@).subrange(last + 1, k + 1));
        k += 1;
    }
    assert(text_of(lines@).subrange(last + 1, n as int) =~= text_of(lines@).skip(last + 1));
    r
}

} // verus!
