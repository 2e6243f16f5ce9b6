//! Splitting a table into lines and a line into fields.
//!
//! A table is a text whose lines end in a line feed; the last line may go
//! without one. A carriage return just before the line feed belongs to the
//! line ending. Fields are separated by commas; there is no quoting.

use vstd::prelude::*;
use vstd::slice::slice_subrange;

verus! {

/// First position at or after `from` that holds the byte `b`, or the
/// length of `s` when none does.
pub open spec fn next_byte(s: Seq<u8>, b: u8, from: int) -> int
    decreases s.len() - from,
{
    if from >= s.len() || s[from] == b {
        from
    } else {
        next_byte(s, b, from + 1)
    }
}

/// Where `next_byte` lands: inside the text, on the byte looked for or on
/// the end, with no such byte passed over.
pub proof fn next_byte_bounds(s: Seq<u8>, b: u8, from: int)
    requires
        0 <= from <= s.len(),
    ensures
        from <= next_byte(s, b, from) <= s.len(),
        next_byte(s, b, from) < s.len() ==> s[next_byte(s, b, from)] == b,
        forall|k: int| from <= k < next_byte(s, b, from) ==> s[k] != b,
    decreases s.len() - from,
{
    if from < s.len() && s[from] != b {
        next_byte_bounds(s, b, from + 1);
    }
}

/// The line that starts at `from`, without its line ending.
pub open spec fn line_at(text: Seq<u8>, from: int) -> Seq<u8> {
    let end = next_byte(text, 0x0a, from);
    if end < text.len() && from < end && text[end - 1] == 0x0d {
        text.subrange(from, end - 1)
    } else {
        text.subrange(from, end)
    }
}

/// The lines of `text` from position `from` on.
pub open spec fn lines_from(text: Seq<u8>, from: int) -> Seq<Seq<u8>>
    decreases text.len() + 1 - from,
{
    if 0 <= from && from < text.len() {
        proof {
            next_byte_bounds(text, 0x0a, from);
        }
        seq![line_at(text, from)] + lines_from(text, next_byte(text, 0x0a, from) + 1)
    } else {
        Seq::empty()
    }
}

/// The lines of a table, in order. An empty text has no line, and a line
/// feed at the very end opens no further line.
pub open spec fn text_lines(text: Seq<u8>) -> Seq<Seq<u8>> {
    lines_from(text, 0)
}

/// The contents of each slice of `v`.
pub open spec fn slice_views(v: Seq<&[u8]>) -> Seq<Seq<u8>> {
    Seq::new(v.len(), |i: int| v[i]@)
}

fn find_byte(s: &[u8], b: u8, from: usize) -> (end: usize)
    requires
        from <= s@.len(),
    ensures
        end == next_byte(s@, b, from as int),
        from <= end <= s@.len(),
{
    let mut end: usize = from;
    while end < s.len() && s[end] != b
        invariant
            from <= end <= s@.len(),
            next_byte(s@, b, from as int) == next_byte(s@, b, end as int),
        decreases s@.len() - end,
    {
        end = end + 1;
    }
    end
}

/// Splits a table into its lines.
pub fn split_lines(text: &[u8]) -> (lines: Vec<&[u8]>)
    ensures
        slice_views(lines@) == text_lines(text@),
        lines@.len() <= text@.len(),
{
    let n: usize = text.len();
    let mut lines: Vec<&[u8]> = Vec::new();
    let mut pos: usize = 0;
    while pos < n
        invariant
            n == text@.len(),
            pos <= n,
            lines@.len() <= pos,
            text_lines(text@) == slice_views(lines@) + lines_from(text@, pos as int),
        decreases n - pos,
    {
        let end: usize = find_byte(text, 0x0a, pos);
        let stop: usize = if end < n && pos < end && text[end - 1] == 0x0d {
            end - 1
        } else {
            end
        };
        let line: &[u8] = slice_subrange(text, pos, stop);
        let ghost before = lines@;
        lines.push(line);
        proof {
            assert(line@ == line_at(text@, pos as int));
            assert(slice_views(lines@) =~= slice_views(before).push(line@));
            assert(lines_from(text@, pos as int) == seq![line@] + lines_from(
                text@,
                end as int + 1,
            ));
            assert(slice_views(before) + (seq![line@] + lines_from(text@, end as int + 1))
                =~= slice_views(before).push(line@) + lines_from(text@, end as int + 1));
        }
        if end < n {
            pos = end + 1;
        } else {
            pos = n;
            assert(lines_from(text@, end as int + 1) =~= lines_from(text@, n as int));
        }
    }
    assert(lines_from(text@, pos as int) =~= Seq::<Seq<u8>>::empty());
    assert(slice_views(lines@) + Seq::<Seq<u8>>::empty() =~= slice_views(lines@));
    lines
}

/// Length of `line` without the carriage returns and line feeds at its
/// end.
pub open spec fn body_len(line: Seq<u8>) -> int
    decreases line.len(),
{
    if line.len() > 0 && (line.last() == 0x0d || line.last() == 0x0a) {
        body_len(line.drop_last())
    } else {
        line.len() as int
    }
}

/// The fields of `s` from position `from` on: the text up to the next
/// comma, and after that comma the fields that follow.
pub open spec fn fields_from(s: Seq<u8>, from: int) -> Seq<Seq<u8>>
    decreases s.len() + 1 - from,
{
    if 0 <= from && from < s.len() {
        proof {
            next_byte_bounds(s, 0x2c, from);
        }
        let end = next_byte(s, 0x2c, from);
        if end < s.len() {
            seq![s.subrange(from, end)] + fields_from(s, end + 1)
        } else {
            seq![s.subrange(from, end)]
        }
    } else {
        seq![Seq::<u8>::empty()]
    }
}

/// The comma-separated fields of a line. Carriage returns and line feeds
/// at the end of the line are dropped first. There is always at least one
/// field; an empty line has one empty field.
pub open spec fn csv_fields(line: Seq<u8>) -> Seq<Seq<u8>> {
    fields_from(line.take(body_len(line)), 0)
}

/// Splits a line into its comma-separated fields.
pub fn split_csv_line(line: &[u8]) -> (fields: Vec<&[u8]>)
    ensures
        slice_views(fields@) == csv_fields(line@),
        fields@.len() >= 1,
{
    let mut n: usize = line.len();
    assert(line@.take(n as int) =~= line@);
    while n > 0 && (line[n - 1] == 0x0d || line[n - 1] == 0x0a)
        invariant
            n <= line@.len(),
            body_len(line@) == body_len(line@.take(n as int)),
        decreases n,
    {
        assert(line@.take(n as int).drop_last() =~= line@.take(n - 1));
        n = n - 1;
    }
    let body: &[u8] = slice_subrange(line, 0, n);
    assert(body@ =~= line@.take(body_len(line@)));
    let mut fields: Vec<&[u8]> = Vec::new();
    let mut pos: usize = 0;
    loop
        invariant_except_break
            fields_from(body@, 0) == slice_views(fields@) + fields_from(body@, pos as int),
        invariant
            n == body@.len(),
            pos <= n,
            csv_fields(line@) == fields_from(body@, 0),
        ensures
            slice_views(fields@) == csv_fields(line@),
            fields@.len() >= 1,
        decreases n - pos,
    {
        let end: usize = find_byte(body, 0x2c, pos);
        let field: &[u8] = slice_subrange(body, pos, end);
        let ghost before = fields@;
        fields.push(field);
        assert(slice_views(fields@) =~= slice_views(before).push(field@));
        if end >= n {
            assert(field@ =~= body@.subrange(pos as int, n as int));
            assert(pos == n ==> field@ =~= Seq::<u8>::empty());
            assert(fields_from(body@, pos as int) =~= seq![field@]);
            assert(slice_views(before) + seq![field@] =~= slice_views(before).push(field@));
            break ;
        }
        assert(slice_views(before) + (seq![field@] + fields_from(body@, end as int + 1))
            =~= slice_views(before).push(field@) + fields_from(body@, end as int + 1));
        pos = end + 1;
    }
    fields
}

} // verus!
