use vstd::prelude::*;

verus! {

/// The byte that ends a line.
pub const LINE_BREAK: u8 = 10;

/// Number of bytes after the last line break of `s` (all of `s` if it has none).
pub open spec fn tail_len(s: Seq<u8>) -> nat
    decreases s.len(),
{
    if s.len() == 0 {
        0
    } else if s.last() == LINE_BREAK {
        0
    } else {
        tail_len(s.drop_last()) + 1
    }
}

/// Terminal rows taken by the complete lines of `s` at the given width: each line
/// break closes a line of `n` bytes, which takes one row plus `n / width` wrap rows.
/// Bytes after the last line break are not counted.
pub open spec fn rows_of(s: Seq<u8>, width: nat) -> nat
    decreases s.len(),
{
    if s.len() == 0 {
        0
    } else if s.last() == LINE_BREAK {
        rows_of(s.drop_last(), width) + 1 + tail_len(s.drop_last()) / width
    } else {
        rows_of(s.drop_last(), width)
    }
}

proof fn lemma_rows_bounded(s: Seq<u8>, width: nat)
    requires
        width > 0,
    ensures
        rows_of(s, width) + tail_len(s) <= s.len(),
    decreases s.len(),
{
    if s.len() > 0 {
        lemma_rows_bounded(s.drop_last(), width);
        let t = tail_len(s.drop_last());
        assert(t / width <= t) by (nonlinear_arith)
            requires width > 0;
    }
}

/// Rows that `buf` takes when written verbatim on a terminal `width` columns wide.
pub fn row_count(buf: &[u8], width: u16) -> (r: u64)
    requires
        width > 0,
    ensures
        r == rows_of(buf@, width as nat),
{
    let mut count: u64 = 0;
    let mut line_len: u64 = 0;
    let mut i: usize = 0;
    while i < buf.len()
        invariant
            width > 0,
            i <= buf@.len(),
            count == rows_of(buf@.take(i as int), width as nat),
            line_len == tail_len(buf@.take(i as int)),
        decreases buf@.len() - i,
    {
        proof {
            assert(buf@.take(i + 1).drop_last() =~= buf@.take(i as int));
            lemma_rows_bounded(buf@.take(i + 1), width as nat);
        }
        if buf[i] == LINE_BREAK {
            count = count + 1 + line_len / (width as u64);
            line_len = 0;
        } else {
            line_len = line_len + 1;
        }
        i = i + 1;
    }
    assert(buf@.take(i as int) =~= buf@);
    count
}

/// Row count once a scroll is accounted for: when `cursor_row + count` passes the
/// terminal's height, the terminal scrolls by the overflow, which the cursor must also
/// climb back on the next move up.
pub open spec fn scroll_corrected_spec(count: nat, cursor_row: nat, height: nat) -> nat {
    if cursor_row + count > height {
        count + (cursor_row + count - height) as nat
    } else {
        count
    }
}

/// Adds to `count` the rows that the terminal scrolls when `count` rows are written
/// with the cursor at `cursor_row` on a terminal `height` rows high.
pub fn scroll_corrected(count: u64, cursor_row: u16, height: u16) -> (r: u64)
    requires
        scroll_corrected_spec(count as nat, cursor_row as nat, height as nat) <= u64::MAX,
    ensures
        r == scroll_corrected_spec(count as nat, cursor_row as nat, height as nat),
{
    if (cursor_row as u64) + count > (height as u64) {
        let offset: u64 = (cursor_row as u64) + count - (height as u64);
        count + offset
    } else {
        count
    }
}

/// What the terminal reports at one instant: its size and the cursor's row (counted from 0).
#[derive(Clone, Copy, Debug, PartialEq, Eq)]
pub struct TermMetrics {
    pub width: u16,
    pub height: u16,
    pub cursor_row: u16,
}

/// Rows that one frame (its standard output, then its standard error) takes, scroll included.
pub open spec fn frame_rows_spec(out: Seq<u8>, err: Seq<u8>, term: TermMetrics) -> nat {
    scroll_corrected_spec(
        rows_of(out, term.width as nat) + rows_of(err, term.width as nat),
        term.cursor_row as nat,
        term.height as nat,
    )
}

/// The two outputs of a frame are small enough that every row count of them fits a `u64`.
pub open spec fn frame_fits(out: Seq<u8>, err: Seq<u8>) -> bool {
    2 * (out.len() + err.len()) + u16::MAX <= u64::MAX
}

/// Rows that a frame takes on the terminal as measured, so that moving the cursor up by
/// this many rows brings it back to where the frame began.
pub fn frame_rows(out: &[u8], err: &[u8], term: TermMetrics) -> (r: u64)
    requires
        term.width > 0,
        frame_fits(out@, err@),
    ensures
        r == frame_rows_spec(out@, err@, term),
{
    proof {
        lemma_rows_bounded(out@, term.width as nat);
        lemma_rows_bounded(err@, term.width as nat);
    }
    let total = row_count(out, term.width) + row_count(err, term.width);
    scroll_corrected(total, term.cursor_row, term.height)
}

/// With the cursor on the bottom row, writing `r` rows that pass the bottom makes the
/// terminal scroll by the overflow, and the corrected count adds that overflow to `r`.
pub proof fn lemma_scroll_from_bottom_row(height: nat, r: nat)
    requires
        height >= 1,
        (height - 1) + r > height,
    ensures
        scroll_corrected_spec(r, (height - 1) as nat, height) == r + ((height - 1) + r - height),
{
}

/// Lines of bytes, each followed by a line break.
pub open spec fn broken_lines(lines: Seq<Seq<u8>>) -> Seq<u8>
    decreases lines.len(),
{
    if lines.len() == 0 {
        Seq::empty()
    } else {
        broken_lines(lines.drop_last()) + lines.last() + seq![LINE_BREAK]
    }
}

proof fn lemma_append_line(s: Seq<u8>, line: Seq<u8>, width: nat)
    requires
        tail_len(s) == 0,
        forall|j: int| 0 <= j < line.len() ==> line[j] != LINE_BREAK,
    ensures
        rows_of(s + line, width) == rows_of(s, width),
        tail_len(s + line) == line.len(),
    decreases line.len(),
{
    if line.len() == 0 {
        assert(s + line =~= s);
    } else {
        lemma_append_line(s, line.drop_last(), width);
        assert((s + line).drop_last() =~= s + line.drop_last());
    }
}

/// An empty buffer takes no rows.
pub proof fn lemma_empty_takes_no_rows(width: nat)
    ensures
        rows_of(Seq::empty(), width) == 0,
{
}

/// Lines that end in a line break and are each shorter than the width take one row each.
pub proof fn lemma_short_lines_take_one_row_each(lines: Seq<Seq<u8>>, width: nat)
    requires
        forall|i: int| 0 <= i < lines.len() ==> #[trigger] lines[i].len() < width,
        forall|i: int, j: int|
            0 <= i < lines.len() && 0 <= j < lines[i].len() ==> #[trigger] lines[i][j]
                != LINE_BREAK,
    ensures
        rows_of(broken_lines(lines), width) == lines.len(),
        tail_len(broken_lines(lines)) == 0,
    decreases lines.len(),
{
    if lines.len() > 0 {
        let init = lines.drop_last();
        let line = lines.last();
        assert forall|i: int| 0 <= i < init.len() implies #[trigger] init[i].len() < width by {
            assert(init[i] == lines[i]);
        }
        assert forall|i: int, j: int|
            0 <= i < init.len() && 0 <= j < init[i].len() implies #[trigger] init[i][j]
                != LINE_BREAK by {
            assert(init[i] == lines[i]);
        }
        lemma_short_lines_take_one_row_each(init, width);
        assert(lines[lines.len() - 1] == line);
        assert forall|j: int| 0 <= j < line.len() implies line[j] != LINE_BREAK by {
            assert(lines[lines.len() - 1][j] == line[j]);
        }
        lemma_append_line(broken_lines(init), line, width);
        let s = broken_lines(lines);
        assert(s.drop_last() =~= broken_lines(init) + line);
        assert(line.len() / width == 0) by (nonlinear_arith)
            requires line.len() < width;
    }
}

} // verus!
