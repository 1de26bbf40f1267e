//! The kernel's interrupt-counter table: one header row naming the CPUs, then
//! one row per interrupt line with a count per CPU and free-form annotation.

use crate::number::{parse_number, parse_u64};
use crate::text::{chars_of, seqs, split_lines, split_words, string_of, strip_trailing, without_trailing, words, lines};
use vstd::prelude::*;

verus! {

/// One interrupt line at a moment in time.
#[derive(Debug, Clone)]
pub struct InterruptSource {
    /// Identifier of the line, such as `42`, `NMI` or `LOC`.
    pub irq: String,
    /// Interrupts counted so far, over all CPUs.
    pub count: u64,
}

/// What an [`InterruptSource`] stands for.
pub struct CounterRow {
    pub irq: Seq<char>,
    pub count: nat,
}

impl View for InterruptSource {
    type V = CounterRow;

    open spec fn view(&self) -> CounterRow {
        CounterRow { irq: self.irq@, count: self.count as nat }
    }
}

/// Why a counter table could not be read.
#[derive(Debug, Clone, Copy, PartialEq, Eq, Structural)]
pub enum TableError {
    /// The text holds no line at all, not even the header.
    Empty,
}

impl TableError {
    /// A sentence that describes the error.
    pub fn message(&self) -> (out: String)
        ensures
            out@ == "empty interrupt table"@,
    {
        "empty interrupt table".to_owned()
    }
}

/// The rows that a sequence of sources stands for.
pub open spec fn rows(v: Seq<InterruptSource>) -> Seq<CounterRow> {
    Seq::new(v.len(), |i: int| v[i]@)
}

/// The sum of the leading columns of `cols` that are decimal numbers of at
/// most 64 bits, no more than `limit` of them.  The first column that is no
/// such number ends the sum, and so does the end of the row.
pub open spec fn column_sum(cols: Seq<Seq<char>>, limit: nat) -> nat
    decreases cols.len(),
{
    if limit == 0 || cols.len() == 0 {
        0
    } else {
        match parse_u64(cols[0]) {
            Some(n) => n + column_sum(cols.drop_first(), (limit - 1) as nat),
            None => 0,
        }
    }
}

/// The sum of all of `values`.
pub open spec fn total(values: Seq<nat>) -> nat
    decreases values.len(),
{
    if values.len() == 0 {
        0
    } else {
        values[0] + total(values.drop_first())
    }
}

/// The smaller of `n` and the largest 64-bit value.
pub open spec fn clamp_u64(n: nat) -> nat {
    if n > u64::MAX {
        u64::MAX as nat
    } else {
        n
    }
}

/// The row that a line of the table stands for, where the table has
/// `cpu_count` CPU columns.  A blank line stands for none.  The first word,
/// without trailing colons, names the interrupt line; the count is the sum of
/// the CPU columns, held at the largest 64-bit value where it would exceed it.
pub open spec fn row_of(line: Seq<char>, cpu_count: nat) -> Option<CounterRow> {
    let parts = words(line);
    if parts.len() == 0 {
        None
    } else {
        Some(
            CounterRow {
                irq: strip_trailing(parts[0], ':'),
                count: clamp_u64(column_sum(parts.skip(1), cpu_count)),
            },
        )
    }
}

/// The rows that the lines `ls` stand for, blank lines left out.
pub open spec fn rows_of(ls: Seq<Seq<char>>, cpu_count: nat) -> Seq<CounterRow>
    decreases ls.len(),
{
    if ls.len() == 0 {
        Seq::empty()
    } else {
        match row_of(ls[0], cpu_count) {
            Some(r) => seq![r] + rows_of(ls.drop_first(), cpu_count),
            None => rows_of(ls.drop_first(), cpu_count),
        }
    }
}

/// The rows of a whole table.  The first line is the header: it has one word
/// per CPU.  A text without any line is no table.
pub open spec fn table_of(content: Seq<char>) -> Option<Seq<CounterRow>> {
    let ls = lines(content);
    if ls.len() == 0 {
        None
    } else {
        Some(rows_of(ls.skip(1), words(ls[0]).len()))
    }
}

/// The count of the last row of `table` that names `irq`, if any does.
pub open spec fn last_count(table: Seq<CounterRow>, irq: Seq<char>) -> Option<nat>
    decreases table.len(),
{
    if table.len() == 0 {
        None
    } else if table.last().irq == irq {
        Some(table.last().count)
    } else {
        last_count(table.drop_last(), irq)
    }
}

/// A row's count is the plain sum of its CPU columns: where the first `k`
/// columns are numbers and either the CPUs end there, or the row, or the next
/// column is no number (the annotation), the column sum is the sum of those
/// `k` numbers.
pub proof fn lemma_column_sum_is_total(cols: Seq<Seq<char>>, limit: nat, k: nat)
    requires
        k <= limit,
        k <= cols.len(),
        forall|i: int| 0 <= i < k ==> parse_u64(#[trigger] cols[i]) is Some,
        k == limit || k == cols.len() || parse_u64(cols[k as int]) is None,
    ensures
        column_sum(cols, limit) == total(Seq::new(k, |i: int| parse_u64(cols[i])->0)),
    decreases k,
{
    let values = Seq::new(k, |i: int| parse_u64(cols[i])->0);
    if k == 0 {
    } else {
        let rest = cols.drop_first();
        assert(parse_u64(cols[0]) is Some);
        assert forall|i: int| 0 <= i < k - 1 implies parse_u64(#[trigger] rest[i]) is Some by {
            assert(rest[i] == cols[i + 1]);
        }
        if k - 1 < rest.len() {
            assert(rest[k - 1] == cols[k as int]);
        }
        lemma_column_sum_is_total(rest, (limit - 1) as nat, (k - 1) as nat);
        assert(values.drop_first() =~= Seq::new((k - 1) as nat, |i: int| parse_u64(rest[i])->0));
    }
}

/// For any line of a counter table, the count of its row is the sum of its
/// CPU columns, the annotation after them left aside, as long as that sum fits
/// 64 bits.
pub proof fn lemma_row_count_is_sum(line: Seq<char>, cpu_count: nat, k: nat)
    requires
        words(line).len() > 0,
        k <= cpu_count,
        k + 1 <= words(line).len(),
        forall|i: int| 1 <= i <= k ==> parse_u64(#[trigger] words(line)[i]) is Some,
        k == cpu_count || k + 1 == words(line).len() || parse_u64(words(line)[k as int + 1]) is None,
        total(Seq::new(k, |i: int| parse_u64(words(line)[i + 1])->0)) <= u64::MAX,
    ensures
        row_of(line, cpu_count) is Some,
        row_of(line, cpu_count)->0.count == total(
            Seq::new(k, |i: int| parse_u64(words(line)[i + 1])->0),
        ),
{
    let cols = words(line).skip(1);
    assert forall|i: int| 0 <= i < k implies parse_u64(#[trigger] cols[i]) is Some by {
        assert(cols[i] == words(line)[i + 1]);
    }
    if k < cols.len() {
        assert(cols[k as int] == words(line)[k as int + 1]);
    }
    lemma_column_sum_is_total(cols, cpu_count, k);
    assert(Seq::new(k, |i: int| parse_u64(cols[i])->0) =~= Seq::new(
        k,
        |i: int| parse_u64(words(line)[i + 1])->0,
    ));
}

/// Reads one line of the table, given as characters.
fn parse_row(line: &Vec<char>, cpu_count: usize) -> (out: Option<InterruptSource>)
    ensures
        match out {
            Some(src) => row_of(line@, cpu_count as nat) == Some(src@),
            None => row_of(line@, cpu_count as nat) is None,
        },
{
    let parts = split_words(line);
    if parts.len() == 0 {
        return None;
    }
    let ghost cols = words(line@).skip(1);
    assert(seqs(parts@)[0] == parts@[0]@);
    let irq = string_of(&without_trailing(&parts[0], ':'));
    let mut count: u64 = 0;
    let ghost mut sum: nat = 0;
    let mut idx: usize = 1;
    assert(cols.skip(0) =~= cols);
    while idx < parts.len() && idx <= cpu_count
        invariant
            1 <= idx <= parts.len(),
            idx <= cpu_count + 1,
            seqs(parts@) == words(line@),
            cols == words(line@).skip(1),
            count == clamp_u64(sum),
            sum + column_sum(cols.skip(idx - 1), (cpu_count - (idx - 1)) as nat) == column_sum(
                cols,
                cpu_count as nat,
            ),
        ensures
            count == clamp_u64(column_sum(cols, cpu_count as nat)),
        decreases parts.len() - idx,
    {
        let ghost rest = cols.skip(idx - 1);
        proof {
            assert(rest[0] == seqs(parts@)[idx as int]);
            assert(rest.drop_first() =~= cols.skip(idx as int));
        }
        match parse_number(&parts[idx], 10, u64::MAX) {
            Some(n) => {
                count = count.saturating_add(n);
                proof {
                    sum = sum + n as nat;
                }
                idx += 1;
            },
            None => {
                break ;
            },
        }
    }
    Some(InterruptSource { irq, count })
}

/// Reads one line of the table.  `cpu_count` is the number of CPU columns.
pub fn parse_interrupt_line(line: &str, cpu_count: usize) -> (out: Option<InterruptSource>)
    ensures
        match out {
            Some(src) => row_of(line@, cpu_count as nat) == Some(src@),
            None => row_of(line@, cpu_count as nat) is None,
        },
{
    parse_row(&chars_of(line), cpu_count)
}

/// Reads a whole counter table.
pub fn parse_interrupts(content: &str) -> (out: Result<Vec<InterruptSource>, TableError>)
    ensures
        match out {
            Ok(sources) => table_of(content@) == Some(rows(sources@)),
            Err(e) => table_of(content@) is None && e == TableError::Empty,
        },
{
    let ls = split_lines(&chars_of(content));
    if ls.len() == 0 {
        return Err(TableError::Empty);
    }
    assert(seqs(ls@)[0] == ls@[0]@);
    let cpu_count = split_words(&ls[0]).len();
    let ghost body = lines(content@).skip(1);
    let mut sources: Vec<InterruptSource> = Vec::new();
    let mut i: usize = 1;
    proof {
        assert(body.skip(0) =~= body);
        assert(rows(sources@) + rows_of(body, cpu_count as nat) =~= rows_of(body, cpu_count as nat));
    }
    while i < ls.len()
        invariant
            1 <= i <= ls.len(),
            seqs(ls@) == lines(content@),
            body == lines(content@).skip(1),
            rows(sources@) + rows_of(body.skip(i - 1), cpu_count as nat) == rows_of(
                body,
                cpu_count as nat,
            ),
        decreases ls.len() - i,
    {
        let ghost rest = body.skip(i - 1);
        proof {
            assert(rest[0] == seqs(ls@)[i as int]);
            assert(rest.drop_first() =~= body.skip(i as int));
        }
        match parse_row(&ls[i], cpu_count) {
            Some(source) => {
                proof {
                    assert(rows(sources@.push(source)) =~= rows(sources@) + seq![source@]);
                    assert(rows(sources@) + (seq![source@] + rows_of(
                        body.skip(i as int),
                        cpu_count as nat,
                    )) =~= (rows(sources@) + seq![source@]) + rows_of(
                        body.skip(i as int),
                        cpu_count as nat,
                    ));
                }
                sources.push(source);
            },
            None => {},
        }
        i += 1;
    }
    proof {
        assert(body.skip(ls.len() - 1).len() == 0);
        assert(rows(sources@) + Seq::<CounterRow>::empty() =~= rows(sources@));
    }
    Ok(sources)
}

/// The count that a snapshot holds for the interrupt line `irq`: that of the
/// last row that names it.
pub fn count_for(snapshot: &Vec<InterruptSource>, irq: &String) -> (out: Option<u64>)
    ensures
        out is Some == last_count(rows(snapshot@), irq@) is Some,
        out is Some ==> out->0 == last_count(rows(snapshot@), irq@)->0,
{
    let mut i: usize = snapshot.len();
    assert(rows(snapshot@).take(i as int) =~= rows(snapshot@));
    while i > 0
        invariant
            i <= snapshot.len(),
            last_count(rows(snapshot@).take(i as int), irq@) == last_count(rows(snapshot@), irq@),
        decreases i,
    {
        let ghost prefix = rows(snapshot@).take(i as int);
        proof {
            assert(prefix.last() == snapshot@[i - 1]@);
            assert(prefix.drop_last() =~= rows(snapshot@).take(i - 1));
        }
        if snapshot[i - 1].irq == *irq {
            return Some(snapshot[i - 1].count);
        }
        i -= 1;
    }
    None
}

} // verus!
