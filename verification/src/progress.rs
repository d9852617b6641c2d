//! Progress lines printed while the database is built.
use vstd::prelude::*;

use crate::text::{chars_of, decimal, decimal_chars, string_of};

verus! {

/// Width of the progress bar in characters.
pub const BAR_WIDTH: usize = 36;

/// Width the label is padded to.
pub const LABEL_WIDTH: usize = 28;

/// `s` padded with spaces on the right to `w` characters (`{:<w}`); longer
/// text is kept whole.
pub open spec fn pad_right(s: Seq<char>, w: nat) -> Seq<char> {
    if s.len() >= w {
        s
    } else {
        s + Seq::new((w - s.len()) as nat, |_i: int| ' ')
    }
}

/// `n` copies of `c`.
pub open spec fn repeat(c: char, n: nat) -> Seq<char> {
    Seq::new(n, |_i: int| c)
}

/// How many of the bar's cells are filled: all of them when there is
/// nothing to do, else the done share rounded down.
pub open spec fn filled_cells(current: nat, total: nat) -> nat {
    if total == 0 {
        BAR_WIDTH as nat
    } else {
        current * (BAR_WIDTH as nat) / total
    }
}

/// The bar never overflows and only grows: while `current` stays within
/// `total` at most all cells are filled, more items done never fill fewer
/// cells, and the last item fills them all, as the closing line does.
pub proof fn lemma_filled_cells(c1: nat, c2: nat, total: nat)
    requires
        c1 <= c2 <= total,
    ensures
        filled_cells(c1, total) <= filled_cells(c2, total) <= BAR_WIDTH,
        filled_cells(total, total) == BAR_WIDTH,
{
    if total > 0 {
        let w = BAR_WIDTH as nat;
        assert(c1 * w / total <= c2 * w / total) by (nonlinear_arith)
            requires
                c1 <= c2,
                total > 0,
        {
            assert(c1 * w <= c2 * w);
            vstd::arithmetic::div_mod::lemma_div_is_ordered((c1 * w) as int, (c2 * w) as int, total as int);
        }
        assert(c2 * w / total <= w) by (nonlinear_arith)
            requires
                c2 <= total,
                total > 0,
        {
            assert(c2 * w <= total * w);
            vstd::arithmetic::div_mod::lemma_div_is_ordered((c2 * w) as int, (total * w) as int, total as int);
            vstd::arithmetic::div_mod::lemma_div_multiples_vanish(w as int, total as int);
        }
        assert(total * w / total == w) by (nonlinear_arith)
            requires
                total > 0,
        {
            vstd::arithmetic::div_mod::lemma_div_multiples_vanish(w as int, total as int);
        }
    }
}

/// The progress line `\r  <label> [IIII....] current/total    `.
pub open spec fn progress_text(label: Seq<char>, current: nat, total: nat) -> Seq<char> {
    let filled = filled_cells(current, total);
    seq!['\r', ' ', ' '] + pad_right(label, LABEL_WIDTH as nat) + seq![' ', '['] + repeat(
        'I',
        filled,
    ) + repeat('.', (BAR_WIDTH - filled) as nat) + seq![']', ' '] + decimal(current) + seq!['/']
        + decimal(total) + seq![' ', ' ', ' ', ' ']
}

/// The closing line `\r  <label> [IIII...I] total    ` of a finished step.
pub open spec fn finished_text(label: Seq<char>, total: nat) -> Seq<char> {
    seq!['\r', ' ', ' '] + pad_right(label, LABEL_WIDTH as nat) + seq![' ', '['] + repeat(
        'I',
        BAR_WIDTH as nat,
    ) + seq![']', ' '] + decimal(total) + seq![' ', ' ', ' ', ' ']
}

/// The heading `\n[n/total] label` of a pipeline step.
pub open spec fn step_text(n: nat, total: nat, label: Seq<char>) -> Seq<char> {
    seq!['\n', '['] + decimal(n) + seq!['/'] + decimal(total) + seq![']', ' '] + label
}

/// Appends `n` copies of `c`.
fn push_repeat(out: &mut Vec<char>, c: char, n: usize)
    ensures
        final(out)@ == old(out)@ + repeat(c, n as nat),
{
    let ghost start = out@;
    let mut i: usize = 0;
    while i < n
        invariant
            i <= n,
            out@ =~= start + repeat(c, i as nat),
        decreases n - i,
    {
        out.push(c);
        i = i + 1;
    }
}

/// Appends all of `s`.
fn push_all(out: &mut Vec<char>, s: &Vec<char>)
    ensures
        final(out)@ == old(out)@ + s@,
{
    let ghost start = out@;
    let mut i: usize = 0;
    while i < s.len()
        invariant
            i <= s@.len(),
            out@ =~= start + s@.take(i as int),
        decreases s.len() - i,
    {
        out.push(s[i]);
        i = i + 1;
    }
    assert(s@.take(s@.len() as int) =~= s@);
}

/// Appends `label` padded to the label width.
fn push_label(out: &mut Vec<char>, label: &str)
    ensures
        final(out)@ == old(out)@ + pad_right(label@, LABEL_WIDTH as nat),
{
    let l = chars_of(label);
    push_all(out, &l);
    if l.len() < LABEL_WIDTH {
        push_repeat(out, ' ', LABEL_WIDTH - l.len());
    }
}

/// The progress line for `current` of `total` items.
pub fn progress_line(label: &str, current: usize, total: usize) -> (r: String)
    requires
        current <= usize::MAX / BAR_WIDTH,
        filled_cells(current as nat, total as nat) <= BAR_WIDTH,
    ensures
        r@ == progress_text(label@, current as nat, total as nat),
{
    let filled: usize = if total == 0 {
        BAR_WIDTH
    } else {
        current * BAR_WIDTH / total
    };
    let mut out: Vec<char> = Vec::new();
    out.push('\r');
    out.push(' ');
    out.push(' ');
    push_label(&mut out, label);
    out.push(' ');
    out.push('[');
    push_repeat(&mut out, 'I', filled);
    push_repeat(&mut out, '.', BAR_WIDTH - filled);
    out.push(']');
    out.push(' ');
    push_all(&mut out, &decimal_chars(current as u64));
    out.push('/');
    push_all(&mut out, &decimal_chars(total as u64));
    push_repeat(&mut out, ' ', 4);
    assert(out@ =~= progress_text(label@, current as nat, total as nat));
    string_of(&out)
}

/// The closing line of a finished step over `total` items.
pub fn finish_line(label: &str, total: usize) -> (r: String)
    ensures
        r@ == finished_text(label@, total as nat),
{
    let mut out: Vec<char> = Vec::new();
    out.push('\r');
    out.push(' ');
    out.push(' ');
    push_label(&mut out, label);
    out.push(' ');
    out.push('[');
    push_repeat(&mut out, 'I', BAR_WIDTH);
    out.push(']');
    out.push(' ');
    push_all(&mut out, &decimal_chars(total as u64));
    push_repeat(&mut out, ' ', 4);
    assert(out@ =~= finished_text(label@, total as nat));
    string_of(&out)
}

/// The heading of step `n` of `total`.
pub fn step_line(n: usize, total: usize, label: &str) -> (r: String)
    ensures
        r@ == step_text(n as nat, total as nat, label@),
{
    let mut out: Vec<char> = Vec::new();
    out.push('\n');
    out.push('[');
    push_all(&mut out, &decimal_chars(n as u64));
    out.push('/');
    push_all(&mut out, &decimal_chars(total as u64));
    out.push(']');
    out.push(' ');
    push_all(&mut out, &chars_of(label));
    assert(out@ =~= step_text(n as nat, total as nat, label@));
    string_of(&out)
}

} // verus!
