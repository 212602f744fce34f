//! What it means to resolve the loop brackets of a program.
//!
//! The program is read once, left to right, with a stack of the `[` that are
//! still open. A `]` closes the most recent open `[` and the two offsets are
//! linked in both directions; a `]` that finds the stack empty is stray. What
//! is left on the stack at the end was never closed.

use vstd::prelude::*;
use crate::errors::{BFParseError, ErrorRecord};

verus! {

/// What is known after reading a prefix of the program.
pub struct Scan {
    /// Offsets of the `[` that are still open, outermost first.
    pub open: Seq<usize>,
    /// The links made so far, each in both directions.
    pub table: Map<usize, usize>,
    /// Offsets of the `]` that had nothing to close, in the order found.
    pub stray: Seq<usize>,
}

impl Scan {
    /// Whether the bracket at `p` is linked, still open, or stray.
    pub open spec fn accounts_for(self, p: usize) -> bool {
        self.table.contains_key(p) || self.open.contains(p) || self.stray.contains(p)
    }
}

/// The state of the scan after the first `n` symbols of `program`.
pub open spec fn scan(program: Seq<char>, n: nat) -> Scan
    recommends
        n <= program.len() <= usize::MAX,
    decreases n,
{
    if n == 0 {
        Scan { open: Seq::empty(), table: Map::empty(), stray: Seq::empty() }
    } else {
        let before = scan(program, (n - 1) as nat);
        let here = (n - 1) as usize;
        let symbol = program[n - 1];
        if symbol == '[' {
            Scan { open: before.open.push(here), ..before }
        } else if symbol == ']' {
            if before.open.len() == 0 {
                Scan { stray: before.stray.push(here), ..before }
            } else {
                let partner = before.open.last();
                Scan {
                    open: before.open.drop_last(),
                    table: before.table.insert(here, partner).insert(partner, here),
                    ..before
                }
            }
        } else {
            before
        }
    }
}

/// The jump table of a program: every link that the scan makes.
pub open spec fn jump_table(program: Seq<char>) -> Map<usize, usize> {
    scan(program, program.len()).table
}

/// A program is well formed when no bracket is left without a partner.
pub open spec fn well_formed(program: Seq<char>) -> bool {
    let end = scan(program, program.len());
    end.open.len() == 0 && end.stray.len() == 0
}

/// The record of one unmatched bracket, before its context is rendered.
pub open spec fn bracket_error(kind: BFParseError, pos: usize) -> ErrorRecord {
    ErrorRecord { file: None, kind, pos: Some(pos as nat), area: None, args: None }
}

/// One record of the given kind for each offset, in the order of the offsets.
pub open spec fn bracket_records(kind: BFParseError, offsets: Seq<usize>) -> Seq<ErrorRecord> {
    offsets.map_values(|pos: usize| bracket_error(kind, pos))
}

/// The diagnostics of a program's brackets: first every stray `]` in the
/// order found, then every `[` that was never closed, the innermost first.
pub open spec fn bracket_errors(program: Seq<char>) -> Seq<ErrorRecord> {
    let end = scan(program, program.len());
    bracket_records(BFParseError::BraNoOpen, end.stray) + bracket_records(
        BFParseError::BraNoClose,
        end.open.reverse(),
    )
}

/// Whether `symbol` is one of the two loop brackets.
pub open spec fn is_bracket(symbol: char) -> bool {
    symbol == '[' || symbol == ']'
}

/// The link of `k` in `table` joins a `[` on the left with a `]` on the right.
pub open spec fn links_pair(program: Seq<char>, table: Map<usize, usize>, k: usize) -> bool {
    let partner = table[k];
    &&& table.contains_key(partner)
    &&& table[partner] == k
    &&& if program[k as int] == '[' {
        program[partner as int] == ']' && k < partner
    } else {
        program[k as int] == ']' && program[partner as int] == '[' && partner < k
    }
}

/// What holds of the scan after every prefix.
pub open spec fn scan_inv(program: Seq<char>, n: nat, s: Scan) -> bool {
    &&& forall|k: usize| #[trigger]
        s.table.contains_key(k) ==> k < n && s.table[k] < n && links_pair(program, s.table, k)
    &&& forall|a: int|
        0 <= a < s.open.len() ==> (#[trigger] s.open[a]) < n && program[s.open[a] as int] == '['
            && !s.table.contains_key(s.open[a])
    &&& forall|a: int, b: int|
        0 <= a < b < s.open.len() ==> (#[trigger] s.open[a]) < (#[trigger] s.open[b])
    &&& forall|a: int|
        0 <= a < s.stray.len() ==> (#[trigger] s.stray[a]) < n && program[s.stray[a] as int] == ']'
            && !s.table.contains_key(s.stray[a])
    &&& forall|a: int, b: int|
        0 <= a < b < s.stray.len() ==> (#[trigger] s.stray[a]) < (#[trigger] s.stray[b])
    &&& forall|p: usize| p < n && is_bracket(#[trigger] program[p as int]) ==> s.accounts_for(p)
}

/// The scan keeps its invariant over every prefix of the program.
pub proof fn lemma_scan_inv(program: Seq<char>, n: nat)
    requires
        n <= program.len() <= usize::MAX,
    ensures
        scan_inv(program, n, scan(program, n)),
    decreases n,
{
    if n > 0 {
        lemma_scan_inv(program, (n - 1) as nat);
        let before = scan(program, (n - 1) as nat);
        let after = scan(program, n);
        let here = (n - 1) as usize;
        let symbol = program[n - 1];
        let pushed = symbol == '[';
        let strayed = symbol == ']' && before.open.len() == 0;
        let linked = symbol == ']' && before.open.len() > 0;
        assert forall|p: usize| p < n && is_bracket(#[trigger] program[p as int]) implies
            after.accounts_for(p) by {
            if p == here {
                if pushed {
                    assert(after.open[after.open.len() - 1] == here);
                } else if strayed {
                    assert(after.stray[after.stray.len() - 1] == here);
                }
            } else if before.open.contains(p) {
                let a = choose|a: int| 0 <= a < before.open.len() && before.open[a] == p;
                if !linked || a < before.open.len() - 1 {
                    assert(after.open[a] == p);
                }
            } else if before.stray.contains(p) {
                let a = choose|a: int| 0 <= a < before.stray.len() && before.stray[a] == p;
                assert(after.stray[a] == p);
            }
        }
        if linked {
            let partner = before.open[before.open.len() - 1];
            assert forall|k: usize| #[trigger] after.table.contains_key(k) implies k < n
                && after.table[k] < n && links_pair(program, after.table, k) by {
                if k != here && k != partner {
                    assert(links_pair(program, before.table, k));
                    assert(before.table.contains_key(before.table[k]));
                }
            }
            assert forall|a: int| 0 <= a < after.open.len() implies (#[trigger] after.open[a]) < n
                && program[after.open[a] as int] == '[' && !after.table.contains_key(
                after.open[a],
            ) by {
                assert(after.open[a] == before.open[a]);
            }
        }
    }
}

/// The jump table is symmetric: the partner of the partner of a bracket is
/// the bracket itself.
pub proof fn lemma_jump_table_symmetric(program: Seq<char>, x: usize)
    requires
        program.len() <= usize::MAX,
        jump_table(program).contains_key(x),
    ensures
        jump_table(program).contains_key(jump_table(program)[x]),
        jump_table(program)[jump_table(program)[x]] == x,
{
    lemma_scan_inv(program, program.len());
}

/// Every link of the jump table joins a `[` with a `]` to its right, both
/// inside the program.
pub proof fn lemma_jump_table_pairs(program: Seq<char>, x: usize)
    requires
        program.len() <= usize::MAX,
        jump_table(program).contains_key(x),
    ensures
        x < program.len(),
        jump_table(program)[x] < program.len(),
        is_bracket(program[x as int]),
        program[x as int] == '[' ==> program[jump_table(program)[x] as int] == ']' && x
            < jump_table(program)[x],
        program[x as int] == ']' ==> program[jump_table(program)[x] as int] == '['
            && jump_table(program)[x] < x,
{
    lemma_scan_inv(program, program.len());
}

/// No two brackets share a partner.
pub proof fn lemma_jump_table_injective(program: Seq<char>, x: usize, y: usize)
    requires
        program.len() <= usize::MAX,
        jump_table(program).contains_key(x),
        jump_table(program).contains_key(y),
        jump_table(program)[x] == jump_table(program)[y],
    ensures
        x == y,
{
    lemma_scan_inv(program, program.len());
}

/// Every bracket is accounted for exactly once: a `[` is either linked or
/// reported as never closed, a `]` is either linked or reported as stray.
pub proof fn lemma_brackets_accounted(program: Seq<char>, p: usize)
    requires
        p < program.len() <= usize::MAX,
        is_bracket(program[p as int]),
    ensures
        program[p as int] == '[' ==> jump_table(program).contains_key(p) != scan(
            program,
            program.len(),
        ).open.contains(p),
        program[p as int] == ']' ==> jump_table(program).contains_key(p) != scan(
            program,
            program.len(),
        ).stray.contains(p),
        program[p as int] == '[' ==> !scan(program, program.len()).stray.contains(p),
        program[p as int] == ']' ==> !scan(program, program.len()).open.contains(p),
{
    lemma_scan_inv(program, program.len());
}

/// In a well-formed program the jump table is total over the brackets.
pub proof fn lemma_jump_table_total(program: Seq<char>, p: usize)
    requires
        p < program.len() <= usize::MAX,
        well_formed(program),
        is_bracket(program[p as int]),
    ensures
        jump_table(program).contains_key(p),
{
    lemma_scan_inv(program, program.len());
    let end = scan(program, program.len());
    assert(!end.open.contains(p));
    assert(!end.stray.contains(p));
}

} // verus!
