//! Brackets as nesting: what the jump table means, said without a stack.
//!
//! The nesting depth of a text rises by one at each `[` and falls by one at
//! each `]`. A text is balanced when its depth never falls below zero and
//! ends at zero. The laws here tie the scan of the resolver to that notion:
//! a program is well formed exactly when it is balanced, and the scan links
//! a `[` with a `]` exactly when what stands between the two is balanced.

use vstd::prelude::*;
use crate::brackets::{jump_table, lemma_scan_inv, scan, well_formed};

verus! {

/// What one symbol adds to the nesting depth.
pub open spec fn weight(symbol: char) -> int {
    if symbol == '[' {
        1
    } else if symbol == ']' {
        -1
    } else {
        0
    }
}

/// The nesting depth after the first `n` symbols of `text`: the number of
/// `[` among them minus the number of `]`.
pub open spec fn depth(text: Seq<char>, n: nat) -> int
    recommends
        n <= text.len(),
    decreases n,
{
    if n == 0 {
        0
    } else {
        depth(text, (n - 1) as nat) + weight(text[n - 1])
    }
}

/// A text is balanced when its depth never falls below zero and ends at zero.
pub open spec fn balanced(text: Seq<char>) -> bool {
    &&& depth(text, text.len()) == 0
    &&& forall|k: nat| k <= text.len() ==> #[trigger] depth(text, k) >= 0
}

/// From offset `a` to offset `b` the depth never falls below what it is at `a`.
pub open spec fn stays_above(text: Seq<char>, a: nat, b: nat) -> bool {
    forall|k: nat| a <= k <= b ==> #[trigger] depth(text, k) >= depth(text, a)
}

/// The depth inside a piece of a text is the depth of the text, counted
/// from where the piece begins.
proof fn lemma_depth_of_piece(text: Seq<char>, a: nat, b: nat, k: nat)
    requires
        a <= b <= text.len(),
        k <= b - a,
    ensures
        depth(text.subrange(a as int, b as int), k) == depth(text, a + k) - depth(text, a),
    decreases k,
{
    if k > 0 {
        lemma_depth_of_piece(text, a, b, (k - 1) as nat);
        assert(text.subrange(a as int, b as int)[k - 1] == text[a + k - 1]);
    }
}

/// A piece of a text is balanced exactly when the depth of the text is the
/// same at both ends of the piece and never lower in between.
proof fn lemma_balanced_piece(text: Seq<char>, a: nat, b: nat)
    requires
        a <= b <= text.len(),
    ensures
        balanced(text.subrange(a as int, b as int)) <==> depth(text, b) == depth(text, a)
            && stays_above(text, a, b),
{
    let piece = text.subrange(a as int, b as int);
    lemma_depth_of_piece(text, a, b, (b - a) as nat);
    if balanced(piece) {
        assert forall|k: nat| a <= k <= b implies #[trigger] depth(text, k) >= depth(text, a) by {
            lemma_depth_of_piece(text, a, b, (k - a) as nat);
            assert(depth(piece, (k - a) as nat) >= 0);
        }
    }
    if depth(text, b) == depth(text, a) && stays_above(text, a, b) {
        assert forall|k: nat| k <= piece.len() implies #[trigger] depth(piece, k) >= 0 by {
            lemma_depth_of_piece(text, a, b, k);
            assert(depth(text, a + k) >= depth(text, a));
        }
    }
}

/// The depth is the number of open brackets minus the number of stray ones.
proof fn lemma_depth_counts(program: Seq<char>, n: nat)
    requires
        n <= program.len() <= usize::MAX,
    ensures
        depth(program, n) == scan(program, n).open.len() - scan(program, n).stray.len(),
    decreases n,
{
    if n > 0 {
        lemma_depth_counts(program, (n - 1) as nat);
    }
}

/// A stray bracket stays stray.
proof fn lemma_stray_grows(program: Seq<char>, n: nat, m: nat)
    requires
        n <= m <= program.len() <= usize::MAX,
    ensures
        scan(program, n).stray.len() <= scan(program, m).stray.len(),
    decreases m - n,
{
    if m > n {
        lemma_stray_grows(program, n, (m - 1) as nat);
    }
}

/// Where the depth never falls below zero, no bracket is stray.
proof fn lemma_no_stray(program: Seq<char>, n: nat)
    requires
        n <= program.len() <= usize::MAX,
        forall|k: nat| k <= n ==> #[trigger] depth(program, k) >= 0,
    ensures
        scan(program, n).stray.len() == 0,
    decreases n,
{
    if n > 0 {
        lemma_no_stray(program, (n - 1) as nat);
        lemma_depth_counts(program, (n - 1) as nat);
        assert(depth(program, n) >= 0);
    }
}

/// A program is well formed exactly when it is balanced.
pub proof fn lemma_well_formed_iff_balanced(program: Seq<char>)
    requires
        program.len() <= usize::MAX,
    ensures
        well_formed(program) <==> balanced(program),
{
    lemma_depth_counts(program, program.len());
    if well_formed(program) {
        assert forall|k: nat| k <= program.len() implies #[trigger] depth(program, k) >= 0 by {
            lemma_depth_counts(program, k);
            lemma_stray_grows(program, k, program.len());
        }
    }
    if balanced(program) {
        lemma_no_stray(program, program.len());
    }
}

/// Every open bracket of the scan has, to its right, a stretch whose depth
/// never falls below its start and ends as many levels up as there are open
/// brackets after it; every link of the scan encloses a stretch that ends on
/// the level where it starts and never falls below it.
proof fn lemma_enclosure(program: Seq<char>, n: nat)
    requires
        n <= program.len() <= usize::MAX,
    ensures
        forall|x: int|
            0 <= x < scan(program, n).open.len() ==> {
                let o = #[trigger] scan(program, n).open[x];
                &&& depth(program, n) - depth(program, (o + 1) as nat) == scan(
                    program,
                    n,
                ).open.len() - 1 - x
                &&& stays_above(program, (o + 1) as nat, n)
            },
        forall|k: usize|
            #[trigger] scan(program, n).table.contains_key(k) && program[k as int] == '[' ==> {
                let partner = scan(program, n).table[k];
                &&& depth(program, partner as nat) == depth(program, (k + 1) as nat)
                &&& stays_above(program, (k + 1) as nat, partner as nat)
            },
    decreases n,
{
    if n > 0 {
        let m = (n - 1) as nat;
        lemma_enclosure(program, m);
        lemma_scan_inv(program, m);
        lemma_scan_inv(program, n);
        let before = scan(program, m);
        let after = scan(program, n);
        let symbol = program[n - 1];
        assert forall|x: int| 0 <= x < after.open.len() implies {
            let o = #[trigger] after.open[x];
            &&& depth(program, n) - depth(program, (o + 1) as nat) == after.open.len() - 1 - x
            &&& stays_above(program, (o + 1) as nat, n)
        } by {
            let o = after.open[x];
            if symbol == '[' && x == after.open.len() - 1 {
                assert(o == n - 1);
            } else {
                assert(o == before.open[x]);
                assert(stays_above(program, (o + 1) as nat, m));
                assert forall|k: nat| (o + 1) as nat <= k <= n implies #[trigger] depth(program, k)
                    >= depth(program, (o + 1) as nat) by {
                    if k < n {
                        assert(depth(program, k) >= depth(program, (o + 1) as nat));
                    }
                }
            }
        }
        assert forall|k: usize| #[trigger]
            after.table.contains_key(k) && program[k as int] == '[' implies {
            let partner = after.table[k];
            &&& depth(program, partner as nat) == depth(program, (k + 1) as nat)
            &&& stays_above(program, (k + 1) as nat, partner as nat)
        } by {
            if before.table.contains_key(k) {
                assert(after.table[k] == before.table[k]);
            } else {
                assert(symbol == ']' && before.open.len() > 0);
                assert(k == before.open[before.open.len() - 1]);
                assert(after.table[k] == n - 1);
            }
        }
    }
}

/// While the depth does not fall below what it is at `a`, the brackets that
/// were open at `a` stay open, and what is open beyond them is as many
/// brackets as the depth has risen.
proof fn lemma_stack_kept(program: Seq<char>, a: nat, m: nat)
    requires
        a <= m <= program.len() <= usize::MAX,
        stays_above(program, a, m),
    ensures
        scan(program, m).open.len() == scan(program, a).open.len() + depth(program, m) - depth(
            program,
            a,
        ),
        scan(program, m).open.take(scan(program, a).open.len() as int) == scan(program, a).open,
    decreases m - a,
{
    let start = scan(program, a).open;
    if m == a {
        assert(start.take(start.len() as int) =~= start);
    } else {
        let before = scan(program, (m - 1) as nat).open;
        let after = scan(program, m).open;
        assert(stays_above(program, a, (m - 1) as nat));
        lemma_stack_kept(program, a, (m - 1) as nat);
        assert(depth(program, m) >= depth(program, a));
        assert(after.take(start.len() as int) =~= before.take(start.len() as int));
    }
}

/// A link, once made, is never changed.
proof fn lemma_links_kept(program: Seq<char>, n: nat, m: nat, k: usize)
    requires
        n <= m <= program.len() <= usize::MAX,
        scan(program, n).table.contains_key(k),
    ensures
        scan(program, m).table.contains_key(k),
        scan(program, m).table[k] == scan(program, n).table[k],
    decreases m - n,
{
    if m > n {
        lemma_links_kept(program, n, (m - 1) as nat, k);
        lemma_scan_inv(program, (m - 1) as nat);
        let before = scan(program, (m - 1) as nat);
        if program[m - 1] == ']' && before.open.len() > 0 {
            assert(k != before.open[before.open.len() - 1]);
        }
    }
}

/// The jump table links a `[` with a `]` to its right exactly when what
/// stands between the two is balanced.
pub proof fn lemma_linked_iff_balanced_between(program: Seq<char>, i: usize, j: usize)
    requires
        i < j < program.len() <= usize::MAX,
        program[i as int] == '[',
        program[j as int] == ']',
    ensures
        jump_table(program).contains_key(i) && jump_table(program)[i] == j <==> balanced(
            program.subrange(i + 1, j as int),
        ),
{
    let inner = (i + 1) as nat;
    lemma_balanced_piece(program, inner, j as nat);
    if jump_table(program).contains_key(i) && jump_table(program)[i] == j {
        lemma_enclosure(program, program.len());
    }
    if balanced(program.subrange(i + 1, j as int)) {
        lemma_stack_kept(program, inner, j as nat);
        let pushed = scan(program, inner).open;
        let kept = scan(program, j as nat).open;
        assert(pushed[pushed.len() - 1] == i);
        assert(kept.take(pushed.len() as int) =~= kept);
        assert(kept.last() == i);
        assert(scan(program, (j + 1) as nat).table.contains_key(i));
        assert(scan(program, (j + 1) as nat).table[i] == j);
        lemma_links_kept(program, (j + 1) as nat, program.len(), i);
    }
}

} // verus!
