//! What one move does to one line of tiles: the tiles slide to its start,
//! neighbours merge pairwise from the start on, and the tiles slide again.

use vstd::prelude::*;

use crate::tile::{merge_is_defined, merge_result, mergeable, Tile};

verus! {

/// The non-empty tiles of `s`, in their order.
pub open spec fn non_empty(s: Seq<Tile>) -> Seq<Tile>
    decreases s.len(),
{
    if s.len() == 0 {
        Seq::empty()
    } else if s.last() == Tile::Empty {
        non_empty(s.drop_last())
    } else {
        non_empty(s.drop_last()).push(s.last())
    }
}

/// `n` empty tiles.
pub open spec fn empties(n: nat) -> Seq<Tile> {
    Seq::new(n, |i: int| Tile::Empty)
}

/// `s` with every tile slid as far as possible toward its start: the non-empty
/// tiles in their order, then empty tiles up to the same length.
pub open spec fn slid(s: Seq<Tile>) -> Seq<Tile> {
    non_empty(s) + empties((s.len() - non_empty(s).len()) as nat)
}

/// Whether no empty tile of `s` comes before a non-empty one.
pub open spec fn is_slid(s: Seq<Tile>) -> bool {
    forall|a: int, b: int|
        #![trigger s[a], s[b]]
        0 <= a < b < s.len() && s[a] == Tile::Empty ==> s[b] == Tile::Empty
}

/// `s` after merging its tiles at `k` and `k + 1`.
pub open spec fn merge_at(s: Seq<Tile>, k: int) -> Seq<Tile> {
    let r = merge_result(s[k], s[k + 1]);
    s.update(k, r.0).update(k + 1, r.1)
}

/// `s` after merging the pairs of neighbours at `0, 1`, then `1, 2`, up to
/// `k - 1, k`, each on the result of the one before.
pub open spec fn merged(s: Seq<Tile>, k: nat) -> Seq<Tile>
    decreases k,
{
    if k == 0 {
        s
    } else {
        merge_at(merged(s, (k - 1) as nat), k - 1)
    }
}

/// The sum of the scores of the first `k` merges of `merged`.
pub open spec fn merged_score(s: Seq<Tile>, k: nat) -> int
    decreases k,
{
    if k == 0 {
        0
    } else {
        let t = merged(s, (k - 1) as nat);
        merged_score(s, (k - 1) as nat) + merge_result(t[k - 1], t[k as int]).2
    }
}

/// Whether the first `k` merges are each defined and every running total of
/// their scores fits in an `i16`.
pub open spec fn merges_defined(s: Seq<Tile>, k: nat) -> bool
    decreases k,
{
    if k == 0 {
        true
    } else {
        let t = merged(s, (k - 1) as nat);
        &&& merges_defined(s, (k - 1) as nat)
        &&& merge_is_defined(t[k - 1], t[k as int])
        &&& i16::MIN <= merged_score(s, k) <= i16::MAX
    }
}

/// The number of pairs of neighbours in a line of `n` tiles.
pub open spec fn pair_count(n: nat) -> nat {
    if n == 0 {
        0
    } else {
        (n - 1) as nat
    }
}

/// A line after one move: slide, merge the neighbours from the start on, slide again.
pub open spec fn moved(s: Seq<Tile>) -> Seq<Tile> {
    slid(merged(slid(s), pair_count(s.len())))
}

/// The score of one move of a line.
pub open spec fn move_score(s: Seq<Tile>) -> int {
    merged_score(slid(s), pair_count(s.len()))
}

/// Whether one move of the line stays within the arithmetic it is written for.
pub open spec fn move_defined(s: Seq<Tile>) -> bool {
    merges_defined(slid(s), pair_count(s.len()))
}

pub proof fn lemma_non_empty_len(s: Seq<Tile>)
    ensures
        non_empty(s).len() <= s.len(),
        forall|i: int| 0 <= i < non_empty(s).len() ==> #[trigger] non_empty(s)[i] != Tile::Empty,
    decreases s.len(),
{
    if s.len() > 0 {
        lemma_non_empty_len(s.drop_last());
    }
}

pub proof fn lemma_non_empty_concat(a: Seq<Tile>, b: Seq<Tile>)
    ensures
        non_empty(a + b) == non_empty(a) + non_empty(b),
    decreases b.len(),
{
    if b.len() == 0 {
        assert(a + b =~= a);
        assert(non_empty(a) + non_empty(b) =~= non_empty(a));
    } else {
        lemma_non_empty_concat(a, b.drop_last());
        assert((a + b).drop_last() =~= a + b.drop_last());
        assert((a + b).last() == b.last());
        if b.last() == Tile::Empty {
        } else {
            assert(non_empty(a) + non_empty(b.drop_last()).push(b.last()) =~= (non_empty(a)
                + non_empty(b.drop_last())).push(b.last()));
        }
    }
}

pub proof fn lemma_non_empty_of_empties(s: Seq<Tile>)
    requires
        forall|i: int| 0 <= i < s.len() ==> #[trigger] s[i] == Tile::Empty,
    ensures
        non_empty(s) == Seq::<Tile>::empty(),
    decreases s.len(),
{
    if s.len() > 0 {
        lemma_non_empty_of_empties(s.drop_last());
    }
}

pub proof fn lemma_non_empty_of_full(s: Seq<Tile>)
    requires
        forall|i: int| 0 <= i < s.len() ==> #[trigger] s[i] != Tile::Empty,
    ensures
        non_empty(s) == s,
    decreases s.len(),
{
    if s.len() > 0 {
        lemma_non_empty_of_full(s.drop_last());
        assert(s.drop_last().push(s.last()) =~= s);
    }
}

/// Moving the first non-empty tile after an empty one into its place keeps the
/// non-empty tiles and their order.
pub proof fn lemma_swap_keeps_non_empty(c: Seq<Tile>, i: int, j: int)
    requires
        0 <= i < j < c.len(),
        c[i] == Tile::Empty,
        c[j] != Tile::Empty,
        forall|m: int| i < m < j ==> #[trigger] c[m] == Tile::Empty,
    ensures
        non_empty(c.update(i, c[j]).update(j, c[i])) == non_empty(c),
{
    let d = c.update(i, c[j]).update(j, c[i]);
    let pre = c.subrange(0, i);
    let post = c.subrange(j + 1, c.len() as int);
    let gap = c.subrange(i, j);
    let gap2 = d.subrange(i + 1, j + 1);
    assert(c =~= pre + (gap + seq![c[j]]) + post);
    assert(d =~= pre + (seq![c[j]] + gap2) + post);
    lemma_non_empty_of_empties(gap);
    lemma_non_empty_of_empties(gap2);
    lemma_non_empty_of_full(seq![c[j]]);
    lemma_non_empty_concat(gap, seq![c[j]]);
    lemma_non_empty_concat(seq![c[j]], gap2);
    lemma_non_empty_concat(pre, gap + seq![c[j]]);
    lemma_non_empty_concat(pre + (gap + seq![c[j]]), post);
    lemma_non_empty_concat(pre, seq![c[j]] + gap2);
    lemma_non_empty_concat(pre + (seq![c[j]] + gap2), post);
    assert(non_empty(gap) + non_empty(seq![c[j]]) =~= seq![c[j]]);
    assert(non_empty(seq![c[j]]) + non_empty(gap2) =~= seq![c[j]]);
}

/// A line in which no empty tile comes before a non-empty one is already slid.
pub proof fn lemma_slid_when_sorted(c: Seq<Tile>)
    requires
        is_slid(c),
    ensures
        slid(c) == c,
    decreases c.len(),
{
    if c.len() == 0 {
        assert(slid(c) =~= c);
    } else if c.last() == Tile::Empty {
        let d = c.drop_last();
        assert(is_slid(d)) by {
            assert forall|a: int, b: int|
                #![trigger d[a], d[b]]
                0 <= a < b < d.len() && d[a] == Tile::Empty implies d[b] == Tile::Empty by {
                assert(c[a] == Tile::Empty && c[b] == d[b]);
            }
        }
        lemma_slid_when_sorted(d);
        lemma_non_empty_len(d);
        assert(slid(c) =~= slid(d).push(Tile::Empty));
        assert(d.push(Tile::Empty) =~= c);
    } else {
        assert forall|i: int| 0 <= i < c.len() implies #[trigger] c[i] != Tile::Empty by {
            if c[i] == Tile::Empty && i < c.len() - 1 {
                assert(c[c.len() - 1] == Tile::Empty);
            }
        }
        lemma_non_empty_of_full(c);
        assert(slid(c) =~= c);
    }
}

pub proof fn lemma_merged_len(s: Seq<Tile>, k: nat)
    requires
        k < s.len() || k == 0,
    ensures
        merged(s, k).len() == s.len(),
    decreases k,
{
    if k > 0 {
        lemma_merged_len(s, (k - 1) as nat);
    }
}

pub proof fn lemma_merges_defined_prefix(s: Seq<Tile>, k: nat, m: nat)
    requires
        m <= k,
        merges_defined(s, k),
    ensures
        merges_defined(s, m),
    decreases k - m,
{
    if m < k {
        lemma_merges_defined_prefix(s, (k - 1) as nat, m);
    }
}

/// Sliding keeps the non-empty tiles and their order.
pub proof fn lemma_slid_keeps_tiles(s: Seq<Tile>)
    ensures
        non_empty(slid(s)) == non_empty(s),
        slid(s).len() == s.len(),
{
    lemma_non_empty_len(s);
    let e = empties((s.len() - non_empty(s).len()) as nat);
    lemma_non_empty_concat(non_empty(s), e);
    lemma_non_empty_of_full(non_empty(s));
    lemma_non_empty_of_empties(e);
    assert(non_empty(s) + Seq::<Tile>::empty() =~= non_empty(s));
}

/// One merge never adds a tile.
proof fn lemma_merge_at_keeps_or_drops(s: Seq<Tile>, k: int)
    requires
        0 <= k && k + 1 < s.len(),
    ensures
        non_empty(merge_at(s, k)).len() <= non_empty(s).len(),
{
    let r = merge_result(s[k], s[k + 1]);
    let pre = s.subrange(0, k);
    let post = s.subrange(k + 2, s.len() as int);
    let pair = seq![s[k], s[k + 1]];
    let pair2 = seq![r.0, r.1];
    assert(s =~= pre + pair + post);
    assert(merge_at(s, k) =~= pre + pair2 + post);
    lemma_non_empty_concat(pre, pair);
    lemma_non_empty_concat(pre + pair, post);
    lemma_non_empty_concat(pre, pair2);
    lemma_non_empty_concat(pre + pair2, post);
    assert(pair.drop_last() =~= seq![s[k]]);
    assert(pair2.drop_last() =~= seq![r.0]);
    assert(seq![s[k]].drop_last() =~= Seq::<Tile>::empty());
    assert(seq![r.0].drop_last() =~= Seq::<Tile>::empty());
    crate::tile::lemma_merge_iff_mergeable(s[k], s[k + 1]);
    reveal_with_fuel(non_empty, 3);
    if mergeable(s[k], s[k + 1]) {
        assert(s[k] != Tile::Empty && s[k + 1] != Tile::Empty);
        assert(non_empty(pair).len() == 2);
        assert(non_empty(pair2).len() <= 1);
    } else {
        assert(pair2 == pair);
    }
}

/// The merge pass never adds a tile.
proof fn lemma_merged_keeps_or_drops(s: Seq<Tile>, k: nat)
    requires
        k <= pair_count(s.len()),
    ensures
        non_empty(merged(s, k)).len() <= non_empty(s).len(),
        merged(s, k).len() == s.len(),
    decreases k,
{
    if k > 0 {
        lemma_merged_keeps_or_drops(s, (k - 1) as nat);
        lemma_merge_at_keeps_or_drops(merged(s, (k - 1) as nat), k - 1);
    }
}

/// A move never creates tiles: the moved line holds at most as many non-empty
/// tiles as before, and its length is kept.
pub proof fn lemma_move_never_adds_tiles(s: Seq<Tile>)
    ensures
        non_empty(moved(s)).len() <= non_empty(s).len(),
        moved(s).len() == s.len(),
{
    lemma_slid_keeps_tiles(s);
    lemma_merged_keeps_or_drops(slid(s), pair_count(s.len()));
    lemma_slid_keeps_tiles(merged(slid(s), pair_count(s.len())));
}

/// The places of `s` that hold a tile.
pub open spec fn filled_places(s: Seq<Tile>) -> Set<int> {
    Set::new(|j: int| 0 <= j < s.len() && s[j] != Tile::Empty)
}

/// There are as many places holding a tile as there are non-empty tiles.
pub proof fn lemma_filled_places(s: Seq<Tile>)
    ensures
        filled_places(s).finite(),
        filled_places(s).len() == non_empty(s).len(),
    decreases s.len(),
{
    if s.len() == 0 {
        assert(filled_places(s) =~= Set::<int>::empty());
    } else {
        let d = s.drop_last();
        lemma_filled_places(d);
        if s.last() == Tile::Empty {
            assert(filled_places(s) =~= filled_places(d));
        } else {
            assert(filled_places(s) =~= filled_places(d).insert(s.len() - 1));
            assert(!filled_places(d).contains(s.len() - 1));
        }
    }
}

/// A slid line holds its tiles packed at its start.
pub proof fn lemma_slid_is_slid(s: Seq<Tile>)
    ensures
        is_slid(slid(s)),
{
    lemma_non_empty_len(s);
    let t = slid(s);
    let m = non_empty(s).len();
    assert forall|a: int, b: int|
        #![trigger t[a], t[b]]
        0 <= a < b < t.len() && t[a] == Tile::Empty implies t[b] == Tile::Empty by {
        if a < m {
            assert(t[a] == non_empty(s)[a]);
        }
        assert(t[b] == empties((s.len() - m) as nat)[b - m]);
    }
}

/// After a move, a line holds its tiles packed at its start.
pub proof fn lemma_moved_is_slid(s: Seq<Tile>)
    ensures
        is_slid(moved(s)),
{
    lemma_slid_is_slid(merged(slid(s), pair_count(s.len())));
}

/// Whether no two neighbours of `s` merge.
pub open spec fn no_mergeable_pair(s: Seq<Tile>) -> bool {
    forall|j: int| 0 <= j && j + 1 < s.len() ==> !mergeable(#[trigger] s[j], s[j + 1])
}

/// Where no two neighbours merge, the merge pass changes nothing and scores nothing.
pub proof fn lemma_merged_when_no_pair(s: Seq<Tile>, k: nat)
    requires
        no_mergeable_pair(s),
        k <= pair_count(s.len()),
    ensures
        merged(s, k) == s,
        merged_score(s, k) == 0,
        merges_defined(s, k),
    decreases k,
{
    if k > 0 {
        lemma_merged_when_no_pair(s, (k - 1) as nat);
        let a = s[k - 1];
        let b = s[k as int];
        assert(!mergeable(a, b));
        assert(merge_result(a, b) == (a, b, 0int));
        assert(merge_at(s, k - 1) =~= s);
    }
}

/// A line with no empty tile and no two neighbours that merge is left as it is
/// by a move, which scores nothing.
pub proof fn lemma_move_of_stuck_line(s: Seq<Tile>)
    requires
        forall|j: int| 0 <= j < s.len() ==> #[trigger] s[j] != Tile::Empty,
        no_mergeable_pair(s),
    ensures
        moved(s) == s,
        move_score(s) == 0,
        move_defined(s),
{
    lemma_non_empty_of_full(s);
    assert(slid(s) =~= s);
    lemma_merged_when_no_pair(s, pair_count(s.len()));
}

/// The line `line` with its tiles slid toward its start.
pub fn slide_line(line: &Vec<Tile>) -> (r: Vec<Tile>)
    ensures
        r@ == slid(line@),
{
    let mut result: Vec<Tile> = Vec::new();
    let mut i: usize = 0;
    while i < line.len()
        invariant
            i <= line@.len(),
            result@ == non_empty(line@.subrange(0, i as int)),
        decreases line@.len() - i,
    {
        assert(line@.subrange(0, i + 1).drop_last() =~= line@.subrange(0, i as int));
        if !line[i].is_empty() {
            result.push(line[i]);
        }
        i = i + 1;
    }
    assert(line@.subrange(0, line@.len() as int) =~= line@);
    proof {
        lemma_non_empty_len(line@);
    }
    let ghost kept = result@;
    while result.len() < line.len()
        invariant
            kept == non_empty(line@),
            kept.len() <= result@.len() <= line@.len(),
            result@ == kept + empties((result@.len() - kept.len()) as nat),
        decreases line@.len() - result@.len(),
    {
        result.push(Tile::Empty);
        assert(result@ =~= kept + empties((result@.len() - kept.len()) as nat));
    }
    result
}

/// Runs the merge pass over `line` with every check that `merges_defined`
/// makes: gives the merged line and its score when they all pass, else `None`.
pub fn merge_line_checked(line: &Vec<Tile>) -> (r: Option<(Vec<Tile>, i16)>)
    ensures
        r is Some <==> merges_defined(line@, pair_count(line@.len())),
        r matches Some((merged_line, score)) ==> merged_line@ == merged(line@, pair_count(line@.len()))
            && score == merged_score(line@, pair_count(line@.len())),
{
    let ghost s0 = line@;
    let n = line.len();
    let mut current: Vec<Tile> = Vec::new();
    let mut i: usize = 0;
    while i < n
        invariant
            n == s0.len(),
            s0 == line@,
            i <= n,
            current@ == s0.subrange(0, i as int),
        decreases n - i,
    {
        current.push(line[i]);
        i = i + 1;
    }
    assert(current@ =~= s0);
    let mut total: i16 = 0;
    let mut k: usize = 0;
    while k + 1 < n
        invariant
            n == s0.len(),
            s0 == line@,
            k <= pair_count(n as nat),
            current@ == merged(s0, k as nat),
            merges_defined(s0, k as nat),
            total == merged_score(s0, k as nat),
        decreases n - k,
    {
        proof {
            lemma_merged_len(s0, k as nat);
        }
        let mut a = current[k];
        let mut b = current[k + 1];
        let ghost t = merged(s0, k as nat);
        assert(merged(s0, ((k + 1) - 1) as nat) == t);
        assert(a == t[k as int] && b == t[k + 1]);
        if !Tile::can_merge_safely(&a, &b) {
            proof {
                lemma_merges_defined_stops(s0, (k + 1) as nat, pair_count(n as nat));
            }
            return None;
        }
        let score = Tile::merge_tiles(&mut a, &mut b);
        let sum = total.checked_add(score);
        match sum {
            None => {
                proof {
                    lemma_merges_defined_stops(s0, (k + 1) as nat, pair_count(n as nat));
                }
                return None;
            },
            Some(t) => {
                total = t;
            },
        }
        current.set(k, a);
        current.set(k + 1, b);
        assert(current@ =~= merged(s0, (k + 1) as nat));
        k = k + 1;
    }
    Some((current, total))
}

/// Once a merge of the pass fails its checks, the whole pass does.
proof fn lemma_merges_defined_stops(s: Seq<Tile>, k: nat, m: nat)
    requires
        k <= m,
        !merges_defined(s, k),
    ensures
        !merges_defined(s, m),
    decreases m - k,
{
    if k < m {
        lemma_merges_defined_stops(s, k, (m - 1) as nat);
    }
}

/// Moves one line with every check that `move_defined` makes: gives the score
/// when they all pass, else `None`.
pub fn move_line_checked(line: &Vec<Tile>) -> (r: Option<i16>)
    ensures
        r is Some <==> move_defined(line@),
        r matches Some(score) ==> score == move_score(line@),
{
    let slid_line = slide_line(line);
    proof {
        lemma_non_empty_len(line@);
    }
    assert(slid_line@.len() == line@.len());
    match merge_line_checked(&slid_line) {
        None => None,
        Some((_, score)) => Some(score),
    }
}

} // verus!
