//! The plain text of a grid: one line per row, the tiles of a row separated by
//! spaces. Tests build grids from such text and compare grids with it.

use vstd::prelude::*;

use crate::grid::{Grid, GridView};
use crate::text::{char_is_white_space, is_white_space, occurrences};
use crate::tile::{
    is_tile_text, is_writable, lemma_tile_text_reads_back, reads_back, text_tile, tile_text, Tile,
};
use crate::vector2d::Vector2D;

verus! {

/// The words of `s` as `str::split_whitespace` gives them: the maximal runs of
/// characters that are not white space, in order.
pub open spec fn words(s: Seq<char>) -> Seq<Seq<char>>
    decreases s.len(),
{
    if s.len() == 0 {
        Seq::empty()
    } else {
        let w = words(s.drop_last());
        let c = s.last();
        if is_white_space(c) {
            w
        } else if s.len() >= 2 && !is_white_space(s[s.len() - 2]) {
            w.update(w.len() - 1, w.last().push(c))
        } else {
            w.push(seq![c])
        }
    }
}

/// The number of lines that `str::lines` finds in `s`: one per line feed, and
/// one more for text after the last line feed.
pub open spec fn line_total(s: Seq<char>) -> nat {
    if s.len() == 0 {
        0
    } else if s.last() == '\n' {
        occurrences(s, '\n')
    } else {
        occurrences(s, '\n') + 1
    }
}

/// The text of `s` before its first line feed.
pub open spec fn first_line(s: Seq<char>) -> Seq<char>
    decreases s.len(),
{
    if s.len() == 0 || s[0] == '\n' {
        Seq::empty()
    } else {
        seq![s[0]] + first_line(s.drop_first())
    }
}

/// Whether `s` is text that `Grid::from_snapshot` reads: not empty, and every
/// word the text of a tile.
pub open spec fn is_snapshot(s: Seq<char>) -> bool {
    &&& s.len() > 0
    &&& forall|k: int| 0 <= k < words(s).len() ==> is_tile_text(#[trigger] words(s)[k])
}

/// The grid that the text `s` describes: as many rows as lines, as many
/// columns as words on the first line, and the tiles of all words in order.
pub open spec fn snapshot_grid(s: Seq<char>) -> GridView {
    GridView {
        rows: line_total(s),
        cols: words(first_line(s)).len(),
        tiles: words(s).map_values(|w: Seq<char>| text_tile(w)),
    }
}

/// `parts` joined, with `sep` between each two.
pub open spec fn joined(parts: Seq<Seq<char>>, sep: char) -> Seq<char>
    decreases parts.len(),
{
    if parts.len() == 0 {
        Seq::empty()
    } else if parts.len() == 1 {
        parts[0]
    } else {
        joined(parts.drop_last(), sep) + seq![sep] + parts.last()
    }
}

/// The text of row `y`: the texts of its tiles, separated by spaces.
pub open spec fn row_text(g: GridView, y: int) -> Seq<char> {
    joined(Seq::new(g.cols, |x: int| tile_text(g.at(x, y))), ' ')
}

/// The text of the grid: its rows, separated by line feeds.
pub open spec fn grid_text(g: GridView) -> Seq<char> {
    joined(Seq::new(g.rows, |y: int| row_text(g, y)), '\n')
}

/// Words of text that ends in white space are not changed by what follows.
proof fn lemma_words_concat(p: Seq<char>, q: Seq<char>)
    requires
        p.len() == 0 || is_white_space(p.last()),
    ensures
        words(p + q) == words(p) + words(q),
    decreases q.len(),
{
    if q.len() == 0 {
        assert(p + q =~= p);
        assert(words(p) + words(q) =~= words(p));
    } else {
        let q1 = q.drop_last();
        lemma_words_concat(p, q1);
        assert((p + q).drop_last() =~= p + q1);
        let c = q.last();
        assert((p + q).last() == c);
        if !is_white_space(c) {
            if q.len() >= 2 && !is_white_space(q[q.len() - 2]) {
                assert((p + q)[(p + q).len() - 2] == q[q.len() - 2]);
                lemma_words_nonempty(q1);
                assert(words(p + q) =~= words(p) + words(q));
            } else {
                if p.len() > 0 && q.len() == 1 {
                    assert((p + q)[(p + q).len() - 2] == p.last());
                } else if q.len() >= 2 {
                    assert((p + q)[(p + q).len() - 2] == q[q.len() - 2]);
                }
                assert(words(p + q) =~= words(p) + words(q));
            }
        }
    }
}

/// Text that ends in a character other than white space has a word.
proof fn lemma_words_nonempty(s: Seq<char>)
    requires
        s.len() > 0,
        !is_white_space(s.last()),
    ensures
        words(s).len() > 0,
    decreases s.len(),
{
    if s.len() >= 2 && !is_white_space(s[s.len() - 2]) {
        lemma_words_nonempty(s.drop_last());
    }
}

/// Appending white space keeps the words.
proof fn lemma_words_push_space(s: Seq<char>, c: char)
    requires
        is_white_space(c),
    ensures
        words(s.push(c)) == words(s),
{
    assert(s.push(c).drop_last() =~= s);
}

/// Appending a character that is not white space either starts a word or
/// extends the last one.
proof fn lemma_words_push_char(s: Seq<char>, c: char)
    requires
        !is_white_space(c),
    ensures
        words(s.push(c)) == if s.len() >= 1 && !is_white_space(s.last()) {
            words(s).update(words(s).len() - 1, words(s).last().push(c))
        } else {
            words(s).push(seq![c])
        },
{
    assert(s.push(c).drop_last() =~= s);
    if s.len() >= 1 {
        assert(s.push(c)[s.len() - 1] == s.last());
    }
}

/// The text before the first line feed, given where that line feed is.
proof fn lemma_first_line(s: Seq<char>, e: int)
    requires
        0 <= e <= s.len(),
        forall|i: int| 0 <= i < e ==> #[trigger] s[i] != '\n',
        e == s.len() || s[e] == '\n',
    ensures
        first_line(s) == s.subrange(0, e),
    decreases e,
{
    if e == 0 {
        assert(s.subrange(0, e) =~= Seq::<char>::empty());
    } else {
        lemma_first_line(s.drop_first(), e - 1);
        assert(seq![s[0]] + s.drop_first().subrange(0, e - 1) =~= s.subrange(0, e));
    }
}

/// The number of lines of `s`, as `str::lines` counts them.
fn count_lines(s: &str) -> (n: usize)
    ensures
        n == line_total(s@),
{
    let len = s.unicode_len();
    let mut count: usize = 0;
    let mut i: usize = 0;
    while i < len
        invariant
            len == s@.len(),
            i <= len,
            count <= i,
            count == occurrences(s@.subrange(0, i as int), '\n'),
        decreases len - i,
    {
        assert(s@.subrange(0, i + 1).drop_last() =~= s@.subrange(0, i as int));
        if s.get_char(i) == '\n' {
            count = count + 1;
        }
        i = i + 1;
    }
    assert(s@.subrange(0, len as int) =~= s@);
    proof {
        crate::text::lemma_occurrences_bound(s@, '\n');
    }
    if len == 0 {
        0
    } else if s.get_char(len - 1) == '\n' {
        count
    } else {
        count + 1
    }
}

/// The number of words among the first `end` characters of `s`.
fn count_words(s: &str, end: usize) -> (n: usize)
    requires
        end <= s@.len(),
    ensures
        n == words(s@.subrange(0, end as int)).len(),
{
    let mut count: usize = 0;
    let mut in_word = false;
    let mut i: usize = 0;
    while i < end
        invariant
            end <= s@.len(),
            i <= end,
            count <= i,
            count == words(s@.subrange(0, i as int)).len(),
            in_word == (i > 0 && !is_white_space(s@[i - 1])),
        decreases end - i,
    {
        let c = s.get_char(i);
        let ghost prefix = s@.subrange(0, i as int);
        assert(s@.subrange(0, i + 1) =~= prefix.push(c));
        if char_is_white_space(c) {
            proof {
                lemma_words_push_space(prefix, c);
            }
            in_word = false;
        } else {
            proof {
                lemma_words_push_char(prefix, c);
                if i > 0 {
                    assert(prefix.last() == s@[i - 1]);
                    if in_word {
                        lemma_words_nonempty(prefix);
                    }
                }
            }
            if !in_word {
                count = count + 1;
            }
            in_word = true;
        }
        i = i + 1;
    }
    count
}

/// The tile of the word `start..end` of `s`, which ends the words of the
/// first `end + 1` characters (or of all of them).
fn read_word(s: &str, start: usize, end: usize) -> (t: Tile)
    requires
        is_snapshot(s@),
        start < end <= s@.len(),
        end == s@.len() || is_white_space(s@[end as int]),
        words(s@.subrange(0, end as int)).len() > 0,
        words(s@.subrange(0, end as int)).last() == s@.subrange(start as int, end as int),
    ensures
        t == text_tile(s@.subrange(start as int, end as int)),
{
    let ghost len = s@.len();
    let ghost prefix = s@.subrange(0, end as int);
    proof {
        let w = words(prefix);
        if end == len {
            assert(prefix =~= s@);
        } else {
            let p = s@.subrange(0, end + 1);
            assert(p =~= prefix.push(s@[end as int]));
            lemma_words_push_space(prefix, s@[end as int]);
            lemma_words_concat(p, s@.subrange(end + 1, len as int));
            assert(p + s@.subrange(end + 1, len as int) =~= s@);
        }
        assert(words(s@)[w.len() - 1] == w.last());
    }
    let piece = s.substring_char(start, end);
    Tile::from_ascii(piece)
}

/// The tiles of the words of `s`, in order.
fn read_tiles(s: &str) -> (tiles: Vec<Tile>)
    requires
        is_snapshot(s@),
    ensures
        tiles@ == words(s@).map_values(|w: Seq<char>| text_tile(w)),
{
    let len = s.unicode_len();
    let mut tiles: Vec<Tile> = Vec::new();
    let mut start: usize = 0;
    let mut in_word = false;
    let mut i: usize = 0;
    while i < len
        invariant
            len == s@.len(),
            is_snapshot(s@),
            i <= len,
            start <= i,
            in_word ==> i > 0 && start < i && !is_white_space(s@[i - 1]),
            !in_word ==> i == 0 || is_white_space(s@[i - 1]),
            in_word ==> words(s@.subrange(0, i as int)).len() == tiles@.len() + 1,
            in_word ==> words(s@.subrange(0, i as int)).last() == s@.subrange(start as int, i as int),
            in_word ==> tiles@ == words(s@.subrange(0, i as int)).drop_last().map_values(
                |w: Seq<char>| text_tile(w),
            ),
            !in_word ==> tiles@ == words(s@.subrange(0, i as int)).map_values(|w: Seq<char>| text_tile(w)),
        decreases len - i,
    {
        let ghost prefix = s@.subrange(0, i as int);
        let c = s.get_char(i);
        assert(s@.subrange(0, i + 1) =~= prefix.push(c));
        if char_is_white_space(c) {
            if in_word {
                let tile = read_word(s, start, i);
                tiles.push(tile);
                assert(tiles@ =~= words(prefix).map_values(|w: Seq<char>| text_tile(w)));
            }
            proof {
                lemma_words_push_space(prefix, c);
            }
            in_word = false;
        } else {
            proof {
                lemma_words_push_char(prefix, c);
                if i > 0 {
                    assert(prefix.last() == s@[i - 1]);
                }
            }
            if !in_word {
                start = i;
                in_word = true;
                proof {
                    let w2 = words(s@.subrange(0, i + 1));
                    assert(s@.subrange(start as int, i + 1) =~= seq![c]);
                    assert(w2.drop_last() =~= words(prefix));
                }
            } else {
                proof {
                    let w = words(prefix);
                    let w2 = words(s@.subrange(0, i + 1));
                    lemma_words_nonempty(prefix);
                    assert(s@.subrange(start as int, i + 1) =~= s@.subrange(start as int, i as int).push(c));
                    assert(w2.drop_last() =~= w.drop_last());
                }
            }
        }
        i = i + 1;
    }
    assert(s@.subrange(0, len as int) =~= s@);
    if in_word {
        let tile = read_word(s, start, len);
        tiles.push(tile);
        assert(tiles@ =~= words(s@).map_values(|w: Seq<char>| text_tile(w)));
    }
    tiles
}

impl Grid {
    /// Create a Grid from a string representation of all tiles.
    ///
    /// Currently, this is only used for unit-testing.
    pub fn from_snapshot(snapshot: &str) -> (g: Grid)
        requires
            is_snapshot(snapshot@),
        ensures
            g@ == snapshot_grid(snapshot@),
    {
        let num_rows = count_lines(snapshot);
        let len = snapshot.unicode_len();
        let mut first_end: usize = 0;
        while first_end < len && snapshot.get_char(first_end) != '\n'
            invariant
                len == snapshot@.len(),
                first_end <= len,
                forall|i: int| 0 <= i < first_end ==> #[trigger] snapshot@[i] != '\n',
            decreases len - first_end,
        {
            first_end = first_end + 1;
        }
        proof {
            lemma_first_line(snapshot@, first_end as int);
        }
        let num_cols = count_words(snapshot, first_end);
        let tiles = read_tiles(snapshot);
        Grid::from_tiles(num_rows, num_cols, tiles)
    }
}

/// Joining one part more adds the separator and that part.
proof fn lemma_joined_push(parts: Seq<Seq<char>>, p: Seq<char>, sep: char)
    ensures
        joined(parts.push(p), sep) == if parts.len() == 0 {
            p
        } else {
            joined(parts, sep) + seq![sep] + p
        },
{
    assert(parts.push(p).drop_last() =~= parts);
}

impl Grid {
    /// Return a string representation of the tiles,
    /// with a ' ' separating tiles within the same row, and
    /// with a '\n' separating tiles on different rows.
    ///
    /// Currently, this is only used for unit-testing.
    pub fn generate_snapshot(&self) -> (r: String)
        requires
            self@.wf(),
            self@.cols > 0,
            forall|i: int| 0 <= i < self@.tiles.len() ==> is_writable(#[trigger] self@.tiles[i]),
        ensures
            r@ == grid_text(self@),
    {
        let ghost g = self@;
        let (num_rows, num_cols) = self.dimensions();
        let mut text = String::new();
        let mut y: usize = 0;
        while y < num_rows
            invariant
                g == self@,
                g.wf(),
                num_rows == g.rows,
                num_cols == g.cols,
                num_cols > 0,
                forall|i: int| 0 <= i < g.tiles.len() ==> is_writable(#[trigger] g.tiles[i]),
                y <= num_rows,
                text@ == joined(Seq::new(y as nat, |k: int| row_text(g, k)), '\n'),
            decreases num_rows - y,
        {
            let ghost before_row = text@;
            if y > 0 {
                proof { reveal_strlit("\n"); }
                text.append("\n");
            }
            let ghost row_start = text@;
            let mut x: usize = 0;
            while x < num_cols
                invariant
                    g == self@,
                    g.wf(),
                    num_rows == g.rows,
                    num_cols == g.cols,
                    forall|i: int| 0 <= i < g.tiles.len() ==> is_writable(#[trigger] g.tiles[i]),
                    y < num_rows,
                    x <= num_cols,
                    text@ == row_start + joined(Seq::new(x as nat, |k: int| tile_text(g.at(k, y as int))), ' '),
                decreases num_cols - x,
            {
                let ghost before = text@;
                if x > 0 {
                    proof { reveal_strlit(" "); }
                    text.append(" ");
                }
                let position = Vector2D::new(x, y);
                proof {
                    crate::grid::lemma_index_in_bounds(g.rows as int, g.cols as int, position);
                }
                let tile = self.get_tile(&position);
                assert(*tile == g.at(x as int, y as int));
                let tile_string = tile.to_string();
                text.append(tile_string.as_str());
                proof {
                    let f = |k: int| tile_text(g.at(k, y as int));
                    assert(Seq::new((x + 1) as nat, f) =~= Seq::new(x as nat, f).push(f(x as int)));
                    lemma_joined_push(Seq::new(x as nat, f), f(x as int), ' ');
                    assert(text@ =~= row_start + joined(Seq::new((x + 1) as nat, f), ' '));
                }
                x = x + 1;
            }
            proof {
                let f = |k: int| row_text(g, k);
                assert(Seq::new((y + 1) as nat, f) =~= Seq::new(y as nat, f).push(f(y as int)));
                lemma_joined_push(Seq::new(y as nat, f), f(y as int), '\n');
                assert(joined(Seq::new(num_cols as nat, |k: int| tile_text(g.at(k, y as int))), ' ') == row_text(g, y as int)) by {
                    assert(Seq::new(num_cols as nat, |k: int| tile_text(g.at(k, y as int))) =~= Seq::new(g.cols, |k: int| tile_text(g.at(k, y as int))));
                }
                assert(text@ =~= joined(Seq::new((y + 1) as nat, f), '\n'));
            }
            y = y + 1;
        }
        proof {
            assert(Seq::new(num_rows as nat, |k: int| row_text(g, k)) =~= Seq::new(g.rows, |k: int| row_text(g, k)));
        }
        text
    }
}

/// The words of each part, one part after the other.
pub open spec fn words_of_parts(parts: Seq<Seq<char>>) -> Seq<Seq<char>>
    decreases parts.len(),
{
    if parts.len() == 0 {
        Seq::empty()
    } else {
        words_of_parts(parts.drop_last()) + words(parts.last())
    }
}

/// Whether `w` is a word: not empty, and without white space.
pub open spec fn is_word(w: Seq<char>) -> bool {
    &&& w.len() >= 1
    &&& forall|i: int| 0 <= i < w.len() ==> !is_white_space(#[trigger] w[i])
}

/// The words of a word are that word alone.
proof fn lemma_words_of_word(w: Seq<char>)
    requires
        is_word(w),
    ensures
        words(w) == seq![w],
    decreases w.len(),
{
    assert(!is_white_space(w[w.len() - 1]));
    if w.len() >= 2 {
        let dl = w.drop_last();
        lemma_words_of_word(dl);
        assert(!is_white_space(w[w.len() - 2]));
        assert(w[w.len() - 2] == dl.last());
        assert(words(w) == seq![dl].update(0, dl.push(w.last())));
        assert(dl.push(w.last()) =~= w);
        assert(seq![dl].update(0, dl.push(w.last())) =~= seq![w]);
    } else {
        assert(w.drop_last() =~= Seq::<char>::empty());
        assert(words(Seq::<char>::empty()) == Seq::<Seq<char>>::empty());
        assert(seq![w.last()] =~= w);
        assert(Seq::<Seq<char>>::empty().push(seq![w.last()]) =~= seq![w]);
    }
}

/// Joining with white space keeps the words of the parts, in order.
proof fn lemma_words_of_joined(parts: Seq<Seq<char>>, sep: char)
    requires
        is_white_space(sep),
    ensures
        words(joined(parts, sep)) == words_of_parts(parts),
    decreases parts.len(),
{
    if parts.len() == 0 {
    } else if parts.len() == 1 {
        assert(parts.drop_last() =~= Seq::<Seq<char>>::empty());
        assert(words_of_parts(Seq::<Seq<char>>::empty()) == Seq::<Seq<char>>::empty());
        assert(words_of_parts(parts) == words_of_parts(parts.drop_last()) + words(parts.last()));
        assert(Seq::<Seq<char>>::empty() + words(parts[0]) =~= words(parts[0]));
    } else {
        let head = joined(parts.drop_last(), sep);
        lemma_words_of_joined(parts.drop_last(), sep);
        assert(head + seq![sep] =~= head.push(sep));
        lemma_words_push_space(head, sep);
        lemma_words_concat(head + seq![sep], parts.last());
    }
}

/// The words of parts that are each a word are the parts.
proof fn lemma_words_of_word_parts(parts: Seq<Seq<char>>)
    requires
        forall|k: int| 0 <= k < parts.len() ==> is_word(#[trigger] parts[k]),
    ensures
        words_of_parts(parts) == parts,
    decreases parts.len(),
{
    if parts.len() > 0 {
        lemma_words_of_word_parts(parts.drop_last());
        lemma_words_of_word(parts.last());
        assert(parts.drop_last() + seq![parts.last()] =~= parts);
    }
}

/// Occurrences add up over a concatenation.
proof fn lemma_occurrences_concat(a: Seq<char>, b: Seq<char>, c: char)
    ensures
        occurrences(a + b, c) == occurrences(a, c) + occurrences(b, c),
    decreases b.len(),
{
    if b.len() > 0 {
        lemma_occurrences_concat(a, b.drop_last(), c);
        assert((a + b).drop_last() =~= a + b.drop_last());
    } else {
        assert(a + b =~= a);
    }
}

/// Text without `c` holds no occurrence of it.
proof fn lemma_occurrences_none(s: Seq<char>, c: char)
    requires
        forall|i: int| 0 <= i < s.len() ==> #[trigger] s[i] != c,
    ensures
        occurrences(s, c) == 0,
    decreases s.len(),
{
    if s.len() > 0 {
        lemma_occurrences_none(s.drop_last(), c);
    }
}

/// Joining parts that do not hold `c` with another separator gives text that
/// does not hold `c`; with `c` as separator it holds one `c` between each two parts.
proof fn lemma_joined_chars(parts: Seq<Seq<char>>, sep: char, c: char)
    requires
        forall|k: int, i: int| 0 <= k < parts.len() && 0 <= i < parts[k].len() ==> #[trigger] parts[k][i] != c,
    ensures
        sep != c ==> forall|i: int| 0 <= i < joined(parts, sep).len() ==> #[trigger] joined(parts, sep)[i] != c,
        sep == c && parts.len() >= 1 ==> occurrences(joined(parts, sep), c) == parts.len() - 1,
    decreases parts.len(),
{
    if parts.len() == 0 {
    } else if parts.len() == 1 {
        assert(forall|i: int| 0 <= i < parts[0].len() ==> #[trigger] parts[0][i] != c);
        lemma_occurrences_none(parts[0], c);
    } else {
        let dl = parts.drop_last();
        assert forall|k: int, i: int| 0 <= k < dl.len() && 0 <= i < dl[k].len() implies #[trigger] dl[k][i] != c by {
            assert(dl[k] == parts[k]);
        }
        lemma_joined_chars(dl, sep, c);
        let head = joined(dl, sep);
        let last = parts.last();
        assert(forall|i: int| 0 <= i < last.len() ==> #[trigger] last[i] != c);
        if sep != c {
            assert forall|i: int| 0 <= i < joined(parts, sep).len() implies #[trigger] joined(parts, sep)[i] != c by {
                if i < head.len() {
                    assert(joined(parts, sep)[i] == head[i]);
                } else if i > head.len() {
                    assert(joined(parts, sep)[i] == last[i - head.len() - 1]);
                }
            }
        } else {
            lemma_occurrences_none(last, c);
            lemma_occurrences_concat(head + seq![sep], last, c);
            lemma_occurrences_concat(head, seq![sep], c);
            assert(seq![sep].drop_last() =~= Seq::<char>::empty());
            assert(occurrences(Seq::<char>::empty(), c) == 0);
            assert(occurrences(seq![sep], c) == 1);
            assert(joined(parts, sep) == head + seq![sep] + last);
        }
    }
}

/// Joined text begins with the first part, followed by the separator when
/// there is more than one part, and ends with the last part.
proof fn lemma_joined_ends(parts: Seq<Seq<char>>, sep: char)
    requires
        parts.len() >= 1,
    ensures
        joined(parts, sep).len() >= parts[0].len(),
        joined(parts, sep).len() >= parts.last().len(),
        joined(parts, sep).subrange(0, parts[0].len() as int) == parts[0],
        parts.len() >= 2 ==> joined(parts, sep).len() > parts[0].len() && joined(parts, sep)[parts[0].len() as int] == sep,
        parts.last().len() >= 1 ==> joined(parts, sep).last() == parts.last().last(),
    decreases parts.len(),
{
    let j = joined(parts, sep);
    if parts.len() == 1 {
        assert(j.subrange(0, parts[0].len() as int) =~= parts[0]);
    } else {
        let dl = parts.drop_last();
        lemma_joined_ends(dl, sep);
        let head = joined(dl, sep);
        assert(dl[0] == parts[0]);
        assert(j.subrange(0, parts[0].len() as int) =~= head.subrange(0, parts[0].len() as int));
        if dl.len() >= 2 {
            assert(j[parts[0].len() as int] == head[parts[0].len() as int]);
        } else {
            assert(head == parts[0]);
            assert(j[parts[0].len() as int] == sep);
        }
    }
}

/// The tiles of the first `k` rows, row after row, are the first `k * cols`
/// tiles of the grid; so are the words of their texts, when each tile is written as a word.
proof fn lemma_rows_flatten(g: GridView, k: nat)
    requires
        g.wf(),
        k <= g.rows,
        forall|i: int| 0 <= i < g.tiles.len() ==> reads_back(#[trigger] g.tiles[i]),
    ensures
        words_of_parts(Seq::new(k, |y: int| row_text(g, y))) == Seq::new(
            k * g.cols,
            |i: int| tile_text(g.tiles[i]),
        ),
    decreases k,
{
    let cols = g.cols;
    if k == 0 {
        assert(k * cols == 0);
        assert(Seq::new(k * cols, |i: int| tile_text(g.tiles[i])) =~= Seq::<Seq<char>>::empty());
    } else {
        let y = k - 1;
        lemma_rows_flatten(g, (k - 1) as nat);
        let rows_k = Seq::new(k, |y: int| row_text(g, y));
        assert(rows_k.drop_last() =~= Seq::new((k - 1) as nat, |y: int| row_text(g, y)));
        let texts = Seq::new(cols, |x: int| tile_text(g.at(x, y)));
        assert(0 <= y * cols && y * cols + cols <= g.rows * cols) by (nonlinear_arith)
            requires
                0 <= y < g.rows,
        ;
        assert forall|x: int| 0 <= x < texts.len() implies is_word(#[trigger] texts[x]) by {
            assert(g.at(x, y) == g.tiles[x + y * cols]);
            lemma_tile_text_reads_back(g.tiles[x + y * cols]);
        }
        lemma_words_of_joined(texts, ' ');
        lemma_words_of_word_parts(texts);
        assert((k - 1) * cols + cols == k * cols) by (nonlinear_arith);
        assert(Seq::new(((k - 1) * cols) as nat, |i: int| tile_text(g.tiles[i])) + texts =~= Seq::new(
            k * cols,
            |i: int| tile_text(g.tiles[i]),
        ));
    }
}

/// Reading the text of a grid gives back the grid, for a grid with at least
/// one row and one column whose every tile's text reads back as that tile.
pub proof fn lemma_snapshot_round_trip(g: GridView)
    requires
        g.wf(),
        g.rows >= 1,
        g.cols >= 1,
        forall|i: int| 0 <= i < g.tiles.len() ==> reads_back(#[trigger] g.tiles[i]),
    ensures
        is_snapshot(grid_text(g)),
        snapshot_grid(grid_text(g)) == g,
{
    let rows = Seq::new(g.rows, |y: int| row_text(g, y));
    let text = grid_text(g);
    lemma_rows_flatten(g, g.rows);
    lemma_words_of_joined(rows, '\n');
    let texts = Seq::new(g.rows * g.cols, |i: int| tile_text(g.tiles[i]));
    assert(words(text) == texts);
    // Every word is the text of a tile, and reads back as it.
    assert forall|k: int| 0 <= k < words(text).len() implies is_tile_text(#[trigger] words(text)[k]) by {
        lemma_tile_text_reads_back(g.tiles[k]);
    }
    assert forall|k: int| 0 <= k < g.tiles.len() implies text_tile(#[trigger] texts[k]) == g.tiles[k] by {
        lemma_tile_text_reads_back(g.tiles[k]);
    }
    assert(words(text).map_values(|w: Seq<char>| text_tile(w)) =~= g.tiles);
    // Rows hold no line feed, so the text has one line per row.
    assert forall|y: int, i: int| 0 <= y < rows.len() && 0 <= i < rows[y].len() implies #[trigger] rows[y][i] != '\n' by {
        let row_texts = Seq::new(g.cols, |x: int| tile_text(g.at(x, y)));
        assert(0 <= y * g.cols && y * g.cols + g.cols <= g.rows * g.cols) by (nonlinear_arith)
            requires
                0 <= y < g.rows,
        ;
        assert forall|x: int, j: int| 0 <= x < row_texts.len() && 0 <= j < row_texts[x].len() implies #[trigger] row_texts[x][j] != '\n' by {
            assert(g.at(x, y) == g.tiles[x + y * g.cols]);
            lemma_tile_text_reads_back(g.tiles[x + y * g.cols]);
            assert(!is_white_space(row_texts[x][j]));
        }
        lemma_joined_chars(row_texts, ' ', '\n');
    }
    lemma_joined_chars(rows, '\n', '\n');
    // Each row's text is not empty and ends with a tile's text.
    assert forall|y: int| 0 <= y < rows.len() implies (#[trigger] rows[y]).len() >= 1 && rows[y].last() != '\n' by {
        let row_texts = Seq::new(g.cols, |x: int| tile_text(g.at(x, y)));
        assert(0 <= y * g.cols && y * g.cols + g.cols <= g.rows * g.cols) by (nonlinear_arith)
            requires
                0 <= y < g.rows,
        ;
        let x = g.cols - 1;
        assert(g.at(x, y) == g.tiles[x + y * g.cols]);
        lemma_tile_text_reads_back(g.tiles[x + y * g.cols]);
        lemma_joined_ends(row_texts, ' ');
        assert(row_texts.last() == tile_text(g.at(x, y)));
        assert(!is_white_space(row_texts.last().last()));
    }
    lemma_joined_ends(rows, '\n');
    assert(text.len() >= 1);
    assert(text.last() != '\n');
    assert(line_total(text) == g.rows);
    // The first line is the first row.
    let first = rows[0];
    assert forall|i: int| 0 <= i < first.len() implies #[trigger] text[i] != '\n' by {
        assert(text.subrange(0, first.len() as int)[i] == first[i]);
    }
    lemma_first_line(text, first.len() as int);
    assert(first_line(text) == first);
    let first_texts = Seq::new(g.cols, |x: int| tile_text(g.at(x, 0)));
    assert(g.cols <= g.rows * g.cols) by (nonlinear_arith)
        requires
            g.rows >= 1,
    ;
    assert forall|x: int| 0 <= x < first_texts.len() implies is_word(#[trigger] first_texts[x]) by {
        assert(x + 0 * (g.cols as int) == x);
        assert(g.at(x, 0) == g.tiles[x]);
        lemma_tile_text_reads_back(g.tiles[x]);
    }
    lemma_words_of_joined(first_texts, ' ');
    lemma_words_of_word_parts(first_texts);
    assert(words(first_line(text)).len() == g.cols);
}

} // verus!
