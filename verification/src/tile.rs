//! Tiles and the rules by which two adjacent tiles merge.

use vstd::arithmetic::power2::{lemma2_to64, lemma_pow2_strictly_increases, pow2};
use vstd::bits::{lemma_u16_shr_is_div, lemma_u32_shl_is_mul};
use vstd::prelude::*;

use crate::text::{
    append_decimal, append_integer, decimal_digits, decimal_text, digit_char, is_digit,
    is_unsigned_text, is_white_space, lemma_decimal_digits, parse_unsigned, unsigned_digits,
    unsigned_value,
};

verus! {

/// A tile of the grid.
///
/// `Multiplier` and `Divider` hold the base 2 power (the exponent) of their
/// scalar: `Multiplier(3)` multiplies by 2^3 and is written `*8`.
#[derive(Debug, Clone, Copy, PartialEq, Eq, Hash, Structural)]
pub enum Tile {
    Empty,
    Number(u16),
    Multiplier(u8),
    Divider(u8),
    Bomb,
}

/// The tile that `Tile::new_number(v)` gives: empty for 0, else the number.
pub open spec fn number_tile(v: int) -> Tile {
    if v == 0 {
        Tile::Empty
    } else {
        Tile::Number(v as u16)
    }
}

/// The `i16` that a `u16` value turns into by `as` (values from 2^15 wrap
/// around to negative ones).
pub open spec fn as_i16(x: int) -> int {
    if x < 0x8000 {
        x
    } else {
        x - 0x10000
    }
}

/// The score that a merge gains from a resulting value: the value itself,
/// which is always positive, held to `i16::MAX` where it goes past it.
pub open spec fn gain_score(x: int) -> int {
    if x < 0x8000 {
        x
    } else {
        0x7fff
    }
}

/// The penalty that a merge costs for a removed value: minus the value, never
/// positive, held to `i16::MIN` where it goes past it.
pub open spec fn penalty_score(x: int) -> int {
    if x < 0x8000 {
        -x
    } else {
        -0x8000
    }
}

/// What `value << power` gives for a `u16`: the product with 2^power, with the
/// bits above the 16th dropped.
pub open spec fn shifted_product(value: u16, power: u8) -> int {
    (value as int * pow2(power as nat)) % 0x10000
}

/// What `value >> power` gives for a `u16`: the quotient by 2^power, rounded down.
pub open spec fn shifted_quotient(value: u16, power: u8) -> int {
    value as int / (pow2(power as nat) as int)
}

/// The score of a bomb destroying `other`: minus the value of a number, else 0.
pub open spec fn bomb_score(other: Tile) -> int {
    match other {
        Tile::Number(value) => penalty_score(value as int),
        _ => 0,
    }
}

/// The tile that a multiplier of power `m` and a divider of power `d` merge into.
pub open spec fn multiplier_divider_tile(m: u8, d: u8) -> Tile {
    if m > d {
        Tile::Multiplier((m - d) as u8)
    } else if m < d {
        Tile::Divider((d - m) as u8)
    } else {
        Tile::Empty
    }
}

/// Whether two adjacent tiles merge: never with an empty tile; a bomb with any
/// other tile; two numbers when they are equal; all other pairs always.
pub open spec fn mergeable(a: Tile, b: Tile) -> bool {
    match (a, b) {
        (Tile::Empty, _) => false,
        (_, Tile::Empty) => false,
        (Tile::Number(x), Tile::Number(y)) => x == y,
        _ => true,
    }
}

/// What merging `a` (first) and `b` (second) gives: the new first tile, the new
/// second tile, and the score.
pub open spec fn merge_result(a: Tile, b: Tile) -> (Tile, Tile, int) {
    match (a, b) {
        (Tile::Empty, _) => (a, b, 0),
        (_, Tile::Empty) => (a, b, 0),
        (Tile::Bomb, other) => (Tile::Empty, Tile::Empty, bomb_score(other)),
        (other, Tile::Bomb) => (Tile::Empty, Tile::Empty, bomb_score(other)),
        (Tile::Number(x), Tile::Number(y)) => {
            if x == y {
                (number_tile(x + y), Tile::Empty, gain_score(x + y))
            } else {
                (a, b, 0)
            }
        },
        (Tile::Number(v), Tile::Multiplier(p)) => {
            let product = shifted_product(v, p);
            (number_tile(product), Tile::Empty, gain_score(product))
        },
        (Tile::Multiplier(p), Tile::Number(v)) => {
            let product = shifted_product(v, p);
            (number_tile(product), Tile::Empty, gain_score(product))
        },
        (Tile::Number(v), Tile::Divider(p)) => {
            let quotient = shifted_quotient(v, p);
            (number_tile(quotient), Tile::Empty, penalty_score(quotient))
        },
        (Tile::Divider(p), Tile::Number(v)) => {
            let quotient = shifted_quotient(v, p);
            (number_tile(quotient), Tile::Empty, penalty_score(quotient))
        },
        (Tile::Multiplier(p), Tile::Multiplier(q)) => (
            Tile::Multiplier((p + q) as u8),
            Tile::Empty,
            0,
        ),
        (Tile::Multiplier(m), Tile::Divider(d)) => (multiplier_divider_tile(m, d), Tile::Empty, 0),
        (Tile::Divider(d), Tile::Multiplier(m)) => (multiplier_divider_tile(m, d), Tile::Empty, 0),
        (Tile::Divider(p), Tile::Divider(q)) => (Tile::Divider((p + q) as u8), Tile::Empty, 0),
    }
}

/// Whether merging `a` and `b` stays within the arithmetic that the merge is
/// written for: no sum or power past its type, no shift by 16 or more, and no
/// negation of `i16::MIN`. Outside it the merge panics.
pub open spec fn merge_is_defined(a: Tile, b: Tile) -> bool {
    match (a, b) {
        (Tile::Empty, _) => true,
        (_, Tile::Empty) => true,
        (Tile::Bomb, other) => other != Tile::Number(0x8000),
        (other, Tile::Bomb) => other != Tile::Number(0x8000),
        (Tile::Number(x), Tile::Number(y)) => x == y ==> x + y <= u16::MAX,
        (Tile::Number(v), Tile::Multiplier(p)) => p < 16,
        (Tile::Multiplier(p), Tile::Number(v)) => p < 16,
        (Tile::Number(v), Tile::Divider(p)) => p < 16 && shifted_quotient(v, p) != 0x8000,
        (Tile::Divider(p), Tile::Number(v)) => p < 16 && shifted_quotient(v, p) != 0x8000,
        (Tile::Multiplier(p), Tile::Multiplier(q)) => p + q <= u8::MAX,
        (Tile::Divider(p), Tile::Divider(q)) => p + q <= u8::MAX,
        _ => true,
    }
}

impl Tile {
    pub fn new_empty() -> (t: Self)
        ensures
            t == Tile::Empty,
    {
        Self::Empty
    }

    /// If `value` is 0, this constructor creates an empty tile instead.
    pub fn new_number(value: u16) -> (t: Self)
        ensures
            t == number_tile(value as int),
    {
        if value == 0 {
            Self::Empty
        } else {
            Self::Number(value)
        }
    }

    pub fn new_multiplier(power: u8) -> (t: Self)
        ensures
            t == Tile::Multiplier(power),
    {
        Self::Multiplier(power)
    }

    pub fn new_divider(power: u8) -> (t: Self)
        ensures
            t == Tile::Divider(power),
    {
        Self::Divider(power)
    }

    pub fn new_bomb() -> (t: Self)
        ensures
            t == Tile::Bomb,
    {
        Self::Bomb
    }

    pub fn is_empty(&self) -> (r: bool)
        ensures
            r == (*self == Tile::Empty),
    {
        matches!(self, Self::Empty)
    }

    pub fn get_value(&self) -> (r: Option<u16>)
        ensures
            r == (match *self {
                Tile::Number(value) => Some(value),
                _ => None,
            }),
    {
        match *self {
            Self::Number(value) => Some(value),
            _ => None,
        }
    }
}

/// Two tiles that do not merge are left as they are, with no score; two that
/// merge leave the second place empty.
pub proof fn lemma_merge_iff_mergeable(a: Tile, b: Tile)
    ensures
        !mergeable(a, b) ==> merge_result(a, b) == (a, b, 0int),
        mergeable(a, b) ==> merge_result(a, b).1 == Tile::Empty,
{
}

/// Merging does not depend on which of the two tiles comes first: the same
/// pairs merge, into the same tile, with the same score.
pub proof fn lemma_merge_is_symmetric(a: Tile, b: Tile)
    ensures
        mergeable(a, b) == mergeable(b, a),
        merge_is_defined(a, b) == merge_is_defined(b, a),
        mergeable(a, b) ==> merge_result(a, b).0 == merge_result(b, a).0 && merge_result(a, b).2
            == merge_result(b, a).2,
{
}

/// Merging two equal numbers scores their sum, which is always positive
/// (held to `i16::MAX` where the sum goes past it).
pub proof fn lemma_sum_scores_positive(x: u16)
    requires
        0 < x,
        x + x <= u16::MAX,
    ensures
        merge_result(Tile::Number(x), Tile::Number(x)) == (Tile::Number((x + x) as u16), Tile::Empty, gain_score(
            x + x,
        )),
        merge_result(Tile::Number(x), Tile::Number(x)).2 > 0,
{
}

/// Multiplying a number scores the product, which is always positive (held
/// to `i16::MAX` where the product goes past it).
pub proof fn lemma_product_scores_positive(v: u16, p: u8)
    requires
        0 < v,
        p < 16,
        v * pow2(p as nat) <= u16::MAX,
    ensures
        merge_result(Tile::Number(v), Tile::Multiplier(p)).2 == gain_score(v * pow2(p as nat)),
        merge_result(Tile::Multiplier(p), Tile::Number(v)).2 == gain_score(v * pow2(p as nat)),
        merge_result(Tile::Number(v), Tile::Multiplier(p)).2 > 0,
        merge_result(Tile::Multiplier(p), Tile::Number(v)).2 > 0,
{
    vstd::arithmetic::power2::lemma_pow2_pos(p as nat);
    assert(v * pow2(p as nat) > 0) by (nonlinear_arith)
        requires
            v > 0,
            pow2(p as nat) > 0,
    ;
    vstd::arithmetic::div_mod::lemma_small_mod((v * pow2(p as nat)) as nat, 0x10000);
}

/// Dividing a number, or bombing it, costs a penalty: the score is never
/// positive.
pub proof fn lemma_penalties_not_positive(v: u16, p: u8)
    ensures
        merge_result(Tile::Number(v), Tile::Divider(p)).2 <= 0,
        merge_result(Tile::Divider(p), Tile::Number(v)).2 <= 0,
        merge_result(Tile::Number(v), Tile::Bomb).2 <= 0,
        merge_result(Tile::Bomb, Tile::Number(v)).2 <= 0,
{
    vstd::arithmetic::power2::lemma_pow2_pos(p as nat);
    vstd::arithmetic::div_mod::lemma_div_pos_is_pos(v as int, pow2(p as nat) as int);
}

/// Scalar tiles combine by multiplying their scalars: two multipliers give a
/// multiplier whose scalar 2^k is the product of theirs, two dividers a divider
/// likewise, and a multiplier with a divider the quotient of their scalars, as
/// a multiplier, a divider or nothing. None of these scores, and the second
/// place is left empty.
pub proof fn lemma_scalars_combine(p: u8, q: u8)
    requires
        p + q <= u8::MAX,
    ensures
        ({
            let r = merge_result(Tile::Multiplier(p), Tile::Multiplier(q));
            &&& r.0 matches Tile::Multiplier(k) && pow2(k as nat) == pow2(p as nat) * pow2(q as nat)
            &&& r.1 == Tile::Empty
            &&& r.2 == 0
        }),
        ({
            let r = merge_result(Tile::Divider(p), Tile::Divider(q));
            &&& r.0 matches Tile::Divider(k) && pow2(k as nat) == pow2(p as nat) * pow2(q as nat)
            &&& r.1 == Tile::Empty
            &&& r.2 == 0
        }),
        ({
            let r = merge_result(Tile::Multiplier(p), Tile::Divider(q));
            &&& p > q ==> (r.0 matches Tile::Multiplier(k) && pow2(k as nat) * pow2(q as nat) == pow2(
                p as nat,
            ))
            &&& p < q ==> (r.0 matches Tile::Divider(k) && pow2(k as nat) * pow2(p as nat) == pow2(
                q as nat,
            ))
            &&& p == q ==> r.0 == Tile::Empty
            &&& r.1 == Tile::Empty
            &&& r.2 == 0
            &&& merge_result(Tile::Divider(q), Tile::Multiplier(p)) == r
        }),
{
    vstd::arithmetic::power2::lemma_pow2_adds(p as nat, q as nat);
    if p > q {
        vstd::arithmetic::power2::lemma_pow2_adds((p - q) as nat, q as nat);
    }
    if p < q {
        vstd::arithmetic::power2::lemma_pow2_adds((q - p) as nat, p as nat);
    }
}

/// A `u16` shifted left by less than 16 is its product with 2^power, cut to 16 bits.
proof fn lemma_u16_shl_is_wrapping_mul(value: u16, power: u8)
    requires
        power < 16,
    ensures
        (value << power) as int == shifted_product(value, power),
{
    let wide = value as u32;
    let shift = power as u32;
    assert(pow2(power as nat) <= 0x8000) by {
        lemma2_to64();
        if power < 15 {
            lemma_pow2_strictly_increases(power as nat, 15);
        }
    }
    assert(wide * pow2(shift as nat) <= u32::MAX) by (nonlinear_arith)
        requires
            wide <= 0xffff,
            pow2(shift as nat) <= 0x8000,
    ;
    lemma_u32_shl_is_mul(wide, shift);
    assert((value << power) as u32 == (wide << shift) % 0x10000) by (bit_vector)
        requires
            wide == value as u32,
            shift == power as u32,
            power < 16,
    ;
}

/// These operations resolve the merging of 2 adjacent tiles.
impl Tile {
    /// Checks if the given 2 tiles can be merged.
    pub fn are_mergeable(a: &Self, b: &Self) -> (r: bool)
        ensures
            r == mergeable(*a, *b),
    {
        match (a, b) {
            // No merge if either tile is empty.
            (Tile::Empty, _) | (_, Tile::Empty) => false,
            // Always merge a bomb and a non-empty tile.
            (Tile::Bomb, _) | (_, Tile::Bomb) => true,
            // Merge only if both numbers have the same value.
            (Tile::Number(a_value), Tile::Number(b_value)) => *a_value == *b_value,
            // Perform multiplication and merge.
            (Tile::Number(_), Tile::Multiplier(_)) | (Tile::Multiplier(_), Tile::Number(_)) => true,
            // Perform division and merge.
            (Tile::Number(_), Tile::Divider(_)) | (Tile::Divider(_), Tile::Number(_)) => true,
            // Merge multipliers.
            (Tile::Multiplier(_), Tile::Multiplier(_)) => true,
            // Merge multiplier and divider.
            (Tile::Multiplier(_), Tile::Divider(_)) | (Tile::Divider(_), Tile::Multiplier(_)) => true,
            // Merge dividers.
            (Tile::Divider(_), Tile::Divider(_)) => true,
        }
    }

    /// If a merge is possible, perform the merge operation,
    /// set `a` to the result, set `b` to empty, and
    /// return a score from this merge.
    pub fn merge_tiles(a: &mut Self, b: &mut Self) -> (score: i16)
        requires
            merge_is_defined(*old(a), *old(b)),
        ensures
            (*final(a), *final(b), score as int) == merge_result(*old(a), *old(b)),
    {
        match (*a, *b) {
            // No merge if either tile is empty.
            (Tile::Empty, _) | (_, Tile::Empty) => 0,
            // Always merge a bomb and a non-empty tile.
            (Tile::Bomb, other) | (other, Tile::Bomb) => {
                let score = Self::calculate_bomb_score(&other);
                *a = Self::new_empty();
                *b = Self::new_empty();
                score
            },
            // Merge only if both numbers have the same value.
            (Tile::Number(a_value), Tile::Number(b_value)) => {
                if a_value == b_value {
                    let (sum, score) = Self::calculate_sum_and_score(a_value, b_value);
                    *a = Self::new_number(sum);
                    *b = Self::new_empty();
                    score
                } else {
                    0
                }
            },
            // Perform multiplication and merge.
            (Tile::Number(value), Tile::Multiplier(power))
            | (Tile::Multiplier(power), Tile::Number(value)) => {
                let (product, score) = Self::calculate_product_and_score(value, power);
                *a = Self::new_number(product);
                *b = Self::new_empty();
                score
            },
            // Perform division and merge.
            (Tile::Number(value), Tile::Divider(power))
            | (Tile::Divider(power), Tile::Number(value)) => {
                let (quotient, score) = Self::calculate_quotient_and_score(value, power);
                *a = Self::new_number(quotient);
                *b = Self::new_empty();
                score
            },
            // Merge multipliers.
            (Tile::Multiplier(a_power), Tile::Multiplier(b_power)) => {
                *a = Self::new_multiplier(a_power + b_power);
                *b = Self::new_empty();
                0
            },
            // Merge multiplier and divider.
            (Tile::Multiplier(mult_power), Tile::Divider(div_power))
            | (Tile::Divider(div_power), Tile::Multiplier(mult_power)) => {
                *a = Self::merge_multiplier_and_divider(mult_power, div_power);
                *b = Self::new_empty();
                0
            },
            // Merge dividers.
            (Tile::Divider(a_power), Tile::Divider(b_power)) => {
                *a = Self::new_divider(a_power + b_power);
                *b = Self::new_empty();
                0
            },
        }
    }

    /// Tells whether merging `a` and `b` stays within the arithmetic that
    /// `merge_tiles` is written for.
    pub fn can_merge_safely(a: &Self, b: &Self) -> (r: bool)
        ensures
            r == merge_is_defined(*a, *b),
    {
        match (*a, *b) {
            (Tile::Empty, _) | (_, Tile::Empty) => true,
            (Tile::Bomb, other) | (other, Tile::Bomb) => other != Tile::Number(0x8000),
            (Tile::Number(x), Tile::Number(y)) => x != y || x <= 0x7fff,
            (Tile::Number(_), Tile::Multiplier(p)) | (Tile::Multiplier(p), Tile::Number(_)) => p < 16,
            (Tile::Number(v), Tile::Divider(p)) | (Tile::Divider(p), Tile::Number(v)) => {
                if p < 16 {
                    proof {
                        lemma_u16_shr_is_div(v, p as u16);
                        assert((v >> p) == (v >> (p as u16))) by (bit_vector);
                    }
                    (v >> p) != 0x8000
                } else {
                    false
                }
            },
            (Tile::Multiplier(p), Tile::Multiplier(q)) | (Tile::Divider(p), Tile::Divider(q)) => p <= 255 - q,
            _ => true,
        }
    }

    /// Calculate the result of a sum operation, and return a score,
    /// which is always positive.
    fn calculate_sum_and_score(a_value: u16, b_value: u16) -> (r: (u16, i16))
        requires
            a_value + b_value <= u16::MAX,
        ensures
            r.0 == a_value + b_value,
            r.1 as int == gain_score(a_value + b_value),
    {
        let sum = a_value + b_value;
        let score = if sum < 0x8000 {
            sum as i16
        } else {
            i16::MAX
        };
        (sum, score)
    }

    /// Calculates the result of a multiplication operation, and return a score,
    /// which is always positive.
    fn calculate_product_and_score(value: u16, power: u8) -> (r: (u16, i16))
        requires
            power < 16,
        ensures
            r.0 as int == shifted_product(value, power),
            r.1 as int == gain_score(shifted_product(value, power)),
    {
        let product = value << power;
        proof {
            lemma_u16_shl_is_wrapping_mul(value, power);
        }
        let score = if product < 0x8000 {
            product as i16
        } else {
            i16::MAX
        };
        (product, score)
    }

    /// Calculates the result of a division operation, and return a score
    /// as a penalty value, which is always negative or 0 at best.
    fn calculate_quotient_and_score(value: u16, power: u8) -> (r: (u16, i16))
        requires
            power < 16,
            shifted_quotient(value, power) != 0x8000,
        ensures
            r.0 as int == shifted_quotient(value, power),
            r.1 as int == penalty_score(shifted_quotient(value, power)),
    {
        let quotient = value >> power;
        proof {
            lemma_u16_shr_is_div(value, power as u16);
            assert((value >> power) == (value >> (power as u16))) by (bit_vector);
        }
        let score = if quotient < 0x8000 {
            -(quotient as i16)
        } else {
            i16::MIN
        };
        (quotient, score)
    }

    /// Calculate the score from a bomb-merging interaction.
    /// If `other` is a number, the bomb deletes the number, and the number value is deducted as a penalty.
    /// Otherwise, the bomb deletes something else, and the score is 0.
    fn calculate_bomb_score(other: &Tile) -> (score: i16)
        requires
            *other != Tile::Number(0x8000),
        ensures
            score as int == bomb_score(*other),
    {
        match other {
            Self::Number(value) => {
                let v = *value;
                if v < 0x8000 {
                    -(v as i16)
                } else {
                    i16::MIN
                }
            },
            _ => 0,
        }
    }

    /// Return a new tile from merging a multiplier and a divider tile.
    /// This result tile may be either a multiplier, divider, or empty.
    fn merge_multiplier_and_divider(multiplier_power: u8, divider_power: u8) -> (t: Self)
        ensures
            t == multiplier_divider_tile(multiplier_power, divider_power),
    {
        if multiplier_power > divider_power {
            let resultant_power = multiplier_power - divider_power;
            Self::new_multiplier(resultant_power)
        } else if multiplier_power < divider_power {
            let resultant_power = divider_power - multiplier_power;
            Self::new_divider(resultant_power)
        } else {
            Self::new_empty()
        }
    }
}

/// The scalar that a multiplier or divider of the given power is written with:
/// the `i32` value `2 << (power - 1)`, which is 2^power for powers up to 30.
pub open spec fn scalar_value(power: u8) -> int {
    (2i32 << ((power - 1) as u8)) as int
}

/// Up to power 30 the scalar that a multiplier or divider is written with is
/// 2^power: `Multiplier(3)` multiplies by 2^3 and is written `*8`.
pub proof fn lemma_scalar_is_power_of_two(power: u8)
    requires
        1 <= power <= 30,
    ensures
        scalar_value(power) == pow2(power as nat),
{
    let s = (power - 1) as u8;
    let s32 = s as u32;
    assert((2i32 << s) as int == (2u32 << s32) as int) by (bit_vector)
        requires
            s < 30,
            s32 == s as u32,
    ;
    assert(pow2(s as nat) <= 0x20000000) by {
        lemma2_to64();
        if s < 29 {
            lemma_pow2_strictly_increases(s as nat, 29);
        }
    }
    lemma_u32_shl_is_mul(2u32, s32);
    vstd::arithmetic::power2::lemma_pow2_unfold(power as nat);
}

/// Whether the tile can be written as text: a multiplier or divider is written
/// with `2 << (power - 1)`, which needs `1 <= power <= 32`.
pub open spec fn is_writable(t: Tile) -> bool {
    match t {
        Tile::Multiplier(p) => 1 <= p <= 32,
        Tile::Divider(p) => 1 <= p <= 32,
        _ => true,
    }
}

/// The plain ASCII text of a tile: `.`, the number, `*` or `/` and the
/// scalar, or `B`.
pub open spec fn tile_text(t: Tile) -> Seq<char> {
    match t {
        Tile::Empty => seq!['.'],
        Tile::Number(value) => decimal_digits(value as nat),
        Tile::Multiplier(power) => seq!['*'] + decimal_text(scalar_value(power)),
        Tile::Divider(power) => seq!['/'] + decimal_text(scalar_value(power)),
        Tile::Bomb => seq!['B'],
    }
}

/// The keycap emoji of each digit of `digits`: the digit, U+FE0F, U+20E3.
pub open spec fn keycap_text(digits: Seq<char>) -> Seq<char>
    decreases digits.len(),
{
    if digits.len() == 0 {
        Seq::empty()
    } else {
        keycap_text(digits.drop_last()) + seq![digits.last(), '\u{fe0f}', '\u{20e3}']
    }
}

/// The fancy text of a tile: nothing for an empty tile, the digits of a number
/// as keycap emoji, `× ` or `÷ ` and the scalar, or the bomb emoji.
pub open spec fn fancy_text(t: Tile) -> Seq<char> {
    match t {
        Tile::Empty => Seq::empty(),
        Tile::Number(value) => keycap_text(decimal_digits(value as nat)),
        Tile::Multiplier(power) => seq!['\u{d7}', ' '] + decimal_text(scalar_value(power)),
        Tile::Divider(power) => seq!['\u{f7}', ' '] + decimal_text(scalar_value(power)),
        Tile::Bomb => seq!['\u{1f4a3}'],
    }
}

/// Appends the keycap emoji of one decimal digit.
fn append_keycap_digit(s: &mut String, d: u64)
    requires
        d < 10,
    ensures
        final(s)@ == old(s)@ + seq![digit_char(d as int), '\u{fe0f}', '\u{20e3}'],
{
    let ghost before = s@;
    if d == 0 {
        proof { reveal_strlit("0\u{fe0f}\u{20e3}"); }
        s.append("0\u{fe0f}\u{20e3}");
    } else if d == 1 {
        proof { reveal_strlit("1\u{fe0f}\u{20e3}"); }
        s.append("1\u{fe0f}\u{20e3}");
    } else if d == 2 {
        proof { reveal_strlit("2\u{fe0f}\u{20e3}"); }
        s.append("2\u{fe0f}\u{20e3}");
    } else if d == 3 {
        proof { reveal_strlit("3\u{fe0f}\u{20e3}"); }
        s.append("3\u{fe0f}\u{20e3}");
    } else if d == 4 {
        proof { reveal_strlit("4\u{fe0f}\u{20e3}"); }
        s.append("4\u{fe0f}\u{20e3}");
    } else if d == 5 {
        proof { reveal_strlit("5\u{fe0f}\u{20e3}"); }
        s.append("5\u{fe0f}\u{20e3}");
    } else if d == 6 {
        proof { reveal_strlit("6\u{fe0f}\u{20e3}"); }
        s.append("6\u{fe0f}\u{20e3}");
    } else if d == 7 {
        proof { reveal_strlit("7\u{fe0f}\u{20e3}"); }
        s.append("7\u{fe0f}\u{20e3}");
    } else if d == 8 {
        proof { reveal_strlit("8\u{fe0f}\u{20e3}"); }
        s.append("8\u{fe0f}\u{20e3}");
    } else {
        proof { reveal_strlit("9\u{fe0f}\u{20e3}"); }
        s.append("9\u{fe0f}\u{20e3}");
    }
    assert(s@ =~= before + seq![digit_char(d as int), '\u{fe0f}', '\u{20e3}']);
}

/// Appends the digits of `n` as keycap emoji.
fn append_keycap_decimal(s: &mut String, n: u64)
    ensures
        final(s)@ == old(s)@ + keycap_text(decimal_digits(n as nat)),
    decreases n,
{
    let ghost before = s@;
    if n >= 10 {
        append_keycap_decimal(s, n / 10);
    }
    append_keycap_digit(s, n % 10);
    proof {
        let d = decimal_digits(n as nat);
        if n >= 10 {
            assert(d.drop_last() =~= decimal_digits((n / 10) as nat));
        } else {
            assert(d.drop_last() =~= Seq::<char>::empty());
        }
        assert(d.len() > 0);
        assert(d.last() == digit_char((n % 10) as int));
        let tail = seq![digit_char((n % 10) as int), '\u{fe0f}', '\u{20e3}'];
        assert(keycap_text(d) == keycap_text(d.drop_last()) + tail);
        assert(s@ =~= before + keycap_text(d));
    }
}

/// These operations are related to defining string representations for the tile.
impl Tile {
    /// The scalar that a multiplier or divider of this power is written with.
    fn scalar(power: u8) -> (r: i32)
        requires
            1 <= power <= 32,
        ensures
            r as int == scalar_value(power),
    {
        2 << (power - 1)
    }

    /// Return a fancy string representation of the tile, which may include
    /// emojis and other unicode characters.
    pub fn get_fancy_string(&self) -> (r: String)
        requires
            is_writable(*self),
        ensures
            r@ == fancy_text(*self),
    {
        let mut s = String::new();
        match *self {
            Self::Empty => {},
            Self::Number(value) => {
                append_keycap_decimal(&mut s, value as u64);
            },
            Self::Multiplier(power) => {
                proof { reveal_strlit("\u{d7} "); }
                s.append("\u{d7} ");
                append_integer(&mut s, Self::scalar(power) as i64);
            },
            Self::Divider(power) => {
                proof { reveal_strlit("\u{f7} "); }
                s.append("\u{f7} ");
                append_integer(&mut s, Self::scalar(power) as i64);
            },
            Self::Bomb => {
                proof { reveal_strlit("\u{1f4a3}"); }
                s.append("\u{1f4a3}");
            },
        }
        assert(s@ =~= fancy_text(*self));
        s
    }

    /// Represent the tile with a simple string with only ascii characters.
    pub fn to_string(&self) -> (r: String)
        requires
            is_writable(*self),
        ensures
            r@ == tile_text(*self),
    {
        let mut s = String::new();
        match *self {
            Self::Empty => {
                proof { reveal_strlit("."); }
                s.append(".");
            },
            Self::Number(value) => {
                append_decimal(&mut s, value as u64);
            },
            Self::Multiplier(power) => {
                proof { reveal_strlit("*"); }
                s.append("*");
                append_integer(&mut s, Self::scalar(power) as i64);
            },
            Self::Divider(power) => {
                proof { reveal_strlit("/"); }
                s.append("/");
                append_integer(&mut s, Self::scalar(power) as i64);
            },
            Self::Bomb => {
                proof { reveal_strlit("B"); }
                s.append("B");
            },
        }
        assert(s@ =~= tile_text(*self));
        s
    }
}

/// The base 2 logarithm of `n`, rounded down (0 for `n <= 1`).
pub open spec fn floor_log2(n: nat) -> nat
    decreases n,
{
    if n <= 1 {
        0
    } else {
        1 + floor_log2(n / 2)
    }
}

/// Whether `s` is the ASCII text of a tile that `Tile::from_ascii` reads: `.`,
/// `B`, `*` or `/` followed by a positive `u16`, or a `u16`.
pub open spec fn is_tile_text(s: Seq<char>) -> bool {
    if s =~= seq!['.'] || s =~= seq!['B'] {
        true
    } else if s.len() > 0 && (s[0] == '*' || s[0] == '/') {
        is_unsigned_text(s.drop_first(), u16::MAX as nat) && unsigned_value(s.drop_first()) > 0
    } else {
        is_unsigned_text(s, u16::MAX as nat)
    }
}

/// The tile that the ASCII text `s` stands for: a multiplier or divider gets
/// the base 2 logarithm of its scalar, rounded down.
pub open spec fn text_tile(s: Seq<char>) -> Tile {
    if s =~= seq!['.'] {
        Tile::Empty
    } else if s =~= seq!['B'] {
        Tile::Bomb
    } else if s.len() > 0 && s[0] == '*' {
        Tile::Multiplier(floor_log2(unsigned_value(s.drop_first())) as u8)
    } else if s.len() > 0 && s[0] == '/' {
        Tile::Divider(floor_log2(unsigned_value(s.drop_first())) as u8)
    } else {
        number_tile(unsigned_value(s) as int)
    }
}

/// The base 2 logarithm of 2^p is p.
pub proof fn lemma_floor_log2_of_pow2(p: nat)
    ensures
        floor_log2(pow2(p)) == p,
    decreases p,
{
    if p > 0 {
        lemma_floor_log2_of_pow2((p - 1) as nat);
        vstd::arithmetic::power2::lemma_pow2_unfold(p);
        vstd::arithmetic::power2::lemma_pow2_pos((p - 1) as nat);
        assert(pow2(p) / 2 == pow2((p - 1) as nat));
    } else {
        lemma2_to64();
    }
}

/// Whether the text of `t` reads back as `t`: every tile but the number 0
/// and the multipliers and dividers whose scalar is not a `u16` power of 2
/// above 1.
pub open spec fn reads_back(t: Tile) -> bool {
    match t {
        Tile::Number(v) => v >= 1,
        Tile::Multiplier(p) => 1 <= p <= 15,
        Tile::Divider(p) => 1 <= p <= 15,
        _ => true,
    }
}

/// The ASCII text of such a tile is a word (not empty, no white space) that
/// `Tile::from_ascii` reads back as the tile.
pub proof fn lemma_tile_text_reads_back(t: Tile)
    requires
        reads_back(t),
    ensures
        is_writable(t),
        tile_text(t).len() >= 1,
        forall|i: int| 0 <= i < tile_text(t).len() ==> !is_white_space(#[trigger] tile_text(t)[i]),
        is_tile_text(tile_text(t)),
        text_tile(tile_text(t)) == t,
{
    let s = tile_text(t);
    match t {
        Tile::Empty => {},
        Tile::Bomb => {},
        Tile::Number(v) => {
            lemma_decimal_digits(v as nat);
            assert(is_digit(s[0]));
            assert(unsigned_digits(s) == s);
            assert forall|i: int| 0 <= i < s.len() implies !is_white_space(#[trigger] s[i]) by {
                assert(is_digit(s[i]));
            }
        },
        Tile::Multiplier(p) | Tile::Divider(p) => {
            lemma_scalar_is_power_of_two(p);
            lemma2_to64();
            if p < 15 {
                lemma_pow2_strictly_increases(p as nat, 15);
            }
            vstd::arithmetic::power2::lemma_pow2_pos(p as nat);
            let d = decimal_digits(pow2(p as nat));
            lemma_decimal_digits(pow2(p as nat));
            assert(s.drop_first() =~= d);
            assert(is_digit(d[0]));
            assert(unsigned_digits(d) == d);
            lemma_floor_log2_of_pow2(p as nat);
            assert forall|i: int| 0 <= i < s.len() implies !is_white_space(#[trigger] s[i]) by {
                if i > 0 {
                    assert(s[i] == d[i - 1]);
                    assert(is_digit(d[i - 1]));
                }
            }
        },
    }
}

/// The base 2 logarithm of a positive `u16`, rounded down.
fn u16_log2(n: u16) -> (r: u8)
    requires
        n > 0,
    ensures
        r as nat == floor_log2(n as nat),
        r < 16,
{
    let mut k: u8 = 0;
    let mut m: u16 = n;
    proof {
        lemma2_to64();
    }
    while m > 1
        invariant
            m >= 1,
            k + floor_log2(m as nat) == floor_log2(n as nat),
            k <= 15,
            m as nat * pow2(k as nat) <= n,
        decreases m,
    {
        proof {
            vstd::arithmetic::power2::lemma_pow2_unfold((k + 1) as nat);
            assert((m / 2) as nat * pow2((k + 1) as nat) <= m as nat * pow2(k as nat)) by (nonlinear_arith)
                requires
                    pow2((k + 1) as nat) == 2 * pow2(k as nat),
            ;
            if k == 15 {
                lemma2_to64();
                assert(m as nat * pow2(15) >= 2 * 0x8000) by (nonlinear_arith)
                    requires
                        m >= 2,
                        pow2(15) == 0x8000,
                ;
            }
        }
        m = m / 2;
        k = k + 1;
    }
    k
}

/// Reads a tile from ASCII text.
impl Tile {
    /// Construct a tile from a string containing only ascii characters:
    /// `.`, `B`, `*8`, `/2` or a number such as `64`.
    pub fn from_ascii(s: &str) -> (t: Tile)
        requires
            is_tile_text(s@),
        ensures
            t == text_tile(s@),
    {
        let len = s.unicode_len();
        if len == 1 && s.get_char(0) == '.' {
            assert(s@ =~= seq!['.']);
            Self::new_empty()
        } else if len == 1 && s.get_char(0) == 'B' {
            assert(s@ =~= seq!['B']);
            Self::new_bomb()
        } else if len > 0 && s.get_char(0) == '*' {
            assert(s@.subrange(1, len as int) =~= s@.drop_first());
            let scalar = parse_unsigned(s, 1, len, 0xffff).unwrap();
            let power = u16_log2(scalar as u16);
            Self::new_multiplier(power)
        } else if len > 0 && s.get_char(0) == '/' {
            assert(s@.subrange(1, len as int) =~= s@.drop_first());
            let scalar = parse_unsigned(s, 1, len, 0xffff).unwrap();
            let power = u16_log2(scalar as u16);
            Self::new_divider(power)
        } else {
            assert(s@.subrange(0, len as int) =~= s@);
            let value = parse_unsigned(s, 0, len, 0xffff).unwrap();
            Self::new_number(value as u16)
        }
    }
}

} // verus!
