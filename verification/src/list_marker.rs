use vstd::prelude::*;

use crate::decimal::{
    decimal, lemma_decimal_injective, lemma_numeral_reads_back, numeral_value, push_char,
    push_decimal,
};

verus! {

/// Number of letters that ordered nested lists cycle through.
pub const LETTER_COUNT: usize = 26;

/// Deepest bullet level: deeper unordered lists reuse its bullet.
pub const DEEPEST_BULLET: usize = 4;

/// The `k`-th capital Latin letter (`k < 26`), as used by ordered lists one level deep.
pub open spec fn upper_letter(k: nat) -> char {
    (65 + k) as char
}

/// The `k`-th small Latin letter (`k < 26`), as used by ordered lists two or more levels deep.
pub open spec fn lower_letter(k: nat) -> char {
    (97 + k) as char
}

/// The bullet of an unordered list at nesting `level` (levels past the
/// deepest one share its bullet): `•`, `◦`, `▪`, `‣`, `⁃`.
pub open spec fn bullet(level: nat) -> char {
    if level == 0 {
        '\u{2022}'
    } else if level == 1 {
        '\u{25E6}'
    } else if level == 2 {
        '\u{25AA}'
    } else if level == 3 {
        '\u{2023}'
    } else {
        '\u{2043}'
    }
}

/// The marker of list item `ix` (counted from 0) at nesting `depth`.
///
/// Ordered lists number the top level `1.`, `2.`, ..., use `A.`-`Z.` one
/// level down and `a.`-`z.` further down, the letters cycling every 26 items.
/// Unordered lists use one bullet per level. Every marker ends in a space.
pub open spec fn list_item_prefix_spec(ix: nat, ordered: bool, depth: nat) -> Seq<char> {
    if ordered {
        if depth == 0 {
            decimal(ix + 1) + seq!['.', ' ']
        } else if depth == 1 {
            seq![upper_letter(ix % 26), '.', ' ']
        } else {
            seq![lower_letter(ix % 26), '.', ' ']
        }
    } else {
        seq![bullet(if depth < 4 { depth } else { 4 }), ' ']
    }
}

fn bullet_char(level: usize) -> (c: char)
    requires
        level <= DEEPEST_BULLET,
    ensures
        c == bullet(level as nat),
{
    if level == 0 {
        '\u{2022}'
    } else if level == 1 {
        '\u{25E6}'
    } else if level == 2 {
        '\u{25AA}'
    } else if level == 3 {
        '\u{2023}'
    } else {
        '\u{2043}'
    }
}

/// Returns the prefix for a list item.
///
/// The numeral of an ordered top-level item is `ix + 1`, so there `ix` is
/// below `usize::MAX`.
pub fn list_item_prefix(ix: usize, ordered: bool, depth: usize) -> (prefix: String)
    requires
        ordered && depth == 0 ==> ix < usize::MAX,
    ensures
        prefix@ == list_item_prefix_spec(ix as nat, ordered, depth as nat),
{
    let mut prefix = String::new();
    if ordered {
        if depth == 0 {
            push_decimal(&mut prefix, ix + 1);
        } else {
            let k: u8 = (ix % LETTER_COUNT) as u8;
            let first: u8 = if depth == 1 { 65u8 } else { 97u8 };
            push_char(&mut prefix, (first + k) as char);
        }
        push_char(&mut prefix, '.');
    } else {
        let depth = if depth < DEEPEST_BULLET { depth } else { DEEPEST_BULLET };
        push_char(&mut prefix, bullet_char(depth));
    }
    push_char(&mut prefix, ' ');
    assert(prefix@ =~= list_item_prefix_spec(ix as nat, ordered, depth as nat));
    prefix
}

/// Letter markers of nested ordered lists repeat every 26 items.
pub proof fn lemma_letter_markers_cycle(ix: nat, depth: nat)
    requires
        depth >= 1,
    ensures
        list_item_prefix_spec(ix + 26, true, depth) == list_item_prefix_spec(ix, true, depth),
{
    assert((ix + 26) % 26 == ix % 26);
}

/// Item `ix` of an ordered list nested one level is marked by the capital
/// letter `ix mod 26` places after `A` in the alphabet, then `". "`.
pub proof fn lemma_capital_letter_markers(ix: nat)
    ensures
        ({
            let m = list_item_prefix_spec(ix, true, 1);
            &&& m.len() == 3
            &&& m[0] as u32 == 65 + ix % 26
            &&& m[1] == '.'
            &&& m[2] == ' '
        }),
{
    let k = ix % 26;
    assert(((65 + k) as char) as u32 == 65 + k);
}

/// Item `ix` of an ordered list nested two or more levels is marked by the
/// small letter `ix mod 26` places after `a`, the same at every such depth,
/// then `". "`.
pub proof fn lemma_small_letter_markers(ix: nat, depth: nat)
    requires
        depth >= 2,
    ensures
        ({
            let m = list_item_prefix_spec(ix, true, depth);
            &&& m.len() == 3
            &&& m[0] as u32 == 97 + ix % 26
            &&& m[1] == '.'
            &&& m[2] == ' '
        }),
        list_item_prefix_spec(ix, true, depth) == list_item_prefix_spec(ix, true, 2),
{
    let k = ix % 26;
    assert(((97 + k) as char) as u32 == 97 + k);
}

/// In a nested ordered list, items whose indices differ modulo 26 get
/// different markers.
pub proof fn lemma_letter_markers_tell_items_apart(ix: nat, jx: nat, depth: nat)
    requires
        depth >= 1,
        ix % 26 != jx % 26,
    ensures
        list_item_prefix_spec(ix, true, depth) != list_item_prefix_spec(jx, true, depth),
{
    if depth == 1 {
        lemma_capital_letter_markers(ix);
        lemma_capital_letter_markers(jx);
    } else {
        lemma_small_letter_markers(ix, depth);
        lemma_small_letter_markers(jx, depth);
    }
}

/// Item `ix` of a top-level ordered list is marked by the decimal numeral of
/// `ix + 1`, then `". "`.
pub proof fn lemma_number_markers(ix: nat)
    ensures
        ({
            let m = list_item_prefix_spec(ix, true, 0);
            let digits = m.subrange(0, m.len() - 2);
            &&& m.len() >= 3
            &&& numeral_value(digits) == ix + 1
            &&& forall|i: int| 0 <= i < digits.len() ==> '0' <= #[trigger] digits[i] <= '9'
            &&& digits[0] != '0'
            &&& m[m.len() - 2] == '.'
            &&& m[m.len() - 1] == ' '
        }),
{
    let m = list_item_prefix_spec(ix, true, 0);
    lemma_numeral_reads_back(ix + 1);
    crate::decimal::lemma_decimal_nonempty(ix + 1);
    assert(m.subrange(0, m.len() - 2) =~= decimal(ix + 1));
}

/// Unordered lists at depths 0 to 4 get five different bullets, in the
/// order `•` (U+2022), `◦` (U+25E6), `▪` (U+25AA), `‣` (U+2023), `⁃` (U+2043),
/// each followed by a space.
pub proof fn lemma_bullet_markers(ix: nat, depth: nat, other: nat)
    requires
        depth <= 4,
        other <= 4,
        depth != other,
    ensures
        list_item_prefix_spec(ix, false, depth).len() == 2,
        list_item_prefix_spec(ix, false, depth)[1] == ' ',
        list_item_prefix_spec(ix, false, depth)[0] != list_item_prefix_spec(ix, false, other)[0],
        depth == 0 ==> list_item_prefix_spec(ix, false, depth)[0] as u32 == 0x2022,
        depth == 1 ==> list_item_prefix_spec(ix, false, depth)[0] as u32 == 0x25E6,
        depth == 2 ==> list_item_prefix_spec(ix, false, depth)[0] as u32 == 0x25AA,
        depth == 3 ==> list_item_prefix_spec(ix, false, depth)[0] as u32 == 0x2023,
        depth == 4 ==> list_item_prefix_spec(ix, false, depth)[0] as u32 == 0x2043,
{
}

/// Items of a top-level ordered list never share a marker.
pub proof fn lemma_top_level_numbers_distinct(ix: nat, jx: nat)
    requires
        ix != jx,
    ensures
        list_item_prefix_spec(ix, true, 0) != list_item_prefix_spec(jx, true, 0),
{
    let a = list_item_prefix_spec(ix, true, 0);
    let b = list_item_prefix_spec(jx, true, 0);
    if a == b {
        assert(a.subrange(0, a.len() - 2) =~= decimal(ix + 1));
        assert(b.subrange(0, b.len() - 2) =~= decimal(jx + 1));
        lemma_decimal_injective(ix + 1, jx + 1);
    }
}

/// An unordered item's marker depends on its nesting depth alone, and every
/// depth from the deepest bullet level on shares that level's bullet.
pub proof fn lemma_bullets_depend_on_depth_alone(ix: nat, jx: nat, depth: nat)
    ensures
        list_item_prefix_spec(ix, false, depth) == list_item_prefix_spec(jx, false, depth),
        depth >= 4 ==> list_item_prefix_spec(ix, false, depth) == list_item_prefix_spec(ix, false, 4),
{
}

/// Every marker ends in a space, and an ordered one in `". "`.
pub proof fn lemma_markers_end_in_space(ix: nat, ordered: bool, depth: nat)
    ensures
        ({
            let m = list_item_prefix_spec(ix, ordered, depth);
            &&& m.len() >= 2
            &&& m.last() == ' '
            &&& ordered ==> m[m.len() - 2] == '.'
        }),
{
    crate::decimal::lemma_decimal_nonempty(ix + 1);
}

} // verus!
