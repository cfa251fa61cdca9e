//! The level-description format: line-oriented `key = value` text with a
//! bespoke micro-grammar for position tuples `(x, y)` and tuple lists
//! `{(x, y), ...}`, and the path convention that turns asset names into
//! paths.

use vstd::prelude::*;

use crate::entity::round_up_to_tile;
use crate::entity::Entity;
use crate::geometry::Vector2;
use crate::grid::spec_split_lines;
use crate::grid::split_first_line;
use crate::map::LevelMap;
use crate::text::is_digit;
use crate::text::is_space;
use crate::text::spec_parse_u32;
use crate::tile::TileType;

verus! {

/// The bytes of `level_name`.
pub const KEY_LEVEL_NAME: [u8; 10] = [108, 101, 118, 101, 108, 95, 110, 97, 109, 101];

/// The bytes of `level_music`.
pub const KEY_LEVEL_MUSIC: [u8; 11] = [108, 101, 118, 101, 108, 95, 109, 117, 115, 105, 99];

/// The bytes of `next_level`.
pub const KEY_NEXT_LEVEL: [u8; 10] = [110, 101, 120, 116, 95, 108, 101, 118, 101, 108];

/// The bytes of `tile_map`.
pub const KEY_TILE_MAP: [u8; 8] = [116, 105, 108, 101, 95, 109, 97, 112];

/// The bytes of `wall_tile`.
pub const KEY_WALL_TILE: [u8; 9] = [119, 97, 108, 108, 95, 116, 105, 108, 101];

/// The bytes of `floor_tile`.
pub const KEY_FLOOR_TILE: [u8; 10] = [102, 108, 111, 111, 114, 95, 116, 105, 108, 101];

/// The bytes of `target_tile`.
pub const KEY_TARGET_TILE: [u8; 11] = [116, 97, 114, 103, 101, 116, 95, 116, 105, 108, 101];

/// The bytes of `box_sprite_sheet`.
pub const KEY_BOX_SPRITE_SHEET: [u8; 16] = [
    98,
    111,
    120,
    95,
    115,
    112,
    114,
    105,
    116,
    101,
    95,
    115,
    104,
    101,
    101,
    116,
];

/// The bytes of `player_position`.
pub const KEY_PLAYER_POSITION: [u8; 15] = [
    112,
    108,
    97,
    121,
    101,
    114,
    95,
    112,
    111,
    115,
    105,
    116,
    105,
    111,
    110,
];

/// The bytes of `box_positions`.
pub const KEY_BOX_POSITIONS: [u8; 13] = [98, 111, 120, 95, 112, 111, 115, 105, 116, 105, 111, 110, 115];

/// The bytes of `box_sprite_width`.
pub const KEY_BOX_SPRITE_WIDTH: [u8; 16] = [
    98,
    111,
    120,
    95,
    115,
    112,
    114,
    105,
    116,
    101,
    95,
    119,
    105,
    100,
    116,
    104,
];

/// The bytes of `box_sprite_height`.
pub const KEY_BOX_SPRITE_HEIGHT: [u8; 17] = [
    98,
    111,
    120,
    95,
    115,
    112,
    114,
    105,
    116,
    101,
    95,
    104,
    101,
    105,
    103,
    104,
    116,
];

/// Length of the whitespace run at the start of the sequence.
pub open spec fn space_run(s: Seq<u8>) -> nat
    decreases s.len(),
{
    if s.len() == 0 {
        0
    } else if is_space(s[0]) {
        1 + space_run(s.drop_first())
    } else {
        0
    }
}

pub proof fn lemma_space_run_is(s: Seq<u8>, k: int)
    requires
        0 <= k <= s.len(),
        forall|j: int| 0 <= j < k ==> is_space(s[j]),
        k < s.len() ==> !is_space(s[k]),
    ensures
        space_run(s) == k,
    decreases k,
{
    if s.len() > 0 && k > 0 {
        assert(forall|j: int| 0 <= j < k - 1 ==> s.drop_first()[j] == s[j + 1]);
        if k - 1 < s.drop_first().len() {
            assert(s.drop_first()[k - 1] == s[k]);
        }
        lemma_space_run_is(s.drop_first(), k - 1);
    }
}

/// Length of the digit run at the start of the sequence.
pub open spec fn digit_run(s: Seq<u8>) -> nat
    decreases s.len(),
{
    if s.len() == 0 {
        0
    } else if is_digit(s[0]) {
        1 + digit_run(s.drop_first())
    } else {
        0
    }
}

pub proof fn lemma_digit_run_is(s: Seq<u8>, k: int)
    requires
        0 <= k <= s.len(),
        forall|j: int| 0 <= j < k ==> is_digit(s[j]),
        k < s.len() ==> !is_digit(s[k]),
    ensures
        digit_run(s) == k,
    decreases k,
{
    if s.len() > 0 && k > 0 {
        assert(forall|j: int| 0 <= j < k - 1 ==> s.drop_first()[j] == s[j + 1]);
        if k - 1 < s.drop_first().len() {
            assert(s.drop_first()[k - 1] == s[k]);
        }
        lemma_digit_run_is(s.drop_first(), k - 1);
    }
}

/// End of the whitespace run beginning at `i`, as an absolute index clamped
/// to the sequence.
pub open spec fn spaces_end(s: Seq<u8>, i: int) -> int {
    let e = i + space_run(s.subrange(i, s.len() as int));
    if e > s.len() {
        s.len() as int
    } else {
        e
    }
}

/// Index where the trimmed content starts.
pub open spec fn ltrim_idx(s: Seq<u8>) -> nat {
    space_run(s)
}

/// Index just past the trimmed content.
pub open spec fn rtrim_idx(s: Seq<u8>) -> nat
    decreases s.len(),
{
    if s.len() == 0 {
        0
    } else if is_space(s.last()) {
        rtrim_idx(s.drop_last())
    } else {
        s.len()
    }
}

pub proof fn lemma_rtrim_is(s: Seq<u8>, k: int)
    requires
        0 <= k <= s.len(),
        forall|j: int| k <= j < s.len() ==> is_space(s[j]),
        k > 0 ==> !is_space(s[k - 1]),
    ensures
        rtrim_idx(s) == k,
    decreases s.len(),
{
    if s.len() > 0 {
        if k == s.len() {
        } else {
            assert(is_space(s.last()));
            assert(forall|j: int| 0 <= j < s.len() - 1 ==> s.drop_last()[j] == s[j]);
            lemma_rtrim_is(s.drop_last(), k);
        }
    }
}

/// The sequence with whitespace removed from both ends.
pub open spec fn spec_trim(s: Seq<u8>) -> Seq<u8> {
    let l = ltrim_idx(s) as int;
    let r = rtrim_idx(s) as int;
    if 0 <= l <= r <= s.len() {
        s.subrange(l, r)
    } else {
        Seq::empty()
    }
}

/// Trim ASCII whitespace from both ends of a byte slice.
pub fn trim_slice(s: &[u8]) -> (r: &[u8])
    ensures
        r@ == spec_trim(s@),
{
    let len = s.len();
    let mut lo: usize = 0;
    let mut lo_done = false;
    while !lo_done
        invariant
            0 <= lo <= len,
            len == s@.len(),
            forall|j: int| 0 <= j < lo ==> is_space(s@[j]),
            lo_done ==> lo == len || !is_space(s@[lo as int]),
        decreases len - lo + (if lo_done { 0int } else { 1int }),
    {
        if lo >= len {
            lo_done = true;
        } else {
            let b = s[lo];
            if b == 32 || (9 <= b && b <= 13) {
                lo += 1;
            } else {
                lo_done = true;
            }
        }
    }
    if lo == len {
        proof {
            lemma_space_run_is(s@, len as int);
            lemma_rtrim_is(s@, 0);
            assert(s@.subrange(len as int, len as int) =~= Seq::<u8>::empty());
        }
        return &s[len..len];
    }
    proof {
        lemma_space_run_is(s@, lo as int);
    }
    let mut hi: usize = len;
    let mut hi_done = false;
    while !hi_done
        invariant
            lo <= hi <= len,
            len == s@.len(),
            lo < len,
            !is_space(s@[lo as int]),
            forall|j: int| hi <= j < len ==> is_space(s@[j]),
            hi_done ==> hi == lo || !is_space(s@[hi - 1]),
        decreases hi + (if hi_done { 0int } else { 1int }),
    {
        if hi <= lo {
            hi_done = true;
        } else {
            let b = s[hi - 1];
            if b == 32 || (9 <= b && b <= 13) {
                hi -= 1;
            } else {
                hi_done = true;
            }
        }
    }
    proof {
        if hi == lo {
            assert(!is_space(s@[hi as int]));
        }
        lemma_rtrim_is(s@, hi as int);
    }
    &s[lo..hi]
}

/// Index of the first occurrence of `b`, or the length when absent.
pub open spec fn first_of(s: Seq<u8>, b: u8) -> nat
    decreases s.len(),
{
    if s.len() == 0 {
        0
    } else if s[0] == b {
        0
    } else {
        1 + first_of(s.drop_first(), b)
    }
}

pub proof fn lemma_first_of_is(s: Seq<u8>, b: u8, k: int)
    requires
        0 <= k <= s.len(),
        forall|j: int| 0 <= j < k ==> s[j] != b,
        k < s.len() ==> s[k] == b,
    ensures
        first_of(s, b) == k,
    decreases k,
{
    if s.len() > 0 && k > 0 {
        assert(forall|j: int| 0 <= j < k - 1 ==> s.drop_first()[j] == s[j + 1]);
        if k - 1 < s.drop_first().len() {
            assert(s.drop_first()[k - 1] == s[k]);
        }
        lemma_first_of_is(s.drop_first(), b, k - 1);
    }
}

/// Find the first occurrence of a byte.
pub fn find_byte(s: &[u8], b: u8) -> (r: Option<usize>)
    ensures
        match r {
            Option::Some(k) => k < s@.len() && first_of(s@, b) == k,
            Option::None => first_of(s@, b) == s@.len(),
        },
{
    let len = s.len();
    let mut i: usize = 0;
    while i < len
        invariant
            0 <= i <= len,
            len == s@.len(),
            forall|j: int| 0 <= j < i ==> s@[j] != b,
        decreases len - i,
    {
        if s[i] == b {
            proof {
                lemma_first_of_is(s@, b, i as int);
            }
            return Some(i);
        }
        i += 1;
    }
    proof {
        lemma_first_of_is(s@, b, len as int);
    }
    None
}

/// Where a signed number token `-?[0-9]+` starting exactly at `i` ends, or
/// nothing when no digits follow.
pub open spec fn number_span(s: Seq<u8>, i: int) -> Option<int> {
    let j = if i < s.len() && s[i] == 45 {
        i + 1
    } else {
        i
    };
    let e = j + digit_run(s.subrange(j, s.len() as int));
    if e == j || e > s.len() {
        Option::None
    } else {
        Option::Some(e)
    }
}

/// A successful match of the tuple grammar
/// `'(' space* -?digits ',' space* -?digits space* ')'` starting exactly at
/// some `(`: the two number tokens (sign included) and the index just past
/// the closing parenthesis.
pub struct TupleMatch {
    pub first: Seq<u8>,
    pub second: Seq<u8>,
    pub end: int,
}

/// Match the tuple grammar at position `i`. The grammar allows spaces after
/// `(`, after the comma and before `)`, but none between the first number
/// and the comma.
pub open spec fn match_tuple_at(s: Seq<u8>, i: int) -> Option<TupleMatch> {
    if !(0 <= i < s.len() && s[i] == 40) {
        Option::None
    } else {
        let a0 = spaces_end(s, i + 1);
        match number_span(s, a0) {
            Option::None => Option::None,
            Option::Some(a1) => {
                if !(a1 < s.len() && s[a1] == 44) {
                    Option::None
                } else {
                    let b0 = spaces_end(s, a1 + 1);
                    match number_span(s, b0) {
                        Option::None => Option::None,
                        Option::Some(b1) => {
                            let c = spaces_end(s, b1);
                            if c < s.len() && s[c] == 41 {
                                Option::Some(
                                    TupleMatch {
                                        first: s.subrange(a0, a1),
                                        second: s.subrange(b0, b1),
                                        end: c + 1,
                                    },
                                )
                            } else {
                                Option::None
                            }
                        },
                    }
                }
            },
        }
    }
}

/// The leftmost position at or after `i` where the tuple grammar matches.
pub open spec fn find_tuple_from(s: Seq<u8>, i: int) -> Option<TupleMatch>
    decreases s.len() - i,
{
    if i < 0 || i >= s.len() {
        Option::None
    } else {
        match match_tuple_at(s, i) {
            Option::Some(m) => Option::Some(m),
            Option::None => find_tuple_from(s, i + 1),
        }
    }
}

/// What parsing a position tuple yields: search the text for the first
/// tuple-shaped substring, then read its two numbers as unsigned integers —
/// a negative or oversized component fails even though the grammar admits a
/// sign.
pub open spec fn spec_parse_position_tuple(s: Seq<u8>) -> Option<(u32, u32)> {
    match find_tuple_from(s, 0) {
        Option::None => Option::None,
        Option::Some(m) => match (spec_parse_u32(m.first), spec_parse_u32(m.second)) {
            (Option::Some(a), Option::Some(b)) => Option::Some((a, b)),
            _ => Option::None,
        },
    }
}

/// A matched tuple's tokens lie inside the text and its end lies past its
/// start.
pub proof fn lemma_tuple_match_bounds(s: Seq<u8>, i: int)
    requires
        match_tuple_at(s, i) is Some,
    ensures
        ({
            let m = match_tuple_at(s, i)->Some_0;
            i < m.end <= s.len()
        }),
{
}

/// Advance past whitespace.
fn skip_spaces(s: &[u8], i: usize) -> (r: usize)
    requires
        i <= s@.len(),
    ensures
        r == spaces_end(s@, i as int),
        i <= r <= s@.len(),
{
    let len = s.len();
    let mut j: usize = i;
    let mut done = false;
    while !done
        invariant
            i <= j <= len,
            len == s@.len(),
            forall|q: int| i <= q < j ==> is_space(s@[q]),
            done ==> j == len || !is_space(s@[j as int]),
        decreases len - j + (if done { 0int } else { 1int }),
    {
        if j >= len {
            done = true;
        } else {
            let b = s[j];
            if b == 32 || (9 <= b && b <= 13) {
                j += 1;
            } else {
                done = true;
            }
        }
    }
    proof {
        let suffix = s@.subrange(i as int, len as int);
        assert(forall|q: int| 0 <= q < j - i ==> suffix[q] == s@[i + q]);
        if j < len {
            assert(suffix[j - i] == s@[j as int]);
        }
        lemma_space_run_is(suffix, j - i);
    }
    j
}

/// End of a signed number token starting exactly at `i`, if any.
fn number_end(s: &[u8], i: usize) -> (r: Option<usize>)
    requires
        i <= s@.len(),
    ensures
        match r {
            Option::Some(e) => number_span(s@, i as int) == Option::Some(e as int) && i < e
                <= s@.len(),
            Option::None => number_span(s@, i as int) is None,
        },
{
    let len = s.len();
    let j: usize = if i < len && s[i] == 45 {
        i + 1
    } else {
        i
    };
    let mut e: usize = j;
    let mut done = false;
    while !done
        invariant
            j <= e <= len,
            len == s@.len(),
            forall|q: int| j <= q < e ==> is_digit(s@[q]),
            done ==> e == len || !is_digit(s@[e as int]),
        decreases len - e + (if done { 0int } else { 1int }),
    {
        if e >= len {
            done = true;
        } else {
            let b = s[e];
            if 48 <= b && b <= 57 {
                e += 1;
            } else {
                done = true;
            }
        }
    }
    proof {
        let suffix = s@.subrange(j as int, len as int);
        assert(forall|q: int| 0 <= q < e - j ==> suffix[q] == s@[j + q]);
        if e < len {
            assert(suffix[e - j] == s@[e as int]);
        }
        lemma_digit_run_is(suffix, e - j);
    }
    if e == j {
        None
    } else {
        Some(e)
    }
}

/// Match the tuple grammar at `i`, yielding the index ranges of the two
/// number tokens and the end of the match.
fn try_tuple_at(s: &[u8], i: usize) -> (r: Option<(usize, usize, usize, usize, usize)>)
    requires
        i < s@.len(),
    ensures
        match r {
            Option::Some((a0, a1, b0, b1, end)) => {
                &&& a0 <= a1 <= s@.len()
                &&& b0 <= b1 <= s@.len()
                &&& end <= s@.len()
                &&& match_tuple_at(s@, i as int) == Option::Some(
                    TupleMatch {
                        first: s@.subrange(a0 as int, a1 as int),
                        second: s@.subrange(b0 as int, b1 as int),
                        end: end as int,
                    },
                )
            },
            Option::None => match_tuple_at(s@, i as int) is None,
        },
{
    if s[i] != 40 {
        return None;
    }
    let a0 = skip_spaces(s, i + 1);
    let a1 = match number_end(s, a0) {
        Option::None => {
            return None;
        },
        Option::Some(e) => e,
    };
    if !(a1 < s.len() && s[a1] == 44) {
        return None;
    }
    let b0 = skip_spaces(s, a1 + 1);
    let b1 = match number_end(s, b0) {
        Option::None => {
            return None;
        },
        Option::Some(e) => e,
    };
    let c = skip_spaces(s, b1);
    if c < s.len() && s[c] == 41 {
        Some((a0, a1, b0, b1, c + 1))
    } else {
        None
    }
}

/// Parse a position tuple `(x, y)`: the text is searched for the first
/// substring in tuple shape, whose two numbers must then read as unsigned
/// integers.
pub fn parse_position_tuple(s: &[u8]) -> (r: Option<(u32, u32)>)
    ensures
        r == spec_parse_position_tuple(s@),
{
    let len = s.len();
    let mut i: usize = 0;
    while i < len
        invariant
            0 <= i <= len,
            len == s@.len(),
            find_tuple_from(s@, 0) == find_tuple_from(s@, i as int),
        decreases len - i,
    {
        match try_tuple_at(s, i) {
            Option::Some((a0, a1, b0, b1, _end)) => {
                let first = crate::text::parse_u32(&s[a0..a1]);
                let second = crate::text::parse_u32(&s[b0..b1]);
                return match (first, second) {
                    (Option::Some(a), Option::Some(b)) => Some((a, b)),
                    _ => None,
                };
            },
            Option::None => {},
        }
        i += 1;
    }
    None
}

/// Everything after the first tuple of a tuple list: a possibly empty run of
/// `space* ',' space* tuple`, closed by `space* '}'`. Yields the tuples and
/// the index just past the closing brace.
pub open spec fn match_list_rest(s: Seq<u8>, i: int) -> Option<(Seq<TupleMatch>, int)>
    decreases s.len() - i,
{
    if i < 0 || i > s.len() {
        Option::None
    } else {
        let c = spaces_end(s, i);
        if c < s.len() && s[c] == 44 {
            let d = spaces_end(s, c + 1);
            match match_tuple_at(s, d) {
                Option::None => Option::None,
                Option::Some(m) => {
                    let e = if m.end < i + 1 {
                        i + 1
                    } else if m.end > s.len() {
                        s.len() as int
                    } else {
                        m.end
                    };
                    match match_list_rest(s, e) {
                        Option::None => Option::None,
                        Option::Some((rest, fin)) => Option::Some((seq![m] + rest, fin)),
                    }
                },
            }
        } else if c < s.len() && s[c] == 125 {
            Option::Some((Seq::empty(), c + 1))
        } else {
            Option::None
        }
    }
}

/// Match a whole tuple list `'{' space* tuple (space* ',' space* tuple)*
/// space* '}'` at position `i`.
pub open spec fn match_list_at(s: Seq<u8>, i: int) -> Option<(Seq<TupleMatch>, int)> {
    if !(0 <= i < s.len() && s[i] == 123) {
        Option::None
    } else {
        let a = spaces_end(s, i + 1);
        match match_tuple_at(s, a) {
            Option::None => Option::None,
            Option::Some(m) => {
                let e = if m.end < i + 1 {
                    i + 1
                } else if m.end > s.len() {
                    s.len() as int
                } else {
                    m.end
                };
                match match_list_rest(s, e) {
                    Option::None => Option::None,
                    Option::Some((rest, fin)) => Option::Some((seq![m] + rest, fin)),
                }
            },
        }
    }
}

/// The leftmost position at or after `i` where a whole tuple list matches.
pub open spec fn find_list_from(s: Seq<u8>, i: int) -> Option<(Seq<TupleMatch>, int)>
    decreases s.len() - i,
{
    if i < 0 || i >= s.len() {
        Option::None
    } else {
        match match_list_at(s, i) {
            Option::Some(r) => Option::Some(r),
            Option::None => find_list_from(s, i + 1),
        }
    }
}

/// Convert matched tuples to numbers, in order; the first component that is
/// not an unsigned integer fails the whole list.
pub open spec fn conv_tuples(ts: Seq<TupleMatch>) -> Option<Seq<(u32, u32)>>
    decreases ts.len(),
{
    if ts.len() == 0 {
        Option::Some(Seq::empty())
    } else {
        match (spec_parse_u32(ts[0].first), spec_parse_u32(ts[0].second)) {
            (Option::Some(a), Option::Some(b)) => match conv_tuples(ts.drop_first()) {
                Option::None => Option::None,
                Option::Some(rest) => Option::Some(seq![(a, b)] + rest),
            },
            _ => Option::None,
        }
    }
}

/// Appending one more tuple converts exactly when everything before it did
/// and its own numbers read.
pub proof fn lemma_conv_tuples_push(ts: Seq<TupleMatch>, m: TupleMatch)
    ensures
        conv_tuples(ts.push(m)) == match conv_tuples(ts) {
            Option::None => Option::None::<Seq<(u32, u32)>>,
            Option::Some(r) => match (spec_parse_u32(m.first), spec_parse_u32(m.second)) {
                (Option::Some(a), Option::Some(b)) => Option::Some(r.push((a, b))),
                _ => Option::None,
            },
        },
    decreases ts.len(),
{
    if ts.len() == 0 {
        assert(ts.push(m)[0] == m);
        assert(ts.push(m).drop_first() =~= Seq::<TupleMatch>::empty());
        assert(conv_tuples(Seq::<TupleMatch>::empty()) == Option::Some(Seq::<(u32, u32)>::empty()));
        assert(ts =~= Seq::<TupleMatch>::empty());
        if let (Option::Some(a), Option::Some(b)) = (
            spec_parse_u32(m.first),
            spec_parse_u32(m.second),
        ) {
            assert(seq![(a, b)] + Seq::<(u32, u32)>::empty() =~= Seq::<(u32, u32)>::empty().push(
                (a, b),
            ));
        }
    } else {
        assert(ts.push(m)[0] == ts[0]);
        assert(ts.push(m).drop_first() =~= ts.drop_first().push(m));
        lemma_conv_tuples_push(ts.drop_first(), m);
        if let (Option::Some(a0), Option::Some(b0)) = (
            spec_parse_u32(ts[0].first),
            spec_parse_u32(ts[0].second),
        ) {
            match conv_tuples(ts.drop_first()) {
                Option::None => {},
                Option::Some(rest) => {
                    if let (Option::Some(a), Option::Some(b)) = (
                        spec_parse_u32(m.first),
                        spec_parse_u32(m.second),
                    ) {
                        assert(seq![(a0, b0)] + rest.push((a, b)) =~= (seq![(a0, b0)]
                            + rest).push((a, b)));
                    }
                },
            }
        }
    }
}

/// What parsing a tuple list yields: the leftmost substring in list shape,
/// all of whose numbers must read as unsigned integers.
pub open spec fn spec_parse_position_tuple_vec(s: Seq<u8>) -> Option<Seq<(u32, u32)>> {
    match find_list_from(s, 0) {
        Option::None => Option::None,
        Option::Some((ts, _)) => conv_tuples(ts),
    }
}

/// Parse a tuple list `{(x, y), ...}` with at least one tuple.
pub fn parse_position_tuple_vec(s: &[u8]) -> (r: Option<Vec<(u32, u32)>>)
    ensures
        match r {
            Option::Some(v) => spec_parse_position_tuple_vec(s@) == Option::Some(v@),
            Option::None => spec_parse_position_tuple_vec(s@) is None,
        },
{
    let len = s.len();
    let mut i: usize = 0;
    while i < len
        invariant
            0 <= i <= len,
            len == s@.len(),
            find_list_from(s@, 0) == find_list_from(s@, i as int),
        decreases len - i,
    {
        if s[i] == 123 {
            match try_list_at(s, i) {
                Option::Some(out) => {
                    return out;
                },
                Option::None => {},
            }
        }
        i += 1;
    }
    None
}

/// Match a whole tuple list at `i` and convert its numbers: `None` when the
/// grammar does not match here; `Some(result)` when it does, where `result`
/// carries the converted numbers or the conversion failure.
fn try_list_at(s: &[u8], i: usize) -> (r: Option<Option<Vec<(u32, u32)>>>)
    requires
        i < s@.len(),
    ensures
        match r {
            Option::None => match_list_at(s@, i as int) is None,
            Option::Some(out) => match_list_at(s@, i as int) is Some && (match out {
                Option::Some(v) => conv_tuples(match_list_at(s@, i as int)->Some_0.0)
                    == Option::Some(v@),
                Option::None => conv_tuples(match_list_at(s@, i as int)->Some_0.0) is None,
            }),
        },
{
    if s[i] != 123 {
        return None;
    }
    let a = skip_spaces(s, i + 1);
    if a >= s.len() {
        proof {
            assert(match_tuple_at(s@, a as int) is None);
        }
        return None;
    }
    let (a0, a1, b0, b1, first_end) = match try_tuple_at(s, a) {
        Option::None => {
            return None;
        },
        Option::Some(t) => t,
    };
    let ghost m0 = match_tuple_at(s@, a as int)->Some_0;

    let mut out: Vec<(u32, u32)> = Vec::new();
    let mut conv_ok = true;
    let ghost mut collected: Seq<TupleMatch> = seq![m0];

    let p0 = crate::text::parse_u32(&s[a0..a1]);
    let p1 = crate::text::parse_u32(&s[b0..b1]);
    proof {
        assert(Seq::<TupleMatch>::empty().push(m0) =~= collected);
        lemma_conv_tuples_push(Seq::<TupleMatch>::empty(), m0);
        assert(conv_tuples(Seq::<TupleMatch>::empty()) == Option::Some(
            Seq::<(u32, u32)>::empty(),
        ));
    }
    if let (Option::Some(x), Option::Some(y)) = (p0, p1) {
        out.push((x, y));
        proof {
            assert(out@ =~= Seq::<(u32, u32)>::empty().push((x, y)));
        }
    } else {
        conv_ok = false;
    }

    let mut cursor: usize = first_end;
    proof {
        lemma_tuple_match_bounds(s@, a as int);
    }

    loop
        invariant
            cursor <= s@.len(),
            collected.len() >= 1,
            if conv_ok {
                conv_tuples(collected) == Option::Some(out@)
            } else {
                conv_tuples(collected) is None
            },
            match match_list_rest(s@, cursor as int) {
                Option::Some((rest, fin)) => match_list_at(s@, i as int) == Option::Some(
                    (collected + rest, fin),
                ),
                Option::None => match_list_at(s@, i as int) is None,
            },
        decreases s@.len() - cursor,
    {
        let c = skip_spaces(s, cursor);
        if c < s.len() && s[c] == 44 {
            let d = skip_spaces(s, c + 1);
            if d >= s.len() {
                proof {
                    assert(match_tuple_at(s@, d as int) is None);
                }
                return None;
            }
            let (ta0, ta1, tb0, tb1, tend) = match try_tuple_at(s, d) {
                Option::None => {
                    return None;
                },
                Option::Some(t) => t,
            };
            let ghost m = match_tuple_at(s@, d as int)->Some_0;
            proof {
                lemma_tuple_match_bounds(s@, d as int);
            }
            let q0 = crate::text::parse_u32(&s[ta0..ta1]);
            let q1 = crate::text::parse_u32(&s[tb0..tb1]);
            if let (Option::Some(x), Option::Some(y)) = (q0, q1) {
                if conv_ok {
                    out.push((x, y));
                }
            } else {
                conv_ok = false;
            }
            proof {
                let pre = collected;
                collected = collected.push(m);
                lemma_conv_tuples_push(pre, m);
                match match_list_rest(s@, tend as int) {
                    Option::Some((rest, fin)) => {
                        assert(pre + (seq![m] + rest) =~= collected + rest);
                    },
                    Option::None => {},
                }
            }
            if tend <= cursor {
                // a tuple match never ends before it starts; unreachable
                proof {
                    assert(false);
                }
                return None;
            }
            cursor = tend;
        } else if c < s.len() && s[c] == 125 {
            proof {
                assert(collected + Seq::<TupleMatch>::empty() =~= collected);
            }
            if conv_ok {
                return Some(Some(out));
            } else {
                return Some(None);
            }
        } else {
            return None;
        }
    }
}

/// The bytes of `assets/`, the directory sounds and sprites resolve under.
pub const ASSETS_PREFIX: [u8; 7] = [97, 115, 115, 101, 116, 115, 47];

/// The bytes of `assets/maps/`, the directory maps and levels resolve under.
pub const ASSETS_MAPS_PREFIX: [u8; 12] = [97, 115, 115, 101, 116, 115, 47, 109, 97, 112, 115, 47];

/// What kind of asset a name refers to; each kind resolves under a fixed
/// directory.
#[derive(Clone, Copy, Debug, PartialEq, Eq, Structural)]
pub enum AssetType {
    Sound,
    Sprite,
    TileMap,
    Level,
}

/// The directory prefix an asset kind resolves under.
pub open spec fn spec_asset_prefix(t: AssetType) -> Seq<u8> {
    match t {
        AssetType::Sound => ASSETS_PREFIX@,
        AssetType::Sprite => ASSETS_PREFIX@,
        AssetType::TileMap => ASSETS_MAPS_PREFIX@,
        AssetType::Level => ASSETS_MAPS_PREFIX@,
    }
}

/// Append a slice to a byte vector.
pub fn push_bytes(out: &mut Vec<u8>, s: &[u8])
    ensures
        final(out)@ == old(out)@ + s@,
{
    let len = s.len();
    let mut i: usize = 0;
    proof {
        assert(out@ =~= old(out)@ + s@.subrange(0, 0));
    }
    while i < len
        invariant
            0 <= i <= len,
            len == s@.len(),
            out@ == old(out)@ + s@.subrange(0, i as int),
        decreases len - i,
    {
        out.push(s[i]);
        proof {
            assert(out@ =~= old(out)@ + s@.subrange(0, i + 1));
        }
        i += 1;
    }
    proof {
        assert(s@.subrange(0, len as int) =~= s@);
    }
}

/// Resolve an asset name into a path under its kind's directory.
pub fn asset_path_string(asset_type: AssetType, asset_name: &[u8]) -> (path: Vec<u8>)
    ensures
        path@ == spec_asset_prefix(asset_type) + asset_name@,
{
    let mut result: Vec<u8> = Vec::new();
    match asset_type {
        AssetType::Sound | AssetType::Sprite => push_bytes(&mut result, ASSETS_PREFIX.as_slice()),
        AssetType::TileMap | AssetType::Level => push_bytes(&mut result, ASSETS_MAPS_PREFIX.as_slice()),
    }
    push_bytes(&mut result, asset_name);
    proof {
        assert(result@ =~= spec_asset_prefix(asset_type) + asset_name@);
    }
    result
}

/// Strip the directory prefix of an asset kind from a path; the inverse of
/// `asset_path_string` for paths it produced.
pub fn remove_asset_path<'a>(asset_type: AssetType, asset_path: &'a [u8]) -> (name: &'a [u8])
    requires
        asset_path@.len() >= spec_asset_prefix(asset_type).len(),
    ensures
        name@ == asset_path@.subrange(
            spec_asset_prefix(asset_type).len() as int,
            asset_path@.len() as int,
        ),
{
    let offset: usize = match asset_type {
        AssetType::Sound | AssetType::Sprite => 7,
        AssetType::TileMap | AssetType::Level => 12,
    };
    &asset_path[offset..asset_path.len()]
}

/// The parser's accumulation state: one slot per recognized key, filled as
/// assignments are read; a later assignment to the same key wins.
pub struct LevelFields {
    pub level_name: Option<Seq<u8>>,
    pub level_music: Option<Seq<u8>>,
    pub next_level: Option<Seq<u8>>,
    pub tile_map: Option<Seq<u8>>,
    pub wall_tile: Option<Seq<u8>>,
    pub floor_tile: Option<Seq<u8>>,
    pub target_tile: Option<Seq<u8>>,
    pub box_sprite_sheet: Option<Seq<u8>>,
    pub box_sprite_width: Option<u32>,
    pub box_sprite_height: Option<u32>,
    pub player_position: Option<(u32, u32)>,
    pub box_positions: Option<Seq<(u32, u32)>>,
}

pub open spec fn empty_fields() -> LevelFields {
    LevelFields {
        level_name: Option::None,
        level_music: Option::None,
        next_level: Option::None,
        tile_map: Option::None,
        wall_tile: Option::None,
        floor_tile: Option::None,
        target_tile: Option::None,
        box_sprite_sheet: Option::None,
        box_sprite_width: Option::None,
        box_sprite_height: Option::None,
        player_position: Option::None,
        box_positions: Option::None,
    }
}

/// Why a level text was rejected: a line without an assignment, or a
/// required key that never received a usable value. A `player_position` or
/// `box_positions` line whose value does not parse leaves its slot empty, so
/// it surfaces as the corresponding missing-field error, as does a malformed
/// sprite dimension.
#[derive(Clone, Copy, Debug, PartialEq, Eq, Structural)]
pub enum LevelError {
    NoAssignment,
    MissingLevelName,
    MissingWallTile,
    MissingFloorTile,
    MissingTargetTile,
    MissingBoxSpriteSheet,
    MissingBoxSpriteDimensions,
    MissingTileMap,
    MissingPlayerPosition,
    MissingBoxPositions,
    PositionTooLarge,
}

/// A comment line starts with two slashes, with no leading space allowed.
pub open spec fn is_comment(line: Seq<u8>) -> bool {
    line.len() >= 2 && line[0] == 47 && line[1] == 47
}

/// Process one line: blank lines and comments are skipped, anything else
/// must be `key = value` with both sides trimmed; unknown keys are ignored.
pub open spec fn spec_apply_line(st: LevelFields, line: Seq<u8>) -> Result<
    LevelFields,
    LevelError,
> {
    if line.len() == 0 || is_comment(line) {
        Ok(st)
    } else {
        let eq = first_of(line, 61) as int;
        if eq >= line.len() {
            Err(LevelError::NoAssignment)
        } else {
            let lhs = spec_trim(line.subrange(0, eq));
            let rhs = spec_trim(line.subrange(eq + 1, line.len() as int));
            if lhs == KEY_LEVEL_NAME@ {
                Ok(LevelFields { level_name: Option::Some(rhs), ..st })
            } else if lhs == KEY_LEVEL_MUSIC@ {
                Ok(LevelFields { level_music: Option::Some(rhs), ..st })
            } else if lhs == KEY_NEXT_LEVEL@ {
                Ok(LevelFields { next_level: Option::Some(rhs), ..st })
            } else if lhs == KEY_TILE_MAP@ {
                Ok(LevelFields { tile_map: Option::Some(rhs), ..st })
            } else if lhs == KEY_WALL_TILE@ {
                Ok(LevelFields { wall_tile: Option::Some(rhs), ..st })
            } else if lhs == KEY_FLOOR_TILE@ {
                Ok(LevelFields { floor_tile: Option::Some(rhs), ..st })
            } else if lhs == KEY_TARGET_TILE@ {
                Ok(LevelFields { target_tile: Option::Some(rhs), ..st })
            } else if lhs == KEY_BOX_SPRITE_SHEET@ {
                Ok(LevelFields { box_sprite_sheet: Option::Some(rhs), ..st })
            } else if lhs == KEY_PLAYER_POSITION@ {
                Ok(LevelFields { player_position: spec_parse_position_tuple(rhs), ..st })
            } else if lhs == KEY_BOX_POSITIONS@ {
                Ok(LevelFields { box_positions: spec_parse_position_tuple_vec(rhs), ..st })
            } else if lhs == KEY_BOX_SPRITE_WIDTH@ {
                Ok(LevelFields { box_sprite_width: spec_parse_u32(rhs), ..st })
            } else if lhs == KEY_BOX_SPRITE_HEIGHT@ {
                Ok(LevelFields { box_sprite_height: spec_parse_u32(rhs), ..st })
            } else {
                Ok(st)
            }
        }
    }
}

/// Fold `spec_apply_line` over the lines.
pub open spec fn spec_level_scan(lines: Seq<Seq<u8>>, st: LevelFields) -> Result<
    LevelFields,
    LevelError,
>
    decreases lines.len(),
{
    if lines.len() == 0 {
        Ok(st)
    } else {
        match spec_apply_line(st, lines[0]) {
            Err(e) => Err(e),
            Ok(st2) => spec_level_scan(lines.drop_first(), st2),
        }
    }
}

/// Positions small enough to stand in any grid the library accepts.
pub open spec fn positions_small(player: (u32, u32), boxes: Seq<(u32, u32)>) -> bool {
    &&& player.0 <= 0x8000
    &&& player.1 <= 0x8000
    &&& forall|i: int|
        0 <= i < boxes.len() ==> (#[trigger] boxes[i]).0 <= 0x8000 && boxes[i].1 <= 0x8000
}

/// The required-field checks, in the order the loader makes them, followed
/// by the machine bound on positions.
pub open spec fn spec_finish(st: LevelFields) -> Result<LevelFields, LevelError> {
    if st.level_name is None {
        Err(LevelError::MissingLevelName)
    } else if st.wall_tile is None {
        Err(LevelError::MissingWallTile)
    } else if st.floor_tile is None {
        Err(LevelError::MissingFloorTile)
    } else if st.target_tile is None {
        Err(LevelError::MissingTargetTile)
    } else if st.box_sprite_sheet is None {
        Err(LevelError::MissingBoxSpriteSheet)
    } else if st.box_sprite_width is None || st.box_sprite_height is None {
        Err(LevelError::MissingBoxSpriteDimensions)
    } else if st.tile_map is None {
        Err(LevelError::MissingTileMap)
    } else if st.player_position is None {
        Err(LevelError::MissingPlayerPosition)
    } else if st.box_positions is None {
        Err(LevelError::MissingBoxPositions)
    } else if !positions_small(st.player_position->Some_0, st.box_positions->Some_0) {
        Err(LevelError::PositionTooLarge)
    } else {
        Ok(st)
    }
}

/// What parsing a whole level text yields.
pub open spec fn spec_parse_level(text: Seq<u8>) -> Result<LevelFields, LevelError> {
    match spec_level_scan(spec_split_lines(text), empty_fields()) {
        Err(e) => Err(e),
        Ok(st) => spec_finish(st),
    }
}

/// A successfully parsed level description, every required field present.
#[derive(Debug, PartialEq, Eq)]
pub struct ParsedLevel {
    pub level_name: Vec<u8>,
    pub level_music: Option<Vec<u8>>,
    pub next_level: Option<Vec<u8>>,
    pub tile_map: Vec<u8>,
    pub wall_tile: Vec<u8>,
    pub floor_tile: Vec<u8>,
    pub target_tile: Vec<u8>,
    pub box_sprite_sheet: Vec<u8>,
    pub box_sprite_width: u32,
    pub box_sprite_height: u32,
    pub player_position: (u32, u32),
    pub box_positions: Vec<(u32, u32)>,
}

pub open spec fn opt_bytes_view(o: Option<Vec<u8>>) -> Option<Seq<u8>> {
    match o {
        Option::None => Option::None,
        Option::Some(v) => Option::Some(v@),
    }
}

pub open spec fn opt_pairs_view(o: Option<Vec<(u32, u32)>>) -> Option<Seq<(u32, u32)>> {
    match o {
        Option::None => Option::None,
        Option::Some(v) => Option::Some(v@),
    }
}

/// Byte-for-byte equality of two slices.
pub fn bytes_eq(a: &[u8], b: &[u8]) -> (r: bool)
    ensures
        r <==> a@ == b@,
{
    if a.len() != b.len() {
        return false;
    }
    let len = a.len();
    let mut i: usize = 0;
    while i < len
        invariant
            0 <= i <= len,
            len == a@.len() == b@.len(),
            forall|j: int| 0 <= j < i ==> a@[j] == b@[j],
        decreases len - i,
    {
        if a[i] != b[i] {
            return false;
        }
        i += 1;
    }
    proof {
        assert(a@ =~= b@);
    }
    true
}

/// Parse a whole level description: each line blank, a `//` comment or a
/// `key = value` assignment; then check that every required key was given a
/// usable value, in the fixed order of `spec_finish`.
pub fn parse_level(text: &[u8]) -> (r: Result<ParsedLevel, LevelError>)
    ensures
        match spec_parse_level(text@) {
            Ok(f) => r is Ok && {
                let p = r->Ok_0;
                &&& Option::Some(p.level_name@) == f.level_name
                &&& opt_bytes_view(p.level_music) == f.level_music
                &&& opt_bytes_view(p.next_level) == f.next_level
                &&& Option::Some(p.tile_map@) == f.tile_map
                &&& Option::Some(p.wall_tile@) == f.wall_tile
                &&& Option::Some(p.floor_tile@) == f.floor_tile
                &&& Option::Some(p.target_tile@) == f.target_tile
                &&& Option::Some(p.box_sprite_sheet@) == f.box_sprite_sheet
                &&& Option::Some(p.box_sprite_width) == f.box_sprite_width
                &&& Option::Some(p.box_sprite_height) == f.box_sprite_height
                &&& Option::Some(p.player_position) == f.player_position
                &&& Option::Some(p.box_positions@) == f.box_positions
                &&& positions_small(p.player_position, p.box_positions@)
            },
            Err(e) => r == Err::<ParsedLevel, LevelError>(e),
        },
{
    let len = text.len();
    let mut level_name: Option<Vec<u8>> = None;
    let mut level_music: Option<Vec<u8>> = None;
    let mut next_level: Option<Vec<u8>> = None;
    let mut tile_map: Option<Vec<u8>> = None;
    let mut wall_tile: Option<Vec<u8>> = None;
    let mut floor_tile: Option<Vec<u8>> = None;
    let mut target_tile: Option<Vec<u8>> = None;
    let mut box_sprite_sheet: Option<Vec<u8>> = None;
    let mut box_sprite_width: Option<u32> = None;
    let mut box_sprite_height: Option<u32> = None;
    let mut player_position: Option<(u32, u32)> = None;
    let mut box_positions: Option<Vec<(u32, u32)>> = None;

    let mut pos: usize = 0;
    proof {
        assert(text@.subrange(0, len as int) =~= text@);
    }
    while pos < len
        invariant
            0 <= pos <= len,
            len == text@.len(),
            spec_level_scan(spec_split_lines(text@), empty_fields()) == spec_level_scan(
                spec_split_lines(text@.subrange(pos as int, len as int)),
                LevelFields {
                    level_name: opt_bytes_view(level_name),
                    level_music: opt_bytes_view(level_music),
                    next_level: opt_bytes_view(next_level),
                    tile_map: opt_bytes_view(tile_map),
                    wall_tile: opt_bytes_view(wall_tile),
                    floor_tile: opt_bytes_view(floor_tile),
                    target_tile: opt_bytes_view(target_tile),
                    box_sprite_sheet: opt_bytes_view(box_sprite_sheet),
                    box_sprite_width: box_sprite_width,
                    box_sprite_height: box_sprite_height,
                    player_position: player_position,
                    box_positions: opt_pairs_view(box_positions),
                },
            ),
        decreases len - pos,
    {
        let (content_end, next_pos) = split_first_line(text, pos);
        proof {
            let suffix_lines = spec_split_lines(text@.subrange(pos as int, len as int));
            let rest_lines = spec_split_lines(text@.subrange(next_pos as int, len as int));
            assert(suffix_lines[0] == text@.subrange(pos as int, content_end as int));
            assert(suffix_lines.drop_first() =~= rest_lines);
        }
        let line = &text[pos..content_end];

        if line.len() == 0 {
            // blank line
        } else if line.len() >= 2 && line[0] == 47 && line[1] == 47 {
            // comment line
        } else {
            let eq = match find_byte(line, 61) {
                Option::None => {
                    return Err(LevelError::NoAssignment);
                },
                Option::Some(k) => k,
            };
            let lhs = trim_slice(&line[0..eq]);
            let rhs = trim_slice(&line[eq + 1..line.len()]);
            if bytes_eq(lhs, KEY_LEVEL_NAME.as_slice()) {
                level_name = Some(vstd::slice::slice_to_vec(rhs));
            } else if bytes_eq(lhs, KEY_LEVEL_MUSIC.as_slice()) {
                level_music = Some(vstd::slice::slice_to_vec(rhs));
            } else if bytes_eq(lhs, KEY_NEXT_LEVEL.as_slice()) {
                next_level = Some(vstd::slice::slice_to_vec(rhs));
            } else if bytes_eq(lhs, KEY_TILE_MAP.as_slice()) {
                tile_map = Some(vstd::slice::slice_to_vec(rhs));
            } else if bytes_eq(lhs, KEY_WALL_TILE.as_slice()) {
                wall_tile = Some(vstd::slice::slice_to_vec(rhs));
            } else if bytes_eq(lhs, KEY_FLOOR_TILE.as_slice()) {
                floor_tile = Some(vstd::slice::slice_to_vec(rhs));
            } else if bytes_eq(lhs, KEY_TARGET_TILE.as_slice()) {
                target_tile = Some(vstd::slice::slice_to_vec(rhs));
            } else if bytes_eq(lhs, KEY_BOX_SPRITE_SHEET.as_slice()) {
                box_sprite_sheet = Some(vstd::slice::slice_to_vec(rhs));
            } else if bytes_eq(lhs, KEY_PLAYER_POSITION.as_slice()) {
                player_position = parse_position_tuple(rhs);
            } else if bytes_eq(lhs, KEY_BOX_POSITIONS.as_slice()) {
                box_positions = parse_position_tuple_vec(rhs);
            } else if bytes_eq(lhs, KEY_BOX_SPRITE_WIDTH.as_slice()) {
                box_sprite_width = crate::text::parse_u32(rhs);
            } else if bytes_eq(lhs, KEY_BOX_SPRITE_HEIGHT.as_slice()) {
                box_sprite_height = crate::text::parse_u32(rhs);
            } else {
                // unknown key: ignored
            }
        }
        pos = next_pos;
    }
    proof {
        assert(text@.subrange(len as int, len as int) =~= Seq::<u8>::empty());
        assert(spec_split_lines(Seq::<u8>::empty()) =~= Seq::<Seq<u8>>::empty());
    }

    let ghost stf = LevelFields {
        level_name: opt_bytes_view(level_name),
        level_music: opt_bytes_view(level_music),
        next_level: opt_bytes_view(next_level),
        tile_map: opt_bytes_view(tile_map),
        wall_tile: opt_bytes_view(wall_tile),
        floor_tile: opt_bytes_view(floor_tile),
        target_tile: opt_bytes_view(target_tile),
        box_sprite_sheet: opt_bytes_view(box_sprite_sheet),
        box_sprite_width: box_sprite_width,
        box_sprite_height: box_sprite_height,
        player_position: player_position,
        box_positions: opt_pairs_view(box_positions),
    };
    proof {
        assert(spec_parse_level(text@) == spec_finish(stf));
    }

    let name = match level_name {
        Option::None => {
            return Err(LevelError::MissingLevelName);
        },
        Option::Some(v) => v,
    };
    let wall = match wall_tile {
        Option::None => {
            return Err(LevelError::MissingWallTile);
        },
        Option::Some(v) => v,
    };
    let floor = match floor_tile {
        Option::None => {
            return Err(LevelError::MissingFloorTile);
        },
        Option::Some(v) => v,
    };
    let target = match target_tile {
        Option::None => {
            return Err(LevelError::MissingTargetTile);
        },
        Option::Some(v) => v,
    };
    let sheet = match box_sprite_sheet {
        Option::None => {
            return Err(LevelError::MissingBoxSpriteSheet);
        },
        Option::Some(v) => v,
    };
    let (width, height) = match (box_sprite_width, box_sprite_height) {
        (Option::Some(w), Option::Some(h)) => (w, h),
        _ => {
            return Err(LevelError::MissingBoxSpriteDimensions);
        },
    };
    let map_file = match tile_map {
        Option::None => {
            return Err(LevelError::MissingTileMap);
        },
        Option::Some(v) => v,
    };
    let player = match player_position {
        Option::None => {
            return Err(LevelError::MissingPlayerPosition);
        },
        Option::Some(v) => v,
    };
    let boxes = match box_positions {
        Option::None => {
            return Err(LevelError::MissingBoxPositions);
        },
        Option::Some(v) => v,
    };

    if player.0 > 0x8000 || player.1 > 0x8000 {
        return Err(LevelError::PositionTooLarge);
    }
    let mut bi: usize = 0;
    while bi < boxes.len()
        invariant
            0 <= bi <= boxes@.len(),
            spec_parse_level(text@) == spec_finish(stf),
            stf.player_position == Option::Some(player),
            stf.box_positions == Option::Some(boxes@),
            stf.level_name is Some,
            stf.wall_tile is Some,
            stf.floor_tile is Some,
            stf.target_tile is Some,
            stf.box_sprite_sheet is Some,
            stf.box_sprite_width is Some,
            stf.box_sprite_height is Some,
            stf.tile_map is Some,
            player.0 <= 0x8000 && player.1 <= 0x8000,
            forall|j: int|
                0 <= j < bi ==> (#[trigger] boxes@[j]).0 <= 0x8000 && boxes@[j].1 <= 0x8000,
        decreases boxes@.len() - bi,
    {
        let (bx, by) = boxes[bi];
        if bx > 0x8000 || by > 0x8000 {
            proof {
                assert((boxes@[bi as int]).0 > 0x8000 || (boxes@[bi as int]).1 > 0x8000);
                assert(!positions_small(player, boxes@));
            }
            return Err(LevelError::PositionTooLarge);
        }
        bi += 1;
    }

    Ok(
        ParsedLevel {
            level_name: name,
            level_music,
            next_level,
            tile_map: map_file,
            wall_tile: wall,
            floor_tile: floor,
            target_tile: target,
            box_sprite_sheet: sheet,
            box_sprite_width: width,
            box_sprite_height: height,
            player_position: player,
            box_positions: boxes,
        },
    )
}

} // verus!

verus! {

/// The shape every box entity takes: one tile square, at rest, at the given
/// tile position (bottom-up).
pub open spec fn spec_box_entity(x: u32, y: u32) -> Entity {
    Entity {
        position: Vector2 { x: ((x as int) * 1024) as i64, y: ((y as int) * 1024) as i64 },
        velocity: Vector2 { x: 0i64, y: 0i64 },
        acceleration: Vector2 { x: 0i64, y: 0i64 },
        draw_width: 1024i64,
        draw_height: 1024i64,
        collision_width: 1024i64,
        collision_height: 1024i64,
    }
}

impl LevelMap {
    /// Assemble a map from a parsed level description and its already-parsed
    /// tile grid: metadata carried over (music and follow-up level resolved
    /// to full paths), one box per listed position.
    pub fn from_level(parsed: &ParsedLevel, tiles: Vec<TileType>, tiles_stride: usize) -> (m:
        LevelMap)
        requires
            tiles_stride == 0 ==> tiles@.len() == 0,
            tiles_stride > 0 ==> tiles@.len() as int % tiles_stride as int == 0,
            tiles_stride <= 0x8000,
            tiles@.len() <= 0x8000 * tiles_stride,
            parsed.box_positions@.len() < 0x1000_0000,
            positions_small(parsed.player_position, parsed.box_positions@),
        ensures
            m.wf(),
            m.name@ == parsed.level_name@,
            match parsed.level_music {
                Option::None => m.level_music is None,
                Option::Some(v) => m.level_music is Some && m.level_music->0@ == spec_asset_prefix(
                    AssetType::Sound,
                ) + v@,
            },
            match parsed.next_level {
                Option::None => m.next_level is None,
                Option::Some(v) => m.next_level is Some && m.next_level->0@ == spec_asset_prefix(
                    AssetType::Level,
                ) + v@,
            },
            m.tiles == tiles,
            m.tiles_stride == tiles_stride,
            m.box_sprite_width == parsed.box_sprite_width,
            m.box_sprite_height == parsed.box_sprite_height,
            m.boxes@.len() == parsed.box_positions@.len(),
            forall|i: int|
                0 <= i < m.boxes@.len() ==> m.boxes@[i] == spec_box_entity(
                    (#[trigger] parsed.box_positions@[i]).0,
                    parsed.box_positions@[i].1,
                ),
    {
        let level_music: Option<Vec<u8>> = match &parsed.level_music {
            Option::None => None,
            Option::Some(v) => Some(asset_path_string(AssetType::Sound, v.as_slice())),
        };
        let next_level: Option<Vec<u8>> = match &parsed.next_level {
            Option::None => None,
            Option::Some(v) => Some(asset_path_string(AssetType::Level, v.as_slice())),
        };
        let mut m = LevelMap {
            name: vstd::slice::slice_to_vec(parsed.level_name.as_slice()),
            level_music,
            next_level,
            tiles,
            tiles_stride,
            boxes: Vec::new(),
            box_sprite_width: parsed.box_sprite_width,
            box_sprite_height: parsed.box_sprite_height,
        };
        proof {
            if tiles_stride > 0 {
                vstd::arithmetic::div_mod::lemma_div_is_ordered(
                    m.tiles@.len() as int,
                    0x8000 * tiles_stride as int,
                    tiles_stride as int,
                );
                vstd::arithmetic::div_mod::lemma_div_by_multiple(0x8000, tiles_stride as int);
                vstd::arithmetic::div_mod::lemma_div_pos_is_pos(
                    m.tiles@.len() as int,
                    tiles_stride as int,
                );
            }
        }
        let mut i: usize = 0;
        while i < parsed.box_positions.len()
            invariant
                0 <= i <= parsed.box_positions@.len(),
                parsed.box_positions@.len() < 0x1000_0000,
                positions_small(parsed.player_position, parsed.box_positions@),
                m.boxes@.len() == i,
                m.wf(),
                m.name@ == parsed.level_name@,
                m.level_music == level_music,
                m.next_level == next_level,
                m.tiles == tiles,
                m.tiles_stride == tiles_stride,
                m.box_sprite_width == parsed.box_sprite_width,
                m.box_sprite_height == parsed.box_sprite_height,
                forall|j: int|
                    0 <= j < i ==> m.boxes@[j] == spec_box_entity(
                        (#[trigger] parsed.box_positions@[j]).0,
                        parsed.box_positions@[j].1,
                    ),
            decreases parsed.box_positions@.len() - i,
        {
            let (bx, by) = parsed.box_positions[i];
            m.add_box(bx, by);
            i += 1;
        }
        m
    }
}

/// Build the player entity at its starting tile. The draw height is fixed at
/// 1.2 tiles; the width follows the sprite texture's aspect ratio; the
/// collision box is a shorter 0.8 tiles so the sprite may visually overlap
/// walls above it. The player is then centered within its starting tile.
pub fn create_player(player_position: (u32, u32), texture_w: u32, texture_h: u32) -> (e: Entity)
    requires
        texture_h >= 1,
        1228 * texture_w <= 0x10_0000 * texture_h,
        player_position.0 <= 0x8000,
        player_position.1 <= 0x8000,
    ensures
        ({
            let w = 1228 * texture_w as int / texture_h as int;
            &&& e.draw_height == 1228
            &&& e.draw_width == w
            &&& e.collision_height == 819
            &&& e.collision_width == w
            &&& e.velocity == (Vector2 { x: 0i64, y: 0i64 })
            &&& e.acceleration == (Vector2 { x: 0i64, y: 0i64 })
            &&& e.position.x == player_position.0 * 1024 + (round_up_to_tile(w) - w) / 2
            &&& e.position.y == player_position.1 * 1024 + (round_up_to_tile(1228) - 1228) / 2
            &&& e.wf()
        }),
{
    let w64: u64 = (1228u64 * (texture_w as u64)) / (texture_h as u64);
    proof {
        vstd::arithmetic::div_mod::lemma_div_pos_is_pos(1228 * texture_w as int, texture_h as int);
        vstd::arithmetic::div_mod::lemma_div_is_ordered(
            1228 * texture_w as int,
            0x10_0000 * texture_h as int,
            texture_h as int,
        );
        vstd::arithmetic::div_mod::lemma_div_by_multiple(0x10_0000, texture_h as int);
        assert(0x10_0000 * texture_h as int == texture_h as int * 0x10_0000) by (nonlinear_arith);
    }
    let draw_w: i64 = w64 as i64;

    let px: i64 = (player_position.0 as i64) * 1024;
    let py: i64 = (player_position.1 as i64) * 1024;
    let mut player = Entity {
        position: Vector2 { x: px, y: py },
        velocity: Vector2 { x: 0, y: 0 },
        acceleration: Vector2 { x: 0, y: 0 },
        draw_width: draw_w,
        draw_height: 1228,
        collision_width: draw_w,
        collision_height: 819,
    };
    player.center_on_current_tile_rect();
    proof {
        vstd::arithmetic::div_mod::lemma_div_by_multiple(player_position.0 as int, 1024);
        vstd::arithmetic::div_mod::lemma_div_by_multiple(player_position.1 as int, 1024);
    }
    player
}

} // verus!
