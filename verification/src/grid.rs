//! The tile-grid file format: one row of whitespace-separated decimal tile
//! codes per line, every row the same width. Blank lines are skipped; a
//! malformed number, an unknown code or uneven rows reject the whole grid.

use vstd::prelude::*;

use crate::text::is_space;
use crate::text::spec_parse_u32;
use crate::tile::TileType;

verus! {

/// Why a grid text was rejected.
#[derive(Clone, Copy, Debug, PartialEq, Eq, Structural)]
pub enum GridError {
    /// A token is not an unsigned decimal number.
    MalformedNumber,
    /// A number is not one of the tile codes.
    UnknownCode,
    /// A row's width differs from the first row's.
    UnevenRows,
    /// More rows or columns than a map may hold.
    GridTooLarge,
}

/// Index of the first line feed, or the length when there is none.
pub open spec fn first_nl(s: Seq<u8>) -> nat
    decreases s.len(),
{
    if s.len() == 0 {
        0
    } else if s[0] == 10 {
        0
    } else {
        1 + first_nl(s.drop_first())
    }
}

/// `first_nl` is pinned down by its characteristic properties.
pub proof fn lemma_first_nl_is(s: Seq<u8>, k: int)
    requires
        0 <= k <= s.len(),
        forall|j: int| 0 <= j < k ==> s[j] != 10,
        k < s.len() ==> s[k] == 10,
    ensures
        first_nl(s) == k,
    decreases k,
{
    if s.len() > 0 && k > 0 {
        assert(forall|j: int| 0 <= j < k - 1 ==> s.drop_first()[j] == s[j + 1]);
        if k - 1 < s.drop_first().len() {
            assert(s.drop_first()[k - 1] == s[k]);
        }
        lemma_first_nl_is(s.drop_first(), k - 1);
    }
}

/// Index of the first whitespace byte, or the length when there is none.
pub open spec fn first_space(s: Seq<u8>) -> nat
    decreases s.len(),
{
    if s.len() == 0 {
        0
    } else if is_space(s[0]) {
        0
    } else {
        1 + first_space(s.drop_first())
    }
}

pub proof fn lemma_first_space_is(s: Seq<u8>, k: int)
    requires
        0 <= k <= s.len(),
        forall|j: int| 0 <= j < k ==> !is_space(s[j]),
        k < s.len() ==> is_space(s[k]),
    ensures
        first_space(s) == k,
    decreases k,
{
    if s.len() > 0 && k > 0 {
        assert(forall|j: int| 0 <= j < k - 1 ==> s.drop_first()[j] == s[j + 1]);
        if k - 1 < s.drop_first().len() {
            assert(s.drop_first()[k - 1] == s[k]);
        }
        lemma_first_space_is(s.drop_first(), k - 1);
    }
}

/// The text split at line feeds, one sequence per line, with a carriage
/// return stripped from the end of every line-feed-terminated line. A final
/// line ending is optional and produces no empty last line.
pub open spec fn spec_split_lines(s: Seq<u8>) -> Seq<Seq<u8>>
    decreases s.len(),
{
    if s.len() == 0 {
        Seq::empty()
    } else {
        let i0 = first_nl(s) as int;
        let i = if i0 > s.len() {
            s.len() as int
        } else {
            i0
        };
        if i == s.len() {
            seq![s]
        } else {
            let line = s.subrange(0, i);
            let stripped = if line.len() > 0 && line.last() == 13 {
                line.drop_last()
            } else {
                line
            };
            seq![stripped] + spec_split_lines(s.subrange(i + 1, s.len() as int))
        }
    }
}

/// A line's whitespace-separated tokens, in order.
pub open spec fn spec_tokens(line: Seq<u8>) -> Seq<Seq<u8>>
    decreases line.len(),
{
    if line.len() == 0 {
        Seq::empty()
    } else if is_space(line[0]) {
        spec_tokens(line.drop_first())
    } else {
        let k0 = first_space(line) as int;
        let k = if k0 > line.len() {
            line.len() as int
        } else {
            k0
        };
        seq![line.subrange(0, k)] + spec_tokens(line.subrange(k, line.len() as int))
    }
}

/// One row of tile codes: every token must be a number and every number a
/// known code; the first offender decides the error.
pub open spec fn spec_row_codes(tokens: Seq<Seq<u8>>) -> Result<Seq<TileType>, GridError>
    decreases tokens.len(),
{
    if tokens.len() == 0 {
        Ok(Seq::empty())
    } else {
        match spec_parse_u32(tokens[0]) {
            Option::None => Err(GridError::MalformedNumber),
            Option::Some(code) => match TileType::spec_from_code(code) {
                Option::None => Err(GridError::UnknownCode),
                Option::Some(t) => match spec_row_codes(tokens.drop_first()) {
                    Err(e) => Err(e),
                    Ok(rest) => Ok(seq![t] + rest),
                },
            },
        }
    }
}

/// Walk the lines, skipping blank ones; the first non-blank row fixes the
/// stride and every later row must match it.
pub open spec fn spec_grid_scan(
    lines: Seq<Seq<u8>>,
    tiles: Seq<TileType>,
    stride: Option<int>,
) -> Result<(Seq<TileType>, int), GridError>
    decreases lines.len(),
{
    if lines.len() == 0 {
        Ok(
            (
                tiles,
                match stride {
                    Option::None => 0,
                    Option::Some(k) => k,
                },
            ),
        )
    } else {
        let toks = spec_tokens(lines[0]);
        if toks.len() == 0 {
            spec_grid_scan(lines.drop_first(), tiles, stride)
        } else {
            match spec_row_codes(toks) {
                Err(e) => Err(e),
                Ok(row) => match stride {
                    Option::None => spec_grid_scan(
                        lines.drop_first(),
                        tiles + row,
                        Some(row.len() as int),
                    ),
                    Option::Some(k) => if row.len() != k {
                        Err(GridError::UnevenRows)
                    } else {
                        spec_grid_scan(lines.drop_first(), tiles + row, stride)
                    },
                },
            }
        }
    }
}

/// What `parse_tile_grid` yields: the row scan, followed by the size check
/// that keeps the grid inside map bounds.
pub open spec fn spec_parse_grid(s: Seq<u8>) -> Result<(Seq<TileType>, int), GridError> {
    match spec_grid_scan(spec_split_lines(s), Seq::empty(), Option::None) {
        Err(e) => Err(e),
        Ok((tiles, stride)) => if stride > 0x8000 || (stride > 0 && tiles.len() as int > 0x8000
            * stride) {
            Err(GridError::GridTooLarge)
        } else {
            Ok((tiles, stride))
        },
    }
}

/// Parse one line's tokens as tile codes, appending the tiles to `out` in
/// reading order and returning how many there were; the first malformed
/// token or unknown code rejects the line.
fn parse_row_tokens(line: &[u8], out: &mut Vec<TileType>) -> (r: Result<usize, GridError>)
    requires
        old(out)@.len() <= 0x4000_0000,
        line@.len() <= 0x4000_0000,
    ensures
        match spec_row_codes(spec_tokens(line@)) {
            Ok(row) => {
                &&& r == Ok::<usize, GridError>(row.len() as usize)
                &&& final(out)@ == old(out)@ + row
            },
            Err(e) => r == Err::<usize, GridError>(e),
        },
{
    let len = line.len();
    let mut i: usize = 0;
    let mut count: usize = 0;
    let ghost mut prefix: Seq<TileType> = Seq::empty();
    proof {
        assert(out@ =~= old(out)@ + prefix);
        assert(line@.subrange(0, len as int) =~= line@);
        if let Ok(rest) = spec_row_codes(spec_tokens(line@)) {
            assert(prefix + rest =~= rest);
        }
    }
    while i < len
        invariant
            0 <= i <= len,
            len == line@.len(),
            len <= 0x4000_0000,
            count == prefix.len(),
            count <= i,
            out@ == old(out)@ + prefix,
            old(out)@.len() <= 0x4000_0000,
            match spec_row_codes(spec_tokens(line@.subrange(i as int, len as int))) {
                Ok(rest) => spec_row_codes(spec_tokens(line@)) == Ok::<_, GridError>(
                    prefix + rest,
                ),
                Err(e) => spec_row_codes(spec_tokens(line@)) == Err::<Seq<TileType>, _>(e),
            },
        decreases len - i,
    {
        let ghost suffix = line@.subrange(i as int, len as int);
        let b = line[i];
        if b == 32 || (9 <= b && b <= 13) {
            proof {
                assert(suffix[0] == line@[i as int]);
                assert(suffix.drop_first() =~= line@.subrange(i as int + 1, len as int));
            }
            i += 1;
        } else {
            // find the end of the token
            let mut j: usize = i + 1;
            let mut token_done = false;
            while !token_done
                invariant
                    i < j <= len,
                    len == line@.len(),
                    forall|q: int| i <= q < j ==> !is_space(line@[q]),
                    token_done ==> j == len || is_space(line@[j as int]),
                decreases len - j + (if token_done { 0int } else { 1int }),
            {
                if j >= len {
                    token_done = true;
                } else {
                    let c = line[j];
                    if c == 32 || (9 <= c && c <= 13) {
                        token_done = true;
                    } else {
                        j += 1;
                    }
                }
            }
            proof {
                assert(forall|q: int| 0 <= q < j - i ==> suffix[q] == line@[i + q]);
                if j < len {
                    assert(suffix[j - i] == line@[j as int]);
                }
                lemma_first_space_is(suffix, j - i);
                assert(suffix.subrange(0, j - i) =~= line@.subrange(i as int, j as int));
                assert(suffix.subrange(j - i, suffix.len() as int) =~= line@.subrange(
                    j as int,
                    len as int,
                ));
                assert(spec_tokens(suffix) == seq![line@.subrange(i as int, j as int)]
                    + spec_tokens(line@.subrange(j as int, len as int)));
                assert(spec_tokens(suffix)[0] == line@.subrange(i as int, j as int));
                assert(spec_tokens(suffix).drop_first() =~= spec_tokens(
                    line@.subrange(j as int, len as int),
                ));
            }
            let token = &line[i..j];
            let code_opt = crate::text::parse_u32(token);
            let code = match code_opt {
                Option::None => {
                    return Err(GridError::MalformedNumber);
                },
                Option::Some(c) => c,
            };
            let tile_opt = TileType::from_code(code);
            let tile = match tile_opt {
                Option::None => {
                    return Err(GridError::UnknownCode);
                },
                Option::Some(t) => t,
            };
            out.push(tile);
            count += 1;
            proof {
                let pre_old = prefix;
                prefix = prefix + seq![tile];
                assert(out@ =~= old(out)@ + prefix);
                if let Ok(rest) = spec_row_codes(
                    spec_tokens(line@.subrange(j as int, len as int)),
                ) {
                    assert(pre_old + (seq![tile] + rest) =~= prefix + rest);
                }
            }
            i = j;
        }
    }
    proof {
        assert(line@.subrange(len as int, len as int) =~= Seq::<u8>::empty());
        assert(spec_tokens(Seq::<u8>::empty()) =~= Seq::<Seq<u8>>::empty());
        assert(prefix + Seq::<TileType>::empty() =~= prefix);
        lemma_row_codes_len(spec_tokens(line@));
    }
    Ok(count)
}

/// Split off the first line at `pos`: yields the end of the line's content
/// (carriage return stripped when the line is line-feed-terminated) and the
/// start of the next line, and relates them to `spec_split_lines`.
pub(crate) fn split_first_line(text: &[u8], pos: usize) -> (r: (usize, usize))
    requires
        pos < text@.len(),
    ensures
        ({
            let (content_end, next_pos) = r;
            &&& pos <= content_end <= text@.len()
            &&& pos < next_pos <= text@.len()
            &&& content_end <= next_pos
            &&& spec_split_lines(text@.subrange(pos as int, text@.len() as int)) == seq![
                text@.subrange(pos as int, content_end as int),
            ] + spec_split_lines(text@.subrange(next_pos as int, text@.len() as int))
        }),
{
    let len = text.len();
    let ghost suffix = text@.subrange(pos as int, len as int);

    let mut line_end: usize = pos;
    let mut line_done = false;
    while !line_done
        invariant
            pos <= line_end <= len,
            len == text@.len(),
            forall|q: int| pos <= q < line_end ==> text@[q] != 10,
            line_done ==> line_end == len || text@[line_end as int] == 10,
        decreases len - line_end + (if line_done { 0int } else { 1int }),
    {
        if line_end >= len {
            line_done = true;
        } else if text[line_end] == 10 {
            line_done = true;
        } else {
            line_end += 1;
        }
    }
    proof {
        assert(forall|q: int| 0 <= q < line_end - pos ==> suffix[q] == text@[pos + q]);
        if line_end < len {
            assert(suffix[line_end - pos] == text@[line_end as int]);
        }
        lemma_first_nl_is(suffix, line_end - pos);
    }

    let content_end: usize = if line_end < len && line_end > pos && text[line_end - 1] == 13 {
        line_end - 1
    } else {
        line_end
    };
    let next_pos: usize = if line_end < len {
        line_end + 1
    } else {
        len
    };
    proof {
        let raw = suffix.subrange(0, line_end - pos);
        assert(raw =~= text@.subrange(pos as int, line_end as int));
        if line_end < len {
            let stripped = if raw.len() > 0 && raw.last() == 13 {
                raw.drop_last()
            } else {
                raw
            };
            assert(stripped =~= text@.subrange(pos as int, content_end as int));
            assert(spec_split_lines(suffix) == seq![stripped] + spec_split_lines(
                suffix.subrange(line_end - pos + 1, suffix.len() as int),
            ));
            assert(suffix.subrange(line_end - pos + 1, suffix.len() as int) =~= text@.subrange(
                next_pos as int,
                len as int,
            ));
            assert(seq![stripped] =~= seq![text@.subrange(pos as int, content_end as int)]);
        } else {
            assert(suffix =~= text@.subrange(pos as int, content_end as int));
            assert(spec_split_lines(suffix) == seq![suffix]);
            assert(text@.subrange(len as int, len as int) =~= Seq::<u8>::empty());
            assert(spec_split_lines(text@.subrange(len as int, len as int))
                =~= Seq::<Seq<u8>>::empty());
            assert(seq![suffix] =~= seq![text@.subrange(pos as int, content_end as int)]
                + spec_split_lines(text@.subrange(next_pos as int, len as int)));
        }
    }
    (content_end, next_pos)
}

/// Parse a whole grid text: lines of whitespace-separated tile codes, blank
/// lines skipped, every row as wide as the first, decoded per
/// `TileType::from_code`, bounded by the largest grid a map may hold.
pub fn parse_tile_grid(text: &[u8]) -> (r: Result<(Vec<TileType>, usize), GridError>)
    requires
        text@.len() <= 0x4000_0000,
    ensures
        match r {
            Ok((tiles, stride)) => {
                &&& spec_parse_grid(text@) == Ok::<_, GridError>((tiles@, stride as int))
                &&& stride == 0 ==> tiles@.len() == 0
                &&& stride > 0 ==> tiles@.len() as int % stride as int == 0
                &&& stride <= 0x8000
                &&& tiles@.len() <= 0x8000 * stride
            },
            Err(e) => spec_parse_grid(text@) == Err::<(Seq<TileType>, int), GridError>(e),
        },
{
    let len = text.len();
    let mut tiles: Vec<TileType> = Vec::new();
    let mut stride: usize = 0;
    let mut have_stride = false;
    let mut pos: usize = 0;

    proof {
        assert(text@.subrange(0, len as int) =~= text@);
    }
    while pos < len
        invariant
            0 <= pos <= len,
            len == text@.len(),
            len <= 0x4000_0000,
            tiles@.len() <= pos,
            !have_stride ==> tiles@.len() == 0 && stride == 0,
            have_stride ==> stride > 0 && tiles@.len() as int % stride as int == 0,
            stride <= len,
            spec_grid_scan(spec_split_lines(text@), Seq::empty(), Option::None) == spec_grid_scan(
                spec_split_lines(text@.subrange(pos as int, len as int)),
                tiles@,
                if have_stride {
                    Option::Some(stride as int)
                } else {
                    Option::None
                },
            ),
        decreases len - pos,
    {
        let (content_end, next_pos) = split_first_line(text, pos);
        proof {
            let suffix_lines = spec_split_lines(text@.subrange(pos as int, len as int));
            let rest_lines = spec_split_lines(text@.subrange(next_pos as int, len as int));
            assert(suffix_lines[0] == text@.subrange(pos as int, content_end as int));
            assert(suffix_lines.drop_first() =~= rest_lines);
        }
        let line = &text[pos..content_end];
        let row = match parse_row_tokens(line, &mut tiles) {
            Err(e) => {
                return Err(e);
            },
            Ok(count) => count,
        };

        proof {
            lemma_row_codes_len(spec_tokens(line@));
            lemma_tokens_count_le(line@);
            if row > 0 {
                match spec_row_codes(spec_tokens(line@)) {
                    Ok(rowseq) => {
                        vstd::arithmetic::div_mod::lemma_mod_self_0(row as int);
                        if have_stride && row == stride {
                            vstd::arithmetic::div_mod::lemma_add_mod_noop(
                                tiles@.len() - row,
                                row as int,
                                stride as int,
                            );
                            vstd::arithmetic::div_mod::lemma_small_mod(0, stride as nat);
                        }
                    },
                    Err(_) => {},
                }
            }
        }

        if row > 0 {
            if !have_stride {
                stride = row;
                have_stride = true;
            } else if row != stride {
                return Err(GridError::UnevenRows);
            }
        }

        pos = next_pos;
    }
    proof {
        assert(text@.subrange(len as int, len as int) =~= Seq::<u8>::empty());
        assert(spec_split_lines(Seq::<u8>::empty()) =~= Seq::<Seq<u8>>::empty());
    }
    if stride > 0x8000 {
        return Err(GridError::GridTooLarge);
    }
    if stride > 0 && tiles.len() > 0x8000 * stride {
        return Err(GridError::GridTooLarge);
    }
    Ok((tiles, stride))
}

/// A line has at most as many tokens as bytes.
pub proof fn lemma_tokens_count_le(line: Seq<u8>)
    ensures
        spec_tokens(line).len() <= line.len(),
    decreases line.len(),
{
    if line.len() == 0 {
    } else if is_space(line[0]) {
        lemma_tokens_count_le(line.drop_first());
    } else {
        let k0 = first_space(line) as int;
        let k = if k0 > line.len() {
            line.len() as int
        } else {
            k0
        };
        lemma_tokens_count_le(line.subrange(k, line.len() as int));
    }
}

/// A parsed row has one tile per token.
pub proof fn lemma_row_codes_len(tokens: Seq<Seq<u8>>)
    ensures
        match spec_row_codes(tokens) {
            Ok(row) => row.len() == tokens.len(),
            Err(_) => true,
        },
    decreases tokens.len(),
{
    if tokens.len() > 0 {
        lemma_row_codes_len(tokens.drop_first());
    }
}

} // verus!
