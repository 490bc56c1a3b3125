//! The plain-text level format: a size line `<height>,<width>`, then one
//! line of tile code bytes per row.
//!
//! [`World::serialize`] writes that format and [`World::parse`] reads it
//! back; parsing a serialized grid gives the grid back exactly
//! ([`lemma_parse_serialize_round_trip`]).

use vstd::prelude::*;

use crate::block::spec_format;
use crate::block::Block;
use crate::world::World;

verus! {

/// Why a level text was rejected.
#[derive(Debug, Copy, Clone, PartialEq, Eq, Structural)]
pub enum ParseError {
    /// The text is empty, or its first line has no comma to split height
    /// from width.
    SizeMissing,
    /// A size field is not a plain decimal number of at least 1 that fits
    /// the machine.
    SizeInvalid,
    /// The block count `height * width` does not fit the machine.
    CapacityOverflow,
    /// The rows after the size line do not hold exactly `height` lines of
    /// exactly `width` tile codes each.
    TileCountMismatch,
    /// A byte where a tile code was expected is not in the code table.
    InvalidTileCode,
}

/// Newline, the line terminator of the level format (ASCII `\n`).
pub const NEWLINE: u8 = 10;

/// Comma, the separator of the two size fields (ASCII `,`).
pub const COMMA: u8 = 44;

/// ASCII `0`, the base of the decimal digits.
pub const DIGIT_ZERO: u8 = 48;

/// Whether `b` is an ASCII decimal digit.
pub open spec fn is_digit(b: u8) -> bool {
    DIGIT_ZERO <= b <= DIGIT_ZERO + 9
}

/// The value of a string of decimal digits, most significant first.
pub open spec fn dec_val(s: Seq<u8>) -> int
    decreases s.len(),
{
    if s.len() == 0 {
        0
    } else {
        dec_val(s.drop_last()) * 10 + (s.last() - DIGIT_ZERO)
    }
}

/// Every byte of `s` is a decimal digit.
pub open spec fn all_digits(s: Seq<u8>) -> bool {
    forall|i: int| 0 <= i < s.len() ==> is_digit(#[trigger] s[i])
}

/// `s` is a decimal number a size field may hold: at least one digit, digits
/// only, and a value that fits the machine.
pub open spec fn valid_dec(s: Seq<u8>) -> bool {
    &&& s.len() >= 1
    &&& all_digits(s)
    &&& dec_val(s) <= usize::MAX
}

/// The canonical decimal digits of `n`: no sign, no leading zero.
pub open spec fn dec_repr(n: int) -> Seq<u8>
    recommends
        n >= 0,
    decreases n,
{
    if n < 10 {
        seq![(DIGIT_ZERO + n) as u8]
    } else {
        dec_repr(n / 10).push((DIGIT_ZERO + n % 10) as u8)
    }
}

/// One row of blocks as its tile code bytes.
pub open spec fn row_repr(row: Seq<Block>) -> Seq<u8> {
    row.map_values(|b: Block| spec_format(b))
}

/// Rows of blocks as lines of tile code bytes, each closed by a newline.
pub open spec fn rows_repr(rows: Seq<Seq<Block>>) -> Seq<u8>
    decreases rows.len(),
{
    if rows.len() == 0 {
        Seq::empty()
    } else {
        row_repr(rows[0]) + seq![NEWLINE] + rows_repr(rows.drop_first())
    }
}

impl World {
    /// The grid's rows as plain sequences of blocks.
    pub open spec fn rows_view(&self) -> Seq<Seq<Block>> {
        self.rows@.map_values(|v: Vec<Block>| v@)
    }
}

/// The level text of a grid: the size line, then each row as a line of tile
/// codes.
pub open spec fn spec_serialize_world(w: World) -> Seq<u8> {
    dec_repr(w.height as int) + seq![COMMA] + dec_repr(w.width as int) + seq![NEWLINE]
        + rows_repr(w.rows_view())
}

/// The first position at or after `from` where `b` occurs in `s`, or
/// `s.len()` when it never does.
pub open spec fn find_byte(s: Seq<u8>, b: u8, from: int) -> int
    decreases s.len() - from,
{
    if from < 0 || from >= s.len() {
        s.len() as int
    } else if s[from] == b {
        from
    } else {
        find_byte(s, b, from + 1)
    }
}

/// Read one row of `w` tile codes from the front of `body`. A byte outside
/// the code table is `InvalidTileCode`; a newline or the end of the text
/// before `w` codes were read is `TileCountMismatch`.
pub open spec fn spec_parse_row(body: Seq<u8>, w: int) -> Result<Seq<Block>, ParseError>
    decreases w,
{
    if w <= 0 {
        Ok(Seq::empty())
    } else if body.len() == 0 {
        Err(ParseError::TileCountMismatch)
    } else if body[0] == NEWLINE {
        Err(ParseError::TileCountMismatch)
    } else {
        match crate::block::spec_parse(body[0]) {
            None => Err(ParseError::InvalidTileCode),
            Some(b) => match spec_parse_row(body.skip(1), w - 1) {
                Ok(row) => Ok(seq![b] + row),
                Err(e) => Err(e),
            },
        }
    }
}

/// Read `h` rows of `w` tile codes each from `body`. Every row but the last
/// is closed by a newline; the last row's newline may be left off. Anything
/// else before, between or after the rows is `TileCountMismatch`.
pub open spec fn spec_parse_rows(body: Seq<u8>, h: int, w: int) -> Result<
    Seq<Seq<Block>>,
    ParseError,
>
    decreases h,
{
    if h <= 0 {
        if body.len() == 0 {
            Ok(Seq::empty())
        } else {
            Err(ParseError::TileCountMismatch)
        }
    } else {
        match spec_parse_row(body, w) {
            Err(e) => Err(e),
            Ok(row) => {
                let rest = body.skip(w);
                if rest.len() == 0 {
                    if h == 1 {
                        Ok(seq![row])
                    } else {
                        Err(ParseError::TileCountMismatch)
                    }
                } else if rest[0] == NEWLINE {
                    match spec_parse_rows(rest.skip(1), h - 1, w) {
                        Ok(rows) => Ok(seq![row] + rows),
                        Err(e) => Err(e),
                    }
                } else {
                    Err(ParseError::TileCountMismatch)
                }
            },
        }
    }
}

/// What parsing a level text yields: the two sizes and the rows of blocks,
/// or the first error a left-to-right read meets. The size line is split at
/// its first comma; each size field must be a positive decimal that fits
/// the machine, the block count must fit the machine, and the body must hold
/// exactly `height` rows of `width` codes each.
pub open spec fn spec_parse_world(s: Seq<u8>) -> Result<(int, int, Seq<Seq<Block>>), ParseError> {
    if s.len() == 0 {
        Err(ParseError::SizeMissing)
    } else {
        let nl = find_byte(s, NEWLINE, 0);
        let header = s.take(nl);
        let comma = find_byte(header, COMMA, 0);
        if comma == header.len() {
            Err(ParseError::SizeMissing)
        } else {
            let hs = header.take(comma);
            let ws = header.skip(comma + 1);
            if !valid_dec(hs) || !valid_dec(ws) {
                Err(ParseError::SizeInvalid)
            } else {
                let h = dec_val(hs);
                let w = dec_val(ws);
                if h == 0 || w == 0 {
                    Err(ParseError::SizeInvalid)
                } else if h * w > usize::MAX {
                    Err(ParseError::CapacityOverflow)
                } else {
                    let body = if nl < s.len() {
                        s.skip(nl + 1)
                    } else {
                        Seq::empty()
                    };
                    match spec_parse_rows(body, h, w) {
                        Ok(rows) => Ok((h, w, rows)),
                        Err(e) => Err(e),
                    }
                }
            }
        }
    }
}

/// A scan that saw no `b` before `k`, and `b` or the end at `k`, found the
/// first occurrence.
proof fn lemma_find_byte_is(s: Seq<u8>, b: u8, from: int, k: int)
    requires
        0 <= from <= k <= s.len(),
        forall|j: int| from <= j < k ==> s[j] != b,
        k == s.len() || s[k] == b,
    ensures
        find_byte(s, b, from) == k,
    decreases k - from,
{
    if from < k {
        lemma_find_byte_is(s, b, from + 1, k);
    }
}

/// A string of digits has a value of at least 0.
proof fn lemma_dec_val_nonneg(s: Seq<u8>)
    requires
        all_digits(s),
    ensures
        dec_val(s) >= 0,
    decreases s.len(),
{
    if s.len() > 0 {
        assert(all_digits(s.drop_last()));
        lemma_dec_val_nonneg(s.drop_last());
    }
}

/// Reading more digits never shrinks the value: every prefix of a digit
/// string is worth at most the whole.
proof fn lemma_dec_val_prefix_le(s: Seq<u8>, k: int)
    requires
        all_digits(s),
        0 <= k <= s.len(),
    ensures
        dec_val(s.take(k)) <= dec_val(s),
    decreases s.len() - k,
{
    if k < s.len() {
        lemma_dec_val_prefix_le(s, k + 1);
        assert(s.take(k + 1).drop_last() =~= s.take(k));
        assert(all_digits(s.take(k)));
        lemma_dec_val_nonneg(s.take(k));
        assert(dec_val(s.take(k + 1)) == dec_val(s.take(k)) * 10 + (s[k] - DIGIT_ZERO));
    } else {
        assert(s.take(k) =~= s);
    }
}

/// Read the decimal value of `s[start..end]`: `Some` exactly when that range
/// is a digit string whose value fits in `usize`.
fn parse_usize(s: &[u8], start: usize, end: usize) -> (r: Option<usize>)
    requires
        start <= end <= s@.len(),
    ensures
        ({
            let digits = s@.subrange(start as int, end as int);
            match r {
                Some(v) => valid_dec(digits) && v == dec_val(digits),
                None => !valid_dec(digits),
            }
        }),
{
    let ghost digits = s@.subrange(start as int, end as int);
    if start == end {
        return None;
    }
    let mut val: usize = 0;
    let mut i: usize = start;
    while i < end
        invariant
            start <= i <= end <= s@.len(),
            digits == s@.subrange(start as int, end as int),
            all_digits(s@.subrange(start as int, i as int)),
            val == dec_val(s@.subrange(start as int, i as int)),
        decreases end - i,
    {
        let byte = s[i];
        if byte < DIGIT_ZERO || byte > DIGIT_ZERO + 9 {
            assert(digits[i - start] == byte);
            assert(!all_digits(digits));
            return None;
        }
        let d = (byte - DIGIT_ZERO) as usize;
        proof {
            assert(s@.subrange(start as int, i + 1).drop_last() =~= s@.subrange(
                start as int,
                i as int,
            ));
            assert(dec_val(s@.subrange(start as int, i + 1)) == val * 10 + d);
            assert(all_digits(s@.subrange(start as int, i + 1)));
        }
        let next = match val.checked_mul(10) {
            Some(x) => x.checked_add(d),
            None => None,
        };
        match next {
            Some(x) => {
                val = x;
            }
            None => {
                proof {
                    assert(val * 10 + d > usize::MAX);
                    if all_digits(digits) {
                        assert(s@.subrange(start as int, i + 1) =~= digits.take(i + 1 - start));
                        lemma_dec_val_prefix_le(digits, i + 1 - start);
                        assert(dec_val(digits) > usize::MAX);
                    }
                }
                return None;
            }
        }
        i += 1;
    }
    proof {
        assert(s@.subrange(start as int, end as int) =~= digits);
    }
    Some(val)
}

/// Append the canonical decimal digits of `n`.
fn push_decimal(out: &mut Vec<u8>, n: usize)
    ensures
        final(out)@ == old(out)@ + dec_repr(n as int),
    decreases n,
{
    if n < 10 {
        out.push(DIGIT_ZERO + (n as u8));
        assert(final(out)@ =~= old(out)@ + dec_repr(n as int));
    } else {
        push_decimal(out, n / 10);
        out.push(DIGIT_ZERO + ((n % 10) as u8));
        assert(final(out)@ =~= old(out)@ + dec_repr(n as int));
    }
}

/// Taking one more row extends the line picture by that row and a newline.
proof fn lemma_rows_repr_take_snoc(rows: Seq<Seq<Block>>, r: int)
    requires
        0 <= r < rows.len(),
    ensures
        rows_repr(rows.take(r + 1)) == rows_repr(rows.take(r)) + row_repr(rows[r]) + seq![NEWLINE],
    decreases r,
{
    if r == 0 {
        assert(rows.take(1).drop_first() =~~= Seq::<Seq<Block>>::empty());
        assert(rows_repr(rows.take(1).drop_first()) =~= Seq::<u8>::empty());
        assert(rows.take(1)[0] == rows[0]);
        assert(rows.take(0).len() == 0);
        assert(rows_repr(rows.take(0)) =~= Seq::<u8>::empty());
        assert(rows_repr(rows.take(1)) =~= rows_repr(rows.take(0)) + row_repr(rows[0]) + seq![
            NEWLINE,
        ]);
    } else {
        lemma_rows_repr_take_snoc(rows.drop_first(), r - 1);
        assert(rows.take(r + 1).drop_first() =~~= rows.drop_first().take(r));
        assert(rows.take(r).drop_first() =~~= rows.drop_first().take(r - 1));
        assert(rows.take(r + 1)[0] == rows[0]);
        assert(rows.take(r)[0] == rows[0]);
        assert(rows.drop_first()[r - 1] == rows[r]);
        assert(rows_repr(rows.take(r + 1)) =~= rows_repr(rows.take(r)) + row_repr(rows[r]) + seq![
            NEWLINE,
        ]);
    }
}

impl World {
    /// Write the grid in the plain-text level format: the size line, then
    /// one line of tile codes per row, each line closed by a newline.
    pub fn serialize(&self) -> (out: Vec<u8>)
        requires
            self.wf(),
        ensures
            out@ == spec_serialize_world(*self),
    {
        let mut out: Vec<u8> = Vec::new();
        push_decimal(&mut out, self.height);
        out.push(COMMA);
        push_decimal(&mut out, self.width);
        out.push(NEWLINE);
        let ghost header = out@;
        assert(header =~= dec_repr(self.height as int) + seq![COMMA] + dec_repr(self.width as int)
            + seq![NEWLINE]);

        let height = self.height;
        let width = self.width;
        let mut r: usize = 0;
        while r < height
            invariant
                r <= height,
                self.wf(),
                height == self.height,
                width == self.width,
                out@ == header + rows_repr(self.rows_view().take(r as int)),
            decreases height - r,
        {
            let ghost row_start = out@;
            let mut c: usize = 0;
            while c < width
                invariant
                    r < height,
                    c <= width,
                    self.wf(),
                    height == self.height,
                    width == self.width,
                    out@ == row_start + row_repr(self.rows_view()[r as int].take(c as int)),
                decreases width - c,
            {
                let b = self.rows[r][c];
                out.push(b.format());
                assert(self.rows_view()[r as int].take(c + 1) =~= self.rows_view()[r as int].take(
                    c as int,
                ).push(self.at(r as int, c as int)));
                assert(row_repr(self.rows_view()[r as int].take(c + 1)) =~= row_repr(
                    self.rows_view()[r as int].take(c as int),
                ).push(spec_format(self.at(r as int, c as int))));
                c += 1;
            }
            out.push(NEWLINE);
            proof {
                lemma_rows_repr_take_snoc(self.rows_view(), r as int);
                assert(self.rows_view()[r as int].take(width as int) =~= self.rows_view()[
                    r as int
                ]);
                assert(out@ =~= header + rows_repr(self.rows_view().take(r + 1)));
            }
            r += 1;
        }
        proof {
            assert(self.rows_view().take(height as int) =~= self.rows_view());
        }
        out
    }
}


impl World {
    /// Read a level text: the size line, then `height` lines of `width`
    /// tile codes each (the last line's newline may be left off). Returns
    /// the grid exactly as described, or the first error a left-to-right
    /// read meets, as [`spec_parse_world`] lays down.
    #[verifier::loop_isolation(false)]
    #[verifier::rlimit(80)]
    pub fn parse(input: &[u8]) -> (r: Result<World, ParseError>)
        ensures
            ({
                let sp = spec_parse_world(input@);
                match sp {
                    Ok(parsed) => {
                        &&& r is Ok
                        &&& r->Ok_0.wf()
                        &&& r->Ok_0.height == parsed.0
                        &&& r->Ok_0.width == parsed.1
                        &&& r->Ok_0.rows_view() == parsed.2
                    },
                    Err(e) => r is Err && r->Err_0 == e,
                }
            }),
    {
        let n = input.len();
        if n == 0 {
            return Err(ParseError::SizeMissing);
        }

        // The size line runs to the first newline, or to the end.
        let mut nl: usize = 0;
        while nl < n && input[nl] != NEWLINE
            invariant
                nl <= n,
                forall|j: int| 0 <= j < nl ==> input@[j] != NEWLINE,
            decreases n - nl,
        {
            nl += 1;
        }
        proof {
            lemma_find_byte_is(input@, NEWLINE, 0, nl as int);
        }
        let ghost header = input@.take(nl as int);

        // Split it at its first comma.
        let mut comma: usize = 0;
        while comma < nl && input[comma] != COMMA
            invariant
                comma <= nl,
                forall|j: int| 0 <= j < comma ==> input@[j] != COMMA,
            decreases nl - comma,
        {
            comma += 1;
        }
        proof {
            assert(forall|j: int| 0 <= j < comma ==> header[j] != COMMA);
            assert(comma == nl || header[comma as int] == COMMA);
            lemma_find_byte_is(header, COMMA, 0, comma as int);
        }
        if comma == nl {
            return Err(ParseError::SizeMissing);
        }

        // The two size fields.
        proof {
            assert(header.take(comma as int) =~= input@.subrange(0, comma as int));
            assert(header.skip(comma + 1) =~= input@.subrange(comma + 1, nl as int));
        }
        let height = match parse_usize(input, 0, comma) {
            Some(v) => v,
            None => {
                return Err(ParseError::SizeInvalid);
            },
        };
        let width = match parse_usize(input, comma + 1, nl) {
            Some(v) => v,
            None => {
                return Err(ParseError::SizeInvalid);
            },
        };
        if height == 0 || width == 0 {
            return Err(ParseError::SizeInvalid);
        }
        let total = match height.checked_mul(width) {
            Some(t) => t,
            None => {
                return Err(ParseError::CapacityOverflow);
            },
        };

        // The rows.
        let ghost body = if (nl as int) < input@.len() {
            input@.skip(nl + 1)
        } else {
            Seq::<u8>::empty()
        };
        let mut pos: usize = if nl < n {
            nl + 1
        } else {
            n
        };
        proof {
            assert(input@.skip(pos as int) =~= body);
        }

        let mut rows_vec: Vec<Vec<Block>> = Vec::new();
        let mut r: usize = 0;
        proof {
            assert(rows_vec@.map_values(|v: Vec<Block>| v@) =~~= Seq::<Seq<Block>>::empty());
            if spec_parse_rows(body, height as int, width as int) is Ok {
                let rest = spec_parse_rows(body, height as int, width as int)->Ok_0;
                assert(Seq::<Seq<Block>>::empty() + rest =~~= rest);
            }
        }
        while r < height
            invariant
                r <= height,
                pos <= n,
                rows_vec@.len() == r,
                forall|i: int| 0 <= i < r ==> (#[trigger] rows_vec@[i])@.len() == width,
                spec_parse_rows(body, height as int, width as int) == (
                match spec_parse_rows(input@.skip(pos as int), height - r, width as int) {
                    Ok(rest) => Ok(rows_vec@.map_values(|v: Vec<Block>| v@) + rest),
                    Err(e) => Err::<Seq<Seq<Block>>, ParseError>(e),
                }),
            decreases height - r,
        {
            let ghost row_start = pos as int;
            let ghost view_before = rows_vec@.map_values(|v: Vec<Block>| v@);
            let mut row: Vec<Block> = Vec::new();
            let mut c: usize = 0;
            proof {
                if spec_parse_row(input@.skip(row_start), width as int) is Ok {
                    let rest = spec_parse_row(input@.skip(row_start), width as int)->Ok_0;
                    assert(Seq::<Block>::empty() + rest =~= rest);
                }
            }
            while c < width
                invariant
                    c <= width,
                    pos == row_start + c,
                    pos <= n,
                    row@.len() == c,
                    spec_parse_row(input@.skip(row_start), width as int) == (
                    match spec_parse_row(input@.skip(pos as int), width - c) {
                        Ok(rest) => Ok(row@ + rest),
                        Err(e) => Err::<Seq<Block>, ParseError>(e),
                    }),
                decreases width - c,
            {
                if pos == n {
                    proof {
                        assert(input@.skip(pos as int).len() == 0);
                        assert(spec_parse_row(input@.skip(pos as int), width - c) == Err::<
                            Seq<Block>,
                            ParseError,
                        >(ParseError::TileCountMismatch));
                    }
                    return Err(ParseError::TileCountMismatch);
                }
                let byte = input[pos];
                proof {
                    assert(input@.skip(pos as int)[0] == byte);
                }
                if byte == NEWLINE {
                    return Err(ParseError::TileCountMismatch);
                }
                let b = match Block::parse(byte) {
                    Some(b) => b,
                    None => {
                        return Err(ParseError::InvalidTileCode);
                    },
                };
                proof {
                    assert(input@.skip(pos as int).skip(1) =~= input@.skip(pos + 1));
                    if spec_parse_row(input@.skip(pos + 1), width - (c + 1)) is Ok {
                        let rest = spec_parse_row(input@.skip(pos + 1), width - (c + 1))->Ok_0;
                        assert(row@ + (seq![b] + rest) =~= row@.push(b) + rest);
                    }
                }
                row.push(b);
                pos += 1;
                c += 1;
            }
            proof {
                assert(spec_parse_row(input@.skip(pos as int), 0) == Ok::<Seq<Block>, ParseError>(
                    Seq::empty(),
                ));
                assert(row@ + Seq::<Block>::empty() =~= row@);
                assert(spec_parse_row(input@.skip(row_start), width as int) == Ok::<
                    Seq<Block>,
                    ParseError,
                >(row@));
                assert(input@.skip(row_start).skip(width as int) =~= input@.skip(pos as int));
            }
            if pos < n {
                let sep = input[pos];
                proof {
                    assert(input@.skip(pos as int)[0] == sep);
                    assert(input@.skip(pos as int).len() > 0);
                }
                if sep != NEWLINE {
                    return Err(ParseError::TileCountMismatch);
                }
                proof {
                    assert(input@.skip(pos as int).skip(1) =~= input@.skip(pos + 1));
                    let tail = spec_parse_rows(input@.skip(pos + 1), height - r - 1, width as int);
                    if tail is Ok {
                        assert(view_before + (seq![row@] + tail->Ok_0) =~~= view_before.push(row@)
                            + tail->Ok_0);
                    }
                    assert(rows_vec@.push(row).map_values(|v: Vec<Block>| v@) =~~=
                        view_before.push(row@));
                }
                pos += 1;
                rows_vec.push(row);
                r += 1;
            } else {
                if r + 1 < height {
                    proof {
                        assert(input@.skip(pos as int).len() == 0);
                    }
                    return Err(ParseError::TileCountMismatch);
                }
                proof {
                    assert(input@.skip(pos as int).len() == 0);
                    assert(rows_vec@.push(row).map_values(|v: Vec<Block>| v@) =~~=
                        view_before.push(row@));
                    assert(view_before + seq![row@] =~~= view_before.push(row@));
                    assert(view_before.push(row@) + Seq::<Seq<Block>>::empty() =~~=
                        view_before.push(row@));
                }
                rows_vec.push(row);
                r += 1;
            }
        }
        if pos < n {
            proof {
                assert(input@.skip(pos as int).len() > 0);
            }
            return Err(ParseError::TileCountMismatch);
        }
        proof {
            assert(input@.skip(pos as int).len() == 0);
            let view = rows_vec@.map_values(|v: Vec<Block>| v@);
            assert(view + Seq::<Seq<Block>>::empty() =~~= view);
            assert(spec_parse_rows(body, height as int, width as int) == Ok::<
                Seq<Seq<Block>>,
                ParseError,
            >(view));
        }
        let world = World { height, width, rows: rows_vec };
        proof {
            assert(world.wf());
            assert(world.rows_view() == rows_vec@.map_values(|v: Vec<Block>| v@));
        }
        Ok(world)
    }
}


/// The canonical decimal digits of `n` are digits, at least one of them, and
/// they read back as `n`.
proof fn lemma_dec_repr_val(n: int)
    requires
        0 <= n,
    ensures
        all_digits(dec_repr(n)),
        dec_repr(n).len() >= 1,
        dec_val(dec_repr(n)) == n,
    decreases n,
{
    if n < 10 {
        let s = dec_repr(n);
        assert(s =~= seq![(DIGIT_ZERO + n) as u8]);
        assert(s.drop_last() =~= Seq::<u8>::empty());
        assert(dec_val(Seq::<u8>::empty()) == 0);
        assert(dec_val(s) == n);
    } else {
        lemma_dec_repr_val(n / 10);
        vstd::arithmetic::div_mod::lemma_fundamental_div_mod(n, 10);
        let s = dec_repr(n);
        assert(s == dec_repr(n / 10).push((DIGIT_ZERO + n % 10) as u8));
        assert(s.drop_last() =~= dec_repr(n / 10));
        assert(s.last() == (DIGIT_ZERO + n % 10) as u8);
        assert(dec_val(s) == dec_val(dec_repr(n / 10)) * 10 + (n % 10));
        assert(forall|i: int|
            0 <= i < s.len() ==> is_digit(#[trigger] s[i]) || i == s.len() - 1);
        assert(is_digit(s[s.len() - 1]));
    }
}

/// A line of `w` tile codes followed by anything reads back as that row, and
/// leaves the rest untouched.
proof fn lemma_parse_row_repr(row: Seq<Block>, rest: Seq<u8>, w: int)
    requires
        row.len() == w,
        0 <= w,
        forall|j: int| 0 <= j < w ==> crate::block::canonical(#[trigger] row[j]),
    ensures
        spec_parse_row(row_repr(row) + rest, w) == Ok::<Seq<Block>, ParseError>(row),
    decreases w,
{
    let s = row_repr(row) + rest;
    if w == 0 {
        assert(row =~= Seq::<Block>::empty());
    } else {
        assert(s[0] == spec_format(row[0]));
        crate::block::lemma_block_codec_bijective(row[0], s[0]);
        assert(s[0] != NEWLINE);
        assert(crate::block::spec_parse(s[0]) == Some(row[0]));
        assert(s.skip(1) =~= row_repr(row.drop_first()) + rest);
        lemma_parse_row_repr(row.drop_first(), rest, w - 1);
        assert(seq![row[0]] + row.drop_first() =~= row);
    }
}

/// `h` rows written as lines read back as those rows.
proof fn lemma_parse_rows_repr(rows: Seq<Seq<Block>>, h: int, w: int)
    requires
        rows.len() == h,
        1 <= h,
        1 <= w,
        forall|i: int| 0 <= i < h ==> (#[trigger] rows[i]).len() == w,
        forall|i: int, j: int|
            0 <= i < h && 0 <= j < w ==> crate::block::canonical(#[trigger] rows[i][j]),
    ensures
        spec_parse_rows(rows_repr(rows), h, w) == Ok::<Seq<Seq<Block>>, ParseError>(rows),
    decreases h,
{
    let body = rows_repr(rows);
    let first = rows[0];
    let dropped = rows.drop_first();
    let tail = seq![NEWLINE] + rows_repr(dropped);
    assert(body == row_repr(first) + seq![NEWLINE] + rows_repr(dropped));
    assert(body =~= row_repr(first) + tail);
    assert(spec_parse_row(body, w) == Ok::<Seq<Block>, ParseError>(first)) by {
        lemma_parse_row_repr(first, tail, w);
    }
    assert(row_repr(first).len() == w);
    let rest = body.skip(w);
    assert(rest =~= tail);
    assert(rest[0] == NEWLINE);
    assert(rest.skip(1) =~= rows_repr(dropped));
    if h == 1 {
        assert(dropped.len() == 0);
        assert(rows_repr(dropped) == Seq::<u8>::empty());
        assert(rest.skip(1).len() == 0);
        assert(spec_parse_rows(rest.skip(1), 0, w) == Ok::<Seq<Seq<Block>>, ParseError>(
            Seq::empty(),
        ));
        assert(seq![first] =~= rows);
        assert(spec_parse_rows(body, h, w) == Ok::<Seq<Seq<Block>>, ParseError>(rows));
    } else {
        assert(dropped.len() == h - 1);
        assert forall|i: int| 0 <= i < h - 1 implies (#[trigger] dropped[i]).len() == w by {
            assert(dropped[i] == rows[i + 1]);
        }
        assert forall|i: int, j: int|
            0 <= i < h - 1 && 0 <= j < w implies crate::block::canonical(
            #[trigger] dropped[i][j],
        ) by {
            assert(dropped[i] == rows[i + 1]);
            assert(crate::block::canonical(rows[i + 1][j]));
        }
        lemma_parse_rows_repr(dropped, h - 1, w);
        assert(spec_parse_rows(rest.skip(1), h - 1, w) == Ok::<Seq<Seq<Block>>, ParseError>(
            dropped,
        ));
        assert(seq![first] + dropped =~= rows);
        assert(spec_parse_rows(body, h, w) == Ok::<Seq<Seq<Block>>, ParseError>(rows));
    }
}

/// Round trip: parsing a serialized grid gives the grid back, dimensions and
/// blocks alike. It holds for every grid whose blocks are spelled
/// canonically (a vertical `Through` as `Up`, a horizontal one as `Left`) —
/// which is every grid that `parse` itself can produce.
pub proof fn lemma_parse_serialize_round_trip(w: World)
    requires
        w.wf(),
        forall|r: int, c: int|
            0 <= r < w.height && 0 <= c < w.width ==> crate::block::canonical(#[trigger] w.at(r, c)),
    ensures
        spec_parse_world(spec_serialize_world(w)) == Ok::<(int, int, Seq<Seq<Block>>), ParseError>(
            (w.height as int, w.width as int, w.rows_view()),
        ),
{
    let s = spec_serialize_world(w);
    let hd = dec_repr(w.height as int);
    let wd = dec_repr(w.width as int);
    let rows = w.rows_view();
    lemma_dec_repr_val(w.height as int);
    lemma_dec_repr_val(w.width as int);
    let hl = hd.len() as int;
    let wl = wd.len() as int;
    let nl_idx = hl + 1 + wl;

    assert(rows.len() == w.height);
    assert(forall|i: int| 0 <= i < w.height ==> (#[trigger] rows[i]).len() == w.width);
    assert forall|i: int, j: int|
        0 <= i < w.height && 0 <= j < w.width implies crate::block::canonical(
        #[trigger] rows[i][j],
    ) by {
        assert(rows[i][j] == w.at(i, j));
        assert(crate::block::canonical(w.at(i, j)));
    }

    // the body is non-empty, so the newline at nl_idx is not the last byte
    assert(rows_repr(rows).len() > 0);
    assert(s.len() == nl_idx + 1 + rows_repr(rows).len());

    // the first newline sits right after the two size fields
    assert(forall|j: int| 0 <= j < hl ==> is_digit(#[trigger] hd[j]));
    assert(forall|j: int| 0 <= j < wl ==> is_digit(#[trigger] wd[j]));
    assert(forall|j: int| 0 <= j < hl ==> s[j] == hd[j]);
    assert(s[hl] == COMMA);
    assert(forall|j: int| hl + 1 <= j < nl_idx ==> s[j] == wd[j - hl - 1]);
    assert(s[nl_idx] == NEWLINE);
    assert(forall|j: int| 0 <= j < nl_idx ==> s[j] != NEWLINE);
    lemma_find_byte_is(s, NEWLINE, 0, nl_idx);

    let header = s.take(nl_idx);
    assert(header =~= hd + seq![COMMA] + wd);
    assert(forall|j: int| 0 <= j < hl ==> header[j] != COMMA);
    assert(header[hl] == COMMA);
    lemma_find_byte_is(header, COMMA, 0, hl);
    assert(find_byte(header, COMMA, 0) != header.len());

    assert(header.take(hl) =~= hd);
    assert(header.skip(hl + 1) =~= wd);
    assert(valid_dec(hd));
    assert(valid_dec(wd));
    assert(dec_val(hd) == w.height && dec_val(wd) == w.width);
    assert(w.height * w.width <= usize::MAX);

    assert(nl_idx < s.len());
    assert(s.skip(nl_idx + 1) =~= rows_repr(rows));
    lemma_parse_rows_repr(rows, w.height as int, w.width as int);
}


/// A row that parses has exactly `w` blocks, every one spelled canonically.
proof fn lemma_parse_row_canonical(body: Seq<u8>, w: int)
    requires
        0 <= w,
        spec_parse_row(body, w) is Ok,
    ensures
        spec_parse_row(body, w)->Ok_0.len() == w,
        forall|j: int|
            0 <= j < w ==> crate::block::canonical(#[trigger] spec_parse_row(body, w)->Ok_0[j]),
    decreases w,
{
    if w > 0 {
        let b = crate::block::spec_parse(body[0])->Some_0;
        crate::block::lemma_block_codec_bijective(b, body[0]);
        lemma_parse_row_canonical(body.skip(1), w - 1);
        let rest = spec_parse_row(body.skip(1), w - 1)->Ok_0;
        assert(spec_parse_row(body, w)->Ok_0 == seq![b] + rest);
    }
}

/// Rows that parse come as `h` rows of `w` canonical blocks each.
proof fn lemma_parse_rows_canonical(body: Seq<u8>, h: int, w: int)
    requires
        0 <= h,
        0 <= w,
        spec_parse_rows(body, h, w) is Ok,
    ensures
        spec_parse_rows(body, h, w)->Ok_0.len() == h,
        forall|i: int|
            0 <= i < h ==> (#[trigger] spec_parse_rows(body, h, w)->Ok_0[i]).len() == w,
        forall|i: int, j: int|
            0 <= i < h && 0 <= j < w ==> crate::block::canonical(
                #[trigger] spec_parse_rows(body, h, w)->Ok_0[i][j],
            ),
    decreases h,
{
    if h > 0 {
        let row = spec_parse_row(body, w)->Ok_0;
        lemma_parse_row_canonical(body, w);
        let rest = body.skip(w);
        if rest.len() == 0 {
            assert(spec_parse_rows(body, h, w)->Ok_0 == seq![row]);
        } else {
            let tail = spec_parse_rows(rest.skip(1), h - 1, w)->Ok_0;
            lemma_parse_rows_canonical(rest.skip(1), h - 1, w);
            assert(spec_parse_rows(body, h, w)->Ok_0 == seq![row] + tail);
        }
    }
}

/// Whatever `parse` accepts it spells canonically: a parsed grid satisfies
/// the premise of [`lemma_parse_serialize_round_trip`], so serializing it
/// and parsing that text gives the same grid again.
pub proof fn lemma_parsed_world_canonical(s: Seq<u8>)
    requires
        spec_parse_world(s) is Ok,
    ensures
        ({
            let parsed = spec_parse_world(s)->Ok_0;
            &&& parsed.2.len() == parsed.0
            &&& forall|i: int|
                0 <= i < parsed.0 ==> (#[trigger] parsed.2[i]).len() == parsed.1
            &&& forall|i: int, j: int|
                0 <= i < parsed.0 && 0 <= j < parsed.1 ==> crate::block::canonical(
                    #[trigger] parsed.2[i][j],
                )
        }),
{
    let nl = find_byte(s, NEWLINE, 0);
    let header = s.take(nl);
    let comma = find_byte(header, COMMA, 0);
    let h = dec_val(header.take(comma));
    let w = dec_val(header.skip(comma + 1));
    let body = if nl < s.len() {
        s.skip(nl + 1)
    } else {
        Seq::<u8>::empty()
    };
    lemma_dec_val_nonneg(header.take(comma));
    lemma_dec_val_nonneg(header.skip(comma + 1));
    lemma_parse_rows_canonical(body, h, w);
}

} // verus!
