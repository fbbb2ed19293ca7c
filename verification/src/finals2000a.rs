//! IERS `finals2000A` Earth Orientation Parameter files: fixed columns.
//!
//! Column layout (0-indexed byte ranges):
//!
//! ```text
//!   7..15    MJD
//!  17..27    x pole [arcsec], Bulletin A        (required)
//!  36..46    y pole [arcsec], Bulletin A        (required)
//!  58..68    UT1-UTC [s], Bulletin A            (required)
//!  78..86    LOD [ms], Bulletin A
//!  97..106   dX [mas], Bulletin A
//! 116..125   dY [mas], Bulletin A
//! 134..144   x pole [arcsec], Bulletin B
//! 144..154   y pole [arcsec], Bulletin B
//! 154..165   UT1-UTC [s], Bulletin B
//! 165..175   dX [mas], Bulletin B
//! 175..185   dY [mas], Bulletin B
//! ```
//!
//! Bulletin B values are preferred when present. Lines shorter than 68 bytes
//! are skipped (headers, blanks), and so are rows whose MJD is not a number,
//! and rows that carry a date and MJD but no Bulletin A values at all: the
//! published `finals2000A.all` ends with such padded rows. A row with only
//! some of the required values is an error.
//!
//! The numbers are read by the caller: [`Finals2000A::fields`] gives the
//! trimmed text of every column of every line, and [`Finals2000A::parse`]
//! takes the [`Reading`] of each.
use vstd::prelude::*;
use vstd::utf8::{encode_scalar, encode_utf8};

use crate::reading::{FloatValue, Reading};
use crate::text::{
    char_rows, chars_of, lines, split_lines, string_of_range, trim, trim_bounds,
};

verus! {

// ---------------------------------------------------------------------------
// Byte positions within a line of characters.
/// The number of bytes `c` takes in UTF-8.
pub open spec fn width(c: char) -> nat {
    let u = c as u32;
    if u <= 0x7F {
        1
    } else if u <= 0x7FF {
        2
    } else if u <= 0xFFFF {
        3
    } else {
        4
    }
}

/// The length in bytes of `s` written as UTF-8, which is what `str::len`
/// reports.
pub open spec fn byte_len(s: Seq<char>) -> nat {
    encode_utf8(s).len()
}

proof fn lemma_scalar_width(c: char)
    ensures
        encode_scalar(c as u32).len() == width(c),
{
    vstd::utf8::char_is_scalar(c);
}

proof fn lemma_byte_len_push(s: Seq<char>, c: char)
    ensures
        byte_len(s.push(c)) == byte_len(s) + width(c),
    decreases s.len(),
{
    lemma_scalar_width(c);
    let t = s.push(c);
    assert(t.len() > 0);
    assert(encode_utf8(t) == encode_scalar(t[0] as u32) + encode_utf8(t.drop_first()));
    if s.len() == 0 {
        assert(t.drop_first() =~= Seq::<char>::empty());
        assert(encode_utf8(Seq::<char>::empty()) == Seq::<u8>::empty());
        assert(t[0] == c);
    } else {
        assert(t.drop_first() =~= s.drop_first().push(c));
        assert(t[0] == s[0]);
        assert(encode_utf8(s) == encode_scalar(s[0] as u32) + encode_utf8(s.drop_first()));
        lemma_byte_len_push(s.drop_first(), c);
    }
}

proof fn lemma_byte_len_prefix(s: Seq<char>, k: int)
    requires
        0 <= k < s.len(),
    ensures
        byte_len(s.take(k + 1)) == byte_len(s.take(k)) + width(s[k]),
{
    assert(s.take(k + 1) =~= s.take(k).push(s[k]));
    lemma_byte_len_push(s.take(k), s[k]);
}

proof fn lemma_byte_len_grows(s: Seq<char>, j: int, k: int)
    requires
        0 <= j < k <= s.len(),
    ensures
        byte_len(s.take(j)) < byte_len(s.take(k)),
    decreases k - j,
{
    lemma_byte_len_prefix(s, k - 1);
    if j < k - 1 {
        lemma_byte_len_grows(s, j, k - 1);
    }
}

/// Byte position `p` of `s` starts a character (or is the end).
pub open spec fn on_boundary(s: Seq<char>, p: nat) -> bool {
    exists|k: int| 0 <= k <= s.len() && byte_len(s.take(k)) == p
}

/// The index of the character byte position `p` starts.
pub open spec fn char_index(s: Seq<char>, p: nat) -> int {
    choose|k: int| 0 <= k <= s.len() && byte_len(s.take(k)) == p
}

/// The characters of bytes `a..b` of `s`.
pub open spec fn byte_slice(s: Seq<char>, a: nat, b: nat) -> Seq<char> {
    s.subrange(char_index(s, a), char_index(s, b))
}

/// Whether `s` is at least `n` bytes long, and, if byte position `p` starts
/// a character, which.
fn locate(s: &[char], p: usize) -> (r: Option<usize>)
    requires
        p <= 1000,
    ensures
        match r {
            Some(k) => k <= s@.len() && byte_len(s@.take(k as int)) == p,
            None => !on_boundary(s@, p as nat),
        },
{
    let mut k: usize = 0;
    let mut acc: usize = 0;
    assert(s@.take(0) =~= Seq::<char>::empty());
    while k < s.len() && acc < p
        invariant
            k <= s.len(),
            acc == byte_len(s@.take(k as int)),
            acc <= p + 4,
            p <= 1000,
            forall|j: int| 0 <= j < k ==> byte_len(s@.take(j)) < p,
        decreases s.len() - k,
    {
        let u = s[k] as u32;
        let w: usize = if u <= 0x7F {
            1
        } else if u <= 0x7FF {
            2
        } else if u <= 0xFFFF {
            3
        } else {
            4
        };
        proof {
            lemma_byte_len_prefix(s@, k as int);
        }
        acc = acc + w;
        k = k + 1;
    }
    if acc == p {
        return Some(k);
    }
    proof {
        assert forall|j: int| 0 <= j <= s@.len() implies byte_len(s@.take(j)) != p by {
            if j < k {
            } else if j > k {
                lemma_byte_len_grows(s@, k as int, j);
            }
        }
    }
    None
}

/// Whether `s` is at least `n` bytes long.
fn at_least_bytes(s: &[char], n: usize) -> (r: bool)
    requires
        n <= 1000,
    ensures
        r == (byte_len(s@) >= n),
{
    let mut k: usize = 0;
    let mut acc: usize = 0;
    assert(s@.take(0) =~= Seq::<char>::empty());
    while k < s.len() && acc < n
        invariant
            k <= s.len(),
            acc == byte_len(s@.take(k as int)),
            acc <= n + 4,
            n <= 1000,
        decreases s.len() - k,
    {
        let u = s[k] as u32;
        let w: usize = if u <= 0x7F {
            1
        } else if u <= 0x7FF {
            2
        } else if u <= 0xFFFF {
            3
        } else {
            4
        };
        proof {
            lemma_byte_len_prefix(s@, k as int);
        }
        acc = acc + w;
        k = k + 1;
    }
    proof {
        assert(s@.take(s@.len() as int) =~= s@);
        if k < s.len() {
            lemma_byte_len_grows(s@, k as int, s@.len() as int);
        }
    }
    acc >= n
}

// ---------------------------------------------------------------------------
// The columns.
/// The number of columns a row is read from.
pub const COLUMNS: usize = 12;

/// Byte range and name of each column: MJD, the three required Bulletin A
/// columns, the optional Bulletin A columns, then Bulletin B.
pub open spec fn column(i: int) -> (nat, nat) {
    if i == 0 {
        (7, 15)
    } else if i == 1 {
        (17, 27)
    } else if i == 2 {
        (36, 46)
    } else if i == 3 {
        (58, 68)
    } else if i == 4 {
        (78, 86)
    } else if i == 5 {
        (97, 106)
    } else if i == 6 {
        (116, 125)
    } else if i == 7 {
        (134, 144)
    } else if i == 8 {
        (144, 154)
    } else if i == 9 {
        (154, 165)
    } else if i == 10 {
        (165, 175)
    } else {
        (175, 185)
    }
}

/// The byte range of column `i`.
fn column_range(i: usize) -> (r: (usize, usize))
    requires
        i < COLUMNS,
    ensures
        r.0 == column(i as int).0,
        r.1 == column(i as int).1,
        r.0 < r.1 <= 185,
{
    if i == 0 {
        (7, 15)
    } else if i == 1 {
        (17, 27)
    } else if i == 2 {
        (36, 46)
    } else if i == 3 {
        (58, 68)
    } else if i == 4 {
        (78, 86)
    } else if i == 5 {
        (97, 106)
    } else if i == 6 {
        (116, 125)
    } else if i == 7 {
        (134, 144)
    } else if i == 8 {
        (144, 154)
    } else if i == 9 {
        (154, 165)
    } else if i == 10 {
        (165, 175)
    } else {
        (175, 185)
    }
}

/// The name an error gives each column.
pub open spec fn column_name(i: int) -> Seq<char> {
    if i == 0 {
        "MJD"@
    } else if i == 1 {
        "xp_A"@
    } else if i == 2 {
        "yp_A"@
    } else if i == 3 {
        "dut1_A"@
    } else if i == 4 {
        "lod_A"@
    } else if i == 5 {
        "dX_A"@
    } else if i == 6 {
        "dY_A"@
    } else if i == 7 {
        "xp_B"@
    } else if i == 8 {
        "yp_B"@
    } else if i == 9 {
        "dut1_B"@
    } else if i == 10 {
        "dX_B"@
    } else {
        "dY_B"@
    }
}

/// The name an error gives column `i`.
fn column_label(i: usize) -> (r: &'static str)
    requires
        i < COLUMNS,
    ensures
        r@ == column_name(i as int),
{
    if i == 0 {
        "MJD"
    } else if i == 1 {
        "xp_A"
    } else if i == 2 {
        "yp_A"
    } else if i == 3 {
        "dut1_A"
    } else if i == 4 {
        "lod_A"
    } else if i == 5 {
        "dX_A"
    } else if i == 6 {
        "dY_A"
    } else if i == 7 {
        "xp_B"
    } else if i == 8 {
        "yp_B"
    } else if i == 9 {
        "dut1_B"
    } else if i == 10 {
        "dX_B"
    } else {
        "dY_B"
    }
}

/// The shortest line that is a row.
pub open spec fn is_row(l: Seq<char>) -> bool {
    byte_len(l) >= 68
}

/// Whether line `l` reaches the end of column `i`.
pub open spec fn reaches(l: Seq<char>, i: int) -> bool {
    byte_len(l) >= column(i).1
}

/// The text of column `i` of line `l`, trimmed.
pub open spec fn field(l: Seq<char>, i: int) -> Seq<char> {
    trim(byte_slice(l, column(i).0, column(i).1))
}

/// Column `i` of `l` starts and ends on a character, so that slicing it by
/// bytes does not cut one. Always so for ASCII text.
pub open spec fn slice_ok(l: Seq<char>, i: int) -> bool {
    on_boundary(l, column(i).0) && on_boundary(l, column(i).1)
}

/// What every line offers to be read: the trimmed text of each column the
/// line reaches, and nothing for the rest, for columns that would cut a
/// character, and for lines too short to be rows.
pub open spec fn line_fields(l: Seq<char>) -> Seq<Seq<char>> {
    Seq::new(
        COLUMNS as nat,
        |i: int|
            if is_row(l) && reaches(l, i) && slice_ok(l, i) {
                field(l, i)
            } else {
                seq![]
            },
    )
}

// ---------------------------------------------------------------------------
// The parse, as a function of the lines and the readings of their columns.
/// Why a finals2000A text could not be parsed.
#[derive(Debug, Clone, PartialEq)]
pub enum EopParseError {
    /// A column held something that is not a finite number (line, column,
    /// the column's text).
    InvalidNumber { line: usize, column: &'static str, value: String },
    /// The MJD did not increase (line, the previous MJD, this one, as
    /// written).
    NonMonotonicMjd { line: usize, previous: String, current: String },
    /// No row held data.
    Empty,
}

/// [`EopParseError`] with its texts as characters.
pub enum EopError {
    InvalidNumber { line: nat, column: Seq<char>, value: Seq<char> },
    NonMonotonicMjd { line: nat, previous: Seq<char>, current: Seq<char> },
    Empty,
}

impl View for EopParseError {
    type V = EopError;

    open spec fn view(&self) -> EopError {
        match self {
            EopParseError::InvalidNumber { line, column, value } => EopError::InvalidNumber {
                line: *line as nat,
                column: column@,
                value: value@,
            },
            EopParseError::NonMonotonicMjd { line, previous, current } =>
                EopError::NonMonotonicMjd {
                line: *line as nat,
                previous: previous@,
                current: current@,
            },
            EopParseError::Empty => EopError::Empty,
        }
    }
}

/// One day of Earth orientation parameters, each value as written in the
/// file, Bulletin B where present.
pub struct EntryModel {
    pub mjd: Seq<char>,
    /// The order key of the MJD's reading.
    pub mjd_key: u64,
    /// x pole [arcsec].
    pub xp: Seq<char>,
    /// y pole [arcsec].
    pub yp: Seq<char>,
    /// UT1-UTC [s].
    pub dut1: Seq<char>,
    /// Length of day [ms], Bulletin A only.
    pub lod: Option<Seq<char>>,
    /// dX [mas].
    pub dx: Option<Seq<char>>,
    /// dY [mas].
    pub dy: Option<Seq<char>>,
}

/// A required column: it must read as a finite number, which a blank one
/// never does.
pub open spec fn required(l: Seq<char>, rd: Seq<Reading>, i: int, line: nat) -> Result<
    Seq<char>,
    EopError,
> {
    if field(l, i).len() == 0 {
        Err(EopError::InvalidNumber { line, column: column_name(i), value: field(l, i) })
    } else {
        match rd[i] {
        Reading::Number(f, _) => if f.class.finite() {
            Ok(field(l, i))
        } else {
            Err(EopError::InvalidNumber { line, column: column_name(i), value: field(l, i) })
        },
        Reading::NotANumber => Err(
            EopError::InvalidNumber { line, column: column_name(i), value: field(l, i) },
        ),
        }
    }
}

/// An optional column: nothing where the line stops before it ends or it is
/// blank, else it must read as a finite number.
pub open spec fn optional(l: Seq<char>, rd: Seq<Reading>, i: int, line: nat) -> Result<
    Option<Seq<char>>,
    EopError,
> {
    if !reaches(l, i) || field(l, i).len() == 0 {
        Ok(None)
    } else {
        match required(l, rd, i, line) {
            Ok(v) => Ok(Some(v)),
            Err(e) => Err(e),
        }
    }
}

/// `b` where present, else `a`.
pub open spec fn prefer(b: Option<Seq<char>>, a: Option<Seq<char>>) -> Option<Seq<char>> {
    match b {
        Some(v) => Some(v),
        None => a,
    }
}

/// The MJD of the last entry: its text, and how it reads.
pub type Previous = Option<(Seq<char>, FloatValue)>;

/// What one line yields: nothing (skipped), or an entry with its MJD.
pub open spec fn row(l: Seq<char>, rd: Seq<Reading>, line: nat, prev: Previous) -> Result<
    Option<(EntryModel, FloatValue)>,
    EopError,
> {
    if !is_row(l) {
        Ok(None)
    } else if field(l, 0).len() == 0 {
        Ok(None)
    } else {
        match rd[0] {
            Reading::NotANumber => Ok(None),
            Reading::Number(mjd, _) => if !mjd.class.finite() {
                Err(EopError::InvalidNumber { line, column: "MJD"@, value: field(l, 0) })
            } else if field(l, 1).len() == 0 && field(l, 2).len() == 0 && field(l, 3).len()
                == 0 {
                Ok(None)
            } else if prev is Some && mjd.key <= prev.unwrap().1.key {
                Err(
                    EopError::NonMonotonicMjd {
                        line,
                        previous: prev.unwrap().0,
                        current: field(l, 0),
                    },
                )
            } else {
                match (
                    required(l, rd, 1, line),
                    required(l, rd, 2, line),
                    required(l, rd, 3, line),
                ) {
                    (Err(e), _, _) => Err(e),
                    (Ok(_), Err(e), _) => Err(e),
                    (Ok(_), Ok(_), Err(e)) => Err(e),
                    (Ok(xp_a), Ok(yp_a), Ok(dut1_a)) => match optional_columns(l, rd, line) {
                        Err(e) => Err(e),
                        Ok(o) => Ok(
                            Some(
                                (
                                    EntryModel {
                                        mjd: field(l, 0),
                                        mjd_key: mjd.key,
                                        xp: prefer(o[3], Some(xp_a)).unwrap(),
                                        yp: prefer(o[4], Some(yp_a)).unwrap(),
                                        dut1: prefer(o[5], Some(dut1_a)).unwrap(),
                                        lod: o[0],
                                        dx: prefer(o[6], o[1]),
                                        dy: prefer(o[7], o[2]),
                                    },
                                    mjd,
                                ),
                            ),
                        ),
                    },
                }
            },
        }
    }
}

/// The optional columns 4 to 11 in order, stopping at the first error.
pub open spec fn optional_columns(l: Seq<char>, rd: Seq<Reading>, line: nat) -> Result<
    Seq<Option<Seq<char>>>,
    EopError,
> {
    optional_from(l, rd, line, 4)
}

/// The optional columns from `i` on, in order, stopping at the first error.
pub open spec fn optional_from(l: Seq<char>, rd: Seq<Reading>, line: nat, i: int) -> Result<
    Seq<Option<Seq<char>>>,
    EopError,
>
    decreases 12 - i,
{
    if i >= 12 {
        Ok(seq![])
    } else {
        match optional(l, rd, i, line) {
            Err(e) => Err(e),
            Ok(v) => match optional_from(l, rd, line, i + 1) {
                Err(e) => Err(e),
                Ok(rest) => Ok(seq![v] + rest),
            },
        }
    }
}

proof fn lemma_optional_len(l: Seq<char>, rd: Seq<Reading>, line: nat, i: int)
    requires
        4 <= i <= 12,
    ensures
        optional_from(l, rd, line, i) matches Ok(v) ==> v.len() == 12 - i,
    decreases 12 - i,
{
    if i < 12 {
        lemma_optional_len(l, rd, line, i + 1);
    }
}

/// The entries of `ls`, whose first line is line number `line`, after the
/// entries `acc` with last MJD `prev`.
pub open spec fn rows(
    ls: Seq<Seq<char>>,
    rds: Seq<Seq<Reading>>,
    line: nat,
    prev: Previous,
    acc: Seq<EntryModel>,
) -> Result<Seq<EntryModel>, EopError>
    decreases ls.len(),
{
    if ls.len() == 0 {
        Ok(acc)
    } else {
        match row(ls[0], rds[0], line, prev) {
            Err(e) => Err(e),
            Ok(None) => rows(ls.drop_first(), rds.drop_first(), line + 1, prev, acc),
            Ok(Some((e, mjd))) => rows(
                ls.drop_first(),
                rds.drop_first(),
                line + 1,
                Some((e.mjd, mjd)),
                acc.push(e),
            ),
        }
    }
}

/// Whether reading row `l` slices only columns that start and end on a
/// character. The reader slices the MJD of every row; then, for a finite
/// MJD, the required Bulletin A columns up to the first that is not blank;
/// then, for a row that is not skipped and has not failed, each required
/// column and each optional column the line reaches, up to the first that
/// fails. A slice that cuts a character panics.
pub open spec fn row_slices_ok(l: Seq<char>, rd: Seq<Reading>, line: nat, prev: Previous) -> bool {
    if !is_row(l) {
        true
    } else if !slice_ok(l, 0) {
        false
    } else if field(l, 0).len() == 0 {
        true
    } else {
        match rd[0] {
            Reading::NotANumber => true,
            Reading::Number(mjd, _) => if !mjd.class.finite() {
                true
            } else if !slice_ok(l, 1) {
                false
            } else if field(l, 1).len() == 0 && !slice_ok(l, 2) {
                false
            } else if field(l, 1).len() == 0 && field(l, 2).len() == 0 && !slice_ok(l, 3) {
                false
            } else if field(l, 1).len() == 0 && field(l, 2).len() == 0 && field(l, 3).len()
                == 0 {
                true
            } else if prev is Some && mjd.key <= prev.unwrap().1.key {
                true
            } else if required(l, rd, 1, line) is Err {
                true
            } else if !slice_ok(l, 2) {
                false
            } else if required(l, rd, 2, line) is Err {
                true
            } else if !slice_ok(l, 3) {
                false
            } else if required(l, rd, 3, line) is Err {
                true
            } else {
                optional_slices_ok(l, rd, line, 4)
            },
        }
    }
}

/// Whether reading the optional columns from `i` on slices only columns
/// that start and end on a character.
pub open spec fn optional_slices_ok(l: Seq<char>, rd: Seq<Reading>, line: nat, i: int) -> bool
    decreases 12 - i,
{
    if i >= 12 {
        true
    } else if !reaches(l, i) {
        optional_slices_ok(l, rd, line, i + 1)
    } else if !slice_ok(l, i) {
        false
    } else {
        match optional(l, rd, i, line) {
            Err(_) => true,
            Ok(_) => optional_slices_ok(l, rd, line, i + 1),
        }
    }
}

/// Whether reading the lines `ls`, from line number `line` after the MJD
/// `prev`, slices only columns that start and end on a character: where
/// the reader does not panic.
pub open spec fn rows_slices_ok(ls: Seq<Seq<char>>, rds: Seq<Seq<Reading>>, line: nat, prev: Previous) -> bool
    decreases ls.len(),
{
    if ls.len() == 0 {
        true
    } else {
        row_slices_ok(ls[0], rds[0], line, prev) && match row(ls[0], rds[0], line, prev) {
            Err(_) => true,
            Ok(None) => rows_slices_ok(ls.drop_first(), rds.drop_first(), line + 1, prev),
            Ok(Some((e, mjd))) => rows_slices_ok(
                ls.drop_first(),
                rds.drop_first(),
                line + 1,
                Some((e.mjd, mjd)),
            ),
        }
    }
}

/// Whether reading `text` with `rds` slices only columns that start and end
/// on a character.
pub open spec fn text_slices_ok(text: Seq<char>, rds: Seq<Seq<Reading>>) -> bool {
    rows_slices_ok(lines(text), rds, 1, None)
}

/// The entries of a whole text, or why there are none.
pub open spec fn parse_text(text: Seq<char>, rds: Seq<Seq<Reading>>) -> Result<
    Seq<EntryModel>,
    EopError,
> {
    match rows(lines(text), rds, 1, None, seq![]) {
        Err(e) => Err(e),
        Ok(es) => if es.len() == 0 {
            Err(EopError::Empty)
        } else {
            Ok(es)
        },
    }
}

/// `rds` holds one reading per column for each line of `text`.
pub open spec fn readings_fit(text: Seq<char>, rds: Seq<Seq<Reading>>) -> bool {
    &&& rds.len() == lines(text).len()
    &&& forall|l: int| 0 <= l < rds.len() ==> #[trigger] rds[l].len() == COLUMNS
}

// ---------------------------------------------------------------------------
// The reader.
proof fn lemma_index_unique(s: Seq<char>, p: nat, k: int)
    requires
        0 <= k <= s.len(),
        byte_len(s.take(k)) == p,
    ensures
        on_boundary(s, p),
        char_index(s, p) == k,
{
    let j = char_index(s, p);
    if j < k {
        lemma_byte_len_grows(s, j, k);
    } else if j > k {
        lemma_byte_len_grows(s, k, j);
    }
}

/// Whether column `i` of `l` starts and ends on a character.
fn column_on_characters(l: &[char], i: usize) -> (r: bool)
    requires
        i < COLUMNS,
    ensures
        r == slice_ok(l@, i as int),
{
    let (a, b) = column_range(i);
    locate(l, a).is_some() && locate(l, b).is_some()
}

/// Where the trimmed text of column `i` of row `l` starts and ends.
fn column_bounds(l: &[char], i: usize) -> (r: (usize, usize))
    requires
        i < COLUMNS,
        slice_ok(l@, i as int),
    ensures
        r.0 <= r.1 <= l@.len(),
        l@.subrange(r.0 as int, r.1 as int) == field(l@, i as int),
{
    let (a, b) = column_range(i);
    let ka = match locate(l, a) {
        Some(k) => k,
        None => {
            assert(false);
            0
        },
    };
    let kb = match locate(l, b) {
        Some(k) => k,
        None => {
            assert(false);
            0
        },
    };
    proof {
        lemma_index_unique(l@, a as nat, ka as int);
        lemma_index_unique(l@, b as nat, kb as int);
        if kb < ka {
            lemma_byte_len_grows(l@, kb as int, ka as int);
        }
    }
    trim_bounds(l, ka, kb)
}

/// The trimmed text of every column of every line of `text`, empty for the
/// columns a line does not reach or would cut a character in, and for lines
/// too short to be rows: the texts whose readings [`Finals2000A::parse`]
/// takes.
pub fn line_columns(text: &str) -> (t: Vec<Vec<String>>)
    ensures
        t@.len() == lines(text@).len(),
        forall|l: int|
            0 <= l < t@.len() ==> #[trigger] crate::icgem::string_row(t@[l]) == line_fields(
                lines(text@)[l],
            ),
{
    let chars = chars_of(text);
    let ls = split_lines(chars.as_slice());
    let mut out: Vec<Vec<String>> = Vec::new();
    let mut li: usize = 0;
    while li < ls.len()
        invariant
            li <= ls.len(),
            char_rows(ls@) == lines(text@),
            out@.len() == li,
            forall|k: int|
                0 <= k < li ==> #[trigger] crate::icgem::string_row(out@[k]) == line_fields(
                    lines(text@)[k],
                ),
        decreases ls.len() - li,
    {
        let l = &ls[li];
        assert(l@ == lines(text@)[li as int]);
        let row = at_least_bytes(l.as_slice(), 68);
        let mut cols: Vec<String> = Vec::new();
        let mut i: usize = 0;
        while i < COLUMNS
            invariant
                i <= COLUMNS,
                row == is_row(l@),
                cols@.len() == i,
                forall|j: int|
                    0 <= j < i ==> #[trigger] cols@[j]@ == line_fields(l@)[j],
            decreases COLUMNS - i,
        {
            let (_, end) = column_range(i);
            if row && at_least_bytes(l.as_slice(), end) && column_on_characters(l.as_slice(), i) {
                let (a, b) = column_bounds(l.as_slice(), i);
                cols.push(string_of_range(l.as_slice(), a, b));
            } else {
                cols.push(String::new());
            }
            i = i + 1;
        }
        proof {
            assert(crate::icgem::string_row(cols) =~= line_fields(l@));
        }
        out.push(cols);
        li = li + 1;
    }
    out
}

/// One day of Earth orientation parameters, each value as written in the
/// file, Bulletin B where present.
#[derive(Debug, Clone, PartialEq)]
pub struct EopRow {
    /// Modified Julian Date.
    pub mjd: String,
    /// The order key of the MJD's reading: entries come in increasing order
    /// of it.
    pub mjd_key: u64,
    /// x pole [arcsec].
    pub xp: String,
    /// y pole [arcsec].
    pub yp: String,
    /// UT1-UTC [s].
    pub dut1: String,
    /// Length of day [ms], Bulletin A only.
    pub lod: Option<String>,
    /// dX [mas].
    pub dx: Option<String>,
    /// dY [mas].
    pub dy: Option<String>,
}

/// The characters of an optional text.
pub open spec fn opt_view(v: Option<String>) -> Option<Seq<char>> {
    match v {
        Some(t) => Some(t@),
        None => None,
    }
}

impl View for EopRow {
    type V = EntryModel;

    open spec fn view(&self) -> EntryModel {
        EntryModel {
            mjd: self.mjd@,
            mjd_key: self.mjd_key,
            xp: self.xp@,
            yp: self.yp@,
            dut1: self.dut1@,
            lod: opt_view(self.lod),
            dx: opt_view(self.dx),
            dy: opt_view(self.dy),
        }
    }
}

/// The text of column `i` of a row.
fn column_text(l: &[char], i: usize) -> (t: String)
    requires
        i < COLUMNS,
        slice_ok(l@, i as int),
    ensures
        t@ == field(l@, i as int),
{
    let (a, b) = column_bounds(l, i);
    string_of_range(l, a, b)
}

/// Reads a required column.
fn read_required(l: &[char], rd: &[Reading], i: usize, line: usize) -> (r: Result<
    String,
    EopParseError,
>)
    requires
        i < COLUMNS,
        rd@.len() == COLUMNS,
        slice_ok(l@, i as int),
    ensures
        match r {
            Ok(t) => required(l@, rd@, i as int, line as nat) == Ok::<Seq<char>, EopError>(t@),
            Err(e) => required(l@, rd@, i as int, line as nat) == Err::<Seq<char>, EopError>(e@),
        },
{
    let (a, b) = column_bounds(l, i);
    let t = string_of_range(l, a, b);
    if a == b {
        return Err(EopParseError::InvalidNumber { line, column: column_label(i), value: t });
    }
    match &rd[i] {
        Reading::Number(f, _) => {
            if f.class.is_finite() {
                Ok(t)
            } else {
                Err(EopParseError::InvalidNumber { line, column: column_label(i), value: t })
            }
        },
        Reading::NotANumber => Err(
            EopParseError::InvalidNumber { line, column: column_label(i), value: t },
        ),
    }
}

/// Reads the optional columns 4 to 11, in order; nothing where one of them
/// that the line reaches would cut a character.
fn read_optional(l: &[char], rd: &[Reading], line: usize) -> (r: Option<
    Result<Vec<Option<String>>, EopParseError>,
>)
    requires
        rd@.len() == COLUMNS,
        is_row(l@),
    ensures
        match r {
            None => !optional_slices_ok(l@, rd@, line as nat, 4),
            Some(Ok(v)) => optional_slices_ok(l@, rd@, line as nat, 4) && optional_columns(
                l@,
                rd@,
                line as nat,
            ) == Ok::<Seq<Option<Seq<char>>>, EopError>(
                v@.map_values(|x: Option<String>| opt_view(x)),
            ),
            Some(Err(e)) => optional_slices_ok(l@, rd@, line as nat, 4) && optional_columns(
                l@,
                rd@,
                line as nat,
            ) == Err::<Seq<Option<Seq<char>>>, EopError>(e@),
        },
{
    let mut acc: Vec<Option<String>> = Vec::new();
    let mut i: usize = 4;
    while i < COLUMNS
        invariant
            4 <= i <= COLUMNS,
            rd@.len() == COLUMNS,
            is_row(l@),
            optional_slices_ok(l@, rd@, line as nat, 4) == optional_slices_ok(
                l@,
                rd@,
                line as nat,
                i as int,
            ),
            optional_columns(l@, rd@, line as nat) == (match optional_from(
                l@,
                rd@,
                line as nat,
                i as int,
            ) {
                Err(e) => Err(e),
                Ok(rest) => Ok(acc@.map_values(|x: Option<String>| opt_view(x)) + rest),
            }),
        decreases COLUMNS - i,
    {
        let ghost before = acc@.map_values(|x: Option<String>| opt_view(x));
        let (_, end) = column_range(i);
        let v: Option<String> = if !at_least_bytes(l, end) {
            None
        } else {
            if !column_on_characters(l, i) {
                return None;
            }
            let (a, b) = column_bounds(l, i);
            if a == b {
                None
            } else {
                match read_required(l, rd, i, line) {
                    Ok(t) => Some(t),
                    Err(e) => {
                        return Some(Err(e));
                    },
                }
            }
        };
        acc.push(v);
        proof {
            assert(acc@.map_values(|x: Option<String>| opt_view(x)) =~= before.push(opt_view(v)));
            let next = optional_from(l@, rd@, line as nat, i + 1);
            if next is Ok {
                assert(before + (seq![opt_view(v)] + next->Ok_0) =~= before.push(opt_view(v))
                    + next->Ok_0);
            }
        }
        i = i + 1;
    }
    proof {
        assert(acc@.map_values(|x: Option<String>| opt_view(x)) + Seq::<Option<Seq<char>>>::empty()
            =~= acc@.map_values(|x: Option<String>| opt_view(x)));
    }
    Some(Ok(acc))
}

/// The `i`-th entry of a list of optional texts.
fn take_at(v: &Vec<Option<String>>, i: usize) -> (r: Option<String>)
    requires
        i < v@.len(),
    ensures
        opt_view(r) == opt_view(v@[i as int]),
{
    match &v[i] {
        Some(t) => Some(t.clone()),
        None => None,
    }
}

/// What one line yields: nothing, or an entry with its MJD reading; `None`
/// where reading it would cut a character.
fn read_row(
    l: &[char],
    rd: &[Reading],
    line: usize,
    prev: &Option<(String, FloatValue)>,
) -> (r: Option<Result<Option<(EopRow, FloatValue)>, EopParseError>>)
    requires
        rd@.len() == COLUMNS,
    ensures
        match r {
            None => !row_slices_ok(l@, rd@, line as nat, previous_view(*prev)),
            Some(Ok(None)) => row_slices_ok(l@, rd@, line as nat, previous_view(*prev)) && row(
                l@,
                rd@,
                line as nat,
                previous_view(*prev),
            ) == Ok::<Option<(EntryModel, FloatValue)>, EopError>(None),
            Some(Ok(Some((e, f)))) => row_slices_ok(l@, rd@, line as nat, previous_view(*prev))
                && row(l@, rd@, line as nat, previous_view(*prev)) == Ok::<
                Option<(EntryModel, FloatValue)>,
                EopError,
            >(Some((e@, f))),
            Some(Err(e)) => row_slices_ok(l@, rd@, line as nat, previous_view(*prev)) && row(
                l@,
                rd@,
                line as nat,
                previous_view(*prev),
            ) == Err::<Option<(EntryModel, FloatValue)>, EopError>(e@),
        },
{
    if !at_least_bytes(l, 68) {
        return Some(Ok(None));
    }
    if !column_on_characters(l, 0) {
        return None;
    }
    let (a0, b0) = column_bounds(l, 0);
    if a0 == b0 {
        return Some(Ok(None));
    }
    let mjd = match &rd[0] {
        Reading::NotANumber => {
            return Some(Ok(None));
        },
        Reading::Number(f, _) => *f,
    };
    if !mjd.class.is_finite() {
        return Some(
            Err(EopParseError::InvalidNumber { line, column: "MJD", value: column_text(l, 0) }),
        );
    }
    if !column_on_characters(l, 1) {
        return None;
    }
    let (a1, b1) = column_bounds(l, 1);
    let blank = if a1 == b1 {
        if !column_on_characters(l, 2) {
            return None;
        }
        let (a2, b2) = column_bounds(l, 2);
        if a2 == b2 {
            if !column_on_characters(l, 3) {
                return None;
            }
            let (a3, b3) = column_bounds(l, 3);
            a3 == b3
        } else {
            false
        }
    } else {
        false
    };
    if blank {
        return Some(Ok(None));
    }
    if let Some((ptext, pkey)) = prev {
        if mjd.key <= pkey.key {
            return Some(
                Err(
                    EopParseError::NonMonotonicMjd {
                        line,
                        previous: ptext.clone(),
                        current: column_text(l, 0),
                    },
                ),
            );
        }
    }
    let xp_a = match read_required(l, rd, 1, line) {
        Ok(t) => t,
        Err(e) => {
            return Some(Err(e));
        },
    };
    if !column_on_characters(l, 2) {
        return None;
    }
    let yp_a = match read_required(l, rd, 2, line) {
        Ok(t) => t,
        Err(e) => {
            return Some(Err(e));
        },
    };
    if !column_on_characters(l, 3) {
        return None;
    }
    let dut1_a = match read_required(l, rd, 3, line) {
        Ok(t) => t,
        Err(e) => {
            return Some(Err(e));
        },
    };
    let o = match read_optional(l, rd, line) {
        None => {
            return None;
        },
        Some(Err(e)) => {
            return Some(Err(e));
        },
        Some(Ok(o)) => o,
    };
    let ghost om = o@.map_values(|x: Option<String>| opt_view(x));
    proof {
        lemma_optional_len(l@, rd@, line as nat, 4);
    }
    assert(om.len() == 8);
    let xp = match take_at(&o, 3) {
        Some(t) => t,
        None => xp_a,
    };
    let yp = match take_at(&o, 4) {
        Some(t) => t,
        None => yp_a,
    };
    let dut1 = match take_at(&o, 5) {
        Some(t) => t,
        None => dut1_a,
    };
    let lod = take_at(&o, 0);
    let dx = match take_at(&o, 6) {
        Some(t) => Some(t),
        None => take_at(&o, 1),
    };
    let dy = match take_at(&o, 7) {
        Some(t) => Some(t),
        None => take_at(&o, 2),
    };
    let entry = EopRow { mjd: column_text(l, 0), mjd_key: mjd.key, xp, yp, dut1, lod, dx, dy };
    Some(Ok(Some((entry, mjd))))
}

/// The spec's view of the previous MJD.
pub open spec fn previous_view(p: Option<(String, FloatValue)>) -> Previous {
    match p {
        Some((t, f)) => Some((t@, f)),
        None => None,
    }
}

/// Parser for IERS `finals2000A.all` / `finals2000A.data` /
/// `finals2000A.daily`.
pub struct Finals2000A;

impl Finals2000A {
    /// The trimmed text of every column of every line of `text`: what the
    /// readings [`parse`](Self::parse) takes are readings of.
    pub fn fields(text: &str) -> (t: Vec<Vec<String>>)
        ensures
            t@.len() == lines(text@).len(),
            forall|l: int|
                0 <= l < t@.len() ==> #[trigger] crate::icgem::string_row(t@[l]) == line_fields(
                    lines(text@)[l],
                ),
    {
        line_columns(text)
    }

    /// Parses a finals2000A text into its entries, Bulletin B preferred, or
    /// gives nothing where reading it would slice a column through a
    /// character (where the parse panics). `readings` holds, for each line,
    /// the reading of each of its [`fields`](Self::fields).
    pub fn try_parse(text: &str, readings: &Vec<Vec<Reading>>) -> (r: Option<
        Result<Vec<EopRow>, EopParseError>,
    >)
        requires
            readings_fit(text@, readings@.map_values(|x: Vec<Reading>| x@)),
        ensures
            match r {
                None => !text_slices_ok(text@, readings@.map_values(|x: Vec<Reading>| x@)),
                Some(Ok(v)) => text_slices_ok(text@, readings@.map_values(|x: Vec<Reading>| x@))
                    && parse_text(text@, readings@.map_values(|x: Vec<Reading>| x@)) == Ok::<
                    Seq<EntryModel>,
                    EopError,
                >(v@.map_values(|x: EopRow| x@)),
                Some(Err(e)) => text_slices_ok(text@, readings@.map_values(|x: Vec<Reading>| x@))
                    && parse_text(text@, readings@.map_values(|x: Vec<Reading>| x@)) == Err::<
                    Seq<EntryModel>,
                    EopError,
                >(e@),
            },
    {
        let ghost rds = readings@.map_values(|x: Vec<Reading>| x@);
        let chars = chars_of(text);
        let ls = split_lines(chars.as_slice());
        let ghost all = lines(text@);
        let mut entries: Vec<EopRow> = Vec::new();
        let mut prev: Option<(String, FloatValue)> = None;
        let mut i: usize = 0;
        assert(all.skip(0) =~= all);
        assert(rds.skip(0) =~= rds);
        assert(entries@.map_values(|x: EopRow| x@) =~= Seq::<EntryModel>::empty());
        while i < ls.len()
            invariant
                i <= ls.len(),
                char_rows(ls@) == all,
                all == lines(text@),
                readings_fit(text@, rds),
                rds == readings@.map_values(|x: Vec<Reading>| x@),
                rows(all, rds, 1, None, seq![]) == rows(
                    all.skip(i as int),
                    rds.skip(i as int),
                    (i + 1) as nat,
                    previous_view(prev),
                    entries@.map_values(|x: EopRow| x@),
                ),
                text_slices_ok(text@, rds) == rows_slices_ok(
                    all.skip(i as int),
                    rds.skip(i as int),
                    (i + 1) as nat,
                    previous_view(prev),
                ),
            decreases ls.len() - i,
        {
            proof {
                assert(char_rows(ls@)[i as int] == ls@[i as int]@);
                assert(rds[i as int] == readings@[i as int]@);
                assert(all.skip(i as int)[0] == all[i as int]);
                assert(rds.skip(i as int)[0] == rds[i as int]);
                assert(all.skip(i as int).drop_first() =~= all.skip(i + 1));
                assert(rds.skip(i as int).drop_first() =~= rds.skip(i + 1));
            }
            let ghost acc = entries@.map_values(|x: EopRow| x@);
            match read_row(ls[i].as_slice(), readings[i].as_slice(), i + 1, &prev) {
                None => {
                    return None;
                },
                Some(Err(e)) => {
                    return Some(Err(e));
                },
                Some(Ok(None)) => {},
                Some(Ok(Some((entry, mjd)))) => {
                    let mjd_text = entry.mjd.clone();
                    entries.push(entry);
                    prev = Some((mjd_text, mjd));
                    assert(entries@.map_values(|x: EopRow| x@) =~= acc.push(entry@));
                },
            }
            i = i + 1;
        }
        proof {
            assert(all.skip(i as int) =~= Seq::<Seq<char>>::empty());
        }
        if entries.len() == 0 {
            return Some(Err(EopParseError::Empty));
        }
        Some(Ok(entries))
    }

    /// Parses a finals2000A text into its entries, Bulletin B preferred.
    /// `readings` holds, for each line, the reading of each of its
    /// [`fields`](Self::fields).
    pub fn parse(text: &str, readings: &Vec<Vec<Reading>>) -> (r: Result<
        Vec<EopRow>,
        EopParseError,
    >)
        requires
            readings_fit(text@, readings@.map_values(|x: Vec<Reading>| x@)),
            text_slices_ok(text@, readings@.map_values(|x: Vec<Reading>| x@)),
        ensures
            match r {
                Ok(v) => parse_text(text@, readings@.map_values(|x: Vec<Reading>| x@)) == Ok::<
                    Seq<EntryModel>,
                    EopError,
                >(v@.map_values(|x: EopRow| x@)),
                Err(e) => parse_text(text@, readings@.map_values(|x: Vec<Reading>| x@)) == Err::<
                    Seq<EntryModel>,
                    EopError,
                >(e@),
            },
    {
        match Self::try_parse(text, readings) {
            Some(r) => r,
            None => {
                proof {
                    assert(false);
                }
                Err(EopParseError::Empty)
            },
        }
    }
}

/// The entries' MJDs strictly increase.
pub open spec fn increasing(es: Seq<EntryModel>) -> bool {
    forall|i: int, j: int| 0 <= i < j < es.len() ==> es[i].mjd_key < es[j].mjd_key
}

proof fn lemma_rows_increase(
    ls: Seq<Seq<char>>,
    rds: Seq<Seq<Reading>>,
    line: nat,
    prev: Previous,
    acc: Seq<EntryModel>,
)
    requires
        increasing(acc),
        acc.len() > 0 ==> prev is Some && prev.unwrap().1.key == acc.last().mjd_key,
    ensures
        rows(ls, rds, line, prev, acc) matches Ok(es) ==> increasing(es),
    decreases ls.len(),
{
    if ls.len() > 0 {
        match row(ls[0], rds[0], line, prev) {
            Err(_) => {},
            Ok(None) => {
                lemma_rows_increase(ls.drop_first(), rds.drop_first(), line + 1, prev, acc);
            },
            Ok(Some((e, mjd))) => {
                let acc2 = acc.push(e);
                assert(e.mjd_key == mjd.key);
                assert forall|i: int, j: int| 0 <= i < j < acc2.len() implies acc2[i].mjd_key
                    < acc2[j].mjd_key by {
                    if j == acc2.len() - 1 && acc.len() > 0 {
                        if i < acc.len() - 1 {
                            assert(acc[i].mjd_key < acc[acc.len() - 1].mjd_key);
                        }
                    }
                }
                lemma_rows_increase(
                    ls.drop_first(),
                    rds.drop_first(),
                    line + 1,
                    Some((e.mjd, mjd)),
                    acc2,
                );
            },
        }
    }
}

/// A parse that succeeds yields at least one entry, and the entries' MJDs
/// strictly increase.
pub proof fn law_entries_increase(text: Seq<char>, rds: Seq<Seq<Reading>>)
    ensures
        parse_text(text, rds) matches Ok(es) ==> es.len() > 0 && increasing(es),
{
    lemma_rows_increase(lines(text), rds, 1, None, seq![]);
}

/// A line the reader passes over whatever came before it: too short to be a
/// row, with a blank or unreadable MJD, or a dated row whose required
/// Bulletin A columns are all blank.
pub open spec fn skipped_line(l: Seq<char>, rd: Seq<Reading>) -> bool {
    ||| !is_row(l)
    ||| field(l, 0).len() == 0
    ||| rd[0] is NotANumber
    ||| (rd[0]->0.class.finite() && field(l, 1).len() == 0 && field(l, 2).len() == 0 && field(
        l,
        3,
    ).len() == 0)
}

/// Whether two results agree on success, and on the entries where they
/// succeed (an error's line number may differ).
pub open spec fn agree<T>(a: Result<T, EopError>, b: Result<T, EopError>) -> bool {
    &&& (a is Ok <==> b is Ok)
    &&& (a is Ok ==> a == b)
}

proof fn lemma_optional_from_line(l: Seq<char>, rd: Seq<Reading>, line1: nat, line2: nat, i: int)
    ensures
        agree(optional_from(l, rd, line1, i), optional_from(l, rd, line2, i)),
    decreases 12 - i,
{
    if i < 12 {
        lemma_optional_from_line(l, rd, line1, line2, i + 1);
    }
}

proof fn lemma_row_line(l: Seq<char>, rd: Seq<Reading>, line1: nat, line2: nat, prev: Previous)
    ensures
        agree(row(l, rd, line1, prev), row(l, rd, line2, prev)),
{
    lemma_optional_from_line(l, rd, line1, line2, 4);
}

proof fn lemma_rows_line(
    ls: Seq<Seq<char>>,
    rds: Seq<Seq<Reading>>,
    line1: nat,
    line2: nat,
    prev: Previous,
    acc: Seq<EntryModel>,
)
    ensures
        agree(rows(ls, rds, line1, prev, acc), rows(ls, rds, line2, prev, acc)),
    decreases ls.len(),
{
    if ls.len() > 0 {
        lemma_row_line(ls[0], rds[0], line1, line2, prev);
        match row(ls[0], rds[0], line1, prev) {
            Err(_) => {},
            Ok(None) => {
                lemma_rows_line(ls.drop_first(), rds.drop_first(), line1 + 1, line2 + 1, prev, acc);
            },
            Ok(Some((e, mjd))) => {
                lemma_rows_line(
                    ls.drop_first(),
                    rds.drop_first(),
                    line1 + 1,
                    line2 + 1,
                    Some((e.mjd, mjd)),
                    acc.push(e),
                );
            },
        }
    }
}

proof fn lemma_rows_skip(
    ls: Seq<Seq<char>>,
    rds: Seq<Seq<Reading>>,
    k: int,
    l: Seq<char>,
    rd: Seq<Reading>,
    line: nat,
    prev: Previous,
    acc: Seq<EntryModel>,
)
    requires
        0 <= k <= ls.len(),
        rds.len() == ls.len(),
        skipped_line(l, rd),
    ensures
        agree(rows(ls.insert(k, l), rds.insert(k, rd), line, prev, acc), rows(ls, rds, line, prev, acc)),
    decreases ls.len(),
{
    let ls2 = ls.insert(k, l);
    let rds2 = rds.insert(k, rd);
    if k == 0 {
        assert(ls2[0] == l && rds2[0] == rd);
        assert(row(l, rd, line, prev) == Ok::<Option<(EntryModel, FloatValue)>, EopError>(None));
        assert(ls2.drop_first() =~= ls);
        assert(rds2.drop_first() =~= rds);
        lemma_rows_line(ls, rds, line + 1, line, prev, acc);
    } else {
        assert(ls2[0] == ls[0] && rds2[0] == rds[0]);
        assert(ls2.drop_first() =~= ls.drop_first().insert(k - 1, l));
        assert(rds2.drop_first() =~= rds.drop_first().insert(k - 1, rd));
        match row(ls[0], rds[0], line, prev) {
            Err(_) => {},
            Ok(None) => {
                lemma_rows_skip(ls.drop_first(), rds.drop_first(), k - 1, l, rd, line + 1, prev, acc);
            },
            Ok(Some((e, mjd))) => {
                lemma_rows_skip(
                    ls.drop_first(),
                    rds.drop_first(),
                    k - 1,
                    l,
                    rd,
                    line + 1,
                    Some((e.mjd, mjd)),
                    acc.push(e),
                );
            },
        }
    }
}

/// A line the reader passes over, inserted anywhere, adds no entry and no
/// error: the parse succeeds exactly when it did, with the same entries.
pub proof fn law_a_skipped_line_changes_nothing(
    text: Seq<char>,
    text2: Seq<char>,
    rds: Seq<Seq<Reading>>,
    k: int,
    l: Seq<char>,
    rd: Seq<Reading>,
)
    requires
        rds.len() == lines(text).len(),
        0 <= k <= lines(text).len(),
        lines(text2) == lines(text).insert(k, l),
        skipped_line(l, rd),
    ensures
        agree(parse_text(text2, rds.insert(k, rd)), parse_text(text, rds)),
{
    lemma_rows_skip(lines(text), rds, k, l, rd, 1, None, seq![]);
}

/// Lines shorter than a row (headers, blanks), inserted anywhere, are
/// skipped silently: the parse succeeds exactly when it did, with the same
/// entries.
pub proof fn law_short_lines_are_skipped(
    text: Seq<char>,
    text2: Seq<char>,
    rds: Seq<Seq<Reading>>,
    k: int,
    l: Seq<char>,
    rd: Seq<Reading>,
)
    requires
        rds.len() == lines(text).len(),
        0 <= k <= lines(text).len(),
        lines(text2) == lines(text).insert(k, l),
        byte_len(l) < 68,
    ensures
        agree(parse_text(text2, rds.insert(k, rd)), parse_text(text, rds)),
{
    law_a_skipped_line_changes_nothing(text, text2, rds, k, l, rd);
}

/// A dated row of the padded tail, with a finite MJD but its required
/// Bulletin A columns blank, inserted anywhere, adds no entry, raises no
/// error (not even about its MJD's order) and leaves the MJD the next row
/// is compared with as it was.
pub proof fn law_a_blank_tail_row_is_skipped(
    text: Seq<char>,
    text2: Seq<char>,
    rds: Seq<Seq<Reading>>,
    k: int,
    l: Seq<char>,
    rd: Seq<Reading>,
)
    requires
        rds.len() == lines(text).len(),
        0 <= k <= lines(text).len(),
        lines(text2) == lines(text).insert(k, l),
        rd.len() > 0,
        rd[0] matches Reading::Number(f, _) && f.class.finite(),
        field(l, 1).len() == 0,
        field(l, 2).len() == 0,
        field(l, 3).len() == 0,
    ensures
        agree(parse_text(text2, rds.insert(k, rd)), parse_text(text, rds)),
{
    law_a_skipped_line_changes_nothing(text, text2, rds, k, l, rd);
}

/// The trimmed text of bytes `a..b` of `l`.
pub open spec fn text_at(l: Seq<char>, a: nat, b: nat) -> Seq<char> {
    trim(byte_slice(l, a, b))
}

/// Bytes `a..b` of `l` hold a value: the line reaches byte `b` and they are
/// not blank.
pub open spec fn holds(l: Seq<char>, a: nat, b: nat) -> bool {
    byte_len(l) >= b && text_at(l, a, b).len() > 0
}

/// An entry read from row `l`: the MJD of bytes 7..15; x pole, y pole and
/// UT1-UTC from Bulletin B (bytes 134..144, 144..154, 154..165) where it
/// holds them, else from Bulletin A (17..27, 36..46, 58..68); LOD from
/// Bulletin A (78..86) where it holds one; dX and dY from Bulletin B
/// (165..175, 175..185) where it holds them, else from Bulletin A (97..106,
/// 116..125) where that does, else none.
#[verifier::opaque]
pub open spec fn entry_from_line(e: EntryModel, l: Seq<char>) -> bool {
    &&& e.mjd == text_at(l, 7, 15)
    &&& e.xp == (if holds(l, 134, 144) {
        text_at(l, 134, 144)
    } else {
        text_at(l, 17, 27)
    })
    &&& e.yp == (if holds(l, 144, 154) {
        text_at(l, 144, 154)
    } else {
        text_at(l, 36, 46)
    })
    &&& e.dut1 == (if holds(l, 154, 165) {
        text_at(l, 154, 165)
    } else {
        text_at(l, 58, 68)
    })
    &&& e.lod == (if holds(l, 78, 86) {
        Some(text_at(l, 78, 86))
    } else {
        None
    })
    &&& e.dx == (if holds(l, 165, 175) {
        Some(text_at(l, 165, 175))
    } else if holds(l, 97, 106) {
        Some(text_at(l, 97, 106))
    } else {
        None
    })
    &&& e.dy == (if holds(l, 175, 185) {
        Some(text_at(l, 175, 185))
    } else if holds(l, 116, 125) {
        Some(text_at(l, 116, 125))
    } else {
        None
    })
}

proof fn lemma_optional_values(l: Seq<char>, rd: Seq<Reading>, line: nat, i: int)
    requires
        4 <= i <= 12,
    ensures
        optional_from(l, rd, line, i) matches Ok(v) ==> v.len() == 12 - i && forall|j: int|
            0 <= j < 12 - i ==> #[trigger] v[j] == (if reaches(l, i + j) && field(l, i + j).len()
                > 0 {
                Some(field(l, i + j))
            } else {
                None
            }),
    decreases 12 - i,
{
    if i < 12 {
        lemma_optional_values(l, rd, line, i + 1);
        if optional_from(l, rd, line, i) is Ok {
            let v = optional_from(l, rd, line, i)->Ok_0;
            let rest = optional_from(l, rd, line, i + 1)->Ok_0;
            assert forall|j: int| 0 <= j < 12 - i implies #[trigger] v[j] == (if reaches(l, i + j)
                && field(l, i + j).len() > 0 {
                Some(field(l, i + j))
            } else {
                None
            }) by {
                if j > 0 {
                    assert(v[j] == rest[j - 1]);
                }
            }
        }
    }
}

proof fn lemma_row_entry(l: Seq<char>, rd: Seq<Reading>, line: nat, prev: Previous)
    ensures
        row(l, rd, line, prev) matches Ok(Some((e, _))) ==> entry_from_line(e, l),
{
    lemma_optional_values(l, rd, line, 4);
    reveal(entry_from_line);
    if row(l, rd, line, prev) matches Ok(Some((e, _))) {
        let o = optional_columns(l, rd, line)->Ok_0;
        assert(o[0] == (if reaches(l, 4) && field(l, 4).len() > 0 {
            Some(field(l, 4))
        } else {
            None
        }));
        assert(o[1] == (if reaches(l, 5) && field(l, 5).len() > 0 {
            Some(field(l, 5))
        } else {
            None
        }));
        assert(o[2] == (if reaches(l, 6) && field(l, 6).len() > 0 {
            Some(field(l, 6))
        } else {
            None
        }));
        assert(o[3] == (if reaches(l, 7) && field(l, 7).len() > 0 {
            Some(field(l, 7))
        } else {
            None
        }));
        assert(o[4] == (if reaches(l, 8) && field(l, 8).len() > 0 {
            Some(field(l, 8))
        } else {
            None
        }));
        assert(o[5] == (if reaches(l, 9) && field(l, 9).len() > 0 {
            Some(field(l, 9))
        } else {
            None
        }));
        assert(o[6] == (if reaches(l, 10) && field(l, 10).len() > 0 {
            Some(field(l, 10))
        } else {
            None
        }));
        assert(o[7] == (if reaches(l, 11) && field(l, 11).len() > 0 {
            Some(field(l, 11))
        } else {
            None
        }));
    }
}

/// `es` extends `acc`, and the `k`-th entry past `acc` is read from line
/// `js[k]` of `ls`.
pub open spec fn read_from(es: Seq<EntryModel>, acc: Seq<EntryModel>, ls: Seq<Seq<char>>, js: Seq<int>) -> bool {
    &&& es.len() == acc.len() + js.len()
    &&& forall|k: int| 0 <= k < acc.len() ==> es[k] == acc[k]
    &&& forall|k: int|
        0 <= k < js.len() ==> 0 <= #[trigger] js[k] < ls.len() && entry_from_line(
            es[acc.len() + k],
            ls[js[k]],
        )
}

proof fn lemma_rows_entries(
    ls: Seq<Seq<char>>,
    rds: Seq<Seq<Reading>>,
    line: nat,
    prev: Previous,
    acc: Seq<EntryModel>,
) -> (js: Seq<int>)
    ensures
        rows(ls, rds, line, prev, acc) matches Ok(es) ==> read_from(es, acc, ls, js),
    decreases ls.len(),
{
    if ls.len() == 0 {
        return seq![];
    }
    lemma_row_entry(ls[0], rds[0], line, prev);
    let rest = ls.drop_first();
    match row(ls[0], rds[0], line, prev) {
        Err(_) => seq![],
        Ok(None) => {
            let js0 = lemma_rows_entries(rest, rds.drop_first(), line + 1, prev, acc);
            let js = js0.map_values(|j: int| j + 1);
            if rows(ls, rds, line, prev, acc) is Ok {
                let es = rows(ls, rds, line, prev, acc)->Ok_0;
                assert(read_from(es, acc, rest, js0));
                assert forall|k: int| 0 <= k < js.len() implies 0 <= #[trigger] js[k] < ls.len()
                    && entry_from_line(es[acc.len() + k], ls[js[k]]) by {
                    assert(js0[k] < rest.len());
                    assert(rest[js0[k]] == ls[js0[k] + 1]);
                }
            }
            js
        },
        Ok(Some((e, mjd))) => {
            let acc2 = acc.push(e);
            let js0 = lemma_rows_entries(rest, rds.drop_first(), line + 1, Some((e.mjd, mjd)), acc2);
            let js = seq![0int] + js0.map_values(|j: int| j + 1);
            if rows(ls, rds, line, prev, acc) is Ok {
                let es = rows(ls, rds, line, prev, acc)->Ok_0;
                assert(read_from(es, acc2, rest, js0));
                assert forall|k: int| 0 <= k < js.len() implies 0 <= #[trigger] js[k] < ls.len()
                    && entry_from_line(es[acc.len() + k], ls[js[k]]) by {
                    if k == 0 {
                        assert(es[acc.len() as int] == acc2[acc.len() as int]);
                    } else {
                        assert(js[k] == js0[k - 1] + 1);
                        assert(js0[k - 1] < rest.len());
                        assert(rest[js0[k - 1]] == ls[js0[k - 1] + 1]);
                        assert(acc.len() + k == acc2.len() + (k - 1));
                    }
                }
                assert forall|k: int| 0 <= k < acc.len() implies es[k] == acc[k] by {
                    assert(es[k] == acc2[k]);
                }
            }
            js
        },
    }
}

/// Every entry a parse gives is read from one of the text's lines,
/// Bulletin B preferred over Bulletin A column by column (see
/// [`entry_from_line`]).
pub proof fn law_entries_are_read_from_their_rows(text: Seq<char>, rds: Seq<Seq<Reading>>)
    ensures
        parse_text(text, rds) matches Ok(es) ==> exists|js: Seq<int>|
            js.len() == es.len() && forall|k: int|
                0 <= k < es.len() ==> 0 <= #[trigger] js[k] < lines(text).len() && entry_from_line(
                    es[k],
                    lines(text)[js[k]],
                ),
{
    let js = lemma_rows_entries(lines(text), rds, 1, None, seq![]);
    if parse_text(text, rds) is Ok {
        let es = parse_text(text, rds)->Ok_0;
        assert(read_from(es, seq![], lines(text), js));
        assert forall|k: int| 0 <= k < es.len() implies 0 <= #[trigger] js[k] < lines(text).len()
            && entry_from_line(es[k], lines(text)[js[k]]) by {
            assert(0 + k == k);
        }
    }
}

/// What [`Finals2000A::fields`] offers of a row for column `i`: its trimmed
/// text exactly when the line reaches the column's last byte (a line that
/// ends on it included), and nothing where the line stops inside it.
pub proof fn law_fields_are_the_columns_a_row_reaches(l: Seq<char>, i: int)
    requires
        0 <= i < COLUMNS,
        byte_len(l) >= 68,
        slice_ok(l, i),
    ensures
        line_fields(l)[i] == (if byte_len(l) >= column(i).1 {
            trim(byte_slice(l, column(i).0, column(i).1))
        } else {
            seq![]
        }),
{
}

} // verus!
