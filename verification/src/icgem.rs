//! ICGEM `.gfc` gravity-field files (static coefficients only).
//!
//! A file is a free-form header of `keyword value` lines ended by
//! `end_of_head`, followed by data records. The static record kind is
//!
//! ```text
//! gfc  n  m  C̄nm  S̄nm  [σC  σS]
//! ```
//!
//! and the time-variable kinds (`gfct`, `trnd`, `dot`, `asin`, `acos`) are
//! refused: their meaning depends on a reference epoch, so reading them as
//! static coefficients would fabricate a static model.
//!
//! Header lines are metadata and record lines are data: an unknown header
//! keyword is ignored, a known one declared twice is an error; an unknown
//! record kind is an error. Values the parser interprets (`norm`, `errors`,
//! `max_degree`, the two constants) must be present and valid; values it only
//! records (`tide_system`, `modelname`) accept anything. `product_type` is
//! checked when present.
//!
//! [`Parser`] takes one line at a time, so a caller can stop once
//! [`Parser::is_complete`] reports that every `(n, m)` with `n` up to the
//! requested degree has been read. Each line comes with the [`Reading`] of each
//! of its whitespace-separated tokens, which is how the numbers in it read as
//! binary64 values (a Fortran `D` exponent read as `e`).
use vstd::prelude::*;

use crate::reading::{FloatClass, FloatValue, Reading};
use crate::text::{
    char_rows, chars_of, decimal, ends_with, ends_with_word, find_white, first_white, is_word, lines,
    parse_index, parse_usize, push_decimal, push_str, split_lines, split_tokens, string_of, tokens,
    trim, trim_bounds,
};

verus! {

/// The highest degree a file may declare.
pub const MAX_DEGREE: usize = 2190;

/// Position of `(n, m)` in the triangular coefficient layout.
pub open spec fn tri(n: nat, m: nat) -> nat {
    n * (n + 1) / 2 + m
}

/// Number of `(n, m)` slots with `m <= n <= degree`.
pub open spec fn tri_size(degree: nat) -> nat {
    (degree + 1) * (degree + 2) / 2
}

proof fn lemma_tri_step(n: nat)
    ensures
        tri_size(n) == tri(n, 0) + n + 1,
        n > 0 ==> tri_size((n - 1) as nat) == tri(n, 0),
{
    let a = n * (n + 1);
    assert((n + 1) * (n + 2) == a + 2 * (n + 1)) by (nonlinear_arith)
        requires
            a == n * (n + 1),
    ;
    assert((a + 2 * (n + 1)) / 2 == a / 2 + (n + 1)) by (nonlinear_arith);
    if n > 0 {
        assert(((n - 1) as nat + 1) * ((n - 1) as nat + 2) == n * (n + 1)) by (nonlinear_arith)
            requires
                n > 0,
        ;
    }
}

/// Every `(n, m)` with `m <= n <= d` has a slot below `tri_size(d)`.
pub proof fn lemma_tri_in_range(n: nat, m: nat, d: nat)
    requires
        m <= n <= d,
    ensures
        tri(n, m) < tri_size(d),
        tri_size(n) <= tri_size(d),
{
    lemma_tri_step(n);
    assert((n + 1) * (n + 2) <= (d + 1) * (d + 2)) by (nonlinear_arith)
        requires
            n <= d,
    ;
}

proof fn lemma_tri_size_bound(d: nat)
    requires
        d <= MAX_DEGREE,
    ensures
        tri_size(d) <= 2_403_000,
{
    assert((d + 1) * (d + 2) <= 2191 * 2192) by (nonlinear_arith)
        requires
            d <= 2190,
    ;
}

/// Position of `(n, m)` in the triangular coefficient layout.
pub fn tri_index(n: usize, m: usize) -> (i: usize)
    requires
        m <= n <= MAX_DEGREE,
    ensures
        i == tri(n as nat, m as nat),
{
    proof {
        lemma_tri_in_range(n as nat, m as nat, MAX_DEGREE as nat);
        lemma_tri_size_bound(MAX_DEGREE as nat);
        assert(n * (n + 1) <= 2190 * 2191) by (nonlinear_arith)
            requires
                n <= 2190,
        ;
    }
    n * (n + 1) / 2 + m
}

/// Number of slots in the triangular layout up to `degree`.
pub fn tri_len(degree: usize) -> (l: usize)
    requires
        degree <= MAX_DEGREE,
    ensures
        l == tri_size(degree as nat),
{
    proof {
        assert((degree + 1) * (degree + 2) <= 2191 * 2192) by (nonlinear_arith)
            requires
                degree <= 2190,
        ;
    }
    (degree + 1) * (degree + 2) / 2
}

/// Permanent-tide convention of the C̄20 coefficient, as declared by the file.
///
/// Recorded, never converted between.
#[derive(Debug, Clone, Copy, PartialEq, Eq, Structural)]
pub enum TideSystem {
    /// Permanent tide removed entirely.
    TideFree,
    /// Direct permanent tide removed, indirect part kept.
    ZeroTide,
    /// Permanent tide fully included.
    MeanTide,
    /// `unknown`, a spelling this parser does not know, or no `tide_system`
    /// line.
    Unknown,
}

/// Why an ICGEM text could not be parsed.
#[derive(Debug, Clone, PartialEq)]
pub enum IcgemParseError {
    /// `end_of_head` never appeared.
    MissingEndOfHead,
    /// A required header keyword is absent.
    MissingHeader(&'static str),
    /// A header keyword the parser uses appeared twice.
    DuplicateHeader(&'static str),
    /// A header value did not parse, or is out of range (`keyword`, what
    /// was wrong with it): a value that is not a number as written, a
    /// constant that is not finite and positive as its value is written
    /// back.
    InvalidHeader(&'static str, String),
    /// `product_type` was present but not `gravity_field`.
    NotAGravityField(String),
    /// `norm` was something other than `fully_normalized`.
    UnsupportedNormalization(String),
    /// The caller asked for a degree above the file's `max_degree`.
    DegreeUnavailable { requested: usize, available: usize },
    /// A time-variable record kind.
    TimeVariableUnsupported { line: usize, kind: String },
    /// A data record kind this parser does not know.
    UnknownRecord { line: usize, kind: String },
    /// A `gfc` record with the wrong number of columns or an unparsable field.
    MalformedRecord { line: usize, reason: String },
    /// `n > max_degree` or `m > n`.
    IndexOutOfRange { line: usize, degree: usize, order: usize },
    /// The same `(n, m)` appeared twice.
    DuplicateCoefficient { line: usize, degree: usize, order: usize },
    /// A coefficient value was NaN or infinite.
    NonFiniteCoefficient { line: usize, degree: usize, order: usize },
    /// `C̄00` was present and not 1; the value, as it is written back.
    UnexpectedC00(String),
    /// A degree-1 coefficient was non-zero.
    NonZeroDegreeOne { degree: usize, order: usize },
    /// A coefficient with `2 <= n <= max_degree` never appeared.
    MissingCoefficient { degree: usize, order: usize },
}

/// [`IcgemParseError`] with its text as characters.
pub enum IcgemError {
    MissingEndOfHead,
    MissingHeader(Seq<char>),
    DuplicateHeader(Seq<char>),
    InvalidHeader(Seq<char>, Seq<char>),
    NotAGravityField(Seq<char>),
    UnsupportedNormalization(Seq<char>),
    DegreeUnavailable { requested: nat, available: nat },
    TimeVariableUnsupported { line: nat, kind: Seq<char> },
    UnknownRecord { line: nat, kind: Seq<char> },
    MalformedRecord { line: nat, reason: Seq<char> },
    IndexOutOfRange { line: nat, degree: nat, order: nat },
    DuplicateCoefficient { line: nat, degree: nat, order: nat },
    NonFiniteCoefficient { line: nat, degree: nat, order: nat },
    UnexpectedC00(Seq<char>),
    NonZeroDegreeOne { degree: nat, order: nat },
    MissingCoefficient { degree: nat, order: nat },
}

impl View for IcgemParseError {
    type V = IcgemError;

    open spec fn view(&self) -> IcgemError {
        match self {
            IcgemParseError::MissingEndOfHead => IcgemError::MissingEndOfHead,
            IcgemParseError::MissingHeader(k) => IcgemError::MissingHeader(k@),
            IcgemParseError::DuplicateHeader(k) => IcgemError::DuplicateHeader(k@),
            IcgemParseError::InvalidHeader(k, v) => IcgemError::InvalidHeader(k@, v@),
            IcgemParseError::NotAGravityField(v) => IcgemError::NotAGravityField(v@),
            IcgemParseError::UnsupportedNormalization(v) => IcgemError::UnsupportedNormalization(
                v@,
            ),
            IcgemParseError::DegreeUnavailable { requested, available } =>
                IcgemError::DegreeUnavailable {
                requested: *requested as nat,
                available: *available as nat,
            },
            IcgemParseError::TimeVariableUnsupported { line, kind } =>
                IcgemError::TimeVariableUnsupported { line: *line as nat, kind: kind@ },
            IcgemParseError::UnknownRecord { line, kind } => IcgemError::UnknownRecord {
                line: *line as nat,
                kind: kind@,
            },
            IcgemParseError::MalformedRecord { line, reason } => IcgemError::MalformedRecord {
                line: *line as nat,
                reason: reason@,
            },
            IcgemParseError::IndexOutOfRange { line, degree, order } =>
                IcgemError::IndexOutOfRange {
                line: *line as nat,
                degree: *degree as nat,
                order: *order as nat,
            },
            IcgemParseError::DuplicateCoefficient { line, degree, order } =>
                IcgemError::DuplicateCoefficient {
                line: *line as nat,
                degree: *degree as nat,
                order: *order as nat,
            },
            IcgemParseError::NonFiniteCoefficient { line, degree, order } =>
                IcgemError::NonFiniteCoefficient {
                line: *line as nat,
                degree: *degree as nat,
                order: *order as nat,
            },
            IcgemParseError::UnexpectedC00(v) => IcgemError::UnexpectedC00(v@),
            IcgemParseError::NonZeroDegreeOne { degree, order } => IcgemError::NonZeroDegreeOne {
                degree: *degree as nat,
                order: *order as nat,
            },
            IcgemParseError::MissingCoefficient { degree, order } =>
                IcgemError::MissingCoefficient { degree: *degree as nat, order: *order as nat },
        }
    }
}

/// The message an error reads as.
pub open spec fn error_message(e: IcgemError) -> Seq<char> {
    match e {
        IcgemError::MissingEndOfHead => "ICGEM: no `end_of_head` line"@,
        IcgemError::MissingHeader(k) => "ICGEM: missing header `"@ + k + "`"@,
        IcgemError::DuplicateHeader(k) => "ICGEM: header `"@ + k + "` declared twice"@,
        IcgemError::InvalidHeader(k, v) => "ICGEM: header `"@ + k + "` has invalid value `"@ + v
            + "`"@,
        IcgemError::NotAGravityField(v) => "ICGEM: product_type is `"@ + v
            + "`, expected `gravity_field`"@,
        IcgemError::UnsupportedNormalization(v) => "ICGEM: norm `"@ + v
            + "` unsupported (only `fully_normalized`)"@,
        IcgemError::DegreeUnavailable { requested, available } => "ICGEM: degree "@ + decimal(
            requested,
        ) + " requested, but the file carries max_degree "@ + decimal(available),
        IcgemError::TimeVariableUnsupported { line, kind } => "ICGEM line "@ + decimal(line)
            + ": time-variable record `"@ + kind + "` unsupported (static `gfc` only)"@,
        IcgemError::UnknownRecord { line, kind } => "ICGEM line "@ + decimal(line)
            + ": unknown record kind `"@ + kind + "`"@,
        IcgemError::MalformedRecord { line, reason } => "ICGEM line "@ + decimal(line)
            + ": malformed record: "@ + reason,
        IcgemError::IndexOutOfRange { line, degree, order } => "ICGEM line "@ + decimal(line)
            + ": (n="@ + decimal(degree) + ", m="@ + decimal(order)
            + ") outside max_degree / m ≤ n"@,
        IcgemError::DuplicateCoefficient { line, degree, order } => "ICGEM line "@ + decimal(line)
            + ": duplicate coefficient (n="@ + decimal(degree) + ", m="@ + decimal(order) + ")"@,
        IcgemError::NonFiniteCoefficient { line, degree, order } => "ICGEM line "@ + decimal(line)
            + ": non-finite coefficient (n="@ + decimal(degree) + ", m="@ + decimal(order) + ")"@,
        IcgemError::UnexpectedC00(v) => "ICGEM: C00 = "@ + v + ", expected 1"@,
        IcgemError::NonZeroDegreeOne { degree, order } => "ICGEM: non-zero degree-1 coefficient (n="@
            + decimal(degree) + ", m="@ + decimal(order)
            + ") — origin offsets are not modelled"@,
        IcgemError::MissingCoefficient { degree, order } => "ICGEM: coefficient (n="@ + decimal(
            degree,
        ) + ", m="@ + decimal(order) + ") missing"@,
    }
}

impl IcgemParseError {
    /// The message this error reads as: what the error says, with the line
    /// it came from where there is one.
    pub fn message(&self) -> (m: String)
        ensures
            m@ == error_message(self@),
    {
        let mut m = String::new();
        match self {
            IcgemParseError::MissingEndOfHead => {
                push_str(&mut m, "ICGEM: no `end_of_head` line");
            },
            IcgemParseError::MissingHeader(k) => {
                push_str(&mut m, "ICGEM: missing header `");
                push_str(&mut m, k);
                push_str(&mut m, "`");
            },
            IcgemParseError::DuplicateHeader(k) => {
                push_str(&mut m, "ICGEM: header `");
                push_str(&mut m, k);
                push_str(&mut m, "` declared twice");
            },
            IcgemParseError::InvalidHeader(k, v) => {
                push_str(&mut m, "ICGEM: header `");
                push_str(&mut m, k);
                push_str(&mut m, "` has invalid value `");
                push_str(&mut m, v.as_str());
                push_str(&mut m, "`");
            },
            IcgemParseError::NotAGravityField(v) => {
                push_str(&mut m, "ICGEM: product_type is `");
                push_str(&mut m, v.as_str());
                push_str(&mut m, "`, expected `gravity_field`");
            },
            IcgemParseError::UnsupportedNormalization(v) => {
                push_str(&mut m, "ICGEM: norm `");
                push_str(&mut m, v.as_str());
                push_str(&mut m, "` unsupported (only `fully_normalized`)");
            },
            IcgemParseError::DegreeUnavailable { requested, available } => {
                push_str(&mut m, "ICGEM: degree ");
                push_decimal(&mut m, *requested);
                push_str(&mut m, " requested, but the file carries max_degree ");
                push_decimal(&mut m, *available);
            },
            IcgemParseError::TimeVariableUnsupported { line, kind } => {
                push_str(&mut m, "ICGEM line ");
                push_decimal(&mut m, *line);
                push_str(&mut m, ": time-variable record `");
                push_str(&mut m, kind.as_str());
                push_str(&mut m, "` unsupported (static `gfc` only)");
            },
            IcgemParseError::UnknownRecord { line, kind } => {
                push_str(&mut m, "ICGEM line ");
                push_decimal(&mut m, *line);
                push_str(&mut m, ": unknown record kind `");
                push_str(&mut m, kind.as_str());
                push_str(&mut m, "`");
            },
            IcgemParseError::MalformedRecord { line, reason } => {
                push_str(&mut m, "ICGEM line ");
                push_decimal(&mut m, *line);
                push_str(&mut m, ": malformed record: ");
                push_str(&mut m, reason.as_str());
            },
            IcgemParseError::IndexOutOfRange { line, degree, order } => {
                push_str(&mut m, "ICGEM line ");
                push_decimal(&mut m, *line);
                push_str(&mut m, ": (n=");
                push_decimal(&mut m, *degree);
                push_str(&mut m, ", m=");
                push_decimal(&mut m, *order);
                push_str(&mut m, ") outside max_degree / m ≤ n");
            },
            IcgemParseError::DuplicateCoefficient { line, degree, order } => {
                push_str(&mut m, "ICGEM line ");
                push_decimal(&mut m, *line);
                push_str(&mut m, ": duplicate coefficient (n=");
                push_decimal(&mut m, *degree);
                push_str(&mut m, ", m=");
                push_decimal(&mut m, *order);
                push_str(&mut m, ")");
            },
            IcgemParseError::NonFiniteCoefficient { line, degree, order } => {
                push_str(&mut m, "ICGEM line ");
                push_decimal(&mut m, *line);
                push_str(&mut m, ": non-finite coefficient (n=");
                push_decimal(&mut m, *degree);
                push_str(&mut m, ", m=");
                push_decimal(&mut m, *order);
                push_str(&mut m, ")");
            },
            IcgemParseError::UnexpectedC00(v) => {
                push_str(&mut m, "ICGEM: C00 = ");
                push_str(&mut m, v.as_str());
                push_str(&mut m, ", expected 1");
            },
            IcgemParseError::NonZeroDegreeOne { degree, order } => {
                push_str(&mut m, "ICGEM: non-zero degree-1 coefficient (n=");
                push_decimal(&mut m, *degree);
                push_str(&mut m, ", m=");
                push_decimal(&mut m, *order);
                push_str(&mut m, ") — origin offsets are not modelled");
            },
            IcgemParseError::MissingCoefficient { degree, order } => {
                push_str(&mut m, "ICGEM: coefficient (n=");
                push_decimal(&mut m, *degree);
                push_str(&mut m, ", m=");
                push_decimal(&mut m, *order);
                push_str(&mut m, ") missing");
            },
        }
        proof {
            assert(m@ =~= error_message(self@));
        }
        m
    }
}

/// A coefficient as a parse hands it over.
#[derive(Debug, Clone, PartialEq)]
pub enum Coefficient {
    /// Exactly zero: a degree-0 or degree-1 slot the file left out.
    Zero,
    /// Exactly one: C̄00, whatever the file spelled.
    One,
    /// The value as written in the file.
    Written(String),
}

impl View for Coefficient {
    type V = CoefficientModel;

    open spec fn view(&self) -> CoefficientModel {
        match self {
            Coefficient::Zero => CoefficientModel::Zero,
            Coefficient::One => CoefficientModel::One,
            Coefficient::Written(t) => CoefficientModel::Written(t@),
        }
    }
}

/// Parsed contents of a static ICGEM file, cut at the requested degree.
#[derive(Debug, Clone, PartialEq)]
pub struct ParsedIcgem {
    /// The gravity constant as written (m³/s²).
    pub gm: String,
    /// The reference radius as written (m).
    pub radius: String,
    /// The highest degree carried: the caller's cap, or the file's
    /// `max_degree` when no cap was given.
    pub max_degree: usize,
    pub tide_system: TideSystem,
    pub model_name: Option<String>,
    /// C̄nm at [`tri_index`]`(n, m)`, `n <= max_degree`.
    pub c: Vec<Coefficient>,
    /// S̄nm, same layout.
    pub s: Vec<Coefficient>,
}

impl View for ParsedIcgem {
    type V = ParsedModel;

    open spec fn view(&self) -> ParsedModel {
        ParsedModel {
            gm: self.gm@,
            radius: self.radius@,
            max_degree: self.max_degree as nat,
            tide_system: self.tide_system,
            model_name: match self.model_name {
                Some(n) => Some(n@),
                None => None,
            },
            c: self.c@.map_values(|x: Coefficient| x@),
            s: self.s@.map_values(|x: Coefficient| x@),
        }
    }
}

// ---------------------------------------------------------------------------
// The model: what the parser holds, as characters and numbers.
/// A number declared in the header: the text as written, how it reads, and
/// how its value is written back.
pub type Declared = (Seq<char>, FloatValue, Seq<char>);

/// Header values collected before `end_of_head`.
pub struct HeaderModel {
    pub product_type: Option<Seq<char>>,
    pub gm: Option<Declared>,
    pub radius: Option<Declared>,
    pub max_degree: Option<usize>,
    pub norm: Option<Seq<char>>,
    pub errors: Option<Seq<char>>,
    pub tide_system: Option<TideSystem>,
    pub model_name: Option<Seq<char>>,
}

/// The header resolved at `end_of_head`, and what the records so far filled.
pub struct RecordsModel {
    pub gm: Declared,
    pub radius: Declared,
    /// The file's own `max_degree`.
    pub file_max_degree: nat,
    /// The degree the caller asked for.
    pub cap: nat,
    pub tide_system: TideSystem,
    pub model_name: Option<Seq<char>>,
    /// Number of σ columns each record carries.
    pub error_columns: nat,
    /// What `errors` said, for the column-count message.
    pub errors_declared: Seq<char>,
    /// Which `(n, m)` slots up to the cap have been read.
    pub seen: Seq<bool>,
    /// Which read slots hold a non-zero C̄ or S̄.
    pub nonzero: Seq<bool>,
    /// The C̄ text each read slot holds.
    pub c: Seq<Option<Seq<char>>>,
    /// The S̄ text each read slot holds.
    pub s: Seq<Option<Seq<char>>>,
    /// How the C̄00 value is written back, and whether it reads within `1e-9`
    /// of one.
    pub c00: Option<(Seq<char>, bool)>,
    /// How many slots have been read.
    pub slots_seen: nat,
}

/// Where a parser is: still in the header, or reading records.
pub enum StateModel {
    Header(HeaderModel),
    Records(RecordsModel),
}

/// What a parser holds: where it is, how many lines it has read, and the
/// degree the caller asked for.
pub struct ParserModel {
    pub state: StateModel,
    pub line_no: nat,
    pub requested: Option<usize>,
}

/// A coefficient as the parse hands it over.
pub enum CoefficientModel {
    /// Exactly zero: a degree-0 or degree-1 slot the file left out.
    Zero,
    /// Exactly one: C̄00, whatever the file spelled.
    One,
    /// The value as written in the file.
    Written(Seq<char>),
}

/// What a successful parse hands over.
pub struct ParsedModel {
    /// The gravity constant as written (m³/s²).
    pub gm: Seq<char>,
    /// The reference radius as written (m).
    pub radius: Seq<char>,
    pub max_degree: nat,
    pub tide_system: TideSystem,
    pub model_name: Option<Seq<char>>,
    /// C̄nm at [`tri`]`(n, m)`, `n <= max_degree`.
    pub c: Seq<CoefficientModel>,
    /// S̄nm, same layout.
    pub s: Seq<CoefficientModel>,
}

/// A header with nothing declared yet.
pub open spec fn empty_header() -> HeaderModel {
    HeaderModel {
        product_type: None,
        gm: None,
        radius: None,
        max_degree: None,
        norm: None,
        errors: None,
        tide_system: None,
        model_name: None,
    }
}

/// The value after a header keyword, if the line has one.
pub open spec fn value_token(toks: Seq<Seq<char>>) -> Option<Seq<char>> {
    if toks.len() > 1 {
        Some(toks[1])
    } else {
        None
    }
}

/// How a `tide_system` value is recorded.
pub open spec fn tide_of(value: Option<Seq<char>>) -> TideSystem {
    match value {
        Some(v) => if v == "tide_free"@ {
            TideSystem::TideFree
        } else if v == "zero_tide"@ {
            TideSystem::ZeroTide
        } else if v == "mean_tide"@ {
            TideSystem::MeanTide
        } else {
            TideSystem::Unknown
        },
        None => TideSystem::Unknown,
    }
}

/// The model name a `modelname` line declares: everything after the first
/// whitespace character of the line, trimmed, if that is not empty.
pub open spec fn model_name_of(line: Seq<char>) -> Option<Seq<char>> {
    match first_white(line) {
        Some(k) => {
            let name = trim(line.subrange(k + 1 as int, line.len() as int));
            if name.len() > 0 {
                Some(name)
            } else {
                None
            }
        },
        None => None,
    }
}

/// A number declared after a header keyword: the value must be there and
/// must be a number.
pub open spec fn declared_number(
    key: Seq<char>,
    value: Option<Seq<char>>,
    reading: Reading,
) -> Result<Declared, IcgemError> {
    match value {
        None => Err(IcgemError::MissingHeader(key)),
        Some(v) => match reading {
            Reading::NotANumber => Err(IcgemError::InvalidHeader(key, v)),
            Reading::Number(f, shown) => Ok((v, f, shown@)),
        },
    }
}

/// What one header line does. `Ok(Err(records))` is `end_of_head`, with the
/// header resolved.
pub open spec fn header_step(
    h: HeaderModel,
    line: Seq<char>,
    rd: Seq<Reading>,
    requested: Option<usize>,
) -> Result<Result<HeaderModel, RecordsModel>, IcgemError> {
    let toks = tokens(line);
    if toks.len() == 0 {
        Ok(Ok(h))
    } else {
        let key = toks[0];
        let value = value_token(toks);
        if key == "end_of_head"@ {
            match resolve(h, requested) {
                Ok(r) => Ok(Err(r)),
                Err(e) => Err(e),
            }
        } else if key == "product_type"@ {
            match value {
                None => Err(IcgemError::MissingHeader("product_type"@)),
                Some(v) => if h.product_type is Some {
                    Err(IcgemError::DuplicateHeader("product_type"@))
                } else {
                    Ok(Ok(HeaderModel { product_type: Some(v), ..h }))
                },
            }
        } else if key == "modelname"@ {
            match model_name_of(line) {
                None => Ok(Ok(h)),
                Some(name) => if h.model_name is Some {
                    Err(IcgemError::DuplicateHeader("modelname"@))
                } else {
                    Ok(Ok(HeaderModel { model_name: Some(name), ..h }))
                },
            }
        } else if key == "radius"@ {
            match declared_number("radius"@, value, rd[1]) {
                Err(e) => Err(e),
                Ok(d) => if h.radius is Some {
                    Err(IcgemError::DuplicateHeader("radius"@))
                } else {
                    Ok(Ok(HeaderModel { radius: Some(d), ..h }))
                },
            }
        } else if key == "max_degree"@ {
            match value {
                None => Err(IcgemError::MissingHeader("max_degree"@)),
                Some(v) => match parse_usize(v) {
                    None => Err(IcgemError::InvalidHeader("max_degree"@, v)),
                    Some(d) => if h.max_degree is Some {
                        Err(IcgemError::DuplicateHeader("max_degree"@))
                    } else {
                        Ok(Ok(HeaderModel { max_degree: Some(d), ..h }))
                    },
                },
            }
        } else if key == "norm"@ {
            match value {
                None => Err(IcgemError::MissingHeader("norm"@)),
                Some(v) => if h.norm is Some {
                    Err(IcgemError::DuplicateHeader("norm"@))
                } else {
                    Ok(Ok(HeaderModel { norm: Some(v), ..h }))
                },
            }
        } else if key == "errors"@ {
            match value {
                None => Err(IcgemError::MissingHeader("errors"@)),
                Some(v) => if h.errors is Some {
                    Err(IcgemError::DuplicateHeader("errors"@))
                } else {
                    Ok(Ok(HeaderModel { errors: Some(v), ..h }))
                },
            }
        } else if key == "tide_system"@ {
            if h.tide_system is Some {
                Err(IcgemError::DuplicateHeader("tide_system"@))
            } else {
                Ok(Ok(HeaderModel { tide_system: Some(tide_of(value)), ..h }))
            }
        } else if ends_with(key, "gravity_constant"@) {
            match declared_number("earth_gravity_constant"@, value, rd[1]) {
                Err(e) => Err(e),
                Ok(d) => if h.gm is Some {
                    Err(IcgemError::DuplicateHeader("earth_gravity_constant"@))
                } else {
                    Ok(Ok(HeaderModel { gm: Some(d), ..h }))
                },
            }
        } else {
            Ok(Ok(h))
        }
    }
}

/// The σ columns an `errors` declaration implies, and how the column-count
/// message names it; `None` for a declaration this parser does not know.
pub open spec fn error_columns_of(errors: Option<Seq<char>>) -> Option<(nat, Seq<char>)> {
    match errors {
        None => Some((0, "no (absent)"@)),
        Some(v) => if v == "no"@ {
            Some((0, "no"@))
        } else if v == "calibrated"@ || v == "formal"@ {
            Some((2, v))
        } else if v == "calibrated_and_formal"@ {
            Some((4, v))
        } else {
            None
        },
    }
}

/// The message for a `max_degree` above [`MAX_DEGREE`].
pub open spec fn limit_message(d: nat) -> Seq<char> {
    decimal(d) + " (limit "@ + decimal(MAX_DEGREE as nat) + ")"@
}

/// The header checked at `end_of_head`, with the records to fill sized for
/// the degree the caller gets.
pub open spec fn resolve(h: HeaderModel, requested: Option<usize>) -> Result<
    RecordsModel,
    IcgemError,
> {
    if h.product_type is Some && h.product_type->0 != "gravity_field"@ {
        Err(IcgemError::NotAGravityField(h.product_type->0))
    } else if h.norm is None {
        Err(IcgemError::MissingHeader("norm"@))
    } else if h.norm->0 != "fully_normalized"@ {
        Err(IcgemError::UnsupportedNormalization(h.norm->0))
    } else if error_columns_of(h.errors) is None {
        Err(IcgemError::InvalidHeader("errors"@, h.errors->0))
    } else if h.gm is None {
        Err(IcgemError::MissingHeader("earth_gravity_constant"@))
    } else if h.radius is None {
        Err(IcgemError::MissingHeader("radius"@))
    } else if h.max_degree is None {
        Err(IcgemError::MissingHeader("max_degree"@))
    } else if h.max_degree->0 > MAX_DEGREE {
        Err(IcgemError::InvalidHeader("max_degree"@, limit_message(h.max_degree->0 as nat)))
    } else if h.gm.unwrap().1.class != FloatClass::Positive {
        Err(IcgemError::InvalidHeader("earth_gravity_constant"@, h.gm.unwrap().2))
    } else if h.radius.unwrap().1.class != FloatClass::Positive {
        Err(IcgemError::InvalidHeader("radius"@, h.radius.unwrap().2))
    } else if requested is Some && requested->0 > h.max_degree->0 {
        Err(
            IcgemError::DegreeUnavailable {
                requested: requested->0 as nat,
                available: h.max_degree->0 as nat,
            },
        )
    } else {
        let cap: nat = match requested {
            Some(d) => d as nat,
            None => h.max_degree->0 as nat,
        };
        let (columns, declared) = error_columns_of(h.errors)->0;
        Ok(
            RecordsModel {
                gm: h.gm->0,
                radius: h.radius->0,
                file_max_degree: h.max_degree->0 as nat,
                cap,
                tide_system: match h.tide_system {
                    Some(t) => t,
                    None => TideSystem::Unknown,
                },
                model_name: h.model_name,
                error_columns: columns,
                errors_declared: declared,
                seen: Seq::new(tri_size(cap), |i: int| false),
                nonzero: Seq::new(tri_size(cap), |i: int| false),
                c: Seq::new(tri_size(cap), |i: int| None),
                s: Seq::new(tri_size(cap), |i: int| None),
                c00: None,
                slots_seen: 0,
            },
        )
    }
}

/// The record kinds whose meaning depends on an epoch.
pub open spec fn is_time_variable(kind: Seq<char>) -> bool {
    kind == "gfct"@ || kind == "trnd"@ || kind == "dot"@ || kind == "asin"@ || kind == "acos"@
}

/// How the σ columns read in the column-count message.
pub open spec fn sigma_columns(error_columns: nat) -> Seq<char> {
    if error_columns == 0 {
        ""@
    } else if error_columns == 2 {
        ", σC, σS"@
    } else {
        ", σC, σS, σC, σS"@
    }
}

/// The message for a `gfc` record with the wrong number of columns.
pub open spec fn column_count_message(
    expected: nat,
    error_columns: nat,
    declared: Seq<char>,
    found: nat,
) -> Seq<char> {
    "expected "@ + decimal(expected) + " columns after `gfc` (n, m, C, S"@ + sigma_columns(
        error_columns,
    ) + "; the header declares `errors "@ + declared + "`), found "@ + decimal(found)
}

/// The message for a field that does not read: `what` then the field in
/// backticks then `complaint`.
pub open spec fn field_message(what: Seq<char>, field: Seq<char>, complaint: Seq<char>) -> Seq<
    char,
> {
    what + " `"@ + field + "` "@ + complaint
}

/// What one record line does: the records after it, and the slot it filled.
pub open spec fn record_step(
    r: RecordsModel,
    toks: Seq<Seq<char>>,
    rd: Seq<Reading>,
    line_no: nat,
) -> Result<(RecordsModel, Option<nat>), IcgemError> {
    if toks.len() == 0 {
        Ok((r, None))
    } else {
        let kind = toks[0];
        let fields = toks.subrange(1, toks.len() as int);
        let expected = 4 + r.error_columns;
        if kind != "gfc"@ && is_time_variable(kind) {
            Err(IcgemError::TimeVariableUnsupported { line: line_no, kind })
        } else if kind != "gfc"@ {
            Err(IcgemError::UnknownRecord { line: line_no, kind })
        } else if fields.len() != expected {
            Err(
                IcgemError::MalformedRecord {
                    line: line_no,
                    reason: column_count_message(
                        expected,
                        r.error_columns,
                        r.errors_declared,
                        fields.len(),
                    ),
                },
            )
        } else if parse_usize(fields[0]) is None {
            Err(
                IcgemError::MalformedRecord {
                    line: line_no,
                    reason: field_message("degree"@, fields[0], "is not an integer"@),
                },
            )
        } else if parse_usize(fields[1]) is None {
            Err(
                IcgemError::MalformedRecord {
                    line: line_no,
                    reason: field_message("order"@, fields[1], "is not an integer"@),
                },
            )
        } else {
            let n = parse_usize(fields[0])->0 as nat;
            let m = parse_usize(fields[1])->0 as nat;
            if n > r.file_max_degree || m > n {
                Err(IcgemError::IndexOutOfRange { line: line_no, degree: n, order: m })
            } else if n > r.cap {
                Ok((r, None))
            } else if rd[3] is NotANumber {
                Err(
                    IcgemError::MalformedRecord {
                        line: line_no,
                        reason: field_message("C"@, fields[2], "is not a number"@),
                    },
                )
            } else if rd[4] is NotANumber {
                Err(
                    IcgemError::MalformedRecord {
                        line: line_no,
                        reason: field_message("S"@, fields[3], "is not a number"@),
                    },
                )
            } else {
                let c = rd[3]->0;
                let s = rd[4]->0;
                let i = tri(n, m);
                if !(c.class.finite() && s.class.finite()) {
                    Err(IcgemError::NonFiniteCoefficient { line: line_no, degree: n, order: m })
                } else if r.seen[i as int] {
                    Err(IcgemError::DuplicateCoefficient { line: line_no, degree: n, order: m })
                } else {
                    Ok(
                        (
                            RecordsModel {
                                seen: r.seen.update(i as int, true),
                                nonzero: r.nonzero.update(
                                    i as int,
                                    !(c.class == FloatClass::Zero && s.class == FloatClass::Zero),
                                ),
                                c: r.c.update(i as int, Some(fields[2])),
                                s: r.s.update(i as int, Some(fields[3])),
                                c00: if i == 0 {
                                    Some((rd[3]->1@, c.unit))
                                } else {
                                    r.c00
                                },
                                slots_seen: r.slots_seen + 1,
                                ..r
                            },
                            Some(i),
                        ),
                    )
                }
            }
        }
    }
}

/// What feeding one line does to a parser: the parser after it, and the
/// slot the line filled or the error it raised. A line that raises an error
/// changes nothing but the line count.
pub open spec fn feed(p: ParserModel, line: Seq<char>, rd: Seq<Reading>) -> (
    ParserModel,
    Result<Option<nat>, IcgemError>,
) {
    let line_no = p.line_no + 1;
    match p.state {
        StateModel::Header(h) => match header_step(h, line, rd, p.requested) {
            Err(e) => (ParserModel { line_no, ..p }, Err(e)),
            Ok(Ok(h2)) => (ParserModel { state: StateModel::Header(h2), line_no, ..p }, Ok(None)),
            Ok(Err(r)) => (
                ParserModel { state: StateModel::Records(r), line_no, ..p },
                Ok(None),
            ),
        },
        StateModel::Records(r) => match record_step(r, tokens(line), rd, line_no) {
            Err(e) => (ParserModel { line_no, ..p }, Err(e)),
            Ok((r2, slot)) => (
                ParserModel { state: StateModel::Records(r2), line_no, ..p },
                Ok(slot),
            ),
        },
    }
}

/// Whether every slot up to the cap has been read.
pub open spec fn complete(p: ParserModel) -> bool {
    match p.state {
        StateModel::Header(_) => false,
        StateModel::Records(r) => forall|i: int| 0 <= i < r.seen.len() ==> #[trigger] r.seen[i],
    }
}

/// `(n, m)` is the first slot with `2 <= n <= cap`, in file order, that was
/// never read.
pub open spec fn is_first_missing(seen: Seq<bool>, cap: nat, n: nat, m: nat) -> bool {
    &&& 2 <= n <= cap
    &&& m <= n
    &&& !seen[tri(n, m) as int]
    &&& forall|n2: nat, m2: nat|
        2 <= n2 <= cap && m2 <= n2 && (n2 < n || (n2 == n && m2 < m)) ==> #[trigger] seen[tri(
            n2,
            m2,
        ) as int]
}

/// How a slot the file may have left out is handed over.
pub open spec fn coefficient_of(t: Option<Seq<char>>) -> CoefficientModel {
    match t {
        Some(v) => CoefficientModel::Written(v),
        None => CoefficientModel::Zero,
    }
}

/// The checks that need the whole set, and what a parse hands over.
pub open spec fn finish(p: ParserModel) -> Result<ParsedModel, IcgemError> {
    match p.state {
        StateModel::Header(_) => Err(IcgemError::MissingEndOfHead),
        StateModel::Records(r) => if r.c00 is Some && !r.c00.unwrap().1 {
            Err(IcgemError::UnexpectedC00(r.c00.unwrap().0))
        } else if r.cap >= 1 && r.nonzero[1] {
            Err(IcgemError::NonZeroDegreeOne { degree: 1, order: 0 })
        } else if r.cap >= 1 && r.nonzero[2] {
            Err(IcgemError::NonZeroDegreeOne { degree: 1, order: 1 })
        } else if exists|n: nat, m: nat| is_first_missing(r.seen, r.cap, n, m) {
            let (n, m) = choose|n: nat, m: nat| is_first_missing(r.seen, r.cap, n, m);
            Err(IcgemError::MissingCoefficient { degree: n, order: m })
        } else {
            Ok(
                ParsedModel {
                    gm: r.gm.0,
                    radius: r.radius.0,
                    max_degree: r.cap,
                    tide_system: r.tide_system,
                    model_name: r.model_name,
                    c: Seq::new(
                        r.c.len(),
                        |i: int|
                            if i == 0 {
                                CoefficientModel::One
                            } else {
                                coefficient_of(r.c[i])
                            },
                    ),
                    s: Seq::new(r.s.len(), |i: int| coefficient_of(r.s[i])),
                },
            )
        },
    }
}

// ---------------------------------------------------------------------------
// The parser.
/// The header values declared so far.
struct Header {
    product_type: Option<Vec<char>>,
    gm: Option<(Vec<char>, FloatValue, String)>,
    radius: Option<(Vec<char>, FloatValue, String)>,
    max_degree: Option<usize>,
    norm: Option<Vec<char>>,
    errors: Option<Vec<char>>,
    tide_system: Option<TideSystem>,
    model_name: Option<Vec<char>>,
}

/// The characters of an optional declared number.
pub open spec fn declared_view(d: Option<(Vec<char>, FloatValue, String)>) -> Option<Declared> {
    match d {
        Some((t, f, shown)) => Some((t@, f, shown@)),
        None => None,
    }
}

/// The characters of an optional text.
pub open spec fn chars_view(v: Option<Vec<char>>) -> Option<Seq<char>> {
    match v {
        Some(t) => Some(t@),
        None => None,
    }
}

impl View for Header {
    type V = HeaderModel;

    closed spec fn view(&self) -> HeaderModel {
        HeaderModel {
            product_type: chars_view(self.product_type),
            gm: declared_view(self.gm),
            radius: declared_view(self.radius),
            max_degree: self.max_degree,
            norm: chars_view(self.norm),
            errors: chars_view(self.errors),
            tide_system: self.tide_system,
            model_name: chars_view(self.model_name),
        }
    }
}

/// The resolved header and the records read so far.
struct Records {
    gm: (Vec<char>, FloatValue, String),
    radius: (Vec<char>, FloatValue, String),
    file_max_degree: usize,
    cap: usize,
    tide_system: TideSystem,
    model_name: Option<Vec<char>>,
    error_columns: usize,
    errors_declared: Vec<char>,
    seen: Vec<bool>,
    nonzero: Vec<bool>,
    c: Vec<Option<Vec<char>>>,
    s: Vec<Option<Vec<char>>>,
    c00: Option<(String, bool)>,
    slots_seen: usize,
}

impl View for Records {
    type V = RecordsModel;

    closed spec fn view(&self) -> RecordsModel {
        RecordsModel {
            gm: (self.gm.0@, self.gm.1, self.gm.2@),
            radius: (self.radius.0@, self.radius.1, self.radius.2@),
            file_max_degree: self.file_max_degree as nat,
            cap: self.cap as nat,
            tide_system: self.tide_system,
            model_name: chars_view(self.model_name),
            error_columns: self.error_columns as nat,
            errors_declared: self.errors_declared@,
            seen: self.seen@,
            nonzero: self.nonzero@,
            c: self.c@.map_values(|t: Option<Vec<char>>| chars_view(t)),
            s: self.s@.map_values(|t: Option<Vec<char>>| chars_view(t)),
            c00: match self.c00 {
                Some((t, u)) => Some((t@, u)),
                None => None,
            },
            slots_seen: self.slots_seen as nat,
        }
    }
}

/// Where the parser is.
enum State {
    Header(Header),
    Records(Records),
}

/// Line-at-a-time ICGEM parser.
///
/// Feed every line in file order; the parser counts lines for its messages.
/// Once [`is_complete`](Self::is_complete) holds, the remaining records lie
/// above the requested degree and the caller may stop; [`finish`](Self::finish)
/// then runs the checks that need the whole set.
pub struct Parser {
    state: State,
    line_no: usize,
    requested: Option<usize>,
}

/// How many entries of `s` are set.
pub open spec fn count_set(s: Seq<bool>) -> nat
    decreases s.len(),
{
    if s.len() == 0 {
        0
    } else {
        count_set(s.drop_last()) + if s.last() {
            1nat
        } else {
            0
        }
    }
}

proof fn lemma_count_set_update(s: Seq<bool>, i: int)
    requires
        0 <= i < s.len(),
        !s[i],
    ensures
        count_set(s.update(i, true)) == count_set(s) + 1,
    decreases s.len(),
{
    let u = s.update(i, true);
    if i == s.len() - 1 {
        assert(u.drop_last() =~= s.drop_last());
    } else {
        assert(u.drop_last() =~= s.drop_last().update(i, true));
        lemma_count_set_update(s.drop_last(), i);
    }
}

proof fn lemma_count_set_bound(s: Seq<bool>)
    ensures
        count_set(s) <= s.len(),
        count_set(s) == s.len() <==> forall|i: int| 0 <= i < s.len() ==> #[trigger] s[i],
    decreases s.len(),
{
    if s.len() > 0 {
        let t = s.drop_last();
        lemma_count_set_bound(t);
        if count_set(s) == s.len() {
            assert forall|i: int| 0 <= i < s.len() implies #[trigger] s[i] by {
                if i < s.len() - 1 {
                    assert(s[i] == t[i]);
                }
            }
        }
        if forall|i: int| 0 <= i < s.len() ==> #[trigger] s[i] {
            assert forall|i: int| 0 <= i < t.len() implies #[trigger] t[i] by {
                assert(t[i] == s[i]);
            }
            assert(s[s.len() - 1]);
        }
    }
}

proof fn lemma_count_set_none(n: nat)
    ensures
        count_set(Seq::new(n, |i: int| false)) == 0,
    decreases n,
{
    if n > 0 {
        assert(Seq::new(n, |i: int| false).drop_last() =~= Seq::new(
            (n - 1) as nat,
            |i: int| false,
        ));
        lemma_count_set_none((n - 1) as nat);
    }
}

/// The records are sized for their cap and count what they hold.
pub open spec fn records_wf(r: RecordsModel) -> bool {
    &&& r.cap <= r.file_max_degree <= MAX_DEGREE
    &&& r.seen.len() == tri_size(r.cap)
    &&& r.nonzero.len() == tri_size(r.cap)
    &&& r.c.len() == tri_size(r.cap)
    &&& r.s.len() == tri_size(r.cap)
    &&& r.slots_seen == count_set(r.seen)
    &&& r.error_columns <= 4
    &&& (r.c00 is Some ==> r.seen[0])
    &&& forall|i: int|
        0 <= i < r.seen.len() ==> (#[trigger] r.seen[i] <==> r.c[i] is Some) && (r.seen[i]
            <==> r.s[i] is Some)
}

impl View for Parser {
    type V = ParserModel;

    closed spec fn view(&self) -> ParserModel {
        ParserModel {
            state: match self.state {
                State::Header(h) => StateModel::Header(h@),
                State::Records(r) => StateModel::Records(r@),
            },
            line_no: self.line_no as nat,
            requested: self.requested,
        }
    }
}

impl Parser {
    /// The parser's state is consistent.
    pub open spec fn wf(&self) -> bool {
        match self@.state {
            StateModel::Header(_) => true,
            StateModel::Records(r) => records_wf(r),
        }
    }

    /// A parser that has read nothing; `max_degree` caps the degree read,
    /// `None` reading the whole file.
    pub fn new(max_degree: Option<usize>) -> (p: Self)
        ensures
            p.wf(),
            p@ == (ParserModel {
                state: StateModel::Header(empty_header()),
                line_no: 0,
                requested: max_degree,
            }),
    {
        Parser {
            state: State::Header(
                Header {
                    product_type: None,
                    gm: None,
                    radius: None,
                    max_degree: None,
                    norm: None,
                    errors: None,
                    tide_system: None,
                    model_name: None,
                },
            ),
            line_no: 0,
            requested: max_degree,
        }
    }

    /// Every `(n, m)` with `n` up to the requested degree has been read,
    /// degrees 0 and 1 included.
    pub fn is_complete(&self) -> (r: bool)
        requires
            self.wf(),
        ensures
            r == complete(self@),
    {
        match &self.state {
            State::Header(_) => false,
            State::Records(r) => {
                proof {
                    lemma_count_set_bound(r.seen@);
                }
                r.slots_seen == r.seen.len()
            },
        }
    }

    /// Runs the checks that need the whole set, and hands over the header
    /// values and the coefficients.
    pub fn finish(self) -> (r: Result<ParsedIcgem, IcgemParseError>)
        requires
            self.wf(),
        ensures
            match r {
                Ok(p) => finish(self@) == Ok::<ParsedModel, IcgemError>(p@),
                Err(e) => finish(self@) == Err::<ParsedModel, IcgemError>(e@),
            },
    {
        let ghost pm = self@;
        let rec = match self.state {
            State::Header(_) => {
                return Err(IcgemParseError::MissingEndOfHead);
            },
            State::Records(rec) => rec,
        };
        assert(pm.state == StateModel::Records(rec@));
        if let Some((t, unit)) = &rec.c00 {
            if !*unit {
                return Err(IcgemParseError::UnexpectedC00(t.clone()));
            }
        }
        proof {
            lemma_tri_step(0);
            lemma_tri_step(1);
            if rec.cap >= 1 {
                lemma_tri_in_range(1, 1, rec.cap as nat);
            }
        }
        if rec.cap >= 1 {
            if rec.nonzero[1] {
                return Err(IcgemParseError::NonZeroDegreeOne { degree: 1, order: 0 });
            }
            if rec.nonzero[2] {
                return Err(IcgemParseError::NonZeroDegreeOne { degree: 1, order: 1 });
            }
        }
        match first_missing_slot(&rec.seen, rec.cap) {
            Some((n, m)) => {
                return Err(IcgemParseError::MissingCoefficient { degree: n, order: m });
            },
            None => {},
        }
        let len = rec.c.len();
        let mut c: Vec<Coefficient> = Vec::new();
        let mut s: Vec<Coefficient> = Vec::new();
        let ghost cm = rec@.c;
        let ghost sm = rec@.s;
        let mut i: usize = 0;
        while i < len
            invariant
                i <= len,
                len == rec.c.len(),
                rec.s.len() == len,
                cm == rec.c@.map_values(|t: Option<Vec<char>>| chars_view(t)),
                sm == rec.s@.map_values(|t: Option<Vec<char>>| chars_view(t)),
                c@.len() == i,
                s@.len() == i,
                c@.map_values(|x: Coefficient| x@) == Seq::new(
                    i as nat,
                    |k: int|
                        if k == 0 {
                            CoefficientModel::One
                        } else {
                            coefficient_of(cm[k])
                        },
                ),
                s@.map_values(|x: Coefficient| x@) == Seq::new(
                    i as nat,
                    |k: int| coefficient_of(sm[k]),
                ),
            decreases len - i,
        {
            let ghost c0 = c@;
            let ghost s0 = s@;
            let cv = if i == 0 {
                Coefficient::One
            } else {
                match &rec.c[i] {
                    Some(t) => Coefficient::Written(string_of(t.as_slice())),
                    None => Coefficient::Zero,
                }
            };
            let sv = match &rec.s[i] {
                Some(t) => Coefficient::Written(string_of(t.as_slice())),
                None => Coefficient::Zero,
            };
            assert(cm[i as int] == chars_view(rec.c@[i as int]));
            assert(sm[i as int] == chars_view(rec.s@[i as int]));
            assert(cv@ == (if i == 0 {
                CoefficientModel::One
            } else {
                coefficient_of(cm[i as int])
            }));
            assert(sv@ == coefficient_of(sm[i as int]));
            c.push(cv);
            s.push(sv);
            proof {
                assert(c@.map_values(|x: Coefficient| x@) =~= Seq::new(
                    (i + 1) as nat,
                    |k: int|
                        if k == 0 {
                            CoefficientModel::One
                        } else {
                            coefficient_of(cm[k])
                        },
                )) by {
                    assert forall|k: int| 0 <= k < i + 1 implies #[trigger] c@[k]@ == (if k == 0 {
                        CoefficientModel::One
                    } else {
                        coefficient_of(cm[k])
                    }) by {
                        if k < i {
                            assert(c@[k] == c0[k]);
                            assert(c0.map_values(|x: Coefficient| x@)[k] == c0[k]@);
                        }
                    }
                }
                assert(s@.map_values(|x: Coefficient| x@) =~= Seq::new(
                    (i + 1) as nat,
                    |k: int| coefficient_of(sm[k]),
                )) by {
                    assert forall|k: int| 0 <= k < i + 1 implies #[trigger] s@[k]@ == coefficient_of(
                        sm[k],
                    ) by {
                        if k < i {
                            assert(s@[k] == s0[k]);
                            assert(s0.map_values(|x: Coefficient| x@)[k] == s0[k]@);
                        }
                    }
                }
            }
            i = i + 1;
        }
        let model_name = match &rec.model_name {
            Some(n) => Some(string_of(n.as_slice())),
            None => None,
        };
        let parsed = ParsedIcgem {
            gm: string_of(rec.gm.0.as_slice()),
            radius: string_of(rec.radius.0.as_slice()),
            max_degree: rec.cap,
            tide_system: rec.tide_system,
            model_name,
            c,
            s,
        };
        proof {
            let rm = rec@;
            if exists|n: nat, m: nat| is_first_missing(rm.seen, rm.cap, n, m) {
                let (n, m) = choose|n: nat, m: nat| is_first_missing(rm.seen, rm.cap, n, m);
                assert(is_first_missing(rm.seen, rm.cap, n, m));
            }
            assert(parsed@.c =~= Seq::new(
                rm.c.len(),
                |i: int|
                    if i == 0 {
                        CoefficientModel::One
                    } else {
                        coefficient_of(rm.c[i])
                    },
            ));
            assert(parsed@.s =~= Seq::new(rm.s.len(), |i: int| coefficient_of(rm.s[i])));
        }
        Ok(parsed)
    }

    /// Feeds the next line of the file, with the reading of each of its
    /// whitespace-separated tokens.
    pub fn feed_line(&mut self, line: &str, readings: &[Reading]) -> (r: Result<
        (),
        IcgemParseError,
    >)
        requires
            old(self).wf(),
            old(self)@.line_no < usize::MAX,
            readings@.len() == tokens(line@).len(),
        ensures
            final(self).wf(),
            final(self)@ == feed(old(self)@, line@, readings@).0,
            match r {
                Ok(()) => feed(old(self)@, line@, readings@).1 is Ok,
                Err(e) => feed(old(self)@, line@, readings@).1 == Err::<Option<nat>, IcgemError>(
                    e@,
                ),
            },
    {
        let chars = chars_of(line);
        match self.feed_chars(&chars, readings) {
            Ok(_) => Ok(()),
            Err(e) => Err(e),
        }
    }

    fn feed_chars(&mut self, chars: &Vec<char>, readings: &[Reading]) -> (r: Result<
        Option<usize>,
        IcgemParseError,
    >)
        requires
            old(self).wf(),
            old(self)@.line_no < usize::MAX,
            readings@.len() == tokens(chars@).len(),
        ensures
            final(self).wf(),
            final(self)@ == feed(old(self)@, chars@, readings@).0,
            feed(old(self)@, chars@, readings@).1 == slot_view(r),
    {
        self.line_no = self.line_no + 1;
        let line_no = self.line_no;
        let toks = split_tokens(chars.as_slice());
        let requested = self.requested;
        match &mut self.state {
            State::Header(h) => {
                match header_line(h, chars, &toks, readings, requested) {
                    Err(e) => Err(e),
                    Ok(None) => Ok(None),
                    Ok(Some(records)) => {
                        self.state = State::Records(records);
                        Ok(None)
                    },
                }
            },
            State::Records(rec) => record_line(rec, &toks, readings, line_no),
        }
    }
}

/// What a fed line reports, as the model states it.
pub open spec fn slot_view(r: Result<Option<usize>, IcgemParseError>) -> Result<
    Option<nat>,
    IcgemError,
> {
    match r {
        Ok(Some(i)) => Ok(Some(i as nat)),
        Ok(None) => Ok(None),
        Err(e) => Err(e@),
    }
}

/// Feeds `lines` in order, stopping at the first error or as soon as every
/// slot up to the cap has been read.
pub open spec fn run(p: ParserModel, lines: Seq<Seq<char>>, rds: Seq<Seq<Reading>>) -> Result<
    ParserModel,
    IcgemError,
>
    decreases lines.len(),
{
    if lines.len() == 0 {
        Ok(p)
    } else {
        let (p2, r) = feed(p, lines[0], rds[0]);
        match r {
            Err(e) => Err(e),
            Ok(_) => if complete(p2) {
                Ok(p2)
            } else {
                run(p2, lines.drop_first(), rds.drop_first())
            },
        }
    }
}

/// A parser that has read nothing.
pub open spec fn fresh(max_degree: Option<usize>) -> ParserModel {
    ParserModel {
        state: StateModel::Header(empty_header()),
        line_no: 0,
        requested: max_degree,
    }
}

/// A whole text, optionally cut at `max_degree`: the lines fed up to the one
/// that completes the requested set, then the whole-set checks.
pub open spec fn parse_text(
    text: Seq<char>,
    max_degree: Option<usize>,
    rds: Seq<Seq<Reading>>,
) -> Result<ParsedModel, IcgemError> {
    match run(fresh(max_degree), lines(text), rds) {
        Err(e) => Err(e),
        Ok(p) => finish(p),
    }
}

/// `rds` holds, for each line of `text`, one reading per token.
pub open spec fn readings_fit(text: Seq<char>, rds: Seq<Seq<Reading>>) -> bool {
    &&& rds.len() == lines(text).len()
    &&& forall|l: int| 0 <= l < rds.len() ==> #[trigger] rds[l].len() == tokens(lines(text)[l]).len()
}

/// The texts a list of strings holds.
pub open spec fn string_row(v: Vec<String>) -> Seq<Seq<char>> {
    v@.map_values(|x: String| x@)
}

/// The whitespace-separated tokens of each line of `text`: the texts whose
/// readings [`parse`] takes.
pub fn tokens_by_line(text: &str) -> (t: Vec<Vec<String>>)
    ensures
        t@.len() == lines(text@).len(),
        forall|l: int|
            0 <= l < t@.len() ==> string_row(#[trigger] t@[l]) == tokens(
                lines(text@)[l],
            ),
{
    let chars = chars_of(text);
    let ls = split_lines(chars.as_slice());
    let mut out: Vec<Vec<String>> = Vec::new();
    let mut l: usize = 0;
    while l < ls.len()
        invariant
            l <= ls.len(),
            char_rows(ls@) == lines(text@),
            out@.len() == l,
            forall|k: int|
                0 <= k < l ==> string_row(#[trigger] out@[k]) == tokens(
                    lines(text@)[k],
                ),
        decreases ls.len() - l,
    {
        let toks = split_tokens(ls[l].as_slice());
        assert(char_rows(ls@)[l as int] == ls@[l as int]@);
        let mut row: Vec<String> = Vec::new();
        let mut k: usize = 0;
        while k < toks.len()
            invariant
                k <= toks.len(),
                row@.len() == k,
                forall|j: int|
                    0 <= j < k ==> #[trigger] row@[j]@ == char_rows(toks@)[j],
            decreases toks.len() - k,
        {
            row.push(string_of(toks[k].as_slice()));
            k = k + 1;
        }
        assert(string_row(row) =~= char_rows(toks@));
        out.push(row);
        l = l + 1;
    }
    out
}

/// Parses a whole text, optionally cut at `max_degree`, stopping at the
/// first line after which the requested set is complete. `readings` holds,
/// for each line, the reading of each of its tokens.
pub fn parse(text: &str, max_degree: Option<usize>, readings: &Vec<Vec<Reading>>) -> (r: Result<
    ParsedIcgem,
    IcgemParseError,
>)
    requires
        readings_fit(text@, readings@.map_values(|x: Vec<Reading>| x@)),
    ensures
        match r {
            Ok(p) => parse_text(text@, max_degree, readings@.map_values(|x: Vec<Reading>| x@))
                == Ok::<ParsedModel, IcgemError>(p@),
            Err(e) => parse_text(text@, max_degree, readings@.map_values(|x: Vec<Reading>| x@))
                == Err::<ParsedModel, IcgemError>(e@),
        },
{
    let ghost rds = readings@.map_values(|x: Vec<Reading>| x@);
    let chars = chars_of(text);
    let ls = split_lines(chars.as_slice());
    let ghost all = lines(text@);
    let mut parser = Parser::new(max_degree);
    let mut i: usize = 0;
    assert(all.skip(0) =~= all);
    assert(rds.skip(0) =~= rds);
    while i < ls.len()
        invariant
            i <= ls.len(),
            char_rows(ls@) == all,
            all == lines(text@),
            readings_fit(text@, rds),
            rds == readings@.map_values(|x: Vec<Reading>| x@),
            parser.wf(),
            parser@.line_no == i,
            !complete(parser@),
            run(fresh(max_degree), all, rds) == run(parser@, all.skip(i as int), rds.skip(i as int)),
        decreases ls.len() - i,
    {
        proof {
            assert(char_rows(ls@)[i as int] == ls@[i as int]@);
            assert(rds[i as int] == readings@[i as int]@);
            assert(all.skip(i as int)[0] == all[i as int]);
            assert(rds.skip(i as int)[0] == rds[i as int]);
            assert(all.skip(i as int).drop_first() =~= all.skip(i + 1));
            assert(rds.skip(i as int).drop_first() =~= rds.skip(i + 1));
        }
        let step = parser.feed_chars(&ls[i], readings[i].as_slice());
        match step {
            Err(e) => {
                return Err(e);
            },
            Ok(_) => {},
        }
        i = i + 1;
        if parser.is_complete() {
            return parser.finish();
        }
    }
    proof {
        assert(all.skip(i as int) =~= Seq::<Seq<char>>::empty());
    }
    parser.finish()
}

/// Reads a header number: the value after the keyword, read as a number.
fn declare_number(
    key: &'static str,
    toks: &Vec<Vec<char>>,
    readings: &[Reading],
) -> (r: Result<(Vec<char>, FloatValue, String), IcgemParseError>)
    requires
        toks@.len() >= 1,
        readings@.len() == toks@.len(),
    ensures
        match r {
            Ok((t, f, shown)) => declared_number(
                key@,
                value_token(toks@.map_values(|x: Vec<char>| x@)),
                readings@[1],
            ) == Ok::<Declared, IcgemError>((t@, f, shown@)),
            Err(e) => declared_number(
                key@,
                value_token(toks@.map_values(|x: Vec<char>| x@)),
                readings@[1],
            ) == Err::<Declared, IcgemError>(e@),
        },
{
    if toks.len() < 2 {
        return Err(IcgemParseError::MissingHeader(key));
    }
    let v = &toks[1];
    match &readings[1] {
        Reading::NotANumber => Err(IcgemParseError::InvalidHeader(key, string_of(v.as_slice()))),
        Reading::Number(f, shown) => Ok((v.clone(), *f, shown.clone())),
    }
}

/// Stores `value` under `slot`, refusing a second declaration of `key`.
fn once<T>(slot: &mut Option<T>, key: &'static str, value: T) -> (r: Result<(), IcgemParseError>)
    ensures
        old(slot).is_some() ==> (r matches Err(e) && e@ == IcgemError::DuplicateHeader(key@))
            && *final(slot) == *old(slot),
        old(slot).is_none() ==> r is Ok && *final(slot) == Some(value),
{
    if slot.is_some() {
        return Err(IcgemParseError::DuplicateHeader(key));
    }
    *slot = Some(value);
    Ok(())
}

/// The value a header keyword requires.
fn required<'a>(value: Option<&'a Vec<char>>, key: &'static str) -> (r: Result<
    &'a Vec<char>,
    IcgemParseError,
>)
    ensures
        match value {
            Some(v) => r == Ok::<&Vec<char>, IcgemParseError>(v),
            None => r matches Err(e) && e@ == IcgemError::MissingHeader(key@),
        },
{
    match value {
        Some(v) => Ok(v),
        None => Err(IcgemParseError::MissingHeader(key)),
    }
}

/// One header line. Returns the resolved header at `end_of_head`.
fn header_line(
    h: &mut Header,
    line: &Vec<char>,
    toks: &Vec<Vec<char>>,
    readings: &[Reading],
    requested: Option<usize>,
) -> (r: Result<Option<Records>, IcgemParseError>)
    requires
        toks@.map_values(|x: Vec<char>| x@) == tokens(line@),
        readings@.len() == toks@.len(),
    ensures
        match r {
            Ok(None) => header_step(old(h)@, line@, readings@, requested) == Ok::<
                Result<HeaderModel, RecordsModel>,
                IcgemError,
            >(Ok(final(h)@)),
            Ok(Some(rec)) => header_step(old(h)@, line@, readings@, requested) == Ok::<
                Result<HeaderModel, RecordsModel>,
                IcgemError,
            >(Err(rec@)) && records_wf(rec@),
            Err(e) => header_step(old(h)@, line@, readings@, requested) == Err::<
                Result<HeaderModel, RecordsModel>,
                IcgemError,
            >(e@) && final(h)@ == old(h)@,
        },
{
    let ghost tv = toks@.map_values(|x: Vec<char>| x@);
    if toks.len() == 0 {
        return Ok(None);
    }
    let key = &toks[0];
    assert(key@ == tv[0]);
    let arg: Option<&Vec<char>> = if toks.len() > 1 {
        Some(&toks[1])
    } else {
        None
    };
    let ghost value = value_token(tv);
    if toks.len() > 1 {
        assert(toks@[1]@ == tv[1]);
    }
    if is_word(key.as_slice(), "end_of_head") {
        let rec = resolve_header(h, requested);
        return match rec {
            Ok(r) => Ok(Some(r)),
            Err(e) => Err(e),
        };
    } else if is_word(key.as_slice(), "product_type") {
        let v = required(arg, "product_type")?;
        once(&mut h.product_type, "product_type", v.clone())?;
    } else if is_word(key.as_slice(), "modelname") {
        match find_white(line.as_slice()) {
            None => {},
            Some(k) => {
                let (a, b) = trim_bounds(line.as_slice(), k + 1, line.len());
                if a < b {
                    let mut name: Vec<char> = Vec::new();
                    let mut i = a;
                    while i < b
                        invariant
                            a <= i <= b <= line@.len(),
                            name@ == line@.subrange(a as int, i as int),
                        decreases b - i,
                    {
                        name.push(line[i]);
                        proof {
                            assert(line@.subrange(a as int, i as int).push(line@[i as int])
                                =~= line@.subrange(a as int, i + 1));
                        }
                        i = i + 1;
                    }
                    once(&mut h.model_name, "modelname", name)?;
                }
            },
        }
    } else if is_word(key.as_slice(), "radius") {
        let d = declare_number("radius", toks, readings)?;
        once(&mut h.radius, "radius", d)?;
    } else if is_word(key.as_slice(), "max_degree") {
        let v = required(arg, "max_degree")?;
        match parse_index(v.as_slice()) {
            None => {
                return Err(IcgemParseError::InvalidHeader("max_degree", string_of(v.as_slice())));
            },
            Some(d) => {
                once(&mut h.max_degree, "max_degree", d)?;
            },
        }
    } else if is_word(key.as_slice(), "norm") {
        let v = required(arg, "norm")?;
        once(&mut h.norm, "norm", v.clone())?;
    } else if is_word(key.as_slice(), "errors") {
        let v = required(arg, "errors")?;
        once(&mut h.errors, "errors", v.clone())?;
    } else if is_word(key.as_slice(), "tide_system") {
        let tide = if toks.len() < 2 {
            TideSystem::Unknown
        } else if is_word(toks[1].as_slice(), "tide_free") {
            TideSystem::TideFree
        } else if is_word(toks[1].as_slice(), "zero_tide") {
            TideSystem::ZeroTide
        } else if is_word(toks[1].as_slice(), "mean_tide") {
            TideSystem::MeanTide
        } else {
            TideSystem::Unknown
        };
        once(&mut h.tide_system, "tide_system", tide)?;
    } else if ends_with_word(key.as_slice(), "gravity_constant") {
        let d = declare_number("earth_gravity_constant", toks, readings)?;
        once(&mut h.gm, "earth_gravity_constant", d)?;
    }
    Ok(None)
}

/// Validates the header at `end_of_head` and sizes the record arrays.
fn resolve_header(h: &mut Header, requested: Option<usize>) -> (r: Result<
    Records,
    IcgemParseError,
>)
    ensures
        final(h)@ == old(h)@,
        match r {
            Ok(rec) => resolve(old(h)@, requested) == Ok::<RecordsModel, IcgemError>(rec@)
                && records_wf(rec@),
            Err(e) => resolve(old(h)@, requested) == Err::<RecordsModel, IcgemError>(e@),
        },
{
    if let Some(pt) = &h.product_type {
        if !is_word(pt.as_slice(), "gravity_field") {
            return Err(IcgemParseError::NotAGravityField(string_of(pt.as_slice())));
        }
    }
    match &h.norm {
        None => {
            return Err(IcgemParseError::MissingHeader("norm"));
        },
        Some(n) => {
            if !is_word(n.as_slice(), "fully_normalized") {
                return Err(IcgemParseError::UnsupportedNormalization(string_of(n.as_slice())));
            }
        },
    }
    let (error_columns, errors_declared): (usize, Vec<char>) = match &h.errors {
        None => (0, chars_of("no (absent)")),
        Some(v) => {
            if is_word(v.as_slice(), "no") {
                (0, chars_of("no"))
            } else if is_word(v.as_slice(), "calibrated") || is_word(v.as_slice(), "formal") {
                (2, v.clone())
            } else if is_word(v.as_slice(), "calibrated_and_formal") {
                (4, v.clone())
            } else {
                return Err(IcgemParseError::InvalidHeader("errors", string_of(v.as_slice())));
            }
        },
    };
    let gm = match &h.gm {
        None => {
            return Err(IcgemParseError::MissingHeader("earth_gravity_constant"));
        },
        Some(g) => g,
    };
    let radius = match &h.radius {
        None => {
            return Err(IcgemParseError::MissingHeader("radius"));
        },
        Some(r) => r,
    };
    let file_max_degree = match h.max_degree {
        None => {
            return Err(IcgemParseError::MissingHeader("max_degree"));
        },
        Some(d) => d,
    };
    if file_max_degree > MAX_DEGREE {
        let mut msg = String::new();
        push_decimal(&mut msg, file_max_degree);
        push_str(&mut msg, " (limit ");
        push_decimal(&mut msg, MAX_DEGREE);
        push_str(&mut msg, ")");
        proof {
            assert(msg@ =~= limit_message(file_max_degree as nat));
        }
        return Err(IcgemParseError::InvalidHeader("max_degree", msg));
    }
    if gm.1.class != FloatClass::Positive {
        return Err(IcgemParseError::InvalidHeader("earth_gravity_constant", gm.2.clone()));
    }
    if radius.1.class != FloatClass::Positive {
        return Err(IcgemParseError::InvalidHeader("radius", radius.2.clone()));
    }
    let cap = match requested {
        Some(d) => {
            if d > file_max_degree {
                return Err(
                    IcgemParseError::DegreeUnavailable { requested: d, available: file_max_degree },
                );
            }
            d
        },
        None => file_max_degree,
    };
    let len = tri_len(cap);
    let mut seen: Vec<bool> = Vec::new();
    let mut nonzero: Vec<bool> = Vec::new();
    let mut c: Vec<Option<Vec<char>>> = Vec::new();
    let mut s: Vec<Option<Vec<char>>> = Vec::new();
    let mut i: usize = 0;
    while i < len
        invariant
            i <= len,
            seen@ == Seq::new(i as nat, |k: int| false),
            nonzero@ == Seq::new(i as nat, |k: int| false),
            c@.len() == i,
            s@.len() == i,
            c@.map_values(|t: Option<Vec<char>>| chars_view(t)) == Seq::new(
                i as nat,
                |k: int| None::<Seq<char>>,
            ),
            s@.map_values(|t: Option<Vec<char>>| chars_view(t)) == Seq::new(
                i as nat,
                |k: int| None::<Seq<char>>,
            ),
        decreases len - i,
    {
        let ghost c0 = c@;
        let ghost s0 = s@;
        seen.push(false);
        nonzero.push(false);
        c.push(None);
        s.push(None);
        proof {
            assert forall|k: int| 0 <= k < i + 1 implies chars_view(#[trigger] c@[k]) == None::<
                Seq<char>,
            > by {
                if k < i {
                    assert(c@[k] == c0[k]);
                    assert(c0.map_values(|t: Option<Vec<char>>| chars_view(t))[k] == None::<
                        Seq<char>,
                    >);
                }
            }
            assert forall|k: int| 0 <= k < i + 1 implies chars_view(#[trigger] s@[k]) == None::<
                Seq<char>,
            > by {
                if k < i {
                    assert(s@[k] == s0[k]);
                    assert(s0.map_values(|t: Option<Vec<char>>| chars_view(t))[k] == None::<
                        Seq<char>,
                    >);
                }
            }
            assert(seen@ =~= Seq::new((i + 1) as nat, |k: int| false));
            assert(nonzero@ =~= Seq::new((i + 1) as nat, |k: int| false));
            assert(c@.map_values(|t: Option<Vec<char>>| chars_view(t)) =~= Seq::new(
                (i + 1) as nat,
                |k: int| None::<Seq<char>>,
            ));
            assert(s@.map_values(|t: Option<Vec<char>>| chars_view(t)) =~= Seq::new(
                (i + 1) as nat,
                |k: int| None::<Seq<char>>,
            ));
        }
        i = i + 1;
    }
    proof {
        lemma_count_set_none(len as nat);
    }
    let model_name = match &h.model_name {
        Some(n) => Some(n.clone()),
        None => None,
    };
    let tide_system = match h.tide_system {
        Some(t) => t,
        None => TideSystem::Unknown,
    };
    let rec = Records {
        gm: (gm.0.clone(), gm.1, gm.2.clone()),
        radius: (radius.0.clone(), radius.1, radius.2.clone()),
        file_max_degree,
        cap,
        tide_system,
        model_name,
        error_columns,
        errors_declared,
        seen,
        nonzero,
        c,
        s,
        c00: None,
        slots_seen: 0,
    };
    proof {
        if h.errors is Some {
            assert(rec.errors_declared@ == h@.errors->0 || rec.errors_declared@ == "no"@);
        }
    }
    Ok(rec)
}

/// A `gfc` record's field message: `what`, then the field in backticks, then
/// `complaint`.
fn field_reason(what: &str, field: &Vec<char>, complaint: &str) -> (s: String)
    ensures
        s@ == field_message(what@, field@, complaint@),
{
    let mut s = String::new();
    push_str(&mut s, what);
    push_str(&mut s, " `");
    let f = string_of(field.as_slice());
    push_str(&mut s, f.as_str());
    push_str(&mut s, "` ");
    push_str(&mut s, complaint);
    proof {
        assert(s@ =~= field_message(what@, field@, complaint@));
    }
    s
}

/// One data record.
fn record_line(r: &mut Records, toks: &Vec<Vec<char>>, readings: &[Reading], line_no: usize) -> (res: Result<
    Option<usize>,
    IcgemParseError,
>)
    requires
        records_wf(old(r)@),
        readings@.len() == toks@.len(),
    ensures
        records_wf(final(r)@),
        match res {
            Ok(slot) => record_step(
                old(r)@,
                toks@.map_values(|x: Vec<char>| x@),
                readings@,
                line_no as nat,
            ) == Ok::<(RecordsModel, Option<nat>), IcgemError>(
                (
                    final(r)@,
                    match slot {
                        Some(i) => Some(i as nat),
                        None => None,
                    },
                ),
            ),
            Err(e) => record_step(
                old(r)@,
                toks@.map_values(|x: Vec<char>| x@),
                readings@,
                line_no as nat,
            ) == Err::<(RecordsModel, Option<nat>), IcgemError>(e@) && final(r)@ == old(r)@,
        },
{
    let ghost tv = toks@.map_values(|x: Vec<char>| x@);
    if toks.len() == 0 {
        return Ok(None);
    }
    let kind = &toks[0];
    assert(kind@ == tv[0]);
    if !is_word(kind.as_slice(), "gfc") {
        if is_word(kind.as_slice(), "gfct") || is_word(kind.as_slice(), "trnd") || is_word(
            kind.as_slice(),
            "dot",
        ) || is_word(kind.as_slice(), "asin") || is_word(kind.as_slice(), "acos") {
            return Err(
                IcgemParseError::TimeVariableUnsupported {
                    line: line_no,
                    kind: string_of(kind.as_slice()),
                },
            );
        }
        return Err(IcgemParseError::UnknownRecord { line: line_no, kind: string_of(kind.as_slice()) });
    }
    let ghost fields = tv.subrange(1, tv.len() as int);
    let nfields = toks.len() - 1;
    let expected = 4 + r.error_columns;
    if nfields != expected {
        let mut reason = String::new();
        push_str(&mut reason, "expected ");
        push_decimal(&mut reason, expected);
        push_str(&mut reason, " columns after `gfc` (n, m, C, S");
        if r.error_columns == 0 {
            push_str(&mut reason, "");
        } else if r.error_columns == 2 {
            push_str(&mut reason, ", σC, σS");
        } else {
            push_str(&mut reason, ", σC, σS, σC, σS");
        }
        push_str(&mut reason, "; the header declares `errors ");
        let declared = string_of(r.errors_declared.as_slice());
        push_str(&mut reason, declared.as_str());
        push_str(&mut reason, "`), found ");
        push_decimal(&mut reason, nfields);
        proof {
            assert(reason@ =~= column_count_message(
                expected as nat,
                r.error_columns as nat,
                r.errors_declared@,
                nfields as nat,
            ));
        }
        return Err(IcgemParseError::MalformedRecord { line: line_no, reason });
    }
    assert(toks@[1]@ == fields[0]);
    assert(toks@[2]@ == fields[1]);
    assert(toks@[3]@ == fields[2]);
    assert(toks@[4]@ == fields[3]);
    let n = match parse_index(toks[1].as_slice()) {
        None => {
            return Err(
                IcgemParseError::MalformedRecord {
                    line: line_no,
                    reason: field_reason("degree", &toks[1], "is not an integer"),
                },
            );
        },
        Some(n) => n,
    };
    let m = match parse_index(toks[2].as_slice()) {
        None => {
            return Err(
                IcgemParseError::MalformedRecord {
                    line: line_no,
                    reason: field_reason("order", &toks[2], "is not an integer"),
                },
            );
        },
        Some(m) => m,
    };
    if n > r.file_max_degree || m > n {
        return Err(IcgemParseError::IndexOutOfRange { line: line_no, degree: n, order: m });
    }
    if n > r.cap {
        return Ok(None);
    }
    let (c, c_shown) = match &readings[3] {
        Reading::NotANumber => {
            return Err(
                IcgemParseError::MalformedRecord {
                    line: line_no,
                    reason: field_reason("C", &toks[3], "is not a number"),
                },
            );
        },
        Reading::Number(f, shown) => (*f, shown),
    };
    let s = match &readings[4] {
        Reading::NotANumber => {
            return Err(
                IcgemParseError::MalformedRecord {
                    line: line_no,
                    reason: field_reason("S", &toks[4], "is not a number"),
                },
            );
        },
        Reading::Number(f, _) => *f,
    };
    if !(c.class.is_finite() && s.class.is_finite()) {
        return Err(IcgemParseError::NonFiniteCoefficient { line: line_no, degree: n, order: m });
    }
    let i = tri_index(n, m);
    proof {
        lemma_tri_in_range(n as nat, m as nat, r.cap as nat);
    }
    if r.seen[i] {
        return Err(IcgemParseError::DuplicateCoefficient { line: line_no, degree: n, order: m });
    }
    proof {
        lemma_count_set_update(r.seen@, i as int);
        lemma_count_set_bound(r.seen@.update(i as int, true));
        lemma_tri_size_bound(r.cap as nat);
    }
    r.seen.set(i, true);
    let both_zero = c.class == FloatClass::Zero && s.class == FloatClass::Zero;
    r.nonzero.set(i, !both_zero);
    let ghost c_before = r.c@;
    let ghost s_before = r.s@;
    r.c.set(i, Some(toks[3].clone()));
    r.s.set(i, Some(toks[4].clone()));
    proof {
        assert(r.c@.map_values(|t: Option<Vec<char>>| chars_view(t)) =~= c_before.map_values(
            |t: Option<Vec<char>>| chars_view(t),
        ).update(i as int, Some(fields[2])));
        assert(r.s@.map_values(|t: Option<Vec<char>>| chars_view(t)) =~= s_before.map_values(
            |t: Option<Vec<char>>| chars_view(t),
        ).update(i as int, Some(fields[3])));
    }
    if i == 0 {
        r.c00 = Some((c_shown.clone(), c.unit));
    }
    r.slots_seen = r.slots_seen + 1;
    Ok(Some(i))
}

/// The first `(n, m)` with `2 <= n <= cap`, in file order, whose slot was
/// never read.
fn first_missing_slot(seen: &Vec<bool>, cap: usize) -> (r: Option<(usize, usize)>)
    requires
        cap <= MAX_DEGREE,
        seen@.len() == tri_size(cap as nat),
    ensures
        match r {
            Some((n, m)) => is_first_missing(seen@, cap as nat, n as nat, m as nat),
            None => forall|n: nat, m: nat| !is_first_missing(seen@, cap as nat, n, m),
        },
{
    let mut n: usize = 2;
    while n <= cap
        invariant
            2 <= n,
            n <= cap + 1 || n == 2,
            cap <= MAX_DEGREE,
            seen@.len() == tri_size(cap as nat),
            forall|n2: nat, m2: nat|
                2 <= n2 < n && m2 <= n2 ==> #[trigger] seen@[tri(n2, m2) as int],
        decreases cap + 1 - n,
    {
        let mut m: usize = 0;
        while m <= n
            invariant
                2 <= n <= cap,
                m <= n + 1,
                cap <= MAX_DEGREE,
                seen@.len() == tri_size(cap as nat),
                forall|n2: nat, m2: nat|
                    2 <= n2 < n && m2 <= n2 ==> #[trigger] seen@[tri(n2, m2) as int],
                forall|m2: nat| m2 < m ==> #[trigger] seen@[tri(n as nat, m2) as int],
            decreases n + 1 - m,
        {
            let i = tri_index(n, m);
            proof {
                lemma_tri_in_range(n as nat, m as nat, cap as nat);
            }
            if !seen[i] {
                proof {
                    assert forall|n2: nat, m2: nat|
                        2 <= n2 <= cap && m2 <= n2 && (n2 < n || (n2 == n && m2 < m))
                            implies #[trigger] seen@[tri(n2, m2) as int] by {
                        if n2 == n {
                            assert(seen@[tri(n as nat, m2) as int]);
                        }
                    }
                }
                return Some((n, m));
            }
            m = m + 1;
        }
        n = n + 1;
    }
    proof {
        assert forall|n: nat, m: nat| !is_first_missing(seen@, cap as nat, n, m) by {
            if 2 <= n <= cap && m <= n {
                assert(seen@[tri(n, m) as int]);
            }
        }
    }
    None
}

} // verus!
