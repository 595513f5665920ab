//! Locating parser errors in a source text, and repairing trailing commas.

use vstd::prelude::*;
use vstd::string::*;

use std::ops::Range;

use crate::text::has_prefix;

verus! {

/// The 1-based line and column of byte `off` of `src`.
pub open spec fn position(src: Seq<u8>, off: int) -> (int, int)
    decreases off,
{
    if off <= 0 {
        (1, 1)
    } else {
        let (l, c) = position(src, off - 1);
        if src[off - 1] == 10u8 {
            (l + 1, 1)
        } else {
            (l, c + 1)
        }
    }
}

/// Whether position `a` comes before position `b`.
pub open spec fn before(a: (int, int), b: (int, int)) -> bool {
    a.0 < b.0 || (a.0 == b.0 && a.1 < b.1)
}

proof fn lemma_position_bounds(src: Seq<u8>, off: int)
    requires
        0 <= off,
    ensures
        1 <= position(src, off).0 <= off + 1,
        1 <= position(src, off).1 <= off + 1,
    decreases off,
{
    if off > 0 {
        lemma_position_bounds(src, off - 1);
    }
}

/// Positions only move forward along the text.
proof fn lemma_position_increases(src: Seq<u8>, a: int, b: int)
    requires
        0 <= a < b,
    ensures
        before(position(src, a), position(src, b)),
    decreases b - a,
{
    if b - 1 > a {
        lemma_position_increases(src, a, b - 1);
    }
}

/// The offset of the byte at `line` and `column` (both counted from 1),
/// if the text has one there.
pub fn find_byte_offset(src: &[u8], line: usize, column: usize) -> (r: Option<usize>)
    requires
        src@.len() < usize::MAX,
    ensures
        r matches Some(off) ==> off < src@.len() && position(src@, off as int) == (
            line as int,
            column as int,
        ),
        r is None ==> forall|off: int|
            0 <= off < src@.len() ==> #[trigger] position(src@, off) != (line as int, column as int),
{
    let mut walk_line: usize = 1;
    let mut walk_column: usize = 1;
    let mut offset: usize = 0;
    while offset < src.len() && (walk_line < line || (walk_line == line && walk_column < column))
        invariant
            src@.len() < usize::MAX,
            offset <= src@.len(),
            (walk_line as int, walk_column as int) == position(src@, offset as int),
            forall|o: int|
                0 <= o < offset ==> before(
                    #[trigger] position(src@, o),
                    (line as int, column as int),
                ),
        decreases src@.len() - offset,
    {
        proof {
            lemma_position_bounds(src@, offset as int);
        }
        if src[offset] == 10u8 {
            walk_line = walk_line + 1;
            walk_column = 1;
        } else {
            walk_column = walk_column + 1;
        }
        offset = offset + 1;
    }
    if offset >= src.len() || walk_line != line || walk_column != column {
        proof {
            assert forall|off: int|
                0 <= off < src@.len() implies #[trigger] position(src@, off) != (
                line as int,
                column as int,
            ) by {
                if off >= offset {
                    if off > offset {
                        lemma_position_increases(src@, offset as int, off);
                    }
                }
            }
        }
        None
    } else {
        Some(offset)
    }
}

/// Whether `b` is ASCII white space.
pub open spec fn is_space(b: u8) -> bool {
    b == 32u8 || b == 9u8 || b == 10u8 || b == 12u8 || b == 13u8
}

/// Looks back from `offset` over white space for a comma, and returns its
/// index.
pub fn comma_before(src: &[u8], offset: usize) -> (r: Option<usize>)
    requires
        offset <= src@.len(),
    ensures
        r matches Some(i) ==> i < offset && src@[i as int] == 44u8 && forall|j: int|
            i < j < offset ==> is_space(#[trigger] src@[j]),
        r is None ==> forall|i: int|
            0 <= i < offset && src@[i] == 44u8 ==> exists|j: int|
                i < j < offset && !is_space(#[trigger] src@[j]),
{
    let mut i: usize = offset;
    while i > 0
        invariant
            i <= offset <= src@.len(),
            forall|j: int| i <= j < offset ==> is_space(#[trigger] src@[j]),
        decreases i,
    {
        let b = src[i - 1];
        if b == 44u8 {
            return Some(i - 1);
        }
        if !(b == 32u8 || b == 9u8 || b == 10u8 || b == 12u8 || b == 13u8) {
            assert forall|k: int| 0 <= k < offset && src@[k] == 44u8 implies exists|j: int|
                k < j < offset && !is_space(#[trigger] src@[j]) by {
                assert(!is_space(src@[i - 1]));
                if k >= i - 1 {
                    assert(is_space(src@[k]) || k == i - 1);
                }
            }
            return None;
        }
        i = i - 1;
    }
    None
}

#[verifier::external_type_specification]
#[verifier::external_body]
pub struct ExJsonError(serde_json::Error);

#[verifier::external_type_specification]
#[verifier::external_body]
pub struct ExJsonValue(serde_json::Value);

/// serde_json's `Error::line`: the line of the error, counted from 1.
pub assume_specification[ serde_json::Error::line ](e: &serde_json::Error) -> usize;

/// serde_json's `Error::column`: the column of the error, counted from 1.
pub assume_specification[ serde_json::Error::column ](e: &serde_json::Error) -> usize;

/// serde_json's `Error::is_syntax`: whether the input is not valid JSON.
pub assume_specification[ serde_json::Error::is_syntax ](e: &serde_json::Error) -> bool;

/// Relies on serde_json's `from_slice`, reading a JSON value from bytes.
#[verifier::external_body]
fn parse_json(src: &[u8]) -> (r: Result<serde_json::Value, serde_json::Error>) {
    serde_json::from_slice::<serde_json::Value>(src)
}

/// Relies on the `Display` of serde_json's `Error`: its message.
#[verifier::external_body]
fn json_error_text(e: &serde_json::Error) -> (r: String) {
    e.to_string()
}

/// A trailing comma that was replaced by a space to go on parsing.
#[derive(Debug)]
pub struct TrailingComma {
    pub span: Range<usize>,
    pub serde_error: serde_json::Error,
}

/// A problem found by other checks than JSON syntax.
#[derive(Debug)]
pub struct CustomError {
    pub span: Range<usize>,
    pub message: String,
}

#[derive(Debug)]
pub enum ValidationError {
    Serde(serde_json::Error),
    TrailingComma(TrailingComma),
    Custom(CustomError),
}

impl ValidationError {
    pub fn is_trailing_comma(&self) -> (r: bool)
        ensures
            r == (self is TrailingComma),
    {
        match self {
            ValidationError::TrailingComma(_) => true,
            _ => false,
        }
    }

    /// The byte range of `source` that the error points at, if known.
    pub fn span(&self, source: &str) -> (r: Option<Range<usize>>)
        ensures
            self matches ValidationError::TrailingComma(t) ==> r == Some(t.span),
            self matches ValidationError::Custom(c) ==> r == Some(c.span),
            self is Serde ==> (r matches Some(s) ==> s.start == s.end),
    {
        match self {
            ValidationError::Serde(error) => {
                let bytes = source.as_bytes();
                if bytes.len() == usize::MAX {
                    return None;
                }
                match find_byte_offset(bytes, error.line(), error.column()) {
                    Some(offset) => Some(Range { start: offset, end: offset }),
                    None => None,
                }
            },
            ValidationError::TrailingComma(error) => Some(Range { start: error.span.start, end: error.span.end }),
            ValidationError::Custom(error) => Some(Range { start: error.span.start, end: error.span.end }),
        }
    }
}

/// After this many trailing commas, repairing stops.
pub const MAX_TRAILING_COMMA: usize = 20;

/// Whether a parse error reports a trailing comma.
pub fn err_is_trailing_comma(e: &serde_json::Error) -> (r: bool) {
    e.is_syntax() && has_prefix(json_error_text(e).as_str(), "trailing comma")
}

/// Parsed JSON, with the trailing commas that were replaced to get there.
#[derive(Debug)]
pub struct Repaired {
    pub value: serde_json::Value,
    pub errors: Vec<ValidationError>,
    pub source: Vec<u8>,
}

/// `fixed` is `src` with some commas replaced by spaces.
pub open spec fn commas_blanked(src: Seq<u8>, fixed: Seq<u8>) -> bool {
    &&& fixed.len() == src.len()
    &&& forall|i: int|
        0 <= i < src.len() ==> #[trigger] fixed[i] == src[i] || (src[i] == 44u8 && fixed[i]
            == 32u8)
}

/// Each error is a trailing comma at a comma of `src`.
pub open spec fn trailing_commas_of(src: Seq<u8>, errors: Seq<ValidationError>) -> bool {
    forall|k: int|
        0 <= k < errors.len() ==> (#[trigger] errors[k] matches ValidationError::TrailingComma(t)
            && t.span.start < src.len() && t.span.end == t.span.start + 1 && src[t.span.start as int]
            == 44u8)
}

/// The offset of a trailing-comma error, or -1 for any other error.
pub open spec fn span_start(e: ValidationError) -> int {
    match e {
        ValidationError::TrailingComma(t) => t.span.start as int,
        _ => -1,
    }
}

/// No two errors point at the same offset.
pub open spec fn distinct_spans(errors: Seq<ValidationError>) -> bool {
    forall|a: int, b: int|
        0 <= a < b < errors.len() ==> span_start(#[trigger] errors[a]) != span_start(
            #[trigger] errors[b],
        )
}

/// Parses JSON, replacing each trailing comma that the parser reports by a
/// space and parsing again, so that more than the first problem can be
/// reported. Gives up at the first other error, or after
/// [`MAX_TRAILING_COMMA`] trailing commas.
pub fn repair_json(formula: &str) -> (r: Result<Repaired, Vec<ValidationError>>)
    ensures
        r matches Ok(rep) ==> commas_blanked(formula.spec_bytes(), rep.source@)
            && rep.errors@.len() < MAX_TRAILING_COMMA && trailing_commas_of(
            formula.spec_bytes(),
            rep.errors@,
        ) && distinct_spans(rep.errors@),
        r matches Err(errors) ==> 1 <= errors@.len() <= MAX_TRAILING_COMMA && trailing_commas_of(
            formula.spec_bytes(),
            errors@.drop_last(),
        ) && distinct_spans(errors@.drop_last()),
{
    let mut source = formula.as_bytes_vec();
    let ghost src = formula.spec_bytes();
    let mut errors: Vec<ValidationError> = Vec::new();
    let mut parsed = parse_json(source.as_slice());
    loop
        invariant
            src == formula.spec_bytes(),
            commas_blanked(src, source@),
            errors@.len() < MAX_TRAILING_COMMA,
            trailing_commas_of(src, errors@),
            distinct_spans(errors@),
            forall|k: int| 0 <= k < errors@.len() ==> source@[span_start(#[trigger] errors@[k])] == 32u8,
        decreases MAX_TRAILING_COMMA - errors@.len(),
    {
        let err = match parsed {
            Ok(value) => {
                return Ok(Repaired { value, errors, source });
            },
            Err(err) => err,
        };
        if !err_is_trailing_comma(&err) {
            let ghost e0 = errors@;
            errors.push(ValidationError::Serde(err));
            assert(errors@.drop_last() =~= e0);
            return Err(errors);
        }
        if source.len() == usize::MAX {
            let ghost e0 = errors@;
            errors.push(ValidationError::Serde(err));
            assert(errors@.drop_last() =~= e0);
            return Err(errors);
        }
        let offset = match find_byte_offset(source.as_slice(), err.line(), err.column()) {
            Some(offset) => offset,
            None => {
                let ghost e0 = errors@;
                errors.push(ValidationError::Serde(err));
                assert(errors@.drop_last() =~= e0);
                return Err(errors);
            },
        };
        let comma = match comma_before(source.as_slice(), offset) {
            Some(comma) => comma,
            None => {
                let ghost e0 = errors@;
                errors.push(ValidationError::Serde(err));
                assert(errors@.drop_last() =~= e0);
                return Err(errors);
            },
        };
        let ghost before = source@;
        let ghost e0 = errors@;
        source.set(comma, 32u8);
        assert(before[comma as int] == 44u8);
        assert(src[comma as int] == 44u8);
        assert forall|k: int| 0 <= k < e0.len() implies span_start(#[trigger] e0[k]) != comma as int by {
            assert(before[span_start(e0[k])] == 32u8);
        }
        errors.push(
            ValidationError::TrailingComma(
                TrailingComma { span: Range { start: comma, end: comma + 1 }, serde_error: err },
            ),
        );
        proof {
            assert(errors@.drop_last() =~= e0);
            assert(span_start(errors@[e0.len() as int]) == comma as int);
            assert forall|a: int, b: int| 0 <= a < b < errors@.len() implies span_start(#[trigger] errors@[a])
                != span_start(#[trigger] errors@[b]) by {
                if b < e0.len() {
                    assert(errors@[a] == e0[a] && errors@[b] == e0[b]);
                } else {
                    assert(errors@[a] == e0[a]);
                }
            }
            assert forall|k: int| 0 <= k < errors@.len() implies source@[span_start(#[trigger] errors@[k])] == 32u8 by {
                if k < e0.len() {
                    assert(errors@[k] == e0[k]);
                    assert(before[span_start(e0[k])] == 32u8);
                }
            }
            assert forall|k: int| 0 <= k < errors@.len() implies (#[trigger] errors@[k] matches ValidationError::TrailingComma(t)
                && t.span.start < src.len() && t.span.end == t.span.start + 1 && src[t.span.start as int] == 44u8) by {
                if k < e0.len() {
                    assert(errors@[k] == e0[k]);
                }
            }
        }
        if errors.len() >= MAX_TRAILING_COMMA {
            return Err(errors);
        }
        parsed = parse_json(source.as_slice());
    }
}

} // verus!
