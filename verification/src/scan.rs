//! The mathematical model of the scanner.
//!
//! Every function here is a pure spec function over `Seq<char>`. Together
//! they say exactly which token (or error) the next call on a token stream
//! produces, how many characters it consumes, and how the delimiter depth
//! table changes. The executable scanner in [`crate::lexer`] is proved to
//! agree with [`spec_next`], so these definitions are the single place
//! where the language's lexical rules are written down.
//!
//! Numeric literals follow this state machine, resolved from the first,
//! already consumed character (a decimal digit or a leading `.`):
//!
//! - an undecorated run of decimal digits is a whole literal;
//! - `.` after the run (or as the first character) commits the fractional
//!   shape and demands a digit run; a further `.` inside that run is
//!   consumed and rejected by the validation pass;
//! - `e`/`E` after a whole or fractional part commits the exponential
//!   shape, allows one sign, and demands a decimal digit run;
//! - `b`/`B` directly after the undecorated run reinterprets that run as a
//!   base selector (`2`, `8`, `10`, `16`, `64`) and rescans the literal's
//!   digits under the selected radix. No fractional dot, exponent marker,
//!   or second base declaration is recognised after a base declaration,
//!   and a base-64 literal accepts every non-whitespace character.
//!
//! A digit run that must not be empty collapses unless its first character
//! is a digit of the active radix (for base 64: any non-whitespace
//! character); the collapse error names that character, or end-of-input.
//! Once begun, a run is collected optimistically up to whitespace or to a
//! marker that is still meaningful, and the collected text is validated
//! against the resolved radix afterwards — the radix is not known until
//! the optional base declaration has been seen.

use vstd::prelude::*;

use crate::chars::{
    digit_value, family_of, is_closer, is_digit_of, is_opener, is_space_char, spec_partner,
};
use crate::token::{
    DelimiterKindModel, ErrorModel, NumericBase, NumericKind, NumericModel, TokenModel,
};

verus! {

/// The number of leading whitespace characters of `s`.
pub open spec fn ws_prefix_len(s: Seq<char>) -> int
    decreases s.len(),
{
    if s.len() == 0 || !is_space_char(s[0]) {
        0
    } else {
        1 + ws_prefix_len(s.drop_first())
    }
}

/// The index of the first `"` in `s`, or -1 if there is none.
pub open spec fn quote_index(s: Seq<char>) -> int
    decreases s.len(),
{
    if s.len() == 0 {
        -1
    } else if s[0] == '"' {
        0
    } else if quote_index(s.drop_first()) < 0 {
        -1
    } else {
        1 + quote_index(s.drop_first())
    }
}

/// Whether digit collection stops (without consuming) at `c`.
///
/// Whitespace always ends a literal. Before any base declaration
/// (`based` false), the shape markers `.`, `e`, `E`, `b`, `B` end the
/// undecorated run; once the fractional shape is committed only an
/// exponent marker still has meaning; once the exponent is committed no
/// marker does. After a base declaration only whitespace ends the run.
pub open spec fn digest_stop(c: char, based: bool, seen_dot: bool, seen_exp: bool) -> bool {
    is_space_char(c) || (!based && !seen_dot && !seen_exp && (c == '.' || c == 'e' || c == 'E'
        || c == 'b' || c == 'B')) || (!based && seen_dot && !seen_exp && (c == 'e' || c == 'E'))
}

/// The length of the maximal prefix of `s` that digit collection consumes.
pub open spec fn run_len(s: Seq<char>, based: bool, seen_dot: bool, seen_exp: bool) -> int
    decreases s.len(),
{
    if s.len() == 0 || digest_stop(s[0], based, seen_dot, seen_exp) {
        0
    } else {
        1 + run_len(s.drop_first(), based, seen_dot, seen_exp)
    }
}

/// Whether `c` may begin a digit run that must not be empty: a digit of
/// the active radix, or, for base 64, any non-whitespace character.
pub open spec fn valid_run_start(c: char, radix: u32, b64: bool) -> bool {
    if b64 {
        !is_space_char(c)
    } else {
        is_digit_of(c, radix)
    }
}

/// The placeholder literal that a collapse error reports as expected.
pub open spec fn collapse_expected() -> NumericModel {
    NumericModel { raw: "<int>"@, base: NumericBase::Any, kind: NumericKind::Any }
}

/// A collapse error: a digit run was required but none was found before
/// `at`, which is the end-of-input marker or the offending character.
pub open spec fn collapse_at(at: TokenModel) -> ErrorModel {
    ErrorModel::NumericLiteralCollapse { received: at, expected: collapse_expected() }
}

/// Outcome of one digit-run collection: the collected run or an error,
/// and how many characters were consumed.
pub ghost struct DigestModel {
    pub outcome: Result<Seq<char>, ErrorModel>,
    pub consumed: int,
}

/// One digit-run collection from the front of `s`.
///
/// A run that may be empty never fails. A mandatory run fails with a
/// collapse error, consuming nothing, unless its first character is valid
/// for the active radix.
pub open spec fn spec_digest(
    s: Seq<char>,
    radix: u32,
    based: bool,
    b64: bool,
    seen_dot: bool,
    seen_exp: bool,
    allow_empty: bool,
) -> DigestModel {
    let n = run_len(s, based, seen_dot, seen_exp);
    if allow_empty {
        DigestModel { outcome: Ok(s.take(n)), consumed: n }
    } else if s.len() == 0 {
        DigestModel { outcome: Err(collapse_at(TokenModel::EOF)), consumed: 0 }
    } else if !valid_run_start(s[0], radix, b64) {
        DigestModel { outcome: Err(collapse_at(TokenModel::Character { raw: s[0] })), consumed: 0 }
    } else {
        DigestModel { outcome: Ok(s.take(n)), consumed: n }
    }
}

/// The radix a numeral system resolves to.
pub open spec fn radix_of_base(b: NumericBase) -> u32 {
    match b {
        NumericBase::Binary => 2,
        NumericBase::Octal => 8,
        NumericBase::Decimal => 10,
        NumericBase::Hexadecimal => 16,
        NumericBase::Base64 => 64,
        NumericBase::Any => 10,
    }
}

/// The numeral system a base selector names, if any: one of the literal
/// strings `2`, `8`, `10`, `16`, `64`.
pub open spec fn selector_base(s: Seq<char>) -> Option<NumericBase> {
    if s.len() == 1 && s[0] == '2' {
        Some(NumericBase::Binary)
    } else if s.len() == 1 && s[0] == '8' {
        Some(NumericBase::Octal)
    } else if s.len() == 2 && s[0] == '1' && s[1] == '0' {
        Some(NumericBase::Decimal)
    } else if s.len() == 2 && s[0] == '1' && s[1] == '6' {
        Some(NumericBase::Hexadecimal)
    } else if s.len() == 2 && s[0] == '6' && s[1] == '4' {
        Some(NumericBase::Base64)
    } else {
        None
    }
}

/// The radix-specific error for a character outside the radix's alphabet.
pub open spec fn radix_error(radix: u32, raw: Seq<char>, c: char) -> ErrorModel {
    if radix == 2 {
        ErrorModel::InvalidBinaryValue { raw: raw, invalid: seq![c] }
    } else if radix == 8 {
        ErrorModel::InvalidOctalValue { raw: raw, invalid: seq![c] }
    } else if radix == 16 {
        ErrorModel::InvalidHexadecimalValue { raw: raw, invalid: seq![c] }
    } else {
        ErrorModel::InvalidDecimalValue { raw: raw, invalid: seq![c] }
    }
}

/// The validation pass from position `i`, having already seen a dot iff
/// `local_dot`.
///
/// Each character must be a digit of the resolved radix; one `.` is
/// tolerated where the shape may be fractional (`allow_dot`), a second one
/// is an invalid fraction; the exponent characters `e`, `E`, `+`, `-` are
/// exempt once an exponent was seen.
pub open spec fn spec_validate(
    raw: Seq<char>,
    i: int,
    radix: u32,
    seen_exp: bool,
    allow_dot: bool,
    local_dot: bool,
) -> Option<ErrorModel>
    decreases raw.len() - i,
{
    if i < 0 || i >= raw.len() {
        None
    } else {
        let c = raw[i];
        if (c == 'e' || c == 'E' || c == '+' || c == '-') && seen_exp {
            spec_validate(raw, i + 1, radix, seen_exp, allow_dot, local_dot)
        } else if !is_digit_of(c, radix) && !(c == '.' && allow_dot) {
            Some(radix_error(radix, raw, c))
        } else if c == '.' && local_dot {
            Some(ErrorModel::InvalidFractionalValue { raw: raw, received: seq!['.'] })
        } else if c == '.' {
            spec_validate(raw, i + 1, radix, seen_exp, allow_dot, true)
        } else {
            spec_validate(raw, i + 1, radix, seen_exp, allow_dot, local_dot)
        }
    }
}

/// The whole validation pass of a collected literal. Base-64 literals
/// accept their extended alphabet without any digit check.
pub open spec fn spec_validate_all(
    raw: Seq<char>,
    radix: u32,
    b64: bool,
    seen_exp: bool,
    allow_dot: bool,
) -> Option<ErrorModel> {
    if b64 {
        None
    } else {
        spec_validate(raw, 0, radix, seen_exp, allow_dot, false)
    }
}

/// Outcome of scanning one numeric literal: its text, numeral system and
/// shape, or an error; and how many characters beyond the first were
/// consumed.
pub ghost struct NumScanModel {
    pub outcome: Result<(Seq<char>, NumericBase, NumericKind), ErrorModel>,
    pub consumed: int,
}

/// Final step of a numeric scan: run the validation pass over the
/// collected text and package the literal.
pub open spec fn finish_number(
    raw: Seq<char>,
    base: NumericBase,
    kind: NumericKind,
    radix: u32,
    b64: bool,
    seen_exp: bool,
    allow_dot: bool,
    consumed: int,
) -> NumScanModel {
    match spec_validate_all(raw, radix, b64, seen_exp, allow_dot) {
        Some(e) => NumScanModel { outcome: Err(e), consumed: consumed },
        None => NumScanModel { outcome: Ok((raw, base, kind)), consumed: consumed },
    }
}

/// The optional exponent part after a whole or fractional literal `raw`:
/// a marker, an optional sign, and a mandatory decimal digit run.
pub open spec fn scan_exponent(
    raw: Seq<char>,
    kind: NumericKind,
    s: Seq<char>,
    consumed: int,
    seen_dot: bool,
) -> NumScanModel {
    if s.len() > 0 && (s[0] == 'e' || s[0] == 'E') {
        let pre: int = if s.len() > 1 && (s[1] == '+' || s[1] == '-') {
            2
        } else {
            1
        };
        let d = spec_digest(s.skip(pre), 10, false, false, seen_dot, true, false);
        match d.outcome {
            Ok(run) => finish_number(
                raw + s.take(pre) + run,
                NumericBase::Decimal,
                NumericKind::Exponential,
                10,
                false,
                true,
                true,
                consumed + pre + d.consumed,
            ),
            Err(e) => NumScanModel { outcome: Err(e), consumed: consumed + pre },
        }
    } else {
        finish_number(raw, NumericBase::Decimal, kind, 10, false, false, true, consumed)
    }
}

/// The rescanned digits of an explicitly based literal, after the `b`
/// marker: the selector names the radix, and the literal's digits are a
/// mandatory run under it.
pub open spec fn scan_based(selector: Seq<char>, s: Seq<char>, consumed: int) -> NumScanModel {
    match selector_base(selector) {
        None => NumScanModel {
            outcome: Err(ErrorModel::InvalidNumericBase { base: selector }),
            consumed: consumed,
        },
        Some(base) => {
            let b64 = base == NumericBase::Base64;
            let radix: u32 = if b64 {
                10
            } else {
                radix_of_base(base)
            };
            let d = spec_digest(s, radix, true, b64, false, false, false);
            match d.outcome {
                Ok(run) => finish_number(
                    run,
                    base,
                    NumericKind::Whole,
                    radix,
                    b64,
                    false,
                    false,
                    consumed + d.consumed,
                ),
                Err(e) => NumScanModel { outcome: Err(e), consumed: consumed },
            }
        },
    }
}

/// One whole numeric literal, after its first character `start` (a
/// decimal digit or a leading fractional dot) has been consumed; `tail`
/// is the input after `start`.
pub open spec fn scan_number(start: char, tail: Seq<char>) -> NumScanModel {
    if start == '.' {
        let d = spec_digest(tail, 10, false, false, true, false, false);
        match d.outcome {
            Ok(run) => scan_exponent(
                seq![start] + run,
                NumericKind::Fractional,
                tail.skip(d.consumed),
                d.consumed,
                true,
            ),
            Err(e) => NumScanModel { outcome: Err(e), consumed: 0 },
        }
    } else {
        let n1 = run_len(tail, false, false, false);
        let raw1 = seq![start] + tail.take(n1);
        let rest1 = tail.skip(n1);
        if rest1.len() > 0 && (rest1[0] == 'b' || rest1[0] == 'B') {
            scan_based(raw1, rest1.skip(1), n1 + 1)
        } else if rest1.len() > 0 && rest1[0] == '.' {
            let d = spec_digest(rest1.skip(1), 10, false, false, true, false, false);
            match d.outcome {
                Ok(run) => scan_exponent(
                    raw1 + seq!['.'] + run,
                    NumericKind::Fractional,
                    rest1.skip(1 + d.consumed),
                    n1 + 1 + d.consumed,
                    true,
                ),
                Err(e) => NumScanModel { outcome: Err(e), consumed: n1 + 1 },
            }
        } else {
            scan_exponent(raw1, NumericKind::Whole, rest1, n1, false)
        }
    }
}

/// Indexing into a suffix reads the original sequence shifted by the cut.
pub proof fn lemma_skip_index(s: Seq<char>, n: int, i: int)
    requires
        0 <= n,
        0 <= i,
        n + i < s.len(),
    ensures
        s.skip(n)[i] == s[n + i],
{
    assert(s.skip(n) == s.subrange(n, s.len() as int));
    assert(s.subrange(n, s.len() as int)[i] == s[n + i]);
}

/// Two successive cuts into a sequence are one cut at their sum.
pub proof fn lemma_skip_skip(s: Seq<char>, a: int, b: int)
    requires
        0 <= a,
        0 <= b,
        a + b <= s.len(),
    ensures
        s.skip(a).skip(b) == s.skip(a + b),
{
    assert forall|i: int| 0 <= i < s.len() - a - b implies s.skip(a).skip(b)[i] == s.skip(a + b)[i] by {
        lemma_skip_index(s, a + b, i);
        lemma_skip_index(s, a, b + i);
        lemma_skip_index(s.skip(a), b, i);
    }
    assert(s.skip(a).skip(b) =~= s.skip(a + b));
}

/// A prefix, extended by the next piece of the rest, is the longer
/// prefix.
pub proof fn lemma_take_skip_take(s: Seq<char>, a: int, b: int)
    requires
        0 <= a,
        0 <= b,
        a + b <= s.len(),
    ensures
        s.take(a) + s.skip(a).take(b) == s.take(a + b),
{
    assert forall|i: int| 0 <= i < a + b implies (s.take(a) + s.skip(a).take(b))[i] == s.take(
        a + b,
    )[i] by {
        if i >= a {
            lemma_skip_index(s, a, i - a);
        }
    }
    assert(s.take(a) + s.skip(a).take(b) =~= s.take(a + b));
}

/// The whitespace prefix is exactly that: whitespace up to its length,
/// and, unless the input ran out, a non-whitespace character right after.
pub proof fn lemma_ws_prefix(s: Seq<char>)
    ensures
        0 <= ws_prefix_len(s) <= s.len(),
        forall|i: int| 0 <= i < ws_prefix_len(s) ==> is_space_char(s[i]),
        ws_prefix_len(s) < s.len() ==> !is_space_char(s[ws_prefix_len(s)]),
    decreases s.len(),
{
    if s.len() > 0 && is_space_char(s[0]) {
        lemma_ws_prefix(s.drop_first());
        assert forall|i: int| 0 <= i < ws_prefix_len(s) implies is_space_char(s[i]) by {
            if i > 0 {
                assert(s[i] == s.drop_first()[i - 1]);
            }
        }
        if ws_prefix_len(s) < s.len() {
            assert(s[ws_prefix_len(s)] == s.drop_first()[ws_prefix_len(s) - 1]);
        }
    }
}

/// Any cut after all-whitespace and before non-whitespace is the
/// whitespace prefix length.
pub proof fn lemma_ws_prefix_is(s: Seq<char>, j: int)
    requires
        0 <= j <= s.len(),
        forall|i: int| 0 <= i < j ==> is_space_char(s[i]),
        j < s.len() ==> !is_space_char(s[j]),
    ensures
        ws_prefix_len(s) == j,
{
    lemma_ws_prefix(s);
    let r = ws_prefix_len(s);
    if r < j {
        assert(is_space_char(s[r]));
    }
    if r > j {
        assert(is_space_char(s[j]));
    }
}

/// A digit run is exactly that: no stopping character up to its length,
/// and, unless the input ran out, a stopping character right after.
pub proof fn lemma_run_len(s: Seq<char>, based: bool, seen_dot: bool, seen_exp: bool)
    ensures
        0 <= run_len(s, based, seen_dot, seen_exp) <= s.len(),
        forall|i: int|
            0 <= i < run_len(s, based, seen_dot, seen_exp) ==> !digest_stop(
                s[i],
                based,
                seen_dot,
                seen_exp,
            ),
        run_len(s, based, seen_dot, seen_exp) < s.len() ==> digest_stop(
            s[run_len(s, based, seen_dot, seen_exp)],
            based,
            seen_dot,
            seen_exp,
        ),
    decreases s.len(),
{
    let r = run_len(s, based, seen_dot, seen_exp);
    if s.len() > 0 && !digest_stop(s[0], based, seen_dot, seen_exp) {
        lemma_run_len(s.drop_first(), based, seen_dot, seen_exp);
        assert forall|i: int| 0 <= i < r implies !digest_stop(s[i], based, seen_dot, seen_exp) by {
            if i > 0 {
                assert(s[i] == s.drop_first()[i - 1]);
            }
        }
        if r < s.len() {
            assert(s[r] == s.drop_first()[r - 1]);
        }
    }
}

/// Any cut after non-stopping characters and before a stopping one is the
/// run length.
pub proof fn lemma_run_len_is(s: Seq<char>, based: bool, seen_dot: bool, seen_exp: bool, j: int)
    requires
        0 <= j <= s.len(),
        forall|i: int| 0 <= i < j ==> !digest_stop(s[i], based, seen_dot, seen_exp),
        j < s.len() ==> digest_stop(s[j], based, seen_dot, seen_exp),
    ensures
        run_len(s, based, seen_dot, seen_exp) == j,
{
    lemma_run_len(s, based, seen_dot, seen_exp);
    let r = run_len(s, based, seen_dot, seen_exp);
    if r < j {
        assert(!digest_stop(s[r], based, seen_dot, seen_exp));
    }
    if r > j {
        assert(!digest_stop(s[j], based, seen_dot, seen_exp));
    }
}

/// The first-quote index is exactly that: no quote before it, and a quote
/// at it if there is one at all.
pub proof fn lemma_quote_index(s: Seq<char>)
    ensures
        quote_index(s) >= 0 ==> 0 <= quote_index(s) < s.len() && s[quote_index(s)] == '"'
            && forall|i: int| 0 <= i < quote_index(s) ==> s[i] != '"',
        quote_index(s) < 0 ==> forall|i: int| 0 <= i < s.len() ==> s[i] != '"',
    decreases s.len(),
{
    if s.len() > 0 && s[0] != '"' {
        lemma_quote_index(s.drop_first());
        let q = quote_index(s);
        if q >= 0 {
            assert(s[q] == s.drop_first()[q - 1]);
            assert forall|i: int| 0 <= i < q implies s[i] != '"' by {
                if i > 0 {
                    assert(s[i] == s.drop_first()[i - 1]);
                }
            }
        } else {
            assert forall|i: int| 0 <= i < s.len() implies s[i] != '"' by {
                if i > 0 {
                    assert(s[i] == s.drop_first()[i - 1]);
                }
            }
        }
    }
}

/// A position with a quote and no quote before it is the first-quote
/// index.
pub proof fn lemma_quote_index_is(s: Seq<char>, j: int)
    requires
        0 <= j < s.len(),
        s[j] == '"',
        forall|i: int| 0 <= i < j ==> s[i] != '"',
    ensures
        quote_index(s) == j,
{
    lemma_quote_index(s);
    let q = quote_index(s);
    if q < 0 {
        assert(s[j] != '"');
    } else if q < j {
        assert(s[q] != '"');
    } else if q > j {
        assert(s[j] != '"');
    }
}

/// An input without any quote has no first-quote index.
pub proof fn lemma_quote_index_none(s: Seq<char>)
    requires
        forall|i: int| 0 <= i < s.len() ==> s[i] != '"',
    ensures
        quote_index(s) < 0,
{
    lemma_quote_index(s);
    let q = quote_index(s);
    if q >= 0 {
        assert(s[q] != '"');
    }
}

/// A numeric scan outcome as a token outcome.
pub open spec fn numeric_outcome(n: NumScanModel) -> Result<TokenModel, ErrorModel> {
    match n.outcome {
        Ok(t) => Ok(TokenModel::Numeric { raw: t.0, base: t.1, kind: t.2 }),
        Err(e) => Err(e),
    }
}

/// Outcome of dispatching one already consumed character: the token or
/// error, the characters consumed beyond the dispatch character, and the
/// new delimiter depth table.
pub ghost struct StepModel {
    pub outcome: Result<TokenModel, ErrorModel>,
    pub consumed: int,
    pub depths: Seq<int>,
}

/// The depth table of a fresh stream: every family at zero.
pub open spec fn zero_depths() -> Seq<int> {
    seq![0, 0, 0, 0, 0, 0]
}

/// The total number of recorded opens across all families.
pub open spec fn depth_total(d: Seq<int>) -> int
    recommends
        d.len() == 6,
{
    d[0] + d[1] + d[2] + d[3] + d[4] + d[5]
}

/// Dispatch of one consumed character `c`, with `tail` the input after it
/// and `depths` the current depth table.
///
/// An opener reports its family's depth before the open; a closer is
/// rejected when its family has no recorded open, and otherwise reports
/// the depth after the close. A decimal digit or a dot starts a numeric
/// literal, a quote starts a string literal, and any other character is
/// unrecognised.
pub open spec fn spec_transform(c: char, tail: Seq<char>, depths: Seq<int>) -> StepModel {
    if is_opener(c) {
        let f = family_of(c);
        StepModel {
            outcome: Ok(
                TokenModel::Delimiter {
                    raw: c,
                    kind: DelimiterKindModel::Opening { depth: depths[f] },
                },
            ),
            consumed: 0,
            depths: depths.update(f, depths[f] + 1),
        }
    } else if is_closer(c) {
        let f = family_of(c);
        if depths[f] >= 1 {
            StepModel {
                outcome: Ok(
                    TokenModel::Delimiter {
                        raw: c,
                        kind: DelimiterKindModel::Closing { depth: depths[f] - 1 },
                    },
                ),
                consumed: 0,
                depths: depths.update(f, depths[f] - 1),
            }
        } else {
            StepModel {
                outcome: Err(
                    ErrorModel::MismatchedDelimiter { symbol: c, required: spec_partner(c) },
                ),
                consumed: 0,
                depths: depths,
            }
        }
    } else if is_digit_of(c, 10) || c == '.' {
        let n = scan_number(c, tail);
        StepModel { outcome: numeric_outcome(n), consumed: n.consumed, depths: depths }
    } else if c == '"' {
        let q = quote_index(tail);
        if q >= 0 {
            StepModel {
                outcome: Ok(TokenModel::StringLiteral { text: tail.take(q) }),
                consumed: q + 1,
                depths: depths,
            }
        } else {
            StepModel {
                outcome: Err(
                    ErrorModel::StringLiteralCollapse {
                        expected: "\""@,
                        received: TokenModel::EOF,
                    },
                ),
                consumed: tail.len() as int,
                depths: depths,
            }
        }
    } else {
        StepModel {
            outcome: Err(ErrorModel::UnrecognizedToken { symbol: c }),
            consumed: 0,
            depths: depths,
        }
    }
}

/// A digest consumes at most the whole input handed to it.
pub proof fn lemma_digest_bounds(
    s: Seq<char>,
    radix: u32,
    based: bool,
    b64: bool,
    seen_dot: bool,
    seen_exp: bool,
    allow_empty: bool,
)
    ensures
        0 <= spec_digest(s, radix, based, b64, seen_dot, seen_exp, allow_empty).consumed
            <= s.len(),
{
    lemma_run_len(s, based, seen_dot, seen_exp);
}

/// The exponent stage consumes at most the input ahead of it.
pub proof fn lemma_scan_exponent_bounds(
    raw: Seq<char>,
    kind: NumericKind,
    s: Seq<char>,
    consumed: int,
    seen_dot: bool,
)
    ensures
        consumed <= scan_exponent(raw, kind, s, consumed, seen_dot).consumed <= consumed
            + s.len(),
{
    if s.len() > 0 && (s[0] == 'e' || s[0] == 'E') {
        let pre: int = if s.len() > 1 && (s[1] == '+' || s[1] == '-') {
            2
        } else {
            1
        };
        lemma_digest_bounds(s.skip(pre), 10, false, false, seen_dot, true, false);
    }
}

/// The rescan after a base declaration consumes at most the input ahead
/// of it.
pub proof fn lemma_scan_based_bounds(selector: Seq<char>, s: Seq<char>, consumed: int)
    ensures
        consumed <= scan_based(selector, s, consumed).consumed <= consumed + s.len(),
{
    match selector_base(selector) {
        None => {},
        Some(base) => {
            let b64 = base == NumericBase::Base64;
            let radix: u32 = if b64 {
                10
            } else {
                radix_of_base(base)
            };
            lemma_digest_bounds(s, radix, true, b64, false, false, false);
        },
    }
}

/// A numeric scan consumes at most the input after its first character.
pub proof fn lemma_scan_number_bounds(start: char, tail: Seq<char>)
    ensures
        0 <= scan_number(start, tail).consumed <= tail.len(),
{
    if start == '.' {
        let d = spec_digest(tail, 10, false, false, true, false, false);
        lemma_digest_bounds(tail, 10, false, false, true, false, false);
        match d.outcome {
            Ok(_) => {
                lemma_scan_exponent_bounds(
                    seq![start] + d.outcome->Ok_0,
                    NumericKind::Fractional,
                    tail.skip(d.consumed),
                    d.consumed,
                    true,
                );
            },
            Err(_) => {},
        }
    } else {
        let n1 = run_len(tail, false, false, false);
        lemma_run_len(tail, false, false, false);
        let raw1 = seq![start] + tail.take(n1);
        let rest1 = tail.skip(n1);
        if rest1.len() > 0 && (rest1[0] == 'b' || rest1[0] == 'B') {
            lemma_scan_based_bounds(raw1, rest1.skip(1), n1 + 1);
        } else if rest1.len() > 0 && rest1[0] == '.' {
            let d = spec_digest(rest1.skip(1), 10, false, false, true, false, false);
            lemma_digest_bounds(rest1.skip(1), 10, false, false, true, false, false);
            match d.outcome {
                Ok(_) => {
                    lemma_scan_exponent_bounds(
                        raw1 + seq!['.'] + d.outcome->Ok_0,
                        NumericKind::Fractional,
                        rest1.skip(1 + d.consumed),
                        n1 + 1 + d.consumed,
                        true,
                    );
                },
                Err(_) => {},
            }
        } else {
            lemma_scan_exponent_bounds(raw1, NumericKind::Whole, rest1, n1, false);
        }
    }
}

/// One dispatch consumes at most the input ahead of it, keeps the depth
/// table's length, and never yields the end-of-input token.
pub proof fn lemma_transform_bounds(c: char, tail: Seq<char>, depths: Seq<int>)
    requires
        depths.len() == 6,
    ensures
        ({
            let st = spec_transform(c, tail, depths);
            &&& 0 <= st.consumed <= tail.len()
            &&& st.depths.len() == depths.len()
            &&& st.outcome != Ok::<TokenModel, ErrorModel>(TokenModel::EOF)
        }),
{
    if is_opener(c) || is_closer(c) {
    } else if is_digit_of(c, 10) || c == '.' {
        lemma_scan_number_bounds(c, tail);
    } else if c == '"' {
        lemma_quote_index(tail);
    }
}

/// One `next_token` step stays inside the input, keeps the depth table's
/// length, and moves the cursor forward unless it reports end-of-input.
pub proof fn lemma_next_bounds(input: Seq<char>, pos: int, depths: Seq<int>)
    requires
        0 <= pos <= input.len(),
        depths.len() == 6,
    ensures
        ({
            let n = spec_next(input, pos, depths);
            &&& pos <= n.pos <= input.len()
            &&& n.depths.len() == depths.len()
            &&& (n.outcome == Ok::<TokenModel, ErrorModel>(TokenModel::EOF) || n.pos > pos)
        }),
{
    lemma_ws_prefix(input.skip(pos));
    let p = pos + ws_prefix_len(input.skip(pos));
    if p < input.len() {
        lemma_transform_bounds(input[p], input.skip(p + 1), depths);
    }
}

/// Outcome of one whole `next_token` call: the token or error, the cursor
/// position after the call, and the new depth table.
pub ghost struct NextModel {
    pub outcome: Result<TokenModel, ErrorModel>,
    pub pos: int,
    pub depths: Seq<int>,
}

/// One whole `next_token` call on input `input` at cursor `pos` with
/// depth table `depths`: skip whitespace, then report end-of-input or
/// consume one character and dispatch on it.
pub open spec fn spec_next(input: Seq<char>, pos: int, depths: Seq<int>) -> NextModel {
    let p = pos + ws_prefix_len(input.skip(pos));
    if p >= input.len() {
        NextModel { outcome: Ok(TokenModel::EOF), pos: p, depths: depths }
    } else {
        let c = input[p];
        let st = spec_transform(c, input.skip(p + 1), depths);
        NextModel { outcome: st.outcome, pos: p + 1 + st.consumed, depths: st.depths }
    }
}

} // verus!
