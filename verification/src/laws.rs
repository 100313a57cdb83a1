//! Scanner-wide properties, stated over the abstract model and proved.
//!
//! The contracts in [`crate::lexer`] pin every call of `next_token` to the
//! pure step function [`crate::scan::spec_next`]. The lemmas here state
//! what follows for whole scans: how a fresh stream treats each delimiter
//! pair, that a closer without an open is always rejected, that an
//! error-free scan's tokens reassemble the input, and that scanning is
//! pure.

use vstd::prelude::*;

use crate::chars::{family_of, is_closer, is_digit_of, is_opener, is_space_char, spec_partner};
use crate::lexer::Lexer;
use crate::scan::{
    lemma_digest_bounds, lemma_next_bounds, lemma_quote_index, lemma_run_len,
    lemma_scan_exponent_bounds, lemma_skip_index, lemma_skip_skip, lemma_take_skip_take,
    lemma_transform_bounds, lemma_ws_prefix, quote_index, run_len, scan_exponent, scan_number,
    spec_digest, spec_next, spec_transform, ws_prefix_len, zero_depths,
};
use crate::token::{DelimiterKindModel, ErrorModel, NumericKind, TokenModel};

verus! {

/// The token sequence of a complete scan of `input` from `pos` with depth
/// table `depths`: every token up to end-of-input, or nothing at all if
/// any step reports an error.
pub open spec fn scan_tokens(input: Seq<char>, pos: int, depths: Seq<int>) -> Option<
    Seq<TokenModel>,
>
    decreases input.len() - pos,
    when 0 <= pos <= input.len()
{
    let n = spec_next(input, pos, depths);
    match n.outcome {
        Ok(t) => {
            if t == TokenModel::EOF {
                Some(Seq::<TokenModel>::empty())
            } else if pos < n.pos <= input.len() {
                match scan_tokens(input, n.pos, n.depths) {
                    Some(ts) => Some(seq![t] + ts),
                    None => None,
                }
            } else {
                None
            }
        },
        Err(_) => None,
    }
}

/// On a fresh stream, each of the six delimiter pairs behaves the same
/// way: the opening member yields an opening token at depth 0, and the
/// matching closer immediately after yields a closing token at depth 0
/// with no error, leaving every family back at depth 0.
pub proof fn lemma_first_open_then_close(c: char)
    requires
        is_opener(c),
    ensures
        ({
            let input = seq![c, spec_partner(c)];
            let s1 = spec_next(input, 0, zero_depths());
            let s2 = spec_next(input, s1.pos, s1.depths);
            &&& s1.outcome == Ok::<TokenModel, ErrorModel>(
                TokenModel::Delimiter { raw: c, kind: DelimiterKindModel::Opening { depth: 0 } },
            )
            &&& s1.pos == 1
            &&& s2.outcome == Ok::<TokenModel, ErrorModel>(
                TokenModel::Delimiter {
                    raw: spec_partner(c),
                    kind: DelimiterKindModel::Closing { depth: 0 },
                },
            )
            &&& s2.pos == 2
            &&& s2.depths == zero_depths()
        }),
{
    let input = seq![c, spec_partner(c)];
    let p = spec_partner(c);
    assert(!is_space_char(c) && !is_space_char(p));
    assert(is_closer(p) && !is_opener(p));
    assert(family_of(p) == family_of(c));
    assert(input.skip(0) =~= input);
    assert(ws_prefix_len(input) == 0);
    let s1 = spec_next(input, 0, zero_depths());
    let f = family_of(c);
    assert(zero_depths()[f] == 0);
    assert(s1.depths == zero_depths().update(f, 1));
    assert(input.skip(1) =~= seq![p]);
    assert(ws_prefix_len(input.skip(1)) == 0);
    let s2 = spec_next(input, 1, s1.depths);
    assert(s1.depths[f] == 1);
    assert(s2.depths == s1.depths.update(f, 0));
    assert(s2.depths =~= zero_depths());
}

/// Closing any family whose depth is zero always fails with a
/// mismatched-delimiter error naming the required opener, and neither
/// consumes input nor changes any depth.
pub proof fn lemma_close_at_depth_zero(c: char, tail: Seq<char>, depths: Seq<int>)
    requires
        is_closer(c),
        depths.len() == 6,
        depths[family_of(c)] == 0,
    ensures
        ({
            let st = spec_transform(c, tail, depths);
            &&& st.outcome == Err::<TokenModel, ErrorModel>(
                ErrorModel::MismatchedDelimiter { symbol: c, required: spec_partner(c) },
            )
            &&& st.consumed == 0
            &&& st.depths == depths
        }),
{
    assert(!is_opener(c));
}

/// The piece of source text a token stands for: its raw characters, with
/// a string literal's quotes restored. The reserved and end-of-input
/// tokens stand for no text.
pub open spec fn token_text(t: TokenModel) -> Seq<char> {
    match t {
        TokenModel::EOF => Seq::<char>::empty(),
        TokenModel::Delimiter { raw, .. } => seq![raw],
        TokenModel::Operator { raw } => raw,
        TokenModel::Identifier { raw } => raw,
        TokenModel::Character { raw } => seq![raw],
        TokenModel::Numeric { raw, .. } => raw,
        TokenModel::StringLiteral { text } => seq!['"'] + text + seq!['"'],
    }
}

/// Nothing but whitespace.
pub open spec fn all_spaces(s: Seq<char>) -> bool {
    forall|i: int| 0 <= i < s.len() ==> is_space_char(#[trigger] s[i])
}

/// The texts of `ts` interleaved with the whitespace gaps around them:
/// one gap before each token and one after the last.
pub open spec fn interleave(gaps: Seq<Seq<char>>, ts: Seq<TokenModel>) -> Seq<char>
    recommends
        gaps.len() == ts.len() + 1,
    decreases ts.len(),
{
    if ts.len() == 0 {
        if gaps.len() == 0 {
            Seq::<char>::empty()
        } else {
            gaps[0]
        }
    } else {
        gaps[0] + token_text(ts[0]) + interleave(gaps.drop_first(), ts.drop_first())
    }
}

/// Whether a numeric literal beginning at `start` declares an explicit
/// base. Such a literal's token keeps only the rescanned digits, so the
/// base selector and the marker appear in no token's text.
pub open spec fn takes_base_branch(start: char, tail: Seq<char>) -> bool {
    start != '.' && {
        let rest1 = tail.skip(run_len(tail, false, false, false));
        rest1.len() > 0 && (rest1[0] == 'b' || rest1[0] == 'B')
    }
}

/// Whether a complete scan of `input` from `pos` meets no explicit base
/// declaration.
pub open spec fn scan_undecorated(input: Seq<char>, pos: int, depths: Seq<int>) -> bool
    decreases input.len() - pos,
    when 0 <= pos <= input.len()
{
    let p = pos + ws_prefix_len(input.skip(pos));
    if p >= input.len() {
        true
    } else {
        let c = input[p];
        let n = spec_next(input, pos, depths);
        &&& !((is_digit_of(c, 10) || c == '.') && takes_base_branch(c, input.skip(p + 1)))
        &&& match n.outcome {
            Ok(t) => t == TokenModel::EOF || !(pos < n.pos <= input.len()) || scan_undecorated(
                input,
                n.pos,
                n.depths,
            ),
            Err(_) => true,
        }
    }
}

/// An exponential literal's token text extends the text collected so far
/// by exactly the characters the exponent stage consumed.
pub proof fn lemma_scan_exponent_text(
    raw: Seq<char>,
    kind: NumericKind,
    s: Seq<char>,
    consumed: int,
    seen_dot: bool,
)
    ensures
        ({
            let e = scan_exponent(raw, kind, s, consumed, seen_dot);
            match e.outcome {
                Ok(t) => t.0 == raw + s.take(e.consumed - consumed),
                Err(_) => true,
            }
        }),
{
    let e = scan_exponent(raw, kind, s, consumed, seen_dot);
    if s.len() > 0 && (s[0] == 'e' || s[0] == 'E') {
        let pre: int = if s.len() > 1 && (s[1] == '+' || s[1] == '-') {
            2
        } else {
            1
        };
        let d = spec_digest(s.skip(pre), 10, false, false, seen_dot, true, false);
        match d.outcome {
            Ok(run) => {
                lemma_digest_bounds(s.skip(pre), 10, false, false, seen_dot, true, false);
                lemma_take_skip_take(s, pre, d.consumed);
                assert(raw + s.take(pre) + run =~= raw + s.take(pre + d.consumed));
            },
            Err(_) => {},
        }
    } else {
        assert(raw + s.take(0) =~= raw);
    }
}

/// An undecorated numeric literal's token text is exactly its first
/// character followed by everything the scan consumed after it.
pub proof fn lemma_scan_number_text(start: char, tail: Seq<char>)
    requires
        !takes_base_branch(start, tail),
    ensures
        ({
            let n = scan_number(start, tail);
            match n.outcome {
                Ok(t) => t.0 == seq![start] + tail.take(n.consumed),
                Err(_) => true,
            }
        }),
{
    let n = scan_number(start, tail);
    if start == '.' {
        let d = spec_digest(tail, 10, false, false, true, false, false);
        match d.outcome {
            Ok(run) => {
                lemma_digest_bounds(tail, 10, false, false, true, false, false);
                let raw1 = seq![start] + run;
                lemma_scan_exponent_text(
                    raw1,
                    NumericKind::Fractional,
                    tail.skip(d.consumed),
                    d.consumed,
                    true,
                );
                let e = scan_exponent(
                    raw1,
                    NumericKind::Fractional,
                    tail.skip(d.consumed),
                    d.consumed,
                    true,
                );
                match e.outcome {
                    Ok(t) => {
                        lemma_scan_exponent_bounds(
                            raw1,
                            NumericKind::Fractional,
                            tail.skip(d.consumed),
                            d.consumed,
                            true,
                        );
                        lemma_take_skip_take(tail, d.consumed, e.consumed - d.consumed);
                        assert(t.0 =~= seq![start] + tail.take(e.consumed));
                    },
                    Err(_) => {},
                }
            },
            Err(_) => {},
        }
    } else {
        let n1 = run_len(tail, false, false, false);
        lemma_run_len(tail, false, false, false);
        let raw1 = seq![start] + tail.take(n1);
        let rest1 = tail.skip(n1);
        if rest1.len() > 0 && rest1[0] == '.' {
            let d = spec_digest(rest1.skip(1), 10, false, false, true, false, false);
            match d.outcome {
                Ok(run2) => {
                    lemma_digest_bounds(rest1.skip(1), 10, false, false, true, false, false);
                    lemma_skip_skip(tail, n1, 1);
                    let raw2 = raw1 + seq!['.'] + run2;
                    let c2 = n1 + 1 + d.consumed;
                    lemma_scan_exponent_text(
                        raw2,
                        NumericKind::Fractional,
                        rest1.skip(1 + d.consumed),
                        c2,
                        true,
                    );
                    let e = scan_exponent(
                        raw2,
                        NumericKind::Fractional,
                        rest1.skip(1 + d.consumed),
                        c2,
                        true,
                    );
                    match e.outcome {
                        Ok(t) => {
                            lemma_scan_exponent_bounds(
                                raw2,
                                NumericKind::Fractional,
                                rest1.skip(1 + d.consumed),
                                c2,
                                true,
                            );
                            lemma_skip_index(tail, n1, 0);
                            assert(seq!['.'] =~= tail.skip(n1).take(1));
                            lemma_take_skip_take(tail, n1, 1);
                            assert(raw1 + seq!['.'] =~= seq![start] + tail.take(n1 + 1));
                            lemma_skip_skip(tail, n1 + 1, d.consumed);
                            lemma_take_skip_take(tail, n1 + 1, d.consumed);
                            assert(run2 == tail.skip(n1 + 1).take(d.consumed));
                            assert(raw2 =~= seq![start] + tail.take(c2));
                            lemma_skip_skip(tail, n1, 1 + d.consumed);
                            assert(rest1.skip(1 + d.consumed) == tail.skip(c2));
                            lemma_take_skip_take(tail, c2, e.consumed - c2);
                            assert(t.0 =~= seq![start] + tail.take(e.consumed));
                        },
                        Err(_) => {},
                    }
                },
                Err(_) => {},
            }
        } else if !(rest1.len() > 0 && (rest1[0] == 'b' || rest1[0] == 'B')) {
            lemma_scan_exponent_text(raw1, NumericKind::Whole, rest1, n1, false);
            let e = scan_exponent(raw1, NumericKind::Whole, rest1, n1, false);
            match e.outcome {
                Ok(t) => {
                    lemma_scan_exponent_bounds(raw1, NumericKind::Whole, rest1, n1, false);
                    lemma_take_skip_take(tail, n1, e.consumed - n1);
                    assert(t.0 =~= seq![start] + tail.take(e.consumed));
                },
                Err(_) => {},
            }
        }
    }
}

/// One successful step's consumed segment is its leading whitespace
/// followed by the token's text, unless the step produced end-of-input or
/// scanned an explicitly based literal.
pub proof fn lemma_step_text(input: Seq<char>, pos: int, depths: Seq<int>)
    requires
        0 <= pos <= input.len(),
        depths.len() == 6,
    ensures
        ({
            let n = spec_next(input, pos, depths);
            let p = pos + ws_prefix_len(input.skip(pos));
            match n.outcome {
                Ok(t) => t == TokenModel::EOF || (p < input.len() && (is_digit_of(input[p], 10)
                    || input[p] == '.') && takes_base_branch(input[p], input.skip(p + 1))) || {
                    &&& input.subrange(pos, n.pos) == input.subrange(pos, p) + token_text(t)
                    &&& all_spaces(input.subrange(pos, p))
                },
                Err(_) => true,
            }
        }),
{
    let n = spec_next(input, pos, depths);
    lemma_ws_prefix(input.skip(pos));
    let ws = ws_prefix_len(input.skip(pos));
    let p = pos + ws;
    assert forall|i: int| 0 <= i < ws implies is_space_char(
        #[trigger] input.subrange(pos, p)[i],
    ) by {
        lemma_skip_index(input, pos, i);
    }
    assert(all_spaces(input.subrange(pos, p)));
    if p < input.len() {
        let c = input[p];
        let tail = input.skip(p + 1);
        let st = spec_transform(c, tail, depths);
        lemma_transform_bounds(c, tail, depths);
        match st.outcome {
            Ok(t) => {
                if is_opener(c) || is_closer(c) {
                    assert(input.subrange(pos, n.pos) =~= input.subrange(pos, p) + seq![c]);
                } else if (is_digit_of(c, 10) || c == '.') && !takes_base_branch(c, tail) {
                    lemma_scan_number_text(c, tail);
                    assert forall|i: int|
                        0 <= i < n.pos - pos implies input.subrange(pos, n.pos)[i] == (
                    input.subrange(pos, p) + (seq![c] + tail.take(st.consumed)))[i] by {
                        if i > ws {
                            lemma_skip_index(input, p + 1, i - ws - 1);
                        }
                    }
                    assert(input.subrange(pos, n.pos) =~= input.subrange(pos, p) + (seq![c]
                        + tail.take(st.consumed)));
                } else if c == '"' && !(is_digit_of(c, 10) || c == '.') {
                    let q = quote_index(tail);
                    lemma_quote_index(tail);
                    assert(q >= 0);
                    assert(token_text(t) == seq!['"'] + tail.take(q) + seq!['"']);
                    assert forall|i: int|
                        0 <= i < n.pos - pos implies input.subrange(pos, n.pos)[i] == (
                    input.subrange(pos, p) + (seq!['"'] + tail.take(q) + seq!['"']))[i] by {
                        if i > ws {
                            lemma_skip_index(input, p + 1, i - ws - 1);
                        }
                    }
                    assert(input.subrange(pos, n.pos) =~= input.subrange(pos, p) + (seq!['"']
                        + tail.take(q) + seq!['"']));
                }
            },
            Err(_) => {},
        }
    }
}

/// Round trip: an error-free scan that meets no explicit base declaration
/// reassembles its input — from `pos` on, the input is exactly the
/// tokens' texts in order, interleaved with whitespace-only gaps, the
/// string literals' quotes restored.
///
/// An explicitly based literal such as `2b1011010` is left out by the
/// premise: its token keeps only the rescanned digits, so the selector
/// and the marker would be missing from the reassembled text.
pub proof fn lemma_round_trip(input: Seq<char>, pos: int, depths: Seq<int>)
    requires
        0 <= pos <= input.len(),
        depths.len() == 6,
        scan_tokens(input, pos, depths) is Some,
        scan_undecorated(input, pos, depths),
    ensures
        ({
            let ts = scan_tokens(input, pos, depths)->Some_0;
            exists|gaps: Seq<Seq<char>>|
                {
                    &&& gaps.len() == ts.len() + 1
                    &&& (forall|i: int| 0 <= i < gaps.len() ==> all_spaces(#[trigger] gaps[i]))
                    &&& input.skip(pos) == interleave(gaps, ts)
                }
        }),
    decreases input.len() - pos,
{
    let n = spec_next(input, pos, depths);
    lemma_next_bounds(input, pos, depths);
    lemma_ws_prefix(input.skip(pos));
    let ws = ws_prefix_len(input.skip(pos));
    let p = pos + ws;
    let ts = scan_tokens(input, pos, depths)->Some_0;
    match n.outcome {
        Ok(t) => {
            if t == TokenModel::EOF {
                let gaps = seq![input.skip(pos)];
                assert(ts =~= Seq::<TokenModel>::empty());
                assert(p == input.len());
                assert(all_spaces(input.skip(pos)));
                assert(interleave(gaps, ts) == gaps[0]);
                assert({
                    &&& gaps.len() == ts.len() + 1
                    &&& (forall|i: int| 0 <= i < gaps.len() ==> all_spaces(#[trigger] gaps[i]))
                    &&& input.skip(pos) == interleave(gaps, ts)
                });
            } else {
                lemma_step_text(input, pos, depths);
                assert(p < input.len());
                lemma_round_trip(input, n.pos, n.depths);
                let ts1 = scan_tokens(input, n.pos, n.depths)->Some_0;
                assert(ts == seq![t] + ts1);
                let gaps1 = choose|g: Seq<Seq<char>>|
                    {
                        &&& g.len() == ts1.len() + 1
                        &&& (forall|i: int| 0 <= i < g.len() ==> all_spaces(#[trigger] g[i]))
                        &&& input.skip(n.pos) == interleave(g, ts1)
                    };
                let gap0 = input.subrange(pos, p);
                let gaps = seq![gap0] + gaps1;
                assert(gaps.drop_first() =~= gaps1);
                assert(ts.drop_first() =~= ts1);
                assert(ts[0] == t);
                assert(gaps[0] == gap0);
                assert(interleave(gaps, ts) == gap0 + token_text(t) + interleave(gaps1, ts1));
                assert(input.subrange(pos, n.pos) == gap0 + token_text(t));
                assert forall|i: int|
                    0 <= i < input.len() - pos implies input.skip(pos)[i] == (input.subrange(
                    pos,
                    n.pos,
                ) + input.skip(n.pos))[i] by {
                    lemma_skip_index(input, pos, i);
                    if i >= n.pos - pos {
                        lemma_skip_index(input, n.pos, i - (n.pos - pos));
                    }
                }
                assert(input.skip(pos) =~= input.subrange(pos, n.pos) + input.skip(n.pos));
                assert(input.skip(pos) =~= (gap0 + token_text(t)) + interleave(gaps1, ts1));
                assert(input.skip(pos) =~= interleave(gaps, ts));
                assert forall|i: int| 0 <= i < gaps.len() implies all_spaces(
                    #[trigger] gaps[i],
                ) by {
                    if i > 0 {
                        assert(gaps[i] == gaps1[i - 1]);
                    }
                }
                assert({
                    &&& gaps.len() == ts.len() + 1
                    &&& (forall|i: int| 0 <= i < gaps.len() ==> all_spaces(#[trigger] gaps[i]))
                    &&& input.skip(pos) == interleave(gaps, ts)
                });
            }
        },
        Err(_) => {
            assert(false);
        },
    }
}

/// Scanning is pure: the outcome of one step, and with it the token
/// sequence of a whole scan, is a function of the stream's abstract state
/// alone. Two lexers with equal views — in particular two fresh streams
/// over the same input — therefore return the very same tokens, step by
/// step, since `next_token`'s contract pins its result and successor
/// state to `spec_next` of the view.
pub proof fn lemma_rescan_identical(a: Lexer, b: Lexer)
    requires
        a@ == b@,
    ensures
        spec_next(a@.input, a@.pos, a@.depths) == spec_next(b@.input, b@.pos, b@.depths),
        0 <= a@.pos <= a@.input.len() ==> scan_tokens(a@.input, a@.pos, a@.depths) == scan_tokens(
            b@.input,
            b@.pos,
            b@.depths,
        ),
{
}

} // verus!
