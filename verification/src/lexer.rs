//! The executable token stream.
//!
//! A [`Lexer`] owns one scan session: the input as a sequence of
//! codepoints, a cursor with line/column/offset bookkeeping, the six
//! delimiter-family depth counters, and the scratch flags of the numeric
//! scanner. Every character consumed passes through [`Lexer::consume_space`],
//! the single point that keeps the position bookkeeping consistent.
//!
//! The abstraction of a lexer is a [`LexerModel`]: the input, the cursor
//! position, and the depth table. Each public method's contract says how
//! the model evolves in terms of the pure scanner model in [`crate::scan`].

use vstd::prelude::*;

use vstd::std_specs::iter::IteratorSpec;

use crate::chars::{col_of, digit_of, is_space, lemma_position_bounds, line_of};
use crate::scan::{
    collapse_at, depth_total, digest_stop, lemma_quote_index_is, lemma_quote_index_none,
    lemma_run_len_is, lemma_skip_index, lemma_skip_skip, lemma_ws_prefix_is, numeric_outcome,
    quote_index, run_len, scan_number, spec_digest, spec_next, spec_transform, zero_depths,
};
use crate::token::{DelimitersKind, LexerError, Numeric, NumericBase, NumericKind, TokenModel, TokenType};

verus! {

broadcast use vstd::string::group_string_axioms;

/// The abstraction of a scan session: what has been given to the lexer,
/// how far it has read, and how many opens each delimiter family has.
pub ghost struct LexerModel {
    /// The complete input text.
    pub input: Seq<char>,
    /// The cursor: how many codepoints have been consumed.
    pub pos: int,
    /// The nesting depth of each of the six delimiter families, indexed by
    /// [`crate::chars::family_of`].
    pub depths: Seq<int>,
}

/// The input still ahead of the cursor.
pub open spec fn spec_remaining(m: LexerModel) -> Seq<char> {
    m.input.skip(m.pos)
}

/// What every reachable lexer satisfies: the cursor is inside the input,
/// the input length leaves headroom for one-past-the-end arithmetic, and
/// the depth table records six non-negative counts whose total is covered
/// by consumed characters (every open consumed its opener).
pub open spec fn stream_wf(m: LexerModel) -> bool {
    &&& 0 <= m.pos <= m.input.len()
    &&& m.input.len() < usize::MAX
    &&& m.depths.len() == 6
    &&& forall|i: int| 0 <= i < 6 ==> 0 <= #[trigger] m.depths[i]
    &&& depth_total(m.depths) <= m.pos
}

/// One lexical scan session over an immutable input text.
#[derive(Debug, Clone)]
pub struct Lexer {
    /// Line of the cursor, starting at 1; a consumed line feed begins a
    /// new line.
    pub cur_line: usize,
    /// Column of the cursor, starting at 1 on each line.
    pub cur_col: usize,
    /// Absolute codepoint offset of the cursor.
    pub codepoint_offset: usize,
    /// Scratch radix of the numeric scanner, reset for each literal.
    pub radix: u32,
    /// Scratch flag: the literal is a base-64 literal.
    pub b64: bool,
    /// Scratch flag: a base declaration has been seen.
    pub based: bool,
    /// Scratch flag: a fractional dot has been seen.
    pub seen_dot: bool,
    /// Scratch flag: an exponent marker has been seen.
    pub seen_exp: bool,
    /// The input as codepoints.
    pub chars: Vec<char>,
    /// The cursor into `chars`.
    pub pos: usize,
    /// Nesting depth of the function family.
    pub d_function: usize,
    /// Nesting depth of the parameter-list family.
    pub d_parameter: usize,
    /// Nesting depth of the object family.
    pub d_object: usize,
    /// Nesting depth of the vector family.
    pub d_vector: usize,
    /// Nesting depth of the array family.
    pub d_array: usize,
    /// Nesting depth of the join/group family.
    pub d_join: usize,
}

impl View for Lexer {
    type V = LexerModel;

    open spec fn view(&self) -> LexerModel {
        LexerModel {
            input: self.chars@,
            pos: self.pos as int,
            depths: seq![
                self.d_function as int,
                self.d_parameter as int,
                self.d_object as int,
                self.d_vector as int,
                self.d_array as int,
                self.d_join as int,
            ],
        }
    }
}

impl Lexer {
    /// Well-formedness: the model is a reachable stream state and the
    /// public position fields agree with the characters consumed so far.
    pub open spec fn wf(&self) -> bool {
        &&& stream_wf(self@)
        &&& self.codepoint_offset == self.pos
        &&& self.cur_line == line_of(self.chars@, self.pos as int)
        &&& self.cur_col == col_of(self.chars@, self.pos as int)
    }

    /// The position tracker's contract: offset, line, and column are the
    /// ones determined by the consumed prefix of the input.
    pub open spec fn tracks_positions(&self) -> bool {
        &&& self.codepoint_offset == self@.pos
        &&& self.cur_line == line_of(self@.input, self@.pos)
        &&& self.cur_col == col_of(self@.input, self@.pos)
    }

    /// A fresh token stream over `chars`, at line 1 and column 1, with
    /// every delimiter family at depth zero.
    ///
    /// The input must leave one codepoint of headroom below `usize::MAX`
    /// so that positions one past the end remain representable.
    pub fn new(chars: &str) -> (l: Lexer)
        requires
            chars@.len() < usize::MAX,
        ensures
            l.wf(),
            l@.input == chars@,
            l@.pos == 0,
            l@.depths == zero_depths(),
            l.tracks_positions(),
            l.cur_line == 1,
            l.cur_col == 1,
            l.codepoint_offset == 0,
    {
        let mut input: Vec<char> = Vec::new();
        let mut it = chars.chars();
        loop
            invariant
                input@ + it.remaining() =~= chars@,
                input@.len() <= chars@.len(),
            ensures
                input@ =~= chars@,
            decreases chars@.len() - input@.len(),
        {
            match it.next() {
                Some(c) => {
                    input.push(c);
                },
                None => {
                    proof {
                        assert(it.remaining().len() == 0);
                        assert(input@ =~= chars@);
                    }
                    break ;
                },
            }
        }
        let l = Lexer {
            cur_col: 1,
            cur_line: 1,
            codepoint_offset: 0,
            radix: 10,
            b64: false,
            based: false,
            seen_dot: false,
            seen_exp: false,
            chars: input,
            pos: 0,
            d_function: 0,
            d_parameter: 0,
            d_object: 0,
            d_vector: 0,
            d_array: 0,
            d_join: 0,
        };
        proof {
            assert(l@.depths =~= zero_depths());
        }
        l
    }

    /// The next character, if any, without consuming it.
    fn peek(&self) -> (r: Option<char>)
        ensures
            r == (if self@.pos < self@.input.len() {
                Some(self@.input[self@.pos])
            } else {
                None::<char>
            }),
    {
        if self.pos < self.chars.len() {
            Some(self.chars[self.pos])
        } else {
            None
        }
    }

    /// Consume one codepoint and return it, or report exhaustion.
    ///
    /// This is the single point through which all input consumption
    /// passes: the column always moves one to the right, a consumed line
    /// feed starts the next line at column 1, and the absolute offset
    /// grows by one.
    fn consume_space(&mut self) -> (r: Option<char>)
        requires
            old(self).wf(),
        ensures
            final(self).wf(),
            final(self)@.input == old(self)@.input,
            final(self)@.depths == old(self)@.depths,
            final(self).radix == old(self).radix,
            final(self).b64 == old(self).b64,
            final(self).based == old(self).based,
            final(self).seen_dot == old(self).seen_dot,
            final(self).seen_exp == old(self).seen_exp,
            if old(self)@.pos < old(self)@.input.len() {
                r == Some(old(self)@.input[old(self)@.pos]) && final(self)@.pos == old(self)@.pos
                    + 1
            } else {
                r == None::<char> && final(self)@.pos == old(self)@.pos
            },
    {
        if self.pos < self.chars.len() {
            let c = self.chars[self.pos];
            proof {
                lemma_position_bounds(self.chars@, self.pos as int);
            }
            self.cur_col = self.cur_col + 1;
            if c == '\n' {
                self.cur_line = self.cur_line + 1;
                self.cur_col = 1;
            }
            self.codepoint_offset = self.codepoint_offset + 1;
            self.pos = self.pos + 1;
            Some(c)
        } else {
            None
        }
    }

    /// Consume the whitespace run ahead of the cursor, if any.
    fn skip_spaces(&mut self)
        requires
            old(self).wf(),
        ensures
            final(self).wf(),
            final(self)@.input == old(self)@.input,
            final(self)@.depths == old(self)@.depths,
            final(self).radix == old(self).radix,
            final(self).b64 == old(self).b64,
            final(self).based == old(self).based,
            final(self).seen_dot == old(self).seen_dot,
            final(self).seen_exp == old(self).seen_exp,
            final(self)@.pos == old(self)@.pos + crate::scan::ws_prefix_len(
                spec_remaining(old(self)@),
            ),
    {
        let ghost start = self@.pos;
        let ghost tail = spec_remaining(self@);
        loop
            invariant
                self.wf(),
                self@.input == old(self)@.input,
                self@.depths == old(self)@.depths,
                self.radix == old(self).radix,
                self.b64 == old(self).b64,
                self.based == old(self).based,
                self.seen_dot == old(self).seen_dot,
                self.seen_exp == old(self).seen_exp,
                start <= self@.pos <= self@.input.len(),
                tail == self@.input.skip(start),
                forall|i: int|
                    start <= i < self@.pos ==> crate::chars::is_space_char(
                        #[trigger] self@.input[i],
                    ),
            ensures
                self@.pos == self@.input.len() || !crate::chars::is_space_char(
                    self@.input[self@.pos],
                ),
            decreases self@.input.len() - self@.pos,
        {
            match self.peek() {
                Some(c) => {
                    if !is_space(c) {
                        break ;
                    }
                    self.consume_space();
                },
                None => {
                    break ;
                },
            }
        }
        proof {
            let m = self@;
            assert forall|i: int| 0 <= i < m.pos - start implies crate::chars::is_space_char(
                #[trigger] tail[i],
            ) by {
                assert(tail[i] == m.input[start + i]);
            }
            if m.pos - start < tail.len() {
                assert(tail[m.pos - start] == m.input[m.pos]);
            }
            lemma_ws_prefix_is(tail, m.pos - start);
        }
    }

    /// The partner of a delimiter symbol in the fixed bidirectional
    /// pairing table: an opener's closer, a closer's required opener.
    fn map_delimiters(c: char) -> (r: char)
        requires
            crate::chars::is_delimiter(c),
        ensures
            r == crate::chars::spec_partner(c),
    {
        match c {
            '|' => '~',
            '~' => '|',
            ',' => '-',
            '-' => ',',
            '{' => '}',
            '}' => '{',
            '<' => '>',
            '>' => '<',
            '[' => ']',
            ']' => '[',
            '(' => ')',
            _ => '(',
        }
    }

    /// Record one more open of `c`'s family and return the depth before
    /// the open.
    ///
    /// The opener `c` has already been consumed, so the depth total is
    /// strictly below the cursor and the increment cannot overflow.
    fn open_delimiters(&mut self, c: char) -> (d: usize)
        requires
            old(self).wf(),
            crate::chars::is_opener(c),
            depth_total(old(self)@.depths) < old(self)@.pos,
        ensures
            final(self).wf(),
            final(self)@.input == old(self)@.input,
            final(self)@.pos == old(self)@.pos,
            final(self).radix == old(self).radix,
            final(self).b64 == old(self).b64,
            final(self).based == old(self).based,
            final(self).seen_dot == old(self).seen_dot,
            final(self).seen_exp == old(self).seen_exp,
            d as int == old(self)@.depths[crate::chars::family_of(c)],
            final(self)@.depths == old(self)@.depths.update(
                crate::chars::family_of(c),
                old(self)@.depths[crate::chars::family_of(c)] + 1,
            ),
    {
        let d: usize;
        match c {
            '|' => {
                d = self.d_function;
                self.d_function = d + 1;
            },
            ',' => {
                d = self.d_parameter;
                self.d_parameter = d + 1;
            },
            '{' => {
                d = self.d_object;
                self.d_object = d + 1;
            },
            '<' => {
                d = self.d_vector;
                self.d_vector = d + 1;
            },
            '[' => {
                d = self.d_array;
                self.d_array = d + 1;
            },
            _ => {
                d = self.d_join;
                self.d_join = d + 1;
            },
        }
        proof {
            assert(final(self)@.depths =~= old(self)@.depths.update(
                crate::chars::family_of(c),
                old(self)@.depths[crate::chars::family_of(c)] + 1,
            ));
        }
        d
    }

    /// Record one close of `c`'s family and return the depth after the
    /// close, or reject the closer when its family has no open to match,
    /// naming the opener it required.
    fn close_delimiters(&mut self, c: char) -> (r: Result<usize, LexerError>)
        requires
            old(self).wf(),
            crate::chars::is_closer(c),
        ensures
            final(self).wf(),
            final(self)@.input == old(self)@.input,
            final(self)@.pos == old(self)@.pos,
            final(self).radix == old(self).radix,
            final(self).b64 == old(self).b64,
            final(self).based == old(self).based,
            final(self).seen_dot == old(self).seen_dot,
            final(self).seen_exp == old(self).seen_exp,
            ({
                let f = crate::chars::family_of(c);
                let d0 = old(self)@.depths;
                if d0[f] >= 1 {
                    &&& final(self)@.depths == d0.update(f, d0[f] - 1)
                    &&& match r {
                        Ok(d) => d as int == d0[f] - 1,
                        Err(_) => false,
                    }
                } else {
                    &&& final(self)@.depths == d0
                    &&& match r {
                        Ok(_) => false,
                        Err(e) => e@ == crate::token::ErrorModel::MismatchedDelimiter {
                            symbol: c,
                            required: crate::chars::spec_partner(c),
                        },
                    }
                }
            }),
    {
        let d: usize;
        match c {
            '~' => {
                d = self.d_function;
            },
            '-' => {
                d = self.d_parameter;
            },
            '}' => {
                d = self.d_object;
            },
            '>' => {
                d = self.d_vector;
            },
            ']' => {
                d = self.d_array;
            },
            _ => {
                d = self.d_join;
            },
        }
        if d >= 1 {
            match c {
                '~' => {
                    self.d_function = d - 1;
                },
                '-' => {
                    self.d_parameter = d - 1;
                },
                '}' => {
                    self.d_object = d - 1;
                },
                '>' => {
                    self.d_vector = d - 1;
                },
                ']' => {
                    self.d_array = d - 1;
                },
                _ => {
                    self.d_join = d - 1;
                },
            }
            proof {
                let f = crate::chars::family_of(c);
                assert(final(self)@.depths =~= old(self)@.depths.update(
                    f,
                    old(self)@.depths[f] - 1,
                ));
            }
            Ok(d - 1)
        } else {
            Err(
                LexerError::MismatchedDelimiter {
                    symbol: c,
                    required: Lexer::map_delimiters(c),
                },
            )
        }
    }

    /// A quoted run of characters, entered after its opening quote was
    /// consumed: everything up to the next `"` verbatim, or a collapse
    /// error if the input ends first.
    fn parse_string(&mut self) -> (r: Result<TokenType, LexerError>)
        requires
            old(self).wf(),
        ensures
            final(self).wf(),
            final(self)@.input == old(self)@.input,
            final(self)@.depths == old(self)@.depths,
            ({
                let tail = spec_remaining(old(self)@);
                let q = quote_index(tail);
                if q >= 0 {
                    &&& final(self)@.pos == old(self)@.pos + q + 1
                    &&& match r {
                        Ok(t) => t@ == TokenModel::StringLiteral { text: tail.take(q) },
                        Err(_) => false,
                    }
                } else {
                    &&& final(self)@.pos == old(self)@.input.len()
                    &&& match r {
                        Ok(_) => false,
                        Err(e) => e@ == crate::token::ErrorModel::StringLiteralCollapse {
                            expected: "\""@,
                            received: TokenModel::EOF,
                        },
                    }
                }
            }),
    {
        let ghost start = self@.pos;
        let ghost tail = spec_remaining(self@);
        let mut buf: Vec<char> = Vec::new();
        loop
            invariant
                self.wf(),
                self@.input == old(self)@.input,
                self@.depths == old(self)@.depths,
                0 <= start <= self@.pos <= self@.input.len(),
                start == old(self)@.pos,
                tail == self@.input.skip(start),
                tail == spec_remaining(old(self)@),
                buf@ == self@.input.subrange(start, self@.pos),
                forall|i: int| start <= i < self@.pos ==> #[trigger] self@.input[i] != '"',
            decreases self@.input.len() - self@.pos,
        {
            let ghost before = self@.pos;
            match self.consume_space() {
                Some(ch) => {
                    if ch == '"' {
                        proof {
                            assert forall|i: int| 0 <= i < before - start implies #[trigger] tail[i]
                                != '"' by {
                                crate::scan::lemma_skip_index(self@.input, start, i);
                            }
                            crate::scan::lemma_skip_index(self@.input, start, before - start);
                            assert(tail[before - start] == self@.input[before]);
                            lemma_quote_index_is(tail, before - start);
                            assert forall|i: int|
                                0 <= i < before - start implies buf@[i] == tail.take(
                                before - start,
                            )[i] by {
                                crate::scan::lemma_skip_index(self@.input, start, i);
                            }
                            assert(buf@ =~= tail.take(before - start));
                        }
                        return Ok(TokenType::StringLiteral(Lexer::to_string_vec(&buf)));
                    }
                    buf.push(ch);
                    proof {
                        assert(buf@ =~= self@.input.subrange(start, self@.pos));
                    }
                },
                None => {
                    proof {
                        assert forall|i: int| 0 <= i < tail.len() implies #[trigger] tail[i]
                            != '"' by {
                            crate::scan::lemma_skip_index(self@.input, start, i);
                        }
                        lemma_quote_index_none(tail);
                    }
                    return Err(
                        LexerError::StringLiteralCollapse {
                            expected: String::from_str("\""),
                            received: TokenType::EOF,
                        },
                    );
                },
            }
        }
    }

    /// Whether digit collection stops at `c` under the current scratch
    /// flags.
    fn is_stop(&self, c: char) -> (r: bool)
        ensures
            r == digest_stop(c, self.based, self.seen_dot, self.seen_exp),
    {
        if is_space(c) {
            true
        } else if !self.based && !self.seen_dot && !self.seen_exp && (c == '.' || c == 'e' || c
            == 'E' || c == 'b' || c == 'B') {
            true
        } else if !self.based && self.seen_dot && !self.seen_exp && (c == 'e' || c == 'E') {
            true
        } else {
            false
        }
    }

    /// The error for a digit run that had to be non-empty but collapsed
    /// at `at`.
    fn collapse_error(at: TokenType) -> (r: LexerError)
        ensures
            r@ == collapse_at(at@),
    {
        LexerError::NumericLiteralCollapse {
            received: at,
            expected: Numeric {
                raw: String::from_str("<int>"),
                base: NumericBase::Any,
                kind: NumericKind::Any,
            },
        }
    }

    /// Collect one digit run under the current scratch flags.
    ///
    /// With `empty` the run may be empty and never fails; otherwise it
    /// collapses unless it begins with a digit of the active radix (for
    /// base 64: any non-whitespace character). Collection stops, without
    /// consuming, at whitespace or at a marker that is still meaningful.
    fn digest_digit(&mut self, empty: bool) -> (r: Result<Vec<char>, LexerError>)
        requires
            old(self).wf(),
        ensures
            final(self).wf(),
            final(self)@.input == old(self)@.input,
            final(self)@.depths == old(self)@.depths,
            final(self).radix == old(self).radix,
            final(self).b64 == old(self).b64,
            final(self).based == old(self).based,
            final(self).seen_dot == old(self).seen_dot,
            final(self).seen_exp == old(self).seen_exp,
            ({
                let d = spec_digest(
                    spec_remaining(old(self)@),
                    old(self).radix,
                    old(self).based,
                    old(self).b64,
                    old(self).seen_dot,
                    old(self).seen_exp,
                    empty,
                );
                &&& final(self)@.pos == old(self)@.pos + d.consumed
                &&& match r {
                    Ok(v) => d.outcome == Ok::<Seq<char>, crate::token::ErrorModel>(v@),
                    Err(e) => d.outcome == Err::<Seq<char>, crate::token::ErrorModel>(e@),
                }
            }),
    {
        let ghost start = self@.pos;
        let ghost tail = spec_remaining(self@);
        if !empty {
            match self.peek() {
                None => {
                    return Err(Lexer::collapse_error(TokenType::EOF));
                },
                Some(c) => {
                    let ok = if self.b64 {
                        !is_space(c)
                    } else {
                        digit_of(c, self.radix)
                    };
                    if !ok {
                        proof {
                            crate::scan::lemma_skip_index(self@.input, start, 0);
                        }
                        return Err(Lexer::collapse_error(TokenType::Character(c)));
                    }
                },
            }
        }
        let mut raw: Vec<char> = Vec::new();
        loop
            invariant
                self.wf(),
                self@.input == old(self)@.input,
                self@.depths == old(self)@.depths,
                self.radix == old(self).radix,
                self.b64 == old(self).b64,
                self.based == old(self).based,
                self.seen_dot == old(self).seen_dot,
                self.seen_exp == old(self).seen_exp,
                0 <= start <= self@.pos <= self@.input.len(),
                start == old(self)@.pos,
                tail == spec_remaining(old(self)@),
                raw@ == self@.input.subrange(start, self@.pos),
                forall|i: int|
                    start <= i < self@.pos ==> !digest_stop(
                        #[trigger] self@.input[i],
                        old(self).based,
                        old(self).seen_dot,
                        old(self).seen_exp,
                    ),
            ensures
                self@.pos == self@.input.len() || digest_stop(
                    self@.input[self@.pos],
                    old(self).based,
                    old(self).seen_dot,
                    old(self).seen_exp,
                ),
            decreases self@.input.len() - self@.pos,
        {
            match self.peek() {
                Some(c) => {
                    if self.is_stop(c) {
                        break ;
                    }
                    self.consume_space();
                    raw.push(c);
                    proof {
                        assert(raw@ =~= self@.input.subrange(start, self@.pos));
                    }
                },
                None => {
                    break ;
                },
            }
        }
        proof {
            let m = self@;
            assert forall|i: int| 0 <= i < m.pos - start implies !digest_stop(
                #[trigger] tail[i],
                old(self).based,
                old(self).seen_dot,
                old(self).seen_exp,
            ) by {
                crate::scan::lemma_skip_index(m.input, start, i);
            }
            if m.pos - start < tail.len() {
                crate::scan::lemma_skip_index(m.input, start, m.pos - start);
            }
            lemma_run_len_is(
                tail,
                old(self).based,
                old(self).seen_dot,
                old(self).seen_exp,
                m.pos - start,
            );
            assert forall|i: int|
                0 <= i < m.pos - start implies raw@[i] == tail.take(m.pos - start)[i] by {
                crate::scan::lemma_skip_index(m.input, start, i);
            }
            assert(raw@ =~= tail.take(m.pos - start));
        }
        Ok(raw)
    }

    /// The validation pass over a collected literal: every character must
    /// be a digit of the resolved radix, one `.` is tolerated where the
    /// shape may still be fractional, a second one is an invalid
    /// fraction, and exponent characters are exempt once an exponent was
    /// seen. Base-64 literals are accepted whole.
    fn digit_digest(&self, raw: &Vec<char>) -> (r: Result<(), LexerError>)
        ensures
            ({
                let v = crate::scan::spec_validate_all(
                    raw@,
                    self.radix,
                    self.b64,
                    self.seen_exp,
                    !self.based,
                );
                match r {
                    Ok(_) => v == None::<crate::token::ErrorModel>,
                    Err(e) => v == Some(e@),
                }
            }),
    {
        if self.b64 {
            return Ok(());
        }
        let allow_dot = !self.based;
        let mut local_dot = false;
        let mut i: usize = 0;
        while i < raw.len()
            invariant
                i <= raw.len(),
                crate::scan::spec_validate(
                    raw@,
                    0,
                    self.radix,
                    self.seen_exp,
                    allow_dot,
                    false,
                ) == crate::scan::spec_validate(
                    raw@,
                    i as int,
                    self.radix,
                    self.seen_exp,
                    allow_dot,
                    local_dot,
                ),
                allow_dot == !self.based,
                !self.b64,
            decreases raw.len() - i,
        {
            let c = raw[i];
            if (c == 'e' || c == 'E' || c == '+' || c == '-') && self.seen_exp {
                // exempt exponent characters
            } else if !digit_of(c, self.radix) && !(c == '.' && allow_dot) {
                let invalid = Lexer::char_string(c);
                let text = Lexer::to_string_vec(raw);
                if self.radix == 2 {
                    return Err(LexerError::InvalidBinaryValue { raw: text, invalid });
                } else if self.radix == 8 {
                    return Err(LexerError::InvalidOctalValue { raw: text, invalid });
                } else if self.radix == 16 {
                    return Err(LexerError::InvalidHexadecimalValue { raw: text, invalid });
                } else {
                    return Err(LexerError::InvalidDecimalValue { raw: text, invalid });
                }
            } else if c == '.' && local_dot {
                return Err(
                    LexerError::InvalidFractionalValue {
                        raw: Lexer::to_string_vec(raw),
                        received: Lexer::char_string('.'),
                    },
                );
            } else if c == '.' {
                local_dot = true;
            }
            i = i + 1;
        }
        Ok(())
    }

    /// The numeral system a collected base selector names, or the error
    /// that it names none.
    fn map_num_to_base(raw: &Vec<char>) -> (r: Result<NumericBase, LexerError>)
        ensures
            match r {
                Ok(b) => crate::scan::selector_base(raw@) == Some(b),
                Err(e) => crate::scan::selector_base(raw@) == None::<NumericBase> && e@
                    == crate::token::ErrorModel::InvalidNumericBase { base: raw@ },
            },
    {
        if raw.len() == 1 && raw[0] == '2' {
            Ok(NumericBase::Binary)
        } else if raw.len() == 1 && raw[0] == '8' {
            Ok(NumericBase::Octal)
        } else if raw.len() == 2 && raw[0] == '1' && raw[1] == '0' {
            Ok(NumericBase::Decimal)
        } else if raw.len() == 2 && raw[0] == '1' && raw[1] == '6' {
            Ok(NumericBase::Hexadecimal)
        } else if raw.len() == 2 && raw[0] == '6' && raw[1] == '4' {
            Ok(NumericBase::Base64)
        } else {
            Err(LexerError::InvalidNumericBase { base: Lexer::to_string_vec(raw) })
        }
    }

    /// The radix of a resolved numeral system.
    fn map_base_to_num(n: &NumericBase) -> (r: u32)
        requires
            *n != NumericBase::Any,
        ensures
            r == crate::scan::radix_of_base(*n),
    {
        match n {
            NumericBase::Binary => 2,
            NumericBase::Octal => 8,
            NumericBase::Decimal => 10,
            NumericBase::Hexadecimal => 16,
            NumericBase::Base64 => 64,
            NumericBase::Any => 10,
        }
    }

    /// One numeric literal, entered with its first character `start` (a
    /// decimal digit or a leading fractional dot) already consumed.
    ///
    /// Resolves the literal's shape and numeral system as
    /// [`crate::scan::scan_number`] describes, collects its text, and
    /// validates the text against the resolved radix.
    #[verifier::rlimit(100)]
    #[verifier::spinoff_prover]
    fn parse_numbers(&mut self, start: char) -> (r: Result<TokenType, LexerError>)
        requires
            old(self).wf(),
            crate::chars::is_digit_of(start, 10) || start == '.',
        ensures
            final(self).wf(),
            final(self)@.input == old(self)@.input,
            final(self)@.depths == old(self)@.depths,
            ({
                let n = scan_number(start, spec_remaining(old(self)@));
                &&& final(self)@.pos == old(self)@.pos + n.consumed
                &&& match r {
                    Ok(t) => numeric_outcome(n) == Ok::<TokenModel, crate::token::ErrorModel>(t@),
                    Err(e) => numeric_outcome(n) == Err::<TokenModel, crate::token::ErrorModel>(
                        e@,
                    ),
                }
            }),
    {
        self.radix = 10;
        self.b64 = false;
        self.based = false;
        self.seen_dot = false;
        self.seen_exp = false;
        let ghost pos0 = self@.pos;
        let ghost tail = spec_remaining(self@);
        let mut raw: Vec<char> = Vec::new();
        raw.push(start);
        let mut kind = NumericKind::Whole;
        let mut base = NumericBase::Decimal;
        if start == '.' {
            self.seen_dot = true;
            kind = NumericKind::Fractional;
            let mut run = match self.digest_digit(false) {
                Ok(v) => v,
                Err(e) => {
                    return Err(e);
                },
            };
            raw.append(&mut run);
            proof {
                let d = spec_digest(tail, 10, false, false, true, false, false);
                crate::scan::lemma_run_len(tail, false, true, false);
                assert(raw@ =~= seq![start] + d.outcome->Ok_0);
                lemma_skip_skip(self@.input, pos0, d.consumed);
            }
        } else {
            let mut run = match self.digest_digit(true) {
                Ok(v) => v,
                Err(e) => {
                    return Err(e);
                },
            };
            raw.append(&mut run);
            let ghost n1 = run_len(tail, false, false, false);
            let ghost rest1 = tail.skip(n1);
            proof {
                crate::scan::lemma_run_len(tail, false, false, false);
                assert(raw@ =~= seq![start] + tail.take(n1));
                lemma_skip_skip(self@.input, pos0, n1);
                assert(spec_remaining(self@) == rest1);
            }
            let mut marker = false;
            match self.peek() {
                Some(c) => {
                    if c == 'b' || c == 'B' {
                        marker = true;
                    }
                    proof {
                        lemma_skip_index(self@.input, self@.pos, 0);
                        assert(rest1.len() > 0 && rest1[0] == c);
                    }
                },
                None => {
                    proof {
                        assert(rest1.len() == 0);
                    }
                },
            }
            if marker {
                self.consume_space();
                proof {
                    lemma_skip_skip(tail, n1, 1);
                    assert(spec_remaining(self@) == rest1.skip(1));
                }
                let sel = raw;
                base = match Lexer::map_num_to_base(&sel) {
                    Ok(b) => b,
                    Err(e) => {
                        return Err(e);
                    },
                };
                raw = Vec::new();
                if base == NumericBase::Base64 {
                    self.b64 = true;
                    self.radix = 10;
                } else {
                    self.radix = Lexer::map_base_to_num(&base);
                }
                self.based = true;
                let run2 = match self.digest_digit(false) {
                    Ok(v) => v,
                    Err(e) => {
                        return Err(e);
                    },
                };
                raw = run2;
                match self.digit_digest(&raw) {
                    Ok(_) => {},
                    Err(e) => {
                        return Err(e);
                    },
                }
                return Ok(
                    TokenType::Numeric {
                        raw: Lexer::to_string_vec(&raw),
                        base: base,
                        kind: NumericKind::Whole,
                    },
                );
            }
            let mut dot = false;
            match self.peek() {
                Some(c) => {
                    if c == '.' {
                        dot = true;
                    }
                },
                None => {},
            }
            if dot {
                self.consume_space();
                raw.push('.');
                self.seen_dot = true;
                kind = NumericKind::Fractional;
                proof {
                    lemma_skip_skip(tail, n1, 1);
                    assert(spec_remaining(self@) == rest1.skip(1));
                }
                let mut run2 = match self.digest_digit(false) {
                    Ok(v) => v,
                    Err(e) => {
                        return Err(e);
                    },
                };
                raw.append(&mut run2);
                proof {
                    let d = spec_digest(rest1.skip(1), 10, false, false, true, false, false);
                    crate::scan::lemma_run_len(rest1.skip(1), false, true, false);
                    assert(raw@ =~= (seq![start] + tail.take(n1)) + seq!['.']
                        + d.outcome->Ok_0);
                    lemma_skip_skip(tail, n1 + 1, d.consumed);
                    lemma_skip_skip(rest1, 1, d.consumed);
                    lemma_skip_skip(self@.input, pos0, n1 + 1 + d.consumed);
                }
            }
        }
        // Optional exponent part, shared by the whole and fractional paths.
        let ghost raw_pre = raw@;
        let ghost rest_pre = spec_remaining(self@);
        let ghost p_pre = self@.pos;
        let ghost sd = self.seen_dot;
        let mut expm = false;
        let mut expc = 'e';
        match self.peek() {
            Some(c) => {
                if c == 'e' || c == 'E' {
                    expm = true;
                    expc = c;
                }
                proof {
                    lemma_skip_index(self@.input, p_pre, 0);
                    assert(rest_pre.len() > 0 && rest_pre[0] == c);
                }
            },
            None => {
                proof {
                    assert(rest_pre.len() == 0);
                }
            },
        }
        if expm {
            self.consume_space();
            raw.push(expc);
            kind = NumericKind::Exponential;
            base = NumericBase::Decimal;
            self.seen_exp = true;
            let mut sign = false;
            let mut signc = '+';
            match self.peek() {
                Some(c) => {
                    if c == '+' || c == '-' {
                        sign = true;
                        signc = c;
                    }
                    proof {
                        lemma_skip_index(self@.input, p_pre, 1);
                        assert(rest_pre.len() > 1 && rest_pre[1] == c);
                    }
                },
                None => {},
            }
            let ghost pre: int = if sign {
                2
            } else {
                1
            };
            if sign {
                self.consume_space();
                raw.push(signc);
            }
            proof {
                assert(raw@ =~= raw_pre + rest_pre.take(pre));
                lemma_skip_skip(self@.input, p_pre, pre);
                assert(spec_remaining(self@) == rest_pre.skip(pre));
            }
            let mut run3 = match self.digest_digit(false) {
                Ok(v) => v,
                Err(e) => {
                    return Err(e);
                },
            };
            raw.append(&mut run3);
            proof {
                let d = spec_digest(rest_pre.skip(pre), 10, false, false, sd, true, false);
                assert(raw@ =~= raw_pre + rest_pre.take(pre) + d.outcome->Ok_0);
            }
        }
        match self.digit_digest(&raw) {
            Ok(_) => {},
            Err(e) => {
                return Err(e);
            },
        }
        Ok(TokenType::Numeric { raw: Lexer::to_string_vec(&raw), base: base, kind: kind })
    }

    /// Classify one already consumed character `c` and produce its token:
    /// delimiters go to the depth tracker, a decimal digit or dot starts
    /// a numeric literal, a quote starts a string literal, and anything
    /// else is an unrecognised token.
    ///
    /// An opener may only be applied when the depth total is strictly
    /// below the cursor, which holds whenever the opener itself was just
    /// consumed; it keeps the family's counter from outgrowing the input.
    pub fn transform_content(&mut self, c: char) -> (r: Result<TokenType, LexerError>)
        requires
            old(self).wf(),
            crate::chars::is_opener(c) ==> depth_total(old(self)@.depths) < old(self)@.pos,
        ensures
            final(self).wf(),
            stream_wf(final(self)@),
            final(self).tracks_positions(),
            final(self)@.input == old(self)@.input,
            ({
                let st = spec_transform(c, spec_remaining(old(self)@), old(self)@.depths);
                &&& final(self)@.pos == old(self)@.pos + st.consumed
                &&& final(self)@.depths == st.depths
                &&& match r {
                    Ok(t) => st.outcome == Ok::<TokenModel, crate::token::ErrorModel>(t@),
                    Err(e) => st.outcome == Err::<TokenModel, crate::token::ErrorModel>(e@),
                }
            }),
    {
        match c {
            ',' | '|' | '{' | '[' | '<' | '(' => {
                let d = self.open_delimiters(c);
                Ok(TokenType::Delimiters { raw: c, kind: DelimitersKind::Opening(d) })
            },
            '-' | '~' | '}' | ']' | '>' | ')' => {
                match self.close_delimiters(c) {
                    Ok(d) => Ok(TokenType::Delimiters { raw: c, kind: DelimitersKind::Closing(d) }),
                    Err(e) => Err(e),
                }
            },
            '"' => self.parse_string(),
            _ => {
                if digit_of(c, 10) || c == '.' {
                    self.parse_numbers(c)
                } else {
                    Err(LexerError::UnrecognizedToken { symbol: c })
                }
            },
        }
    }

    /// Produce the next token: skip whitespace, then report end-of-input
    /// or consume one character and dispatch on it.
    ///
    /// Exactly one token or one error is produced per call; every call
    /// that produces a token other than end-of-input consumes at least
    /// one character, and the whole step is the function
    /// [`crate::scan::spec_next`] of the stream's abstract state alone.
    pub fn next_token(&mut self) -> (r: Result<TokenType, LexerError>)
        requires
            old(self).wf(),
        ensures
            final(self).wf(),
            stream_wf(final(self)@),
            final(self).tracks_positions(),
            final(self)@.input == old(self)@.input,
            ({
                let n = spec_next(old(self)@.input, old(self)@.pos, old(self)@.depths);
                &&& final(self)@.pos == n.pos
                &&& final(self)@.depths == n.depths
                &&& match r {
                    Ok(t) => n.outcome == Ok::<TokenModel, crate::token::ErrorModel>(t@),
                    Err(e) => n.outcome == Err::<TokenModel, crate::token::ErrorModel>(e@),
                }
            }),
    {
        self.skip_spaces();
        let ghost p = self@.pos;
        match self.consume_space() {
            Some(c) => {
                proof {
                    lemma_skip_index(self@.input, p, 0);
                }
                self.transform_content(c)
            },
            None => Ok(TokenType::EOF),
        }
    }

    /// One character as an owned string.
    fn char_string(c: char) -> (s: String)
        ensures
            s@ == seq![c],
    {
        let mut s = String::new();
        Lexer::push_char(&mut s, c);
        proof {
            assert(s@ =~= seq![c]);
        }
        s
    }

    /// Relies on `String::push`: appends the given character to the end
    /// of the string.
    #[verifier::external_body]
    fn push_char(s: &mut String, c: char)
        ensures
            final(s)@ == old(s)@.push(c),
    {
        s.push(c);
    }

    /// The characters of `v` as an owned string.
    fn to_string_vec(v: &Vec<char>) -> (s: String)
        ensures
            s@ == v@,
    {
        let mut s = String::new();
        let mut i: usize = 0;
        while i < v.len()
            invariant
                i <= v.len(),
                s@ == v@.take(i as int),
            decreases v.len() - i,
        {
            Lexer::push_char(&mut s, v[i]);
            i = i + 1;
            proof {
                assert(s@ =~= v@.take(i as int));
            }
        }
        proof {
            assert(s@ =~= v@);
        }
        s
    }
}

} // verus!
