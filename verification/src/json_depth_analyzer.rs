//! A byte-at-a-time pushdown automaton that tracks JSON structural depth
//! (objects and arrays) and the lexical state of string literals, including
//! backslash escapes and `\uXXXX` unicode escapes.
//!
//! The automaton never aborts: a structurally or lexically invalid byte is
//! reported through the returned error while the stack is still advanced by
//! the documented transition, so later bytes keep being interpreted against
//! a consistent state.

use vstd::prelude::*;

verus! {

/// `"` — opens and closes string literals.
pub const QUOTE: u8 = 34;

/// `\` — starts an escape sequence inside a string literal.
pub const BACKSLASH: u8 = 92;

/// `{` — opens an object.
pub const LEFT_BRACE: u8 = 123;

/// `}` — closes an object.
pub const RIGHT_BRACE: u8 = 125;

/// `[` — opens an array.
pub const LEFT_BRACKET: u8 = 91;

/// `]` — closes an array.
pub const RIGHT_BRACKET: u8 = 93;

/// `u` — after a backslash, starts a 4-digit unicode escape.
pub const LETTER_U: u8 = 117;

/// One entry of the analyzer's stack: an open structure, or the lexical
/// state inside a string literal. The `StringHexN` states count the hex
/// digits still expected to finish a `\uXXXX` escape.
#[derive(Debug, Copy, Clone)]
pub enum ParserState {
    Object,
    Array,
    String,
    StringEscape,
    StringHex4,
    StringHex3,
    StringHex2,
    StringHex1,
}

/// A violation found while processing one byte. Every variant records the
/// offending byte; `WrongState` also records which structure was open (if
/// any) and which one the byte would have closed.
#[derive(Debug, Clone)]
pub enum ParserError {
    WrongState { got: Option<ParserState>, expected: ParserState },
    WrongHexCharacter { got: u8 },
    WrongEscapeCharacter { got: u8 },
}

/// The depth analyzer itself: a growable stack of [`ParserState`] entries,
/// used strictly as a pushdown stack. Depth is the stack length.
#[derive(Debug, Clone)]
pub struct JsonDepthAnalyzer {
    state: Vec<ParserState>,
}

impl View for JsonDepthAnalyzer {
    type V = Seq<ParserState>;

    closed spec fn view(&self) -> Seq<ParserState> {
        self.state@
    }
}

/// An ASCII hexadecimal digit: `0-9`, `A-F` or `a-f`.
pub open spec fn is_hex_digit(c: u8) -> bool {
    (48 <= c && c <= 57) || (65 <= c && c <= 70) || (97 <= c && c <= 102)
}

/// A byte allowed after a backslash as a single-character escape:
/// one of `" \ / b f n r t`.
pub open spec fn is_escape_char(c: u8) -> bool {
    c == QUOTE || c == BACKSLASH || c == 47 || c == 98 || c == 102 || c == 110 || c == 114
        || c == 116
}

/// Error reported when a hex digit was expected.
pub open spec fn hex_err(c: u8) -> Option<ParserError> {
    if is_hex_digit(c) {
        None
    } else {
        Some(ParserError::WrongHexCharacter { got: c })
    }
}

/// Error reported when a single-character escape was expected.
pub open spec fn esc_err(c: u8) -> Option<ParserError> {
    if is_escape_char(c) {
        None
    } else {
        Some(ParserError::WrongEscapeCharacter { got: c })
    }
}

/// The complete transition function of the automaton: from a stack and one
/// incoming byte to the next stack and the error reported for that byte, if
/// any. The branches are tried in priority order; [`JsonDepthAnalyzer::process`]
/// is proved to follow this function exactly.
pub open spec fn step(st: Seq<ParserState>, c: u8) -> (Seq<ParserState>, Option<ParserError>) {
    let top = if st.len() > 0 {
        Some(st.last())
    } else {
        None::<ParserState>
    };
    if top == Some(ParserState::String) && c == QUOTE {
        (st.drop_last(), None)
    } else if c == QUOTE {
        (st.push(ParserState::String), None)
    } else if top == Some(ParserState::String) && c == BACKSLASH {
        (st.update(st.len() - 1, ParserState::StringEscape), None)
    } else if top == Some(ParserState::StringEscape) && c == LETTER_U {
        (st.update(st.len() - 1, ParserState::StringHex4), None)
    } else if top == Some(ParserState::StringHex4) {
        (st.update(st.len() - 1, ParserState::StringHex3), hex_err(c))
    } else if top == Some(ParserState::StringHex3) {
        (st.update(st.len() - 1, ParserState::StringHex2), hex_err(c))
    } else if top == Some(ParserState::StringHex2) {
        (st.update(st.len() - 1, ParserState::StringHex1), hex_err(c))
    } else if top == Some(ParserState::StringHex1) {
        (st.update(st.len() - 1, ParserState::String), hex_err(c))
    } else if top == Some(ParserState::StringEscape) {
        (st.update(st.len() - 1, ParserState::String), esc_err(c))
    } else if top == Some(ParserState::String) {
        (st, None)
    } else if c == LEFT_BRACE {
        (st.push(ParserState::Object), None)
    } else if top == Some(ParserState::Object) && c == RIGHT_BRACE {
        (st.drop_last(), None)
    } else if c == RIGHT_BRACE {
        (st, Some(ParserError::WrongState { got: top, expected: ParserState::Object }))
    } else if c == LEFT_BRACKET {
        (st.push(ParserState::Array), None)
    } else if top == Some(ParserState::Array) && c == RIGHT_BRACKET {
        (st.drop_last(), None)
    } else if c == RIGHT_BRACKET {
        (st, Some(ParserError::WrongState { got: top, expected: ParserState::Array }))
    } else {
        (st, None)
    }
}

/// The stack after processing one byte.
pub open spec fn step_stack(st: Seq<ParserState>, c: u8) -> Seq<ParserState> {
    step(st, c).0
}

/// The error reported for one byte, if any.
pub open spec fn step_err(st: Seq<ParserState>, c: u8) -> Option<ParserError> {
    step(st, c).1
}

/// What [`JsonDepthAnalyzer::process`] returns for one byte.
pub open spec fn step_result(st: Seq<ParserState>, c: u8) -> Result<(), ParserError> {
    match step_err(st, c) {
        None => Ok(()),
        Some(e) => Err(e),
    }
}

/// An optional error as a sequence of zero or one errors.
pub open spec fn err_seq(e: Option<ParserError>) -> Seq<ParserError> {
    match e {
        None => Seq::empty(),
        Some(x) => seq![x],
    }
}

/// Processing a whole byte sequence: the final stack, and every error
/// reported on the way, in input order.
pub open spec fn run(st: Seq<ParserState>, s: Seq<u8>) -> (Seq<ParserState>, Seq<ParserError>)
    decreases s.len(),
{
    if s.len() == 0 {
        (st, Seq::empty())
    } else {
        let first = step(st, s[0]);
        let rest = run(first.0, s.drop_first());
        (rest.0, err_seq(first.1) + rest.1)
    }
}

impl JsonDepthAnalyzer {
    /// A fresh analyzer: depth 0, inside nothing.
    pub fn new() -> (r: JsonDepthAnalyzer)
        ensures
            r@ == Seq::<ParserState>::empty(),
    {
        JsonDepthAnalyzer { state: Vec::new() }
    }

    /// The number of currently open nesting levels. No side effects.
    pub fn depth(&self) -> (d: usize)
        ensures
            d == self@.len(),
    {
        self.state.len()
    }

    /// Consume one byte. The stack afterwards is exactly [`step_stack`] of
    /// the old stack, and the returned result is exactly [`step_result`] —
    /// also when an error is reported, so an error never corrupts or resets
    /// the surrounding nesting. Depth changes by at most one per byte.
    pub fn process(&mut self, c: u8) -> (r: Result<(), ParserError>)
        ensures
            final(self)@ == step_stack(old(self)@, c),
            r == step_result(old(self)@, c),
            final(self)@.len() <= old(self)@.len() + 1,
            old(self)@.len() <= final(self)@.len() + 1,
    {
        let n = self.state.len();
        let top: Option<ParserState> = if n > 0 {
            Some(self.state[n - 1])
        } else {
            None
        };
        if matches!(top, Some(ParserState::String)) && c == QUOTE {
            let _ = self.state.pop();
            Ok(())
        } else if c == QUOTE {
            self.state.push(ParserState::String);
            Ok(())
        } else if matches!(top, Some(ParserState::String)) && c == BACKSLASH {
            self.set_top(ParserState::StringEscape);
            Ok(())
        } else if matches!(top, Some(ParserState::StringEscape)) && c == LETTER_U {
            self.set_top(ParserState::StringHex4);
            Ok(())
        } else if matches!(top, Some(ParserState::StringHex4)) {
            self.set_top(ParserState::StringHex3);
            self.hex_check(c)
        } else if matches!(top, Some(ParserState::StringHex3)) {
            self.set_top(ParserState::StringHex2);
            self.hex_check(c)
        } else if matches!(top, Some(ParserState::StringHex2)) {
            self.set_top(ParserState::StringHex1);
            self.hex_check(c)
        } else if matches!(top, Some(ParserState::StringHex1)) {
            self.set_top(ParserState::String);
            self.hex_check(c)
        } else if matches!(top, Some(ParserState::StringEscape)) {
            self.set_top(ParserState::String);
            if c == QUOTE || c == BACKSLASH || c == 47 || c == 98 || c == 102 || c == 110
                || c == 114 || c == 116 {
                Ok(())
            } else {
                Err(ParserError::WrongEscapeCharacter { got: c })
            }
        } else if matches!(top, Some(ParserState::String)) {
            Ok(())
        } else if c == LEFT_BRACE {
            self.state.push(ParserState::Object);
            Ok(())
        } else if matches!(top, Some(ParserState::Object)) && c == RIGHT_BRACE {
            let _ = self.state.pop();
            Ok(())
        } else if c == RIGHT_BRACE {
            Err(ParserError::WrongState { got: top, expected: ParserState::Object })
        } else if c == LEFT_BRACKET {
            self.state.push(ParserState::Array);
            Ok(())
        } else if matches!(top, Some(ParserState::Array)) && c == RIGHT_BRACKET {
            let _ = self.state.pop();
            Ok(())
        } else if c == RIGHT_BRACKET {
            Err(ParserError::WrongState { got: top, expected: ParserState::Array })
        } else {
            Ok(())
        }
    }

    /// Replace the top stack entry.
    fn set_top(&mut self, t: ParserState)
        requires
            old(self)@.len() > 0,
        ensures
            final(self)@ == old(self)@.update(old(self)@.len() - 1, t),
    {
        let n = self.state.len();
        let _ = self.state.pop();
        self.state.push(t);
        proof {
            assert(self@ =~= old(self)@.update(old(self)@.len() - 1, t));
        }
    }

    /// Check one byte of a unicode escape.
    fn hex_check(&self, c: u8) -> (r: Result<(), ParserError>)
        ensures
            r == (match hex_err(c) {
                None => Result::<(), ParserError>::Ok(()),
                Some(e) => Result::<(), ParserError>::Err(e),
            }),
    {
        if (48 <= c && c <= 57) || (65 <= c && c <= 70) || (97 <= c && c <= 102) {
            Ok(())
        } else {
            Err(ParserError::WrongHexCharacter { got: c })
        }
    }
}

/// Unfolds [`run`] by one byte.
pub proof fn lemma_run_step(st: Seq<ParserState>, s: Seq<u8>)
    requires
        s.len() > 0,
    ensures
        run(st, s).0 == run(step_stack(st, s[0]), s.drop_first()).0,
        run(st, s).1 == err_seq(step_err(st, s[0])) + run(step_stack(st, s[0]), s.drop_first()).1,
{
}

/// [`run`] on a single byte is one [`step`].
pub proof fn lemma_run_one(st: Seq<ParserState>, c: u8)
    ensures
        run(st, seq![c]).0 == step_stack(st, c),
        run(st, seq![c]).1 == err_seq(step_err(st, c)),
{
    let s = seq![c];
    assert(s.len() == 1);
    assert(s[0] == c);
    assert(s.drop_first() =~= Seq::<u8>::empty());
    let st1 = step_stack(st, c);
    assert(run(st1, Seq::<u8>::empty()).0 == st1);
    assert(run(st1, Seq::<u8>::empty()).1 == Seq::<ParserError>::empty());
    assert(run(st, s).0 == st1);
    assert(err_seq(step_err(st, c)) + Seq::<ParserError>::empty() =~= err_seq(step_err(st, c)));
}

/// Law: the analyzer is a fold over the input, so running it over a
/// concatenation is running it over the first part and then the second —
/// the final stack and the reported errors do not depend on where the
/// input is cut.
pub proof fn lemma_run_concat(st: Seq<ParserState>, a: Seq<u8>, b: Seq<u8>)
    ensures
        run(st, a + b).0 == run(run(st, a).0, b).0,
        run(st, a + b).1 == run(st, a).1 + run(run(st, a).0, b).1,
    decreases a.len(),
{
    if a.len() == 0 {
        assert(a + b =~= b);
        assert(run(st, a).1 + run(run(st, a).0, b).1 =~= run(st, b).1);
    } else {
        let c = a[0];
        let st1 = step_stack(st, c);
        assert((a + b)[0] == c);
        assert((a + b).drop_first() =~= a.drop_first() + b);
        lemma_run_concat(st1, a.drop_first(), b);
        assert(err_seq(step_err(st, c)) + (run(st1, a.drop_first()).1 + run(
            run(st1, a.drop_first()).0,
            b,
        ).1) =~= (err_seq(step_err(st, c)) + run(st1, a.drop_first()).1) + run(
            run(st1, a.drop_first()).0,
            b,
        ).1);
    }
}

/// The bytes that finish one open stack entry without an error: the closing
/// bracket of a structure, or — inside a string literal — enough filler to
/// complete the escape in progress and then the closing quote.
pub open spec fn closing_bytes_for(t: ParserState) -> Seq<u8> {
    match t {
        ParserState::Object => seq![RIGHT_BRACE],
        ParserState::Array => seq![RIGHT_BRACKET],
        ParserState::String => seq![QUOTE],
        ParserState::StringEscape => seq![110u8, QUOTE],
        ParserState::StringHex4 => seq![48u8, 48u8, 48u8, 48u8, QUOTE],
        ParserState::StringHex3 => seq![48u8, 48u8, 48u8, QUOTE],
        ParserState::StringHex2 => seq![48u8, 48u8, QUOTE],
        ParserState::StringHex1 => seq![48u8, QUOTE],
    }
}

/// The bytes that close every entry of a stack, innermost first.
pub open spec fn closing_bytes(st: Seq<ParserState>) -> Seq<u8>
    decreases st.len(),
{
    if st.len() == 0 {
        Seq::empty()
    } else {
        closing_bytes_for(st.last()) + closing_bytes(st.drop_last())
    }
}

/// Finishing the top entry of a stack: the matching closing bytes pop
/// exactly that entry and report nothing.
proof fn lemma_closing_bytes_for_pops_top(st: Seq<ParserState>)
    requires
        st.len() > 0,
    ensures
        run(st, closing_bytes_for(st.last())).0 == st.drop_last(),
        run(st, closing_bytes_for(st.last())).1 == Seq::<ParserError>::empty(),
{
    let n = st.len() - 1;
    let top = st.last();
    match top {
        ParserState::Object => {
            lemma_run_one(st, RIGHT_BRACE);
        }
        ParserState::Array => {
            lemma_run_one(st, RIGHT_BRACKET);
        }
        ParserState::String => {
            lemma_run_one(st, QUOTE);
        }
        ParserState::StringEscape => {
            let st1 = step_stack(st, 110u8);
            assert(st1 == st.update(n, ParserState::String));
            lemma_run_step(st, closing_bytes_for(top));
            assert(closing_bytes_for(top).drop_first() =~= seq![QUOTE]);
            lemma_run_one(st1, QUOTE);
            assert(st1.drop_last() =~= st.drop_last());
            assert(run(st, closing_bytes_for(top)).1 =~= Seq::<ParserError>::empty());
        }
        ParserState::StringHex4 => {
            lemma_closing_hex_chain(st, 4);
        }
        ParserState::StringHex3 => {
            lemma_closing_hex_chain(st, 3);
        }
        ParserState::StringHex2 => {
            lemma_closing_hex_chain(st, 2);
        }
        ParserState::StringHex1 => {
            lemma_closing_hex_chain(st, 1);
        }
    }
}

/// The stack entry that still expects `k` hex digits.
spec fn hex_state(k: int) -> ParserState {
    if k == 4 {
        ParserState::StringHex4
    } else if k == 3 {
        ParserState::StringHex3
    } else if k == 2 {
        ParserState::StringHex2
    } else {
        ParserState::StringHex1
    }
}

/// `k` filler zero digits and a closing quote pop a stack whose top still
/// expects `k` hex digits, with no error.
proof fn lemma_closing_hex_chain(st: Seq<ParserState>, k: int)
    requires
        st.len() > 0,
        1 <= k <= 4,
        st.last() == hex_state(k),
    ensures
        run(st, closing_bytes_for(st.last())).0 == st.drop_last(),
        run(st, closing_bytes_for(st.last())).1 == Seq::<ParserError>::empty(),
    decreases k,
{
    let n = st.len() - 1;
    let s = closing_bytes_for(st.last());
    assert(s[0] == 48u8);
    assert(is_hex_digit(48u8));
    lemma_run_step(st, s);
    if k == 1 {
        let st1 = step_stack(st, 48u8);
        assert(st1 == st.update(n, ParserState::String));
        assert(s.drop_first() =~= seq![QUOTE]);
        lemma_run_one(st1, QUOTE);
        assert(st1.drop_last() =~= st.drop_last());
        assert(run(st, s).1 =~= Seq::<ParserError>::empty());
    } else {
        let st1 = step_stack(st, 48u8);
        assert(st1 == st.update(n, hex_state(k - 1)));
        assert(st1.last() == hex_state(k - 1));
        assert(s.drop_first() =~= closing_bytes_for(st1.last()));
        lemma_closing_hex_chain(st1, k - 1);
        assert(st1.drop_last() =~= st.drop_last());
        assert(run(st, s).1 =~= Seq::<ParserError>::empty());
    }
}

/// Law: the analyzer never gets stuck. From any reachable stack — also one
/// reached through reported errors — feeding the matching closing bytes of
/// every open entry, innermost first, returns the depth to 0 without any
/// further error.
pub proof fn lemma_always_recoverable(st: Seq<ParserState>)
    ensures
        run(st, closing_bytes(st)).0 == Seq::<ParserState>::empty(),
        run(st, closing_bytes(st)).1 == Seq::<ParserError>::empty(),
    decreases st.len(),
{
    if st.len() == 0 {
    } else {
        lemma_closing_bytes_for_pops_top(st);
        lemma_run_concat(st, closing_bytes_for(st.last()), closing_bytes(st.drop_last()));
        lemma_always_recoverable(st.drop_last());
        assert(Seq::<ParserError>::empty() + Seq::<ParserError>::empty() =~= Seq::<
            ParserError,
        >::empty());
    }
}

} // verus!
