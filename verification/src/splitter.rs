//! The incremental array splitter: drives the depth analyzer over the bytes
//! of a single top-level JSON array and emits the raw byte span of each
//! top-level element as soon as its boundary (a depth-1 comma or the
//! array's closing bracket) is recognized.
//!
//! The splitter consumes one byte per call, so the input may arrive in
//! chunks cut anywhere — even in the middle of an escape sequence; the
//! chunking-independence law [`lemma_split_run_concat`] makes that exact.

use vstd::prelude::*;

use crate::json_depth_analyzer::JsonDepthAnalyzer;
use crate::json_depth_analyzer::ParserError;
use crate::json_depth_analyzer::ParserState;
use crate::json_depth_analyzer::step_err;
use crate::json_depth_analyzer::step_stack;

verus! {

/// `,` — separates top-level elements at depth 1.
pub const COMMA: u8 = 44;

/// JSON whitespace: space, tab, line feed, carriage return.
pub open spec fn is_json_whitespace(c: u8) -> bool {
    c == 32 || c == 9 || c == 10 || c == 13
}

/// An error surfaced by the splitter: the input ended while the array was
/// still open, or the analyzer reported a structural or lexical violation.
#[derive(Debug, Clone)]
pub enum JsonStreamError {
    PrematureEndOfInput,
    Parsing(ParserError),
}

/// The mathematical state of a splitter: the analyzer's stack, the bytes of
/// the element being accumulated, whether a depth-1 comma has been seen in
/// the array so far (a seen comma makes the final span before the closing
/// bracket an element even when it is empty), and whether the outer array
/// has closed.
pub ghost struct SplitterModel {
    pub stack: Seq<ParserState>,
    pub buffer: Seq<u8>,
    pub comma: bool,
    pub terminal: bool,
}

/// The state of a freshly created splitter.
pub open spec fn splitter_init() -> SplitterModel {
    SplitterModel { stack: Seq::empty(), buffer: Seq::empty(), comma: false, terminal: false }
}

/// The splitter's transition function for one byte: the next state, and
/// what the byte produced — nothing, an emitted element span, or an
/// analyzer error. Bytes before the outer array opens (depth 0) and after
/// it closes are discarded; a depth-1 comma emits the buffered span (also
/// an empty one); depth-1 whitespace is stripped; the byte that returns the
/// depth to 0 closes the array and emits the final span unless that span is
/// empty and no comma was ever seen (so `[]` emits nothing); every other
/// byte inside the array is appended to the buffer.
pub open spec fn split_step(m: SplitterModel, c: u8) -> (
    SplitterModel,
    Option<Result<Seq<u8>, ParserError>>,
) {
    if m.terminal {
        (m, None)
    } else {
        let st1 = step_stack(m.stack, c);
        match step_err(m.stack, c) {
            Some(e) => (SplitterModel { stack: st1, ..m }, Some(Err(e))),
            None => {
                if m.stack.len() == 0 {
                    (SplitterModel { stack: st1, ..m }, None)
                } else if m.stack.len() == 1 && c == COMMA {
                    (
                        SplitterModel { stack: st1, buffer: Seq::empty(), comma: true, ..m },
                        Some(Ok(m.buffer)),
                    )
                } else if m.stack.len() == 1 && is_json_whitespace(c) {
                    (SplitterModel { stack: st1, ..m }, None)
                } else if st1.len() == 0 {
                    (
                        SplitterModel {
                            stack: st1,
                            buffer: Seq::empty(),
                            comma: false,
                            terminal: true,
                        },
                        if m.buffer.len() == 0 && !m.comma {
                            None
                        } else {
                            Some(Ok(m.buffer))
                        },
                    )
                } else {
                    (SplitterModel { stack: st1, buffer: m.buffer.push(c), ..m }, None)
                }
            }
        }
    }
}

/// An optional per-byte output as a sequence of zero or one outputs.
pub open spec fn out_seq(o: Option<Result<Seq<u8>, ParserError>>) -> Seq<
    Result<Seq<u8>, ParserError>,
> {
    match o {
        None => Seq::empty(),
        Some(r) => seq![r],
    }
}

/// Feeding a whole byte sequence to a splitter: the final state and every
/// output produced on the way, in input order.
pub open spec fn split_run(m: SplitterModel, s: Seq<u8>) -> (
    SplitterModel,
    Seq<Result<Seq<u8>, ParserError>>,
)
    decreases s.len(),
{
    if s.len() == 0 {
        (m, Seq::empty())
    } else {
        let first = split_step(m, s[0]);
        let rest = split_run(first.0, s.drop_first());
        (rest.0, out_seq(first.1) + rest.1)
    }
}

/// An analyzer error wrapped into the splitter's error surface.
pub open spec fn wrap_parser_result(r: Result<Seq<u8>, ParserError>) -> Result<
    Seq<u8>,
    JsonStreamError,
> {
    match r {
        Ok(v) => Ok(v),
        Err(e) => Err(JsonStreamError::Parsing(e)),
    }
}

/// All per-byte outputs wrapped into the splitter's error surface.
pub open spec fn wrap_all(rs: Seq<Result<Seq<u8>, ParserError>>) -> Seq<
    Result<Seq<u8>, JsonStreamError>,
> {
    rs.map_values(|r: Result<Seq<u8>, ParserError>| wrap_parser_result(r))
}

/// The complete output sequence for a whole input: every per-byte output,
/// and — when the input ends before the outer array has closed — exactly
/// one final `PrematureEndOfInput` error.
pub open spec fn split_outputs(s: Seq<u8>) -> Seq<Result<Seq<u8>, JsonStreamError>> {
    let r = split_run(splitter_init(), s);
    if r.0.terminal {
        wrap_all(r.1)
    } else {
        wrap_all(r.1) + seq![Err(JsonStreamError::PrematureEndOfInput)]
    }
}

/// The view of an emitted output vector, element by element.
pub open spec fn results_view(rs: Seq<Result<Vec<u8>, JsonStreamError>>) -> Seq<
    Result<Seq<u8>, JsonStreamError>,
> {
    rs.map_values(
        |r: Result<Vec<u8>, JsonStreamError>|
            match r {
                Ok(v) => Ok(v@),
                Err(e) => Err::<Seq<u8>, JsonStreamError>(e),
            },
    )
}

/// The incremental splitter. Feed it one byte at a time with
/// [`JsonArraySplitter::process_byte`]; ask [`JsonArraySplitter::end_of_input`]
/// when the source is exhausted.
pub struct JsonArraySplitter {
    analyzer: JsonDepthAnalyzer,
    buffer: Vec<u8>,
    comma: bool,
    terminal: bool,
}

impl View for JsonArraySplitter {
    type V = SplitterModel;

    closed spec fn view(&self) -> SplitterModel {
        SplitterModel {
            stack: self.analyzer@,
            buffer: self.buffer@,
            comma: self.comma,
            terminal: self.terminal,
        }
    }
}

/// The view of one per-byte output.
pub open spec fn out_view(r: Option<Result<Vec<u8>, ParserError>>) -> Option<
    Result<Seq<u8>, ParserError>,
> {
    match r {
        None => None,
        Some(Ok(v)) => Some(Ok(v@)),
        Some(Err(e)) => Some(Err(e)),
    }
}

impl JsonArraySplitter {
    /// A fresh splitter: depth 0, empty buffer, not terminal.
    pub fn new() -> (r: JsonArraySplitter)
        ensures
            r@ == splitter_init(),
    {
        JsonArraySplitter {
            analyzer: JsonDepthAnalyzer::new(),
            buffer: Vec::new(),
            comma: false,
            terminal: false,
        }
    }

    /// Whether the outer array's closing bracket has been consumed. A
    /// terminal splitter discards all further bytes and produces nothing.
    pub fn is_terminal(&self) -> (b: bool)
        ensures
            b == self@.terminal,
    {
        self.terminal
    }

    /// Consume one byte. The state afterwards and the returned output are
    /// exactly those of [`split_step`] on the old state.
    pub fn process_byte(&mut self, c: u8) -> (r: Option<Result<Vec<u8>, ParserError>>)
        ensures
            final(self)@ == split_step(old(self)@, c).0,
            out_view(r) == split_step(old(self)@, c).1,
    {
        if self.terminal {
            return None;
        }
        let d0 = self.analyzer.depth();
        match self.analyzer.process(c) {
            Err(e) => Some(Err(e)),
            Ok(()) => {
                if d0 == 0 {
                    None
                } else if d0 == 1 && c == COMMA {
                    self.comma = true;
                    let mut out: Vec<u8> = Vec::new();
                    core::mem::swap(&mut out, &mut self.buffer);
                    Some(Ok(out))
                } else if d0 == 1 && (c == 32 || c == 9 || c == 10 || c == 13) {
                    None
                } else if self.analyzer.depth() == 0 {
                    self.terminal = true;
                    let had_comma = self.comma;
                    self.comma = false;
                    let mut out: Vec<u8> = Vec::new();
                    core::mem::swap(&mut out, &mut self.buffer);
                    if out.len() == 0 && !had_comma {
                        None
                    } else {
                        Some(Ok(out))
                    }
                } else {
                    self.buffer.push(c);
                    None
                }
            }
        }
    }

    /// To be called when the input source is exhausted: reports the one
    /// `PrematureEndOfInput` error owed when the outer array never closed,
    /// and nothing otherwise.
    pub fn end_of_input(&self) -> (r: Option<JsonStreamError>)
        ensures
            self@.terminal ==> r is None,
            !self@.terminal ==> r == Some(JsonStreamError::PrematureEndOfInput),
    {
        if self.terminal {
            None
        } else {
            Some(JsonStreamError::PrematureEndOfInput)
        }
    }
}

/// Law: splitting is a pure fold over the input bytes, so running the
/// splitter over a concatenation equals running it over the first part and
/// then the second. The emitted spans and errors are a function of the full
/// ordered byte sequence alone, no matter how it is cut into chunks.
pub proof fn lemma_split_run_concat(m: SplitterModel, a: Seq<u8>, b: Seq<u8>)
    ensures
        split_run(m, a + b).0 == split_run(split_run(m, a).0, b).0,
        split_run(m, a + b).1 == split_run(m, a).1 + split_run(split_run(m, a).0, b).1,
    decreases a.len(),
{
    if a.len() == 0 {
        assert(a + b =~= b);
        assert(split_run(m, a).1 + split_run(split_run(m, a).0, b).1 =~= split_run(m, b).1);
    } else {
        let c = a[0];
        let m1 = split_step(m, c).0;
        assert((a + b)[0] == c);
        assert((a + b).drop_first() =~= a.drop_first() + b);
        lemma_split_run_concat(m1, a.drop_first(), b);
        assert(out_seq(split_step(m, c).1) + (split_run(m1, a.drop_first()).1 + split_run(
            split_run(m1, a.drop_first()).0,
            b,
        ).1) =~= (out_seq(split_step(m, c).1) + split_run(m1, a.drop_first()).1) + split_run(
            split_run(m1, a.drop_first()).0,
            b,
        ).1);
    }
}

/// [`split_run`] on a single byte is one [`split_step`].
pub proof fn lemma_split_run_one(m: SplitterModel, c: u8)
    ensures
        split_run(m, seq![c]).0 == split_step(m, c).0,
        split_run(m, seq![c]).1 == out_seq(split_step(m, c).1),
{
    let s = seq![c];
    assert(s.len() == 1);
    assert(s[0] == c);
    assert(s.drop_first() =~= Seq::<u8>::empty());
    let m1 = split_step(m, c).0;
    assert(split_run(m1, Seq::<u8>::empty()).0 == m1);
    assert(out_seq(split_step(m, c).1) + Seq::<Result<Seq<u8>, ParserError>>::empty() =~= out_seq(
        split_step(m, c).1,
    ));
}

/// Viewing a pushed output vector pushes the element's view.
proof fn lemma_results_view_push(
    rs: Seq<Result<Vec<u8>, JsonStreamError>>,
    x: Result<Vec<u8>, JsonStreamError>,
    xs: Result<Seq<u8>, JsonStreamError>,
)
    requires
        xs == (match x {
            Ok(v) => Ok::<Seq<u8>, JsonStreamError>(v@),
            Err(e) => Err::<Seq<u8>, JsonStreamError>(e),
        }),
    ensures
        results_view(rs.push(x)) == results_view(rs).push(xs),
{
    assert(results_view(rs.push(x)) =~= results_view(rs).push(xs));
}

/// Wrapping a run's outputs extended by one per-byte output.
proof fn lemma_wrap_all_snoc(
    rs: Seq<Result<Seq<u8>, ParserError>>,
    o: Option<Result<Seq<u8>, ParserError>>,
)
    ensures
        wrap_all(rs + out_seq(o)) == (match o {
            None => wrap_all(rs),
            Some(r) => wrap_all(rs).push(wrap_parser_result(r)),
        }),
{
    match o {
        None => {
            assert(rs + out_seq(o) =~= rs);
        }
        Some(r) => {
            assert(wrap_all(rs + out_seq(o)) =~= wrap_all(rs).push(wrap_parser_result(r)));
        }
    }
}

/// Extending a prefix run by its next byte.
proof fn lemma_split_run_snoc(m: SplitterModel, s: Seq<u8>, i: int)
    requires
        0 <= i < s.len(),
    ensures
        split_run(m, s.take(i + 1)).0 == split_step(split_run(m, s.take(i)).0, s[i]).0,
        split_run(m, s.take(i + 1)).1 == split_run(m, s.take(i)).1 + out_seq(
            split_step(split_run(m, s.take(i)).0, s[i]).1,
        ),
{
    assert(s.take(i + 1) =~= s.take(i) + seq![s[i]]);
    lemma_split_run_concat(m, s.take(i), seq![s[i]]);
    lemma_split_run_one(split_run(m, s.take(i)).0, s[i]);
}

/// Split a whole in-memory byte sequence into its top-level element spans:
/// exactly the outputs of running a fresh splitter over every byte, plus
/// the one owed `PrematureEndOfInput` error when the array never closed.
pub fn split_json_array(input: &[u8]) -> (out: Vec<Result<Vec<u8>, JsonStreamError>>)
    ensures
        results_view(out@) == split_outputs(input@),
{
    let ghost all = input@;
    let mut sp = JsonArraySplitter::new();
    let mut out: Vec<Result<Vec<u8>, JsonStreamError>> = Vec::new();
    let n = input.len();
    let mut i: usize = 0;
    while i < n
        invariant
            i <= n,
            n == all.len(),
            input@ == all,
            sp@ == split_run(splitter_init(), all.take(i as int)).0,
            results_view(out@) == wrap_all(split_run(splitter_init(), all.take(i as int)).1),
        decreases n - i,
    {
        let c = input[i];
        proof {
            lemma_split_run_snoc(splitter_init(), all, i as int);
        }
        let ghost prev = split_run(splitter_init(), all.take(i as int));
        match sp.process_byte(c) {
            None => {
                proof {
                    lemma_wrap_all_snoc(prev.1, split_step(prev.0, c).1);
                }
            }
            Some(Ok(span)) => {
                let ghost sv = span@;
                proof {
                    assert(split_step(prev.0, c).1 == Some(Ok::<Seq<u8>, ParserError>(sv)));
                    lemma_wrap_all_snoc(prev.1, split_step(prev.0, c).1);
                    lemma_results_view_push(
                        out@,
                        Ok(span),
                        Ok::<Seq<u8>, JsonStreamError>(sv),
                    );
                }
                out.push(Ok(span));
            }
            Some(Err(e)) => {
                let ghost ev = e;
                proof {
                    assert(split_step(prev.0, c).1 == Some(Err::<Seq<u8>, ParserError>(ev)));
                    lemma_wrap_all_snoc(prev.1, split_step(prev.0, c).1);
                    lemma_results_view_push(
                        out@,
                        Err(JsonStreamError::Parsing(ev)),
                        Err::<Seq<u8>, JsonStreamError>(JsonStreamError::Parsing(ev)),
                    );
                }
                out.push(Err(JsonStreamError::Parsing(e)));
            }
        }
        i = i + 1;
    }
    proof {
        assert(all.take(n as int) =~= all);
    }
    if !sp.is_terminal() {
        proof {
            lemma_results_view_push(
                out@,
                Err(JsonStreamError::PrematureEndOfInput),
                Err::<Seq<u8>, JsonStreamError>(JsonStreamError::PrematureEndOfInput),
            );
            assert(wrap_all(split_run(splitter_init(), all).1).push(
                Err::<Seq<u8>, JsonStreamError>(JsonStreamError::PrematureEndOfInput),
            ) =~= wrap_all(split_run(splitter_init(), all).1) + seq![
                Err::<Seq<u8>, JsonStreamError>(JsonStreamError::PrematureEndOfInput),
            ]);
        }
        out.push(Err(JsonStreamError::PrematureEndOfInput));
    }
    out
}

} // verus!
