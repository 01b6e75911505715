//! A ghost grammar of well-formed input for the depth analyzer: balanced
//! objects and arrays, and string literals whose escapes are syntactically
//! valid, with arbitrary non-structural bytes in between.
//!
//! The law proved here: flattening any well-formed document to bytes and
//! running the analyzer over them reports no error and returns the stack to
//! where it started.
//!
//! One deliberate restriction: the escaped quote `\"` is not part of this
//! grammar. The analyzer's quote rule takes priority over its escape rule,
//! so a quote byte arriving in the escape state opens a fresh string state
//! instead of completing the escape; inputs relying on `\"` therefore do
//! not return to the starting stack.

use vstd::prelude::*;

use crate::json_depth_analyzer::BACKSLASH;
use crate::json_depth_analyzer::LEFT_BRACE;
use crate::json_depth_analyzer::LEFT_BRACKET;
use crate::json_depth_analyzer::LETTER_U;
use crate::json_depth_analyzer::ParserError;
use crate::json_depth_analyzer::ParserState;
use crate::json_depth_analyzer::QUOTE;
use crate::json_depth_analyzer::RIGHT_BRACE;
use crate::json_depth_analyzer::RIGHT_BRACKET;
use crate::json_depth_analyzer::is_hex_digit;
use crate::json_depth_analyzer::lemma_run_concat;
use crate::json_depth_analyzer::lemma_run_one;
use crate::json_depth_analyzer::lemma_run_step;
use crate::json_depth_analyzer::run;
use crate::json_depth_analyzer::step_err;
use crate::json_depth_analyzer::step_stack;

verus! {

/// One piece of a string literal's content.
pub ghost enum StringItem {
    /// An ordinary content byte: anything but `"` and `\`.
    Content(u8),
    /// A single-character escape `\c` with `c` one of `\ / b f n r t`.
    Escape(u8),
    /// A unicode escape `\u` followed by four hex digits.
    Unicode(u8, u8, u8, u8),
}

/// One unit of a well-formed document.
pub ghost enum JsonUnit {
    /// A byte with no structural or string meaning: anything but
    /// `" { } [ ]` — whitespace, digits, commas, colons, literal letters.
    Raw(u8),
    /// `{` … `}` around well-formed units.
    Object(Seq<JsonUnit>),
    /// `[` … `]` around well-formed units.
    Array(Seq<JsonUnit>),
    /// `"` … `"` around string content.
    Text(Seq<StringItem>),
}

/// Syntactic validity of one string content piece.
pub open spec fn wf_string_item(it: StringItem) -> bool {
    match it {
        StringItem::Content(c) => c != QUOTE && c != BACKSLASH,
        StringItem::Escape(c) => c == BACKSLASH || c == 47 || c == 98 || c == 102 || c == 110
            || c == 114 || c == 116,
        StringItem::Unicode(a, b, c, d) => is_hex_digit(a) && is_hex_digit(b) && is_hex_digit(c)
            && is_hex_digit(d),
    }
}

/// Syntactic validity of a whole string literal's content.
pub open spec fn wf_string_items(items: Seq<StringItem>) -> bool {
    forall|i: int| 0 <= i < items.len() ==> wf_string_item(items[i])
}

/// Well-formedness of one unit.
pub open spec fn wf_unit(u: JsonUnit) -> bool
    decreases u,
{
    match u {
        JsonUnit::Raw(c) => c != QUOTE && c != LEFT_BRACE && c != RIGHT_BRACE && c != LEFT_BRACKET
            && c != RIGHT_BRACKET,
        JsonUnit::Object(us) => wf_units(us),
        JsonUnit::Array(us) => wf_units(us),
        JsonUnit::Text(items) => wf_string_items(items),
    }
}

/// Well-formedness of a sequence of units.
pub open spec fn wf_units(us: Seq<JsonUnit>) -> bool
    decreases us,
{
    us.len() == 0 || (wf_unit(us[0]) && wf_units(us.drop_first()))
}

/// The bytes of one string content piece.
pub open spec fn flat_string_item(it: StringItem) -> Seq<u8> {
    match it {
        StringItem::Content(c) => seq![c],
        StringItem::Escape(c) => seq![BACKSLASH, c],
        StringItem::Unicode(a, b, c, d) => seq![BACKSLASH, LETTER_U, a, b, c, d],
    }
}

/// The bytes of a string literal's content.
pub open spec fn flat_string_items(items: Seq<StringItem>) -> Seq<u8>
    decreases items.len(),
{
    if items.len() == 0 {
        Seq::empty()
    } else {
        flat_string_item(items[0]) + flat_string_items(items.drop_first())
    }
}

/// The bytes of one unit.
pub open spec fn flat_unit(u: JsonUnit) -> Seq<u8>
    decreases u,
{
    match u {
        JsonUnit::Raw(c) => seq![c],
        JsonUnit::Object(us) => seq![LEFT_BRACE] + flat_units(us) + seq![RIGHT_BRACE],
        JsonUnit::Array(us) => seq![LEFT_BRACKET] + flat_units(us) + seq![RIGHT_BRACKET],
        JsonUnit::Text(items) => seq![QUOTE] + flat_string_items(items) + seq![QUOTE],
    }
}

/// The bytes of a sequence of units.
pub open spec fn flat_units(us: Seq<JsonUnit>) -> Seq<u8>
    decreases us,
{
    if us.len() == 0 {
        Seq::empty()
    } else {
        flat_unit(us[0]) + flat_units(us.drop_first())
    }
}

/// A stack that is not in the middle of a string literal: empty, or with a
/// structural entry on top.
pub open spec fn structural_top(st: Seq<ParserState>) -> bool {
    st.len() == 0 || st.last() == ParserState::Object || st.last() == ParserState::Array
}

/// Processing one well-formed string content piece from a stack with an
/// open string on top stays on that stack, with no error.
proof fn lemma_string_item_preserves(st: Seq<ParserState>, it: StringItem)
    requires
        st.len() > 0,
        st.last() == ParserState::String,
        wf_string_item(it),
    ensures
        run(st, flat_string_item(it)).0 == st,
        run(st, flat_string_item(it)).1 == Seq::<ParserError>::empty(),
{
    let n = st.len() - 1;
    match it {
        StringItem::Content(c) => {
            lemma_run_one(st, c);
        }
        StringItem::Escape(c) => {
            let s = flat_string_item(it);
            let st1 = step_stack(st, BACKSLASH);
            assert(st1 == st.update(n, ParserState::StringEscape));
            lemma_run_step(st, s);
            assert(s.drop_first() =~= seq![c]);
            lemma_run_one(st1, c);
            assert(c != QUOTE && c != LETTER_U);
            assert(step_stack(st1, c) == st1.update(n, ParserState::String));
            assert(st1.update(n, ParserState::String) =~= st);
            assert(run(st, s).1 =~= Seq::<ParserError>::empty());
        }
        StringItem::Unicode(a, b, c, d) => {
            let s = flat_string_item(it);
            let st1 = step_stack(st, BACKSLASH);
            assert(st1 == st.update(n, ParserState::StringEscape));
            lemma_run_step(st, s);
            let s1 = s.drop_first();
            assert(s1 =~= seq![LETTER_U, a, b, c, d]);
            let st2 = step_stack(st1, LETTER_U);
            assert(st2 == st1.update(n, ParserState::StringHex4));
            lemma_run_step(st1, s1);
            let s2 = s1.drop_first();
            assert(s2 =~= seq![a, b, c, d]);
            let st3 = step_stack(st2, a);
            assert(st3 == st2.update(n, ParserState::StringHex3));
            assert(step_err(st2, a) is None);
            lemma_run_step(st2, s2);
            let s3 = s2.drop_first();
            assert(s3 =~= seq![b, c, d]);
            let st4 = step_stack(st3, b);
            assert(st4 == st3.update(n, ParserState::StringHex2));
            assert(step_err(st3, b) is None);
            lemma_run_step(st3, s3);
            let s4 = s3.drop_first();
            assert(s4 =~= seq![c, d]);
            let st5 = step_stack(st4, c);
            assert(st5 == st4.update(n, ParserState::StringHex1));
            assert(step_err(st4, c) is None);
            lemma_run_step(st4, s4);
            let s5 = s4.drop_first();
            assert(s5 =~= seq![d]);
            lemma_run_one(st5, d);
            assert(step_err(st5, d) is None);
            assert(step_stack(st5, d) == st5.update(n, ParserState::String));
            assert(st5.update(n, ParserState::String) =~= st);
            assert(run(st, s).1 =~= Seq::<ParserError>::empty());
        }
    }
}

/// Processing a whole well-formed string content from a stack with an open
/// string on top stays on that stack, with no error.
proof fn lemma_string_items_preserve(st: Seq<ParserState>, items: Seq<StringItem>)
    requires
        st.len() > 0,
        st.last() == ParserState::String,
        wf_string_items(items),
    ensures
        run(st, flat_string_items(items)).0 == st,
        run(st, flat_string_items(items)).1 == Seq::<ParserError>::empty(),
    decreases items.len(),
{
    if items.len() == 0 {
    } else {
        let it = items[0];
        let rest = items.drop_first();
        assert(wf_string_item(it));
        assert(forall|i: int| 0 <= i < rest.len() ==> rest[i] == items[i + 1]);
        lemma_string_item_preserves(st, it);
        lemma_run_concat(st, flat_string_item(it), flat_string_items(rest));
        lemma_string_items_preserve(st, rest);
        assert(Seq::<ParserError>::empty() + Seq::<ParserError>::empty() =~= Seq::<
            ParserError,
        >::empty());
    }
}

/// Processing one well-formed unit from a structural position returns to
/// the same stack, with no error.
proof fn lemma_unit_preserves(st: Seq<ParserState>, u: JsonUnit)
    requires
        structural_top(st),
        wf_unit(u),
    ensures
        run(st, flat_unit(u)).0 == st,
        run(st, flat_unit(u)).1 == Seq::<ParserError>::empty(),
    decreases u,
{
    match u {
        JsonUnit::Raw(c) => {
            lemma_run_one(st, c);
        }
        JsonUnit::Object(us) => {
            let s = flat_unit(u);
            let inner = st.push(ParserState::Object);
            lemma_run_one(st, LEFT_BRACE);
            assert(step_stack(st, LEFT_BRACE) == inner);
            lemma_units_preserve(inner, us);
            lemma_run_one(inner, RIGHT_BRACE);
            assert(step_stack(inner, RIGHT_BRACE) == inner.drop_last());
            assert(inner.drop_last() =~= st);
            lemma_run_concat(st, seq![LEFT_BRACE], flat_units(us) + seq![RIGHT_BRACE]);
            lemma_run_concat(inner, flat_units(us), seq![RIGHT_BRACE]);
            assert(s =~= seq![LEFT_BRACE] + (flat_units(us) + seq![RIGHT_BRACE]));
            assert(run(st, s).1 =~= Seq::<ParserError>::empty());
        }
        JsonUnit::Array(us) => {
            let s = flat_unit(u);
            let inner = st.push(ParserState::Array);
            lemma_run_one(st, LEFT_BRACKET);
            assert(step_stack(st, LEFT_BRACKET) == inner);
            lemma_units_preserve(inner, us);
            lemma_run_one(inner, RIGHT_BRACKET);
            assert(step_stack(inner, RIGHT_BRACKET) == inner.drop_last());
            assert(inner.drop_last() =~= st);
            lemma_run_concat(st, seq![LEFT_BRACKET], flat_units(us) + seq![RIGHT_BRACKET]);
            lemma_run_concat(inner, flat_units(us), seq![RIGHT_BRACKET]);
            assert(s =~= seq![LEFT_BRACKET] + (flat_units(us) + seq![RIGHT_BRACKET]));
            assert(run(st, s).1 =~= Seq::<ParserError>::empty());
        }
        JsonUnit::Text(items) => {
            let s = flat_unit(u);
            let inner = st.push(ParserState::String);
            lemma_run_one(st, QUOTE);
            assert(step_stack(st, QUOTE) == inner);
            lemma_string_items_preserve(inner, items);
            lemma_run_one(inner, QUOTE);
            assert(step_stack(inner, QUOTE) == inner.drop_last());
            assert(inner.drop_last() =~= st);
            lemma_run_concat(st, seq![QUOTE], flat_string_items(items) + seq![QUOTE]);
            lemma_run_concat(inner, flat_string_items(items), seq![QUOTE]);
            assert(s =~= seq![QUOTE] + (flat_string_items(items) + seq![QUOTE]));
            assert(run(st, s).1 =~= Seq::<ParserError>::empty());
        }
    }
}

/// Processing a sequence of well-formed units from a structural position
/// returns to the same stack, with no error.
proof fn lemma_units_preserve(st: Seq<ParserState>, us: Seq<JsonUnit>)
    requires
        structural_top(st),
        wf_units(us),
    ensures
        run(st, flat_units(us)).0 == st,
        run(st, flat_units(us)).1 == Seq::<ParserError>::empty(),
    decreases us,
{
    if us.len() == 0 {
    } else {
        lemma_unit_preserves(st, us[0]);
        lemma_run_concat(st, flat_unit(us[0]), flat_units(us.drop_first()));
        lemma_units_preserve(st, us.drop_first());
        assert(Seq::<ParserError>::empty() + Seq::<ParserError>::empty() =~= Seq::<
            ParserError,
        >::empty());
    }
}

/// Law: a well-formed input — balanced `{}`/`[]` nesting and
/// syntactically valid strings and escapes, flattened to bytes — drives a
/// fresh analyzer through every byte without a single error and leaves the
/// depth at 0.
pub proof fn lemma_well_formed_never_errors(doc: Seq<JsonUnit>)
    requires
        wf_units(doc),
    ensures
        run(Seq::empty(), flat_units(doc)).0 == Seq::<ParserState>::empty(),
        run(Seq::empty(), flat_units(doc)).1 == Seq::<ParserError>::empty(),
{
    lemma_units_preserve(Seq::empty(), doc);
}

} // verus!
