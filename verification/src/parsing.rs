use vstd::prelude::*;
use crate::ops::operators::{is_op_char, op_for, prec_of, Operator, Operators};
use crate::stack::Stack;
use crate::text::{all_space_free, digit_char, is_digit_char, is_space_char, join_sp, space_char, space_free, split_sp, split_spaces};
use crate::numeric::Numeric;

verus! {

// ---------------------------------------------------------------------------
// Grouping symbols
// ---------------------------------------------------------------------------

pub open spec fn is_open_brace(c: char) -> bool {
    c == '(' || c == '{' || c == '['
}

pub open spec fn is_close_brace(c: char) -> bool {
    c == ')' || c == '}' || c == ']'
}

/// The opening symbol a closing one must meet.
pub open spec fn matching_open(c: char) -> char {
    if c == ')' {
        '('
    } else if c == '}' {
        '{'
    } else {
        '['
    }
}

// ---------------------------------------------------------------------------
// Balance of grouping symbols
//
// A stack-based check: push on open, pop on a close of the matching type;
// the text is balanced when every close meets its own opening symbol and
// nothing stays open at the end.
// ---------------------------------------------------------------------------

pub open spec fn balanced_from(s: Seq<char>, i: nat, st: Seq<char>) -> bool
    decreases s.len() - i,
{
    if i >= s.len() {
        st.len() == 0
    } else {
        let c = s[i as int];
        if is_open_brace(c) {
            balanced_from(s, i + 1, st.push(c))
        } else if is_close_brace(c) {
            st.len() > 0 && st.last() == matching_open(c) && balanced_from(s, i + 1, st.drop_last())
        } else {
            balanced_from(s, i + 1, st)
        }
    }
}

pub open spec fn balanced(s: Seq<char>) -> bool {
    balanced_from(s, 0, Seq::empty())
}

/// Whether the grouping symbols of the text are balanced and correctly
/// nested, each close matching the type of its open.
pub fn is_balanced_string(obj: &str) -> (b: bool)
    ensures
        b == balanced(obj@),
{
    let n = obj.unicode_len();
    let mut st = Stack::<char>::new();
    let mut i: usize = 0;
    while i < n
        invariant
            0 <= i <= n == obj@.len(),
            balanced(obj@) == balanced_from(obj@, i as nat, st@),
        decreases n - i,
    {
        let c = obj.get_char(i);
        if c == '[' || c == '(' || c == '{' {
            st.push(c);
        } else if c == ']' || c == ')' || c == '}' {
            let top_t = st.peek();
            match top_t {
                Some(top) => {
                    let is_match = (*top == '[' && c == ']') || (*top == '(' && c == ')') || (*top
                        == '{' && c == '}');
                    if !is_match {
                        return false;
                    }
                    if st.pop().is_err() {
                        return false;
                    }
                }
                None => {
                    return false;
                }
            }
        }
        i = i + 1;
    }
    st.is_empty()
}

// ---------------------------------------------------------------------------
// Numeric literal format
//
// Digits with at most one period; blanks may trail a run of digits, but no
// digit may follow a blank that came after digits.
// ---------------------------------------------------------------------------

pub open spec fn numeric_from(
    s: Seq<char>,
    i: nat,
    last_num: bool,
    last_space: bool,
    has_period: bool,
) -> bool
    decreases s.len() - i,
{
    if i >= s.len() {
        true
    } else {
        let c = s[i as int];
        if is_digit_char(c) {
            !last_space && numeric_from(s, i + 1, true, last_space, has_period)
        } else if is_space_char(c) {
            if last_space {
                numeric_from(s, i + 1, last_num, last_space, has_period)
            } else if last_num {
                numeric_from(s, i + 1, last_num, true, has_period)
            } else {
                numeric_from(s, i + 1, last_num, last_space, has_period)
            }
        } else if c == '.' {
            !has_period && numeric_from(s, i + 1, last_num, last_space, true)
        } else {
            false
        }
    }
}

pub open spec fn is_numeric_text(s: Seq<char>) -> bool {
    numeric_from(s, 0, false, false, false)
}

/// Whether the text has the shape of one numeric literal.
pub fn is_numeric_string(obj: &str) -> (b: bool)
    ensures
        b == is_numeric_text(obj@),
{
    let n = obj.unicode_len();
    let mut last_was_number = false;
    let mut last_was_space = false;
    let mut has_period = false;
    let mut i: usize = 0;
    while i < n
        invariant
            0 <= i <= n == obj@.len(),
            is_numeric_text(obj@) == numeric_from(
                obj@,
                i as nat,
                last_was_number,
                last_was_space,
                has_period,
            ),
        decreases n - i,
    {
        let c = obj.get_char(i);
        if digit_char(c) {
            if last_was_space {
                return false;
            }
            last_was_number = true;
        } else if space_char(c) {
            if !last_was_space && last_was_number {
                last_was_space = true;
            }
        } else if c == '.' {
            if has_period {
                return false;
            }
            has_period = true;
        } else {
            return false;
        }
        i = i + 1;
    }
    true
}

// ---------------------------------------------------------------------------
// The shunting model
//
// The parser is specified as a state machine over the input characters.
// Its state carries the postfix tokens already emitted, the pending
// operator symbols, the literal buffer, and the three look-behind flags
// the grammar checks. The executable parser below is proved to follow
// this machine step by step.
// ---------------------------------------------------------------------------

#[verifier::ext_equal]
pub ghost enum PTok {
    Num(Seq<char>),
    Ans,
    Op(char),
}

pub open spec fn tok_text(t: PTok) -> Seq<char> {
    match t {
        PTok::Num(s) => s,
        PTok::Ans => "ans"@,
        PTok::Op(c) => seq![c],
    }
}

pub open spec fn tok_texts(ts: Seq<PTok>) -> Seq<Seq<char>> {
    ts.map_values(|t: PTok| tok_text(t))
}

#[verifier::ext_equal]
pub ghost struct ShuntState {
    pub out: Seq<PTok>,
    pub stack: Seq<char>,
    pub buf: Seq<char>,
    pub prev_oper: bool,
    pub prev_num: bool,
    pub first: bool,
}

pub ghost enum ParseFail {
    Unbalanced,
    AdjacentOperand,
    BadLiteral,
    BadChar,
    LeadingOperator,
    ConsecutiveOperator,
    TrailingOperator,
    EmptyCloseStack,
}

/// The message each refusal carries.
pub open spec fn fail_msg(e: ParseFail) -> Seq<char> {
    match e {
        ParseFail::Unbalanced => "There is not a balance of braces."@,
        ParseFail::AdjacentOperand => "An operator or brace was expected, but a number was given."@,
        ParseFail::BadLiteral => "The expression is not of proper format."@,
        ParseFail::BadChar => "Invalid character in the expression."@,
        ParseFail::LeadingOperator => "The first character cannot be an operator."@,
        ParseFail::ConsecutiveOperator => "The previous item was an operator, and a number was expected."@,
        ParseFail::TrailingOperator => "The string does not contain enough numbers to operators."@,
        ParseFail::EmptyCloseStack => "Unrecognized brace pattern."@,
    }
}

/// Classifies and emits the pending literal, if any.
pub open spec fn flush_buf(st: ShuntState) -> Result<ShuntState, ParseFail> {
    if st.buf.len() == 0 {
        Ok(st)
    } else if is_numeric_text(st.buf) {
        Ok(ShuntState { out: st.out.push(PTok::Num(st.buf)), buf: Seq::empty(), ..st })
    } else {
        Err(ParseFail::BadLiteral)
    }
}

/// Pops operators that bind at least as tightly as `c` into the output,
/// never past a grouping symbol; at equal precedence `^` stays, making it
/// right-associative where every other operator is left-associative.
pub open spec fn op_pop(out: Seq<PTok>, stack: Seq<char>, c: char) -> (Seq<PTok>, Seq<char>)
    decreases stack.len(),
{
    if stack.len() == 0 {
        (out, stack)
    } else {
        let top = stack.last();
        if prec_of(top) == 4 {
            (out, stack)
        } else if prec_of(c) < prec_of(top) || (prec_of(c) == prec_of(top) && c != '^') {
            op_pop(out.push(PTok::Op(top)), stack.drop_last(), c)
        } else {
            (out, stack)
        }
    }
}

/// Pops operators into the output until the sought opening symbol leaves
/// the stack.
pub open spec fn close_pop(out: Seq<PTok>, stack: Seq<char>, target: char) -> (
    Seq<PTok>,
    Seq<char>,
)
    decreases stack.len(),
{
    if stack.len() == 0 {
        (out, stack)
    } else if stack.last() == target {
        (out, stack.drop_last())
    } else {
        close_pop(out.push(PTok::Op(stack.last())), stack.drop_last(), target)
    }
}

/// The power operator is right-associative: meeting `^` with another `^`
/// already on the stack pops nothing, so the later `^` binds first and
/// a chain like `2^3^2` reads as `2^(3^2)`.
pub proof fn lemma_caret_right_associative(out: Seq<PTok>, stack: Seq<char>)
    ensures
        op_pop(out, stack.push('^'), '^') == (out, stack.push('^')),
{
    assert(stack.push('^').last() == '^');
}

/// Every other operator is left-associative: meeting an operator whose
/// precedence equals the stack top's pops the top into the output first,
/// so equal operators apply left to right.
pub proof fn lemma_equal_precedence_left_associative(
    out: Seq<PTok>,
    stack: Seq<char>,
    top: char,
    c: char,
)
    requires
        is_op_char(top),
        is_op_char(c),
        prec_of(top) == prec_of(c),
        prec_of(c) <= 3,
        c != '^',
    ensures
        op_pop(out, stack.push(top), c) == op_pop(out.push(PTok::Op(top)), stack, c),
{
    assert(stack.push(top).last() == top);
    assert(stack.push(top).drop_last() =~= stack);
}

/// An operator of lower precedence pops a tighter-binding stack top into
/// the output: products and quotients apply before sums and differences.
pub proof fn lemma_higher_precedence_pops(out: Seq<PTok>, stack: Seq<char>, top: char, c: char)
    requires
        is_op_char(top),
        is_op_char(c),
        prec_of(c) < prec_of(top),
        prec_of(top) <= 3,
    ensures
        op_pop(out, stack.push(top), c) == op_pop(out.push(PTok::Op(top)), stack, c),
{
    assert(stack.push(top).last() == top);
    assert(stack.push(top).drop_last() =~= stack);
}

/// A grouping symbol shields everything beneath it: no operator pops past
/// an open brace.
pub proof fn lemma_brace_stops_popping(out: Seq<PTok>, stack: Seq<char>, b: char, c: char)
    requires
        is_open_brace(b),
    ensures
        op_pop(out, stack.push(b), c) == (out, stack.push(b)),
{
    assert(stack.push(b).last() == b);
}

/// One character of input.
pub open spec fn shunt_step(st: ShuntState, c: char) -> Result<ShuntState, ParseFail> {
    if is_digit_char(c) || c == '.' {
        if !st.first && !st.prev_oper && !st.prev_num {
            Err(ParseFail::AdjacentOperand)
        } else {
            Ok(
                ShuntState {
                    buf: st.buf.push(c),
                    prev_num: true,
                    prev_oper: false,
                    first: false,
                    ..st
                },
            )
        }
    } else if is_space_char(c) {
        match flush_buf(st) {
            Ok(st1) => Ok(ShuntState { prev_num: false, ..st1 }),
            Err(e) => Err(e),
        }
    } else if is_open_brace(c) {
        match flush_buf(st) {
            Ok(st1) => Ok(
                ShuntState {
                    stack: st1.stack.push(c),
                    prev_oper: true,
                    prev_num: false,
                    first: false,
                    ..st1
                },
            ),
            Err(e) => Err(e),
        }
    } else if is_close_brace(c) {
        match flush_buf(st) {
            Ok(st1) => {
                if st1.stack.len() == 0 {
                    Err(ParseFail::EmptyCloseStack)
                } else {
                    let popped = close_pop(st1.out, st1.stack, matching_open(c));
                    Ok(
                        ShuntState {
                            out: popped.0,
                            stack: popped.1,
                            prev_oper: false,
                            prev_num: false,
                            first: false,
                            ..st1
                        },
                    )
                }
            },
            Err(e) => Err(e),
        }
    } else if is_op_char(c) {
        if st.first {
            Err(ParseFail::LeadingOperator)
        } else if st.prev_oper {
            Err(ParseFail::ConsecutiveOperator)
        } else {
            match flush_buf(st) {
                Ok(st1) => {
                    let popped = op_pop(st1.out, st1.stack, c);
                    Ok(
                        ShuntState {
                            out: popped.0,
                            stack: popped.1.push(c),
                            prev_oper: true,
                            prev_num: false,
                            first: false,
                            ..st1
                        },
                    )
                },
                Err(e) => Err(e),
            }
        }
    } else {
        Err(ParseFail::BadChar)
    }
}

pub open spec fn init_state() -> ShuntState {
    ShuntState {
        out: Seq::empty(),
        stack: Seq::empty(),
        buf: Seq::empty(),
        prev_oper: false,
        prev_num: false,
        first: true,
    }
}

pub open spec fn shunt_from(s: Seq<char>, i: nat, st: ShuntState) -> Result<ShuntState, ParseFail>
    decreases s.len() - i,
{
    if i >= s.len() {
        Ok(st)
    } else {
        match shunt_step(st, s[i as int]) {
            Ok(st2) => shunt_from(s, i + 1, st2),
            Err(e) => Err(e),
        }
    }
}

/// Drains what is left on the operator stack into the output, in pop order.
pub open spec fn drain_ops(out: Seq<PTok>, stack: Seq<char>) -> Seq<PTok>
    decreases stack.len(),
{
    if stack.len() == 0 {
        out
    } else {
        drain_ops(out.push(PTok::Op(stack.last())), stack.drop_last())
    }
}

/// End of input: a trailing operator is an error; the pending literal is
/// flushed and the operator stack drained.
pub open spec fn shunt_finish(st: ShuntState) -> Result<Seq<PTok>, ParseFail> {
    if st.prev_oper {
        Err(ParseFail::TrailingOperator)
    } else {
        match flush_buf(st) {
            Ok(st1) => Ok(drain_ops(st1.out, st1.stack)),
            Err(e) => Err(e),
        }
    }
}

/// The whole parse: the balance pre-check, then the machine over every
/// character, then the finish step.
pub open spec fn parse_tokens(s: Seq<char>) -> Result<Seq<PTok>, ParseFail> {
    if !balanced(s) {
        Err(ParseFail::Unbalanced)
    } else {
        match shunt_from(s, 0, init_state()) {
            Ok(st) => shunt_finish(st),
            Err(e) => Err(e),
        }
    }
}

// ---------------------------------------------------------------------------
// Tokens of a successful parse are well formed
//
// Every token the machine emits is nonempty and free of spaces: a literal
// buffer collects only digits and periods, and an operator token is its
// one symbol. So the space-separated postfix text splits back into
// exactly the tokens the machine produced, and the evaluator reads what
// the parser wrote.
// ---------------------------------------------------------------------------

pub open spec fn tok_wf(t: PTok) -> bool {
    tok_text(t).len() > 0 && space_free(tok_text(t))
}

pub open spec fn toks_wf(ts: Seq<PTok>) -> bool {
    forall|i: int| 0 <= i < ts.len() ==> tok_wf(#[trigger] ts[i])
}

pub open spec fn buf_wf(b: Seq<char>) -> bool {
    forall|i: int| 0 <= i < b.len() ==> is_digit_char(#[trigger] b[i]) || b[i] == '.'
}

pub open spec fn stack_syms_wf(stack: Seq<char>) -> bool {
    forall|i: int| 0 <= i < stack.len() ==> is_op_char(#[trigger] stack[i])
}

pub open spec fn state_wf(st: ShuntState) -> bool {
    toks_wf(st.out) && buf_wf(st.buf) && stack_syms_wf(st.stack)
}

proof fn lemma_flush_wf(st: ShuntState)
    requires
        state_wf(st),
        flush_buf(st) is Ok,
    ensures
        state_wf(flush_buf(st)->Ok_0),
{
    if st.buf.len() > 0 {
        let st1 = flush_buf(st)->Ok_0;
        assert(space_free(st.buf));
        assert(tok_wf(PTok::Num(st.buf)));
        assert forall|i: int| 0 <= i < st1.out.len() implies tok_wf(#[trigger] st1.out[i]) by {
            if i < st.out.len() {
                assert(st1.out[i] == st.out[i]);
            }
        }
    }
}

proof fn lemma_close_pop_wf(out: Seq<PTok>, stack: Seq<char>, target: char)
    requires
        toks_wf(out),
        stack_syms_wf(stack),
    ensures
        toks_wf(close_pop(out, stack, target).0),
        stack_syms_wf(close_pop(out, stack, target).1),
    decreases stack.len(),
{
    if stack.len() == 0 {
    } else if stack.last() == target {
        assert(stack_syms_wf(stack.drop_last())) by {
            assert(forall|i: int|
                0 <= i < stack.len() - 1 ==> is_op_char(#[trigger] stack.drop_last()[i]));
        }
    } else {
        let out2 = out.push(PTok::Op(stack.last()));
        assert(is_op_char(stack.last()));
        assert(tok_wf(PTok::Op(stack.last())));
        assert forall|i: int| 0 <= i < out2.len() implies tok_wf(#[trigger] out2[i]) by {
            if i < out.len() {
                assert(out2[i] == out[i]);
            }
        }
        assert(stack_syms_wf(stack.drop_last())) by {
            assert(forall|i: int|
                0 <= i < stack.len() - 1 ==> is_op_char(#[trigger] stack.drop_last()[i]));
        }
        lemma_close_pop_wf(out2, stack.drop_last(), target);
    }
}

proof fn lemma_op_pop_wf(out: Seq<PTok>, stack: Seq<char>, c: char)
    requires
        toks_wf(out),
        stack_syms_wf(stack),
    ensures
        toks_wf(op_pop(out, stack, c).0),
        stack_syms_wf(op_pop(out, stack, c).1),
    decreases stack.len(),
{
    if stack.len() == 0 {
    } else {
        let top = stack.last();
        assert(is_op_char(top));
        if prec_of(top) == 4 {
        } else if prec_of(c) < prec_of(top) || (prec_of(c) == prec_of(top) && c != '^') {
            let out2 = out.push(PTok::Op(top));
            assert(tok_wf(PTok::Op(top)));
            assert forall|i: int| 0 <= i < out2.len() implies tok_wf(#[trigger] out2[i]) by {
                if i < out.len() {
                    assert(out2[i] == out[i]);
                }
            }
            assert(stack_syms_wf(stack.drop_last())) by {
                assert(forall|i: int|
                    0 <= i < stack.len() - 1 ==> is_op_char(#[trigger] stack.drop_last()[i]));
            }
            lemma_op_pop_wf(out2, stack.drop_last(), c);
        }
    }
}

proof fn lemma_drain_wf(out: Seq<PTok>, stack: Seq<char>)
    requires
        toks_wf(out),
        stack_syms_wf(stack),
    ensures
        toks_wf(drain_ops(out, stack)),
    decreases stack.len(),
{
    if stack.len() > 0 {
        let out2 = out.push(PTok::Op(stack.last()));
        assert(is_op_char(stack.last()));
        assert(tok_wf(PTok::Op(stack.last())));
        assert forall|i: int| 0 <= i < out2.len() implies tok_wf(#[trigger] out2[i]) by {
            if i < out.len() {
                assert(out2[i] == out[i]);
            }
        }
        assert(stack_syms_wf(stack.drop_last())) by {
            assert(forall|i: int|
                0 <= i < stack.len() - 1 ==> is_op_char(#[trigger] stack.drop_last()[i]));
        }
        lemma_drain_wf(out2, stack.drop_last());
    }
}

proof fn lemma_step_wf(st: ShuntState, c: char)
    requires
        state_wf(st),
        shunt_step(st, c) is Ok,
    ensures
        state_wf(shunt_step(st, c)->Ok_0),
{
    if is_digit_char(c) || c == '.' {
        let st2 = shunt_step(st, c)->Ok_0;
        assert(buf_wf(st2.buf)) by {
            assert forall|i: int|
                0 <= i < st2.buf.len() implies is_digit_char(#[trigger] st2.buf[i]) || st2.buf[i]
                == '.' by {
                if i < st.buf.len() {
                    assert(st2.buf[i] == st.buf[i]);
                }
            }
        }
    } else if is_space_char(c) {
        lemma_flush_wf(st);
    } else if is_open_brace(c) {
        lemma_flush_wf(st);
        let st1 = flush_buf(st)->Ok_0;
        assert(stack_syms_wf(st1.stack.push(c))) by {
            assert(forall|i: int|
                0 <= i < st1.stack.len() ==> st1.stack.push(c)[i] == #[trigger] st1.stack[i]);
        }
    } else if is_close_brace(c) {
        lemma_flush_wf(st);
        let st1 = flush_buf(st)->Ok_0;
        if st1.stack.len() > 0 {
            lemma_close_pop_wf(st1.out, st1.stack, matching_open(c));
        }
    } else if is_op_char(c) {
        lemma_flush_wf(st);
        let st1 = flush_buf(st)->Ok_0;
        lemma_op_pop_wf(st1.out, st1.stack, c);
        let popped = op_pop(st1.out, st1.stack, c);
        assert(stack_syms_wf(popped.1.push(c))) by {
            assert(forall|i: int|
                0 <= i < popped.1.len() ==> popped.1.push(c)[i] == #[trigger] popped.1[i]);
        }
    }
}

proof fn lemma_shunt_from_wf(s: Seq<char>, i: nat, st: ShuntState)
    requires
        state_wf(st),
        shunt_from(s, i, st) is Ok,
    ensures
        state_wf(shunt_from(s, i, st)->Ok_0),
    decreases s.len() - i,
{
    if i < s.len() {
        lemma_step_wf(st, s[i as int]);
        lemma_shunt_from_wf(s, i + 1, shunt_step(st, s[i as int])->Ok_0);
    }
}

/// Every token of a successful parse is nonempty and holds no space, so
/// the postfix text — the tokens joined with single spaces — splits back
/// into exactly those tokens: the evaluator reads precisely what the
/// parser wrote.
pub proof fn lemma_postfix_text_round_trip(s: Seq<char>)
    requires
        parse_tokens(s) is Ok,
    ensures
        toks_wf(parse_tokens(s)->Ok_0),
        parse_tokens(s)->Ok_0.len() > 0 ==> split_sp(join_sp(tok_texts(parse_tokens(s)->Ok_0)))
            == tok_texts(parse_tokens(s)->Ok_0),
{
    let st = shunt_from(s, 0, init_state())->Ok_0;
    lemma_shunt_from_wf(s, 0, init_state());
    lemma_flush_wf(st);
    let st1 = flush_buf(st)->Ok_0;
    lemma_drain_wf(st1.out, st1.stack);
    let toks = parse_tokens(s)->Ok_0;
    if toks.len() > 0 {
        assert(all_space_free(tok_texts(toks))) by {
            assert(forall|i: int| 0 <= i < toks.len() ==> tok_texts(toks)[i] == tok_text(#[trigger] toks[i]));
        }
        crate::text::lemma_split_join(tok_texts(toks));
    }
}

// ---------------------------------------------------------------------------
// Executable parsing
// ---------------------------------------------------------------------------

/// The output text while tokens are being emitted: every token followed by
/// one space.
pub open spec fn join_trailing(ts: Seq<PTok>) -> Seq<char>
    decreases ts.len(),
{
    if ts.len() == 0 {
        Seq::empty()
    } else {
        join_trailing(ts.drop_last()) + tok_text(ts.last()) + seq![' ']
    }
}

proof fn lemma_join_trailing(ts: Seq<PTok>)
    requires
        ts.len() > 0,
    ensures
        join_trailing(ts) == join_sp(tok_texts(ts)) + seq![' '],
    decreases ts.len(),
{
    if ts.len() == 1 {
        assert(join_trailing(ts.drop_last()) =~= Seq::<char>::empty());
        assert(tok_texts(ts).len() == 1);
        assert(join_sp(tok_texts(ts)) == tok_texts(ts)[0]);
        assert(join_trailing(ts) =~= join_sp(tok_texts(ts)) + seq![' ']);
    } else {
        lemma_join_trailing(ts.drop_last());
        assert(tok_texts(ts.drop_last()) =~~= tok_texts(ts).drop_last());
        assert(tok_texts(ts).last() == tok_text(ts.last()));
        assert(tok_texts(ts).len() == ts.len());
        assert(join_sp(tok_texts(ts)) == join_sp(tok_texts(ts).drop_last()) + seq![' ']
            + tok_texts(ts).last());
        assert(join_trailing(ts) =~= join_sp(tok_texts(ts)) + seq![' ']);
    }
}

/// The executable operator stack mirrors the model's symbol stack: same
/// length, each entry the table operator of its symbol.
pub open spec fn stack_rel(opers: Seq<Operator>, syms: Seq<char>) -> bool {
    opers.len() == syms.len() && forall|k: int|
        0 <= k < opers.len() ==> opers[k] == op_for(#[trigger] syms[k]) && is_op_char(syms[k])
}

fn op_symbol_str(c: char) -> (r: &'static str)
    requires
        is_op_char(c),
    ensures
        r@ =~= seq![c],
{
    proof {
        reveal_strlit("+");
        reveal_strlit("-");
        reveal_strlit("*");
        reveal_strlit("/");
        reveal_strlit("%");
        reveal_strlit("^");
        reveal_strlit("(");
        reveal_strlit("{");
        reveal_strlit("[");
    }
    if c == '+' { "+" }
    else if c == '-' { "-" }
    else if c == '*' { "*" }
    else if c == '/' { "/" }
    else if c == '%' { "%" }
    else if c == '^' { "^" }
    else if c == '(' { "(" }
    else if c == '{' { "{" }
    else { "[" }
}

/// Appends the pending literal, and a separating space, to the output text,
/// refusing a literal that is not in numeric format. The literal is the
/// input slice from `start` to `end`.
fn flush_segment(infix: &str, start: usize, end: usize, result: &mut String, st: Ghost<ShuntState>)
    -> (r: Result<(), String>)
    requires
        start <= end <= infix@.len(),
        st@.buf == infix@.subrange(start as int, end as int),
        old(result)@ == join_trailing(st@.out),
    ensures
        match r {
            Ok(()) => flush_buf(st@) is Ok && final(result)@ == join_trailing(
                flush_buf(st@)->Ok_0.out,
            ),
            Err(m) => flush_buf(st@) is Err && m@ == fail_msg(flush_buf(st@)->Err_0),
        },
{
    if start == end {
        proof {
            assert(st@.buf.len() == 0);
        }
        return Ok(());
    }
    let tok = infix.substring_char(start, end);
    if !is_numeric_string(tok) {
        return Err("The expression is not of proper format.".to_string());
    }
    result.append(tok);
    result.append(" ");
    proof {
        reveal_strlit(" ");
        let st1 = flush_buf(st@)->Ok_0;
        assert(st1.out.drop_last() =~= st@.out);
        assert(st1.out.last() == PTok::Num(st@.buf));
        assert(result@ =~= join_trailing(st1.out));
    }
    Ok(())
}

/// Flushes an accumulated literal into the output text: the literal and one
/// space are appended and the buffer is cleared. A literal that is not in
/// numeric format is refused, and nothing changes.
pub fn flush_prev_num(result: &mut String, prev_num: &mut String) -> (r: Result<(), String>)
    ensures
        match r {
            Ok(()) => (old(prev_num)@.len() == 0 ==> final(result)@ == old(result)@
                && final(prev_num)@ == old(prev_num)@) && (old(prev_num)@.len() > 0
                ==> is_numeric_text(old(prev_num)@) && final(result)@ == old(result)@ + old(
                prev_num,
            )@ + seq![' '] && final(prev_num)@ == Seq::<char>::empty()),
            Err(_) => !is_numeric_text(old(prev_num)@) && old(prev_num)@.len() > 0
                && final(result)@ == old(result)@ && final(prev_num)@ == old(prev_num)@,
        },
{
    if prev_num.as_str().unicode_len() != 0 {
        if !is_numeric_string(prev_num.as_str()) {
            return Err("The expression is not of proper format.".to_string());
        }
        result.append(prev_num.as_str());
        result.append(" ");
        proof {
            reveal_strlit(" ");
        }
        *prev_num = String::new();
    }
    Ok(())
}

/// Converts an infix expression to its postfix form, one text of
/// space-separated tokens. The result and every refusal are pinned by the
/// shunting model: `parse_tokens` of the input characters.
pub fn to_postfix(infix: &str, ops: &Operators) -> (r: Result<String, String>)
    requires
        ops.wf(),
    ensures
        match r {
            Ok(out) => parse_tokens(infix@) matches Ok(toks) && out@ == join_sp(tok_texts(toks)),
            Err(m) => parse_tokens(infix@) matches Err(e) && m@ == fail_msg(e),
        },
{
    if !is_balanced_string(infix) {
        return Err("There is not a balance of braces.".to_string());
    }
    let n = infix.unicode_len();
    let mut result = String::new();
    let mut buf_start: usize = 0;
    let mut prev_was_oper = false;
    let mut prev_was_num = false;
    let mut first_char = true;
    let mut opers = Stack::<Operator>::new();
    let mut st: Ghost<ShuntState> = Ghost(init_state());
    let mut i: usize = 0;
    while i < n
        invariant
            ops.wf(),
            0 <= i <= n == infix@.len(),
            buf_start <= i,
            st@.buf == infix@.subrange(buf_start as int, i as int),
            result@ == join_trailing(st@.out),
            stack_rel(opers@, st@.stack),
            prev_was_oper == st@.prev_oper,
            prev_was_num == st@.prev_num,
            first_char == st@.first,
            shunt_from(infix@, 0, init_state()) == shunt_from(infix@, i as nat, st@),
            balanced(infix@),
        decreases n - i,
    {
        let c = infix.get_char(i);
        let st0: Ghost<ShuntState> = st;
        proof {
            assert(shunt_from(infix@, i as nat, st0@) == (match shunt_step(st0@, c) {
                Ok(st2) => shunt_from(infix@, (i + 1) as nat, st2),
                Err(e) => Err::<ShuntState, ParseFail>(e),
            }));
        }
        if digit_char(c) || c == '.' {
            if !first_char && !prev_was_oper && !prev_was_num {
                return Err(
                    "An operator or brace was expected, but a number was given.".to_string(),
                );
            }
            proof {
                st@ = shunt_step(st0@, c)->Ok_0;
                assert(st@.buf =~= infix@.subrange(buf_start as int, i + 1));
            }
            prev_was_num = true;
            prev_was_oper = false;
            first_char = false;
        } else if space_char(c) {
            match flush_segment(infix, buf_start, i, &mut result, st0) {
                Ok(()) => {},
                Err(m) => {
                    return Err(m);
                },
            }
            proof {
                st@ = shunt_step(st0@, c)->Ok_0;
                assert(st@.buf =~= infix@.subrange(i + 1, i + 1));
            }
            buf_start = i + 1;
            prev_was_num = false;
        } else if c == '(' || c == '{' || c == '[' {
            match flush_segment(infix, buf_start, i, &mut result, st0) {
                Ok(()) => {},
                Err(m) => {
                    return Err(m);
                },
            }
            prev_was_oper = true;
            prev_was_num = false;
            first_char = false;
            let prev_opers: Ghost<Seq<Operator>> = Ghost(opers@);
            let ghost prev_stack = st0@.stack;
            let operator = ops.get_operator(c);
            match operator {
                Some(a) => opers.push(*a),
                None => {
                    proof {
                        assert(false);
                    }
                    return Err("The operator was not recognized in this context.".to_string());
                },
            }
            proof {
                st@ = shunt_step(st0@, c)->Ok_0;
                assert(st@.buf =~= infix@.subrange(i + 1, i + 1));
                assert(st@.stack == prev_stack.push(c));
                assert forall|k: int|
                    0 <= k < opers@.len() implies opers@[k] == op_for(#[trigger] st@.stack[k])
                    && is_op_char(st@.stack[k]) by {
                    if k < prev_opers@.len() {
                        assert(opers@[k] == prev_opers@[k]);
                        assert(st@.stack[k] == prev_stack[k]);
                    } else {
                        assert(st@.stack[k] == c);
                    }
                }
                assert(stack_rel(opers@, st@.stack));
            }
            buf_start = i + 1;
        } else if c == ')' || c == '}' || c == ']' {
            match flush_segment(infix, buf_start, i, &mut result, st0) {
                Ok(()) => {},
                Err(m) => {
                    return Err(m);
                },
            }
            prev_was_oper = false;
            prev_was_num = false;
            first_char = false;
            let match_open_char: char = if c == ')' {
                '('
            } else if c == '}' {
                '{'
            } else {
                '['
            };
            let ghost st1 = flush_buf(st0@)->Ok_0;
            if opers.is_empty() {
                return Err("Unrecognized brace pattern.".to_string());
            }
            let mut gout: Ghost<Seq<PTok>> = Ghost(st1.out);
            let mut gstack: Ghost<Seq<char>> = Ghost(st1.stack);
            while !opers.is_empty()
                invariant_except_break
                    ops.wf(),
                    close_pop(st1.out, st1.stack, match_open_char) == close_pop(
                        gout@,
                        gstack@,
                        match_open_char,
                    ),
                    stack_rel(opers@, gstack@),
                    result@ == join_trailing(gout@),
                ensures
                    close_pop(st1.out, st1.stack, match_open_char) == (gout@, gstack@),
                    stack_rel(opers@, gstack@),
                    result@ == join_trailing(gout@),
                decreases opers@.len(),
            {
                let top = *opers.peek().unwrap();
                let prev_opers: Ghost<Seq<Operator>> = Ghost(opers@);
                let prev_stack: Ghost<Seq<char>> = Ghost(gstack@);
                if top.symbol == match_open_char {
                    let popped = opers.pop();
                    proof {
                        assert(popped is Ok);
                        gstack@ = gstack@.drop_last();
                        assert forall|k: int|
                            0 <= k < opers@.len() implies opers@[k] == op_for(
                            #[trigger] gstack@[k],
                        ) && is_op_char(gstack@[k]) by {
                            assert(opers@[k] == prev_opers@[k]);
                            assert(gstack@[k] == prev_stack@[k]);
                        }
                        assert(stack_rel(opers@, gstack@));
                    }
                    break;
                }
                result.append(op_symbol_str(top.symbol));
                result.append(" ");
                let popped = opers.pop();
                proof {
                    reveal_strlit(" ");
                    assert(popped is Ok);
                    let gprev = gout@;
                    gout@ = gout@.push(PTok::Op(gstack@.last()));
                    gstack@ = gstack@.drop_last();
                    assert(gout@.last() == PTok::Op(top.symbol));
                    assert(gout@.drop_last() =~= gprev);
                    assert(result@ =~= join_trailing(gout@));
                    assert forall|k: int|
                        0 <= k < opers@.len() implies opers@[k] == op_for(#[trigger] gstack@[k])
                        && is_op_char(gstack@[k]) by {
                        assert(opers@[k] == prev_opers@[k]);
                        assert(gstack@[k] == prev_stack@[k]);
                    }
                    assert(stack_rel(opers@, gstack@));
                }
            }
            proof {
                st@ = shunt_step(st0@, c)->Ok_0;
                assert(st@.out == gout@ && st@.stack == gstack@);
                assert(st@.buf =~= infix@.subrange(i + 1, i + 1));
            }
            buf_start = i + 1;
        } else if ops.is_operator(c) {
            if first_char {
                return Err("The first character cannot be an operator.".to_string());
            }
            if prev_was_oper {
                return Err(
                    "The previous item was an operator, and a number was expected.".to_string(),
                );
            }
            match flush_segment(infix, buf_start, i, &mut result, st0) {
                Ok(()) => {},
                Err(m) => {
                    return Err(m);
                },
            }
            let ghost st1 = flush_buf(st0@)->Ok_0;
            let curr_oper: Operator = match ops.get_operator(c) {
                Some(a) => *a,
                None => {
                    proof {
                        assert(false);
                    }
                    return Err("Cannot understand operator.".to_string());
                },
            };
            let p2 = curr_oper.get_precedence();
            let mut gout: Ghost<Seq<PTok>> = Ghost(st1.out);
            let mut gstack: Ghost<Seq<char>> = Ghost(st1.stack);
            while !opers.is_empty()
                invariant_except_break
                    ops.wf(),
                    p2 == prec_of(c),
                    op_pop(st1.out, st1.stack, c) == op_pop(gout@, gstack@, c),
                    stack_rel(opers@, gstack@),
                    result@ == join_trailing(gout@),
                ensures
                    op_pop(st1.out, st1.stack, c) == (gout@, gstack@),
                    stack_rel(opers@, gstack@),
                    result@ == join_trailing(gout@),
                decreases opers@.len(),
            {
                let top = *opers.peek().unwrap();
                let p1 = top.get_precedence();
                if p1 == ops.get_brace_precedence() {
                    break;
                }
                if p2 < p1 || (p1 == p2 && c != '^') {
                    let prev_opers: Ghost<Seq<Operator>> = Ghost(opers@);
                    let prev_stack: Ghost<Seq<char>> = Ghost(gstack@);
                    result.append(op_symbol_str(top.symbol));
                    result.append(" ");
                    let popped = opers.pop();
                    proof {
                        reveal_strlit(" ");
                        assert(popped is Ok);
                        let gprev = gout@;
                        gout@ = gout@.push(PTok::Op(gstack@.last()));
                        gstack@ = gstack@.drop_last();
                        assert(gout@.drop_last() =~= gprev);
                        assert(result@ =~= join_trailing(gout@));
                        assert forall|k: int|
                            0 <= k < opers@.len() implies opers@[k] == op_for(
                            #[trigger] gstack@[k],
                        ) && is_op_char(gstack@[k]) by {
                            assert(opers@[k] == prev_opers@[k]);
                            assert(gstack@[k] == prev_stack@[k]);
                        }
                        assert(stack_rel(opers@, gstack@));
                    }
                } else {
                    break;
                }
            }
            let prev_opers: Ghost<Seq<Operator>> = Ghost(opers@);
            opers.push(curr_oper);
            proof {
                st@ = shunt_step(st0@, c)->Ok_0;
                assert(st@.out == gout@ && st@.stack == gstack@.push(c));
                assert(st@.buf =~= infix@.subrange(i + 1, i + 1));
                assert forall|k: int|
                    0 <= k < opers@.len() implies opers@[k] == op_for(#[trigger] st@.stack[k])
                    && is_op_char(st@.stack[k]) by {
                    if k < prev_opers@.len() {
                        assert(opers@[k] == prev_opers@[k]);
                        assert(st@.stack[k] == gstack@[k]);
                    } else {
                        assert(opers@[k] == curr_oper);
                        assert(st@.stack[k] == c);
                    }
                }
                assert(stack_rel(opers@, st@.stack));
            }
            buf_start = i + 1;
            prev_was_oper = true;
            prev_was_num = false;
            first_char = false;
        } else {
            return Err("Invalid character in the expression.".to_string());
        }
        i = i + 1;
    }
    proof {
        assert(shunt_from(infix@, 0, init_state()) == Ok::<ShuntState, ParseFail>(st@));
    }
    // end of input: the last significant token may not be an operator
    if prev_was_oper {
        return Err("The string does not contain enough numbers to operators.".to_string());
    }
    match flush_segment(infix, buf_start, n, &mut result, st) {
        Ok(()) => {},
        Err(m) => {
            return Err(m);
        },
    }
    let ghost st1 = flush_buf(st@)->Ok_0;
    let mut gout: Ghost<Seq<PTok>> = Ghost(st1.out);
    let mut gstack: Ghost<Seq<char>> = Ghost(st1.stack);
    while !opers.is_empty()
        invariant
            stack_rel(opers@, gstack@),
            result@ == join_trailing(gout@),
            drain_ops(st1.out, st1.stack) == drain_ops(gout@, gstack@),
        decreases opers@.len(),
    {
        let top = *opers.peek().unwrap();
        let prev_opers: Ghost<Seq<Operator>> = Ghost(opers@);
        let prev_stack: Ghost<Seq<char>> = Ghost(gstack@);
        result.append(op_symbol_str(top.symbol));
        result.append(" ");
        let popped = opers.pop();
        proof {
            reveal_strlit(" ");
            assert(popped is Ok);
            let gprev = gout@;
            gout@ = gout@.push(PTok::Op(gstack@.last()));
            gstack@ = gstack@.drop_last();
            assert(gout@.drop_last() =~= gprev);
            assert(result@ =~= join_trailing(gout@));
            assert forall|k: int|
                0 <= k < opers@.len() implies opers@[k] == op_for(#[trigger] gstack@[k])
                && is_op_char(gstack@[k]) by {
                assert(opers@[k] == prev_opers@[k]);
                assert(gstack@[k] == prev_stack@[k]);
            }
            assert(stack_rel(opers@, gstack@));
        }
    }
    let ghost toks = drain_ops(st1.out, st1.stack);
    proof {
        assert(gstack@.len() == 0);
        assert(toks == gout@);
        assert(parse_tokens(infix@) == Ok::<Seq<PTok>, ParseFail>(toks));
    }
    // every token so far carries one trailing space; drop the last one
    let len = result.as_str().unicode_len();
    if len == 0 {
        proof {
            assert(gout@.len() == 0) by {
                if gout@.len() > 0 {
                    lemma_join_trailing(gout@);
                }
            }
            assert(tok_texts(toks).len() == 0);
            assert(result@ =~= join_sp(tok_texts(toks)));
        }
        return Ok(result);
    }
    let trimmed = result.as_str().substring_char(0, len - 1);
    proof {
        lemma_join_trailing(gout@);
        assert(gout@.len() > 0) by {
            if gout@.len() == 0 {
                assert(result@ =~= Seq::<char>::empty());
            }
        }
        assert(trimmed@ =~= join_sp(tok_texts(toks)));
    }
    Ok(String::from_str(trimmed))
}

// ---------------------------------------------------------------------------
// Postfix evaluation
//
// The evaluator walks the token sequence with one value stack: a number
// pushes, an operator pops two values and pushes one result. The shape
// machine below decides, from the token shapes alone, whether the walk
// succeeds; the element values never influence control flow.
// ---------------------------------------------------------------------------

pub ghost enum PostfixFail {
    NotEnoughOperands,
    BadToken,
    WrongCount,
}

pub open spec fn postfix_msg(e: PostfixFail) -> Seq<char> {
    match e {
        PostfixFail::NotEnoughOperands => "The expression calls for an operator, but does not contain enough numbers."@,
        PostfixFail::BadToken => "Invalid operator/numerical expression."@,
        PostfixFail::WrongCount => "The expression does not have the correct number of operators to numbers."@,
    }
}

pub open spec fn num_parse_msg() -> Seq<char> {
    "Could not parse the numeric string."@
}

/// A token that names one operator of the table.
pub open spec fn is_op_token(t: Seq<char>) -> bool {
    t.len() == 1 && is_op_char(t[0])
}

/// The stack height after each token, or the first failure: an operator
/// needs two values and leaves one, a numeric literal adds one, anything
/// else is refused.
pub open spec fn shape_from(toks: Seq<Seq<char>>, i: nat, h: nat) -> Result<nat, PostfixFail>
    decreases toks.len() - i,
{
    if i >= toks.len() {
        Ok(h)
    } else {
        let t = toks[i as int];
        if is_op_token(t) {
            if h < 2 {
                Err(PostfixFail::NotEnoughOperands)
            } else {
                shape_from(toks, i + 1, (h - 1) as nat)
            }
        } else if is_numeric_text(t) {
            shape_from(toks, i + 1, h + 1)
        } else {
            Err(PostfixFail::BadToken)
        }
    }
}

pub open spec fn postfix_shape(toks: Seq<Seq<char>>) -> Result<nat, PostfixFail> {
    shape_from(toks, 0, 0)
}

/// One already-resolved postfix token: an element value or an operator
/// symbol.
pub enum PostfixToken<N> {
    Number(N),
    Symbol(char),
}

pub open spec fn ptok_is_op<N: Numeric>(t: PostfixToken<N>) -> bool {
    match t {
        PostfixToken::Number(_) => false,
        PostfixToken::Symbol(c) => is_op_char(c),
    }
}

pub open spec fn ptok_is_bad<N: Numeric>(t: PostfixToken<N>) -> bool {
    match t {
        PostfixToken::Number(_) => false,
        PostfixToken::Symbol(c) => !is_op_char(c),
    }
}

/// The shape machine over resolved tokens.
pub open spec fn pshape_from<N: Numeric>(toks: Seq<PostfixToken<N>>, i: nat, h: nat) -> Result<
    nat,
    PostfixFail,
>
    decreases toks.len() - i,
{
    if i >= toks.len() {
        Ok(h)
    } else if ptok_is_bad(toks[i as int]) {
        Err(PostfixFail::BadToken)
    } else if ptok_is_op(toks[i as int]) {
        if h < 2 {
            Err(PostfixFail::NotEnoughOperands)
        } else {
            pshape_from(toks, i + 1, (h - 1) as nat)
        }
    } else {
        pshape_from(toks, i + 1, h + 1)
    }
}

/// Reduces a sequence of resolved tokens to one element. Succeeds exactly
/// when the shape machine ends at height one; each refusal carries the
/// message of its failure.
pub fn evaluate_postfix_tokens<N: Numeric>(toks: &Vec<PostfixToken<N>>, ops: &Operators) -> (r:
    Result<N, String>)
    requires
        ops.wf(),
    ensures
        r is Ok <==> pshape_from(toks@, 0, 0) == Ok::<nat, PostfixFail>(1nat),
        r matches Err(m) ==> match pshape_from(toks@, 0, 0) {
            Ok(h) => h != 1 && m@ == postfix_msg(PostfixFail::WrongCount),
            Err(e) => m@ == postfix_msg(e),
        },
{
    let mut results = Stack::<N>::new();
    let n = toks.len();
    let mut i: usize = 0;
    while i < n
        invariant
            ops.wf(),
            0 <= i <= n == toks@.len(),
            pshape_from(toks@, 0, 0) == pshape_from(toks@, i as nat, results@.len() as nat),
        decreases n - i,
    {
        match &toks[i] {
            PostfixToken::Symbol(c) => {
                match ops.get_operator(*c) {
                    Some(operator) => {
                        if results.len() < 2 {
                            return Err(
                                "The expression calls for an operator, but does not contain enough numbers.".to_string(),
                            );
                        }
                        let b = *results.peek().unwrap();
                        let popped_b = results.pop();
                        proof {
                            assert(popped_b is Ok);
                        }
                        let a = *results.peek().unwrap();
                        let popped_a = results.pop();
                        proof {
                            assert(popped_a is Ok);
                        }
                        results.push(operator.evaluate(&a, &b));
                    },
                    None => {
                        return Err("Invalid operator/numerical expression.".to_string());
                    },
                }
            },
            PostfixToken::Number(v) => {
                results.push(*v);
            },
        }
        i = i + 1;
    }
    if results.len() != 1 {
        return Err(
            "The expression does not have the correct number of operators to numbers.".to_string(),
        );
    }
    let top = *results.peek().unwrap();
    Ok(top)
}

/// Evaluates a postfix text of space-separated tokens. Empty text gives
/// the zero element; a text that is one numeric literal is read directly;
/// otherwise the tokens drive the value stack, and success is pinned by
/// the shape machine up to the reading of the literals, which the element
/// type decides.
pub fn evaluate_postfix<N: Numeric>(postfix: &str, ops: &Operators) -> (r: Result<N, String>)
    requires
        ops.wf(),
    ensures
        postfix@.len() == 0 ==> r is Ok,
        postfix@.len() > 0 && is_numeric_text(postfix@) ==> (r is Ok || (r matches Err(m) && m@
            == num_parse_msg())),
        postfix@.len() > 0 && !is_numeric_text(postfix@) ==> match r {
            Ok(_) => postfix_shape(split_sp(postfix@)) == Ok::<nat, PostfixFail>(1nat),
            Err(m) => m@ == num_parse_msg() || (match postfix_shape(split_sp(postfix@)) {
                Ok(h) => h != 1 && m@ == postfix_msg(PostfixFail::WrongCount),
                Err(e) => m@ == postfix_msg(e),
            }),
        },
{
    if postfix.unicode_len() == 0 {
        return Ok(N::zero());
    }
    if is_numeric_string(postfix) {
        return match N::from_text(postfix) {
            Some(v) => Ok(v),
            None => Err("Could not parse the numeric string.".to_string()),
        };
    }
    let literals = split_spaces(postfix);
    let ghost texts = split_sp(postfix@);
    let mut results = Stack::<N>::new();
    let n = literals.len();
    let mut i: usize = 0;
    while i < n
        invariant
            ops.wf(),
            0 <= i <= n == texts.len(),
            literals@.len() == texts.len(),
            forall|k: int| 0 <= k < n ==> #[trigger] literals@[k]@ == texts[k],
            shape_from(texts, 0, 0) == shape_from(texts, i as nat, results@.len() as nat),
            postfix@.len() > 0,
            !is_numeric_text(postfix@),
            texts == split_sp(postfix@),
        decreases n - i,
    {
        let curr = literals[i];
        if curr.unicode_len() == 1 && ops.is_operator(curr.get_char(0)) {
            let operator = match ops.get_operator(curr.get_char(0)) {
                Some(a) => a,
                None => {
                    proof {
                        assert(false);
                    }
                    return Err("Invalid operator/numerical expression.".to_string());
                },
            };
            if results.len() < 2 {
                return Err(
                    "The expression calls for an operator, but does not contain enough numbers.".to_string(),
                );
            }
            proof {
                assert(is_op_token(texts[i as int]));
            }
            let b = *results.peek().unwrap();
            let popped_b = results.pop();
            proof {
                assert(popped_b is Ok);
            }
            let a = *results.peek().unwrap();
            let popped_a = results.pop();
            proof {
                assert(popped_a is Ok);
            }
            results.push(operator.evaluate(&a, &b));
        } else if is_numeric_string(curr) {
            proof {
                assert(!is_op_token(texts[i as int])) by {
                    if curr@.len() == 1 {
                        assert(!is_op_char(curr@[0]));
                    }
                }
            }
            match N::from_text(curr) {
                Some(a) => results.push(a),
                None => {
                    return Err("Could not parse the numeric string.".to_string());
                },
            }
        } else {
            proof {
                assert(!is_op_token(texts[i as int])) by {
                    if curr@.len() == 1 {
                        assert(!is_op_char(curr@[0]));
                    }
                }
            }
            return Err("Invalid operator/numerical expression.".to_string());
        }
        i = i + 1;
    }
    if results.len() != 1 {
        return Err(
            "The expression does not have the correct number of operators to numbers.".to_string(),
        );
    }
    let top = *results.peek().unwrap();
    Ok(top)
}

// ---------------------------------------------------------------------------
// A successful parse of a brace-free expression is evaluable
//
// Over inputs made of digits, periods, blanks and the six arithmetic
// symbols, the grammar checks of the machine (no leading, doubled or
// trailing operator, no adjacent operands) guarantee that the emitted
// postfix is well shaped: the evaluator's stack never runs dry and ends
// with exactly one value.
// ---------------------------------------------------------------------------

pub open spec fn is_plain_char(c: char) -> bool {
    is_digit_char(c) || c == '.' || is_space_char(c) || (is_op_char(c) && !is_open_brace(c))
}

pub open spec fn plain_text(s: Seq<char>) -> bool {
    forall|i: int| 0 <= i < s.len() ==> is_plain_char(#[trigger] s[i])
}

/// The operator stack holds binary operators only, no grouping symbols.
pub open spec fn binop_stack(stack: Seq<char>) -> bool {
    forall|i: int|
        0 <= i < stack.len() ==> is_op_char(#[trigger] stack[i]) && prec_of(stack[i]) <= 3
}

pub open spec fn bufbit(st: ShuntState) -> nat {
    if st.buf.len() > 0 {
        1
    } else {
        0
    }
}

pub open spec fn combit(st: ShuntState) -> nat {
    if !st.first && !st.prev_oper {
        1
    } else {
        0
    }
}

/// The bookkeeping that the grammar checks maintain on brace-free input:
/// the emitted tokens are well shaped, and their stack height balances
/// the pending operators against whether a value is currently complete.
pub open spec fn plain_state(st: ShuntState) -> bool {
    &&& shape_from(tok_texts(st.out), 0, 0) is Ok
    &&& binop_stack(st.stack)
    &&& buf_wf(st.buf)
    &&& shape_from(tok_texts(st.out), 0, 0)->Ok_0 + bufbit(st) == st.stack.len() + combit(st)
    &&& (st.prev_oper ==> st.buf.len() == 0)
    &&& (st.prev_num ==> st.buf.len() > 0)
    &&& (st.first ==> st.out.len() == 0 && st.stack.len() == 0 && st.buf.len() == 0
        && !st.prev_oper)
}

proof fn lemma_shape_push(ts: Seq<Seq<char>>, t: Seq<char>, i: nat, h: nat)
    requires
        i <= ts.len(),
        shape_from(ts, i, h) is Ok,
    ensures
        shape_from(ts.push(t), i, h) == ({
            let h1 = shape_from(ts, i, h)->Ok_0;
            if is_op_token(t) {
                if h1 < 2 {
                    Err::<nat, PostfixFail>(PostfixFail::NotEnoughOperands)
                } else {
                    Ok::<nat, PostfixFail>((h1 - 1) as nat)
                }
            } else if is_numeric_text(t) {
                Ok::<nat, PostfixFail>(h1 + 1)
            } else {
                Err::<nat, PostfixFail>(PostfixFail::BadToken)
            }
        }),
    decreases ts.len() - i,
{
    if i == ts.len() {
        assert(ts.push(t)[i as int] == t);
    } else {
        assert(ts.push(t)[i as int] == ts[i as int]);
        let tcur = ts[i as int];
        if is_op_token(tcur) {
            lemma_shape_push(ts, t, i + 1, (h - 1) as nat);
        } else {
            lemma_shape_push(ts, t, i + 1, h + 1);
        }
    }
}

proof fn lemma_push_num(out: Seq<PTok>, b: Seq<char>)
    requires
        shape_from(tok_texts(out), 0, 0) is Ok,
        is_numeric_text(b),
        b.len() > 0,
        buf_wf(b),
    ensures
        shape_from(tok_texts(out.push(PTok::Num(b))), 0, 0) == Ok::<nat, PostfixFail>(
            shape_from(tok_texts(out), 0, 0)->Ok_0 + 1,
        ),
{
    assert(tok_texts(out.push(PTok::Num(b))) =~~= tok_texts(out).push(b));
    assert(!is_op_token(b)) by {
        if b.len() == 1 {
            assert(is_digit_char(b[0]) || b[0] == '.');
        }
    }
    lemma_shape_push(tok_texts(out), b, 0, 0);
}

proof fn lemma_push_op(out: Seq<PTok>, c: char)
    requires
        shape_from(tok_texts(out), 0, 0) is Ok,
        shape_from(tok_texts(out), 0, 0)->Ok_0 >= 2,
        is_op_char(c),
    ensures
        shape_from(tok_texts(out.push(PTok::Op(c))), 0, 0) == Ok::<nat, PostfixFail>(
            (shape_from(tok_texts(out), 0, 0)->Ok_0 - 1) as nat,
        ),
{
    assert(tok_texts(out.push(PTok::Op(c))) =~~= tok_texts(out).push(seq![c]));
    assert(is_op_token(seq![c]));
    lemma_shape_push(tok_texts(out), seq![c], 0, 0);
}

proof fn lemma_op_pop_height(out: Seq<PTok>, stack: Seq<char>, c: char)
    requires
        binop_stack(stack),
        shape_from(tok_texts(out), 0, 0) == Ok::<nat, PostfixFail>((stack.len() + 1) as nat),
    ensures
        ({
            let popped = op_pop(out, stack, c);
            &&& binop_stack(popped.1)
            &&& shape_from(tok_texts(popped.0), 0, 0) == Ok::<nat, PostfixFail>(
                (popped.1.len() + 1) as nat,
            )
        }),
    decreases stack.len(),
{
    if stack.len() == 0 {
    } else {
        let top = stack.last();
        assert(is_op_char(top) && prec_of(top) <= 3);
        if prec_of(c) < prec_of(top) || (prec_of(c) == prec_of(top) && c != '^') {
            lemma_push_op(out, top);
            assert(binop_stack(stack.drop_last())) by {
                assert(forall|i: int|
                    0 <= i < stack.len() - 1 ==> stack.drop_last()[i] == #[trigger] stack[i]);
            }
            lemma_op_pop_height(out.push(PTok::Op(top)), stack.drop_last(), c);
        }
    }
}

proof fn lemma_drain_height(out: Seq<PTok>, stack: Seq<char>)
    requires
        binop_stack(stack),
        shape_from(tok_texts(out), 0, 0) == Ok::<nat, PostfixFail>((stack.len() + 1) as nat),
    ensures
        shape_from(tok_texts(drain_ops(out, stack)), 0, 0) == Ok::<nat, PostfixFail>(1),
    decreases stack.len(),
{
    if stack.len() > 0 {
        let top = stack.last();
        assert(is_op_char(top));
        lemma_push_op(out, top);
        assert(binop_stack(stack.drop_last())) by {
            assert(forall|i: int|
                0 <= i < stack.len() - 1 ==> stack.drop_last()[i] == #[trigger] stack[i]);
        }
        lemma_drain_height(out.push(PTok::Op(top)), stack.drop_last());
    }
}

proof fn lemma_flush_plain(st: ShuntState)
    requires
        plain_state(st),
        flush_buf(st) is Ok,
    ensures
        ({
            let st1 = flush_buf(st)->Ok_0;
            &&& shape_from(tok_texts(st1.out), 0, 0) is Ok
            &&& shape_from(tok_texts(st1.out), 0, 0)->Ok_0 == shape_from(
                tok_texts(st.out),
                0,
                0,
            )->Ok_0 + bufbit(st)
            &&& st1.buf.len() == 0
            &&& st1.stack == st.stack
            &&& st1.prev_oper == st.prev_oper
            &&& st1.prev_num == st.prev_num
            &&& st1.first == st.first
        }),
{
    if st.buf.len() > 0 {
        lemma_push_num(st.out, st.buf);
    }
}

proof fn lemma_plain_step(st: ShuntState, c: char)
    requires
        plain_state(st),
        is_plain_char(c),
        shunt_step(st, c) is Ok,
    ensures
        plain_state(shunt_step(st, c)->Ok_0),
{
    if is_digit_char(c) || c == '.' {
        let st2 = shunt_step(st, c)->Ok_0;
        assert(st.first || st.prev_oper || st.prev_num);
        assert(st2.buf.len() > 0);
        assert(buf_wf(st2.buf)) by {
            assert forall|i: int|
                0 <= i < st2.buf.len() implies is_digit_char(#[trigger] st2.buf[i]) || st2.buf[i]
                == '.' by {
                if i < st.buf.len() {
                    assert(st2.buf[i] == st.buf[i]);
                }
            }
        }
        if st.first {
            assert(bufbit(st) == 0 && combit(st) == 0);
            assert(bufbit(st2) == 1 && combit(st2) == 1);
        } else if st.prev_oper {
            assert(st.buf.len() == 0);
            assert(bufbit(st) == 0 && combit(st) == 0);
            assert(bufbit(st2) == 1 && combit(st2) == 1);
        } else {
            assert(st.prev_num);
            assert(st.buf.len() > 0);
            assert(bufbit(st) == 1 && bufbit(st2) == 1);
            assert(combit(st) == 1 && combit(st2) == 1);
        }
    } else if is_space_char(c) {
        lemma_flush_plain(st);
        let st1 = flush_buf(st)->Ok_0;
        let st2 = shunt_step(st, c)->Ok_0;
        assert(st2.out == st1.out && st2.stack == st.stack && st2.buf == st1.buf);
        assert(combit(st2) == combit(st));
    } else if is_open_brace(c) {
        assert(false);
    } else if is_close_brace(c) {
        assert(false);
    } else {
        // a binary operator
        assert(!st.first && !st.prev_oper);
        assert(combit(st) == 1);
        lemma_flush_plain(st);
        let st1 = flush_buf(st)->Ok_0;
        assert(shape_from(tok_texts(st1.out), 0, 0)->Ok_0 == st.stack.len() + 1);
        lemma_op_pop_height(st1.out, st1.stack, c);
        let popped = op_pop(st1.out, st1.stack, c);
        let st2 = shunt_step(st, c)->Ok_0;
        assert(st2.out == popped.0 && st2.stack == popped.1.push(c));
        assert(binop_stack(st2.stack)) by {
            assert(forall|i: int|
                0 <= i < popped.1.len() ==> st2.stack[i] == #[trigger] popped.1[i]);
            assert(st2.stack.last() == c);
            assert(prec_of(c) <= 3) by {
                assert(!is_open_brace(c));
            }
        }
        assert(bufbit(st2) == 0 && combit(st2) == 0);
        assert(shape_from(tok_texts(st2.out), 0, 0)->Ok_0 == popped.1.len() + 1);
    }
}

proof fn lemma_plain_run(s: Seq<char>, i: nat, st: ShuntState)
    requires
        plain_text(s),
        plain_state(st),
        0 <= i <= s.len(),
        shunt_from(s, i, st) is Ok,
    ensures
        plain_state(shunt_from(s, i, st)->Ok_0),
    decreases s.len() - i,
{
    if i < s.len() {
        lemma_plain_step(st, s[i as int]);
        lemma_plain_run(s, i + 1, shunt_step(st, s[i as int])->Ok_0);
    }
}

/// Over brace-free arithmetic text — digits, periods, blanks and the six
/// operator symbols — whatever the parser accepts is evaluable: the
/// postfix it emits is either empty (blank input) or drives the value
/// stack to exactly one result, with no underflow along the way.
pub proof fn lemma_plain_parse_is_evaluable(s: Seq<char>)
    requires
        plain_text(s),
        parse_tokens(s) is Ok,
    ensures
        parse_tokens(s)->Ok_0.len() == 0 || shape_from(
            tok_texts(parse_tokens(s)->Ok_0),
            0,
            0,
        ) == Ok::<nat, PostfixFail>(1),
{
    assert(plain_state(init_state())) by {
        assert(tok_texts(init_state().out) =~~= Seq::<Seq<char>>::empty());
    }
    lemma_plain_run(s, 0, init_state());
    let st = shunt_from(s, 0, init_state())->Ok_0;
    assert(!st.prev_oper);
    lemma_flush_plain(st);
    let st1 = flush_buf(st)->Ok_0;
    let toks = drain_ops(st1.out, st1.stack);
    if !st.first {
        assert(combit(st) == 1);
        assert(shape_from(tok_texts(st1.out), 0, 0)->Ok_0 == st1.stack.len() + 1);
        lemma_drain_height(st1.out, st1.stack);
    } else {
        assert(st1.out.len() == 0 && st1.stack.len() == 0);
        assert(toks.len() == 0);
    }
}

} // verus!
