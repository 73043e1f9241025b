use vstd::prelude::*;
use crate::math_types::scalar::Scalar;
use crate::numeric::Numeric;
use crate::ops::operators::{is_op_char, op_for, Operator, Operators};
pub use crate::parsing::{evaluate_postfix, is_balanced_string};
use crate::parsing::{
    balanced, close_pop, drain_ops, fail_msg, init_state, is_close_brace, is_numeric_text,
    is_open_brace, matching_open, op_pop, ParseFail, PTok, ShuntState,
};
use crate::stack::Stack;
use crate::text::{is_digit_char, is_space_char, space_char, trim_spec, trim_str};
use crate::variables::variable_storage::{lookup, VarStorage};
use crate::variables::variable_types::{
    add_shape, mul_shape, scalar_only_shape, shape_of, vt_sim, vt_wf, ValShape, VariableType,
};

verus! {

// ---------------------------------------------------------------------------
// Operand classification
//
// A flushed literal is, in this order: the last-answer keyword, a numeric
// literal, or invalid. Names for variables and temporaries are reserved
// syntax that nothing produces yet, so their classifiers refuse everything.
// ---------------------------------------------------------------------------

/// The text is the keyword for the last answer, in any letter case, with
/// blanks around it allowed.
pub open spec fn is_ans_text(s: Seq<char>) -> bool {
    let t = trim_spec(s);
    &&& t.len() == 3
    &&& (t[0] == 'a' || t[0] == 'A')
    &&& (t[1] == 'n' || t[1] == 'N')
    &&& (t[2] == 's' || t[2] == 'S')
}

pub ghost enum FragClass {
    BadFrag,
    EmptyFrag,
    AnsFrag,
    NumFrag,
}

/// How a literal fragment classifies.
pub open spec fn frag_class(s: Seq<char>) -> FragClass {
    if !balanced(s) {
        FragClass::BadFrag
    } else if s.len() == 0 {
        FragClass::EmptyFrag
    } else if is_ans_text(s) {
        FragClass::AnsFrag
    } else if is_numeric_text(s) {
        FragClass::NumFrag
    } else {
        FragClass::BadFrag
    }
}

/// One operand of an expression.
#[derive(Clone, Debug, PartialEq)]
pub enum ExpressionType<N: Numeric> {
    NumericExpression(Scalar<N>),
    VariableExpression(String),
    DeclorationExpression(String),
    EmptyExpression,
    AnsExpression,
    EnvironmentVariable(String),
    InvalidExpression(String),
}

impl<N: Numeric> ExpressionType<N> {
    /// Reads the text as one numeric literal: the format is checked first,
    /// then the element type reads the value.
    pub fn is_numeric_expression(obj: &str) -> (r: Result<Scalar<N>, String>)
        ensures
            !is_numeric_text(obj@) ==> r is Err,
            r is Ok ==> is_numeric_text(obj@),
    {
        if !crate::parsing::is_numeric_string(obj) {
            return Err(
                "A character that was not a period, number, or white space was found".to_string(),
            );
        }
        match N::from_text(obj) {
            Some(v) => Ok(Scalar::new(v)),
            None => Err("The literal could not be read as a number".to_string()),
        }
    }

    /// Declarations are reserved syntax: nothing classifies as one yet.
    pub fn is_decloration_expression(input: &str) -> (r: Result<String, String>)
        ensures
            r is Err,
    {
        Err("Not a decloration".to_string())
    }

    /// Variable names are reserved syntax: nothing classifies as one yet.
    pub fn is_variable_expression(input: &str) -> (r: Result<String, String>)
        ensures
            r is Err,
    {
        Err("Not a variable".to_string())
    }

    /// Classifies a literal fragment, in order: balance, emptiness, the
    /// answer keyword, a numeric literal; otherwise invalid. Reading the
    /// numeric value is the element type's part and may itself refuse.
    fn parse_expression(input: &str) -> (r: Self)
        ensures
            match frag_class(input@) {
                FragClass::BadFrag => r is InvalidExpression,
                FragClass::EmptyFrag => r is EmptyExpression,
                FragClass::AnsFrag => r is AnsExpression,
                FragClass::NumFrag => r is NumericExpression || r is InvalidExpression,
            },
    {
        if !crate::parsing::is_balanced_string(input) {
            return ExpressionType::InvalidExpression(String::from_str("Braces are not balanced"));
        }
        if input.unicode_len() == 0 {
            return ExpressionType::EmptyExpression;
        }
        if is_ans_string(input) {
            return ExpressionType::AnsExpression;
        }
        match Self::is_numeric_expression(input) {
            Ok(n) => ExpressionType::NumericExpression(n),
            Err(_) => ExpressionType::InvalidExpression(
                String::from_str("The expression is not of proper format."),
            ),
        }
    }
}

/// Whether the text is the last-answer keyword.
fn is_ans_string(input: &str) -> (b: bool)
    ensures
        b == is_ans_text(input@),
{
    let t = trim_str(input);
    if t.unicode_len() != 3 {
        return false;
    }
    let c0 = t.get_char(0);
    let c1 = t.get_char(1);
    let c2 = t.get_char(2);
    (c0 == 'a' || c0 == 'A') && (c1 == 'n' || c1 == 'N') && (c2 == 's' || c2 == 'S')
}

/// One element of a postfix expression: an operand or an operator.
#[derive(Clone, Debug, PartialEq)]
pub enum ExpressionElement<N: Numeric> {
    SubExpr(ExpressionType<N>),
    Oper(Operator),
}

/// An element agrees with a token of the parsing model.
pub open spec fn elem_matches<N: Numeric>(e: ExpressionElement<N>, t: PTok) -> bool {
    match t {
        PTok::Num(_) => e is SubExpr && e->SubExpr_0 is NumericExpression,
        PTok::Ans => e == ExpressionElement::<N>::SubExpr(ExpressionType::AnsExpression),
        PTok::Op(c) => e == ExpressionElement::<N>::Oper(op_for(c)),
    }
}

// ---------------------------------------------------------------------------
// The parsing model for expressions with operands
//
// The same shunting machine as the text pipeline, with two differences: a
// literal may also classify as the answer keyword, and any character that
// is not an operator, a grouping symbol or a blank joins the literal
// buffer to be classified when it is flushed.
// ---------------------------------------------------------------------------

pub open spec fn name_flush(st: ShuntState) -> Result<ShuntState, ParseFail> {
    if st.buf.len() == 0 {
        Ok(st)
    } else {
        match frag_class(st.buf) {
            FragClass::AnsFrag => Ok(
                ShuntState { out: st.out.push(PTok::Ans), buf: Seq::empty(), ..st },
            ),
            FragClass::NumFrag => Ok(
                ShuntState { out: st.out.push(PTok::Num(st.buf)), buf: Seq::empty(), ..st },
            ),
            _ => Err(ParseFail::BadLiteral),
        }
    }
}

pub open spec fn name_step(st: ShuntState, c: char) -> Result<ShuntState, ParseFail> {
    if is_space_char(c) {
        match name_flush(st) {
            Ok(st1) => Ok(ShuntState { prev_num: false, ..st1 }),
            Err(e) => Err(e),
        }
    } else if is_open_brace(c) {
        match name_flush(st) {
            Ok(st1) => Ok(
                ShuntState {
                    stack: st1.stack.push(c),
                    prev_oper: true,
                    prev_num: false,
                    first: false,
                    ..st1
                },
            ),
            Err(e) => Err(e),
        }
    } else if is_close_brace(c) {
        match name_flush(st) {
            Ok(st1) => {
                if st1.stack.len() == 0 {
                    Err(ParseFail::EmptyCloseStack)
                } else {
                    let popped = close_pop(st1.out, st1.stack, matching_open(c));
                    Ok(
                        ShuntState {
                            out: popped.0,
                            stack: popped.1,
                            prev_oper: false,
                            prev_num: false,
                            first: false,
                            ..st1
                        },
                    )
                }
            },
            Err(e) => Err(e),
        }
    } else if is_op_char(c) {
        if st.first {
            Err(ParseFail::LeadingOperator)
        } else if st.prev_oper {
            Err(ParseFail::ConsecutiveOperator)
        } else {
            match name_flush(st) {
                Ok(st1) => {
                    let popped = op_pop(st1.out, st1.stack, c);
                    Ok(
                        ShuntState {
                            out: popped.0,
                            stack: popped.1.push(c),
                            prev_oper: true,
                            prev_num: false,
                            first: false,
                            ..st1
                        },
                    )
                },
                Err(e) => Err(e),
            }
        }
    } else {
        if !st.first && !st.prev_oper && !st.prev_num {
            Err(ParseFail::AdjacentOperand)
        } else {
            Ok(
                ShuntState {
                    buf: st.buf.push(c),
                    prev_num: true,
                    prev_oper: false,
                    first: false,
                    ..st
                },
            )
        }
    }
}

pub open spec fn name_from(s: Seq<char>, i: nat, st: ShuntState) -> Result<ShuntState, ParseFail>
    decreases s.len() - i,
{
    if i >= s.len() {
        Ok(st)
    } else {
        match name_step(st, s[i as int]) {
            Ok(st2) => name_from(s, i + 1, st2),
            Err(e) => Err(e),
        }
    }
}

pub open spec fn name_finish(st: ShuntState) -> Result<Seq<PTok>, ParseFail> {
    if st.prev_oper {
        Err(ParseFail::TrailingOperator)
    } else {
        match name_flush(st) {
            Ok(st1) => Ok(drain_ops(st1.out, st1.stack)),
            Err(e) => Err(e),
        }
    }
}

/// The whole parse of an expression with operands.
pub open spec fn name_parse(s: Seq<char>) -> Result<Seq<PTok>, ParseFail> {
    if !balanced(s) {
        Err(ParseFail::Unbalanced)
    } else {
        match name_from(s, 0, init_state()) {
            Ok(st) => name_finish(st),
            Err(e) => Err(e),
        }
    }
}

// ---------------------------------------------------------------------------
// Expressions
// ---------------------------------------------------------------------------

/// An expression already in postfix order: a flat run of operands and
/// operators, immutable once built.
#[derive(Clone, Debug, PartialEq)]
pub struct Expression<N: Numeric> {
    elements: Vec<ExpressionElement<N>>,
}

impl<N: Numeric> View for Expression<N> {
    type V = Seq<ExpressionElement<N>>;

    closed spec fn view(&self) -> Seq<ExpressionElement<N>> {
        self.elements@
    }
}

/// A blank-free fragment in numeric format starts with a digit or a
/// period, so the input it was cut from contains one.
proof fn lemma_failed_fragment(s: Seq<char>, start: int, end: int, st: ShuntState)
    requires
        0 <= start <= end <= s.len(),
        st.buf == s.subrange(start, end),
        forall|k: int| 0 <= k < st.buf.len() ==> !is_space_char(#[trigger] st.buf[k]),
    ensures
        st.buf.len() > 0 && is_numeric_text(st.buf) ==> exists|k: int|
            0 <= k < s.len() && (is_digit_char(#[trigger] s[k]) || s[k] == '.'),
{
    if st.buf.len() > 0 && is_numeric_text(st.buf) {
        let c = st.buf[0];
        assert(!is_space_char(c));
        assert(is_digit_char(c) || c == '.');
        assert(s[start] == c);
        assert(is_digit_char(s[start]) || s[start] == '.');
    }
}

/// Appends the classified pending literal to the elements.
fn flush_expr<N: Numeric>(
    infix: &str,
    start: usize,
    end: usize,
    elements: &mut Vec<ExpressionElement<N>>,
    st: Ghost<ShuntState>,
) -> (r: Result<(), String>)
    requires
        start <= end <= infix@.len(),
        st@.buf == infix@.subrange(start as int, end as int),
        old(elements)@.len() == st@.out.len(),
        forall|k: int|
            0 <= k < st@.out.len() ==> elem_matches(#[trigger] old(elements)@[k], st@.out[k]),
    ensures
        match r {
            Ok(()) => name_flush(st@) is Ok && final(elements)@.len() == name_flush(
                st@,
            )->Ok_0.out.len() && forall|k: int|
                0 <= k < name_flush(st@)->Ok_0.out.len() ==> elem_matches(
                    #[trigger] final(elements)@[k],
                    name_flush(st@)->Ok_0.out[k],
                ),
            Err(m) => (name_flush(st@) matches Err(e) && m@ == fail_msg(e)) || (name_flush(st@)
                is Ok && m@ == fail_msg(ParseFail::BadLiteral) && st@.buf.len() > 0
                && is_numeric_text(st@.buf)),
        },
{
    if start == end {
        proof {
            assert(st@.buf.len() == 0);
        }
        return Ok(());
    }
    let frag = infix.substring_char(start, end);
    let parsed = ExpressionType::<N>::parse_expression(frag);
    match parsed {
        ExpressionType::InvalidExpression(_) => Err(
            "The expression is not of proper format.".to_string(),
        ),
        other => {
            let ghost st1 = name_flush(st@)->Ok_0;
            elements.push(ExpressionElement::SubExpr(other));
            proof {
                assert(st1.out.drop_last() =~= st@.out);
                assert forall|k: int|
                    0 <= k < st1.out.len() implies elem_matches(
                    #[trigger] elements@[k],
                    st1.out[k],
                ) by {
                    if k < st@.out.len() {
                        assert(elements@[k] == old(elements)@[k]);
                        assert(st1.out[k] == st@.out[k]);
                    }
                }
            }
            Ok(())
        },
    }
}

impl<N: Numeric> Expression<N> {
    fn new() -> (r: Self)
        ensures
            r@.len() == 0,
    {
        Expression { elements: Vec::new() }
    }

    /// Builds a postfix expression from infix text.
    pub fn from_infix(input: &str, ops: &Operators) -> (r: Result<Self, String>)
        requires
            ops.wf(),
        ensures
            match r {
                Ok(ex) => (name_parse(input@) matches Ok(toks) && ex@.len() == toks.len()
                    && forall|k: int| 0 <= k < toks.len() ==> elem_matches(#[trigger] ex@[k], toks[k])),
                Err(m) => (name_parse(input@) matches Err(e) && m@ == fail_msg(e)) || (m@
                    == fail_msg(ParseFail::BadLiteral) && exists|k: int|
                    0 <= k < input@.len() && (is_digit_char(#[trigger] input@[k]) || input@[k]
                        == '.')),
            },
    {
        Self::infix_to_postfix(input, ops)
    }

    /// Converts infix text into a postfix expression: the same shunting
    /// machine as the text pipeline, with operands classified as they are
    /// flushed.
    pub fn infix_to_postfix(infix: &str, ops: &Operators) -> (r: Result<Self, String>)
        requires
            ops.wf(),
        ensures
            match r {
                Ok(ex) => (name_parse(infix@) matches Ok(toks) && ex@.len() == toks.len()
                    && forall|k: int| 0 <= k < toks.len() ==> elem_matches(#[trigger] ex@[k], toks[k])),
                Err(m) => (name_parse(infix@) matches Err(e) && m@ == fail_msg(e)) || (m@
                    == fail_msg(ParseFail::BadLiteral) && exists|k: int|
                    0 <= k < infix@.len() && (is_digit_char(#[trigger] infix@[k]) || infix@[k]
                        == '.')),
            },
    {
        if !crate::parsing::is_balanced_string(infix) {
            return Err("There is not a balance of braces.".to_string());
        }
        let n = infix.unicode_len();
        let mut result = Self::new();
        let mut buf_start: usize = 0;
        let mut prev_was_oper = false;
        let mut prev_was_num = false;
        let mut first_char = true;
        let mut opers = Stack::<Operator>::new();
        let mut st: Ghost<ShuntState> = Ghost(init_state());
        let mut i: usize = 0;
        while i < n
            invariant
                ops.wf(),
                0 <= i <= n == infix@.len(),
                buf_start <= i,
                st@.buf == infix@.subrange(buf_start as int, i as int),
                forall|k: int| 0 <= k < st@.buf.len() ==> !is_space_char(#[trigger] st@.buf[k]),
                result@.len() == st@.out.len(),
                forall|k: int|
                    0 <= k < st@.out.len() ==> elem_matches(#[trigger] result@[k], st@.out[k]),
                crate::parsing::stack_rel(opers@, st@.stack),
                prev_was_oper == st@.prev_oper,
                prev_was_num == st@.prev_num,
                first_char == st@.first,
                name_from(infix@, 0, init_state()) == name_from(infix@, i as nat, st@),
                balanced(infix@),
            decreases n - i,
        {
            let c = infix.get_char(i);
            let st0: Ghost<ShuntState> = st;
            proof {
                assert(name_from(infix@, i as nat, st0@) == (match name_step(st0@, c) {
                    Ok(st2) => name_from(infix@, (i + 1) as nat, st2),
                    Err(e) => Err::<ShuntState, ParseFail>(e),
                }));
            }
            if space_char(c) {
                match flush_expr(infix, buf_start, i, &mut result.elements, st0) {
                    Ok(()) => {},
                    Err(m) => {
                        proof {
                            lemma_failed_fragment(infix@, buf_start as int, i as int, st0@);
                        }
                        return Err(m);
                    },
                }
                proof {
                    st@ = name_step(st0@, c)->Ok_0;
                    assert(st@.buf =~= infix@.subrange(i + 1, i + 1));
                }
                buf_start = i + 1;
                prev_was_num = false;
            } else if c == '(' || c == '{' || c == '[' {
                match flush_expr(infix, buf_start, i, &mut result.elements, st0) {
                    Ok(()) => {},
                    Err(m) => {
                        proof {
                            lemma_failed_fragment(infix@, buf_start as int, i as int, st0@);
                        }
                        return Err(m);
                    },
                }
                prev_was_oper = true;
                prev_was_num = false;
                first_char = false;
                let prev_opers: Ghost<Seq<Operator>> = Ghost(opers@);
                let ghost prev_stack = st0@.stack;
                match ops.get_operator(c) {
                    Some(a) => opers.push(*a),
                    None => {
                        proof {
                            assert(false);
                        }
                        return Err("The operator was not recognized in this context.".to_string());
                    },
                }
                proof {
                    st@ = name_step(st0@, c)->Ok_0;
                    assert(st@.buf =~= infix@.subrange(i + 1, i + 1));
                    assert(st@.stack == prev_stack.push(c));
                    assert forall|k: int|
                        0 <= k < opers@.len() implies opers@[k] == op_for(
                        #[trigger] st@.stack[k],
                    ) && is_op_char(st@.stack[k]) by {
                        if k < prev_opers@.len() {
                            assert(opers@[k] == prev_opers@[k]);
                            assert(st@.stack[k] == prev_stack[k]);
                        } else {
                            assert(st@.stack[k] == c);
                        }
                    }
                    assert(crate::parsing::stack_rel(opers@, st@.stack));
                }
                buf_start = i + 1;
            } else if c == ')' || c == '}' || c == ']' {
                match flush_expr(infix, buf_start, i, &mut result.elements, st0) {
                    Ok(()) => {},
                    Err(m) => {
                        proof {
                            lemma_failed_fragment(infix@, buf_start as int, i as int, st0@);
                        }
                        return Err(m);
                    },
                }
                prev_was_oper = false;
                prev_was_num = false;
                first_char = false;
                let match_open_char: char = if c == ')' {
                    '('
                } else if c == '}' {
                    '{'
                } else {
                    '['
                };
                let ghost st1 = name_flush(st0@)->Ok_0;
                if opers.is_empty() {
                    return Err("Unrecognized brace pattern.".to_string());
                }
                let mut gout: Ghost<Seq<PTok>> = Ghost(st1.out);
                let mut gstack: Ghost<Seq<char>> = Ghost(st1.stack);
                while !opers.is_empty()
                    invariant_except_break
                        ops.wf(),
                        close_pop(st1.out, st1.stack, match_open_char) == close_pop(
                            gout@,
                            gstack@,
                            match_open_char,
                        ),
                        crate::parsing::stack_rel(opers@, gstack@),
                        result@.len() == gout@.len(),
                        forall|k: int|
                            0 <= k < gout@.len() ==> elem_matches(#[trigger] result@[k], gout@[k]),
                    ensures
                        close_pop(st1.out, st1.stack, match_open_char) == (gout@, gstack@),
                        crate::parsing::stack_rel(opers@, gstack@),
                        result@.len() == gout@.len(),
                        forall|k: int|
                            0 <= k < gout@.len() ==> elem_matches(#[trigger] result@[k], gout@[k]),
                    decreases opers@.len(),
                {
                    let top = *opers.peek().unwrap();
                    let prev_opers: Ghost<Seq<Operator>> = Ghost(opers@);
                    let prev_stack: Ghost<Seq<char>> = Ghost(gstack@);
                    if top.symbol == match_open_char {
                        let popped = opers.pop();
                        proof {
                            assert(popped is Ok);
                            gstack@ = gstack@.drop_last();
                            assert forall|k: int|
                                0 <= k < opers@.len() implies opers@[k] == op_for(
                                #[trigger] gstack@[k],
                            ) && is_op_char(gstack@[k]) by {
                                assert(opers@[k] == prev_opers@[k]);
                                assert(gstack@[k] == prev_stack@[k]);
                            }
                            assert(crate::parsing::stack_rel(opers@, gstack@));
                        }
                        break;
                    }
                    result.elements.push(ExpressionElement::Oper(top));
                    let popped = opers.pop();
                    proof {
                        assert(popped is Ok);
                        let gprev = gout@;
                        gout@ = gout@.push(PTok::Op(gstack@.last()));
                        gstack@ = gstack@.drop_last();
                        assert(gout@.drop_last() =~= gprev);
                        assert(top == op_for(gout@.last()->Op_0));
                        assert forall|k: int|
                            0 <= k < gout@.len() implies elem_matches(
                            #[trigger] result@[k],
                            gout@[k],
                        ) by {}
                        assert forall|k: int|
                            0 <= k < opers@.len() implies opers@[k] == op_for(
                            #[trigger] gstack@[k],
                        ) && is_op_char(gstack@[k]) by {
                            assert(opers@[k] == prev_opers@[k]);
                            assert(gstack@[k] == prev_stack@[k]);
                        }
                        assert(crate::parsing::stack_rel(opers@, gstack@));
                    }
                }
                proof {
                    st@ = name_step(st0@, c)->Ok_0;
                    assert(st@.out == gout@ && st@.stack == gstack@);
                    assert(st@.buf =~= infix@.subrange(i + 1, i + 1));
                }
                buf_start = i + 1;
            } else if ops.is_operator(c) {
                if first_char {
                    return Err("The first character cannot be an operator.".to_string());
                }
                if prev_was_oper {
                    return Err(
                        "The previous item was an operator, and a number was expected.".to_string(),
                    );
                }
                match flush_expr(infix, buf_start, i, &mut result.elements, st0) {
                    Ok(()) => {},
                    Err(m) => {
                        proof {
                            lemma_failed_fragment(infix@, buf_start as int, i as int, st0@);
                        }
                        return Err(m);
                    },
                }
                let ghost st1 = name_flush(st0@)->Ok_0;
                let curr_oper: Operator = match ops.get_operator(c) {
                    Some(a) => *a,
                    None => {
                        proof {
                            assert(false);
                        }
                        return Err("Cannot understand operator.".to_string());
                    },
                };
                let p2 = curr_oper.get_precedence();
                let mut gout: Ghost<Seq<PTok>> = Ghost(st1.out);
                let mut gstack: Ghost<Seq<char>> = Ghost(st1.stack);
                while !opers.is_empty()
                    invariant_except_break
                        ops.wf(),
                        p2 == crate::ops::operators::prec_of(c),
                        op_pop(st1.out, st1.stack, c) == op_pop(gout@, gstack@, c),
                        crate::parsing::stack_rel(opers@, gstack@),
                        result@.len() == gout@.len(),
                        forall|k: int|
                            0 <= k < gout@.len() ==> elem_matches(#[trigger] result@[k], gout@[k]),
                    ensures
                        op_pop(st1.out, st1.stack, c) == (gout@, gstack@),
                        crate::parsing::stack_rel(opers@, gstack@),
                        result@.len() == gout@.len(),
                        forall|k: int|
                            0 <= k < gout@.len() ==> elem_matches(#[trigger] result@[k], gout@[k]),
                    decreases opers@.len(),
                {
                    let top = *opers.peek().unwrap();
                    let p1 = top.get_precedence();
                    if p1 == ops.get_brace_precedence() {
                        break;
                    }
                    if p2 < p1 || (p1 == p2 && c != '^') {
                        let prev_opers: Ghost<Seq<Operator>> = Ghost(opers@);
                        let prev_stack: Ghost<Seq<char>> = Ghost(gstack@);
                        result.elements.push(ExpressionElement::Oper(top));
                        let popped = opers.pop();
                        proof {
                            assert(popped is Ok);
                            let gprev = gout@;
                            gout@ = gout@.push(PTok::Op(gstack@.last()));
                            gstack@ = gstack@.drop_last();
                            assert(gout@.drop_last() =~= gprev);
                            assert forall|k: int|
                                0 <= k < gout@.len() implies elem_matches(
                                #[trigger] result@[k],
                                gout@[k],
                            ) by {}
                            assert forall|k: int|
                                0 <= k < opers@.len() implies opers@[k] == op_for(
                                #[trigger] gstack@[k],
                            ) && is_op_char(gstack@[k]) by {
                                assert(opers@[k] == prev_opers@[k]);
                                assert(gstack@[k] == prev_stack@[k]);
                            }
                            assert(crate::parsing::stack_rel(opers@, gstack@));
                        }
                    } else {
                        break;
                    }
                }
                let prev_opers: Ghost<Seq<Operator>> = Ghost(opers@);
                opers.push(curr_oper);
                proof {
                    st@ = name_step(st0@, c)->Ok_0;
                    assert(st@.out == gout@ && st@.stack == gstack@.push(c));
                    assert(st@.buf =~= infix@.subrange(i + 1, i + 1));
                    assert forall|k: int|
                        0 <= k < opers@.len() implies opers@[k] == op_for(
                        #[trigger] st@.stack[k],
                    ) && is_op_char(st@.stack[k]) by {
                        if k < prev_opers@.len() {
                            assert(opers@[k] == prev_opers@[k]);
                            assert(st@.stack[k] == gstack@[k]);
                        } else {
                            assert(opers@[k] == curr_oper);
                            assert(st@.stack[k] == c);
                        }
                    }
                    assert(crate::parsing::stack_rel(opers@, st@.stack));
                }
                buf_start = i + 1;
                prev_was_oper = true;
                prev_was_num = false;
                first_char = false;
            } else {
                if !first_char && !prev_was_oper && !prev_was_num {
                    return Err(
                        "An operator or brace was expected, but a number was given.".to_string(),
                    );
                }
                proof {
                    st@ = name_step(st0@, c)->Ok_0;
                    assert(st@.buf =~= infix@.subrange(buf_start as int, i + 1));
                }
                prev_was_num = true;
                prev_was_oper = false;
                first_char = false;
            }
            i = i + 1;
        }
        proof {
            assert(name_from(infix@, 0, init_state()) == Ok::<ShuntState, ParseFail>(st@));
        }
        if prev_was_oper {
            return Err("The string does not contain enough numbers to operators.".to_string());
        }
        match flush_expr(infix, buf_start, n, &mut result.elements, st) {
            Ok(()) => {},
            Err(m) => {
                proof {
                    lemma_failed_fragment(infix@, buf_start as int, n as int, st@);
                }
                return Err(m);
            },
        }
        let ghost st1 = name_flush(st@)->Ok_0;
        let mut gout: Ghost<Seq<PTok>> = Ghost(st1.out);
        let mut gstack: Ghost<Seq<char>> = Ghost(st1.stack);
        while !opers.is_empty()
            invariant
                crate::parsing::stack_rel(opers@, gstack@),
                result@.len() == gout@.len(),
                forall|k: int| 0 <= k < gout@.len() ==> elem_matches(#[trigger] result@[k], gout@[k]),
                drain_ops(st1.out, st1.stack) == drain_ops(gout@, gstack@),
            decreases opers@.len(),
        {
            let top = *opers.peek().unwrap();
            let prev_opers: Ghost<Seq<Operator>> = Ghost(opers@);
            let prev_stack: Ghost<Seq<char>> = Ghost(gstack@);
            result.elements.push(ExpressionElement::Oper(top));
            let popped = opers.pop();
            proof {
                assert(popped is Ok);
                let gprev = gout@;
                gout@ = gout@.push(PTok::Op(gstack@.last()));
                gstack@ = gstack@.drop_last();
                assert(gout@.drop_last() =~= gprev);
                assert forall|k: int|
                    0 <= k < opers@.len() implies opers@[k] == op_for(#[trigger] gstack@[k])
                    && is_op_char(gstack@[k]) by {
                    assert(opers@[k] == prev_opers@[k]);
                    assert(gstack@[k] == prev_stack@[k]);
                }
                assert(crate::parsing::stack_rel(opers@, gstack@));
            }
        }
        proof {
            assert(gstack@.len() == 0);
            assert(name_parse(infix@) == Ok::<Seq<PTok>, ParseFail>(drain_ops(st1.out, st1.stack)));
        }
        Ok(result)
    }
}

// ---------------------------------------------------------------------------
// Evaluation
//
// A single value stack walks the elements left to right: an operand pushes
// its resolved value, an operator pops two and pushes one. The shape
// machine below fixes the result's shape and every failure; any failure
// gives the absent value.
// ---------------------------------------------------------------------------

/// The shape an operator produces from its operand shapes; grouping
/// symbols never reach a parsed sequence and act as a scalar no-op.
pub open spec fn apply_op_shape(c: char, a: ValShape, b: ValShape) -> Option<ValShape> {
    if c == '+' || c == '-' {
        add_shape(a, b)
    } else if c == '*' {
        mul_shape(a, b)
    } else if c == '/' || c == '%' || c == '^' {
        scalar_only_shape(a, b)
    } else {
        Some(ValShape::ScalarS)
    }
}

/// Applies an operator of the table to two values.
pub fn apply_operator<N: Numeric>(o: &Operator, a: &VariableType<N>, b: &VariableType<N>) -> (r:
    Result<VariableType<N>, String>)
    requires
        vt_wf(*a),
        vt_wf(*b),
    ensures
        match apply_op_shape(o.symbol, shape_of(*a), shape_of(*b)) {
            Some(s) => (r matches Ok(v) && vt_wf(v) && shape_of(v) == s),
            None => r is Err,
        },
{
    if o.symbol == '+' {
        a.add(b)
    } else if o.symbol == '-' {
        a.sub(b)
    } else if o.symbol == '*' {
        a.mul(b)
    } else if o.symbol == '/' {
        a.div(b)
    } else if o.symbol == '%' {
        a.modulo(b)
    } else if o.symbol == '^' {
        a.powf(b)
    } else {
        Ok(VariableType::Scalar(Scalar::new(N::zero())))
    }
}

/// The shape an operand resolves to, or nothing when resolution fails.
pub open spec fn resolve_shape<N: Numeric>(e: ExpressionType<N>, vars: VarStorage<N>) -> Option<
    ValShape,
> {
    match e {
        ExpressionType::NumericExpression(_) => Some(ValShape::ScalarS),
        ExpressionType::EmptyExpression => Some(ValShape::ScalarS),
        ExpressionType::AnsExpression => Some(shape_of(vars.ans_val())),
        ExpressionType::DeclorationExpression(name) => match lookup(vars.temps(), name@) {
            Some(d) => Some(shape_of(d)),
            None => None,
        },
        ExpressionType::VariableExpression(name) => match lookup(vars.vars(), name@) {
            Some(d) => Some(shape_of(d)),
            None => None,
        },
        ExpressionType::EnvironmentVariable(name) => match lookup(vars.envs(), name@) {
            Some(d) => Some(shape_of(d)),
            None => None,
        },
        ExpressionType::InvalidExpression(_) => None,
    }
}

/// The exact value an operand resolves to, where one is determined by the
/// expression and the store alone: a literal's scalar, the stored answer,
/// or a found binding. An empty operand (the zero element) and a failing
/// resolution determine none.
pub open spec fn resolves_exactly<N: Numeric>(e: ExpressionType<N>, vars: VarStorage<N>) -> Option<
    VariableType<N>,
> {
    match e {
        ExpressionType::NumericExpression(n) => Some(VariableType::Scalar(n)),
        ExpressionType::AnsExpression => Some(vars.ans_val()),
        ExpressionType::VariableExpression(name) => lookup(vars.vars(), name@),
        ExpressionType::DeclorationExpression(name) => lookup(vars.temps(), name@),
        ExpressionType::EnvironmentVariable(name) => lookup(vars.envs(), name@),
        ExpressionType::EmptyExpression => None,
        ExpressionType::InvalidExpression(_) => None,
    }
}

/// The value-stack shapes after each element, or nothing at the first
/// failure.
pub open spec fn eval_shapes<N: Numeric>(
    elems: Seq<ExpressionElement<N>>,
    vars: VarStorage<N>,
    i: nat,
    stack: Seq<ValShape>,
) -> Option<Seq<ValShape>>
    decreases elems.len() - i,
{
    if i >= elems.len() {
        Some(stack)
    } else {
        match elems[i as int] {
            ExpressionElement::Oper(o) => if stack.len() < 2 {
                None
            } else {
                let b = stack.last();
                let a = stack.drop_last().last();
                match apply_op_shape(o.symbol, a, b) {
                    Some(s) => eval_shapes(
                        elems,
                        vars,
                        i + 1,
                        stack.drop_last().drop_last().push(s),
                    ),
                    None => None,
                }
            },
            ExpressionElement::SubExpr(e) => match resolve_shape(e, vars) {
                Some(s) => eval_shapes(elems, vars, i + 1, stack.push(s)),
                None => None,
            },
        }
    }
}

impl<N: Numeric> Expression<N> {
    /// Reduces the postfix elements to one value against the given store.
    /// An empty expression gives the zero scalar; any failure — an
    /// unresolved name, an invalid operand, an unsupported operation, or a
    /// malformed sequence — gives the absent value. The result's shape is
    /// fixed by the shape machine over the elements.
    pub fn evaluate(&self, vars: &VarStorage<N>) -> (r: VariableType<N>)
        requires
            vars.wf(),
        ensures
            vt_wf(r),
            self@.len() == 0 ==> shape_of(r) == ValShape::ScalarS,
            self@.len() > 0 ==> match eval_shapes(self@, *vars, 0, Seq::empty()) {
                Some(stack) => if stack.len() == 1 {
                    shape_of(r) == stack.last()
                } else {
                    r == VariableType::<N>::Absent
                },
                None => r == VariableType::<N>::Absent,
            },
            self@.len() == 1 ==> match self@[0] {
                ExpressionElement::SubExpr(e) => match resolves_exactly(e, *vars) {
                    Some(v) => vt_sim(r, v),
                    None => true,
                },
                ExpressionElement::Oper(_) => true,
            },
    {
        if self.elements.len() == 0 {
            return VariableType::Scalar(Scalar::new(N::zero()));
        }
        let n = self.elements.len();
        let mut result: Stack<VariableType<N>> = Stack::new();
        let mut gshapes: Ghost<Seq<ValShape>> = Ghost(Seq::empty());
        let mut i: usize = 0;
        while i < n
            invariant
                vars.wf(),
                0 <= i <= n == self@.len(),
                gshapes@.len() == result@.len(),
                gshapes@.len() <= i,
                forall|k: int|
                    0 <= k < result@.len() ==> shape_of(#[trigger] result@[k]) == gshapes@[k]
                        && vt_wf(result@[k]),
                eval_shapes(self@, *vars, 0, Seq::empty()) == eval_shapes(
                    self@,
                    *vars,
                    i as nat,
                    gshapes@,
                ),
                (self@.len() == 1 && i == 1 && self@[0] is SubExpr && resolves_exactly(
                    self@[0]->SubExpr_0,
                    *vars,
                ) is Some) ==> (result@.len() == 1 && vt_sim(
                    result@[0],
                    resolves_exactly(self@[0]->SubExpr_0, *vars)->Some_0,
                )),
            decreases n - i,
        {
            match &self.elements[i] {
                ExpressionElement::Oper(o) => {
                    if result.len() < 2 {
                        return VariableType::Absent;
                    }
                    let b = result.peek().unwrap().duplicate();
                    let popped_b = result.pop();
                    proof {
                        assert(popped_b is Ok);
                    }
                    let a = result.peek().unwrap().duplicate();
                    let popped_a = result.pop();
                    proof {
                        assert(popped_a is Ok);
                    }
                    match apply_operator(o, &a, &b) {
                        Ok(t) => {
                            result.push(t);
                            proof {
                                gshapes@ = gshapes@.drop_last().drop_last().push(
                                    apply_op_shape(
                                        o.symbol,
                                        gshapes@.drop_last().last(),
                                        gshapes@.last(),
                                    )->Some_0,
                                );
                                assert forall|k: int|
                                    0 <= k < result@.len() implies shape_of(
                                    #[trigger] result@[k],
                                ) == gshapes@[k] && vt_wf(result@[k]) by {}
                            }
                        },
                        Err(_) => {
                            return VariableType::Absent;
                        },
                    }
                },
                ExpressionElement::SubExpr(expr) => {
                    match expr {
                        ExpressionType::AnsExpression => {
                            let copy = vars.get_ans().duplicate();
                            result.push(copy);
                            proof {
                                if self@.len() == 1 && i == 0 {
                                    assert(result@[0] == copy && vt_sim(copy, vars.ans_val()));
                                }
                            }
                        },
                        ExpressionType::DeclorationExpression(tmp) => {
                            match vars.get_temporary_value(tmp.as_str()) {
                                Some(found) => {
                                    let copy = found.duplicate();
                                    result.push(copy);
                                    proof {
                                        if self@.len() == 1 && i == 0 {
                                            assert(lookup(vars.temps(), tmp@) == Some(*found));
                                            assert(result@[0] == copy && vt_sim(copy, *found));
                                        }
                                    }
                                },
                                None => {
                                    return VariableType::Absent;
                                },
                            }
                        },
                        ExpressionType::VariableExpression(name) => {
                            match vars.get_variable_value(name.as_str()) {
                                Some(found) => {
                                    let copy = found.duplicate();
                                    result.push(copy);
                                    proof {
                                        if self@.len() == 1 && i == 0 {
                                            assert(lookup(vars.vars(), name@) == Some(*found));
                                            assert(result@[0] == copy && vt_sim(copy, *found));
                                        }
                                    }
                                },
                                None => {
                                    return VariableType::Absent;
                                },
                            }
                        },
                        ExpressionType::EnvironmentVariable(var) => {
                            match vars.get_env_var_value(var.as_str()) {
                                Some(found) => {
                                    let copy = found.duplicate();
                                    result.push(copy);
                                    proof {
                                        if self@.len() == 1 && i == 0 {
                                            assert(lookup(vars.envs(), var@) == Some(*found));
                                            assert(result@[0] == copy && vt_sim(copy, *found));
                                        }
                                    }
                                },
                                None => {
                                    return VariableType::Absent;
                                },
                            }
                        },
                        ExpressionType::EmptyExpression => {
                            result.push(VariableType::Scalar(Scalar::new(N::zero())));
                        },
                        ExpressionType::InvalidExpression(_) => {
                            return VariableType::Absent;
                        },
                        ExpressionType::NumericExpression(num) => {
                            let copy = VariableType::Scalar(*num);
                            result.push(copy);
                            proof {
                                if self@.len() == 1 && i == 0 {
                                    assert(result@[0] == copy && vt_sim(
                                        copy,
                                        VariableType::Scalar(*num),
                                    ));
                                }
                            }
                        },
                    }
                    proof {
                        gshapes@ = gshapes@.push(
                            resolve_shape(self@[i as int]->SubExpr_0, *vars)->Some_0,
                        );
                    }
                },
            }
            i = i + 1;
        }
        if result.len() != 1 {
            return VariableType::Absent;
        }
        let top = result.peek().unwrap().duplicate();
        proof {
            if self@.len() == 1 && self@[0] is SubExpr && resolves_exactly(
                self@[0]->SubExpr_0,
                *vars,
            ) is Some {
                let v = resolves_exactly(self@[0]->SubExpr_0, *vars)->Some_0;
                assert(vt_sim(result@[0], v));
                assert(vt_sim(top, result@[0]));
                assert(vt_sim(top, v));
            }
        }
        top
    }
}

} // verus!
