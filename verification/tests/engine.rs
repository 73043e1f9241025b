use calc_cmd::numeric::Numeric;
use calc_cmd::ops::operators::Operators;
use calc_cmd::ops::parsing::Expression;
use calc_cmd::parsing::{evaluate_postfix, is_balanced_string, is_numeric_string, to_postfix};
use calc_cmd::variables::variable_storage::VarStorage;
use calc_cmd::variables::variable_types::VariableType;
use calc_cmd::math_types::scalar::Scalar;

#[derive(Clone, Copy, Debug, PartialEq)]
struct Num(f64);

impl Numeric for Num {
    fn zero() -> Self {
        Num(0.0)
    }
    fn one() -> Self {
        Num(1.0)
    }
    fn add(&self, other: &Self) -> Self {
        Num(self.0 + other.0)
    }
    fn sub(&self, other: &Self) -> Self {
        Num(self.0 - other.0)
    }
    fn mul(&self, other: &Self) -> Self {
        Num(self.0 * other.0)
    }
    fn div(&self, other: &Self) -> Self {
        Num(self.0 / other.0)
    }
    fn modulo(&self, other: &Self) -> Self {
        Num(self.0 % other.0)
    }
    fn pow(&self, other: &Self) -> Self {
        Num(self.0.powf(other.0))
    }
    fn sqrt(&self) -> Self {
        Num(self.0.sqrt())
    }
    fn atan(&self) -> Self {
        Num(self.0.atan())
    }
    fn eq_num(&self, other: &Self) -> bool {
        self.0 == other.0
    }
    fn abs_gt(&self, other: &Self) -> bool {
        self.0.abs() > other.0.abs()
    }
    fn is_negligible(&self) -> bool {
        self.0.abs() < 1e-10
    }
    fn from_text(s: &str) -> Option<Self> {
        s.parse::<f64>().ok().map(Num)
    }
    fn to_text(&self) -> String {
        self.0.to_string()
    }
}

fn round_f64(a: f64, precis: u32) -> f64 {
    let y = 10i32.pow(precis) as f64;
    (a * y).round() / y
}

fn expect_pass(input: &str, expected: f64) {
    let ops = Operators::new();
    let postfix = to_postfix(input, &ops);
    assert!(postfix.is_ok(), "parse failed: {:?}", postfix.err());
    let postfix_ok = postfix.unwrap();
    let result: Result<Num, String> = evaluate_postfix(&postfix_ok, &ops);
    assert!(result.is_ok(), "eval failed: {:?}", result.err());
    let val = round_f64(result.unwrap().0, 3);
    let expected_r = round_f64(expected, 3);
    assert_eq!(val, expected_r);
}

fn expect_fail(input: &str) {
    let ops = Operators::new();
    let postfix = to_postfix(input, &ops);
    assert!(postfix.is_err(), "unexpectedly parsed: {:?}", postfix.ok());
}

#[test]
fn empty_string() {
    expect_pass("", 0.00f64);
}

#[test]
fn plus_only() {
    expect_fail("+");
}

#[test]
fn one_plus() {
    expect_fail("1+");
}

#[test]
fn plus_one() {
    expect_fail("+1");
}

#[test]
fn one_minus_plus_four() {
    expect_fail("1-+4");
}

#[test]
fn mismatched_braces() {
    expect_fail("{7+4)");
}

#[test]
fn no_operators() {
    expect_fail("3 4");
}

#[test]
fn expr1() {
    expect_pass("2+3-5+2^2", 4.0f64);
}

#[test]
fn equals_as_oper() {
    expect_fail("2=3");
}

#[test]
fn expr2() {
    expect_pass("(2+3*(2+2))-4", 10.00f64);
}

#[test]
fn expr3() {
    expect_pass("{2+3*(2+2)}-4", 10.00f64);
}

#[test]
fn expr4() {
    expect_pass("(8-3)/(4+2)", (8f64 - 3f64) / (4f64 + 2f64));
}

#[test]
fn expr5() {
    expect_pass("(28-3)/(4+2)", (28f64 - 3f64) / (4f64 + 2f64));
}

#[test]
fn expr6() {
    expect_pass(
        "{(6 * 5 - 16 + 61 % 4) ^ 2}",
        (6f64 * 5f64 - 16f64 + 61f64 % 4f64).powf(2f64),
    );
}

#[test]
fn f_expr1() {
    expect_pass("3.2 + 1.6", 4.8f64);
}

#[test]
fn f_expr2() {
    expect_pass("(28.1-3)/(4.6+2.1)", (28.1f64 - 3f64) / (4.6f64 + 2.1f64));
}

#[test]
fn caret_is_right_associative() {
    expect_pass("2^3^2", 512.0f64);
}

#[test]
fn same_precedence_is_left_associative() {
    expect_pass("8-3-2", 3.0f64);
    expect_pass("16/4/2", 2.0f64);
}

#[test]
fn precedence_orders_operations() {
    expect_pass("2+3*4", 14.0f64);
    expect_pass("3*4+2", 14.0f64);
    expect_pass("10-2*3", 4.0f64);
}

#[test]
fn postfix_text_form() {
    let ops = Operators::new();
    assert_eq!(to_postfix("2+3*4", &ops).unwrap(), "2 3 4 * +");
    assert_eq!(to_postfix("2^3^2", &ops).unwrap(), "2 3 2 ^ ^");
    assert_eq!(to_postfix("8-3-2", &ops).unwrap(), "8 3 - 2 -");
    assert_eq!(to_postfix("", &ops).unwrap(), "");
}

#[test]
fn balanced_strings() {
    assert!(is_balanced_string("({[]})"));
    assert!(is_balanced_string("no braces at all"));
    assert!(!is_balanced_string("({)}"));
    assert!(!is_balanced_string("("));
    assert!(!is_balanced_string(")("));
}

#[test]
fn numeric_strings() {
    assert!(is_numeric_string("12.5"));
    assert!(is_numeric_string("12 "));
    assert!(!is_numeric_string("1 2"));
    assert!(!is_numeric_string("1.2.3"));
    assert!(!is_numeric_string("a1"));
}

#[test]
fn flush_prev_num_appends_literal() {
    let mut result = String::from("2 ");
    let mut prev = String::from("3.5");
    assert!(calc_cmd::parsing::flush_prev_num(&mut result, &mut prev).is_ok());
    assert_eq!(result, "2 3.5 ");
    assert_eq!(prev, "");

    let mut bad = String::from("1.2.3");
    assert!(calc_cmd::parsing::flush_prev_num(&mut result, &mut bad).is_err());
}

#[test]
fn postfix_underflow_and_count_errors() {
    let ops = Operators::new();
    let r1: Result<Num, String> = evaluate_postfix("+", &ops);
    assert!(r1.is_err());
    let r2: Result<Num, String> = evaluate_postfix("1 2", &ops);
    assert!(r2.is_err());
    let r3: Result<Num, String> = evaluate_postfix("1 2 + +", &ops);
    assert!(r3.is_err());
    let r4: Result<Num, String> = evaluate_postfix("1 2 +", &ops);
    assert_eq!(r4.unwrap(), Num(3.0));
}

#[test]
fn expression_pipeline_matches_text_pipeline() {
    let ops = Operators::new();
    let store: VarStorage<Num> = VarStorage::new();
    let ex: Expression<Num> = Expression::from_infix("(2+3*(2+2))-4", &ops).unwrap();
    let value = ex.evaluate(&store);
    assert_eq!(value, VariableType::Scalar(Scalar::new(Num(10.0))));
}

#[test]
fn expression_empty_gives_zero_scalar() {
    let ops = Operators::new();
    let store: VarStorage<Num> = VarStorage::new();
    let ex: Expression<Num> = Expression::from_infix("", &ops).unwrap();
    assert_eq!(ex.evaluate(&store), VariableType::Scalar(Scalar::new(Num(0.0))));
}

#[test]
fn expression_resolves_ans() {
    let ops = Operators::new();
    let mut store: VarStorage<Num> = VarStorage::new();
    store.set_ans(VariableType::Scalar(Scalar::new(Num(5.0))));
    let ex: Expression<Num> = Expression::from_infix("ans+1", &ops).unwrap();
    assert_eq!(ex.evaluate(&store), VariableType::Scalar(Scalar::new(Num(6.0))));
}

#[test]
fn expression_single_ans_returns_stored_answer() {
    let ops = Operators::new();
    let mut store: VarStorage<Num> = VarStorage::new();
    store.set_ans(VariableType::Scalar(Scalar::new(Num(7.5))));
    let ex: Expression<Num> = Expression::from_infix("ans", &ops).unwrap();
    assert_eq!(ex.evaluate(&store), VariableType::Scalar(Scalar::new(Num(7.5))));
    // with nothing stored, the answer slot itself is what comes back
    let empty_store: VarStorage<Num> = VarStorage::new();
    assert_eq!(ex.evaluate(&empty_store), VariableType::<Num>::Absent);
}

#[test]
fn expression_without_literals_always_parses() {
    let ops = Operators::new();
    assert!(Expression::<Num>::from_infix("ans+ans", &ops).is_ok());
    assert!(Expression::<Num>::from_infix("(ans)", &ops).is_ok());
    assert!(Expression::<Num>::from_infix("", &ops).is_ok());
}

#[test]
fn expression_unresolved_ans_fails() {
    let ops = Operators::new();
    let store: VarStorage<Num> = VarStorage::new();
    // ans is absent, and absence does not add
    let ex: Expression<Num> = Expression::from_infix("ans+1", &ops).unwrap();
    assert_eq!(ex.evaluate(&store), VariableType::<Num>::Absent);
}

#[test]
fn expression_rejects_what_text_pipeline_rejects() {
    let ops = Operators::new();
    assert!(Expression::<Num>::from_infix("1-+4", &ops).is_err());
    assert!(Expression::<Num>::from_infix("{7+4)", &ops).is_err());
    assert!(Expression::<Num>::from_infix("+", &ops).is_err());
}
