use vstd::prelude::*;
use crate::numeric::Numeric;

verus! {

// ---------------------------------------------------------------------------
// The operator table
//
// A fixed list of nine entries: the six arithmetic symbols and the three
// opening grouping symbols, which carry the highest precedence and sit on
// the operator stack during parsing without ever computing anything.
// ---------------------------------------------------------------------------

pub open spec fn is_op_char(c: char) -> bool {
    c == '+' || c == '-' || c == '*' || c == '/' || c == '%' || c == '^' || c == '(' || c == '{'
        || c == '['
}

pub open spec fn prec_of(c: char) -> u32 {
    if c == '+' || c == '-' {
        1
    } else if c == '*' || c == '/' || c == '%' {
        2
    } else if c == '^' {
        3
    } else {
        4
    }
}

/// The table entry that belongs to a recognized symbol.
pub open spec fn op_for(c: char) -> Operator {
    Operator { symbol: c, precedence: prec_of(c) }
}

/// One operator: a symbol and its binding strength. Two operators are equal
/// only when both fields agree.
#[derive(Clone, Copy, PartialEq, Eq, Structural, Debug)]
pub struct Operator {
    pub symbol: char,
    pub precedence: u32,
}

impl Operator {
    pub fn new(s: char, p: u32) -> (r: Self)
        ensures
            r == (Operator { symbol: s, precedence: p }),
    {
        Operator { symbol: s, precedence: p }
    }

    pub fn get_precedence(&self) -> (p: u32)
        ensures
            p == self.precedence,
    {
        self.precedence
    }

    /// Applies the operator to two elements. Grouping symbols never reach a
    /// postfix sequence that the parser built; fed one directly, they give
    /// the zero element, as a no-op evaluator. The element value that comes
    /// back is the implementor's business, not specified here.
    pub fn evaluate<N: Numeric>(&self, a: &N, b: &N) -> N {
        if self.symbol == '+' {
            a.add(b)
        } else if self.symbol == '-' {
            a.sub(b)
        } else if self.symbol == '*' {
            a.mul(b)
        } else if self.symbol == '/' {
            a.div(b)
        } else if self.symbol == '%' {
            a.modulo(b)
        } else if self.symbol == '^' {
            a.pow(b)
        } else {
            N::zero()
        }
    }
}

pub open spec fn std_table() -> Seq<Operator> {
    seq![
        op_for('+'),
        op_for('-'),
        op_for('*'),
        op_for('/'),
        op_for('%'),
        op_for('^'),
        op_for('('),
        op_for('{'),
        op_for('['),
    ]
}

/// The table of recognized operators, built once.
pub struct Operators {
    opers: Vec<Operator>,
}

impl Operators {
    pub closed spec fn table(&self) -> Seq<Operator> {
        self.opers@
    }

    /// A table holds exactly the nine standard entries.
    pub open spec fn wf(&self) -> bool {
        self.table() == std_table()
    }

    pub fn new() -> (r: Self)
        ensures
            r.wf(),
    {
        let mut op: Vec<Operator> = Vec::new();
        op.push(Operator::new('+', 1));
        op.push(Operator::new('-', 1));
        op.push(Operator::new('*', 2));
        op.push(Operator::new('/', 2));
        op.push(Operator::new('%', 2));
        op.push(Operator::new('^', 3));
        op.push(Operator::new('(', 4));
        op.push(Operator::new('{', 4));
        op.push(Operator::new('[', 4));
        proof {
            assert(op@ =~= std_table());
        }
        Operators { opers: op }
    }

    /// Looks a symbol up in the table.
    pub fn get_operator(&self, oper: char) -> (r: Option<&Operator>)
        requires
            self.wf(),
        ensures
            match r {
                Some(o) => is_op_char(oper) && *o == op_for(oper),
                None => !is_op_char(oper),
            },
    {
        let n = self.opers.len();
        let mut i: usize = 0;
        while i < n
            invariant
                self.wf(),
                n == self.table().len(),
                0 <= i <= n,
                forall|k: int| 0 <= k < i ==> (#[trigger] self.table()[k]).symbol != oper,
        decreases n - i,
        {
            if self.opers[i].symbol == oper {
                return Some(&self.opers[i]);
            }
            i = i + 1;
        }
        proof {
            if is_op_char(oper) {
                if oper == '+' { assert(std_table()[0].symbol == oper); }
                else if oper == '-' { assert(std_table()[1].symbol == oper); }
                else if oper == '*' { assert(std_table()[2].symbol == oper); }
                else if oper == '/' { assert(std_table()[3].symbol == oper); }
                else if oper == '%' { assert(std_table()[4].symbol == oper); }
                else if oper == '^' { assert(std_table()[5].symbol == oper); }
                else if oper == '(' { assert(std_table()[6].symbol == oper); }
                else if oper == '{' { assert(std_table()[7].symbol == oper); }
                else { assert(std_table()[8].symbol == oper); }
            }
        }
        None
    }

    pub fn is_operator(&self, oper: char) -> (b: bool)
        requires
            self.wf(),
        ensures
            b == is_op_char(oper),
    {
        let result = self.get_operator(oper);
        match result {
            Some(_) => true,
            None => false,
        }
    }

    /// The precedence that the grouping symbols carry.
    pub fn get_brace_precedence(&self) -> (p: u32)
        requires
            self.wf(),
        ensures
            p == 4,
    {
        match self.get_operator('(') {
            Some(x) => x.get_precedence(),
            _ => 0,
        }
    }
}

} // verus!
