//! Text for numbers and expressions.

use crate::ast::{Decimal, Exp, Op, Sequence, Val};
use vstd::prelude::*;
use vstd::string::*;

verus! {

/// The character of the decimal digit `d`.
pub open spec fn digit_char(d: nat) -> char {
    (0x30 + d) as char
}

/// The decimal digits of `n`, without leading zeros.
pub open spec fn nat_text(n: nat) -> Seq<char>
    decreases n,
{
    if n < 10 {
        seq![digit_char(n)]
    } else {
        nat_text(n / 10).push(digit_char(n % 10))
    }
}

/// The decimal digits of `v`, behind a minus sign where it is negative.
pub open spec fn int_text(v: int) -> Seq<char> {
    if v < 0 {
        seq!['-'] + nat_text((-v) as nat)
    } else {
        nat_text(v as nat)
    }
}

/// `s` without the zeros at its end.
pub open spec fn trimmed(s: Seq<char>) -> Seq<char>
    decreases s.len(),
{
    if s.len() > 0 && s.last() == '0' {
        trimmed(s.drop_last())
    } else {
        s
    }
}

/// `n` zeros.
pub open spec fn zeros(n: nat) -> Seq<char> {
    Seq::new(n, |i: int| '0')
}

/// The digits of a decimal fraction with `scale` of them behind the
/// separator: those of `mantissa`, with zeros in front so that one digit at
/// least stands before the separator.
pub open spec fn padded(mantissa: nat, scale: nat) -> Seq<char> {
    let digits = nat_text(mantissa);
    if digits.len() > scale {
        digits
    } else {
        zeros((scale + 1 - digits.len()) as nat) + digits
    }
}

/// The text of a decimal fraction: a minus sign where it is negative, the
/// digits before the separator, and, unless they are all zero, a point and
/// the digits behind it up to the last that is not zero.
pub open spec fn decimal_text(d: Decimal) -> Seq<char> {
    let digits = padded(d.mantissa as nat, d.scale as nat);
    let split = digits.len() - d.scale;
    let fraction = trimmed(digits.skip(split));
    (if d.negative {
        seq!['-']
    } else {
        Seq::empty()
    }) + digits.take(split) + (if fraction.len() == 0 {
        Seq::empty()
    } else {
        seq!['.'] + fraction
    })
}

/// The sign of an operator.
pub open spec fn op_text(op: Op) -> Seq<char> {
    match op {
        Op::Add => seq!['+'],
        Op::Sub => seq!['-'],
        Op::Mul => seq!['*'],
        Op::Mod => seq!['%'],
        Op::Div => seq!['/'],
        Op::Pow => seq!['^'],
    }
}

/// The text of a value.
pub open spec fn val_text(val: Val) -> Seq<char> {
    match val {
        Val::Int(v) => int_text(v as int),
        Val::Float(d) => decimal_text(d),
    }
}

/// The text of an expression: a value as it is, an operation in parentheses
/// with a space on either side of the operator.
pub open spec fn exp_text(exp: Exp) -> Seq<char>
    decreases exp,
{
    match exp {
        Exp::Val(val) => val_text(val),
        Exp::Exp { op, left, right } => seq!['('] + exp_text(*left) + seq![' '] + op_text(op)
            + seq![' '] + exp_text(*right) + seq![')'],
    }
}

/// The text of an item of a run.
pub open spec fn sequence_text(item: Sequence) -> Seq<char> {
    match item {
        Sequence::Exp(exp) => exp_text(exp),
        Sequence::Op(op) => op_text(op),
        Sequence::Operand(val) => val_text(val),
    }
}

/// A text of one character is that character.
pub proof fn lemma_one_char(s: &str, c: char)
    requires
        s@.len() == 1,
        s@[0] == c,
    ensures
        s@ == seq![c],
{
    assert(s@ =~= seq![c]);
}

/// The text of the decimal digit `d`.
pub(crate) fn digit_str(d: u8) -> (s: &'static str)
    requires
        d < 10,
    ensures
        s@ == seq![digit_char(d as nat)],
{
    let s = if d == 0 {
        proof {
            reveal_strlit("0");
        }
        "0"
    } else if d == 1 {
        proof {
            reveal_strlit("1");
        }
        "1"
    } else if d == 2 {
        proof {
            reveal_strlit("2");
        }
        "2"
    } else if d == 3 {
        proof {
            reveal_strlit("3");
        }
        "3"
    } else if d == 4 {
        proof {
            reveal_strlit("4");
        }
        "4"
    } else if d == 5 {
        proof {
            reveal_strlit("5");
        }
        "5"
    } else if d == 6 {
        proof {
            reveal_strlit("6");
        }
        "6"
    } else if d == 7 {
        proof {
            reveal_strlit("7");
        }
        "7"
    } else if d == 8 {
        proof {
            reveal_strlit("8");
        }
        "8"
    } else {
        proof {
            reveal_strlit("9");
        }
        "9"
    };
    proof {
        lemma_one_char(s, digit_char(d as nat));
    }
    s
}

/// The text that holds the one character `c` of the signs and points that
/// the texts of this module use; the empty text for another character.
pub(crate) fn sign_str(c: char) -> (s: &'static str)
    ensures
        s@ == (if c == '-' || c == '.' || c == '+' || c == '*' || c == '%' || c == '/' || c == '^'
            || c == '(' || c == ')' || c == ' ' || c == ',' || c == '\n' {
            seq![c]
        } else {
            Seq::empty()
        }),
{
    let s = if c == '-' {
        proof {
            reveal_strlit("-");
        }
        "-"
    } else if c == '.' {
        proof {
            reveal_strlit(".");
        }
        "."
    } else if c == '+' {
        proof {
            reveal_strlit("+");
        }
        "+"
    } else if c == '*' {
        proof {
            reveal_strlit("*");
        }
        "*"
    } else if c == '%' {
        proof {
            reveal_strlit("%");
        }
        "%"
    } else if c == '/' {
        proof {
            reveal_strlit("/");
        }
        "/"
    } else if c == '^' {
        proof {
            reveal_strlit("^");
        }
        "^"
    } else if c == '(' {
        proof {
            reveal_strlit("(");
        }
        "("
    } else if c == ')' {
        proof {
            reveal_strlit(")");
        }
        ")"
    } else if c == ' ' {
        proof {
            reveal_strlit(" ");
        }
        " "
    } else if c == ',' {
        proof {
            reveal_strlit(",");
        }
        ","
    } else if c == '\n' {
        proof {
            reveal_strlit("\n");
        }
        "\n"
    } else {
        proof {
            reveal_strlit("");
        }
        ""
    };
    proof {
        if s@.len() == 1 {
            lemma_one_char(s, c);
        } else {
            assert(s@ =~= Seq::empty());
        }
    }
    s
}

/// The decimal digits of `n`.
pub fn unsigned_text(n: u128) -> (s: String)
    ensures
        s@ == nat_text(n as nat),
    decreases n,
{
    if n < 10 {
        String::from_str(digit_str(n as u8))
    } else {
        let mut s = unsigned_text(n / 10);
        s.append(digit_str((n % 10) as u8));
        s
    }
}

/// The decimal digits of `v`, behind a minus sign where it is negative.
pub fn signed_text(v: i64) -> (s: String)
    ensures
        s@ == int_text(v as int),
{
    if v < 0 {
        let magnitude: u128 = (-(v as i128)) as u128;
        let mut s = String::from_str(sign_str('-'));
        s.append(unsigned_text(magnitude).as_str());
        s
    } else {
        unsigned_text(v as u128)
    }
}

/// A number has one digit at least.
pub proof fn lemma_nat_text_len(n: nat)
    ensures
        nat_text(n).len() >= 1,
    decreases n,
{
    if n >= 10 {
        lemma_nat_text_len(n / 10);
    }
}

/// Zeros at the end of a text can be dropped before it is trimmed.
proof fn lemma_trimmed_step(s: Seq<char>, from: int, end: int)
    requires
        0 <= from < end <= s.len(),
        s[end - 1] == '0',
    ensures
        trimmed(s.subrange(from, end)) == trimmed(s.subrange(from, end - 1)),
{
    assert(s.subrange(from, end).drop_last() =~= s.subrange(from, end - 1));
}

/// The text of a decimal fraction.
pub fn decimal_to_text(d: &Decimal) -> (s: String)
    ensures
        s@ == decimal_text(*d),
{
    let digits = unsigned_text(d.mantissa);
    proof {
        lemma_nat_text_len(d.mantissa as nat);
    }
    let count: usize = digits.as_str().unicode_len();
    let mut all = String::new();
    if count <= d.scale {
        let missing: usize = d.scale - count + 1;
        let mut i: usize = 0;
        while i < missing
            invariant
                i <= missing,
                all@ == zeros(i as nat),
            decreases missing - i,
        {
            all.append(digit_str(0));
            i = i + 1;
            assert(all@ =~= zeros(i as nat));
        }
    }
    proof {
        assert(Seq::<char>::empty() + digits@ =~= digits@);
        assert(zeros(0) =~= Seq::<char>::empty());
    }
    all.append(digits.as_str());
    assert(all@ == padded(d.mantissa as nat, d.scale as nat));
    let total: usize = all.as_str().unicode_len();
    let split: usize = total - d.scale;
    let mut end: usize = total;
    proof {
        assert(all@.skip(split as int) =~= all@.subrange(split as int, total as int));
    }
    while end > split
        invariant_except_break
            trimmed(all@.subrange(split as int, end as int)) == trimmed(all@.skip(split as int)),
        invariant
            split <= end <= total,
            total == all@.len(),
        ensures
            split <= end <= total,
            all@.subrange(split as int, end as int) == trimmed(all@.skip(split as int)),
        decreases end,
    {
        if all.as_str().get_char(end - 1) != '0' {
            assert(all@.subrange(split as int, end as int).last() == all@[end - 1]);
            break ;
        }
        proof {
            lemma_trimmed_step(all@, split as int, end as int);
        }
        end = end - 1;
    }
    let mut out = if d.negative {
        String::from_str(sign_str('-'))
    } else {
        String::new()
    };
    out.append(all.as_str().substring_char(0, split));
    if end > split {
        out.append(sign_str('.'));
        out.append(all.as_str().substring_char(split, end));
    }
    proof {
        let digits = padded(d.mantissa as nat, d.scale as nat);
        let fraction = trimmed(digits.skip(split as int));
        let sign = if d.negative {
            seq!['-']
        } else {
            Seq::<char>::empty()
        };
        assert(digits.take(split as int) =~= digits.subrange(0, split as int));
        if end > split {
            assert(out@ =~= sign + digits.take(split as int) + (seq!['.'] + fraction));
        } else {
            assert(out@ =~= sign + digits.take(split as int) + Seq::<char>::empty());
        }
    }
    out
}

impl Op {
    /// The sign of the operator.
    pub fn to_text(&self) -> (s: String)
        ensures
            s@ == op_text(*self),
    {
        String::from_str(
            sign_str(
                match self {
                    Op::Add => '+',
                    Op::Sub => '-',
                    Op::Mul => '*',
                    Op::Mod => '%',
                    Op::Div => '/',
                    Op::Pow => '^',
                },
            ),
        )
    }
}

impl Val {
    /// The text of the value.
    pub fn to_text(&self) -> (s: String)
        ensures
            s@ == val_text(*self),
    {
        match self {
            Val::Int(v) => signed_text(*v),
            Val::Float(d) => decimal_to_text(d),
        }
    }
}

impl Exp {
    /// The text of the expression.
    pub fn to_text(&self) -> (s: String)
        ensures
            s@ == exp_text(*self),
        decreases self,
    {
        match self {
            Exp::Val(val) => val.to_text(),
            Exp::Exp { op, left, right } => {
                let mut s = String::from_str(sign_str('('));
                s.append(left.to_text().as_str());
                s.append(sign_str(' '));
                s.append(op.to_text().as_str());
                s.append(sign_str(' '));
                s.append(right.to_text().as_str());
                s.append(sign_str(')'));
                s
            },
        }
    }
}

impl Sequence {
    /// The text of the item.
    pub fn to_text(&self) -> (s: String)
        ensures
            s@ == sequence_text(*self),
    {
        match self {
            Sequence::Exp(exp) => exp.to_text(),
            Sequence::Op(op) => op.to_text(),
            Sequence::Operand(val) => val.to_text(),
        }
    }
}

} // verus!
