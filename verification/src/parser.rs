//! Builds the expression tree from the tokens.
//!
//! [`parse_exp`] first collects the flat run of operands and operators of one
//! level, entering itself for each parenthesised part, and then folds the run
//! into a tree: [`make_exp`] joins, again and again, the operator of lowest
//! rank that stands leftmost with the operands beside it.

use crate::ast::{Exp, Op, Sequence, Val};
use crate::lexer::{lemma_step_advances, step, LexError, Lexer, LexerState, Token};
use crate::number::{float_literal, int_literal, read_float, read_int};
use vstd::prelude::*;
use vstd::string::*;
use vstd::utf8::*;

verus! {

/// The kinds of syntax error.
#[derive(Copy, Clone, Debug, PartialEq, Eq, Hash, Structural)]
pub enum SyntaxKind {
    /// A token stands where the grammar allows none of its kind.
    UnexpectedToken,
    /// The input ends before an opening parenthesis is closed.
    UnterminatedParen,
    /// There is no operand at all.
    EmptyExpression,
    /// A number is due, and the token is none or is out of range.
    MalformedNumber,
}

/// A syntax error, with the token at which it was found.
#[derive(Debug, PartialEq, Eq)]
pub struct SyntaxError {
    /// What is wrong.
    pub kind: SyntaxKind,
    /// The byte offset of the offending token in the source.
    pub offset: usize,
    /// The text of the offending token.
    pub text: String,
}

/// Why a source text is no expression.
#[derive(Debug, PartialEq, Eq)]
pub enum ParseError {
    /// A character starts no token.
    Lex(LexError),
    /// The tokens do not form an expression.
    Syntax(SyntaxError),
}

/// A syntax error as contracts speak of it: the text is given by its bytes.
pub struct SyntaxErrorView {
    pub kind: SyntaxKind,
    pub offset: int,
    pub text: Seq<u8>,
}

/// A parse error as contracts speak of it.
pub enum ParseErrorView {
    Lex(LexError),
    Syntax(SyntaxErrorView),
}

impl View for SyntaxError {
    type V = SyntaxErrorView;

    open spec fn view(&self) -> SyntaxErrorView {
        SyntaxErrorView {
            kind: self.kind,
            offset: self.offset as int,
            text: encode_utf8(self.text@),
        }
    }
}

impl View for ParseError {
    type V = ParseErrorView;

    open spec fn view(&self) -> ParseErrorView {
        match *self {
            ParseError::Lex(e) => ParseErrorView::Lex(e),
            ParseError::Syntax(e) => ParseErrorView::Syntax(e@),
        }
    }
}

/// What parsing yields: an item and the state behind it, or an error and the
/// state at which it was found.
pub type Parsed<T> = Result<(T, LexerState), (ParseErrorView, LexerState)>;

/// The syntax error of kind `kind` at the current token of `st`.
pub open spec fn syntax_error(kind: SyntaxKind, st: LexerState) -> ParseErrorView {
    ParseErrorView::Syntax(SyntaxErrorView { kind, offset: st.start, text: st.content() })
}

/// The failure to read the token behind the current one of `st`.
pub open spec fn lex_failure<T>(e: LexError, st: LexerState) -> Parsed<T> {
    Err((ParseErrorView::Lex(e), st))
}

/// The failure of kind `kind` at the current token of `st`.
pub open spec fn syntax_failure<T>(kind: SyntaxKind, st: LexerState) -> Parsed<T> {
    Err((syntax_error(kind, st), st))
}

/// The operator that a token stands for between two operands.
pub open spec fn operator_of(token: Token) -> Option<Op> {
    match token {
        Token::Plus => Some(Op::Add),
        Token::Minus => Some(Op::Sub),
        Token::Star => Some(Op::Mul),
        Token::Slash => Some(Op::Div),
        Token::Caret => Some(Op::Pow),
        Token::Percent => Some(Op::Mod),
        _ => None,
    }
}

/// The value of the current token of `st` read as a number, negated where
/// `negative` is set.
pub open spec fn number_at(st: LexerState, negative: bool) -> Option<Val> {
    match st.token {
        Token::IntNumber => int_literal(st.content(), negative),
        Token::FloatNumber => float_literal(st.content(), negative),
        _ => None,
    }
}

/// Tells whether `after` is a state of the same source that lies no earlier
/// than `before`.
pub open spec fn follows(before: LexerState, after: LexerState) -> bool {
    &&& after.source == before.source
    &&& 0 <= after.end <= after.source.len()
    &&& after.budget() <= before.budget()
}

/// The run of operands and operators of one level: `items` with what the
/// tokens from the current one of `st` on add to it, up to the closing
/// parenthesis or the end of the input, which stays the current token.
///
/// Operands and operators alternate, an operand first. An operand is a
/// number, a minus sign with a number behind it, or an expression in
/// parentheses. (The test `follows` never fails; it is there for the
/// definition to be well-founded.)
pub open spec fn spec_collect(st: LexerState, items: Seq<Sequence>) -> Parsed<Seq<Sequence>>
    decreases st.budget(), 0int,
    when 0 <= st.end <= st.source.len()
{
    if items.len() % 2 == 0 {
        match st.token {
            Token::LParen => match step(st) {
                Err(e) => lex_failure(e, st),
                Ok(inner) => {
                    proof {
                        lemma_step_advances(st);
                    }
                    match spec_parse_exp(inner) {
                        Err(e) => Err(e),
                        Ok((sub, close)) => if close.token == Token::RParen && follows(
                            inner,
                            close,
                        ) {
                            match step(close) {
                                Err(e) => lex_failure(e, close),
                                Ok(next) => {
                                    proof {
                                        lemma_step_advances(close);
                                    }
                                    spec_collect(next, items.push(sub))
                                },
                            }
                        } else {
                            syntax_failure(SyntaxKind::UnterminatedParen, close)
                        },
                    }
                },
            },
            Token::IntNumber | Token::FloatNumber => match number_at(st, false) {
                None => syntax_failure(SyntaxKind::MalformedNumber, st),
                Some(val) => match step(st) {
                    Err(e) => lex_failure(e, st),
                    Ok(next) => {
                        proof {
                            lemma_step_advances(st);
                        }
                        spec_collect(next, items.push(Sequence::Operand(val)))
                    },
                },
            },
            Token::Minus => match step(st) {
                Err(e) => lex_failure(e, st),
                Ok(number) => match number_at(number, true) {
                    None => syntax_failure(SyntaxKind::MalformedNumber, number),
                    Some(val) => match step(number) {
                        Err(e) => lex_failure(e, number),
                        Ok(next) => {
                            proof {
                                lemma_step_advances(st);
                                lemma_step_advances(number);
                            }
                            spec_collect(next, items.push(Sequence::Operand(val)))
                        },
                    },
                },
            },
            Token::EOF | Token::RParen => if items.len() == 0 {
                Ok((items, st))
            } else {
                syntax_failure(SyntaxKind::UnexpectedToken, st)
            },
            _ => syntax_failure(SyntaxKind::UnexpectedToken, st),
        }
    } else {
        match operator_of(st.token) {
            Some(op) => match step(st) {
                Err(e) => lex_failure(e, st),
                Ok(next) => {
                    proof {
                        lemma_step_advances(st);
                    }
                    spec_collect(next, items.push(Sequence::Op(op)))
                },
            },
            None => if st.token == Token::EOF || st.token == Token::RParen {
                Ok((items, st))
            } else {
                syntax_failure(SyntaxKind::UnexpectedToken, st)
            },
        }
    }
}

/// The expression that starts at the current token of `st`, and the state at
/// the token that ends it: the closing parenthesis or the end of the input.
/// A single operand is handed back as it is; a longer run is folded by
/// [`reduce`].
pub open spec fn spec_parse_exp(st: LexerState) -> Parsed<Sequence>
    decreases st.budget(), 1int,
    when 0 <= st.end <= st.source.len()
{
    match spec_collect(st, Seq::empty()) {
        Err(e) => Err(e),
        Ok((items, end)) => if items.len() == 0 {
            syntax_failure(SyntaxKind::EmptyExpression, end)
        } else if items.len() == 1 {
            Ok((items[0], end))
        } else {
            Ok((Sequence::Exp(reduce(items)), end))
        },
    }
}

/// Tells whether `items` is a run of operands with one operator between each
/// two of them.
pub open spec fn alternating(items: Seq<Sequence>) -> bool {
    &&& items.len() % 2 == 1
    &&& forall|i: int| 0 <= i < items.len() ==> ((#[trigger] items[i]) is Op <==> i % 2 == 1)
}

/// The rank of the operator at index `i` of `items`.
pub open spec fn rank_at(items: Seq<Sequence>, i: int) -> int {
    match items[i] {
        Sequence::Op(op) => op.rank(),
        _ => 0,
    }
}

/// Tells whether the operator at index `i` of `items` is the one to join
/// next: none has a lower rank, and none of the same rank stands further left.
pub open spec fn is_next_operator(items: Seq<Sequence>, i: int) -> bool {
    &&& 0 <= i < items.len()
    &&& items[i] is Op
    &&& forall|j: int|
        0 <= j < items.len() && (#[trigger] items[j]) is Op ==> rank_at(items, i) < rank_at(
            items,
            j,
        ) || (rank_at(items, i) == rank_at(items, j) && i <= j)
}

/// The index of the operator of `items` to join next.
pub open spec fn next_operator(items: Seq<Sequence>) -> int {
    choose|i: int| is_next_operator(items, i)
}

/// The node that joins the operator at index `i` of `items` with the operands
/// beside it.
pub open spec fn node_at(items: Seq<Sequence>, i: int) -> Exp {
    Exp::Exp {
        op: items[i]->Op_0,
        left: Box::new(items[i - 1].as_exp().unwrap()),
        right: Box::new(items[i + 1].as_exp().unwrap()),
    }
}

/// `items` with the operator at index `i` and the operands beside it replaced
/// by the node that joins them.
pub open spec fn join_at(items: Seq<Sequence>, i: int) -> Seq<Sequence> {
    items.take(i - 1).push(Sequence::Exp(node_at(items, i))) + items.skip(i + 2)
}

/// The tree that rank-ordered reduction makes of an alternating run: while
/// there is an operator, the one to join next is joined with its operands.
pub open spec fn reduce(items: Seq<Sequence>) -> Exp
    decreases items.len(),
{
    let i = next_operator(items);
    if items.len() >= 3 && 1 <= i <= items.len() - 2 {
        reduce(join_at(items, i))
    } else {
        items[0].as_exp().unwrap()
    }
}

/// A run is collected forwards: the state behind it lies no earlier than the
/// state it was collected from. So the test `follows` in [`spec_collect`]
/// never fails.
pub proof fn lemma_collect_follows(st: LexerState, items: Seq<Sequence>)
    requires
        0 <= st.end <= st.source.len(),
    ensures
        spec_collect(st, items) matches Ok((_, end)) ==> follows(st, end),
    decreases st.budget(), 0int,
{
    lemma_step_advances(st);
    if items.len() % 2 == 0 {
        match st.token {
            Token::LParen => match step(st) {
                Err(_) => {},
                Ok(inner) => {
                    lemma_parse_follows(inner);
                    match spec_parse_exp(inner) {
                        Err(_) => {},
                        Ok((sub, close)) => if close.token == Token::RParen && follows(
                            inner,
                            close,
                        ) {
                            lemma_step_advances(close);
                            match step(close) {
                                Err(_) => {},
                                Ok(next) => {
                                    lemma_collect_follows(next, items.push(sub));
                                },
                            }
                        },
                    }
                },
            },
            Token::IntNumber | Token::FloatNumber => match number_at(st, false) {
                None => {},
                Some(val) => match step(st) {
                    Err(_) => {},
                    Ok(next) => {
                        lemma_collect_follows(next, items.push(Sequence::Operand(val)));
                    },
                },
            },
            Token::Minus => match step(st) {
                Err(_) => {},
                Ok(number) => match number_at(number, true) {
                    None => {},
                    Some(val) => {
                        lemma_step_advances(number);
                        match step(number) {
                            Err(_) => {},
                            Ok(next) => {
                                lemma_collect_follows(next, items.push(Sequence::Operand(val)));
                            },
                        }
                    },
                },
            },
            _ => {},
        }
    } else {
        match operator_of(st.token) {
            Some(op) => match step(st) {
                Err(_) => {},
                Ok(next) => {
                    lemma_collect_follows(next, items.push(Sequence::Op(op)));
                },
            },
            None => {},
        }
    }
}

/// An expression is parsed forwards: the state behind it lies no earlier
/// than the state it was parsed from.
pub proof fn lemma_parse_follows(st: LexerState)
    requires
        0 <= st.end <= st.source.len(),
    ensures
        spec_parse_exp(st) matches Ok((_, end)) ==> follows(st, end),
    decreases st.budget(), 1int,
{
    lemma_collect_follows(st, Seq::empty());
}

/// An expression that starts at a closing parenthesis or at the end of the
/// input is empty, which is an error.
pub proof fn lemma_empty_expression(st: LexerState)
    requires
        0 <= st.end <= st.source.len(),
        st.token == Token::EOF || st.token == Token::RParen,
    ensures
        spec_parse_exp(st) == syntax_failure::<Sequence>(SyntaxKind::EmptyExpression, st),
{
}

/// Parsing is a function: from one state of the lexer it gives one result.
pub proof fn lemma_parse_deterministic(st: LexerState, first: Parsed<Sequence>, second: Parsed<Sequence>)
    requires
        first == spec_parse_exp(st),
        second == spec_parse_exp(st),
    ensures
        first == second,
{
}

/// The operator to join next is determined by the run.
pub proof fn lemma_next_operator_unique(items: Seq<Sequence>, i: int)
    requires
        is_next_operator(items, i),
    ensures
        next_operator(items) == i,
{
    let k = next_operator(items);
    assert(is_next_operator(items, k));
    assert(items[i] is Op);
    assert(items[k] is Op);
}

/// Joining an operator of an alternating run with its operands leaves an
/// alternating run, shorter by two.
pub proof fn lemma_join_alternating(items: Seq<Sequence>, i: int)
    requires
        alternating(items),
        1 <= i <= items.len() - 2,
        i % 2 == 1,
    ensures
        alternating(join_at(items, i)),
        join_at(items, i).len() == items.len() - 2,
{
    let joined = join_at(items, i);
    assert forall|k: int| 0 <= k < joined.len() implies ((#[trigger] joined[k]) is Op <==> k % 2
        == 1) by {
        if k < i - 1 {
            assert(joined[k] == items[k]);
        } else if k == i - 1 {
        } else {
            assert(joined[k] == items[k + 2]);
        }
    }
}

/// Tells whether `seq` is a run of operands with one operator between each
/// two of them.
fn is_alternating(seq: &Vec<Sequence>) -> (r: bool)
    ensures
        r == alternating(seq@),
{
    let total: usize = seq.len();
    if total % 2 != 1 {
        return false;
    }
    let mut i: usize = 0;
    while i < total
        invariant
            total == seq@.len(),
            i <= total,
            forall|k: int| 0 <= k < i ==> ((#[trigger] seq@[k]) is Op <==> k % 2 == 1),
        decreases total - i,
    {
        let is_op = match &seq[i] {
            Sequence::Op(_) => true,
            _ => false,
        };
        if is_op != (i % 2 == 1) {
            return false;
        }
        i = i + 1;
    }
    true
}

/// The index of the operator of `seq` to join next.
fn find_next_operator(seq: &Vec<Sequence>) -> (best: usize)
    requires
        alternating(seq@),
        seq@.len() >= 3,
    ensures
        is_next_operator(seq@, best as int),
        1 <= best <= seq@.len() - 2,
        best % 2 == 1,
{
    let total: usize = seq.len();
    let mut best: usize = 1;
    let mut best_rank: u8 = match &seq[1] {
        Sequence::Op(op) => op.order(),
        _ => 0,
    };
    let mut j: usize = 3;
    while j < total
        invariant
            alternating(seq@),
            total == seq@.len(),
            3 <= j <= total + 1,
            j % 2 == 1,
            1 <= best < j,
            best <= total - 2,
            best % 2 == 1,
            best_rank == rank_at(seq@, best as int),
            forall|k: int|
                0 <= k < j && k < total && (#[trigger] seq@[k]) is Op ==> best_rank < rank_at(
                    seq@,
                    k,
                ) || (best_rank == rank_at(seq@, k) && best <= k),
        decreases total + 1 - j,
    {
        let rank: u8 = match &seq[j] {
            Sequence::Op(op) => op.order(),
            _ => 0,
        };
        if rank < best_rank {
            best = j;
            best_rank = rank;
        }
        assert(!(seq@[j + 1] is Op));
        j = j + 2;
    }
    best
}

/// Folds an alternating run of operands and operators into a tree by
/// rank-ordered reduction; a run that does not alternate gives no tree.
pub fn make_exp(seq: Vec<Sequence>) -> (r: Option<Exp>)
    ensures
        r == (if alternating(seq@) {
            Some(reduce(seq@))
        } else {
            None
        }),
{
    let mut seq = seq;
    let ghost initial = seq@;
    if !is_alternating(&seq) {
        return None;
    }
    while seq.len() > 1
        invariant
            alternating(seq@),
            reduce(seq@) == reduce(initial),
        decreases seq@.len(),
    {
        let ghost before = seq@;
        let i = find_next_operator(&seq);
        proof {
            lemma_next_operator_unique(before, i as int);
            lemma_join_alternating(before, i as int);
        }
        let left = seq.remove(i - 1);
        let middle = seq.remove(i - 1);
        let right = seq.remove(i - 1);
        let node = match (left.exp(), middle.op(), right.exp()) {
            (Some(left), Some(op), Some(right)) => Exp::Exp {
                op,
                left: Box::new(left),
                right: Box::new(right),
            },
            _ => {
                return None;
            },
        };
        seq.insert(i - 1, Sequence::Exp(node));
        assert(seq@ =~= join_at(before, i as int));
    }
    seq.remove(0).exp()
}

/// The syntax error of kind `kind` at the current token of `lexer`.
fn syntax_error_at(kind: SyntaxKind, lexer: &Lexer) -> (e: ParseError)
    ensures
        e@ == syntax_error(kind, lexer@),
{
    let text = lexer.content().to_owned();
    ParseError::Syntax(SyntaxError { kind, offset: lexer.start_loc(), text })
}

/// Reads the current token of `lexer` as a number, negated where `negative`
/// is set. It fails where the token is no number, or is too large: an
/// integer above `i64::MAX`, a decimal fraction whose digits exceed
/// `u128::MAX`.
pub fn parse_number(negative: bool, lexer: &Lexer) -> (r: Result<Val, ParseError>)
    ensures
        match number_at(lexer@, negative) {
            Some(val) => r == Ok::<Val, ParseError>(val),
            None => r matches Err(e) && e@ == syntax_error(SyntaxKind::MalformedNumber, lexer@),
        },
{
    let read = match lexer.token() {
        Token::IntNumber => read_int(lexer.content().as_bytes(), negative),
        Token::FloatNumber => read_float(lexer.content().as_bytes(), negative),
        _ => None,
    };
    match read {
        Some(val) => Ok(val),
        None => Err(syntax_error_at(SyntaxKind::MalformedNumber, lexer)),
    }
}

/// Reads the token behind the current one.
fn next_token(lexer: &mut Lexer) -> (r: Result<(), ParseError>)
    requires
        0 <= old(lexer)@.end <= old(lexer)@.source.len(),
    ensures
        final(lexer).text() == old(lexer).text(),
        match step(old(lexer)@) {
            Ok(st) => r is Ok && final(lexer)@ == st && follows(old(lexer)@, st) && (old(
                lexer,
            )@.token != Token::EOF ==> st.budget() < old(lexer)@.budget()),
            Err(e) => final(lexer)@ == old(lexer)@ && (r matches Err(err) && err@
                == ParseErrorView::Lex(e)),
        },
{
    proof {
        lemma_step_advances(lexer@);
    }
    match lexer.advance() {
        Ok(()) => Ok(()),
        Err(e) => Err(ParseError::Lex(e)),
    }
}

/// Parses the expression that starts at the current token of `lexer`, up to
/// the closing parenthesis or the end of the input that ends it, which is
/// then the current token. After a failure the current token is the one at
/// which the error was found.
pub fn parse_exp(lexer: &mut Lexer) -> (r: Result<Sequence, ParseError>)
    ensures
        final(lexer).text() == old(lexer).text(),
        match spec_parse_exp(old(lexer)@) {
            Ok((seq, st)) => r == Ok::<Sequence, ParseError>(seq) && final(lexer)@ == st,
            Err((e, st)) => final(lexer)@ == st && (r matches Err(err) && err@ == e),
        },
        r matches Ok(seq) ==> !(seq is Op) && follows(old(lexer)@, final(lexer)@),
    decreases old(lexer)@.budget(),
{
    proof {
        use_type_invariant(&*lexer);
        lexer.lemma_in_bounds();
    }
    let ghost entry = lexer@;
    let mut seq: Vec<Sequence> = Vec::new();
    loop
        invariant
            lexer.text() == old(lexer).text(),
            entry == old(lexer)@,
            follows(entry, lexer@),
            0 <= entry.end <= entry.source.len(),
            spec_collect(lexer@, seq@) == spec_collect(entry, Seq::<Sequence>::empty()),
            forall|i: int| 0 <= i < seq@.len() ==> ((#[trigger] seq@[i]) is Op <==> i % 2 == 1),
        ensures
            lexer.text() == old(lexer).text(),
            follows(entry, lexer@),
            spec_collect(entry, Seq::<Sequence>::empty()) == Ok::<
                (Seq<Sequence>, LexerState),
                (ParseErrorView, LexerState),
            >((seq@, lexer@)),
            seq@.len() == 0 || alternating(seq@),
        decreases lexer@.budget(),
    {
        let token = lexer.token();
        if seq.len() % 2 == 0 {
            match token {
                Token::LParen => {
                    match next_token(lexer) {
                        Ok(()) => {},
                        Err(e) => {
                            return Err(e);
                        },
                    }
                    let sub = match parse_exp(lexer) {
                        Ok(sub) => sub,
                        Err(e) => {
                            return Err(e);
                        },
                    };
                    if lexer.token() != Token::RParen {
                        return Err(syntax_error_at(SyntaxKind::UnterminatedParen, lexer));
                    }
                    match next_token(lexer) {
                        Ok(()) => {},
                        Err(e) => {
                            return Err(e);
                        },
                    }
                    seq.push(sub);
                },
                Token::IntNumber | Token::FloatNumber => {
                    let val = match parse_number(false, lexer) {
                        Ok(val) => val,
                        Err(e) => {
                            return Err(e);
                        },
                    };
                    match next_token(lexer) {
                        Ok(()) => {},
                        Err(e) => {
                            return Err(e);
                        },
                    }
                    seq.push(Sequence::Operand(val));
                },
                Token::Minus => {
                    match next_token(lexer) {
                        Ok(()) => {},
                        Err(e) => {
                            return Err(e);
                        },
                    }
                    let val = match parse_number(true, lexer) {
                        Ok(val) => val,
                        Err(e) => {
                            return Err(e);
                        },
                    };
                    match next_token(lexer) {
                        Ok(()) => {},
                        Err(e) => {
                            return Err(e);
                        },
                    }
                    seq.push(Sequence::Operand(val));
                },
                Token::EOF | Token::RParen => {
                    if seq.len() == 0 {
                        break ;
                    }
                    return Err(syntax_error_at(SyntaxKind::UnexpectedToken, lexer));
                },
                _ => {
                    return Err(syntax_error_at(SyntaxKind::UnexpectedToken, lexer));
                },
            }
        } else {
            let op = match token {
                Token::Plus => Op::Add,
                Token::Minus => Op::Sub,
                Token::Star => Op::Mul,
                Token::Slash => Op::Div,
                Token::Caret => Op::Pow,
                Token::Percent => Op::Mod,
                Token::EOF | Token::RParen => {
                    break ;
                },
                _ => {
                    return Err(syntax_error_at(SyntaxKind::UnexpectedToken, lexer));
                },
            };
            match next_token(lexer) {
                Ok(()) => {},
                Err(e) => {
                    return Err(e);
                },
            }
            seq.push(Sequence::Op(op));
        }
    }
    if seq.len() == 0 {
        return Err(syntax_error_at(SyntaxKind::EmptyExpression, lexer));
    }
    if seq.len() == 1 {
        return Ok(seq.remove(0));
    }
    match make_exp(seq) {
        Some(exp) => Ok(Sequence::Exp(exp)),
        // a collected run alternates, so there is a tree
        None => Err(syntax_error_at(SyntaxKind::EmptyExpression, lexer)),
    }
}

} // verus!
