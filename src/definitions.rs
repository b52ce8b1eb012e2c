//! The abstract syntax tree built by the parser, and the resolved types used
//! by the code generator.
use vstd::prelude::*;
use vstd::string::StringSliceAdditionalSpecFns;
use vstd::utf8::encode_utf8;
use crate::tokenizer::upper;

verus! {

/// A whole program: its single block.
pub struct Program {
    pub body: Block,
}

/// Constants, variables and the statement that forms the body.
pub struct Block {
    pub constants: Vec<Constant>,
    pub local_variables: Vec<Variable>,
    pub body: Statement,
}

/// A named constant and the expression that gives its value.
pub struct Constant {
    pub name: String,
    pub value: Expression,
}

/// A declared variable and its type as written.
pub struct Variable {
    pub name: String,
    pub tipe: SuperType,
}

/// A resolved type. `Undefined` marks a value whose type is already in error,
/// so that one mistake is reported once.
#[derive(Debug)]
pub enum Type {
    Integer,
    Boolean,
    Real,
    Char,
    Stryng,
    Text,
    /// Element type, lowest index, highest index.
    Array(Box<Type>, i64, i64),
    Undefined,
}

impl Clone for Type {
    fn clone(&self) -> (r: Type)
        ensures
            r == *self,
        decreases self,
    {
        match self {
            Type::Integer => Type::Integer,
            Type::Boolean => Type::Boolean,
            Type::Real => Type::Real,
            Type::Char => Type::Char,
            Type::Stryng => Type::Stryng,
            Type::Text => Type::Text,
            Type::Undefined => Type::Undefined,
            Type::Array(t, lo, hi) => Type::Array(Box::new((**t).clone()), *lo, *hi),
        }
    }
}

impl PartialEq for Type {
    fn eq(&self, o: &Type) -> (r: bool)
        decreases self,
    {
        match (self, o) {
            (Type::Integer, Type::Integer) => true,
            (Type::Boolean, Type::Boolean) => true,
            (Type::Real, Type::Real) => true,
            (Type::Char, Type::Char) => true,
            (Type::Stryng, Type::Stryng) => true,
            (Type::Text, Type::Text) => true,
            (Type::Undefined, Type::Undefined) => true,
            (Type::Array(a, lo, hi), Type::Array(b, lo2, hi2)) => {
                *lo == *lo2 && *hi == *hi2 && (**a).eq(&**b)
            },
            _ => false,
        }
    }
}

impl vstd::std_specs::cmp::PartialEqSpecImpl for Type {
    open spec fn obeys_eq_spec() -> bool {
        true
    }

    open spec fn eq_spec(&self, o: &Type) -> bool {
        *self == *o
    }
}

/// A type as written, with array bounds still expressions.
pub enum SuperType {
    Integer,
    Boolean,
    Real,
    Char,
    Stryng,
    Text,
    Array(Box<SuperType>, Expression, Expression),
}

/// A statement; the trailing `usize` pairs are source spans `[start, end)`.
pub enum Statement {
    DoNothing,
    /// Variable, value.
    Assignment(String, Expression, usize, usize),
    /// Array variable, index, value.
    ElementAssignment(String, Expression, Expression, usize, usize),
    /// Procedure, arguments.
    ProcedureCall(String, Vec<Expression>, usize, usize),
    /// Variables read into.
    ReadCall(Vec<String>, usize, usize),
    /// Condition, then-branch, else-branch, span of the condition.
    IfStatement(Expression, Box<Statement>, Box<Statement>, usize, usize),
    /// Condition, body, span of the condition.
    WhileLoop(Expression, Box<Statement>, usize, usize),
    /// Condition, body, span of the condition.
    RepeatLoop(Expression, Box<Statement>, usize, usize),
    /// Variable, its span, start value, end value, span of the range,
    /// whether it counts up, body.
    ForLoop(String, usize, usize, Expression, Expression, usize, usize, bool, Box<Statement>),
    StatementList(Vec<Statement>),
}

/// `operand1 operator operand2`; with the operator `NONE` the value is `operand1`.
pub struct Expression {
    pub start: usize,
    pub end: usize,
    pub operand1: SimpleExpression,
    pub operand2: SimpleExpression,
    pub operator: String,
}

/// Terms joined left to right by `+`, `-` or `OR`; `positive` is false when
/// the first term carries a unary minus.
pub struct SimpleExpression {
    pub start: usize,
    pub end: usize,
    pub positive: bool,
    pub operands: Vec<Term>,
    pub operators: Vec<String>,
}

/// Factors joined left to right by `*`, `/`, `DIV`, `MOD` or `AND`.
pub struct Term {
    pub start: usize,
    pub end: usize,
    pub operands: Vec<Factor>,
    pub operators: Vec<String>,
}

pub enum Factor {
    Constant(UnsignedConstant),
    /// A variable, constant or built-in function with its arguments.
    Identifier(String, Vec<Expression>, usize, usize),
    ArrayIndex(String, Expression, usize, usize),
    Parenthetical(Expression),
    NegatedFactor(Box<Factor>, usize, usize),
    List(Vec<ExpressionOrRange>),
}

pub enum ExpressionOrRange {
    Expression(Expression),
    Range(Expression, Expression),
}

pub enum UnsignedConstant {
    UnsignedInteger(u64),
    /// Whole part, fractional digits read as an integer, number of fractional
    /// digits: `1.05` is `(1, 5, 2)`, the value 1 + 5/100.
    UnsignedReal(u64, u64, u64),
    /// Where `NIL` was written.
    Nil(usize),
    Quote(String),
    Char(u8),
}

pub open spec fn is_letter(b: u8) -> bool {
    (65 <= b && b <= 90) || (97 <= b && b <= 122)
}

pub open spec fn is_digit(b: u8) -> bool {
    48 <= b && b <= 57
}

pub open spec fn is_reserved(t: Seq<u8>) -> bool {
    t == "AND".spec_bytes() || t == "ARRAY".spec_bytes() || t == "BEGIN".spec_bytes()
    || t == "CASE".spec_bytes() || t == "CONST".spec_bytes() || t == "DIV".spec_bytes()
    || t == "DO".spec_bytes() || t == "DOWNTO".spec_bytes() || t == "ELSE".spec_bytes()
    || t == "END".spec_bytes() || t == "FILE".spec_bytes() || t == "FOR".spec_bytes()
    || t == "FUNCTION".spec_bytes() || t == "GOTO".spec_bytes() || t == "IF".spec_bytes()
    || t == "IN".spec_bytes() || t == "LABEL".spec_bytes() || t == "MOD".spec_bytes()
    || t == "NIL".spec_bytes() || t == "NOT".spec_bytes() || t == "OF".spec_bytes()
    || t == "OR".spec_bytes() || t == "PACKED".spec_bytes() || t == "PROCEDURE".spec_bytes()
    || t == "PROGRAM".spec_bytes() || t == "RECORD".spec_bytes() || t == "REPEAT".spec_bytes()
    || t == "SET".spec_bytes() || t == "THEN".spec_bytes() || t == "TO".spec_bytes()
    || t == "TYPE".spec_bytes() || t == "UNTIL".spec_bytes() || t == "VAR".spec_bytes()
    || t == "WHILE".spec_bytes() || t == "WITH".spec_bytes()
}

/// A letter followed by letters and digits, and no reserved word in any
/// mixture of letter case.
pub open spec fn is_identifier(t: Seq<u8>) -> bool {
    &&& t.len() > 0
    &&& is_letter(t[0])
    &&& forall|k: int| 1 <= k < t.len() ==> is_letter(#[trigger] t[k]) || is_digit(t[k])
    &&& !is_reserved(upper(t))
}

/// A name in the tree: the text of an identifier.
pub open spec fn is_name(n: String) -> bool {
    is_identifier(encode_utf8(n@))
}

/// The syntax tree's invariant for an expression: every span is ordered, and
/// every `Term` and `SimpleExpression` joins one more operand than operators.
pub open spec fn expression_wf(e: Expression) -> bool
    decreases e,
{
    &&& e.start <= e.end
    &&& simple_wf(e.operand1)
    &&& simple_wf(e.operand2)
}

pub open spec fn simple_wf(e: SimpleExpression) -> bool
    decreases e,
{
    &&& e.start <= e.end
    &&& e.operands.len() == e.operators.len() + 1
    &&& forall|k: int| #![trigger e.operands@[k]] 0 <= k < e.operands.len() ==> term_wf(e.operands@[k])
}

pub open spec fn term_wf(t: Term) -> bool
    decreases t,
{
    &&& t.start <= t.end
    &&& t.operands.len() == t.operators.len() + 1
    &&& forall|k: int| #![trigger t.operands@[k]] 0 <= k < t.operands.len() ==> factor_wf(t.operands@[k])
}

pub open spec fn factor_wf(f: Factor) -> bool
    decreases f,
{
    match f {
        Factor::Constant(_) => true,
        Factor::Identifier(n, args, start, end) => is_name(n) && start <= end && forall|k: int|
            #![trigger args@[k]] 0 <= k < args.len() ==> expression_wf(args@[k]),
        Factor::ArrayIndex(n, index, start, end) => is_name(n) && start <= end && expression_wf(index),
        Factor::Parenthetical(e) => expression_wf(e),
        Factor::NegatedFactor(g, start, end) => start <= end && factor_wf(*g),
        Factor::List(items) => forall|k: int| #![trigger items@[k]] 0 <= k < items.len() ==> item_wf(items@[k]),
    }
}

pub open spec fn item_wf(item: ExpressionOrRange) -> bool
    decreases item,
{
    match item {
        ExpressionOrRange::Expression(e) => expression_wf(e),
        ExpressionOrRange::Range(a, b) => expression_wf(a) && expression_wf(b),
    }
}

/// A written type is well formed when its array bounds are.
pub open spec fn supertype_wf(t: SuperType) -> bool
    decreases t,
{
    match t {
        SuperType::Array(e, lo, hi) => supertype_wf(*e) && expression_wf(lo) && expression_wf(hi),
        _ => true,
    }
}

/// A statement is well formed when its spans are ordered and its parts are.
pub open spec fn statement_wf(s: Statement) -> bool
    decreases s,
{
    match s {
        Statement::DoNothing => true,
        Statement::Assignment(n, e, start, end) => is_name(n) && start <= end && expression_wf(e),
        Statement::ElementAssignment(n, i, e, start, end) => is_name(n) && start <= end && expression_wf(i)
            && expression_wf(e),
        Statement::ProcedureCall(n, args, start, end) => is_name(n) && start <= end && forall|k: int|
            #![trigger args@[k]] 0 <= k < args.len() ==> expression_wf(args@[k]),
        Statement::ReadCall(names, start, end) => start <= end && forall|k: int|
            #![trigger names@[k]] 0 <= k < names.len() ==> is_name(names@[k]),
        Statement::IfStatement(c, t, f, start, end) => start <= end && expression_wf(c)
            && statement_wf(*t) && statement_wf(*f),
        Statement::WhileLoop(c, b, start, end) => start <= end && expression_wf(c) && statement_wf(
            *b,
        ),
        Statement::RepeatLoop(c, b, start, end) => start <= end && expression_wf(c)
            && statement_wf(*b),
        Statement::ForLoop(n, ns, ne, a, b, rs, re, _, body) => is_name(n) && ns <= ne && rs <= re
            && expression_wf(a) && expression_wf(b) && statement_wf(*body),
        Statement::StatementList(v) => forall|k: int|
            #![trigger v@[k]] 0 <= k < v.len() ==> statement_wf(v@[k]),
    }
}

/// A block is well formed when its names, constants, variable types and body are.
pub open spec fn block_wf(b: Block) -> bool {
    &&& forall|k: int| #![trigger b.constants@[k]]
        0 <= k < b.constants.len() ==> is_name(b.constants@[k].name) && expression_wf(
            b.constants@[k].value,
        )
    &&& forall|k: int| #![trigger b.local_variables@[k]]
        0 <= k < b.local_variables.len() ==> is_name(b.local_variables@[k].name) && supertype_wf(
            b.local_variables@[k].tipe,
        )
    &&& statement_wf(b.body)
}

/// `r` is a copy of factor `f` as far as values can be compared: constants are
/// equal, and otherwise the variant, names, spans and numbers of children match.
pub open spec fn copies_factor(r: Factor, f: Factor) -> bool {
    match f {
        Factor::Constant(_) => r == f,
        Factor::Identifier(n, a, st, en) => r matches Factor::Identifier(n2, a2, st2, en2) && n2
            == n && a2.len() == a.len() && st2 == st && en2 == en,
        Factor::ArrayIndex(n, x, st, en) => r matches Factor::ArrayIndex(n2, x2, st2, en2) && n2
            == n && x2.start == x.start && x2.end == x.end && st2 == st && en2 == en,
        Factor::Parenthetical(x) => r matches Factor::Parenthetical(x2) && x2.start == x.start
            && x2.end == x.end,
        Factor::NegatedFactor(_, st, en) => r matches Factor::NegatedFactor(_, st2, en2) && st2
            == st && en2 == en,
        Factor::List(items) => r matches Factor::List(i2) && i2.len() == items.len(),
    }
}

/// `r` is a copy of the written type `t`: equal when it is not an array, and
/// otherwise an array whose bound expressions keep their spans.
pub open spec fn copies_supertype(r: SuperType, t: SuperType) -> bool {
    match t {
        SuperType::Array(_, lo, hi) => r matches SuperType::Array(_, lo2, hi2) && lo2.start
            == lo.start && lo2.end == lo.end && hi2.start == hi.start && hi2.end == hi.end,
        _ => r == t,
    }
}

/// A deep copy of an expression, spans included.
pub fn copy_expression(e: &Expression) -> (r: Expression)
    ensures
        r.start == e.start,
        r.end == e.end,
        r.operand1.operands.len() == e.operand1.operands.len(),
        r.operand1.operators.len() == e.operand1.operators.len(),
        r.operand2.operands.len() == e.operand2.operands.len(),
        r.operand2.operators.len() == e.operand2.operators.len(),
        r.operator == e.operator,
        r.operand1.operators@ == e.operand1.operators@,
        r.operand2.operators@ == e.operand2.operators@,
        r.operand1.positive == e.operand1.positive,
        r.operand2.positive == e.operand2.positive,
        expression_wf(*e) ==> expression_wf(r),
    decreases e,
{
    Expression {
        start: e.start,
        end: e.end,
        operand1: copy_simple_expression(&e.operand1),
        operand2: copy_simple_expression(&e.operand2),
        operator: e.operator.clone(),
    }
}

fn copy_strings(v: &Vec<String>) -> (r: Vec<String>)
    ensures
        r.len() == v.len(),
        r@ == v@,
{
    let mut r: Vec<String> = Vec::new();
    let mut k: usize = 0;
    while k < v.len()
        invariant
            k <= v.len(),
            r.len() == k,
            r@ == v@.subrange(0, k as int),
        decreases v.len() - k,
    {
        r.push(v[k].clone());
        k = k + 1;
    }
    r
}

fn copy_expressions(v: &Vec<Expression>) -> (r: Vec<Expression>)
    ensures
        r.len() == v.len(),
        (forall|j: int| #![trigger v@[j]] 0 <= j < v.len() ==> expression_wf(v@[j])) ==> forall|j: int|
            #![trigger r@[j]] 0 <= j < r.len() ==> expression_wf(r@[j]),
    decreases v,
{
    let mut r: Vec<Expression> = Vec::new();
    let mut k: usize = 0;
    while k < v.len()
        invariant
            k <= v.len(),
            r.len() == k,
            (forall|j: int| #![trigger v@[j]] 0 <= j < v.len() ==> expression_wf(v@[j])) ==> forall|j: int|
                #![trigger r@[j]] 0 <= j < r.len() ==> expression_wf(r@[j]),
        decreases v.len() - k,
    {
        proof {
            vstd::std_specs::vec::axiom_vec_index_decreases(*v, k as int);
        }
        assert((forall|j: int| #![trigger v@[j]] 0 <= j < v.len() ==> expression_wf(v@[j])) ==> expression_wf(v@[k as int]));
        r.push(copy_expression(&v[k]));
        k = k + 1;
    }
    r
}

/// A deep copy of a simple expression.
pub fn copy_simple_expression(e: &SimpleExpression) -> (r: SimpleExpression)
    ensures
        r.start == e.start,
        r.end == e.end,
        r.operands.len() == e.operands.len(),
        r.operators.len() == e.operators.len(),
        r.operators@ == e.operators@,
        r.positive == e.positive,
        simple_wf(*e) ==> simple_wf(r),
    decreases e,
{
    let mut operands: Vec<Term> = Vec::new();
    let mut k: usize = 0;
    while k < e.operands.len()
        invariant
            k <= e.operands.len(),
            operands.len() == k,
            simple_wf(*e) ==> forall|j: int| #![trigger operands@[j]] 0 <= j < k ==> term_wf(operands@[j]),
        decreases e.operands.len() - k,
    {
        proof {
            vstd::std_specs::vec::axiom_vec_index_decreases(e.operands, k as int);
        }
        assert(simple_wf(*e) ==> term_wf(e.operands@[k as int]));
        operands.push(copy_term(&e.operands[k]));
        k = k + 1;
    }
    SimpleExpression {
        start: e.start,
        end: e.end,
        positive: e.positive,
        operands,
        operators: copy_strings(&e.operators),
    }
}

/// A deep copy of a term.
pub fn copy_term(t: &Term) -> (r: Term)
    ensures
        r.start == t.start,
        r.end == t.end,
        r.operands.len() == t.operands.len(),
        r.operators.len() == t.operators.len(),
        r.operators@ == t.operators@,
        term_wf(*t) ==> term_wf(r),
    decreases t,
{
    let mut operands: Vec<Factor> = Vec::new();
    let mut k: usize = 0;
    while k < t.operands.len()
        invariant
            k <= t.operands.len(),
            operands.len() == k,
            term_wf(*t) ==> forall|j: int| #![trigger operands@[j]] 0 <= j < k ==> factor_wf(operands@[j]),
        decreases t.operands.len() - k,
    {
        proof {
            vstd::std_specs::vec::axiom_vec_index_decreases(t.operands, k as int);
        }
        assert(term_wf(*t) ==> factor_wf(t.operands@[k as int]));
        operands.push(copy_factor(&t.operands[k]));
        k = k + 1;
    }
    Term { start: t.start, end: t.end, operands, operators: copy_strings(&t.operators) }
}

/// A deep copy of a factor.
pub fn copy_factor(f: &Factor) -> (r: Factor)
    ensures
        factor_wf(*f) ==> factor_wf(r),
        copies_factor(r, *f),
    decreases f,
{
    match f {
        Factor::Constant(c) => Factor::Constant(
            match c {
                UnsignedConstant::UnsignedInteger(n) => UnsignedConstant::UnsignedInteger(*n),
                UnsignedConstant::UnsignedReal(a, b, d) => UnsignedConstant::UnsignedReal(*a, *b, *d),
                UnsignedConstant::Nil(p) => UnsignedConstant::Nil(*p),
                UnsignedConstant::Quote(q) => UnsignedConstant::Quote(q.clone()),
                UnsignedConstant::Char(ch) => UnsignedConstant::Char(*ch),
            },
        ),
        Factor::Identifier(name, args, start, end) => Factor::Identifier(
            name.clone(),
            copy_expressions(args),
            *start,
            *end,
        ),
        Factor::ArrayIndex(name, index, start, end) => Factor::ArrayIndex(
            name.clone(),
            copy_expression(index),
            *start,
            *end,
        ),
        Factor::Parenthetical(e) => Factor::Parenthetical(copy_expression(e)),
        Factor::NegatedFactor(g, start, end) => Factor::NegatedFactor(
            Box::new(copy_factor(&**g)),
            *start,
            *end,
        ),
        Factor::List(items) => Factor::List(copy_list(items)),
    }
}

fn copy_list(items: &Vec<ExpressionOrRange>) -> (r: Vec<ExpressionOrRange>)
    ensures
        r.len() == items.len(),
        (forall|j: int| #![trigger items@[j]] 0 <= j < items.len() ==> item_wf(items@[j])) ==> forall|j: int|
            #![trigger r@[j]] 0 <= j < r.len() ==> item_wf(r@[j]),
    decreases items,
{
    let mut r: Vec<ExpressionOrRange> = Vec::new();
    let mut k: usize = 0;
    while k < items.len()
        invariant
            k <= items.len(),
            r.len() == k,
            (forall|j: int| #![trigger items@[j]] 0 <= j < items.len() ==> item_wf(items@[j])) ==> forall|j: int|
                #![trigger r@[j]] 0 <= j < r.len() ==> item_wf(r@[j]),
        decreases items.len() - k,
    {
        proof {
            vstd::std_specs::vec::axiom_vec_index_decreases(*items, k as int);
        }
        assert((forall|j: int| #![trigger items@[j]] 0 <= j < items.len() ==> item_wf(items@[j])) ==> item_wf(items@[k as int]));
        r.push(copy_list_item(&items[k]));
        k = k + 1;
    }
    r
}

fn copy_list_item(item: &ExpressionOrRange) -> (r: ExpressionOrRange)
    ensures
        item_wf(*item) ==> item_wf(r),
    decreases item,
{
    match item {
        ExpressionOrRange::Expression(e) => ExpressionOrRange::Expression(copy_expression(e)),
        ExpressionOrRange::Range(a, b) => ExpressionOrRange::Range(
            copy_expression(a),
            copy_expression(b),
        ),
    }
}

/// A deep copy of a written type.
pub fn copy_supertype(t: &SuperType) -> (r: SuperType)
    ensures
        supertype_wf(*t) ==> supertype_wf(r),
        copies_supertype(r, *t),
    decreases t,
{
    match t {
        SuperType::Integer => SuperType::Integer,
        SuperType::Boolean => SuperType::Boolean,
        SuperType::Real => SuperType::Real,
        SuperType::Char => SuperType::Char,
        SuperType::Stryng => SuperType::Stryng,
        SuperType::Text => SuperType::Text,
        SuperType::Array(e, lo, hi) => SuperType::Array(
            Box::new(copy_supertype(&**e)),
            copy_expression(lo),
            copy_expression(hi),
        ),
    }
}

} // verus!
