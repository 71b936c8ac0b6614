//! The syntax tree and its mathematical model.

use vstd::prelude::*;
use vstd::std_specs::convert::{FromSpecImpl, TryFromSpecImpl};

verus! {

/// A decimal numeral, kept exactly as written: a sign, the digits before the
/// point and the digits after it. Each digit is stored as its value, `0..=9`.
/// No rounding takes place: `0.1` is one tenth. Two numerals are equal
/// where they are written alike, so `1.0` and `1` are different numerals of
/// the same value.
#[derive(Debug, PartialEq, Eq)]
pub struct Number {
    pub negative: bool,
    pub whole: Vec<u8>,
    pub fraction: Vec<u8>,
}

/// What a [`Number`] stands for in contracts.
pub struct NumberModel {
    pub negative: bool,
    pub whole: Seq<u8>,
    pub fraction: Seq<u8>,
}

/// The value of a digit string read as a decimal natural number.
pub open spec fn digits_value(digits: Seq<u8>) -> nat
    decreases digits.len(),
{
    if digits.len() == 0 {
        0
    } else {
        digits_value(digits.drop_last()) * 10 + digits.last() as nat
    }
}

/// Every entry is a decimal digit.
pub open spec fn all_decimal(digits: Seq<u8>) -> bool {
    forall|i: int| 0 <= i < digits.len() ==> digits[i] <= 9
}

impl NumberModel {
    /// A numeral has at least one digit before the point, and only digits.
    pub open spec fn wf(self) -> bool {
        &&& self.whole.len() >= 1
        &&& all_decimal(self.whole)
        &&& all_decimal(self.fraction)
    }
}

impl View for Number {
    type V = NumberModel;

    open spec fn view(&self) -> NumberModel {
        NumberModel { negative: self.negative, whole: self.whole@, fraction: self.fraction@ }
    }
}

impl Number {
    /// The number is a numeral: see [`NumberModel::wf`].
    pub open spec fn wf(&self) -> bool {
        self@.wf()
    }
}

/// A built-in operation applied to a term, or the free variable itself.
#[derive(Debug, PartialEq, Eq)]
pub enum Function {
    /// The root of the given degree of the argument.
    Root(u32, Term),
    /// The logarithm of the argument to the given base.
    Log(u32, Term),
    /// The argument raised to the given exponent.
    Power(Number, Term),
    /// The free variable.
    JustX,
}

/// The unit that binary operators combine.
#[derive(Debug, PartialEq, Eq)]
pub enum Term {
    Constant(Number),
    FnOnly(Box<Function>),
    Both(Number, Box<Function>),
}

/// What a [`Function`] stands for in contracts.
pub enum FunctionModel {
    Root(u32, TermModel),
    Log(u32, TermModel),
    Power(NumberModel, TermModel),
    JustX,
}

/// What a [`Term`] stands for in contracts.
pub enum TermModel {
    Constant(NumberModel),
    FnOnly(Box<FunctionModel>),
    Both(NumberModel, Box<FunctionModel>),
}

/// The model of a function.
pub open spec fn function_model(f: Function) -> FunctionModel
    decreases f,
{
    match f {
        Function::Root(degree, arg) => FunctionModel::Root(degree, term_model(arg)),
        Function::Log(base, arg) => FunctionModel::Log(base, term_model(arg)),
        Function::Power(exponent, arg) => FunctionModel::Power(exponent@, term_model(arg)),
        Function::JustX => FunctionModel::JustX,
    }
}

/// The model of a term.
pub open spec fn term_model(t: Term) -> TermModel
    decreases t,
{
    match t {
        Term::Constant(value) => TermModel::Constant(value@),
        Term::FnOnly(f) => TermModel::FnOnly(Box::new(function_model(*f))),
        Term::Both(coefficient, f) => TermModel::Both(
            coefficient@,
            Box::new(function_model(*f)),
        ),
    }
}

/// Every numeral in the function is well formed.
pub open spec fn function_wf(f: FunctionModel) -> bool
    decreases f,
{
    match f {
        FunctionModel::Root(_, arg) => term_wf(arg),
        FunctionModel::Log(_, arg) => term_wf(arg),
        FunctionModel::Power(exponent, arg) => exponent.wf() && term_wf(arg),
        FunctionModel::JustX => true,
    }
}

/// Every numeral in the term is well formed.
pub open spec fn term_wf(t: TermModel) -> bool
    decreases t,
{
    match t {
        TermModel::Constant(value) => value.wf(),
        TermModel::FnOnly(f) => function_wf(*f),
        TermModel::Both(coefficient, f) => coefficient.wf() && function_wf(*f),
    }
}

impl View for Function {
    type V = FunctionModel;

    open spec fn view(&self) -> FunctionModel {
        function_model(*self)
    }
}

impl View for Term {
    type V = TermModel;

    open spec fn view(&self) -> TermModel {
        term_model(*self)
    }
}

/// A binary operator.
#[derive(Debug, Clone, Copy, PartialEq, Eq, Structural)]
pub enum Connective {
    Add,
    Subtract,
    Multiply,
    Divide,
    Exponentiate,
}

/// A binary tree over terms. Each `Pair` owns its two children.
#[derive(Debug, PartialEq, Eq)]
pub enum ExpressionNode {
    Leaf(Term),
    Pair(Box<ExpressionNode>, Connective, Box<ExpressionNode>),
}

/// What an [`ExpressionNode`] stands for in contracts.
pub enum ExpressionModel {
    Leaf(TermModel),
    Pair(Box<ExpressionModel>, Connective, Box<ExpressionModel>),
}

/// The model of a tree.
pub open spec fn expression_model(e: ExpressionNode) -> ExpressionModel
    decreases e,
{
    match e {
        ExpressionNode::Leaf(t) => ExpressionModel::Leaf(t@),
        ExpressionNode::Pair(left, op, right) => ExpressionModel::Pair(
            Box::new(expression_model(*left)),
            op,
            Box::new(expression_model(*right)),
        ),
    }
}

/// Every numeral in the tree is well formed.
pub open spec fn expression_wf(e: ExpressionModel) -> bool
    decreases e,
{
    match e {
        ExpressionModel::Leaf(t) => term_wf(t),
        ExpressionModel::Pair(left, _, right) => expression_wf(*left) && expression_wf(*right),
    }
}

impl View for ExpressionNode {
    type V = ExpressionModel;

    open spec fn view(&self) -> ExpressionModel {
        expression_model(*self)
    }
}

/// Two expressions related by equality: `left = right`.
#[derive(Debug, PartialEq, Eq)]
pub struct Equation {
    pub left: ExpressionNode,
    pub right: ExpressionNode,
}

/// What an [`Equation`] stands for in contracts.
pub struct EquationModel {
    pub left: ExpressionModel,
    pub right: ExpressionModel,
}

impl View for Equation {
    type V = EquationModel;

    open spec fn view(&self) -> EquationModel {
        EquationModel { left: self.left@, right: self.right@ }
    }
}

/// Why a text is not an expression or an equation.
#[derive(Debug, Clone, Copy, PartialEq, Eq, Structural)]
pub enum ErrorKind {
    /// Digits were required and none were found, or a function's whole-number
    /// parameter does not fit in 32 bits.
    MalformedNumber,
    /// Neither a coefficient nor a function stands where a term is required.
    EmptyTerm,
    /// A character that is none of `+ - * / ^` was given as an operator.
    UnknownOperator,
    /// A construct that was begun lacks a token that it requires: the
    /// parenthesis that opens or closes a function's argument, the comma of
    /// `pow(`, the parenthesis that closes a group, the `=` of an equation.
    UnterminatedConstruct,
    /// An expression was read and text is left after it.
    TrailingInput,
}

/// A failure, with the byte offset at which it was found.
#[derive(Debug, Clone, Copy, PartialEq, Eq, Structural)]
pub struct ParseError {
    pub kind: ErrorKind,
    pub position: usize,
}

/// The operator that a character denotes, if any.
pub open spec fn connective_of(op: char) -> Option<Connective> {
    if op == '+' {
        Some(Connective::Add)
    } else if op == '-' {
        Some(Connective::Subtract)
    } else if op == '*' {
        Some(Connective::Multiply)
    } else if op == '/' {
        Some(Connective::Divide)
    } else if op == '^' {
        Some(Connective::Exponentiate)
    } else {
        None
    }
}

impl Connective {
    /// Reads an operator character.
    pub fn from_char(op: char) -> (r: Option<Connective>)
        ensures
            r == connective_of(op),
    {
        if op == '+' {
            Some(Connective::Add)
        } else if op == '-' {
            Some(Connective::Subtract)
        } else if op == '*' {
            Some(Connective::Multiply)
        } else if op == '/' {
            Some(Connective::Divide)
        } else if op == '^' {
            Some(Connective::Exponentiate)
        } else {
            None
        }
    }
}

impl TryFrom<(ExpressionNode, char, ExpressionNode)> for ExpressionNode {
    type Error = ErrorKind;

    /// Joins two trees under the operator that the character denotes.
    fn try_from(from: (ExpressionNode, char, ExpressionNode)) -> (r: Result<
        ExpressionNode,
        ErrorKind,
    >) {
        match Connective::from_char(from.1) {
            Some(op) => Ok(ExpressionNode::Pair(Box::new(from.0), op, Box::new(from.2))),
            None => Err(ErrorKind::UnknownOperator),
        }
    }
}

impl TryFromSpecImpl<(ExpressionNode, char, ExpressionNode)> for ExpressionNode {
    open spec fn obeys_try_from_spec() -> bool {
        true
    }

    open spec fn try_from_spec(from: (ExpressionNode, char, ExpressionNode)) -> Result<
        ExpressionNode,
        ErrorKind,
    > {
        match connective_of(from.1) {
            Some(op) => Ok(ExpressionNode::Pair(Box::new(from.0), op, Box::new(from.2))),
            None => Err(ErrorKind::UnknownOperator),
        }
    }
}

impl From<Term> for ExpressionNode {
    /// A term standing alone is a leaf.
    fn from(from: Term) -> (r: ExpressionNode) {
        ExpressionNode::Leaf(from)
    }
}

impl FromSpecImpl<Term> for ExpressionNode {
    open spec fn obeys_from_spec() -> bool {
        true
    }

    open spec fn from_spec(from: Term) -> ExpressionNode {
        ExpressionNode::Leaf(from)
    }
}

} // verus!
