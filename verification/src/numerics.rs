//! The arithmetic of numbers, as far as it is known.
//!
//! A number is held as the 64 bits of its IEEE 754 binary64 form, and the
//! library never computes on one. What it needs of a number (the sum of two,
//! the text that writes one, the number that a text writes) it looks up in a
//! [`Numerics`]. Where the fact is missing, the operation stops with the
//! [`Query`] that it could not answer; the caller computes the answer, adds it
//! with [`Numerics::learn`], and runs the operation again.

use crate::text::same_text;
use vstd::prelude::*;

verus! {

/// The arithmetic operations on two numbers.
#[derive(Clone, Copy, Debug, PartialEq, Eq, Structural)]
pub enum Operation {
    Add,
    Subtract,
    Multiply,
    Divide,
    Mod,
}

/// A question on numbers.
#[derive(Debug, PartialEq)]
pub enum Query {
    /// Which number does this text write, if any?
    Parse(String),
    /// Which text writes this number?
    Render(u64),
    /// What does the operation give on these two numbers, left and right?
    Compute(Operation, u64, u64),
    /// Which number is nearest to this index?
    FromIndex(usize),
    /// Which index is the least whole number not below this number: zero
    /// for what is negative or no number, the largest index for what lies
    /// above it?
    CeilIndex(u64),
}

/// The answer to a question on numbers.
#[derive(Debug, PartialEq)]
pub enum Answer {
    /// A number, to `Parse`, `Compute` and `FromIndex`.
    Number(u64),
    /// To `Parse`: the text writes no number.
    NotNumber,
    /// A text, to `Render`.
    Text(String),
    /// An index, to `CeilIndex`.
    Index(usize),
}

/// What a question is.
pub enum QueryModel {
    Parse(Seq<char>),
    Render(u64),
    Compute(Operation, u64, u64),
    FromIndex(usize),
    CeilIndex(u64),
}

/// What an answer is.
pub enum AnswerModel {
    Number(u64),
    NotNumber,
    Text(Seq<char>),
    Index(usize),
}

impl View for Query {
    type V = QueryModel;

    open spec fn view(&self) -> QueryModel {
        match self {
            Query::Parse(s) => QueryModel::Parse(s@),
            Query::Render(n) => QueryModel::Render(*n),
            Query::Compute(op, a, b) => QueryModel::Compute(*op, *a, *b),
            Query::FromIndex(i) => QueryModel::FromIndex(*i),
            Query::CeilIndex(n) => QueryModel::CeilIndex(*n),
        }
    }
}

impl View for Answer {
    type V = AnswerModel;

    open spec fn view(&self) -> AnswerModel {
        match self {
            Answer::Number(n) => AnswerModel::Number(*n),
            Answer::NotNumber => AnswerModel::NotNumber,
            Answer::Text(s) => AnswerModel::Text(s@),
            Answer::Index(i) => AnswerModel::Index(*i),
        }
    }
}

impl Query {
    /// Whether two questions are the same.
    pub fn same(&self, other: &Query) -> (r: bool)
        ensures
            r == (self@ == other@),
    {
        match (self, other) {
            (Query::Parse(a), Query::Parse(b)) => same_text(a.as_str(), b.as_str()),
            (Query::Render(a), Query::Render(b)) => *a == *b,
            (Query::Compute(op, a, b), Query::Compute(op2, a2, b2)) => {
                let same_op = match (op, op2) {
                    (Operation::Add, Operation::Add) => true,
                    (Operation::Subtract, Operation::Subtract) => true,
                    (Operation::Multiply, Operation::Multiply) => true,
                    (Operation::Divide, Operation::Divide) => true,
                    (Operation::Mod, Operation::Mod) => true,
                    _ => false,
                };
                same_op && *a == *a2 && *b == *b2
            },
            (Query::FromIndex(a), Query::FromIndex(b)) => *a == *b,
            (Query::CeilIndex(a), Query::CeilIndex(b)) => *a == *b,
            _ => false,
        }
    }
}

impl Answer {
    /// A copy of the answer.
    pub fn copy(&self) -> (r: Answer)
        ensures
            r@ == self@,
    {
        match self {
            Answer::Number(n) => Answer::Number(*n),
            Answer::NotNumber => Answer::NotNumber,
            Answer::Text(s) => Answer::Text(s.clone()),
            Answer::Index(i) => Answer::Index(*i),
        }
    }
}

/// A question with its answer.
#[derive(Debug, PartialEq)]
pub struct Fact {
    pub query: Query,
    pub answer: Answer,
}

/// The answers that a run of facts gives: to each question, the answer of
/// the last fact that holds it.
pub open spec fn answers_of(facts: Seq<Fact>) -> Map<QueryModel, AnswerModel>
    decreases facts.len(),
{
    if facts.len() == 0 {
        Map::empty()
    } else {
        answers_of(facts.drop_last()).insert(facts.last().query@, facts.last().answer@)
    }
}

/// What is known of the arithmetic of numbers: questions with their answers.
#[derive(Debug)]
pub struct Numerics {
    pub facts: Vec<Fact>,
}

impl View for Numerics {
    type V = Map<QueryModel, AnswerModel>;

    open spec fn view(&self) -> Map<QueryModel, AnswerModel> {
        answers_of(self.facts@)
    }
}

/// The number that a text writes, as far as `known` says: `Ok(Some(n))` for
/// the number, `Ok(None)` where the text writes none, and the question where
/// `known` holds no such answer to it.
pub open spec fn parsed(known: Map<QueryModel, AnswerModel>, text: Seq<char>) -> Result<
    Option<u64>,
    QueryModel,
> {
    let q = QueryModel::Parse(text);
    if known.contains_key(q) {
        match known[q] {
            AnswerModel::Number(n) => Ok(Some(n)),
            AnswerModel::NotNumber => Ok(None),
            _ => Err(q),
        }
    } else {
        Err(q)
    }
}

/// The text that writes a number, as far as `known` says.
pub open spec fn rendered(known: Map<QueryModel, AnswerModel>, n: u64) -> Result<
    Seq<char>,
    QueryModel,
> {
    let q = QueryModel::Render(n);
    if known.contains_key(q) {
        match known[q] {
            AnswerModel::Text(s) => Ok(s),
            _ => Err(q),
        }
    } else {
        Err(q)
    }
}

/// What a question whose answer is a number gives, as far as `known` says.
pub open spec fn number_for(known: Map<QueryModel, AnswerModel>, q: QueryModel) -> Result<
    u64,
    QueryModel,
> {
    if known.contains_key(q) {
        match known[q] {
            AnswerModel::Number(n) => Ok(n),
            _ => Err(q),
        }
    } else {
        Err(q)
    }
}

/// What an operation gives on two numbers, as far as `known` says.
pub open spec fn computed(
    known: Map<QueryModel, AnswerModel>,
    op: Operation,
    a: u64,
    b: u64,
) -> Result<u64, QueryModel> {
    number_for(known, QueryModel::Compute(op, a, b))
}

/// The number nearest to an index, as far as `known` says.
pub open spec fn index_number(known: Map<QueryModel, AnswerModel>, i: usize) -> Result<
    u64,
    QueryModel,
> {
    number_for(known, QueryModel::FromIndex(i))
}

/// The index at or above a number, as far as `known` says.
pub open spec fn ceil_index(known: Map<QueryModel, AnswerModel>, n: u64) -> Result<
    usize,
    QueryModel,
> {
    let q = QueryModel::CeilIndex(n);
    if known.contains_key(q) {
        match known[q] {
            AnswerModel::Index(i) => Ok(i),
            _ => Err(q),
        }
    } else {
        Err(q)
    }
}

impl Numerics {
    /// Nothing known.
    pub fn new() -> (r: Numerics)
        ensures
            r@ == Map::<QueryModel, AnswerModel>::empty(),
    {
        Numerics { facts: Vec::new() }
    }

    /// Adds a fact. It replaces what was known of the same question.
    pub fn learn(&mut self, query: Query, answer: Answer)
        ensures
            final(self)@ == old(self)@.insert(query@, answer@),
    {
        let ghost before = self.facts@;
        self.facts.push(Fact { query, answer });
        assert(self.facts@.drop_last() == before);
    }

    /// The answer that is known to a question.
    pub fn answer(&self, query: &Query) -> (r: Option<Answer>)
        ensures
            match r {
                Some(a) => self@.contains_key(query@) && self@[query@] == a@,
                None => !self@.contains_key(query@),
            },
    {
        let mut i: usize = self.facts.len();
        assert(self.facts@.take(i as int) == self.facts@);
        while i > 0
            invariant
                i <= self.facts.len(),
                self@.contains_key(query@) == answers_of(self.facts@.take(i as int)).contains_key(
                    query@,
                ),
                self@.contains_key(query@) ==> self@[query@] == answers_of(
                    self.facts@.take(i as int),
                )[query@],
            decreases i,
        {
            i -= 1;
            assert(self.facts@.take(i + 1).drop_last() == self.facts@.take(i as int));
            if self.facts[i].query.same(query) {
                return Some(self.facts[i].answer.copy());
            }
        }
        None
    }

    /// The number that a text writes, as far as it is known.
    pub fn parsed(&self, text: &str) -> (r: Result<Option<u64>, Query>)
        ensures
            match r {
                Ok(n) => parsed(self@, text@) == Ok::<Option<u64>, QueryModel>(n),
                Err(q) => parsed(self@, text@) == Err::<Option<u64>, QueryModel>(q@),
            },
    {
        let q = Query::Parse(text.to_owned());
        match self.answer(&q) {
            Some(Answer::Number(n)) => Ok(Some(n)),
            Some(Answer::NotNumber) => Ok(None),
            _ => Err(q),
        }
    }

    /// The text that writes a number, as far as it is known.
    pub fn rendered(&self, n: u64) -> (r: Result<String, Query>)
        ensures
            match r {
                Ok(s) => rendered(self@, n) == Ok::<Seq<char>, QueryModel>(s@),
                Err(q) => rendered(self@, n) == Err::<Seq<char>, QueryModel>(q@),
            },
    {
        let q = Query::Render(n);
        match self.answer(&q) {
            Some(Answer::Text(s)) => Ok(s),
            _ => Err(q),
        }
    }

    /// What an operation gives on two numbers, as far as it is known.
    pub fn computed(&self, op: Operation, a: u64, b: u64) -> (r: Result<u64, Query>)
        ensures
            match r {
                Ok(n) => computed(self@, op, a, b) == Ok::<u64, QueryModel>(n),
                Err(q) => computed(self@, op, a, b) == Err::<u64, QueryModel>(q@),
            },
    {
        let q = Query::Compute(op, a, b);
        match self.answer(&q) {
            Some(Answer::Number(n)) => Ok(n),
            _ => Err(q),
        }
    }

    /// The number nearest to an index, as far as it is known.
    pub fn index_number(&self, i: usize) -> (r: Result<u64, Query>)
        ensures
            match r {
                Ok(n) => index_number(self@, i) == Ok::<u64, QueryModel>(n),
                Err(q) => index_number(self@, i) == Err::<u64, QueryModel>(q@),
            },
    {
        let q = Query::FromIndex(i);
        match self.answer(&q) {
            Some(Answer::Number(n)) => Ok(n),
            _ => Err(q),
        }
    }

    /// The index at or above a number, as far as it is known.
    pub fn ceil_index(&self, n: u64) -> (r: Result<usize, Query>)
        ensures
            match r {
                Ok(i) => ceil_index(self@, n) == Ok::<usize, QueryModel>(i),
                Err(q) => ceil_index(self@, n) == Err::<usize, QueryModel>(q@),
            },
    {
        let q = Query::CeilIndex(n);
        match self.answer(&q) {
            Some(Answer::Index(i)) => Ok(i),
            _ => Err(q),
        }
    }
}

} // verus!
