//! The numeric work that the expression engine hands out, and the answers it
//! is given.
//!
//! The engine decides where an expression splits and which cells an
//! aggregate covers. The arithmetic on the numbers themselves is done by the
//! caller: the engine names each piece of it as a [`Request`], and the caller
//! records the [`Answer`] in an [`Answers`] book and runs the engine again.
//! A run with the same book always takes the same path, so each run gets one
//! request further until none is open.

use vstd::prelude::*;
use crate::error::{ExprError, ExprErrorView};

verus! {

#[derive(Clone, Copy, Debug, PartialEq, Eq, Structural)]
pub enum ArithOp {
    Multiply,
    Divide,
    Add,
    Subtract,
}

#[derive(Clone, Copy, Debug, PartialEq, Eq, Structural)]
pub enum AggregateFn {
    Sum,
    Mean,
    Min,
    Max,
}

/// One piece of numeric work.
#[derive(Clone, Debug)]
pub enum Request {
    /// Read the text as a number and write it out again: without decimals
    /// when it has no fractional part, else with two. `NotNumber` when the
    /// text is no number.
    Normalize(String),
    /// Read both texts as numbers, apply the operator and write the result
    /// out as for `Normalize`. `NotNumber` when a text is no number,
    /// `DivisionByZero` when the divisor is zero.
    Combine(ArithOp, String, String),
    /// Read the text of a cell as a number, zero when it is none, and write
    /// it out in the shortest form that reads back as the same number.
    CellValue(String),
    /// Reduce the numbers of the texts, of which there is at least one, and
    /// write the result out as for `Normalize`.
    Aggregate(AggregateFn, Vec<String>),
}

pub enum RequestView {
    Normalize(Seq<char>),
    Combine(ArithOp, Seq<char>, Seq<char>),
    CellValue(Seq<char>),
    Aggregate(AggregateFn, Seq<Seq<char>>),
}

impl View for Request {
    type V = RequestView;

    open spec fn view(&self) -> RequestView {
        match self {
            Request::Normalize(t) => RequestView::Normalize(t@),
            Request::Combine(op, a, b) => RequestView::Combine(*op, a@, b@),
            Request::CellValue(t) => RequestView::CellValue(t@),
            Request::Aggregate(f, cells) => RequestView::Aggregate(*f, cells.deep_view()),
        }
    }
}

/// What the caller found for a request.
#[derive(Clone, Debug)]
pub enum Answer {
    Text(String),
    NotNumber,
    DivisionByZero,
}

pub enum AnswerView {
    Text(Seq<char>),
    NotNumber,
    DivisionByZero,
}

impl View for Answer {
    type V = AnswerView;

    open spec fn view(&self) -> AnswerView {
        match self {
            Answer::Text(t) => AnswerView::Text(t@),
            Answer::NotNumber => AnswerView::NotNumber,
            Answer::DivisionByZero => AnswerView::DivisionByZero,
        }
    }
}

/// How far a run of the engine got.
#[derive(Debug)]
pub enum Step<T> {
    /// The run is complete.
    Done(T),
    /// The run ended in an error.
    Failed(ExprError),
    /// The run needs the answer to this request, which the book lacks.
    Ask(Request),
}

pub enum Progress<T> {
    Done(T),
    Failed(ExprErrorView),
    Ask(RequestView),
}

impl<T: View> View for Step<T> {
    type V = Progress<T::V>;

    open spec fn view(&self) -> Progress<T::V> {
        match self {
            Step::Done(t) => Progress::Done(t@),
            Step::Failed(e) => Progress::Failed(e@),
            Step::Ask(q) => Progress::Ask(q@),
        }
    }
}

/// The answers recorded so far, oldest first.
pub type Book = Seq<(RequestView, AnswerView)>;

/// The oldest answer that the book holds for `q`.
pub open spec fn answer_to(book: Book, q: RequestView) -> Option<AnswerView>
    decreases book.len(),
{
    if book.len() == 0 {
        None
    } else if book[0].0 == q {
        Some(book[0].1)
    } else {
        answer_to(book.drop_first(), q)
    }
}

pub struct Answers {
    entries: Vec<(Request, Answer)>,
}

impl View for Answers {
    type V = Book;

    closed spec fn view(&self) -> Book {
        Seq::new(self.entries@.len(), |i: int| (self.entries@[i].0@, self.entries@[i].1@))
    }
}

fn same_texts(a: &Vec<String>, b: &Vec<String>) -> (r: bool)
    ensures
        r == (a.deep_view() == b.deep_view()),
{
    if a.len() != b.len() {
        proof {
            assert(a.deep_view().len() != b.deep_view().len());
        }
        return false;
    }
    let mut i: usize = 0;
    while i < a.len()
        invariant
            i <= a.len(),
            a.len() == b.len(),
            forall|k: int| 0 <= k < i ==> a[k]@ == b[k]@,
        decreases a.len() - i,
    {
        if a[i] != b[i] {
            proof {
                assert(a.deep_view()[i as int] == a[i as int]@);
                assert(b.deep_view()[i as int] == b[i as int]@);
            }
            return false;
        }
        i += 1;
    }
    proof {
        assert(a.deep_view() =~= b.deep_view());
    }
    true
}

fn same_op(a: ArithOp, b: ArithOp) -> (r: bool)
    ensures
        r == (a == b),
{
    match (a, b) {
        (ArithOp::Multiply, ArithOp::Multiply) => true,
        (ArithOp::Divide, ArithOp::Divide) => true,
        (ArithOp::Add, ArithOp::Add) => true,
        (ArithOp::Subtract, ArithOp::Subtract) => true,
        _ => false,
    }
}

fn same_fn(a: AggregateFn, b: AggregateFn) -> (r: bool)
    ensures
        r == (a == b),
{
    match (a, b) {
        (AggregateFn::Sum, AggregateFn::Sum) => true,
        (AggregateFn::Mean, AggregateFn::Mean) => true,
        (AggregateFn::Min, AggregateFn::Min) => true,
        (AggregateFn::Max, AggregateFn::Max) => true,
        _ => false,
    }
}

impl Request {
    /// Whether two requests ask for the same work.
    pub fn same_as(&self, other: &Request) -> (r: bool)
        ensures
            r == (self@ == other@),
    {
        match (self, other) {
            (Request::Normalize(a), Request::Normalize(b)) => *a == *b,
            (Request::Combine(o1, a1, b1), Request::Combine(o2, a2, b2)) => same_op(*o1, *o2)
                && *a1 == *a2 && *b1 == *b2,
            (Request::CellValue(a), Request::CellValue(b)) => *a == *b,
            (Request::Aggregate(f1, c1), Request::Aggregate(f2, c2)) => same_fn(*f1, *f2)
                && same_texts(c1, c2),
            _ => false,
        }
    }
}

impl Answer {
    pub fn duplicate(&self) -> (r: Answer)
        ensures
            r@ == self@,
    {
        match self {
            Answer::Text(t) => Answer::Text(t.clone()),
            Answer::NotNumber => Answer::NotNumber,
            Answer::DivisionByZero => Answer::DivisionByZero,
        }
    }
}

impl Answers {
    /// A book without answers.
    pub fn new() -> (r: Answers)
        ensures
            r@ == Seq::<(RequestView, AnswerView)>::empty(),
    {
        let r = Answers { entries: Vec::new() };
        proof {
            assert(r@ =~= Seq::<(RequestView, AnswerView)>::empty());
        }
        r
    }

    /// Number of answers in the book.
    pub fn len(&self) -> (n: usize)
        ensures
            n == self@.len(),
    {
        self.entries.len()
    }

    /// Adds an answer at the end of the book. Where the book has an answer to
    /// the same request already, that older one stays the one in force.
    pub fn record(&mut self, request: Request, answer: Answer)
        ensures
            final(self)@ == old(self)@.push((request@, answer@)),
    {
        self.entries.push((request, answer));
        proof {
            assert(self@ =~= old(self)@.push((request@, answer@)));
        }
    }

    /// The answer in force for `request`, if the book has one.
    pub fn lookup(&self, request: &Request) -> (r: Option<Answer>)
        ensures
            match r {
                Some(a) => answer_to(self@, request@) == Some(a@),
                None => answer_to(self@, request@) is None,
            },
    {
        let mut i: usize = 0;
        proof {
            assert(self@.subrange(0, self@.len() as int) =~= self@);
        }
        while i < self.entries.len()
            invariant
                i <= self.entries.len(),
                answer_to(self@, request@) == answer_to(
                    self@.subrange(i as int, self@.len() as int),
                    request@,
                ),
            decreases self.entries.len() - i,
        {
            let ghost rest = self@.subrange(i as int, self@.len() as int);
            proof {
                assert(rest[0] == self@[i as int]);
                assert(rest.drop_first() =~= self@.subrange(i + 1, self@.len() as int));
            }
            if self.entries[i].0.same_as(request) {
                return Some(self.entries[i].1.duplicate());
            }
            i += 1;
        }
        None
    }
}

/// An answer that the book has stays in force when more are recorded.
pub proof fn lemma_answer_kept(book: Book, q: RequestView, more: (RequestView, AnswerView))
    requires
        answer_to(book, q) is Some,
    ensures
        answer_to(book.push(more), q) == answer_to(book, q),
    decreases book.len(),
{
    if book[0].0 != q {
        lemma_answer_kept(book.drop_first(), q, more);
        assert(book.push(more).drop_first() =~= book.drop_first().push(more));
    }
}

/// An answer recorded for a request that the book lacked is in force afterwards.
pub proof fn lemma_answer_recorded(book: Book, q: RequestView, a: AnswerView)
    requires
        answer_to(book, q) is None,
    ensures
        answer_to(book.push((q, a)), q) == Some(a),
    decreases book.len(),
{
    if book.len() > 0 {
        lemma_answer_recorded(book.drop_first(), q, a);
        assert(book.push((q, a)).drop_first() =~= book.drop_first().push((q, a)));
    }
}

/// Every answer that is in force in `book` is in force in `later`.
pub open spec fn extends(book: Book, later: Book) -> bool {
    forall|q: RequestView| #[trigger]
        answer_to(book, q) is Some ==> answer_to(later, q) == answer_to(book, q)
}

/// Recording an answer keeps all answers in force.
pub proof fn lemma_record_extends(book: Book, more: (RequestView, AnswerView))
    ensures
        extends(book, book.push(more)),
{
    assert forall|q: RequestView| #[trigger] answer_to(book, q) is Some implies answer_to(
        book.push(more),
        q,
    ) == answer_to(book, q) by {
        lemma_answer_kept(book, q, more);
    }
}

} // verus!
