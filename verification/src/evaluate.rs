//! Evaluation of an arithmetic text.
//!
//! Blanks do not count. The group that starts at the last `(` and ends at the
//! first `)` behind it is evaluated first and its value written in its place.
//! A text without such a group splits at its last `+`; without one, at its
//! last `-`; then at its last `*`; then at its last `/`. Both sides are
//! evaluated and combined. A text without any of these is a number, which is
//! written out in normal form, or stays as it is.
//!
//! A `-` that is the first character, or stands directly behind `*` or `/`,
//! is the sign of the number that follows, and no place to split: `3*-2`
//! splits at the `*`, and so does `2*(3-7)` once the group has become `-4`.
//! A `+` is never a sign.
//!
//! So `*` and `/` bind tighter than `+` and `-`, and a chain of one operator
//! groups from the left: `10-3-2` is `(10-3)-2`.

use vstd::prelude::*;
use crate::error::{ExprError, ExprErrorView};
use crate::numeric::{
    answer_to,
    extends,
    Answer,
    AnswerView,
    Answers,
    ArithOp,
    Book,
    Progress,
    Request,
    RequestView,
    Step,
};
use crate::text::{
    append_chars,
    chars_of,
    copy_range,
    find_from,
    find_last,
    first_index_from,
    has_char,
    last_index,
    lemma_first_index_from,
    lemma_last_index,
    remove_char,
    text_of,
    without,
};

verus! {

/// Number of characters of `s` equal to `c`.
pub open spec fn count_of(s: Seq<char>, c: char) -> nat
    decreases s.len(),
{
    if s.len() == 0 {
        0
    } else if s.last() == c {
        1 + count_of(s.drop_last(), c)
    } else {
        count_of(s.drop_last(), c)
    }
}

pub proof fn lemma_count_concat(a: Seq<char>, b: Seq<char>, c: char)
    ensures
        count_of(a + b, c) == count_of(a, c) + count_of(b, c),
    decreases b.len(),
{
    if b.len() == 0 {
        assert(a + b =~= a);
    } else {
        lemma_count_concat(a, b.drop_last(), c);
        assert((a + b).drop_last() =~= a + b.drop_last());
        assert((a + b).last() == b.last());
    }
}

pub proof fn lemma_count_none(s: Seq<char>, c: char)
    requires
        !s.contains(c),
    ensures
        count_of(s, c) == 0,
    decreases s.len(),
{
    if s.len() > 0 {
        assert(s.last() == s[s.len() - 1]);
        assert forall|i: int| 0 <= i < s.len() - 1 implies s.drop_last()[i] != c by {
            assert(s.drop_last()[i] == s[i]);
        }
        lemma_count_none(s.drop_last(), c);
    }
}

pub proof fn lemma_count_range(s: Seq<char>, from: int, to: int, c: char)
    requires
        0 <= from <= to <= s.len(),
    ensures
        count_of(s.subrange(from, to), c) <= count_of(s, c),
{
    let a = s.subrange(0, from);
    let m = s.subrange(from, to);
    let b = s.subrange(to, s.len() as int);
    assert(s =~= (a + m) + b);
    lemma_count_concat(a + m, b, c);
    lemma_count_concat(a, m, c);
}

pub proof fn lemma_count_without(s: Seq<char>, gone: char, c: char)
    requires
        gone != c,
    ensures
        count_of(without(s, gone), c) == count_of(s, c),
        without(s, gone).len() <= s.len(),
    decreases s.len(),
{
    if s.len() > 0 {
        lemma_count_without(s.drop_last(), gone, c);
        if s.last() != gone {
            assert(without(s, gone).drop_last() =~= without(s.drop_last(), gone));
        }
    }
}

/// The group to evaluate first: the index of the last `(` and that of the
/// first `)` behind it.
pub open spec fn inner_group(e: Seq<char>) -> Option<(int, int)> {
    match last_index(e, '(') {
        Some(start) => match first_index_from(e, ')', start) {
            Some(end) => Some((start, end)),
            None => None,
        },
        None => None,
    }
}

/// Whether the character at index `p` is a sign: a `-` at the start of the
/// text, or directly behind `*` or `/`.
pub open spec fn is_sign_at(e: Seq<char>, p: int) -> bool {
    e[p] == '-' && (p == 0 || e[p - 1] == '*' || e[p - 1] == '/')
}

/// Index of the last `c` in front of index `upto` that is an operator and
/// no sign.
pub open spec fn last_operator(e: Seq<char>, c: char, upto: int) -> Option<int>
    decreases upto,
{
    if upto <= 0 || upto > e.len() {
        None
    } else if e[upto - 1] == c && !is_sign_at(e, upto - 1) {
        Some(upto - 1)
    } else {
        last_operator(e, c, upto - 1)
    }
}

pub proof fn lemma_last_operator(e: Seq<char>, c: char, upto: int)
    requires
        0 <= upto <= e.len(),
    ensures
        match last_operator(e, c, upto) {
            Some(p) => 0 <= p < upto && e[p] == c && !is_sign_at(e, p) && forall|q: int|
                p < q < upto ==> !(e[q] == c && !is_sign_at(e, q)),
            None => forall|q: int| 0 <= q < upto ==> !(e[q] == c && !is_sign_at(e, q)),
        },
    decreases upto,
{
    if upto > 0 && !(e[upto - 1] == c && !is_sign_at(e, upto - 1)) {
        lemma_last_operator(e, c, upto - 1);
    }
}

/// Where a text without a group splits, and by which operator.
pub open spec fn split_point(e: Seq<char>) -> Option<(int, ArithOp)> {
    match last_operator(e, '+', e.len() as int) {
        Some(p) => Some((p, ArithOp::Add)),
        None => match last_operator(e, '-', e.len() as int) {
            Some(p) => Some((p, ArithOp::Subtract)),
            None => match last_index(e, '*') {
                Some(p) => Some((p, ArithOp::Multiply)),
                None => match last_index(e, '/') {
                    Some(p) => Some((p, ArithOp::Divide)),
                    None => None,
                },
            },
        },
    }
}

/// The value of a text without group or operator: its normal form where the
/// book says that it is a number, else the text itself.
pub open spec fn normalized(book: Book, e: Seq<char>) -> Progress<Seq<char>> {
    match answer_to(book, RequestView::Normalize(e)) {
        None => Progress::Ask(RequestView::Normalize(e)),
        Some(AnswerView::Text(t)) => Progress::Done(t),
        Some(_) => Progress::Done(e),
    }
}

/// The value of two operands under an operator, as the book has it.
pub open spec fn combined(book: Book, op: ArithOp, left: Seq<char>, right: Seq<char>) -> Progress<
    Seq<char>,
> {
    match answer_to(book, RequestView::Combine(op, left, right)) {
        None => Progress::Ask(RequestView::Combine(op, left, right)),
        Some(AnswerView::Text(t)) => Progress::Done(t),
        Some(AnswerView::DivisionByZero) => Progress::Failed(ExprErrorView::DivisionByZero),
        Some(AnswerView::NotNumber) => Progress::Failed(ExprErrorView::InvalidNumber),
    }
}

/// `e` with the characters from `start` to `end`, both included, replaced by `r`.
pub open spec fn spliced(e: Seq<char>, start: int, end: int, r: Seq<char>) -> Seq<char> {
    e.subrange(0, start) + r + e.subrange(end + 1, e.len() as int)
}

pub proof fn lemma_inner_group(e: Seq<char>)
    ensures
        match inner_group(e) {
            Some((start, end)) => {
                &&& 0 <= start < end < e.len()
                &&& e[start] == '('
                &&& e[end] == ')'
                &&& !e.subrange(start + 1, e.len() as int).contains('(')
            },
            None => true,
        },
{
    lemma_last_index(e, '(');
    match last_index(e, '(') {
        Some(start) => {
            lemma_first_index_from(e, ')', start);
            let tail = e.subrange(start + 1, e.len() as int);
            assert forall|i: int| 0 <= i < tail.len() implies tail[i] != '(' by {
                assert(tail[i] == e[start + 1 + i]);
            }
        },
        None => {},
    }
}

/// Writing a value without `(` in the place of the group leaves fewer `(`.
pub proof fn lemma_splice_shrinks(e: Seq<char>, start: int, end: int, r: Seq<char>)
    requires
        inner_group(e) == Some((start, end)),
        !r.contains('('),
    ensures
        count_of(without(spliced(e, start, end, r), ' '), '(') < count_of(e, '('),
{
    lemma_inner_group(e);
    let prefix = e.subrange(0, start);
    let suffix = e.subrange(end + 1, e.len() as int);
    let tail = e.subrange(start + 1, e.len() as int);
    assert forall|i: int| 0 <= i < suffix.len() implies suffix[i] != '(' by {
        assert(suffix[i] == tail[end - start + i]);
    }
    lemma_count_none(suffix, '(');
    lemma_count_none(r, '(');
    lemma_count_concat(prefix + r, suffix, '(');
    lemma_count_concat(prefix, r, '(');
    lemma_count_without(spliced(e, start, end, r), ' ', '(');
    let open = e.subrange(start, start + 1);
    assert(e =~= (prefix + open) + tail);
    lemma_count_concat(prefix + open, tail, '(');
    lemma_count_concat(prefix, open, '(');
    assert(open.last() == '(');
    assert(count_of(open, '(') >= 1);
}

/// The value of a text without blanks.
pub open spec fn value_of(book: Book, e: Seq<char>) -> Progress<Seq<char>>
    decreases count_of(e, '('), e.len(),
{
    match inner_group(e) {
        Some((start, end)) => {
            proof {
                lemma_inner_group(e);
                lemma_count_range(e, start + 1, end, '(');
            }
            match value_of(book, e.subrange(start + 1, end)) {
                Progress::Done(r) => if r.contains('(') {
                    Progress::Failed(ExprErrorView::InvalidNumber)
                } else {
                    proof {
                        lemma_splice_shrinks(e, start, end, r);
                    }
                    value_of(book, without(spliced(e, start, end, r), ' '))
                },
                other => other,
            }
        },
        None => match split_point(e) {
            Some((pos, op)) => {
                proof {
                    lemma_split_point(e);
                    lemma_count_range(e, 0, pos, '(');
                    lemma_count_range(e, pos + 1, e.len() as int, '(');
                }
                match value_of(book, e.subrange(0, pos)) {
                    Progress::Done(left) => match value_of(
                        book,
                        e.subrange(pos + 1, e.len() as int),
                    ) {
                        Progress::Done(right) => combined(book, op, left, right),
                        other => other,
                    },
                    other => other,
                }
            },
            None => normalized(book, e),
        },
    }
}

pub proof fn lemma_split_point(e: Seq<char>)
    ensures
        match split_point(e) {
            Some((pos, op)) => 0 <= pos < e.len(),
            None => true,
        },
{
    lemma_last_index(e, '*');
    lemma_last_index(e, '/');
    lemma_last_operator(e, '+', e.len() as int);
    lemma_last_operator(e, '-', e.len() as int);
}

/// The value of an arithmetic text, as far as the answers in the book reach.
pub open spec fn evaluated(book: Book, expr: Seq<char>) -> Progress<Seq<char>> {
    value_of(book, without(expr, ' '))
}

fn find_operator(e: &Vec<char>, c: char) -> (r: Option<usize>)
    ensures
        match r {
            Some(p) => last_operator(e@, c, e@.len() as int) == Some(p as int) && p < e.len(),
            None => last_operator(e@, c, e@.len() as int) is None,
        },
{
    let mut i: usize = e.len();
    while i > 0
        invariant
            i <= e.len(),
            last_operator(e@, c, e@.len() as int) == last_operator(e@, c, i as int),
        decreases i,
    {
        let p = i - 1;
        let sign = e[p] == '-' && (p == 0 || e[p - 1] == '*' || e[p - 1] == '/');
        if e[p] == c && !sign {
            return Some(p);
        }
        i -= 1;
    }
    None
}

fn find_split(e: &Vec<char>) -> (r: Option<(usize, ArithOp)>)
    ensures
        match r {
            Some((pos, op)) => split_point(e@) == Some((pos as int, op)) && pos < e.len(),
            None => split_point(e@) is None,
        },
{
    proof {
        lemma_split_point(e@);
    }
    if let Some(p) = find_operator(e, '+') {
        return Some((p, ArithOp::Add));
    }
    if let Some(p) = find_operator(e, '-') {
        return Some((p, ArithOp::Subtract));
    }
    if let Some(p) = find_last(e, '*') {
        return Some((p, ArithOp::Multiply));
    }
    if let Some(p) = find_last(e, '/') {
        return Some((p, ArithOp::Divide));
    }
    None
}

fn find_group(e: &Vec<char>) -> (r: Option<(usize, usize)>)
    ensures
        match r {
            Some((start, end)) => inner_group(e@) == Some((start as int, end as int)) && start
                < end < e.len(),
            None => inner_group(e@) is None,
        },
{
    proof {
        lemma_inner_group(e@);
    }
    match find_last(e, '(') {
        Some(start) => match find_from(e, ')', start) {
            Some(end) => Some((start, end)),
            None => None,
        },
        None => None,
    }
}

fn normalize(book: &Answers, e: &Vec<char>) -> (r: Step<Vec<char>>)
    ensures
        r@ == normalized(book@, e@),
{
    let request = Request::Normalize(text_of(e));
    match book.lookup(&request) {
        None => Step::Ask(request),
        Some(Answer::Text(t)) => Step::Done(chars_of(t.as_str())),
        Some(_) => {
            let same = copy_range(e, 0, e.len());
            proof {
                assert(same@ =~= e@);
            }
            Step::Done(same)
        },
    }
}

fn combine(book: &Answers, op: ArithOp, left: &Vec<char>, right: &Vec<char>) -> (r: Step<
    Vec<char>,
>)
    ensures
        r@ == combined(book@, op, left@, right@),
{
    let request = Request::Combine(op, text_of(left), text_of(right));
    match book.lookup(&request) {
        None => Step::Ask(request),
        Some(Answer::Text(t)) => Step::Done(chars_of(t.as_str())),
        Some(Answer::DivisionByZero) => Step::Failed(ExprError::DivisionByZero),
        Some(Answer::NotNumber) => Step::Failed(ExprError::InvalidNumber),
    }
}

/// The value of a text without blanks.
pub fn evaluate_chars(e: &Vec<char>, book: &Answers) -> (r: Step<Vec<char>>)
    ensures
        r@ == value_of(book@, e@),
    decreases count_of(e@, '('), e@.len(),
{
    match find_group(e) {
        Some((start, end)) => {
            proof {
                lemma_inner_group(e@);
                lemma_count_range(e@, start + 1, end as int, '(');
            }
            let inner = copy_range(e, start + 1, end);
            match evaluate_chars(&inner, book) {
                Step::Done(r) => {
                    if has_char(&r, '(') {
                        Step::Failed(ExprError::InvalidNumber)
                    } else {
                        let mut next = copy_range(e, 0, start);
                        append_chars(&mut next, &r);
                        let suffix = copy_range(e, end + 1, e.len());
                        append_chars(&mut next, &suffix);
                        let next = remove_char(&next, ' ');
                        proof {
                            lemma_splice_shrinks(e@, start as int, end as int, r@);
                        }
                        evaluate_chars(&next, book)
                    }
                },
                Step::Failed(err) => Step::Failed(err),
                Step::Ask(q) => Step::Ask(q),
            }
        },
        None => match find_split(e) {
            Some((pos, op)) => {
                proof {
                    lemma_count_range(e@, 0, pos as int, '(');
                    lemma_count_range(e@, pos + 1, e@.len() as int, '(');
                }
                let left_text = copy_range(e, 0, pos);
                let right_text = copy_range(e, pos + 1, e.len());
                match evaluate_chars(&left_text, book) {
                    Step::Done(left) => match evaluate_chars(&right_text, book) {
                        Step::Done(right) => combine(book, op, &left, &right),
                        Step::Failed(err) => Step::Failed(err),
                        Step::Ask(q) => Step::Ask(q),
                    },
                    Step::Failed(err) => Step::Failed(err),
                    Step::Ask(q) => Step::Ask(q),
                }
            },
            None => normalize(book, e),
        },
    }
}

/// The value of an arithmetic text: `Done` with the value or `Failed` with the
/// error when the book answers every request on the way, else `Ask` with the
/// first request that it does not answer.
pub fn evaluate(expr: &str, book: &Answers) -> (r: Step<String>)
    ensures
        r@ == evaluated(book@, expr@),
{
    let v = chars_of(expr);
    let e = remove_char(&v, ' ');
    match evaluate_chars(&e, book) {
        Step::Done(t) => Step::Done(text_of(&t)),
        Step::Failed(err) => Step::Failed(err),
        Step::Ask(q) => Step::Ask(q),
    }
}

/// A value that was found stays the same when the book gets more answers.
pub proof fn lemma_value_stable(book: Book, later: Book, e: Seq<char>)
    requires
        extends(book, later),
        !(value_of(book, e) is Ask),
    ensures
        value_of(later, e) == value_of(book, e),
    decreases count_of(e, '('), e.len(),
{
    match inner_group(e) {
        Some((start, end)) => {
            lemma_inner_group(e);
            lemma_count_range(e, start + 1, end, '(');
            lemma_value_stable(book, later, e.subrange(start + 1, end));
            match value_of(book, e.subrange(start + 1, end)) {
                Progress::Done(r) => {
                    if !r.contains('(') {
                        lemma_splice_shrinks(e, start, end, r);
                        lemma_value_stable(book, later, without(spliced(e, start, end, r), ' '));
                    }
                },
                _ => {},
            }
        },
        None => match split_point(e) {
            Some((pos, op)) => {
                lemma_split_point(e);
                lemma_count_range(e, 0, pos, '(');
                lemma_count_range(e, pos + 1, e.len() as int, '(');
                lemma_value_stable(book, later, e.subrange(0, pos));
                match value_of(book, e.subrange(0, pos)) {
                    Progress::Done(left) => {
                        lemma_value_stable(book, later, e.subrange(pos + 1, e.len() as int));
                        match value_of(book, e.subrange(pos + 1, e.len() as int)) {
                            Progress::Done(right) => {
                                assert(answer_to(book, RequestView::Combine(op, left, right))
                                    is Some);
                            },
                            _ => {},
                        }
                    },
                    _ => {},
                }
            },
            None => {
                assert(answer_to(book, RequestView::Normalize(e)) is Some);
            },
        },
    }
}

/// The request that an evaluation stops at is one that the book does not answer.
pub proof fn lemma_value_asks_open(book: Book, e: Seq<char>)
    ensures
        value_of(book, e) matches Progress::Ask(q) ==> answer_to(book, q) is None,
    decreases count_of(e, '('), e.len(),
{
    match inner_group(e) {
        Some((start, end)) => {
            lemma_inner_group(e);
            lemma_count_range(e, start + 1, end, '(');
            lemma_value_asks_open(book, e.subrange(start + 1, end));
            match value_of(book, e.subrange(start + 1, end)) {
                Progress::Done(r) => {
                    if !r.contains('(') {
                        lemma_splice_shrinks(e, start, end, r);
                        lemma_value_asks_open(book, without(spliced(e, start, end, r), ' '));
                    }
                },
                _ => {},
            }
        },
        None => match split_point(e) {
            Some((pos, op)) => {
                lemma_split_point(e);
                lemma_count_range(e, 0, pos, '(');
                lemma_count_range(e, pos + 1, e.len() as int, '(');
                lemma_value_asks_open(book, e.subrange(0, pos));
                lemma_value_asks_open(book, e.subrange(pos + 1, e.len() as int));
            },
            None => {},
        },
    }
}

} // verus!
