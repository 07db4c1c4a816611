//! Definitions of computed columns.
//!
//! A definition is an expression, or a name, `=` and an expression. The
//! expression is a call of one aggregate function on one column, an
//! arithmetic text over column names, numbers and aggregate calls, a number,
//! or a column name. Each column that it names has to be in the page.

use vstd::prelude::*;
use crate::database::{lemma_index_of_text, position_of};
use crate::error::{ExprError, ExprErrorView};
use crate::number::{is_number, is_number_chars};
use crate::text::{
    alphanumeric,
    occurs_at,
    append_chars,
    chars_of,
    copy_range,
    find_from,
    first_index_from,
    has_char,
    is_alphanumeric,
    is_digit,
    lemma_first_index_from,
    lemma_text_order,
    order_of,
    text_before,
    text_of,
    texts,
    trim_chars,
    trimmed,
    Rank,
};

verus! {

#[derive(Debug, Clone, PartialEq)]
pub enum ComputedColumnType {
    /// One value for the whole page: the name of the function.
    Aggregate(String),
    /// One value per row: the columns that the expression names.
    RowOperation(Vec<String>),
    /// One value per row from the row's cells and from aggregates over the
    /// page: the columns that the expression names, and its aggregate calls.
    MixedOperation(Vec<String>, Vec<String>),
}

#[derive(Debug, Clone)]
pub struct ComputedColumn {
    pub name: String,
    pub expression: String,
    pub column_type: ComputedColumnType,
}

pub enum ColumnTypeView {
    Aggregate(Seq<char>),
    RowOperation(Seq<Seq<char>>),
    MixedOperation(Seq<Seq<char>>, Seq<Seq<char>>),
}

pub struct ColumnView {
    pub name: Seq<char>,
    pub expression: Seq<char>,
    pub column_type: ColumnTypeView,
}

impl View for ComputedColumnType {
    type V = ColumnTypeView;

    open spec fn view(&self) -> ColumnTypeView {
        match self {
            ComputedColumnType::Aggregate(f) => ColumnTypeView::Aggregate(f@),
            ComputedColumnType::RowOperation(c) => ColumnTypeView::RowOperation(c.deep_view()),
            ComputedColumnType::MixedOperation(c, a) => ColumnTypeView::MixedOperation(
                c.deep_view(),
                a.deep_view(),
            ),
        }
    }
}

impl DeepView for ComputedColumnType {
    type V = ColumnTypeView;

    open spec fn deep_view(&self) -> ColumnTypeView {
        self@
    }
}

impl View for ComputedColumn {
    type V = ColumnView;

    open spec fn view(&self) -> ColumnView {
        ColumnView {
            name: self.name@,
            expression: self.expression@,
            column_type: self.column_type@,
        }
    }
}

impl DeepView for ComputedColumn {
    type V = ColumnView;

    open spec fn deep_view(&self) -> ColumnView {
        self@
    }
}

impl ComputedColumnType {
    pub fn duplicate(&self) -> (r: ComputedColumnType)
        ensures
            r@ == self@,
    {
        match self {
            ComputedColumnType::Aggregate(f) => ComputedColumnType::Aggregate(f.clone()),
            ComputedColumnType::RowOperation(c) => ComputedColumnType::RowOperation(
                crate::text::clone_texts(c),
            ),
            ComputedColumnType::MixedOperation(c, a) => ComputedColumnType::MixedOperation(
                crate::text::clone_texts(c),
                crate::text::clone_texts(a),
            ),
        }
    }
}

impl ComputedColumn {
    pub fn duplicate(&self) -> (r: ComputedColumn)
        ensures
            r@ == self@,
    {
        ComputedColumn {
            name: self.name.clone(),
            expression: self.expression.clone(),
            column_type: self.column_type.duplicate(),
        }
    }
}

/// `regex::Regex::new` and `Regex::captures`: the groups of the first match
/// of `pattern` in `text`, the whole match first; none where nothing matches
/// or `pattern` is no regular expression. Claimed of one pattern only, that
/// of a text that is one aggregate call (one of the five names, `(`, one or
/// more characters that are no `)`, and `)` at the end of the text): the
/// second and third group are the name and what stands in the brackets, and
/// there is no match where the text is not of that form.
#[verifier::external_body]
fn captures(pattern: &str, text: &str) -> (r: Option<Vec<Option<String>>>)
    ensures
        pattern@ == call_pattern() ==> parts_of(r.deep_view()) == call_parts(text@),
{
    match regex::Regex::new(pattern) {
        Ok(re) => match re.captures(text) {
            Some(c) => Some(c.iter().map(|m| m.map(|m| m.as_str().to_string())).collect()),
            None => None,
        },
        Err(_) => None,
    }
}

/// `regex::Regex::new` and `Regex::captures_iter`: the text of each match of
/// `pattern` in `text`, in order; none where `pattern` is no regular
/// expression. Claimed of one pattern only, that of an aggregate call inside
/// a text: the matches are those of `call_spans`. A match starts at the first
/// index at or behind the end of the match before it where one of the five
/// names and `(` stand, at least one character that is no `)` follows, and a
/// `)` comes; it ends with the first such `)`.
#[verifier::external_body]
fn matches(pattern: &str, text: &str) -> (r: Vec<String>)
    ensures
        pattern@ == span_pattern() ==> r.deep_view() == call_spans(text@),
{
    match regex::Regex::new(pattern) {
        Ok(re) => re.captures_iter(text).map(|c| c[0].to_string()).collect(),
        Err(_) => Vec::new(),
    }
}

/// The pattern of a text that is one aggregate call and nothing else.
pub open spec fn call_pattern() -> Seq<char> {
    "^(sum|mean|count|min|max)\\(([^)]+)\\)$"@
}

/// The pattern of an aggregate call inside a text.
pub open spec fn span_pattern() -> Seq<char> {
    "(sum|mean|count|min|max)\\([^)]+\\)"@
}

/// Function and argument out of the groups that the call pattern captured.
pub open spec fn parts_of(groups: Option<Seq<Option<Seq<char>>>>) -> Option<
    (Seq<char>, Seq<char>),
> {
    match groups {
        Some(g) => if g.len() == 3 && g[1] is Some && g[2] is Some {
            Some((g[1]->0, g[2]->0))
        } else {
            None
        },
        None => None,
    }
}

/// Function and argument of a text that is one aggregate call: the name of
/// one of the five functions, `(`, an argument of at least one character
/// without `)`, and `)` as the last character.
pub open spec fn call_parts(text: Seq<char>) -> Option<(Seq<char>, Seq<char>)> {
    match first_index_from(text, '(', 0) {
        Some(open) => {
            let func = text.subrange(0, open);
            let arg = text.subrange(open + 1, text.len() - 1);
            if is_function_name(func) && open + 3 <= text.len() && text.last() == ')'
                && !arg.contains(')') {
                Some((func, arg))
            } else {
                None
            }
        },
        None => None,
    }
}

/// The name of a function, `(`, an argument and `)` is a call of that
/// function with that argument, where the argument is not empty and has no
/// `)` in it: so `sum(Age)` is a call of `sum` with `Age`.
pub proof fn lemma_call_is_recognised(func: Seq<char>, arg: Seq<char>)
    requires
        is_function_name(func),
        arg.len() > 0,
        !arg.contains(')'),
    ensures
        call_parts(func + seq!['('] + arg + seq![')']) == Some((func, arg)),
{
    let text = func + seq!['('] + arg + seq![')'];
    let n = func.len() as int;
    lemma_first_index_from(text, '(', 0);
    assert(text[n] == '(');
    assert forall|j: int| 0 <= j < n implies text[j] != '(' by {
        assert(text[j] == func[j]);
        assert(seq!['s', 'u', 'm'].len() == 3 && seq!['m', 'i', 'n'].len() == 3 && seq![
            'm',
            'a',
            'x',
        ].len() == 3 && seq!['m', 'e', 'a', 'n'].len() == 4 && seq!['c', 'o', 'u', 'n', 't'].len()
            == 5);
    };
    match first_index_from(text, '(', 0) {
        Some(open) => {
            if open > n {
                assert(text[n] != '(');
            }
            if open < n {
                assert(text[open] != '(');
            }
            assert(open == n);
            assert(text.subrange(0, open) =~= func);
            assert(text.subrange(open + 1, text.len() - 1) =~= arg);
            assert(text.last() == ')');
        },
        None => {
            assert(text[n] != '(');
        },
    }
}

/// The function whose name and `(` stand in `s` at index `i`.
pub open spec fn function_at(s: Seq<char>, i: int) -> Option<Seq<char>> {
    if occurs_at(s, seq!['s', 'u', 'm', '('], i) {
        Some(seq!['s', 'u', 'm'])
    } else if occurs_at(s, seq!['m', 'e', 'a', 'n', '('], i) {
        Some(seq!['m', 'e', 'a', 'n'])
    } else if occurs_at(s, seq!['c', 'o', 'u', 'n', 't', '('], i) {
        Some(seq!['c', 'o', 'u', 'n', 't'])
    } else if occurs_at(s, seq!['m', 'i', 'n', '('], i) {
        Some(seq!['m', 'i', 'n'])
    } else if occurs_at(s, seq!['m', 'a', 'x', '('], i) {
        Some(seq!['m', 'a', 'x'])
    } else {
        None
    }
}

/// Index behind the aggregate call that starts in `s` at index `i`: behind
/// the first `)` that follows the `(` of the call, with at least one
/// character between them.
pub open spec fn span_end(s: Seq<char>, i: int) -> Option<int> {
    match function_at(s, i) {
        Some(func) => match first_index_from(s, ')', i + func.len() + 1) {
            Some(close) => if close > i + func.len() + 1 {
                Some(close + 1)
            } else {
                None
            },
            None => None,
        },
        None => None,
    }
}

/// The aggregate calls in `s` from index `from` on, from left to right
/// without overlap.
pub open spec fn spans_from(s: Seq<char>, from: int) -> Seq<Seq<char>>
    decreases s.len() - from,
{
    if from < 0 || from >= s.len() {
        Seq::empty()
    } else {
        match span_end(s, from) {
            Some(end) => if from < end <= s.len() {
                seq![s.subrange(from, end)] + spans_from(s, end)
            } else {
                Seq::empty()
            },
            None => spans_from(s, from + 1),
        }
    }
}

/// The aggregate calls inside a text.
pub open spec fn call_spans(text: Seq<char>) -> Seq<Seq<char>> {
    spans_from(text, 0)
}

/// An aggregate call inside a text, with its function and argument.
pub struct CallSpan {
    pub text: String,
    pub parts: Option<(String, String)>,
}

pub struct CallSpanView {
    pub text: Seq<char>,
    pub parts: Option<(Seq<char>, Seq<char>)>,
}

impl View for CallSpan {
    type V = CallSpanView;

    open spec fn view(&self) -> CallSpanView {
        CallSpanView { text: self.text@, parts: self.parts.deep_view() }
    }
}

impl DeepView for CallSpan {
    type V = CallSpanView;

    open spec fn deep_view(&self) -> CallSpanView {
        self@
    }
}

/// The aggregate calls inside a text, each with its function and argument.
pub open spec fn spans_with_parts(text: Seq<char>) -> Seq<CallSpanView> {
    Seq::new(
        call_spans(text).len(),
        |i: int| CallSpanView { text: call_spans(text)[i], parts: call_parts(call_spans(text)[i]) },
    )
}

/// Function and argument of `text` where it is one aggregate call.
pub fn aggregate_parts(text: &str) -> (r: Option<(String, String)>)
    ensures
        r.deep_view() == call_parts(text@),
{
    parts_from(captures("^(sum|mean|count|min|max)\\(([^)]+)\\)$", text))
}

/// Function and argument out of the groups that the pattern of an aggregate
/// call captured: the second and the third of three groups, where both took
/// part in the match.
pub fn parts_from(groups: Option<Vec<Option<String>>>) -> (r: Option<(String, String)>)
    ensures
        r.deep_view() == parts_of(groups.deep_view()),
{
    match groups {
        Some(mut g) => {
            if g.len() != 3 {
                return None;
            }
            let ghost before = g.deep_view();
            let arg = g.pop().unwrap();
            let func = g.pop().unwrap();
            proof {
                assert(before[2] == arg.deep_view());
                assert(before[1] == func.deep_view());
            }
            match (func, arg) {
                (Some(f), Some(a)) => Some((f, a)),
                _ => None,
            }
        },
        None => None,
    }
}

/// The aggregate calls inside `expression`, from left to right.
pub fn extract_aggregate_expressions(expression: &str) -> (r: Vec<String>)
    ensures
        r.deep_view() == call_spans(expression@),
{
    matches("(sum|mean|count|min|max)\\([^)]+\\)", expression)
}

/// The aggregate calls inside `expression`, each with its function and argument.
pub fn aggregate_spans(expression: &str) -> (r: Vec<CallSpan>)
    ensures
        r.deep_view() == spans_with_parts(expression@),
{
    let spans = extract_aggregate_expressions(expression);
    let mut r: Vec<CallSpan> = Vec::new();
    let mut i: usize = 0;
    while i < spans.len()
        invariant
            i <= spans.len(),
            r.len() == i,
            spans.deep_view() == call_spans(expression@),
            forall|k: int|
                0 <= k < i ==> r[k]@ == (CallSpanView {
                    text: spans[k]@,
                    parts: call_parts(spans[k]@),
                }),
        decreases spans.len() - i,
    {
        let parts = aggregate_parts(spans[i].as_str());
        r.push(CallSpan { text: spans[i].clone(), parts });
        i += 1;
    }
    proof {
        assert forall|k: int| 0 <= k < spans.len() implies spans[k]@ == call_spans(
            expression@,
        )[k] by {
            assert(spans.deep_view()[k] == spans[k]@);
        }
        assert(r.deep_view() =~= spans_with_parts(expression@));
    }
    r
}

/// The names of the five aggregate functions.
pub open spec fn is_function_name(t: Seq<char>) -> bool {
    ||| t == seq!['s', 'u', 'm']
    ||| t == seq!['m', 'e', 'a', 'n']
    ||| t == seq!['c', 'o', 'u', 'n', 't']
    ||| t == seq!['m', 'i', 'n']
    ||| t == seq!['m', 'a', 'x']
}

pub fn is_function_chars(v: &Vec<char>) -> (r: bool)
    ensures
        r == is_function_name(v@),
{
    let n = v.len();
    let r = (n == 3 && v[0] == 's' && v[1] == 'u' && v[2] == 'm') || (n == 4 && v[0] == 'm'
        && v[1] == 'e' && v[2] == 'a' && v[3] == 'n') || (n == 5 && v[0] == 'c' && v[1] == 'o'
        && v[2] == 'u' && v[3] == 'n' && v[4] == 't') || (n == 3 && v[0] == 'm' && v[1] == 'i'
        && v[2] == 'n') || (n == 3 && v[0] == 'm' && v[1] == 'a' && v[2] == 'x');
    proof {
        if r {
            assert(v@ =~= seq!['s', 'u', 'm'] || v@ =~= seq!['m', 'e', 'a', 'n'] || v@
                =~= seq!['c', 'o', 'u', 'n', 't'] || v@ =~= seq!['m', 'i', 'n'] || v@
                =~= seq!['m', 'a', 'x']);
        } else {
            assert(seq!['s', 'u', 'm'].len() == 3 && seq!['s', 'u', 'm'][0] == 's'
                && seq!['s', 'u', 'm'][1] == 'u' && seq!['s', 'u', 'm'][2] == 'm');
            assert(seq!['m', 'i', 'n'].len() == 3 && seq!['m', 'i', 'n'][0] == 'm'
                && seq!['m', 'i', 'n'][1] == 'i' && seq!['m', 'i', 'n'][2] == 'n');
            assert(seq!['m', 'a', 'x'].len() == 3 && seq!['m', 'a', 'x'][0] == 'm'
                && seq!['m', 'a', 'x'][1] == 'a' && seq!['m', 'a', 'x'][2] == 'x');
            assert(seq!['m', 'e', 'a', 'n'].len() == 4 && seq!['m', 'e', 'a', 'n'][0] == 'm'
                && seq!['m', 'e', 'a', 'n'][1] == 'e' && seq!['m', 'e', 'a', 'n'][2] == 'a'
                && seq!['m', 'e', 'a', 'n'][3] == 'n');
            assert(seq!['c', 'o', 'u', 'n', 't'].len() == 5 && seq!['c', 'o', 'u', 'n', 't'][0]
                == 'c' && seq!['c', 'o', 'u', 'n', 't'][1] == 'o'
                && seq!['c', 'o', 'u', 'n', 't'][2] == 'u' && seq!['c', 'o', 'u', 'n', 't'][3]
                == 'n' && seq!['c', 'o', 'u', 'n', 't'][4] == 't');
        }
    }
    r
}

/// The characters that end a token.
pub open spec fn is_delimiter(c: char) -> bool {
    c == '+' || c == '-' || c == '*' || c == '/' || c == '(' || c == ')' || c == ' ' || c == ','
}

fn is_delimiter_char(c: char) -> (r: bool)
    ensures
        r == is_delimiter(c),
{
    c == '+' || c == '-' || c == '*' || c == '/' || c == '(' || c == ')' || c == ' ' || c == ','
}

/// Whether a trimmed piece between delimiters names a column: it is not
/// empty, no number and no function name.
pub open spec fn is_column_token(t: Seq<char>) -> bool {
    t.len() > 0 && !is_number(t) && !is_function_name(t)
}

/// The piece of `s` from `start` to `end`, trimmed, where it names a column.
pub open spec fn piece(s: Seq<char>, start: int, end: int) -> Seq<Seq<char>> {
    let t = trimmed(s.subrange(start, end));
    if is_column_token(t) {
        seq![t]
    } else {
        Seq::empty()
    }
}

/// The column tokens of `s` from index `i` on, where a piece began at `start`.
pub open spec fn tokens_from(s: Seq<char>, start: int, i: int) -> Seq<Seq<char>>
    decreases s.len() - i,
{
    if i < 0 || start < 0 || start > i {
        Seq::empty()
    } else if i >= s.len() {
        piece(s, start, s.len() as int)
    } else if is_delimiter(s[i]) {
        piece(s, start, i) + tokens_from(s, i + 1, i + 1)
    } else {
        tokens_from(s, start, i + 1)
    }
}

/// The column tokens of `s` in the order of the text, with repetitions.
pub open spec fn tokens(s: Seq<char>) -> Seq<Seq<char>> {
    tokens_from(s, 0, 0)
}

/// `acc`, which is in ascending order without repetition, with `t` in its place.
pub open spec fn inserted(acc: Seq<Seq<char>>, t: Seq<char>) -> Seq<Seq<char>>
    decreases acc.len(),
{
    if acc.len() == 0 {
        seq![t]
    } else if acc.last() == t {
        acc
    } else if text_before(acc.last(), t) {
        acc.push(t)
    } else {
        inserted(acc.drop_last(), t).push(acc.last())
    }
}

/// The texts of `ts` in ascending order, each once.
pub open spec fn sorted_unique(ts: Seq<Seq<char>>) -> Seq<Seq<char>>
    decreases ts.len(),
{
    if ts.len() == 0 {
        Seq::empty()
    } else {
        inserted(sorted_unique(ts.drop_last()), ts.last())
    }
}

/// Whether each text of `s` comes before the next.
pub open spec fn ascending(s: Seq<Seq<char>>) -> bool {
    forall|i: int| 0 <= i < s.len() - 1 ==> text_before(#[trigger] s[i], s[i + 1])
}

/// What a list holds after a push.
pub proof fn lemma_push_contains(s: Seq<Seq<char>>, x: Seq<char>, y: Seq<char>)
    ensures
        s.push(x).contains(y) <==> (s.contains(y) || y == x),
{
    if s.contains(y) {
        let k = choose|k: int| 0 <= k < s.len() && s[k] == y;
        assert(s.push(x)[k] == y);
    }
    if y == x {
        assert(s.push(x)[s.len() as int] == y);
    }
    if s.push(x).contains(y) {
        let k = choose|k: int| 0 <= k < s.push(x).len() && s.push(x)[k] == y;
        if k < s.len() {
            assert(s[k] == y);
        }
    }
}

/// What a list holds, by its last text and the rest.
pub proof fn lemma_last_contains(s: Seq<Seq<char>>, y: Seq<char>)
    requires
        s.len() > 0,
    ensures
        s.contains(y) <==> (s.drop_last().contains(y) || y == s.last()),
{
    assert(s =~= s.drop_last().push(s.last()));
    lemma_push_contains(s.drop_last(), s.last(), y);
}

/// An ascending list stays ascending without its last text.
pub proof fn lemma_ascending_rest(s: Seq<Seq<char>>)
    requires
        ascending(s),
        s.len() > 0,
    ensures
        ascending(s.drop_last()),
        s.len() > 1 ==> text_before(s.drop_last().last(), s.last()),
{
    let head = s.drop_last();
    assert forall|i: int| 0 <= i < head.len() - 1 implies text_before(
        #[trigger] head[i],
        head[i + 1],
    ) by {
        assert(head[i] == s[i]);
        assert(head[i + 1] == s[i + 1]);
    }
    if s.len() > 1 {
        assert(text_before(s[s.len() - 2], s[s.len() - 2 + 1]));
    }
}

/// An ascending list stays ascending with a later text at its end.
pub proof fn lemma_ascending_push(s: Seq<Seq<char>>, x: Seq<char>)
    requires
        ascending(s),
        s.len() > 0 ==> text_before(s.last(), x),
    ensures
        ascending(s.push(x)),
{
    let out = s.push(x);
    assert forall|i: int| 0 <= i < out.len() - 1 implies text_before(
        #[trigger] out[i],
        out[i + 1],
    ) by {
        if i < s.len() - 1 {
            assert(text_before(s[i], s[i + 1]));
        }
    }
}

/// The last text of a list after a text was put in its place.
pub proof fn lemma_inserted_last(acc: Seq<Seq<char>>, t: Seq<char>)
    ensures
        inserted(acc, t).len() > 0,
        inserted(acc, t).last() == if acc.len() == 0 || text_before(acc.last(), t) {
            t
        } else {
            acc.last()
        },
    decreases acc.len(),
{
    if acc.len() > 0 && acc.last() != t && !text_before(acc.last(), t) {
        lemma_inserted_last(acc.drop_last(), t);
    }
    if acc.len() > 0 && acc.last() == t {
        lemma_text_order(t, t);
    }
}

/// Putting a text in its place adds that text and no other.
pub proof fn lemma_inserted_contains(acc: Seq<Seq<char>>, t: Seq<char>, x: Seq<char>)
    ensures
        inserted(acc, t).contains(x) <==> (acc.contains(x) || x == t),
    decreases acc.len(),
{
    if acc.len() == 0 {
        assert(seq![t] =~= acc.push(t));
        lemma_push_contains(acc, t, x);
    } else if acc.last() == t {
        lemma_last_contains(acc, x);
    } else if text_before(acc.last(), t) {
        lemma_push_contains(acc, t, x);
    } else {
        lemma_inserted_contains(acc.drop_last(), t, x);
        lemma_push_contains(inserted(acc.drop_last(), t), acc.last(), x);
        lemma_last_contains(acc, x);
    }
}

/// Putting a text in its place keeps the order.
pub proof fn lemma_inserted(acc: Seq<Seq<char>>, t: Seq<char>)
    requires
        ascending(acc),
    ensures
        ascending(inserted(acc, t)),
    decreases acc.len(),
{
    if acc.len() == 0 {
    } else if acc.last() == t {
    } else if text_before(acc.last(), t) {
        lemma_ascending_push(acc, t);
    } else {
        let head = acc.drop_last();
        lemma_ascending_rest(acc);
        lemma_inserted(head, t);
        lemma_inserted_last(head, t);
        lemma_text_order(acc.last(), t);
        lemma_ascending_push(inserted(head, t), acc.last());
    }
}

/// `sorted_unique` is in ascending order and holds the texts of its argument,
/// no others.
pub proof fn lemma_sorted_unique(ts: Seq<Seq<char>>)
    ensures
        ascending(sorted_unique(ts)),
        forall|x: Seq<char>| sorted_unique(ts).contains(x) <==> ts.contains(x),
    decreases ts.len(),
{
    if ts.len() > 0 {
        let head = ts.drop_last();
        lemma_sorted_unique(head);
        lemma_inserted(sorted_unique(head), ts.last());
        assert forall|x: Seq<char>| sorted_unique(ts).contains(x) <==> ts.contains(x) by {
            lemma_inserted_contains(sorted_unique(head), ts.last(), x);
            lemma_last_contains(ts, x);
        }
    }
}

fn insert_token(acc: &mut Vec<Vec<char>>, t: Vec<char>)
    ensures
        texts(final(acc)@) == inserted(texts(old(acc)@), t@),
{
    let ghost all = texts(acc@);
    let mut j: usize = acc.len();
    let mut placed = false;
    proof {
        assert(all.take(j as int) =~= all);
        assert(inserted(all, t@) + all.skip(j as int) =~= inserted(all, t@));
    }
    while j > 0 && !placed
        invariant
            j <= acc.len(),
            acc@ == old(acc)@,
            all == texts(acc@),
            inserted(all, t@) == inserted(all.take(j as int), t@) + all.skip(j as int),
            placed ==> j > 0 && text_before(acc[j - 1]@, t@) && acc[j - 1]@ != t@,
        decreases j + if placed { 0int } else { 1int },
    {
        let ghost head = all.take(j as int);
        proof {
            assert(head.last() == acc[j - 1]@);
            assert(head.drop_last() =~= all.take(j - 1));
            assert(all.skip(j - 1) =~= seq![acc[j - 1]@] + all.skip(j as int));
            lemma_text_order(acc[j - 1]@, t@);
        }
        match order_of(&acc[j - 1], &t) {
            Rank::Same => {
                proof {
                    assert(head + all.skip(j as int) =~= all);
                }
                return ;
            },
            Rank::Before => {
                placed = true;
            },
            Rank::After => {
                proof {
                    assert(inserted(head, t@) == inserted(all.take(j - 1), t@).push(
                        acc[j - 1]@,
                    ));
                    assert(inserted(all.take(j - 1), t@).push(acc[j - 1]@) + all.skip(j as int)
                        =~= inserted(all.take(j - 1), t@) + all.skip(j - 1));
                }
                j -= 1;
            },
        }
    }
    proof {
        let head = all.take(j as int);
        if j > 0 {
            assert(head.last() == acc[j - 1]@);
            assert(inserted(head, t@) == head.push(t@));
        } else {
            assert(inserted(head, t@) == seq![t@]);
            assert(seq![t@] =~= head.push(t@));
        }
        assert(texts(acc@.insert(j as int, t)) =~= head.push(t@) + all.skip(j as int));
    }
    acc.insert(j, t);
}

fn push_piece(v: &Vec<char>, start: usize, end: usize, out: &mut Vec<Vec<char>>)
    requires
        start <= end <= v.len(),
    ensures
        texts(final(out)@) == texts(old(out)@) + piece(v@, start as int, end as int),
{
    let run = copy_range(v, start, end);
    let t = trim_chars(&run);
    if t.len() > 0 && !is_number_chars(&t) && !is_function_chars(&t) {
        out.push(t);
        proof {
            assert(texts(out@) =~= texts(old(out)@) + piece(v@, start as int, end as int));
        }
    } else {
        proof {
            assert(texts(out@) =~= texts(old(out)@) + piece(v@, start as int, end as int));
        }
    }
}

/// The column tokens of `v` in the order of the text, with repetitions.
pub fn tokens_of(v: &Vec<char>) -> (out: Vec<Vec<char>>)
    ensures
        texts(out@) == tokens(v@),
{
    let mut out: Vec<Vec<char>> = Vec::new();
    let mut start: usize = 0;
    let mut i: usize = 0;
    proof {
        assert(texts(out@) + tokens(v@) =~= tokens(v@));
    }
    while i < v.len()
        invariant
            start <= i <= v.len(),
            texts(out@) + tokens_from(v@, start as int, i as int) == tokens(v@),
        decreases v.len() - i,
    {
        if is_delimiter_char(v[i]) {
            let ghost before = texts(out@);
            push_piece(v, start, i, &mut out);
            proof {
                assert((before + piece(v@, start as int, i as int)) + tokens_from(
                    v@,
                    i + 1,
                    i + 1,
                ) =~= before + (piece(v@, start as int, i as int) + tokens_from(
                    v@,
                    i + 1,
                    i + 1,
                )));
            }
            start = i + 1;
        }
        i += 1;
    }
    push_piece(v, start, i, &mut out);
    out
}

/// The run of `s` from `start` to `end`, or `value` in its place where the
/// run, trimmed, is `name`.
pub open spec fn run_or_value(
    s: Seq<char>,
    start: int,
    end: int,
    name: Seq<char>,
    value: Seq<char>,
) -> Seq<char> {
    let run = s.subrange(start, end);
    if name.len() > 0 && trimmed(run) == name {
        value
    } else {
        run
    }
}

/// `s` from index `i` on, where a run began at `start`, with `value` in the
/// place of each run between delimiters that, trimmed, is `name`.
pub open spec fn substituted_from(
    s: Seq<char>,
    name: Seq<char>,
    value: Seq<char>,
    start: int,
    i: int,
) -> Seq<char>
    decreases s.len() - i,
{
    if i < 0 || start < 0 || start > i {
        Seq::empty()
    } else if i >= s.len() {
        run_or_value(s, start, s.len() as int, name, value)
    } else if is_delimiter(s[i]) {
        run_or_value(s, start, i, name, value) + seq![s[i]] + substituted_from(
            s,
            name,
            value,
            i + 1,
            i + 1,
        )
    } else {
        substituted_from(s, name, value, start, i + 1)
    }
}

/// `s` with `value` in the place of each token `name`: of each maximal run
/// between delimiters that, trimmed, is `name`. The delimiters and every
/// other run stay as they are; a longer token that holds `name` is not
/// touched. An empty `name` is no token.
pub open spec fn substituted(s: Seq<char>, name: Seq<char>, value: Seq<char>) -> Seq<char> {
    substituted_from(s, name, value, 0, 0)
}

fn push_run(
    v: &Vec<char>,
    start: usize,
    end: usize,
    name: &Vec<char>,
    value: &Vec<char>,
    out: &mut Vec<char>,
)
    requires
        start <= end <= v.len(),
    ensures
        final(out)@ == old(out)@ + run_or_value(v@, start as int, end as int, name@, value@),
{
    let run = copy_range(v, start, end);
    let t = trim_chars(&run);
    if name.len() > 0 && crate::text::same_chars(&t, name) {
        append_chars(out, value);
    } else {
        append_chars(out, &run);
    }
}

/// `v` with `value` in the place of each token `name`.
pub fn substitute_token(v: &Vec<char>, name: &Vec<char>, value: &Vec<char>) -> (out: Vec<char>)
    ensures
        out@ == substituted(v@, name@, value@),
{
    let mut out: Vec<char> = Vec::new();
    let mut start: usize = 0;
    let mut i: usize = 0;
    proof {
        assert(out@ + substituted(v@, name@, value@) =~= substituted(v@, name@, value@));
    }
    while i < v.len()
        invariant
            start <= i <= v.len(),
            out@ + substituted_from(v@, name@, value@, start as int, i as int) == substituted(
                v@,
                name@,
                value@,
            ),
        decreases v.len() - i,
    {
        if is_delimiter_char(v[i]) {
            let ghost before = out@;
            let ghost run = run_or_value(v@, start as int, i as int, name@, value@);
            push_run(v, start, i, name, value, &mut out);
            out.push(v[i]);
            proof {
                let rest = substituted_from(v@, name@, value@, i + 1, i + 1);
                assert(out@ =~= before + run + seq![v@[i as int]]);
                assert((before + run + seq![v@[i as int]]) + rest =~= before + (run + seq![
                    v@[i as int],
                ] + rest));
            }
            start = i + 1;
        }
        i += 1;
    }
    push_run(v, start, i, name, value, &mut out);
    out
}

/// The columns that an expression names: its column tokens in ascending
/// order, each once.
pub open spec fn column_names(expression: Seq<char>) -> Seq<Seq<char>> {
    sorted_unique(tokens(expression))
}

/// The columns that `expression` names, in ascending order, each once. A
/// token is what stands between two of the characters `+-*/() ,`, trimmed;
/// numbers and the names of the aggregate functions are no columns.
pub fn extract_column_names(expression: &str) -> (r: Vec<String>)
    ensures
        r.deep_view() == column_names(expression@),
{
    let v = chars_of(expression);
    let found = tokens_of(&v);
    let mut acc: Vec<Vec<char>> = Vec::new();
    let mut i: usize = 0;
    proof {
        assert(texts(found@).take(0) =~= Seq::<Seq<char>>::empty());
        assert(texts(acc@) =~= Seq::<Seq<char>>::empty());
    }
    while i < found.len()
        invariant
            i <= found.len(),
            texts(acc@) == sorted_unique(texts(found@).take(i as int)),
        decreases found.len() - i,
    {
        proof {
            assert(texts(found@).take(i + 1).drop_last() =~= texts(found@).take(i as int));
            assert(texts(found@).take(i + 1).last() == found[i as int]@);
        }
        let t = copy_range(&found[i], 0, found[i].len());
        proof {
            assert(t@ =~= found[i as int]@);
        }
        insert_token(&mut acc, t);
        i += 1;
    }
    proof {
        assert(texts(found@).take(found.len() as int) =~= texts(found@));
    }
    let r = crate::text::texts_of(&acc);
    proof {
        assert(r.deep_view() =~= texts(acc@));
    }
    r
}

/// Whether a name holds letters, digits and underscores only.
pub open spec fn is_valid_name(name: Seq<char>) -> bool {
    forall|i: int| 0 <= i < name.len() ==> alphanumeric(#[trigger] name[i]) || name[i] == '_'
}

fn valid_name(v: &Vec<char>) -> (r: bool)
    ensures
        r == is_valid_name(v@),
{
    let mut i: usize = 0;
    while i < v.len()
        invariant
            i <= v.len(),
            forall|k: int| 0 <= k < i ==> alphanumeric(#[trigger] v@[k]) || v@[k] == '_',
        decreases v.len() - i,
    {
        if !(is_alphanumeric(v[i]) || v[i] == '_') {
            return false;
        }
        i += 1;
    }
    true
}

/// Name and expression of a definition.
pub struct DefinitionView {
    pub name: Option<Seq<char>>,
    pub body: Seq<char>,
}

/// How a definition splits into name and expression: at its first `=`, both
/// sides trimmed and neither empty; without `=` it is all expression.
pub open spec fn split_definition(input: Seq<char>) -> Result<DefinitionView, ExprErrorView> {
    let e = trimmed(input);
    match first_index_from(e, '=', 0) {
        Some(eq) => {
            let name = trimmed(e.subrange(0, eq));
            let body = trimmed(e.subrange(eq + 1, e.len() as int));
            if name.len() == 0 || body.len() == 0 {
                Err(ExprErrorView::InvalidSyntax)
            } else if !is_valid_name(name) {
                Err(ExprErrorView::InvalidName)
            } else {
                Ok(DefinitionView { name: Some(name), body })
            }
        },
        None => Ok(DefinitionView { name: None, body: e }),
    }
}

/// Whether an expression counts as arithmetic: it holds one of `+-*/`, or
/// nothing but digits, points and blanks.
pub open spec fn is_arithmetic(body: Seq<char>) -> bool {
    ||| body.contains('+')
    ||| body.contains('-')
    ||| body.contains('*')
    ||| body.contains('/')
    ||| forall|i: int| 0 <= i < body.len() ==> is_digit(#[trigger] body[i]) || body[i] == '.'
            || body[i] == ' '
}

/// The first of `names` that is not among `have`.
pub open spec fn first_missing(names: Seq<Seq<char>>, have: Seq<Seq<char>>) -> Option<Seq<char>>
    decreases names.len(),
{
    if names.len() == 0 {
        None
    } else if !have.contains(names[0]) {
        Some(names[0])
    } else {
        first_missing(names.drop_first(), have)
    }
}

/// What is wrong with the first aggregate call that is no call after all, or
/// whose column is not among `have`.
pub open spec fn first_bad_call(spans: Seq<CallSpanView>, have: Seq<Seq<char>>) -> Option<
    ExprErrorView,
>
    decreases spans.len(),
{
    if spans.len() == 0 {
        None
    } else {
        match spans[0].parts {
            None => Some(ExprErrorView::InvalidAggregate(spans[0].text)),
            Some((f, arg)) => if !have.contains(trimmed(arg)) {
                Some(ExprErrorView::UnknownAggregateColumn(trimmed(arg), spans[0].text))
            } else {
                first_bad_call(spans.drop_first(), have)
            },
        }
    }
}

/// The text of each span.
pub open spec fn span_texts(spans: Seq<CallSpanView>) -> Seq<Seq<char>> {
    Seq::new(spans.len(), |i: int| spans[i].text)
}

/// The name of a column: the one given, or else the default.
pub open spec fn name_or(name: Option<Seq<char>>, default: Seq<char>) -> Seq<char> {
    match name {
        Some(n) => n,
        None => default,
    }
}

/// Whether an expression is one column token and nothing else.
pub open spec fn is_bare_name(body: Seq<char>) -> bool {
    tokens(body) == seq![body]
}

/// The computed column that an expression defines on a page with the columns
/// `columns`, given what the expression is as an aggregate call (`call`) and
/// the aggregate calls inside it (`spans`). Without a page (`None`) no column
/// is looked up.
pub open spec fn classified(
    body: Seq<char>,
    name: Option<Seq<char>>,
    call: Option<(Seq<char>, Seq<char>)>,
    spans: Seq<CallSpanView>,
    columns: Option<Seq<Seq<char>>>,
) -> Result<ColumnView, ExprErrorView> {
    match call {
        Some((func, arg)) => {
            let column = trimmed(arg);
            if columns is Some && !columns->0.contains(column) {
                Err(ExprErrorView::UnknownColumn(column))
            } else {
                Ok(
                    ColumnView {
                        name: name_or(name, func + seq!['('] + column + seq![')']),
                        expression: body,
                        column_type: ColumnTypeView::Aggregate(func),
                    },
                )
            }
        },
        None => if is_arithmetic(body) {
            let names = column_names(body);
            let kind = if spans.len() == 0 {
                ColumnTypeView::RowOperation(names)
            } else {
                ColumnTypeView::MixedOperation(names, span_texts(spans))
            };
            let column = ColumnView { name: name_or(name, body), expression: body, column_type: kind };
            match columns {
                Some(have) => match first_missing(names, have) {
                    Some(c) => Err(ExprErrorView::UnknownColumn(c)),
                    None => match first_bad_call(spans, have) {
                        Some(e) => Err(e),
                        None => Ok(column),
                    },
                },
                None => Ok(column),
            }
        } else if is_number(trimmed(body)) {
            Ok(
                ColumnView {
                    name: name_or(name, body),
                    expression: body,
                    column_type: ColumnTypeView::RowOperation(Seq::empty()),
                },
            )
        } else if columns is Some && columns->0.contains(body) {
            Ok(
                ColumnView {
                    name: name_or(name, body),
                    expression: body,
                    column_type: ColumnTypeView::RowOperation(seq![body]),
                },
            )
        } else if columns is Some && is_bare_name(body) {
            Err(ExprErrorView::UnknownColumn(body))
        } else {
            Err(ExprErrorView::InvalidFormat)
        },
    }
}

/// The computed column that a definition stands for on a page with the
/// columns `columns`.
pub open spec fn parsed(input: Seq<char>, columns: Option<Seq<Seq<char>>>) -> Result<
    ColumnView,
    ExprErrorView,
> {
    match split_definition(input) {
        Ok(d) => classified(d.body, d.name, call_parts(d.body), spans_with_parts(d.body), columns),
        Err(e) => Err(e),
    }
}

/// What a result says, over views.
pub open spec fn outcome(r: Result<ComputedColumn, ExprError>) -> Result<
    ColumnView,
    ExprErrorView,
> {
    match r {
        Ok(c) => Ok(c@),
        Err(e) => Err(e@),
    }
}

/// The columns of a page, where there is one.
pub open spec fn names_of(columns: Option<&Vec<String>>) -> Option<Seq<Seq<char>>> {
    match columns {
        Some(c) => Some(c.deep_view()),
        None => None,
    }
}

fn has_text(have: &Vec<String>, t: &str) -> (r: bool)
    ensures
        r == have.deep_view().contains(t@),
{
    proof {
        lemma_index_of_text(have.deep_view(), t@);
    }
    position_of(have, t).is_some()
}

fn find_missing(names: &Vec<String>, have: &Vec<String>) -> (r: Option<String>)
    ensures
        r.deep_view() == first_missing(names.deep_view(), have.deep_view()),
{
    let mut i: usize = 0;
    proof {
        assert(names.deep_view().subrange(0, names.len() as int) =~= names.deep_view());
    }
    while i < names.len()
        invariant
            i <= names.len(),
            first_missing(names.deep_view(), have.deep_view()) == first_missing(
                names.deep_view().subrange(i as int, names.len() as int),
                have.deep_view(),
            ),
        decreases names.len() - i,
    {
        let ghost rest = names.deep_view().subrange(i as int, names.len() as int);
        proof {
            assert(rest[0] == names[i as int]@);
            assert(rest.drop_first() =~= names.deep_view().subrange(i + 1, names.len() as int));
        }
        if !has_text(have, names[i].as_str()) {
            return Some(names[i].clone());
        }
        i += 1;
    }
    None
}

fn find_bad_call(spans: &Vec<CallSpan>, have: &Vec<String>) -> (r: Option<ExprError>)
    ensures
        match r {
            Some(e) => first_bad_call(spans.deep_view(), have.deep_view()) == Some(e@),
            None => first_bad_call(spans.deep_view(), have.deep_view()) is None,
        },
{
    let mut i: usize = 0;
    proof {
        assert(spans.deep_view().subrange(0, spans.len() as int) =~= spans.deep_view());
    }
    while i < spans.len()
        invariant
            i <= spans.len(),
            first_bad_call(spans.deep_view(), have.deep_view()) == first_bad_call(
                spans.deep_view().subrange(i as int, spans.len() as int),
                have.deep_view(),
            ),
        decreases spans.len() - i,
    {
        let ghost rest = spans.deep_view().subrange(i as int, spans.len() as int);
        proof {
            assert(rest[0] == spans[i as int]@);
            assert(rest.drop_first() =~= spans.deep_view().subrange(i + 1, spans.len() as int));
        }
        match &spans[i].parts {
            None => {
                return Some(ExprError::InvalidAggregate(spans[i].text.clone()));
            },
            Some((_f, arg)) => {
                let column = text_of(&trim_chars(&chars_of(arg.as_str())));
                if !has_text(have, column.as_str()) {
                    return Some(
                        ExprError::UnknownAggregateColumn(column, spans[i].text.clone()),
                    );
                }
            },
        }
        i += 1;
    }
    None
}

fn arithmetic(v: &Vec<char>) -> (r: bool)
    ensures
        r == is_arithmetic(v@),
{
    if has_char(v, '+') || has_char(v, '-') || has_char(v, '*') || has_char(v, '/') {
        return true;
    }
    let mut i: usize = 0;
    while i < v.len()
        invariant
            i <= v.len(),
            !v@.contains('+') && !v@.contains('-') && !v@.contains('*') && !v@.contains('/'),
            forall|k: int|
                0 <= k < i ==> is_digit(#[trigger] v@[k]) || v@[k] == '.' || v@[k] == ' ',
        decreases v.len() - i,
    {
        let c = v[i];
        if !(('0' <= c && c <= '9') || c == '.' || c == ' ') {
            proof {
                assert(!(is_digit(v@[i as int]) || v@[i as int] == '.' || v@[i as int] == ' '));
            }
            return false;
        }
        i += 1;
    }
    true
}

fn bare_name(v: &Vec<char>) -> (r: bool)
    ensures
        r == is_bare_name(v@),
{
    let found = tokens_of(v);
    if found.len() != 1 {
        proof {
            assert(seq![v@].len() == 1);
        }
        return false;
    }
    let r = crate::text::same_chars(&found[0], v);
    proof {
        assert(texts(found@)[0] == found[0]@);
        assert(seq![v@][0] == v@);
        if r {
            assert(texts(found@) =~= seq![v@]);
        }
    }
    r
}

fn span_names(spans: &Vec<CallSpan>) -> (r: Vec<String>)
    ensures
        r.deep_view() == span_texts(spans.deep_view()),
{
    let mut r: Vec<String> = Vec::new();
    let mut i: usize = 0;
    while i < spans.len()
        invariant
            i <= spans.len(),
            r.len() == i,
            forall|k: int| 0 <= k < i ==> r[k]@ == spans[k].text@,
        decreases spans.len() - i,
    {
        r.push(spans[i].text.clone());
        i += 1;
    }
    proof {
        assert(r.deep_view() =~= span_texts(spans.deep_view()));
    }
    r
}

/// The computed column that the expression `body` defines, given what `body`
/// is as an aggregate call (`call`) and the aggregate calls inside it
/// (`spans`). The column is called `name`, or by default after the
/// expression. With the columns of a page at hand, a column that the
/// expression names and the page lacks is an error.
pub fn classify(
    body: &str,
    name: Option<String>,
    call: Option<(String, String)>,
    spans: &Vec<CallSpan>,
    columns: Option<&Vec<String>>,
) -> (r: Result<ComputedColumn, ExprError>)
    ensures
        outcome(r) == classified(
            body@,
            name.deep_view(),
            call.deep_view(),
            spans.deep_view(),
            names_of(columns),
        ),
{
    let chars = chars_of(body);
    match call {
        Some((func, arg)) => {
            let column = trim_chars(&chars_of(arg.as_str()));
            let column_text = text_of(&column);
            if let Some(have) = columns {
                if !has_text(have, column_text.as_str()) {
                    return Err(ExprError::UnknownColumn(column_text));
                }
            }
            let col_name = match name {
                Some(n) => n,
                None => {
                    let mut v = chars_of(func.as_str());
                    v.push('(');
                    append_chars(&mut v, &column);
                    v.push(')');
                    proof {
                        assert(v@ =~= func@ + seq!['('] + column@ + seq![')']);
                    }
                    text_of(&v)
                },
            };
            Ok(
                ComputedColumn {
                    name: col_name,
                    expression: body.to_owned(),
                    column_type: ComputedColumnType::Aggregate(func),
                },
            )
        },
        None => {
            let col_name = match name {
                Some(n) => n,
                None => body.to_owned(),
            };
            if arithmetic(&chars) {
                let names = extract_column_names(body);
                if let Some(have) = columns {
                    if let Some(c) = find_missing(&names, have) {
                        return Err(ExprError::UnknownColumn(c));
                    }
                    if let Some(e) = find_bad_call(spans, have) {
                        return Err(e);
                    }
                }
                let kind = if spans.len() == 0 {
                    ComputedColumnType::RowOperation(names)
                } else {
                    ComputedColumnType::MixedOperation(names, span_names(spans))
                };
                Ok(ComputedColumn { name: col_name, expression: body.to_owned(), column_type: kind })
            } else if is_number_chars(&trim_chars(&chars)) {
                let none: Vec<String> = Vec::new();
                proof {
                    assert(none.deep_view() =~= Seq::<Seq<char>>::empty());
                }
                Ok(
                    ComputedColumn {
                        name: col_name,
                        expression: body.to_owned(),
                        column_type: ComputedColumnType::RowOperation(none),
                    },
                )
            } else {
                let known = match columns {
                    Some(have) => has_text(have, body),
                    None => false,
                };
                if known {
                    let mut one: Vec<String> = Vec::new();
                    one.push(body.to_owned());
                    proof {
                        assert(one.deep_view() =~= seq![body@]);
                    }
                    Ok(
                        ComputedColumn {
                            name: col_name,
                            expression: body.to_owned(),
                            column_type: ComputedColumnType::RowOperation(one),
                        },
                    )
                } else if columns.is_some() && bare_name(&chars) {
                    Err(ExprError::UnknownColumn(body.to_owned()))
                } else {
                    Err(ExprError::InvalidFormat)
                }
            }
        },
    }
}

/// What a split says, over views.
pub open spec fn split_outcome(r: Result<(Option<String>, String), ExprError>) -> Result<
    DefinitionView,
    ExprErrorView,
> {
    match r {
        Ok((name, body)) => Ok(DefinitionView { name: name.deep_view(), body: body@ }),
        Err(e) => Err(e@),
    }
}

/// Name and expression of a definition.
pub fn split_name(input: &str) -> (r: Result<(Option<String>, String), ExprError>)
    ensures
        split_outcome(r) == split_definition(input@),
{
    let e = trim_chars(&chars_of(input));
    proof {
        lemma_first_index_from(e@, '=', 0);
    }
    match find_from(&e, '=', 0) {
        Some(eq) => {
            let name = trim_chars(&copy_range(&e, 0, eq));
            let body = trim_chars(&copy_range(&e, eq + 1, e.len()));
            if name.len() == 0 || body.len() == 0 {
                Err(ExprError::InvalidSyntax)
            } else if !valid_name(&name) {
                Err(ExprError::InvalidName)
            } else {
                Ok((Some(text_of(&name)), text_of(&body)))
            }
        },
        None => Ok((None, text_of(&e))),
    }
}

/// The computed column that the definition `expression` stands for. With the
/// columns of a page at hand, a column that the definition names and the
/// page lacks is an error.
pub fn parse_computed_column(expression: &str, columns: Option<&Vec<String>>) -> (r: Result<
    ComputedColumn,
    ExprError,
>)
    ensures
        outcome(r) == parsed(expression@, names_of(columns)),
{
    match split_name(expression) {
        Ok((name, body)) => {
            let call = aggregate_parts(body.as_str());
            let spans = aggregate_spans(body.as_str());
            classify(body.as_str(), name, call, &spans, columns)
        },
        Err(e) => Err(e),
    }
}

/// The column of an aggregate call, trimmed.
pub open spec fn call_column(call: Seq<char>) -> Result<Seq<char>, ExprErrorView> {
    match call_parts(call) {
        Some((f, arg)) => Ok(trimmed(arg)),
        None => Err(ExprErrorView::InvalidAggregate(call)),
    }
}

/// The column that the aggregate call `aggregate_expr` is about.
pub fn extract_column_from_aggregate(aggregate_expr: &str) -> (r: Result<String, ExprError>)
    ensures
        match r {
            Ok(c) => call_column(aggregate_expr@) == Ok::<Seq<char>, ExprErrorView>(c@),
            Err(e) => call_column(aggregate_expr@) == Err::<Seq<char>, ExprErrorView>(e@),
        },
{
    match aggregate_parts(aggregate_expr) {
        Some((_f, arg)) => Ok(text_of(&trim_chars(&chars_of(arg.as_str())))),
        None => Err(ExprError::InvalidAggregate(aggregate_expr.to_owned())),
    }
}

/// The first missing name is one of the names and not among the columns;
/// there is none only if every name is among the columns.
pub proof fn lemma_first_missing(names: Seq<Seq<char>>, have: Seq<Seq<char>>)
    ensures
        match first_missing(names, have) {
            Some(c) => names.contains(c) && !have.contains(c),
            None => forall|i: int| 0 <= i < names.len() ==> have.contains(names[i]),
        },
    decreases names.len(),
{
    if names.len() > 0 {
        if have.contains(names[0]) {
            let rest = names.drop_first();
            lemma_first_missing(rest, have);
            match first_missing(rest, have) {
                Some(c) => {
                    let k = choose|k: int| 0 <= k < rest.len() && rest[k] == c;
                    assert(names[k + 1] == c);
                },
                None => {
                    assert forall|i: int| 0 <= i < names.len() implies have.contains(
                        names[i],
                    ) by {
                        if i > 0 {
                            assert(rest[i - 1] == names[i]);
                        }
                    }
                },
            }
        } else {
            assert(names[0] == names[0]);
        }
    }
}

/// Whether a call is none after all, or names a column that is not among
/// the columns.
pub open spec fn is_bad_call(span: CallSpanView, have: Seq<Seq<char>>) -> bool {
    match span.parts {
        Some((f, arg)) => !have.contains(trimmed(arg)),
        None => true,
    }
}

/// A bad call is reported when there is one.
pub proof fn lemma_first_bad_call(spans: Seq<CallSpanView>, have: Seq<Seq<char>>, i: int)
    requires
        0 <= i < spans.len(),
        is_bad_call(spans[i], have),
    ensures
        first_bad_call(spans, have) is Some,
    decreases spans.len(),
{
    if i > 0 {
        let rest = spans.drop_first();
        assert(rest[i - 1] == spans[i]);
        lemma_first_bad_call(rest, have, i - 1);
    }
}

/// On a page, an expression that names a column which the page lacks defines
/// no computed column: as the column of an aggregate call, as a name in an
/// arithmetic text, as the column of an aggregate call inside one, or as a
/// bare name. A name in an arithmetic text and a bare name are named in the
/// error.
pub proof fn lemma_unknown_column_is_rejected(
    body: Seq<char>,
    name: Option<Seq<char>>,
    call: Option<(Seq<char>, Seq<char>)>,
    spans: Seq<CallSpanView>,
    have: Seq<Seq<char>>,
)
    ensures
        call matches Some((f, arg)) ==> (!have.contains(trimmed(arg)) ==> classified(
            body,
            name,
            call,
            spans,
            Some(have),
        ) == Err::<ColumnView, ExprErrorView>(ExprErrorView::UnknownColumn(trimmed(arg)))),
        call is None && is_arithmetic(body) && (exists|c: Seq<char>|
            column_names(body).contains(c) && !have.contains(c)) ==> (classified(
            body,
            name,
            call,
            spans,
            Some(have),
        ) matches Err(ExprErrorView::UnknownColumn(c)) && column_names(body).contains(c)
            && !have.contains(c)),
        call is None && is_arithmetic(body) && (exists|i: int|
            0 <= i < spans.len() && is_bad_call(#[trigger] spans[i], have)) ==> classified(
            body,
            name,
            call,
            spans,
            Some(have),
        ) is Err,
        call is None && !is_arithmetic(body) && !is_number(trimmed(body)) && !have.contains(body)
            ==> classified(body, name, call, spans, Some(have)) == Err::<
            ColumnView,
            ExprErrorView,
        >(
            if is_bare_name(body) {
                ExprErrorView::UnknownColumn(body)
            } else {
                ExprErrorView::InvalidFormat
            },
        ),
{
    lemma_first_missing(column_names(body), have);
    if call is None && is_arithmetic(body) {
        if exists|i: int| 0 <= i < spans.len() && is_bad_call(#[trigger] spans[i], have) {
            let i = choose|i: int| 0 <= i < spans.len() && is_bad_call(#[trigger] spans[i], have);
            lemma_first_bad_call(spans, have, i);
        }
        if exists|c: Seq<char>| column_names(body).contains(c) && !have.contains(c) {
            let c = choose|c: Seq<char>| column_names(body).contains(c) && !have.contains(c);
            let k = choose|k: int| 0 <= k < column_names(body).len() && column_names(body)[k] == c;
            assert(!have.contains(column_names(body)[k]));
        }
    }
}

} // verus!
