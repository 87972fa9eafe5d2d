//! Filtering expressions over pages.
//!
//! - `(A & tag:#B) | (C & -tag:#D)` is an expression: filters joined by
//!   `&` (and), `|` (or), `-` (not) and parentheses;
//! - `tag:#B` is a filter: it names the field of the page that is searched;
//! - `B` is a query: the text looked for in that field.

use crate::text::contains;
use crate::text::has_prefix;
use crate::text::is_substring;
use crate::text::lemma_trim_len;
use crate::text::starts_with;
use crate::text::to_chars;
use crate::text::trim;
use crate::text::trim_range;
use crate::Page;
use crate::PageView;
use vstd::prelude::*;
use vstd::slice::slice_subrange;

verus! {

/// A boolean expression tree.
#[derive(Debug, PartialEq, Eq)]
pub enum BooleanExpr {
    Not(Box<BooleanExpr>),
    And(Box<BooleanExpr>, Box<BooleanExpr>),
    Or(Box<BooleanExpr>, Box<BooleanExpr>),
    Filter(String),
}

/// Why a text is no expression.
#[derive(Debug, PartialEq, Eq)]
pub enum ParsingError {
    UnmatchedParentheses,
    MissingOperand(String),
    MissingOperator(String),
    InvalidExpression(String),
}

/// The mathematical model of a [`BooleanExpr`].
pub enum ExprView {
    Not(Box<ExprView>),
    And(Box<ExprView>, Box<ExprView>),
    Or(Box<ExprView>, Box<ExprView>),
    Filter(Seq<char>),
}

/// The mathematical model of a [`ParsingError`].
pub enum ErrorView {
    UnmatchedParentheses,
    MissingOperand(Seq<char>),
    MissingOperator(Seq<char>),
    InvalidExpression(Seq<char>),
}

/// The model of an expression, by recursion on its tree.
pub open spec fn expr_view(expr: BooleanExpr) -> ExprView
    decreases expr,
{
    match expr {
        BooleanExpr::Not(inner) => ExprView::Not(Box::new(expr_view(*inner))),
        BooleanExpr::And(left, right) => ExprView::And(
            Box::new(expr_view(*left)),
            Box::new(expr_view(*right)),
        ),
        BooleanExpr::Or(left, right) => ExprView::Or(
            Box::new(expr_view(*left)),
            Box::new(expr_view(*right)),
        ),
        BooleanExpr::Filter(filter) => ExprView::Filter(filter@),
    }
}

impl View for BooleanExpr {
    type V = ExprView;

    open spec fn view(&self) -> ExprView {
        expr_view(*self)
    }
}

impl View for ParsingError {
    type V = ErrorView;

    open spec fn view(&self) -> ErrorView {
        match self {
            ParsingError::UnmatchedParentheses => ErrorView::UnmatchedParentheses,
            ParsingError::MissingOperand(text) => ErrorView::MissingOperand(text@),
            ParsingError::MissingOperator(text) => ErrorView::MissingOperator(text@),
            ParsingError::InvalidExpression(text) => ErrorView::InvalidExpression(text@),
        }
    }
}

/// What to tell the user of an error.
pub open spec fn message_spec(error: ErrorView) -> Seq<char> {
    match error {
        ErrorView::UnmatchedParentheses => "Unmatched parentheses"@,
        ErrorView::MissingOperand(text) => "Missing operand: "@ + text,
        ErrorView::MissingOperator(text) => "Missing operator: "@ + text,
        ErrorView::InvalidExpression(text) => "Invalid expression: "@ + text,
    }
}

impl ParsingError {
    /// What to tell the user of this error.
    pub fn message(&self) -> (text: String)
        ensures
            text@ == message_spec(self@),
    {
        match self {
            ParsingError::UnmatchedParentheses => String::from_str("Unmatched parentheses"),
            ParsingError::MissingOperand(expr) => String::from_str("Missing operand: ").concat(
                expr.as_str(),
            ),
            ParsingError::MissingOperator(expr) => String::from_str("Missing operator: ").concat(
                expr.as_str(),
            ),
            ParsingError::InvalidExpression(expr) => String::from_str(
                "Invalid expression: ",
            ).concat(expr.as_str()),
        }
    }
}

/// The model of what parsing returns.
pub open spec fn outcome_view(outcome: Result<BooleanExpr, ParsingError>) -> Result<
    ExprView,
    ErrorView,
> {
    match outcome {
        Ok(expr) => Ok(expr@),
        Err(error) => Err(error@),
    }
}

/// The characters a query may hold: all but parentheses, operators and the space.
pub open spec fn is_valid_char_spec(c: char) -> bool {
    c != '(' && c != ')' && c != '&' && c != '|' && c != '-' && c != ' '
}

/// Whether `c` may stand in a query.
#[verifier::when_used_as_spec(is_valid_char_spec)]
pub fn is_valid_char(c: char) -> (b: bool)
    ensures
        b == is_valid_char_spec(c),
{
    c != '(' && c != ')' && c != '&' && c != '|' && c != '-' && c != ' '
}

/// Every character of `s` may stand in a query.
pub open spec fn all_valid(s: Seq<char>) -> bool {
    forall|i: int| 0 <= i < s.len() ==> is_valid_char(#[trigger] s[i])
}

/// What a character adds to the nesting depth when a text is read from its end:
/// a closing parenthesis opens a group, an opening one closes it.
pub open spec fn depth_step(c: char) -> int {
    if c == ')' {
        1
    } else if c == '(' {
        -1
    } else {
        0
    }
}

/// The nesting depth reached when `s` has been read from its end down to index `i`:
/// the closing parentheses less the opening ones among `s[i..]`.
pub open spec fn depth_from(s: Seq<char>, i: int) -> int
    decreases s.len() - i,
{
    if 0 <= i < s.len() {
        depth_step(s[i]) + depth_from(s, i + 1)
    } else {
        0
    }
}

/// `c` is one of the two binary operators.
pub open spec fn is_operator(c: char) -> bool {
    c == '&' || c == '|'
}

/// Index `i` of `s` holds an operator outside all parentheses that is not the
/// first character.
pub open spec fn is_split_point(s: Seq<char>, i: int) -> bool {
    &&& 0 < i < s.len()
    &&& is_operator(s[i])
    &&& depth_from(s, i + 1) == 0
}

/// The last split point of `s` at or before index `i`, or 0 where there is none.
pub open spec fn last_split_upto(s: Seq<char>, i: int) -> int
    decreases i,
{
    if i <= 0 {
        0
    } else if is_split_point(s, i) {
        i
    } else {
        last_split_upto(s, i - 1)
    }
}

/// The last split point of `s`, or 0 where there is none.
pub open spec fn split_index(s: Seq<char>) -> int {
    last_split_upto(s, s.len() - 1)
}

/// The last split point at or before `i` is a split point, unless it is 0.
pub proof fn lemma_last_split_upto(s: Seq<char>, i: int)
    ensures
        0 <= last_split_upto(s, i),
        last_split_upto(s, i) <= i || i < 0,
        last_split_upto(s, i) != 0 ==> is_split_point(s, last_split_upto(s, i)),
        forall|j: int| last_split_upto(s, i) < j <= i ==> !is_split_point(s, j),
    decreases i,
{
    if i > 0 && !is_split_point(s, i) {
        lemma_last_split_upto(s, i - 1);
    }
}

/// The split index is 0 or a split point, and no split point follows it.
pub proof fn lemma_split_index_bounds(s: Seq<char>)
    ensures
        0 <= split_index(s),
        split_index(s) != 0 ==> is_split_point(s, split_index(s)),
        forall|j: int| split_index(s) < j ==> !is_split_point(s, j),
{
    lemma_last_split_upto(s, s.len() - 1);
}

/// The expression that `text` denotes, or why it denotes none.
///
/// The text is trimmed. If it holds valid characters only, it is a filter. If it
/// begins with `-`, it negates all that follows. Otherwise it is split at its
/// last operator outside all parentheses: `&` and `|` have the same precedence,
/// and `A & B | C` groups as `(A & B) | C`. Where there is no such operator, a
/// text in parentheses stands for what they enclose, and anything else is an
/// error.
pub open spec fn parse_spec(text: Seq<char>) -> Result<ExprView, ErrorView>
    decreases text.len(),
{
    let s = trim(text);
    if all_valid(s) {
        Ok(ExprView::Filter(s))
    } else if s[0] == '-' {
        proof {
            lemma_trim_len(text);
        }
        match parse_spec(s.subrange(1, s.len() as int)) {
            Ok(inner) => Ok(ExprView::Not(Box::new(inner))),
            Err(error) => Err(error),
        }
    } else {
        let k = split_index(s);
        if k == 0 {
            if s[0] == '(' && s.last() == ')' {
                proof {
                    lemma_trim_len(text);
                }
                parse_spec(s.subrange(1, s.len() - 1))
            } else if depth_from(s, 1) != 0 {
                Err(ErrorView::UnmatchedParentheses)
            } else if all_valid(s) {
                Err(ErrorView::MissingOperator(s))
            } else {
                Err(ErrorView::InvalidExpression(s))
            }
        } else {
            proof {
                lemma_trim_len(text);
                lemma_split_index_bounds(s);
            }
            match parse_spec(s.subrange(0, k)) {
                Err(error) => Err(error),
                Ok(left) => match parse_spec(s.subrange(k + 1, s.len() as int)) {
                    Err(error) => Err(error),
                    Ok(right) => if s[k] == '&' {
                        Ok(ExprView::And(Box::new(left), Box::new(right)))
                    } else {
                        Ok(ExprView::Or(Box::new(left), Box::new(right)))
                    },
                },
            }
        }
    }
}

/// Whether the part `lo..hi` of `chars` holds valid characters only.
fn all_valid_range(chars: &[char], lo: usize, hi: usize) -> (b: bool)
    requires
        lo <= hi <= chars@.len(),
    ensures
        b == all_valid(chars@.subrange(lo as int, hi as int)),
{
    let mut i: usize = lo;
    while i < hi
        invariant
            lo <= i <= hi <= chars@.len(),
            forall|j: int| lo <= j < i ==> is_valid_char(#[trigger] chars@[j]),
        decreases hi - i,
    {
        if !is_valid_char(chars[i]) {
            assert(!is_valid_char(chars@.subrange(lo as int, hi as int)[i - lo]));
            return false;
        }
        i += 1;
    }
    true
}

/// The text of the part `lo..hi` of `text`.
fn owned_part(text: &str, lo: usize, hi: usize) -> (part: String)
    requires
        lo <= hi <= text@.len(),
    ensures
        part@ == text@.subrange(lo as int, hi as int),
{
    text.substring_char(lo, hi).to_owned()
}

/// Parses the part `lo..hi` of `text`, whose characters are `chars`.
fn parse_range(text: &str, chars: &[char], lo: usize, hi: usize) -> (outcome: Result<
    BooleanExpr,
    ParsingError,
>)
    requires
        chars@ == text@,
        lo <= hi <= chars@.len(),
    ensures
        outcome_view(outcome) == parse_spec(chars@.subrange(lo as int, hi as int)),
    decreases hi - lo,
{
    let (a, b) = trim_range(chars, lo, hi);
    let ghost s = chars@.subrange(a as int, b as int);
    if all_valid_range(chars, a, b) {
        return Ok(BooleanExpr::Filter(owned_part(text, a, b)));
    }
    if chars[a] == '-' {
        assert(s.subrange(1, s.len() as int) == chars@.subrange(a + 1, b as int));
        return match parse_range(text, chars, a + 1, b) {
            Ok(inner) => Ok(BooleanExpr::Not(Box::new(inner))),
            Err(error) => Err(error),
        };
    }
    // The last operator outside all parentheses, read from the end.
    let mut idx: usize = b - 1;
    let mut level: i128 = 0;
    let mut found: bool = false;
    while idx > a
        invariant_except_break
            !found,
        invariant
            a <= idx < b <= chars@.len(),
            s == chars@.subrange(a as int, b as int),
            level == depth_from(s, idx - a + 1),
            -(b - 1 - idx) <= level <= b - 1 - idx,
            split_index(s) == last_split_upto(s, idx - a),
        ensures
            a <= idx < b,
            found ==> idx > a && split_index(s) == idx - a,
            !found ==> idx == a && split_index(s) == 0 && level == depth_from(s, 1),
        decreases idx - a,
    {
        let c = chars[idx];
        if (c == '&' || c == '|') && level == 0 {
            found = true;
            break ;
        }
        if c == '(' {
            level -= 1;
        } else if c == ')' {
            level += 1;
        }
        idx -= 1;
    }
    if !found {
        if chars[a] == '(' && chars[b - 1] == ')' {
            assert(s.subrange(1, s.len() - 1) == chars@.subrange(a + 1, b - 1));
            return parse_range(text, chars, a + 1, b - 1);
        }
        if level != 0 {
            return Err(ParsingError::UnmatchedParentheses);
        }
        return Err(ParsingError::InvalidExpression(owned_part(text, a, b)));
    }
    assert(s.subrange(0, idx - a) == chars@.subrange(a as int, idx as int));
    assert(s.subrange(idx - a + 1, s.len() as int) == chars@.subrange(idx + 1, b as int));
    let left = match parse_range(text, chars, a, idx) {
        Ok(left) => left,
        Err(error) => { return Err(error); },
    };
    let right = match parse_range(text, chars, idx + 1, b) {
        Ok(right) => right,
        Err(error) => { return Err(error); },
    };
    if chars[idx] == '&' {
        Ok(BooleanExpr::And(Box::new(left), Box::new(right)))
    } else {
        Ok(BooleanExpr::Or(Box::new(left), Box::new(right)))
    }
}

/// Turns a text into the expression it denotes.
///
/// - `&` is the AND operator,
/// - `|` is the OR operator,
/// - `-` is the NOT operator.
pub fn parse_boolean_expr(expr: &str) -> (outcome: Result<BooleanExpr, ParsingError>)
    ensures
        outcome_view(outcome) == parse_spec(expr@),
{
    let chars = to_chars(expr);
    assert(chars@.subrange(0, chars@.len() as int) == chars@);
    parse_range(expr, chars.as_slice(), 0, chars.len())
}

/// The prefix of a filter on the title.
pub open spec fn title_prefix() -> Seq<char> {
    seq!['t', 'i', 't', 'l', 'e', ':']
}

/// The prefix of a filter on the tags.
pub open spec fn tag_prefix() -> Seq<char> {
    seq!['t', 'a', 'g', ':', '#']
}

/// Some tag among `tags` holds `query`.
pub open spec fn some_tag_holds(query: Seq<char>, tags: Seq<Seq<char>>) -> bool {
    exists|i: int| 0 <= i < tags.len() && is_substring(query, #[trigger] tags[i])
}

/// Whether `page` passes `filter`.
///
/// `title:` and what follows it asks for a title that holds the rest, `tag:#` and
/// what follows it for a tag that holds the rest, and any other text for a title
/// that holds it. Letters match by case.
pub open spec fn filter_holds(filter: Seq<char>, page: PageView) -> bool {
    if has_prefix(filter, title_prefix()) {
        is_substring(filter.skip(6), page.title)
    } else if has_prefix(filter, tag_prefix()) {
        some_tag_holds(filter.skip(5), page.tags)
    } else {
        is_substring(filter, page.title)
    }
}

/// Whether `page` passes `expr`.
pub open spec fn expr_holds(expr: ExprView, page: PageView) -> bool
    decreases expr,
{
    match expr {
        ExprView::Not(inner) => !expr_holds(*inner, page),
        ExprView::And(left, right) => expr_holds(*left, page) && expr_holds(*right, page),
        ExprView::Or(left, right) => expr_holds(*left, page) || expr_holds(*right, page),
        ExprView::Filter(filter) => filter_holds(filter, page),
    }
}

/// Whether some tag among `tags` holds `query`.
fn any_tag_contains(tags: &Vec<String>, query: &[char]) -> (b: bool)
    ensures
        b == some_tag_holds(query@, tags@.map_values(|tag: String| tag@)),
{
    let ghost views = tags@.map_values(|tag: String| tag@);
    let mut i: usize = 0;
    while i < tags.len()
        invariant
            i <= tags.len(),
            views == tags@.map_values(|tag: String| tag@),
            forall|j: int| 0 <= j < i ==> !is_substring(query@, #[trigger] views[j]),
        decreases tags.len() - i,
    {
        let tag = to_chars(tags[i].as_str());
        assert(tag@ == views[i as int]);
        if contains(tag.as_slice(), query) {
            return true;
        }
        i += 1;
    }
    false
}

/// Evaluates a filter for a page.
pub fn evaluate_filter(filter: &str, input: &Page) -> (b: bool)
    ensures
        b == filter_holds(filter@, input@),
{
    let filter_chars = to_chars(filter);
    let title_chars = to_chars(input.title.as_str());
    let title_mark = to_chars("title:");
    let tag_mark = to_chars("tag:#");
    proof {
        reveal_strlit("title:");
        reveal_strlit("tag:#");
        assert(title_mark@ =~= title_prefix());
        assert(tag_mark@ =~= tag_prefix());
    }
    if starts_with(filter_chars.as_slice(), title_mark.as_slice()) {
        let query = slice_subrange(filter_chars.as_slice(), 6, filter_chars.len());
        contains(title_chars.as_slice(), query)
    } else if starts_with(filter_chars.as_slice(), tag_mark.as_slice()) {
        let query = slice_subrange(filter_chars.as_slice(), 5, filter_chars.len());
        any_tag_contains(&input.tags, query)
    } else {
        contains(title_chars.as_slice(), filter_chars.as_slice())
    }
}

/// Evaluates an expression for a page.
pub fn evaluate_expr(expr: &BooleanExpr, input: &Page) -> (b: bool)
    ensures
        b == expr_holds(expr@, input@),
    decreases expr,
{
    match expr {
        BooleanExpr::Not(inner) => !evaluate_expr(inner, input),
        BooleanExpr::And(left, right) => {
            let l = evaluate_expr(left, input);
            let r = evaluate_expr(right, input);
            l && r
        },
        BooleanExpr::Or(left, right) => {
            let l = evaluate_expr(left, input);
            let r = evaluate_expr(right, input);
            l || r
        },
        BooleanExpr::Filter(filter) => evaluate_filter(filter.as_str(), input),
    }
}

/// `s` in parentheses.
pub open spec fn in_parentheses(s: Seq<char>) -> Seq<char> {
    seq!['('] + s + seq![')']
}

/// A text that denotes `expr`: each filter as it is, each operand in parentheses.
pub open spec fn render(expr: ExprView) -> Seq<char>
    decreases expr,
{
    match expr {
        ExprView::Filter(filter) => filter,
        ExprView::Not(inner) => seq!['-'] + in_parentheses(render(*inner)),
        ExprView::And(left, right) => in_parentheses(render(*left)) + seq!['&'] + in_parentheses(
            render(*right),
        ),
        ExprView::Or(left, right) => in_parentheses(render(*left)) + seq!['|'] + in_parentheses(
            render(*right),
        ),
    }
}

/// A text that denotes `expr`.
pub fn render_expr(expr: &BooleanExpr) -> (text: String)
    ensures
        text@ == render(expr@),
    decreases expr,
{
    proof {
        reveal_strlit("-(");
        reveal_strlit("(");
        reveal_strlit(")");
        reveal_strlit(")&(");
        reveal_strlit(")|(");
    }
    match expr {
        BooleanExpr::Filter(filter) => filter.clone(),
        BooleanExpr::Not(inner) => {
            let inside = render_expr(inner);
            let mut text = String::from_str("-(");
            text.append(inside.as_str());
            text.append(")");
            assert(text@ =~= seq!['-'] + in_parentheses(inside@));
            text
        },
        BooleanExpr::And(left, right) => {
            let first = render_expr(left);
            let second = render_expr(right);
            let mut text = String::from_str("(");
            text.append(first.as_str());
            text.append(")&(");
            text.append(second.as_str());
            text.append(")");
            assert(text@ =~= in_parentheses(first@) + seq!['&'] + in_parentheses(second@));
            text
        },
        BooleanExpr::Or(left, right) => {
            let first = render_expr(left);
            let second = render_expr(right);
            let mut text = String::from_str("(");
            text.append(first.as_str());
            text.append(")|(");
            text.append(second.as_str());
            text.append(")");
            assert(text@ =~= in_parentheses(first@) + seq!['|'] + in_parentheses(second@));
            text
        },
    }
}

} // verus!
