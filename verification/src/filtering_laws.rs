//! What holds of parsing and evaluation for every text, expression and page.

use crate::filtering::all_valid;
use crate::filtering::depth_from;
use crate::filtering::expr_holds;
use crate::filtering::is_split_point;
use crate::filtering::lemma_split_index_bounds;
use crate::filtering::in_parentheses;
use crate::filtering::parse_spec;
use crate::filtering::render;
use crate::filtering::some_tag_holds;
use crate::filtering::split_index;
use crate::filtering::tag_prefix;
use crate::filtering::title_prefix;
use crate::filtering::ErrorView;
use crate::filtering::ExprView;
use crate::text::is_substring;
use crate::text::lemma_trim_ends;
use crate::text::lemma_trim_fixed;
use crate::text::lemma_trim_len;
use crate::text::trim;
use crate::PageView;
use vstd::prelude::*;

verus! {

/// A filter made of `title:` and a query holds of the pages whose title holds
/// the query.
pub proof fn lemma_title_filter(query: Seq<char>, page: PageView)
    ensures
        expr_holds(ExprView::Filter(title_prefix() + query), page) == is_substring(
            query,
            page.title,
        ),
{
    let filter = title_prefix() + query;
    assert(filter.subrange(0, 6) == title_prefix());
    assert(filter.skip(6) == query);
}

/// A filter made of `tag:#` and a query holds of the pages of which some tag
/// holds the query.
pub proof fn lemma_tag_filter(query: Seq<char>, page: PageView)
    ensures
        expr_holds(ExprView::Filter(tag_prefix() + query), page) == some_tag_holds(
            query,
            page.tags,
        ),
{
    let filter = tag_prefix() + query;
    assert(filter.subrange(0, 5) == tag_prefix());
    assert(filter.skip(5) == query);
    assert(filter[1] == 'a');
    assert(title_prefix()[1] == 'i');
    if filter.len() >= 6 {
        assert(filter.subrange(0, 6)[1] == 'a');
    }
}

/// Parsing fails in two ways only: on parentheses that do not match, and on a
/// text that is no expression. It never reports a missing operand or operator.
pub proof fn lemma_parse_errors(text: Seq<char>)
    ensures
        parse_spec(text) matches Err(error) ==> error is UnmatchedParentheses
            || error is InvalidExpression,
    decreases text.len(),
{
    let s = trim(text);
    lemma_trim_len(text);
    if all_valid(s) {
    } else if s[0] == '-' {
        lemma_parse_errors(s.subrange(1, s.len() as int));
    } else {
        let k = split_index(s);
        lemma_split_index_bounds(s);
        if k == 0 {
            if s[0] == '(' && s.last() == ')' {
                lemma_parse_errors(s.subrange(1, s.len() - 1));
            }
        } else {
            lemma_parse_errors(s.subrange(0, k));
            lemma_parse_errors(s.subrange(k + 1, s.len() as int));
        }
    }
}

/// Parsing a text and parsing its trimming give the same.
pub proof fn lemma_parse_trimmed(text: Seq<char>)
    ensures
        parse_spec(trim(text)) == parse_spec(text),
{
    lemma_trim_ends(text);
    lemma_trim_fixed(trim(text));
}

/// Every filter of `expr` is a trimmed text of valid characters, as parsing
/// yields them.
pub open spec fn has_plain_filters(expr: ExprView) -> bool
    decreases expr,
{
    match expr {
        ExprView::Filter(filter) => all_valid(filter) && trim(filter) == filter,
        ExprView::Not(inner) => has_plain_filters(*inner),
        ExprView::And(left, right) => has_plain_filters(*left) && has_plain_filters(*right),
        ExprView::Or(left, right) => has_plain_filters(*left) && has_plain_filters(*right),
    }
}

/// `s` closes every parenthesis that it opens, and opens every one that it closes.
pub open spec fn is_balanced(s: Seq<char>) -> bool {
    &&& depth_from(s, 0) == 0
    &&& forall|i: int| 0 <= i <= s.len() ==> depth_from(s, i) >= 0
}

/// The depth within a text of two parts.
proof fn lemma_depth_concat(a: Seq<char>, b: Seq<char>, i: int)
    requires
        0 <= i <= a.len() + b.len(),
    ensures
        i <= a.len() ==> depth_from(a + b, i) == depth_from(a, i) + depth_from(b, 0),
        i >= a.len() ==> depth_from(a + b, i) == depth_from(b, i - a.len()),
    decreases a.len() + b.len() - i,
{
    if i < a.len() + b.len() {
        lemma_depth_concat(a, b, i + 1);
    }
}

/// A text of valid characters has depth 0 everywhere.
proof fn lemma_depth_valid(s: Seq<char>, i: int)
    requires
        all_valid(s),
    ensures
        depth_from(s, i) == 0,
    decreases s.len() - i,
{
    if 0 <= i < s.len() {
        lemma_depth_valid(s, i + 1);
    }
}

/// The depth within a text in parentheses.
proof fn lemma_depth_in_parentheses(s: Seq<char>, i: int)
    requires
        0 <= i <= s.len() + 2,
    ensures
        i == 0 ==> depth_from(in_parentheses(s), i) == depth_from(s, 0),
        1 <= i <= s.len() + 1 ==> depth_from(in_parentheses(s), i) == depth_from(s, i - 1) + 1,
        i == s.len() + 2 ==> depth_from(in_parentheses(s), i) == 0,
{
    let open = seq!['('];
    let close = seq![')'];
    let inner = s + close;
    assert(in_parentheses(s) == open + inner);
    assert(depth_from(close, 1) == 0);
    assert(depth_from(close, 0) == 1);
    lemma_depth_concat(open, inner, i);
    if i == 0 {
        lemma_depth_concat(s, close, 0);
        assert(depth_from(open, 1) == 0);
        assert(depth_from(open, 0) == -1);
    } else {
        lemma_depth_concat(s, close, i - 1);
    }
}

/// A balanced text in parentheses is balanced.
proof fn lemma_balanced_in_parentheses(s: Seq<char>)
    requires
        is_balanced(s),
    ensures
        is_balanced(in_parentheses(s)),
{
    assert forall|i: int| 0 <= i <= in_parentheses(s).len() implies depth_from(
        in_parentheses(s),
        i,
    ) >= 0 by {
        lemma_depth_in_parentheses(s, i);
    }
    lemma_depth_in_parentheses(s, 0);
}

/// Two balanced texts with one character that is no parenthesis between them are
/// balanced.
proof fn lemma_balanced_joined(a: Seq<char>, c: char, b: Seq<char>)
    requires
        is_balanced(a),
        is_balanced(b),
        c != '(' && c != ')',
    ensures
        is_balanced(a + seq![c] + b),
{
    let mid = seq![c];
    let head = a + mid;
    assert(depth_from(mid, 1) == 0);
    assert(depth_from(mid, 0) == 0);
    assert forall|i: int| 0 <= i <= head.len() implies depth_from(head, i) >= 0 by {
        lemma_depth_concat(a, mid, i);
    }
    lemma_depth_concat(a, mid, 0);
    assert forall|i: int| 0 <= i <= (head + b).len() implies depth_from(head + b, i) >= 0 by {
        lemma_depth_concat(head, b, i);
    }
    lemma_depth_concat(head, b, 0);
}

/// What `render` gives is balanced.
proof fn lemma_render_balanced(expr: ExprView)
    requires
        has_plain_filters(expr),
    ensures
        is_balanced(render(expr)),
    decreases expr,
{
    match expr {
        ExprView::Filter(filter) => {
            assert forall|i: int| 0 <= i <= filter.len() implies depth_from(filter, i) >= 0 by {
                lemma_depth_valid(filter, i);
            }
            lemma_depth_valid(filter, 0);
        },
        ExprView::Not(inner) => {
            lemma_render_balanced(*inner);
            lemma_balanced_in_parentheses(render(*inner));
            let dash = seq!['-'];
            let rest = in_parentheses(render(*inner));
            assert(depth_from(dash, 1) == 0);
            assert(depth_from(dash, 0) == 0);
            assert forall|i: int| 0 <= i <= (dash + rest).len() implies depth_from(dash + rest, i)
                >= 0 by {
                lemma_depth_concat(dash, rest, i);
            }
            lemma_depth_concat(dash, rest, 0);
        },
        ExprView::And(left, right) => {
            lemma_render_balanced(*left);
            lemma_render_balanced(*right);
            lemma_balanced_in_parentheses(render(*left));
            lemma_balanced_in_parentheses(render(*right));
            lemma_balanced_joined(
                in_parentheses(render(*left)),
                '&',
                in_parentheses(render(*right)),
            );
        },
        ExprView::Or(left, right) => {
            lemma_render_balanced(*left);
            lemma_render_balanced(*right);
            lemma_balanced_in_parentheses(render(*left));
            lemma_balanced_in_parentheses(render(*right));
            lemma_balanced_joined(
                in_parentheses(render(*left)),
                '|',
                in_parentheses(render(*right)),
            );
        },
    }
}

/// No index of a balanced text in parentheses is a split point of it, nor of a
/// longer text that ends with it.
proof fn lemma_no_split_in_parentheses(head: Seq<char>, s: Seq<char>, j: int)
    requires
        is_balanced(s),
        head.len() <= j < head.len() + s.len() + 2,
    ensures
        !is_split_point(head + in_parentheses(s), j),
{
    let group = in_parentheses(s);
    let whole = head + group;
    let i = j - head.len();
    assert(whole[j] == group[i]);
    if i == 0 {
        assert(group[0] == '(');
    } else if i == s.len() + 1 {
        assert(group[i] == ')');
    } else {
        lemma_depth_concat(head, group, j + 1);
        lemma_depth_in_parentheses(s, i + 1);
    }
}

/// A balanced text in parentheses denotes what the text itself denotes.
proof fn lemma_parse_in_parentheses(s: Seq<char>)
    requires
        is_balanced(s),
    ensures
        parse_spec(in_parentheses(s)) == parse_spec(s),
{
    let group = in_parentheses(s);
    assert(group[0] == '(');
    assert(group.last() == ')');
    lemma_trim_fixed(group);
    assert(!all_valid(group));
    lemma_split_index_bounds(group);
    let none = Seq::<char>::empty();
    assert(none + group == group);
    if split_index(group) != 0 {
        lemma_no_split_in_parentheses(none, s, split_index(group));
    }
    assert(group.subrange(1, group.len() - 1) == s);
}

/// A text that is rendered from an expression with plain filters denotes that
/// expression.
pub proof fn lemma_parse_render(expr: ExprView)
    requires
        has_plain_filters(expr),
    ensures
        parse_spec(render(expr)) == Ok::<ExprView, ErrorView>(expr),
    decreases expr,
{
    match expr {
        ExprView::Filter(filter) => {},
        ExprView::Not(inner) => {
            lemma_parse_render(*inner);
            lemma_render_balanced(*inner);
            lemma_parse_in_parentheses(render(*inner));
            let text = render(expr);
            let rest = in_parentheses(render(*inner));
            assert(text[0] == '-');
            assert(text.last() == ')');
            lemma_trim_fixed(text);
            assert(!all_valid(text));
            assert(text.subrange(1, text.len() as int) == rest);
        },
        ExprView::And(left, right) => {
            lemma_parse_joined(*left, '&', *right);
            lemma_parse_render(*left);
            lemma_parse_render(*right);
        },
        ExprView::Or(left, right) => {
            lemma_parse_joined(*left, '|', *right);
            lemma_parse_render(*left);
            lemma_parse_render(*right);
        },
    }
}

/// Two rendered expressions in parentheses with an operator between them are
/// split at that operator.
proof fn lemma_parse_joined(left: ExprView, operator: char, right: ExprView)
    requires
        has_plain_filters(left),
        has_plain_filters(right),
        operator == '&' || operator == '|',
    ensures
        ({
            let text = in_parentheses(render(left)) + seq![operator] + in_parentheses(
                render(right),
            );
            parse_spec(text) == match parse_spec(render(left)) {
                Err(error) => Err::<ExprView, ErrorView>(error),
                Ok(l) => match parse_spec(render(right)) {
                    Err(error) => Err(error),
                    Ok(r) => if operator == '&' {
                        Ok(ExprView::And(Box::new(l), Box::new(r)))
                    } else {
                        Ok(ExprView::Or(Box::new(l), Box::new(r)))
                    },
                },
            }
        }),
{
    let first = in_parentheses(render(left));
    let second = in_parentheses(render(right));
    let head = first + seq![operator];
    let text = head + second;
    let k = first.len() as int;
    lemma_render_balanced(left);
    lemma_render_balanced(right);
    lemma_parse_in_parentheses(render(left));
    lemma_parse_in_parentheses(render(right));
    assert(text[0] == '(');
    assert(text.last() == ')');
    assert(text[k] == operator);
    lemma_trim_fixed(text);
    assert(!all_valid(text));
    // The operator is a split point, and the last one.
    lemma_depth_concat(head, second, k + 1);
    lemma_depth_in_parentheses(render(right), 0);
    assert(is_split_point(text, k));
    lemma_split_index_bounds(text);
    if split_index(text) > k {
        lemma_no_split_in_parentheses(head, render(right), split_index(text));
    }
    assert(split_index(text) == k);
    assert(text.subrange(0, k) == first);
    assert(text.subrange(k + 1, text.len() as int) == second);
}

/// The filters of a parsed expression are plain.
pub proof fn lemma_parse_plain_filters(text: Seq<char>)
    ensures
        parse_spec(text) matches Ok(expr) ==> has_plain_filters(expr),
    decreases text.len(),
{
    let s = trim(text);
    lemma_trim_len(text);
    if all_valid(s) {
        lemma_trim_ends(text);
        lemma_trim_fixed(s);
    } else if s[0] == '-' {
        lemma_parse_plain_filters(s.subrange(1, s.len() as int));
    } else {
        let k = split_index(s);
        lemma_split_index_bounds(s);
        if k == 0 {
            if s[0] == '(' && s.last() == ')' {
                lemma_parse_plain_filters(s.subrange(1, s.len() - 1));
            }
        } else {
            lemma_parse_plain_filters(s.subrange(0, k));
            lemma_parse_plain_filters(s.subrange(k + 1, s.len() as int));
        }
    }
}

/// Parsing a text, rendering the expression and parsing what was rendered gives
/// the expression again.
pub proof fn lemma_parse_render_parse(text: Seq<char>)
    ensures
        parse_spec(text) matches Ok(expr) ==> parse_spec(render(expr)) == Ok::<
            ExprView,
            ErrorView,
        >(expr),
{
    lemma_parse_plain_filters(text);
    if let Ok(expr) = parse_spec(text) {
        lemma_parse_render(expr);
    }
}

} // verus!
