use obsidian_graph::filtering::evaluate_expr;
use obsidian_graph::filtering::evaluate_filter;
use obsidian_graph::filtering::is_valid_char;
use obsidian_graph::filtering::parse_boolean_expr;
use obsidian_graph::filtering::render_expr;
use obsidian_graph::filtering::BooleanExpr;
use obsidian_graph::filtering::ParsingError;
use obsidian_graph::Page;

fn filter(text: &str) -> BooleanExpr {
    BooleanExpr::Filter(text.to_string())
}

fn not(inner: BooleanExpr) -> BooleanExpr {
    BooleanExpr::Not(Box::new(inner))
}

fn and(left: BooleanExpr, right: BooleanExpr) -> BooleanExpr {
    BooleanExpr::And(Box::new(left), Box::new(right))
}

fn or(left: BooleanExpr, right: BooleanExpr) -> BooleanExpr {
    BooleanExpr::Or(Box::new(left), Box::new(right))
}

fn page(title: &str, tags: &[&str]) -> Page {
    Page {
        title: title.to_string(),
        tags: tags.iter().map(|tag| tag.to_string()).collect(),
        empty: false,
        links: Vec::new(),
    }
}

#[test]
fn valid_chars_exclude_operators_parentheses_and_space() {
    for c in ['(', ')', '&', '|', '-', ' '] {
        assert!(!is_valid_char(c));
    }
    for c in ['a', 'Z', '0', ':', '#', '_', '\t', 'é'] {
        assert!(is_valid_char(c));
    }
}

#[test]
fn parse_single_filter() {
    assert_eq!(parse_boolean_expr("A"), Ok(filter("A")));
    assert_eq!(parse_boolean_expr("tag:#rust"), Ok(filter("tag:#rust")));
    assert_eq!(parse_boolean_expr("title:Notes"), Ok(filter("title:Notes")));
}

#[test]
fn parse_trims_surrounding_whitespace() {
    assert_eq!(parse_boolean_expr("  A \t\n"), Ok(filter("A")));
    assert_eq!(parse_boolean_expr("\u{3000}A\u{a0}"), Ok(filter("A")));
    assert_eq!(parse_boolean_expr(" A&B "), Ok(and(filter("A"), filter("B"))));
}

#[test]
fn parse_empty_text_is_the_empty_filter() {
    assert_eq!(parse_boolean_expr(""), Ok(filter("")));
    assert_eq!(parse_boolean_expr("   "), Ok(filter("")));
}

#[test]
fn parse_parenthesized_and_or() {
    assert_eq!(
        parse_boolean_expr("(A & B) | C"),
        Ok(or(and(filter("A"), filter("B")), filter("C")))
    );
}

#[test]
fn parse_unmatched_parentheses() {
    assert_eq!(parse_boolean_expr("A & (B"), Err(ParsingError::UnmatchedParentheses));
    assert_eq!(parse_boolean_expr("A) & B"), Err(ParsingError::UnmatchedParentheses));
}

#[test]
fn parse_splits_at_the_last_operator() {
    assert_eq!(
        parse_boolean_expr("A & B & C"),
        Ok(and(and(filter("A"), filter("B")), filter("C")))
    );
    assert_eq!(
        parse_boolean_expr("A | B & C"),
        Ok(and(or(filter("A"), filter("B")), filter("C")))
    );
    assert_eq!(
        parse_boolean_expr("A & B | C"),
        Ok(or(and(filter("A"), filter("B")), filter("C")))
    );
}

#[test]
fn parse_operators_inside_parentheses_do_not_split() {
    assert_eq!(
        parse_boolean_expr("A & (B | C)"),
        Ok(and(filter("A"), or(filter("B"), filter("C"))))
    );
    assert_eq!(
        parse_boolean_expr("((A | B))"),
        Ok(or(filter("A"), filter("B")))
    );
}

#[test]
fn parse_leading_dash_negates_all_that_follows() {
    assert_eq!(parse_boolean_expr("-A"), Ok(not(filter("A"))));
    assert_eq!(
        parse_boolean_expr("-A & B"),
        Ok(not(and(filter("A"), filter("B"))))
    );
    assert_eq!(
        parse_boolean_expr("-(A & B)"),
        Ok(not(and(filter("A"), filter("B"))))
    );
    assert_eq!(
        parse_boolean_expr("A & -B"),
        Ok(and(filter("A"), not(filter("B"))))
    );
    assert_eq!(parse_boolean_expr("--A"), Ok(not(not(filter("A")))));
    assert_eq!(parse_boolean_expr("-"), Ok(not(filter(""))));
}

#[test]
fn parse_missing_side_is_the_empty_filter() {
    assert_eq!(parse_boolean_expr("A &"), Ok(and(filter("A"), filter(""))));
    assert_eq!(parse_boolean_expr("A | "), Ok(or(filter("A"), filter(""))));
}

#[test]
fn parse_invalid_expressions() {
    assert_eq!(
        parse_boolean_expr("A B"),
        Err(ParsingError::InvalidExpression("A B".to_string()))
    );
    assert_eq!(
        parse_boolean_expr("& A"),
        Err(ParsingError::InvalidExpression("& A".to_string()))
    );
    assert_eq!(
        parse_boolean_expr("(A)(B)"),
        Err(ParsingError::InvalidExpression("A)(B".to_string()))
    );
    assert_eq!(
        parse_boolean_expr("  A-B  "),
        Err(ParsingError::InvalidExpression("A-B".to_string()))
    );
    assert_eq!(
        parse_boolean_expr("("),
        Err(ParsingError::InvalidExpression("(".to_string()))
    );
}

#[test]
fn parse_first_error_wins() {
    assert_eq!(
        parse_boolean_expr("(A B) & (C D)"),
        Err(ParsingError::InvalidExpression("A B".to_string()))
    );
    assert_eq!(
        parse_boolean_expr("A & (B | (C D)"),
        Err(ParsingError::UnmatchedParentheses)
    );
    assert_eq!(
        parse_boolean_expr("(A & (B) | C D"),
        Err(ParsingError::InvalidExpression("(A".to_string()))
    );
}

#[test]
fn parse_depth_is_counted_from_the_second_character() {
    assert_eq!(
        parse_boolean_expr("(A B) & (C"),
        Err(ParsingError::InvalidExpression("(A B) & (C".to_string()))
    );
    assert_eq!(
        parse_boolean_expr("(A"),
        Err(ParsingError::InvalidExpression("(A".to_string()))
    );
    assert_eq!(parse_boolean_expr("A)"), Err(ParsingError::UnmatchedParentheses));
}

#[test]
fn parse_text_beyond_ascii() {
    assert_eq!(
        parse_boolean_expr("tag:#été & title:naïve"),
        Ok(and(filter("tag:#été"), filter("title:naïve")))
    );
    assert_eq!(
        parse_boolean_expr("(日本 | 語)"),
        Ok(or(filter("日本"), filter("語")))
    );
}

#[test]
fn filter_on_title() {
    let p = page("Rust notes", &["lang"]);
    assert!(evaluate_filter("title:Rust", &p));
    assert!(evaluate_filter("title:notes", &p));
    assert!(evaluate_filter("title:", &p));
    assert!(!evaluate_filter("title:rust", &p));
    assert!(!evaluate_filter("title:lang", &p));
}

#[test]
fn filter_on_tags() {
    let p = page("Rust notes", &["lang", "systems"]);
    assert!(evaluate_filter("tag:#lang", &p));
    assert!(evaluate_filter("tag:#stem", &p));
    assert!(evaluate_filter("tag:#", &p));
    assert!(!evaluate_filter("tag:#Rust", &p));
    assert!(!evaluate_filter("tag:#Lang", &p));
    let bare = page("Rust notes", &[]);
    assert!(!evaluate_filter("tag:#", &bare));
}

#[test]
fn filter_without_prefix_searches_the_title() {
    let p = page("Rust notes", &["lang"]);
    assert!(evaluate_filter("Rust", &p));
    assert!(evaluate_filter("t n", &p));
    assert!(evaluate_filter("", &p));
    assert!(!evaluate_filter("lang", &p));
    assert!(!evaluate_filter("tag:lang", &p));
    assert!(!evaluate_filter("Rust notes!", &p));
}

#[test]
fn evaluate_combines_filters() {
    let p = page("Rust notes", &["lang"]);
    let yes = || filter("Rust");
    let no = || filter("Go");
    assert!(evaluate_expr(&yes(), &p));
    assert!(!evaluate_expr(&no(), &p));
    assert!(!evaluate_expr(&not(yes()), &p));
    assert!(evaluate_expr(&not(no()), &p));
    assert!(evaluate_expr(&and(yes(), yes()), &p));
    assert!(!evaluate_expr(&and(yes(), no()), &p));
    assert!(!evaluate_expr(&and(no(), yes()), &p));
    assert!(evaluate_expr(&or(yes(), no()), &p));
    assert!(evaluate_expr(&or(no(), yes()), &p));
    assert!(!evaluate_expr(&or(no(), no()), &p));
}

#[test]
fn evaluate_parsed_query() {
    let p = page("Rust notes", &["lang", "systems"]);
    let expr = parse_boolean_expr("(tag:#lang & -title:Go) | tag:#web").unwrap();
    assert!(evaluate_expr(&expr, &p));
    let expr = parse_boolean_expr("tag:#web | (title:Rust & -tag:#sys)").unwrap();
    assert!(!evaluate_expr(&expr, &p));
}

#[test]
fn render_writes_operands_in_parentheses() {
    assert_eq!(render_expr(&filter("tag:#a")), "tag:#a");
    assert_eq!(render_expr(&not(filter("A"))), "-(A)");
    assert_eq!(render_expr(&and(filter("A"), filter("B"))), "(A)&(B)");
    assert_eq!(
        render_expr(&or(and(filter("A"), filter("")), not(filter("C")))),
        "((A)&())|(-(C))"
    );
}

#[test]
fn parse_render_parse_gives_the_same_expression() {
    for query in [
        "",
        "A",
        "-A",
        "--A",
        "-",
        "A & B",
        "A &",
        "| A",
        "A & B & C",
        "A | B & C",
        "(A & B) | C",
        "A & (B | -C)",
        "-(tag:#a | title:b) & c",
        "  ((x))  ",
        "tag:#été | 語",
    ] {
        if let Ok(expr) = parse_boolean_expr(query) {
            let text = render_expr(&expr);
            assert_eq!(parse_boolean_expr(&text), Ok(expr), "{:?}", query);
        }
    }
    assert_eq!(
        parse_boolean_expr("| A"),
        Err(ParsingError::InvalidExpression("| A".to_string()))
    );
}

#[test]
fn prefixed_filters_agree_with_str_contains() {
    let pages = [
        page("Rust notes", &["lang", "systems"]),
        page("", &[]),
        page("tag:#lang", &["title:Rust"]),
    ];
    for p in &pages {
        for query in ["", "Rust", "lang", "s", "tag", "title:", "#"] {
            let on_title = evaluate_expr(&filter(&format!("title:{}", query)), p);
            assert_eq!(on_title, p.title.contains(query));
            let on_tags = evaluate_expr(&filter(&format!("tag:#{}", query)), p);
            assert_eq!(on_tags, p.tags.iter().any(|tag| tag.contains(query)));
        }
    }
}

#[test]
fn error_messages() {
    assert_eq!(
        ParsingError::UnmatchedParentheses.message(),
        "Unmatched parentheses"
    );
    assert_eq!(
        ParsingError::MissingOperand("A &".to_string()).message(),
        "Missing operand: A &"
    );
    assert_eq!(
        ParsingError::MissingOperator("A B".to_string()).message(),
        "Missing operator: A B"
    );
    assert_eq!(
        ParsingError::InvalidExpression("A B".to_string()).message(),
        "Invalid expression: A B"
    );
    assert_eq!(
        parse_boolean_expr(" x y ").unwrap_err().message(),
        "Invalid expression: x y"
    );
}
