use packrat::peg::{Error, Grammar, Rule, CST};
use packrat::{innit, is_cat, is_digit};
use unicode_general_category::GeneralCategory;

#[test]
fn parse_empty() {
    let input: Vec<char> = "x".chars().collect();
    let mut grammar = Grammar::new();
    grammar.insert("EMPTY".to_string(), Rule::Empty);
    let (rest, cst) = grammar.parse("EMPTY", input).unwrap();
    assert_eq!(rest.clone().next(), Some('x'));
    assert_eq!(cst, None);
}

#[test]
fn parse_empty_then_a() {
    let input: Vec<char> = "a".chars().collect();
    let mut grammar = Grammar::new();
    grammar.insert(
        "A".to_string(),
        Rule::Sequence(vec![Rule::Empty, Rule::Terminal(innit('a'))]),
    );
    let (rest, cst) = grammar.parse("A", input).unwrap();
    assert_eq!(rest.clone().next(), None);
    assert_eq!(
        cst,
        Some(CST::Node("A".to_string(), Box::new(CST::Terminal('a'))))
    );
}

#[test]
fn parse_a() {
    let input: Vec<char> = "a".chars().collect();
    let mut grammar = Grammar::new();
    // Rule to recognise a single 'a'
    grammar.insert("A".to_string(), Rule::Terminal(innit('a')));
    let (rest, cst) = grammar.parse("A", input).unwrap();
    assert_eq!(rest.clone().next(), None);
    assert_eq!(
        cst,
        Some(CST::Node("A".to_string(), Box::new(CST::Terminal('a'))))
    );
}

#[test]
fn parse_a_or_b() {
    let input: Vec<char> = "b".chars().collect();
    let mut grammar = Grammar::new();
    grammar.insert(
        "AORB".to_string(),
        Rule::Choice(vec![Rule::Terminal(innit('a')), Rule::Terminal(innit('b'))]),
    );
    let (rest, cst) = grammar.parse("AORB", input).unwrap();
    assert_eq!(rest.clone().next(), None);
    assert_eq!(
        cst,
        Some(CST::Node("AORB".to_string(), Box::new(CST::Terminal('b'))))
    );
}

#[test]
fn parse_optional_not_there() {
    let input: Vec<char> = "b".chars().collect();
    let mut grammar = Grammar::new();
    grammar.insert(
        "OPTIONAL".to_string(),
        Rule::Sequence(vec![
            Rule::Optional(Box::new(Rule::Terminal(innit('a')))),
            Rule::Terminal(innit('b')),
        ]),
    );
    let (rest, cst) = grammar.parse("OPTIONAL", input).unwrap();
    assert_eq!(rest.clone().next(), None);
    assert_eq!(
        cst,
        Some(CST::Node(
            "OPTIONAL".to_string(),
            Box::new(CST::Terminal('b'))
        ))
    );
}

#[test]
fn parse_optional_and_there() {
    let input: Vec<char> = "ab".chars().collect();
    let mut grammar = Grammar::new();
    grammar.insert(
        "OPTIONAL".to_string(),
        Rule::Sequence(vec![
            Rule::Optional(Box::new(Rule::Terminal(innit('a')))),
            Rule::Terminal(innit('b')),
        ]),
    );
    let (rest, cst) = grammar.parse("OPTIONAL", input).unwrap();
    assert_eq!(rest.clone().next(), None);
    assert_eq!(
        cst,
        Some(CST::Node(
            "OPTIONAL".to_string(),
            Box::new(CST::Sequence(vec![CST::Terminal('a'), CST::Terminal('b')]))
        ))
    );
}

#[test]
fn parse_many_a_or_b_zero() {
    let input: Vec<char> = "".chars().collect();
    let mut grammar = Grammar::new();
    grammar.insert(
        "AORB".to_string(),
        Rule::ZeroOrMore(Box::new(Rule::Choice(vec![
            Rule::Terminal(innit('a')),
            Rule::Terminal(innit('b')),
        ]))),
    );
    let (rest, cst) = grammar.parse("AORB", input).unwrap();
    assert_eq!(rest.clone().next(), None);
    assert_eq!(cst, None);
}

#[test]
fn parse_many_a_or_b_one() {
    let input: Vec<char> = "b".chars().collect();
    let mut grammar = Grammar::new();
    grammar.insert(
        "AORB".to_string(),
        Rule::ZeroOrMore(Box::new(Rule::Choice(vec![
            Rule::Terminal(innit('a')),
            Rule::Terminal(innit('b')),
        ]))),
    );
    let (rest, cst) = grammar.parse("AORB", input).unwrap();
    assert_eq!(rest.clone().next(), None);
    assert_eq!(
        cst,
        Some(CST::Node("AORB".to_string(), Box::new(CST::Terminal('b'))))
    );
}

#[test]
fn parse_many_a_or_b_more() {
    let input: Vec<char> = "bab".chars().collect();
    let mut grammar = Grammar::new();
    grammar.insert(
        "AORB".to_string(),
        Rule::ZeroOrMore(Box::new(Rule::Choice(vec![
            Rule::Terminal(innit('a')),
            Rule::Terminal(innit('b')),
        ]))),
    );
    let (rest, cst) = grammar.parse("AORB", input).unwrap();
    assert_eq!(rest.clone().next(), None);
    assert_eq!(
        cst,
        Some(CST::Node(
            "AORB".to_string(),
            Box::new(CST::Sequence(vec![
                CST::Terminal('b'),
                CST::Terminal('a'),
                CST::Terminal('b')
            ]))
        ))
    );
}

#[test]
fn parse_number() {
    let input: Vec<char> = "123".chars().collect();
    let mut grammar = Grammar::new();
    grammar.insert(
        "NUMBER".to_string(),
        Rule::OneOrMore(Box::new(Rule::Terminal(is_cat(
            GeneralCategory::DecimalNumber,
        )))),
    );
    let (rest, cst) = grammar.parse("NUMBER", input).unwrap();
    assert_eq!(rest.clone().next(), None);
    assert_eq!(
        cst,
        Some(CST::Node(
            "NUMBER".to_string(),
            Box::new(CST::Sequence(vec![
                CST::Terminal('1'),
                CST::Terminal('2'),
                CST::Terminal('3')
            ]))
        ))
    );
}

#[test]
fn parse_zero() {
    let input: Vec<char> = "1".chars().collect();
    let mut grammar = Grammar::new();
    grammar.insert(
        "ZERO".to_string(),
        Rule::ZeroOrMore(Box::new(Rule::Terminal(innit('0')))),
    );
    let (rest, cst) = grammar.parse("ZERO", input).unwrap();
    assert_eq!(rest.clone().next(), Some('1'));
    // when parsing zero or more, the result for an empty match is None (but it succeeds)
    assert_eq!(cst, None);
}

#[test]
fn test_memoization() {
    let input: Vec<char> = "acb".chars().collect();
    let mut grammar = Grammar::new();
    grammar.insert("A".to_string(), Rule::Terminal(innit('a')));
    grammar.insert("B".to_string(), Rule::Terminal(innit('b')));
    grammar.insert("C".to_string(), Rule::Terminal(innit('c')));
    grammar.insert(
        "ABC".to_string(),
        Rule::Sequence(vec![
            Rule::NonStream("A".to_string()),
            Rule::NonStream("B".to_string()),
            Rule::NonStream("C".to_string()),
        ]),
    );
    grammar.insert(
        "ACB".to_string(),
        Rule::Sequence(vec![
            Rule::NonStream("A".to_string()),
            Rule::NonStream("C".to_string()),
            Rule::NonStream("B".to_string()),
        ]),
    );
    grammar.insert(
        "ABCorACB".to_string(),
        Rule::Choice(vec![
            Rule::NonStream("ABC".to_string()),
            Rule::NonStream("ACB".to_string()),
        ]),
    );

    let (rest, cst) = grammar.parse("ABCorACB", input).unwrap();
    assert_eq!(rest.clone().next(), None);
    assert_eq!(
        cst,
        Some(CST::Node(
            "ABCorACB".to_string(),
            Box::new(CST::Node(
                "ACB".to_string(),
                Box::new(CST::Sequence(vec![
                    CST::Node("A".to_string(), Box::new(CST::Terminal('a'))),
                    CST::Node("C".to_string(), Box::new(CST::Terminal('c'))),
                    CST::Node("B".to_string(), Box::new(CST::Terminal('b')))
                ]))
            ))
        ))
    );
}

#[test]
fn and_predicate_test_succeed() {
    let input: Vec<char> = "2".chars().collect();
    let mut grammar = Grammar::new();
    grammar.insert("TWO".to_string(), Rule::Terminal(innit('2')));
    grammar.insert("DIGIT".to_string(), Rule::Terminal(is_digit()));
    // parses any digit as long as it is a 2
    grammar.insert(
        "PREDICATE".to_string(),
        Rule::Sequence(vec![
            Rule::AndPredicate(Box::new(Rule::NonStream("TWO".to_string()))),
            Rule::NonStream("DIGIT".to_string()),
        ]),
    );
    let (rest, cst) = grammar.parse("PREDICATE", input).unwrap();
    assert_eq!(rest.clone().next(), None);
    assert_eq!(
        cst,
        Some(CST::Node(
            "PREDICATE".to_string(),
            Box::new(CST::Node(
                "DIGIT".to_string(),
                Box::new(CST::Terminal('2'))
            ))
        ))
    );
}

#[test]
fn and_predicate_test_fail() {
    let input: Vec<char> = "3".chars().collect();
    let mut grammar = Grammar::new();
    grammar.insert("TWO".to_string(), Rule::Terminal(innit('2')));
    grammar.insert("DIGIT".to_string(), Rule::Terminal(is_digit()));
    // parses any digit as long as it is a 2
    grammar.insert(
        "PREDICATE".to_string(),
        Rule::Sequence(vec![
            Rule::AndPredicate(Box::new(Rule::NonStream("TWO".to_string()))),
            Rule::NonStream("DIGIT".to_string()),
        ]),
    );
    let res = grammar.parse("PREDICATE", input);
    assert!(res.is_err());
    assert_eq!(res.unwrap_err(), Error::CannotMatchStreamItem);
}

#[test]
fn left_recursion() {
    let input: Vec<char> = "A".chars().collect();
    let mut grammar = Grammar::new();
    grammar.insert(
        "A".to_string(),
        Rule::Choice(vec![
            Rule::NonStream("A".to_string()),
            Rule::Terminal(innit('a')),
        ]),
    );
    let res = grammar.parse("A", input);
    assert!(res.is_err());
    assert_eq!(res.unwrap_err(), Error::CannotFindValidChoice);
}

#[test]
fn left_recursion_detected_directly() {
    // A rule whose body immediately references itself: the sentinel makes the
    // re-entrant application fail, and nothing catches the error.
    let input: Vec<char> = "a".chars().collect();
    let mut grammar = Grammar::new();
    grammar.insert("A".to_string(), Rule::NonStream("A".to_string()));
    let res = grammar.parse("A", input);
    assert_eq!(res.unwrap_err(), Error::LeftRecursionNotSupported);
}

#[test]
fn left_recursion_choice_falls_through() {
    // In a choice, the guard's error is discarded and the next alternative
    // still matches the input.
    let input: Vec<char> = "a".chars().collect();
    let mut grammar = Grammar::new();
    grammar.insert(
        "A".to_string(),
        Rule::Choice(vec![
            Rule::NonStream("A".to_string()),
            Rule::Terminal(innit('a')),
        ]),
    );
    let (rest, cst) = grammar.parse("A", input).unwrap();
    assert_eq!(rest.clone().next(), None);
    assert_eq!(
        cst,
        Some(CST::Node("A".to_string(), Box::new(CST::Terminal('a'))))
    );
}

#[test]
fn parse_missing_rule() {
    let input: Vec<char> = "a".chars().collect();
    let grammar = Grammar::new();
    let res = grammar.parse("MISSING", input);
    assert_eq!(
        res.unwrap_err(),
        Error::CannotFindRule("MISSING".to_string())
    );
}

#[test]
fn parse_terminal_on_exhausted_stream() {
    let input: Vec<char> = "".chars().collect();
    let mut grammar = Grammar::new();
    grammar.insert("A".to_string(), Rule::Terminal(innit('a')));
    let res = grammar.parse("A", input);
    assert_eq!(res.unwrap_err(), Error::CannotParseStream);
}

#[test]
fn parse_reference_to_empty_rule() {
    // A named reference demands a non-empty result from its target.
    let input: Vec<char> = "x".chars().collect();
    let mut grammar = Grammar::new();
    grammar.insert("E".to_string(), Rule::Empty);
    grammar.insert("REF".to_string(), Rule::NonStream("E".to_string()));
    let res = grammar.parse("REF", input);
    assert_eq!(res.unwrap_err(), Error::EmptyNonOptionalParserResult);
}

#[test]
fn parse_no_valid_choice() {
    let input: Vec<char> = "c".chars().collect();
    let mut grammar = Grammar::new();
    grammar.insert(
        "AORB".to_string(),
        Rule::Choice(vec![Rule::Terminal(innit('a')), Rule::Terminal(innit('b'))]),
    );
    let res = grammar.parse("AORB", input);
    assert_eq!(res.unwrap_err(), Error::CannotFindValidChoice);
}

#[test]
fn memoized_failure_reports_real_error() {
    // A failed (rule, position) pair is recorded with its real error: the
    // second reference to A at position 0 replays the terminal mismatch, not
    // the left-recursion sentinel.
    let input: Vec<char> = "b".chars().collect();
    let mut grammar = Grammar::new();
    grammar.insert("A".to_string(), Rule::Terminal(innit('a')));
    grammar.insert(
        "S".to_string(),
        Rule::Sequence(vec![
            Rule::Optional(Box::new(Rule::NonStream("A".to_string()))),
            Rule::NonStream("A".to_string()),
        ]),
    );
    let res = grammar.parse("S", input);
    assert_eq!(res.unwrap_err(), Error::CannotMatchStreamItem);
}

#[test]
fn memoized_missing_rule_stays_distinguishable() {
    // A dangling reference is recorded as CannotFindRule, so a second
    // reference to the same missing rule at the same position still reports
    // the grammar-construction defect.
    let input: Vec<char> = "x".chars().collect();
    let mut grammar = Grammar::new();
    grammar.insert(
        "S".to_string(),
        Rule::Sequence(vec![
            Rule::Optional(Box::new(Rule::NonStream("MISSING".to_string()))),
            Rule::NonStream("MISSING".to_string()),
        ]),
    );
    let res = grammar.parse("S", input);
    assert_eq!(
        res.unwrap_err(),
        Error::CannotFindRule("MISSING".to_string())
    );
}

#[test]
fn parse_is_idempotent() {
    // Re-running an unmodified grammar on an equal fresh stream yields an
    // identical result.
    let mut grammar = Grammar::new();
    grammar.insert(
        "AORB".to_string(),
        Rule::ZeroOrMore(Box::new(Rule::Choice(vec![
            Rule::Terminal(innit('a')),
            Rule::Terminal(innit('b')),
        ]))),
    );
    let input1: Vec<char> = "bab".chars().collect();
    let input2: Vec<char> = "bab".chars().collect();
    let (rest1, cst1) = grammar.parse("AORB", input1).unwrap();
    let (rest2, cst2) = grammar.parse("AORB", input2).unwrap();
    assert_eq!(cst1, cst2);
    assert_eq!(rest1.clone().next(), rest2.clone().next());
}

#[test]
fn insert_overwrites_prior_rule() {
    // Last write wins: the second rule under the same name replaces the
    // first.
    let mut grammar = Grammar::new();
    grammar.insert("A".to_string(), Rule::Terminal(innit('a')));
    grammar.insert("A".to_string(), Rule::Terminal(innit('b')));
    let input: Vec<char> = "b".chars().collect();
    let (rest, cst) = grammar.parse("A", input).unwrap();
    assert_eq!(rest.clone().next(), None);
    assert_eq!(
        cst,
        Some(CST::Node("A".to_string(), Box::new(CST::Terminal('b'))))
    );
}

#[test]
fn digit_predicate_distinguishes() {
    let mut grammar = Grammar::new();
    grammar.insert("DIGIT".to_string(), Rule::Terminal(is_digit()));
    let ok: Vec<char> = "7".chars().collect();
    let (rest, cst) = grammar.parse("DIGIT", ok).unwrap();
    assert_eq!(rest.clone().next(), None);
    assert_eq!(
        cst,
        Some(CST::Node("DIGIT".to_string(), Box::new(CST::Terminal('7'))))
    );
    let bad: Vec<char> = "x".chars().collect();
    let res = grammar.parse("DIGIT", bad);
    assert_eq!(res.unwrap_err(), Error::CannotMatchStreamItem);
}

#[test]
fn category_predicate_distinguishes() {
    let mut grammar = Grammar::new();
    grammar.insert(
        "LOWER".to_string(),
        Rule::Terminal(is_cat(GeneralCategory::LowercaseLetter)),
    );
    let ok: Vec<char> = "a".chars().collect();
    let (rest, cst) = grammar.parse("LOWER", ok).unwrap();
    assert_eq!(rest.clone().next(), None);
    assert_eq!(
        cst,
        Some(CST::Node("LOWER".to_string(), Box::new(CST::Terminal('a'))))
    );
    let bad: Vec<char> = "A".chars().collect();
    let res = grammar.parse("LOWER", bad);
    assert_eq!(res.unwrap_err(), Error::CannotMatchStreamItem);
}
