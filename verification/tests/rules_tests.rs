use grammar_check::rule_parser::{parse_grammar, Grammar, RuleJSONEntry, RuleToken};
use grammar_check::rules::apply_grammar;
use grammar_check::tokenizer::{tokenizer, TokenType};

fn grammar_with(init: &str, rules: Vec<(&str, Vec<Vec<RuleToken>>)>) -> Grammar {
    let mut grammar = Grammar::new();
    grammar.init_state = init.to_string();
    grammar.rules = rules
        .into_iter()
        .map(|(name, alts)| (name.to_string(), alts))
        .collect();
    grammar
}

#[test]
fn test_epsilon_works() {
    let epsilon_grammar = grammar_with("S", vec![("S", vec![vec![RuleToken::Epsilon]])]);

    let tokens = vec![];

    assert!(apply_grammar(&tokens, epsilon_grammar));
}

#[test]
fn test_matching_string() {
    let grammar = grammar_with("S", vec![("S", vec![vec![RuleToken::Token(TokenType::Text)]])]);

    let tokens = vec![TokenType::Text];

    assert!(apply_grammar(&tokens, grammar));
}

#[test]
fn terminal_having_several_possibilities() {
    let grammar = grammar_with(
        "S",
        vec![(
            "S",
            vec![
                vec![RuleToken::Token(TokenType::Text)],
                vec![RuleToken::Token(TokenType::Int)],
            ],
        )],
    );

    let tokens = vec![TokenType::Text];

    assert!(apply_grammar(&tokens, grammar));
}

#[test]
fn test_matching_rule() {
    let grammar = grammar_with(
        "S",
        vec![
            (
                "S",
                vec![vec![
                    RuleToken::Token(TokenType::Text),
                    RuleToken::Rule("A".to_string()),
                ]],
            ),
            ("A", vec![vec![RuleToken::Token(TokenType::Int)]]),
        ],
    );

    let tokens = vec![TokenType::Text, TokenType::Int];

    assert!(apply_grammar(&tokens, grammar));
}

#[test]
fn terminal_leading_to_several_terminals() {
    let grammar = grammar_with(
        "S",
        vec![
            (
                "S",
                vec![vec![
                    RuleToken::Rule("A".to_string()),
                    RuleToken::Rule("B".to_string()),
                ]],
            ),
            ("A", vec![vec![RuleToken::Token(TokenType::Int)]]),
            (
                "B",
                vec![vec![RuleToken::Token(TokenType::Text), RuleToken::Epsilon]],
            ),
        ],
    );

    let tokens = vec![TokenType::Int, TokenType::Text];

    assert!(apply_grammar(&tokens, grammar));
}

#[test]
fn terminal_with_possibilities_having_several_terminals() {
    let grammar = grammar_with(
        "S",
        vec![
            (
                "S",
                vec![vec![
                    RuleToken::Rule("A".to_string()),
                    RuleToken::Rule("B".to_string()),
                ]],
            ),
            ("A", vec![vec![RuleToken::Token(TokenType::Int)]]),
            (
                "B",
                vec![vec![RuleToken::Token(TokenType::Text), RuleToken::Epsilon]],
            ),
        ],
    );

    let tokens = vec![TokenType::Int, TokenType::Text];

    assert!(apply_grammar(&tokens, grammar));
}

#[test]
fn recognition_is_deterministic() {
    let tokens = vec![TokenType::Int, TokenType::Text];
    let grammar = grammar_with("S", vec![("S", vec![vec![RuleToken::Token(TokenType::Int)]])]);
    let first = apply_grammar(&tokens, grammar.clone());
    let second = apply_grammar(&tokens, grammar);
    assert_eq!(first, second);
    assert!(first);
}

#[test]
fn epsilon_start_rejects_non_empty() {
    let grammar = grammar_with("S", vec![("S", vec![vec![RuleToken::Epsilon]])]);
    let tokens = vec![TokenType::Int];
    assert!(!apply_grammar(&tokens, grammar));
}

#[test]
fn single_terminal_int() {
    let grammar = grammar_with("S", vec![("S", vec![vec![RuleToken::Token(TokenType::Int)]])]);
    assert!(apply_grammar(&[TokenType::Int], grammar.clone()));
    assert!(!apply_grammar(&[TokenType::Text], grammar.clone()));
    // Acceptance does not require full consumption: the production's last
    // symbol matched, so the trailing token is left unconsumed.
    assert!(apply_grammar(&[TokenType::Int, TokenType::Int], grammar));
}

#[test]
fn ordered_choice_is_order_independent_for_acceptance() {
    let a = vec![RuleToken::Token(TokenType::Int)];
    let b = vec![RuleToken::Token(TokenType::Int), RuleToken::Epsilon];
    let tokens = vec![TokenType::Int];

    let first = grammar_with("S", vec![("S", vec![a.clone(), b.clone()])]);
    let swapped = grammar_with("S", vec![("S", vec![b, a])]);

    assert!(apply_grammar(&tokens, first));
    assert!(apply_grammar(&tokens, swapped));
}

#[test]
fn repeated_keyword_rule() {
    let x = || RuleToken::Token(TokenType::Keyword("x".to_string()));
    let grammar = grammar_with(
        "S",
        vec![(
            "S",
            vec![vec![x(), RuleToken::Rule("S".to_string())], vec![x()]],
        )],
    );
    let tok = || TokenType::Keyword("x".to_string());

    assert!(apply_grammar(&[tok()], grammar.clone()));
    assert!(apply_grammar(&[tok(), tok()], grammar.clone()));
    assert!(apply_grammar(&[tok(), tok(), tok()], grammar.clone()));
    assert!(!apply_grammar(&[], grammar.clone()));
    assert!(!apply_grammar(&[TokenType::Int], grammar.clone()));
    assert!(!apply_grammar(
        &[TokenType::Keyword("y".to_string())],
        grammar.clone()
    ));
    // A stream that begins with `x` but goes on with another token is still
    // accepted: the single-`x` alternative matches and the trailing token is
    // left unconsumed, as acceptance does not require full consumption.
    assert!(apply_grammar(&[tok(), TokenType::Int], grammar));
}

#[test]
fn unresolved_reference_rejects() {
    let grammar = grammar_with("S", vec![("S", vec![vec![RuleToken::Rule("Z".to_string())]])]);
    let tokens = vec![TokenType::Int];
    assert!(!apply_grammar(&tokens, grammar.clone()));
    assert!(!apply_grammar(&[], grammar));
}

#[test]
fn missing_start_rule_rejects() {
    let grammar = grammar_with("S", vec![("A", vec![vec![RuleToken::Epsilon]])]);
    assert!(!apply_grammar(&[], grammar));
}

#[test]
fn cyclic_grammar_terminates_and_rejects() {
    // S -> S derives nothing while consuming nothing: the matcher's fuel
    // runs out and the stream is rejected instead of recursing forever.
    let grammar = grammar_with("S", vec![("S", vec![vec![RuleToken::Rule("S".to_string())]])]);
    assert!(!apply_grammar(&[TokenType::Int], grammar.clone()));
    assert!(!apply_grammar(&[], grammar));
}

#[test]
fn empty_production_fails_and_next_alternative_is_tried() {
    // " | a" declares an empty first alternative; it can match nothing, so
    // recognition falls through to the keyword alternative.
    let grammar = parse_grammar(vec![RuleJSONEntry::new("S".to_string(), " | a".to_string())]);
    assert_eq!(grammar.get_rule("S").unwrap().len(), 2);
    assert_eq!(grammar.get_rule("S").unwrap()[0], Vec::<RuleToken>::new());

    let tokens = vec![TokenType::Keyword("a".to_string())];
    assert!(apply_grammar(&tokens, grammar.clone()));
    assert!(!apply_grammar(&[], grammar));
}

#[test]
fn contact_scenario_accepts() {
    let grammar = parse_grammar(vec![
        RuleJSONEntry::new(
            "S".to_string(),
            "contact <id> <id> <num> <num> <br> E".to_string(),
        ),
        RuleJSONEntry::new(
            "E".to_string(),
            "rate <num> <num> <num> <br> E | delay <num> <num> <num> <br> E | None".to_string(),
        ),
    ]);

    let accepted = tokenizer("contact A B 20 50\nrate 5 20 35\ndelay 1 20 50");
    assert!(apply_grammar(&accepted, grammar.clone()));

    let rejected = tokenizer("contact A B 20");
    assert!(!apply_grammar(&rejected, grammar));
}
