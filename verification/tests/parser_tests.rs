use grammar_check::rule_parser::{parse_grammar, Grammar, RuleJSONEntry, RuleToken};
use grammar_check::tokenizer::TokenType;

fn entry(non_terminal: &str, content: &str) -> RuleJSONEntry {
    RuleJSONEntry::new(non_terminal.to_string(), content.to_string())
}

#[test]
fn works() {
    let rule: Vec<RuleJSONEntry> = vec![
        entry("S", "C S | C"),
        entry("C", "contact <id> <id> <num> <num> <br> E"),
        entry("E", "R E | D E | None"),
        entry("R", "rate <num> <num> <num> <br>"),
        entry("D", "delay <num> <num> <num> <br>"),
    ];

    let grammar = parse_grammar(rule);

    assert_eq!(grammar.init_state, "S");

    assert_eq!(grammar.rules.len(), 5);

    assert_eq!(grammar.get_rule("S").unwrap().len(), 2);
    assert_eq!(
        grammar.get_rule("S").unwrap()[0],
        vec![
            RuleToken::Rule(String::from("C")),
            RuleToken::Rule(String::from("S"))
        ]
    );
    assert_eq!(
        grammar.get_rule("S").unwrap()[1],
        vec![RuleToken::Rule(String::from("C"))]
    );

    assert_eq!(grammar.get_rule("C").unwrap().len(), 1);
    assert_eq!(
        grammar.get_rule("C").unwrap()[0],
        vec![
            RuleToken::Token(TokenType::Keyword(String::from("contact"))),
            RuleToken::Token(TokenType::Text),
            RuleToken::Token(TokenType::Text),
            RuleToken::Token(TokenType::Int),
            RuleToken::Token(TokenType::Int),
            RuleToken::Token(TokenType::Linebreak),
            RuleToken::Rule(String::from("E"))
        ]
    );

    assert_eq!(grammar.get_rule("E").unwrap().len(), 3);
    assert_eq!(
        grammar.get_rule("E").unwrap()[0],
        vec![
            RuleToken::Rule(String::from("R")),
            RuleToken::Rule(String::from("E"))
        ]
    );

    assert_eq!(
        grammar.get_rule("E").unwrap()[1],
        vec![
            RuleToken::Rule(String::from("D")),
            RuleToken::Rule(String::from("E"))
        ]
    );

    assert_eq!(grammar.get_rule("E").unwrap()[2], vec![RuleToken::Epsilon]);

    assert_eq!(grammar.get_rule("R").unwrap().len(), 1);
    assert_eq!(
        grammar.get_rule("R").unwrap()[0],
        vec![
            RuleToken::Token(TokenType::Keyword(String::from("rate"))),
            RuleToken::Token(TokenType::Int),
            RuleToken::Token(TokenType::Int),
            RuleToken::Token(TokenType::Int),
            RuleToken::Token(TokenType::Linebreak)
        ]
    );

    assert_eq!(grammar.get_rule("D").unwrap().len(), 1);
    assert_eq!(
        grammar.get_rule("D").unwrap()[0],
        vec![
            RuleToken::Token(TokenType::Keyword(String::from("delay"))),
            RuleToken::Token(TokenType::Int),
            RuleToken::Token(TokenType::Int),
            RuleToken::Token(TokenType::Int),
            RuleToken::Token(TokenType::Linebreak)
        ]
    );
}

#[test]
fn new_grammar_is_empty() {
    let grammar = Grammar::new();
    assert_eq!(grammar.init_state, "");
    assert!(grammar.rules.is_empty());
    assert!(grammar.get_rule("S").is_none());
}

#[test]
fn later_declaration_wins() {
    let grammar = parse_grammar(vec![entry("S", "<num>"), entry("S", "<id>")]);
    assert_eq!(grammar.init_state, "S");
    assert_eq!(grammar.rules.len(), 2);
    assert_eq!(
        grammar.get_rule("S").unwrap()[0],
        vec![RuleToken::Token(TokenType::Text)]
    );
}

#[test]
fn symbol_vocabulary() {
    let grammar = parse_grammar(vec![entry("S", "<str> <id> <num> <br> None S stop")]);
    assert_eq!(
        grammar.get_rule("S").unwrap()[0],
        vec![
            RuleToken::Token(TokenType::Text),
            RuleToken::Token(TokenType::Text),
            RuleToken::Token(TokenType::Int),
            RuleToken::Token(TokenType::Linebreak),
            RuleToken::Epsilon,
            RuleToken::Rule(String::from("S")),
            RuleToken::Token(TokenType::Keyword(String::from("stop")))
        ]
    );
}

#[test]
fn extra_spaces_are_skipped() {
    let grammar = parse_grammar(vec![entry("S", "a  b")]);
    assert_eq!(
        grammar.get_rule("S").unwrap()[0],
        vec![
            RuleToken::Token(TokenType::Keyword(String::from("a"))),
            RuleToken::Token(TokenType::Keyword(String::from("b")))
        ]
    );
}

#[test]
fn a_declared_name_shadows_the_vocabulary() {
    // A non-terminal named `None` is a reference, not the empty symbol,
    // because declared names are checked first.
    let grammar = parse_grammar(vec![entry("S", "None"), entry("None", "<num>")]);
    assert_eq!(
        grammar.get_rule("S").unwrap()[0],
        vec![RuleToken::Rule(String::from("None"))]
    );
}
