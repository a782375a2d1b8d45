//! The grammar data model and the loader that builds it from declared rule
//! entries: each entry names a non-terminal and gives its alternatives as a
//! `" | "`-separated list of space-separated symbol words.

use vstd::prelude::*;
use vstd::string::{StrSliceExecFns, StringExecFns};

use crate::text;
use crate::tokenizer::{TokenType, TokenView};

verus! {

/// One symbol of a production.
#[derive(Debug, Clone, PartialEq)]
pub enum RuleToken {
    /// A terminal: matches a single stream token of equal classification.
    Token(TokenType),
    /// A reference to a non-terminal of the grammar by name.
    Rule(String),
    /// The empty symbol, written `None` in a rule declaration.
    Epsilon,
}

/// The mathematical value of a symbol.
pub enum SymbolView {
    Token(TokenView),
    Rule(Seq<char>),
    Epsilon,
}

impl View for RuleToken {
    type V = SymbolView;

    open spec fn view(&self) -> SymbolView {
        match self {
            RuleToken::Token(t) => SymbolView::Token(t@),
            RuleToken::Rule(name) => SymbolView::Rule(name@),
            RuleToken::Epsilon => SymbolView::Epsilon,
        }
    }
}

/// The values of one production: its symbols in order.
pub open spec fn production_view(p: Seq<RuleToken>) -> Seq<SymbolView> {
    p.map_values(|s: RuleToken| s@)
}

/// The values of an ordered list of alternative productions.
pub open spec fn alternatives_view(alts: Seq<Vec<RuleToken>>) -> Seq<Seq<SymbolView>> {
    alts.map_values(|p: Vec<RuleToken>| production_view(p@))
}

/// The values of the rule list: each entry a non-terminal name with its
/// ordered alternatives.
pub open spec fn rules_view(rs: Seq<(String, Vec<Vec<RuleToken>>)>) -> Seq<
    (Seq<char>, Seq<Seq<SymbolView>>),
> {
    rs.map_values(|e: (String, Vec<Vec<RuleToken>>)| (e.0@, alternatives_view(e.1@)))
}

/// A grammar: the designated start non-terminal and the declared rules.
#[derive(Debug, Default, PartialEq, Clone)]
pub struct Grammar {
    /// Where recognition starts; by convention the first declared rule.
    pub init_state: String,
    /// The declared rules in order: a non-terminal name and its ordered
    /// alternative productions.  When a name is declared twice, the later
    /// declaration is the one in force.
    pub rules: Vec<(String, Vec<Vec<RuleToken>>)>,
}

/// The mathematical value of a grammar.
pub struct GrammarView {
    pub init_state: Seq<char>,
    pub rules: Seq<(Seq<char>, Seq<Seq<SymbolView>>)>,
}

impl View for Grammar {
    type V = GrammarView;

    open spec fn view(&self) -> GrammarView {
        GrammarView { init_state: self.init_state@, rules: rules_view(self.rules@) }
    }
}

/// The alternatives that a name denotes: those of the last entry declared
/// under that name, or nothing when the name was never declared.
pub open spec fn spec_lookup(
    rs: Seq<(Seq<char>, Seq<Seq<SymbolView>>)>,
    name: Seq<char>,
) -> Option<Seq<Seq<SymbolView>>>
    decreases rs.len(),
{
    if rs.len() == 0 {
        None
    } else if rs.last().0 == name {
        Some(rs.last().1)
    } else {
        spec_lookup(rs.drop_last(), name)
    }
}

/// One declared rule as the loader receives it: the non-terminal's name
/// and the text of its alternatives.
#[derive(Debug, Clone, PartialEq)]
pub struct RuleJSONEntry {
    non_terminal: String,
    content: String,
}

/// The value of a rule entry: name and declaration text as character
/// sequences.
pub struct RuleEntryView {
    pub non_terminal: Seq<char>,
    pub content: Seq<char>,
}

impl View for RuleJSONEntry {
    type V = RuleEntryView;

    closed spec fn view(&self) -> RuleEntryView {
        RuleEntryView { non_terminal: self.non_terminal@, content: self.content@ }
    }
}

impl RuleJSONEntry {
    /// An entry declaring the alternatives of `non_terminal` by the text
    /// `content`.
    pub fn new(non_terminal: String, content: String) -> (e: RuleJSONEntry)
        ensures
            e@.non_terminal == non_terminal@,
            e@.content == content@,
    {
        RuleJSONEntry { non_terminal, content }
    }
}

impl Grammar {
    /// An empty grammar: no start symbol and no rules.
    pub fn new() -> (g: Grammar)
        ensures
            g@.init_state == Seq::<char>::empty(),
            g@.rules == Seq::<(Seq<char>, Seq<Seq<SymbolView>>)>::empty(),
    {
        Grammar { init_state: String::new(), rules: Vec::new() }
    }

    /// The alternatives declared for `name`, or `None` when the grammar has
    /// no rule of that name.
    pub fn get_rule<'a>(&'a self, name: &str) -> (r: Option<&'a Vec<Vec<RuleToken>>>)
        ensures
            match r {
                Some(alts) => spec_lookup(self@.rules, name@) == Some(alternatives_view(alts@)),
                None => spec_lookup(self@.rules, name@) is None,
            },
    {
        let ghost rv = self@.rules;
        let mut i: usize = self.rules.len();
        proof {
            assert(rv.take(i as int) =~= rv);
        }
        while i > 0
            invariant
                i <= self.rules.len(),
                rv == rules_view(self.rules@),
                spec_lookup(rv.take(i as int), name@) == spec_lookup(rv, name@),
            decreases i,
        {
            i = i - 1;
            if text::str_eq(self.rules[i].0.as_str(), name) {
                proof {
                    assert(rv.take(i + 1).drop_last() =~= rv.take(i as int));
                    assert(rv.take(i + 1).last() == rv[i as int]);
                }
                return Some(&self.rules[i].1);
            }
            proof {
                assert(rv.take(i + 1).drop_last() =~= rv.take(i as int));
                assert(rv.take(i + 1).last() == rv[i as int]);
            }
        }
        proof {
            assert(rv.take(0) =~= Seq::<(Seq<char>, Seq<Seq<SymbolView>>)>::empty());
        }
        None
    }
}

/// The names of all declared entries, duplicates kept, in order.
pub open spec fn entry_names(es: Seq<RuleJSONEntry>) -> Seq<Seq<char>> {
    es.map_values(|e: RuleJSONEntry| e@.non_terminal)
}

/// How one symbol word reads: a declared name is a reference, `None` is
/// the empty symbol, the class markers are terminals of their class, and
/// any other word is a keyword terminal of its own text.
pub open spec fn classify_symbol(w: Seq<char>, nts: Seq<Seq<char>>) -> SymbolView {
    if nts.contains(w) {
        SymbolView::Rule(w)
    } else if w == "None"@ {
        SymbolView::Epsilon
    } else if w == "<str>"@ || w == "<id>"@ {
        SymbolView::Token(TokenView::Text)
    } else if w == "<num>"@ {
        SymbolView::Token(TokenView::Int)
    } else if w == "<br>"@ {
        SymbolView::Token(TokenView::Linebreak)
    } else {
        SymbolView::Token(TokenView::Keyword(w))
    }
}

/// The symbols of one alternative's words, in order, empty words skipped.
pub open spec fn words_symbols(ws: Seq<Seq<char>>, nts: Seq<Seq<char>>) -> Seq<SymbolView>
    decreases ws.len(),
{
    if ws.len() == 0 {
        Seq::empty()
    } else {
        let rest = words_symbols(ws.drop_last(), nts);
        if ws.last().len() == 0 {
            rest
        } else {
            rest + seq![classify_symbol(ws.last(), nts)]
        }
    }
}

/// The productions of a list of alternative texts, each split into its
/// space-separated words.
pub open spec fn alts_model(alts: Seq<Seq<char>>, nts: Seq<Seq<char>>) -> Seq<Seq<SymbolView>>
    decreases alts.len(),
{
    if alts.len() == 0 {
        Seq::empty()
    } else {
        alts_model(alts.drop_last(), nts) + seq![
            words_symbols(text::split_sep(alts.last(), seq![' ']), nts),
        ]
    }
}

/// The alternatives one entry's text declares: the `" | "`-separated
/// pieces, each read as a production.
pub open spec fn content_alternatives(content: Seq<char>, nts: Seq<Seq<char>>) -> Seq<
    Seq<SymbolView>,
> {
    alts_model(text::split_sep(content, seq![' ', '|', ' ']), nts)
}

/// The rule list the entries declare, in order.
pub open spec fn rules_model(es: Seq<RuleJSONEntry>, nts: Seq<Seq<char>>) -> Seq<
    (Seq<char>, Seq<Seq<SymbolView>>),
>
    decreases es.len(),
{
    if es.len() == 0 {
        Seq::empty()
    } else {
        rules_model(es.drop_last(), nts) + seq![
            (es.last()@.non_terminal, content_alternatives(es.last()@.content, nts)),
        ]
    }
}

/// The grammar the entries declare: the first entry's name is the start
/// symbol, and every entry contributes its alternatives in order.
pub open spec fn spec_parse_grammar(es: Seq<RuleJSONEntry>) -> GrammarView {
    GrammarView {
        init_state: es[0]@.non_terminal,
        rules: rules_model(es, entry_names(es)),
    }
}

/// Whether `w` is the name of some declared entry.
fn is_non_terminal(w: &str, input: &Vec<RuleJSONEntry>) -> (r: bool)
    ensures
        r == entry_names(input@).contains(w@),
{
    let mut i: usize = 0;
    while i < input.len()
        invariant
            i <= input@.len(),
            forall|k: int| 0 <= k < i ==> entry_names(input@)[k] != w@,
        decreases input@.len() - i,
    {
        if text::str_eq(input[i].non_terminal.as_str(), w) {
            proof {
                assert(entry_names(input@)[i as int] == w@);
            }
            return true;
        }
        i += 1;
    }
    false
}

/// The symbol one word declares, exactly as [`classify_symbol`] states.
fn classify_symbol_exec(w: &str, input: &Vec<RuleJSONEntry>) -> (s: RuleToken)
    ensures
        s@ == classify_symbol(w@, entry_names(input@)),
{
    if is_non_terminal(w, input) {
        RuleToken::Rule(String::from_str(w))
    } else if text::str_eq(w, "None") {
        RuleToken::Epsilon
    } else if text::str_eq(w, "<str>") || text::str_eq(w, "<id>") {
        RuleToken::Token(TokenType::Text)
    } else if text::str_eq(w, "<num>") {
        RuleToken::Token(TokenType::Int)
    } else if text::str_eq(w, "<br>") {
        RuleToken::Token(TokenType::Linebreak)
    } else {
        RuleToken::Token(TokenType::Keyword(String::from_str(w)))
    }
}

/// Builds the grammar the entries declare, exactly
/// [`spec_parse_grammar`]: the start symbol is the first entry's name;
/// each entry's text is split on `" | "` into alternatives and each
/// alternative on spaces into symbol words, empty words skipped.  At least
/// one entry must be given.
pub fn parse_grammar(input: Vec<RuleJSONEntry>) -> (g: Grammar)
    requires
        input@.len() > 0,
    ensures
        g@ == spec_parse_grammar(input@),
{
    let ghost nts = entry_names(input@);
    let mut rules: Vec<(String, Vec<Vec<RuleToken>>)> = Vec::new();
    let mut i: usize = 0;
    proof {
        assert(input@.take(0) =~= Seq::<RuleJSONEntry>::empty());
        assert(rules_view(rules@) =~= rules_model(input@.take(0), nts));
    }
    while i < input.len()
        invariant
            i <= input@.len(),
            nts == entry_names(input@),
            rules_view(rules@) == rules_model(input@.take(i as int), nts),
        decreases input@.len() - i,
    {
        let entry = &input[i];
        proof {
            reveal_strlit(" | ");
            assert(" | "@ =~= seq![' ', '|', ' ']);
        }
        let alts_str = text::split_str(entry.content.as_str(), " | ");
        let ghost av = text::strs_view(alts_str@);
        let mut prods: Vec<Vec<RuleToken>> = Vec::new();
        let mut j: usize = 0;
        proof {
            assert(av.take(0) =~= Seq::<Seq<char>>::empty());
            assert(alternatives_view(prods@) =~= alts_model(av.take(0), nts));
        }
        while j < alts_str.len()
            invariant
                j <= alts_str@.len(),
                nts == entry_names(input@),
                av == text::strs_view(alts_str@),
                alternatives_view(prods@) == alts_model(av.take(j as int), nts),
            decreases alts_str@.len() - j,
        {
            proof {
                reveal_strlit(" ");
                assert(" "@ =~= seq![' ']);
            }
            let words = text::split_str(alts_str[j].as_str(), " ");
            let ghost wv = text::strs_view(words@);
            let mut prod: Vec<RuleToken> = Vec::new();
            let mut k: usize = 0;
            proof {
                assert(wv.take(0) =~= Seq::<Seq<char>>::empty());
                assert(production_view(prod@) =~= words_symbols(wv.take(0), nts));
            }
            while k < words.len()
                invariant
                    k <= words@.len(),
                    nts == entry_names(input@),
                    wv == text::strs_view(words@),
                    production_view(prod@) == words_symbols(wv.take(k as int), nts),
                decreases words@.len() - k,
            {
                proof {
                    assert(wv.take(k + 1).drop_last() =~= wv.take(k as int));
                    assert(wv.take(k + 1).last() == wv[k as int]);
                }
                let word = &words[k];
                if word.as_str().unicode_len() > 0 {
                    let ghost old_prod = prod@;
                    prod.push(classify_symbol_exec(word.as_str(), &input));
                    proof {
                        assert(production_view(prod@) =~= production_view(old_prod) + seq![
                            classify_symbol(wv[k as int], nts),
                        ]);
                    }
                }
                k += 1;
            }
            proof {
                assert(wv.take(words@.len() as int) =~= wv);
                assert(av.take(j + 1).drop_last() =~= av.take(j as int));
                assert(av.take(j + 1).last() == av[j as int]);
            }
            let ghost old_prods = prods@;
            prods.push(prod);
            proof {
                assert(alternatives_view(prods@) =~= alternatives_view(old_prods) + seq![
                    words_symbols(text::split_sep(av[j as int], seq![' ']), nts),
                ]);
                assert(alternatives_view(prods@) == alts_model(av.take(j + 1), nts));
            }
            j += 1;
        }
        proof {
            assert(av.take(alts_str@.len() as int) =~= av);
            assert(input@.take(i + 1).drop_last() =~= input@.take(i as int));
            assert(input@.take(i + 1).last() == input@[i as int]);
        }
        let name = input[i].non_terminal.clone();
        let ghost old_rules = rules@;
        rules.push((name, prods));
        proof {
            assert(rules_view(rules@) =~= rules_view(old_rules) + seq![
                (input@[i as int]@.non_terminal, content_alternatives(
                    input@[i as int]@.content,
                    nts,
                )),
            ]);
            assert(rules_view(rules@) == rules_model(input@.take(i + 1), nts));
        }
        i += 1;
    }
    let init_state = input[0].non_terminal.clone();
    let g = Grammar { init_state, rules };
    proof {
        assert(input@.take(input@.len() as int) =~= input@);
        assert(g@.rules == rules_model(input@, nts));
        assert(g@.init_state == input@[0]@.non_terminal);
    }
    g
}

} // verus!
