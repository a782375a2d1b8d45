//! The rule matcher and the recognizer entry point.
//!
//! A production is matched left to right against the token stream.  A
//! terminal must equal the token under the cursor; a reference expands the
//! named non-terminal and commits to its first successful alternative
//! (ordered choice); the empty symbol succeeds at the end of the stream and
//! otherwise consumes nothing.  The production succeeds as soon as its last
//! symbol's condition is satisfied, so trailing unconsumed tokens do not
//! invalidate a match.  Expanding a reference consumes one unit of fuel;
//! running out of fuel (possible only for grammars with a cyclic, token-free
//! derivation) is distinguished from an ordinary failure and makes the
//! recognizer reject.

use vstd::prelude::*;

use crate::rule_parser::{alternatives_view, production_view, spec_lookup, Grammar, GrammarView,
    RuleToken, SymbolView};
use crate::tokenizer::{toks_view, token_eq, TokenType, TokenView};

verus! {

/// What matching one production (or one list of alternatives) yields: the
/// cursor of a successful match, an ordinary failure, or fuel exhaustion.
pub enum MatchResult {
    Matched(int),
    Failed,
    OutOfFuel,
}

/// Matching outcome of the executable matcher; its value is the
/// corresponding [`MatchResult`].
#[derive(Debug, Clone, Copy, PartialEq)]
pub enum MatchOutcome {
    Matched(usize),
    Failed,
    OutOfFuel,
}

impl View for MatchOutcome {
    type V = MatchResult;

    open spec fn view(&self) -> MatchResult {
        match self {
            MatchOutcome::Matched(c) => MatchResult::Matched(*c as int),
            MatchOutcome::Failed => MatchResult::Failed,
            MatchOutcome::OutOfFuel => MatchResult::OutOfFuel,
        }
    }
}

/// Matches one production against `tokens` from `cursor`, symbol by symbol.
///
/// A terminal fails when the stream is exhausted or the token under the
/// cursor differs; when it is the production's last symbol the match
/// succeeds at the cursor of the matched token, not yet advanced past it.
/// The empty symbol succeeds immediately at the end of the stream, consumes
/// nothing elsewhere, and fails as a last symbol before the end.  A
/// reference is resolved with [`spec_lookup`] — an undeclared name is a
/// local failure — and the production's result is the reference's result.
pub open spec fn match_production(
    tokens: Seq<TokenView>,
    rules: Seq<(Seq<char>, Seq<Seq<SymbolView>>)>,
    prod: Seq<SymbolView>,
    cursor: int,
    fuel: nat,
) -> MatchResult
    decreases fuel, 0int, prod.len(),
{
    if prod.len() == 0 {
        MatchResult::Failed
    } else {
        match prod.first() {
            SymbolView::Token(t) => {
                if !(0 <= cursor < tokens.len()) {
                    MatchResult::Failed
                } else if tokens[cursor] != t {
                    MatchResult::Failed
                } else if prod.len() == 1 {
                    MatchResult::Matched(cursor)
                } else {
                    match_production(tokens, rules, prod.drop_first(), cursor + 1, fuel)
                }
            },
            SymbolView::Epsilon => {
                if cursor == tokens.len() {
                    MatchResult::Matched(cursor)
                } else if prod.len() == 1 {
                    MatchResult::Failed
                } else {
                    match_production(tokens, rules, prod.drop_first(), cursor, fuel)
                }
            },
            SymbolView::Rule(name) => {
                match spec_lookup(rules, name) {
                    Option::None => MatchResult::Failed,
                    Option::Some(alts) => {
                        if fuel == 0 {
                            MatchResult::OutOfFuel
                        } else {
                            match_alternatives(tokens, rules, alts, cursor, (fuel - 1) as nat)
                        }
                    },
                }
            },
        }
    }
}

/// Tries the alternatives in declaration order and commits to the first
/// whose match succeeds; fuel exhaustion inside an alternative is
/// propagated, an ordinary failure moves on to the next alternative.
pub open spec fn match_alternatives(
    tokens: Seq<TokenView>,
    rules: Seq<(Seq<char>, Seq<Seq<SymbolView>>)>,
    alts: Seq<Seq<SymbolView>>,
    cursor: int,
    fuel: nat,
) -> MatchResult
    decreases fuel, 1int, alts.len(),
{
    if alts.len() == 0 {
        MatchResult::Failed
    } else {
        match match_production(tokens, rules, alts.first(), cursor, fuel) {
            MatchResult::Matched(c) => MatchResult::Matched(c),
            MatchResult::OutOfFuel => MatchResult::OutOfFuel,
            MatchResult::Failed => match_alternatives(
                tokens,
                rules,
                alts.drop_first(),
                cursor,
                fuel,
            ),
        }
    }
}

/// The fuel the recognizer grants: one unit per pair of a declared rule and
/// a cursor position, and one more, capped at the machine word.  A
/// terminating search never nests reference expansions deeper than the
/// number of such pairs, so exhaustion at this bound means a cyclic,
/// token-free derivation.
pub open spec fn spec_fuel(tokens: Seq<TokenView>, g: GrammarView) -> nat {
    let full = g.rules.len() * (tokens.len() + 1) + 1;
    if full <= usize::MAX as nat {
        full
    } else {
        usize::MAX as nat
    }
}

/// Whether the token stream is derivable from the grammar's start
/// non-terminal: some alternative of the start rule matches at cursor 0.
/// An absent start rule, and fuel exhaustion, both reject.
pub open spec fn spec_recognize(tokens: Seq<TokenView>, g: GrammarView) -> bool {
    match spec_lookup(g.rules, g.init_state) {
        Option::None => false,
        Option::Some(alts) => match_alternatives(
            tokens,
            g.rules,
            alts,
            0,
            spec_fuel(tokens, g),
        ) is Matched,
    }
}

/// Recognition is deterministic: it is a function of the values of the
/// token stream and the grammar alone, so equal values give equal results.
pub proof fn lemma_recognize_deterministic(
    t1: Seq<TokenView>,
    g1: GrammarView,
    t2: Seq<TokenView>,
    g2: GrammarView,
)
    requires
        t1 == t2,
        g1.init_state == g2.init_state,
        g1.rules == g2.rules,
    ensures
        spec_recognize(t1, g1) == spec_recognize(t2, g2),
{
}

/// A start non-terminal whose single alternative is the empty symbol alone
/// accepts exactly the empty token stream.
pub proof fn lemma_epsilon_start(t: Seq<TokenView>, g: GrammarView)
    requires
        spec_lookup(g.rules, g.init_state) == Some(seq![seq![SymbolView::Epsilon]]),
    ensures
        spec_recognize(t, g) == (t.len() == 0),
{
    let alts = seq![seq![SymbolView::Epsilon]];
    let prod = seq![SymbolView::Epsilon];
    let fuel = spec_fuel(t, g);
    assert(alts.first() == prod);
    assert(prod.first() == SymbolView::Epsilon);
    if t.len() == 0 {
        assert(match_production(t, g.rules, prod, 0, fuel) == MatchResult::Matched(0));
    } else {
        assert(match_production(t, g.rules, prod, 0, fuel) == MatchResult::Failed);
        assert(alts.drop_first() =~= Seq::<Seq<SymbolView>>::empty());
        assert(match_alternatives(t, g.rules, Seq::<Seq<SymbolView>>::empty(), 0, fuel)
            == MatchResult::Failed);
        assert(match_alternatives(t, g.rules, alts, 0, fuel) == MatchResult::Failed);
    }
}

/// A start non-terminal whose single alternative is one terminal accepts
/// exactly the streams whose first token equals that terminal — trailing
/// tokens are left unconsumed and do not invalidate the match.
pub proof fn lemma_single_terminal(t: Seq<TokenView>, g: GrammarView, term: TokenView)
    requires
        spec_lookup(g.rules, g.init_state) == Some(seq![seq![SymbolView::Token(term)]]),
    ensures
        spec_recognize(t, g) == (t.len() > 0 && t[0] == term),
{
    let alts = seq![seq![SymbolView::Token(term)]];
    let prod = seq![SymbolView::Token(term)];
    let fuel = spec_fuel(t, g);
    assert(alts.first() == prod);
    assert(prod.first() == SymbolView::Token(term));
    if t.len() > 0 && t[0] == term {
        assert(match_production(t, g.rules, prod, 0, fuel) == MatchResult::Matched(0));
    } else {
        assert(match_production(t, g.rules, prod, 0, fuel) == MatchResult::Failed);
        assert(alts.drop_first() =~= Seq::<Seq<SymbolView>>::empty());
        assert(match_alternatives(t, g.rules, Seq::<Seq<SymbolView>>::empty(), 0, fuel)
            == MatchResult::Failed);
        assert(match_alternatives(t, g.rules, alts, 0, fuel) == MatchResult::Failed);
    }
}

/// Ordered choice: when two alternatives can both match at a cursor, the
/// pair is accepted whichever of the two is listed first, so swapping two
/// always-successful alternatives never turns acceptance into rejection.
pub proof fn lemma_ordered_choice(
    t: Seq<TokenView>,
    rules: Seq<(Seq<char>, Seq<Seq<SymbolView>>)>,
    a: Seq<SymbolView>,
    b: Seq<SymbolView>,
    cursor: int,
    fuel: nat,
)
    requires
        match_production(t, rules, a, cursor, fuel) is Matched,
        match_production(t, rules, b, cursor, fuel) is Matched,
    ensures
        match_alternatives(t, rules, seq![a, b], cursor, fuel) is Matched,
        match_alternatives(t, rules, seq![b, a], cursor, fuel) is Matched,
{
    assert(seq![a, b].first() == a);
    assert(seq![b, a].first() == b);
}

/// Ordered choice at the recognizer: a grammar whose start non-terminal
/// lists two alternatives that both match at cursor 0 accepts; applying the
/// law to the grammar with the two alternatives swapped shows the outcome
/// does not depend on their order.
pub proof fn lemma_ordered_choice_accepts(
    t: Seq<TokenView>,
    g: GrammarView,
    a: Seq<SymbolView>,
    b: Seq<SymbolView>,
)
    requires
        spec_lookup(g.rules, g.init_state) == Some(seq![a, b]),
        match_production(t, g.rules, a, 0, spec_fuel(t, g)) is Matched,
        match_production(t, g.rules, b, 0, spec_fuel(t, g)) is Matched,
    ensures
        spec_recognize(t, g),
{
    lemma_ordered_choice(t, g.rules, a, b, 0, spec_fuel(t, g));
}

/// The alternatives of the self-repeating rule `S -> w S | w`.
pub open spec fn repetition_alternatives(init: Seq<char>, w: Seq<char>) -> Seq<Seq<SymbolView>> {
    seq![
        seq![SymbolView::Token(TokenView::Keyword(w)), SymbolView::Rule(init)],
        seq![SymbolView::Token(TokenView::Keyword(w))],
    ]
}

proof fn lemma_repetition_helper(
    t: Seq<TokenView>,
    rules: Seq<(Seq<char>, Seq<Seq<SymbolView>>)>,
    init: Seq<char>,
    w: Seq<char>,
    cursor: int,
    fuel: nat,
)
    requires
        spec_lookup(rules, init) == Some(repetition_alternatives(init, w)),
        0 <= cursor < t.len(),
        forall|i: int| 0 <= i < t.len() ==> t[i] == TokenView::Keyword(w),
        fuel >= t.len() - cursor,
    ensures
        match_alternatives(t, rules, repetition_alternatives(init, w), cursor, fuel) is Matched,
    decreases t.len() - cursor,
{
    let alts = repetition_alternatives(init, w);
    let p1 = seq![SymbolView::Token(TokenView::Keyword(w)), SymbolView::Rule(init)];
    let p2 = seq![SymbolView::Token(TokenView::Keyword(w))];
    assert(alts.first() == p1);
    assert(alts.drop_first() =~= seq![p2]);
    assert(p1.first() == SymbolView::Token(TokenView::Keyword(w)));
    assert(p1.drop_first() =~= seq![SymbolView::Rule(init)]);
    let tail = seq![SymbolView::Rule(init)];
    assert(tail.first() == SymbolView::Rule(init));
    // The first alternative consumes one `w` token and then expands the rule
    // itself at the next cursor; the second consumes one `w` token and ends.
    assert(t[cursor] == TokenView::Keyword(w));
    let sub = match_alternatives(t, rules, alts, cursor + 1, (fuel - 1) as nat);
    if cursor + 1 < t.len() {
        lemma_repetition_helper(t, rules, init, w, cursor + 1, (fuel - 1) as nat);
        assert(match_production(t, rules, tail, cursor + 1, fuel) == sub);
        assert(match_production(t, rules, p1, cursor, fuel) == sub);
    } else {
        // At the end of the stream both alternatives of the expansion fail,
        // so the first alternative fails and the second one matches.
        assert(p2.first() == SymbolView::Token(TokenView::Keyword(w)));
        assert(match_production(t, rules, p1, cursor + 1, (fuel - 1) as nat)
            == MatchResult::Failed);
        assert(match_production(t, rules, p2, cursor + 1, (fuel - 1) as nat)
            == MatchResult::Failed);
        assert(seq![p2].drop_first() =~= Seq::<Seq<SymbolView>>::empty());
        assert(match_alternatives(
            t,
            rules,
            Seq::<Seq<SymbolView>>::empty(),
            cursor + 1,
            (fuel - 1) as nat,
        ) == MatchResult::Failed);
        assert(match_alternatives(t, rules, seq![p2], cursor + 1, (fuel - 1) as nat)
            == MatchResult::Failed);
        assert(sub == MatchResult::Failed);
        assert(match_production(t, rules, p1, cursor, fuel) == MatchResult::Failed);
        assert(match_production(t, rules, p2, cursor, fuel) == MatchResult::Matched(cursor));
        assert(match_alternatives(t, rules, seq![p2], cursor, fuel) is Matched);
    }
}

/// The self-repeating rule `S -> w S | w` accepts every non-empty stream of
/// `w` keyword tokens.
pub proof fn lemma_repetition_accepts(t: Seq<TokenView>, g: GrammarView, w: Seq<char>)
    requires
        spec_lookup(g.rules, g.init_state) == Some(
            repetition_alternatives(g.init_state, w),
        ),
        0 < t.len() <= usize::MAX as nat,
        forall|i: int| 0 <= i < t.len() ==> t[i] == TokenView::Keyword(w),
    ensures
        spec_recognize(t, g),
{
    if g.rules.len() == 0 {
        assert(spec_lookup(g.rules, g.init_state) is None);
    }
    let r = g.rules.len();
    let l = t.len();
    assert(r * (l + 1) >= l + 1) by (nonlinear_arith)
        requires r >= 1;
    assert(spec_fuel(t, g) >= t.len());
    lemma_repetition_helper(t, g.rules, g.init_state, w, 0, spec_fuel(t, g));
}

/// The self-repeating rule `S -> w S | w` rejects the empty stream.
pub proof fn lemma_repetition_rejects_empty(t: Seq<TokenView>, g: GrammarView, w: Seq<char>)
    requires
        spec_lookup(g.rules, g.init_state) == Some(
            repetition_alternatives(g.init_state, w),
        ),
        t.len() == 0,
    ensures
        !spec_recognize(t, g),
{
    lemma_repetition_rejects(t, g, w);
}

/// The self-repeating rule `S -> w S | w` rejects every stream that does
/// not begin with the `w` keyword token: both alternatives need it first.
/// (A stream that begins with `w` and holds another token later can still
/// be accepted through the single-`w` alternative, which leaves the
/// trailing tokens unconsumed.)
pub proof fn lemma_repetition_rejects(t: Seq<TokenView>, g: GrammarView, w: Seq<char>)
    requires
        spec_lookup(g.rules, g.init_state) == Some(
            repetition_alternatives(g.init_state, w),
        ),
        t.len() == 0 || t[0] != TokenView::Keyword(w),
    ensures
        !spec_recognize(t, g),
{
    let alts = repetition_alternatives(g.init_state, w);
    let fuel = spec_fuel(t, g);
    let p1 = seq![
        SymbolView::Token(TokenView::Keyword(w)),
        SymbolView::Rule(g.init_state),
    ];
    let p2 = seq![SymbolView::Token(TokenView::Keyword(w))];
    assert(alts.first() == p1);
    assert(alts.drop_first() =~= seq![p2]);
    assert(p1.first() == SymbolView::Token(TokenView::Keyword(w)));
    assert(p2.first() == SymbolView::Token(TokenView::Keyword(w)));
    assert(match_production(t, g.rules, p1, 0, fuel) == MatchResult::Failed);
    assert(match_production(t, g.rules, p2, 0, fuel) == MatchResult::Failed);
    assert(seq![p2].drop_first() =~= Seq::<Seq<SymbolView>>::empty());
    assert(match_alternatives(t, g.rules, Seq::<Seq<SymbolView>>::empty(), 0, fuel)
        == MatchResult::Failed);
    assert(match_alternatives(t, g.rules, seq![p2], 0, fuel) == MatchResult::Failed);
    assert(match_alternatives(t, g.rules, alts, 0, fuel) == MatchResult::Failed);
}

/// A reference to a non-terminal the grammar never declares is a local
/// match failure, not a crash: a start rule whose single alternative is
/// such a bare reference rejects every stream.
pub proof fn lemma_unresolved_reference(t: Seq<TokenView>, g: GrammarView, z: Seq<char>)
    requires
        spec_lookup(g.rules, g.init_state) == Some(seq![seq![SymbolView::Rule(z)]]),
        spec_lookup(g.rules, z) is None,
    ensures
        !spec_recognize(t, g),
{
    let alts = seq![seq![SymbolView::Rule(z)]];
    let prod = seq![SymbolView::Rule(z)];
    let fuel = spec_fuel(t, g);
    assert(alts.first() == prod);
    assert(prod.first() == SymbolView::Rule(z));
    assert(match_production(t, g.rules, prod, 0, fuel) == MatchResult::Failed);
    assert(alts.drop_first() =~= Seq::<Seq<SymbolView>>::empty());
    assert(match_alternatives(t, g.rules, Seq::<Seq<SymbolView>>::empty(), 0, fuel)
        == MatchResult::Failed);
    assert(match_alternatives(t, g.rules, alts, 0, fuel) == MatchResult::Failed);
}

/// Matches the production `prod`, from its symbol `pos` on, against
/// `tokens` starting at `cursor`.
fn apply_rule_at(
    tokens: &[TokenType],
    grammar: &Grammar,
    prod: &Vec<RuleToken>,
    pos: usize,
    cursor: usize,
    fuel: usize,
) -> (r: MatchOutcome)
    requires
        pos <= prod@.len(),
        cursor <= tokens@.len(),
    ensures
        r@ == match_production(
            toks_view(tokens@),
            grammar@.rules,
            production_view(prod@).skip(pos as int),
            cursor as int,
            fuel as nat,
        ),
    decreases fuel, 0int, prod@.len() - pos,
{
    let ghost pv = production_view(prod@).skip(pos as int);
    if pos == prod.len() {
        return MatchOutcome::Failed;
    }
    proof {
        assert(pv.first() == production_view(prod@)[pos as int]);
        assert(pv.drop_first() =~= production_view(prod@).skip(pos + 1));
    }
    match &prod[pos] {
        RuleToken::Token(t) => {
            if cursor >= tokens.len() {
                MatchOutcome::Failed
            } else if !token_eq(&tokens[cursor], t) {
                MatchOutcome::Failed
            } else if pos == prod.len() - 1 {
                MatchOutcome::Matched(cursor)
            } else {
                apply_rule_at(tokens, grammar, prod, pos + 1, cursor + 1, fuel)
            }
        },
        RuleToken::Epsilon => {
            if cursor == tokens.len() {
                MatchOutcome::Matched(cursor)
            } else if pos == prod.len() - 1 {
                MatchOutcome::Failed
            } else {
                apply_rule_at(tokens, grammar, prod, pos + 1, cursor, fuel)
            }
        },
        RuleToken::Rule(name) => {
            match grammar.get_rule(name.as_str()) {
                Option::None => MatchOutcome::Failed,
                Option::Some(alts) => {
                    if fuel == 0 {
                        MatchOutcome::OutOfFuel
                    } else {
                        proof {
                            assert(alternatives_view(alts@).skip(0) =~= alternatives_view(alts@));
                        }
                        apply_alternatives_at(tokens, grammar, alts, 0, cursor, fuel - 1)
                    }
                },
            }
        },
    }
}

/// Tries, in order, the alternatives of `alts` from index `pos` on, each at
/// `cursor`, and commits to the first success.
fn apply_alternatives_at(
    tokens: &[TokenType],
    grammar: &Grammar,
    alts: &Vec<Vec<RuleToken>>,
    pos: usize,
    cursor: usize,
    fuel: usize,
) -> (r: MatchOutcome)
    requires
        pos <= alts@.len(),
        cursor <= tokens@.len(),
    ensures
        r@ == match_alternatives(
            toks_view(tokens@),
            grammar@.rules,
            alternatives_view(alts@).skip(pos as int),
            cursor as int,
            fuel as nat,
        ),
    decreases fuel, 1int, alts@.len() - pos,
{
    let ghost av = alternatives_view(alts@).skip(pos as int);
    if pos == alts.len() {
        return MatchOutcome::Failed;
    }
    proof {
        assert(av.first() == alternatives_view(alts@)[pos as int]);
        assert(av.drop_first() =~= alternatives_view(alts@).skip(pos + 1));
    }
    proof {
        assert(production_view(alts@[pos as int]@).skip(0) =~= production_view(alts@[pos as int]@));
    }
    match apply_rule_at(tokens, grammar, &alts[pos], 0, cursor, fuel) {
        MatchOutcome::Matched(c) => MatchOutcome::Matched(c),
        MatchOutcome::OutOfFuel => MatchOutcome::OutOfFuel,
        MatchOutcome::Failed => apply_alternatives_at(tokens, grammar, alts, pos + 1, cursor, fuel),
    }
}

/// The fuel of [`spec_fuel`], computed with saturating machine arithmetic.
fn compute_fuel(tokens: &[TokenType], grammar: &Grammar) -> (fuel: usize)
    ensures
        fuel as nat == spec_fuel(toks_view(tokens@), grammar@),
{
    let nr = grammar.rules.len();
    let len = tokens.len();
    let ghost r: nat = grammar@.rules.len();
    let ghost l: nat = toks_view(tokens@).len();
    proof {
        assert(r == nr);
        assert(l == len);
    }
    if nr == 0 {
        proof {
            assert(r * (l + 1) == 0) by (nonlinear_arith)
                requires r == 0;
        }
        1
    } else if len == usize::MAX {
        proof {
            assert(r * (l + 1) >= l + 1) by (nonlinear_arith)
                requires r >= 1;
        }
        usize::MAX
    } else {
        match nr.checked_mul(len + 1) {
            Option::None => {
                proof {
                    assert(r * (l + 1) == nr * (len + 1));
                }
                usize::MAX
            },
            Option::Some(p) => {
                proof {
                    assert(r * (l + 1) == nr * (len + 1));
                }
                if p == usize::MAX {
                    usize::MAX
                } else {
                    p + 1
                }
            },
        }
    }
}

/// Runs the matcher on every alternative of the grammar's start
/// non-terminal, in declaration order, at cursor 0, and reports whether any
/// matched: exactly [`spec_recognize`] on the values of the two arguments.
/// A grammar without a rule for its start symbol rejects every stream, as
/// does a cyclic, token-free derivation, which exhausts the matcher's fuel
/// instead of recursing forever.
pub fn apply_grammar(tokens: &[TokenType], grammar: Grammar) -> (valid: bool)
    ensures
        valid == spec_recognize(toks_view(tokens@), grammar@),
{
    let fuel = compute_fuel(tokens, &grammar);
    match grammar.get_rule(grammar.init_state.as_str()) {
        Option::None => false,
        Option::Some(alts) => {
            proof {
                assert(alternatives_view(alts@).skip(0) =~= alternatives_view(alts@));
            }
            match apply_alternatives_at(tokens, &grammar, alts, 0, 0, fuel) {
                MatchOutcome::Matched(_) => true,
                MatchOutcome::Failed => false,
                MatchOutcome::OutOfFuel => false,
            }
        },
    }
}

} // verus!
