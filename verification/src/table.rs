//! Lookup in the transition table: the first rule, in list order, that applies
//! to a state and a symbol.

use crate::machine::{rules_view, Rule, RuleView};
use vstd::prelude::*;

verus! {

/// Whether `rule` applies in `state` when `symbol` is under the head.
pub open spec fn rule_matches(rule: RuleView, state: Seq<char>, symbol: char) -> bool {
    rule.from_state == state && rule.read_symbol == symbol
}

/// Whether `rules[index]` applies and no rule before it does.
pub open spec fn is_first_match(
    rules: Seq<RuleView>,
    state: Seq<char>,
    symbol: char,
    index: int,
) -> bool {
    &&& 0 <= index < rules.len()
    &&& rule_matches(rules[index], state, symbol)
    &&& forall|earlier: int|
        0 <= earlier < index ==> !rule_matches(#[trigger] rules[earlier], state, symbol)
}

/// The index of the first rule that applies, if any rule does.
pub open spec fn first_match(rules: Seq<RuleView>, state: Seq<char>, symbol: char) -> Option<int> {
    if exists|index: int| is_first_match(rules, state, symbol, index) {
        Some(choose|index: int| is_first_match(rules, state, symbol, index))
    } else {
        None
    }
}

/// The first rule that applies, if any rule does.
pub open spec fn matching_rule(rules: Seq<RuleView>, state: Seq<char>, symbol: char) -> Option<
    RuleView,
> {
    match first_match(rules, state, symbol) {
        Some(index) => Some(rules[index]),
        None => None,
    }
}

/// Among several rules for the same state and symbol the earliest in the list
/// is the one looked up: if `rules[index]` applies and no rule before it does,
/// the lookup gives `rules[index]`, whatever follows it.
pub proof fn lemma_first_match_wins(
    rules: Seq<RuleView>,
    state: Seq<char>,
    symbol: char,
    index: int,
)
    requires
        is_first_match(rules, state, symbol, index),
    ensures
        first_match(rules, state, symbol) == Some(index),
        matching_rule(rules, state, symbol) == Some(rules[index]),
{
    let chosen = choose|other: int| is_first_match(rules, state, symbol, other);
    assert(is_first_match(rules, state, symbol, chosen));
    if chosen < index {
        assert(!rule_matches(rules[chosen], state, symbol));
    }
    if index < chosen {
        assert(!rule_matches(rules[index], state, symbol));
    }
}

/// The lookup finds nothing exactly when no rule of the list applies.
pub proof fn lemma_no_match(rules: Seq<RuleView>, state: Seq<char>, symbol: char)
    ensures
        first_match(rules, state, symbol) is None <==> forall|index: int|
            0 <= index < rules.len() ==> !rule_matches(#[trigger] rules[index], state, symbol),
        first_match(rules, state, symbol) matches Some(index) ==> is_first_match(
            rules,
            state,
            symbol,
            index,
        ),
{
    if exists|index: int| 0 <= index < rules.len() && rule_matches(#[trigger] rules[index], state, symbol) {
        let some = choose|index: int|
            0 <= index < rules.len() && rule_matches(#[trigger] rules[index], state, symbol);
        lemma_least_match(rules, state, symbol, some);
    }
}

/// Below any rule that applies there is a first one that does.
proof fn lemma_least_match(rules: Seq<RuleView>, state: Seq<char>, symbol: char, upper: int)
    requires
        0 <= upper < rules.len(),
        rule_matches(rules[upper], state, symbol),
    ensures
        exists|index: int| is_first_match(rules, state, symbol, index),
    decreases upper,
{
    if exists|earlier: int| 0 <= earlier < upper && rule_matches(#[trigger] rules[earlier], state, symbol) {
        let earlier = choose|earlier: int|
            0 <= earlier < upper && rule_matches(#[trigger] rules[earlier], state, symbol);
        lemma_least_match(rules, state, symbol, earlier);
    } else {
        assert(is_first_match(rules, state, symbol, upper));
    }
}

/// The first rule of `rules`, in list order, whose state is `state` and whose
/// read symbol is `symbol`; `None` when no rule has both.
pub fn find_rule<'a>(rules: &'a Vec<Rule>, state: &String, symbol: char) -> (found: Option<
    &'a Rule,
>)
    ensures
        found matches Some(rule) ==> exists|index: int|
            is_first_match(rules_view(rules@), state@, symbol, index) && *rule == rules@[index],
        found is None ==> forall|index: int|
            0 <= index < rules.len() ==> !rule_matches(
                #[trigger] rules_view(rules@)[index],
                state@,
                symbol,
            ),
        (match found {
            Some(rule) => Some(rule@),
            None => None,
        }) == matching_rule(rules_view(rules@), state@, symbol),
{
    let mut index: usize = 0;
    while index < rules.len()
        invariant
            index <= rules.len(),
            forall|earlier: int|
                0 <= earlier < index ==> !rule_matches(
                    #[trigger] rules_view(rules@)[earlier],
                    state@,
                    symbol,
                ),
        decreases rules.len() - index,
    {
        let rule = &rules[index];
        if rule.read_symbol == symbol && rule.from_state == *state {
            proof {
                assert(rules_view(rules@)[index as int] == rule@);
                assert(is_first_match(rules_view(rules@), state@, symbol, index as int));
                lemma_first_match_wins(rules_view(rules@), state@, symbol, index as int);
            }
            return Some(rule);
        }
        index += 1;
    }
    proof {
        lemma_no_match(rules_view(rules@), state@, symbol);
    }
    None
}

} // verus!
