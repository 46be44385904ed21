use vstd::prelude::*;
use crate::rng::{Randomness, sum_u64};
use crate::rule::{Action, ActionParam, Rule, RuleError, is_upper, serialize_actions, views_of};
use crate::textutil::chars_to_string;

verus! {

/// No element appears twice.
pub open spec fn distinct_seq<T>(s: Seq<T>) -> bool {
    forall|i: int, j: int| 0 <= i < j < s.len() ==> s[i] != s[j]
}

/// Sum of a weight sequence is bounded by its length times a bound on
/// its elements.
pub proof fn lemma_sum_bounded(s: Seq<u64>, b: int)
    requires
        forall|i: int| 0 <= i < s.len() ==> s[i] <= b,
        0 <= b,
    ensures
        sum_u64(s) <= s.len() * b,
    decreases s.len(),
{
    if s.len() > 0 {
        lemma_sum_bounded(s.drop_last(), b);
        assert((s.len() - 1) * b + b == s.len() * b) by (nonlinear_arith);
    }
}

/// Draws `quantity` values from `values` without replacement, each draw
/// weighted by the matching entry of `weights`. Every returned value is
/// one of the given values.
pub fn weighted_index_values<T: Copy>(
    rng: &mut Randomness,
    values: &Vec<T>,
    weights: &Vec<u64>,
    quantity: usize,
) -> (r: Vec<T>)
    requires
        values@.len() == weights@.len(),
        1 <= values@.len() <= 1000,
        quantity <= values@.len(),
        forall|i: int| 0 <= i < weights@.len() ==> 1 <= #[trigger] weights@[i] <= 1000,
    ensures
        r@.len() == quantity,
        forall|k: int| 0 <= k < r@.len() ==> values@.contains(#[trigger] r@[k]),
        distinct_seq(values@) ==> distinct_seq(r@),
{
    let mut vals: Vec<T> = Vec::new();
    let mut ws: Vec<u64> = Vec::new();
    let n = values.len();
    for i in 0..n
        invariant
            n == values@.len() == weights@.len(),
            vals@ == values@.take(i as int),
            ws@ == weights@.take(i as int),
    {
        vals.push(values[i]);
        ws.push(weights[i]);
        proof {
            assert(vals@ =~= values@.take(i + 1));
            assert(ws@ =~= weights@.take(i + 1));
        }
    }
    proof {
        assert(values@.take(n as int) =~= values@);
        assert(weights@.take(n as int) =~= weights@);
        assert forall|k: int| 0 <= k < vals@.len() implies values@.contains(
            #[trigger] vals@[k],
        ) by {
            assert(values@[k] == vals@[k]);
        }
    }
    let mut out: Vec<T> = Vec::new();
    for t in 0..quantity
        invariant
            out@.len() == t,
            vals@.len() == ws@.len(),
            vals@.len() == values@.len() - t,
            quantity <= values@.len() <= 1000,
            forall|i: int| 0 <= i < ws@.len() ==> 1 <= #[trigger] ws@[i] <= 1000,
            forall|k: int| 0 <= k < vals@.len() ==> values@.contains(#[trigger] vals@[k]),
            forall|k: int| 0 <= k < out@.len() ==> values@.contains(#[trigger] out@[k]),
            distinct_seq(values@) ==> distinct_seq(vals@),
            distinct_seq(values@) ==> distinct_seq(out@),
            distinct_seq(values@) ==> (forall|k: int, l: int|
                0 <= k < out@.len() && 0 <= l < vals@.len() ==> #[trigger] out@[k]
                    != #[trigger] vals@[l]),
    {
        proof {
            lemma_sum_bounded(ws@, 1000);
        }
        let idx = rng.weighted_pick(&ws);
        let picked = vals[idx];
        let ghost out_before = out@;
        let ghost vals_at_pick = vals@;
        out.push(picked);
        proof {
            assert forall|k: int| 0 <= k < out@.len() implies values@.contains(
                #[trigger] out@[k],
            ) by {
                if k < out_before.len() {
                    assert(out@[k] == out_before[k]);
                } else {
                    assert(out@[k] == vals@[idx as int]);
                }
            }
        }
        // remove the chosen value (and its weight) by swapping in the last
        let last = vals.len() - 1;
        let moved_val = vals[last];
        let moved_w = ws[last];
        let ghost vals_before = vals@;
        vals[idx] = moved_val;
        ws[idx] = moved_w;
        vals.pop();
        ws.pop();
        proof {
            assert forall|k: int| 0 <= k < vals@.len() implies values@.contains(
                #[trigger] vals@[k],
            ) by {
                if k == idx {
                    assert(vals@[k] == vals_before[vals_before.len() - 1]);
                } else {
                    assert(vals@[k] == vals_before[k]);
                }
            }
            if distinct_seq(values@) {
                // every surviving element comes from a distinct position of
                // the pre-removal vector, none of them the picked one
                assert forall|k: int, l: int|
                    0 <= k < l < vals@.len() implies vals@[k] != vals@[l] by {
                    let pk: int = if k == idx {
                        vals_before.len() - 1
                    } else {
                        k
                    };
                    let pl: int = if l == idx {
                        vals_before.len() - 1
                    } else {
                        l
                    };
                    assert(vals@[k] == vals_before[pk] && vals@[l] == vals_before[pl]);
                    assert(pk != pl);
                }
                assert(distinct_seq(out@)) by {
                    assert forall|k: int, l: int|
                        0 <= k < l < out@.len() implies out@[k] != out@[l] by {
                        if l < out_before.len() {
                        } else {
                            assert(out@[l] == vals_at_pick[idx as int]);
                            assert(out@[k] == out_before[k]);
                        }
                    }
                }
                assert forall|k: int, l: int|
                    0 <= k < out@.len() && 0 <= l < vals@.len() implies #[trigger] out@[k]
                    != #[trigger] vals@[l] by {
                    let pl: int = if l == idx {
                        vals_before.len() - 1
                    } else {
                        l
                    };
                    assert(vals@[l] == vals_before[pl]);
                    if k < out_before.len() {
                        assert(out@[k] == out_before[k]);
                    } else {
                        assert(out@[k] == vals_before[idx as int]);
                        assert(pl != idx);
                    }
                }
            }
        }
    }
    out
}

/// Draws `quantity` values without replacement under a two-tier
/// weighting: a leading fraction of the values gets `pref_weight`, the
/// rest weight 1.
pub fn weighted_values<T: Copy>(
    rng: &mut Randomness,
    values: &Vec<T>,
    ratio_permille: u32,
    pref_weight: u64,
    quantity: usize,
) -> (r: Vec<T>)
    requires
        1 <= values@.len() <= 1000,
        quantity <= values@.len(),
        ratio_permille <= 1000,
        1 <= pref_weight <= 1000,
    ensures
        r@.len() == quantity,
        forall|k: int| 0 <= k < r@.len() ==> values@.contains(#[trigger] r@[k]),
        distinct_seq(values@) ==> distinct_seq(r@),
{
    let n = values.len();
    proof {
        assert(values@.len() * ratio_permille <= 1000 * 1000) by (nonlinear_arith)
            requires
                values@.len() <= 1000,
                ratio_permille <= 1000,
        ;
    }
    let num_high = (n * ratio_permille as usize + 500) / 1000;
    let mut weights: Vec<u64> = Vec::new();
    for i in 0..n
        invariant
            weights@.len() == i,
            1 <= pref_weight <= 1000,
            forall|k: int| 0 <= k < i ==> 1 <= #[trigger] weights@[k] <= 1000,
    {
        if i < num_high {
            weights.push(pref_weight);
        } else {
            weights.push(1);
        }
    }
    weighted_index_values(rng, values, &weights, quantity)
}

/// Chooses the size of the alphabet.
pub struct LetterSettings {
    num_letters: usize,
}

impl LetterSettings {
    pub closed spec fn count(self) -> int {
        self.num_letters as int
    }

    pub fn random(rng: &mut Randomness) -> (r: Self)
        ensures
            6 <= r.count() <= 26,
    {
        LetterSettings { num_letters: rng.between(6, 26) as usize }
    }

    /// The first `count` uppercase letters of the alphabet, in order.
    pub fn generate(&self) -> (r: Vec<char>)
        requires
            self.count() <= 26,
        ensures
            r@.len() == self.count(),
            forall|i: int| 0 <= i < r@.len() ==> #[trigger] r@[i] as int == 65 + i,
            forall|i: int, j: int| 0 <= i < j < r@.len() ==> r@[i] != r@[j],
    {
        let mut out: Vec<char> = Vec::new();
        for i in 0..self.num_letters
            invariant
                self.num_letters <= 26,
                out@.len() == i,
                forall|k: int| 0 <= k < i ==> #[trigger] out@[k] as int == 65 + k,
        {
            let code: u8 = 65 + (i as u8);
            out.push(code as char);
        }
        out
    }
}

/// A 9-slot literal mask condition: every slot is "any", or pinned to
/// one of the given letters.
pub open spec fn mask_condition(s: Seq<char>, letters: Seq<char>) -> bool {
    s.len() == 9 && forall|k: int| 0 <= k < 9 ==> s[k] == '.' || letters.contains(#[trigger] s[k])
}

/// A condition the generator can produce over an alphabet: for some
/// nonempty subset of at most `max_letters` of the letters and some
/// count up to `max_fill`, either a 9-slot mask pinned from the subset
/// or the anywhere-style occurrence pattern over it.
pub open spec fn generated_condition(
    s: Seq<char>,
    letters: Seq<char>,
    max_letters: int,
    max_fill: int,
) -> bool {
    exists|subset: Seq<char>, n: int|
        #![trigger crate::rule::occurrence_pattern(subset, n)]
        1 <= subset.len() <= max_letters && (forall|k: int|
            0 <= k < subset.len() ==> letters.contains(#[trigger] subset[k])) && 1 <= n <= max_fill
            && (mask_condition(s, subset) || s == crate::rule::occurrence_pattern(subset, n))
}

/// The probability a generated two-digit literal encodes, in
/// hundredths.
pub open spec fn chance_hundredths(d: Seq<char>) -> int {
    (d[0] as int - 48) * 10 + (d[1] as int - 48)
}

/// An action the generator can produce: each specifier an alphabet
/// letter, a window position, or (for the location only) a wildcard,
/// and any probability literal two digits encoding 0.01 to 0.89.
pub open spec fn generated_action(a: crate::rule::ActionModel, letters: Seq<char>) -> bool {
    &&& match a.location {
        crate::rule::ActionParam::Char(c) => letters.contains(c),
        crate::rule::ActionParam::Index(i) => 1 <= i <= 9,
        crate::rule::ActionParam::Wildcard => true,
    }
    &&& match a.value {
        crate::rule::ActionParam::Char(c) => letters.contains(c),
        crate::rule::ActionParam::Index(i) => 1 <= i <= 9,
        crate::rule::ActionParam::Wildcard => false,
    }
    &&& match a.chance {
        Some(d) => d.len() == 2 && crate::rule::is_digit_char(d[0]) && crate::rule::is_digit_char(
            d[1],
        ) && 1 <= chance_hundredths(d) <= 89,
        None => true,
    }
}

/// Tunable probabilities and ranges for rule generation, probabilities
/// in thousandths.
pub struct RuleSettings {
    pub letter_distribution: u32,
    pub letter_distribution_pref: u8,
    pub rules_range: (u8, u8),
    pub condition_cell_fill_range: (u8, u8),
    pub condition_direction_weight: Vec<u64>,
    pub condition_direction_chance: u32,
    pub action_max_quantity: u8,
    pub action_chance_for_chance: u32,
    pub action_direction_weight: Vec<u64>,
    pub action_activ_inhib_chance: u32,
    pub action_activ_inhib_ratio: u32,
    pub action_wildcard_chance: u32,
}

impl RuleSettings {
    pub open spec fn wf(self) -> bool {
        &&& self.letter_distribution <= 1000
        &&& 1 <= self.letter_distribution_pref <= 5
        &&& self.rules_range.0 < self.rules_range.1
        &&& 1 <= self.condition_cell_fill_range.0 <= self.condition_cell_fill_range.1 <= 5
        &&& self.condition_direction_weight@.len() == 9
        &&& forall|i: int|
            0 <= i < 9 ==> 1 <= #[trigger] self.condition_direction_weight@[i] <= 3
        &&& self.action_direction_weight@.len() == 9
        &&& forall|i: int| 0 <= i < 9 ==> 1 <= #[trigger] self.action_direction_weight@[i] <= 3
        &&& 1 <= self.action_max_quantity
        &&& self.condition_direction_chance <= 1000
        &&& self.action_chance_for_chance <= 1000
        &&& self.action_activ_inhib_chance <= 1000
        &&& self.action_activ_inhib_ratio <= 1000
        &&& self.action_wildcard_chance <= 1000
    }

    /// The sub-ranges the sampler draws from, in thousandths: these pin
    /// the tunables a fresh settings value can hold.
    pub open spec fn drawn(self) -> bool {
        &&& self.rules_range == (5u8, 8u8)
        &&& self.condition_cell_fill_range.0 == 1
        &&& 300 <= self.condition_direction_chance <= 699
        &&& 1 <= self.action_max_quantity <= 3
        &&& 100 <= self.action_chance_for_chance <= 399
        &&& 100 <= self.action_activ_inhib_chance <= 600
        &&& 50 <= self.action_wildcard_chance <= 300
    }

    pub fn random(rng: &mut Randomness) -> (r: RuleSettings)
        ensures
            r.wf(),
            r.drawn(),
    {
        let mut condition_weight: Vec<u64> = Vec::new();
        let mut action_weight: Vec<u64> = Vec::new();
        for i in 0..9usize
            invariant
                condition_weight@.len() == i,
                action_weight@.len() == i,
                forall|k: int| 0 <= k < i ==> 1 <= #[trigger] condition_weight@[k] <= 3,
                forall|k: int| 0 <= k < i ==> 1 <= #[trigger] action_weight@[k] <= 3,
        {
            condition_weight.push(rng.between(1, 3));
            action_weight.push(rng.between(1, 3));
        }
        RuleSettings {
            letter_distribution: rng.between(0, 1000) as u32,
            letter_distribution_pref: rng.between(1, 5) as u8,
            rules_range: (5, 8),
            condition_cell_fill_range: (1, rng.between(1, 5) as u8),
            condition_direction_weight: condition_weight,
            condition_direction_chance: rng.between(300, 699) as u32,
            action_max_quantity: rng.between(1, 3) as u8,
            action_chance_for_chance: rng.between(100, 399) as u32,
            action_direction_weight: action_weight,
            action_activ_inhib_chance: rng.between(100, 600) as u32,
            action_activ_inhib_ratio: rng.between(0, 1000) as u32,
            action_wildcard_chance: rng.between(50, 300) as u32,
        }
    }

    /// Generates a batch of random rules over the alphabet: the count
    /// is drawn from the configured inclusive-exclusive range, and every
    /// rule carries a compiling generated condition and 1 or more
    /// generated actions.
    pub fn generate(&self, rng: &mut Randomness, letters: &Vec<char>) -> (r: Vec<Rule>)
        requires
            self.wf(),
            2 <= letters@.len() <= 26,
            forall|k: int| 0 <= k < letters@.len() ==> is_upper(#[trigger] letters@[k]),
        ensures
            self.rules_range.0 <= r@.len() < self.rules_range.1,
            forall|k: int| 0 <= k < r@.len() ==> (#[trigger] r@[k]).wf(),
            forall|k: int| 0 <= k < r@.len() ==> (#[trigger] r@[k]).condition_src().len() > 0,
            forall|k: int|
                0 <= k < r@.len() ==> generated_condition(
                    (#[trigger] r@[k]).condition_src(),
                    letters@,
                    letters@.len() as int / 2,
                    self.condition_cell_fill_range.1 as int,
                ),
            forall|k: int|
                0 <= k < r@.len() ==> generated_condition(
                    (#[trigger] r@[k]).condition_src(),
                    letters@,
                    letters@.len() as int / 2,
                    5,
                ),
            forall|k: int|
                0 <= k < r@.len() ==> 1 <= (#[trigger] r@[k]).actions().len()
                    <= self.action_max_quantity,
            forall|k: int, a: int|
                0 <= k < r@.len() && 0 <= a < r@[k].actions().len() ==> generated_action(
                    #[trigger] r@[k].actions()[a],
                    letters@,
                ),
    {
        let count = rng.between(self.rules_range.0 as u64, (self.rules_range.1 - 1) as u64);
        let mut out: Vec<Rule> = Vec::new();
        let mut made: u64 = 0;
        while made < count
            invariant
                self.wf(),
                2 <= letters@.len() <= 26,
                forall|k: int| 0 <= k < letters@.len() ==> is_upper(#[trigger] letters@[k]),
                self.rules_range.0 <= count < self.rules_range.1,
                made <= count,
                out@.len() == made,
                forall|k: int| 0 <= k < out@.len() ==> (#[trigger] out@[k]).wf(),
                forall|k: int|
                    0 <= k < out@.len() ==> (#[trigger] out@[k]).condition_src().len() > 0,
                forall|k: int|
                    0 <= k < out@.len() ==> generated_condition(
                        (#[trigger] out@[k]).condition_src(),
                        letters@,
                        letters@.len() as int / 2,
                        self.condition_cell_fill_range.1 as int,
                    ),
                forall|k: int|
                    0 <= k < out@.len() ==> generated_condition(
                        (#[trigger] out@[k]).condition_src(),
                        letters@,
                        letters@.len() as int / 2,
                        5,
                    ),
                forall|k: int|
                    0 <= k < out@.len() ==> 1 <= (#[trigger] out@[k]).actions().len()
                        <= self.action_max_quantity,
                forall|k: int, a: int|
                    0 <= k < out@.len() && 0 <= a < out@[k].actions().len() ==> generated_action(
                        #[trigger] out@[k].actions()[a],
                        letters@,
                    ),
            decreases count - made,
        {
            match self.generate_single(rng, letters) {
                Ok(rule) => {
                    out.push(rule);
                },
                Err(_) => {
                    proof {
                        assert(false);
                    }
                },
            }
            made = made + 1;
        }
        out
    }

    /// Generates one random rule: condition letters by weighted draw, a
    /// 9-slot literal mask or an occurrence pattern over them (both
    /// shapes always compile, so generation always succeeds), and 1 or
    /// more action tokens with optional activator/inhibitor overrides
    /// and an optional two-digit probability literal.
    pub fn generate_single(&self, rng: &mut Randomness, letters: &Vec<char>) -> (r: Result<
        Rule,
        RuleError,
    >)
        requires
            self.wf(),
            2 <= letters@.len() <= 26,
            forall|k: int| 0 <= k < letters@.len() ==> is_upper(#[trigger] letters@[k]),
        ensures
            r is Ok,
            match r {
                Ok(rule) => {
                    &&& rule.wf()
                    &&& rule.condition_src().len() > 0
                    &&& generated_condition(
                        rule.condition_src(),
                        letters@,
                        letters@.len() as int / 2,
                        self.condition_cell_fill_range.1 as int,
                    )
                    &&& generated_condition(
                        rule.condition_src(),
                        letters@,
                        letters@.len() as int / 2,
                        5,
                    )
                    &&& 1 <= rule.actions().len() <= self.action_max_quantity
                    &&& forall|a: int|
                        0 <= a < rule.actions().len() ==> generated_action(
                            #[trigger] rule.actions()[a],
                            letters@,
                        )
                },
                Err(e) => e == RuleError::InvalidCondition,
            },
    {
        let num_letters = rng.between(1, (letters.len() / 2) as u64) as usize;
        let condition_letters: Vec<char> = weighted_values(
            rng,
            letters,
            self.letter_distribution,
            self.letter_distribution_pref as u64,
            num_letters,
        );
        let uses_indices = rng.chance(self.condition_direction_chance);
        let cell_fill = rng.between(
            self.condition_cell_fill_range.0 as u64,
            self.condition_cell_fill_range.1 as u64,
        ) as usize;
        proof {
            assert forall|k: int|
                0 <= k < condition_letters@.len() implies is_upper(
                #[trigger] condition_letters@[k],
            ) by {
                let j = choose|j: int|
                    0 <= j < letters@.len() && letters@[j] == condition_letters@[k];
            }
        }

        let mut condition: Vec<char> = Vec::new();
        if uses_indices {
            // a 9-slot literal mask, most slots "any"
            let mut positions: Vec<usize> = Vec::new();
            for p in 0..9usize
                invariant
                    positions@.len() == p,
                    forall|k: int| 0 <= k < p ==> #[trigger] positions@[k] == k,
            {
                positions.push(p);
            }
            let chosen = weighted_index_values(
                rng,
                &positions,
                &self.condition_direction_weight,
                cell_fill,
            );
            let mut mask: Vec<char> = vec!['.'; 9];
            let m = chosen.len();
            for t in 0..m
                invariant
                    m == chosen@.len(),
                    mask@.len() == 9,
                    condition_letters@.len() == num_letters >= 1,
                    forall|k: int|
                        0 <= k < condition_letters@.len() ==> letters@.contains(
                            #[trigger] condition_letters@[k],
                        ),
                    positions@.len() == 9,
                    forall|k: int| 0 <= k < 9 ==> #[trigger] positions@[k] == k,
                    forall|k: int|
                        0 <= k < chosen@.len() ==> positions@.contains(#[trigger] chosen@[k]),
                    forall|k: int|
                        0 <= k < 9 ==> mask@[k] == '.' || condition_letters@.contains(
                            #[trigger] mask@[k],
                        ),
            {
                let pos = chosen[t];
                proof {
                    let j = choose|j: int|
                        0 <= j < positions@.len() && positions@[j] == chosen@[t as int];
                    assert(chosen@[t as int] < 9);
                }
                let letter = condition_letters[rng.index_below(condition_letters.len())];
                mask[pos] = letter;
            }
            condition = mask;
            proof {
                assert(mask_condition(condition@, condition_letters@));
                assert forall|k: int|
                    0 <= k < 9 implies condition@[k] == '.' || is_upper(
                    #[trigger] condition@[k],
                ) by {
                    if condition@[k] != '.' {
                        let j = choose|j: int|
                            0 <= j < condition_letters@.len() && condition_letters@[j]
                                == condition@[k];
                    }
                }
                assert(crate::rule::mask_pattern(condition@));
            }
        } else {
            // the occurrence pattern: `cell_fill` or more of the letters
            // anywhere in the window
            condition.push('(');
            condition.push('?');
            condition.push(':');
            condition.push('[');
            proof {
                assert(condition@ =~= seq!['(', '?', ':', '['] + condition_letters@.take(0));
            }
            let cl = condition_letters.len();
            for t in 0..cl
                invariant
                    cl == condition_letters@.len(),
                    condition@ == seq!['(', '?', ':', '['] + condition_letters@.take(t as int),
            {
                condition.push(condition_letters[t]);
                proof {
                    assert(condition@ =~= seq!['(', '?', ':', '['] + condition_letters@.take(
                        t + 1,
                    ));
                }
            }
            condition.push(']');
            condition.push('.');
            condition.push('*');
            condition.push(')');
            condition.push('{');
            proof {
                assert(1 <= cell_fill <= 5);
            }
            condition.push(crate::rule::digit_char_exec(cell_fill));
            condition.push('}');
            proof {
                assert(condition_letters@.take(cl as int) =~= condition_letters@);
                assert(condition@ =~= crate::rule::occurrence_pattern(
                    condition_letters@,
                    cell_fill as int,
                ));
                assert(crate::rule::occurrence_shaped(condition@));
            }
        }

        let mut acts: Vec<Action> = Vec::new();
        let quantity = rng.between(1, self.action_max_quantity as u64);
        let mut made: u64 = 0;
        while made < quantity
            invariant
                self.wf(),
                2 <= letters@.len() <= 26,
                forall|k: int| 0 <= k < letters@.len() ==> is_upper(#[trigger] letters@[k]),
                condition_letters@.len() >= 1,
                forall|k: int|
                    0 <= k < condition_letters@.len() ==> letters@.contains(
                        #[trigger] condition_letters@[k],
                    ),
                forall|k: int|
                    0 <= k < condition_letters@.len() ==> is_upper(
                        #[trigger] condition_letters@[k],
                    ),
                1 <= quantity <= self.action_max_quantity,
                made <= quantity,
                acts@.len() == made,
                forall|a: int|
                    0 <= a < acts@.len() ==> crate::rule::wf_model((#[trigger] acts@[a])@),
                forall|a: int|
                    0 <= a < acts@.len() ==> generated_action((#[trigger] acts@[a])@, letters@),
            decreases quantity - made,
        {
            let mut positions: Vec<usize> = Vec::new();
            for p in 0..9usize
                invariant
                    positions@.len() == p,
                    forall|k: int| 0 <= k < p ==> #[trigger] positions@[k] == k,
            {
                positions.push(p);
            }
            let drawn = weighted_index_values(rng, &positions, &self.action_direction_weight, 1);
            proof {
                let j = choose|j: int|
                    0 <= j < positions@.len() && positions@[j] == drawn@[0];
                assert(drawn@[0] < 9);
            }
            let mut location: ActionParam = ActionParam::Index(drawn[0] + 1);
            let mut value: ActionParam = ActionParam::Char(
                weighted_values(
                    rng,
                    letters,
                    self.letter_distribution,
                    self.letter_distribution_pref as u64,
                    1,
                )[0],
            );
            if rng.chance(self.action_activ_inhib_chance) {
                if rng.chance(self.action_activ_inhib_ratio) {
                    // activator: the value comes from the condition letters
                    value = ActionParam::Char(
                        condition_letters[rng.index_below(condition_letters.len())],
                    );
                } else {
                    // inhibitor: the location comes from the condition letters
                    location = ActionParam::Char(
                        condition_letters[rng.index_below(condition_letters.len())],
                    );
                }
            } else {
                if rng.chance(self.action_wildcard_chance) {
                    location = ActionParam::Wildcard;
                }
                // the value may be any letter or any window position
                let pick = rng.index_below(letters.len() + 9);
                if pick < letters.len() {
                    value = ActionParam::Char(letters[pick]);
                } else {
                    value = ActionParam::Index(pick - letters.len() + 1);
                }
            }
            let chance: Option<Vec<char>> = if rng.chance(self.action_chance_for_chance) {
                // a probability literal with two decimal digits in 0.01..0.90
                let hundredths = rng.between(1, 89);
                let digits = vec![
                    crate::textutil::digit_of(hundredths / 10),
                    crate::textutil::digit_of(hundredths % 10),
                ];
                Some(digits)
            } else {
                None
            };
            let act = Action { chance, location, value };
            proof {
                match act@.location {
                    ActionParam::Char(c) => {
                        let j = choose|j: int| 0 <= j < letters@.len() && letters@[j] == c;
                    },
                    _ => {
                    },
                }
                match act@.value {
                    ActionParam::Char(c) => {
                        let j = choose|j: int| 0 <= j < letters@.len() && letters@[j] == c;
                    },
                    _ => {
                    },
                }
                assert(crate::rule::wf_model(act@));
                assert(generated_action(act@, letters@));
            }
            acts.push(act);
            made = made + 1;
        }

        let condition_text = chars_to_string(&condition);
        let action_text = serialize_actions(&acts);
        proof {
            assert(condition@.len() > 0);
            assert forall|a: int|
                0 <= a < views_of(acts@).len() implies crate::rule::wf_model(
                #[trigger] views_of(acts@)[a],
            ) by {
                assert(views_of(acts@)[a] == acts@[a]@);
            }
            crate::rule::lemma_action_round_trip(views_of(acts@));
        }
        let result = Rule::new(condition_text.as_str(), action_text.as_str());
        match result {
            Ok(rule) => {
                proof {
                    assert(rule.actions() == views_of(acts@));
                    assert forall|a: int|
                        0 <= a < rule.actions().len() implies generated_action(
                        #[trigger] rule.actions()[a],
                        letters@,
                    ) by {
                        assert(rule.actions()[a] == acts@[a]@);
                        assert(generated_action(acts@[a]@, letters@));
                    }
                    assert(crate::rule::occurrence_pattern(
                        condition_letters@,
                        cell_fill as int,
                    ) == crate::rule::occurrence_pattern(condition_letters@, cell_fill as int));
                    if uses_indices {
                        assert(mask_condition(rule.condition_src(), condition_letters@));
                    } else {
                        assert(rule.condition_src() == crate::rule::occurrence_pattern(
                            condition_letters@,
                            cell_fill as int,
                        ));
                    }
                    assert(generated_condition(
                        rule.condition_src(),
                        letters@,
                        letters@.len() as int / 2,
                        self.condition_cell_fill_range.1 as int,
                    ));
                    assert(generated_condition(
                        rule.condition_src(),
                        letters@,
                        letters@.len() as int / 2,
                        5,
                    ));
                }
                Ok(rule)
            },
            Err(e) => {
                proof {
                    assert(false);
                }
                Err(e)
            },
        }
    }
}

/// The colour is the HSL conversion of some draw whose saturation and
/// lightness lie at least `half` away from both extremes.
pub open spec fn color_from_draw(c: [u8; 4], half: int) -> bool {
    exists|hh: int, ss: int, ll: int|
        #![trigger hsl_triple(hh, ss, ll)]
        0 <= hh < 360000 && half <= ss <= 1000 - half && half <= ll <= 1000 - half && c[0]
            == channel_level(hsl_triple(hh, ss, ll).0 + hsl_base(ss, ll)) && c[1] == channel_level(
            hsl_triple(hh, ss, ll).1 + hsl_base(ss, ll),
        ) && c[2] == channel_level(hsl_triple(hh, ss, ll).2 + hsl_base(ss, ll)) && c[3] == 255
}

/// Tunables for palette generation, in thousandths.
pub struct ColorSettings {
    pub color_primary_accent_ratio: u32,
    pub color_hue_sat_buffer: u32,
}

impl ColorSettings {
    pub open spec fn wf(self) -> bool {
        &&& self.color_primary_accent_ratio <= 1000
        &&& 2 <= self.color_hue_sat_buffer <= 400
        &&& self.color_hue_sat_buffer % 2 == 0
    }

    pub fn random(rng: &mut Randomness) -> (r: ColorSettings)
        ensures
            r.wf(),
            50 <= r.color_primary_accent_ratio <= 99,
            r.color_hue_sat_buffer == 100,
    {
        ColorSettings {
            color_primary_accent_ratio: rng.between(50, 99) as u32,
            color_hue_sat_buffer: 100,
        }
    }

    /// Assigns every letter a colour: an independently drawn primary, or
    /// an accent made by perturbing an earlier primary's saturation and
    /// lightness a little. The first letter is always a primary. Every
    /// colour is the conversion of a draw whose saturation and lightness
    /// stay inside the buffered sub-range, fully opaque, and the letters
    /// keep their order.
    pub fn generate(&self, rng: &mut Randomness, letters: &Vec<char>) -> (r: Vec<(char, [u8; 4])>)
        requires
            self.wf(),
        ensures
            r@.len() == letters@.len(),
            forall|i: int| 0 <= i < r@.len() ==> (#[trigger] r@[i]).0 == letters@[i],
            forall|i: int| 0 <= i < r@.len() ==> (#[trigger] r@[i]).1[3] == 255,
            forall|i: int|
                0 <= i < r@.len() ==> color_from_draw(
                    (#[trigger] r@[i]).1,
                    self.color_hue_sat_buffer as int / 2,
                ),
    {
        let buffer = self.color_hue_sat_buffer as u64;
        let half = buffer / 2;
        let mut primaries: Vec<(u64, u64, u64)> = Vec::new();
        let mut out: Vec<(char, [u8; 4])> = Vec::new();
        let n = letters.len();
        for i in 0..n
            invariant
                n == letters@.len(),
                out@.len() == i,
                buffer == self.color_hue_sat_buffer as u64,
                half == buffer / 2,
                2 <= buffer <= 400,
                buffer % 2 == 0,
                self.wf(),
                forall|k: int|
                    0 <= k < primaries@.len() ==> (#[trigger] primaries@[k]).0 < 360000
                        && buffer <= primaries@[k].1 <= 1000 - buffer && buffer
                        <= primaries@[k].2 <= 1000 - buffer,
                forall|k: int| 0 <= k < i ==> (#[trigger] out@[k]).0 == letters@[k],
                forall|k: int| 0 <= k < i ==> (#[trigger] out@[k]).1[3] == 255,
                forall|k: int|
                    0 <= k < i ==> color_from_draw((#[trigger] out@[k]).1, half as int),
        {
            let hsl: (u64, u64, u64);
            if primaries.len() == 0 || rng.chance(self.color_primary_accent_ratio) {
                let h = rng.below(360000);
                let s = rng.between(buffer, 1000 - buffer);
                let l = rng.between(buffer, 1000 - buffer);
                hsl = (h, s, l);
                primaries.push(hsl);
            } else {
                let base = primaries[rng.index_below(primaries.len())];
                let s = base.1 - half + rng.between(0, buffer);
                let l = base.2 - half + rng.between(0, buffer);
                hsl = (base.0, s, l);
            }
            let color = hsl_to_rgba(hsl.0, hsl.1, hsl.2);
            proof {
                assert(hsl_triple(hsl.0 as int, hsl.1 as int, hsl.2 as int)
                    == hsl_triple(hsl.0 as int, hsl.1 as int, hsl.2 as int));
                assert(color_from_draw(color, half as int));
            }
            out.push((letters[i], color));
        }
        out
    }
}

/// Absolute difference, for the conversion arithmetic.
pub open spec fn abs_diff(a: int, b: int) -> int {
    if a >= b {
        a - b
    } else {
        b - a
    }
}

/// How far from grey a colour at lightness `l` can go, in thousandths.
pub open spec fn hsl_spread(l: int) -> int {
    if 2 * l > 1000 {
        2000 - 2 * l
    } else {
        2 * l
    }
}

/// The chroma of an HSL colour, in thousandths.
pub open spec fn hsl_chroma(s: int, l: int) -> int {
    hsl_spread(l) * s / 1000
}

/// The secondary component: the chroma scaled by the hue's distance
/// from the middle of its 60-degree sector.
pub open spec fn hsl_secondary(h: int, s: int, l: int) -> int {
    let pos = (h / 60) % 2000;
    let dist = if pos > 1000 {
        pos - 1000
    } else {
        1000 - pos
    };
    hsl_chroma(s, l) * (1000 - dist) / 1000
}

/// The grey base every channel sits on.
pub open spec fn hsl_base(s: int, l: int) -> int {
    l - hsl_chroma(s, l) / 2
}

/// The three colour components before the base is added, ordered by the
/// hue's 60-degree sector.
pub open spec fn hsl_triple(h: int, s: int, l: int) -> (int, int, int) {
    let c = hsl_chroma(s, l);
    let x = hsl_secondary(h, s, l);
    let sector = h / 60000;
    if sector == 0 {
        (c, x, 0)
    } else if sector == 1 {
        (x, c, 0)
    } else if sector == 2 {
        (0, c, x)
    } else if sector == 3 {
        (0, x, c)
    } else if sector == 4 {
        (x, 0, c)
    } else {
        (c, 0, x)
    }
}

/// A thousandths channel value rounded to its 8-bit level.
pub open spec fn channel_level(v: int) -> int {
    (v * 255 + 500) / 1000
}

/// Converts a hue (thousandths of a degree, below 360000), saturation
/// and lightness (thousandths) to an 8-bit RGBA colour with full
/// opacity, by the standard sector formula in integer arithmetic.
pub fn hsl_to_rgba(h: u64, s: u64, l: u64) -> (r: [u8; 4])
    requires
        h < 360000,
        s <= 1000,
        l <= 1000,
    ensures
        r[0] == channel_level(hsl_triple(h as int, s as int, l as int).0 + hsl_base(
            s as int,
            l as int,
        )),
        r[1] == channel_level(hsl_triple(h as int, s as int, l as int).1 + hsl_base(
            s as int,
            l as int,
        )),
        r[2] == channel_level(hsl_triple(h as int, s as int, l as int).2 + hsl_base(
            s as int,
            l as int,
        )),
        r[3] == 255,
        s == 0 ==> r[0] == r[1] && r[1] == r[2],
{
    let l1 = l;
    let two_l = 2 * l1;
    let spread = if two_l > 1000 {
        2000 - two_l
    } else {
        two_l
    };
    proof {
        assert(spread * s <= 1000 * 1000) by (nonlinear_arith)
            requires
                spread <= 1000,
                s <= 1000,
        ;
        assert(spread * s / 1000 <= 1000) by (nonlinear_arith)
            requires
                spread * s <= 1000 * 1000,
        ;
    }
    let c = spread * s / 1000;
    let sector_pos = (h / 60) % 2000;
    let dist = if sector_pos > 1000 {
        sector_pos - 1000
    } else {
        1000 - sector_pos
    };
    proof {
        assert(c * (1000 - dist) <= 1000 * 1000) by (nonlinear_arith)
            requires
                c <= 1000,
                dist <= 1000,
        ;
    }
    let x = c * (1000 - dist) / 1000;
    proof {
        assert(c <= spread) by (nonlinear_arith)
            requires
                c == spread * s / 1000,
                s <= 1000,
                0 <= spread,
        ;
        assert(x <= c) by (nonlinear_arith)
            requires
                x == c * (1000 - dist) / 1000,
                dist <= 1000,
                0 <= c,
        ;
    }
    let m = l1 - c / 2;
    proof {
        assert(c / 2 <= spread / 2);
        assert(spread / 2 <= l1);
    }
    let sector = h / 60000;
    let (r1, g1, b1): (u64, u64, u64) = if sector == 0 {
        (c, x, 0)
    } else if sector == 1 {
        (x, c, 0)
    } else if sector == 2 {
        (0, c, x)
    } else if sector == 3 {
        (0, x, c)
    } else if sector == 4 {
        (x, 0, c)
    } else {
        (c, 0, x)
    };
    proof {
        assert(c + m <= 1000);
    }
    [channel_byte(r1 + m), channel_byte(g1 + m), channel_byte(b1 + m), 255]
}

/// Rounds a thousandths channel value to its 8-bit level.
fn channel_byte(v: u64) -> (r: u8)
    requires
        v <= 1000,
    ensures
        r == (v * 255 + 500) / 1000,
{
    ((v * 255 + 500) / 1000) as u8
}

/// One full generation: an alphabet, a rule set over it, and a palette
/// for it.
pub struct SpriteSettings {
    pub rules: Vec<Rule>,
    pub colors: Vec<(char, [u8; 4])>,
}

impl SpriteSettings {
    /// One full generation: the alphabet is the first 6 to 26 uppercase
    /// letters, the palette assigns each of them an opaque colour drawn
    /// in the buffered range, and the rule set holds 5 to 7 generated
    /// rules over that alphabet.
    pub fn random(rng: &mut Randomness) -> (r: SpriteSettings)
        ensures
            6 <= r.colors@.len() <= 26,
            forall|i: int|
                0 <= i < r.colors@.len() ==> (#[trigger] r.colors@[i]).0 as int == 65 + i,
            forall|i: int, j: int|
                0 <= i < j < r.colors@.len() ==> r.colors@[i].0 != r.colors@[j].0,
            forall|i: int| 0 <= i < r.colors@.len() ==> (#[trigger] r.colors@[i]).1[3] == 255,
            forall|i: int|
                0 <= i < r.colors@.len() ==> color_from_draw((#[trigger] r.colors@[i]).1, 50),
            5 <= r.rules@.len() < 8,
            forall|k: int| 0 <= k < r.rules@.len() ==> (#[trigger] r.rules@[k]).wf(),
            forall|k: int|
                0 <= k < r.rules@.len() ==> (#[trigger] r.rules@[k]).condition_src().len() > 0,
            forall|k: int|
                0 <= k < r.rules@.len() ==> generated_condition(
                    (#[trigger] r.rules@[k]).condition_src(),
                    r.colors@.map_values(|e: (char, [u8; 4])| e.0),
                    r.colors@.len() as int / 2,
                    5,
                ),
            forall|k: int|
                0 <= k < r.rules@.len() ==> 1 <= (#[trigger] r.rules@[k]).actions().len() <= 3,
            forall|k: int, a: int|
                0 <= k < r.rules@.len() && 0 <= a < r.rules@[k].actions().len()
                    ==> generated_action(
                    #[trigger] r.rules@[k].actions()[a],
                    r.colors@.map_values(|e: (char, [u8; 4])| e.0),
                ),
    {
        let letter_settings = LetterSettings::random(rng);
        let letters = letter_settings.generate();
        let rule_settings = RuleSettings::random(rng);
        let rules = rule_settings.generate(rng, &letters);
        let color_settings = ColorSettings::random(rng);
        let colors = color_settings.generate(rng, &letters);
        let result = SpriteSettings { rules, colors };
        proof {
            assert(result.colors@.map_values(|e: (char, [u8; 4])| e.0) =~= letters@);
        }
        result
    }
}

} // verus!
