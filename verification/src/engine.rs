use vstd::prelude::*;
use crate::FILL_CHAR;
use crate::grid::{CharTexture, slot_dx, slot_dy};
use crate::palette::Palette;
use crate::rng::Randomness;
use crate::rule::{Action, ActionParam, Rule, actions_eval_ok, eval_param_ok, views_of};
use crate::textutil::str_to_chars;

verus! {

/// Whether the cell at flat index `i` lies in the 3x3 window centred on
/// (x, y).
pub open spec fn in_window_of(t: CharTexture, x: int, y: int, i: int) -> bool {
    let cx = i % t.width();
    let cy = i / t.width();
    x - 1 <= cx <= x + 1 && y - 1 <= cy <= y + 1
}

/// The value a deterministic value specifier resolves to against a
/// window: the literal itself, or the window's pinned symbol. (A
/// wildcard value is drawn at random and resolves to no fixed symbol;
/// this function is not applied to it.)
pub open spec fn resolved_value(a: crate::rule::ActionModel, window: Seq<char>) -> char {
    match a.value {
        ActionParam::Char(c) => c,
        ActionParam::Index(i) => window[i - 1],
        ActionParam::Wildcard => FILL_CHAR,
    }
}

/// The first action, if any, carries no probability and its value
/// resolves against the window to the FILL symbol (a FILL literal, or a
/// position where the window holds FILL): evaluating the list must then
/// write nothing at all.
pub open spec fn first_action_fills(l: Seq<crate::rule::ActionModel>, window: Seq<char>) -> bool {
    l.len() > 0 && l[0].chance is None && !(l[0].value is Wildcard) && resolved_value(l[0], window)
        == FILL_CHAR
}

/// A single unconditional action whose value resolves deterministically
/// against the window, and not to FILL: the one evaluation whose whole
/// outcome is fixed, whatever the random source does.
pub open spec fn single_deterministic_write(
    l: Seq<crate::rule::ActionModel>,
    window: Seq<char>,
) -> bool {
    &&& l.len() == 1
    &&& l[0].chance is None
    &&& !(l[0].value is Wildcard)
    &&& resolved_value(l[0], window) != FILL_CHAR
}

/// Whether a location specifier targets window slot `k`: every slot
/// where the window holds the literal, exactly the pinned slot, or all
/// nine for the wildcard.
pub open spec fn slot_targeted(loc: ActionParam, window: Seq<char>, k: int) -> bool {
    match loc {
        ActionParam::Char(c) => window[k] == c,
        ActionParam::Index(i) => k == i - 1,
        ActionParam::Wildcard => true,
    }
}

/// What the grid holds once the deterministic single action has run its
/// slots 0 to `upto` (exclusive) at a match of (x, y): every targeted
/// slot that lands on the grid holds the resolved value, every other
/// cell is unchanged.
pub open spec fn write_result_upto(
    t: CharTexture,
    x: int,
    y: int,
    window: Seq<char>,
    loc: ActionParam,
    v: char,
    upto: int,
) -> Seq<char> {
    Seq::new(
        t.pixels@.len(),
        |idx: int|
            {
                let cx = idx % t.width();
                let cy = idx / t.width();
                let k = (1 - (cy - y)) * 3 + (cx - x + 1);
                if x - 1 <= cx <= x + 1 && y - 1 <= cy <= y + 1 && k < upto && slot_targeted(
                    loc,
                    window,
                    k,
                ) {
                    v
                } else {
                    t.pixels@[idx]
                }
            },
    )
}

/// Advancing past a slot that is untargeted or off the grid changes
/// nothing.
proof fn lemma_write_step_skip(
    t: CharTexture,
    x: int,
    y: int,
    window: Seq<char>,
    loc: ActionParam,
    v: char,
    k: int,
)
    requires
        t.wf(),
        0 <= x < t.width(),
        0 <= y < t.height(),
        0 <= k < 9,
        !slot_targeted(loc, window, k) || !t.in_grid(x + slot_dx(k), y + slot_dy(k)),
    ensures
        write_result_upto(t, x, y, window, loc, v, k + 1) == write_result_upto(
            t,
            x,
            y,
            window,
            loc,
            v,
            k,
        ),
{
    let a = write_result_upto(t, x, y, window, loc, v, k + 1);
    let b = write_result_upto(t, x, y, window, loc, v, k);
    assert forall|i: int| 0 <= i < a.len() implies a[i] == b[i] by {
        crate::grid::lemma_row_major_index_inverse(i, t.width(), t.height());
        let cx = i % t.width();
        let cy = i / t.width();
        let kk = (1 - (cy - y)) * 3 + (cx - x + 1);
        if x - 1 <= cx <= x + 1 && y - 1 <= cy <= y + 1 && kk == k {
            assert(cx == x + slot_dx(k) && cy == y + slot_dy(k));
            assert(t.in_grid(x + slot_dx(k), y + slot_dy(k)));
            assert(!slot_targeted(loc, window, k));
        }
    }
    assert(a =~= b);
}

/// Advancing past a targeted on-grid slot writes the resolved value to
/// exactly that slot's cell.
proof fn lemma_write_step_hit(
    t: CharTexture,
    x: int,
    y: int,
    window: Seq<char>,
    loc: ActionParam,
    v: char,
    k: int,
)
    requires
        t.wf(),
        0 <= x < t.width(),
        0 <= y < t.height(),
        0 <= k < 9,
        slot_targeted(loc, window, k),
        t.in_grid(x + slot_dx(k), y + slot_dy(k)),
    ensures
        write_result_upto(t, x, y, window, loc, v, k + 1) == write_result_upto(
            t,
            x,
            y,
            window,
            loc,
            v,
            k,
        ).update((y + slot_dy(k)) * t.width() + (x + slot_dx(k)), v),
{
    let a = write_result_upto(t, x, y, window, loc, v, k + 1);
    let b = write_result_upto(t, x, y, window, loc, v, k);
    let ax = x + slot_dx(k);
    let ay = y + slot_dy(k);
    crate::grid::lemma_row_major_index_bound(ax, ay, t.width(), t.height());
    let target = ay * t.width() + ax;
    assert(target % t.width() == ax && target / t.width() == ay) by (nonlinear_arith)
        requires
            target == ay * t.width() + ax,
            0 <= ax,
            ax < t.width(),
            0 <= ay,
    ;
    assert forall|i: int| 0 <= i < a.len() implies a[i] == b.update(target, v)[i] by {
        crate::grid::lemma_row_major_index_inverse(i, t.width(), t.height());
        let cx = i % t.width();
        let cy = i / t.width();
        let kk = (1 - (cy - y)) * 3 + (cx - x + 1);
        if i == target {
            assert(kk == k);
        } else {
            if x - 1 <= cx <= x + 1 && y - 1 <= cy <= y + 1 && kk == k {
                assert(cx == ax && cy == ay);
                assert(i == target);
            }
        }
    }
    assert(a =~= b.update(target, v));
}

/// The window slot the head action pins (meaningful when its location
/// is positional).
pub open spec fn head_slot(l: Seq<crate::rule::ActionModel>) -> int {
    match l[0].location {
        ActionParam::Index(i) => i as int - 1,
        _ => 0,
    }
}

/// The head action is unconditional, writes a non-FILL literal at one
/// pinned window position, and that position lands on the grid: the
/// evaluation is then forced to write, whatever the random source does.
pub open spec fn head_forces_write(
    l: Seq<crate::rule::ActionModel>,
    t: CharTexture,
    x: int,
    y: int,
) -> bool {
    &&& l.len() > 0
    &&& l[0].chance is None
    &&& l[0].location is Index
    &&& l[0].value is Char
    &&& l[0].value != ActionParam::Char(FILL_CHAR)
    &&& t.in_grid(x + slot_dx(head_slot(l)), y + slot_dy(head_slot(l)))
}

/// A symbol an action evaluation could legitimately write at this
/// match: the literal value of one of the actions, or a symbol read out
/// of the frozen window.
pub open spec fn action_value_source(
    l: Seq<crate::rule::ActionModel>,
    window: Seq<char>,
    c: char,
) -> bool {
    (exists|a: int| 0 <= a < l.len() && (#[trigger] l[a]).value == ActionParam::Char(c))
        || window.contains(c)
}

/// Draws against a probability literal given by its fractional digits;
/// true means the action is skipped. Only the first nine digits weigh in.
fn chance_skip(rng: &mut Randomness, digits: &Vec<char>) -> (skip: bool) {
    let n = digits.len();
    let mut denom: u64 = 1;
    let mut num: u64 = 0;
    for t in 0..n
        invariant
            n == digits@.len(),
            1 <= denom <= 1000000000,
            num < denom,
    {
        if denom <= 100000000 {
            let c = digits[t] as u32;
            let d: u64 = if 48 <= c && c <= 57 {
                (c - 48) as u64
            } else {
                0
            };
            num = num * 10 + d;
            denom = denom * 10;
        }
    }
    let draw = rng.below(denom);
    draw >= num
}

/// Runs one rule's action list against the live grid for a match of its
/// condition at cell (x, y), resolving values and positions against the
/// frozen 9-symbol window.
///
/// Whatever the random draws: only cells of the 3x3 window change, each
/// changed cell holds a literal action value or a window symbol, the
/// FILL symbol is never written, and a leading unconditional
/// FILL-resolving action guards the whole list into writing nothing. A
/// leading unconditional pinned non-FILL write marks the grid changed;
/// and a single unconditional action with a deterministically resolving
/// value has its exact outcome fixed, slot by slot, per location kind.
pub fn apply_actions(
    texture: &mut CharTexture,
    actions: &Vec<Action>,
    rng: &mut Randomness,
    window: &Vec<char>,
    x: usize,
    y: usize,
)
    requires
        old(texture).wf(),
        x < old(texture).width(),
        y < old(texture).height(),
        window@.len() == 9,
        actions_eval_ok(views_of(actions@)),
    ensures
        final(texture).wf(),
        final(texture).dimensions == old(texture).dimensions,
        final(texture).pixels@.len() == old(texture).pixels@.len(),
        forall|i: int|
            0 <= i < old(texture).pixels@.len() && !in_window_of(*old(texture), x as int, y as int, i)
                ==> final(texture).pixels@[i] == old(texture).pixels@[i],
        forall|i: int|
            0 <= i < old(texture).pixels@.len() && final(texture).pixels@[i] != old(
                texture,
            ).pixels@[i] ==> final(texture).pixels@[i] != FILL_CHAR,
        forall|i: int|
            0 <= i < old(texture).pixels@.len() && final(texture).pixels@[i] != old(
                texture,
            ).pixels@[i] ==> action_value_source(
                views_of(actions@),
                window@,
                final(texture).pixels@[i],
            ),
        first_action_fills(views_of(actions@), window@) ==> *final(texture) == *old(texture),
        head_forces_write(views_of(actions@), *old(texture), x as int, y as int)
            ==> final(texture).changed,
        single_deterministic_write(views_of(actions@), window@) ==> final(texture).pixels@
            == write_result_upto(
            *old(texture),
            x as int,
            y as int,
            window@,
            views_of(actions@)[0].location,
            resolved_value(views_of(actions@)[0], window@),
            9,
        ),
        old(texture).changed ==> final(texture).changed,
{
    let valid = texture.get_valid_3x3_indices(x, y);
    let n_actions = actions.len();
    let mut a_i: usize = 0;
    while a_i < n_actions
        invariant
            texture.wf(),
            texture.dimensions == old(texture).dimensions,
            texture.pixels@.len() == old(texture).pixels@.len(),
            x < texture.width(),
            y < texture.height(),
            window@.len() == 9,
            n_actions == actions@.len(),
            actions_eval_ok(views_of(actions@)),
            forall|k: int| #![auto] 0 <= k < 9 ==> valid@[k] == (if old(texture).in_grid(
                x + slot_dx(k),
                y + slot_dy(k),
            ) {
                Some(((x + slot_dx(k)) as usize, (y + slot_dy(k)) as usize))
            } else {
                None::<(usize, usize)>
            }),
            forall|i: int|
                0 <= i < old(texture).pixels@.len() && !in_window_of(
                    *old(texture),
                    x as int,
                    y as int,
                    i,
                ) ==> texture.pixels@[i] == old(texture).pixels@[i],
            forall|i: int|
                0 <= i < old(texture).pixels@.len() && texture.pixels@[i] != old(
                    texture,
                ).pixels@[i] ==> texture.pixels@[i] != FILL_CHAR,
            forall|i: int|
                0 <= i < old(texture).pixels@.len() && texture.pixels@[i] != old(
                    texture,
                ).pixels@[i] ==> action_value_source(
                    views_of(actions@),
                    window@,
                    texture.pixels@[i],
                ),
            first_action_fills(views_of(actions@), window@) ==> *texture == *old(texture),
            first_action_fills(views_of(actions@), window@) ==> a_i == 0,
            head_forces_write(views_of(actions@), *old(texture), x as int, y as int) && a_i >= 1
                ==> texture.changed,
            single_deterministic_write(views_of(actions@), window@) ==> (if a_i == 0 {
                texture.pixels@ == old(texture).pixels@
            } else {
                texture.pixels@ == write_result_upto(
                    *old(texture),
                    x as int,
                    y as int,
                    window@,
                    views_of(actions@)[0].location,
                    resolved_value(views_of(actions@)[0], window@),
                    9,
                )
            }),
            old(texture).changed ==> texture.changed,
        decreases n_actions - a_i,
    {
        proof {
            assert(views_of(actions@)[a_i as int] == actions@[a_i as int]@);
            assert(eval_param_ok(views_of(actions@)[a_i as int].location));
            assert(eval_param_ok(views_of(actions@)[a_i as int].value));
        }
        let action = &actions[a_i];
        let mut skip = false;
        match &action.chance {
            Some(digits) => {
                skip = chance_skip(rng, digits);
            },
            None => {
            },
        }
        if !skip {
            let value: char = match &action.value {
                ActionParam::Char(c) => *c,
                ActionParam::Index(i) => window[*i - 1],
                ActionParam::Wildcard => window[rng.index_below(9)],
            };
            proof {
                match action.value {
                    ActionParam::Char(c) => {
                        assert(views_of(actions@)[a_i as int].value == ActionParam::Char(value));
                    },
                    _ => {
                        assert(window@.contains(value));
                    },
                }
                assert(action_value_source(views_of(actions@), window@, value));
                if single_deterministic_write(views_of(actions@), window@) {
                    assert(a_i == 0);
                    assert(value == resolved_value(views_of(actions@)[0], window@));
                }
            }
            if value == '#' {
                return ;
            }
            proof {
                if first_action_fills(views_of(actions@), window@) {
                    assert(a_i == 0);
                    assert(views_of(actions@)[0] == actions@[0]@);
                    assert(false);
                }
                if single_deterministic_write(views_of(actions@), window@) {
                    assert(write_result_upto(
                        *old(texture),
                        x as int,
                        y as int,
                        window@,
                        views_of(actions@)[0].location,
                        resolved_value(views_of(actions@)[0], window@),
                        0,
                    ) =~= old(texture).pixels@);
                }
            }
            for k in 0..9usize
                invariant
                    texture.wf(),
                    texture.dimensions == old(texture).dimensions,
                    texture.pixels@.len() == old(texture).pixels@.len(),
                    x < texture.width(),
                    y < texture.height(),
                    window@.len() == 9,
                    n_actions == actions@.len(),
                    a_i < n_actions,
                    actions_eval_ok(views_of(actions@)),
                    value != FILL_CHAR,
                    action_value_source(views_of(actions@), window@, value),
                    *action == actions@[a_i as int],
                    eval_param_ok(action@.location),
                    !first_action_fills(views_of(actions@), window@),
                    single_deterministic_write(views_of(actions@), window@) ==> a_i == 0
                        && value == resolved_value(views_of(actions@)[0], window@)
                        && action@.location == views_of(actions@)[0].location,
                    head_forces_write(views_of(actions@), *old(texture), x as int, y as int)
                        && a_i == 0 && k > head_slot(views_of(actions@)) ==> texture.changed,
                    head_forces_write(views_of(actions@), *old(texture), x as int, y as int)
                        && a_i >= 1 ==> texture.changed,
                    single_deterministic_write(views_of(actions@), window@) ==> texture.pixels@
                        == write_result_upto(
                        *old(texture),
                        x as int,
                        y as int,
                        window@,
                        views_of(actions@)[0].location,
                        resolved_value(views_of(actions@)[0], window@),
                        k as int,
                    ),
                    forall|j: int| #![auto] 0 <= j < 9 ==> valid@[j] == (if old(texture).in_grid(
                        x + slot_dx(j),
                        y + slot_dy(j),
                    ) {
                        Some(((x + slot_dx(j)) as usize, (y + slot_dy(j)) as usize))
                    } else {
                        None::<(usize, usize)>
                    }),
                    forall|i: int|
                        0 <= i < old(texture).pixels@.len() && !in_window_of(
                            *old(texture),
                            x as int,
                            y as int,
                            i,
                        ) ==> texture.pixels@[i] == old(texture).pixels@[i],
                    forall|i: int|
                        0 <= i < old(texture).pixels@.len() && texture.pixels@[i] != old(
                            texture,
                        ).pixels@[i] ==> texture.pixels@[i] != FILL_CHAR,
                    forall|i: int|
                        0 <= i < old(texture).pixels@.len() && texture.pixels@[i] != old(
                            texture,
                        ).pixels@[i] ==> action_value_source(
                            views_of(actions@),
                            window@,
                            texture.pixels@[i],
                        ),
                    old(texture).changed ==> texture.changed,
            {
                let targeted: bool = match &action.location {
                    ActionParam::Char(c) => window[k] == *c,
                    ActionParam::Index(i) => k == *i - 1,
                    ActionParam::Wildcard => true,
                };
                proof {
                    assert(targeted == slot_targeted(action@.location, window@, k as int));
                }
                if targeted {
                    match valid[k] {
                        Some(loc) => {
                            let (abs_x, abs_y) = loc;
                            proof {
                                assert(old(texture).in_grid(
                                    x + slot_dx(k as int),
                                    y + slot_dy(k as int),
                                ));
                                assert(abs_x == x + slot_dx(k as int));
                                assert(abs_y == y + slot_dy(k as int));
                            }
                            let ghost prev = texture.pixels@;
                            texture.set(abs_x, abs_y, value);
                            proof {
                                let w = old(texture).width();
                                let ax = abs_x as int;
                                let ay = abs_y as int;
                                let idx = ay * w + ax;
                                crate::grid::lemma_row_major_index_bound(
                                    ax,
                                    ay,
                                    w,
                                    old(texture).height(),
                                );
                                assert(idx % w == ax && idx / w == ay) by (nonlinear_arith)
                                    requires
                                        idx == ay * w + ax,
                                        0 <= ax,
                                        ax < w,
                                        0 <= ay,
                                ;
                                assert(in_window_of(*old(texture), x as int, y as int, idx));
                                assert forall|i: int|
                                    0 <= i < old(texture).pixels@.len() && !in_window_of(
                                        *old(texture),
                                        x as int,
                                        y as int,
                                        i,
                                    ) implies texture.pixels@[i] == old(texture).pixels@[i] by {
                                    assert(i != idx);
                                    assert(texture.pixels@[i] == prev[i]);
                                }
                                if single_deterministic_write(views_of(actions@), window@) {
                                    let loc0 = views_of(actions@)[0].location;
                                    let v0 = resolved_value(views_of(actions@)[0], window@);
                                    lemma_write_step_hit(
                                        *old(texture),
                                        x as int,
                                        y as int,
                                        window@,
                                        loc0,
                                        v0,
                                        k as int,
                                    );
                                    assert(texture.pixels@ =~= write_result_upto(
                                        *old(texture),
                                        x as int,
                                        y as int,
                                        window@,
                                        loc0,
                                        v0,
                                        k + 1,
                                    ));
                                }
                            }
                        },
                        None => {
                            proof {
                                if single_deterministic_write(views_of(actions@), window@) {
                                    assert(!old(texture).in_grid(
                                        x + slot_dx(k as int),
                                        y + slot_dy(k as int),
                                    ));
                                    lemma_write_step_skip(
                                        *old(texture),
                                        x as int,
                                        y as int,
                                        window@,
                                        views_of(actions@)[0].location,
                                        resolved_value(views_of(actions@)[0], window@),
                                        k as int,
                                    );
                                }
                            }
                        },
                    }
                } else {
                    proof {
                        if single_deterministic_write(views_of(actions@), window@) {
                            assert(!slot_targeted(
                                views_of(actions@)[0].location,
                                window@,
                                k as int,
                            ));
                            lemma_write_step_skip(
                                *old(texture),
                                x as int,
                                y as int,
                                window@,
                                views_of(actions@)[0].location,
                                resolved_value(views_of(actions@)[0], window@),
                                k as int,
                            );
                        }
                    }
                }
            }
            // If the leading action was the unconditional FILL literal, the
            // guard above returned before any write: reaching this point with
            // a_i == 0 means the first action's value was not FILL.
            proof {
                if a_i == 0 && first_action_fills(views_of(actions@), window@) {
                    assert(views_of(actions@)[0] == actions@[0]@);
                    assert(false);
                }
            }
        } else {
            proof {
                if a_i == 0 && first_action_fills(views_of(actions@), window@) {
                    assert(views_of(actions@)[0] == actions@[0]@);
                    assert(false);
                }
                if single_deterministic_write(views_of(actions@), window@) {
                    assert(views_of(actions@)[0] == actions@[0]@);
                    assert(false);
                }
                if a_i == 0 && head_forces_write(
                    views_of(actions@),
                    *old(texture),
                    x as int,
                    y as int,
                ) {
                    assert(views_of(actions@)[0] == actions@[0]@);
                    assert(false);
                }
            }
        }
        a_i = a_i + 1;
    }
}

/// A symbol a pass could legitimately write: a literal action value of
/// one of the rules, or a symbol read out of the frozen snapshot.
pub open spec fn pass_value_source(rules: Seq<Rule>, input: Seq<char>, c: char) -> bool {
    (exists|r: int, a: int|
        0 <= r < rules.len() && 0 <= a < rules[r].actions().len() && (
        #[trigger] rules[r].actions()[a]).value == ActionParam::Char(c)) || input.contains(c)
}

/// Some rule with a nonempty condition matches a snapshot window, and
/// its head action is an unconditional pinned non-FILL literal landing
/// on the grid: the pass is then forced to write, whatever the random
/// draws and the rule order.
pub open spec fn pass_forces_change(rules: Seq<Rule>, t: CharTexture, input: Seq<char>) -> bool {
    exists|r: int, c: int|
        0 <= r < rules.len() && 0 <= c < t.pixels@.len() && rules[r].condition_src().len() > 0 && (
        #[trigger] rules[r].spec_matches(input.subrange(9 * c, 9 * c + 9))) && head_forces_write(
            rules[r].actions(),
            t,
            c % t.width(),
            c / t.width(),
        )
}

/// One full pass: for each rule, in the caller-shuffled order produced
/// here, test its condition against every cell's 9-symbol slice of the
/// frozen snapshot `input`, and on a match run its actions against the
/// live grid.
///
/// Whatever the random draws: the dimensions are kept, no cell is ever
/// overwritten with the FILL symbol, every changed cell holds a literal
/// action value of some rule or a snapshot symbol, and if no rule with
/// a nonempty condition matches any window of the snapshot, the grid is
/// left bit-for-bit unchanged.
pub fn apply_rules(
    rng: &mut Randomness,
    texture: &mut CharTexture,
    rules: &Vec<Rule>,
    input: &str,
)
    requires
        old(texture).wf(),
        input@.len() == 9 * old(texture).width() * old(texture).height(),
        forall|r: int| 0 <= r < rules@.len() ==> (#[trigger] rules@[r]).wf(),
    ensures
        final(texture).wf(),
        final(texture).dimensions == old(texture).dimensions,
        final(texture).pixels@.len() == old(texture).pixels@.len(),
        forall|i: int|
            0 <= i < old(texture).pixels@.len() && final(texture).pixels@[i] != old(
                texture,
            ).pixels@[i] ==> final(texture).pixels@[i] != FILL_CHAR,
        forall|i: int|
            0 <= i < old(texture).pixels@.len() && final(texture).pixels@[i] != old(
                texture,
            ).pixels@[i] ==> pass_value_source(rules@, input@, final(texture).pixels@[i]),
        (forall|r: int, c: int|
            0 <= r < rules@.len() && 0 <= c < old(texture).pixels@.len() && rules@[r].condition_src().len() > 0 ==> !(#[trigger] rules@[r].spec_matches(
                input@.subrange(9 * c, 9 * c + 9),
            ))) ==> *final(texture) == *old(texture),
        pass_forces_change(rules@, *old(texture), input@) ==> final(texture).changed,
        old(texture).changed ==> final(texture).changed,
{
    let n_rules = rules.len();
    let mut order: Vec<usize> = Vec::new();
    for r in 0..n_rules
        invariant
            order@.len() == r,
            forall|k: int| 0 <= k < r ==> order@[k] == k,
    {
        order.push(r);
    }
    let ghost pre = order@;
    rng.shuffle(&mut order);
    proof {
        assert forall|k: int| 0 <= k < order@.len() implies order@[k] < n_rules by {
            let v = order@[k];
            order@.to_multiset_ensures();
            pre.to_multiset_ensures();
            assert(order@.to_multiset().contains(v));
            assert(pre.to_multiset().contains(v));
            assert(pre.contains(v));
            let w = choose|w: int| 0 <= w < pre.len() && pre[w] == v;
            assert(pre[w] == w as usize);
        }
    }
    let ghost forced = pass_forces_change(rules@, *old(texture), input@);
    let ghost (r0, c0): (int, int) = if forced {
        choose|r: int, c: int|
            0 <= r < rules@.len() && 0 <= c < old(texture).pixels@.len()
                && rules@[r].condition_src().len() > 0 && (#[trigger] rules@[r].spec_matches(
                input@.subrange(9 * c, 9 * c + 9),
            )) && head_forces_write(
                rules@[r].actions(),
                *old(texture),
                c % old(texture).width(),
                c / old(texture).width(),
            )
    } else {
        (0, 0)
    };
    proof {
        if forced {
            // the shuffled order is a permutation, so the witness rule's
            // index still occurs somewhere in it
            order@.to_multiset_ensures();
            pre.to_multiset_ensures();
            assert(pre[r0] == r0 as usize);
            assert(pre.contains(r0 as usize));
            assert(order@.to_multiset().contains(r0 as usize));
            assert(order@.contains(r0 as usize));
            let kw = choose|kw: int| 0 <= kw < order@.len() && order@[kw] == r0 as usize;
            assert(exists|k: int| #![trigger order@[k]] 0 <= k < order@.len() && order@[k] == r0);
        }
    }
    let snapshot = str_to_chars(input);
    let n_cells = texture.pixels.len();
    let order_len = order.len();
    let ghost no_match = forall|r: int, c: int|
        0 <= r < rules@.len() && 0 <= c < old(texture).pixels@.len() && rules@[r].condition_src().len() > 0 ==> !(#[trigger] rules@[r].spec_matches(
            input@.subrange(9 * c, 9 * c + 9),
        ));
    for oi in 0..order_len
        invariant
            order_len == order@.len(),
            forall|k: int| 0 <= k < order@.len() ==> order@[k] < n_rules,
            n_rules == rules@.len(),
            forall|r: int| 0 <= r < rules@.len() ==> (#[trigger] rules@[r]).wf(),
            texture.wf(),
            texture.dimensions == old(texture).dimensions,
            texture.pixels@.len() == old(texture).pixels@.len(),
            n_cells == old(texture).pixels@.len(),
            snapshot@ == input@,
            input@.len() == 9 * old(texture).width() * old(texture).height(),
            forall|i: int|
                0 <= i < old(texture).pixels@.len() && texture.pixels@[i] != old(
                    texture,
                ).pixels@[i] ==> texture.pixels@[i] != FILL_CHAR,
            forall|i: int|
                0 <= i < old(texture).pixels@.len() && texture.pixels@[i] != old(
                    texture,
                ).pixels@[i] ==> pass_value_source(rules@, input@, texture.pixels@[i]),
            no_match == (forall|r: int, c: int|
                0 <= r < rules@.len() && 0 <= c < old(texture).pixels@.len() && rules@[r].condition_src().len() > 0 ==> !(#[trigger] rules@[r].spec_matches(
                    input@.subrange(9 * c, 9 * c + 9),
                ))),
            no_match ==> *texture == *old(texture),
            old(texture).changed ==> texture.changed,
            forced == pass_forces_change(rules@, *old(texture), input@),
            forced ==> 0 <= r0 < rules@.len() && 0 <= c0 < old(texture).pixels@.len()
                && rules@[r0].condition_src().len() > 0 && rules@[r0].spec_matches(
                input@.subrange(9 * c0, 9 * c0 + 9),
            ) && head_forces_write(
                rules@[r0].actions(),
                *old(texture),
                c0 % old(texture).width(),
                c0 / old(texture).width(),
            ),
            forced ==> texture.changed || (exists|k: int|
                #![trigger order@[k]]
                oi <= k < order@.len() && order@[k] == r0),
    {
        let rule_index = order[oi];
        let rule = &rules[rule_index];
        if !rule.original_condition().is_empty() {
            for cell in 0..n_cells
                invariant
                    n_rules == rules@.len(),
                    rule_index < n_rules,
                    rule == rules@[rule_index as int],
                    rule.wf(),
                    rule.condition_src().len() > 0,
                    texture.wf(),
                    texture.dimensions == old(texture).dimensions,
                    texture.pixels@.len() == old(texture).pixels@.len(),
                    n_cells == old(texture).pixels@.len(),
                    snapshot@ == input@,
                    input@.len() == 9 * old(texture).width() * old(texture).height(),
                    forall|i: int|
                        0 <= i < old(texture).pixels@.len() && texture.pixels@[i] != old(
                            texture,
                        ).pixels@[i] ==> texture.pixels@[i] != FILL_CHAR,
                    forall|i: int|
                        0 <= i < old(texture).pixels@.len() && texture.pixels@[i] != old(
                            texture,
                        ).pixels@[i] ==> pass_value_source(rules@, input@, texture.pixels@[i]),
                    no_match == (forall|r: int, c: int|
                        0 <= r < rules@.len() && 0 <= c < old(texture).pixels@.len() && rules@[r].condition_src().len() > 0 ==> !(#[trigger] rules@[r].spec_matches(
                            input@.subrange(9 * c, 9 * c + 9),
                        ))),
                    no_match ==> *texture == *old(texture),
                    old(texture).changed ==> texture.changed,
                    forced == pass_forces_change(rules@, *old(texture), input@),
                    forced ==> 0 <= r0 < rules@.len() && 0 <= c0 < old(texture).pixels@.len()
                        && rules@[r0].condition_src().len() > 0 && rules@[r0].spec_matches(
                        input@.subrange(9 * c0, 9 * c0 + 9),
                    ) && head_forces_write(
                        rules@[r0].actions(),
                        *old(texture),
                        c0 % old(texture).width(),
                        c0 / old(texture).width(),
                    ),
                    forced ==> texture.changed || (exists|k: int|
                        #![trigger order@[k]]
                        oi <= k < order@.len() && order@[k] == r0),
                    forced && rule_index == r0 && cell > c0 ==> texture.changed,
            {
                proof {
                    lemma_cell_slice_bounds(
                        cell as int,
                        old(texture).width(),
                        old(texture).height(),
                    );
                }
                let window = window_slice(&snapshot, cell);
                if rule.condition_matches(&window) {
                    let ghost pre = *texture;
                    let (x, y) = texture.xy_from_index(cell);
                    proof {
                        if no_match {
                            assert(rules@[rule_index as int].spec_matches(
                                input@.subrange(9 * cell, 9 * cell + 9),
                            ));
                            assert(false);
                        }
                        crate::rule::lemma_parse_eval_ok(rule.action_src(), 0);
                    }
                    let actions = rule.action();
                    let ghost pre_call = *texture;
                    apply_actions(texture, actions, rng, &window, x, y);
                    proof {
                        if forced && rule_index == r0 && cell == c0 {
                            assert(views_of(actions@) == rules@[r0].actions());
                            assert(x == c0 % old(texture).width() && y == c0 / old(
                                texture,
                            ).width());
                            assert(head_forces_write(
                                views_of(actions@),
                                pre_call,
                                x as int,
                                y as int,
                            ));
                            assert(texture.changed);
                        }
                        assert forall|i: int|
                            0 <= i < old(texture).pixels@.len() && texture.pixels@[i] != old(
                                texture,
                            ).pixels@[i] implies pass_value_source(
                            rules@,
                            input@,
                            texture.pixels@[i],
                        ) by {
                            let c = texture.pixels@[i];
                            if texture.pixels@[i] != pre.pixels@[i] {
                                assert(action_value_source(views_of(actions@), window@, c));
                                if window@.contains(c) {
                                    let wk = choose|wk: int|
                                        0 <= wk < window@.len() && window@[wk] == c;
                                    assert(input@[9 * cell + wk] == c);
                                    assert(input@.contains(c));
                                } else {
                                    let a = choose|a: int|
                                        0 <= a < views_of(actions@).len() && (#[trigger] views_of(
                                            actions@,
                                        )[a]).value == ActionParam::Char(c);
                                    assert(rules@[rule_index as int].actions()[a].value
                                        == ActionParam::Char(c));
                                }
                            }
                        }
                    }
                }
            }
        }
    }
}

/// The engine facade: the grid, the active rules and the palette, owned
/// together and mutated only through one call at a time.
pub struct SpriteGen {
    pub char_texture: CharTexture,
    pub rules: Vec<Rule>,
    pub char_color: Palette,
}

impl SpriteGen {
    /// Every stored rule's actions agree with its source text.
    pub open spec fn rules_wf(self) -> bool {
        forall|r: int| 0 <= r < self.rules@.len() ==> (#[trigger] self.rules@[r]).wf()
    }

    pub fn new(width: usize, height: usize) -> (r: Self)
        requires
            crate::grid::clamp1(width as int) <= i32::MAX,
            crate::grid::clamp1(height as int) <= i32::MAX,
            crate::grid::clamp1(width as int) * crate::grid::clamp1(height as int) <= usize::MAX,
        ensures
            r.char_texture.wf(),
            r.char_texture.width() == crate::grid::clamp1(width as int),
            r.char_texture.height() == crate::grid::clamp1(height as int),
            forall|i: int|
                0 <= i < r.char_texture.pixels@.len() ==> #[trigger] r.char_texture.pixels@[i]
                    == FILL_CHAR,
            !r.char_texture.changed,
            r.rules@.len() == 0,
            r.char_color.wf(),
            r.char_color.entries@.len() == 0,
            r.rules_wf(),
    {
        SpriteGen {
            char_texture: CharTexture::new(width, height),
            rules: Vec::new(),
            char_color: Palette::new(),
        }
    }

    /// Runs one full rule pass against a snapshot of the current grid:
    /// all matching reads the frozen snapshot, all writes land on the
    /// live grid. If no rule with a nonempty condition matches any
    /// window of that snapshot, the grid comes out bit-for-bit
    /// unchanged; where a matching rule's head action forces a write,
    /// the grid comes out marked changed; whatever matches, no cell is
    /// overwritten with FILL, and every changed cell holds a literal
    /// action value of some rule or a symbol of the snapshot.
    pub fn apply(&mut self, rng: &mut Randomness)
        requires
            old(self).char_texture.wf(),
            old(self).rules_wf(),
            9 * old(self).char_texture.width() * old(self).char_texture.height() <= usize::MAX,
        ensures
            final(self).char_texture.wf(),
            final(self).char_texture.dimensions == old(self).char_texture.dimensions,
            final(self).char_texture.pixels@.len() == old(self).char_texture.pixels@.len(),
            final(self).rules@ == old(self).rules@,
            final(self).char_color == old(self).char_color,
            final(self).rules_wf(),
            forall|i: int|
                0 <= i < old(self).char_texture.pixels@.len()
                    && final(self).char_texture.pixels@[i] != old(self).char_texture.pixels@[i]
                    ==> final(self).char_texture.pixels@[i] != FILL_CHAR,
            forall|i: int|
                0 <= i < old(self).char_texture.pixels@.len()
                    && final(self).char_texture.pixels@[i] != old(self).char_texture.pixels@[i]
                    ==> pass_value_source(
                    old(self).rules@,
                    old(self).char_texture.flat(),
                    final(self).char_texture.pixels@[i],
                ),
            (forall|r: int, c: int|
                0 <= r < old(self).rules@.len() && 0 <= c < old(self).char_texture.pixels@.len()
                    && old(self).rules@[r].condition_src().len() > 0
                    ==> !(#[trigger] old(self).rules@[r].spec_matches(
                    old(self).char_texture.flat().subrange(9 * c, 9 * c + 9),
                )))
                ==> final(self).char_texture == old(self).char_texture,
            pass_forces_change(
                old(self).rules@,
                old(self).char_texture,
                old(self).char_texture.flat(),
            ) ==> final(self).char_texture.changed,
            old(self).char_texture.changed ==> final(self).char_texture.changed,
    {
        let input = self.char_texture.full_stringify();
        apply_rules(rng, &mut self.char_texture, &self.rules, input.as_str());
    }

    /// Renders the grid through the palette into a flat RGBA buffer:
    /// each cell's four bytes are its symbol's colour, or all zero
    /// (fully transparent) for a symbol the palette does not hold.
    pub fn update_texture(&self, texture: &mut Vec<u8>)
        requires
            self.char_texture.wf(),
            old(texture)@.len() == 4 * self.char_texture.width() * self.char_texture.height(),
        ensures
            final(texture)@.len() == old(texture)@.len(),
            forall|i: int|
                0 <= i < self.char_texture.pixels@.len() ==> final(texture)@.subrange(
                    4 * i,
                    4 * i + 4,
                ) == cell_bytes(self.char_color, #[trigger] self.char_texture.pixels@[i]),
    {
        let n = self.char_texture.pixels.len();
        let total = texture.len();
        proof {
            assert(4 * (self.char_texture.width() * self.char_texture.height()) == 4
                * self.char_texture.width() * self.char_texture.height()) by (nonlinear_arith);
        }
        for index in 0..n
            invariant
                self.char_texture.wf(),
                n == self.char_texture.pixels@.len(),
                texture@.len() == old(texture)@.len(),
                old(texture)@.len() == 4 * self.char_texture.width()
                    * self.char_texture.height(),
                4 * n <= texture@.len(),
                total == texture@.len(),
                forall|i: int|
                    0 <= i < index ==> texture@.subrange(4 * i, 4 * i + 4) == cell_bytes(
                        self.char_color,
                        #[trigger] self.char_texture.pixels@[i],
                    ),
        {
            let symbol = self.char_texture.pixels[index];
            let color: [u8; 4] = match self.char_color.get(symbol) {
                Some(c) => c,
                None => [0, 0, 0, 0],
            };
            let ghost before = texture@;
            let base = 4 * index;
            texture[base] = color[0];
            texture[base + 1] = color[1];
            texture[base + 2] = color[2];
            texture[base + 3] = color[3];
            proof {
                assert(texture@.subrange(4 * index, 4 * index + 4) =~= cell_bytes(
                    self.char_color,
                    self.char_texture.pixels@[index as int],
                ));
                assert forall|i: int|
                    0 <= i < index implies texture@.subrange(4 * i, 4 * i + 4) == cell_bytes(
                    self.char_color,
                    #[trigger] self.char_texture.pixels@[i],
                ) by {
                    assert(texture@.subrange(4 * i, 4 * i + 4) =~= before.subrange(
                        4 * i,
                        4 * i + 4,
                    ));
                }
            }
        }
    }

    /// Full regeneration: the alphabet becomes the first 6 to 26
    /// uppercase letters, each with a fresh opaque colour drawn in the
    /// buffered range; the rule set becomes 5 to 7 generated rules over
    /// that alphabet; and the grid is reseeded from the noise pipeline,
    /// so every cell holds a symbol of the new palette.
    pub fn randomize(&mut self, rng: &mut Randomness)
        requires
            old(self).char_texture.wf(),
            old(self).char_texture.width() <= 10000,
            old(self).char_texture.height() <= 10000,
        ensures
            final(self).char_texture.wf(),
            final(self).char_texture.dimensions == old(self).char_texture.dimensions,
            final(self).rules_wf(),
            final(self).char_color.wf(),
            6 <= final(self).char_color.entries@.len() <= 26,
            forall|i: int|
                0 <= i < final(self).char_color.entries@.len()
                    ==> (#[trigger] final(self).char_color.entries@[i]).0 as int == 65 + i,
            forall|i: int|
                0 <= i < final(self).char_color.entries@.len()
                    ==> (#[trigger] final(self).char_color.entries@[i]).1[3] == 255,
            forall|i: int|
                0 <= i < final(self).char_color.entries@.len() ==> crate::gen::color_from_draw(
                    (#[trigger] final(self).char_color.entries@[i]).1,
                    50,
                ),
            5 <= final(self).rules@.len() < 8,
            forall|k: int|
                0 <= k < final(self).rules@.len()
                    ==> (#[trigger] final(self).rules@[k]).condition_src().len() > 0,
            forall|k: int|
                0 <= k < final(self).rules@.len() ==> crate::gen::generated_condition(
                    (#[trigger] final(self).rules@[k]).condition_src(),
                    crate::noise::palette_keys(final(self).char_color),
                    final(self).char_color.entries@.len() as int / 2,
                    5,
                ),
            forall|k: int|
                0 <= k < final(self).rules@.len()
                    ==> 1 <= (#[trigger] final(self).rules@[k]).actions().len() <= 3,
            forall|i: int|
                0 <= i < final(self).char_texture.pixels@.len() ==> crate::noise::palette_keys(
                    final(self).char_color,
                ).contains(#[trigger] final(self).char_texture.pixels@[i]),
    {
        let seed = crate::gen::SpriteSettings::random(rng);
        proof {
            assert forall|i: int, j: int|
                0 <= i < j < seed.colors@.len() implies seed.colors@[i].0 != seed.colors@[j].0 by {
                assert(seed.colors@[i].0 as int == 65 + i && seed.colors@[j].0 as int == 65 + j);
            }
        }
        self.char_color = Palette { entries: seed.colors };
        self.rules = seed.rules;
        proof {
            assert(crate::noise::palette_keys(self.char_color) =~= seed.colors@.map_values(
                |e: (char, [u8; 4])| e.0,
            ));
        }
        crate::noise::noise_fill(self, rng);
    }

    /// Regenerates only the palette: the same symbols, in the same
    /// order, with fresh colours.
    pub fn randomize_color(&mut self, rng: &mut Randomness)
        requires
            old(self).char_color.wf(),
        ensures
            final(self).char_color.wf(),
            final(self).char_color.entries@.len() == old(self).char_color.entries@.len(),
            forall|i: int|
                0 <= i < final(self).char_color.entries@.len()
                    ==> (#[trigger] final(self).char_color.entries@[i]).0 == old(
                    self,
                ).char_color.entries@[i].0,
            forall|i: int|
                0 <= i < final(self).char_color.entries@.len()
                    ==> (#[trigger] final(self).char_color.entries@[i]).1[3] == 255,
            forall|i: int|
                0 <= i < final(self).char_color.entries@.len() ==> crate::gen::color_from_draw(
                    (#[trigger] final(self).char_color.entries@[i]).1,
                    50,
                ),
            final(self).char_texture == old(self).char_texture,
            final(self).rules@ == old(self).rules@,
    {
        let letters = self.char_color.keys();
        let settings = crate::gen::ColorSettings::random(rng);
        let colors = settings.generate(rng, &letters);
        proof {
            assert forall|i: int, j: int|
                0 <= i < j < colors@.len() implies colors@[i].0 != colors@[j].0 by {
                assert(colors@[i].0 == letters@[i] && colors@[j].0 == letters@[j]);
            }
        }
        self.char_color = Palette { entries: colors };
    }

    /// Regenerates only the rule set: 5 to 7 generated rules over the
    /// palette's current alphabet, each with a compiling condition and
    /// 1 to 3 generated actions.
    pub fn randomize_rules(&mut self, rng: &mut Randomness)
        requires
            2 <= old(self).char_color.entries@.len() <= 26,
            forall|i: int|
                0 <= i < old(self).char_color.entries@.len() ==> crate::rule::is_upper(
                    (#[trigger] old(self).char_color.entries@[i]).0,
                ),
        ensures
            final(self).rules_wf(),
            5 <= final(self).rules@.len() < 8,
            forall|k: int|
                0 <= k < final(self).rules@.len()
                    ==> (#[trigger] final(self).rules@[k]).condition_src().len() > 0,
            forall|k: int|
                0 <= k < final(self).rules@.len() ==> crate::gen::generated_condition(
                    (#[trigger] final(self).rules@[k]).condition_src(),
                    crate::noise::palette_keys(old(self).char_color),
                    old(self).char_color.entries@.len() as int / 2,
                    5,
                ),
            forall|k: int|
                0 <= k < final(self).rules@.len()
                    ==> 1 <= (#[trigger] final(self).rules@[k]).actions().len() <= 3,
            forall|k: int, a: int|
                0 <= k < final(self).rules@.len() && 0 <= a < final(self).rules@[k].actions().len()
                    ==> crate::gen::generated_action(
                    #[trigger] final(self).rules@[k].actions()[a],
                    crate::noise::palette_keys(old(self).char_color),
                ),
            final(self).char_texture == old(self).char_texture,
            final(self).char_color == old(self).char_color,
    {
        let letters = self.char_color.keys();
        proof {
            assert(letters@ =~= crate::noise::palette_keys(self.char_color));
        }
        let settings = crate::gen::RuleSettings::random(rng);
        self.rules = settings.generate(rng, &letters);
    }

    pub fn is_changed(&self) -> (r: bool)
        ensures
            r == self.char_texture.changed,
    {
        self.char_texture.changed
    }

    /// Marks the grid as needing a redraw (a palette edit, say).
    pub fn set_changed(&mut self)
        ensures
            final(self).char_texture.changed,
            final(self).char_texture.pixels@ == old(self).char_texture.pixels@,
            final(self).char_texture.dimensions == old(self).char_texture.dimensions,
            final(self).rules@ == old(self).rules@,
            final(self).char_color == old(self).char_color,
    {
        self.char_texture.changed = true;
    }

    /// Clears the redraw mark, after a renderer has consumed the grid.
    pub fn clear_changed(&mut self)
        ensures
            !final(self).char_texture.changed,
            final(self).char_texture.pixels@ == old(self).char_texture.pixels@,
            final(self).char_texture.dimensions == old(self).char_texture.dimensions,
            final(self).rules@ == old(self).rules@,
            final(self).char_color == old(self).char_color,
    {
        self.char_texture.changed = false;
    }
}

/// The four bytes a cell renders to: its symbol's colour, or fully
/// transparent black for a symbol outside the palette.
pub open spec fn cell_bytes(palette: Palette, symbol: char) -> Seq<u8> {
    if palette.has(symbol) {
        palette.color_of(symbol)@
    } else {
        seq![0u8, 0u8, 0u8, 0u8]
    }
}

/// The 9-symbol slice of a flattened snapshot that belongs to one cell.
fn window_slice(snapshot: &Vec<char>, cell: usize) -> (r: Vec<char>)
    requires
        9 * cell + 9 <= snapshot@.len(),
    ensures
        r@ == snapshot@.subrange(9 * cell, 9 * cell + 9),
        r@.len() == 9,
{
    let n = snapshot.len();
    let start = 9 * cell;
    let mut out: Vec<char> = Vec::new();
    for k in 0..9usize
        invariant
            n == snapshot@.len(),
            9 * cell + 9 <= snapshot@.len(),
            start == 9 * cell,
            out@ == snapshot@.subrange(9 * cell, 9 * cell + k),
    {
        out.push(snapshot[start + k]);
        proof {
            assert(out@ =~= snapshot@.subrange(9 * cell, 9 * cell + k + 1));
        }
    }
    out
}

proof fn lemma_cell_slice_bounds(cell: int, w: int, h: int)
    requires
        0 <= cell < w * h,
        1 <= w,
        1 <= h,
    ensures
        9 * cell + 9 <= 9 * w * h,
{
    assert(9 * cell + 9 <= 9 * w * h) by (nonlinear_arith)
        requires
            0 <= cell < w * h,
    ;
}

} // verus!
