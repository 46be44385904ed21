use vstd::prelude::*;
use crate::textutil::{chars_to_string, str_to_chars};

verus! {

// ---------------------------------------------------------------------------
// Action tokens
//
// A rule's action source is a concatenation of tokens of the shape
// `<location><value>` optionally followed by `[<probability>]`, where
// location and value are each an uppercase letter, a digit 1-9 or `*`,
// and the probability literal is an optional `0`, a dot and one or more
// decimal digits. Ill-formed residue between tokens is skipped.
// ---------------------------------------------------------------------------

/// Location or value specifier of one action token: a literal symbol, a
/// 1-based window position, or a wildcard.
#[derive(Clone, Copy, Debug, PartialEq, Eq, Structural)]
pub enum ActionParam {
    Char(char),
    Index(usize),
    Wildcard,
}

/// One parsed action. The probability is kept as the decimal digits of
/// its fractional part, so re-serialization loses nothing.
#[derive(Clone, Debug, PartialEq)]
pub struct Action {
    pub chance: Option<Vec<char>>,
    pub location: ActionParam,
    pub value: ActionParam,
}

/// Mathematical model of one action.
pub struct ActionModel {
    pub chance: Option<Seq<char>>,
    pub location: ActionParam,
    pub value: ActionParam,
}

impl View for Action {
    type V = ActionModel;

    open spec fn view(&self) -> ActionModel {
        ActionModel {
            chance: match self.chance {
                Some(d) => Some(d@),
                None => None,
            },
            location: self.location,
            value: self.value,
        }
    }
}

/// The models of a sequence of actions.
pub open spec fn views_of(s: Seq<Action>) -> Seq<ActionModel> {
    s.map_values(|a: Action| a@)
}

pub open spec fn is_upper(c: char) -> bool {
    65 <= c as int && c as int <= 90
}

pub open spec fn is_nonzero_digit(c: char) -> bool {
    49 <= c as int && c as int <= 57
}

pub open spec fn is_digit_char(c: char) -> bool {
    48 <= c as int && c as int <= 57
}

/// A character that may stand as a location or value specifier.
pub open spec fn is_token_char(c: char) -> bool {
    is_upper(c) || is_nonzero_digit(c) || c == '*'
}

/// The specifier a single character denotes.
pub open spec fn param_of(c: char) -> ActionParam {
    if is_nonzero_digit(c) {
        ActionParam::Index((c as int - 48) as usize)
    } else if c == '*' {
        ActionParam::Wildcard
    } else {
        ActionParam::Char(c)
    }
}

/// End of the run of decimal digits that starts at `i`: the first
/// position at or after `i` that is past the end or holds a non-digit.
pub open spec fn digit_run_end(s: Seq<char>, i: int) -> int
    decreases s.len() - i,
{
    if i < 0 || i >= s.len() {
        i
    } else if is_digit_char(s[i]) {
        digit_run_end(s, i + 1)
    } else {
        i
    }
}

/// Length of a probability literal `[0?.d+]` starting at `j`, bracket to
/// bracket; 0 when no such literal starts there.
pub open spec fn chance_span_at(s: Seq<char>, j: int) -> int {
    if j + 1 < s.len() && s[j] == '[' {
        let p = if s[j + 1] == '0' {
            j + 2
        } else {
            j + 1
        };
        if p < s.len() && s[p] == '.' {
            let e = digit_run_end(s, p + 1);
            if e > p + 1 && e < s.len() && s[e] == ']' {
                e + 1 - j
            } else {
                0
            }
        } else {
            0
        }
    } else {
        0
    }
}

/// The digits of the probability literal starting at `j` (meaningful
/// only where `chance_span_at` is positive).
pub open spec fn chance_digits_at(s: Seq<char>, j: int) -> Seq<char> {
    let p = if s[j + 1] == '0' {
        j + 2
    } else {
        j + 1
    };
    s.subrange(p + 1, digit_run_end(s, p + 1))
}

/// The action whose token starts at position `i`.
pub open spec fn action_at(s: Seq<char>, i: int) -> ActionModel {
    ActionModel {
        chance: if chance_span_at(s, i + 2) > 0 {
            Some(chance_digits_at(s, i + 2))
        } else {
            None
        },
        location: param_of(s[i]),
        value: param_of(s[i + 1]),
    }
}

/// The actions parsed from position `i` onward: tokens are taken where
/// two specifier characters stand side by side, anything else is skipped
/// one character at a time.
pub open spec fn parse_from(s: Seq<char>, i: int) -> Seq<ActionModel>
    decreases s.len() - i,
        when 0 <= i <= s.len()
        via parse_from_dec
{
    if i + 2 > s.len() {
        Seq::empty()
    } else if is_token_char(s[i]) && is_token_char(s[i + 1]) {
        seq![action_at(s, i)] + parse_from(s, i + 2 + chance_span_at(s, i + 2))
    } else {
        parse_from(s, i + 1)
    }
}

/// The action list denoted by an action source string.
pub open spec fn parse_actions(s: Seq<char>) -> Seq<ActionModel> {
    parse_from(s, 0)
}

pub proof fn lemma_digit_run_bounds(s: Seq<char>, i: int)
    requires
        0 <= i <= s.len(),
    ensures
        i <= digit_run_end(s, i) <= s.len(),
        forall|k: int| i <= k < digit_run_end(s, i) ==> is_digit_char(s[k]),
        digit_run_end(s, i) < s.len() ==> !is_digit_char(s[digit_run_end(s, i)]),
    decreases s.len() - i,
{
    if i < s.len() && is_digit_char(s[i]) {
        lemma_digit_run_bounds(s, i + 1);
    }
}

pub proof fn lemma_chance_span_bounds(s: Seq<char>, j: int)
    requires
        0 <= j <= s.len(),
    ensures
        chance_span_at(s, j) == 0 || 4 <= chance_span_at(s, j) <= s.len() - j,
{
    if j + 1 < s.len() && s[j] == '[' {
        let p = if s[j + 1] == '0' {
            j + 2
        } else {
            j + 1
        };
        if p < s.len() && s[p] == '.' {
            lemma_digit_run_bounds(s, p + 1);
        }
    }
}

#[via_fn]
proof fn parse_from_dec(s: Seq<char>, i: int) {
    if i + 2 <= s.len() && is_token_char(s[i]) && is_token_char(s[i + 1]) {
        lemma_chance_span_bounds(s, i + 2);
    }
}

// ---------------------------------------------------------------------------
// Executable parser
// ---------------------------------------------------------------------------

fn is_token_char_exec(c: char) -> (r: bool)
    ensures
        r == is_token_char(c),
{
    let u = c as u32;
    (65 <= u && u <= 90) || (49 <= u && u <= 57) || u == 42
}

fn is_digit_char_exec(c: char) -> (r: bool)
    ensures
        r == is_digit_char(c),
{
    let u = c as u32;
    48 <= u && u <= 57
}

fn param_from_char(c: char) -> (r: ActionParam)
    ensures
        r == param_of(c),
{
    let u = c as u32;
    if 49 <= u && u <= 57 {
        ActionParam::Index((u - 48) as usize)
    } else if u == 42 {
        ActionParam::Wildcard
    } else {
        ActionParam::Char(c)
    }
}

/// Scans for a probability literal at position `j`; returns its digits
/// and its full length when one is there.
fn scan_chance(s: &Vec<char>, j: usize) -> (r: Option<(Vec<char>, usize)>)
    requires
        j <= s@.len(),
    ensures
        match r {
            Some(pair) => {
                &&& chance_span_at(s@, j as int) == pair.1
                &&& pair.1 >= 4
                &&& j + pair.1 <= s@.len()
                &&& pair.0@ == chance_digits_at(s@, j as int)
            },
            None => chance_span_at(s@, j as int) == 0,
        },
{
    let n = s.len();
    if n - j >= 2 && s[j] == '[' {
        let mut p = j + 1;
        if s[p] == '0' {
            p = p + 1;
        }
        if p < n && s[p] == '.' {
            let mut e = p + 1;
            while e < n && is_digit_char_exec(s[e])
                invariant
                    p + 1 <= e <= n,
                    n == s@.len(),
                    forall|k: int| p + 1 <= k < e ==> is_digit_char(s@[k]),
                decreases n - e,
            {
                e = e + 1;
            }
            proof {
                lemma_digit_run_exact(s@, p + 1, e as int);
            }
            if e > p + 1 && e < n {
                let close = s[e];
                if close == ']' {
                    let mut digits: Vec<char> = Vec::new();
                    let mut t = p + 1;
                    while t < e
                        invariant
                            p + 1 <= t <= e <= n,
                            n == s@.len(),
                            digits@ == s@.subrange(p + 1, t as int),
                        decreases e - t,
                    {
                        digits.push(s[t]);
                        proof {
                            assert(digits@ =~= s@.subrange(p + 1, t + 1));
                        }
                        t = t + 1;
                    }
                    return Some((digits, e + 1 - j));
                }
            }
            return None;
        }
        return None;
    }
    None
}

/// If the characters from `i` to `e` are all digits and `e` sits at the
/// end or on a non-digit, the digit run starting at `i` ends at `e`.
proof fn lemma_digit_run_exact(s: Seq<char>, i: int, e: int)
    requires
        0 <= i <= e <= s.len(),
        forall|k: int| i <= k < e ==> is_digit_char(s[k]),
        e < s.len() ==> !is_digit_char(s[e]),
    ensures
        digit_run_end(s, i) == e,
    decreases e - i,
{
    if i < e {
        lemma_digit_run_exact(s, i + 1, e);
    }
}

/// Parses an action source, given as characters, into its action list.
pub fn parse_action_chars(s: &Vec<char>) -> (r: Vec<Action>)
    ensures
        views_of(r@) == parse_actions(s@),
{
    let n = s.len();
    let mut out: Vec<Action> = Vec::new();
    let mut i: usize = 0;
    while n - i >= 2
        invariant
            n == s@.len(),
            i <= n,
            parse_actions(s@) == views_of(out@) + parse_from(s@, i as int),
        decreases n - i,
    {
        let c0 = s[i];
        let c1 = s[i + 1];
        if is_token_char_exec(c0) && is_token_char_exec(c1) {
            let ghost prev = out@;
            let (chance, consumed): (Option<Vec<char>>, usize) = match scan_chance(s, i + 2) {
                Some((digits, consumed)) => (Some(digits), consumed),
                None => (None, 0),
            };
            let act = Action {
                chance,
                location: param_from_char(c0),
                value: param_from_char(c1),
            };
            proof {
                assert(act@ == action_at(s@, i as int));
                assert(parse_from(s@, i as int) == seq![action_at(s@, i as int)] + parse_from(
                    s@,
                    i + 2 + chance_span_at(s@, i + 2),
                ));
            }
            out.push(act);
            proof {
                assert(views_of(out@) =~= views_of(prev).push(act@));
                assert(views_of(prev).push(act@) + parse_from(
                    s@,
                    i + 2 + chance_span_at(s@, i + 2),
                ) =~= views_of(prev) + parse_from(s@, i as int));
            }
            i = i + 2 + consumed;
        } else {
            proof {
                assert(parse_from(s@, i as int) == parse_from(s@, i + 1));
            }
            i = i + 1;
        }
    }
    proof {
        assert(parse_from(s@, i as int) =~= Seq::<ActionModel>::empty());
        assert(views_of(out@) + Seq::<ActionModel>::empty() =~= views_of(out@));
    }
    out
}

// ---------------------------------------------------------------------------
// Serialization, and the round trip it makes with the parser
// ---------------------------------------------------------------------------

/// The digit character for a window position 1-9.
pub open spec fn digit_char(i: int) -> char {
    if i == 1 {
        '1'
    } else if i == 2 {
        '2'
    } else if i == 3 {
        '3'
    } else if i == 4 {
        '4'
    } else if i == 5 {
        '5'
    } else if i == 6 {
        '6'
    } else if i == 7 {
        '7'
    } else if i == 8 {
        '8'
    } else {
        '9'
    }
}

/// The character that denotes a specifier.
pub open spec fn ser_param(p: ActionParam) -> char {
    match p {
        ActionParam::Char(c) => c,
        ActionParam::Index(i) => digit_char(i as int),
        ActionParam::Wildcard => '*',
    }
}

/// The serialization of an action's probability part.
pub open spec fn ser_chance(c: Option<Seq<char>>) -> Seq<char> {
    match c {
        None => Seq::empty(),
        Some(d) => seq!['[', '0', '.'] + d + seq![']'],
    }
}

/// The serialization of one action token.
pub open spec fn ser_one(a: ActionModel) -> Seq<char> {
    seq![ser_param(a.location), ser_param(a.value)] + ser_chance(a.chance)
}

/// The serialization of an action list: its tokens, in order.
pub open spec fn spec_serialize(l: Seq<ActionModel>) -> Seq<char>
    decreases l.len(),
{
    if l.len() == 0 {
        Seq::empty()
    } else {
        ser_one(l[0]) + spec_serialize(l.drop_first())
    }
}

/// A specifier the grammar can express.
pub open spec fn wf_param(p: ActionParam) -> bool {
    match p {
        ActionParam::Char(c) => is_upper(c),
        ActionParam::Index(i) => 1 <= i <= 9,
        ActionParam::Wildcard => true,
    }
}

/// An action the grammar can express: both specifiers in range, and a
/// probability, if any, with at least one decimal digit.
pub open spec fn wf_model(a: ActionModel) -> bool {
    &&& wf_param(a.location)
    &&& wf_param(a.value)
    &&& match a.chance {
        Some(d) => d.len() >= 1 && (forall|k: int| 0 <= k < d.len() ==> is_digit_char(d[k])),
        None => true,
    }
}

proof fn lemma_param_round_trip(p: ActionParam)
    requires
        wf_param(p),
    ensures
        is_token_char(ser_param(p)),
        param_of(ser_param(p)) == p,
{
}

/// Serializing one more action appends its token.
proof fn lemma_serialize_snoc(l: Seq<ActionModel>, a: ActionModel)
    ensures
        spec_serialize(l.push(a)) == spec_serialize(l) + ser_one(a),
    decreases l.len(),
{
    if l.len() == 0 {
        assert(l.push(a)[0] == a);
        assert(l.push(a).drop_first() =~= Seq::<ActionModel>::empty());
        assert(spec_serialize(l.push(a)) == ser_one(a) + spec_serialize(
            Seq::<ActionModel>::empty(),
        ));
        assert(ser_one(a) + spec_serialize(Seq::<ActionModel>::empty()) =~= ser_one(a));
        assert(spec_serialize(l) + ser_one(a) =~= ser_one(a));
    } else {
        assert(l.push(a)[0] == l[0]);
        assert(l.push(a).drop_first() =~= l.drop_first().push(a));
        lemma_serialize_snoc(l.drop_first(), a);
        assert(spec_serialize(l.push(a)) == ser_one(l[0]) + (spec_serialize(l.drop_first())
            + ser_one(a)));
        assert(ser_one(l[0]) + (spec_serialize(l.drop_first()) + ser_one(a)) =~= (ser_one(l[0])
            + spec_serialize(l.drop_first())) + ser_one(a));
    }
}

/// Digit runs are unmoved by a prefix: scanning past it lands where a
/// scan of the suffix alone lands.
proof fn lemma_digit_run_shift(a: Seq<char>, b: Seq<char>, j: int)
    requires
        0 <= j <= b.len(),
    ensures
        digit_run_end(a + b, a.len() + j) == a.len() + digit_run_end(b, j),
    decreases b.len() - j,
{
    if j < b.len() {
        assert((a + b)[a.len() + j] == b[j]);
        if is_digit_char(b[j]) {
            lemma_digit_run_shift(a, b, j + 1);
        }
    }
}

proof fn lemma_chance_shift(a: Seq<char>, b: Seq<char>, j: int)
    requires
        0 <= j <= b.len(),
    ensures
        chance_span_at(a + b, a.len() + j) == chance_span_at(b, j),
        chance_span_at(b, j) > 0 ==> chance_digits_at(a + b, a.len() + j) == chance_digits_at(b, j),
{
    if j + 1 < b.len() && b[j] == '[' {
        assert((a + b)[a.len() + j] == b[j]);
        assert((a + b)[a.len() + j + 1] == b[j + 1]);
        let p = if b[j + 1] == '0' {
            j + 2
        } else {
            j + 1
        };
        if p < b.len() && b[p] == '.' {
            assert((a + b)[a.len() + p] == b[p]);
            lemma_digit_run_shift(a, b, p + 1);
            lemma_digit_run_bounds(b, p + 1);
            let e = digit_run_end(b, p + 1);
            if e > p + 1 && e < b.len() && b[e] == ']' {
                assert((a + b)[a.len() + e] == b[e]);
                assert(b.subrange(p + 1, e) =~= (a + b).subrange(a.len() + p + 1, a.len() + e));
            } else {
                if e < b.len() {
                    assert((a + b)[a.len() + e] == b[e]);
                }
            }
        }
    } else {
        if j + 1 < b.len() {
            assert((a + b)[a.len() + j] == b[j]);
        }
    }
}

/// Parsing is unmoved by a prefix it has already passed.
proof fn lemma_parse_shift(a: Seq<char>, b: Seq<char>, i: int)
    requires
        0 <= i <= b.len(),
    ensures
        parse_from(a + b, a.len() + i) == parse_from(b, i),
    decreases b.len() - i,
{
    if i + 2 > b.len() {
        assert(parse_from(a + b, a.len() + i) =~= parse_from(b, i));
    } else {
        assert((a + b)[a.len() + i] == b[i]);
        assert((a + b)[a.len() + i + 1] == b[i + 1]);
        if is_token_char(b[i]) && is_token_char(b[i + 1]) {
            lemma_chance_shift(a, b, i + 2);
            lemma_chance_span_bounds(b, i + 2);
            let n = chance_span_at(b, i + 2);
            lemma_parse_shift(a, b, i + 2 + n);
            assert(action_at(a + b, a.len() + i) == action_at(b, i));
            assert(parse_from(a + b, a.len() + i) =~= parse_from(b, i));
        } else {
            lemma_parse_shift(a, b, i + 1);
            assert(parse_from(a + b, a.len() + i) =~= parse_from(b, i));
        }
    }
}

/// Parsing the serialization of a well-formed action list yields exactly
/// that list back: the action grammar round-trips, token for token.
pub proof fn lemma_action_round_trip(l: Seq<ActionModel>)
    requires
        forall|i: int| 0 <= i < l.len() ==> wf_model(l[i]),
    ensures
        parse_actions(spec_serialize(l)) == l,
    decreases l.len(),
{
    if l.len() == 0 {
    } else {
        let a0 = l[0];
        let head = ser_one(a0);
        let rest = spec_serialize(l.drop_first());
        let s = spec_serialize(l);
        assert(s == head + rest);
        lemma_param_round_trip(a0.location);
        lemma_param_round_trip(a0.value);
        assert(s[0] == ser_param(a0.location));
        assert(s[1] == ser_param(a0.value));
        match a0.chance {
            None => {
                assert(head.len() == 2);
                // No probability literal can start at position 2: either the
                // string ends there, or the next token's specifier begins.
                if rest.len() == 0 {
                    assert(chance_span_at(s, 2) == 0);
                } else {
                    lemma_round_trip_head(l.drop_first());
                    assert(s[2] == rest[0]);
                    assert(rest[0] != '[');
                    assert(chance_span_at(s, 2) == 0);
                }
                assert(action_at(s, 0) == a0);
                lemma_parse_shift(head, rest, 0);
                lemma_action_round_trip(l.drop_first());
                assert(parse_from(s, 2 + chance_span_at(s, 2)) == l.drop_first());
                assert(parse_actions(s) =~= l);
            },
            Some(d) => {
                let dlen = d.len() as int;
                assert(head.len() == 6 + dlen);
                assert(s[2] == '[');
                assert(s[3] == '0');
                assert(s[4] == '.');
                assert forall|k: int| 5 <= k < 5 + dlen implies is_digit_char(s[k]) by {
                    assert(s[k] == d[k - 5]);
                }
                assert(s[5 + dlen] == ']');
                assert(!is_digit_char(']'));
                lemma_digit_run_exact(s, 5, 5 + dlen);
                assert(chance_span_at(s, 2) == 4 + dlen);
                assert(chance_digits_at(s, 2) =~= d);
                assert(action_at(s, 0) == a0);
                lemma_parse_shift(head, rest, 0);
                lemma_action_round_trip(l.drop_first());
                assert(parse_from(s, 2 + chance_span_at(s, 2)) == l.drop_first());
                assert(parse_actions(s) =~= l);
            },
        }
    }
}

/// The first character of a nonempty serialization is a specifier
/// character (in particular, never an opening bracket).
proof fn lemma_round_trip_head(l: Seq<ActionModel>)
    requires
        l.len() >= 1,
        forall|i: int| 0 <= i < l.len() ==> wf_model(l[i]),
    ensures
        spec_serialize(l).len() >= 2,
        spec_serialize(l)[0] == ser_param(l[0].location),
        is_token_char(spec_serialize(l)[0]),
{
    lemma_param_round_trip(l[0].location);
    assert(spec_serialize(l)[0] == ser_one(l[0])[0]);
}

pub fn digit_char_exec(i: usize) -> (r: char)
    requires
        1 <= i <= 9,
    ensures
        r == digit_char(i as int),
{
    match i {
        1 => '1',
        2 => '2',
        3 => '3',
        4 => '4',
        5 => '5',
        6 => '6',
        7 => '7',
        8 => '8',
        _ => '9',
    }
}

fn ser_param_exec(p: &ActionParam) -> (r: char)
    requires
        wf_param(*p),
    ensures
        r == ser_param(*p),
{
    match p {
        ActionParam::Char(c) => *c,
        ActionParam::Index(i) => digit_char_exec(*i),
        ActionParam::Wildcard => '*',
    }
}

/// Serializes an action list back to source text, token for token.
pub fn serialize_actions(actions: &Vec<Action>) -> (r: String)
    requires
        forall|i: int| 0 <= i < actions@.len() ==> wf_model(#[trigger] actions@[i]@),
    ensures
        r@ == spec_serialize(views_of(actions@)),
{
    let n = actions.len();
    let mut out: Vec<char> = Vec::new();
    for i in 0..n
        invariant
            n == actions@.len(),
            forall|k: int| 0 <= k < actions@.len() ==> wf_model(#[trigger] actions@[k]@),
            out@ == spec_serialize(views_of(actions@.take(i as int))),
    {
        let ghost before = out@;
        let a = &actions[i];
        out.push(ser_param_exec(&a.location));
        out.push(ser_param_exec(&a.value));
        match &a.chance {
            Some(d) => {
                out.push('[');
                out.push('0');
                out.push('.');
                let m = d.len();
                for t in 0..m
                    invariant
                        m == d@.len(),
                        out@ == before + seq![
                            ser_param(actions@[i as int]@.location),
                            ser_param(actions@[i as int]@.value),
                            '[',
                            '0',
                            '.',
                        ] + d@.take(t as int),
                {
                    out.push(d[t]);
                    proof {
                        assert(before + seq![
                            ser_param(actions@[i as int]@.location),
                            ser_param(actions@[i as int]@.value),
                            '[',
                            '0',
                            '.',
                        ] + d@.take(t as int) + seq![d@[t as int]] =~= before + seq![
                            ser_param(actions@[i as int]@.location),
                            ser_param(actions@[i as int]@.value),
                            '[',
                            '0',
                            '.',
                        ] + d@.take(t + 1));
                    }
                }
                out.push(']');
                proof {
                    assert(d@.take(m as int) =~= d@);
                }
            },
            None => {
            },
        }
        proof {
            assert(out@ =~= before + ser_one(actions@[i as int]@));
            assert(views_of(actions@.take(i + 1)) =~= views_of(actions@.take(i as int)).push(
                actions@[i as int]@,
            ));
            lemma_serialize_snoc(views_of(actions@.take(i as int)), actions@[i as int]@);
        }
    }
    proof {
        assert(actions@.take(n as int) =~= actions@);
    }
    chars_to_string(&out)
}

/// A specifier the evaluator can resolve: any literal or wildcard, and
/// positional indices only in their 1-9 range.
pub open spec fn eval_param_ok(p: ActionParam) -> bool {
    match p {
        ActionParam::Index(i) => 1 <= i <= 9,
        _ => true,
    }
}

/// Every action's specifiers can be resolved by the evaluator.
pub open spec fn actions_eval_ok(l: Seq<ActionModel>) -> bool {
    forall|k: int|
        0 <= k < l.len() ==> eval_param_ok(#[trigger] l[k].location) && eval_param_ok(l[k].value)
}

/// The parser only produces resolvable specifiers.
pub proof fn lemma_parse_eval_ok(s: Seq<char>, i: int)
    requires
        0 <= i <= s.len(),
    ensures
        actions_eval_ok(parse_from(s, i)),
    decreases s.len() - i,
{
    if i + 2 > s.len() {
    } else if is_token_char(s[i]) && is_token_char(s[i + 1]) {
        lemma_chance_span_bounds(s, i + 2);
        lemma_parse_eval_ok(s, i + 2 + chance_span_at(s, i + 2));
        let l = parse_from(s, i);
        let tail = parse_from(s, i + 2 + chance_span_at(s, i + 2));
        assert forall|k: int|
            0 <= k < l.len() implies eval_param_ok(#[trigger] l[k].location) && eval_param_ok(
            l[k].value,
        ) by {
            if k == 0 {
                assert(l[0] == action_at(s, i));
            } else {
                assert(l[k] == tail[k - 1]);
                assert(eval_param_ok(tail[k - 1].location) && eval_param_ok(tail[k - 1].value));
            }
        }
    } else {
        lemma_parse_eval_ok(s, i + 1);
    }
}

// ---------------------------------------------------------------------------
// Conditions and rules
// ---------------------------------------------------------------------------

/// Whether a condition source compiles as a pattern. The result of
/// regex::Regex::new depends on the pattern text alone.
pub uninterp spec fn regex_compiles(pattern: Seq<char>) -> bool;

/// Whether a compiled pattern matches anywhere in a text. The result of
/// regex::Regex::is_match depends on the pattern and the text alone.
pub uninterp spec fn regex_match(pattern: Seq<char>, text: Seq<char>) -> bool;

/// A 9-slot literal mask pattern: dots and uppercase letters only.
pub open spec fn mask_pattern(s: Seq<char>) -> bool {
    s.len() == 9 && forall|k: int| 0 <= k < 9 ==> s[k] == '.' || is_upper(#[trigger] s[k])
}

/// The anywhere-style pattern asking for `n` or more occurrences of the
/// given letters: a non-capturing group of one class member and any
/// tail, repeated `n` times.
pub open spec fn occurrence_pattern(letters: Seq<char>, n: int) -> Seq<char> {
    seq!['(', '?', ':', '['] + letters + seq![']', '.', '*', ')', '{', digit_char(n), '}']
}

/// A pattern of exactly that occurrence shape, over a nonempty class of
/// uppercase letters and a single-digit count.
pub open spec fn occurrence_shaped(s: Seq<char>) -> bool {
    exists|letters: Seq<char>, n: int|
        #![trigger occurrence_pattern(letters, n)]
        s == occurrence_pattern(letters, n) && 1 <= letters.len() && (forall|k: int|
            0 <= k < letters.len() ==> is_upper(#[trigger] letters[k])) && 1 <= n <= 9
}

/// Relies on regex::Regex::new: success depends on the pattern text
/// alone. Two pattern families this library generates always compile
/// under regex's grammar: a string of dots and uppercase letters (all
/// literals, `.` being "any"), and `(?:[L].*){n}` with a nonempty class
/// of uppercase letters and a one-digit bounded repetition.
#[verifier::external_body]
fn regex_compile_ok(pattern: &str) -> (r: bool)
    ensures
        r == regex_compiles(pattern@),
        mask_pattern(pattern@) ==> r,
        occurrence_shaped(pattern@) ==> r,
{
    regex::Regex::new(pattern).is_ok()
}

/// Relies on regex::Regex::new and regex::Regex::is_match: both results
/// depend on the pattern and the text alone; a pattern that does not
/// compile matches nothing.
#[verifier::external_body]
pub(crate) fn pattern_matches(pattern: &str, text: &Vec<char>) -> (r: bool)
    ensures
        r == (regex_compiles(pattern@) && regex_match(pattern@, text@)),
{
    match regex::Regex::new(pattern) {
        Ok(re) => {
            let haystack: String = text.iter().collect();
            re.is_match(&haystack)
        },
        Err(_) => false,
    }
}

/// Why a rule could not be built or changed.
#[derive(Clone, Copy, Debug, PartialEq, Eq, Structural)]
pub enum RuleError {
    InvalidCondition,
}

/// One rewrite rule: a condition pattern over 9-symbol windows and a
/// list of actions, both kept with their original source text.
#[derive(Clone, Debug)]
pub struct Rule {
    action: Vec<Action>,
    original_action: String,
    original_condition: String,
}

impl Rule {
    pub closed spec fn actions(self) -> Seq<ActionModel> {
        views_of(self.action@)
    }

    pub closed spec fn condition_src(self) -> Seq<char> {
        self.original_condition@
    }

    pub closed spec fn action_src(self) -> Seq<char> {
        self.original_action@
    }

    /// The stored actions are exactly what the stored source parses to.
    pub open spec fn wf(self) -> bool {
        self.actions() == parse_actions(self.action_src())
    }

    /// Whether this rule's condition matches a window text.
    pub open spec fn spec_matches(self, window: Seq<char>) -> bool {
        regex_compiles(self.condition_src()) && regex_match(self.condition_src(), window)
    }

    /// Builds a rule from source text. A condition that does not compile
    /// as a pattern is a construction error for this one rule; malformed
    /// action residue is skipped, never an error.
    pub fn new(condition: &str, action: &str) -> (r: Result<Rule, RuleError>)
        ensures
            match r {
                Ok(rule) => {
                    &&& regex_compiles(condition@)
                    &&& rule.wf()
                    &&& rule.condition_src() == condition@
                    &&& rule.action_src() == action@
                },
                Err(e) => !regex_compiles(condition@) && e == RuleError::InvalidCondition,
            },
            mask_pattern(condition@) || occurrence_shaped(condition@) ==> r is Ok,
    {
        if !regex_compile_ok(condition) {
            return Err(RuleError::InvalidCondition);
        }
        let chars = str_to_chars(action);
        let parsed = parse_action_chars(&chars);
        Ok(
            Rule {
                action: parsed,
                original_action: action.to_owned(),
                original_condition: condition.to_owned(),
            },
        )
    }

    /// Parses an action source into its action list.
    pub fn parse_action(action: &str) -> (r: Vec<Action>)
        ensures
            views_of(r@) == parse_actions(action@),
    {
        let chars = str_to_chars(action);
        parse_action_chars(&chars)
    }

    /// The rule's parsed actions.
    pub fn action(&self) -> (r: &Vec<Action>)
        ensures
            views_of(r@) == self.actions(),
    {
        &self.action
    }

    /// Replaces the action list by re-parsing new source text.
    pub fn set_action(&mut self, action: &str)
        ensures
            final(self).wf(),
            final(self).action_src() == action@,
            final(self).condition_src() == old(self).condition_src(),
    {
        self.original_action = action.to_owned();
        let chars = str_to_chars(action);
        self.action = parse_action_chars(&chars);
    }

    /// Replaces the condition by re-compiling new source text; a pattern
    /// that does not compile leaves the rule unchanged.
    pub fn set_condition(&mut self, condition: &str) -> (r: Result<(), RuleError>)
        ensures
            match r {
                Ok(u) => {
                    &&& regex_compiles(condition@)
                    &&& final(self).condition_src() == condition@
                    &&& final(self).actions() == old(self).actions()
                    &&& final(self).action_src() == old(self).action_src()
                },
                Err(e) => {
                    &&& !regex_compiles(condition@)
                    &&& e == RuleError::InvalidCondition
                    &&& *final(self) == *old(self)
                },
            },
    {
        if !regex_compile_ok(condition) {
            return Err(RuleError::InvalidCondition);
        }
        self.original_condition = condition.to_owned();
        Ok(())
    }

    /// Whether this rule's condition matches the given window text.
    pub fn condition_matches(&self, window: &Vec<char>) -> (r: bool)
        ensures
            r == self.spec_matches(window@),
    {
        pattern_matches(self.original_condition.as_str(), window)
    }

    /// The rule's original action source.
    pub fn original_action(&self) -> (r: &str)
        ensures
            r@ == self.action_src(),
    {
        self.original_action.as_str()
    }

    /// The rule's original condition source.
    pub fn original_condition(&self) -> (r: &str)
        ensures
            r@ == self.condition_src(),
    {
        self.original_condition.as_str()
    }
}

} // verus!
