//! Properties of the chord matcher that hold for every input, stated over the
//! transition function that
//! [`register_event`](crate::machine::KeyStateMachine::register_event) follows.

use vstd::prelude::*;
use crate::binding::{ChordSpec, chord_well_formed, is_strict_prefix, prefix_free};
use crate::key::{KeyBindingPart, KeyCode, KeyModifiers, count_digit_of};
use crate::machine::{
    COUNT_CEILING, COUNT_LIMIT, MatchState, feed, idle, keeps, lemma_lowest_complete_exists, match_of,
    resume, step,
};

verus! {

/// Whether chord `x` has at least `j` keys and agrees with `y` on the first `j`.
pub open spec fn agrees(x: Seq<KeyBindingPart>, y: Seq<KeyBindingPart>, j: nat) -> bool {
    j <= x.len() && forall|k: int| 0 <= k < j ==> x[k] == y[k]
}

/// The state after the first `j` keys of the chord of binding `b`, typed from
/// the idle state of a prefix-free list.
pub open spec fn after_prefix(bs: Seq<ChordSpec>, b: int, j: nat) -> MatchState {
    MatchState {
        count: 0,
        keys: bs[b].keys.take(j as int),
        candidates: Set::new(|i: int| 0 <= i < bs.len() && agrees(bs[i].keys, bs[b].keys, j)),
        offset: j,
        done: j == bs[b].keys.len(),
    }
}

proof fn lemma_prefix_step(bs: Seq<ChordSpec>, b: int, j: nat)
    requires
        prefix_free(bs),
        0 <= b < bs.len(),
        chord_well_formed(bs[b].keys),
        j < bs[b].keys.len(),
    ensures
        step(bs, after_prefix(bs, b, j), bs[b].keys[j as int]) == after_prefix(bs, b, j + 1),
{
    let s = after_prefix(bs, b, j);
    let e = bs[b].keys[j as int];
    assert(resume(bs, s) == s);
    if j == 0 {
        assert(count_digit_of(e) is None);
    }
    assert forall|i: int| keeps(bs, s, e, i) <==> (0 <= i < bs.len() && agrees(bs[i].keys, bs[b].keys, j + 1)) by {
        if 0 <= i < bs.len() && agrees(bs[i].keys, bs[b].keys, j + 1) {
            assert(agrees(bs[i].keys, bs[b].keys, j));
        }
        if keeps(bs, s, e, i) {
            assert(agrees(bs[i].keys, bs[b].keys, j));
            assert forall|k: int| 0 <= k < j + 1 implies bs[i].keys[k] == bs[b].keys[k] by {
                if k < j {
                    assert(bs[i].keys[k] == bs[b].keys[k]);
                }
            }
        }
    }
    assert(agrees(bs[b].keys, bs[b].keys, j + 1));
    assert(keeps(bs, s, e, b));
    let next = Set::new(|i: int| keeps(bs, s, e, i));
    let t = after_prefix(bs, b, j + 1);
    assert(next =~= t.candidates);
    if j + 1 < bs[b].keys.len() {
        assert forall|i: int| !(next.contains(i) && bs[i].keys.len() == j + 1) by {
            if next.contains(i) && bs[i].keys.len() == j + 1 {
                assert(is_strict_prefix(bs[i].keys, bs[b].keys));
            }
        }
    } else {
        assert(next.contains(b) && bs[b].keys.len() == j + 1);
    }
    assert(s.keys.push(e) =~= t.keys);
}

proof fn lemma_prefix_run(bs: Seq<ChordSpec>, s: MatchState, b: int, j: nat)
    requires
        prefix_free(bs),
        0 <= b < bs.len(),
        chord_well_formed(bs[b].keys),
        s.done || s == idle(bs.len()),
        1 <= j <= bs[b].keys.len(),
    ensures
        feed(bs, s, bs[b].keys.take(j as int)) == after_prefix(bs, b, j),
    decreases j,
{
    let es = bs[b].keys.take(j as int);
    assert(es.drop_last() =~= bs[b].keys.take(j - 1));
    if j == 1 {
        let z = after_prefix(bs, b, 0);
        assert(z.candidates =~= idle(bs.len()).candidates);
        assert(z.keys =~= idle(bs.len()).keys);
        assert(z == idle(bs.len()));
        assert(feed(bs, s, es.drop_last()) == s);
        lemma_prefix_step(bs, b, 0);
    } else {
        lemma_prefix_run(bs, s, b, (j - 1) as nat);
        lemma_prefix_step(bs, b, (j - 1) as nat);
    }
}

/// Typing the chord of binding `b` of a prefix-free list, from the idle state
/// or just after a completed chord, completes nothing before its last key and
/// completes on its last key, with no count. The binding reported has `b`'s
/// chord and is the earliest one with it: `b` itself when no other binding
/// shares the chord.
pub proof fn lemma_chord_completion(bs: Seq<ChordSpec>, s: MatchState, b: int)
    requires
        prefix_free(bs),
        0 <= b < bs.len(),
        chord_well_formed(bs[b].keys),
        s.done || s == idle(bs.len()),
    ensures
        forall|j: int|
            0 < j < bs[b].keys.len() ==> !(#[trigger] feed(bs, s, bs[b].keys.take(j))).done,
        feed(bs, s, bs[b].keys).done,
        feed(bs, s, bs[b].keys).count == 0,
        bs[match_of(bs, feed(bs, s, bs[b].keys))].keys == bs[b].keys,
        match_of(bs, feed(bs, s, bs[b].keys)) <= b,
        (forall|i: int| 0 <= i < bs.len() && i != b ==> bs[i].keys != bs[b].keys) ==> match_of(
            bs,
            feed(bs, s, bs[b].keys),
        ) == b,
{
    let len = bs[b].keys.len();
    assert forall|j: int| 0 < j < len implies !(#[trigger] feed(bs, s, bs[b].keys.take(j))).done by {
        lemma_prefix_run(bs, s, b, j as nat);
    }
    lemma_prefix_run(bs, s, b, len);
    assert(bs[b].keys.take(len as int) =~= bs[b].keys);
    lemma_full_chord_match(bs, b);
}

proof fn lemma_full_chord_match(bs: Seq<ChordSpec>, b: int)
    requires
        0 <= b < bs.len(),
    ensures
        ({
            let m = match_of(bs, after_prefix(bs, b, bs[b].keys.len()));
            &&& bs[m].keys == bs[b].keys
            &&& m <= b
            &&& (forall|i: int| 0 <= i < bs.len() && i != b ==> bs[i].keys != bs[b].keys) ==> m == b
        }),
{
    let len = bs[b].keys.len();
    let t = after_prefix(bs, b, len);
    let m = match_of(bs, t);
    assert(agrees(bs[b].keys, bs[b].keys, len));
    assert(t.candidates.contains(b) && bs[b].keys.len() == t.offset);
    lemma_lowest_complete_exists(bs, t.candidates, t.offset, b);
    assert(t.candidates.contains(m) && bs[m].keys.len() == len && m <= b);
    assert(bs[m].keys =~= bs[b].keys);
}

/// A key press that is not taken as a count digit and that no candidate
/// allows is dropped together with everything typed before it: the matcher is
/// idle again and reports nothing. The chord of any binding `b` of a
/// prefix-free list, typed next, then completes as from a fresh start.
pub proof fn lemma_unknown_key_resets(bs: Seq<ChordSpec>, s: MatchState, e: KeyBindingPart, b: int)
    requires
        !(resume(bs, s).offset == 0 && count_digit_of(e) is Some),
        forall|i: int| !keeps(bs, resume(bs, s), e, i),
    ensures
        step(bs, s, e) == idle(bs.len()),
        !step(bs, s, e).done,
        prefix_free(bs) && 0 <= b < bs.len() && chord_well_formed(bs[b].keys) ==> {
            let t = feed(bs, step(bs, s, e), bs[b].keys);
            &&& t.done
            &&& bs[match_of(bs, t)].keys == bs[b].keys
        },
{
    assert(step(bs, s, e) == idle(bs.len()));
    if prefix_free(bs) && 0 <= b < bs.len() && chord_well_formed(bs[b].keys) {
        lemma_chord_completion(bs, step(bs, s, e), b);
    }
}

/// The two states agree on everything but the record of typed keys.
pub open spec fn same_but_keys(a: MatchState, b: MatchState) -> bool {
    &&& a.count == b.count
    &&& a.candidates == b.candidates
    &&& a.offset == b.offset
    &&& a.done == b.done
}

proof fn lemma_step_ignores_keys(bs: Seq<ChordSpec>, a: MatchState, b: MatchState, e: KeyBindingPart)
    requires
        same_but_keys(a, b),
    ensures
        same_but_keys(step(bs, a, e), step(bs, b, e)),
{
    let ra = resume(bs, a);
    let rb = resume(bs, b);
    assert(same_but_keys(ra, rb));
    assert(forall|i: int| keeps(bs, ra, e, i) == keeps(bs, rb, e, i));
    assert(Set::new(|i: int| keeps(bs, ra, e, i)) =~= Set::new(|i: int| keeps(bs, rb, e, i)));
}

proof fn lemma_feed_ignores_keys(bs: Seq<ChordSpec>, a: MatchState, b: MatchState, es: Seq<KeyBindingPart>)
    requires
        same_but_keys(a, b),
    ensures
        same_but_keys(feed(bs, a, es), feed(bs, b, es)),
    decreases es.len(),
{
    if es.len() > 0 {
        lemma_feed_ignores_keys(bs, a, b, es.drop_last());
        lemma_step_ignores_keys(bs, feed(bs, a, es.drop_last()), feed(bs, b, es.drop_last()), es.last());
    }
}

/// The key press `0` with no modifiers.
pub open spec fn zero_key() -> KeyBindingPart {
    KeyBindingPart { code: KeyCode::Char('0'), modifiers: KeyModifiers { bits: 0 } }
}

/// A `0` typed before anything else leaves the count unset, and whatever is
/// typed after it goes exactly as if it had not been typed: the same count,
/// candidates and chord progress at every point, and the same binding
/// reported. Only the record of typed keys differs.
pub proof fn lemma_leading_zero(bs: Seq<ChordSpec>, es: Seq<KeyBindingPart>)
    ensures
        step(bs, idle(bs.len()), zero_key()).count == 0,
        same_but_keys(feed(bs, step(bs, idle(bs.len()), zero_key()), es), feed(bs, idle(bs.len()), es)),
        match_of(bs, feed(bs, step(bs, idle(bs.len()), zero_key()), es)) == match_of(
            bs,
            feed(bs, idle(bs.len()), es),
        ),
{
    let z = step(bs, idle(bs.len()), zero_key());
    assert(count_digit_of(zero_key()) == Some(0nat));
    assert(same_but_keys(z, idle(bs.len())));
    lemma_feed_ignores_keys(bs, z, idle(bs.len()), es);
}

/// From any count within [`COUNT_CEILING`], no sequence of key presses
/// takes the count past it: digits beyond [`COUNT_LIMIT`] are dropped.
pub proof fn lemma_count_ceiling(bs: Seq<ChordSpec>, s: MatchState, es: Seq<KeyBindingPart>)
    requires
        s.count <= COUNT_CEILING,
    ensures
        feed(bs, s, es).count <= COUNT_CEILING,
    decreases es.len(),
{
    if es.len() > 0 {
        lemma_count_ceiling(bs, s, es.drop_last());
    }
}

/// Once the count is above [`COUNT_LIMIT`], a further digit leaves it as it is.
pub proof fn lemma_count_clamped(bs: Seq<ChordSpec>, s: MatchState, e: KeyBindingPart)
    requires
        !s.done,
        s.offset == 0,
        s.count > COUNT_LIMIT,
        count_digit_of(e) is Some,
    ensures
        step(bs, s, e).count == s.count,
        step(bs, s, e).offset == 0,
{
}

/// The state after a count `c` was typed (the keys `pre`) and then the first
/// `j` keys (at least one) of the chord of binding `b`.
pub open spec fn counted_prefix(bs: Seq<ChordSpec>, b: int, c: nat, pre: Seq<KeyBindingPart>, j: nat) -> MatchState {
    MatchState {
        count: c,
        keys: pre + bs[b].keys.take(j as int),
        candidates: Set::new(
            |i: int| 0 <= i < bs.len() && (c > 1 ==> bs[i].repeatable) && agrees(bs[i].keys, bs[b].keys, j),
        ),
        offset: j,
        done: j == bs[b].keys.len(),
    }
}

/// The state after only a count `c` was typed, as the keys `pre`.
pub open spec fn counted(bs: Seq<ChordSpec>, c: nat, pre: Seq<KeyBindingPart>) -> MatchState {
    MatchState { count: c, keys: pre, candidates: idle(bs.len()).candidates, offset: 0, done: false }
}

proof fn lemma_counted_step(bs: Seq<ChordSpec>, b: int, c: nat, pre: Seq<KeyBindingPart>, j: nat)
    requires
        prefix_free(bs),
        0 <= b < bs.len(),
        chord_well_formed(bs[b].keys),
        c > 1 ==> bs[b].repeatable,
        j < bs[b].keys.len(),
    ensures
        step(
            bs,
            if j == 0 { counted(bs, c, pre) } else { counted_prefix(bs, b, c, pre, j) },
            bs[b].keys[j as int],
        ) == counted_prefix(bs, b, c, pre, j + 1),
{
    let s = if j == 0 { counted(bs, c, pre) } else { counted_prefix(bs, b, c, pre, j) };
    let e = bs[b].keys[j as int];
    assert(resume(bs, s) == s);
    if j == 0 {
        assert(count_digit_of(e) is None);
    }
    assert forall|i: int|
        keeps(bs, s, e, i) <==> (0 <= i < bs.len() && (c > 1 ==> bs[i].repeatable) && agrees(
            bs[i].keys,
            bs[b].keys,
            j + 1,
        )) by {
        if 0 <= i < bs.len() && agrees(bs[i].keys, bs[b].keys, j + 1) {
            assert(agrees(bs[i].keys, bs[b].keys, j));
        }
        if keeps(bs, s, e, i) {
            assert(agrees(bs[i].keys, bs[b].keys, j));
            assert forall|k: int| 0 <= k < j + 1 implies bs[i].keys[k] == bs[b].keys[k] by {
                if k < j {
                    assert(bs[i].keys[k] == bs[b].keys[k]);
                }
            }
        }
    }
    assert(agrees(bs[b].keys, bs[b].keys, j + 1));
    assert(keeps(bs, s, e, b));
    let next = Set::new(|i: int| keeps(bs, s, e, i));
    let t = counted_prefix(bs, b, c, pre, j + 1);
    assert(next =~= t.candidates);
    if j + 1 < bs[b].keys.len() {
        assert forall|i: int| !(next.contains(i) && bs[i].keys.len() == j + 1) by {
            if next.contains(i) && bs[i].keys.len() == j + 1 {
                assert(is_strict_prefix(bs[i].keys, bs[b].keys));
            }
        }
    } else {
        assert(next.contains(b) && bs[b].keys.len() == j + 1);
    }
    assert(s.keys.push(e) =~= t.keys);
}

proof fn lemma_counted_run(bs: Seq<ChordSpec>, b: int, c: nat, pre: Seq<KeyBindingPart>, j: nat)
    requires
        prefix_free(bs),
        0 <= b < bs.len(),
        chord_well_formed(bs[b].keys),
        c > 1 ==> bs[b].repeatable,
        1 <= j <= bs[b].keys.len(),
    ensures
        feed(bs, counted(bs, c, pre), bs[b].keys.take(j as int)) == counted_prefix(bs, b, c, pre, j),
    decreases j,
{
    let es = bs[b].keys.take(j as int);
    assert(es.drop_last() =~= bs[b].keys.take(j - 1));
    if j == 1 {
        assert(feed(bs, counted(bs, c, pre), es.drop_last()) == counted(bs, c, pre));
        lemma_counted_step(bs, b, c, pre, 0);
    } else {
        lemma_counted_run(bs, b, c, pre, (j - 1) as nat);
        lemma_counted_step(bs, b, c, pre, (j - 1) as nat);
    }
}

/// Feeding `a` and then `b` is feeding `a + b`.
pub proof fn lemma_feed_append(bs: Seq<ChordSpec>, s: MatchState, a: Seq<KeyBindingPart>, b: Seq<KeyBindingPart>)
    ensures
        feed(bs, feed(bs, s, a), b) == feed(bs, s, a + b),
    decreases b.len(),
{
    if b.len() > 0 {
        lemma_feed_append(bs, s, a, b.drop_last());
        assert((a + b).drop_last() =~= a + b.drop_last());
        assert((a + b).last() == b.last());
    }
}

/// The key press of the digit character `c` with no modifiers.
pub open spec fn digit_key(c: char) -> KeyBindingPart {
    KeyBindingPart { code: KeyCode::Char(c), modifiers: KeyModifiers { bits: 0 } }
}

/// Typing `1`, `0` and then the chord of a repeatable binding `b` of a
/// prefix-free list, from the idle state, completes on the chord's last key
/// with the count 10, reporting the earliest binding with `b`'s chord.
pub proof fn lemma_count_ten(bs: Seq<ChordSpec>, b: int)
    requires
        prefix_free(bs),
        0 <= b < bs.len(),
        chord_well_formed(bs[b].keys),
        bs[b].repeatable,
    ensures
        ({
            let t = feed(bs, idle(bs.len()), seq![digit_key('1'), digit_key('0')] + bs[b].keys);
            &&& t.done
            &&& t.count == 10
            &&& bs[match_of(bs, t)].keys == bs[b].keys
            &&& match_of(bs, t) <= b
        }),
{
    let digits = seq![digit_key('1'), digit_key('0')];
    let s0 = idle(bs.len());
    assert(count_digit_of(digit_key('1')) == Some(1nat));
    assert(count_digit_of(digit_key('0')) == Some(0nat));
    assert(digits.drop_last() =~= seq![digit_key('1')]);
    assert(seq![digit_key('1')].drop_last() =~= Seq::<KeyBindingPart>::empty());
    let s1 = step(bs, s0, digit_key('1'));
    assert(s1.count == 1 && s1.offset == 0 && !s1.done);
    assert(feed(bs, s0, Seq::<KeyBindingPart>::empty()) == s0);
    assert(feed(bs, s0, seq![digit_key('1')]) == s1);
    assert(digits.last() == digit_key('0'));
    let s2 = feed(bs, s0, digits);
    assert(s2 == step(bs, s1, digit_key('0')));
    assert(s2 == counted(bs, 10, s2.keys));
    let len = bs[b].keys.len();
    lemma_counted_run(bs, b, 10, s2.keys, len);
    assert(bs[b].keys.take(len as int) =~= bs[b].keys);
    lemma_feed_append(bs, s0, digits, bs[b].keys);
    let t = counted_prefix(bs, b, 10, s2.keys, len);
    let m = match_of(bs, t);
    assert(agrees(bs[b].keys, bs[b].keys, len));
    assert(t.candidates.contains(b) && bs[b].keys.len() == t.offset);
    lemma_lowest_complete_exists(bs, t.candidates, t.offset, b);
    assert(t.candidates.contains(m) && bs[m].keys.len() == len && m <= b);
    assert(bs[m].keys =~= bs[b].keys);
}

/// Candidates are binding indices, and once a count above one and a chord
/// key were typed, every candidate is repeatable.
pub open spec fn count_gated(bs: Seq<ChordSpec>, s: MatchState) -> bool {
    &&& forall|i: int| #[trigger] s.candidates.contains(i) ==> 0 <= i < bs.len()
    &&& s.count > 1 && s.offset > 0 ==> forall|i: int| #[trigger] s.candidates.contains(i) ==> bs[i].repeatable
}

proof fn lemma_count_gated_step(bs: Seq<ChordSpec>, s: MatchState, e: KeyBindingPart)
    requires
        count_gated(bs, s),
    ensures
        count_gated(bs, step(bs, s, e)),
{
    let r = resume(bs, s);
    assert(count_gated(bs, r));
}

/// A count above one keeps non-repeatable bindings out: from the idle state,
/// whatever keys are typed, a binding reported with a count above one is
/// repeatable.
pub proof fn lemma_count_gates(bs: Seq<ChordSpec>, es: Seq<KeyBindingPart>)
    ensures
        count_gated(bs, feed(bs, idle(bs.len()), es)),
        ({
            let t = feed(bs, idle(bs.len()), es);
            t.done && t.count > 1 ==> bs[match_of(bs, t)].repeatable
        }),
    decreases es.len(),
{
    if es.len() > 0 {
        lemma_count_gates(bs, es.drop_last());
        lemma_count_gated_step(bs, feed(bs, idle(bs.len()), es.drop_last()), es.last());
    }
    let t = feed(bs, idle(bs.len()), es);
    if t.done && t.count > 1 {
        assert(t.offset > 0) by {
            if es.len() > 0 {
                let p = feed(bs, idle(bs.len()), es.drop_last());
                assert(t == step(bs, p, es.last()));
            }
        }
        let w = choose|i: int| t.candidates.contains(i) && bs[i].keys.len() == t.offset;
        assert(exists|i: int| t.candidates.contains(i) && bs[i].keys.len() == t.offset) by {
            if es.len() > 0 {
                let p = feed(bs, idle(bs.len()), es.drop_last());
                assert(t == step(bs, p, es.last()));
            }
        }
        lemma_lowest_complete_exists(bs, t.candidates, t.offset, w);
    }
}

} // verus!
