//! The chord matcher: consumes one key press at a time, gathers a numeric
//! repeat count, narrows the bindings that the keys so far allow, and reports
//! the binding whose chord is complete.

use vstd::prelude::*;
use crate::binding::{
    ChordSpec, ConfigError, KeyBinding, check_prefix_free, chord_well_formed, chords_well_formed,
    first_overlap, prefix_free, views,
};
use crate::key::{KeyBindingPart, count_digit_of};

verus! {

/// Above this value a repeat count takes no further digits.
pub const COUNT_LIMIT: usize = 429_000_000;

/// The largest repeat count that digits can build: `COUNT_LIMIT * 10 + 9`.
pub const COUNT_CEILING: usize = 4_290_000_009;

/// The state of the matcher, as a mathematical value.
pub struct MatchState {
    /// The repeat count typed so far; 0 when none was typed.
    pub count: nat,
    /// Every key press taken in the current attempt, count digits included.
    pub keys: Seq<KeyBindingPart>,
    /// Indices of the bindings that the chord keys so far still allow.
    pub candidates: Set<int>,
    /// How many chord keys (not count digits) were taken.
    pub offset: nat,
    /// Whether the last key press completed a chord.
    pub done: bool,
}

/// The state before any key press, for `n` bindings.
pub open spec fn idle(n: nat) -> MatchState {
    MatchState {
        count: 0,
        keys: Seq::empty(),
        candidates: Set::new(|i: int| 0 <= i < n),
        offset: 0,
        done: false,
    }
}

/// The count after digit `d` is typed: digits past the limit and a leading
/// zero are ignored.
pub open spec fn add_digit(count: nat, d: nat) -> nat {
    if count > COUNT_LIMIT {
        count
    } else if count == 0 && d == 0 {
        0
    } else {
        count * 10 + d
    }
}

/// Whether binding `i` stays a candidate when key press `e` comes in state
/// `s`: a count above one before the first chord key keeps only repeatable
/// bindings, and the chord's key at the current offset must equal `e`.
pub open spec fn keeps(bs: Seq<ChordSpec>, s: MatchState, e: KeyBindingPart, i: int) -> bool {
    &&& s.candidates.contains(i)
    &&& (s.offset == 0 && s.count > 1 ==> bs[i].repeatable)
    &&& s.offset < bs[i].keys.len()
    &&& bs[i].keys[s.offset as int] == e
}

/// Whether binding `i` is a candidate whose chord the keys so far complete.
pub open spec fn completes(bs: Seq<ChordSpec>, s: MatchState, i: int) -> bool {
    s.candidates.contains(i) && bs[i].keys.len() == s.offset
}

/// The lowest index among `candidates` whose chord has length `offset`.
pub open spec fn lowest_complete(bs: Seq<ChordSpec>, candidates: Set<int>, offset: nat) -> int {
    choose|i: int|
        candidates.contains(i) && bs[i].keys.len() == offset && forall|j: int|
            candidates.contains(j) && bs[j].keys.len() == offset ==> i <= j
}

/// The binding that state `s` reports: the lowest index whose chord is complete.
pub open spec fn match_of(bs: Seq<ChordSpec>, s: MatchState) -> int {
    lowest_complete(bs, s.candidates, s.offset)
}

/// The state after the key presses `es`, one after the other, from `s`.
pub open spec fn feed(bs: Seq<ChordSpec>, s: MatchState, es: Seq<KeyBindingPart>) -> MatchState
    decreases es.len(),
{
    if es.len() == 0 {
        s
    } else {
        step(bs, feed(bs, s, es.drop_last()), es.last())
    }
}

/// The state in which a key press is handled: a completed chord gives way to
/// a fresh start.
pub open spec fn resume(bs: Seq<ChordSpec>, s: MatchState) -> MatchState {
    if s.done {
        idle(bs.len())
    } else {
        s
    }
}

/// The state after key press `e` comes in state `s`.
pub open spec fn step(bs: Seq<ChordSpec>, s: MatchState, e: KeyBindingPart) -> MatchState {
    let s = resume(bs, s);
    if s.offset == 0 && count_digit_of(e) is Some {
        MatchState {
            count: add_digit(s.count, count_digit_of(e)->0),
            keys: s.keys.push(e),
            candidates: s.candidates,
            offset: s.offset,
            done: false,
        }
    } else if exists|i: int| keeps(bs, s, e, i) {
        let next = Set::new(|i: int| keeps(bs, s, e, i));
        MatchState {
            count: s.count,
            keys: s.keys.push(e),
            candidates: next,
            offset: s.offset + 1,
            done: exists|i: int| next.contains(i) && bs[i].keys.len() == s.offset + 1,
        }
    } else {
        idle(bs.len())
    }
}

proof fn lemma_lowest_complete(bs: Seq<ChordSpec>, candidates: Set<int>, offset: nat, j: int)
    requires
        candidates.contains(j),
        bs[j].keys.len() == offset,
        forall|k: int| #[trigger] candidates.contains(k) && bs[k].keys.len() == offset ==> j <= k,
    ensures
        lowest_complete(bs, candidates, offset) == j,
{
    let i = lowest_complete(bs, candidates, offset);
    assert(candidates.contains(i) && bs[i].keys.len() == offset);
    assert(i <= j);
}

/// Among candidates that are all non-negative, one with a chord of length
/// `offset` means that a lowest one exists, and [`lowest_complete`] is it.
pub proof fn lemma_lowest_complete_exists(bs: Seq<ChordSpec>, candidates: Set<int>, offset: nat, i: int)
    requires
        candidates.contains(i),
        bs[i].keys.len() == offset,
        forall|k: int| #[trigger] candidates.contains(k) ==> 0 <= k,
    ensures
        ({
            let m = lowest_complete(bs, candidates, offset);
            &&& candidates.contains(m)
            &&& bs[m].keys.len() == offset
            &&& forall|k: int| #[trigger] candidates.contains(k) && bs[k].keys.len() == offset ==> m <= k
        }),
    decreases i,
{
    if exists|k: int| #[trigger] candidates.contains(k) && bs[k].keys.len() == offset && k < i {
        let k = choose|k: int| #[trigger] candidates.contains(k) && bs[k].keys.len() == offset && k < i;
        assert(0 <= k);
        lemma_lowest_complete_exists(bs, candidates, offset, k);
    } else {
        assert(forall|k: int| #[trigger] candidates.contains(k) && bs[k].keys.len() == offset ==> i <= k);
    }
}

/// Builds `n` flags, all set.
fn all_set(n: usize) -> (r: Vec<bool>)
    ensures
        r@.len() == n,
        forall|i: int| 0 <= i < n ==> r@[i],
{
    let mut r: Vec<bool> = Vec::new();
    let mut i: usize = 0;
    while i < n
        invariant
            i <= n,
            r@.len() == i,
            forall|k: int| 0 <= k < i ==> r@[k],
        decreases n - i,
    {
        r.push(true);
        i += 1;
    }
    r
}

/// Matches key presses against a fixed list of bindings.
pub struct KeyStateMachine {
    key_bindings: Vec<KeyBinding>,
    current_count: usize,
    current_keys: Vec<KeyBindingPart>,
    /// One flag per binding: whether it is still a candidate.
    current_bindings: Vec<bool>,
    is_done: bool,
    key_count_after_number: usize,
}

impl View for KeyStateMachine {
    type V = MatchState;

    closed spec fn view(&self) -> MatchState {
        MatchState {
            count: self.current_count as nat,
            keys: self.current_keys@,
            candidates: Set::new(
                |i: int| 0 <= i < self.current_bindings@.len() && self.current_bindings@[i],
            ),
            offset: self.key_count_after_number as nat,
            done: self.is_done,
        }
    }
}

impl KeyStateMachine {
    #[verifier::type_invariant]
    spec fn inv(self) -> bool {
        &&& self.current_bindings@.len() == self.key_bindings@.len()
        &&& self.current_count <= COUNT_CEILING
    }

    /// The bindings, in the order in which they were registered.
    pub closed spec fn bindings(&self) -> Seq<ChordSpec> {
        views(self.key_bindings@)
    }

    /// A matcher for `key_bindings`, in the idle state. No chord may be a
    /// strict prefix of another ([`KeyStateMachine::build`] checks this);
    /// the earliest binding wins where two equal chords complete together.
    pub fn new(key_bindings: Vec<KeyBinding>) -> (r: KeyStateMachine)
        requires
            prefix_free(views(key_bindings@)),
        ensures
            r.bindings() == views(key_bindings@),
            r@ == idle(key_bindings@.len()),
            prefix_free(r.bindings()),
            forall|i: int| 0 <= i < r.bindings().len() ==> chord_well_formed(#[trigger] r.bindings()[i].keys),
    {
        chords_well_formed(&key_bindings);
        let len = key_bindings.len();
        let r = KeyStateMachine {
            key_bindings,
            current_count: 0,
            current_keys: Vec::new(),
            current_bindings: all_set(len),
            is_done: false,
            key_count_after_number: 0,
        };
        assert(r@.candidates =~= idle(len as nat).candidates);
        assert(r@.keys =~= idle(len as nat).keys);
        r
    }

    /// A matcher for `key_bindings`, refused when one chord is a strict
    /// prefix of another (the shorter would hide the longer); the error names
    /// the first such pair.
    pub fn build(key_bindings: Vec<KeyBinding>) -> (r: Result<KeyStateMachine, ConfigError>)
        ensures
            (r is Ok) == prefix_free(views(key_bindings@)),
            r is Ok ==> r->Ok_0.bindings() == views(key_bindings@),
            r is Ok ==> r->Ok_0@ == idle(key_bindings@.len()),
            r is Ok ==> forall|i: int|
                0 <= i < key_bindings@.len() ==> chord_well_formed(#[trigger] views(key_bindings@)[i].keys),
            r is Err ==> first_overlap(views(key_bindings@), r->Err_0),
    {
        match check_prefix_free(&key_bindings) {
            Ok(()) => Ok(KeyStateMachine::new(key_bindings)),
            Err(e) => Err(e),
        }
    }

    /// Adds the digit `d` to the repeat count.
    fn count_digit(&mut self, d: u32)
        requires
            d <= 9,
        ensures
            final(self).current_count == add_digit(old(self).current_count as nat, d as nat),
            final(self).key_bindings == old(self).key_bindings,
            final(self).current_keys == old(self).current_keys,
            final(self).current_bindings == old(self).current_bindings,
            final(self).is_done == old(self).is_done,
            final(self).key_count_after_number == old(self).key_count_after_number,
    {
        proof {
            use_type_invariant(&*self);
        }
        if self.current_count > COUNT_LIMIT {
            return;
        }
        if self.current_count == 0 && d == 0 {
            return;
        }
        self.current_count = self.current_count * 10 + d as usize;
    }

    /// Records key press `e` in the current attempt.
    fn push_key(&mut self, e: KeyBindingPart)
        ensures
            final(self).current_keys@ == old(self).current_keys@.push(e),
            final(self).current_count == old(self).current_count,
            final(self).key_bindings == old(self).key_bindings,
            final(self).current_bindings == old(self).current_bindings,
            final(self).is_done == old(self).is_done,
            final(self).key_count_after_number == old(self).key_count_after_number,
    {
        proof {
            use_type_invariant(&*self);
        }
        let mut keys: Vec<KeyBindingPart> = Vec::new();
        core::mem::swap(&mut keys, &mut self.current_keys);
        keys.push(e);
        self.current_keys = keys;
    }

    /// The lowest candidate whose chord has length `len`.
    fn first_complete(&self, len: usize) -> (r: Option<usize>)
        ensures
            r is None ==> forall|k: int|
                !(#[trigger] self@.candidates.contains(k) && self.bindings()[k].keys.len() == len),
            r is Some ==> {
                let j = r->0 as int;
                &&& self@.candidates.contains(j)
                &&& self.bindings()[j].keys.len() == len
                &&& forall|k: int|
                    #[trigger] self@.candidates.contains(k) && self.bindings()[k].keys.len() == len
                        ==> j <= k
            },
    {
        proof {
            use_type_invariant(self);
        }
        let n = self.key_bindings.len();
        let mut j: usize = 0;
        while j < n
            invariant
                n == self.key_bindings@.len(),
                n == self.current_bindings@.len(),
                j <= n,
                forall|k: int|
                    0 <= k < j ==> !(#[trigger] self@.candidates.contains(k) && self.bindings()[k].keys.len()
                        == len),
            decreases n - j,
        {
            assert(self.bindings()[j as int] == self.key_bindings@[j as int]@);
            if self.current_bindings[j] && self.key_bindings[j].keys().len() == len {
                assert(self@.candidates.contains(j as int));
                return Some(j);
            }
            j += 1;
        }
        None
    }

    /// Returns to the idle state at once: no count, no keys, every binding a
    /// candidate.
    pub fn reset(&mut self)
        ensures
            final(self).bindings() == old(self).bindings(),
            final(self)@ == idle(old(self).bindings().len()),
    {
        proof {
            use_type_invariant(&*self);
        }
        self.current_count = 0;
        self.current_keys = Vec::new();
        self.current_bindings = all_set(self.key_bindings.len());
        self.is_done = false;
        self.key_count_after_number = 0;
        assert(self@.candidates =~= idle(old(self).bindings().len()).candidates);
        assert(self@.keys =~= idle(old(self).bindings().len()).keys);
    }

    /// Takes one key press. Returns the binding whose chord it completes, if
    /// any; the count typed before the chord is then [`KeyStateMachine::count`].
    /// Keys that no binding allows are dropped with everything typed before
    /// them.
    pub fn register_event(&mut self, e: KeyBindingPart) -> (r: Option<KeyBinding>)
        ensures
            final(self).bindings() == old(self).bindings(),
            final(self)@ == step(old(self).bindings(), old(self)@, e),
            (r is Some) == final(self)@.done,
            r is Some ==> r->Some_0@ == old(self).bindings()[match_of(old(self).bindings(), final(self)@)],
            final(self)@.count <= COUNT_CEILING,
            !old(self)@.done && old(self)@.offset == 0 && old(self)@.count > COUNT_LIMIT && count_digit_of(e) is Some
                ==> final(self)@.count == old(self)@.count,
    {
        proof {
            use_type_invariant(&*self);
        }
        let ghost bs = self.bindings();
        if self.is_done {
            self.reset();
        }
        proof {
            use_type_invariant(&*self);
        }
        let ghost s = self@;
        assert(s == resume(bs, old(self)@));
        if self.key_count_after_number == 0 {
            if let Some(d) = e.count_digit() {
                self.count_digit(d);
                self.push_key(e);
                assert(self@.candidates =~= s.candidates);
                return None;
            }
        }
        let n = self.key_bindings.len();
        let offset = self.key_count_after_number;
        let gated = offset == 0 && self.current_count > 1;
        let mut next: Vec<bool> = Vec::new();
        let mut any = false;
        let mut i: usize = 0;
        while i < n
            invariant
                n == self.key_bindings@.len(),
                n == self.current_bindings@.len(),
                bs == self.bindings(),
                s == self@,
                self.current_count <= COUNT_CEILING,
                offset == s.offset,
                gated == (s.offset == 0 && s.count > 1),
                i <= n,
                next@.len() == i,
                forall|k: int| 0 <= k < i ==> next@[k] == keeps(bs, s, e, k),
                any == exists|k: int| 0 <= k < i && next@[k],
                any ==> offset < usize::MAX,
            decreases n - i,
        {
            let kb = &self.key_bindings[i];
            let keys = kb.keys();
            assert(bs[i as int] == kb@);
            let keep = self.current_bindings[i] && (!gated || kb.repeatable()) && offset < keys.len()
                && keys[offset] == e;
            let ghost before = next@;
            next.push(keep);
            proof {
                assert(forall|k: int| 0 <= k < i ==> next@[k] == before[k]);
                if keep {
                    assert(next@[i as int]);
                } else if any {
                    let w = choose|k: int| 0 <= k < i && before[k];
                    assert(next@[w]);
                }
            }
            any = any || keep;
            i += 1;
        }
        if !any {
            assert forall|k: int| !keeps(bs, s, e, k) by {
                if keeps(bs, s, e, k) {
                    assert(next@[k]);
                }
            }
            self.reset();
            return None;
        }
        proof {
            let w = choose|k: int| 0 <= k < n && next@[k];
            assert(keeps(bs, s, e, w));
        }
        self.current_bindings = next;
        self.push_key(e);
        self.key_count_after_number = offset + 1;
        assert(self@.candidates =~= Set::new(|k: int| keeps(bs, s, e, k)));
        let ghost s2 = self@;
        match self.first_complete(offset + 1) {
            Some(j) => {
                proof {
                    lemma_lowest_complete(bs, s2.candidates, s2.offset, j as int);
                }
                let found = self.key_bindings[j].clone();
                self.is_done = true;
                assert(self@.candidates == s2.candidates);
                Some(found)
            },
            None => None,
        }
    }

    /// The key presses of the current attempt, count digits included.
    pub fn current_keys(&self) -> (r: &Vec<KeyBindingPart>)
        ensures
            r@ == self@.keys,
    {
        &self.current_keys
    }

    /// The bindings, in the order in which they were registered.
    pub fn key_bindings(&self) -> (r: &Vec<KeyBinding>)
        ensures
            views(r@) == self.bindings(),
    {
        &self.key_bindings
    }

    /// The repeat count typed so far; 0 when none was typed.
    pub fn count(&self) -> (r: usize)
        ensures
            r == self@.count,
            r <= COUNT_CEILING,
    {
        proof {
            use_type_invariant(self);
        }
        self.current_count
    }
}

} // verus!
