//! What holds of the dispatcher whatever its keymaps and whatever is typed.

use vstd::prelude::*;
use std::time::Instant;
use crate::action::ActionView;
use crate::dispatch::{is_digit, is_digit_key, playback, State};
use crate::error::KeymapError;
use crate::key::{Key, Keys};
use crate::parse::{lemma_parse_literals, literal_key, parse};
use crate::mode::Mode;
use crate::trie::{
    lemma_bind_wf, lemma_empty_wf, lemma_unbindable_stops, lemma_walk_along, lemma_walk_push,
    lemma_walk_reaches, Reach, Trie,
};

verus! {

/// A step changes neither the keymaps nor the queue, and it ends in one of
/// three ways: the key went to the count; or the chord was resolved, and the
/// state is clear; or the dispatcher waits, with a chord that leads to a
/// node with children, and nothing fires.
pub proof fn lemma_step_outcomes(s: State, mode: Mode, key: Key, finish: bool, now: Instant)
    requires
        s.wf(),
    ensures
        ({
            let step = s.press(mode, key, finish, now);
            let t = s.trie(mode);
            &&& step.next.normal == s.normal
            &&& step.next.insert == s.insert
            &&& step.next.visual == s.visual
            &&& step.next.queue == s.queue
            &&& step.next.wf()
            &&& {
                ||| s.counts(key) && step.fire is None && step.next.pending == s.pending
                ||| !s.counts(key) && step.next.idle()
                ||| !s.counts(key) && step.fire is None && step.next.count == s.count
                    && step.next.pending.len() == s.pending.len() + 1 && t.has(step.next.pending)
                    && !t.leaf(step.next.pending)
            }
        }),
{
    let t = s.trie(mode);
    if !s.counts(key) {
        lemma_walk_reaches(t, Seq::empty(), s.pending.push(key), finish);
    }
}

/// A digit goes to the count and not to the chord: the count grows by the
/// digit, the wait starts over, the chord stays as it is, and nothing fires.
pub proof fn lemma_digit_counts(s: State, mode: Mode, digit: char, finish: bool, now: Instant)
    requires
        is_digit(digit),
        digit != '0' || s.count.len() > 0,
    ensures
        ({
            let step = s.press(mode, Key::plain(Keys::Char(digit)), finish, now);
            &&& step.fire is None
            &&& step.next.count == s.count.push(digit)
            &&& step.next.pending == s.pending
            &&& step.next.stamp == Some(now)
        }),
{
}

/// A `0` that would start the count is a key like any other: it does not go
/// to the count. After another digit it does. A digit with a modifier never
/// does.
pub proof fn lemma_zero_is_a_key(s: State, key: Key)
    ensures
        s.count.len() == 0 ==> !s.counts(Key::plain(Keys::Char('0'))),
        s.count.len() > 0 ==> s.counts(Key::plain(Keys::Char('0'))),
        !key.unmodified() ==> !s.counts(key),
{
}

/// Whenever an action fires the state is clear: no chord, no count, no time
/// stamp. The same holds whenever a chord ends at a dead end or at a node
/// without children, and after every timeout.
pub proof fn lemma_resolution_clears(s: State, mode: Mode, key: Key, finish: bool, now: Instant)
    ensures
        s.press(mode, key, finish, now).fire is Some ==> s.press(
            mode,
            key,
            finish,
            now,
        ).next.idle(),
        s.expire(mode).next.idle(),
        forall|elapsed_ms: u128, timeout_ms: u64| !s.expire(mode).next.due(elapsed_ms, timeout_ms),
{
}

/// A tick does nothing while no chord is pending, and nothing before the
/// timeout has passed.
pub proof fn lemma_tick_waits(
    s: State,
    after: State,
    r: Result<(), KeymapError>,
    mode: Mode,
    elapsed_ms: u128,
    timeout_ms: u64,
)
    requires
        s.ticks(after, r, mode, elapsed_ms, timeout_ms),
        s.pending.len() == 0 || elapsed_ms < timeout_ms,
    ensures
        after == s,
        r is Ok,
{
}

/// While the dispatcher waits on a chord that the keymap has a node for, a
/// timeout fires the action of that node, if it has one.
pub proof fn lemma_timeout_fires_pending(s: State, mode: Mode)
    requires
        s.trie(mode).wf(),
        s.trie(mode).has(s.pending),
    ensures
        s.expire(mode).fire == s.trie(mode).action(s.pending),
        s.expire(mode).next.idle(),
{
    lemma_walk_settled(s.trie(mode), s.pending, false);
}

/// A key that ends a chord at a node without children fires at once: where
/// the keymap has nodes for the pending chord and for that chord with `key`,
/// and the latter has no children, the step for `key` fires its action and
/// clears the state.
pub proof fn lemma_leaf_fires_at_once(s: State, mode: Mode, key: Key, now: Instant)
    requires
        s.trie(mode).wf(),
        !s.counts(key),
        s.trie(mode).has(s.pending.push(key)),
        s.trie(mode).leaf(s.pending.push(key)),
    ensures
        s.press(mode, key, false, now).fire == s.trie(mode).action(s.pending.push(key)),
        s.press(mode, key, false, now).next.idle(),
{
    lemma_walk_settled(s.trie(mode), s.pending.push(key), false);
}

/// A key that can be followed up is waited on: where the keymap has a node
/// with children for the pending chord with `key`, the step for `key` fires
/// nothing and leaves that chord pending.
pub proof fn lemma_inner_node_waits(s: State, mode: Mode, key: Key, now: Instant)
    requires
        s.trie(mode).wf(),
        !s.counts(key),
        s.trie(mode).has(s.pending.push(key)),
        !s.trie(mode).leaf(s.pending.push(key)),
    ensures
        s.press(mode, key, false, now).fire is None,
        s.press(mode, key, false, now).next.pending == s.pending.push(key),
        s.press(mode, key, false, now).next.count == s.count,
        s.press(mode, key, false, now).next.stamp == (if s.pending.len() == 0 {
            Some(now)
        } else {
            s.stamp
        }),
{
    lemma_walk_settled(s.trie(mode), s.pending.push(key), false);
}

/// A key that leads nowhere drops the chord: where the keymap has a node for
/// the pending chord, but no child of it for `key`, with or without its
/// modifiers, the step for `key` clears the state and fires what is bound at
/// that node, and so nothing where nothing is bound there.
pub proof fn lemma_dead_end_drops(s: State, mode: Mode, key: Key, finish: bool, now: Instant)
    requires
        s.trie(mode).wf(),
        !s.counts(key),
        s.trie(mode).has(s.pending),
        !finish || forall|i: int|
            0 <= i < s.pending.len() ==> (#[trigger] s.pending[i]).unmodified(),
        !s.trie(mode).has(s.pending.push(key)),
        !s.trie(mode).has(s.pending.push(key.stripped())),
    ensures
        s.press(mode, key, finish, now).next.idle(),
        s.press(mode, key, finish, now).fire == s.trie(mode).action(s.pending),
        s.trie(mode).action(s.pending) is None ==> s.press(mode, key, finish, now).fire is None,
{
    let t = s.trie(mode);
    let p = s.pending;
    lemma_walk_settled(t, p, finish);
    lemma_walk_push(t, Seq::empty(), p, key, finish);
}

/// A walk along the path of a node, without modifiers where `finish` is set,
/// ends at that node.
proof fn lemma_walk_settled(t: Trie, p: Seq<Key>, finish: bool)
    requires
        t.wf(),
        t.has(p),
        !finish || forall|i: int| 0 <= i < p.len() ==> (#[trigger] p[i]).unmodified(),
    ensures
        t.walk(Seq::empty(), p, finish) == (Reach { path: p, dead_end: false }),
{
    lemma_walk_along(t, Seq::empty(), p, finish);
    assert(Seq::<Key>::empty() + p =~= p);
}

/// The finish event never leaves a chord pending: the key it decodes to can
/// not be bound, so in a well-formed keymap the walk stops at it, and the
/// state is clear after the step.
pub proof fn lemma_finish_resolves(s: State, mode: Mode, now: Instant)
    requires
        s.trie(mode).wf(),
    ensures
        ({
            let e = Key::plain(Keys::Finish).event();
            let key = Key::decode(e.key, e.mods, e.text);
            &&& e.finish
            &&& !key.bindable()
            &&& s.press(mode, key, e.finish, now).next.idle()
        }),
{
    let t = s.trie(mode);
    let e = Key::plain(Keys::Finish).event();
    let key = Key::decode(e.key, e.mods, e.text);
    lemma_walk_push(t, Seq::empty(), s.pending, key, true);
    let reach = t.walk(Seq::empty(), s.pending, true);
    lemma_unbindable_stops(t, reach.path, key, true);
}

/// After the keys of a chord that is waited on, the finish event fires what
/// a timeout would have fired: where the pending chord has no modifiers and
/// the keymap has a node for it, the step for the finish event fires the
/// action of that node and clears the state.
pub proof fn lemma_finish_fires_pending(s: State, mode: Mode, now: Instant)
    requires
        s.trie(mode).wf(),
        s.trie(mode).has(s.pending),
        forall|i: int| 0 <= i < s.pending.len() ==> (#[trigger] s.pending[i]).unmodified(),
    ensures
        ({
            let e = Key::plain(Keys::Finish).event();
            let key = Key::decode(e.key, e.mods, e.text);
            let step = s.press(mode, key, e.finish, now);
            step.fire == s.trie(mode).action(s.pending) && step.next.idle()
        }),
{
    let t = s.trie(mode);
    let e = Key::plain(Keys::Finish).event();
    let key = Key::decode(e.key, e.mods, e.text);
    lemma_walk_settled(t, s.pending, true);
    lemma_walk_push(t, Seq::empty(), s.pending, key, true);
    lemma_unbindable_stops(t, s.pending, key, true);
}

/// The playback of a macro has one event for each of its keys, in order, and
/// the finish event at its end, which is the only one with the finish flag.
pub proof fn lemma_playback(keys: Seq<Key>)
    requires
        forall|i: int| 0 <= i < keys.len() ==> (#[trigger] keys[i]).bindable(),
    ensures
        playback(keys).len() == keys.len() + 1,
        playback(keys).last() == Key::plain(Keys::Finish).event(),
        playback(keys).last().finish,
        forall|i: int|
            0 <= i < keys.len() ==> (#[trigger] playback(keys)[i]) == keys[i].event() && !playback(
                keys,
            )[i].finish,
{
    assert forall|i: int| 0 <= i < keys.len() implies (#[trigger] playback(keys)[i])
        == keys[i].event() && !playback(keys)[i].finish by {
        assert(keys[i].bindable());
    }
}

/// A chord and its prefix, both bound: with `gg` bound to `a` and `g` to `b`
/// in a keymap, for any key `g`, the first `g` is waited on; a timeout then
/// fires `b`, once, and clears the state; a second `g` instead fires `a` at
/// once and clears the state.
pub proof fn lemma_chord_and_its_prefix(
    s: State,
    mode: Mode,
    g: Key,
    a: ActionView,
    b: ActionView,
    first: Instant,
    second: Instant,
)
    requires
        s.idle(),
        g.bindable(),
        !s.counts(g),
        s.trie(mode) == Trie::empty().bind(seq![g, g], a).bind(seq![g], b),
    ensures
        ({
            let waiting = s.press(mode, g, false, first);
            let timed_out = waiting.next.expire(mode);
            let chord = waiting.next.press(mode, g, false, second);
            &&& waiting.fire is None
            &&& waiting.next.pending == seq![g]
            &&& waiting.next.stamp == Some(first)
            &&& timed_out.fire == Some(b)
            &&& timed_out.next.idle()
            &&& forall|elapsed_ms: u128, timeout_ms: u64|
                !timed_out.next.due(elapsed_ms, timeout_ms)
            &&& chord.fire == Some(a)
            &&& chord.next.idle()
        }),
{
    let t = s.trie(mode);
    let one = seq![g];
    let two = seq![g, g];
    let none = Seq::<Key>::empty();
    assert(s.pending =~= none);
    assert(none.push(g) =~= one);
    assert(one.push(g) =~= two);
    assert(one.is_prefix_of(two)) by {
        assert(one =~= two.subrange(0, 1));
    }
    assert(two.is_prefix_of(two)) by {
        assert(two =~= two.subrange(0, 2));
    }
    assert(one.is_prefix_of(one)) by {
        assert(one =~= one.subrange(0, 1));
    }
    assert(none.is_prefix_of(one));
    assert(t.has(none) && t.has(one) && t.has(two));
    assert(t.action(one) == Some(b));
    assert(t.action(two) == Some(a));
    assert(t.action(none) is None);
    assert(t.leaf(two)) by {
        assert forall|k: Key| !t.has(#[trigger] two.push(k)) by {
            assert(two.push(k).len() == 3);
        }
    }
    assert(!t.leaf(one));
    lemma_empty_wf();
    lemma_bind_wf(Trie::empty(), two, a);
    lemma_bind_wf(Trie::empty().bind(two, a), one, b);
    lemma_inner_node_waits(s, mode, g, first);
    let waiting = s.press(mode, g, false, first);
    lemma_timeout_fires_pending(waiting.next, mode);
    lemma_leaf_fires_at_once(waiting.next, mode, g, second);
}

/// A count before a chord: from a clear state the digits `1` and `2` make
/// the count `12` and leave the chord empty; a key that is bound at a node
/// without children then fires its action, and the count is empty again.
pub proof fn lemma_count_before_chord(
    s: State,
    mode: Mode,
    key: Key,
    first: Instant,
    second: Instant,
    third: Instant,
)
    requires
        s.idle(),
        s.trie(mode).wf(),
        !is_digit_key(key),
        s.trie(mode).has(seq![key]),
        s.trie(mode).leaf(seq![key]),
    ensures
        ({
            let one = s.press(mode, Key::plain(Keys::Char('1')), false, first);
            let two = one.next.press(mode, Key::plain(Keys::Char('2')), false, second);
            let fired = two.next.press(mode, key, false, third);
            &&& one.fire is None
            &&& two.fire is None
            &&& two.next.count == seq!['1', '2']
            &&& two.next.pending.len() == 0
            &&& fired.fire == s.trie(mode).action(seq![key])
            &&& fired.next.count.len() == 0
            &&& fired.next.idle()
        }),
{
    let one = s.press(mode, Key::plain(Keys::Char('1')), false, first);
    let two = one.next.press(mode, Key::plain(Keys::Char('2')), false, second);
    assert(s.count =~= Seq::<char>::empty());
    assert(two.next.count =~= seq!['1', '2']);
    assert(two.next.pending.push(key) =~= seq![key]);
    lemma_leaf_fires_at_once(two.next, mode, key, third);
}

/// A `0` after a digit goes to the count: from a clear state `1` and `0`
/// make the count `10`. A `0` alone is a key: from a clear state it fires
/// what `0` is bound to, where that is a node without children.
pub proof fn lemma_zero_counts_after_a_digit(
    s: State,
    mode: Mode,
    first: Instant,
    second: Instant,
)
    requires
        s.idle(),
        s.trie(mode).wf(),
    ensures
        ({
            let zero = Key::plain(Keys::Char('0'));
            let one = s.press(mode, Key::plain(Keys::Char('1')), false, first);
            let ten = one.next.press(mode, zero, false, second);
            let alone = s.press(mode, zero, false, first);
            &&& ten.fire is None
            &&& ten.next.count == seq!['1', '0']
            &&& ten.next.pending.len() == 0
            &&& alone.next.count.len() == 0
            &&& s.trie(mode).has(seq![zero]) && s.trie(mode).leaf(seq![zero]) ==> alone.fire
                == s.trie(mode).action(seq![zero]) && alone.next.idle()
        }),
{
    let zero = Key::plain(Keys::Char('0'));
    let one = s.press(mode, Key::plain(Keys::Char('1')), false, first);
    let ten = one.next.press(mode, zero, false, second);
    assert(s.count =~= Seq::<char>::empty());
    assert(ten.next.count =~= seq!['1', '0']);
    assert(s.pending.push(zero) =~= seq![zero]);
    if s.trie(mode).has(seq![zero]) && s.trie(mode).leaf(seq![zero]) {
        lemma_leaf_fires_at_once(s, mode, zero, first);
    }
}

/// A macro of literal characters puts one event for each character before
/// the queue, and the finish event behind them: a macro of two characters
/// makes three events.
pub proof fn lemma_macro_of_literals(
    s: State,
    text: Seq<char>,
    after: State,
    r: Result<(), KeymapError>,
)
    requires
        forall|i: int| 0 <= i < text.len() ==> text[i] != '<',
        s.ran(Some(ActionView::Macro(text)), after, r),
    ensures
        r is Ok,
        after.queue.len() == text.len() + 1 + s.queue.len(),
        forall|i: int|
            0 <= i < text.len() ==> (#[trigger] after.queue[i]) == literal_key(text[i]).event(),
        after.queue[text.len() as int] == Key::plain(Keys::Finish).event(),
        after.queue.skip(text.len() as int + 1) == s.queue,
        after == (State { queue: after.queue, ..s }),
{
    lemma_parse_literals(text, ' ');
    let keys = Seq::new(text.len(), |i: int| literal_key(text[i]));
    assert(parse(text, ' ') == Ok::<Seq<Key>, Seq<char>>(keys));
    assert(after.queue == playback(keys) + s.queue);
    assert(playback(keys).len() == text.len() + 1);
    assert forall|i: int| 0 <= i < text.len() implies (#[trigger] after.queue[i])
        == literal_key(text[i]).event() by {
        assert(after.queue[i] == playback(keys)[i]);
    }
    assert(after.queue[text.len() as int] == playback(keys)[text.len() as int]);
    assert(after.queue.skip(text.len() as int + 1) =~= s.queue);
}

} // verus!
