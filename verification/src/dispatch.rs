//! The dispatcher: it takes raw input events one at a time, keeps the chord
//! that is pending and the count typed before it, and decides when an
//! action fires.

use vstd::prelude::*;
use std::time::Instant;
use crate::action::{action_view, invoke, Action, ActionView};
use crate::clock::{elapsed_since, now, whole_millis};
use crate::error::{KeymapError, KeymapErrorView};
use crate::key::{text_view, Key, Keys, Modifiers, RawEvent, RawEventView, RawKey};
use crate::mode::Mode;
use crate::parse::{lemma_parse_bindable, parse, parse_keys};
use crate::queue::first;
use crate::text::{chars_of, push_char};
use crate::trie::{lemma_below_node, lemma_bind_twice, Keymap, Trie};

verus! {

/// Whether a character is one of the ten decimal digits.
pub open spec fn is_digit(c: char) -> bool {
    '0' <= c <= '9'
}

/// Whether a key is a digit without modifiers.
pub open spec fn is_digit_key(key: Key) -> bool {
    key.unmodified() && key.key is Char && is_digit(key.key->Char_0)
}

/// The raw events that play back a parsed macro: one for each key, and the
/// finish event behind them.
pub open spec fn playback(keys: Seq<Key>) -> Seq<RawEventView> {
    Seq::new(keys.len(), |i: int| keys[i].event()).push(Key::plain(Keys::Finish).event())
}

/// The modes that the characters of a mode string name, or the first
/// character that names none.
pub open spec fn modes_of(s: Seq<char>) -> Result<Seq<Mode>, char>
    decreases s.len(),
{
    if s.len() == 0 {
        Ok(Seq::empty())
    } else {
        match Mode::named(s[0]) {
            None => Err(s[0]),
            Some(m) => match modes_of(s.skip(1)) {
                Ok(ms) => Ok(seq![m] + ms),
                Err(c) => Err(c),
            },
        }
    }
}

/// The state of a dispatcher.
pub struct State {
    /// The keymap of normal mode.
    pub normal: Trie,
    /// The keymap of insert mode.
    pub insert: Trie,
    /// The keymap of visual mode.
    pub visual: Trie,
    /// The chord that is pending: the keys matched so far.
    pub pending: Seq<Key>,
    /// The digits of the count typed so far.
    pub count: Seq<char>,
    /// When the wait for the next key began, while there is one.
    pub stamp: Option<Instant>,
    /// The synthetic events that wait to be replayed, next first.
    pub queue: Seq<RawEventView>,
}

/// What one step of the dispatcher comes to.
pub struct Step {
    /// The state after the step, before any action runs.
    pub next: State,
    /// The action that the step fires, if any.
    pub fire: Option<ActionView>,
}

impl State {
    /// The keymap of a mode.
    pub open spec fn trie(self, mode: Mode) -> Trie {
        match mode {
            Mode::Normal => self.normal,
            Mode::Insert => self.insert,
            Mode::Visual => self.visual,
        }
    }

    /// Whether this is the state of some dispatcher: its keymaps are well
    /// formed, the count is made of digits and does not start with `0`, and
    /// the time stamp is there while a chord or a count is.
    pub open spec fn wf(self) -> bool {
        &&& self.normal.wf()
        &&& self.insert.wf()
        &&& self.visual.wf()
        &&& forall|i: int| 0 <= i < self.count.len() ==> is_digit(#[trigger] self.count[i])
        &&& self.count.len() > 0 ==> self.count[0] != '0'
        &&& self.pending.len() > 0 || self.count.len() > 0 ==> self.stamp is Some
    }

    /// This state without pending chord, count and time stamp.
    pub open spec fn cleared(self) -> State {
        State { pending: Seq::empty(), count: Seq::empty(), stamp: None, ..self }
    }

    /// Whether nothing is pending: no chord, no count, no time stamp.
    pub open spec fn idle(self) -> bool {
        self.pending.len() == 0 && self.count.len() == 0 && self.stamp is None
    }

    /// Whether `key` goes to the count: it is a digit without modifiers, and
    /// not a `0` that would start the count.
    pub open spec fn counts(self, key: Key) -> bool {
        is_digit_key(key) && (self.count.len() > 0 || key.key != Keys::Char('0'))
    }

    /// The step for one key.
    ///
    /// A key that goes to the count is appended to it and restarts the wait.
    /// Any other key is appended to the pending chord, and the keymap of
    /// `mode` is walked along the chord. Where the walk meets a dead end, or
    /// ends at a node without children, the chord is resolved: the state is
    /// cleared and the action of the node that was reached fires, if it has
    /// one. Otherwise the dispatcher waits for the next key, with the keys
    /// of the walk as its chord.
    pub open spec fn press(self, mode: Mode, key: Key, finish: bool, now: Instant) -> Step {
        if self.counts(key) {
            Step {
                next: State {
                    count: self.count.push(key.key->Char_0),
                    stamp: Some(now),
                    ..self
                },
                fire: None,
            }
        } else {
            let reach = self.trie(mode).walk(Seq::empty(), self.pending.push(key), finish);
            if reach.dead_end || self.trie(mode).leaf(reach.path) {
                Step { next: self.cleared(), fire: self.trie(mode).action(reach.path) }
            } else {
                Step {
                    next: State {
                        pending: reach.path,
                        stamp: if self.pending.len() == 0 {
                            Some(now)
                        } else {
                            self.stamp
                        },
                        ..self
                    },
                    fire: None,
                }
            }
        }
    }

    /// Whether the wait for the next key is over: a chord is pending, and
    /// at least `timeout_ms` milliseconds have passed since the wait began.
    pub open spec fn due(self, elapsed_ms: u128, timeout_ms: u64) -> bool {
        self.pending.len() > 0 && elapsed_ms >= timeout_ms
    }

    /// The step when the wait is over: the keymap of `mode` is walked along
    /// the pending chord, the state is cleared, and the action of the node
    /// that was reached fires, if it has one.
    pub open spec fn expire(self, mode: Mode) -> Step {
        let reach = self.trie(mode).walk(Seq::empty(), self.pending, false);
        Step { next: self.cleared(), fire: self.trie(mode).action(reach.path) }
    }

    /// This state with the playback of `keys` put before the events that
    /// wait in the queue.
    pub open spec fn enqueue(self, keys: Seq<Key>) -> State {
        State { queue: playback(keys) + self.queue, ..self }
    }

    /// Whether running what `fire` holds may take this state to `after` with
    /// the result `r`.
    ///
    /// Where nothing fires, nothing changes and nothing fails. A macro is
    /// parsed with the space character as leader and its playback is put
    /// before the queue; where it has a section that names no key, nothing
    /// changes and the result is `UnknownKey` with that name. A function
    /// changes nothing here; it decides itself whether it fails, and then
    /// the result is `ActionFailed`.
    pub open spec fn ran(
        self,
        fire: Option<ActionView>,
        after: State,
        r: Result<(), KeymapError>,
    ) -> bool {
        match fire {
            None => r is Ok && after == self,
            Some(ActionView::Function(f)) => {
                &&& after == self
                &&& r matches Err(e) ==> e is ActionFailed
            },
            Some(ActionView::Macro(m)) => match parse(m, ' ') {
                Ok(keys) => r is Ok && after == self.enqueue(keys),
                Err(unknown) => {
                    &&& r matches Err(e) && e@ == KeymapErrorView::UnknownKey(unknown)
                    &&& after == self
                },
            },
        }
    }

    /// Whether handling `key` at the time `now` may take this state to
    /// `after` with the result `r`: the step for the key, and then the run
    /// of what it fires.
    pub open spec fn handles(
        self,
        after: State,
        r: Result<(), KeymapError>,
        mode: Mode,
        key: Key,
        finish: bool,
        now: Instant,
    ) -> bool {
        let step = self.press(mode, key, finish, now);
        step.next.ran(step.fire, after, r)
    }

    /// Whether a tick, `elapsed_ms` milliseconds after the wait began, may
    /// take this state to `after` with the result `r`: nothing happens
    /// before the wait is over; then the chord is resolved and what it fires
    /// is run.
    pub open spec fn ticks(
        self,
        after: State,
        r: Result<(), KeymapError>,
        mode: Mode,
        elapsed_ms: u128,
        timeout_ms: u64,
    ) -> bool {
        if self.due(elapsed_ms, timeout_ms) {
            let step = self.expire(mode);
            step.next.ran(step.fire, after, r)
        } else {
            r is Ok && after == self
        }
    }

    /// This state with `keys` bound to `action` in each of `modes`.
    pub open spec fn bind(self, modes: Seq<Mode>, keys: Seq<Key>, action: ActionView) -> State {
        State {
            normal: if modes.contains(Mode::Normal) {
                self.normal.bind(keys, action)
            } else {
                self.normal
            },
            insert: if modes.contains(Mode::Insert) {
                self.insert.bind(keys, action)
            } else {
                self.insert
            },
            visual: if modes.contains(Mode::Visual) {
                self.visual.bind(keys, action)
            } else {
                self.visual
            },
            ..self
        }
    }
}

/// The views of the events of a queue.
pub open spec fn events_view(events: Seq<RawEvent>) -> Seq<RawEventView> {
    Seq::new(events.len(), |i: int| events[i]@)
}

/// The dispatcher of a session: one keymap for each mode, the chord that is
/// pending, the count typed before it, the time the wait began, and the
/// queue of synthetic events.
#[derive(Debug)]
pub struct Keymaps {
    normal: Keymap,
    insert: Keymap,
    visual: Keymap,
    last: Option<Instant>,
    pos: Vec<Key>,
    count: String,
    events: Vec<RawEvent>,
}

impl View for Keymaps {
    type V = State;

    closed spec fn view(&self) -> State {
        State {
            normal: self.normal@,
            insert: self.insert@,
            visual: self.visual@,
            pending: self.pos@,
            count: self.count@,
            stamp: self.last,
            queue: events_view(self.events@),
        }
    }
}

impl Keymaps {
    /// Whether the dispatcher is well formed: its keymaps are, the count is
    /// made of digits and does not start with `0`, and the time stamp is
    /// there while a chord or a count is.
    pub closed spec fn wf(self) -> bool {
        &&& self.normal.wf()
        &&& self.insert.wf()
        &&& self.visual.wf()
        &&& forall|i: int| 0 <= i < self.count@.len() ==> is_digit(#[trigger] self.count@[i])
        &&& self.count@.len() > 0 ==> self.count@[0] != '0'
        &&& self.pos@.len() > 0 || self.count@.len() > 0 ==> self.last is Some
    }

    /// The state of a well-formed dispatcher is well formed.
    pub proof fn lemma_view_wf(self)
        requires
            self.wf(),
        ensures
            self@.wf(),
    {
        self.normal.lemma_view_wf();
        self.insert.lemma_view_wf();
        self.visual.lemma_view_wf();
    }

    /// A dispatcher without bindings, with nothing pending and nothing
    /// queued.
    pub fn new() -> (k: Keymaps)
        ensures
            k.wf(),
            k@.normal == Trie::empty(),
            k@.insert == Trie::empty(),
            k@.visual == Trie::empty(),
            k@.idle(),
            k@.queue.len() == 0,
    {
        Keymaps {
            normal: Keymap::new(),
            insert: Keymap::new(),
            visual: Keymap::new(),
            last: None,
            pos: Vec::new(),
            events: Vec::new(),
            count: String::new(),
        }
    }

    /// The keymap of a mode.
    pub fn keymap(&self, mode: Mode) -> (m: &Keymap)
        requires
            self.wf(),
        ensures
            m.wf(),
            m@ == self@.trie(mode),
    {
        match mode {
            Mode::Normal => &self.normal,
            Mode::Insert => &self.insert,
            Mode::Visual => &self.visual,
        }
    }

    /// The digits of the count typed so far.
    pub fn count(&self) -> (c: &String)
        ensures
            c@ == self@.count,
    {
        &self.count
    }

    /// The chord that is pending.
    pub fn pending(&self) -> (p: &Vec<Key>)
        ensures
            p@ == self@.pending,
    {
        &self.pos
    }

    /// The synthetic events that wait to be replayed, next first.
    pub fn events(&self) -> (e: &Vec<RawEvent>)
        ensures
            events_view(e@) == self@.queue,
    {
        &self.events
    }

    /// Takes the next synthetic event off the queue, if there is one.
    pub fn next_event(&mut self) -> (e: Option<RawEvent>)
        requires
            old(self).wf(),
        ensures
            final(self).wf(),
            old(self)@.queue.len() == 0 ==> e is None && final(self)@ == old(self)@,
            old(self)@.queue.len() > 0 ==> ({
                &&& e matches Some(ev) && ev@ == old(self)@.queue[0]
                &&& final(self)@ == (State { queue: old(self)@.queue.skip(1), ..old(self)@ })
            }),
    {
        let e = first(&mut self.events);
        assert(events_view(self.events@) =~= if old(self).events@.len() == 0 {
            events_view(old(self).events@)
        } else {
            events_view(old(self).events@).skip(1)
        });
        e
    }

    /// Takes one key: the step of the dispatcher up to the action that
    /// fires, which is returned and not run.
    pub fn press(&mut self, mode: Mode, key: Key, finish: bool, now: Instant) -> (fire: Option<
        Action,
    >)
        requires
            old(self).wf(),
        ensures
            final(self).wf(),
            final(self)@ == old(self)@.press(mode, key, finish, now).next,
            action_view(fire) == old(self)@.press(mode, key, finish, now).fire,
    {
        if let Keys::Char(c) = key.key {
            if !key.alt && !key.shift && !key.ctrl && '0' <= c && c <= '9' {
                if !(c == '0' && self.count.as_str().is_empty()) {
                    push_char(&mut self.count, c);
                    self.last = Some(now);
                    return None;
                }
            }
        }
        if self.pos.len() == 0 {
            self.last = Some(now);
        }
        self.pos.push(key);
        let trie = match mode {
            Mode::Normal => &self.normal,
            Mode::Insert => &self.insert,
            Mode::Visual => &self.visual,
        };
        let walked = trie.walk(&self.pos, finish);
        proof {
            lemma_below_node(trie@, walked.path@);
        }
        if walked.dead_end || walked.node.is_leaf() {
            let fire = match walked.node.action() {
                Some(a) => Some(a.clone()),
                None => None,
            };
            self.pos.clear();
            self.last = None;
            self.count = String::new();
            fire
        } else {
            self.pos = walked.path;
            None
        }
    }

    /// Ends the wait: resolves the pending chord as it stands and clears
    /// the state. The action that fires is returned and not run.
    pub fn expire(&mut self, mode: Mode) -> (fire: Option<Action>)
        requires
            old(self).wf(),
        ensures
            final(self).wf(),
            final(self)@ == old(self)@.expire(mode).next,
            action_view(fire) == old(self)@.expire(mode).fire,
    {
        let trie = match mode {
            Mode::Normal => &self.normal,
            Mode::Insert => &self.insert,
            Mode::Visual => &self.visual,
        };
        let walked = trie.walk(&self.pos, false);
        proof {
            lemma_below_node(trie@, walked.path@);
        }
        let fire = match walked.node.action() {
            Some(a) => Some(a.clone()),
            None => None,
        };
        self.pos.clear();
        self.last = None;
        self.count = String::new();
        fire
    }

    /// Plays a macro: parses it with the space character as leader, whatever
    /// leader the bindings were made with, and puts its playback before the
    /// events that wait in the queue.
    ///
    /// Fails with `UnknownKey`, and changes nothing, where the macro has a
    /// section that names no key.
    pub fn call_macro(&mut self, m: String) -> (r: Result<(), KeymapError>)
        requires
            old(self).wf(),
        ensures
            final(self).wf(),
            match parse(m@, ' ') {
                Ok(keys) => r is Ok && final(self)@ == old(self)@.enqueue(keys),
                Err(unknown) => {
                    &&& r matches Err(e) && e@ == KeymapErrorView::UnknownKey(unknown)
                    &&& final(self)@ == old(self)@
                },
            },
    {
        let keys = match parse_keys(m.as_str(), ' ') {
            Ok(keys) => keys,
            Err(e) => {
                return Err(e);
            },
        };
        proof {
            lemma_parse_bindable(m@, ' ');
        }
        let mut event: Vec<RawEvent> = Vec::new();
        let mut i: usize = 0;
        while i < keys.len()
            invariant
                i <= keys.len(),
                forall|j: int| 0 <= j < keys@.len() ==> (#[trigger] keys@[j]).bindable(),
                event@.len() == i,
                forall|j: int| 0 <= j < i ==> (#[trigger] event@[j])@ == keys@[j].event(),
            decreases keys.len() - i,
        {
            let e = keys[i].to_event();
            event.push(e);
            i += 1;
        }
        event.push(Key::finish().to_event());
        let ghost played = event@;
        event.append(&mut self.events);
        self.events = event;
        proof {
            assert(events_view(played) =~= playback(keys@));
            assert(events_view(self.events@) =~= events_view(played) + events_view(
                old(self).events@,
            ));
        }
        Ok(())
    }

    /// Runs an action. A function is called with no arguments; a macro is
    /// played as by [`Keymaps::call_macro`].
    ///
    /// Fails with `ActionFailed` where the function fails, which is up to
    /// the function, and with `UnknownKey` where the macro has a section that
    /// names no key. The state changes only where a macro is played.
    pub fn run(&mut self, action: Action) -> (r: Result<(), KeymapError>)
        requires
            old(self).wf(),
        ensures
            final(self).wf(),
            old(self)@.ran(Some(action@), final(self)@, r),
    {
        match action {
            Action::Function(f) => invoke(&f),
            Action::Macro(m) => self.call_macro(m),
        }
    }

    /// Runs what a step fired, if it fired anything.
    fn run_fired(&mut self, fire: Option<Action>) -> (r: Result<(), KeymapError>)
        requires
            old(self).wf(),
        ensures
            final(self).wf(),
            old(self)@.ran(action_view(fire), final(self)@, r),
    {
        match fire {
            Some(action) => self.run(action),
            None => Ok(()),
        }
    }

    /// Handles one raw event whose time of arrival is `now`: decodes it into
    /// a key, takes the step for that key, and runs the action that fires.
    pub fn handle_at(
        &mut self,
        mode: Mode,
        key: RawKey,
        keymod: Modifiers,
        text: Option<String>,
        finish: bool,
        now: Instant,
    ) -> (r: Result<(), KeymapError>)
        requires
            old(self).wf(),
        ensures
            final(self).wf(),
            old(self)@.handles(
                final(self)@,
                r,
                mode,
                Key::decode(key, keymod, text_view(text)),
                finish,
                now,
            ),
    {
        let key = Key::from_raw(key, keymod, text);
        let fire = self.press(mode, key, finish, now);
        self.run_fired(fire)
    }

    /// Handles one raw event, live or synthetic, as [`Keymaps::handle_at`]
    /// does at the time of the call.
    pub fn handle(
        &mut self,
        mode: Mode,
        key: RawKey,
        keymod: Modifiers,
        text: Option<String>,
        finish: bool,
    ) -> (r: Result<(), KeymapError>)
        requires
            old(self).wf(),
        ensures
            final(self).wf(),
            exists|now: Instant|
                old(self)@.handles(
                    final(self)@,
                    r,
                    mode,
                    Key::decode(key, keymod, text_view(text)),
                    finish,
                    now,
                ),
    {
        let t = now();
        self.handle_at(mode, key, keymod, text, finish, t)
    }

    /// The tick of the host, `elapsed_ms` milliseconds after the wait began:
    /// does nothing unless a chord is pending and `timeout_ms` milliseconds
    /// have passed; then it resolves the chord as it stands, clears the
    /// state, and runs the action that fires.
    pub fn tick(&mut self, mode: Mode, timeout_ms: u64, elapsed_ms: u128) -> (r: Result<
        (),
        KeymapError,
    >)
        requires
            old(self).wf(),
        ensures
            final(self).wf(),
            old(self)@.ticks(final(self)@, r, mode, elapsed_ms, timeout_ms),
    {
        if self.pos.len() == 0 || elapsed_ms < timeout_ms as u128 {
            return Ok(());
        }
        let fire = self.expire(mode);
        self.run_fired(fire)
    }

    /// The tick of the host, as [`Keymaps::tick`] does it with the time that
    /// has passed since the wait began.
    pub fn handle_timeout(&mut self, mode: Mode, timeout: u64) -> (r: Result<(), KeymapError>)
        requires
            old(self).wf(),
        ensures
            final(self).wf(),
            exists|elapsed_ms: u128| old(self)@.ticks(final(self)@, r, mode, elapsed_ms, timeout),
    {
        match self.last {
            Some(start) => {
                let elapsed_ms = whole_millis(&elapsed_since(&start));
                self.tick(mode, timeout, elapsed_ms)
            },
            None => {
                assert(old(self)@.ticks(self@, Ok(()), mode, 0, timeout));
                Ok(())
            },
        }
    }

    /// Binds a key sequence to an action in every mode that `mode` names,
    /// one letter for each: `n`, `i` or `v`.
    ///
    /// Fails with `UnknownMode` where a letter names no mode, and with
    /// `UnknownKey` where `keys` has a section that names no key and there
    /// is a mode to bind it in. Where it fails, nothing has changed.
    pub fn set(&mut self, mode: String, keys: String, func: Action, leader: char) -> (r: Result<
        (),
        KeymapError,
    >)
        requires
            old(self).wf(),
        ensures
            final(self).wf(),
            match modes_of(mode@) {
                Err(c) => {
                    &&& r matches Err(e) && e@ == KeymapErrorView::UnknownMode(c)
                    &&& final(self)@ == old(self)@
                },
                Ok(modes) => if modes.len() == 0 {
                    r is Ok && final(self)@ == old(self)@
                } else {
                    match parse(keys@, leader) {
                        Err(unknown) => {
                            &&& r matches Err(e) && e@ == KeymapErrorView::UnknownKey(unknown)
                            &&& final(self)@ == old(self)@
                        },
                        Ok(ks) => r is Ok && final(self)@ == old(self)@.bind(modes, ks, func@),
                    }
                },
            },
    {
        let letters = chars_of(mode.as_str());
        let mut modes: Vec<Mode> = Vec::new();
        let mut i: usize = 0;
        assert(letters@.skip(0) =~= letters@);
        while i < letters.len()
            invariant
                i <= letters.len(),
                letters@ == mode@,
                self.wf(),
                self@ == old(self)@,
                modes_of(mode@) == match modes_of(letters@.skip(i as int)) {
                    Ok(ms) => Ok::<Seq<Mode>, char>(modes@ + ms),
                    Err(c) => Err(c),
                },
            decreases letters.len() - i,
        {
            let ghost before = modes@;
            assert(letters@.skip(i as int).skip(1) =~= letters@.skip(i + 1));
            match Mode::from(letters[i]) {
                Some(m) => {
                    modes.push(m);
                },
                None => {
                    return Err(KeymapError::UnknownMode(letters[i]));
                },
            }
            i += 1;
            proof {
                if let Ok(ms) = modes_of(letters@.skip(i as int)) {
                    assert(before + (seq![modes@.last()] + ms) =~= modes@ + ms);
                }
            }
        }
        assert(modes@ + Seq::<Mode>::empty() =~= modes@);
        if modes.len() == 0 {
            return Ok(());
        }
        let ks = match parse_keys(keys.as_str(), leader) {
            Ok(ks) => ks,
            Err(e) => {
                return Err(e);
            },
        };
        proof {
            lemma_parse_bindable(keys@, leader);
        }
        let mut j: usize = 0;
        while j < modes.len()
            invariant
                j <= modes.len(),
                self.wf(),
                forall|i: int| 0 <= i < ks@.len() ==> (#[trigger] ks@[i]).bindable(),
                self@ == old(self)@.bind(modes@.take(j as int), ks@, func@),
            decreases modes.len() - j,
        {
            let ghost done = modes@.take(j as int);
            let m = modes[j];
            match m {
                Mode::Normal => self.normal.bind(&ks, func.clone()),
                Mode::Insert => self.insert.bind(&ks, func.clone()),
                Mode::Visual => self.visual.bind(&ks, func.clone()),
            }
            j += 1;
            proof {
                let more = modes@.take(j as int);
                assert(more =~= done.push(m));
                assert forall|x: Mode| more.contains(x) <==> done.contains(x) || x == m by {
                    if done.contains(x) {
                        let at = choose|at: int| 0 <= at < done.len() && done[at] == x;
                        assert(more[at] == x);
                    }
                    if x == m {
                        assert(more[j - 1] == x);
                    }
                }
                lemma_bind_twice(old(self)@.trie(m), ks@, func@);
            }
        }
        assert(modes@.take(modes@.len() as int) =~= modes@);
        Ok(())
    }
}

} // verus!
