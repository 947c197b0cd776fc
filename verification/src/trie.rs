//! The keymap of one mode: a prefix tree from key sequences to actions.

use vstd::prelude::*;
use crate::action::{action_view, Action, ActionView};
use crate::error::{KeymapError, KeymapErrorView};
use crate::key::Key;
use crate::parse::{lemma_parse_bindable, parse, parse_keys};

verus! {

/// The prefix tree that a keymap stands for: the paths of its nodes, each
/// with the action bound there, if any.
#[verifier::ext_equal]
pub struct Trie {
    pub nodes: Map<Seq<Key>, Option<ActionView>>,
}

impl Trie {
    /// The tree of a keymap without bindings: the root alone.
    pub open spec fn empty() -> Trie {
        Trie { nodes: Map::new(|p: Seq<Key>| p.len() == 0, |p: Seq<Key>| None) }
    }

    /// Whether the tree has a node at `path`.
    pub open spec fn has(self, path: Seq<Key>) -> bool {
        self.nodes.dom().contains(path)
    }

    /// The action bound at `path`, if there is a node with one.
    pub open spec fn action(self, path: Seq<Key>) -> Option<ActionView> {
        if self.has(path) {
            self.nodes[path]
        } else {
            None
        }
    }

    /// Whether the node at `path` has no children.
    pub open spec fn leaf(self, path: Seq<Key>) -> bool {
        forall|k: Key| !self.has(#[trigger] path.push(k))
    }

    /// The tree with nodes added for every prefix of `keys` that had none,
    /// and `action` at `keys` itself. Every other node keeps its action.
    pub open spec fn put(self, keys: Seq<Key>, action: ActionView) -> Trie {
        Trie {
            nodes: Map::new(
                |p: Seq<Key>| self.has(p) || p.is_prefix_of(keys),
                |p: Seq<Key>|
                    if p == keys {
                        Some(action)
                    } else {
                        self.action(p)
                    },
            ),
        }
    }

    /// The subtree at `path`: the nodes below the node at `path`, by their
    /// paths from there.
    pub open spec fn below(self, path: Seq<Key>) -> Trie {
        Trie {
            nodes: Map::new(|p: Seq<Key>| self.has(path + p), |p: Seq<Key>| self.nodes[path + p]),
        }
    }

    /// The key by which the walk leaves the node at `at` for `key`, if it
    /// can. It follows `key` itself where the node has a child for it and
    /// `finish` is not set; else `key` without its modifiers, where the node
    /// has a child for that; else it stops.
    pub open spec fn step(self, at: Seq<Key>, key: Key, finish: bool) -> Option<Key> {
        if !finish && self.has(at.push(key)) {
            Some(key)
        } else if self.has(at.push(key.stripped())) {
            Some(key.stripped())
        } else {
            None
        }
    }

    /// The walk from the node at `at` along `keys`: the path of the node
    /// where it ends, and whether it ended at a dead end, before the end of
    /// `keys`.
    pub open spec fn walk(self, at: Seq<Key>, keys: Seq<Key>, finish: bool) -> Reach
        decreases keys.len(),
    {
        if keys.len() == 0 {
            Reach { path: at, dead_end: false }
        } else {
            match self.step(at, keys[0], finish) {
                Some(k) => self.walk(at.push(k), keys.skip(1), finish),
                None => Reach { path: at, dead_end: true },
            }
        }
    }

    /// Whether this is the tree of some keymap: it has a root, a node for
    /// every prefix of the path of a node, and only keys that can be bound.
    pub open spec fn wf(self) -> bool {
        &&& self.has(Seq::empty())
        &&& forall|p: Seq<Key>, q: Seq<Key>| #[trigger]
            p.is_prefix_of(q) && self.has(q) ==> self.has(p)
        &&& forall|p: Seq<Key>, i: int|
            self.has(p) && 0 <= i < p.len() ==> (#[trigger] p[i]).bindable()
    }

    /// The tree after `keys` is bound to `action`. Binding the empty
    /// sequence changes nothing.
    pub open spec fn bind(self, keys: Seq<Key>, action: ActionView) -> Trie {
        if keys.len() == 0 {
            self
        } else {
            self.put(keys, action)
        }
    }
}

/// Where a walk through a tree ended.
pub struct Reach {
    /// The path of the node that the walk reached.
    pub path: Seq<Key>,
    /// Whether the walk stopped there for want of a child to go on to.
    pub dead_end: bool,
}

/// Where a walk through a keymap ended.
pub struct Walked<'a> {
    /// The node that the walk reached.
    pub node: &'a Keymap,
    /// The keys that led there, as they were matched.
    pub path: Vec<Key>,
    /// Whether the walk stopped there for want of a child to go on to.
    pub dead_end: bool,
}

/// One child of a node: the key that leads to it, and the node.
#[derive(Debug)]
struct Child {
    key: Key,
    node: Keymap,
}

/// A node of the prefix tree, and with its descendants the keymap of one
/// mode. No two children of a node have the same key.
#[derive(Debug)]
pub struct Keymap {
    action: Option<Action>,
    child: Vec<Child>,
}

impl View for Keymap {
    type V = Trie;

    closed spec fn view(&self) -> Trie {
        Trie {
            nodes: Map::new(
                |p: Seq<Key>| self.at(p) is Some,
                |p: Seq<Key>| action_view(self.at(p).unwrap().action),
            ),
        }
    }
}

impl Keymap {
    /// No two children of this node have the same key, and each has a key
    /// that can be bound.
    spec fn sound(self) -> bool {
        &&& forall|i: int, j: int|
            0 <= i < j < self.child@.len() ==> self.child@[i].key != self.child@[j].key
        &&& forall|i: int| 0 <= i < self.child@.len() ==> (#[trigger] self.child@[i]).key.bindable()
    }

    /// The index of the child for `key`, if there is one.
    spec fn slot(self, key: Key) -> Option<int> {
        if exists|i: int| 0 <= i < self.child@.len() && self.child@[i].key == key {
            Some(choose|i: int| 0 <= i < self.child@.len() && self.child@[i].key == key)
        } else {
            None
        }
    }

    /// The child for `key`, if there is one.
    spec fn sub(self, key: Key) -> Option<Keymap> {
        match self.slot(key) {
            Some(i) => Some(self.child@[i].node),
            None => None,
        }
    }

    /// The node at `path` below this one, if there is one.
    spec fn at(self, path: Seq<Key>) -> Option<Keymap>
        decreases path.len(),
    {
        if path.len() == 0 {
            Some(self)
        } else {
            match self.sub(path[0]) {
                Some(c) => c.at(path.skip(1)),
                None => None,
            }
        }
    }

    /// Whether the keymap is well formed: no node of it has two children
    /// with the same key, and every key in it can be bound.
    pub closed spec fn wf(self) -> bool {
        forall|p: Seq<Key>| (#[trigger] self.at(p)) is Some ==> self.at(p).unwrap().sound()
    }

    /// A keymap without bindings.
    pub fn new() -> (m: Keymap)
        ensures
            m.wf(),
            m@ == Trie::empty(),
    {
        let m = Keymap { action: None, child: Vec::new() };
        proof {
            assert forall|p: Seq<Key>| (m.at(p) is Some) == (p.len() == 0) by {
                if p.len() > 0 {
                    assert(m.slot(p[0]) is None);
                }
            }
            assert(m@ =~= Trie::empty());
        }
        m
    }

    /// The index of the child for `key`, if there is one.
    fn find(&self, key: &Key) -> (r: Option<usize>)
        requires
            self.sound(),
        ensures
            match r {
                Some(i) => i < self.child@.len() && self.slot(*key) == Some(i as int),
                None => self.slot(*key) is None,
            },
    {
        let mut i: usize = 0;
        while i < self.child.len()
            invariant
                i <= self.child@.len(),
                self.sound(),
                forall|j: int| 0 <= j < i ==> self.child@[j].key != *key,
            decreases self.child@.len() - i,
        {
            if self.child[i].key == *key {
                return Some(i);
            }
            i += 1;
        }
        None
    }

    /// The root of a well-formed keymap is sound.
    proof fn lemma_root(self)
        requires
            self.wf(),
        ensures
            self.sound(),
    {
        assert(self.at(Seq::empty()) == Some(self));
    }

    /// The children of a well-formed node are well formed, and each is the
    /// child for its key.
    proof fn lemma_child(self, i: int)
        requires
            self.wf(),
            0 <= i < self.child@.len(),
        ensures
            self.child@[i].node.wf(),
            self.slot(self.child@[i].key) == Some(i),
    {
        self.lemma_root();
        let key = self.child@[i].key;
        let c = self.child@[i].node;
        assert(self.slot(key) == Some(i));
        assert forall|q: Seq<Key>| (#[trigger] c.at(q)) is Some implies c.at(
            q,
        ).unwrap().sound() by {
            let p = seq![key] + q;
            assert(p.skip(1) =~= q);
            assert(self.at(p) == c.at(q));
        }
    }

    /// What a node is below a node whose child for `key` is `c`, and whose
    /// other children are those of `other`.
    proof fn lemma_grafted(self, other: Keymap, key: Key, c: Keymap)
        requires
            self.sub(key) == Some(c),
            forall|k: Key| k != key ==> self.sub(k) == other.sub(k),
        ensures
            forall|p: Seq<Key>|
                #[trigger] self.at(p) == (if p.len() == 0 {
                    Some(self)
                } else if p[0] == key {
                    c.at(p.skip(1))
                } else {
                    other.at(p)
                }),
    {
    }

    /// Where a keymap has a node, it has one at every prefix of its path.
    proof fn lemma_at_prefix(self, p: Seq<Key>, q: Seq<Key>)
        requires
            p.is_prefix_of(q),
            self.at(q) is Some,
        ensures
            self.at(p) is Some,
        decreases p.len(),
    {
        if p.len() > 0 {
            assert(p[0] == q[0]);
            let c = self.sub(q[0]).unwrap();
            assert(p.skip(1) =~= q.skip(1).subrange(0, p.len() - 1));
            c.lemma_at_prefix(p.skip(1), q.skip(1));
        }
    }

    /// The path of a node of a well-formed keymap has only keys that can be
    /// bound.
    proof fn lemma_at_bindable(self, p: Seq<Key>, i: int)
        requires
            self.wf(),
            self.at(p) is Some,
            0 <= i < p.len(),
        ensures
            p[i].bindable(),
        decreases p.len(),
    {
        self.lemma_root();
        let j = self.slot(p[0]).unwrap();
        self.lemma_child(j);
        if i > 0 {
            self.child@[j].node.lemma_at_bindable(p.skip(1), i - 1);
        }
    }

    /// The tree of a well-formed keymap is well formed.
    pub proof fn lemma_view_wf(self)
        requires
            self.wf(),
        ensures
            self@.wf(),
    {
        assert(self.at(Seq::empty()) == Some(self));
        assert forall|p: Seq<Key>, q: Seq<Key>| #[trigger]
            p.is_prefix_of(q) && self@.has(q) implies self@.has(p) by {
            self.lemma_at_prefix(p, q);
        }
        assert forall|p: Seq<Key>, i: int| self@.has(p) && 0 <= i < p.len() implies (
        #[trigger] p[i]).bindable() by {
            self.lemma_at_bindable(p, i);
        }
    }

    /// The tree of a node in terms of its own action and of its children.
    proof fn lemma_view(self)
        ensures
            self@.has(Seq::empty()),
            self@.nodes[Seq::empty()] == action_view(self.action),
            forall|p: Seq<Key>|
                p.len() > 0 && self.sub(p[0]) is None ==> !(#[trigger] self@.has(p)),
            forall|p: Seq<Key>|
                p.len() > 0 && self.sub(p[0]) is Some ==> (#[trigger] self@.has(p)
                    <==> self.sub(p[0]).unwrap()@.has(p.skip(1))) && self@.action(p)
                    == self.sub(p[0]).unwrap()@.action(p.skip(1)),
    {
        assert(self.at(Seq::empty()) == Some(self));
    }

    /// Setting the action of a node puts it at the empty path.
    proof fn lemma_set_here(self, after: Keymap, action: Action)
        requires
            self.wf(),
            after.child == self.child,
            after.action == Some(action),
        ensures
            after.wf(),
            after@ == self@.put(Seq::empty(), action@),
    {
        self.lemma_root();
        assert forall|p: Seq<Key>| #[trigger] after.at(p) == (if p.len() == 0 {
            Some(after)
        } else {
            self.at(p)
        }) by {
            if p.len() > 0 {
                assert(after.sub(p[0]) == self.sub(p[0]));
            }
        }
        assert(after.at(Seq::empty()) == Some(after));
        assert(self.at(Seq::empty()) == Some(self));
        let target = self@.put(Seq::empty(), action@);
        assert forall|p: Seq<Key>| #[trigger]
            after@.nodes.dom().contains(p) == target.nodes.dom().contains(p) by {
            if p.len() == 0 {
                assert(p.is_prefix_of(Seq::<Key>::empty()));
            } else {
                assert(!p.is_prefix_of(Seq::<Key>::empty()));
            }
        }
        assert forall|p: Seq<Key>| #[trigger] after@.nodes.dom().contains(p) implies after@.nodes[p]
            == target.nodes[p] by {
            if p.len() == 0 {
                assert(p =~= Seq::<Key>::empty());
            }
        }
        assert(after@.nodes =~= target.nodes);
    }

    /// Putting a binding below one child of a node puts it below the node.
    proof fn lemma_set_below(self, after: Keymap, key: Key, path: Seq<Key>, action: ActionView)
        requires
            self.wf(),
            after.sound(),
            after.action == self.action,
            path.len() > 0,
            path[0] == key,
            after.sub(key) is Some,
            after.sub(key).unwrap().wf(),
            forall|k: Key| k != key ==> after.sub(k) == self.sub(k),
            after.sub(key).unwrap()@ == (match self.sub(key) {
                Some(c) => c@,
                None => Trie::empty(),
            }).put(path.skip(1), action),
        ensures
            after.wf(),
            after@ == self@.put(path, action),
    {
        let grown = after.sub(key).unwrap();
        after.lemma_grafted(self, key, grown);
        assert forall|p: Seq<Key>| (#[trigger] after.at(p)) is Some implies after.at(
            p,
        ).unwrap().sound() by {
            if p.len() == 0 {
            } else if p[0] == key {
                assert(grown.at(p.skip(1)) is Some);
            } else {
                assert(self.at(p) is Some);
            }
        }
        let child = match self.sub(key) {
            Some(c) => c@,
            None => Trie::empty(),
        };
        self.lemma_view();
        after.lemma_view();
        assert forall|p: Seq<Key>| p.len() > 0 && p[0] == key implies (#[trigger] self@.has(p)
            ==> child.has(p.skip(1))) && (child.has(p.skip(1)) ==> self@.has(p) || p.len() == 1)
            && self@.action(p) == child.action(p.skip(1)) by {}
        assert forall|p: Seq<Key>| p.len() > 0 && p[0] != key implies (#[trigger] after@.has(p)
            <==> self@.has(p)) && after@.action(p) == self@.action(p) by {
            assert(after.at(p) == self.at(p));
        }
        lemma_put_below(self@, after@, child, grown@, key, path, action);
    }

    /// Binds `action` at the path `keys[from..]` below this node, adding the
    /// nodes that are missing on the way.
    fn insert(&mut self, keys: &Vec<Key>, from: usize, action: Action)
        requires
            from <= keys.len(),
            old(self).wf(),
            forall|i: int| from <= i < keys@.len() ==> (#[trigger] keys@[i]).bindable(),
        ensures
            final(self).wf(),
            final(self)@ == old(self)@.put(keys@.skip(from as int), action@),
        decreases keys.len() - from,
    {
        let ghost before = *self;
        let ghost path = keys@.skip(from as int);
        let ghost act = action@;
        proof {
            before.lemma_root();
        }
        if from == keys.len() {
            let ghost given = action;
            self.action = Some(action);
            proof {
                assert(path =~= Seq::<Key>::empty());
                before.lemma_set_here(*self, given);
            }
            return ;
        }
        let key = keys[from];
        assert(path.skip(1) =~= keys@.skip(from + 1));
        match self.find(&key) {
            Some(i) => {
                proof {
                    before.lemma_child(i as int);
                }
                self.child[i].node.insert(keys, from + 1, action);
                proof {
                    let after = *self;
                    assert(after.sound());
                    assert(after.slot(key) == Some(i as int));
                    assert forall|k: Key| k != key implies after.sub(k) == before.sub(k) by {
                        if before.slot(k) is Some {
                            let j = before.slot(k).unwrap();
                            assert(after.child@[j].key == k);
                            assert(after.slot(k) == Some(j));
                        }
                    }
                    before.lemma_set_below(after, key, path, act);
                }
            },
            None => {
                let mut node = Keymap::new();
                node.insert(keys, from + 1, action);
                self.child.push(Child { key, node });
                proof {
                    let after = *self;
                    let n = before.child@.len() as int;
                    assert(after.child@[n].key == key);
                    assert(after.sound());
                    assert(after.slot(key) == Some(n));
                    assert forall|k: Key| k != key implies after.sub(k) == before.sub(k) by {
                        if before.slot(k) is Some {
                            let j = before.slot(k).unwrap();
                            assert(after.child@[j].key == k);
                            assert(after.slot(k) == Some(j));
                        }
                    }
                    before.lemma_set_below(after, key, path, act);
                }
            },
        }
    }

    /// Binds a parsed key sequence to an action. Binding the empty sequence
    /// changes nothing.
    pub fn bind(&mut self, keys: &Vec<Key>, action: Action)
        requires
            old(self).wf(),
            forall|i: int| 0 <= i < keys@.len() ==> (#[trigger] keys@[i]).bindable(),
        ensures
            final(self).wf(),
            final(self)@ == old(self)@.bind(keys@, action@),
    {
        if keys.len() == 0 {
            return ;
        }
        assert(keys@.skip(0) =~= keys@);
        self.insert(keys, 0, action);
    }

    /// Binds a key sequence to an action: parses `keys`, adds the nodes that
    /// are missing on its path, and puts `func` at its end in place of what
    /// was bound there. Every other binding stays as it is. Binding the
    /// empty sequence changes nothing.
    ///
    /// Fails with `UnknownKey`, and changes nothing, where `keys` has a
    /// section that names no key.
    pub fn set(&mut self, keys: String, func: Action, leader: char) -> (r: Result<(), KeymapError>)
        requires
            old(self).wf(),
        ensures
            final(self).wf(),
            match parse(keys@, leader) {
                Ok(ks) => r is Ok && final(self)@ == old(self)@.bind(ks, func@),
                Err(unknown) => {
                    &&& r matches Err(e) && e@ == KeymapErrorView::UnknownKey(unknown)
                    &&& final(self)@ == old(self)@
                },
            },
    {
        match parse_keys(keys.as_str(), leader) {
            Ok(ks) => {
                proof {
                    lemma_parse_bindable(keys@, leader);
                }
                self.bind(&ks, func);
                Ok(())
            },
            Err(e) => Err(e),
        }
    }

    /// The action bound at the root of this keymap, if any.
    pub fn action(&self) -> (a: &Option<Action>)
        ensures
            action_view(*a) == self@.action(Seq::empty()),
    {
        proof {
            self.lemma_view();
        }
        &self.action
    }

    /// Whether the root of this keymap has no children.
    pub fn is_leaf(&self) -> (b: bool)
        requires
            self.wf(),
        ensures
            b == self@.leaf(Seq::empty()),
    {
        proof {
            self.lemma_view();
            self.lemma_root();
            if self.child@.len() > 0 {
                self.lemma_child(0);
                let k = self.child@[0].key;
                let p = Seq::<Key>::empty().push(k);
                assert(p.skip(1) =~= Seq::<Key>::empty());
                self.child@[0].node.lemma_view();
                assert(self@.has(p));
            } else {
                assert forall|k: Key| !self@.has(#[trigger] Seq::<Key>::empty().push(k)) by {
                    let p = Seq::<Key>::empty().push(k);
                    assert(self.slot(p[0]) is None);
                }
            }
        }
        self.child.len() == 0
    }

    /// The subtree that `key` leads to from the root, if there is one.
    pub fn get(&self, key: &Key) -> (c: Option<&Keymap>)
        requires
            self.wf(),
        ensures
            match c {
                Some(c) => self@.has(seq![*key]) && c.wf() && c@ == self@.below(seq![*key]),
                None => !self@.has(seq![*key]),
            },
    {
        proof {
            self.lemma_root();
            self.lemma_view();
            assert(seq![*key].skip(1) =~= Seq::<Key>::empty());
        }
        match self.find(key) {
            Some(i) => {
                let c = &self.child[i].node;
                proof {
                    self.lemma_child(i as int);
                    c.lemma_view();
                    let sub = self@.below(seq![*key]);
                    assert forall|q: Seq<Key>| #[trigger] c.at(q) == self.at(seq![*key] + q) by {
                        assert((seq![*key] + q).skip(1) =~= q);
                    }
                    assert(c@.nodes =~= sub.nodes);
                }
                Some(c)
            },
            None => None,
        }
    }

    /// Walks from the root along `keys`. At each key the walk goes to the
    /// child for that key; where there is none, or `finish` is set, it goes
    /// to the child for the key without its modifiers; where there is none
    /// either, it stops at a dead end.
    pub fn walk<'a>(&'a self, keys: &Vec<Key>, finish: bool) -> (w: Walked<'a>)
        requires
            self.wf(),
        ensures
            w.path@ == self@.walk(Seq::empty(), keys@, finish).path,
            w.dead_end == self@.walk(Seq::empty(), keys@, finish).dead_end,
            w.node.wf(),
            w.node@ == self@.below(w.path@),
    {
        let mut node = self;
        let mut path: Vec<Key> = Vec::new();
        let mut dead_end = false;
        let mut i: usize = 0;
        proof {
            lemma_below_root(self@);
            assert(keys@.skip(0) =~= keys@);
        }
        while i < keys.len() && !dead_end
            invariant
                i <= keys.len(),
                self.wf(),
                node.wf(),
                node@ == self@.below(path@),
                self@.walk(Seq::empty(), keys@, finish) == (if dead_end {
                    Reach { path: path@, dead_end: true }
                } else {
                    self@.walk(path@, keys@.skip(i as int), finish)
                }),
            decreases keys.len() - i + (if dead_end { 0int } else { 1int }),
        {
            let key = keys[i];
            let ghost at = path@;
            proof {
                assert(keys@.skip(i as int).skip(1) =~= keys@.skip(i + 1));
                lemma_below_step(self@, at, key);
                lemma_below_step(self@, at, key.stripped());
            }
            let direct = if finish {
                None
            } else {
                node.get(&key)
            };
            match direct {
                Some(c) => {
                    node = c;
                    path.push(key);
                    i += 1;
                },
                None => {
                    let plain = key.strip();
                    match node.get(&plain) {
                        Some(c) => {
                            node = c;
                            path.push(plain);
                            i += 1;
                        },
                        None => {
                            dead_end = true;
                        },
                    }
                },
            }
        }
        Walked { node, path, dead_end }
    }
}

/// The subtree at the root is the tree itself.
proof fn lemma_below_root(t: Trie)
    ensures
        t.below(Seq::empty()) == t,
{
    assert forall|p: Seq<Key>| Seq::<Key>::empty() + p == p by {
        assert(Seq::<Key>::empty() + p =~= p);
    }
    assert(t.below(Seq::empty()).nodes =~= t.nodes);
}

/// The subtree under `key` of the subtree at `at` is the subtree at
/// `at.push(key)`, and there is one exactly where the tree has that node.
proof fn lemma_below_step(t: Trie, at: Seq<Key>, key: Key)
    ensures
        t.below(at).has(seq![key]) == t.has(at.push(key)),
        t.below(at).below(seq![key]) == t.below(at.push(key)),
{
    assert(at + seq![key] =~= at.push(key));
    assert forall|p: Seq<Key>| at + (seq![key] + p) == at.push(key) + p by {
        assert(at + (seq![key] + p) =~= at.push(key) + p);
    }
    assert(t.below(at).below(seq![key]).nodes =~= t.below(at.push(key)).nodes);
}

/// A path is a prefix of a path that starts with `key` where it is empty, or
/// starts with `key` too and goes on with a prefix of the rest.
proof fn lemma_prefix_step(p: Seq<Key>, path: Seq<Key>)
    requires
        path.len() > 0,
    ensures
        p.is_prefix_of(path) <==> (p.len() == 0 || (p[0] == path[0] && p.skip(1).is_prefix_of(
            path.skip(1),
        ))),
        p == path <==> (p.len() > 0 && p[0] == path[0] && p.skip(1) == path.skip(1)),
{
    if p.len() > 0 && p[0] == path[0] {
        if p.skip(1).is_prefix_of(path.skip(1)) {
            assert(p =~= path.subrange(0, p.len() as int)) by {
                assert forall|i: int| 0 <= i < p.len() implies p[i] == path[i] by {
                    if i > 0 {
                        assert(p.skip(1)[i - 1] == path.skip(1).subrange(0, p.len() - 1)[i - 1]);
                    }
                }
            }
        }
        if p.is_prefix_of(path) {
            assert(p.skip(1) =~= path.skip(1).subrange(0, p.len() - 1));
        }
        if p.skip(1) == path.skip(1) {
            assert(p =~= path) by {
                assert(p.len() == path.len());
                assert forall|i: int| 0 <= i < p.len() implies p[i] == path[i] by {
                    if i > 0 {
                        assert(p.skip(1)[i - 1] == path.skip(1)[i - 1]);
                    }
                }
            }
        }
    }
}

/// Putting a binding below a child is putting it below the parent: where
/// `after` is `before` but for the subtree under `key`, which has gone from
/// `child` to `child.put(path.skip(1), action)`, `after` is
/// `before.put(path, action)`. Where `before` has no subtree under `key`,
/// `child` is the empty tree.
proof fn lemma_put_below(
    before: Trie,
    after: Trie,
    child: Trie,
    grown: Trie,
    key: Key,
    path: Seq<Key>,
    action: ActionView,
)
    requires
        path.len() > 0,
        path[0] == key,
        grown == child.put(path.skip(1), action),
        before.has(Seq::empty()),
        after.has(Seq::empty()),
        after.nodes[Seq::empty()] == before.nodes[Seq::empty()],
        forall|p: Seq<Key>|
            p.len() > 0 && p[0] == key ==> (#[trigger] before.has(p) ==> child.has(p.skip(1)))
                && (child.has(p.skip(1)) ==> before.has(p) || p.len() == 1) && before.action(p)
                == child.action(p.skip(1)),
        forall|p: Seq<Key>|
            p.len() > 0 && p[0] == key ==> (#[trigger] after.has(p) <==> grown.has(p.skip(1)))
                && after.action(p) == grown.action(p.skip(1)),
        forall|p: Seq<Key>|
            p.len() > 0 && p[0] != key ==> (#[trigger] after.has(p) <==> before.has(p))
                && after.action(p) == before.action(p),
    ensures
        after == before.put(path, action),
{
    let target = before.put(path, action);
    let rest = path.skip(1);
    assert forall|p: Seq<Key>| #[trigger] after.has(p) == target.has(p) && (after.has(p)
        ==> after.nodes[p] == target.nodes[p]) by {
        lemma_prefix_step(p, path);
        if p.len() == 0 {
            assert(p =~= Seq::<Key>::empty());
        } else if p[0] == key {
            let q = p.skip(1);
            assert(after.has(p) <==> grown.has(q));
            assert(before.has(p) ==> child.has(q));
            assert(child.has(q) ==> before.has(p) || q.len() == 0);
            assert(after.action(p) == grown.action(q));
            assert(before.action(p) == child.action(q));
            assert(grown.has(q) <==> child.has(q) || q.is_prefix_of(rest));
            if grown.has(q) {
                assert(grown.nodes[q] == (if q == rest {
                    Some(action)
                } else {
                    child.action(q)
                }));
            }
        } else {
            assert(after.has(p) <==> before.has(p));
            assert(after.action(p) == before.action(p));
        }
    }
    assert forall|p: Seq<Key>| #[trigger]
        after.nodes.dom().contains(p) == target.nodes.dom().contains(p) by {
        assert(after.has(p) == target.has(p));
    }
    assert forall|p: Seq<Key>| #[trigger] after.nodes.dom().contains(p) implies after.nodes[p]
        == target.nodes[p] by {
        assert(after.has(p));
    }
    assert(after.nodes =~= target.nodes);
}

/// The root of the subtree at `path` is the node at `path`: it has the same
/// action, and children for the same keys.
pub proof fn lemma_below_node(t: Trie, path: Seq<Key>)
    ensures
        t.below(path).has(Seq::empty()) == t.has(path),
        t.below(path).action(Seq::empty()) == t.action(path),
        t.below(path).leaf(Seq::empty()) == t.leaf(path),
{
    assert(path + Seq::<Key>::empty() =~= path);
    assert forall|k: Key|
        t.below(path).has(#[trigger] Seq::<Key>::empty().push(k)) == t.has(path.push(k)) by {
        assert(path + Seq::<Key>::empty().push(k) =~= path.push(k));
    }
    if t.leaf(path) {
        assert forall|k: Key| !t.below(path).has(#[trigger] Seq::<Key>::empty().push(k)) by {
            assert(!t.has(path.push(k)));
        }
    }
    if t.below(path).leaf(Seq::empty()) {
        assert forall|k: Key| !t.has(#[trigger] path.push(k)) by {
            assert(!t.below(path).has(Seq::<Key>::empty().push(k)));
        }
    }
}

/// Binding the same keys to the same action a second time changes nothing.
pub proof fn lemma_bind_twice(t: Trie, keys: Seq<Key>, action: ActionView)
    ensures
        t.bind(keys, action).bind(keys, action) == t.bind(keys, action),
{
    assert(t.bind(keys, action).bind(keys, action).nodes =~= t.bind(keys, action).nodes);
}

/// The tree without bindings is well formed.
pub proof fn lemma_empty_wf()
    ensures
        Trie::empty().wf(),
{
    let t = Trie::empty();
    assert forall|p: Seq<Key>, q: Seq<Key>| #[trigger] p.is_prefix_of(q) && t.has(q) implies t.has(
        p,
    ) by {}
}

/// Binding keeps a tree well formed, where the keys can be bound.
pub proof fn lemma_bind_wf(t: Trie, keys: Seq<Key>, action: ActionView)
    requires
        t.wf(),
        forall|i: int| 0 <= i < keys.len() ==> (#[trigger] keys[i]).bindable(),
    ensures
        t.bind(keys, action).wf(),
{
    let b = t.bind(keys, action);
    if keys.len() > 0 {
        assert(Seq::<Key>::empty().is_prefix_of(keys));
        assert forall|p: Seq<Key>, q: Seq<Key>| #[trigger]
            p.is_prefix_of(q) && b.has(q) implies b.has(p) by {
            if t.has(q) {
                assert(t.has(p));
            } else {
                assert(q.is_prefix_of(keys));
                assert(p =~= keys.subrange(0, p.len() as int)) by {
                    assert forall|i: int| 0 <= i < p.len() implies p[i] == keys[i] by {
                        assert(p[i] == q.subrange(0, p.len() as int)[i]);
                        assert(q[i] == keys.subrange(0, q.len() as int)[i]);
                    }
                }
            }
        }
        assert forall|p: Seq<Key>, i: int| b.has(p) && 0 <= i < p.len() implies (
        #[trigger] p[i]).bindable() by {
            if !t.has(p) {
                assert(p[i] == keys.subrange(0, p.len() as int)[i]);
            }
        }
    }
}

/// Binding changes nothing but the path of the keys: a node that was there
/// stays, with its action unless it is the node at the end of the keys, and
/// the only nodes that are new lie on the path to that end.
pub proof fn lemma_bind_keeps_others(t: Trie, keys: Seq<Key>, action: ActionView, p: Seq<Key>)
    ensures
        t.has(p) ==> t.bind(keys, action).has(p),
        t.bind(keys, action).has(p) ==> t.has(p) || p.is_prefix_of(keys),
        p != keys ==> t.bind(keys, action).action(p) == t.action(p),
        keys.len() > 0 ==> t.bind(keys, action).action(keys) == Some(action),
{
    assert(keys.is_prefix_of(keys));
}

/// A later binding of the same keys replaces the earlier one.
pub proof fn lemma_rebind(t: Trie, keys: Seq<Key>, first: ActionView, second: ActionView)
    ensures
        t.bind(keys, first).bind(keys, second) == t.bind(keys, second),
{
    assert(t.bind(keys, first).bind(keys, second).nodes =~= t.bind(keys, second).nodes);
}

/// A key that cannot be bound matches nowhere in a well-formed tree: the
/// walk stops at it, with or without its modifiers.
pub proof fn lemma_unbindable_stops(t: Trie, at: Seq<Key>, key: Key, finish: bool)
    requires
        t.wf(),
        !key.bindable(),
    ensures
        t.step(at, key, finish) is None,
{
    let direct = at.push(key);
    let plain = at.push(key.stripped());
    if t.has(direct) {
        assert(direct[at.len() as int].bindable());
    }
    if t.has(plain) {
        assert(plain[at.len() as int].bindable());
    }
}

/// A walk ends at a node of the tree, at or below the node where it began,
/// and where it met no dead end it has taken one step for each key.
pub proof fn lemma_walk_reaches(t: Trie, at: Seq<Key>, keys: Seq<Key>, finish: bool)
    requires
        t.has(at),
    ensures
        t.has(t.walk(at, keys, finish).path),
        at.is_prefix_of(t.walk(at, keys, finish).path),
        t.walk(at, keys, finish).path.len() <= at.len() + keys.len(),
        !t.walk(at, keys, finish).dead_end ==> t.walk(at, keys, finish).path.len() == at.len()
            + keys.len(),
    decreases keys.len(),
{
    if keys.len() > 0 {
        if let Some(k) = t.step(at, keys[0], finish) {
            lemma_walk_reaches(t, at.push(k), keys.skip(1), finish);
            let path = t.walk(at, keys, finish).path;
            assert(at =~= path.subrange(0, at.len() as int)) by {
                assert forall|i: int| 0 <= i < at.len() implies at[i] == path[i] by {
                    assert(at.push(k)[i] == path.subrange(0, at.len() as int + 1)[i]);
                }
            }
        } else {
            assert(at =~= at.subrange(0, at.len() as int));
        }
    } else {
        assert(at =~= at.subrange(0, at.len() as int));
    }
}

/// A walk along keys that lead to a node ends at that node, and meets no
/// dead end, where the keys have no modifiers or `finish` is not set.
pub proof fn lemma_walk_along(t: Trie, at: Seq<Key>, keys: Seq<Key>, finish: bool)
    requires
        t.wf(),
        t.has(at + keys),
        !finish || forall|i: int| 0 <= i < keys.len() ==> (#[trigger] keys[i]).unmodified(),
    ensures
        t.walk(at, keys, finish) == (Reach { path: at + keys, dead_end: false }),
    decreases keys.len(),
{
    if keys.len() == 0 {
        assert(at + keys =~= at);
    } else {
        let next = at.push(keys[0]);
        assert(next.is_prefix_of(at + keys)) by {
            assert(next =~= (at + keys).subrange(0, next.len() as int));
        }
        assert(t.has(next));
        if finish {
            assert(keys[0].unmodified());
            assert(keys[0].stripped() == keys[0]);
        }
        assert(next + keys.skip(1) =~= at + keys);
        lemma_walk_along(t, next, keys.skip(1), finish);
    }
}

/// A walk along a chord and one more key is the walk along the chord, and
/// from where that ends, unless at a dead end, the step for the key.
pub proof fn lemma_walk_push(t: Trie, at: Seq<Key>, keys: Seq<Key>, key: Key, finish: bool)
    ensures
        t.walk(at, keys.push(key), finish) == ({
            let reach = t.walk(at, keys, finish);
            if reach.dead_end {
                reach
            } else {
                match t.step(reach.path, key, finish) {
                    Some(k) => Reach { path: reach.path.push(k), dead_end: false },
                    None => Reach { path: reach.path, dead_end: true },
                }
            }
        }),
    decreases keys.len(),
{
    let more = keys.push(key);
    if keys.len() == 0 {
        assert(more.skip(1) =~= Seq::<Key>::empty());
        assert(more[0] == key);
        if let Some(k) = t.step(at, key, finish) {
            assert(t.walk(at.push(k), more.skip(1), finish) == (Reach {
                path: at.push(k),
                dead_end: false,
            }));
        }
        assert(t.walk(at, keys, finish) == (Reach { path: at, dead_end: false }));
    } else {
        assert(more[0] == keys[0]);
        assert(more.skip(1) =~= keys.skip(1).push(key));
        if let Some(k) = t.step(at, keys[0], finish) {
            lemma_walk_push(t, at.push(k), keys.skip(1), key, finish);
        }
    }
}

} // verus!
