//! The grammar of key sequences: literal characters, and `<...>` sections
//! that name a key, with modifier prefixes.

use vstd::prelude::*;
use crate::error::{KeymapError, KeymapErrorView};
use crate::key::{Key, Keys};
use crate::text::{
    char_is_uppercase, char_lowercase, chars_of, is_uppercase, lowercase, lowercase_text,
    str_lowercase, string_of,
};

verus! {

/// The key that a section name stands for by itself, where it is one of the
/// fixed names.
pub open spec fn named_key(name: Seq<char>, leader: char) -> Option<Keys> {
    if name == "gt"@ {
        Some(Keys::Char('>'))
    } else if name == "bs"@ {
        Some(Keys::Backspace)
    } else if name == "lt"@ {
        Some(Keys::Char('<'))
    } else if name == "tab"@ {
        Some(Keys::Tab)
    } else if name == "cr"@ {
        Some(Keys::CR)
    } else if name == "esc"@ {
        Some(Keys::Esc)
    } else if name == "space"@ {
        Some(Keys::Char(' '))
    } else if name == "leader"@ {
        Some(Keys::Char(leader))
    } else if name == "left"@ {
        Some(Keys::Left)
    } else if name == "right"@ {
        Some(Keys::Right)
    } else if name == "up"@ {
        Some(Keys::Up)
    } else if name == "down"@ {
        Some(Keys::Down)
    } else {
        None
    }
}

/// The modifiers that a two-character prefix of a section name adds.
pub struct Prefix {
    pub ctrl: bool,
    pub shift: bool,
    pub alt: bool,
}

/// The modifier prefix that a section name starts with, if it starts with
/// one: `c-`, `s-`, `a-` or `m-`.
pub open spec fn prefix_of(name: Seq<char>) -> Option<Prefix> {
    if name.len() >= 2 && name[1] == '-' {
        if name[0] == 'c' {
            Some(Prefix { ctrl: true, shift: false, alt: false })
        } else if name[0] == 's' {
            Some(Prefix { ctrl: false, shift: true, alt: false })
        } else if name[0] == 'a' || name[0] == 'm' {
            Some(Prefix { ctrl: false, shift: false, alt: true })
        } else {
            None
        }
    } else {
        None
    }
}

impl Prefix {
    /// The key with the modifiers of this prefix added to its own.
    pub open spec fn apply(self, k: Key) -> Key {
        Key {
            alt: k.alt || self.alt,
            shift: k.shift || self.shift,
            ctrl: k.ctrl || self.ctrl,
            key: k.key,
        }
    }
}

/// The key that a section name stands for, or the name that stands for none.
///
/// A fixed name stands for its key. Any other name of one character stands
/// for that character. Any other name that starts with a modifier prefix
/// stands for what the rest of it stands for, with that modifier added.
/// Every other name stands for no key.
pub open spec fn resolve(name: Seq<char>, leader: char) -> Result<Key, Seq<char>>
    decreases name.len(),
{
    if let Some(key) = named_key(name, leader) {
        Ok(Key::plain(key))
    } else if name.len() == 1 {
        Ok(Key::plain(Keys::Char(name[0])))
    } else if let Some(prefix) = prefix_of(name) {
        match resolve(name.skip(2), leader) {
            Ok(k) => Ok(prefix.apply(k)),
            Err(unknown) => Err(unknown),
        }
    } else {
        Err(name)
    }
}

/// The key of a literal character: the character in lower case, with shift
/// where the character is upper case.
pub open spec fn literal_key(c: char) -> Key {
    Key { alt: false, shift: is_uppercase(c), ctrl: false, key: Keys::Char(lowercase(c)) }
}

/// The number of characters of `s` before its first `>`, or the length of
/// `s` where it has none.
pub open spec fn section_len(s: Seq<char>) -> nat
    decreases s.len(),
{
    if s.len() == 0 || s[0] == '>' {
        0
    } else {
        1 + section_len(s.skip(1))
    }
}

/// The keys of `first` followed by those of `rest`, or the first error.
pub open spec fn followed_by(
    first: Result<Key, Seq<char>>,
    rest: Result<Seq<Key>, Seq<char>>,
) -> Result<Seq<Key>, Seq<char>> {
    match first {
        Err(unknown) => Err(unknown),
        Ok(k) => match rest {
            Ok(ks) => Ok(seq![k] + ks),
            Err(unknown) => Err(unknown),
        },
    }
}

/// The keys that a key sequence stands for, or the first section name in it
/// that stands for no key.
///
/// A `<` opens a section that runs up to the next `>`, or to the end where
/// there is none; its name, in lower case, is resolved by [`resolve`]. Every
/// other character is a literal key.
pub open spec fn parse(s: Seq<char>, leader: char) -> Result<Seq<Key>, Seq<char>>
    decreases s.len(),
{
    if s.len() == 0 {
        Ok(Seq::empty())
    } else if s[0] == '<' {
        let body = s.skip(1);
        let n = section_len(body);
        let name = lowercase_text(body.take(n as int));
        let rest = if n < body.len() {
            body.skip(n as int + 1)
        } else {
            Seq::empty()
        };
        followed_by(resolve(name, leader), parse(rest, leader))
    } else {
        followed_by(Ok(literal_key(s[0])), parse(s.skip(1), leader))
    }
}

/// What a parsing function returns for what the grammar says.
pub open spec fn reports<T>(
    r: Result<T, KeymapError>,
    expected: Result<T, Seq<char>>,
) -> bool {
    match expected {
        Ok(v) => r == Ok::<T, KeymapError>(v),
        Err(unknown) => r matches Err(e) && e@ == KeymapErrorView::UnknownKey(unknown),
    }
}

/// Whether the characters of `v` from `from` on are those of `word`.
fn rest_is(v: &Vec<char>, from: usize, word: &str) -> (b: bool)
    requires
        from <= v.len(),
    ensures
        b == (v@.skip(from as int) == word@),
{
    let w = chars_of(word);
    if v.len() - from != w.len() {
        return false;
    }
    let mut i: usize = 0;
    while i < w.len()
        invariant
            from <= v.len(),
            v.len() - from == w.len(),
            i <= w.len(),
            w@ == word@,
            forall|j: int| 0 <= j < i ==> v@[from + j] == w@[j],
        decreases w.len() - i,
    {
        if v[from + i] != w[i] {
            assert(v@.skip(from as int)[i as int] != w@[i as int]);
            return false;
        }
        i += 1;
    }
    assert(v@.skip(from as int) =~= word@);
    true
}

/// The key that the fixed name at `v[from..]` stands for, if it is one.
fn named(v: &Vec<char>, from: usize, leader: char) -> (k: Option<Keys>)
    requires
        from <= v.len(),
    ensures
        k == named_key(v@.skip(from as int), leader),
{
    if rest_is(v, from, "gt") {
        Some(Keys::Char('>'))
    } else if rest_is(v, from, "bs") {
        Some(Keys::Backspace)
    } else if rest_is(v, from, "lt") {
        Some(Keys::Char('<'))
    } else if rest_is(v, from, "tab") {
        Some(Keys::Tab)
    } else if rest_is(v, from, "cr") {
        Some(Keys::CR)
    } else if rest_is(v, from, "esc") {
        Some(Keys::Esc)
    } else if rest_is(v, from, "space") {
        Some(Keys::Char(' '))
    } else if rest_is(v, from, "leader") {
        Some(Keys::Char(leader))
    } else if rest_is(v, from, "left") {
        Some(Keys::Left)
    } else if rest_is(v, from, "right") {
        Some(Keys::Right)
    } else if rest_is(v, from, "up") {
        Some(Keys::Up)
    } else if rest_is(v, from, "down") {
        Some(Keys::Down)
    } else {
        None
    }
}

/// Resolves the section name `v[from..]`.
fn resolve_from(v: &Vec<char>, from: usize, leader: char) -> (r: Result<Key, KeymapError>)
    requires
        from <= v.len(),
    ensures
        reports(r, resolve(v@.skip(from as int), leader)),
    decreases v.len() - from,
{
    let ghost name = v@.skip(from as int);
    if let Some(key) = named(v, from, leader) {
        return Ok(Key { alt: false, shift: false, ctrl: false, key });
    }
    if v.len() - from == 1 {
        return Ok(Key { alt: false, shift: false, ctrl: false, key: Keys::Char(v[from]) });
    }
    if v.len() - from >= 2 && v[from + 1] == '-' {
        let p = v[from];
        let c = p == 'c';
        let s = p == 's';
        let a = p == 'a' || p == 'm';
        if c || s || a {
            assert(name.skip(2) =~= v@.skip(from + 2));
            return match resolve_from(v, from + 2, leader) {
                Ok(k) => Ok(
                    Key { alt: k.alt || a, shift: k.shift || s, ctrl: k.ctrl || c, key: k.key },
                ),
                Err(e) => Err(e),
            };
        }
    }
    let unknown = string_of(v, from, v.len());
    Err(KeymapError::UnknownKey(unknown))
}

/// Resolves the name of a `<...>` section, without its brackets, into a key.
///
/// Fails with `UnknownKey` exactly where [`resolve`] finds that the name, or
/// what is left of it after its modifier prefixes, stands for no key; the
/// error holds what stood for none.
pub fn parse_section(name: &str, leader: char) -> (r: Result<Key, KeymapError>)
    ensures
        reports(r, resolve(name@, leader)),
{
    let v = chars_of(name);
    assert(v@.skip(0) =~= name@);
    resolve_from(&v, 0, leader)
}

/// Parses a key sequence into its keys.
///
/// Fails with `UnknownKey` exactly where [`parse`] finds a section whose name
/// stands for no key; the error holds the first such name.
pub fn parse_keys(input: &str, leader: char) -> (r: Result<Vec<Key>, KeymapError>)
    ensures
        match parse(input@, leader) {
            Ok(keys) => r matches Ok(v) && v@ == keys,
            Err(unknown) => r matches Err(e) && e@ == KeymapErrorView::UnknownKey(unknown),
        },
{
    let v = chars_of(input);
    let mut out: Vec<Key> = Vec::new();
    let mut i: usize = 0;
    assert(v@.skip(0) =~= v@);
    while i < v.len()
        invariant
            i <= v.len(),
            v@ == input@,
            parse(input@, leader) == match parse(v@.skip(i as int), leader) {
                Ok(ks) => Ok::<Seq<Key>, Seq<char>>(out@ + ks),
                Err(unknown) => Err(unknown),
            },
        decreases v.len() - i,
    {
        let ghost s = v@.skip(i as int);
        let ghost before = out@;
        if v[i] == '<' {
            let start = i + 1;
            let ghost body = s.skip(1);
            assert(body =~= v@.skip(start as int));
            let mut end = start;
            while end < v.len() && v[end] != '>'
                invariant
                    start <= end <= v.len(),
                    body == v@.skip(start as int),
                    section_len(body) == (end - start) + section_len(v@.skip(end as int)),
                decreases v.len() - end,
            {
                assert(v@.skip(end as int).skip(1) =~= v@.skip(end + 1));
                end += 1;
            }
            assert(section_len(body) == end - start);
            let name = string_of(&v, start, end);
            assert(name@ =~= body.take(end - start));
            let lowered = str_lowercase(name.as_str());
            let next = if end < v.len() {
                end + 1
            } else {
                end
            };
            assert(end < v.len() ==> body.skip(end - start + 1) =~= v@.skip(next as int));
            assert(end == v.len() ==> v@.skip(next as int) =~= Seq::<char>::empty());
            match parse_section(lowered.as_str(), leader) {
                Ok(k) => {
                    out.push(k);
                },
                Err(e) => {
                    return Err(e);
                },
            }
            i = next;
        } else {
            let c = v[i];
            out.push(Key {
                alt: false,
                shift: char_is_uppercase(c),
                ctrl: false,
                key: Keys::Char(char_lowercase(c)),
            });
            assert(s.skip(1) =~= v@.skip(i + 1));
            i += 1;
        }
        proof {
            if let Ok(ks) = parse(v@.skip(i as int), leader) {
                assert(before + (seq![out@.last()] + ks) =~= out@ + ks);
            }
        }
    }
    Ok(out)
}

/// Whether every section of a key sequence is closed by its `>`.
pub open spec fn closed(s: Seq<char>) -> bool
    decreases s.len(),
{
    if s.len() == 0 {
        true
    } else if s[0] == '<' {
        let body = s.skip(1);
        let n = section_len(body);
        n < body.len() && closed(body.skip(n as int + 1))
    } else {
        closed(s.skip(1))
    }
}

/// The keys of `first` followed by those of `second`, or the first error.
pub open spec fn joined(
    first: Result<Seq<Key>, Seq<char>>,
    second: Result<Seq<Key>, Seq<char>>,
) -> Result<Seq<Key>, Seq<char>> {
    match first {
        Err(unknown) => Err(unknown),
        Ok(ks) => match second {
            Ok(more) => Ok(ks + more),
            Err(unknown) => Err(unknown),
        },
    }
}

/// A section that is closed within `a` has the same length in `a + b`.
proof fn lemma_section_len_prefix(a: Seq<char>, b: Seq<char>)
    requires
        section_len(a) < a.len(),
    ensures
        section_len(a + b) == section_len(a),
    decreases a.len(),
{
    if a[0] != '>' {
        assert((a + b).skip(1) =~= a.skip(1) + b);
        lemma_section_len_prefix(a.skip(1), b);
    }
}

/// Parsing distributes over concatenation: where every section of `a` is
/// closed, the keys of `a + b` are the keys of `a` followed by the keys of
/// `b`, and the first unknown name of `a + b` is that of `a`, or else that
/// of `b`.
pub proof fn lemma_parse_concat(a: Seq<char>, b: Seq<char>, leader: char)
    requires
        closed(a),
    ensures
        parse(a + b, leader) == joined(parse(a, leader), parse(b, leader)),
    decreases a.len(),
{
    let ab = a + b;
    if a.len() == 0 {
        assert(ab =~= b);
        if let Ok(ks) = parse(b, leader) {
            assert(Seq::<Key>::empty() + ks =~= ks);
        }
    } else if a[0] == '<' {
        let body = a.skip(1);
        let n = section_len(body);
        assert(ab.skip(1) =~= body + b);
        lemma_section_len_prefix(body, b);
        assert((body + b).take(n as int) =~= body.take(n as int));
        let rest = body.skip(n as int + 1);
        assert((body + b).skip(n as int + 1) =~= rest + b);
        lemma_parse_concat(rest, b, leader);
        let name = lowercase_text(body.take(n as int));
        if let Ok(k) = resolve(name, leader) {
            if let Ok(ks) = parse(rest, leader) {
                if let Ok(more) = parse(b, leader) {
                    assert(seq![k] + (ks + more) =~= (seq![k] + ks) + more);
                }
            }
        }
    } else {
        assert(ab.skip(1) =~= a.skip(1) + b);
        lemma_parse_concat(a.skip(1), b, leader);
        if let Ok(ks) = parse(a.skip(1), leader) {
            if let Ok(more) = parse(b, leader) {
                let k = literal_key(a[0]);
                assert(seq![k] + (ks + more) =~= (seq![k] + ks) + more);
            }
        }
    }
}

/// A key sequence written twice stands for its keys twice over, where its
/// sections are closed.
pub proof fn lemma_parse_twice(s: Seq<char>, leader: char)
    requires
        closed(s),
    ensures
        parse(s + s, leader) == joined(parse(s, leader), parse(s, leader)),
{
    lemma_parse_concat(s, s, leader);
}

/// A name that starts with a modifier prefix is no fixed name.
proof fn lemma_prefixed_is_not_named(name: Seq<char>, leader: char)
    requires
        name.len() >= 2,
        name[1] == '-',
    ensures
        named_key(name, leader) is None,
{
    reveal_strlit("gt");
    reveal_strlit("bs");
    reveal_strlit("lt");
    reveal_strlit("tab");
    reveal_strlit("cr");
    reveal_strlit("esc");
    reveal_strlit("space");
    reveal_strlit("leader");
    reveal_strlit("left");
    reveal_strlit("right");
    reveal_strlit("up");
    reveal_strlit("down");
}

/// The key of a result with the modifiers of `prefix` added, or its error.
pub open spec fn with_prefix(prefix: Prefix, r: Result<Key, Seq<char>>) -> Result<Key, Seq<char>> {
    match r {
        Ok(k) => Ok(prefix.apply(k)),
        Err(unknown) => Err(unknown),
    }
}

/// A modifier prefix adds its modifier and nothing else: a name made of a
/// prefix and a rest stands for what the rest stands for, with `ctrl` set
/// after `c-`, `shift` after `s-`, and `alt` after `a-` or `m-`.
pub proof fn lemma_prefix_adds_modifier(letter: char, rest: Seq<char>, leader: char)
    requires
        letter == 'c' || letter == 's' || letter == 'a' || letter == 'm',
    ensures
        resolve(seq![letter, '-'] + rest, leader) == with_prefix(
            Prefix {
                ctrl: letter == 'c',
                shift: letter == 's',
                alt: letter == 'a' || letter == 'm',
            },
            resolve(rest, leader),
        ),
{
    let name = seq![letter, '-'] + rest;
    lemma_prefixed_is_not_named(name, leader);
    assert(name.skip(2) =~= rest);
}

/// Prefixes compose: `c-s-` before a name sets both `ctrl` and `shift`.
pub proof fn lemma_prefixes_compose(rest: Seq<char>, leader: char)
    ensures
        resolve(seq!['c', '-', 's', '-'] + rest, leader) == with_prefix(
            Prefix { ctrl: true, shift: true, alt: false },
            resolve(rest, leader),
        ),
{
    let inner = seq!['s', '-'] + rest;
    assert(seq!['c', '-', 's', '-'] + rest =~= seq!['c', '-'] + inner);
    lemma_prefix_adds_modifier('c', inner, leader);
    lemma_prefix_adds_modifier('s', rest, leader);
}

/// The length of a section that has no `>` and is followed by one is its own
/// length.
proof fn lemma_section_len_closed(body: Seq<char>, rest: Seq<char>)
    requires
        forall|i: int| 0 <= i < body.len() ==> body[i] != '>',
        rest.len() > 0,
        rest[0] == '>',
    ensures
        section_len(body + rest) == body.len(),
    decreases body.len(),
{
    let s = body + rest;
    if body.len() > 0 {
        assert(s[0] == body[0]);
        assert(s.skip(1) =~= body.skip(1) + rest);
        assert forall|i: int| 0 <= i < body.skip(1).len() implies body.skip(1)[i] != '>' by {
            assert(body.skip(1)[i] == body[i + 1]);
        }
        lemma_section_len_closed(body.skip(1), rest);
    } else {
        assert(s[0] == rest[0]);
    }
}

/// A key sequence that is one section stands for one key: the key of the
/// name of the section in lower case.
pub proof fn lemma_parse_one_section(name: Seq<char>, leader: char)
    requires
        forall|i: int| 0 <= i < name.len() ==> name[i] != '>',
    ensures
        parse(seq!['<'] + name + seq!['>'], leader) == (match resolve(
            lowercase_text(name),
            leader,
        ) {
            Ok(k) => Ok::<Seq<Key>, Seq<char>>(seq![k]),
            Err(unknown) => Err(unknown),
        }),
{
    let s = seq!['<'] + name + seq!['>'];
    let body = s.skip(1);
    assert(body =~= name + seq!['>']);
    lemma_section_len_closed(name, seq!['>']);
    assert(body.take(name.len() as int) =~= name);
    assert(body.skip(name.len() as int + 1) =~= Seq::<char>::empty());
    assert(s[0] == '<');
    assert(section_len(body) == name.len());
    assert(parse(Seq::<char>::empty(), leader) == Ok::<Seq<Key>, Seq<char>>(Seq::empty()));
    if let Ok(k) = resolve(lowercase_text(name), leader) {
        assert(seq![k] + Seq::<Key>::empty() =~= seq![k]);
    }
}

/// A `c-` before the name of a section sets `ctrl` on its key and changes
/// nothing else, where lower-casing the name leaves the prefix apart from
/// the rest: `<c-a>` stands for the key of `<a>` with `ctrl`.
pub proof fn lemma_ctrl_section(name: Seq<char>, leader: char)
    requires
        forall|i: int| 0 <= i < name.len() ==> name[i] != '>',
        lowercase_text(seq!['c', '-'] + name) == seq!['c', '-'] + lowercase_text(name),
    ensures
        parse(seq!['<'] + (seq!['c', '-'] + name) + seq!['>'], leader) == (match parse(
            seq!['<'] + name + seq!['>'],
            leader,
        ) {
            Ok(keys) => Ok::<Seq<Key>, Seq<char>>(seq![Key { ctrl: true, ..keys[0] }]),
            Err(unknown) => Err(unknown),
        }),
{
    let prefixed = seq!['c', '-'] + name;
    assert forall|i: int| 0 <= i < prefixed.len() implies prefixed[i] != '>' by {
        if i >= 2 {
            assert(prefixed[i] == name[i - 2]);
        }
    }
    lemma_parse_one_section(prefixed, leader);
    lemma_parse_one_section(name, leader);
    lemma_prefix_adds_modifier('c', lowercase_text(name), leader);
}

/// A key sequence without sections stands for one key for each of its
/// characters: the literal key of the character.
pub proof fn lemma_parse_literals(s: Seq<char>, leader: char)
    requires
        forall|i: int| 0 <= i < s.len() ==> s[i] != '<',
    ensures
        parse(s, leader) == Ok::<Seq<Key>, Seq<char>>(
            Seq::new(s.len(), |i: int| literal_key(s[i])),
        ),
    decreases s.len(),
{
    let keys = Seq::new(s.len(), |i: int| literal_key(s[i]));
    if s.len() == 0 {
        assert(keys =~= Seq::<Key>::empty());
    } else {
        let rest = s.skip(1);
        assert forall|i: int| 0 <= i < rest.len() implies rest[i] != '<' by {
            assert(rest[i] == s[i + 1]);
        }
        lemma_parse_literals(rest, leader);
        let more = Seq::new(rest.len(), |i: int| literal_key(rest[i]));
        assert(seq![literal_key(s[0])] + more =~= keys);
    }
}

/// A section never resolves to a key that cannot be bound.
pub proof fn lemma_resolve_bindable(name: Seq<char>, leader: char)
    ensures
        resolve(name, leader) matches Ok(k) ==> k.bindable(),
    decreases name.len(),
{
    if named_key(name, leader) is None && name.len() != 1 && prefix_of(name) is Some {
        lemma_resolve_bindable(name.skip(2), leader);
    }
}

/// Every key of a parsed key sequence can be bound: parsing yields neither
/// `Unknown` nor `Finish`.
pub proof fn lemma_parse_bindable(s: Seq<char>, leader: char)
    ensures
        parse(s, leader) matches Ok(keys) ==> forall|i: int|
            0 <= i < keys.len() ==> (#[trigger] keys[i]).bindable(),
    decreases s.len(),
{
    if s.len() > 0 {
        if s[0] == '<' {
            let body = s.skip(1);
            let n = section_len(body);
            let rest = if n < body.len() {
                body.skip(n as int + 1)
            } else {
                Seq::empty()
            };
            lemma_resolve_bindable(lowercase_text(body.take(n as int)), leader);
            lemma_parse_bindable(rest, leader);
        } else {
            lemma_parse_bindable(s.skip(1), leader);
        }
    }
}

} // verus!
