//! Completion hints of the interactive shell, kept in a patricia tree keyed by the
//! commands' completion prefixes.
use vstd::prelude::*;
use vstd::utf8::{encode_utf8, decode_utf8, valid_utf8, is_char_boundary, encode_scalar, encode_utf8_first_scalar, pop_first_scalar, is_char_boundary_iff_not_is_continuation_byte};
use patricia_tree::GenericPatriciaMap;
use crate::text::{starts_with, uppercase, to_uppercase, chars_of, string_of};
use crate::command_line::{CommandId, FamilyId, completion_prefix, example_use, command_params, family_commands, all_families, families, lemma_help_shape};

verus! {

broadcast use vstd::string::group_string_axioms;

#[verifier::external_type_specification]
#[verifier::external_body]
#[verifier::reject_recursive_types(K)]
#[verifier::reject_recursive_types(V)]
pub struct ExGenericPatriciaMap<K, V>(GenericPatriciaMap<K, V>);

/// The characters of `s` after its first `n` bytes in UTF-8.
pub open spec fn after_bytes(s: Seq<char>, n: int) -> Seq<char> {
    decode_utf8(encode_utf8(s).skip(n))
}

/// The characters of `s` within its first `n` bytes in UTF-8.
pub open spec fn within_bytes(s: Seq<char>, n: int) -> Seq<char> {
    decode_utf8(encode_utf8(s).take(n))
}

/// The UTF-8 bytes of two texts one after the other are those of each, in turn.
proof fn lemma_encode_concat(a: Seq<char>, b: Seq<char>)
    ensures
        encode_utf8(a + b) == encode_utf8(a) + encode_utf8(b),
    decreases a.len(),
{
    if a.len() == 0 {
        assert(a + b =~= b);
        assert(encode_utf8(a) + encode_utf8(b) =~= encode_utf8(b));
    } else {
        assert((a + b).drop_first() =~= a.drop_first() + b);
        assert((a + b)[0] == a[0]);
        lemma_encode_concat(a.drop_first(), b);
        assert(encode_utf8(a + b) =~= encode_utf8(a) + encode_utf8(b));
    }
}

/// Where a text begins another, its bytes end on a character boundary of the other's.
proof fn lemma_prefix_boundary(a: Seq<char>, b: Seq<char>)
    ensures
        is_char_boundary(encode_utf8(a + b), encode_utf8(a).len() as int),
    decreases a.len(),
{
    broadcast use vstd::utf8::encode_utf8_valid_utf8;
    lemma_encode_concat(a, b);
    let bytes = encode_utf8(a + b);
    if a.len() == 0 {
        assert(encode_utf8(a).len() == 0);
    } else {
        encode_utf8_first_scalar(a + b);
        assert((a + b)[0] == a[0]);
        assert((a + b).drop_first() =~= a.drop_first() + b);
        assert(pop_first_scalar(bytes) =~= encode_utf8(a.drop_first() + b));
        lemma_prefix_boundary(a.drop_first(), b);
        lemma_encode_concat(a.drop_first(), b);
        assert(encode_utf8(a).len() == encode_scalar(a[0] as u32).len() + encode_utf8(a.drop_first()).len());
        assert(encode_scalar(a[0] as u32).len() > 0);
    }
}

/// A boundary at or after a cut is a boundary of what follows the cut.
proof fn lemma_boundary_after_cut(bytes: Seq<u8>, cut: int, at: int)
    requires
        valid_utf8(bytes),
        is_char_boundary(bytes, cut),
        is_char_boundary(bytes, at),
        cut <= at,
    ensures
        valid_utf8(bytes.skip(cut)),
        is_char_boundary(bytes.skip(cut), at - cut),
{
    broadcast use vstd::utf8::valid_utf8_split, vstd::utf8::is_char_boundary_start_end_of_seq;
    let rest = bytes.skip(cut);
    assert(rest =~= bytes.subrange(cut, bytes.len() as int));
    assert(0 <= cut <= bytes.len() && at <= bytes.len()) by {
        reveal_with_fuel(is_char_boundary, 1);
    }
    if at == bytes.len() {
        assert(is_char_boundary(rest, rest.len() as int));
    } else {
        is_char_boundary_iff_not_is_continuation_byte(bytes, at);
        is_char_boundary_iff_not_is_continuation_byte(rest, at - cut);
        assert(rest[at - cut] == bytes[at]);
    }
}

/// A hint shown after the cursor: the rest of a command's example use, of which the
/// first `complete_up_to` bytes can be completed.
#[derive(Debug, PartialEq, Eq)]
pub struct CommandHint {
    display: String,
    complete_up_to: usize,
}

impl CommandHint {
    /// The completable part ends on a character boundary of the hint's text.
    #[verifier::type_invariant]
    pub closed spec fn well_formed(self) -> bool {
        is_char_boundary(encode_utf8(self.display@), self.complete_up_to as int)
    }

    /// The text of the hint.
    pub closed spec fn display_view(self) -> Seq<char> {
        self.display@
    }

    /// How many bytes of the hint can be completed.
    pub closed spec fn complete_up_to_view(self) -> usize {
        self.complete_up_to
    }

    /// The hint as plain values.
    pub open spec fn entry(self) -> (Seq<char>, usize) {
        (self.display_view(), self.complete_up_to_view())
    }

    /// A hint that displays `text` and completes it up to the end of
    /// `complete_up_to`, which begins it.
    pub fn new(text: &str, complete_up_to: &str) -> (r: CommandHint)
        requires
            starts_with(text@, complete_up_to@),
        ensures
            r.display_view() == text@,
            r.complete_up_to_view() == encode_utf8(complete_up_to@).len(),
    {
        proof {
            let rest = text@.skip(complete_up_to@.len() as int);
            assert(text@ =~= complete_up_to@ + rest);
            lemma_prefix_boundary(complete_up_to@, rest);
        }
        CommandHint { display: text.to_owned(), complete_up_to: complete_up_to.as_bytes().len() }
    }

    /// The hint without its first `strip_bytes` bytes, which end on a character
    /// boundary; the completable part shrinks by as much, down to nothing.
    pub fn suffix(&self, strip_bytes: usize) -> (r: CommandHint)
        requires
            is_char_boundary(encode_utf8(self.display_view()), strip_bytes as int),
        ensures
            r.display_view() == after_bytes(self.display_view(), strip_bytes as int),
            r.complete_up_to_view() == (if self.complete_up_to_view() > strip_bytes {
                self.complete_up_to_view() - strip_bytes
            } else {
                0
            }),
    {
        proof {
            use_type_invariant(self);
        }
        broadcast use vstd::utf8::encode_utf8_valid_utf8, vstd::utf8::encode_utf8_decode_utf8;
        let ghost bytes = encode_utf8(self.display@);
        let (_, rest) = self.display.as_str().split_at(strip_bytes);
        let n = self.complete_up_to.saturating_sub(strip_bytes);
        proof {
            assert(encode_utf8(rest@) =~= bytes.skip(strip_bytes as int));
            if self.complete_up_to > strip_bytes {
                lemma_boundary_after_cut(bytes, strip_bytes as int, self.complete_up_to as int);
            } else {
                lemma_boundary_after_cut(bytes, strip_bytes as int, strip_bytes as int);
            }
        }
        CommandHint { display: rest.to_owned(), complete_up_to: n }
    }

    /// The text of the hint.
    pub fn display(&self) -> (r: &str)
        ensures
            r@ == self.display_view(),
    {
        self.display.as_str()
    }

    /// The completable part of the hint, unless it is empty.
    pub fn completion(&self) -> (r: Option<&str>)
        ensures
            self.complete_up_to_view() == 0 <==> r is None,
            r matches Some(s) ==> s@ == within_bytes(self.display_view(), self.complete_up_to_view() as int),
    {
        proof {
            use_type_invariant(self);
        }
        broadcast use vstd::utf8::encode_utf8_valid_utf8, vstd::utf8::encode_utf8_decode_utf8;
        if self.complete_up_to > 0 {
            let (s, _) = self.display.as_str().split_at(self.complete_up_to);
            assert(encode_utf8(s@) =~= encode_utf8(self.display@).take(self.complete_up_to as int));
            Some(s)
        } else {
            None
        }
    }

    fn duplicate(&self) -> (r: CommandHint)
        ensures
            r.entry() == self.entry(),
    {
        proof {
            use_type_invariant(self);
        }
        CommandHint { display: self.display.clone(), complete_up_to: self.complete_up_to }
    }
}

/// What the tree holds: from each key to the text and completable length of its hint.
pub uninterp spec fn tree_entries(map: GenericPatriciaMap<String, CommandHint>) -> Map<Seq<char>, (Seq<char>, usize)>;

/// A tree without hints.
pub open spec fn no_hints() -> Map<Seq<char>, (Seq<char>, usize)> {
    Map::empty()
}

/// `GenericPatriciaMap::new`: the tree holds nothing.
#[verifier::external_body]
fn tree_new() -> (tree: GenericPatriciaMap<String, CommandHint>)
    ensures
        tree_entries(tree) == no_hints(),
{
    GenericPatriciaMap::new()
}

/// `GenericPatriciaMap::insert`: the key now maps to the hint, every other entry is
/// kept; the hint that the key had before comes back.
#[verifier::external_body]
fn tree_insert(t: &mut GenericPatriciaMap<String, CommandHint>, key: &str, value: CommandHint) -> (old_value: Option<CommandHint>)
    ensures
        tree_entries(*final(t)) == tree_entries(*old(t)).insert(key@, value.entry()),
        old_value is Some <==> tree_entries(*old(t)).contains_key(key@),
        old_value matches Some(v) ==> v.entry() == tree_entries(*old(t))[key@],
{
    t.insert(key, value)
}

/// Byte-wise lexicographic order: `a` comes strictly before `b`.
pub open spec fn bytes_lt(a: Seq<u8>, b: Seq<u8>) -> bool
    decreases a.len(),
{
    if a.len() == 0 {
        b.len() > 0
    } else if b.len() == 0 {
        false
    } else if a[0] != b[0] {
        a[0] < b[0]
    } else {
        bytes_lt(a.skip(1), b.skip(1))
    }
}

/// The order in which the tree hands out keys: by their UTF-8 bytes.
pub open spec fn key_lt(a: Seq<char>, b: Seq<char>) -> bool {
    bytes_lt(encode_utf8(a), encode_utf8(b))
}

/// `GenericPatriciaMap::iter_prefix`, each hint cloned: all the entries whose key
/// begins with `prefix`, each once, sorted by key.
#[verifier::external_body]
fn tree_iter_prefix(t: &GenericPatriciaMap<String, CommandHint>, prefix: &str) -> (r: Vec<(String, CommandHint)>)
    ensures
        forall|i: int| #![trigger r@[i]] 0 <= i < r.len() ==> {
            &&& tree_entries(*t).contains_key(r@[i].0@)
            &&& tree_entries(*t)[r@[i].0@] == r@[i].1.entry()
            &&& starts_with(r@[i].0@, prefix@)
        },
        forall|k: Seq<char>| tree_entries(*t).contains_key(k) && starts_with(k, prefix@) ==>
            exists|i: int| #![trigger r@[i]] 0 <= i < r.len() && r@[i].0@ == k,
        forall|i: int, j: int| #![trigger r@[i], r@[j]] 0 <= i < j < r.len() ==> key_lt(r@[i].0@, r@[j].0@),
{
    t.iter_prefix(prefix).map(|(k, v)| (k, v.duplicate())).collect()
}


proof fn lemma_bytes_lt_irreflexive(a: Seq<u8>)
    ensures
        !bytes_lt(a, a),
    decreases a.len(),
{
    if a.len() > 0 {
        lemma_bytes_lt_irreflexive(a.skip(1));
    }
}

proof fn lemma_bytes_lt_asymmetric(a: Seq<u8>, b: Seq<u8>)
    ensures
        bytes_lt(a, b) ==> !bytes_lt(b, a),
    decreases a.len(),
{
    if a.len() > 0 && b.len() > 0 && a[0] == b[0] {
        lemma_bytes_lt_asymmetric(a.skip(1), b.skip(1));
    }
}

proof fn lemma_bytes_lt_total(a: Seq<u8>, b: Seq<u8>)
    ensures
        a != b ==> bytes_lt(a, b) || bytes_lt(b, a),
    decreases a.len(),
{
    if a.len() > 0 && b.len() > 0 && a[0] == b[0] {
        lemma_bytes_lt_total(a.skip(1), b.skip(1));
        if a.skip(1) == b.skip(1) {
            assert(a =~= seq![a[0]] + a.skip(1));
            assert(b =~= seq![b[0]] + b.skip(1));
        }
    } else if a.len() == 0 && b.len() == 0 {
        assert(a =~= b);
    }
}

/// `key_lt` is a strict total order on distinct keys.
proof fn lemma_key_lt_order(a: Seq<char>, b: Seq<char>)
    ensures
        !key_lt(a, a),
        key_lt(a, b) ==> !key_lt(b, a),
        a != b ==> key_lt(a, b) || key_lt(b, a),
{
    lemma_bytes_lt_irreflexive(encode_utf8(a));
    lemma_bytes_lt_asymmetric(encode_utf8(a), encode_utf8(b));
    lemma_bytes_lt_total(encode_utf8(a), encode_utf8(b));
    vstd::utf8::encode_utf8_decode_utf8(a);
    vstd::utf8::encode_utf8_decode_utf8(b);
}

/// Of the tree's entries, `k` is one whose key and hint text both begin with `up`.
pub open spec fn is_hint_candidate(e: Map<Seq<char>, (Seq<char>, usize)>, up: Seq<char>, k: Seq<char>) -> bool {
    &&& e.contains_key(k)
    &&& starts_with(k, up)
    &&& starts_with(e[k].0, up)
}

/// `k` is the first candidate in the order of keys.
pub open spec fn is_first_candidate(e: Map<Seq<char>, (Seq<char>, usize)>, up: Seq<char>, k: Seq<char>) -> bool {
    &&& is_hint_candidate(e, up, k)
    &&& forall|k2: Seq<char>| is_hint_candidate(e, up, k2) ==> !key_lt(k2, k)
}

/// The entry of the first candidate key for the upper-cased text, if there is one.
pub open spec fn first_candidate(e: Map<Seq<char>, (Seq<char>, usize)>, up: Seq<char>) -> Option<(Seq<char>, usize)> {
    if exists|k: Seq<char>| is_first_candidate(e, up, k) {
        Some(e[choose|k: Seq<char>| is_first_candidate(e, up, k)])
    } else {
        None
    }
}

/// A hint's entry without its first `strip` bytes.
pub open spec fn suffix_entry(h: (Seq<char>, usize), strip: nat) -> (Seq<char>, usize) {
    (after_bytes(h.0, strip as int), if h.1 > strip { (h.1 - strip) as usize } else { 0 })
}

/// The hint for a line with the cursor at byte `pos`: none for an empty line or a
/// cursor before the line's end; else the first entry, in the order of keys, whose key
/// and text begin with the upper-cased line, without its first `pos` bytes.
pub open spec fn hint_for(e: Map<Seq<char>, (Seq<char>, usize)>, line: &str, pos: usize) -> Option<(Seq<char>, usize)> {
    if line@.len() == 0 || pos < line.len() {
        None
    } else {
        match first_candidate(e, uppercase(line@)) {
            Some(h) => Some(suffix_entry(h, pos as nat)),
            None => None,
        }
    }
}

/// The hint that `hint_for` picks has a character boundary at byte `pos`, so that it
/// has a suffix from there.
pub open spec fn hint_in_bounds(e: Map<Seq<char>, (Seq<char>, usize)>, line: &str, pos: usize) -> bool {
    line@.len() == 0 || pos < line.len() || match first_candidate(e, uppercase(line@)) {
        Some(h) => is_char_boundary(encode_utf8(h.0), pos as int),
        None => true,
    }
}

/// The hints of the interactive shell.
pub struct FamilyHinter {
    tree: GenericPatriciaMap<String, CommandHint>,
}

impl FamilyHinter {
    /// From each completion prefix to its hint's text and completable length.
    pub closed spec fn entries(&self) -> Map<Seq<char>, (Seq<char>, usize)> {
        tree_entries(self.tree)
    }

    /// A hinter without hints.
    pub fn empty() -> (r: FamilyHinter)
        ensures
            r.entries() == no_hints(),
    {
        FamilyHinter { tree: tree_new() }
    }

    /// Adds the hint `hint` under `key`, replacing what the key had.
    pub fn insert(&mut self, key: &str, hint: CommandHint)
        ensures
            final(self).entries() == old(self).entries().insert(key@, hint.entry()),
    {
        let _ = tree_insert(&mut self.tree, key, hint);
    }

    /// The entry of the first candidate key for `up`, with the hint it has.
    fn first_candidate_hint(&self, up: &str) -> (r: Option<CommandHint>)
        ensures
            match first_candidate(self.entries(), up@) {
                Some(h) => r matches Some(c) && c.entry() == h,
                None => r is None,
            },
    {
        let items = tree_iter_prefix(&self.tree, up);
        let ghost e = self.entries();
        let mut i: usize = 0;
        while i < items.len()
            invariant
                i <= items.len(),
                e == self.entries(),
                forall|j: int| #![trigger items@[j]] 0 <= j < i ==> !starts_with(items@[j].1.entry().0, up@),
                forall|j: int| #![trigger items@[j]] 0 <= j < items.len() ==> {
                    &&& e.contains_key(items@[j].0@)
                    &&& e[items@[j].0@] == items@[j].1.entry()
                    &&& starts_with(items@[j].0@, up@)
                },
                forall|k: Seq<char>| e.contains_key(k) && starts_with(k, up@) ==>
                    exists|j: int| #![trigger items@[j]] 0 <= j < items.len() && items@[j].0@ == k,
                forall|a: int, b: int| #![trigger items@[a], items@[b]] 0 <= a < b < items.len() ==> key_lt(items@[a].0@, items@[b].0@),
            decreases items.len() - i,
        {
            let d = items[i].1.display();
            if crate::text::starts_with_exec(d, up) {
                let ghost k = items@[i as int].0@;
                proof {
                    assert(e.contains_key(items@[i as int].0@));
                    assert(e[k] == items@[i as int].1.entry());
                    assert(is_hint_candidate(e, up@, k));
                    assert forall|k2: Seq<char>| is_hint_candidate(e, up@, k2) implies !key_lt(k2, k) by {
                        let j = choose|j: int| #![trigger items@[j]] 0 <= j < items.len() && items@[j].0@ == k2;
                        lemma_key_lt_order(k2, k);
                        if j < i {
                            assert(e[items@[j].0@] == items@[j].1.entry());
                        } else if j > i {
                            assert(key_lt(items@[i as int].0@, items@[j].0@));
                        }
                    }
                    assert(is_first_candidate(e, up@, k));
                    let kc = choose|k: Seq<char>| is_first_candidate(e, up@, k);
                    lemma_key_lt_order(kc, k);
                }
                return Some(items[i].1.duplicate());
            }
            i = i + 1;
        }
        proof {
            if exists|k: Seq<char>| is_first_candidate(e, up@, k) {
                let k = choose|k: Seq<char>| is_first_candidate(e, up@, k);
                let j = choose|j: int| #![trigger items@[j]] 0 <= j < items.len() && items@[j].0@ == k;
                assert(e[items@[j].0@] == items@[j].1.entry());
                assert(!starts_with(items@[j].1.entry().0, up@));
            }
        }
        None
    }

    /// The hint for `line` with the cursor at byte `pos`.
    pub fn hint(&self, line: &str, pos: usize) -> (r: Option<CommandHint>)
        requires
            hint_in_bounds(self.entries(), line, pos),
        ensures
            match hint_for(self.entries(), line, pos) {
                Some(h) => r matches Some(c) && c.entry() == h,
                None => r is None,
            },
    {
        if line.is_empty() || pos < line.len() {
            return None;
        }
        let up = to_uppercase(line);
        match self.first_candidate_hint(up.as_str()) {
            Some(c) => Some(c.suffix(pos)),
            None => None,
        }
    }

    /// The hint for `line` with the cursor at byte `pos`, or `None` where the chosen
    /// hint has no character boundary at byte `pos` and so no suffix from there.
    pub fn try_hint(&self, line: &str, pos: usize) -> (r: Option<Option<CommandHint>>)
        ensures
            hint_in_bounds(self.entries(), line, pos) <==> r is Some,
            r matches Some(o) ==> match hint_for(self.entries(), line, pos) {
                Some(h) => o matches Some(c) && c.entry() == h,
                None => o is None,
            },
    {
        if line.is_empty() || pos < line.len() {
            return Some(None);
        }
        let up = to_uppercase(line);
        match self.first_candidate_hint(up.as_str()) {
            Some(c) => {
                if c.display().is_char_boundary(pos) {
                    Some(Some(c.suffix(pos)))
                } else {
                    None
                }
            },
            None => Some(None),
        }
    }
}


/// The hint of a command: its example use, completable up to its completion prefix and
/// the space after it where the command has parameters, counted in bytes.
pub open spec fn command_hint(c: CommandId) -> (Seq<char>, usize) {
    (example_use(c), (if command_params(c).len() == 0 {
        encode_utf8(completion_prefix(c)).len()
    } else {
        encode_utf8(completion_prefix(c)).len() + 1
    }) as usize)
}

/// `e` with the hints of the commands added in order, each under its completion prefix.
pub open spec fn with_commands(e: Map<Seq<char>, (Seq<char>, usize)>, cs: Seq<CommandId>) -> Map<Seq<char>, (Seq<char>, usize)>
    decreases cs.len(),
{
    if cs.len() == 0 {
        e
    } else {
        with_commands(e, cs.drop_last()).insert(completion_prefix(cs.last()), command_hint(cs.last()))
    }
}

/// `e` with the hints of the families' commands added, family after family.
pub open spec fn with_families(e: Map<Seq<char>, (Seq<char>, usize)>, fs: Seq<FamilyId>) -> Map<Seq<char>, (Seq<char>, usize)>
    decreases fs.len(),
{
    if fs.len() == 0 {
        e
    } else {
        with_commands(with_families(e, fs.drop_last()), family_commands(fs.last()))
    }
}

pub open spec fn quit_word() -> Seq<char> {
    seq!['Q', 'U', 'I', 'T']
}

/// All the hints of the shell: those of every command, then `QUIT`.
pub open spec fn all_hints() -> Map<Seq<char>, (Seq<char>, usize)> {
    with_families(no_hints(), all_families()).insert(quit_word(), (quit_word(), 4))
}

impl FamilyHinter {
    /// Adds the hints of a family's commands, in order.
    pub fn add_family(&mut self, family: FamilyId)
        ensures
            final(self).entries() == with_commands(old(self).entries(), family_commands(family)),
    {
        let cs = family.commands();
        let mut i: usize = 0;
        while i < cs.len()
            invariant
                i <= cs.len(),
                cs@ == family_commands(family),
                self.entries() == with_commands(old(self).entries(), cs@.take(i as int)),
            decreases cs.len() - i,
        {
            let c = cs[i];
            let help = c.help_message();
            let cp = &help[0].completion_prefix;
            let eu = &help[0].example_use;
            proof {
                lemma_help_shape(c);
            }
            let complete_up_to = if *cp == *eu {
                cp.clone()
            } else {
                let mut v = chars_of(cp.as_str());
                v.push(' ');
                string_of(&v)
            };
            proof {
                if command_params(c).len() > 0 {
                    assert(eu@.len() > cp@.len());
                    assert(eu@.take(complete_up_to@.len() as int) =~= complete_up_to@);
                    lemma_encode_concat(cp@, seq![' ']);
                    vstd::utf8::is_ascii_chars_encode_utf8(seq![' ']);
                } else {
                    assert(eu@.take(complete_up_to@.len() as int) =~= complete_up_to@);
                }
            }
            let hint = CommandHint::new(eu.as_str(), complete_up_to.as_str());
            proof {
                if command_params(c).len() > 0 {
                    assert(complete_up_to@ == cp@ + seq![' ']);
                    assert(encode_utf8(complete_up_to@).len() == encode_utf8(cp@).len() + 1);
                }
                assert(hint.entry() == command_hint(c));
            }
            self.insert(cp.as_str(), hint);
            proof {
                assert(cs@.take(i + 1).drop_last() =~= cs@.take(i as int));
            }
            i = i + 1;
        }
        assert(cs@.take(i as int) =~= cs@);
    }

    /// Adds the hint for `QUIT`.
    pub fn add_quit(&mut self)
        ensures
            final(self).entries() == old(self).entries().insert(quit_word(), (quit_word(), 4)),
    {
        let q = string_of(&vec!['Q', 'U', 'I', 'T']);
        assert(q@.take(q@.len() as int) =~= q@);
        proof {
            vstd::utf8::is_ascii_chars_encode_utf8(q@);
        }
        let hint = CommandHint::new(q.as_str(), q.as_str());
        self.insert(q.as_str(), hint);
    }

    /// The hinter with the hints of all families' commands and of `QUIT`.
    pub fn all() -> (r: FamilyHinter)
        ensures
            r.entries() == all_hints(),
    {
        let mut this = FamilyHinter::empty();
        let fs = families();
        let mut i: usize = 0;
        while i < fs.len()
            invariant
                i <= fs.len(),
                fs@ == all_families(),
                this.entries() == with_families(no_hints(), fs@.take(i as int)),
            decreases fs.len() - i,
        {
            this.add_family(fs[i]);
            proof {
                assert(fs@.take(i + 1).drop_last() =~= fs@.take(i as int));
            }
            i = i + 1;
        }
        assert(fs@.take(i as int) =~= fs@);
        this.add_quit();
        this
    }
}

} // verus!
