//! Interned strings, and the script engine's handles for them.

use std::collections::HashMap;

use vstd::prelude::*;

verus! {

/// The key type of the interner.
#[verifier::external_type_specification]
#[verifier::external_body]
pub struct ExInternerKey(lasso::Spur);

/// The string interner.
#[verifier::external_type_specification]
#[verifier::external_body]
#[verifier::reject_recursive_types(K)]
#[verifier::reject_recursive_types(S)]
pub struct ExRodeo<K, S>(lasso::Rodeo<K, S>);

/// The strings that an interner holds, in the order in which they were first interned.
pub uninterp spec fn rodeo_strings(rodeo: lasso::Rodeo) -> Seq<Seq<char>>;

/// The number of bytes that an interner may allocate.
pub uninterp spec fn rodeo_memory_limit(rodeo: lasso::Rodeo) -> nat;

/// The strings held after `s` was interned: a new string goes to the end.
pub open spec fn interned(strings: Seq<Seq<char>>, s: Seq<char>) -> Seq<Seq<char>> {
    if strings.contains(s) {
        strings
    } else {
        strings.push(s)
    }
}

/// The key of an interned string: its position, counted from one.
pub open spec fn key_of(strings: Seq<Seq<char>>, s: Seq<char>) -> u32 {
    (strings.index_of(s) + 1) as u32
}

/// `lasso::Rodeo::new`: an interner without strings and without a memory limit.
#[verifier::external_body]
pub(crate) fn rodeo_new() -> (rodeo: lasso::Rodeo)
    ensures
        rodeo_strings(rodeo) == Seq::<Seq<char>>::empty(),
        rodeo_memory_limit(rodeo) == usize::MAX,
{
    lasso::Rodeo::new()
}

/// `lasso::Rodeo::get_or_intern`: appends the string unless it is held already, and returns its
/// key as the number that the key wraps. No string is held twice. The call panics where the key
/// space (32 bits) or a memory limit is exhausted, so both are asked for here.
#[verifier::external_body]
pub(crate) fn rodeo_get_or_intern(rodeo: &mut lasso::Rodeo, s: &str) -> (key: u32)
    requires
        rodeo_memory_limit(*old(rodeo)) == usize::MAX,
        interned(rodeo_strings(*old(rodeo)), s@).len() <= u32::MAX,
    ensures
        rodeo_strings(*final(rodeo)) == interned(rodeo_strings(*old(rodeo)), s@),
        rodeo_strings(*final(rodeo)).no_duplicates(),
        rodeo_memory_limit(*final(rodeo)) == rodeo_memory_limit(*old(rodeo)),
        key == key_of(rodeo_strings(*final(rodeo)), s@),
{
    rodeo.get_or_intern(s).into_inner().get()
}

/// `lasso::Rodeo::get`: the key of a string that is held, as the number that the key wraps.
#[verifier::external_body]
pub(crate) fn rodeo_get(rodeo: &lasso::Rodeo, s: &str) -> (key: Option<u32>)
    ensures
        key is Some <==> rodeo_strings(*rodeo).contains(s@),
        key matches Some(k) ==> k == key_of(rodeo_strings(*rodeo), s@),
{
    rodeo.get(s).map(|key| key.into_inner().get())
}

/// Key of an interned string.
#[derive(Clone, Copy, Debug, PartialEq, Eq, Structural, Hash)]
pub struct StrKey {
    pub raw: u32,
}

/// Interned strings, each with a handle `L` that the script engine made for it.
pub struct EngineStringPool<L> {
    pub rodeo: lasso::Rodeo,
    pub bridge: HashMap<u32, L>,
}

impl<L> Default for EngineStringPool<L> {
    fn default() -> (pool: Self)
        ensures
            pool.wf(),
            pool.complete(),
            pool.strings().len() == 0,
            pool.bridge@ == Map::<u32, L>::empty(),
    {
        EngineStringPool { rodeo: rodeo_new(), bridge: HashMap::new() }
    }
}

impl<L> EngineStringPool<L> {
    /// The interned strings, in the order of their keys.
    pub open spec fn strings(self) -> Seq<Seq<char>> {
        rodeo_strings(self.rodeo)
    }

    /// No string has two keys, and only memory bounds the pool.
    pub open spec fn wf(self) -> bool {
        &&& rodeo_memory_limit(self.rodeo) == usize::MAX
        &&& self.strings().no_duplicates()
        &&& self.strings().len() <= u32::MAX
    }

    /// Every interned string has a handle.
    pub open spec fn complete(self) -> bool {
        forall|k: u32| 1 <= k <= self.strings().len() ==> #[trigger] self.bridge@.contains_key(k)
    }

    /// The handles read as the strings that they stand for.
    pub open spec fn reads_as(self, text: spec_fn(L) -> Seq<char>) -> bool {
        forall|k: u32| #[trigger]
            self.bridge@.contains_key(k) ==> 1 <= k <= self.strings().len() && text(self.bridge@[k])
                == self.strings()[k - 1]
    }

    /// The handle of an interned string.
    pub fn get_lua_str(&self, spur: StrKey) -> (handle: &L)
        requires
            self.bridge@.contains_key(spur.raw),
        ensures
            *handle == self.bridge@[spur.raw],
    {
        self.bridge.get(&spur.raw).unwrap()
    }

    /// The key of `s`, which is interned, and given a handle by `make`, where it was not before.
    pub fn intern<F: FnOnce(&str) -> L>(&mut self, make: F, s: &str) -> (spur: StrKey)
        requires
            old(self).wf(),
            interned(old(self).strings(), s@).len() <= u32::MAX,
            make.requires((s,)),
        ensures
            final(self).wf(),
            final(self).strings() == interned(old(self).strings(), s@),
            spur.raw == key_of(final(self).strings(), s@),
            final(self).bridge@.contains_key(spur.raw),
            old(self).bridge@.contains_key(spur.raw) ==> final(self).bridge@ == old(self).bridge@,
            !old(self).bridge@.contains_key(spur.raw) ==> make.ensures(
                (s,),
                final(self).bridge@[spur.raw],
            ) && final(self).bridge@ == old(self).bridge@.insert(
                spur.raw,
                final(self).bridge@[spur.raw],
            ),
            old(self).complete() ==> final(self).complete(),
    {
        let key: u32 = rodeo_get_or_intern(&mut self.rodeo, s);
        proof {
            lemma_interned(old(self).strings(), s@);
            lemma_key_of(self.strings(), s@);
        }
        if !self.bridge.contains_key(&key) {
            let handle = make(s);
            self.bridge.insert(key, handle);
        }
        StrKey { raw: key }
    }
}

/// What `key_of` says of a string that is held.
pub proof fn lemma_key_of(strings: Seq<Seq<char>>, s: Seq<char>)
    requires
        strings.contains(s),
        strings.len() <= u32::MAX,
    ensures
        1 <= key_of(strings, s) <= strings.len(),
        strings[key_of(strings, s) - 1] == s,
{
    let i = strings.index_of(s);
    assert(0 <= i < strings.len() && strings[i] == s);
}

/// Interning keeps what was held in place, adds at most one string, and holds `s` afterwards.
pub proof fn lemma_interned(strings: Seq<Seq<char>>, s: Seq<char>)
    ensures
        interned(strings, s).contains(s),
        strings.is_prefix_of(interned(strings, s)),
        interned(strings, s).len() <= strings.len() + 1,
        strings.no_duplicates() ==> interned(strings, s).no_duplicates(),
{
    if !strings.contains(s) {
        assert(strings.push(s)[strings.len() as int] == s);
    }
    assert(strings.is_prefix_of(interned(strings, s)));
}

/// A key stays the same while further strings are interned.
pub proof fn lemma_key_stable(before: Seq<Seq<char>>, after: Seq<Seq<char>>, s: Seq<char>)
    requires
        before.contains(s),
        before.is_prefix_of(after),
        after.no_duplicates(),
    ensures
        after.contains(s),
        key_of(after, s) == key_of(before, s),
{
    let i = before.index_of(s);
    assert(0 <= i < before.len() && before[i] == s);
    assert(after[i] == before[i]);
    let j = after.index_of(s);
    assert(0 <= j < after.len() && after[j] == s);
}

/// The strings held after those of `list` were interned, one after the other.
pub open spec fn interned_all(strings: Seq<Seq<char>>, list: Seq<Seq<char>>) -> Seq<Seq<char>>
    decreases list.len(),
{
    if list.len() == 0 {
        strings
    } else {
        interned(interned_all(strings, list.drop_last()), list.last())
    }
}

/// Interning any number of strings keeps what was held in place.
proof fn lemma_interned_all(strings: Seq<Seq<char>>, list: Seq<Seq<char>>)
    requires
        strings.no_duplicates(),
    ensures
        strings.is_prefix_of(interned_all(strings, list)),
        interned_all(strings, list).no_duplicates(),
    decreases list.len(),
{
    if list.len() > 0 {
        lemma_interned_all(strings, list.drop_last());
        lemma_interned(interned_all(strings, list.drop_last()), list.last());
    }
}

/// A string keeps its key, however many strings are interned between: interning it again returns
/// that key, and interning a string returns it only if it is the same string.
pub proof fn law_intern_is_stable(
    strings: Seq<Seq<char>>,
    s: Seq<char>,
    between: Seq<Seq<char>>,
    t: Seq<char>,
)
    requires
        strings.no_duplicates(),
        interned(interned_all(interned(strings, s), between), t).len() <= u32::MAX,
    ensures
        interned(interned_all(interned(strings, s), between), s) == interned_all(
            interned(strings, s),
            between,
        ),
        key_of(interned(interned_all(interned(strings, s), between), t), s) == key_of(
            interned(strings, s),
            s,
        ),
        key_of(interned(strings, s), s) == key_of(
            interned(interned_all(interned(strings, s), between), t),
            t,
        ) <==> s == t,
{
    let first = interned(strings, s);
    let second = interned_all(first, between);
    let third = interned(second, t);
    lemma_interned(strings, s);
    lemma_interned_all(first, between);
    lemma_interned(second, t);
    lemma_key_stable(first, second, s);
    lemma_key_stable(second, third, s);
    law_keys_are_unique(third, s, t);
}

/// Two strings have the same key only if they are the same string.
pub proof fn law_keys_are_unique(strings: Seq<Seq<char>>, s: Seq<char>, t: Seq<char>)
    requires
        strings.contains(s),
        strings.contains(t),
        strings.len() <= u32::MAX,
    ensures
        key_of(strings, s) == key_of(strings, t) <==> s == t,
{
    lemma_key_of(strings, s);
    lemma_key_of(strings, t);
}

/// Where each handle reads as the string it stands for, and the handle made for `s` reads as `s`,
/// each handle still reads as its string once `s` is interned.
pub proof fn law_handles_read_as_strings<L>(
    before: EngineStringPool<L>,
    after: EngineStringPool<L>,
    s: Seq<char>,
    text: spec_fn(L) -> Seq<char>,
)
    requires
        before.wf(),
        after.wf(),
        before.reads_as(text),
        after.strings() == interned(before.strings(), s),
        before.bridge@.contains_key(key_of(after.strings(), s)) ==> after.bridge@ == before.bridge@,
        !before.bridge@.contains_key(key_of(after.strings(), s)) ==> text(
            after.bridge@[key_of(after.strings(), s)],
        ) == s && after.bridge@ == before.bridge@.insert(
            key_of(after.strings(), s),
            after.bridge@[key_of(after.strings(), s)],
        ),
    ensures
        after.reads_as(text),
{
    lemma_interned(before.strings(), s);
    lemma_key_of(after.strings(), s);
    assert forall|k: u32| #[trigger] after.bridge@.contains_key(k) implies 1 <= k
        <= after.strings().len() && text(after.bridge@[k]) == after.strings()[k - 1] by {
        if before.bridge@.contains_key(k) {
            assert(after.strings()[k - 1] == before.strings()[k - 1]);
        }
    }
}

/// Interning a string that is held changes nothing; a new one goes behind the others. Either way
/// its key is its position, counted from one.
pub proof fn law_interning_adds_at_the_end(strings: Seq<Seq<char>>, s: Seq<char>)
    requires
        interned(strings, s).len() <= u32::MAX,
    ensures
        strings.contains(s) ==> interned(strings, s) == strings,
        !strings.contains(s) ==> interned(strings, s) == strings.push(s) && key_of(
            interned(strings, s),
            s,
        ) == strings.len() + 1,
        1 <= key_of(interned(strings, s), s) <= interned(strings, s).len(),
        interned(strings, s)[key_of(interned(strings, s), s) - 1] == s,
{
    lemma_interned(strings, s);
    lemma_key_of(interned(strings, s), s);
    if !strings.contains(s) {
        let k = key_of(interned(strings, s), s) - 1;
        if k < strings.len() {
            assert(strings[k] == s);
        }
    }
}

/// In a pool that is complete and whose handles read as their strings, a string that is held has a
/// handle under its key, which reads as the string; and a handle is that of a string that is held.
pub proof fn law_what_handles_stand_for<L>(
    pool: EngineStringPool<L>,
    text: spec_fn(L) -> Seq<char>,
    s: Seq<char>,
    k: u32,
)
    requires
        pool.wf(),
        pool.complete(),
        pool.reads_as(text),
    ensures
        pool.strings().contains(s) ==> pool.bridge@.contains_key(key_of(pool.strings(), s)) && text(
            pool.bridge@[key_of(pool.strings(), s)],
        ) == s,
        pool.bridge@.contains_key(k) ==> pool.strings().contains(text(pool.bridge@[k])) && key_of(
            pool.strings(),
            text(pool.bridge@[k]),
        ) == k,
{
    if pool.strings().contains(s) {
        lemma_key_of(pool.strings(), s);
    }
    if pool.bridge@.contains_key(k) {
        let t = text(pool.bridge@[k]);
        assert(pool.strings()[k - 1] == t);
        assert(pool.strings().contains(t));
        lemma_key_of(pool.strings(), t);
    }
}

/// Interning a string gives its key, which is its position, and under which it has a handle: the one
/// that it had, or else one that was made from it. What was held stays in place, with its handles,
/// and no other string is added.
pub proof fn law_interning_a_string<L, F: FnOnce(&str) -> L>(
    pool: &mut EngineStringPool<L>,
    make: F,
    s: &str,
    spur: StrKey,
    after: EngineStringPool<L>,
    handle: &L,
)
    requires
        old(pool).wf(),
        interned(old(pool).strings(), s@).len() <= u32::MAX,
        call_ensures(EngineStringPool::<L>::intern::<F>, (pool, make, s), spur),
        after == *final(pool),
        call_ensures(EngineStringPool::<L>::get_lua_str, (&after, spur), handle),
    ensures
        1 <= spur.raw <= after.strings().len(),
        after.strings()[spur.raw - 1] == s@,
        old(pool).strings().is_prefix_of(after.strings()),
        after.strings().len() <= old(pool).strings().len() + 1,
        old(pool).strings().contains(s@) ==> after.strings() == old(pool).strings(),
        forall|k: u32| #[trigger]
            old(pool).bridge@.contains_key(k) ==> after.bridge@.contains_key(k) && after.bridge@[k]
                == old(pool).bridge@[k],
        old(pool).bridge@.contains_key(spur.raw) ==> *handle == old(pool).bridge@[spur.raw],
        !old(pool).bridge@.contains_key(spur.raw) ==> make.ensures((s,), *handle),
{
    lemma_interned(old(pool).strings(), s@);
    lemma_key_of(after.strings(), s@);
}

} // verus!
