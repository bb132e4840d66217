use vstd::prelude::*;

use super::key_table::{KeyTable, first_words, first_words_of, put_keys, put_result, get_index, keys_view, lemma_last_index_bounds, lemma_put_then_get, last_index};
use super::ident_store::find_level;

verus! {

/// Table numbering identifiers in order of first appearance, up to a capacity,
/// answering with `u32` indices.
pub struct ContextLookup {
    table: KeyTable,
}

impl View for ContextLookup {
    type V = Seq<Seq<char>>;

    closed spec fn view(&self) -> Seq<Seq<char>> {
        self.table@
    }
}

/// `n` as a `u32` index.
pub open spec fn as_index(n: nat) -> u32 {
    n as u32
}

/// An optional index as a `u32` index.
pub open spec fn opt_index(o: Option<nat>) -> Option<u32> {
    match o {
        Some(n) => Some(as_index(n)),
        None => None,
    }
}

impl ContextLookup {
    pub closed spec fn capacity(&self) -> nat {
        self.table.capacity()
    }

    /// An empty lookup for up to `s` identifiers.
    pub fn new(s: usize) -> (r: Self)
        ensures
            r@ == Seq::<Seq<char>>::empty(),
            r.capacity() == s,
    {
        ContextLookup { table: KeyTable::new(s) }
    }

    /// A full lookup holding the first word of each line of `contents`, numbered by line;
    /// a word found on several lines answers with its last line.
    pub fn from_text(contents: &str) -> (r: Self)
        ensures
            r@ == first_words(contents@),
            r.capacity() == r@.len(),
    {
        let keys = first_words_of(contents);
        ContextLookup { table: KeyTable::from_keys(keys) }
    }

    /// Returns the index of `data`, storing it under the next index when new and
    /// there is room; `None` when it is new and the lookup is full.
    pub fn put_data(&mut self, data: &str) -> (r: Option<u32>)
        ensures
            r == opt_index(put_result(old(self)@, old(self).capacity(), data@)),
            final(self)@ == put_keys(old(self)@, old(self).capacity(), data@),
            final(self).capacity() == old(self).capacity(),
    {
        proof {
            lemma_last_index_bounds(self@, data@);
        }
        match self.table.insert(data) {
            Some(x) => Some(x as u32),
            None => None,
        }
    }

    /// The index of `data`, if stored.
    pub fn get_data(&mut self, data: &str) -> (r: Option<u32>)
        ensures
            r == opt_index(get_index(old(self)@, data@)),
            final(self)@ == old(self)@,
            final(self).capacity() == old(self).capacity(),
    {
        proof {
            lemma_last_index_bounds(self@, data@);
        }
        match self.table.find(data) {
            Some(x) => Some(x as u32),
            None => None,
        }
    }
}

/// Level keys of a stack of lookups.
pub open spec fn lookup_levels(ctx: Seq<ContextLookup>) -> Seq<Seq<Seq<char>>> {
    ctx.map_values(|t: ContextLookup| t@)
}

/// Answer of a lookup: innermost context level `j` is reported as `j + 2`,
/// the file level as 1 and the global level as 0.
pub open spec fn lookup_answer(
    levels: Seq<Seq<Seq<char>>>,
    local: Seq<Seq<char>>,
    global: Seq<Seq<char>>,
    k: Seq<char>,
) -> Option<(u32, u32)> {
    match find_level(levels, k) {
        Some((j, i)) => Some(((j as u32).wrapping_add(2), as_index(i))),
        None => match get_index(local, k) {
            Some(i) => Some((1u32, as_index(i))),
            None => match get_index(global, k) {
                Some(i) => Some((0u32, as_index(i))),
                None => None,
            },
        },
    }
}

/// What a store holds: its context levels with their capacities, the file lookup with
/// its capacity, and the global lookup.
pub struct StoreView {
    pub levels: Seq<Seq<Seq<char>>>,
    pub caps: Seq<nat>,
    pub local: Seq<Seq<char>>,
    pub local_cap: nat,
    pub global: Seq<Seq<char>>,
}

/// A call on a store.
pub enum StoreCall {
    Push,
    Pop,
    PutLocal(Seq<char>),
    GetOrPutLocal(Seq<char>),
    GetOrGlobal(Seq<char>),
}

impl StoreView {
    /// Each context level has a capacity.
    pub open spec fn valid(self) -> bool {
        self.caps.len() == self.levels.len()
    }

    /// The store after `push_context`.
    pub open spec fn after_push(self) -> StoreView {
        StoreView { levels: self.levels.push(Seq::empty()), caps: self.caps.push(2048), ..self }
    }

    /// The store after `pop_context`.
    pub open spec fn after_pop(self) -> StoreView {
        if self.levels.len() > 0 {
            StoreView { levels: self.levels.drop_last(), caps: self.caps.drop_last(), ..self }
        } else {
            self
        }
    }

    /// The answer of a lookup of `k`.
    pub open spec fn lookup(self, k: Seq<char>) -> Option<(u32, u32)> {
        lookup_answer(self.levels, self.local, self.global, k)
    }

    /// The answer of `put_local(k)`.
    pub open spec fn put_answer(self, k: Seq<char>) -> (u32, u32) {
        if self.levels.len() > 0 {
            let l = self.levels.len() - 1;
            match put_result(self.levels[l], self.caps[l], k) {
                Some(x) => ((l + 2) as u32, as_index(x)),
                None => (0u32, 0u32),
            }
        } else {
            match put_result(self.local, self.local_cap, k) {
                Some(x) => (1u32, as_index(x)),
                None => (1u32, 0u32),
            }
        }
    }

    /// The store after `put_local(k)`.
    pub open spec fn after_put(self, k: Seq<char>) -> StoreView {
        if self.levels.len() > 0 {
            let l = self.levels.len() - 1;
            StoreView { levels: self.levels.update(l, put_keys(self.levels[l], self.caps[l], k)), ..self }
        } else {
            StoreView { local: put_keys(self.local, self.local_cap, k), ..self }
        }
    }

    /// The answer of `get_or_put_local(k)`.
    pub open spec fn get_or_put_answer(self, k: Seq<char>) -> (u32, u32) {
        match self.lookup(k) {
            Some(x) => x,
            None => self.put_answer(k),
        }
    }

    /// The store after `get_or_put_local(k)`.
    pub open spec fn after_get_or_put(self, k: Seq<char>) -> StoreView {
        match self.lookup(k) {
            Some(_) => self,
            None => self.after_put(k),
        }
    }

    /// The answer of `get_or_global(k)`.
    pub open spec fn get_or_global_answer(self, k: Seq<char>) -> (u32, u32) {
        match self.lookup(k) {
            Some(x) => x,
            None => match put_result(self.local, self.local_cap, k) {
                Some(x) => (1u32, as_index(x)),
                None => (1u32, 0u32),
            },
        }
    }

    /// The store after `get_or_global(k)`.
    pub open spec fn after_get_or_global(self, k: Seq<char>) -> StoreView {
        match self.lookup(k) {
            Some(_) => self,
            None => StoreView { local: put_keys(self.local, self.local_cap, k), ..self },
        }
    }

    /// The store after `call`.
    pub open spec fn after_call(self, call: StoreCall) -> StoreView {
        match call {
            StoreCall::Push => self.after_push(),
            StoreCall::Pop => self.after_pop(),
            StoreCall::PutLocal(k) => self.after_put(k),
            StoreCall::GetOrPutLocal(k) => self.after_get_or_put(k),
            StoreCall::GetOrGlobal(k) => self.after_get_or_global(k),
        }
    }
}

/// The store after each call of `calls` in turn.
pub open spec fn run_calls(s: StoreView, calls: Seq<StoreCall>) -> StoreView
    decreases calls.len(),
{
    if calls.len() == 0 {
        s
    } else {
        run_calls(s, calls.drop_last()).after_call(calls.last())
    }
}

/// Number of context levels after `calls`, starting from `n`: one more for each push, one
/// fewer for each pop made while there is a level to drop.
pub open spec fn level_count(n: nat, calls: Seq<StoreCall>) -> nat
    decreases calls.len(),
{
    if calls.len() == 0 {
        n
    } else {
        let c = level_count(n, calls.drop_last());
        match calls.last() {
            StoreCall::Push => c + 1,
            StoreCall::Pop => if c > 0 { (c - 1) as nat } else { c },
            _ => c,
        }
    }
}

/// Over any history of calls, the store has one context level more for each push and one
/// fewer for each pop made while it had a level to drop; its `len()` is two more than that.
pub proof fn law_level_count(s: StoreView, calls: Seq<StoreCall>)
    requires
        s.valid(),
    ensures
        run_calls(s, calls).levels.len() == level_count(s.levels.len(), calls),
        run_calls(s, calls).valid(),
    decreases calls.len(),
{
    if calls.len() > 0 {
        law_level_count(s, calls.drop_last());
    }
}

/// Opening a context level and dropping it again gives back the store as it was; the new
/// level starts empty, so a name stored in it right away gets index 0 at level
/// `levels + 2`, the store's `len()` before the push.
pub proof fn law_push_pop(s: StoreView, k: Seq<char>)
    requires
        s.valid(),
    ensures
        s.after_push().after_pop() == s,
        s.after_push().levels.len() == s.levels.len() + 1,
        s.after_push().levels.last() == Seq::<Seq<char>>::empty(),
        s.after_push().put_answer(k) == ((s.levels.len() + 2) as u32, 0u32),
{
    let t = s.after_push();
    let l = s.levels.len() as int;
    assert(last_index(Seq::<Seq<char>>::empty(), k) == -1);
    assert(t.levels[l] == Seq::<Seq<char>>::empty());
    assert(t.caps[l] == 2048);
    assert(put_result(t.levels[l], t.caps[l], k) == Some(0nat));
    assert(as_index(0) == 0);
    assert(s.after_push().levels.drop_last() =~= s.levels);
    assert(s.after_push().caps.drop_last() =~= s.caps);
}

/// Storing names (`put_local` or `get_or_put_local`) after a push leaves the levels below
/// the new one, their capacities, and both lookups as they were.
proof fn lemma_scope_run(s: StoreView, names: Seq<StoreCall>)
    requires
        s.valid(),
        forall|i: int| 0 <= i < names.len() ==> (#[trigger] names[i] is PutLocal || names[i] is GetOrPutLocal),
    ensures
        ({
            let t = run_calls(s.after_push(), names);
            &&& t.levels.len() == s.levels.len() + 1
            &&& t.levels.drop_last() == s.levels
            &&& t.caps == s.caps.push(2048)
            &&& t.local == s.local
            &&& t.local_cap == s.local_cap
            &&& t.global == s.global
        }),
    decreases names.len(),
{
    if names.len() == 0 {
        assert(s.after_push().levels.drop_last() =~= s.levels);
    } else {
        let init = names.drop_last();
        assert forall|i: int| 0 <= i < init.len() implies (#[trigger] init[i] is PutLocal || init[i] is GetOrPutLocal) by {
            assert(init[i] == names[i]);
        }
        lemma_scope_run(s, init);
        let t0 = run_calls(s.after_push(), init);
        let last = names.last();
        assert(names[names.len() - 1] is PutLocal || names[names.len() - 1] is GetOrPutLocal);
        let l = t0.levels.len() - 1;
        let k = match last {
            StoreCall::PutLocal(k) => k,
            StoreCall::GetOrPutLocal(k) => k,
            _ => Seq::empty(),
        };
        assert(t0.after_put(k).levels.drop_last() =~= t0.levels.drop_last());
    }
}

/// Opening a context level, storing names in it, and dropping it gives back the store as
/// it was, so every later answer is the one it would have been without them.
pub proof fn law_scope(s: StoreView, names: Seq<StoreCall>)
    requires
        s.valid(),
        forall|i: int| 0 <= i < names.len() ==> (#[trigger] names[i] is PutLocal || names[i] is GetOrPutLocal),
    ensures
        run_calls(s.after_push(), names).after_pop() == s,
{
    lemma_scope_run(s, names);
    let t = run_calls(s.after_push(), names);
    assert(t.caps.drop_last() =~= s.caps);
}

/// Asking for the same name twice in a row gives the same answer both times, and the second
/// call leaves the store as the first one left it.
pub proof fn law_get_or_put_twice(s: StoreView, k: Seq<char>)
    requires
        s.valid(),
        s.levels.len() < u32::MAX,
    ensures
        s.after_get_or_put(k).get_or_put_answer(k) == s.get_or_put_answer(k),
        s.after_get_or_put(k).after_get_or_put(k) == s.after_get_or_put(k),
{
    if s.lookup(k) is None {
        let t = s.after_put(k);
        if s.levels.len() > 0 {
            let l = s.levels.len() - 1;
            lemma_put_then_get(s.levels[l], s.caps[l], k);
            assert(last_index(s.levels.last(), k) < 0);
            assert(t.levels.drop_last() =~= s.levels.drop_last());
            assert(t.levels.last() == put_keys(s.levels[l], s.caps[l], k));
            if put_result(s.levels[l], s.caps[l], k) is None {
                assert(t.levels =~= s.levels);
                assert(t == s);
            }
        } else {
            lemma_put_then_get(s.local, s.local_cap, k);
            if put_result(s.local, s.local_cap, k) is None {
                assert(t == s);
            }
        }
    }
}

/// Identifier store with context levels over a file level and a global level.
pub struct ContextStore<'a> {
    pub global_store: &'a mut ContextLookup,
    pub local_store: &'a mut ContextLookup,
    pub context: Vec<ContextLookup>,
}

impl<'a> ContextStore<'a> {
    pub open spec fn global(&self) -> Seq<Seq<char>> {
        self.global_store@
    }

    pub open spec fn local(&self) -> Seq<Seq<char>> {
        self.local_store@
    }

    pub open spec fn local_capacity(&self) -> nat {
        self.local_store.capacity()
    }

    pub open spec fn levels(&self) -> Seq<Seq<Seq<char>>> {
        lookup_levels(self.context@)
    }

    pub open spec fn level_capacity(&self, i: int) -> nat {
        self.context@[i].capacity()
    }

    /// What the store holds.
    pub open spec fn store_view(&self) -> StoreView {
        StoreView {
            levels: self.levels(),
            caps: Seq::new(self.levels().len(), |i: int| self.level_capacity(i)),
            local: self.local(),
            local_cap: self.local_capacity(),
            global: self.global(),
        }
    }

    /// The global lookup and the capacities are unchanged.
    pub open spec fn same_frame(&self, other: &Self) -> bool {
        &&& self.global() == other.global()
        &&& self.global_store.capacity() == other.global_store.capacity()
        &&& self.local_store.capacity() == other.local_store.capacity()
    }

    /// A store with no context levels over a global and a file lookup.
    pub fn new(global_store: &'a mut ContextLookup, local_store: &'a mut ContextLookup) -> (r: Self)
        ensures
            r.global() == old(global_store)@,
            r.local() == old(local_store)@,
            r.global_store.capacity() == old(global_store).capacity(),
            r.local_store.capacity() == old(local_store).capacity(),
            r.levels() == Seq::<Seq<Seq<char>>>::empty(),
            *final(r.global_store) == *final(global_store),
            *final(r.local_store) == *final(local_store),
    {
        let r = ContextStore { global_store, local_store, context: Vec::with_capacity(8) };
        assert(r.levels() =~= Seq::<Seq<Seq<char>>>::empty());
        r
    }

    /// Number of context levels plus two.
    pub fn len(&self) -> (r: usize)
        requires
            self.levels().len() + 2 <= usize::MAX,
        ensures
            r == self.levels().len() + 2,
    {
        self.context.len() + 2
    }

    /// Drops the innermost context level, if any.
    pub fn pop_context(&mut self)
        ensures
            final(self).levels() == if old(self).levels().len() > 0 {
                old(self).levels().drop_last()
            } else {
                old(self).levels()
            },
            forall|i: int|
                0 <= i < final(self).levels().len() ==> final(self).level_capacity(i)
                    == old(self).level_capacity(i),
            final(self).local() == old(self).local(),
            final(self).same_frame(old(self)),
            *final(final(self).global_store) == *final(old(self).global_store),
            *final(final(self).local_store) == *final(old(self).local_store),
            final(self).store_view() == old(self).store_view().after_pop(),
    {
        let _ = self.context.pop();
        assert(self.levels() =~= if old(self).levels().len() > 0 {
            old(self).levels().drop_last()
        } else {
            old(self).levels()
        });
        assert(self.store_view().caps =~= old(self).store_view().after_pop().caps);
    }

    /// Opens a new innermost context level holding up to 2048 identifiers.
    pub fn push_context(&mut self)
        ensures
            final(self).levels() == old(self).levels().push(Seq::<Seq<char>>::empty()),
            final(self).level_capacity(old(self).levels().len() as int) == 2048,
            forall|i: int|
                0 <= i < old(self).levels().len() ==> final(self).level_capacity(i)
                    == old(self).level_capacity(i),
            final(self).local() == old(self).local(),
            final(self).same_frame(old(self)),
            *final(final(self).global_store) == *final(old(self).global_store),
            *final(final(self).local_store) == *final(old(self).local_store),
            final(self).store_view() == old(self).store_view().after_push(),
    {
        let lut = ContextLookup::new(2048);
        self.context.push(lut);
        assert(self.levels() =~= old(self).levels().push(Seq::<Seq<char>>::empty()));
        assert(self.store_view().caps =~= old(self).store_view().after_push().caps);
    }

    /// Looks `text` up from the innermost level outwards, then in the file lookup,
    /// then in the global lookup.
    fn get_data(&mut self, text: &str) -> (r: Option<(u32, u32)>)
        ensures
            r == lookup_answer(old(self).levels(), old(self).local(), old(self).global(), text@),
            final(self).levels() == old(self).levels(),
            forall|i: int|
                0 <= i < final(self).levels().len() ==> final(self).level_capacity(i)
                    == old(self).level_capacity(i),
            final(self).local() == old(self).local(),
            final(self).same_frame(old(self)),
            *final(final(self).global_store) == *final(old(self).global_store),
            *final(final(self).local_store) == *final(old(self).local_store),
    {
        let l = self.context.len();
        let mut x: usize = 0;
        assert(self.levels().take(l as int) =~= self.levels());
        while x < l
            invariant
                x <= l,
                l == self.context@.len(),
                self.context@ == old(self).context@,
                self.global_store == old(self).global_store,
                self.local_store == old(self).local_store,
                find_level(self.levels(), text@) == find_level(
                    self.levels().take(l - x),
                    text@,
                ),
            decreases l - x,
        {
            let ghost pre = self.levels().take(l - x);
            assert(pre.last() == self.context@[l - x - 1]@);
            let result = self.context[l - x - 1].table.find(text);
            if result.is_some() {
                proof {
                    lemma_last_index_bounds(pre.last(), text@);
                }
                let j = l - x - 1;
                return Some(((j as u32).wrapping_add(2), result.unwrap() as u32));
            }
            assert(pre.drop_last() =~= self.levels().take(l - x - 1));
            x = x + 1;
        }
        assert(self.levels().take(0) =~= Seq::<Seq<Seq<char>>>::empty());
        proof {
            lemma_last_index_bounds(self.local(), text@);
            lemma_last_index_bounds(self.global(), text@);
        }
        match self.local_store.table.find(text) {
            Some(i) => {
                return Some((1, i as u32));
            },
            None => {},
        }
        match self.global_store.table.find(text) {
            Some(i) => Some((0, i as u32)),
            None => None,
        }
    }

    /// Stores `text` in the innermost context level, answering `(levels + 1, index)`, or
    /// `(0, 0)` when that level is full; with no context level, stores it in the file
    /// lookup, answering `(1, index)` or `(1, 0)` when full.
    pub fn put_local(&mut self, text: &str) -> (r: (u32, u32))
        requires
            old(self).levels().len() < u32::MAX,
        ensures
            old(self).levels().len() > 0 ==> {
                let l = (old(self).levels().len() - 1) as int;
                let top = old(self).levels()[l];
                let cap = old(self).level_capacity(l);
                &&& r == match put_result(top, cap, text@) {
                    Some(x) => ((l + 2) as u32, as_index(x)),
                    None => (0u32, 0u32),
                }
                &&& final(self).levels() == old(self).levels().update(l, put_keys(top, cap, text@))
                &&& final(self).local() == old(self).local()
            },
            old(self).levels().len() == 0 ==> {
                &&& r == match put_result(old(self).local(), old(self).local_capacity(), text@) {
                    Some(x) => (1u32, as_index(x)),
                    None => (1u32, 0u32),
                }
                &&& final(self).levels() == old(self).levels()
                &&& final(self).local() == put_keys(old(self).local(), old(self).local_capacity(), text@)
            },
            forall|i: int|
                0 <= i < final(self).levels().len() ==> final(self).level_capacity(i)
                    == old(self).level_capacity(i),
            final(self).same_frame(old(self)),
            *final(final(self).global_store) == *final(old(self).global_store),
            *final(final(self).local_store) == *final(old(self).local_store),
            r == old(self).store_view().put_answer(text@),
            final(self).store_view() == old(self).store_view().after_put(text@),
    {
        let ghost caps0 = old(self).store_view().caps;
        let r = self.put_local_inner(text);
        assert(self.store_view().caps =~= caps0);
        r
    }

    fn put_local_inner(&mut self, text: &str) -> (r: (u32, u32))
        requires
            old(self).levels().len() < u32::MAX,
        ensures
            old(self).levels().len() > 0 ==> {
                let l = (old(self).levels().len() - 1) as int;
                let top = old(self).levels()[l];
                let cap = old(self).level_capacity(l);
                &&& r == match put_result(top, cap, text@) {
                    Some(x) => ((l + 2) as u32, as_index(x)),
                    None => (0u32, 0u32),
                }
                &&& final(self).levels() == old(self).levels().update(l, put_keys(top, cap, text@))
                &&& final(self).local() == old(self).local()
            },
            old(self).levels().len() == 0 ==> {
                &&& r == match put_result(old(self).local(), old(self).local_capacity(), text@) {
                    Some(x) => (1u32, as_index(x)),
                    None => (1u32, 0u32),
                }
                &&& final(self).levels() == old(self).levels()
                &&& final(self).local() == put_keys(old(self).local(), old(self).local_capacity(), text@)
            },
            forall|i: int|
                0 <= i < final(self).levels().len() ==> final(self).level_capacity(i)
                    == old(self).level_capacity(i),
            final(self).same_frame(old(self)),
            *final(final(self).global_store) == *final(old(self).global_store),
            *final(final(self).local_store) == *final(old(self).local_store),
    {
        if self.context.len() > 0 {
            let l = self.context.len();
            let mut top = self.context.pop().unwrap();
            let put_index = top.put_data(text);
            self.context.push(top);
            assert(self.levels() =~= old(self).levels().update(
                l - 1,
                put_keys(old(self).levels()[l - 1], old(self).level_capacity(l - 1), text@),
            ));
            match put_index {
                Some(x) => (l as u32 + 1, x),
                None => (0, 0),
            }
        } else {
            let put_index = self.local_store.put_data(text);
            match put_index {
                Some(x) => (1, x),
                None => (1, 0),
            }
        }
    }

    /// Looks `text` up; when absent, stores it as `put_local` does.
    pub fn get_or_put_local(&mut self, text: &str) -> (r: (u32, u32))
        requires
            old(self).levels().len() < u32::MAX,
        ensures
            lookup_answer(old(self).levels(), old(self).local(), old(self).global(), text@)
                matches Some(x) ==> {
                &&& r == x
                &&& final(self).levels() == old(self).levels()
                &&& final(self).local() == old(self).local()
            },
            lookup_answer(old(self).levels(), old(self).local(), old(self).global(), text@) is None
                ==> old(self).levels().len() > 0 ==> {
                let l = (old(self).levels().len() - 1) as int;
                let top = old(self).levels()[l];
                let cap = old(self).level_capacity(l);
                &&& r == match put_result(top, cap, text@) {
                    Some(x) => ((l + 2) as u32, as_index(x)),
                    None => (0u32, 0u32),
                }
                &&& final(self).levels() == old(self).levels().update(l, put_keys(top, cap, text@))
                &&& final(self).local() == old(self).local()
            },
            lookup_answer(old(self).levels(), old(self).local(), old(self).global(), text@) is None
                ==> old(self).levels().len() == 0 ==> {
                &&& r == match put_result(old(self).local(), old(self).local_capacity(), text@) {
                    Some(x) => (1u32, as_index(x)),
                    None => (1u32, 0u32),
                }
                &&& final(self).levels() == old(self).levels()
                &&& final(self).local() == put_keys(old(self).local(), old(self).local_capacity(), text@)
            },
            forall|i: int|
                0 <= i < final(self).levels().len() ==> final(self).level_capacity(i)
                    == old(self).level_capacity(i),
            final(self).same_frame(old(self)),
            *final(final(self).global_store) == *final(old(self).global_store),
            *final(final(self).local_store) == *final(old(self).local_store),
            r == old(self).store_view().get_or_put_answer(text@),
            final(self).store_view() == old(self).store_view().after_get_or_put(text@),
    {
        let ghost caps0 = old(self).store_view().caps;
        let result = self.get_data(text);
        assert(self.store_view().caps =~= caps0);
        assert(self.store_view() == old(self).store_view());
        if result.is_some() {
            result.unwrap()
        } else {
            self.put_local(text)
        }
    }

    /// Looks `text` up; when absent, stores it in the file lookup, answering `(1, index)`,
    /// or `(1, 0)` when that lookup is full.
    pub fn get_or_global(&mut self, text: &str) -> (r: (u32, u32))
        ensures
            lookup_answer(old(self).levels(), old(self).local(), old(self).global(), text@)
                matches Some(x) ==> r == x && final(self).local() == old(self).local(),
            lookup_answer(old(self).levels(), old(self).local(), old(self).global(), text@) is None
                ==> {
                &&& r == match put_result(old(self).local(), old(self).local_capacity(), text@) {
                    Some(x) => (1u32, as_index(x)),
                    None => (1u32, 0u32),
                }
                &&& final(self).local() == put_keys(old(self).local(), old(self).local_capacity(), text@)
            },
            final(self).levels() == old(self).levels(),
            forall|i: int|
                0 <= i < final(self).levels().len() ==> final(self).level_capacity(i)
                    == old(self).level_capacity(i),
            final(self).same_frame(old(self)),
            *final(final(self).global_store) == *final(old(self).global_store),
            *final(final(self).local_store) == *final(old(self).local_store),
            r == old(self).store_view().get_or_global_answer(text@),
            final(self).store_view() == old(self).store_view().after_get_or_global(text@),
    {
        let ghost caps0 = old(self).store_view().caps;
        let r = self.get_or_global_inner(text);
        assert(self.store_view().caps =~= caps0);
        r
    }

    fn get_or_global_inner(&mut self, text: &str) -> (r: (u32, u32))
        ensures
            lookup_answer(old(self).levels(), old(self).local(), old(self).global(), text@)
                matches Some(x) ==> r == x && final(self).local() == old(self).local(),
            lookup_answer(old(self).levels(), old(self).local(), old(self).global(), text@) is None
                ==> {
                &&& r == match put_result(old(self).local(), old(self).local_capacity(), text@) {
                    Some(x) => (1u32, as_index(x)),
                    None => (1u32, 0u32),
                }
                &&& final(self).local() == put_keys(old(self).local(), old(self).local_capacity(), text@)
            },
            final(self).levels() == old(self).levels(),
            forall|i: int|
                0 <= i < final(self).levels().len() ==> final(self).level_capacity(i)
                    == old(self).level_capacity(i),
            final(self).same_frame(old(self)),
            *final(final(self).global_store) == *final(old(self).global_store),
            *final(final(self).local_store) == *final(old(self).local_store),
    {
        match self.get_data(text) {
            Some(x) => x,
            None => match self.local_store.put_data(text) {
                Some(s) => (1, s),
                None => (1, 0),
            },
        }
    }
}

} // verus!
