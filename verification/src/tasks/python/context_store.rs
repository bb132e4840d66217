use vstd::prelude::*;

use super::key_table::{KeyTable, first_words, first_words_of, put_keys, put_result, get_index, lemma_last_index_bounds};
use super::ident_store::{find_level, lemma_find_level_bounds};
use super::context_map::{as_index, opt_index};

verus! {

/// The id an identifier gets when no context holds it (the id of `Token::Ident`).
pub const IDENT_ID: u32 = 147;

/// A set of identifiers that all answer with the same id.
pub struct ContextSet {
    items: Vec<String>,
    pub id: u32,
}

impl View for ContextSet {
    type V = Set<Seq<char>>;

    closed spec fn view(&self) -> Set<Seq<char>> {
        self.items@.map_values(|k: String| k@).to_set()
    }
}

impl ContextSet {
    /// The id the set answers with.
    pub closed spec fn answer_id(&self) -> u32 {
        self.id
    }

    /// An empty set answering with `id`.
    pub fn new(id: u32) -> (r: Self)
        ensures
            r@ == Set::<Seq<char>>::empty(),
            r.answer_id() == id,
    {
        let r = ContextSet { items: Vec::new(), id };
        assert(r@ =~= Set::<Seq<char>>::empty());
        r
    }

    /// Adds `item` to the set.
    pub fn insert(&mut self, item: String)
        ensures
            final(self)@ == old(self)@.insert(item@),
            final(self).answer_id() == old(self).answer_id(),
    {
        let ghost k = item@;
        self.items.push(item);
        assert(self.items@.map_values(|k: String| k@) =~= old(self).items@.map_values(
            |k: String| k@,
        ).push(k));
        assert(self@ =~= old(self)@.insert(k)) by {
            let s0 = old(self).items@.map_values(|k: String| k@);
            assert forall|x: Seq<char>| self@.contains(x) <==> old(self)@.insert(k).contains(x) by {
                if s0.push(k).contains(x) && x != k {
                    let i = choose|i: int| 0 <= i < s0.len() + 1 && s0.push(k)[i] == x;
                    assert(s0[i] == x);
                }
                if s0.contains(x) {
                    let i = choose|i: int| 0 <= i < s0.len() && s0[i] == x;
                    assert(s0.push(k)[i] == x);
                }
                if x == k {
                    assert(s0.push(k)[s0.len() as int] == x);
                }
            }
        }
    }

    /// `Some(id)` when `data` is in the set.
    pub fn get_data(&self, data: &String) -> (r: Option<u32>)
        ensures
            r == if self@.contains(data@) {
                Some(self.answer_id())
            } else {
                None::<u32>
            },
    {
        let ghost s = self.items@.map_values(|k: String| k@);
        let mut i: usize = 0;
        while i < self.items.len()
            invariant
                i <= self.items.len(),
                s == self.items@.map_values(|k: String| k@),
                forall|m: int| 0 <= m < i ==> s[m] != data@,
            decreases self.items.len() - i,
        {
            if self.items[i] == *data {
                assert(s[i as int] == data@);
                return Some(self.id);
            }
            i = i + 1;
        }
        assert(!s.contains(data@));
        None
    }
}

/// A numbering of identifiers within one context level.
pub struct ContextMap {
    table: KeyTable,
}

impl View for ContextMap {
    type V = Seq<Seq<char>>;

    closed spec fn view(&self) -> Seq<Seq<char>> {
        self.table@
    }
}

impl ContextMap {
    pub closed spec fn capacity(&self) -> nat {
        self.table.capacity()
    }

    /// An empty map for up to `s` identifiers.
    pub fn new(s: usize) -> (r: Self)
        ensures
            r@ == Seq::<Seq<char>>::empty(),
            r.capacity() == s,
    {
        ContextMap { table: KeyTable::new(s) }
    }

    /// A full map holding the first word of each line of `contents`, numbered by line.
    pub fn from_text(contents: &str) -> (r: Self)
        ensures
            r@ == first_words(contents@),
            r.capacity() == r@.len(),
    {
        let keys = first_words_of(contents);
        ContextMap { table: KeyTable::from_keys(keys) }
    }

    /// Returns the index of `data`, storing it under the next index when new and
    /// there is room; `None` when it is new and the map is full.
    pub fn put_data(&mut self, data: &str) -> (r: Option<u32>)
        ensures
            r == opt_index(put_result(old(self)@, old(self).capacity(), data@)),
            put_result(old(self)@, old(self).capacity(), data@) matches Some(n) ==> n < old(self).capacity(),
            final(self)@ == put_keys(old(self)@, old(self).capacity(), data@),
            final(self).capacity() == old(self).capacity(),
    {
        proof {
            lemma_last_index_bounds(self@, data@);
        }
        match self.table.insert(data) {
            Some(x) => Some(x as u32),
            None => None,
        }
    }

    /// The index of `data`, if stored.
    pub fn get_data(&self, data: &str) -> (r: Option<u32>)
        ensures
            r == opt_index(get_index(self@, data@)),
            get_index(self@, data@) matches Some(n) ==> n < self.capacity(),
    {
        proof {
            lemma_last_index_bounds(self@, data@);
        }
        match self.table.find(data) {
            Some(x) => Some(x as u32),
            None => None,
        }
    }
}

/// Level keys of a stack of maps.
pub open spec fn map_levels(ctx: Seq<ContextMap>) -> Seq<Seq<Seq<char>>> {
    ctx.map_values(|t: ContextMap| t@)
}

/// Id of index `x` of level `j`: the levels occupy consecutive blocks of `size` ids
/// starting at `offset`.
pub open spec fn location(j: nat, x: nat, size: nat, offset: nat) -> int {
    (j * size + offset + x) as int
}

/// Abstract state of a `ContextStore`.
pub struct StoreModel {
    /// Imported names.
    pub imports: Set<Seq<char>>,
    /// Id answered for an imported name.
    pub import_id: u32,
    /// Keys of each level, outermost first.
    pub levels: Seq<Seq<Seq<char>>>,
    /// First id of the outermost level.
    pub offset: nat,
    /// Number of ids of each level.
    pub size: nat,
}

impl StoreModel {
    /// All ids of all levels fit in a `u32`.
    pub open spec fn fits(self) -> bool {
        self.offset + self.levels.len() * self.size <= u32::MAX
    }

    /// The same store with levels `levels`.
    pub open spec fn with_levels(self, levels: Seq<Seq<Seq<char>>>) -> StoreModel {
        StoreModel { levels, ..self }
    }

    /// The id of `k`: its position in the innermost level holding it, else the import id
    /// when imported, else none.
    pub open spec fn answer(self, k: Seq<char>) -> Option<u32> {
        match find_level(self.levels, k) {
            Some((j, x)) => Some(location(j, x, self.size, self.offset) as u32),
            None => if self.imports.contains(k) {
                Some(self.import_id)
            } else {
                None
            },
        }
    }

    /// The id `put_local(k, level)` answers.
    pub open spec fn put_answer(self, k: Seq<char>, level: nat) -> u32 {
        let t = self.levels.len() - level - 1;
        if t >= 0 {
            match put_result(self.levels[t], self.size, k) {
                Some(x) => location(t as nat, x, self.size, self.offset) as u32,
                None => IDENT_ID,
            }
        } else {
            IDENT_ID
        }
    }

    /// The store after `put_local(k, level)`.
    pub open spec fn put_local(self, k: Seq<char>, level: nat) -> StoreModel {
        let t = self.levels.len() - level - 1;
        if t >= 0 {
            self.with_levels(self.levels.update(t, put_keys(self.levels[t], self.size, k)))
        } else {
            self
        }
    }

    /// The id `get_or_put_local(k, level)` answers.
    pub open spec fn get_or_put_answer(self, k: Seq<char>, level: nat) -> u32 {
        match self.answer(k) {
            Some(x) => x,
            None => self.put_answer(k, level),
        }
    }

    /// The store after `get_or_put_local(k, level)`.
    pub open spec fn get_or_put(self, k: Seq<char>, level: nat) -> StoreModel {
        match self.answer(k) {
            Some(x) => self,
            None => self.put_local(k, level),
        }
    }

    /// The id `read_only(k)` answers.
    pub open spec fn read_answer(self, k: Seq<char>) -> u32 {
        match self.answer(k) {
            Some(x) => x,
            None => IDENT_ID,
        }
    }

    /// The id `put_data(k, write, level)` answers.
    pub open spec fn put_data_answer(self, k: Seq<char>, write: bool, level: nat) -> u32 {
        if write {
            self.get_or_put_answer(k, level)
        } else {
            self.read_answer(k)
        }
    }

    /// The store after `put_data(k, write, level)`.
    pub open spec fn put_data(self, k: Seq<char>, write: bool, level: nat) -> StoreModel {
        if write {
            self.get_or_put(k, level)
        } else {
            self
        }
    }
}

impl StoreModel {
    /// The store after `push_context`.
    pub open spec fn pushed(self) -> StoreModel {
        self.with_levels(self.levels.push(Seq::empty()))
    }

    /// The store after `pop_context`.
    pub open spec fn popped(self) -> StoreModel {
        self.with_levels(if self.levels.len() > 0 { self.levels.drop_last() } else { self.levels })
    }
}

/// The store after `put_local(k, 0)` for each name `k` of `names` in turn.
pub open spec fn put_all(m: StoreModel, names: Seq<Seq<char>>) -> StoreModel
    decreases names.len(),
{
    if names.len() == 0 {
        m
    } else {
        put_all(m, names.drop_last()).put_local(names.last(), 0)
    }
}

proof fn lemma_put_all_keeps(m: StoreModel, names: Seq<Seq<char>>)
    ensures
        put_all(m.pushed(), names).levels.len() == m.levels.len() + 1,
        put_all(m.pushed(), names).levels.drop_last() == m.levels,
        put_all(m.pushed(), names).with_levels(m.levels) == m,
    decreases names.len(),
{
    if names.len() == 0 {
        assert(m.pushed().levels.drop_last() =~= m.levels);
    } else {
        lemma_put_all_keeps(m, names.drop_last());
        let t = put_all(m.pushed(), names.drop_last());
        let u = t.put_local(names.last(), 0);
        assert(u.levels.drop_last() =~= t.levels.drop_last());
    }
}

/// Dropping a level removes only the innermost one, and none when there is none: the store
/// keeps every other level, and `len()` goes down by one while there is a level to drop.
pub proof fn law_pop(m: StoreModel)
    ensures
        m.popped().levels.len() == if m.levels.len() > 0 { m.levels.len() - 1 } else { 0 },
        forall|i: int| 0 <= i < m.popped().levels.len() ==> m.popped().levels[i] == m.levels[i],
        m.popped().imports == m.imports,
        m.popped().offset == m.offset,
        m.popped().size == m.size,
{
}

/// Opening a level, storing names in it with `put_local(k, 0)`, and dropping it gives back
/// the store as it was: the outer levels are unchanged, and so is every later answer of
/// `read_only`, `get_or_put_local` and `put_local`.
pub proof fn law_scope_unchanged(m: StoreModel, names: Seq<Seq<char>>)
    ensures
        put_all(m.pushed(), names).popped() == m,
        forall|k: Seq<char>| #[trigger] put_all(m.pushed(), names).popped().read_answer(k) == m.read_answer(k),
        forall|k: Seq<char>, level: nat| #[trigger] put_all(m.pushed(), names).popped().get_or_put_answer(k, level) == m.get_or_put_answer(k, level),
        forall|k: Seq<char>, level: nat| #[trigger] put_all(m.pushed(), names).popped().put_answer(k, level) == m.put_answer(k, level),
{
    lemma_put_all_keeps(m, names);
}

/// Scoped identifier store: a stack of context levels over a set of imported names.
pub struct ContextStore {
    import_context: ContextSet,
    context: Vec<ContextMap>,
    local_offset: usize,
    local_size: usize,
}

impl ContextStore {
    /// The abstract state of the store.
    pub closed spec fn model(&self) -> StoreModel {
        StoreModel {
            imports: self.import_context@,
            import_id: self.import_context.id,
            levels: map_levels(self.context@),
            offset: self.local_offset as nat,
            size: self.local_size as nat,
        }
    }

    pub open spec fn levels(&self) -> Seq<Seq<Seq<char>>> {
        self.model().levels
    }

    pub open spec fn size(&self) -> nat {
        self.model().size
    }

    pub open spec fn offset(&self) -> nat {
        self.model().offset
    }

    /// Every level holds up to `size` identifiers.
    pub closed spec fn wf(&self) -> bool {
        forall|i: int| 0 <= i < self.context@.len() ==> #[trigger] self.context@[i].capacity() == self.local_size
    }

    /// A store with one level of `local_size` identifiers whose ids start at `local_offset`.
    pub fn new(import_context: ContextSet, local_offset: usize, local_size: usize) -> (r: Self)
        ensures
            r.wf(),
            r.model() == (StoreModel {
                imports: import_context@,
                import_id: import_context.answer_id(),
                levels: seq![Seq::<Seq<char>>::empty()],
                offset: local_offset as nat,
                size: local_size as nat,
            }),
    {
        let r = ContextStore {
            import_context,
            context: vec![ContextMap::new(local_size)],
            local_offset,
            local_size,
        };
        assert(r.levels() =~= seq![Seq::<Seq<char>>::empty()]);
        r
    }

    /// Number of levels plus two.
    pub fn len(&self) -> (r: usize)
        requires
            self.levels().len() + 2 <= usize::MAX,
        ensures
            r == self.levels().len() + 2,
    {
        self.context.len() + 2
    }

    /// Drops the innermost level, if any.
    pub fn pop_context(&mut self)
        requires
            old(self).wf(),
        ensures
            final(self).wf(),
            final(self).model() == old(self).model().popped(),
    {
        let _ = self.context.pop();
        assert(self.levels() =~= if old(self).levels().len() > 0 {
            old(self).levels().drop_last()
        } else {
            old(self).levels()
        });
    }

    /// Opens a new empty innermost level.
    pub fn push_context(&mut self)
        requires
            old(self).wf(),
        ensures
            final(self).wf(),
            final(self).model() == old(self).model().pushed(),
    {
        let lut = ContextMap::new(self.local_size);
        self.context.push(lut);
        assert(self.levels() =~= old(self).levels().push(Seq::<Seq<char>>::empty()));
    }

    proof fn lemma_location_fits(&self, j: nat, x: nat)
        requires
            self.model().fits(),
            j < self.levels().len(),
            x < self.size(),
        ensures
            location(j, x, self.size(), self.offset()) <= u32::MAX,
            j * self.size() + self.offset() <= u32::MAX,
            self.size() <= u32::MAX,
    {
        let n = self.levels().len();
        let s = self.size();
        assert(j * s + s <= n * s) by (nonlinear_arith)
            requires
                j < n,
        ;
    }

    /// The id of `text`, if the store knows it.
    fn get_data(&mut self, text: &str) -> (r: Option<u32>)
        requires
            old(self).wf(),
            old(self).model().fits(),
        ensures
            r == old(self).model().answer(text@),
            *final(self) == *old(self),
    {
        let l = self.context.len();
        let mut x: usize = 0;
        assert(self.levels().take(l as int) =~= self.levels());
        while x < l
            invariant
                x <= l,
                l == self.context@.len(),
                self.wf(),
                self.model().fits(),
                *self == *old(self),
                find_level(self.levels(), text@) == find_level(self.levels().take(l - x), text@),
            decreases l - x,
        {
            let ghost pre = self.levels().take(l - x);
            assert(pre.last() == self.context@[l - x - 1]@);
            let result = self.context[l - x - 1].get_data(text);
            if result.is_some() {
                let j = l - x - 1;
                proof {
                    lemma_last_index_bounds(pre.last(), text@);
                    assert(self.context@[j as int].capacity() == self.local_size);
                    let li = super::key_table::last_index(pre.last(), text@);
                    assert(li < self.local_size);
                    self.lemma_location_fits(j as nat, li as nat);
                    assert(result.unwrap() as int == li);
                }
                let location = (j * self.local_size + self.local_offset) as u32 + result.unwrap();
                return Some(location);
            }
            assert(pre.drop_last() =~= self.levels().take(l - x - 1));
            x = x + 1;
        }
        assert(self.levels().take(0) =~= Seq::<Seq<Seq<char>>>::empty());
        self.import_context.get_data(&text.to_owned())
    }

    /// Stores `text` in the level `level` steps out from the innermost one and
    /// returns its id; `Token::Ident`'s id when that level is full or does not exist.
    pub fn put_local(&mut self, text: &str, level: usize) -> (r: u32)
        requires
            old(self).wf(),
            old(self).model().fits(),
            level <= old(self).levels().len(),
        ensures
            r == old(self).model().put_answer(text@, level as nat),
            final(self).model() == old(self).model().put_local(text@, level as nat),
            final(self).wf(),
    {
        let l = self.context.len();
        if l - level >= 1 {
            let t = l - level - 1;
            let mut m = self.context.remove(t);
            let result = m.put_data(text);
            proof {
                lemma_last_index_bounds(old(self).levels()[t as int], text@);
            }
            self.context.insert(t, m);
            assert(self.levels() =~= old(self).levels().update(
                t as int,
                put_keys(old(self).levels()[t as int], old(self).size(), text@),
            ));
            assert(self.wf()) by {
                assert forall|i: int| 0 <= i < self.context@.len() implies #[trigger] self.context@[i].capacity() == self.local_size by {
                    if i != t {
                        assert(self.context@[i] == old(self).context@[i]);
                    }
                }
            }
            match result {
                Some(x) => {
                    proof {
                        let n = put_result(old(self).levels()[t as int], self.size(), text@)->0;
                        assert(n < self.size());
                        old(self).lemma_location_fits(t as nat, n);
                    }
                    (t * self.local_size + self.local_offset) as u32 + x
                },
                None => IDENT_ID,
            }
        } else {
            IDENT_ID
        }
    }

    /// The id of `text`, storing it as `put_local` does when the store does not know it.
    pub fn get_or_put_local(&mut self, text: &str, level: usize) -> (r: u32)
        requires
            old(self).wf(),
            old(self).model().fits(),
            level <= old(self).levels().len(),
        ensures
            r == old(self).model().get_or_put_answer(text@, level as nat),
            final(self).model() == old(self).model().get_or_put(text@, level as nat),
            final(self).wf(),
    {
        let result = self.get_data(text);
        if result.is_some() {
            result.unwrap()
        } else {
            self.put_local(text, level)
        }
    }

    /// The id of `text`, or `Token::Ident`'s id when the store does not know it.
    pub fn read_only(&mut self, text: &str) -> (r: u32)
        requires
            old(self).wf(),
            old(self).model().fits(),
        ensures
            r == old(self).model().read_answer(text@),
            *final(self) == *old(self),
    {
        let result = self.get_data(text);
        if result.is_some() {
            result.unwrap()
        } else {
            IDENT_ID
        }
    }

    /// For a written name (`write`), `get_or_put_local`; for a read one, `read_only`.
    pub fn put_data(&mut self, text: &str, write: bool, level: usize) -> (r: u32)
        requires
            old(self).wf(),
            old(self).model().fits(),
            write ==> level <= old(self).levels().len(),
        ensures
            r == old(self).model().put_data_answer(text@, write, level as nat),
            final(self).model() == old(self).model().put_data(text@, write, level as nat),
            final(self).wf(),
    {
        if write {
            self.get_or_put_local(text, level)
        } else {
            self.read_only(text)
        }
    }
}

} // verus!
