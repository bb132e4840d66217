use vstd::prelude::*;

use super::key_table::{KeyTable, last_index, put_keys, get_index, first_words, first_words_of};

verus! {

/// Table numbering identifiers in order of first appearance, up to a capacity.
pub struct IdentLookup {
    table: KeyTable,
}

impl View for IdentLookup {
    type V = Seq<Seq<char>>;

    closed spec fn view(&self) -> Seq<Seq<char>> {
        self.table@
    }
}

/// Index a lookup with keys `keys` and capacity `cap` gives `k` when asked to store it:
/// the existing index, the next free one, or 0 when full.
pub open spec fn put_index(keys: Seq<Seq<char>>, cap: nat, k: Seq<char>) -> nat {
    if last_index(keys, k) >= 0 {
        last_index(keys, k) as nat
    } else if keys.len() < cap {
        keys.len()
    } else {
        0
    }
}

impl IdentLookup {
    pub closed spec fn capacity(&self) -> nat {
        self.table.capacity()
    }

    /// An empty lookup for up to `s` identifiers.
    pub fn new(s: usize) -> (r: Self)
        ensures
            r@ == Seq::<Seq<char>>::empty(),
            r.capacity() == s,
    {
        IdentLookup { table: KeyTable::new(s) }
    }

    /// A full lookup holding the first word of each line of `contents`, numbered by line;
    /// a word found on several lines answers with its last line.
    pub fn from_text(contents: &str) -> (r: Self)
        ensures
            r@ == first_words(contents@),
            r.capacity() == r@.len(),
    {
        let keys = first_words_of(contents);
        IdentLookup { table: KeyTable::from_keys(keys) }
    }

    /// Returns the index of `data`, storing it under the next index when new and
    /// there is room; a full lookup answers 0 for a new identifier.
    pub fn put_data(&mut self, data: &str) -> (r: usize)
        ensures
            r == put_index(old(self)@, old(self).capacity(), data@),
            final(self)@ == put_keys(old(self)@, old(self).capacity(), data@),
            final(self).capacity() == old(self).capacity(),
    {
        proof {
            super::key_table::lemma_last_index_bounds(self@, data@);
        }
        match self.table.insert(data) {
            Some(x) => x,
            None => 0,
        }
    }

    /// The index of `data`, if stored.
    pub fn get_data(&mut self, data: &str) -> (r: Option<usize>)
        ensures
            r == (match get_index(old(self)@, data@) {
                Some(n) => Some(n as usize),
                None => None,
            }),
            final(self)@ == old(self)@,
            final(self).capacity() == old(self).capacity(),
    {
        self.table.find(data)
    }
}

/// Innermost level of `levels` holding `k`, with the index there.
pub open spec fn find_level(levels: Seq<Seq<Seq<char>>>, k: Seq<char>) -> Option<(nat, nat)>
    decreases levels.len(),
{
    if levels.len() == 0 {
        None
    } else if last_index(levels.last(), k) >= 0 {
        Some(((levels.len() - 1) as nat, last_index(levels.last(), k) as nat))
    } else {
        find_level(levels.drop_last(), k)
    }
}

pub proof fn lemma_find_level_bounds(levels: Seq<Seq<Seq<char>>>, k: Seq<char>)
    ensures
        find_level(levels, k) matches Some((l, i)) ==> l < levels.len() && i < levels[l as int].len(),
    decreases levels.len(),
{
    if levels.len() > 0 {
        super::key_table::lemma_last_index_bounds(levels.last(), k);
        lemma_find_level_bounds(levels.drop_last(), k);
    }
}

/// Scoped identifier store: a stack of context levels over a global lookup.
pub struct ContextStore<'a> {
    pub global_store: &'a mut IdentLookup,
    pub context: Vec<IdentLookup>,
}

/// Level keys of a stack of lookups.
pub open spec fn levels_of(ctx: Seq<IdentLookup>) -> Seq<Seq<Seq<char>>> {
    ctx.map_values(|t: IdentLookup| t@)
}

impl<'a> ContextStore<'a> {
    /// Keys of the global lookup.
    pub open spec fn global(&self) -> Seq<Seq<char>> {
        self.global_store@
    }

    pub open spec fn global_capacity(&self) -> nat {
        self.global_store.capacity()
    }

    /// Keys of each context level, outermost first.
    pub closed spec fn levels(&self) -> Seq<Seq<Seq<char>>> {
        levels_of(self.context@)
    }

    /// Capacity of each context level.
    pub closed spec fn level_capacity(&self, i: int) -> nat {
        self.context@[i].capacity()
    }

    /// A store with no context levels over `global_store`.
    pub fn new(global_store: &'a mut IdentLookup) -> (r: Self)
        ensures
            r.global() == old(global_store)@,
            r.global_capacity() == old(global_store).capacity(),
            r.levels() == Seq::<Seq<Seq<char>>>::empty(),
            *final(r.global_store) == *final(global_store),
    {
        let r = ContextStore { global_store, context: Vec::with_capacity(8) };
        assert(r.levels() =~= Seq::<Seq<Seq<char>>>::empty());
        r
    }

    /// Number of context levels plus two.
    pub fn len(&self) -> (r: usize)
        requires
            self.levels().len() + 2 <= usize::MAX,
        ensures
            r == self.levels().len() + 2,
    {
        self.context.len() + 2
    }

    /// Drops the innermost context level, if any.
    pub fn pop_context(&mut self)
        ensures
            final(self).levels() == if old(self).levels().len() > 0 {
                old(self).levels().drop_last()
            } else {
                old(self).levels()
            },
            forall|i: int|
                0 <= i < final(self).levels().len() ==> final(self).level_capacity(i)
                    == old(self).level_capacity(i),
            final(self).global() == old(self).global(),
            final(self).global_capacity() == old(self).global_capacity(),
            *final(final(self).global_store) == *final(old(self).global_store),
    {
        let _ = self.context.pop();
        assert(self.levels() =~= if old(self).levels().len() > 0 {
            old(self).levels().drop_last()
        } else {
            old(self).levels()
        });
    }

    /// Opens a new innermost context level holding up to 128 identifiers.
    pub fn push_context(&mut self)
        ensures
            final(self).levels() == old(self).levels().push(Seq::<Seq<char>>::empty()),
            final(self).level_capacity(old(self).levels().len() as int) == 128,
            forall|i: int|
                0 <= i < old(self).levels().len() ==> final(self).level_capacity(i)
                    == old(self).level_capacity(i),
            final(self).global() == old(self).global(),
            final(self).global_capacity() == old(self).global_capacity(),
            *final(final(self).global_store) == *final(old(self).global_store),
    {
        let lut = IdentLookup::new(128);
        self.context.push(lut);
        assert(self.levels() =~= old(self).levels().push(Seq::<Seq<char>>::empty()));
    }

    /// Looks `text` up from the innermost level outwards, then in the global lookup
    /// (reported as level 0).
    pub fn get_data(&mut self, text: &str) -> (r: Option<(usize, usize)>)
        ensures
            r == match find_level(old(self).levels(), text@) {
                Some((l, i)) => Some((l as usize, i as usize)),
                None => match get_index(old(self).global(), text@) {
                    Some(i) => Some((0usize, i as usize)),
                    None => None,
                },
            },
            final(self).levels() == old(self).levels(),
            forall|i: int|
                0 <= i < final(self).levels().len() ==> final(self).level_capacity(i)
                    == old(self).level_capacity(i),
            final(self).global() == old(self).global(),
            final(self).global_capacity() == old(self).global_capacity(),
            *final(final(self).global_store) == *final(old(self).global_store),
    {
        let l = self.context.len();
        let mut x: usize = 0;
        assert(self.levels().take(l as int) =~= self.levels());
        while x < l
            invariant
                x <= l,
                l == self.context@.len(),
                self.levels() == old(self).levels(),
                self.context@ == old(self).context@,
                self.global_store == old(self).global_store,
                find_level(self.levels(), text@) == find_level(
                    self.levels().take(l - x),
                    text@,
                ),
            decreases l - x,
        {
            let ghost pre = self.levels().take(l - x);
            assert(pre.last() == self.context@[l - x - 1]@);
            let result = self.context[l - x - 1].table.find(text);
            if result.is_some() {
                return Some((l - x - 1, result.unwrap()));
            }
            assert(pre.drop_last() =~= self.levels().take(l - x - 1));
            x = x + 1;
        }
        assert(self.levels().take(0) =~= Seq::<Seq<Seq<char>>>::empty());
        let glob = self.global_store.table.find(text);
        match glob {
            Some(s) => Some((0, s)),
            None => None,
        }
    }

    /// Stores `text` in the innermost level, or in the global lookup when there is
    /// no level, returning the level and the index.
    pub fn put_local(&mut self, text: &str) -> (r: (usize, usize))
        ensures
            old(self).levels().len() > 0 ==> {
                let l = (old(self).levels().len() - 1) as int;
                &&& r == (l as usize, put_index(old(self).levels()[l], old(self).level_capacity(l), text@) as usize)
                &&& final(self).levels() == old(self).levels().update(l, put_keys(old(self).levels()[l], old(self).level_capacity(l), text@))
                &&& final(self).global() == old(self).global()
            },
            old(self).levels().len() == 0 ==> {
                &&& r == (0usize, put_index(old(self).global(), old(self).global_capacity(), text@) as usize)
                &&& final(self).levels() == old(self).levels()
                &&& final(self).global() == put_keys(old(self).global(), old(self).global_capacity(), text@)
            },
            forall|i: int|
                0 <= i < final(self).levels().len() ==> final(self).level_capacity(i)
                    == old(self).level_capacity(i),
            final(self).global_capacity() == old(self).global_capacity(),
            *final(final(self).global_store) == *final(old(self).global_store),
    {
        if self.context.len() > 0 {
            let l = self.context.len();
            let mut top = self.context.pop().unwrap();
            let x = top.put_data(text);
            self.context.push(top);
            assert(self.levels() =~= old(self).levels().update(l - 1, put_keys(old(self).levels()[l - 1], old(self).level_capacity(l - 1), text@)));
            (l - 1, x)
        } else {
            (0, self.global_store.put_data(text))
        }
    }

    /// Looks `text` up; when absent, stores it in the global lookup (level 0).
    pub fn get_or_global(&mut self, text: &str) -> (r: (usize, usize))
        ensures
            find_level(old(self).levels(), text@) matches Some((l, i)) ==> {
                &&& r == (l as usize, i as usize)
                &&& final(self).global() == old(self).global()
            },
            find_level(old(self).levels(), text@) is None ==> {
                &&& r == (0usize, put_index(old(self).global(), old(self).global_capacity(), text@) as usize)
                &&& final(self).global() == put_keys(old(self).global(), old(self).global_capacity(), text@)
            },
            final(self).levels() == old(self).levels(),
            forall|i: int|
                0 <= i < final(self).levels().len() ==> final(self).level_capacity(i)
                    == old(self).level_capacity(i),
            final(self).global_capacity() == old(self).global_capacity(),
            *final(final(self).global_store) == *final(old(self).global_store),
    {
        match self.get_data(text) {
            Some(x) => x,
            None => (0, self.global_store.put_data(text)),
        }
    }
}

} // verus!
