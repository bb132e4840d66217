use vstd::prelude::*;

use crate::text::{chars_of, string_from_chars};

verus! {

/// Index of the last occurrence of `k` in `keys`, or -1.
pub open spec fn last_index(keys: Seq<Seq<char>>, k: Seq<char>) -> int
    decreases keys.len(),
{
    if keys.len() == 0 {
        -1
    } else if keys.last() == k {
        keys.len() - 1
    } else {
        last_index(keys.drop_last(), k)
    }
}

pub proof fn lemma_last_index_bounds(keys: Seq<Seq<char>>, k: Seq<char>)
    ensures
        -1 <= last_index(keys, k) < keys.len(),
        last_index(keys, k) >= 0 ==> keys[last_index(keys, k)] == k,
        last_index(keys, k) == -1 <==> !keys.contains(k),
    decreases keys.len(),
{
    if keys.len() > 0 {
        lemma_last_index_bounds(keys.drop_last(), k);
        if keys.last() != k {
            if keys.contains(k) {
                let i = choose|i: int| 0 <= i < keys.len() && keys[i] == k;
                assert(keys.drop_last()[i] == k);
            }
            if keys.drop_last().contains(k) {
                let i = choose|i: int| 0 <= i < keys.len() - 1 && keys.drop_last()[i] == k;
                assert(keys[i] == k);
            }
        }
    }
}

pub proof fn lemma_last_index_push(keys: Seq<Seq<char>>, k: Seq<char>, j: Seq<char>)
    ensures
        last_index(keys.push(j), k) == if j == k {
            keys.len() as int
        } else {
            last_index(keys, k)
        },
{
    assert(keys.push(j).drop_last() =~= keys);
}

/// Keys after storing `k`.
pub open spec fn put_keys(keys: Seq<Seq<char>>, cap: nat, k: Seq<char>) -> Seq<Seq<char>> {
    if last_index(keys, k) < 0 && keys.len() < cap {
        keys.push(k)
    } else {
        keys
    }
}

/// Result of looking `k` up.
pub open spec fn get_index(keys: Seq<Seq<char>>, k: Seq<char>) -> Option<nat> {
    if last_index(keys, k) >= 0 {
        Some(last_index(keys, k) as nat)
    } else {
        None
    }
}

/// Index a table with keys `keys` and capacity `cap` answers when asked to store `k`:
/// the existing index, the next free one, or none when full.
pub open spec fn put_result(keys: Seq<Seq<char>>, cap: nat, k: Seq<char>) -> Option<nat> {
    if last_index(keys, k) >= 0 {
        Some(last_index(keys, k) as nat)
    } else if keys.len() < cap {
        Some(keys.len())
    } else {
        None
    }
}

/// Storing a key and then looking it up finds it under the index the store answered.
pub proof fn lemma_put_then_get(keys: Seq<Seq<char>>, cap: nat, k: Seq<char>)
    ensures
        put_result(keys, cap, k) matches Some(n) ==> get_index(put_keys(keys, cap, k), k) == Some(n),
        put_result(keys, cap, k) is None ==> put_keys(keys, cap, k) == keys,
{
    lemma_last_index_push(keys, k, k);
}

/// Storing a key a second time changes nothing and answers the same index.
pub proof fn lemma_put_idempotent(keys: Seq<Seq<char>>, cap: nat, k: Seq<char>)
    ensures
        put_keys(put_keys(keys, cap, k), cap, k) == put_keys(keys, cap, k),
        put_result(put_keys(keys, cap, k), cap, k) == put_result(keys, cap, k),
{
    lemma_last_index_push(keys, k, k);
}

/// Storing a key leaves every other key where it was found.
pub proof fn lemma_put_keeps_others(keys: Seq<Seq<char>>, cap: nat, k: Seq<char>, j: Seq<char>)
    requires
        j != k,
    ensures
        get_index(put_keys(keys, cap, k), j) == get_index(keys, j),
{
    lemma_last_index_push(keys, j, k);
}

/// A table within its capacity stays within it, and grows by at most one key.
pub proof fn lemma_put_within_capacity(keys: Seq<Seq<char>>, cap: nat, k: Seq<char>)
    requires
        keys.len() <= cap,
    ensures
        put_keys(keys, cap, k).len() <= cap,
        put_keys(keys, cap, k).len() <= keys.len() + 1,
{
}

/// The keys of a table, as character sequences.
pub open spec fn keys_view(keys: Seq<String>) -> Seq<Seq<char>> {
    keys.map_values(|k: String| k@)
}

/// A table that numbers strings in the order they are first added, up to a capacity.
/// A key is found under the index of its last occurrence.
pub struct KeyTable {
    keys: Vec<String>,
    size: usize,
}

impl View for KeyTable {
    type V = Seq<Seq<char>>;

    closed spec fn view(&self) -> Seq<Seq<char>> {
        keys_view(self.keys@)
    }
}

impl KeyTable {
    #[verifier::type_invariant]
    closed spec fn inv(&self) -> bool {
        self.keys.len() <= self.size
    }

    /// The capacity of the table.
    pub closed spec fn capacity(&self) -> nat {
        self.size as nat
    }

    /// The index under which `k` is found, -1 when absent.
    pub open spec fn index_of(&self, k: Seq<char>) -> int {
        last_index(self@, k)
    }

    /// An empty table for up to `s` keys.
    pub fn new(s: usize) -> (r: Self)
        ensures
            r@ == Seq::<Seq<char>>::empty(),
            r.capacity() == s,
    {
        KeyTable { keys: Vec::new(), size: s }
    }

    /// A full table holding `keys` in order: its capacity is its length.
    pub fn from_keys(keys: Vec<String>) -> (r: Self)
        ensures
            r@ == keys_view(keys@),
            r.capacity() == keys@.len(),
    {
        let size = keys.len();
        KeyTable { keys, size }
    }

    /// Number of keys in the table.
    pub fn len(&self) -> (r: usize)
        ensures
            r == self@.len(),
    {
        self.keys.len()
    }

    /// Capacity of the table.
    pub fn size(&self) -> (r: usize)
        ensures
            r == self.capacity(),
    {
        self.size
    }

    /// The index of the last occurrence of `data`, if any.
    pub fn find(&self, data: &str) -> (r: Option<usize>)
        ensures
            self.index_of(data@) >= 0 ==> (r matches Some(x) && x == self.index_of(data@)),
            self.index_of(data@) < 0 ==> r is None,
            r matches Some(x) ==> x < self.capacity(),
    {
        proof {
            use_type_invariant(self);
        }
        let d = data.to_owned();
        let mut j = self.keys.len();
        assert(self@.take(j as int) =~= self@);
        while j > 0
            invariant
                j <= self.keys.len(),
                self.keys.len() <= self.size,
                d@ == data@,
                last_index(self@, data@) == last_index(self@.take(j as int), data@),
            decreases j,
        {
            let ghost prefix = self@.take(j as int);
            assert(prefix.last() == self.keys@[j - 1]@);
            if self.keys[j - 1] == d {
                return Some(j - 1);
            }
            assert(prefix.drop_last() =~= self@.take(j - 1));
            j = j - 1;
        }
        assert(self@.take(0) =~= Seq::<Seq<char>>::empty());
        None
    }

    /// Finds `data`, or adds it under the next index when there is room.
    pub fn insert(&mut self, data: &str) -> (r: Option<usize>)
        ensures
            final(self).capacity() == old(self).capacity(),
            old(self).index_of(data@) >= 0 ==> {
                &&& r matches Some(x) && x == old(self).index_of(data@)
                &&& final(self)@ == old(self)@
            },
            old(self).index_of(data@) < 0 && old(self)@.len() < old(self).capacity() ==> {
                &&& r matches Some(x) && x == old(self)@.len()
                &&& final(self)@ == old(self)@.push(data@)
            },
            old(self).index_of(data@) < 0 && old(self)@.len() >= old(self).capacity() ==> {
                &&& r is None
                &&& final(self)@ == old(self)@
            },
            r matches Some(x) ==> x < old(self).capacity(),
    {
        proof {
            use_type_invariant(&*self);
        }
        match self.find(data) {
            Some(x) => Some(x),
            None => {
                if self.keys.len() < self.size {
                    let n = self.keys.len();
                    let mut keys: Vec<String> = Vec::new();
                    std::mem::swap(&mut keys, &mut self.keys);
                    keys.push(data.to_owned());
                    self.keys = keys;
                    assert(self@ =~= old(self)@.push(data@));
                    Some(n)
                } else {
                    None
                }
            },
        }
    }
}

/// The pieces of `s` between newline characters (a text ending in a newline has an empty last piece).
pub open spec fn split_newlines(s: Seq<char>) -> Seq<Seq<char>>
    decreases s.len(),
{
    if s.len() == 0 {
        seq![Seq::<char>::empty()]
    } else {
        let rest = split_newlines(s.drop_last());
        if s.last() == '\n' {
            rest.push(Seq::<char>::empty())
        } else {
            rest.update(rest.len() - 1, rest.last().push(s.last()))
        }
    }
}

pub proof fn lemma_split_newlines_nonempty(s: Seq<char>)
    ensures
        split_newlines(s).len() >= 1,
    decreases s.len(),
{
    if s.len() > 0 {
        lemma_split_newlines_nonempty(s.drop_last());
    }
}

/// The characters of `line` before its first space.
pub open spec fn first_word(line: Seq<char>) -> Seq<char>
    decreases line.len(),
{
    if line.len() == 0 || line[0] == ' ' {
        Seq::<char>::empty()
    } else {
        seq![line[0]] + first_word(line.drop_first())
    }
}

/// The first word of each line of a text: the table contents read from an identifier list.
pub open spec fn first_words(s: Seq<char>) -> Seq<Seq<char>> {
    split_newlines(s).map_values(|l: Seq<char>| first_word(l))
}

proof fn lemma_contains_push(line: Seq<char>, x: char, c: char)
    ensures
        line.push(x).contains(c) == (line.contains(c) || x == c),
{
    if line.push(x).contains(c) && !line.contains(c) {
        let m = choose|m: int| 0 <= m < line.len() + 1 && line.push(x)[m] == c;
        if m < line.len() {
            assert(line[m] == c);
        }
    }
    if line.contains(c) {
        let m = choose|m: int| 0 <= m < line.len() && line[m] == c;
        assert(line.push(x)[m] == c);
    }
    if x == c {
        assert(line.push(x)[line.len() as int] == c);
    }
}

proof fn lemma_first_word_no_space(line: Seq<char>)
    requires
        !line.contains(' '),
    ensures
        first_word(line) == line,
    decreases line.len(),
{
    if line.len() > 0 {
        assert(line[0] != ' ');
        let df = line.drop_first();
        assert(!df.contains(' ')) by {
            if df.contains(' ') {
                let i = choose|i: int| 0 <= i < df.len() && df[i] == ' ';
                assert(line[i + 1] == ' ');
            }
        }
        lemma_first_word_no_space(df);
        assert(seq![line[0]] + df =~= line);
    }
}

proof fn lemma_first_word_push(line: Seq<char>, c: char)
    ensures
        first_word(line.push(c)) == if line.contains(' ') {
            first_word(line)
        } else if c == ' ' {
            line
        } else {
            line.push(c)
        },
    decreases line.len(),
{
    let l2 = line.push(c);
    if line.len() == 0 {
        assert(l2.drop_first() =~= Seq::<char>::empty());
        assert(l2[0] == c);
        assert(!line.contains(' '));
        if c != ' ' {
            assert(first_word(l2) == seq![c] + first_word(Seq::<char>::empty()));
            assert(seq![c] + Seq::<char>::empty() =~= l2);
        } else {
            assert(first_word(l2) == Seq::<char>::empty());
            assert(line =~= Seq::<char>::empty());
        }
    } else {
        let df = line.drop_first();
        assert(l2[0] == line[0]);
        assert(l2.drop_first() =~= df.push(c));
        lemma_first_word_push(df, c);
        if line[0] == ' ' {
            assert(line.contains(' ')) by {
                assert(line[0] == ' ');
            }
            assert(first_word(l2) == Seq::<char>::empty());
            assert(first_word(line) == Seq::<char>::empty());
        } else {
            assert(line.contains(' ') == df.contains(' ')) by {
                if line.contains(' ') {
                    let i = choose|i: int| 0 <= i < line.len() && line[i] == ' ';
                    assert(df[i - 1] == ' ');
                }
                if df.contains(' ') {
                    let i = choose|i: int| 0 <= i < line.len() - 1 && df[i] == ' ';
                    assert(line[i + 1] == ' ');
                }
            }
            assert(first_word(l2) == seq![line[0]] + first_word(df.push(c)));
            assert(first_word(line) == seq![line[0]] + first_word(df));
            assert(seq![line[0]] + df =~= line);
            assert(seq![line[0]] + df.push(c) =~= line.push(c));
        }
    }
}

/// The first word of each line of `contents`, as strings.
pub fn first_words_of(contents: &str) -> (r: Vec<String>)
    ensures
        keys_view(r@) == first_words(contents@),
{
    let s = chars_of(contents);
    let mut out: Vec<String> = Vec::new();
    let mut start: usize = 0;
    let mut word_end: usize = 0;
    let mut seen_space = false;
    let mut i: usize = 0;
    proof {
        assert(s@.take(0) =~= Seq::<char>::empty());
    }
    while i < s.len()
        invariant
            i <= s.len(),
            start <= word_end <= i,
            s@ == contents@,
            split_newlines(s@.take(i as int)).len() == out@.len() + 1,
            forall|m: int|
                0 <= m < out@.len() ==> #[trigger] out@[m]@ == first_word(
                    split_newlines(s@.take(i as int))[m],
                ),
            split_newlines(s@.take(i as int)).last() == s@.subrange(start as int, i as int),
            seen_space == s@.subrange(start as int, i as int).contains(' '),
            first_word(s@.subrange(start as int, i as int)) == s@.subrange(
                start as int,
                word_end as int,
            ),
        decreases s.len() - i,
    {
        let ghost cur = s@.subrange(start as int, i as int);
        let ghost pre = split_newlines(s@.take(i as int));
        assert(s@.take(i + 1).drop_last() =~= s@.take(i as int));
        assert(s@.take(i + 1).last() == s@[i as int]);
        proof {
            lemma_split_newlines_nonempty(s@.take(i as int));
        }
        if s[i] == '\n' {
            out.push(string_from_chars(&s, start, word_end));
            start = i + 1;
            word_end = i + 1;
            seen_space = false;
            assert(s@.subrange(start as int, (i + 1) as int) =~= Seq::<char>::empty());
        } else {
            proof {
                lemma_first_word_push(cur, s@[i as int]);
                lemma_contains_push(cur, s@[i as int], ' ');
                if !seen_space {
                    lemma_first_word_no_space(cur);
                    assert(word_end == i) by {
                        assert(s@.subrange(start as int, word_end as int).len() == cur.len());
                    }
                }
            }
            assert(s@.subrange(start as int, (i + 1) as int) =~= cur.push(s@[i as int]));
            if !seen_space {
                if s[i] == ' ' {
                    seen_space = true;
                } else {
                    word_end = i + 1;
                }
            }
        }
        i = i + 1;
    }
    out.push(string_from_chars(&s, start, word_end));
    assert(s@.take(i as int) =~= s@);
    proof {
        lemma_split_newlines_nonempty(s@);
    }
    assert(keys_view(out@) =~= first_words(contents@));
    out
}

} // verus!
