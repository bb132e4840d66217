use vstd::prelude::*;

use vstd::multiset::Multiset;
use counter::Counter;

use super::python_tokenizer::Token;
use super::lexer::{Lexeme, lex, lex_spec, lemma_lex_tiles, tiles_from};
use super::python_parser::lexeme_text;
use crate::text::{chars_of, string_from_chars};
use crate::tokenizer::tokenizer_data::TokenizedData;

verus! {

#[verifier::external_type_specification]
#[verifier::external_body]
#[verifier::reject_recursive_types(T)]
#[verifier::reject_recursive_types(N)]
pub struct ExCounter<T: core::hash::Hash + Eq, N>(Counter<T, N>);

/// The strings counted by a counter, each as often as its count.
pub uninterp spec fn counter_items(c: Counter<String, usize>) -> Multiset<Seq<char>>;

/// `Counter::new`: a counter holding nothing.
#[verifier::external_body]
pub(crate) fn counter_new() -> (r: Counter<String, usize>)
    ensures
        counter_items(r) == Multiset::<Seq<char>>::empty(),
{
    Counter::new()
}

/// The strings of `items` as a multiset.
pub open spec fn strings_multiset(items: Seq<String>) -> Multiset<Seq<char>> {
    items.map_values(|s: String| s@).to_multiset()
}

/// `Counter` `+=` (which calls `Counter::update`): each string of `items` is counted once
/// more.
#[verifier::external_body]
fn counter_add(c: &mut Counter<String, usize>, items: Vec<String>)
    requires
        counter_items(*old(c)).len() + items@.len() <= usize::MAX,
    ensures
        counter_items(*final(c)) == counter_items(*old(c)).add(strings_multiset(items@)),
{
    *c += items;
}

/// `Counter::total`: the sum of the counts, that is the number of strings counted with
/// repeats. The sum is taken in `usize`, so the counts must add up to at most
/// `usize::MAX`.
#[verifier::external_body]
pub(crate) fn counter_total(c: &Counter<String, usize>) -> (r: usize)
    requires
        counter_items(*c).len() <= usize::MAX,
    ensures
        r == counter_items(*c).len(),
{
    c.total()
}

/// Whether a counter that has counted `total` strings, after `count` sources, can count the
/// identifier words of a source of `len` characters.
pub open spec fn countable(total: nat, count: usize, len: nat) -> bool {
    &&& len + 4 <= usize::MAX
    &&& total + 2 * len <= usize::MAX
    &&& count < usize::MAX
}

/// Whether a counter that has counted `c` strings, after `count` sources, can count `text`.
pub(crate) fn can_count_in(c: &Counter<String, usize>, count: usize, text: &str) -> (r: bool)
    requires
        counter_items(*c).len() <= usize::MAX,
    ensures
        r == countable(counter_items(*c).len(), count, text@.len()),
{
    let n = chars_of(text).len();
    let total = counter_total(c);
    if n > usize::MAX - 4 || count == usize::MAX {
        return false;
    }
    let room = (usize::MAX - total) / 2;
    proof {
        assert((n <= room) == (total + 2 * n <= usize::MAX)) by (nonlinear_arith)
            requires
                room == (usize::MAX - total) / 2,
                0 <= total <= usize::MAX,
                0 <= n,
        ;
    }
    n <= room
}

/// Whether `a` comes before `b` in the order of `String`: byte by byte over UTF-8, which
/// is the order of the characters' code points, a proper prefix coming first.
pub open spec fn text_lt(a: Seq<char>, b: Seq<char>) -> bool {
    exists|n: int|
        0 <= n <= a.len() && n <= b.len() && a.take(n) == b.take(n) && (
            (n == a.len() && n < b.len()) || (n < a.len() && n < b.len() && (a[n] as int) < (b[n] as int))
        )
}

/// `Counter::k_most_common_ordered`: at most `k` distinct strings with their counts, from
/// most to least counted, strings with equal counts in increasing order; when fewer than
/// `k` come back every counted string is among them, and a counted string left out comes
/// after every one that came back: it is counted less, or as often and is greater.
#[verifier::external_body]
pub(crate) fn counter_top(c: &Counter<String, usize>, k: usize) -> (r: Vec<(String, usize)>)
    ensures
        r@.len() <= k,
        forall|i: int| 0 <= i < r@.len() ==> #[trigger] r@[i].1 == counter_items(*c).count(r@[i].0@),
        forall|i: int, j: int| 0 <= i < j < r@.len() ==> #[trigger] r@[i].0@ != #[trigger] r@[j].0@ && r@[i].1 >= r@[j].1,
        forall|i: int, j: int| 0 <= i < j < r@.len() && #[trigger] r@[i].1 == #[trigger] r@[j].1 ==> text_lt(r@[i].0@, r@[j].0@),
        r@.len() < k ==> forall|key: Seq<char>| #[trigger] counter_items(*c).count(key) > 0 ==> exists|i: int| 0 <= i < r@.len() && r@[i].0@ == key,
        forall|key: Seq<char>, i: int|
            0 <= i < r@.len() && (forall|j: int| 0 <= j < r@.len() ==> r@[j].0@ != key) ==> #[trigger] counter_items(*c).count(key) <= #[trigger] r@[i].1,
        forall|key: Seq<char>, i: int|
            0 <= i < r@.len() && (forall|j: int| 0 <= j < r@.len() ==> r@[j].0@ != key) && counter_items(*c).count(key) > 0
                && #[trigger] counter_items(*c).count(key) == #[trigger] r@[i].1 ==> text_lt(r@[i].0@, key),
{
    c.k_most_common_ordered(k)
}

/// The name of `str::to_lowercase`: the Unicode lowercase of a string.
pub uninterp spec fn lowercase(s: Seq<char>) -> Seq<char>;

/// `str::to_lowercase`.
#[verifier::external_body]
fn to_lower(s: &str) -> (r: String)
    ensures
        r@ == lowercase(s@),
{
    s.to_lowercase()
}

/// Bytes of `c` in UTF-8.
pub open spec fn utf8_width(c: char) -> nat {
    if (c as u32) < 0x80 {
        1
    } else if (c as u32) < 0x800 {
        2
    } else if (c as u32) < 0x10000 {
        3
    } else {
        4
    }
}

/// Bytes of `s` in UTF-8.
pub open spec fn utf8_len(s: Seq<char>) -> nat
    decreases s.len(),
{
    if s.len() == 0 {
        0
    } else {
        utf8_len(s.drop_last()) + utf8_width(s.last())
    }
}

/// The parts of `s` between underscores, in order (empty parts included).
pub open spec fn underscore_parts(s: Seq<char>) -> Seq<Seq<char>>
    decreases s.len(),
{
    if s.len() == 0 {
        seq![Seq::<char>::empty()]
    } else {
        let init = underscore_parts(s.drop_last());
        if s.last() == '_' {
            init.push(Seq::empty())
        } else {
            init.update(init.len() - 1, init.last().push(s.last()))
        }
    }
}

/// The lowercased parts of at least `min_len` bytes, in order.
pub open spec fn long_parts(parts: Seq<Seq<char>>, min_len: nat) -> Seq<Seq<char>>
    decreases parts.len(),
{
    if parts.len() == 0 {
        Seq::empty()
    } else {
        let init = long_parts(parts.drop_last(), min_len);
        if utf8_len(parts.last()) >= min_len {
            init.push(lowercase(parts.last()))
        } else {
            init
        }
    }
}

/// The words of the identifiers of a token stream: each identifier split at underscores,
/// parts of at least `min_len` bytes, lowercased.
pub open spec fn ident_words(src: Seq<char>, xs: Seq<Lexeme>, min_len: nat) -> Seq<Seq<char>>
    decreases xs.len(),
{
    if xs.len() == 0 {
        Seq::empty()
    } else {
        let init = ident_words(src, xs.drop_last(), min_len);
        if xs.last().token == Token::Ident {
            init + long_parts(underscore_parts(lexeme_text(src, xs.last())), min_len)
        } else {
            init
        }
    }
}

proof fn lemma_underscore_parts_len(s: Seq<char>)
    ensures
        underscore_parts(s).len() >= 1,
        underscore_parts(s).len() <= s.len() + 1,
    decreases s.len(),
{
    if s.len() > 0 {
        lemma_underscore_parts_len(s.drop_last());
    }
}

proof fn lemma_long_parts_len(parts: Seq<Seq<char>>, min_len: nat)
    ensures
        long_parts(parts, min_len).len() <= parts.len(),
    decreases parts.len(),
{
    if parts.len() > 0 {
        lemma_long_parts_len(parts.drop_last(), min_len);
    }
}

/// Width in bytes of `c` in UTF-8.
fn char_width(c: char) -> (r: usize)
    ensures
        r == utf8_width(c),
{
    let v = c as u32;
    if v < 0x80 {
        1
    } else if v < 0x800 {
        2
    } else if v < 0x10000 {
        3
    } else {
        4
    }
}

/// Appends to `out` the lowercased parts of `s[a..b]` between underscores that have at
/// least `min_len` bytes.
fn push_long_parts(s: &Vec<char>, a: usize, b: usize, min_len: usize, out: &mut Vec<String>)
    requires
        a <= b <= s@.len(),
        s@.len() + 4 <= usize::MAX,
    ensures
        final(out)@.map_values(|w: String| w@) == old(out)@.map_values(|w: String| w@) + long_parts(underscore_parts(s@.subrange(a as int, b as int)), min_len as nat),
{
    let ghost text = s@.subrange(a as int, b as int);
    let ghost out0 = out@.map_values(|w: String| w@);
    let mut start: usize = a;
    let mut bytes: usize = 0;
    let mut k: usize = a;
    assert(text.take(0) =~= Seq::<char>::empty());
    while k < b
        invariant
            a <= start <= k <= b <= s@.len(),
            text == s@.subrange(a as int, b as int),
            underscore_parts(text.take(k - a)).last() == s@.subrange(start as int, k as int),
            bytes == if utf8_len(s@.subrange(start as int, k as int)) < min_len {
                utf8_len(s@.subrange(start as int, k as int))
            } else {
                min_len as nat
            },
            out@.map_values(|w: String| w@) == out0 + long_parts(underscore_parts(text.take(k - a)).drop_last(), min_len as nat),
        decreases b - k,
    {
        let ghost pre = text.take(k - a);
        let ghost next = text.take(k + 1 - a);
        assert(next.drop_last() =~= pre);
        assert(next.last() == s@[k as int]);
        proof {
            lemma_underscore_parts_len(pre);
        }
        let ghost parts = underscore_parts(pre);
        if s[k] == '_' {
            assert(underscore_parts(next).drop_last() =~= parts);
            let ghost m0 = out@.map_values(|w: String| w@);
            if bytes >= min_len {
                let w = string_from_chars(s, start, k);
                let lw = to_lower(w.as_str());
                out.push(lw);
                assert(out@.map_values(|w: String| w@) =~= m0.push(lowercase(parts.last())));
            }
            assert(long_parts(parts, min_len as nat) == if utf8_len(parts.last()) >= min_len {
                long_parts(parts.drop_last(), min_len as nat).push(lowercase(parts.last()))
            } else {
                long_parts(parts.drop_last(), min_len as nat)
            });
            assert(out@.map_values(|w: String| w@) =~= out0 + long_parts(underscore_parts(next).drop_last(), min_len as nat));
            start = k + 1;
            bytes = 0;
            assert(s@.subrange(start as int, (k + 1) as int) =~= Seq::<char>::empty());
        } else {
            assert(underscore_parts(next).drop_last() =~= parts.drop_last());
            assert(s@.subrange(start as int, (k + 1) as int).drop_last() =~= s@.subrange(start as int, k as int));
            assert(underscore_parts(next).last() =~= s@.subrange(start as int, (k + 1) as int));
            let w = char_width(s[k]);
            if w >= min_len - bytes {
                bytes = min_len;
            } else {
                bytes = bytes + w;
            }
        }
        k = k + 1;
    }
    assert(text.take(k - a) =~= text);
    proof {
        lemma_underscore_parts_len(text);
    }
    let ghost parts = underscore_parts(text);
    assert(parts =~= parts.drop_last().push(parts.last()));
    let ghost m0 = out@.map_values(|w: String| w@);
    if bytes >= min_len {
        let w = string_from_chars(s, start, k);
        let lw = to_lower(w.as_str());
        out.push(lw);
        assert(out@.map_values(|w: String| w@) =~= m0.push(lowercase(parts.last())));
    }
    assert(out@.map_values(|w: String| w@) =~= out0 + long_parts(parts, min_len as nat));
}

/// The words of the identifiers of the Python source `text`; see `ident_words`.
pub fn collect_ident_words(text: &str, min_len: usize) -> (r: Vec<String>)
    requires
        text@.len() + 4 <= usize::MAX,
    ensures
        r@.map_values(|w: String| w@) == ident_words(text@, lex_spec(text@), min_len as nat),
{
    let chars = chars_of(text);
    let xs = lex(&chars);
    proof {
        lemma_lex_tiles(chars@);
    }
    let mut words: Vec<String> = Vec::with_capacity(1024);
    let mut i: usize = 0;
    assert(xs@.take(0) =~= Seq::<Lexeme>::empty());
    assert(words@.map_values(|w: String| w@) =~= Seq::<Seq<char>>::empty());
    while i < xs.len()
        invariant
            i <= xs@.len(),
            chars@ == text@,
            chars@.len() + 4 <= usize::MAX,
            xs@ == lex_spec(chars@),
            tiles_from(chars@, 0, xs@),
            words@.map_values(|w: String| w@) == ident_words(chars@, xs@.take(i as int), min_len as nat),
        decreases xs@.len() - i,
    {
        let x = xs[i];
        assert(xs@.take(i + 1).drop_last() =~= xs@.take(i as int));
        assert(xs@.take(i + 1).last() == x);
        if x.token == Token::Ident {
            push_long_parts(&chars, x.start, x.end, min_len, &mut words);
        }
        i = i + 1;
    }
    assert(xs@.take(i as int) =~= xs@);
    words
}

/// Identifier words of side-by-side tokens from the start of a text: at most two per
/// character.
proof fn lemma_ident_words_len(src: Seq<char>, xs: Seq<Lexeme>, min_len: nat)
    requires
        forall|k: int| 0 <= k < xs.len() ==> #[trigger] xs[k].start < xs[k].end <= src.len(),
        forall|k: int| 0 <= k < xs.len() - 1 ==> #[trigger] xs[k].end == xs[k + 1].start,
        xs.len() > 0 ==> xs[0].start == 0,
    ensures
        ident_words(src, xs, min_len).len() <= 2 * (if xs.len() == 0 { 0 } else { xs.last().end as int }),
    decreases xs.len(),
{
    if xs.len() > 0 {
        let init = xs.drop_last();
        assert forall|k: int| 0 <= k < init.len() implies #[trigger] init[k].start < init[k].end <= src.len() by {
            assert(init[k] == xs[k]);
        }
        assert forall|k: int| 0 <= k < init.len() - 1 implies #[trigger] init[k].end == init[k + 1].start by {
            assert(init[k] == xs[k]);
            assert(init[k + 1] == xs[k + 1]);
        }
        lemma_ident_words_len(src, init, min_len);
        let x = xs.last();
        let t = lexeme_text(src, x);
        lemma_underscore_parts_len(t);
        lemma_long_parts_len(underscore_parts(t), min_len);
        if init.len() > 0 {
            assert(xs[init.len() - 1].end == xs[init.len() as int].start);
        }
    }
}

/// Counts in `c` the identifier words of `text` of at least `min_len` bytes.
pub fn count_ident_words(c: &mut Counter<String, usize>, text: &str, min_len: usize)
    requires
        text@.len() + 4 <= usize::MAX,
        counter_items(*old(c)).len() + 2 * text@.len() <= usize::MAX,
    ensures
        counter_items(*final(c)) == counter_items(*old(c)).add(ident_words(text@, lex_spec(text@), min_len as nat).to_multiset()),
        counter_items(*final(c)).len() <= counter_items(*old(c)).len() + 2 * text@.len(),
{
    let words = collect_ident_words(text, min_len);
    proof {
        lemma_lex_tiles(text@);
        lemma_ident_words_len(text@, lex_spec(text@), min_len as nat);
        if lex_spec(text@).len() > 0 {
            assert(lex_spec(text@).last().end <= text@.len());
        }
    }
    let ghost ws = ident_words(text@, lex_spec(text@), min_len as nat);
    assert(strings_multiset(words@) == ws.to_multiset());
    proof {
        vstd::seq_lib::to_multiset_len(ws);
        vstd::seq_lib::to_multiset_len(words@.map_values(|w: String| w@));
    }
    counter_add(c, words);
}

/// Collects identifier word counts of Python sources; `path` names the file the most
/// counted words are written to.
pub struct PythonContextCreator {
    pub counter: Counter<String, usize>,
    pub path: String,
    /// Number of words written out.
    pub size: usize,
    /// Number of sources seen.
    pub count: usize,
}

impl PythonContextCreator {
    /// Number of words counted so far, with repeats.
    pub open spec fn total(&self) -> nat {
        counter_items(self.counter).len()
    }

    /// A creator writing the `size` most counted words to `context.txt`.
    pub fn new(size: usize) -> (r: Self)
        ensures
            counter_items(r.counter) == Multiset::<Seq<char>>::empty(),
            r.path@ == "context.txt"@,
            r.size == size,
            r.count == 0,
    {
        Self { counter: counter_new(), path: "context.txt".to_owned(), size: size, count: 0 }
    }

    /// The `size` most counted words with their counts, as `counter_top` gives them.
    pub fn top_entries(&self) -> (r: Vec<(String, usize)>)
        ensures
            r@.len() <= self.size,
            forall|i: int| 0 <= i < r@.len() ==> #[trigger] r@[i].1 == counter_items(self.counter).count(r@[i].0@),
            forall|i: int, j: int| 0 <= i < j < r@.len() ==> #[trigger] r@[i].0@ != #[trigger] r@[j].0@ && r@[i].1 >= r@[j].1,
            r@.len() < self.size ==> forall|key: Seq<char>| #[trigger] counter_items(self.counter).count(key) > 0 ==> exists|i: int| 0 <= i < r@.len() && r@[i].0@ == key,
            forall|key: Seq<char>, i: int|
                0 <= i < r@.len() && (forall|j: int| 0 <= j < r@.len() ==> r@[j].0@ != key)
                ==> #[trigger] counter_items(self.counter).count(key) <= #[trigger] r@[i].1,
            forall|i: int, j: int| 0 <= i < j < r@.len() && #[trigger] r@[i].1 == #[trigger] r@[j].1 ==> text_lt(r@[i].0@, r@[j].0@),
            forall|key: Seq<char>, i: int|
                0 <= i < r@.len() && (forall|j: int| 0 <= j < r@.len() ==> r@[j].0@ != key) && counter_items(self.counter).count(key) > 0
                    && #[trigger] counter_items(self.counter).count(key) == #[trigger] r@[i].1 ==> text_lt(r@[i].0@, key),
    {
        counter_top(&self.counter, self.size)
    }

    /// Whether the counts are due to be written out: every 1024 sources, after the 1023rd.
    pub fn write_due(&self) -> (r: bool)
        ensures
            r == (self.count % 1024 == 1023),
    {
        self.count % 1024 == 1023
    }

    /// Whether `encode` can count `text`: no count overflows.
    pub fn can_count(&self, text: &str) -> (r: bool)
        requires
            self.total() <= usize::MAX,
        ensures
            r == countable(self.total(), self.count, text@.len()),
    {
        can_count_in(&self.counter, self.count, text)
    }

    /// Counts the identifier words of at least 2 bytes of `text` and the source itself.
    pub fn encode(&mut self, text: String) -> (r: Option<TokenizedData>)
        requires
            text@.len() + 4 <= usize::MAX,
            old(self).total() + 2 * text@.len() <= usize::MAX,
            old(self).count < usize::MAX,
        ensures
            r is None,
            counter_items(final(self).counter) == counter_items(old(self).counter).add(ident_words(text@, lex_spec(text@), 2).to_multiset()),
            final(self).total() <= old(self).total() + 2 * text@.len(),
            final(self).count == old(self).count + 1,
            final(self).size == old(self).size,
            final(self).path == old(self).path,
    {
        count_ident_words(&mut self.counter, text.as_str(), 2);
        self.count = self.count + 1;
        None
    }
}

} // verus!
