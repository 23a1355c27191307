//! Word-addressed memory that holds stacks and register frames.

use vstd::prelude::*;

use std::collections::BTreeMap;

verus! {

/// Number of words in a register frame.
pub const FRAME_WORDS: u64 = 36;

/// Number of bytes in a register frame.
pub const FRAME_BYTES: u64 = 288;

/// The address of word `w` counted from `base`.
pub open spec fn word_at(base: int, w: int) -> u64 {
    (base + 8 * w) as u64
}

/// Whether the `n` words from `base` on are mapped.
pub open spec fn words_mapped(words: Map<u64, u64>, base: int, n: int) -> bool {
    &&& 0 <= base
    &&& base + 8 * n <= u64::MAX
    &&& forall|w: int| 0 <= w < n ==> words.contains_key(#[trigger] word_at(base, w))
}

/// Whether a whole register frame at `base` is mapped.
pub open spec fn frame_mapped(words: Map<u64, u64>, base: int) -> bool {
    words_mapped(words, base, FRAME_WORDS as int)
}

/// The words after `n` of them were copied, one after the other, from `src`
/// to `dst`.
pub open spec fn copied(words: Map<u64, u64>, src: int, dst: int, n: int) -> Map<u64, u64>
    decreases n,
{
    if n <= 0 {
        words
    } else {
        let before = copied(words, src, dst, n - 1);
        before.insert(word_at(dst, n - 1), before[word_at(src, n - 1)])
    }
}

/// The words after a register frame was copied from `src` to `dst`.
pub open spec fn frame_copied(words: Map<u64, u64>, src: int, dst: int) -> Map<u64, u64> {
    copied(words, src, dst, FRAME_WORDS as int)
}

/// Whether the `n` words at `a` and the `m` words at `b` have none in common.
pub open spec fn disjoint(a: int, n: int, b: int, m: int) -> bool {
    a + 8 * n <= b || b + 8 * m <= a
}

/// Every word of a mapped stretch is mapped.
pub proof fn lemma_word_mapped(words: Map<u64, u64>, base: int, n: int, a: u64)
    requires
        words_mapped(words, base, n),
        base <= a < base + 8 * n,
        (a - base) % 8 == 0,
    ensures
        words.contains_key(a),
{
    assert(word_at(base, (a - base) / 8) == a);
}

/// Copying to mapped words maps nothing more.
pub proof fn lemma_copied_dom(words: Map<u64, u64>, src: int, dst: int, n: int)
    requires
        0 <= n,
        words_mapped(words, dst, n),
    ensures
        copied(words, src, dst, n).dom() == words.dom(),
    decreases n,
{
    if n > 0 {
        assert forall|w: int| 0 <= w < n - 1 implies words.contains_key(
            #[trigger] word_at(dst, w),
        ) by {}
        lemma_copied_dom(words, src, dst, n - 1);
        assert(words.contains_key(word_at(dst, n - 1)));
        assert(copied(words, src, dst, n).dom() =~= words.dom());
    }
}

/// Copying changes nothing outside the destination.
pub proof fn lemma_copied_elsewhere(words: Map<u64, u64>, src: int, dst: int, n: int, a: u64)
    requires
        0 <= n,
        0 <= dst,
        dst + 8 * n <= u64::MAX,
        a < dst || a >= dst + 8 * n,
    ensures
        copied(words, src, dst, n)[a] == words[a],
        copied(words, src, dst, n).contains_key(a) == words.contains_key(a),
    decreases n,
{
    if n > 0 {
        lemma_copied_elsewhere(words, src, dst, n - 1, a);
    }
}

/// Between places that do not overlap, the destination holds afterwards what
/// the source held.
pub proof fn lemma_copied_words(words: Map<u64, u64>, src: int, dst: int, n: int, w: int)
    requires
        0 <= w < n,
        0 <= src,
        0 <= dst,
        src + 8 * n <= u64::MAX,
        dst + 8 * n <= u64::MAX,
        disjoint(src, n, dst, n),
    ensures
        copied(words, src, dst, n)[word_at(dst, w)] == words[word_at(src, w)],
    decreases n,
{
    let before = copied(words, src, dst, n - 1);
    if w == n - 1 {
        lemma_copied_elsewhere(words, src, dst, n - 1, word_at(src, n - 1));
    } else {
        lemma_copied_words(words, src, dst, n - 1, w);
    }
}

/// Copying a place onto itself changes nothing.
pub proof fn lemma_copied_onto_itself(words: Map<u64, u64>, base: int, n: int)
    requires
        words_mapped(words, base, n),
        0 <= n,
    ensures
        copied(words, base, base, n) == words,
    decreases n,
{
    if n > 0 {
        assert forall|w: int| 0 <= w < n - 1 implies words.contains_key(
            #[trigger] word_at(base, w),
        ) by {}
        lemma_copied_onto_itself(words, base, n - 1);
        assert(words.contains_key(word_at(base, n - 1)));
        assert(copied(words, base, base, n) =~= words);
    }
}

/// The words after zeros were mapped at the `n` words from `base` on.
pub open spec fn zero_mapped(words: Map<u64, u64>, base: int, n: int) -> Map<u64, u64>
    decreases n,
{
    if n <= 0 {
        words
    } else {
        zero_mapped(words, base, n - 1).insert(word_at(base, n - 1), 0)
    }
}

/// What mapping zeros does, word by word.
pub proof fn lemma_zero_mapped(words: Map<u64, u64>, base: int, n: int)
    requires
        0 <= n,
        0 <= base,
        base + 8 * n <= u64::MAX,
    ensures
        words_mapped(zero_mapped(words, base, n), base, n),
        forall|w: int| 0 <= w < n ==> zero_mapped(words, base, n)[#[trigger] word_at(base, w)] == 0,
        forall|a: u64|
            a < base || a >= base + 8 * n ==> #[trigger] zero_mapped(words, base, n)[a] == words[a],
        forall|a: u64|
            #[trigger] words.contains_key(a) ==> zero_mapped(words, base, n).contains_key(a),
        forall|a: u64|
            a < base || a >= base + 8 * n ==> #[trigger] zero_mapped(words, base, n).contains_key(a)
                == words.contains_key(a),
        base % 8 == 0 && (forall|a: u64| #[trigger] words.contains_key(a) ==> a % 8 == 0) ==> (
        forall|a: u64| #[trigger] zero_mapped(words, base, n).contains_key(a) ==> a % 8 == 0),
    decreases n,
{
    if n > 0 {
        lemma_zero_mapped(words, base, n - 1);
    }
}

/// Memory by words. Only mapped words can be read or written, and a word lies
/// at a multiple of eight.
pub struct Memory {
    words: BTreeMap<u64, u64>,
}

impl View for Memory {
    type V = Map<u64, u64>;

    /// The mapped words by address.
    closed spec fn view(&self) -> Map<u64, u64> {
        self.words@
    }
}

impl Memory {
    /// Every mapped address is a multiple of eight.
    pub open spec fn wf(&self) -> bool {
        forall|a: u64| #[trigger] self@.contains_key(a) ==> a % 8 == 0
    }

    /// Memory with nothing mapped.
    pub fn new() -> (r: Self)
        ensures
            r.wf(),
            r@ == Map::<u64, u64>::empty(),
    {
        Memory { words: BTreeMap::new() }
    }

    /// Whether the word at `addr` is mapped.
    pub fn is_mapped(&self, addr: u64) -> (r: bool)
        ensures
            r == self@.contains_key(addr),
    {
        broadcast use vstd::std_specs::btree::group_btree_axioms;

        self.words.contains_key(&addr)
    }

    /// Maps `n` words from `base` on; they hold zero.
    pub fn map_zeroed(&mut self, base: u64, n: u64)
        requires
            old(self).wf(),
            base % 8 == 0,
            base + 8 * n <= u64::MAX,
        ensures
            final(self).wf(),
            final(self)@ == zero_mapped(old(self)@, base as int, n as int),
    {
        broadcast use vstd::std_specs::btree::group_btree_axioms;

        let mut i: u64 = 0;
        while i < n
            invariant
                i <= n,
                base % 8 == 0,
                base + 8 * n <= u64::MAX,
                self.wf(),
                self@ == zero_mapped(old(self)@, base as int, i as int),
            decreases n - i,
        {
            self.words.insert(base + 8 * i, 0);
            i += 1;
        }
    }

    /// The word at `addr`.
    pub fn read(&self, addr: u64) -> (r: u64)
        requires
            self@.contains_key(addr),
        ensures
            r == self@[addr],
    {
        broadcast use vstd::std_specs::btree::group_btree_axioms;

        *self.words.get(&addr).unwrap()
    }

    /// Writes the word at `addr`.
    pub fn write(&mut self, addr: u64, value: u64)
        requires
            old(self).wf(),
            old(self)@.contains_key(addr),
        ensures
            final(self).wf(),
            final(self)@ == old(self)@.insert(addr, value),
    {
        broadcast use vstd::std_specs::btree::group_btree_axioms;

        let _ = self.words.insert(addr, value);
    }

    /// Copies a register frame from `src` to `dst`, word by word.
    pub fn copy_frame(&mut self, src: u64, dst: u64)
        requires
            old(self).wf(),
            frame_mapped(old(self)@, src as int),
            frame_mapped(old(self)@, dst as int),
        ensures
            final(self).wf(),
            final(self)@ == frame_copied(old(self)@, src as int, dst as int),
            final(self)@.dom() == old(self)@.dom(),
    {
        let ghost start = self@;
        let mut w: u64 = 0;
        while w < FRAME_WORDS
            invariant
                w <= FRAME_WORDS,
                self.wf(),
                frame_mapped(start, src as int),
                frame_mapped(start, dst as int),
                self@ == copied(start, src as int, dst as int, w as int),
                self@.dom() == start.dom(),
            decreases FRAME_WORDS - w,
        {
            assert(start.contains_key(word_at(src as int, w as int)));
            assert(start.contains_key(word_at(dst as int, w as int)));
            assert(self@.dom().contains(word_at(src as int, w as int)));
            assert(self@.dom().contains(word_at(dst as int, w as int)));
            let value: u64 = self.read(src + 8 * w);
            self.write(dst + 8 * w, value);
            assert(self@.dom() =~= start.dom());
            w += 1;
        }
    }
}

} // verus!
