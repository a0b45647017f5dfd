pub mod font;
pub mod shape;

use vstd::prelude::*;

verus! {

use vstd::arithmetic::power2::is_pow2;

// ---- Vertex buffer capacity ----

/// `p` is the least power of two that is at least `n`.
pub open spec fn least_pow2_at_least(p: int, n: int) -> bool {
    is_pow2(p) && n <= p && (p == 1 || p / 2 < n)
}

/// Of two powers of two, the smaller is at most half the larger.
proof fn lemma_pow2_gap(p: int, q: int)
    requires
        is_pow2(p),
        is_pow2(q),
        q < p,
    ensures
        q <= p / 2,
    decreases p,
{
    reveal(is_pow2);
    if q > p / 2 && p > 2 {
        assert(q > 1);
        lemma_pow2_gap(p / 2, q / 2);
    }
}

/// The capacity a buffer grows to is the least power of two that holds the
/// request: no smaller power of two is large enough, so there is only one.
pub proof fn lemma_least_pow2_is_least(p: int, n: int, q: int)
    requires
        least_pow2_at_least(p, n),
        is_pow2(q),
        n <= q,
    ensures
        p <= q,
{
    reveal(is_pow2);
    if q < p {
        lemma_pow2_gap(p, q);
    }
}

/// The least power of two at least `n`, found by doubling from 1 (as
/// `usize::next_power_of_two`). The precondition leaves out the values whose
/// result would not fit in a `usize`.
fn next_power_of_two(n: usize) -> (p: usize)
    requires
        n <= usize::MAX / 2 + 1,
    ensures
        least_pow2_at_least(p as int, n as int),
{
    let mut p: usize = 1;
    assert(is_pow2(1)) by {
        reveal(is_pow2);
    }
    while p < n
        invariant
            n <= usize::MAX / 2 + 1,
            1 <= p,
            is_pow2(p as int),
            p == 1 || p / 2 < n,
        decreases usize::MAX - p,
    {
        assert(is_pow2(2 * p as int)) by {
            reveal(is_pow2);
            assert((2 * p as int) % 2 == 0 && (2 * p as int) / 2 == p);
        }
        p = p * 2;
    }
    p
}

/// The smallest vertex buffer, in bytes.
pub open spec fn min_vertex_capacity() -> int {
    0x10000
}

/// The capacity, in bytes, the vertex buffer is grown to when `size` bytes do
/// not fit in `capacity`: the next power of two, at least 64 KiB. `None` when
/// they fit.
pub fn grown_vertex_capacity(size: usize, capacity: usize) -> (r: Option<usize>)
    requires
        size <= usize::MAX / 2 + 1,
    ensures
        size <= capacity ==> r is None,
        size > capacity ==> (r matches Some(c) && c >= size && c >= min_vertex_capacity()),
        size > capacity ==> (r matches Some(c) && (exists|p: int|
            least_pow2_at_least(p, size as int) && c == (if p < min_vertex_capacity() {
                min_vertex_capacity()
            } else {
                p
            }))),
{
    if size > capacity {
        let p = next_power_of_two(size);
        let c = if p < (1usize << 16) {
            1usize << 16
        } else {
            p
        };
        assert((1usize << 16) == 0x10000) by (bit_vector);
        Some(c)
    } else {
        None
    }
}

// ---- Translation stack ----

/// The current translation and the ones saved beneath it, oldest first.
pub struct TransformStack<T> {
    current: T,
    saved: Vec<T>,
}

/// Pushing saves the current translation and makes `next` current.
pub open spec fn pushed<T>(s: (T, Seq<T>), next: T) -> (T, Seq<T>) {
    (next, s.1.push(s.0))
}

/// Popping restores the last saved translation; with none saved nothing changes.
pub open spec fn popped<T>(s: (T, Seq<T>)) -> (T, Seq<T>) {
    if s.1.len() == 0 {
        s
    } else {
        (s.1.last(), s.1.drop_last())
    }
}

impl<T> View for TransformStack<T> {
    type V = (T, Seq<T>);

    closed spec fn view(&self) -> (T, Seq<T>) {
        (self.current, self.saved@)
    }
}

impl<T: Copy> TransformStack<T> {
    pub fn new(origin: T) -> (s: Self)
        ensures
            s@ == (origin, Seq::<T>::empty()),
    {
        TransformStack { current: origin, saved: Vec::new() }
    }

    /// The translation draws are offset by now.
    pub fn current(&self) -> (t: T)
        ensures
            t == self@.0,
    {
        self.current
    }

    /// Makes `next` current, saving the translation it replaces.
    pub fn push(&mut self, next: T)
        ensures
            final(self)@ == pushed(old(self)@, next),
    {
        let cur = self.current;
        self.saved.push(cur);
        self.current = next;
    }

    /// Restores the translation saved last, if there is one.
    pub fn pop(&mut self)
        ensures
            final(self)@ == popped(old(self)@),
    {
        if let Some(prev) = self.saved.pop() {
            self.current = prev;
        }
    }

    /// Starts over at `origin` with nothing saved.
    pub fn reset(&mut self, origin: T)
        ensures
            final(self)@ == (origin, Seq::<T>::empty()),
    {
        self.current = origin;
        self.saved.clear();
    }
}

/// Popping right after a push gives back the stack as it was.
pub proof fn lemma_pop_undoes_push<T>(s: (T, Seq<T>), next: T)
    ensures
        popped(pushed(s, next)) == s,
{
    assert(s.1.push(s.0).drop_last() =~= s.1);
}

/// Popping an empty stack leaves the current translation as it is.
pub proof fn lemma_pop_empty_keeps<T>(s: (T, Seq<T>))
    requires
        s.1.len() == 0,
    ensures
        popped(s) == s,
{
}

// ---- SPIR-V ----

/// The little-endian 32-bit word that starts at byte `4 * i`.
pub open spec fn le_word(bytes: Seq<u8>, i: int) -> int {
    bytes[4 * i] + bytes[4 * i + 1] * 0x100 + bytes[4 * i + 2] * 0x1_0000 + bytes[4 * i + 3] * 0x100_0000
}

/// A word read from four bytes holds them least significant first: its low byte
/// is the first byte, its high byte the last, and it fits in 32 bits.
pub proof fn lemma_le_word_bytes(bytes: Seq<u8>, i: int)
    requires
        0 <= i,
        4 * i + 3 < bytes.len(),
    ensures
        0 <= le_word(bytes, i) < 0x1_0000_0000,
        le_word(bytes, i) % 0x100 == bytes[4 * i],
        (le_word(bytes, i) / 0x100) % 0x100 == bytes[4 * i + 1],
        (le_word(bytes, i) / 0x1_0000) % 0x100 == bytes[4 * i + 2],
        le_word(bytes, i) / 0x100_0000 == bytes[4 * i + 3],
{
    let (b0, b1, b2, b3) = (bytes[4 * i] as int, bytes[4 * i + 1] as int, bytes[4 * i + 2] as int, bytes[4 * i + 3] as int);
    let w = le_word(bytes, i);
    assert(w == b0 + 0x100 * (b1 + 0x100 * (b2 + 0x100 * b3)));
    vstd::arithmetic::div_mod::lemma_fundamental_div_mod_converse(w, 0x100, b1 + 0x100 * (b2 + 0x100 * b3), b0);
    let w1 = b1 + 0x100 * (b2 + 0x100 * b3);
    vstd::arithmetic::div_mod::lemma_fundamental_div_mod_converse(w1, 0x100, b2 + 0x100 * b3, b1);
    let w2 = b2 + 0x100 * b3;
    vstd::arithmetic::div_mod::lemma_fundamental_div_mod_converse(w2, 0x100, b3, b2);
    vstd::arithmetic::div_mod::lemma_div_denominator(w, 0x100, 0x100);
    vstd::arithmetic::div_mod::lemma_div_denominator(w, 0x1_0000, 0x100);
}

/// A compiled shader's bytes as SPIR-V words: each group of four bytes read
/// little-endian; a last group of fewer than four bytes is dropped.
pub fn spirv_words(bytes: &[u8]) -> (words: Vec<u32>)
    ensures
        words@.len() == bytes@.len() / 4,
        forall|i: int| 0 <= i < words@.len() ==> words@[i] == le_word(bytes@, i),
{
    let mut words: Vec<u32> = Vec::new();
    let n = bytes.len() / 4;
    let mut i: usize = 0;
    while i < n
        invariant
            n == bytes@.len() / 4,
            i <= n,
            words@.len() == i,
            forall|k: int| 0 <= k < i ==> words@[k] == le_word(bytes@, k),
        decreases n - i,
    {
        assert(4 * i + 3 < bytes@.len() <= usize::MAX) by {
            assert(bytes@.len() == bytes.len());
        }
        let b0 = bytes[4 * i];
        let b1 = bytes[4 * i + 1];
        let b2 = bytes[4 * i + 2];
        let b3 = bytes[4 * i + 3];
        let w = (b0 as u32) | ((b1 as u32) << 8) | ((b2 as u32) << 16) | ((b3 as u32) << 24);
        assert(w == b0 + b1 * 0x100 + b2 * 0x1_0000 + b3 * 0x100_0000) by (bit_vector)
            requires
                w == (b0 as u32) | ((b1 as u32) << 8) | ((b2 as u32) << 16) | ((b3 as u32) << 24),
        ;
        words.push(w);
        i += 1;
    }
    words
}

} // verus!
