//! The occupancy bitmap of a page: one bit per object slot, set when the slot
//! is allocated.

use super::layout::Layout;
use super::OBJECT_PAGE_METADATA_OVERHEAD;
use vstd::prelude::*;
use vstd::std_specs::bits::u64_trailing_ones;
use vstd::std_specs::bits::u64_trailing_zeros;

verus! {

/// Bit `b` of the word `w`.
pub open spec fn word_bit(w: u64, b: u64) -> bool {
    (w >> b) & 1 == 1
}

/// Bit `i` of the bitmap `words`: bit `i % 64` of word `i / 64`.
pub open spec fn bit_is_set(words: Seq<u64>, i: int) -> bool {
    word_bit(words[i / 64], (i % 64) as u64)
}

/// Number of bits that the bitmap `words` tracks.
pub open spec fn total_bits(words: Seq<u64>) -> int {
    words.len() as int * 64
}

/// Number of slots that a bitmap of `total` bits really tracks when it serves
/// objects of `for_size` bytes in `capacity` bytes of memory.
pub open spec fn relevant_bits(for_size: int, capacity: int, total: int) -> int {
    if capacity / for_size <= total {
        capacity / for_size
    } else {
        total
    }
}

/// The bitmap `words` with bit `i` set.
pub open spec fn with_bit_set(words: Seq<u64>, i: int) -> Seq<u64> {
    words.update(i / 64, words[i / 64] | (1u64 << ((i % 64) as u64)))
}

/// The bitmap `words` with bit `i` cleared.
pub open spec fn with_bit_cleared(words: Seq<u64>, i: int) -> Seq<u64> {
    words.update(i / 64, words[i / 64] & !(1u64 << ((i % 64) as u64)))
}

/// Every word of the bitmap is all-ones.
pub open spec fn is_full_spec(words: Seq<u64>) -> bool {
    forall|w: int| 0 <= w < words.len() ==> #[trigger] words[w] == u64::MAX
}

/// Every bit below `relevant_bits` that the bitmap has is clear.
pub open spec fn all_free_spec(words: Seq<u64>, relevant_bits: int) -> bool {
    forall|i: int|
        0 <= i < relevant_bits && i < total_bits(words) ==> !#[trigger] bit_is_set(words, i)
}

/// Position of the lowest clear bit of `w`; 64 when `w` is all-ones.
pub open spec fn first_free(w: u64) -> int {
    u64_trailing_ones(w) as int
}

/// The result of a first-fit search that starts at word `start`.
///
/// A full word is passed over. Of any other word only the lowest free bit is
/// a candidate: if its slot lies beyond the data area the search ends without
/// a result; if its address is aligned it is the result; otherwise the search
/// goes on with the next word.
pub open spec fn first_fit_from(
    words: Seq<u64>,
    start: int,
    base_addr: int,
    size: int,
    align: int,
    page_size: int,
) -> Option<(int, int)>
    decreases words.len() - start,
{
    if start < 0 || start >= words.len() {
        None
    } else if words[start] == u64::MAX {
        first_fit_from(words, start + 1, base_addr, size, align, page_size)
    } else {
        let idx = start * 64 + first_free(words[start]);
        let offset = idx * size;
        if offset > page_size - OBJECT_PAGE_METADATA_OVERHEAD - size {
            None
        } else if (base_addr + offset) % align == 0 {
            Some((idx, base_addr + offset))
        } else {
            first_fit_from(words, start + 1, base_addr, size, align, page_size)
        }
    }
}

/// The slot that a first-fit search over the whole bitmap finds, as its index
/// and its address.
pub open spec fn first_fit_spec(
    words: Seq<u64>,
    base_addr: int,
    size: int,
    align: int,
    page_size: int,
) -> Option<(int, int)> {
    first_fit_from(words, 0, base_addr, size, align, page_size)
}

/// Number of clear bits among the lowest `n` bits of `w`.
pub open spec fn zeros_below(w: u64, n: nat) -> nat
    decreases n,
{
    if n == 0 {
        0
    } else {
        zeros_below(w, (n - 1) as nat) + if word_bit(w, (n - 1) as u64) {
            0nat
        } else {
            1nat
        }
    }
}

/// Number of clear bits among the first `n` bits of the bitmap `words`.
pub open spec fn free_below(words: Seq<u64>, n: nat) -> nat
    decreases n,
{
    if n == 0 {
        0
    } else {
        free_below(words, (n - 1) as nat) + if bit_is_set(words, n - 1) {
            0nat
        } else {
            1nat
        }
    }
}

/// Number of clear bits in the whole bitmap.
pub open spec fn free_count(words: Seq<u64>) -> nat {
    free_below(words, (words.len() * 64) as nat)
}

/// `u64::count_zeros` returns how many of the 64 bits of its argument are
/// zero.
pub assume_specification[ u64::count_zeros ](w: u64) -> (r: u32)
    ensures
        r == zeros_below(w, 64),
        r <= 64,
;

proof fn lemma_word_set(w: u64, b: u64, j: u64)
    requires
        b < 64,
        j < 64,
    ensures
        word_bit(w | (1u64 << b), j) == (j == b || word_bit(w, j)),
{
    assert(((w | (1u64 << b)) >> j) & 1 == 1 <==> (j == b || (w >> j) & 1 == 1)) by (bit_vector)
        requires
            b < 64,
            j < 64,
    ;
}

proof fn lemma_word_clear(w: u64, b: u64, j: u64)
    requires
        b < 64,
        j < 64,
    ensures
        word_bit(w & !(1u64 << b), j) == (j != b && word_bit(w, j)),
{
    assert(((w & !(1u64 << b)) >> j) & 1 == 1 <==> (j != b && (w >> j) & 1 == 1)) by (bit_vector)
        requires
            b < 64,
            j < 64,
    ;
}

proof fn lemma_word_test(w: u64, b: u64)
    requires
        b < 64,
    ensures
        (w & (1u64 << b)) > 0 <==> word_bit(w, b),
        (w & (1u64 << b)) == 0 <==> !word_bit(w, b),
{
    assert(((w & (1u64 << b)) > 0 <==> (w >> b) & 1 == 1) && ((w & (1u64 << b)) == 0 <==> !((w
        >> b) & 1 == 1))) by (bit_vector)
        requires
            b < 64,
    ;
}

/// A word is all-ones exactly when each of its 64 bits is set.
pub proof fn lemma_word_full(w: u64)
    ensures
        w == u64::MAX <==> forall|b: u64| b < 64 ==> word_bit(w, b),
{
    if w == u64::MAX {
        assert forall|b: u64| b < 64 implies word_bit(w, b) by {
            assert((0xffff_ffff_ffff_ffffu64 >> b) & 1 == 1) by (bit_vector)
                requires
                    b < 64,
            ;
        }
    } else {
        lemma_first_free(w);
        assert(!word_bit(w, first_free(w) as u64));
    }
}

/// A word is zero exactly when each of its 64 bits is clear.
pub proof fn lemma_word_zero(w: u64)
    ensures
        w == 0 <==> forall|b: u64| b < 64 ==> !word_bit(w, b),
{
    if w == 0 {
        assert forall|b: u64| b < 64 implies !word_bit(w, b) by {
            assert((0u64 >> b) & 1 == 0) by (bit_vector)
                requires
                    b < 64,
            ;
        }
    } else {
        let t = u64_trailing_zeros(w);
        assert(t < 64);
        assert(word_bit(w, t as u64));
    }
}

/// In a word that is not all-ones, `first_free` is the lowest clear bit.
pub proof fn lemma_first_free(w: u64)
    requires
        w != u64::MAX,
    ensures
        0 <= first_free(w) < 64,
        !word_bit(w, first_free(w) as u64),
        forall|b: u64| b < first_free(w) ==> word_bit(w, b),
{
    let n: u64 = !w;
    assert(n != 0) by (bit_vector)
        requires
            n == !w,
            w != 0xffff_ffff_ffff_ffffu64,
    ;
    let t = u64_trailing_zeros(n);
    assert(t < 64);
    let tb = t as u64;
    assert((w >> tb) & 1 == 0) by (bit_vector)
        requires
            n == !w,
            tb < 64,
            (n >> tb) & 1 == 1,
    ;
    assert forall|b: u64| b < first_free(w) implies word_bit(w, b) by {
        assert((n >> b) & 1 == 0);
        assert((w >> b) & 1 == 1) by (bit_vector)
            requires
                n == !w,
                b < 64,
                (n >> b) & 1 == 0,
        ;
    }
}

/// The lowest `k` bits of `w` are clear exactly when `w` and the mask of the
/// lowest `k` bits have no bit in common.
proof fn lemma_low_mask(w: u64, k: u64, m: u64)
    requires
        k < 64,
        m == ((1u64 << k) - 1) as u64,
    ensures
        (m & w) == 0 <==> forall|j: u64| j < k ==> !word_bit(w, j),
{
    if (m & w) == 0 {
        assert forall|j: u64| j < k implies !word_bit(w, j) by {
            assert((w >> j) & 1 == 0) by (bit_vector)
                requires
                    k < 64,
                    j < k,
                    m == ((1u64 << k) - 1) as u64,
                    (m & w) == 0,
            ;
        }
    } else {
        let x: u64 = m & w;
        let t = u64_trailing_zeros(x);
        assert(t < 64);
        let tb = t as u64;
        assert(tb < k && (w >> tb) & 1 == 1) by (bit_vector)
            requires
                k < 64,
                tb < 64,
                m == ((1u64 << k) - 1) as u64,
                x == m & w,
                (x >> tb) & 1 == 1,
        ;
        assert(word_bit(w, tb));
    }
}

/// Setting bit `i` sets that bit and leaves every other bit as it was.
pub proof fn lemma_with_bit_set(words: Seq<u64>, i: int)
    requires
        0 <= i < total_bits(words),
    ensures
        with_bit_set(words, i).len() == words.len(),
        forall|j: int|
            0 <= j < total_bits(words) ==> #[trigger] bit_is_set(with_bit_set(words, i), j) == (j
                == i || bit_is_set(words, j)),
{
    let after = with_bit_set(words, i);
    assert forall|j: int| 0 <= j < total_bits(words) implies #[trigger] bit_is_set(after, j) == (j
        == i || bit_is_set(words, j)) by {
        if j / 64 == i / 64 {
            lemma_word_set(words[i / 64], (i % 64) as u64, (j % 64) as u64);
        }
    }
}

/// Clearing bit `i` clears that bit and leaves every other bit as it was.
pub proof fn lemma_with_bit_cleared(words: Seq<u64>, i: int)
    requires
        0 <= i < total_bits(words),
    ensures
        with_bit_cleared(words, i).len() == words.len(),
        forall|j: int|
            0 <= j < total_bits(words) ==> #[trigger] bit_is_set(with_bit_cleared(words, i), j)
                == (j != i && bit_is_set(words, j)),
{
    let after = with_bit_cleared(words, i);
    assert forall|j: int| 0 <= j < total_bits(words) implies #[trigger] bit_is_set(after, j) == (j
        != i && bit_is_set(words, j)) by {
        if j / 64 == i / 64 {
            lemma_word_clear(words[i / 64], (i % 64) as u64, (j % 64) as u64);
        }
    }
}

/// Every bit from `relevant` on is set: the slots that do not exist read as
/// allocated.
pub open spec fn tail_allocated(words: Seq<u64>, relevant: int) -> bool {
    forall|i: int| relevant <= i < total_bits(words) ==> #[trigger] bit_is_set(words, i)
}

/// The slots that do not exist stay allocated when a slot is set, and when
/// a slot that exists is cleared.
pub proof fn lemma_tail_stays_allocated(words: Seq<u64>, relevant: int, i: int)
    requires
        0 <= relevant,
        0 <= i < total_bits(words),
        tail_allocated(words, relevant),
    ensures
        tail_allocated(with_bit_set(words, i), relevant),
        i < relevant ==> tail_allocated(with_bit_cleared(words, i), relevant),
{
    lemma_with_bit_set(words, i);
    lemma_with_bit_cleared(words, i);
    assert forall|j: int| relevant <= j < total_bits(with_bit_set(words, i)) implies #[trigger] bit_is_set(
        with_bit_set(words, i),
        j,
    ) by {
        assert(bit_is_set(words, j));
    }
    if i < relevant {
        assert forall|j: int|
            relevant <= j < total_bits(with_bit_cleared(words, i)) implies #[trigger] bit_is_set(
            with_bit_cleared(words, i),
            j,
        ) by {
            assert(bit_is_set(words, j));
        }
    }
}

/// A slot that is set and then cleared reads as free, whatever it was before.
pub proof fn lemma_set_then_clear(words: Seq<u64>, i: int)
    requires
        0 <= i < total_bits(words),
    ensures
        !bit_is_set(with_bit_cleared(with_bit_set(words, i), i), i),
        forall|j: int|
            0 <= j < total_bits(words) && j != i ==> bit_is_set(
                with_bit_cleared(with_bit_set(words, i), i),
                j,
            ) == bit_is_set(words, j),
{
    lemma_with_bit_set(words, i);
    lemma_with_bit_cleared(with_bit_set(words, i), i);
}

/// Setting and then clearing a slot that was free gives back the bitmap as
/// it was: an allocation that is given back leaves no trace.
pub proof fn lemma_set_then_clear_restores(words: Seq<u64>, i: int)
    requires
        0 <= i < total_bits(words),
        !bit_is_set(words, i),
    ensures
        with_bit_cleared(with_bit_set(words, i), i) == words,
{
    let w = words[i / 64];
    let b = (i % 64) as u64;
    assert((w | (1u64 << b)) & !(1u64 << b) == w) by (bit_vector)
        requires
            b < 64,
            (w >> b) & 1 != 1,
    ;
    assert(with_bit_cleared(with_bit_set(words, i), i) =~= words);
}

/// Two words with the same bits are the same word.
pub proof fn lemma_bits_determine_word(a: u64, b: u64)
    requires
        forall|k: u64| k < 64 ==> word_bit(a, k) == word_bit(b, k),
    ensures
        a == b,
{
    let x: u64 = a ^ b;
    if x != 0 {
        let t = u64_trailing_zeros(x);
        assert(t < 64);
        let tb = t as u64;
        assert(((a >> tb) & 1 == 1) != ((b >> tb) & 1 == 1)) by (bit_vector)
            requires
                x == a ^ b,
                tb < 64,
                (x >> tb) & 1 == 1,
        ;
        assert(word_bit(a, tb) == word_bit(b, tb));
    } else {
        assert(a == b) by (bit_vector)
            requires
                x == a ^ b,
                x == 0,
        ;
    }
}

/// Two bitmaps of one length with the same bits are the same bitmap.
pub proof fn lemma_bits_determine_bitmap(a: Seq<u64>, b: Seq<u64>)
    requires
        a.len() == b.len(),
        forall|i: int| 0 <= i < total_bits(a) ==> bit_is_set(a, i) == bit_is_set(b, i),
    ensures
        a == b,
{
    assert forall|w: int| 0 <= w < a.len() implies a[w] == b[w] by {
        assert forall|k: u64| k < 64 implies word_bit(a[w], k) == word_bit(b[w], k) by {
            let i = w * 64 + k;
            assert(i / 64 == w && i % 64 == k);
            assert(bit_is_set(a, i) == bit_is_set(b, i));
        }
        lemma_bits_determine_word(a[w], b[w]);
    }
    assert(a =~= b);
}

/// The bitmap `words` after the slots of `slots` have been cleared, one
/// after the other.
pub open spec fn with_bits_cleared(words: Seq<u64>, slots: Seq<int>) -> Seq<u64>
    decreases slots.len(),
{
    if slots.len() == 0 {
        words
    } else {
        with_bit_cleared(with_bits_cleared(words, slots.drop_last()), slots.last())
    }
}

/// After several slots have been cleared, those slots are free and every
/// other slot is as it was.
pub proof fn lemma_with_bits_cleared(words: Seq<u64>, slots: Seq<int>)
    requires
        forall|k: int| 0 <= k < slots.len() ==> 0 <= #[trigger] slots[k] < total_bits(words),
    ensures
        with_bits_cleared(words, slots).len() == words.len(),
        forall|j: int|
            0 <= j < total_bits(words) ==> #[trigger] bit_is_set(with_bits_cleared(words, slots), j)
                == (bit_is_set(words, j) && !slots.contains(j)),
    decreases slots.len(),
{
    if slots.len() > 0 {
        let before = slots.drop_last();
        let last = slots.last();
        assert forall|k: int| 0 <= k < before.len() implies 0 <= #[trigger] before[k] < total_bits(
            words,
        ) by {
            assert(before[k] == slots[k]);
        }
        lemma_with_bits_cleared(words, before);
        let mid = with_bits_cleared(words, before);
        lemma_with_bit_cleared(mid, last);
        assert forall|j: int| 0 <= j < total_bits(words) implies #[trigger] bit_is_set(
            with_bits_cleared(words, slots),
            j,
        ) == (bit_is_set(words, j) && !slots.contains(j)) by {
            assert(bit_is_set(mid, j) == (bit_is_set(words, j) && !before.contains(j)));
            if before.contains(j) {
                let k = before.index_of(j);
                assert(slots[k] == j);
            }
            if slots.contains(j) && j != last {
                let k = slots.index_of(j);
                assert(before[k] == j);
            }
            assert(slots[slots.len() - 1] == last);
        }
    }
}

/// Clearing the same slots in another order, or some of them more than
/// once, gives the same bitmap: releases that arrive from several sides,
/// each carried out whole, leave the bitmap that any one order of them
/// leaves.
pub proof fn lemma_clear_order_free(words: Seq<u64>, one: Seq<int>, other: Seq<int>)
    requires
        forall|k: int| 0 <= k < one.len() ==> 0 <= #[trigger] one[k] < total_bits(words),
        forall|k: int| 0 <= k < other.len() ==> 0 <= #[trigger] other[k] < total_bits(words),
        forall|j: int| one.contains(j) == other.contains(j),
    ensures
        with_bits_cleared(words, one) == with_bits_cleared(words, other),
{
    lemma_with_bits_cleared(words, one);
    lemma_with_bits_cleared(words, other);
    lemma_bits_determine_bitmap(with_bits_cleared(words, one), with_bits_cleared(words, other));
}

/// Setting a bit twice is the same as setting it once.
pub proof fn lemma_set_bit_idempotent(words: Seq<u64>, i: int)
    requires
        0 <= i < total_bits(words),
    ensures
        with_bit_set(with_bit_set(words, i), i) == with_bit_set(words, i),
{
    let w = words[i / 64];
    let b = (i % 64) as u64;
    assert((w | (1u64 << b)) | (1u64 << b) == w | (1u64 << b)) by (bit_vector);
    assert(with_bit_set(with_bit_set(words, i), i) =~= with_bit_set(words, i));
}

/// Clearing a bit twice is the same as clearing it once.
pub proof fn lemma_clear_bit_idempotent(words: Seq<u64>, i: int)
    requires
        0 <= i < total_bits(words),
    ensures
        with_bit_cleared(with_bit_cleared(words, i), i) == with_bit_cleared(words, i),
{
    let w = words[i / 64];
    let b = (i % 64) as u64;
    assert((w & !(1u64 << b)) & !(1u64 << b) == w & !(1u64 << b)) by (bit_vector);
    assert(with_bit_cleared(with_bit_cleared(words, i), i) =~= with_bit_cleared(words, i));
}

/// A bitmap is full exactly when every bit it tracks is set.
pub proof fn lemma_full_iff_all_set(words: Seq<u64>)
    ensures
        is_full_spec(words) <==> forall|i: int|
            0 <= i < total_bits(words) ==> #[trigger] bit_is_set(words, i),
{
    if is_full_spec(words) {
        assert forall|i: int| 0 <= i < total_bits(words) implies #[trigger] bit_is_set(
            words,
            i,
        ) by {
            assert(words[i / 64] == u64::MAX);
            lemma_word_full(words[i / 64]);
        }
    } else {
        let w = choose|w: int| 0 <= w < words.len() && words[w] != u64::MAX;
        lemma_first_free(words[w]);
        let i = w * 64 + first_free(words[w]);
        assert(i / 64 == w && i % 64 == first_free(words[w]));
        assert(!bit_is_set(words, i));
    }
}

/// The clear bits of the first `k + 1` words are those of the first `k`
/// words and those of word `k`.
pub proof fn lemma_free_below_word(words: Seq<u64>, k: int, m: nat)
    requires
        0 <= k < words.len(),
        m <= 64,
    ensures
        free_below(words, (k * 64 + m) as nat) == free_below(words, (k * 64) as nat) + zeros_below(
            words[k],
            m,
        ),
    decreases m,
{
    if m > 0 {
        lemma_free_below_word(words, k, (m - 1) as nat);
        let i = k * 64 + m - 1;
        assert(i / 64 == k && i % 64 == m - 1);
        assert(bit_is_set(words, i) == word_bit(words[k], (m - 1) as u64));
    }
}

/// In a bitmap whose bits below `relevant` are clear and whose other bits
/// are set, the clear bits among the first `n` are the first `n` bits or
/// the first `relevant`, whichever are fewer.
pub proof fn lemma_free_below_prefix(words: Seq<u64>, relevant: int, n: nat)
    requires
        0 <= relevant,
        n <= total_bits(words),
        forall|i: int| 0 <= i < total_bits(words) ==> #[trigger] bit_is_set(words, i) == (i >= relevant),
    ensures
        free_below(words, n) == if n <= relevant {
            n
        } else {
            relevant as nat
        },
    decreases n,
{
    if n > 0 {
        lemma_free_below_prefix(words, relevant, (n - 1) as nat);
        assert(bit_is_set(words, n - 1) == (n - 1 >= relevant));
    }
}

/// First fit finds the lowest free slot, if that slot lies inside the data
/// area and its address is aligned.
pub proof fn lemma_first_fit_lowest_free(
    words: Seq<u64>,
    slot: int,
    base_addr: int,
    size: int,
    align: int,
    page_size: int,
)
    requires
        0 <= slot < total_bits(words),
        forall|i: int| 0 <= i < slot ==> #[trigger] bit_is_set(words, i),
        !bit_is_set(words, slot),
        slot * size <= page_size - OBJECT_PAGE_METADATA_OVERHEAD - size,
        (base_addr + slot * size) % align == 0,
    ensures
        first_fit_spec(words, base_addr, size, align, page_size) == Some(
            (slot, base_addr + slot * size),
        ),
{
    lemma_first_fit_from_lowest_free(words, 0, slot, base_addr, size, align, page_size);
}

/// The search from word `start` on finds the lowest free slot, if no word
/// before the word of that slot is left to look at.
pub proof fn lemma_first_fit_from_lowest_free(
    words: Seq<u64>,
    start: int,
    slot: int,
    base_addr: int,
    size: int,
    align: int,
    page_size: int,
)
    requires
        0 <= slot < total_bits(words),
        0 <= start <= slot / 64,
        forall|i: int| 0 <= i < slot ==> #[trigger] bit_is_set(words, i),
        !bit_is_set(words, slot),
        slot * size <= page_size - OBJECT_PAGE_METADATA_OVERHEAD - size,
        (base_addr + slot * size) % align == 0,
    ensures
        first_fit_from(words, start, base_addr, size, align, page_size) == Some(
            (slot, base_addr + slot * size),
        ),
    decreases slot / 64 - start,
{
    let w = words[start];
    if start < slot / 64 {
        assert forall|b: u64| b < 64 implies word_bit(w, b) by {
            let i = start * 64 + b;
            assert(i / 64 == start && i % 64 == b);
            assert(bit_is_set(words, i));
        }
        lemma_word_full(w);
        lemma_first_fit_from_lowest_free(words, start + 1, slot, base_addr, size, align, page_size);
    } else {
        let bit = (slot % 64) as u64;
        assert(!word_bit(w, bit));
        lemma_word_full(w);
        lemma_first_free(w);
        let found = first_free(w);
        if found < bit {
            let i = start * 64 + found;
            assert(i / 64 == start && i % 64 == found);
            assert(bit_is_set(words, i));
        }
        if found > bit {
            assert(word_bit(w, bit));
        }
        assert(start * 64 + found == slot);
    }
}

/// Operations on the occupancy bitmap of a page.
///
/// A set bit marks an allocated slot. The mutating operations take the
/// bitmap exclusively; an allocator that frees slots from several threads
/// serialises those calls.
pub trait Bitfield {
    /// The words of the bitmap, in order.
    spec fn words(&self) -> Seq<u64>;

    /// Marks the first `relevant_bits` slots free and every other slot
    /// allocated, so that only slots that fit in `capacity` can be handed out.
    fn initialize(&mut self, for_size: usize, capacity: usize)
        requires
            for_size > 0,
            total_bits(old(self).words()) <= usize::MAX,
        ensures
            final(self).words().len() == old(self).words().len(),
            forall|i: int|
                0 <= i < total_bits(old(self).words()) ==> #[trigger] bit_is_set(
                    final(self).words(),
                    i,
                ) == (i >= relevant_bits(
                    for_size as int,
                    capacity as int,
                    total_bits(old(self).words()),
                )),
            relevant_bits(for_size as int, capacity as int, total_bits(old(self).words())) > 0
                ==> !is_full_spec(final(self).words()),
            all_free_spec(
                final(self).words(),
                relevant_bits(for_size as int, capacity as int, total_bits(old(self).words())),
            ),
            free_count(final(self).words()) == relevant_bits(
                for_size as int,
                capacity as int,
                total_bits(old(self).words()),
            ),
    ;

    /// Finds a free slot for `layout` in a page of `page_size` bytes at
    /// `base_addr`, and returns its index and its address.
    fn first_fit(&self, base_addr: usize, layout: Layout, page_size: usize) -> (r: Option<
        (usize, usize),
    >)
        requires
            total_bits(self.words()) <= usize::MAX,
            base_addr + page_size <= usize::MAX,
        ensures
            match r {
                Some((idx, addr)) => first_fit_spec(
                    self.words(),
                    base_addr as int,
                    layout.size() as int,
                    layout.align() as int,
                    page_size as int,
                ) == Some((idx as int, addr as int)),
                None => first_fit_spec(
                    self.words(),
                    base_addr as int,
                    layout.size() as int,
                    layout.align() as int,
                    page_size as int,
                ) is None,
            },
            r matches Some((idx, addr)) ==> {
                &&& idx < total_bits(self.words())
                &&& !bit_is_set(self.words(), idx as int)
                &&& addr == base_addr + idx * layout.size()
                &&& addr % layout.align() == 0
                &&& base_addr <= addr <= base_addr + page_size - OBJECT_PAGE_METADATA_OVERHEAD
                    - layout.size()
            },
    ;

    /// Whether slot `idx` is allocated.
    fn is_allocated(&self, idx: usize) -> (r: bool)
        requires
            idx < total_bits(self.words()),
        ensures
            r == bit_is_set(self.words(), idx as int),
    ;

    /// Marks slot `idx` allocated.
    fn set_bit(&mut self, idx: usize)
        requires
            idx < total_bits(old(self).words()),
        ensures
            final(self).words() == with_bit_set(old(self).words(), idx as int),
            final(self).words().len() == old(self).words().len(),
            forall|j: int|
                0 <= j < total_bits(old(self).words()) ==> #[trigger] bit_is_set(
                    final(self).words(),
                    j,
                ) == (j == idx || bit_is_set(old(self).words(), j)),
    ;

    /// Marks slot `idx` free.
    fn clear_bit(&mut self, idx: usize)
        requires
            idx < total_bits(old(self).words()),
        ensures
            final(self).words() == with_bit_cleared(old(self).words(), idx as int),
            final(self).words().len() == old(self).words().len(),
            forall|j: int|
                0 <= j < total_bits(old(self).words()) ==> #[trigger] bit_is_set(
                    final(self).words(),
                    j,
                ) == (j != idx && bit_is_set(old(self).words(), j)),
    ;

    /// Whether no slot is free.
    fn is_full(&self) -> (r: bool)
        ensures
            r == is_full_spec(self.words()),
    ;

    /// Whether every one of the first `relevant_bits` slots is free.
    fn all_free(&self, relevant_bits: usize) -> (r: bool)
        ensures
            r == all_free_spec(self.words(), relevant_bits as int),
    ;
}

impl Bitfield for [u64] {
    open spec fn words(&self) -> Seq<u64> {
        self@
    }

    fn initialize(&mut self, for_size: usize, capacity: usize) {
        let n = self.len();
        let mut w: usize = 0;
        while w < n
            invariant
                n == self@.len(),
                n == old(self)@.len(),
                w <= n,
                forall|j: int| 0 <= j < w ==> #[trigger] self@[j] == u64::MAX,
            decreases n - w,
        {
            self[w] = u64::MAX;
            w += 1;
        }
        proof {
            lemma_full_iff_all_set(self@);
        }
        let slots = capacity / for_size;
        let total = n * 64;
        let relevant = if slots <= total {
            slots
        } else {
            total
        };
        let mut idx: usize = 0;
        while idx < relevant
            invariant
                n == self@.len(),
                n == old(self)@.len(),
                total == n * 64,
                idx <= relevant <= total,
                forall|i: int| 0 <= i < total ==> #[trigger] bit_is_set(self@, i) == (i >= idx),
            decreases relevant - idx,
        {
            self.clear_bit(idx);
            idx += 1;
        }
        proof {
            if relevant > 0 {
                assert(!bit_is_set(self@, 0));
                lemma_full_iff_all_set(self@);
            }
            lemma_free_below_prefix(self@, relevant as int, total as nat);
        }
    }

    fn first_fit(&self, base_addr: usize, layout: Layout, page_size: usize) -> (r: Option<
        (usize, usize),
    >) {
        assert(self.words() == self@);
        let size = layout.size();
        let align = layout.align();
        let n = self.len();
        let fits = page_size >= OBJECT_PAGE_METADATA_OVERHEAD && page_size
            - OBJECT_PAGE_METADATA_OVERHEAD >= size;
        let limit = if fits {
            page_size - OBJECT_PAGE_METADATA_OVERHEAD - size
        } else {
            0
        };
        let mut base_idx: usize = 0;
        while base_idx < n
            invariant
                n == self@.len(),
                n * 64 <= usize::MAX,
                base_idx <= n,
                size == layout.size(),
                align == layout.align(),
                align > 0,
                base_addr + page_size <= usize::MAX,
                fits == (page_size - OBJECT_PAGE_METADATA_OVERHEAD - size >= 0),
                fits ==> limit == page_size - OBJECT_PAGE_METADATA_OVERHEAD - size,
                first_fit_spec(
                    self@,
                    base_addr as int,
                    size as int,
                    align as int,
                    page_size as int,
                ) == first_fit_from(
                    self@,
                    base_idx as int,
                    base_addr as int,
                    size as int,
                    align as int,
                    page_size as int,
                ),
            decreases n - base_idx,
        {
            let bitval = self[base_idx];
            if bitval != u64::MAX {
                proof {
                    lemma_first_free(bitval);
                }
                let negated = !bitval;
                let first_free = negated.trailing_zeros() as usize;
                let idx: usize = base_idx * 64 + first_free;
                assert(idx / 64 == base_idx && idx % 64 == first_free);
                if !fits {
                    assert(idx * size >= 0) by (nonlinear_arith)
                        requires
                            idx >= 0,
                            size >= 0,
                    ;
                    return None;
                }
                if size != 0 && idx > limit / size {
                    assert(idx * size > limit) by (nonlinear_arith)
                        requires
                            size > 0,
                            idx > limit / size,
                            limit >= 0,
                    ;
                    return None;
                }
                assert(idx * size <= limit) by (nonlinear_arith)
                    requires
                        size == 0 || (size > 0 && idx <= limit / size),
                        limit >= 0,
                        idx >= 0,
                ;
                let offset = idx * size;
                let addr: usize = base_addr + offset;
                let alignment_ok = addr % align == 0;
                proof {
                    lemma_word_test(bitval, first_free as u64);
                }
                let block_is_free = bitval & (1u64 << first_free) == 0;
                if alignment_ok && block_is_free {
                    return Some((idx, addr));
                }
            }
            base_idx += 1;
        }
        None
    }

    fn is_allocated(&self, idx: usize) -> (r: bool) {
        let base_idx = idx / 64;
        let bit_idx = idx % 64;
        proof {
            lemma_word_test(self@[base_idx as int], bit_idx as u64);
        }
        (self[base_idx] & (1u64 << bit_idx)) > 0
    }

    fn set_bit(&mut self, idx: usize) {
        let base_idx = idx / 64;
        let bit_idx = idx % 64;
        proof {
            lemma_with_bit_set(self@, idx as int);
        }
        self[base_idx] = self[base_idx] | (1u64 << bit_idx);
    }

    fn clear_bit(&mut self, idx: usize) {
        let base_idx = idx / 64;
        let bit_idx = idx % 64;
        proof {
            lemma_with_bit_cleared(self@, idx as int);
        }
        self[base_idx] = self[base_idx] & !(1u64 << bit_idx);
    }

    fn is_full(&self) -> (r: bool) {
        let n = self.len();
        let mut w: usize = 0;
        while w < n
            invariant
                n == self@.len(),
                w <= n,
                forall|j: int| 0 <= j < w ==> #[trigger] self@[j] == u64::MAX,
            decreases n - w,
        {
            if self[w] != u64::MAX {
                return false;
            }
            w += 1;
        }
        true
    }

    fn all_free(&self, relevant_bits: usize) -> (r: bool) {
        let n = self.len();
        let boundary = relevant_bits / 64;
        let mut idx: usize = 0;
        while idx < n
            invariant
                n == self@.len(),
                idx <= n,
                boundary == relevant_bits / 64,
                idx <= boundary,
                forall|j: int| 0 <= j < idx ==> #[trigger] self@[j] == 0,
            decreases n - idx,
        {
            let word = self[idx];
            if idx == boundary {
                let bits_that_should_be_free = relevant_bits % 64;
                assert((1u64 << bits_that_should_be_free) >= 1) by (bit_vector)
                    requires
                        bits_that_should_be_free < 64,
                ;
                let free_mask: u64 = (1u64 << bits_that_should_be_free) - 1;
                let res = (free_mask & word) == 0;
                proof {
                    lemma_low_mask(word, bits_that_should_be_free as u64, free_mask);
                    if res {
                        assert forall|i: int|
                            0 <= i < relevant_bits && i < total_bits(self@) implies !#[trigger] bit_is_set(
                            self@,
                            i,
                        ) by {
                            if i / 64 < idx {
                                lemma_word_zero(self@[i / 64]);
                            } else {
                                assert(i / 64 == idx);
                                assert(((i % 64) as u64) < bits_that_should_be_free as u64);
                            }
                        }
                    } else {
                        let j = choose|j: u64|
                            j < bits_that_should_be_free as u64 && word_bit(word, j);
                        let i = idx * 64 + j;
                        assert(i / 64 == idx && i % 64 == j);
                        assert(bit_is_set(self@, i));
                    }
                }
                return res;
            }
            if word != 0 {
                proof {
                    lemma_word_zero(word);
                    let j = choose|j: u64| j < 64 && word_bit(word, j);
                    let i = idx * 64 + j;
                    assert(i / 64 == idx && i % 64 == j);
                    assert(bit_is_set(self@, i));
                }
                return false;
            }
            idx += 1;
        }
        proof {
            assert forall|i: int|
                0 <= i < relevant_bits && i < total_bits(self@) implies !#[trigger] bit_is_set(
                self@,
                i,
            ) by {
                lemma_word_zero(self@[i / 64]);
            }
        }
        true
    }
}

} // verus!
