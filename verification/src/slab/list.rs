//! Lists of pages, linked through the pages themselves.
//!
//! The pages of a size class live in an arena, a slice that their owner
//! holds, and a handle is an index into it. A list stores no page: it names
//! its head, and each page names its neighbours.

use super::pages::AllocablePage;
use super::pages::Rawlink;
use vstd::prelude::*;

verus! {

/// The handle at the front of `chain`, if any.
pub open spec fn first_of(chain: Seq<usize>) -> Option<usize> {
    if chain.len() == 0 {
        None
    } else {
        Some(chain[0])
    }
}

/// Following `next` from `head` through `arena` visits exactly the pages of
/// `chain`, in order, and then ends.
pub open spec fn forward_chain<T: AllocablePage>(
    arena: Seq<T>,
    head: Option<usize>,
    chain: Seq<usize>,
) -> bool {
    &&& head == first_of(chain)
    &&& forall|i: int| 0 <= i < chain.len() ==> #[trigger] chain[i] < arena.len()
    &&& forall|i: int, j: int|
        0 <= i && j == i + 1 && j < chain.len() ==> arena[#[trigger] chain[i] as int].spec_next()
            == Some(#[trigger] chain[j])
    &&& chain.len() > 0 ==> arena[chain[chain.len() - 1] as int].spec_next() is None
}

/// Following `prev` from the last page of `chain` visits its pages in
/// reverse order, and ends at the first.
pub open spec fn backward_chain<T: AllocablePage>(arena: Seq<T>, chain: Seq<usize>) -> bool {
    &&& forall|i: int, j: int|
        0 <= i && j == i + 1 && j < chain.len() ==> arena[#[trigger] chain[j] as int].spec_prev()
            == Some(#[trigger] chain[i])
    &&& chain.len() > 0 ==> arena[chain[0] as int].spec_prev() is None
}

/// Two arenas hold the same pages but for the links of the pages whose
/// handles are in `touched`: every page keeps its address and its bitmap.
pub open spec fn same_but_links<T: AllocablePage>(
    before: Seq<T>,
    after: Seq<T>,
    touched: Set<usize>,
) -> bool {
    &&& after.len() == before.len()
    &&& forall|k: int|
        0 <= k < before.len() ==> (#[trigger] after[k]).spec_base() == before[k].spec_base()
            && after[k].spec_bits() == before[k].spec_bits()
    &&& forall|k: int|
        0 <= k < before.len() && !touched.contains(k as usize) ==> (#[trigger] after[k]).spec_prev()
            == before[k].spec_prev() && after[k].spec_next() == before[k].spec_next()
}

/// Distinct handles below `n` are at most `n`.
pub proof fn lemma_distinct_handles(s: Seq<usize>, n: nat)
    requires
        s.no_duplicates(),
        forall|i: int| 0 <= i < s.len() ==> #[trigger] s[i] < n,
    ensures
        s.len() <= n,
    decreases n,
{
    if n == 0 {
        if s.len() > 0 {
            assert(s[0] < n);
        }
    } else {
        let top = (n - 1) as usize;
        if s.contains(top) {
            let k = s.index_of(top);
            let rest = s.remove(k);
            lemma_remove_distinct(s, k);
            assert forall|i: int| 0 <= i < rest.len() implies #[trigger] rest[i] < (n - 1) as nat by {
                let i0 = if i < k {
                    i
                } else {
                    i + 1
                };
                assert(rest[i] == s[i0]);
                assert(s[i0] < n);
                assert(s[i0] != s[k]);
            }
            lemma_distinct_handles(rest, (n - 1) as nat);
        } else {
            assert forall|i: int| 0 <= i < s.len() implies #[trigger] s[i] < (n - 1) as nat by {
                assert(s[i] < n);
                assert(s.contains(s[i]));
            }
            lemma_distinct_handles(s, (n - 1) as nat);
        }
    }
}

/// Taking one handle out of distinct handles leaves distinct handles.
pub proof fn lemma_remove_distinct(s: Seq<usize>, k: int)
    requires
        s.no_duplicates(),
        0 <= k < s.len(),
    ensures
        s.remove(k).no_duplicates(),
        !s.remove(k).contains(s[k]),
        forall|h: usize| h != s[k] ==> s.remove(k).contains(h) == s.contains(h),
{
    let rest = s.remove(k);
    assert forall|a: int, b: int|
        0 <= a < rest.len() && 0 <= b < rest.len() && a != b implies rest[a] != rest[b] by {
        let a0 = if a < k {
            a
        } else {
            a + 1
        };
        let b0 = if b < k {
            b
        } else {
            b + 1
        };
        assert(rest[a] == s[a0] && rest[b] == s[b0]);
    }
    if rest.contains(s[k]) {
        let a = rest.index_of(s[k]);
        let a0 = if a < k {
            a
        } else {
            a + 1
        };
        assert(rest[a] == s[a0]);
    }
    assert forall|h: usize| h != s[k] implies rest.contains(h) == s.contains(h) by {
        if s.contains(h) {
            let a0 = s.index_of(h);
            let a = if a0 < k {
                a0
            } else {
                a0 - 1
            };
            assert(rest[a] == h);
        }
        if rest.contains(h) {
            let a = rest.index_of(h);
            let a0 = if a < k {
                a
            } else {
                a + 1
            };
            assert(s[a0] == h);
        }
    }
}

/// The page `page` and the pages that its two links name.
pub open spec fn neighbourhood<T: AllocablePage>(arena: Seq<T>, page: usize) -> Set<usize> {
    Set::new(
        |h: usize|
            h == page || Some(h) == arena[page as int].spec_prev() || Some(h) == arena[page as int].spec_next(),
    )
}

/// A list stays intact when the links of pages outside it change: two
/// lists of one arena that share no page do not disturb each other.
pub proof fn lemma_wf_frame<T: AllocablePage>(
    list: &PageList,
    before: Seq<T>,
    after: Seq<T>,
    touched: Set<usize>,
)
    requires
        list.wf(before),
        same_but_links(before, after, touched),
        forall|h: usize| touched.contains(h) ==> !list@.contains(h),
    ensures
        list.wf(after),
{
    let chain = list@;
    assert forall|i: int| 0 <= i < chain.len() implies !touched.contains(#[trigger] chain[i]) by {
        assert(chain.contains(chain[i]));
    }
    assert forall|i: int, j: int| 0 <= i && j == i + 1 && j < chain.len() implies after[
        #[trigger] chain[i] as int
    ].spec_next() == Some(#[trigger] chain[j]) by {
        assert(before[chain[i] as int].spec_next() == Some(chain[j]));
    }
    assert forall|i: int, j: int| 0 <= i && j == i + 1 && j < chain.len() implies after[
        #[trigger] chain[j] as int
    ].spec_prev() == Some(#[trigger] chain[i]) by {
        assert(before[chain[j] as int].spec_prev() == Some(chain[i]));
    }
    if chain.len() > 0 {
        assert(!touched.contains(chain[0]));
        assert(!touched.contains(chain[chain.len() - 1]));
    }
}

/// A page that is put at the front of a list is the first to be popped,
/// and the list is then as it was before.
pub proof fn lemma_insert_then_pop(chain: Seq<usize>, page: usize)
    ensures
        first_of(seq![page] + chain) == Some(page),
        (seq![page] + chain).drop_first() == chain,
{
    assert((seq![page] + chain).drop_first() =~= chain);
}

/// A doubly-linked list of pages of one arena.
pub struct PageList {
    /// The first page of the list.
    head: Rawlink,
    /// Number of pages in the list.
    elements: usize,
    /// The handles of the pages of the list, from the head on.
    chain: Ghost<Seq<usize>>,
}

impl View for PageList {
    type V = Seq<usize>;

    closed spec fn view(&self) -> Seq<usize> {
        self.chain@
    }
}

impl PageList {
    /// The handle of the first page.
    pub closed spec fn spec_head(&self) -> Option<usize> {
        self.head@
    }

    /// The number of pages that the list counts.
    pub closed spec fn spec_elements(&self) -> usize {
        self.elements
    }

    /// The list is intact in `arena`: the chain from its head is finite,
    /// visits each of its pages once, is mirrored by the `prev` links, and
    /// has as many pages as the list counts.
    pub open spec fn wf<T: AllocablePage>(&self, arena: Seq<T>) -> bool {
        &&& self.spec_elements() == self@.len()
        &&& self@.no_duplicates()
        &&& forward_chain(arena, self.spec_head(), self@)
        &&& backward_chain(arena, self@)
    }

    /// The empty list.
    pub fn new() -> (l: PageList)
        ensures
            l@ == Seq::<usize>::empty(),
            l.spec_head() is None,
            l.spec_elements() == 0,
    {
        PageList { head: Rawlink::none(), elements: 0, chain: Ghost(Seq::empty()) }
    }

    /// The handle of the first page, if the list has one.
    pub fn head(&self) -> (h: Option<usize>)
        ensures
            h == self.spec_head(),
    {
        self.head.resolve()
    }

    /// Number of pages in the list.
    pub fn elements(&self) -> (n: usize)
        ensures
            n == self.spec_elements(),
    {
        self.elements
    }

    /// An iterator over the handles of the pages, from the head on.
    pub fn iter_mut(&self) -> (it: ObjectPageIterMut)
        ensures
            it@ == self@,
            it.spec_head() == self.spec_head(),
    {
        ObjectPageIterMut { head: self.head, remaining: Ghost(self.chain@) }
    }

    /// Puts the page `new_head`, which is in no list, at the front.
    ///
    /// The page keeps the `next` link that it has when the list is empty,
    /// so that link must be empty then, as it is for a page in no list.
    pub fn insert_front<T: AllocablePage>(&mut self, arena: &mut [T], new_head: usize)
        requires
            old(self).wf(old(arena)@),
            new_head < old(arena)@.len(),
            !old(self)@.contains(new_head),
            old(self)@.len() == 0 ==> old(arena)@[new_head as int].spec_next() is None,
        ensures
            final(self).wf(final(arena)@),
            final(self)@ == seq![new_head] + old(self)@,
            same_but_links(
                old(arena)@,
                final(arena)@,
                if old(self)@.len() == 0 {
                    set![new_head]
                } else {
                    set![new_head, old(self)@[0]]
                },
            ),
    {
        let ghost chain = self.chain@;
        let ghost before = arena@;
        proof {
            let longer = chain.push(new_head);
            assert(longer.no_duplicates()) by {
                assert forall|a: int, b: int|
                    0 <= a < longer.len() && 0 <= b < longer.len() && a != b implies longer[a]
                    != longer[b] by {
                    if a < chain.len() {
                        assert(chain.contains(longer[a]));
                    }
                    if b < chain.len() {
                        assert(chain.contains(longer[b]));
                    }
                }
            }
            lemma_distinct_handles(longer, before.len());
        }
        match self.head.resolve() {
            None => {
                *arena[new_head].prev() = Rawlink::none();
                self.head = Rawlink::some(new_head);
            },
            Some(head) => {
                assert(head == chain[0]);
                *arena[new_head].prev() = Rawlink::none();
                *arena[head].prev() = Rawlink::some(new_head);
                *arena[new_head].next() = Rawlink::some(head);
                self.head = Rawlink::some(new_head);
            },
        }
        self.elements += 1;
        self.chain = Ghost(seq![new_head] + chain);
        proof {
            let after = arena@;
            let longer = seq![new_head] + chain;
            assert forall|a: int, b: int|
                0 <= a < longer.len() && 0 <= b < longer.len() && a != b implies longer[a]
                != longer[b] by {
                if a > 0 {
                    assert(chain.contains(chain[a - 1]));
                }
                if b > 0 {
                    assert(chain.contains(chain[b - 1]));
                }
            }
            assert forall|i: int, j: int| 0 <= i && j == i + 1 && j < longer.len() implies after[
                #[trigger] longer[i] as int
            ].spec_next() == Some(#[trigger] longer[j]) by {
                if i > 0 {
                    assert(chain.contains(chain[i - 1]));
                    assert(before[chain[i - 1] as int].spec_next() == Some(chain[j - 1]));
                }
            }
            assert forall|i: int, j: int| 0 <= i && j == i + 1 && j < longer.len() implies after[
                #[trigger] longer[j] as int
            ].spec_prev() == Some(#[trigger] longer[i]) by {
                if i > 0 {
                    assert(chain.contains(chain[j - 1]));
                    assert(before[chain[j - 1] as int].spec_prev() == Some(chain[i - 1]));
                }
            }
            if chain.len() > 0 {
                let last = chain[chain.len() - 1];
                assert(chain.contains(last));
                assert(longer[longer.len() - 1] == last);
            }
        }
    }

    /// Takes the page `slab_page`, which is in this list, out of it.
    pub fn remove_from_list<T: AllocablePage>(&mut self, arena: &mut [T], slab_page: usize)
        requires
            old(self).wf(old(arena)@),
            old(self)@.contains(slab_page),
        ensures
            final(self).wf(final(arena)@),
            final(self)@ == old(self)@.remove(old(self)@.index_of(slab_page)),
            !final(self)@.contains(slab_page),
            final(arena)@[slab_page as int].spec_prev() is None,
            final(arena)@[slab_page as int].spec_next() is None,
            same_but_links(old(arena)@, final(arena)@, neighbourhood(old(arena)@, slab_page)),
    {
        let ghost chain = self.chain@;
        let ghost before = arena@;
        let ghost k = chain.index_of(slab_page);
        proof {
            assert(chain[k] == slab_page);
            if k > 0 {
                assert(before[chain[k] as int].spec_prev() == Some(chain[k - 1]));
                assert(chain[k - 1] != chain[k]);
            }
            if k + 1 < chain.len() {
                assert(before[chain[k] as int].spec_next() == Some(chain[k + 1]));
                assert(chain[k + 1] != chain[k]);
            }
            if k > 0 && k + 1 < chain.len() {
                assert(chain[k - 1] != chain[k + 1]);
            }
            lemma_remove_distinct(chain, k);
        }
        let prev = arena[slab_page].prev_link().resolve();
        let next = arena[slab_page].next_link().resolve();
        match prev {
            None => {
                self.head = match next {
                    None => Rawlink::none(),
                    Some(n) => Rawlink::some(n),
                };
            },
            Some(p) => {
                *arena[p].next() = match next {
                    None => Rawlink::none(),
                    Some(n) => Rawlink::some(n),
                };
            },
        }
        match next {
            None => (),
            Some(n) => {
                *arena[n].prev() = match prev {
                    None => Rawlink::none(),
                    Some(p) => Rawlink::some(p),
                };
            },
        }
        *arena[slab_page].prev() = Rawlink::none();
        *arena[slab_page].next() = Rawlink::none();
        self.elements -= 1;
        self.chain = Ghost(chain.remove(k));
        proof {
            let after = arena@;
            let rest = chain.remove(k);
            assert forall|i: int| 0 <= i < rest.len() implies #[trigger] rest[i] < after.len() by {
                let i0 = if i < k {
                    i
                } else {
                    i + 1
                };
                assert(rest[i] == chain[i0]);
            }
            assert forall|i: int, j: int| 0 <= i && j == i + 1 && j < rest.len() implies after[
                #[trigger] rest[i] as int
            ].spec_next() == Some(#[trigger] rest[j]) by {
                let i0 = if i < k {
                    i
                } else {
                    i + 1
                };
                let j0 = if j < k {
                    j
                } else {
                    j + 1
                };
                assert(rest[i] == chain[i0] && rest[j] == chain[j0]);
                assert(chain[i0] != chain[k]);
                if j0 == i0 + 1 {
                    assert(before[chain[i0] as int].spec_next() == Some(chain[j0]));
                    if k > 0 {
                        assert(chain[i0] != chain[k - 1]);
                    }
                } else {
                    assert(i0 == k - 1 && j0 == k + 1);
                }
            }
            assert forall|i: int, j: int| 0 <= i && j == i + 1 && j < rest.len() implies after[
                #[trigger] rest[j] as int
            ].spec_prev() == Some(#[trigger] rest[i]) by {
                let i0 = if i < k {
                    i
                } else {
                    i + 1
                };
                let j0 = if j < k {
                    j
                } else {
                    j + 1
                };
                assert(rest[i] == chain[i0] && rest[j] == chain[j0]);
                assert(chain[j0] != chain[k]);
                if j0 == i0 + 1 {
                    assert(before[chain[j0] as int].spec_prev() == Some(chain[i0]));
                    if k + 1 < chain.len() {
                        assert(chain[j0] != chain[k + 1]);
                    }
                } else {
                    assert(i0 == k - 1 && j0 == k + 1);
                }
            }
            if rest.len() > 0 {
                let last = rest.len() - 1;
                let last0 = if last < k {
                    last
                } else {
                    last + 1
                };
                assert(rest[last] == chain[last0]);
                if last0 == chain.len() - 1 {
                    assert(before[chain[last0] as int].spec_next() is None);
                } else {
                    assert(last0 == k - 1 && k == chain.len() - 1);
                }
                let first0: int = if 0 < k {
                    0
                } else {
                    1
                };
                assert(rest[0] == chain[first0]);
                if first0 == 0 {
                    assert(before[chain[0] as int].spec_prev() is None);
                    if k + 1 < chain.len() {
                        assert(chain[0] != chain[k + 1]);
                    }
                }
            }
        }
    }

    /// Takes the first page out of the list and returns its handle.
    pub fn pop<T: AllocablePage>(&mut self, arena: &mut [T]) -> (r: Option<usize>)
        requires
            old(self).wf(old(arena)@),
        ensures
            final(self).wf(final(arena)@),
            r == first_of(old(self)@),
            r is None ==> final(self)@ == old(self)@ && final(arena)@ == old(arena)@,
            r matches Some(h) ==> {
                &&& final(self)@ == old(self)@.drop_first()
                &&& !final(self)@.contains(h)
                &&& final(arena)@[h as int].spec_prev() is None
                &&& final(arena)@[h as int].spec_next() is None
                &&& same_but_links(old(arena)@, final(arena)@, neighbourhood(old(arena)@, h))
            },
    {
        match self.head.resolve() {
            None => None,
            Some(head) => {
                assert(self@[0] == head);
                assert(self@.contains(head));
                assert(self@.index_of(head) == 0);
                assert(self@.remove(0) =~= self@.drop_first());
                self.remove_from_list(arena, head);
                Some(head)
            },
        }
    }

    /// Whether the page `s` is in the list.
    pub fn contains<T: AllocablePage>(&self, arena: &[T], s: usize) -> (r: bool)
        requires
            self.wf(arena@),
        ensures
            r == self@.contains(s),
    {
        let mut it = self.iter_mut();
        let ghost mut visited: int = 0;
        loop
            invariant
                self.wf(arena@),
                it.wf(arena@),
                0 <= visited <= self@.len(),
                it@ == self@.subrange(visited, self@.len() as int),
                forall|i: int| 0 <= i < visited ==> self@[i] != s,
            decreases it@.len(),
        {
            match it.next(arena) {
                None => {
                    return false;
                },
                Some(slab_page) => {
                    assert(slab_page == self@[visited]);
                    if slab_page == s {
                        return true;
                    }
                    proof {
                        assert(it@ =~= self@.subrange(visited + 1, self@.len() as int));
                        visited = visited + 1;
                    }
                },
            }
        }
    }
}

/// A pass over the pages of a list, from its head on.
pub struct ObjectPageIterMut {
    /// The page that comes next.
    head: Rawlink,
    /// The handles that are still to come.
    remaining: Ghost<Seq<usize>>,
}

impl View for ObjectPageIterMut {
    type V = Seq<usize>;

    closed spec fn view(&self) -> Seq<usize> {
        self.remaining@
    }
}

impl ObjectPageIterMut {
    /// The handle that comes next.
    pub closed spec fn spec_head(&self) -> Option<usize> {
        self.head@
    }

    /// The pages still to come are chained in `arena`, in order.
    pub open spec fn wf<T: AllocablePage>(&self, arena: Seq<T>) -> bool {
        forward_chain(arena, self.spec_head(), self@)
    }

    /// Returns the handle of the next page and moves on, or returns nothing
    /// at the end of the list.
    pub fn next<T: AllocablePage>(&mut self, arena: &[T]) -> (r: Option<usize>)
        requires
            old(self).wf(arena@),
        ensures
            final(self).wf(arena@),
            r == first_of(old(self)@),
            final(self)@ == (if old(self)@.len() == 0 {
                old(self)@
            } else {
                old(self)@.drop_first()
            }),
    {
        match self.head.resolve() {
            None => None,
            Some(page) => {
                let ghost chain = self.remaining@;
                assert(page == chain[0]);
                self.head = arena[page].next_link();
                self.remaining = Ghost(chain.drop_first());
                proof {
                    let rest = chain.drop_first();
                    if chain.len() > 1 {
                        assert(arena@[chain[0] as int].spec_next() == Some(chain[1]));
                        assert(rest[0] == chain[1]);
                    }
                    assert forall|i: int| 0 <= i < rest.len() implies #[trigger] rest[i]
                        < arena@.len() by {
                        assert(rest[i] == chain[i + 1]);
                    }
                    assert forall|i: int, j: int|
                        0 <= i && j == i + 1 && j < rest.len() implies arena@[#[trigger] rest[i] as int].spec_next()
                        == Some(#[trigger] rest[j]) by {
                        assert(rest[i] == chain[i + 1] && rest[j] == chain[j + 1]);
                    }
                    if rest.len() > 0 {
                        assert(rest[rest.len() - 1] == chain[chain.len() - 1]);
                    }
                }
                Some(page)
            },
        }
    }
}

} // verus!
