//! The token heap: a budgeted allocator of context segments.
//!
//! A context segment is to LLM context tokens what a `malloc` block is to
//! bytes: it has a capacity charged against the heap's total budget, and it
//! holds the text appended to it.
use vstd::prelude::*;
use crate::text::{nat_digits, u64_to_string, concat3, concat5};

verus! {

/// Errors reported by the token heap.
#[derive(Debug, PartialEq, Eq)]
pub enum HeapError {
    /// The request exceeds what is left of the budget.
    Overflow { requested: usize, available: usize },
    /// No live segment carries this handle.
    InvalidHandle(u32),
}

/// A segment of the token context heap.
#[derive(Debug)]
pub struct CtxSegment {
    pub id: u32,
    pub capacity: usize,
    pub content: String,
}

/// Abstract view of one segment.
pub struct SegView {
    pub id: u32,
    pub capacity: nat,
    pub content: Seq<char>,
}

impl CtxSegment {
    pub open spec fn model(&self) -> SegView {
        SegView { id: self.id, capacity: self.capacity as nat, content: self.content@ }
    }
}

/// Sum of the capacities of a run of segments.
pub open spec fn cap_sum(s: Seq<SegView>) -> nat
    decreases s.len(),
{
    if s.len() == 0 {
        0
    } else {
        cap_sum(s.drop_last()) + s.last().capacity
    }
}

/// The index of the segment with handle `id`, if any.
pub open spec fn seg_index(s: Seq<SegView>, id: u32) -> Option<int> {
    if exists|i: int| 0 <= i < s.len() && s[i].id == id {
        Some(choose|i: int| 0 <= i < s.len() && s[i].id == id)
    } else {
        None
    }
}

/// Token Heap — analogous to a memory heap, but for LLM context tokens.
pub struct TokenHeap {
    segments: Vec<CtxSegment>,
    next_id: u32,
    total_capacity: usize,
    used: usize,
}

impl TokenHeap {
    /// The live segments, in allocation order.
    pub closed spec fn segs(&self) -> Seq<SegView> {
        self.segments@.map_values(|s: CtxSegment| s.model())
    }

    /// The handle that the next allocation returns.
    pub closed spec fn next_handle(&self) -> u32 {
        self.next_id
    }

    /// The total token budget.
    pub closed spec fn capacity(&self) -> nat {
        self.total_capacity as nat
    }

    /// Tokens currently charged against the budget.
    pub closed spec fn used_tokens(&self) -> nat {
        self.used as nat
    }

    /// Tokens still available.
    pub open spec fn available(&self) -> nat {
        if self.used_tokens() <= self.capacity() {
            (self.capacity() - self.used_tokens()) as nat
        } else {
            0
        }
    }

    /// Well-formedness: the charged tokens are the sum of the live segments'
    /// capacities, within the budget; handles are distinct and below the next one.
    pub closed spec fn wf(&self) -> bool {
        &&& self.used as nat == cap_sum(self.segs())
        &&& self.used <= self.total_capacity
        &&& forall|i: int| 0 <= i < self.segs().len() ==> #[trigger] self.segs()[i].id < self.next_id
        &&& forall|i: int, j: int|
            0 <= i < j < self.segs().len() ==> #[trigger] self.segs()[i].id != #[trigger] self.segs()[j].id
    }

    /// What holds of every heap: the charged tokens are the sum of the live
    /// segments' capacities, within the budget, and handles are distinct and
    /// below the next handle.
    pub proof fn lemma_wf(&self)
        requires
            self.wf(),
        ensures
            self.used_tokens() == cap_sum(self.segs()),
            self.used_tokens() <= self.capacity(),
            forall|i: int| 0 <= i < self.segs().len() ==> #[trigger] self.segs()[i].id < self.next_handle(),
            forall|i: int, j: int|
                0 <= i < j < self.segs().len() ==> #[trigger] self.segs()[i].id != #[trigger] self.segs()[j].id,
    {
    }

    /// A fresh heap with the given total budget and no segments.
    pub fn new(total_capacity: usize) -> (h: Self)
        ensures
            h.wf(),
            h.segs() == Seq::<SegView>::empty(),
            h.capacity() == total_capacity,
            h.used_tokens() == 0,
            h.next_handle() == 0,
    {
        let h = TokenHeap { segments: Vec::new(), next_id: 0, total_capacity, used: 0 };
        assert(h.segs() =~= Seq::<SegView>::empty());
        h
    }

    /// Tokens currently charged against the budget.
    pub fn used(&self) -> (u: usize)
        ensures
            u == self.used_tokens(),
    {
        self.used
    }

    /// Whether `allocate(tokens)` has a handle to give: false only when the
    /// request fits but every handle has been handed out.
    pub fn can_allocate(&self, tokens: usize) -> (r: bool)
        ensures
            r == (tokens > self.available() || self.next_handle() < u32::MAX),
    {
        tokens > self.total_capacity.saturating_sub(self.used) || self.next_id < u32::MAX
    }

    /// Allocate a new context segment of `tokens` tokens (analogous to malloc).
    pub fn allocate(&mut self, tokens: usize) -> (r: Result<u32, HeapError>)
        requires
            old(self).wf(),
            tokens > old(self).available() || old(self).next_handle() < u32::MAX,
        ensures
            tokens > old(self).available() ==> {
                &&& r == Err::<u32, HeapError>(
                    HeapError::Overflow { requested: tokens, available: old(self).available() as usize },
                )
                &&& final(self).segs() == old(self).segs()
                &&& final(self).used_tokens() == old(self).used_tokens()
                &&& final(self).next_handle() == old(self).next_handle()
            },
            tokens <= old(self).available() ==> {
                &&& r == Ok::<u32, HeapError>(old(self).next_handle())
                &&& final(self).segs() == old(self).segs().push(
                    SegView { id: old(self).next_handle(), capacity: tokens as nat, content: Seq::empty() },
                )
                &&& final(self).used_tokens() == old(self).used_tokens() + tokens
                &&& final(self).next_handle() == old(self).next_handle() + 1
            },
            final(self).capacity() == old(self).capacity(),
            final(self).wf(),
            final(self).used_tokens() <= final(self).capacity(),
    {
        let available = self.total_capacity.saturating_sub(self.used);
        if tokens > available {
            return Err(HeapError::Overflow { requested: tokens, available });
        }
        let id = self.next_id;
        let seg = CtxSegment { id, capacity: tokens, content: String::new() };
        let ghost old_segs = self.segs();
        self.segments.push(seg);
        self.next_id = id + 1;
        self.used = self.used + tokens;
        let ghost new_segs = self.segs();
        assert(new_segs =~= old_segs.push(
            SegView { id, capacity: tokens as nat, content: Seq::empty() },
        ));
        assert(new_segs.drop_last() =~= old_segs);
        assert forall|a: int| 0 <= a < new_segs.len() implies #[trigger] new_segs[a].id < self.next_id by {
            if a < old_segs.len() {
                assert(new_segs[a] == old_segs[a]);
            }
        }
        assert forall|a: int, b: int| 0 <= a < b < new_segs.len() implies
            #[trigger] new_segs[a].id != #[trigger] new_segs[b].id by {
            assert(new_segs[a] == old_segs[a]);
            if b < old_segs.len() {
                assert(new_segs[b] == old_segs[b]);
            }
        }
        Ok(id)
    }

    /// Index of the live segment with handle `id`.
    fn find(&self, id: u32) -> (r: Option<usize>)
        requires
            self.wf(),
        ensures
            match r {
                Some(i) => i < self.segs().len() && self.segs()[i as int].id == id
                    && seg_index(self.segs(), id) == Some(i as int),
                None => seg_index(self.segs(), id) is None,
            },
    {
                let mut i: usize = 0;
        while i < self.segments.len()
            invariant
                self.wf(),
                i <= self.segments.len(),
                self.segs().len() == self.segments.len(),
                forall|j: int| 0 <= j < i ==> self.segs()[j].id != id,
            decreases self.segments.len() - i,
        {
            if self.segments[i].id == id {
                proof {
                    assert(self.segs()[i as int].id == id);
                    let k = choose|k: int| 0 <= k < self.segs().len() && self.segs()[k].id == id;
                    if k != i {
                        if k < i {
                            assert(self.segs()[k].id != self.segs()[i as int].id);
                        } else {
                            assert(self.segs()[i as int].id != self.segs()[k].id);
                        }
                    }
                }
                return Some(i);
            }
            i = i + 1;
        }
        None
    }

    /// Look a segment up by handle.
    pub fn get(&self, id: u32) -> (r: Result<&CtxSegment, HeapError>)
        requires
            self.wf(),
        ensures
            match seg_index(self.segs(), id) {
                Some(i) => r matches Ok(seg) && seg.model() == self.segs()[i],
                None => r == Err::<&CtxSegment, HeapError>(HeapError::InvalidHandle(id)),
            },
    {
        match self.find(id) {
            Some(i) => Ok(&self.segments[i]),
            None => Err(HeapError::InvalidHandle(id)),
        }
    }

    /// The text held by a segment.
    pub fn get_content(&self, id: u32) -> (r: Result<String, HeapError>)
        requires
            self.wf(),
        ensures
            match seg_index(self.segs(), id) {
                Some(i) => r matches Ok(s) && s@ == self.segs()[i].content,
                None => r == Err::<String, HeapError>(HeapError::InvalidHandle(id)),
            },
    {
        match self.find(id) {
            Some(i) => Ok(self.segments[i].content.clone()),
            None => Err(HeapError::InvalidHandle(id)),
        }
    }

    /// Replace the text held by a segment.
    pub fn set_content(&mut self, id: u32, content: String) -> (r: Result<(), HeapError>)
        requires
            old(self).wf(),
        ensures
            final(self).wf(),
            final(self).used_tokens() <= final(self).capacity(),
            match seg_index(old(self).segs(), id) {
                Some(i) => r is Ok && final(self).segs() == old(self).segs().update(
                    i,
                    SegView { id, capacity: old(self).segs()[i].capacity, content: content@ },
                ),
                None => r == Err::<(), HeapError>(HeapError::InvalidHandle(id))
                    && final(self).segs() == old(self).segs(),
            },
            final(self).used_tokens() == old(self).used_tokens(),
            final(self).next_handle() == old(self).next_handle(),
            final(self).capacity() == old(self).capacity(),
    {
                match self.find(id) {
            Some(i) => {
                let capacity = self.segments[i].capacity;
                let ghost old_segs = self.segs();
                let ghost cview = content@;
                self.segments.set(i, CtxSegment { id, capacity, content });
                let ghost new_segs = self.segs();
                assert(new_segs =~= old_segs.update(
                    i as int,
                    SegView { id, capacity: capacity as nat, content: cview },
                ));
                proof { lemma_cap_sum_update(old_segs, i as int, new_segs[i as int]); }
                assert forall|a: int, b: int| 0 <= a < b < new_segs.len() implies
                    #[trigger] new_segs[a].id != #[trigger] new_segs[b].id by {
                    assert(old_segs[a].id != old_segs[b].id);
                }
                assert forall|a: int| 0 <= a < new_segs.len() implies #[trigger] new_segs[a].id
                    < self.next_id by {
                    assert(old_segs[a].id < self.next_id);
                }
                Ok(())
            },
            None => Err(HeapError::InvalidHandle(id)),
        }
    }

    /// Append text to a context segment.
    pub fn append(&mut self, id: u32, text: &str) -> (r: Result<(), HeapError>)
        requires
            old(self).wf(),
        ensures
            final(self).wf(),
            final(self).used_tokens() <= final(self).capacity(),
            match seg_index(old(self).segs(), id) {
                Some(i) => r is Ok && final(self).segs() == old(self).segs().update(
                    i,
                    SegView {
                        id,
                        capacity: old(self).segs()[i].capacity,
                        content: old(self).segs()[i].content + text@,
                    },
                ),
                None => r == Err::<(), HeapError>(HeapError::InvalidHandle(id))
                    && final(self).segs() == old(self).segs(),
            },
            final(self).used_tokens() == old(self).used_tokens(),
            final(self).next_handle() == old(self).next_handle(),
            final(self).capacity() == old(self).capacity(),
    {
        match self.find(id) {
            Some(i) => {
                let mut content = self.segments[i].content.clone();
                content.append(text);
                self.set_content(id, content)
            },
            None => Err(HeapError::InvalidHandle(id)),
        }
    }

    /// Free a context segment (analogous to free).
    pub fn free(&mut self, id: u32) -> (r: Result<(), HeapError>)
        requires
            old(self).wf(),
        ensures
            final(self).wf(),
            final(self).used_tokens() <= final(self).capacity(),
            match seg_index(old(self).segs(), id) {
                Some(i) => {
                    &&& r is Ok
                    &&& final(self).segs() == old(self).segs().remove(i)
                    &&& final(self).used_tokens() == old(self).used_tokens() - old(self).segs()[i].capacity
                },
                None => {
                    &&& r == Err::<(), HeapError>(HeapError::InvalidHandle(id))
                    &&& final(self).segs() == old(self).segs()
                    &&& final(self).used_tokens() == old(self).used_tokens()
                },
            },
            final(self).next_handle() == old(self).next_handle(),
            final(self).capacity() == old(self).capacity(),
    {
                match self.find(id) {
            Some(pos) => {
                let ghost old_segs = self.segs();
                let seg = self.segments.remove(pos);
                self.used = self.used.saturating_sub(seg.capacity);
                let ghost new_segs = self.segs();
                assert(new_segs =~= old_segs.remove(pos as int));
                proof { lemma_cap_sum_remove(old_segs, pos as int); }
                assert forall|a: int, b: int| 0 <= a < b < new_segs.len() implies
                    #[trigger] new_segs[a].id != #[trigger] new_segs[b].id by {
                    if a < pos {
                        if b < pos {
                            assert(old_segs[a].id != old_segs[b].id);
                        } else {
                            assert(old_segs[a].id != old_segs[b + 1].id);
                        }
                    } else {
                        assert(old_segs[a + 1].id != old_segs[b + 1].id);
                    }
                }
                assert forall|a: int| 0 <= a < new_segs.len() implies #[trigger] new_segs[a].id
                    < self.next_id by {
                    if a < pos {
                        assert(old_segs[a].id < self.next_id);
                    } else {
                        assert(old_segs[a + 1].id < self.next_id);
                    }
                }
                Ok(())
            },
            None => Err(HeapError::InvalidHandle(id)),
        }
    }
}

/// Replacing a segment by one of the same capacity leaves the sum unchanged.
proof fn lemma_cap_sum_update(s: Seq<SegView>, i: int, v: SegView)
    requires
        0 <= i < s.len(),
        v.capacity == s[i].capacity,
    ensures
        cap_sum(s.update(i, v)) == cap_sum(s),
    decreases s.len(),
{
    if i < s.len() - 1 {
        assert(s.update(i, v).drop_last() =~= s.drop_last().update(i, v));
        lemma_cap_sum_update(s.drop_last(), i, v);
    } else {
        assert(s.update(i, v).drop_last() =~= s.drop_last());
    }
}

/// Removing a segment takes its capacity off the sum.
proof fn lemma_cap_sum_remove(s: Seq<SegView>, i: int)
    requires
        0 <= i < s.len(),
    ensures
        cap_sum(s.remove(i)) + s[i].capacity == cap_sum(s),
    decreases s.len(),
{
    if i < s.len() - 1 {
        assert(s.remove(i).drop_last() =~= s.drop_last().remove(i));
        lemma_cap_sum_remove(s.drop_last(), i);
    } else {
        assert(s.remove(i) =~= s.drop_last());
    }
}

/// Allocating a segment and freeing it again gives the budget back:
/// the heap's charged tokens and live segments return to what they were.
pub proof fn law_alloc_free_balance(before: TokenHeap, mid: TokenHeap, after: TokenHeap, tokens: usize)
    requires
        before.wf(),
        mid.wf(),
        tokens <= before.available(),
        mid.segs() == before.segs().push(
            SegView { id: before.next_handle(), capacity: tokens as nat, content: Seq::empty() },
        ),
        mid.used_tokens() == before.used_tokens() + tokens,
        mid.next_handle() == before.next_handle() + 1,
        seg_index(mid.segs(), before.next_handle()) matches Some(i) && after.segs() == mid.segs().remove(i)
            && after.used_tokens() == mid.used_tokens() - mid.segs()[i].capacity,
    ensures
        after.used_tokens() == before.used_tokens(),
        after.segs() == before.segs(),
{
    before.lemma_wf();
    mid.lemma_wf();
    let n = before.segs().len() as int;
    let i = seg_index(mid.segs(), before.next_handle())->0;
    assert(mid.segs()[n].id == before.next_handle());
    if i != n {
        assert(i < n);
        assert(mid.segs()[i].id == before.segs()[i].id);
        assert(before.segs()[i].id < before.next_handle());
    }
    assert(after.segs() =~= before.segs());
}

/// With distinct handles, a handle found at `i` is found nowhere else.
proof fn lemma_seg_index_at(s: Seq<SegView>, i: int, id: u32)
    requires
        0 <= i < s.len(),
        s[i].id == id,
        forall|a: int, b: int| 0 <= a < b < s.len() ==> #[trigger] s[a].id != #[trigger] s[b].id,
    ensures
        seg_index(s, id) == Some(i),
{
    let j = choose|j: int| 0 <= j < s.len() && s[j].id == id;
    if j < i {
        assert(s[j].id != s[i].id);
    } else if i < j {
        assert(s[i].id != s[j].id);
    }
}

/// What `set_content` wrote, `get_content` reads back; every other segment
/// reads as before.
pub proof fn law_heap_write_read(heap: TokenHeap, id: u32, content: Seq<char>, other: u32)
    requires
        heap.wf(),
        seg_index(heap.segs(), id) is Some,
    ensures
        hv_content(hv_set(heap.hv(), id, content).0, id) == Ok::<Seq<char>, HeapError>(content),
        other != id ==> hv_content(hv_set(heap.hv(), id, content).0, other) == hv_content(heap.hv(), other),
{
    heap.lemma_wf();
    let s = heap.segs();
    let i = seg_index(s, id)->0;
    let s2 = s.update(i, SegView { id, capacity: s[i].capacity, content });
    assert forall|a: int, b: int| 0 <= a < b < s2.len() implies #[trigger] s2[a].id != #[trigger] s2[b].id by {
        assert(s2[a].id == s[a].id);
        assert(s2[b].id == s[b].id);
    }
    lemma_seg_index_at(s2, i, id);
    if other != id {
        if seg_index(s, other) is Some {
            let k = seg_index(s, other)->0;
            lemma_seg_index_at(s2, k, other);
        } else {
            assert(!(exists|k: int| 0 <= k < s2.len() && s2[k].id == other)) by {
                if exists|k: int| 0 <= k < s2.len() && s2[k].id == other {
                    let k = choose|k: int| 0 <= k < s2.len() && s2[k].id == other;
                    assert(s[k].id == other);
                }
            }
        }
    }
}

/// `append` adds the text to the end of what the segment held.
pub proof fn law_heap_append_read(heap: TokenHeap, id: u32, text: Seq<char>)
    requires
        heap.wf(),
        hv_content(heap.hv(), id) is Ok,
    ensures
        hv_content(hv_append(heap.hv(), id, text).0, id) == Ok::<Seq<char>, HeapError>(
            hv_content(heap.hv(), id)->Ok_0 + text,
        ),
{
    let i = seg_index(heap.segs(), id)->0;
    law_heap_write_read(heap, id, heap.segs()[i].content + text, id);
}

/// A freed handle is no longer valid: reading it fails.
pub proof fn law_heap_freed_handle_invalid(heap: TokenHeap, id: u32)
    requires
        heap.wf(),
    ensures
        hv_content(hv_free(heap.hv(), id).0, id) == Err::<Seq<char>, HeapError>(HeapError::InvalidHandle(id)),
{
    heap.lemma_wf();
    let s = heap.segs();
    if seg_index(s, id) is Some {
        let i = seg_index(s, id)->0;
        let s2 = s.remove(i);
        assert(!(exists|k: int| 0 <= k < s2.len() && s2[k].id == id)) by {
            if exists|k: int| 0 <= k < s2.len() && s2[k].id == id {
                let k = choose|k: int| 0 <= k < s2.len() && s2[k].id == id;
                if k < i {
                    assert(s[k].id == id);
                    assert(s[k].id != s[i].id);
                } else {
                    assert(s[k + 1].id == id);
                    assert(s[i].id != s[k + 1].id);
                }
            }
        }
    }
}

/// A fresh allocation hands out a new handle whose segment is empty, and
/// leaves every earlier segment as it was.
pub proof fn law_heap_alloc_fresh(heap: TokenHeap, tokens: usize, other: u32)
    requires
        heap.wf(),
        tokens <= heap.available(),
    ensures
        hv_alloc(heap.hv(), tokens).1 == Ok::<u32, HeapError>(heap.next_handle()),
        hv_content(hv_alloc(heap.hv(), tokens).0, heap.next_handle()) == Ok::<Seq<char>, HeapError>(Seq::empty()),
        other != heap.next_handle() ==> hv_content(hv_alloc(heap.hv(), tokens).0, other) == hv_content(
            heap.hv(),
            other,
        ),
{
    heap.lemma_wf();
    let s = heap.segs();
    let n = s.len() as int;
    let s2 = hv_alloc(heap.hv(), tokens).0.segs;
    assert(s2 == s.push(SegView { id: heap.next_handle(), capacity: tokens as nat, content: Seq::empty() }));
    assert forall|a: int, b: int| 0 <= a < b < s2.len() implies #[trigger] s2[a].id != #[trigger] s2[b].id by {
        if b == n {
            assert(s[a].id < heap.next_handle());
        } else {
            assert(s2[a] == s[a]);
            assert(s2[b] == s[b]);
        }
    }
    lemma_seg_index_at(s2, n, heap.next_handle());
    if other != heap.next_handle() {
        if seg_index(s, other) is Some {
            let k = seg_index(s, other)->0;
            assert(s2[k] == s[k]);
            lemma_seg_index_at(s2, k, other);
        } else {
            assert(!(exists|k: int| 0 <= k < s2.len() && s2[k].id == other)) by {
                if exists|k: int| 0 <= k < s2.len() && s2[k].id == other {
                    let k = choose|k: int| 0 <= k < s2.len() && s2[k].id == other;
                    assert(k < n);
                    assert(s[k].id == other);
                }
            }
        }
    }
}

/// Handles are never reused. Along any run of heap operations, the next
/// handle never goes down (every operation keeps it or, for a successful
/// `allocate`, raises it by one), so a handle handed out at one step is
/// below every handle handed out at a later step.
pub proof fn law_handles_never_reused(hs: Seq<TokenHeap>, k: int, l: int)
    requires
        forall|i: int| 0 <= i < hs.len() - 1 ==> #[trigger] hs[i].next_handle() <= hs[i + 1].next_handle(),
        0 <= k < l < hs.len(),
        hs[k + 1].next_handle() == hs[k].next_handle() + 1,
    ensures
        hs[k].next_handle() < hs[l].next_handle(),
    decreases l - k,
{
    if l > k + 1 {
        law_handles_never_reused(hs, k, l - 1);
        assert(hs[l - 1].next_handle() <= hs[l].next_handle());
    }
}

/// The charged tokens never exceed the budget, whatever operations ran.
pub proof fn law_within_budget(heap: TokenHeap)
    requires
        heap.wf(),
    ensures
        heap.used_tokens() <= heap.capacity(),
        heap.used_tokens() == cap_sum(heap.segs()),
{
    heap.lemma_wf();
}

/// The whole state of a heap, as the virtual machine's specification sees it.
pub struct HeapV {
    pub segs: Seq<SegView>,
    pub next: u32,
    pub cap: nat,
    pub used: nat,
}

impl TokenHeap {
    pub open spec fn hv(&self) -> HeapV {
        HeapV { segs: self.segs(), next: self.next_handle(), cap: self.capacity(), used: self.used_tokens() }
    }
}

pub open spec fn hv_available(h: HeapV) -> nat {
    if h.used <= h.cap {
        (h.cap - h.used) as nat
    } else {
        0
    }
}

/// `allocate` on the heap `h`.
pub open spec fn hv_alloc(h: HeapV, tokens: usize) -> (HeapV, Result<u32, HeapError>) {
    if tokens > hv_available(h) {
        (h, Err(HeapError::Overflow { requested: tokens, available: hv_available(h) as usize }))
    } else {
        (
            HeapV {
                segs: h.segs.push(SegView { id: h.next, capacity: tokens as nat, content: Seq::empty() }),
                next: (h.next + 1) as u32,
                used: (h.used + tokens) as nat,
                ..h
            },
            Ok(h.next),
        )
    }
}

/// `set_content` on the heap `h`.
pub open spec fn hv_set(h: HeapV, id: u32, content: Seq<char>) -> (HeapV, Result<(), HeapError>) {
    match seg_index(h.segs, id) {
        Some(i) => (
            HeapV { segs: h.segs.update(i, SegView { id, capacity: h.segs[i].capacity, content }), ..h },
            Ok(()),
        ),
        None => (h, Err(HeapError::InvalidHandle(id))),
    }
}

/// `append` on the heap `h`.
pub open spec fn hv_append(h: HeapV, id: u32, text: Seq<char>) -> (HeapV, Result<(), HeapError>) {
    match seg_index(h.segs, id) {
        Some(i) => hv_set(h, id, h.segs[i].content + text),
        None => (h, Err(HeapError::InvalidHandle(id))),
    }
}

/// `free` on the heap `h`.
pub open spec fn hv_free(h: HeapV, id: u32) -> (HeapV, Result<(), HeapError>) {
    match seg_index(h.segs, id) {
        Some(i) => (HeapV { segs: h.segs.remove(i), used: (h.used - h.segs[i].capacity) as nat, ..h }, Ok(())),
        None => (h, Err(HeapError::InvalidHandle(id))),
    }
}

/// `get_content` on the heap `h`.
pub open spec fn hv_content(h: HeapV, id: u32) -> Result<Seq<char>, HeapError> {
    match seg_index(h.segs, id) {
        Some(i) => Ok(h.segs[i].content),
        None => Err(HeapError::InvalidHandle(id)),
    }
}

/// The text of a heap error.
pub open spec fn heap_error_text(e: HeapError) -> Seq<char> {
    match e {
        HeapError::Overflow { requested, available } => "context overflow: requested "@ + nat_digits(
            requested as nat,
        ) + " tokens but only "@ + nat_digits(available as nat) + " available"@,
        HeapError::InvalidHandle(h) => "invalid segment handle: "@ + nat_digits(h as nat),
    }
}

impl HeapError {
    /// The error's text (see [`heap_error_text`]).
    pub fn message(&self) -> (r: String)
        ensures
            r@ == heap_error_text(*self),
    {
        match self {
            HeapError::Overflow { requested, available } => {
                let a = u64_to_string(*requested as u64);
                let b = u64_to_string(*available as u64);
                concat5("context overflow: requested ", a.as_str(), " tokens but only ", b.as_str(), " available")
            },
            HeapError::InvalidHandle(h) => {
                let a = u64_to_string(*h as u64);
                crate::text::concat2("invalid segment handle: ", a.as_str())
            },
        }
    }
}

} // verus!
