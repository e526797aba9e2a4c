//! Where things lie in the memory of the graphics hardware.

use crate::nvn::{
    align_up, aligned, is_power, is_power_of_two, law_aligned, lemma_is_power, lemma_page_alignment,
    BufferAddress, PAGE_ALIGNMENT,
};
use vstd::prelude::*;

verus! {

/// Rounds a size up to a multiple of the alignment, if there is one.
fn checked_align_up(size: usize, alignment: usize) -> (r: Option<usize>)
    requires
        is_power(alignment as nat),
    ensures
        r is Some <==> size + alignment - 1 <= usize::MAX,
        r matches Some(n) ==> n == aligned(size as int, alignment as int),
{
    proof {
        lemma_is_power(alignment as nat);
    }
    if size <= usize::MAX - (alignment - 1) {
        Some(align_up(size, alignment))
    } else {
        None
    }
}

/// The size and the alignment of a block of memory.
#[derive(Copy, Clone, Debug, PartialEq, Eq, Structural)]
pub struct PoolLayout {
    pub size: usize,
    pub align: usize,
}

/// The alignment that is asked for, or that of a page.
pub open spec fn asked_alignment(alignment: Option<usize>) -> usize {
    match alignment {
        Some(a) => a,
        None => PAGE_ALIGNMENT,
    }
}

/// The larger one of the alignment and that of a page.
pub open spec fn pool_alignment(alignment: Option<usize>) -> usize {
    if asked_alignment(alignment) > PAGE_ALIGNMENT {
        asked_alignment(alignment)
    } else {
        PAGE_ALIGNMENT
    }
}

/// Can a pool of this size be allocated with this alignment? An alignment is a power of two, and all
/// memory up to the next multiple of it can be addressed.
pub open spec fn has_pool_layout(size: usize, alignment: Option<usize>) -> bool {
    &&& is_power(asked_alignment(alignment) as nat)
    &&& size + 0xFFF <= usize::MAX
    &&& aligned(size as int, 0x1000) + pool_alignment(alignment) - 1 <= isize::MAX
}

/// The memory of a pool: whole pages.
pub fn pool_layout(size: usize, alignment: Option<usize>) -> (r: Option<PoolLayout>)
    ensures
        r is Some <==> has_pool_layout(size, alignment),
        r matches Some(layout) ==> {
            &&& layout.size == aligned(size as int, 0x1000)
            &&& layout.align == pool_alignment(alignment)
            &&& layout.size >= size
            &&& is_power(layout.align as nat)
        },
{
    let asked: usize = match alignment {
        Some(a) => a,
        None => PAGE_ALIGNMENT,
    };
    proof {
        lemma_page_alignment();
        law_aligned(size as int, 0x1000);
    }
    if !is_power_of_two(asked) {
        return None;
    }
    let align: usize = if asked > PAGE_ALIGNMENT {
        asked
    } else {
        PAGE_ALIGNMENT
    };
    let Some(size) = checked_align_up(size, PAGE_ALIGNMENT) else {
        return None;
    };
    let limit: usize = isize::MAX as usize;
    if align - 1 > limit || size > limit - (align - 1) {
        None
    } else {
        Some(PoolLayout { size, align })
    }
}

/// The number of textures that are drawn to in turn.
pub const SWAPCHAIN_TEXTURE_COUNT: usize = 3;

/// Where the textures that are drawn to in turn lie.
#[derive(Copy, Clone, Debug, PartialEq, Eq, Structural)]
pub struct SwapChainLayout {
    pub offset_0: usize,
    pub offset_1: usize,
    pub offset_2: usize,
    pub total_size: usize,
}

/// Puts the textures that are drawn to in turn side by side. `None` if the alignment is no power of two
/// or the memory would be too large.
pub fn swap_chain_layout(size: usize, align: usize) -> (r: Option<SwapChainLayout>)
    ensures
        r is Some <==> is_power(align as nat) && size + align - 1 <= usize::MAX && 3 * aligned(
            size as int,
            align as int,
        ) <= usize::MAX,
        r matches Some(layout) ==> {
            let stride = aligned(size as int, align as int);
            &&& layout.offset_0 == 0
            &&& layout.offset_1 == stride
            &&& layout.offset_2 == 2 * stride
            &&& layout.total_size == 3 * stride
        },
{
    if !is_power_of_two(align) {
        return None;
    }
    proof {
        lemma_is_power(align as nat);
        law_aligned(size as int, align as int);
    }
    let Some(stride) = checked_align_up(size, align) else {
        return None;
    };
    let Some(offset_2) = stride.checked_add(stride) else {
        return None;
    };
    let Some(total_size) = offset_2.checked_add(stride) else {
        return None;
    };
    Some(SwapChainLayout { offset_0: 0, offset_1: stride, offset_2, total_size })
}

/// Where the code of two shaders lies.
#[derive(Copy, Clone, Debug, PartialEq, Eq, Structural)]
pub struct ProgramLayout {
    pub vertex_offset: usize,
    pub fragment_offset: usize,
    pub total_size: usize,
}

/// Offset of the second shader.
pub open spec fn fragment_offset(vertex_len: int, alignment: int) -> int {
    aligned(vertex_len, alignment)
}

/// Size of the memory for both shaders. There is padding at the end.
pub open spec fn program_size(vertex_len: int, fragment_len: int, alignment: int, padding: int) -> int {
    aligned(fragment_offset(vertex_len, alignment) + fragment_len, alignment) + padding
}

/// Can the code of both shaders be put into one block of memory?
pub open spec fn has_program_layout(
    vertex_len: usize,
    fragment_len: usize,
    alignment: usize,
    padding: usize,
) -> bool {
    let offset = fragment_offset(vertex_len as int, alignment as int);
    &&& is_power(alignment as nat)
    &&& vertex_len + alignment - 1 <= usize::MAX
    &&& offset + fragment_len + alignment - 1 <= usize::MAX
    &&& program_size(vertex_len as int, fragment_len as int, alignment as int, padding as int)
        <= usize::MAX
}

/// Puts the code of two shaders one behind the other. `None` if the alignment is no power of two or the
/// memory would be too large.
pub fn program_layout(vertex_len: usize, fragment_len: usize, alignment: usize, padding: usize) -> (r: Option<
    ProgramLayout,
>)
    ensures
        r is Some <==> has_program_layout(vertex_len, fragment_len, alignment, padding),
        r matches Some(layout) ==> {
            &&& layout.vertex_offset == 0
            &&& layout.fragment_offset == fragment_offset(vertex_len as int, alignment as int)
            &&& layout.total_size == program_size(
                vertex_len as int,
                fragment_len as int,
                alignment as int,
                padding as int,
            )
            &&& vertex_len <= layout.fragment_offset
            &&& layout.fragment_offset + fragment_len <= layout.total_size
        },
{
    if !is_power_of_two(alignment) {
        return None;
    }
    proof {
        lemma_is_power(alignment as nat);
        law_aligned(vertex_len as int, alignment as int);
        law_aligned(
            fragment_offset(vertex_len as int, alignment as int) + fragment_len,
            alignment as int,
        );
    }
    let Some(offset) = checked_align_up(vertex_len, alignment) else {
        return None;
    };
    let Some(end) = offset.checked_add(fragment_len) else {
        return None;
    };
    let Some(size) = checked_align_up(end, alignment) else {
        return None;
    };
    let Some(total_size) = size.checked_add(padding) else {
        return None;
    };
    Some(ProgramLayout { vertex_offset: 0, fragment_offset: offset, total_size })
}

/// Size in bytes of the elements of a buffer.
pub open spec fn elements_size(element_size: int, len: int) -> int {
    element_size * len
}

/// Size of the memory that a buffer is given: at least one byte.
pub fn buffer_size(size: usize) -> (r: usize)
    ensures
        r == if size == 0 {
            1
        } else {
            size
        },
{
    if size == 0 {
        1
    } else {
        size
    }
}

/// The number of times a buffer that was replaced is staged before it is given up, because the hardware
/// may still read from it.
pub const STAGES_TO_KEEP: usize = 3;

/// Elements that are copied to a buffer of the graphics hardware when they have changed.
///
/// `B` is the buffer and its memory.
pub struct BufferVec<T, B> {
    cpu: Vec<T>,
    buffer: B,
    total_size: usize,
    prune_cache: Vec<(usize, B)>,
    changed: bool,
}

/// What a [`BufferVec`] holds.
pub struct BufferVecView<T, B> {
    pub cpu: Seq<T>,
    pub buffer: B,
    /// Size of the buffer's memory.
    pub total_size: nat,
    /// Buffers that were replaced, and how many more times they are staged.
    pub pruned: Seq<(usize, B)>,
    pub changed: bool,
}

impl<T, B> View for BufferVec<T, B> {
    type V = BufferVecView<T, B>;

    closed spec fn view(&self) -> BufferVecView<T, B> {
        BufferVecView {
            cpu: self.cpu@,
            buffer: self.buffer,
            total_size: self.total_size as nat,
            pruned: self.prune_cache@,
            changed: self.changed,
        }
    }
}

/// The buffers that are kept for one more stage.
pub open spec fn kept<B>(pruned: Seq<(usize, B)>) -> Seq<(usize, B)>
    decreases pruned.len(),
{
    if pruned.len() == 0 {
        Seq::empty()
    } else {
        let (count, buffer) = pruned.last();
        if count <= 1 {
            kept(pruned.drop_last())
        } else {
            kept(pruned.drop_last()).push(((count - 1) as usize, buffer))
        }
    }
}

/// The buffers that are given up.
pub open spec fn dropped<B>(pruned: Seq<(usize, B)>) -> Seq<B>
    decreases pruned.len(),
{
    if pruned.len() == 0 {
        Seq::empty()
    } else {
        let (count, buffer) = pruned.last();
        if count <= 1 {
            dropped(pruned.drop_last()).push(buffer)
        } else {
            dropped(pruned.drop_last())
        }
    }
}

/// A buffer that was just replaced is kept for two stages and given up at the third.
pub proof fn law_pruned<B>(buffer: B)
    ensures
        kept(kept(seq![(STAGES_TO_KEEP, buffer)])) == seq![(1usize, buffer)],
        dropped(seq![(STAGES_TO_KEEP, buffer)]).len() == 0,
        dropped(kept(seq![(STAGES_TO_KEEP, buffer)])).len() == 0,
        dropped(kept(kept(seq![(STAGES_TO_KEEP, buffer)]))) == seq![buffer],
        kept(kept(kept(seq![(STAGES_TO_KEEP, buffer)]))).len() == 0,
{
    lemma_one_pruned(3, buffer);
    lemma_one_pruned(2, buffer);
    lemma_one_pruned(1, buffer);
}

proof fn lemma_one_pruned<B>(count: usize, buffer: B)
    requires
        count > 0,
    ensures
        count > 1 ==> kept(seq![(count, buffer)]) == seq![((count - 1) as usize, buffer)] && dropped(
            seq![(count, buffer)],
        ) == Seq::<B>::empty(),
        count == 1 ==> kept(seq![(count, buffer)]) == Seq::<(usize, B)>::empty() && dropped(
            seq![(count, buffer)],
        ) == seq![buffer],
{
    let s = seq![(count, buffer)];
    assert(s.drop_last() =~= Seq::empty());
    assert(s.last() == (count, buffer));
    assert(kept(s.drop_last()) == Seq::<(usize, B)>::empty());
    assert(dropped(s.drop_last()) == Seq::<B>::empty());
    assert(Seq::<(usize, B)>::empty().push(((count - 1) as usize, buffer)) =~= seq![
        ((count - 1) as usize, buffer),
    ]);
    assert(Seq::<B>::empty().push(buffer) =~= seq![buffer]);
}

/// Size that a buffer which is too small is replaced with: what is needed, or twice what it had.
pub open spec fn grown_size(needed: int, total_size: int) -> int {
    if needed > 2 * total_size {
        needed
    } else {
        2 * total_size
    }
}

/// What is left to do to stage a buffer.
#[derive(Copy, Clone, Debug, PartialEq, Eq, Structural)]
pub enum StageStep {
    /// Nothing has changed.
    NoAction,
    /// The elements are copied to the buffer.
    Flush,
    /// The buffer is replaced with one of this size first.
    Grow(usize),
}

impl<T, B> BufferVec<T, B> {
    /// A vector without elements, on a buffer of the given size.
    pub fn new(buffer: B, total_size: usize) -> (r: BufferVec<T, B>)
        ensures
            r@ == (BufferVecView {
                cpu: Seq::<T>::empty(),
                buffer,
                total_size: total_size as nat,
                pruned: Seq::<(usize, B)>::empty(),
                changed: false,
            }),
    {
        let r = BufferVec {
            cpu: Vec::new(),
            buffer,
            total_size,
            prune_cache: Vec::new(),
            changed: false,
        };
        proof {
            assert(r@.cpu =~= Seq::empty());
            assert(r@.pruned =~= Seq::empty());
        }
        r
    }

    pub fn len(&self) -> (r: usize)
        ensures
            r == self@.cpu.len(),
    {
        self.cpu.len()
    }

    /// The elements.
    pub fn elements(&self) -> (r: &Vec<T>)
        ensures
            r@ == self@.cpu,
    {
        &self.cpu
    }

    pub fn buffer(&self) -> (r: &B)
        ensures
            *r == self@.buffer,
    {
        &self.buffer
    }

    pub fn truncate(&mut self, new_size: usize)
        ensures
            final(self)@ == (BufferVecView {
                cpu: if new_size < old(self)@.cpu.len() {
                    old(self)@.cpu.take(new_size as int)
                } else {
                    old(self)@.cpu
                },
                changed: true,
                ..old(self)@
            }),
    {
        self.cpu.truncate(new_size);
        self.changed = true;
        proof {
            if new_size < old(self)@.cpu.len() {
                assert(self@.cpu =~= old(self)@.cpu.take(new_size as int));
            } else {
                assert(self@.cpu =~= old(self)@.cpu);
            }
        }
    }

    pub fn push(&mut self, value: T)
        ensures
            final(self)@ == (BufferVecView {
                cpu: old(self)@.cpu.push(value),
                changed: true,
                ..old(self)@
            }),
    {
        self.cpu.push(value);
        self.changed = true;
    }

    pub fn extend(&mut self, values: Vec<T>)
        ensures
            final(self)@ == (BufferVecView {
                cpu: old(self)@.cpu + values@,
                changed: true,
                ..old(self)@
            }),
    {
        let mut values = values;
        self.cpu.append(&mut values);
        self.changed = true;
    }

    /// Replaces an element.
    pub fn set(&mut self, index: usize, value: T)
        requires
            index < old(self)@.cpu.len(),
        ensures
            final(self)@ == (BufferVecView {
                cpu: old(self)@.cpu.update(index as int, value),
                changed: true,
                ..old(self)@
            }),
    {
        self.cpu.set(index, value);
        self.changed = true;
    }

    /// Prepares the elements to be copied. Returns what is left to do, and the buffers that are given up.
    pub fn stage(&mut self, element_size: usize) -> (r: (StageStep, Vec<B>))
        requires
            elements_size(element_size as int, old(self)@.cpu.len() as int) <= usize::MAX,
            2 * old(self)@.total_size <= usize::MAX,
        ensures
            ({
                let v = old(self)@;
                let needed = elements_size(element_size as int, v.cpu.len() as int);
                if !v.changed {
                    r.0 == StageStep::NoAction && r.1@.len() == 0 && final(self)@ == v
                } else {
                    &&& r.1@ == dropped(v.pruned)
                    &&& final(self)@ == (BufferVecView {
                        pruned: kept(v.pruned),
                        changed: false,
                        ..v
                    })
                    &&& r.0 == if needed > v.total_size {
                        StageStep::Grow(grown_size(needed, v.total_size as int) as usize)
                    } else {
                        StageStep::Flush
                    }
                }
            }),
    {
        let mut given_up: Vec<B> = Vec::new();
        if !self.changed {
            return (StageStep::NoAction, given_up);
        }
        self.changed = false;
        let ghost v = old(self)@;
        let mut pruned: Vec<(usize, B)> = Vec::new();
        std::mem::swap(&mut pruned, &mut self.prune_cache);
        // The buffers are taken from the back, so both lists are filled from the back too.
        let mut back: Vec<(usize, B)> = Vec::new();
        let mut back_up: Vec<B> = Vec::new();
        while pruned.len() > 0
            invariant
                pruned@.len() <= v.pruned.len(),
                self.cpu@ == v.cpu,
                self.buffer == v.buffer,
                self.total_size == v.total_size,
                !self.changed,
                self.prune_cache@ == Seq::<(usize, B)>::empty(),
                kept(v.pruned) == kept(pruned@) + back@.reverse(),
                dropped(v.pruned) == dropped(pruned@) + back_up@.reverse(),
            decreases pruned.len(),
        {
            let ghost before = pruned@;
            let ghost back0 = back@;
            let ghost up0 = back_up@;
            if let Some((count, buffer)) = pruned.pop() {
                if count <= 1 {
                    back_up.push(buffer);
                    proof {
                        assert(back_up@.reverse() =~= seq![buffer] + up0.reverse());
                        assert(dropped(v.pruned) =~= dropped(pruned@) + back_up@.reverse());
                    }
                } else {
                    back.push((count - 1, buffer));
                    proof {
                        assert(back@.reverse() =~= seq![((count - 1) as usize, buffer)] + back0.reverse());
                        assert(kept(v.pruned) =~= kept(pruned@) + back@.reverse());
                    }
                }
            }
        }
        proof {
            assert(kept(v.pruned) =~= back@.reverse());
            assert(dropped(v.pruned) =~= back_up@.reverse());
        }
        while back.len() > 0
            invariant
                self.cpu@ == v.cpu,
                self.buffer == v.buffer,
                self.total_size == v.total_size,
                !self.changed,
                kept(v.pruned) == self.prune_cache@ + back@.reverse(),
            decreases back.len(),
        {
            let ghost b = back@;
            let ghost p = self.prune_cache@;
            if let Some(entry) = back.pop() {
                self.prune_cache.push(entry);
                proof {
                    assert(b.reverse() =~= seq![entry] + back@.reverse());
                    assert(kept(v.pruned) =~= self.prune_cache@ + back@.reverse());
                }
            }
        }
        while back_up.len() > 0
            invariant
                dropped(v.pruned) == given_up@ + back_up@.reverse(),
            decreases back_up.len(),
        {
            let ghost b = back_up@;
            if let Some(buffer) = back_up.pop() {
                given_up.push(buffer);
                proof {
                    assert(b.reverse() =~= seq![buffer] + back_up@.reverse());
                    assert(dropped(v.pruned) =~= given_up@ + back_up@.reverse());
                }
            }
        }
        proof {
            assert(self.prune_cache@ =~= kept(v.pruned));
            assert(given_up@ =~= dropped(v.pruned));
        }
        let needed: usize = element_size * self.cpu.len();
        if needed > self.total_size {
            let twice: usize = self.total_size * 2;
            let size: usize = if needed > twice {
                needed
            } else {
                twice
            };
            (StageStep::Grow(size), given_up)
        } else {
            (StageStep::Flush, given_up)
        }
    }

    /// Replaces the buffer. The old one is kept for a while.
    pub fn replace_buffer(&mut self, buffer: B, total_size: usize)
        ensures
            final(self)@ == (BufferVecView {
                buffer,
                total_size: total_size as nat,
                pruned: old(self)@.pruned.push((STAGES_TO_KEEP, old(self)@.buffer)),
                ..old(self)@
            }),
    {
        let mut last = buffer;
        std::mem::swap(&mut last, &mut self.buffer);
        self.total_size = total_size;
        self.prune_cache.push((STAGES_TO_KEEP, last));
    }

    /// Where an element lies, if the buffer lies at `base`.
    pub fn address_for_element(&self, base: BufferAddress, element_size: usize, index: usize) -> (r:
        BufferAddress)
        requires
            index < self@.cpu.len(),
            elements_size(element_size as int, index as int) <= usize::MAX,
            base.0 + elements_size(element_size as int, index as int) <= u64::MAX,
        ensures
            r.0 == base.0 + elements_size(element_size as int, index as int),
    {
        base.offset(element_size * index)
    }
}

/// The code of two shaders does not overlap: the second one starts at the least multiple of the alignment
/// behind the first. Behind both there is at least as much space as the padding, up to another multiple.
pub proof fn law_program_layout(vertex_len: int, fragment_len: int, alignment: int, padding: int)
    requires
        vertex_len >= 0,
        fragment_len >= 0,
        alignment > 0,
        padding >= 0,
    ensures
        ({
            let offset = fragment_offset(vertex_len, alignment);
            let size = program_size(vertex_len, fragment_len, alignment, padding);
            &&& vertex_len <= offset < vertex_len + alignment
            &&& offset % alignment == 0
            &&& offset + fragment_len + padding <= size < offset + fragment_len + padding + alignment
            &&& (size - padding) % alignment == 0
        }),
{
    law_aligned(vertex_len, alignment);
    law_aligned(fragment_offset(vertex_len, alignment) + fragment_len, alignment);
}

/// A buffer that is too small is replaced with one that is large enough, and at least twice as large as it
/// was, and not larger than either asks for.
pub proof fn law_grown_size(needed: int, total_size: int)
    ensures
        grown_size(needed, total_size) >= needed,
        grown_size(needed, total_size) >= 2 * total_size,
        grown_size(needed, total_size) == needed || grown_size(needed, total_size) == 2 * total_size,
{
}

/// A pool is aligned to a page at least, and to what is asked for if that is more.
pub proof fn law_pool_alignment(alignment: Option<usize>)
    ensures
        pool_alignment(alignment) >= 0x1000,
        alignment is None ==> pool_alignment(alignment) == 0x1000,
        alignment matches Some(a) ==> pool_alignment(alignment) >= a && (pool_alignment(alignment) == a
            || pool_alignment(alignment) == 0x1000),
{
}

/// Every buffer that waits to be given up is either kept with one stage less to go, or given up if this is
/// its last one. Those behind it do not matter, and the order stays.
pub proof fn law_each_pruned<B>(pruned: Seq<(usize, B)>, count: usize, buffer: B)
    ensures
        count > 1 ==> kept(pruned.push((count, buffer))) == kept(pruned).push(((count - 1) as usize, buffer)),
        count > 1 ==> dropped(pruned.push((count, buffer))) == dropped(pruned),
        count <= 1 ==> kept(pruned.push((count, buffer))) == kept(pruned),
        count <= 1 ==> dropped(pruned.push((count, buffer))) == dropped(pruned).push(buffer),
        kept(pruned).len() + dropped(pruned).len() == pruned.len(),
    decreases pruned.len(),
{
    let all = pruned.push((count, buffer));
    assert(all.drop_last() =~= pruned);
    if pruned.len() > 0 {
        law_each_pruned(pruned.drop_last(), count, buffer);
    }
}

} // verus!
