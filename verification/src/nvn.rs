//! Values that the graphics interface is handed.

use vstd::prelude::*;

verus! {

/// Memory for the graphics hardware is handed out in pages of this size.
pub const PAGE_ALIGNMENT: usize = 0x1000;

/// Two, to the power of `k`.
pub open spec fn power(k: nat) -> nat
    decreases k,
{
    if k == 0 {
        1
    } else {
        2 * power((k - 1) as nat)
    }
}

/// Is the number a power of two?
pub open spec fn is_power(n: nat) -> bool {
    exists|k: nat| #[trigger] power(k) == n
}

/// A power of two is one or twice another power of two.
pub proof fn lemma_is_power(n: nat)
    ensures
        is_power(n) <==> n == 1 || n % 2 == 0 && n > 0 && is_power(n / 2),
        is_power(n) ==> n > 0,
{
    assert(power(0) == 1);
    if is_power(n) {
        let k = choose|k: nat| #[trigger] power(k) == n;
        lemma_power_positive(k);
        if k > 0 {
            assert(power((k - 1) as nat) == n / 2);
            lemma_power_positive((k - 1) as nat);
        }
    }
    if n % 2 == 0 && n > 0 && is_power(n / 2) {
        let k = choose|k: nat| #[trigger] power(k) == n / 2;
        assert(power(k + 1) == n);
    }
}

proof fn lemma_power_positive(k: nat)
    ensures
        power(k) > 0,
    decreases k,
{
    if k > 0 {
        lemma_power_positive((k - 1) as nat);
    }
}

/// The size of a page is a power of two.
pub proof fn lemma_page_alignment()
    ensures
        is_power(PAGE_ALIGNMENT as nat),
{
    reveal_with_fuel(power, 13);
    assert(power(12) == 0x1000);
}

/// Is the number a power of two?
pub fn is_power_of_two(n: usize) -> (r: bool)
    ensures
        r == is_power(n as nat),
{
    if n == 0 {
        proof {
            lemma_is_power(0);
        }
        return false;
    }
    let mut m: usize = n;
    while m > 1 && m % 2 == 0
        invariant
            m > 0,
            is_power(m as nat) == is_power(n as nat),
        decreases m,
    {
        proof {
            lemma_is_power(m as nat);
        }
        m = m / 2;
    }
    proof {
        lemma_is_power(m as nat);
    }
    m == 1
}

/// The next multiple of `alignment`, or the size itself if it is one.
pub open spec fn aligned(size: int, alignment: int) -> int {
    (size + alignment - 1) / alignment * alignment
}

/// What is aligned is the least multiple of the alignment that is not less than the size.
pub proof fn law_aligned(size: int, alignment: int)
    requires
        size >= 0,
        alignment > 0,
    ensures
        aligned(size, alignment) % alignment == 0,
        size <= aligned(size, alignment) < size + alignment,
        aligned(size, alignment) == size <==> size % alignment == 0,
        aligned(aligned(size, alignment), alignment) == aligned(size, alignment),
{
    let q = (size + alignment - 1) / alignment;
    vstd::arithmetic::div_mod::lemma_fundamental_div_mod(size + alignment - 1, alignment);
    vstd::arithmetic::mul::lemma_mul_is_commutative(q, alignment);
    vstd::arithmetic::div_mod::lemma_mod_multiples_basic(q, alignment);
    vstd::arithmetic::div_mod::lemma_mod_bound(size + alignment - 1, alignment);
    let a = aligned(size, alignment);
    if size % alignment == 0 {
        vstd::arithmetic::div_mod::lemma_fundamental_div_mod(size, alignment);
        let p = size / alignment;
        vstd::arithmetic::mul::lemma_mul_is_commutative(p, alignment);
        assert(a == size) by {
            if q < p {
                vstd::arithmetic::mul::lemma_mul_inequality(q + 1, p, alignment);
                vstd::arithmetic::mul::lemma_mul_is_distributive_add_other_way(alignment, q, 1);
            }
            if q > p {
                vstd::arithmetic::mul::lemma_mul_inequality(p + 1, q, alignment);
                vstd::arithmetic::mul::lemma_mul_is_distributive_add_other_way(alignment, p, 1);
            }
        }
    }
    // A multiple of the alignment is its own next multiple.
    vstd::arithmetic::div_mod::lemma_div_multiples_vanish_fancy(q, alignment - 1, alignment);
}

/// Rounds a size up to a multiple of the alignment.
pub fn align_up(size: usize, alignment: usize) -> (r: usize)
    requires
        is_power(alignment as nat),
        size + alignment - 1 <= usize::MAX,
    ensures
        r == aligned(size as int, alignment as int),
{
    proof {
        lemma_is_power(alignment as nat);
        law_aligned(size as int, alignment as int);
    }
    (size + (alignment - 1)) / alignment * alignment
}

/// A texture and a sampler, as shaders are told of them.
#[derive(Copy, Clone, Debug, PartialEq, Eq, Structural)]
pub struct TextureHandle(pub u64);

/// Commands that were recorded.
#[derive(Copy, Clone, Debug, PartialEq, Eq, Structural)]
pub struct CommandHandle(pub u64);

/// An address in the memory of the graphics hardware.
#[derive(Copy, Clone, Debug, PartialEq, Eq, Structural)]
pub struct BufferAddress(pub u64);

impl BufferAddress {
    /// The address so many bytes further on.
    pub fn offset(&self, amount: usize) -> (r: BufferAddress)
        requires
            self.0 + amount <= u64::MAX,
        ensures
            r.0 == self.0 + amount,
    {
        BufferAddress(self.0 + amount as u64)
    }
}

/// Part of a texture.
#[derive(Copy, Clone, Debug, PartialEq, Eq, Structural)]
pub struct CopyRegion {
    pub x: i32,
    pub y: i32,
    pub z: i32,
    pub w: i32,
    pub h: i32,
    pub d: i32,
}

impl CopyRegion {
    /// The whole of a flat texture.
    pub fn from_size_2d(width: i32, height: i32) -> (r: CopyRegion)
        ensures
            r == (CopyRegion { x: 0, y: 0, z: 0, w: width, h: height, d: 1 }),
    {
        CopyRegion { x: 0, y: 0, z: 0, w: width, h: height, d: 1 }
    }
}

/// Numbers that the graphics device can be asked for.
#[derive(Copy, Clone, Debug, PartialEq, Eq, Structural)]
pub enum DeviceInfo {
    BufferAlignment,
    TextureDescriptorSize,
    SamplerDescriptorSize,
    ReservedTextureDescriptors,
    ReservedSamplerDescriptors,
    CmdbufCommandAlignment,
    CmdbufControlAlignment,
    ShaderPadding,
    MinQueueCommandMemorySize,
}

impl DeviceInfo {
    /// The number by which the device knows the question.
    pub fn number(self) -> (r: i32)
        ensures
            r == match self {
                DeviceInfo::BufferAlignment => 4i32,
                DeviceInfo::TextureDescriptorSize => 15,
                DeviceInfo::SamplerDescriptorSize => 16,
                DeviceInfo::ReservedTextureDescriptors => 17,
                DeviceInfo::ReservedSamplerDescriptors => 18,
                DeviceInfo::CmdbufCommandAlignment => 19,
                DeviceInfo::CmdbufControlAlignment => 20,
                DeviceInfo::ShaderPadding => 78,
                DeviceInfo::MinQueueCommandMemorySize => 81,
            },
    {
        match self {
            DeviceInfo::BufferAlignment => 4,
            DeviceInfo::TextureDescriptorSize => 15,
            DeviceInfo::SamplerDescriptorSize => 16,
            DeviceInfo::ReservedTextureDescriptors => 17,
            DeviceInfo::ReservedSamplerDescriptors => 18,
            DeviceInfo::CmdbufCommandAlignment => 19,
            DeviceInfo::CmdbufControlAlignment => 20,
            DeviceInfo::ShaderPadding => 78,
            DeviceInfo::MinQueueCommandMemorySize => 81,
        }
    }
}

/// Formats of vertices and textures.
#[derive(Copy, Clone, Debug, PartialEq, Eq, Structural)]
pub enum Format {
    Rg32,
    Rgb32,
    Rgba8,
    Rgba32,
    Rgba8Srgb,
}

impl Format {
    /// The number by which the device knows the format.
    pub fn number(self) -> (r: u32)
        ensures
            r == match self {
                Format::Rg32 => 0x16u32,
                Format::Rgb32 => 0x22,
                Format::Rgba8 => 0x25,
                Format::Rgba32 => 0x2E,
                Format::Rgba8Srgb => 0x38,
            },
    {
        match self {
            Format::Rg32 => 0x16,
            Format::Rgb32 => 0x22,
            Format::Rgba8 => 0x25,
            Format::Rgba32 => 0x2E,
            Format::Rgba8Srgb => 0x38,
        }
    }
}

/// Kinds of textures.
#[derive(Copy, Clone, Debug, PartialEq, Eq, Structural)]
pub enum TextureTarget {
    D1,
    D2,
    D3,
}

impl TextureTarget {
    /// The number by which the device knows the kind.
    pub fn number(self) -> (r: u32)
        ensures
            r == match self {
                TextureTarget::D1 => 0u32,
                TextureTarget::D2 => 1,
                TextureTarget::D3 => 2,
            },
    {
        match self {
            TextureTarget::D1 => 0,
            TextureTarget::D2 => 1,
            TextureTarget::D3 => 2,
        }
    }
}

/// How a texture goes on outside of its edges.
#[derive(Copy, Clone, Debug, PartialEq, Eq, Structural)]
pub enum WrapMode {
    Clamp,
    ClampEdge,
    Repeat,
}

/// The number of things that are handed over in one call. `None` if there are too many for it.
pub fn call_count(len: usize) -> (r: Option<i32>)
    ensures
        r is Some <==> len <= i32::MAX,
        r matches Some(n) ==> n == len,
{
    if len <= i32::MAX as usize {
        Some(len as i32)
    } else {
        None
    }
}

/// The processor cannot reach the memory.
pub const POOL_CPU_NO_ACCESS: u32 = 0x1;

/// The processor reaches the memory without a cache.
pub const POOL_CPU_UNCACHED: u32 = 0x2;

/// The processor reaches the memory through a cache.
pub const POOL_CPU_CACHED: u32 = 0x4;

/// The graphics hardware cannot reach the memory.
pub const POOL_GPU_NO_ACCESS: u32 = 0x8;

/// The graphics hardware reaches the memory without a cache.
pub const POOL_GPU_UNCACHED: u32 = 0x10;

/// The graphics hardware reaches the memory through a cache.
pub const POOL_GPU_CACHED: u32 = 0x20;

/// The memory holds the code of shaders.
pub const POOL_SHADER_CODE: u32 = 0x40;

/// The memory can hold compressed textures.
pub const POOL_COMPRESSIBLE: u32 = 0x80;

pub const POOL_PHYSICAL: u32 = 0x100;

pub const POOL_VIRTUAL: u32 = 0x200;

/// Without a cache for the processor, and with one for the graphics hardware.
pub const POOL_STANDARD: u32 = 0x22;

/// The bits of a pool's flags. The standard ones are no cache for the processor, and one for the graphics
/// hardware.
pub proof fn law_pool_bits()
    ensures
        POOL_CPU_NO_ACCESS == 0x1,
        POOL_CPU_UNCACHED == 0x2,
        POOL_CPU_CACHED == 0x4,
        POOL_GPU_NO_ACCESS == 0x8,
        POOL_GPU_UNCACHED == 0x10,
        POOL_GPU_CACHED == 0x20,
        POOL_SHADER_CODE == 0x40,
        POOL_COMPRESSIBLE == 0x80,
        POOL_PHYSICAL == 0x100,
        POOL_VIRTUAL == 0x200,
        POOL_STANDARD == POOL_CPU_UNCACHED + POOL_GPU_CACHED,
{
}

} // verus!
