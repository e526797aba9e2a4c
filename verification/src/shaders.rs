//! Finding shaders in the memory of the game.

use crate::words::le_word;
use vstd::prelude::*;

verus! {

/// Shaders that the game brings along.
#[derive(Copy, Clone, Debug, PartialEq, Eq, Structural)]
pub enum StaticShaderData {
    SystemDebugDrawConstantVS,
    SystemDebugDrawConstantPS,
    SystemDebugDrawTexture2DVS,
    SystemDebugDrawTexture2DPS,
}

impl StaticShaderData {
    /// Where the shader lies in the game's code.
    pub fn offset(&self) -> (r: usize)
        ensures
            r == match self {
                StaticShaderData::SystemDebugDrawConstantVS => 0x4741338usize,
                StaticShaderData::SystemDebugDrawConstantPS => 0x47443a8,
                StaticShaderData::SystemDebugDrawTexture2DVS => 0x474dd90,
                StaticShaderData::SystemDebugDrawTexture2DPS => 0x4750cd0,
            },
    {
        match self {
            StaticShaderData::SystemDebugDrawConstantVS => 0x4741338,
            StaticShaderData::SystemDebugDrawConstantPS => 0x47443a8,
            StaticShaderData::SystemDebugDrawTexture2DVS => 0x474dd90,
            StaticShaderData::SystemDebugDrawTexture2DPS => 0x4750cd0,
        }
    }
}

/// The size of the header, and of the description of each section behind it.
pub const SECTION_SIZE: usize = 0x90;

/// Where the header holds the number of sections.
pub const SECTION_COUNT_OFFSET: usize = 0x4C;

/// Where the control data and the code of a shader lie, from the start of the shader.
#[derive(Copy, Clone, Debug, PartialEq, Eq, Structural)]
pub struct ShaderSection {
    pub control_offset: u32,
    pub code_offset: u32,
    pub code_size: u32,
}

/// The word at some position.
pub open spec fn word_at(b: Seq<u8>, i: int) -> u32 {
    le_word(b[i], b[i + 1], b[i + 2], b[i + 3])
}

fn read_word(b: &[u8], i: usize) -> (r: u32)
    requires
        i + 4 <= b@.len(),
    ensures
        r == word_at(b@, i as int),
{
    proof {
        reveal(le_word);
    }
    b[i] as u32 + b[i + 1] as u32 * 0x100 + b[i + 2] as u32 * 0x1_0000 + b[i + 3] as u32 * 0x100_0000
}

/// The number of sections that a header tells of.
pub fn section_count(header: &[u8]) -> (r: Option<u32>)
    ensures
        r is Some <==> header@.len() >= 0x50,
        r matches Some(n) ==> n == word_at(header@, 0x4C),
{
    if header.len() < SECTION_COUNT_OFFSET + 4 {
        None
    } else {
        Some(read_word(header, SECTION_COUNT_OFFSET))
    }
}

/// Size of the header and the descriptions of so many sections.
pub fn table_size(count: u32) -> (r: Option<usize>)
    ensures
        r is Some <==> (count + 1) * 0x90 <= usize::MAX,
        r matches Some(n) ==> n == (count + 1) * 0x90,
{
    match (count as usize).checked_add(1) {
        Some(n) => n.checked_mul(SECTION_SIZE),
        None => None,
    }
}

/// Start of the description of section `i`.
pub open spec fn section_start(i: int) -> int {
    (i + 1) * 0x90
}

/// Does section `i` hold the shader's program?
pub open spec fn is_program(b: Seq<u8>, i: int) -> bool {
    word_at(b, section_start(i) + 0x8) == 0
}

/// Where section `i` says that the program is. `None` if its offsets are too large.
pub open spec fn program_at(b: Seq<u8>, i: int) -> Option<ShaderSection> {
    let base = word_at(b, section_start(i) + 0x4);
    let control = word_at(b, section_start(i) + 0x30);
    let code = word_at(b, section_start(i) + 0x34);
    if base + control <= u32::MAX && base + code <= u32::MAX {
        Some(
            ShaderSection {
                control_offset: (base + control) as u32,
                code_offset: (base + code) as u32,
                code_size: word_at(b, section_start(i) + 0x38),
            },
        )
    } else {
        None
    }
}

/// Finds the program of a shader: the first section that holds one. `table` is the shader's header and
/// the descriptions of its sections. `None` if the table is cut short, or if there is no program.
pub fn find_program(table: &[u8]) -> (r: Option<ShaderSection>)
    ensures
        ({
            let b = table@;
            let n = word_at(b, 0x4C);
            if b.len() < 0x50 || b.len() < section_start(n as int) {
                r is None
            } else {
                r == first_program(b, 0, n as int)
            }
        }),
{
    let Some(count) = section_count(table) else {
        return None;
    };
    let len: usize = table.len();
    let Some(size) = table_size(count) else {
        return None;
    };
    if len < size {
        return None;
    }
    let mut i: u32 = 0;
    while i < count
        invariant
            i <= count,
            count == word_at(table@, 0x4C),
            len == table@.len(),
            len >= 0x50,
            len >= section_start(count as int),
            first_program(table@, 0, count as int) == first_program(table@, i as int, count as int),
        decreases count - i,
    {
        proof {
            assert(section_start(i as int) + 0x90 <= section_start(count as int));
            assert((i + 1) * 0x90 == section_start(i as int));
        }
        let start: usize = (i as usize + 1) * SECTION_SIZE;
        proof {
            assert(start == section_start(i as int));
        }
        if read_word(table, start + 0x8) == 0 {
            let base: u32 = read_word(table, start + 0x4);
            let control: u32 = read_word(table, start + 0x30);
            let code: u32 = read_word(table, start + 0x34);
            let code_size: u32 = read_word(table, start + 0x38);
            return match (base.checked_add(control), base.checked_add(code)) {
                (Some(control_offset), Some(code_offset)) => Some(
                    ShaderSection { control_offset, code_offset, code_size },
                ),
                _ => None,
            };
        }
        i += 1;
    }
    None
}

/// The program of the first section from `i` on that holds one.
pub open spec fn first_program(b: Seq<u8>, i: int, n: int) -> Option<ShaderSection>
    decreases n - i,
{
    if i >= n {
        None
    } else if is_program(b, i) {
        program_at(b, i)
    } else {
        first_program(b, i + 1, n)
    }
}

/// The program of a shader is that of the first section that holds one.
pub proof fn law_first_program(b: Seq<u8>, i: int, n: int, k: int)
    requires
        i <= k < n,
        forall|j: int| i <= j < k ==> word_at(b, (#[trigger] section_start(j)) + 0x8) != 0,
    ensures
        word_at(b, section_start(k) + 0x8) == 0 ==> first_program(b, i, n) == program_at(b, k),
        word_at(b, section_start(k) + 0x8) != 0 ==> first_program(b, i, n) == first_program(b, k + 1, n),
        first_program(b, n, n) is None,
        section_start(k) == 0x90 * (k + 1),
    decreases k - i,
{
    if i < k {
        assert(word_at(b, section_start(i) + 0x8) != 0);
        law_first_program(b, i + 1, n, k);
    }
}

} // verus!
