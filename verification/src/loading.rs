//! Loading the files of mods.
//!
//! A file that is left compressed for another thread to inflate is marked in its address: the top bit
//! is never set in an address that can be read, so the mark cannot be overlooked.

use crate::discover::{DiscoveredFile, FileSystem};
use crate::hash40::Hash40;
use crate::hash_interner::{hex_text, join, HashMemorySlab, SlabView};
use crate::regional::Regional;
use crate::strings::lemma_ascii_bytes;
use vstd::prelude::*;
use vstd::utf8::encode_utf8;

verus! {

/// Marks the address of a buffer that is still compressed.
pub const COMPRESSED_PTR_BIT: u64 = 0x8000_0000_0000_0000;

/// An address with the mark. `None` if it is marked already.
pub open spec fn marked(address: u64) -> Option<u64> {
    if address < COMPRESSED_PTR_BIT {
        Some((address + COMPRESSED_PTR_BIT) as u64)
    } else {
        None
    }
}

/// An address without its mark. `None` if it has none.
pub open spec fn unmarked(address: u64) -> Option<u64> {
    if address >= COMPRESSED_PTR_BIT {
        Some((address - COMPRESSED_PTR_BIT) as u64)
    } else {
        None
    }
}

/// Taking the mark off gives the address back. An address without a mark is not taken for a marked one,
/// and no address is marked twice.
pub proof fn law_marked(address: u64)
    ensures
        marked(address) matches Some(m) ==> unmarked(m) == Some(address) && marked(m) is None,
        unmarked(address) matches Some(a) ==> marked(a) == Some(address) && unmarked(a) is None,
        marked(address) is Some <==> unmarked(address) is None,
{
}

/// Marks an address, unless it is marked already.
pub fn into_compressed_ptr(address: u64) -> (r: Option<u64>)
    ensures
        r == marked(address),
{
    if address >= COMPRESSED_PTR_BIT {
        None
    } else {
        Some(address + COMPRESSED_PTR_BIT)
    }
}

/// Takes the mark off an address, if it has one.
pub fn into_real_ptr(compressed: u64) -> (r: Option<u64>)
    ensures
        r == unmarked(compressed),
{
    if compressed >= COMPRESSED_PTR_BIT {
        Some(compressed - COMPRESSED_PTR_BIT)
    } else {
        None
    }
}

/// The bytes of a file, as far as they are loaded.
pub enum Loaded {
    Ready(Vec<u8>),
    Compressed(Vec<u8>),
}

impl Loaded {
    pub open spec fn bytes(self) -> Seq<u8> {
        match self {
            Loaded::Ready(b) => b@,
            Loaded::Compressed(b) => b@,
        }
    }
}

/// The bytes that compressed ones inflate to, if there are `size` of them.
pub uninterp spec fn inflated(compressed: Seq<u8>, size: nat) -> Option<Seq<u8>>;

/// Inflates bytes.
///
/// Calls `flate2::bufread::DeflateDecoder` and reads `size` bytes from it. What comes out is a function
/// of the compressed bytes, and has the size that was asked for.
#[verifier::external_body]
pub(crate) fn inflate(compressed: &[u8], size: usize) -> (r: Option<Vec<u8>>)
    ensures
        r is Some <==> inflated(compressed@, size as nat) is Some,
        r matches Some(b) ==> inflated(compressed@, size as nat) == Some(b@) && b@.len() == size,
{
    let mut out = vec![0u8; size];
    let mut decoder = flate2::bufread::DeflateDecoder::new(compressed);
    std::io::Read::read_exact(&mut decoder, &mut out).ok().map(|_| out)
}

/// The bytes of a zip file's entry as they come from the file. An entry whose sizes are equal is not
/// compressed.
pub fn load_zip_file(bytes: Vec<u8>, compressed_size: u32, decompressed_size: u32) -> (r: Loaded)
    ensures
        r.bytes() == bytes@,
        r is Ready <==> compressed_size == decompressed_size,
{
    if compressed_size == decompressed_size {
        Loaded::Ready(bytes)
    } else {
        Loaded::Compressed(bytes)
    }
}

/// The bytes that a file comes down to.
pub open spec fn decompressed(loaded: Loaded, size: u32) -> Option<Seq<u8>> {
    match loaded {
        Loaded::Ready(b) => Some(b@),
        Loaded::Compressed(b) => inflated(b@, size as nat),
    }
}

/// Inflates what was left compressed. `None` if that is not possible.
pub fn decompress_loaded_file(loaded: Loaded, size: u32) -> (r: Option<Vec<u8>>)
    ensures
        match (r, decompressed(loaded, size)) {
            (Some(a), Some(b)) => a@ == b,
            (None, None) => true,
            _ => false,
        },
        loaded is Compressed ==> (r matches Some(b) ==> b@.len() == size),
{
    match loaded {
        Loaded::Ready(bytes) => Some(bytes),
        Loaded::Compressed(bytes) => inflate(&bytes, size as usize),
    }
}

/// Position of the last dot, or the length if there is none.
pub open spec fn last_dot_byte(s: Seq<u8>) -> int
    decreases s.len(),
{
    if s.len() == 0 {
        0
    } else if s.last() == 0x2E {
        s.len() - 1
    } else if last_dot_byte(s.drop_last()) == s.len() - 1 {
        s.len() as int
    } else {
        last_dot_byte(s.drop_last())
    }
}

proof fn lemma_last_dot_byte(s: Seq<u8>, p: int)
    requires
        0 <= p < s.len(),
        s[p] == 0x2E,
        forall|i: int| p < i < s.len() ==> s[i] != 0x2E,
    ensures
        last_dot_byte(s) == p,
    decreases s.len(),
{
    if p < s.len() - 1 {
        lemma_last_dot_byte(s.drop_last(), p);
    }
}

proof fn lemma_no_dot_byte(s: Seq<u8>)
    requires
        forall|i: int| 0 <= i < s.len() ==> s[i] != 0x2E,
    ensures
        last_dot_byte(s) == s.len(),
    decreases s.len(),
{
    if s.len() > 0 {
        lemma_no_dot_byte(s.drop_last());
    }
}

/// Where a file lies on disk: below its root, under the path that it replaces, with the code of what it
/// is for in front of the last dot. `None` if there is no dot to put the code in front of.
pub open spec fn full_path(root: Seq<u8>, path: Seq<u8>, regional: Option<Regional>) -> Option<Seq<u8>> {
    let plain = root + seq![0x2Fu8] + path;
    match regional {
        None => Some(plain),
        Some(x) => {
            let d = last_dot_byte(plain);
            if d < plain.len() {
                Some(plain.take(d) + seq![0x2Bu8] + encode_utf8(x.code()) + plain.skip(d))
            } else {
                None
            }
        },
    }
}

fn push_all(out: &mut Vec<u8>, b: &[u8], from: usize, to: usize)
    requires
        from <= to <= b@.len(),
    ensures
        final(out)@ == old(out)@ + b@.subrange(from as int, to as int),
{
    let mut i: usize = from;
    while i < to
        invariant
            from <= i <= to <= b@.len(),
            out@ =~= old(out)@ + b@.subrange(from as int, i as int),
        decreases to - i,
    {
        out.push(b[i]);
        i += 1;
    }
}

/// Puts together where a file lies on disk.
pub fn join_full_path(root: &str, path: &[u8], regional: Option<Regional>) -> (r: Option<Vec<u8>>)
    ensures
        match (r, full_path(encode_utf8(root@), path@, regional)) {
            (Some(a), Some(b)) => a@ == b,
            (None, None) => true,
            _ => false,
        },
{
    let root_bytes = root.as_bytes();
    let mut plain: Vec<u8> = Vec::new();
    push_all(&mut plain, root_bytes, 0, root_bytes.len());
    plain.push(0x2F);
    push_all(&mut plain, path, 0, path.len());
    let ghost whole = encode_utf8(root@) + seq![0x2Fu8] + path@;
    proof {
        assert(root_bytes@.subrange(0, root_bytes@.len() as int) =~= root_bytes@);
        assert(path@.subrange(0, path@.len() as int) =~= path@);
        assert(plain@ =~= whole);
    }
    let Some(x) = regional else {
        return Some(plain);
    };
    let mut d: usize = plain.len();
    while d > 0 && plain[d - 1] != 0x2E
        invariant
            d <= plain@.len(),
            forall|i: int| d <= i < plain@.len() ==> plain@[i] != 0x2E,
        decreases d,
    {
        d -= 1;
    }
    if d == 0 {
        proof {
            lemma_no_dot_byte(plain@);
        }
        return None;
    }
    let d: usize = d - 1;
    proof {
        lemma_last_dot_byte(plain@, d as int);
    }
    let code = x.as_str().as_bytes();
    let mut out: Vec<u8> = Vec::new();
    push_all(&mut out, &plain, 0, d);
    out.push(0x2B);
    push_all(&mut out, code, 0, code.len());
    push_all(&mut out, &plain, d, plain.len());
    proof {
        assert(code@.subrange(0, code@.len() as int) =~= code@);
        assert(plain@.subrange(0, d as int) =~= plain@.take(d as int));
        assert(plain@.subrange(d as int, plain@.len() as int) =~= plain@.skip(d as int));
        assert(out@ =~= whole.take(d as int) + seq![0x2Bu8] + encode_utf8(x.code()) + whole.skip(
            d as int,
        ));
    }
    Some(out)
}

/// The text that stands for a hash.
pub open spec fn text_of(slab: SlabView, hash: Hash40) -> Seq<u8> {
    match slab.components_of(hash) {
        Some(parts) => join(parts),
        None => hex_text(hash.0),
    }
}

impl FileSystem {
    /// Where a file lies on disk. `None` if its root is not there, or if there is no dot in its path to
    /// put the code of what it is for in front of.
    pub fn get_full_file_path(&self, hash: Hash40, file: &DiscoveredFile, slab: &HashMemorySlab) -> (r:
        Option<Vec<u8>>)
        requires
            slab.wf(),
            slab@.sorted(),
        ensures
            match r {
                Some(b) => file.root_idx < self@.roots.len() && full_path(
                    encode_utf8(self@.roots[file.root_idx as int]),
                    text_of(slab@, hash),
                    file.regional,
                ) == Some(b@),
                None => file.root_idx >= self@.roots.len() || full_path(
                    encode_utf8(self@.roots[file.root_idx as int]),
                    text_of(slab@, hash),
                    file.regional,
                ) is None,
            },
    {
        let Some(root) = self.root(file.root_idx) else {
            return None;
        };
        let text = slab.hash_text(hash, false);
        join_full_path(root, &text, file.regional)
    }
}

/// A file for all lies below its root, under the path that it replaces. One for a region, language or locale
/// has a `+` and the code of that in front of its extension.
pub proof fn law_full_path(root: Seq<u8>, path: Seq<u8>, stem: Seq<u8>, extension: Seq<u8>, regional: Regional)
    requires
        !extension.contains(0x2E),
    ensures
        full_path(root, path, None) == Some(root + encode_utf8("/"@) + path),
        full_path(root, stem + encode_utf8("."@) + extension, Some(regional)) == Some(
            root + encode_utf8("/"@) + stem + encode_utf8("+"@) + encode_utf8(regional.code())
                + encode_utf8("."@) + extension,
        ),
{
    reveal_strlit("/");
    reveal_strlit(".");
    reveal_strlit("+");
    assert("/"@ =~= seq!['/']);
    assert("."@ =~= seq!['.']);
    assert("+"@ =~= seq!['+']);
    lemma_ascii_bytes('/');
    lemma_ascii_bytes('.');
    lemma_ascii_bytes('+');
    assert(encode_utf8("/"@) =~= seq![0x2Fu8]);
    assert(encode_utf8("."@) =~= seq![0x2Eu8]);
    assert(encode_utf8("+"@) =~= seq![0x2Bu8]);
    let plain = root + seq![0x2Fu8] + (stem + seq![0x2Eu8] + extension);
    let d = (root.len() + 1 + stem.len()) as int;
    assert forall|i: int| d < i < plain.len() implies plain[i] != 0x2E by {
        assert(plain[i] == extension[i - d - 1]);
        assert(extension.contains(extension[i - d - 1]));
    }
    lemma_last_dot_byte(plain, d);
    assert(plain.take(d) =~= root + seq![0x2Fu8] + stem);
    assert(plain.skip(d) =~= seq![0x2Eu8] + extension);
    assert(plain.take(d) + seq![0x2Bu8] + encode_utf8(regional.code()) + plain.skip(d) =~= root
        + encode_utf8("/"@) + stem + encode_utf8("+"@) + encode_utf8(regional.code()) + encode_utf8("."@)
        + extension);
}

/// What is loaded comes down to its bytes if they are ready, and to what they inflate to if not.
pub proof fn law_decompressed(loaded: Loaded, size: u32)
    ensures
        loaded is Ready ==> decompressed(loaded, size) == Some(loaded.bytes()),
        loaded is Compressed ==> decompressed(loaded, size) == inflated(loaded.bytes(), size as nat),
{
}

/// A hash whose strings are known is shown as these, with slashes between them, and any other as its number.
pub proof fn law_text_of(slab: SlabView, hash: Hash40)
    ensures
        slab.components_of(hash) matches Some(parts) ==> text_of(slab, hash) == join(parts),
        slab.components_of(hash) is None ==> text_of(slab, hash) == hex_text(hash.0),
{
}

} // verus!
