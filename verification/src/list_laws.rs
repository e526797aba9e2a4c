//! What reading a list of mod files gives back of what was written.

use crate::discover::{
    is_key_listing, law_key_listing, law_ordered, DiscoveredFile, FilesView, LoadableFile,
};
use crate::filesystem::{
    emit_file, emit_files, emit_path, emit_paths, last_for, law_file_index, law_hashed_file, list_fits,
    list_segments, list_words, padded, pick, root_text, rooted, CompressedFile, DiscoveryView, Emitted,
    File, FileHeader, FileIndex, HashedFile, ListView, Regionalized, UncompressedFile,
};
use crate::hash40::Hash40;
use crate::locale::{law_numbers, Language, Locale, LocalePreferences, Region};
use crate::regional::Regional;
use crate::words::{
    bytes_to_words, cat, flat, law_flat_injective, law_words_bytes_round_trip, lemma_bytes_to_words_prefix,
    lemma_cat_index, lemma_cat_injective, lemma_cat_prefix, lemma_flat_len, words_to_bytes, Record,
};
use vstd::prelude::*;
use vstd::utf8::encode_utf8;

verus! {

proof fn lemma_len<T: Record>(s: Seq<T>, width: nat)
    requires
        T::width() == width,
    ensures
        flat(s).len() == width * s.len(),
{
    lemma_flat_len(s);
    assert(s.len() * width == width * s.len()) by (nonlinear_arith);
}

proof fn lemma_list_segment_lens(v: ListView)
    ensures
        list_segments(v).len() == 7,
        list_segments(v)[0].len() == v.header.len(),
        list_segments(v)[1].len() == 2 * v.lookup.len(),
        list_segments(v)[2].len() == 2 * v.file_headers.len(),
        list_segments(v)[3].len() == 2 * v.files.len(),
        list_segments(v)[4].len() == v.uncompressed.len(),
        list_segments(v)[5].len() == 3 * v.compressed.len(),
        list_segments(v)[6].len() == 2 * v.roots.len(),
{
    lemma_len(v.lookup, 2);
    lemma_len(v.file_headers, 2);
    lemma_len(v.files, 2);
    lemma_len(v.uncompressed, 1);
    lemma_len(v.compressed, 3);
    lemma_len(v.roots, 2);
    let s = list_segments(v);
    assert(s[1] == flat(v.lookup) && s[2] == flat(v.file_headers) && s[3] == flat(v.files) && s[4]
        == flat(v.uncompressed) && s[5] == flat(v.compressed) && s[6] == flat(v.roots));
}

proof fn lemma_cat_seven(s: Seq<Seq<u32>>)
    requires
        s.len() == 7,
    ensures
        cat(s).len() == s[0].len() + s[1].len() + s[2].len() + s[3].len() + s[4].len() + s[5].len()
            + s[6].len(),
{
    let s6 = s.drop_last();
    let s5 = s6.drop_last();
    let s4 = s5.drop_last();
    let s3 = s4.drop_last();
    let s2 = s3.drop_last();
    let s1 = s2.drop_last();
    assert(s1.drop_last() =~= Seq::empty());
    assert(cat(s1.drop_last()).len() == 0);
    assert(cat(s1).len() == s[0].len());
    assert(cat(s2).len() == cat(s1).len() + s[1].len());
    assert(cat(s3).len() == cat(s2).len() + s[2].len());
    assert(cat(s4).len() == cat(s3).len() + s[3].len());
    assert(cat(s5).len() == cat(s4).len() + s[4].len());
    assert(cat(s6).len() == cat(s5).len() + s[5].len());
}

/// The words in front of a byte string that starts with the bytes of `w`.
proof fn lemma_front(w: Seq<u32>, tail: Seq<u8>)
    ensures
        w.len() <= bytes_to_words(words_to_bytes(w) + tail).len(),
        bytes_to_words(words_to_bytes(w) + tail).take(w.len() as int) == w,
{
    law_words_bytes_round_trip(w);
    lemma_bytes_to_words_prefix(words_to_bytes(w), tail);
}

/// A list is determined by the bytes that it was read from.
pub proof fn law_list_blob_injective(a: ListView, b: ListView)
    requires
        a.shaped(),
        b.shaped(),
        a.blob() == b.blob(),
    ensures
        a == b,
{
    let w = bytes_to_words(a.blob());
    let s = list_segments(a);
    let t = list_segments(b);
    lemma_front(cat(s), a.root_bytes);
    lemma_front(cat(t), b.root_bytes);
    lemma_list_segment_lens(a);
    lemma_list_segment_lens(b);
    lemma_cat_prefix(s, 1, w);
    lemma_cat_prefix(t, 1, w);
    assert forall|i: int| 0 <= i < 1 implies (#[trigger] s.take(1)[i]).len() == t.take(1)[i].len() by {
        assert(s.take(1)[0] == s[0] && t.take(1)[0] == t[0]);
    }
    lemma_cat_injective(s.take(1), t.take(1), w);
    assert(s.take(1)[0] == a.header && t.take(1)[0] == b.header);
    assert forall|i: int| 0 <= i < 7 implies (#[trigger] s[i]).len() == t[i].len() by {
        assert(i == 0 || i == 1 || i == 2 || i == 3 || i == 4 || i == 5 || i == 6);
    }
    lemma_cat_injective(s, t, w);
    assert(s[1] == t[1] && s[2] == t[2] && s[3] == t[3] && s[4] == t[4] && s[5] == t[5] && s[6]
        == t[6]);
    law_flat_injective(a.lookup, b.lookup);
    law_flat_injective(a.file_headers, b.file_headers);
    law_flat_injective(a.files, b.files);
    law_flat_injective(a.uncompressed, b.uncompressed);
    law_flat_injective(a.compressed, b.compressed);
    law_flat_injective(a.roots, b.roots);
    let n = words_to_bytes(cat(s)).len() as int;
    lemma_tail(words_to_bytes(cat(s)), a.root_bytes, b.root_bytes);
}

proof fn lemma_tail(front: Seq<u8>, a: Seq<u8>, b: Seq<u8>)
    requires
        front + a == front + b,
    ensures
        a == b,
{
    let n = front.len() as int;
    assert(a =~= (front + a).skip(n));
    assert(b =~= (front + b).skip(n));
}

/// A list of the shape that its header says can be read from its bytes.
pub proof fn law_shaped_list_fits(v: ListView)
    requires
        v.shaped(),
    ensures
        list_fits(v.blob()),
{
    let w = cat(list_segments(v));
    lemma_front(w, v.root_bytes);
    law_words_bytes_round_trip(w);
    lemma_list_header(v, bytes_to_words(v.blob()));
}

proof fn lemma_list_header(v: ListView, all: Seq<u32>)
    requires
        v.shaped(),
        cat(list_segments(v)).len() <= all.len(),
        all.take(cat(list_segments(v)).len() as int) == cat(list_segments(v)),
    ensures
        all.len() >= 6,
        all[1] == v.header[1],
        all[4] == v.header[4],
        all[5] == v.header[5],
        list_words(all) == cat(list_segments(v)).len(),
{
    let s = list_segments(v);
    let w = cat(s);
    lemma_list_segment_lens(v);
    lemma_cat_seven(s);
    assert(cat(s.take(0)) =~= Seq::empty());
    assert forall|i: int| 0 <= i < 6 implies all[i] == #[trigger] v.header[i] by {
        lemma_cat_index(s, 0, i);
        assert(all.take(w.len() as int)[i] == w[i]);
    }
    assert(all[2] == v.header[2] && all[3] == v.header[3] && all[4] == v.header[4] && all[5]
        == v.header[5]);
}

/// The size of a file as it is listed.
pub open spec fn listed_size(f: DiscoveredFile) -> u32 {
    match f.file {
        LoadableFile::ZipFile { decompressed_size, .. } => decompressed_size,
        LoadableFile::UncompressedOnDisk => f.size,
    }
}

/// File `f` was written for `d`, and its size is where it says.
spec fn written(uncompressed: Seq<UncompressedFile>, compressed: Seq<CompressedFile>, f: File, d: DiscoveredFile) -> bool {
    let r = Regionalized::of(d.regional);
    &&& f.root == d.root_idx
    &&& match d.file {
        LoadableFile::ZipFile { compressed_size, decompressed_size, compressed_start } => exists|i: int|
            0 <= i < compressed.len() && f.index == FileIndex::of(r, true, i as u32)
                && #[trigger] compressed[i] == (CompressedFile {
                compressed_start,
                compressed_size,
                decompressed_size,
            }),
        LoadableFile::UncompressedOnDisk => exists|i: int|
            0 <= i < uncompressed.len() && f.index == FileIndex::of(r, false, i as u32)
                && #[trigger] uncompressed[i] == (UncompressedFile { size: d.size }),
    }
}

/// A file that was written stays so when more is written.
proof fn lemma_written_grows(
    u: Seq<UncompressedFile>,
    c: Seq<CompressedFile>,
    u2: Seq<UncompressedFile>,
    c2: Seq<CompressedFile>,
    f: File,
    d: DiscoveredFile,
)
    requires
        written(u, c, f, d),
        u.is_prefix_of(u2),
        c.is_prefix_of(c2),
    ensures
        written(u2, c2, f, d),
{
    let r = Regionalized::of(d.regional);
    match d.file {
        LoadableFile::ZipFile { compressed_size, decompressed_size, compressed_start } => {
            let i = choose|i: int|
                0 <= i < c.len() && f.index == FileIndex::of(r, true, i as u32) && #[trigger] c[i] == (
                CompressedFile { compressed_start, compressed_size, decompressed_size });
            assert(c2[i] == c[i]);
        },
        LoadableFile::UncompressedOnDisk => {
            let i = choose|i: int|
                0 <= i < u.len() && f.index == FileIndex::of(r, false, i as u32) && #[trigger] u[i] == (
                UncompressedFile { size: d.size });
            assert(u2[i] == u[i]);
        },
    }
}

/// More was written behind what was there.
spec fn extends(a: Emitted, b: Emitted) -> bool {
    &&& a.lookup.is_prefix_of(b.lookup)
    &&& a.file_headers.is_prefix_of(b.file_headers)
    &&& a.files.is_prefix_of(b.files)
    &&& a.uncompressed.is_prefix_of(b.uncompressed)
    &&& a.compressed.is_prefix_of(b.compressed)
}

proof fn lemma_prefix_push<A>(a: Seq<A>, b: Seq<A>, x: A)
    requires
        a.is_prefix_of(b),
    ensures
        a.is_prefix_of(b.push(x)),
{
    assert(a =~= b.push(x).take(a.len() as int));
}

proof fn lemma_prefix_trans<A>(a: Seq<A>, b: Seq<A>, c: Seq<A>)
    requires
        a.is_prefix_of(b),
        b.is_prefix_of(c),
    ensures
        a.is_prefix_of(c),
{
    assert(a =~= c.take(a.len() as int));
}

proof fn lemma_prefix_refl<A>(a: Seq<A>)
    ensures
        a.is_prefix_of(a),
{
    assert(a =~= a.take(a.len() as int));
}

proof fn lemma_extends_trans(a: Emitted, b: Emitted, c: Emitted)
    requires
        extends(a, b),
        extends(b, c),
    ensures
        extends(a, c),
{
    lemma_prefix_trans(a.lookup, b.lookup, c.lookup);
    lemma_prefix_trans(a.file_headers, b.file_headers, c.file_headers);
    lemma_prefix_trans(a.files, b.files, c.files);
    lemma_prefix_trans(a.uncompressed, b.uncompressed, c.uncompressed);
    lemma_prefix_trans(a.compressed, b.compressed, c.compressed);
}

proof fn lemma_extends_refl(a: Emitted)
    ensures
        extends(a, a),
{
    lemma_prefix_refl(a.lookup);
    lemma_prefix_refl(a.file_headers);
    lemma_prefix_refl(a.files);
    lemma_prefix_refl(a.uncompressed);
    lemma_prefix_refl(a.compressed);
}

proof fn lemma_emit_file(e: Emitted, d: DiscoveredFile)
    ensures
        extends(e, emit_file(e, d)),
        emit_file(e, d).files.len() == e.files.len() + 1,
        written(
            emit_file(e, d).uncompressed,
            emit_file(e, d).compressed,
            emit_file(e, d).files[e.files.len() as int],
            d,
        ),
        emit_file(e, d).lookup == e.lookup,
        emit_file(e, d).file_headers == e.file_headers,
{
    let g = emit_file(e, d);
    lemma_extends_refl(e);
    match d.file {
        LoadableFile::ZipFile { compressed_size, decompressed_size, compressed_start } => {
            lemma_prefix_push(e.compressed, e.compressed, g.compressed.last());
            assert(g.compressed[e.compressed.len() as int] == g.compressed.last());
        },
        LoadableFile::UncompressedOnDisk => {
            lemma_prefix_push(e.uncompressed, e.uncompressed, g.uncompressed.last());
            assert(g.uncompressed[e.uncompressed.len() as int] == g.uncompressed.last());
        },
    }
    lemma_prefix_push(e.files, e.files, g.files.last());
}

proof fn lemma_emit_files(e: Emitted, o: Seq<DiscoveredFile>, n: int)
    requires
        0 <= n <= o.len(),
    ensures
        extends(e, emit_files(e, o, n)),
        emit_files(e, o, n).files.len() == e.files.len() + n,
        emit_files(e, o, n).lookup == e.lookup,
        emit_files(e, o, n).file_headers == e.file_headers,
        forall|j: int|
            0 <= j < n ==> written(
                emit_files(e, o, n).uncompressed,
                emit_files(e, o, n).compressed,
                emit_files(e, o, n).files[e.files.len() + j],
                #[trigger] o[j],
            ),
    decreases n,
{
    if n > 0 {
        lemma_emit_files(e, o, n - 1);
        let f = emit_files(e, o, n - 1);
        let g = emit_files(e, o, n);
        lemma_emit_file(f, o[n - 1]);
        lemma_extends_trans(e, f, g);
        assert forall|j: int| 0 <= j < n implies written(
            g.uncompressed,
            g.compressed,
            g.files[e.files.len() + j],
            #[trigger] o[j],
        ) by {
            if j < n - 1 {
                assert(g.files[e.files.len() + j] == f.files[e.files.len() + j]);
                lemma_written_grows(
                    f.uncompressed,
                    f.compressed,
                    g.uncompressed,
                    g.compressed,
                    f.files[e.files.len() + j],
                    o[j],
                );
            }
        }
    } else {
        lemma_extends_refl(e);
    }
}

proof fn lemma_emit_path(e: Emitted, k: u64, files: FilesView)
    ensures
        extends(e, emit_path(e, k, files)),
{
    let o = files.ordered();
    let f = emit_files(e, o, o.len() as int);
    let g = emit_path(e, k, files);
    lemma_emit_files(e, o, o.len() as int);
    lemma_prefix_push(e.lookup, f.lookup, g.lookup.last());
    lemma_prefix_push(e.file_headers, f.file_headers, g.file_headers.last());
}

/// What was written for path `i` is there at the end.
spec fn path_written(e: Emitted, i: int, k: u64, files: FilesView) -> bool {
    let o = files.ordered();
    let start = e.file_headers[i].start as int;
    &&& i < e.lookup.len()
    &&& i < e.file_headers.len()
    &&& e.lookup[i] == HashedFile::of(Hash40(k), i as u32)
    &&& e.file_headers[i].num_files == o.len() as u32
    &&& o.len() <= u32::MAX && e.files.len() <= u32::MAX ==> start + o.len() <= e.files.len()
        && forall|j: int|
        0 <= j < o.len() ==> written(
            e.uncompressed,
            e.compressed,
            e.files[start + j],
            #[trigger] o[j],
        )
}

proof fn lemma_path_written_grows(e: Emitted, g: Emitted, i: int, k: u64, files: FilesView)
    requires
        extends(e, g),
        0 <= i,
        path_written(e, i, k, files),
    ensures
        path_written(g, i, k, files),
{
    let o = files.ordered();
    assert(g.lookup[i] == e.lookup[i]);
    assert(g.file_headers[i] == e.file_headers[i]);
    let start = e.file_headers[i].start as int;
    if o.len() <= u32::MAX && g.files.len() <= u32::MAX {
        assert(e.files.len() <= g.files.len());
        assert forall|j: int| 0 <= j < o.len() implies written(
            g.uncompressed,
            g.compressed,
            g.files[start + j],
            #[trigger] o[j],
        ) by {
            assert(g.files[start + j] == e.files[start + j]);
            lemma_written_grows(
                e.uncompressed,
                e.compressed,
                g.uncompressed,
                g.compressed,
                e.files[start + j],
                o[j],
            );
        }
    }
}

proof fn lemma_emit_paths(files: Map<u64, FilesView>, keys: Seq<u64>, n: int)
    requires
        0 <= n <= keys.len(),
    ensures
        emit_paths(files, keys, n).lookup.len() == n,
        emit_paths(files, keys, n).file_headers.len() == n,
        forall|i: int|
            0 <= i < n ==> path_written(
                emit_paths(files, keys, n),
                i,
                #[trigger] keys[i],
                files[keys[i]],
            ),
    decreases n,
{
    if n > 0 {
        lemma_emit_paths(files, keys, n - 1);
        let e = emit_paths(files, keys, n - 1);
        let g = emit_paths(files, keys, n);
        let k = keys[n - 1];
        let o = files[k].ordered();
        lemma_emit_path(e, k, files[k]);
        lemma_emit_files(e, o, o.len() as int);
        let f = emit_files(e, o, o.len() as int);
        assert forall|i: int| 0 <= i < n implies path_written(
            g,
            i,
            #[trigger] keys[i],
            files[keys[i]],
        ) by {
            if i < n - 1 {
                lemma_path_written_grows(e, g, i, keys[i], files[keys[i]]);
            } else {
                assert(g.lookup[i] == HashedFile::of(Hash40(k), i as u32));
                assert(g.file_headers[i] == (FileHeader {
                    start: e.files.len() as u32,
                    num_files: o.len() as u32,
                }));
            }
        }
    }
}

proof fn lemma_padded_prefix<A>(s: Seq<A>, n: nat, x: A)
    requires
        s.len() <= n,
    ensures
        padded(s, n, x).len() == n,
        s.is_prefix_of(padded(s, n, x)),
{
    assert(s =~= padded(s, n, x).take(s.len() as int));
}

/// A list of what was discovered has the shape that its header says, so it can be read from its bytes.
pub proof fn law_listed_shaped(v: DiscoveryView)
    requires
        v.wf(),
        v.listable(),
    ensures
        v.listed().shaped(),
        list_fits(v.listed().blob()),
{
    let e = v.emitted();
    let n = v.keys().len() as int;
    lemma_emit_paths(v.files, v.keys(), n);
    lemma_emit_count(v.files, v.keys(), n);
    lemma_padded_prefix(
        e.files,
        v.uncompressed_files + v.compressed_files,
        File { root: 0, index: FileIndex { bits: 0 } },
    );
    lemma_padded_prefix(e.uncompressed, v.uncompressed_files, UncompressedFile { size: 0 });
    lemma_padded_prefix(
        e.compressed,
        v.compressed_files,
        CompressedFile { compressed_start: 0, compressed_size: 0, decompressed_size: 0 },
    );
    law_shaped_list_fits(v.listed());
}

proof fn lemma_emit_count(files: Map<u64, FilesView>, keys: Seq<u64>, n: int)
    requires
        0 <= n <= keys.len(),
    ensures
        emit_paths(files, keys, n).files.len() == emit_paths(files, keys, n).uncompressed.len()
            + emit_paths(files, keys, n).compressed.len(),
    decreases n,
{
    if n > 0 {
        lemma_emit_count(files, keys, n - 1);
        let e = emit_paths(files, keys, n - 1);
        let o = files[keys[n - 1]].ordered();
        lemma_emit_files_count(e, o, o.len() as int);
    }
}

proof fn lemma_emit_files_count(e: Emitted, o: Seq<DiscoveredFile>, n: int)
    requires
        0 <= n,
    ensures
        emit_files(e, o, n).files.len() + e.uncompressed.len() + e.compressed.len() == e.files.len()
            + emit_files(e, o, n).uncompressed.len() + emit_files(e, o, n).compressed.len(),
    decreases n,
{
    if n > 0 {
        lemma_emit_files_count(e, o, n - 1);
    }
}


/// What is for different things has different numbers.
proof fn lemma_regionalized_injective(a: Option<Regional>, b: Option<Regional>)
    requires
        Regionalized::of(a) == Regionalized::of(b),
    ensures
        a == b,
        Regionalized::of(a).number() < 0x40,
{
    match (a, b) {
        (Some(Regional::Locale(x)), Some(Regional::Locale(y))) => {
            law_numbers(0, x, Region::Japan, Language::Japanese);
            law_numbers(0, y, Region::Japan, Language::Japanese);
        },
        (Some(Regional::Language(x)), Some(Regional::Language(y))) => {
            law_numbers(0, Locale::Japanese, Region::Japan, x);
            law_numbers(0, Locale::Japanese, Region::Japan, y);
        },
        (Some(Regional::Region(x)), Some(Regional::Region(y))) => {
            law_numbers(0, Locale::Japanese, x, Language::Japanese);
            law_numbers(0, Locale::Japanese, y, Language::Japanese);
        },
        _ => {},
    }
}

/// A file that was written says what it is for, whether it is compressed, and how large it is.
proof fn lemma_written_file(v: ListView, f: File, d: DiscoveredFile)
    requires
        written(v.uncompressed, v.compressed, f, d),
        v.uncompressed.len() <= 0x80_0000,
        v.compressed.len() <= 0x80_0000,
    ensures
        f.index.regionalized() == Regionalized::of(d.regional),
        f.index.spec_is_compressed() == (d.file is ZipFile),
        f.root == d.root_idx,
        v.size_of(f) == listed_size(d),
        f.root < v.roots.len() ==> v.file_ok(f),
{
    let r = Regionalized::of(d.regional);
    lemma_regionalized_injective(d.regional, d.regional);
    match d.file {
        LoadableFile::ZipFile { compressed_size, decompressed_size, compressed_start } => {
            let i = choose|i: int|
                0 <= i < v.compressed.len() && f.index == FileIndex::of(r, true, i as u32)
                    && #[trigger] v.compressed[i] == (CompressedFile {
                    compressed_start,
                    compressed_size,
                    decompressed_size,
                });
            law_file_index(r, true, i as u32);
        },
        LoadableFile::UncompressedOnDisk => {
            let i = choose|i: int|
                0 <= i < v.uncompressed.len() && f.index == FileIndex::of(r, false, i as u32)
                    && #[trigger] v.uncompressed[i] == (UncompressedFile { size: d.size });
            law_file_index(r, false, i as u32);
        },
    }
}

/// If one file of a run is for `r`, it is the last one that is.
proof fn lemma_last_for_only(s: Seq<File>, r: Regionalized, j: int)
    requires
        0 <= j < s.len(),
        s[j].index.regionalized() == r,
        forall|i: int|
            0 <= i < s.len() && (#[trigger] s[i]).index.regionalized() == r ==> i == j,
    ensures
        last_for(s, r) == Some(s[j]),
    decreases s.len(),
{
    if j < s.len() - 1 {
        let t = s.drop_last();
        assert(s[s.len() - 1] == s.last());
        assert forall|i: int|
            0 <= i < t.len() && (#[trigger] t[i]).index.regionalized() == r implies i == j by {
            assert(t[i] == s[i]);
        }
        lemma_last_for_only(t, r, j);
    }
}

proof fn lemma_last_for_none(s: Seq<File>, r: Regionalized)
    requires
        forall|i: int| 0 <= i < s.len() ==> (#[trigger] s[i]).index.regionalized() != r,
    ensures
        last_for(s, r) is None,
    decreases s.len(),
{
    if s.len() > 0 {
        let t = s.drop_last();
        assert(s[s.len() - 1] == s.last());
        assert forall|i: int| 0 <= i < t.len() implies (#[trigger] t[i]).index.regionalized() != r by {
            assert(t[i] == s[i]);
        }
        lemma_last_for_none(t, r);
    }
}

/// A run of files, each written for one of the ordered files.
spec fn run_written(v: ListView, run: Seq<File>, o: Seq<DiscoveredFile>) -> bool {
    &&& run.len() == o.len()
    &&& forall|j: int|
        0 <= j < o.len() ==> written(v.uncompressed, v.compressed, #[trigger] run[j], o[j])
}

/// The file of a run that is for `r` is the one at that place.
proof fn lemma_run_place(v: ListView, run: Seq<File>, files: FilesView, r: Option<Regional>)
    requires
        files.wf(),
        files.placed(),
        run_written(v, run, files.ordered()),
        v.uncompressed.len() <= 0x80_0000,
        v.compressed.len() <= 0x80_0000,
    ensures
        FilesView::has_place(r) ==> match files.at(r) {
            Some(d) => last_for(run, Regionalized::of(r)) matches Some(f) && f.root == d.root_idx
                && v.size_of(f) == listed_size(d) && f.index.spec_is_compressed() == (
            d.file is ZipFile),
            None => last_for(run, Regionalized::of(r)) is None,
        },
        !FilesView::has_place(r) ==> last_for(run, Regionalized::of(r)) is None,
{
    let o = files.ordered();
    law_ordered(files);
    assert forall|j: int| 0 <= j < o.len() implies (#[trigger] run[j]).index.regionalized()
        == Regionalized::of(o[j].regional) by {
        lemma_written_file(v, run[j], o[j]);
    }
    if FilesView::has_place(r) && files.at(r) is Some {
        let d = files.at(r)->0;
        assert(o.contains(d));
        let j = choose|j: int| 0 <= j < o.len() && o[j] == d;
        assert(d.regional == r);
        assert forall|i: int|
            0 <= i < run.len() && (#[trigger] run[i]).index.regionalized() == Regionalized::of(
                r,
            ) implies i == j by {
            lemma_regionalized_injective(o[i].regional, r);
            if i < j {
                assert(o[i].regional != o[j].regional);
            } else if j < i {
                assert(o[j].regional != o[i].regional);
            }
        }
        assert(run[j].index.regionalized() == Regionalized::of(r));
        lemma_last_for_only(run, Regionalized::of(r), j);
        lemma_written_file(v, run[j], o[j]);
    } else {
        assert forall|i: int| 0 <= i < run.len() implies (#[trigger] run[i]).index.regionalized()
            != Regionalized::of(r) by {
            if run[i].index.regionalized() == Regionalized::of(r) {
                lemma_regionalized_injective(o[i].regional, r);
                assert(FilesView::has_place(o[i].regional));
            }
        }
        lemma_last_for_none(run, Regionalized::of(r));
    }
}

/// File `f` of the list stands for `d`.
pub open spec fn stands_for(v: ListView, f: File, d: DiscoveredFile) -> bool {
    f.root == d.root_idx && v.size_of(f) == listed_size(d) && f.index.spec_is_compressed() == (
    d.file is ZipFile)
}

proof fn lemma_pick(v: ListView, run: Seq<File>, files: FilesView, prefs: LocalePreferences)
    requires
        files.wf(),
        files.placed(),
        run_written(v, run, files.ordered()),
        v.uncompressed.len() <= 0x80_0000,
        v.compressed.len() <= 0x80_0000,
    ensures
        match (pick(run, prefs), files.preferred(prefs)) {
            (Some(f), Some(d)) => stands_for(v, f, d),
            (None, None) => true,
            _ => false,
        },
{
    law_numbers(0, prefs.locale, prefs.region, prefs.language);
    lemma_run_place(v, run, files, Some(Regional::Locale(prefs.locale)));
    lemma_run_place(v, run, files, Some(Regional::Language(prefs.language)));
    lemma_run_place(v, run, files, Some(Regional::Region(prefs.region)));
    lemma_run_place(v, run, files, None);
}

/// What the list says of path `i`.
proof fn lemma_listed_path(v: DiscoveryView, i: int)
    requires
        v.wf(),
        v.listable(),
        v.uncompressed_files <= 0x80_0000,
        v.compressed_files <= 0x80_0000,
        v.keys().len() <= 0x100_0000,
        is_key_listing(v.files.dom(), v.keys()),
        0 <= i < v.keys().len(),
    ensures
        ({
            let l = v.listed();
            let k = v.keys()[i];
            &&& l.lookup[i].spec_path() == Hash40(k)
            &&& l.lookup[i].spec_index() == i
            &&& l.file_headers[i].start + l.file_headers[i].num_files <= l.files.len()
            &&& run_written(l, l.run(i), v.files[k].ordered())
            &&& v.files.contains_key(k)
        }),
{
    let e = v.emitted();
    let n = v.keys().len() as int;
    let k = v.keys()[i];
    let l = v.listed();
    assert(v.keys().contains(k));
    assert(v.files.dom().contains(k));
    assert(v.files.contains_key(k));
    lemma_emit_paths(v.files, v.keys(), n);
    lemma_emit_count(v.files, v.keys(), n);
    assert(path_written(e, i, k, v.files[k]));
    law_hashed_file(Hash40(k), i as u32);
    let o = v.files[k].ordered();
    law_ordered_len(v.files[k]);
    let zero_file = File { root: 0, index: FileIndex { bits: 0 } };
    let zero_c = CompressedFile { compressed_start: 0, compressed_size: 0, decompressed_size: 0 };
    lemma_padded_prefix(e.files, v.uncompressed_files + v.compressed_files, zero_file);
    lemma_padded_prefix(e.uncompressed, v.uncompressed_files, UncompressedFile { size: 0 });
    lemma_padded_prefix(e.compressed, v.compressed_files, zero_c);
    let start = e.file_headers[i].start as int;
    assert(l.run(i).len() == o.len());
    assert forall|j: int| 0 <= j < o.len() implies written(
        l.uncompressed,
        l.compressed,
        #[trigger] l.run(i)[j],
        o[j],
    ) by {
        assert(l.run(i)[j] == e.files[start + j]);
        assert(written(e.uncompressed, e.compressed, e.files[start + j], o[j]));
        lemma_written_grows(
            e.uncompressed,
            e.compressed,
            l.uncompressed,
            l.compressed,
            e.files[start + j],
            o[j],
        );
    }
}

/// No path is replaced by more files than there are places.
proof fn law_ordered_len(v: FilesView)
    requires
        v.wf(),
    ensures
        v.ordered().len() <= 30,
{
    lemma_somes_len(v.locales);
    lemma_somes_len(v.languages);
    lemma_somes_len(v.regions);
    lemma_somes_len(seq![v.base]);
}

proof fn lemma_somes_len(s: Seq<Option<DiscoveredFile>>)
    ensures
        crate::discover::somes(s).len() <= s.len(),
    decreases s.len(),
{
    if s.len() > 0 {
        lemma_somes_len(s.drop_last());
    }
}

/// Looking up a path in the list of what was discovered gives the file that is preferred for it, and
/// nothing for paths that no file replaces. File indices in the list have 23 bits and run indices 24,
/// so there must not be more files or paths than that.
pub proof fn law_listed_lookup(v: DiscoveryView, hash: Hash40, prefs: LocalePreferences)
    requires
        v.wf(),
        v.listable(),
        v.uncompressed_files <= 0x80_0000,
        v.compressed_files <= 0x80_0000,
        v.keys().len() <= 0x100_0000,
    ensures
        v.listed().wf(),
        match v.listed().file_for(hash, prefs) {
            Some(f) => v.files.contains_key(hash.0) && (v.files[hash.0].preferred(prefs) matches Some(d)
                && stands_for(v.listed(), f, d)),
            None => v.files.contains_key(hash.0) ==> v.files[hash.0].preferred(prefs) is None,
        },
{
    let l = v.listed();
    let keys = v.keys();
    let n = keys.len() as int;
    law_key_listing(v.files.dom());
    law_listed_shaped(v);
    assert forall|i: int| 0 <= i < n implies (#[trigger] l.lookup[i]).spec_path() == Hash40(keys[i])
        && l.lookup[i].spec_index() == i by {
        lemma_listed_path(v, i);
    }
    assert(l.lookup.len() == n && l.file_headers.len() == n);
    lemma_listed_wf(v);
    match l.find(hash) {
        Some(x) => {
            assert(exists|i: int|
                0 <= i < l.lookup.len() && (#[trigger] l.lookup[i]).spec_path() == hash);
            let i = choose|i: int|
                0 <= i < l.lookup.len() && (#[trigger] l.lookup[i]).spec_path() == hash;
            assert(keys[i] == hash.0);
            assert forall|j: int| 0 <= j < i implies (#[trigger] l.lookup[j]).spec_path() != hash by {
                assert(keys[j] < keys[i]);
            }
            assert(x == i) by {
                lemma_first_is(l, hash, i);
            }
            lemma_listed_path(v, i);
            lemma_pick(l, l.run(i), v.files[hash.0], prefs);
        },
        None => {
            if v.files.contains_key(hash.0) {
                assert(v.files.dom().contains(hash.0));
                assert(keys.contains(hash.0));
                let i = choose|i: int| 0 <= i < keys.len() && keys[i] == hash.0;
                assert(l.lookup[i].spec_path() == hash);
            }
        },
    }
}

proof fn lemma_first_is(v: ListView, hash: Hash40, i: int)
    requires
        0 <= i < v.lookup.len(),
        v.lookup[i].spec_path() == hash,
        forall|j: int| 0 <= j < i ==> (#[trigger] v.lookup[j]).spec_path() != hash,
    ensures
        v.find(hash) == Some(i),
{
    let k = choose|k: int|
        0 <= k < v.lookup.len() && (#[trigger] v.lookup[k]).spec_path() == hash && forall|j: int|
            0 <= j < k ==> (#[trigger] v.lookup[j]).spec_path() != hash;
    assert(0 <= k < v.lookup.len() && v.lookup[k].spec_path() == hash && forall|j: int|
        0 <= j < k ==> (#[trigger] v.lookup[j]).spec_path() != hash) by {
        assert(v.lookup[i].spec_path() == hash);
    }
    if k < i {
        assert(v.lookup[k].spec_path() != hash);
    } else if i < k {
        assert(v.lookup[i].spec_path() != hash);
    }
}

proof fn lemma_listed_wf(v: DiscoveryView)
    requires
        v.wf(),
        v.listable(),
        v.uncompressed_files <= 0x80_0000,
        v.compressed_files <= 0x80_0000,
        v.keys().len() <= 0x100_0000,
        is_key_listing(v.files.dom(), v.keys()),
    ensures
        v.listed().wf(),
{
    let l = v.listed();
    let keys = v.keys();
    let n = keys.len() as int;
    lemma_emit_paths(v.files, keys, n);
    assert forall|i: int, j: int| 0 <= i < j < l.lookup.len() implies (
    #[trigger] l.lookup[i]).spec_path().0 <= (#[trigger] l.lookup[j]).spec_path().0 by {
        lemma_listed_path(v, i);
        lemma_listed_path(v, j);
        assert(keys[i] < keys[j]);
    }
    assert forall|i: int| 0 <= i < l.lookup.len() implies (#[trigger] l.lookup[i]).spec_index()
        < l.file_headers.len() by {
        lemma_listed_path(v, i);
    }
    assert forall|i: int| 0 <= i < l.file_headers.len() implies (#[trigger] l.file_headers[i]).start
        + l.file_headers[i].num_files <= l.files.len() by {
        lemma_listed_path(v, i);
    }
    assert forall|i: int| 0 <= i < l.file_headers.len() implies #[trigger] l.run_ok(i) by {
        lemma_listed_path(v, i);
        let files = v.files[keys[i]];
        let o = files.ordered();
        let h = l.file_headers[i];
        law_ordered(files);
        lemma_padded_prefix(
            v.emitted().uncompressed,
            v.uncompressed_files,
            UncompressedFile { size: 0 },
        );
        lemma_padded_prefix(
            v.emitted().compressed,
            v.compressed_files,
            CompressedFile { compressed_start: 0, compressed_size: 0, decompressed_size: 0 },
        );
        assert forall|j: int| h.start <= j < h.start + h.num_files implies l.file_ok(
            #[trigger] l.files[j],
        ) by {
            let x = j - h.start;
            assert(l.run(i)[x] == l.files[j]);
            lemma_written_file(l, l.run(i)[x], o[x]);
            assert(rooted(files, v.roots.len()));
            assert(FilesView::has_place(o[x].regional));
        }
    }
    assert forall|i: int| 0 <= i < l.roots.len() implies (#[trigger] l.roots[i]).byte_start
        + l.roots[i].byte_count <= l.root_bytes.len() by {
        lemma_root_text(v.roots, i + 1, v.roots.len() as int);
    }
}

proof fn lemma_root_text(roots: Seq<Seq<char>>, a: int, b: int)
    requires
        0 <= a <= b,
    ensures
        root_text(roots, a).len() <= root_text(roots, b).len(),
        root_text(roots, b).take(root_text(roots, a).len() as int) == root_text(roots, a),
    decreases b,
{
    if a < b {
        lemma_root_text(roots, a, b - 1);
        assert(root_text(roots, b).take(root_text(roots, a).len() as int) =~= root_text(
            roots,
            b - 1,
        ).take(root_text(roots, a).len() as int));
    } else {
        assert(root_text(roots, b).take(root_text(roots, a).len() as int) =~= root_text(roots, a));
    }
}

/// The paths of the roots read back as they were written.
pub proof fn law_listed_root(v: DiscoveryView, i: int)
    requires
        v.wf(),
        v.listable(),
        0 <= i < v.roots.len(),
    ensures
        v.listed().root(i) == encode_utf8(v.roots[i]),
{
    let l = v.listed();
    let n = v.roots.len() as int;
    lemma_root_text(v.roots, i, n);
    lemma_root_text(v.roots, i + 1, n);
    let text = root_text(v.roots, n);
    let front = root_text(v.roots, i + 1);
    assert(l.root(i) =~= front.subrange(root_text(v.roots, i).len() as int, front.len() as int)) by {
        assert forall|j: int| 0 <= j < encode_utf8(v.roots[i]).len() implies l.root(i)[j]
            == front[root_text(v.roots, i).len() + j] by {
            assert(text.take(front.len() as int)[root_text(v.roots, i).len() + j]
                == front[root_text(v.roots, i).len() + j]);
        }
    }
    assert(front.subrange(root_text(v.roots, i).len() as int, front.len() as int) =~= encode_utf8(
        v.roots[i],
    ));
}

/// Reading the bytes that were written gives the list that was written.
pub proof fn law_list_read_back(v: DiscoveryView, read: ListView)
    requires
        v.wf(),
        v.listable(),
        read.shaped(),
        read.blob() == v.listed().blob(),
    ensures
        read == v.listed(),
{
    law_listed_shaped(v);
    law_list_blob_injective(read, v.listed());
}

} // verus!
