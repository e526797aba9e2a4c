//! Images and how they are sampled.

use crate::nvn::{TextureHandle, WrapMode};
use crate::strings::str_eq;
use std::collections::BTreeMap;
use vstd::prelude::*;

verus! {

broadcast use {vstd::laws_cmp::group_laws_cmp, vstd::std_specs::btree::group_btree_axioms};

/// Width, height and bytes of the image that a PNG file holds, four bytes for each pixel. `None` if the
/// file holds no image.
pub uninterp spec fn decoded_png(bytes: Seq<u8>) -> Option<(u32, u32, Seq<u8>)>;

/// Decodes a PNG file.
///
/// Calls `image::load_from_memory_with_format` and `DynamicImage::to_rgba8`. What comes out is a function
/// of the file's bytes, and there are four bytes for each pixel.
#[verifier::external_body]
fn decode_png(bytes: &[u8]) -> (r: Option<(u32, u32, Vec<u8>)>)
    ensures
        r is Some <==> decoded_png(bytes@) is Some,
        r matches Some((w, h, pixels)) ==> decoded_png(bytes@) == Some((w, h, pixels@)) && pixels@.len()
            == 4 * w * h,
{
    let image = image::load_from_memory_with_format(bytes, image::ImageFormat::Png).ok()?.to_rgba8();
    Some((image.width(), image.height(), image.into_raw()))
}

/// How an image fills a larger area.
#[derive(Copy, Clone, Debug, PartialEq, Eq, Structural)]
pub enum ScalingMode {
    Stretch,
    Tiling,
}

/// How the texture of an image goes on outside of its edges.
pub fn wrap_mode(scaling: ScalingMode) -> (r: WrapMode)
    ensures
        r == match scaling {
            ScalingMode::Stretch => WrapMode::ClampEdge,
            ScalingMode::Tiling => WrapMode::Repeat,
        },
{
    match scaling {
        ScalingMode::Stretch => WrapMode::ClampEdge,
        ScalingMode::Tiling => WrapMode::Repeat,
    }
}

/// How a texture is sampled.
#[derive(Copy, Clone, Debug, PartialEq, Eq, Structural)]
pub struct ImageSampler {
    pub wrap_mode_x: WrapMode,
    pub wrap_mode_y: WrapMode,
}

/// A texture and how it is sampled.
#[derive(Copy, Clone, Debug, PartialEq, Eq, Structural)]
pub struct TextureInfo {
    pub width: u32,
    pub height: u32,
    pub handle: TextureHandle,
}

/// A texture that was loaded.
#[derive(Copy, Clone, Debug, PartialEq, Eq, Structural)]
pub struct LoadedTexture {
    pub width: u32,
    pub height: u32,
    pub texture_id: i32,
}

/// Where descriptors of textures and samplers lie.
#[derive(Copy, Clone, Debug, PartialEq, Eq, Structural)]
pub struct DescriptorLayout {
    pub texture_count: usize,
    pub sampler_count: usize,
    /// Offset of the descriptors of samplers, behind those of textures.
    pub sampler_offset: usize,
    pub total_size: usize,
}

/// Can the descriptors be laid out? There is at least one image, and all numbers stay in range.
pub open spec fn has_descriptors(
    texture_size: usize,
    sampler_size: usize,
    reserved_textures: usize,
    reserved_samplers: usize,
    max_images: usize,
) -> bool {
    &&& max_images > 0
    &&& reserved_textures + max_images <= i32::MAX
    &&& reserved_samplers + max_images <= i32::MAX
    &&& texture_size * (reserved_textures + max_images) + sampler_size * (reserved_samplers + max_images)
        <= usize::MAX
}

fn checked_product(a: usize, b: usize) -> (r: Option<usize>)
    ensures
        r is Some <==> a * b <= usize::MAX,
        r matches Some(p) ==> p == a * b,
{
    a.checked_mul(b)
}

/// Lays out the descriptors of textures and samplers.
pub fn descriptor_layout(
    texture_size: usize,
    sampler_size: usize,
    reserved_textures: usize,
    reserved_samplers: usize,
    max_images: usize,
) -> (r: Option<DescriptorLayout>)
    ensures
        r is Some <==> has_descriptors(
            texture_size,
            sampler_size,
            reserved_textures,
            reserved_samplers,
            max_images,
        ),
        r matches Some(layout) ==> {
            &&& layout.texture_count == reserved_textures + max_images
            &&& layout.sampler_count == reserved_samplers + max_images
            &&& layout.sampler_offset == texture_size * layout.texture_count
            &&& layout.total_size == layout.sampler_offset + sampler_size * layout.sampler_count
        },
{
    if max_images == 0 {
        return None;
    }
    let limit: usize = i32::MAX as usize;
    if max_images > limit || reserved_textures > limit - max_images || reserved_samplers > limit
        - max_images {
        return None;
    }
    let texture_count: usize = reserved_textures + max_images;
    let sampler_count: usize = reserved_samplers + max_images;
    proof {
        assert(texture_size * texture_count >= 0 && sampler_size * sampler_count >= 0)
            by (nonlinear_arith);
    }
    let Some(sampler_offset) = checked_product(texture_size, texture_count) else {
        return None;
    };
    let Some(samplers) = checked_product(sampler_size, sampler_count) else {
        return None;
    };
    match sampler_offset.checked_add(samplers) {
        Some(total_size) => Some(
            DescriptorLayout { texture_count, sampler_count, sampler_offset, total_size },
        ),
        None => None,
    }
}

/// What is known of the images.
pub struct ImagesView {
    /// The textures by name.
    pub loaded: Map<Seq<char>, LoadedTexture>,
    /// The textures that are sampled in some way, by name and sampler.
    pub requested: Map<(Seq<char>, ImageSampler), TextureInfo>,
    pub texture_current: int,
    pub sampler_current: int,
    pub texture_max: int,
    pub sampler_max: int,
}

/// What a request for a texture comes down to.
#[derive(Copy, Clone, Debug, PartialEq, Eq, Structural)]
pub enum TextureRequest {
    /// The texture was sampled in this way before.
    Known(TextureInfo),
    /// There is no such texture.
    Missing,
    /// A sampler has to be registered for the texture.
    Register { texture_id: i32, sampler_id: i32 },
}

impl ImagesView {
    pub open spec fn request(self, name: Seq<char>, sampler: ImageSampler) -> TextureRequest {
        if self.requested.contains_key((name, sampler)) {
            TextureRequest::Known(self.requested[(name, sampler)])
        } else if self.loaded.contains_key(name) {
            TextureRequest::Register {
                texture_id: self.loaded[name].texture_id,
                sampler_id: self.sampler_current as i32,
            }
        } else {
            TextureRequest::Missing
        }
    }

    /// The images after a sampler was registered for a texture.
    pub open spec fn registered(self, name: Seq<char>, sampler: ImageSampler, handle: TextureHandle) -> ImagesView {
        ImagesView {
            requested: self.requested.insert(
                (name, sampler),
                TextureInfo {
                    width: self.loaded[name].width,
                    height: self.loaded[name].height,
                    handle,
                },
            ),
            sampler_current: self.sampler_current + 1,
            ..self
        }
    }

    /// Can another texture of this name be loaded?
    pub open spec fn can_load(self, name: Seq<char>) -> bool {
        self.sampler_current < self.sampler_max && self.texture_current < self.texture_max
            && !self.loaded.contains_key(name)
    }

    /// The images after a texture was loaded.
    pub open spec fn with_loaded(self, name: Seq<char>, width: u32, height: u32) -> ImagesView {
        ImagesView {
            loaded: self.loaded.insert(
                name,
                LoadedTexture { width, height, texture_id: self.texture_current as i32 },
            ),
            texture_current: self.texture_current + 1,
            ..self
        }
    }

    /// Textures have numbers of their own, which are less than the next one.
    pub open spec fn distinct(self) -> bool {
        &&& forall|a: Seq<char>| #[trigger]
            self.loaded.contains_key(a) ==> self.loaded[a].texture_id < self.texture_current
        &&& forall|a: Seq<char>, b: Seq<char>|
            self.loaded.contains_key(a) && self.loaded.contains_key(b) && a != b
                ==> #[trigger] self.loaded[a].texture_id != #[trigger] self.loaded[b].texture_id
    }
}

/// Loading a texture keeps the numbers of textures apart, and a request for it is answered.
pub proof fn law_images(
    v: ImagesView,
    name: Seq<char>,
    width: u32,
    height: u32,
    sampler: ImageSampler,
    handle: TextureHandle,
)
    requires
        v.distinct(),
        i32::MIN <= v.texture_current <= i32::MAX,
    ensures
        v.with_loaded(name, width, height).distinct(),
        !(v.with_loaded(name, width, height).request(name, sampler) is Missing),
        v.registered(name, sampler, handle).request(name, sampler) is Known,
        v.registered(name, sampler, handle).request(name, sampler)->Known_0.handle == handle,
{
}

struct LoadedEntry {
    name: String,
    texture: LoadedTexture,
}

struct RequestedEntry {
    name: String,
    sampler: ImageSampler,
    info: TextureInfo,
}

/// The images that were loaded, and the samplers that were registered for them.
pub struct Images {
    loaded: Vec<LoadedEntry>,
    requested: Vec<RequestedEntry>,
    texture_current: i32,
    sampler_current: i32,
    texture_max: i32,
    sampler_max: i32,
}

/// What the entries add up to. Later ones take the place of earlier ones.
closed spec fn loaded_of(entries: Seq<LoadedEntry>) -> Map<Seq<char>, LoadedTexture>
    decreases entries.len(),
{
    if entries.len() == 0 {
        Map::empty()
    } else {
        loaded_of(entries.drop_last()).insert(entries.last().name@, entries.last().texture)
    }
}

/// What the entries add up to. Later ones take the place of earlier ones.
closed spec fn requested_of(entries: Seq<RequestedEntry>) -> Map<(Seq<char>, ImageSampler), TextureInfo>
    decreases entries.len(),
{
    if entries.len() == 0 {
        Map::empty()
    } else {
        requested_of(entries.drop_last()).insert(
            (entries.last().name@, entries.last().sampler),
            entries.last().info,
        )
    }
}

impl View for Images {
    type V = ImagesView;

    closed spec fn view(&self) -> ImagesView {
        ImagesView {
            loaded: loaded_of(self.loaded@),
            requested: requested_of(self.requested@),
            texture_current: self.texture_current as int,
            sampler_current: self.sampler_current as int,
            texture_max: self.texture_max as int,
            sampler_max: self.sampler_max as int,
        }
    }
}

impl Images {
    /// Without images. The first descriptors are reserved.
    pub fn new(reserved_textures: usize, reserved_samplers: usize, max_images: usize) -> (r: Images)
        requires
            reserved_textures + max_images <= i32::MAX,
            reserved_samplers + max_images <= i32::MAX,
        ensures
            r@ == (ImagesView {
                loaded: Map::empty(),
                requested: Map::empty(),
                texture_current: reserved_textures as int,
                sampler_current: reserved_samplers as int,
                texture_max: reserved_textures + max_images,
                sampler_max: reserved_samplers + max_images,
            }),
            r@.distinct(),
    {
        Images {
            loaded: Vec::new(),
            requested: Vec::new(),
            texture_current: reserved_textures as i32,
            sampler_current: reserved_samplers as i32,
            texture_max: (reserved_textures + max_images) as i32,
            sampler_max: (reserved_samplers + max_images) as i32,
        }
    }

    /// The texture with this name.
    pub fn get_texture(&self, name: &str) -> (r: Option<LoadedTexture>)
        ensures
            r is Some <==> self@.loaded.contains_key(name@),
            r matches Some(texture) ==> texture == self@.loaded[name@],
    {
        let mut i: usize = self.loaded.len();
        proof {
            assert(self.loaded@.take(i as int) =~= self.loaded@);
        }
        while i > 0
            invariant
                i <= self.loaded@.len(),
                self@.loaded.contains_key(name@) == loaded_of(
                    self.loaded@.take(i as int),
                ).contains_key(name@),
                self@.loaded.contains_key(name@) ==> self@.loaded[name@] == loaded_of(
                    self.loaded@.take(i as int),
                )[name@],
            decreases i,
        {
            proof {
                let t = self.loaded@.take(i as int);
                assert(t.drop_last() =~= self.loaded@.take(i - 1));
                assert(t.last() == self.loaded@[i - 1]);
            }
            i -= 1;
            if str_eq(self.loaded[i].name.as_str(), name) {
                return Some(self.loaded[i].texture);
            }
        }
        None
    }

    fn get_requested(&self, name: &str, sampler: ImageSampler) -> (r: Option<TextureInfo>)
        ensures
            r is Some <==> self@.requested.contains_key((name@, sampler)),
            r matches Some(info) ==> info == self@.requested[(name@, sampler)],
    {
        let mut i: usize = self.requested.len();
        let ghost key = (name@, sampler);
        proof {
            assert(self.requested@.take(i as int) =~= self.requested@);
        }
        while i > 0
            invariant
                key == (name@, sampler),
                i <= self.requested@.len(),
                self@.requested.contains_key(key) == requested_of(
                    self.requested@.take(i as int),
                ).contains_key(key),
                self@.requested.contains_key(key) ==> self@.requested[key] == requested_of(
                    self.requested@.take(i as int),
                )[key],
            decreases i,
        {
            proof {
                let t = self.requested@.take(i as int);
                assert(t.drop_last() =~= self.requested@.take(i - 1));
                assert(t.last() == self.requested@[i - 1]);
            }
            i -= 1;
            let entry = &self.requested[i];
            if entry.sampler == sampler && str_eq(entry.name.as_str(), name) {
                return Some(entry.info);
            }
        }
        None
    }

    /// Looks for a texture that is sampled in some way.
    pub fn request_texture(&self, name: &str, sampler: ImageSampler) -> (r: TextureRequest)
        ensures
            r == self@.request(name@, sampler),
    {
        if let Some(info) = self.get_requested(name, sampler) {
            return TextureRequest::Known(info);
        }
        match self.get_texture(name) {
            Some(texture) => TextureRequest::Register {
                texture_id: texture.texture_id,
                sampler_id: self.sampler_current,
            },
            None => TextureRequest::Missing,
        }
    }

    /// Takes note of a sampler that was registered for a texture.
    pub fn register(&mut self, name: String, sampler: ImageSampler, handle: TextureHandle) -> (r:
        TextureInfo)
        requires
            old(self)@.request(name@, sampler) is Register,
            old(self)@.sampler_current < i32::MAX,
        ensures
            final(self)@ == old(self)@.registered(name@, sampler, handle),
            final(self)@.request(name@, sampler) == TextureRequest::Known(r),
    {
        let info = match self.get_texture(name.as_str()) {
            Some(texture) => TextureInfo { width: texture.width, height: texture.height, handle },
            None => vstd::pervasive::unreached(),
        };
        self.requested.push(RequestedEntry { name, sampler, info });
        self.sampler_current = self.sampler_current + 1;
        proof {
            assert(self.requested@.drop_last() =~= old(self).requested@);
        }
        info
    }

    /// Can another texture of this name be loaded?
    pub fn can_load(&self, name: &str) -> (r: bool)
        ensures
            r == self@.can_load(name@),
    {
        self.sampler_current < self.sampler_max && self.texture_current < self.texture_max
            && self.get_texture(name).is_none()
    }

    /// Takes note of a texture that was loaded, and returns the number that it is registered under.
    fn add_texture(&mut self, name: String, width: u32, height: u32) -> (r: i32)
        requires
            old(self)@.texture_current < i32::MAX,
        ensures
            final(self)@ == old(self)@.with_loaded(name@, width, height),
            r == old(self)@.texture_current,
    {
        let texture_id: i32 = self.texture_current;
        self.loaded.push(LoadedEntry { name, texture: LoadedTexture { width, height, texture_id } });
        self.texture_current = texture_id + 1;
        proof {
            assert(self.loaded@.drop_last() =~= old(self).loaded@);
        }
        texture_id
    }

    /// Decodes an image, and takes note of it. Returns its texture and its pixels. `None` if there is no
    /// space for it, if one of its name was loaded, or if it cannot be decoded.
    pub fn load_texture(&mut self, name: String, bytes: &[u8]) -> (r: Option<(LoadedTexture, Vec<u8>)>)
        ensures
            r is Some <==> old(self)@.can_load(name@) && decoded_png(bytes@) is Some,
            r is None ==> final(self)@ == old(self)@,
            r matches Some((texture, pixels)) ==> {
                &&& decoded_png(bytes@) == Some((texture.width, texture.height, pixels@))
                &&& pixels@.len() == 4 * texture.width * texture.height
                &&& final(self)@ == old(self)@.with_loaded(name@, texture.width, texture.height)
                &&& final(self)@.loaded[name@] == texture
            },
    {
        if !self.can_load(name.as_str()) {
            return None;
        }
        match decode_png(bytes) {
            Some((width, height, pixels)) => {
                let texture_id: i32 = self.add_texture(name, width, height);
                Some((LoadedTexture { width, height, texture_id }, pixels))
            },
            None => None,
        }
    }

    /// The numbers that the next texture and the next sampler are registered under.
    pub fn next_ids(&self) -> (r: (i32, i32))
        ensures
            r.0 == self@.texture_current,
            r.1 == self@.sampler_current,
    {
        (self.texture_current, self.sampler_current)
    }

    /// Takes note of a texture that is drawn to, and of a sampler for it. Returns the numbers that they
    /// are registered under.
    pub fn new_multisampled_render_target(&mut self, name: String, width: u32, height: u32) -> (r: (i32, i32))
        requires
            old(self)@.texture_current < i32::MAX,
            old(self)@.sampler_current < i32::MAX,
        ensures
            r.0 == old(self)@.texture_current,
            r.1 == old(self)@.sampler_current,
            final(self)@ == (ImagesView {
                sampler_current: old(self)@.sampler_current + 1,
                ..old(self)@.with_loaded(name@, width, height)
            }),
    {
        let texture_id: i32 = self.add_texture(name, width, height);
        let sampler_id: i32 = self.sampler_current;
        self.sampler_current = sampler_id + 1;
        (texture_id, sampler_id)
    }
}

/// The number of vertices of an image: two triangles.
pub const IMAGE_VERTICES: usize = 6;

/// An image that is drawn.
#[derive(Copy, Clone, Debug, PartialEq, Eq, Structural)]
pub struct EnvyTextureInfo {
    /// Which six vertices belong to the image.
    pub requested_id: usize,
    pub width: u32,
    pub height: u32,
    pub scaling_x: ScalingMode,
    pub scaling_y: ScalingMode,
}

/// The images that are drawn, by their texture.
pub struct DrawnImages {
    images: BTreeMap<u64, EnvyTextureInfo>,
}

impl View for DrawnImages {
    type V = Map<u64, EnvyTextureInfo>;

    closed spec fn view(&self) -> Map<u64, EnvyTextureInfo> {
        self.images@
    }
}

impl DrawnImages {
    pub fn new() -> (r: DrawnImages)
        ensures
            r@ == Map::<u64, EnvyTextureInfo>::empty(),
    {
        DrawnImages { images: BTreeMap::new() }
    }

    /// Adds an image. Its vertices are numbered by how many textures were added before.
    pub fn add(
        &mut self,
        handle: TextureHandle,
        width: u32,
        height: u32,
        scaling_x: ScalingMode,
        scaling_y: ScalingMode,
    )
        ensures
            final(self)@ == old(self)@.insert(
                handle.0,
                EnvyTextureInfo {
                    requested_id: old(self)@.len() as usize,
                    width,
                    height,
                    scaling_x,
                    scaling_y,
                },
            ),
    {
        let requested_id: usize = self.images.len();
        self.images.insert(
            handle.0,
            EnvyTextureInfo { requested_id, width, height, scaling_x, scaling_y },
        );
    }

    /// The image with this texture.
    pub fn get(&self, handle: TextureHandle) -> (r: Option<EnvyTextureInfo>)
        ensures
            r is Some <==> self@.contains_key(handle.0),
            r matches Some(info) ==> info == self@[handle.0],
    {
        match self.images.get(&handle.0) {
            Some(info) => Some(*info),
            None => None,
        }
    }
}

/// The first vertex of an image, and the first one behind its vertices. `None` if there are too many.
pub fn vertex_range(requested_id: usize) -> (r: Option<(usize, usize)>)
    ensures
        r is Some <==> (requested_id + 1) * 6 <= usize::MAX,
        r matches Some((start, end)) ==> start == requested_id * 6 && end == start + 6,
{
    match requested_id.checked_mul(IMAGE_VERTICES) {
        Some(start) => match start.checked_add(IMAGE_VERTICES) {
            Some(end) => Some((start, end)),
            None => None,
        },
        None => None,
    }
}

/// Loading a texture gives it the next number and its size, and leaves all others. A request for it with a
/// new sampler asks for registering that number with the next sampler. Registering answers all requests with
/// the size of the texture, and leaves all other requests.
pub proof fn law_image_numbers(
    v: ImagesView,
    name: Seq<char>,
    other: Seq<char>,
    width: u32,
    height: u32,
    sampler: ImageSampler,
    another: ImageSampler,
    handle: TextureHandle,
)
    requires
        i32::MIN <= v.texture_current < i32::MAX,
        i32::MIN <= v.sampler_current < i32::MAX,
    ensures
        ({
            let w = v.with_loaded(name, width, height);
            let r = v.registered(name, sampler, handle);
            &&& w.loaded[name].width == width
            &&& w.loaded[name].height == height
            &&& w.loaded[name].texture_id == v.texture_current
            &&& w.texture_current == v.texture_current + 1
            &&& w.sampler_current == v.sampler_current
            &&& w.requested == v.requested
            &&& other != name ==> (w.loaded.contains_key(other) <==> v.loaded.contains_key(other))
                && w.loaded[other] == v.loaded[other]
            &&& v.request(name, sampler) is Missing <==> !v.requested.contains_key((name, sampler))
                && !v.loaded.contains_key(name)
            &&& v.request(name, sampler) matches TextureRequest::Register { texture_id, sampler_id }
                ==> v.loaded.contains_key(name) && texture_id == v.loaded[name].texture_id && sampler_id
                == v.sampler_current
            &&& r.requested[(name, sampler)].width == v.loaded[name].width
            &&& r.requested[(name, sampler)].height == v.loaded[name].height
            &&& r.requested[(name, sampler)].handle == handle
            &&& r.sampler_current == v.sampler_current + 1
            &&& r.texture_current == v.texture_current
            &&& r.loaded == v.loaded
            &&& other != name || another != sampler ==> (r.requested.contains_key((other, another))
                <==> v.requested.contains_key((other, another))) && r.requested[(other, another)]
                == v.requested[(other, another)]
        }),
{
}

} // verus!
