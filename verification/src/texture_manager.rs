use vstd::prelude::*;

use vstd::endian::{endianness, Endian};

use crate::color::{white, Color};

verus! {

/// The four bytes of `w`, lowest first.
pub open spec fn le_bytes(w: u32) -> Seq<u8> {
    seq![
        (w & 0xff) as u8,
        ((w >> 8u32) & 0xff) as u8,
        ((w >> 16u32) & 0xff) as u8,
        ((w >> 24u32) & 0xff) as u8,
    ]
}

/// The four bytes of `w`, highest first.
pub open spec fn be_bytes(w: u32) -> Seq<u8> {
    seq![le_bytes(w)[3], le_bytes(w)[2], le_bytes(w)[1], le_bytes(w)[0]]
}

/// The colour whose channels are the four given bytes, in the order r, g, b, a.
pub open spec fn color_of_bytes(bytes: Seq<u8>) -> Color {
    Color { r: bytes[0], g: bytes[1], b: bytes[2], a: bytes[3] }
}

/// The colour a texel word decodes to on a machine that stores words lowest byte first.
pub open spec fn le_texel(w: u32) -> Color {
    color_of_bytes(le_bytes(w))
}

/// The colour a texel word decodes to on a machine that stores words highest byte first.
pub open spec fn be_texel(w: u32) -> Color {
    color_of_bytes(be_bytes(w))
}

/// The four bytes of `w` as they lie in this machine's memory: lowest first on a
/// little-endian machine, highest first on a big-endian one.
pub open spec fn memory_bytes(w: u32) -> Seq<u8> {
    match endianness() {
        Endian::Little => le_bytes(w),
        Endian::Big => be_bytes(w),
    }
}

/// The colour a texel word decodes to: its bytes, as they lie in memory, taken as
/// r, g, b, a.
pub open spec fn memory_texel(w: u32) -> Color {
    color_of_bytes(memory_bytes(w))
}

/// Every element of `groups` holds the bytes of the matching word of `words` as they
/// lie in this machine's memory.
pub open spec fn in_machine_order(words: Seq<u32>, groups: Seq<Seq<u8>>) -> bool {
    &&& groups.len() == words.len()
    &&& forall|i: int| 0 <= i < words.len() ==> #[trigger] groups[i] == memory_bytes(words[i])
}

/// `bytemuck::cast_slice` from `u32` words to `[u8; 4]` groups. The outside function
/// reinterprets the memory of the slice, so the result has as many groups as there are
/// words and each group holds the bytes of its word as they lie in memory, in the byte
/// order of the machine (vstd's `endianness()`), the same for every call. It cannot
/// fail here, since `[u8; 4]` needs no more alignment than `u32` and has its size.
#[verifier::external_body]
fn cast_words_to_groups<'a>(words: &'a [u32]) -> (groups: &'a [[u8; 4]])
    ensures
        in_machine_order(words@, groups@.map_values(|g: [u8; 4]| g@)),
{
    bytemuck::cast_slice::<u32, [u8; 4]>(words)
}

/// `texels` are the words decoded one by one, each from its bytes as they lie in memory.
pub open spec fn decodes_in_machine_order(words: Seq<u32>, texels: Seq<Color>) -> bool {
    texels == words.map_values(|w: u32| memory_texel(w))
}

/// `mirrored` is the `width` x `height` image `src` with its rows in reverse order:
/// row `r` of `mirrored` is row `height - 1 - r` of `src`.
pub open spec fn is_vertical_mirror(
    mirrored: Seq<Color>,
    src: Seq<Color>,
    width: int,
    height: int,
) -> bool {
    &&& mirrored.len() == width * height
    &&& forall|r: int, x: int|
        0 <= r < height && 0 <= x < width ==> #[trigger] mirrored[r * width + x] == src[(height - 1
            - r) * width + x]
}

/// The colours that byte groups stand for.
spec fn decode_groups(groups: Seq<[u8; 4]>) -> Seq<Color> {
    Seq::new(groups.len(), |k: int| color_of_bytes(groups[k]@))
}

/// The decoded groups are the words decoded in the machine's byte order.
#[verifier::rlimit(30)]
proof fn lemma_decode_groups(words: Seq<u32>, groups: Seq<[u8; 4]>)
    requires
        in_machine_order(words, groups.map_values(|g: [u8; 4]| g@)),
    ensures
        decodes_in_machine_order(words, decode_groups(groups)),
{
    let gs = groups.map_values(|g: [u8; 4]| g@);
    assert(decode_groups(groups) =~= words.map_values(|w: u32| memory_texel(w))) by {
        assert forall|i: int| 0 <= i < words.len() implies decode_groups(groups)[i]
            == words.map_values(|w: u32| memory_texel(w))[i] by {
            assert(gs[i] == groups[i]@);
        }
    }
}

/// Row `rr` of a `w`-wide image lies wholly before row `r` when `rr < r`.
proof fn lemma_row_before(rr: int, xx: int, r: int, w: int)
    requires
        0 <= rr < r,
        0 <= xx < w,
    ensures
        0 <= rr * w + xx < r * w,
{
    assert(0 <= rr * w + xx < r * w) by (nonlinear_arith)
        requires 0 <= rr < r, 0 <= xx < w;
}

/// Storage for every texture: their texels one after the other in `data`.
/// Texture `i` starts at `indices_start[i]` and has size `dimensions[i]` (width, height).
pub struct TextureManager {
    pub indices_start: Vec<usize>,
    pub data: Vec<Color>,
    pub dimensions: Vec<(usize, usize)>,
}

impl TextureManager {
    /// One texture record per texture.
    pub open spec fn well_formed(&self) -> bool {
        self.indices_start@.len() == self.dimensions@.len()
    }

    /// The number of textures stored.
    pub open spec fn texture_count(&self) -> nat {
        self.indices_start@.len()
    }

    /// The position in `data` of texel (x, y) of texture `id`.
    pub open spec fn texel_index(&self, id: int, x: int, y: int) -> int {
        self.indices_start@[id] + y * self.dimensions@[id].0 + x
    }

    /// Texel (x, y) of texture `id`.
    pub open spec fn texel(&self, id: int, x: int, y: int) -> Color {
        self.data@[self.texel_index(id, x, y)]
    }

    /// `self` is `prev` with one more texture appended: it starts where `prev`'s data
    /// ended, has the given size, and its texels are `texels`.
    pub open spec fn appends_texture(
        &self,
        prev: TextureManager,
        texels: Seq<Color>,
        width: usize,
        height: usize,
    ) -> bool {
        &&& self.indices_start@ == prev.indices_start@.push(prev.data.len())
        &&& self.dimensions@ == prev.dimensions@.push((width, height))
        &&& self.data@ == prev.data@ + texels
    }

    /// A manager holding a single 1x1 opaque white texture.
    pub fn new() -> (tm: TextureManager)
        ensures
            tm.well_formed(),
            tm.indices_start@ == seq![0usize],
            tm.dimensions@ == seq![(1usize, 1usize)],
            tm.data@ == seq![white()],
    {
        let mut tm = TextureManager {
            indices_start: Vec::new(),
            data: Vec::new(),
            dimensions: Vec::new(),
        };
        let bytes = [Color { r: 255, g: 255, b: 255, a: 255 }; 1];
        tm.load_texture_color(&bytes, 1, 1);
        assert(tm.data@ =~= seq![white()]);
        tm
    }

    /// Texel (x, y) of texture `texture_id`, read as `data[start + y * width + x]`.
    pub fn at_raw(&self, texture_id: usize, x: usize, y: usize) -> (c: Color)
        requires
            texture_id < self.indices_start@.len(),
            texture_id < self.dimensions@.len(),
            self.texel_index(texture_id as int, x as int, y as int) < self.data@.len(),
        ensures
            c == self.texel(texture_id as int, x as int, y as int),
    {
        let start = self.indices_start[texture_id];
        let width = self.dimensions[texture_id].0;
        let len = self.data.len();
        proof {
            let ghost yw = y as int * width as int;
            assert(self.texel_index(texture_id as int, x as int, y as int) == start + yw + x);
            assert(0 <= yw) by (nonlinear_arith)
                requires yw == y as int * width as int;
        }
        let row = y * width;
        self.data[start + row + x]
    }

    /// Appends a texture of size `width` x `height` whose texels are the words of `bytes`
    /// reinterpreted as colours, one byte per channel in memory order (r, g, b, a).
    /// Returns where the new texture starts in `data`.
    #[verifier::rlimit(30)]
    pub fn load_texture_u32(&mut self, bytes: &[u32], width: usize, height: usize) -> (tex_index:
        usize)
        ensures
            tex_index == old(self).data@.len(),
            final(self).appends_texture(
                *old(self),
                final(self).data@.subrange(tex_index as int, final(self).data@.len() as int),
                width,
                height,
            ),
            decodes_in_machine_order(
                bytes@,
                final(self).data@.subrange(tex_index as int, final(self).data@.len() as int),
            ),
            old(self).well_formed() ==> final(self).well_formed(),
    {
        let tex_index = self.data.len();
        self.indices_start.push(tex_index);
        let groups = cast_words_to_groups(bytes);
        proof {
            lemma_decode_groups(bytes@, groups@);
        }
        let mut i: usize = 0;
        while i < groups.len()
            invariant
                i <= groups@.len(),
                groups@.len() == bytes@.len(),
                tex_index == old(self).data@.len(),
                self.indices_start@ == old(self).indices_start@.push(tex_index),
                self.dimensions@ == old(self).dimensions@,
                self.data@ == old(self).data@ + decode_groups(groups@).subrange(0, i as int),
            decreases groups@.len() - i,
        {
            let g = groups[i];
            self.data.push(Color { r: g[0], g: g[1], b: g[2], a: g[3] });
            i = i + 1;
            assert(self.data@ =~= old(self).data@ + decode_groups(groups@).subrange(0, i as int));
        }
        assert(decode_groups(groups@).subrange(0, i as int) =~= decode_groups(groups@));
        assert(self.data@.subrange(tex_index as int, self.data@.len() as int) =~= decode_groups(
            groups@,
        ));
        self.dimensions.push((width, height));
        tex_index
    }

    /// Appends a texture of size `width` x `height` made from the words of `bytes` as
    /// [`TextureManager::load_texture_u32`] does, with its rows in reverse order: row `r` of
    /// the texture is row `height - 1 - r` of `bytes`. Returns where it starts in `data`.
    #[verifier::rlimit(30)]
    pub fn load_texture_u32_vmirror(&mut self, bytes: &[u32], width: usize, height: usize) -> (tex_index: usize)
        requires
            width * height <= bytes@.len(),
        ensures
            tex_index == old(self).data@.len(),
            final(self).appends_texture(
                *old(self),
                final(self).data@.subrange(tex_index as int, final(self).data@.len() as int),
                width,
                height,
            ),
            ({
                let texels = final(self).data@.subrange(
                    tex_index as int,
                    final(self).data@.len() as int,
                );
                is_vertical_mirror(
                    texels,
                    bytes@.map_values(|w: u32| memory_texel(w)),
                    width as int,
                    height as int,
                )
            }),
            old(self).well_formed() ==> final(self).well_formed(),
    {
        let tex_index = self.data.len();
        self.indices_start.push(tex_index);
        let groups = cast_words_to_groups(bytes);
        let ghost dec = decode_groups(groups@);
        proof {
            lemma_decode_groups(bytes@, groups@);
        }
        let total = bytes.len();
        let mut r: usize = 0;
        while r < height
            invariant
                r <= height,
                width * height <= bytes@.len(),
                total == bytes@.len(),
                groups@.len() == bytes@.len(),
                dec == decode_groups(groups@),
                tex_index == old(self).data@.len(),
                self.indices_start@ == old(self).indices_start@.push(tex_index),
                self.dimensions@ == old(self).dimensions@,
                self.data@.len() == tex_index + r * width,
                self.data@.subrange(0, tex_index as int) == old(self).data@,
                forall|rr: int, xx: int|
                    0 <= rr < r && 0 <= xx < width ==> #[trigger] self.data@[tex_index + rr * width
                        + xx] == dec[(height - 1 - rr) * width + xx],
            decreases height - r,
        {
            let y = height - 1 - r;
            proof {
                assert(y * width + width <= width * height) by (nonlinear_arith)
                    requires y < height;
            }
            let start = y * width;
            let mut x: usize = 0;
            while x < width
                invariant
                    r < height,
                    y == height - 1 - r,
                    start == y * width,
                    start + width <= width * height,
                    x <= width,
                    width * height <= bytes@.len(),
                    total == bytes@.len(),
                    groups@.len() == bytes@.len(),
                    dec == decode_groups(groups@),
                    tex_index == old(self).data@.len(),
                    self.indices_start@ == old(self).indices_start@.push(tex_index),
                    self.dimensions@ == old(self).dimensions@,
                    self.data@.len() == tex_index + r * width + x,
                    self.data@.subrange(0, tex_index as int) == old(self).data@,
                    forall|rr: int, xx: int|
                        0 <= rr < r && 0 <= xx < width ==> #[trigger] self.data@[tex_index + rr
                            * width + xx] == dec[(height - 1 - rr) * width + xx],
                    forall|xx: int|
                        0 <= xx < x ==> #[trigger] self.data@[tex_index + r * width + xx] == dec[(
                        height - 1 - r) * width + xx],
                decreases width - x,
            {
                let g = groups[start + x];
                let ghost before = self.data@;
                self.data.push(Color { r: g[0], g: g[1], b: g[2], a: g[3] });
                proof {
                    assert forall|rr: int, xx: int|
                        0 <= rr < r && 0 <= xx < width implies #[trigger] self.data@[tex_index + rr
                            * width + xx] == dec[(height - 1 - rr) * width + xx] by {
                        lemma_row_before(rr, xx, r as int, width as int);
                        assert(self.data@[tex_index + rr * width + xx] == before[tex_index + rr
                            * width + xx]);
                    }
                    assert(self.data@.subrange(0, tex_index as int) =~= before.subrange(
                        0,
                        tex_index as int,
                    ));
                }
                x = x + 1;
            }
            proof {
                assert forall|rr: int, xx: int|
                    0 <= rr < r + 1 && 0 <= xx < width implies #[trigger] self.data@[tex_index + rr
                        * width + xx] == dec[(height - 1 - rr) * width + xx] by {
                    if rr == r {
                        assert(self.data@[tex_index + r * width + xx] == dec[(height - 1 - r)
                            * width + xx]);
                    }
                }
                assert((r + 1) * width == r * width + width) by (nonlinear_arith);
            }
            r = r + 1;
        }
        let ghost texels = self.data@.subrange(tex_index as int, self.data@.len() as int);
        proof {
            assert(self.data@.len() - tex_index == width * height) by (nonlinear_arith)
                requires self.data@.len() == tex_index + r * width, r == height;
            assert(self.data@ =~= old(self).data@ + texels);
            assert forall|rr: int, xx: int|
                0 <= rr < height && 0 <= xx < width implies #[trigger] texels[rr * width + xx]
                    == dec[(height - 1 - rr) * width + xx] by {
                lemma_row_before(rr, xx, height as int, width as int);
                assert(height as int * width == width * height) by (nonlinear_arith);
                assert(self.data@[tex_index + rr * width + xx] == dec[(height - 1 - rr) * width
                    + xx]);
            }
        }
        self.dimensions.push((width, height));
        tex_index
    }

    /// Appends a texture whose texels are `bytes`, of size `width` x `height`.
    pub fn load_texture_color(&mut self, bytes: &[Color], width: usize, height: usize)
        ensures
            final(self).appends_texture(*old(self), bytes@, width, height),
            old(self).well_formed() ==> final(self).well_formed(),
    {
        self.indices_start.push(self.data.len());
        let mut i: usize = 0;
        while i < bytes.len()
            invariant
                i <= bytes@.len(),
                self.indices_start@ == old(self).indices_start@.push(old(self).data@.len() as usize),
                self.dimensions@ == old(self).dimensions@,
                self.data@ == old(self).data@ + bytes@.subrange(0, i as int),
            decreases bytes@.len() - i,
        {
            self.data.push(bytes[i]);
            i = i + 1;
            assert(self.data@ =~= old(self).data@ + bytes@.subrange(0, i as int));
        }
        assert(bytes@.subrange(0, i as int) =~= bytes@);
        self.dimensions.push((width, height));
    }
}

} // verus!

verus! {

/// Reading a texel of a texture just appended gives back the texel that was stored
/// for it: texel (x, y) of a `width`-wide texture is its texel number `y * width + x`.
pub proof fn lemma_read_appended_texture(
    new: TextureManager,
    prev: TextureManager,
    texels: Seq<Color>,
    width: usize,
    height: usize,
    x: int,
    y: int,
)
    requires
        prev.well_formed(),
        new.appends_texture(prev, texels, width, height),
        0 <= x < width,
        0 <= y,
        y * width + x < texels.len(),
    ensures
        new.texel(prev.texture_count() as int, x, y) == texels[y * width + x],
        new.texel_index(prev.texture_count() as int, x, y) < new.data@.len(),
{
    let id = prev.texture_count() as int;
    assert(new.indices_start@[id] == prev.data.len());
    assert(new.dimensions@[id] == (width, height));
}

/// Appending a texture leaves every texel of the textures already there as it was.
pub proof fn lemma_append_keeps_textures(
    new: TextureManager,
    prev: TextureManager,
    texels: Seq<Color>,
    width: usize,
    height: usize,
    id: int,
    x: int,
    y: int,
)
    requires
        prev.well_formed(),
        new.appends_texture(prev, texels, width, height),
        0 <= id < prev.texture_count(),
        0 <= prev.texel_index(id, x, y) < prev.data@.len(),
    ensures
        new.texel_index(id, x, y) == prev.texel_index(id, x, y),
        new.texel(id, x, y) == prev.texel(id, x, y),
{
    assert(new.indices_start@[id] == prev.indices_start@[id]);
    assert(new.dimensions@[id] == prev.dimensions@[id]);
}

/// On a little-endian machine a texel read from a word is that word's bytes lowest
/// first, and packs back by [`Color::to_u32`] into the word; on a big-endian machine it
/// is the word's bytes highest first. Either way every byte of the word lands in one
/// channel: red is the byte at the lowest address.
pub proof fn lemma_memory_texel(w: u32)
    ensures
        endianness() == Endian::Little ==> memory_texel(w) == le_texel(w) && memory_texel(w).packed()
            == w,
        endianness() == Endian::Big ==> memory_texel(w) == be_texel(w),
        memory_texel(w).r == memory_bytes(w)[0],
        memory_texel(w).g == memory_bytes(w)[1],
        memory_texel(w).b == memory_bytes(w)[2],
        memory_texel(w).a == memory_bytes(w)[3],
{
    lemma_le_texel_packs_back(w);
}

/// Equal words give equal texels, whatever texture and whatever call they were loaded
/// by: the decoding is the machine's byte order, the same every time.
pub proof fn lemma_equal_words_equal_texels(
    t1: Seq<Color>,
    words1: Seq<u32>,
    i: int,
    t2: Seq<Color>,
    words2: Seq<u32>,
    j: int,
)
    requires
        decodes_in_machine_order(words1, t1),
        decodes_in_machine_order(words2, t2),
        0 <= i < words1.len(),
        0 <= j < words2.len(),
        words1[i] == words2[j],
    ensures
        t1[i] == t2[j],
        t1[i] == memory_texel(words1[i]),
{
}

/// A word decoded lowest byte first and packed again by [`Color::to_u32`] is the
/// word itself.
pub proof fn lemma_le_texel_packs_back(w: u32)
    ensures
        le_texel(w).packed() == w,
{
    let b0 = w & 0xff;
    let b1 = (w >> 8u32) & 0xff;
    let b2 = (w >> 16u32) & 0xff;
    let b3 = (w >> 24u32) & 0xff;
    assert(b0 + 256 * b1 + 65536 * b2 + 16777216 * b3 == w) by (bit_vector)
        requires
            b0 == w & 0xff,
            b1 == (w >> 8u32) & 0xff,
            b2 == (w >> 16u32) & 0xff,
            b3 == (w >> 24u32) & 0xff,
    ;
    assert(b0 < 256 && b1 < 256 && b2 < 256 && b3 < 256) by (bit_vector)
        requires
            b0 == w & 0xff,
            b1 == (w >> 8u32) & 0xff,
            b2 == (w >> 16u32) & 0xff,
            b3 == (w >> 24u32) & 0xff,
    ;
}

/// Texel (x, y) of a texture appended by [`TextureManager::load_texture_u32`] is the
/// word `y * width + x` of the input, decoded in the machine's byte order.
pub proof fn lemma_read_u32_texture(
    new: TextureManager,
    prev: TextureManager,
    words: Seq<u32>,
    width: usize,
    height: usize,
    x: int,
    y: int,
)
    requires
        prev.well_formed(),
        new.appends_texture(prev, new.data@.subrange(prev.data@.len() as int, new.data@.len() as int), width, height),
        decodes_in_machine_order(words, new.data@.subrange(prev.data@.len() as int, new.data@.len() as int)),
        0 <= x < width,
        0 <= y,
        y * width + x < words.len(),
    ensures
        new.texel(prev.texture_count() as int, x, y) == memory_texel(words[y * width + x]),
{
    let texels = new.data@.subrange(prev.data@.len() as int, new.data@.len() as int);
    lemma_read_appended_texture(new, prev, texels, width, height, x, y);
}

/// Texel (x, y) of a texture appended by [`TextureManager::load_texture_u32_vmirror`] is
/// the word at (x, `height - 1 - y`) of the input, decoded in the machine's byte order.
#[verifier::rlimit(30)]
pub proof fn lemma_read_mirrored_texture(
    new: TextureManager,
    prev: TextureManager,
    words: Seq<u32>,
    width: usize,
    height: usize,
    x: int,
    y: int,
)
    requires
        prev.well_formed(),
        new.appends_texture(prev, new.data@.subrange(prev.data@.len() as int, new.data@.len() as int), width, height),
        ({
            let texels = new.data@.subrange(prev.data@.len() as int, new.data@.len() as int);
            is_vertical_mirror(texels, words.map_values(|w: u32| memory_texel(w)), width as int, height as int)
        }),
        width * height <= words.len(),
        0 <= x < width,
        0 <= y < height,
    ensures
        new.texel(prev.texture_count() as int, x, y) == memory_texel(words[(height - 1 - y) * width + x]),
{
    let texels = new.data@.subrange(prev.data@.len() as int, new.data@.len() as int);
    lemma_row_before(y, x, height as int, width as int);
    lemma_row_before(height - 1 - y, x, height as int, width as int);
    assert(height as int * width == width * height) by (nonlinear_arith);
    lemma_read_appended_texture(new, prev, texels, width, height, x, y);
    assert(texels[y * width + x] == texels[y * width + x]);
}

} // verus!
