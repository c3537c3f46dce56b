//! Background image fetching.
//!
//! Game capsules and achievement icons come from Steam's CDN. Which of them to
//! download next, and what became of each, is kept here; the downloads and the
//! textures are the caller's. Only images that are actually on screen get
//! requested, so opening a game with 300 achievements does not queue 300
//! downloads up front.

use std::collections::VecDeque;
use vstd::hash_map::StringHashMap;
use vstd::prelude::*;

verus! {

/// Largest dimension we keep. Capsules are ~231x87 and icons 64x64, but the
/// legacy `logo` fallback can be much bigger.
pub const MAX_DIMENSION: u32 = 512;

/// Concurrent downloads. Enough to fill a scrolling grid quickly without
/// hammering the CDN.
pub const MAX_CONCURRENT: usize = 6;

/// Refuse absurd payloads; these assets are tens of kilobytes.
pub const MAX_BYTES: u64 = 8_388_608;

/// What became of an image that was asked for.
#[derive(Debug, Clone, Copy, PartialEq, Eq, Structural)]
pub enum Entry {
    Loading,
    Failed,
    Ready,
}

/// Which images were asked for, which are waiting, and how many are on their
/// way.
pub struct ImageStore {
    entries: StringHashMap<Entry>,
    queue: VecDeque<String>,
    active: usize,
}

/// What an [`ImageStore`] says.
pub struct StoreModel {
    pub entries: Map<Seq<char>, Entry>,
    pub queue: Seq<Seq<char>>,
    pub active: nat,
}

impl View for ImageStore {
    type V = StoreModel;

    closed spec fn view(&self) -> StoreModel {
        StoreModel {
            entries: self.entries@,
            queue: self.queue@.map_values(|url: String| url@),
            active: self.active as nat,
        }
    }
}

/// A store in good order: no more downloads are running than are allowed, and
/// no image is waiting twice or without having been asked for. An image that was
/// asked for once is never queued again.
pub open spec fn orderly(store: StoreModel) -> bool {
    &&& store.active <= MAX_CONCURRENT
    &&& store.queue.no_duplicates()
    &&& forall|i: int|
        0 <= i < store.queue.len() ==> store.entries.contains_key(#[trigger] store.queue[i])
}

impl Default for ImageStore {
    fn default() -> (r: Self)
        ensures
            r@ == empty_store(),
    {
        ImageStore::new()
    }
}

impl ImageStore {
    /// Nothing was asked for yet.
    pub fn new() -> (r: ImageStore)
        ensures
            r@ == empty_store(),
            orderly(r@),
    {
        let r = ImageStore { entries: StringHashMap::new(), queue: VecDeque::new(), active: 0 };
        assert(r@.queue =~= Seq::<Seq<char>>::empty());
        r
    }

    /// What became of `url`, requesting it if this is the first time it is asked
    /// for.
    pub fn texture(&mut self, url: &str) -> (r: Entry)
        ensures
            final(self)@ == asked(old(self)@, url@),
            r == final(self)@.entries[url@],
            orderly(old(self)@) ==> orderly(final(self)@),
    {
        let ghost was = self@;
        let known = match self.entries.get(url) {
            Some(entry) => Some(*entry),
            None => None,
        };
        match known {
            Some(entry) => entry,
            None => {
                self.entries.insert(url.to_owned(), Entry::Loading);
                self.queue.push_back(url.to_owned());
                assert(self@.queue =~= was.queue.push(url@));
                Entry::Loading
            },
        }
    }

    /// Takes delivery of a finished download.
    pub fn delivered(&mut self, url: String, loaded: bool)
        ensures
            final(self)@ == after_delivery(old(self)@, url@, loaded),
            orderly(old(self)@) ==> orderly(final(self)@),
    {
        if self.active > 0 {
            self.active = self.active - 1;
        }
        self.entries.insert(
            url,
            if loaded {
                Entry::Ready
            } else {
                Entry::Failed
            },
        );
    }

    /// The next image to download, while there is room for one more.
    pub fn start_next(&mut self) -> (r: Option<String>)
        ensures
            orderly(old(self)@) ==> orderly(final(self)@),
            final(self)@ == started(old(self)@).0,
            match started(old(self)@).1 {
                Some(next) => r matches Some(url) && url@ == next,
                None => r is None,
            },
    {
        let ghost was = self@;
        if self.active >= MAX_CONCURRENT {
            return None;
        }
        match self.queue.pop_front() {
            Some(url) => {
                self.active = self.active + 1;
                assert(self@.queue =~= was.queue.skip(1));
                Some(url)
            },
            None => None,
        }
    }

    /// How many downloads are outstanding, for the status bar.
    pub fn outstanding(&self) -> (r: usize)
        ensures
            r == if self@.active + self@.queue.len() <= usize::MAX {
                (self@.active + self@.queue.len()) as int
            } else {
                usize::MAX as int
            },
    {
        self.queue.len().saturating_add(self.active)
    }
}

/// Something that is done with a store.
pub enum StoreAct {
    /// An image is asked for.
    Ask { url: Seq<char> },
    /// A download is started, if there is one to start.
    Start,
    /// A download has come to an end.
    Deliver { url: Seq<char>, loaded: bool },
}

/// A store in which nothing was asked for yet.
pub open spec fn empty_store() -> StoreModel {
    StoreModel {
        entries: Map::<Seq<char>, Entry>::empty(),
        queue: Seq::<Seq<char>>::empty(),
        active: 0,
    }
}

/// A store after an image was asked for.
pub open spec fn asked(store: StoreModel, url: Seq<char>) -> StoreModel {
    if store.entries.contains_key(url) {
        store
    } else {
        StoreModel {
            entries: store.entries.insert(url, Entry::Loading),
            queue: store.queue.push(url),
            active: store.active,
        }
    }
}

/// A store after a download has come to an end.
pub open spec fn after_delivery(store: StoreModel, url: Seq<char>, loaded: bool) -> StoreModel {
    StoreModel {
        entries: store.entries.insert(
            url,
            if loaded {
                Entry::Ready
            } else {
                Entry::Failed
            },
        ),
        queue: store.queue,
        active: if store.active > 0 {
            (store.active - 1) as nat
        } else {
            0
        },
    }
}

/// The image whose download is started next, and the store after that.
pub open spec fn started(store: StoreModel) -> (StoreModel, Option<Seq<char>>) {
    if store.active < MAX_CONCURRENT && store.queue.len() > 0 {
        (
            StoreModel {
                entries: store.entries,
                queue: store.queue.skip(1),
                active: store.active + 1,
            },
            Some(store.queue[0]),
        )
    } else {
        (store, None)
    }
}

/// A store after what was done with it from the start, and the images whose
/// downloads were started, in order.
pub open spec fn history(acts: Seq<StoreAct>) -> (StoreModel, Seq<Seq<char>>)
    decreases acts.len(),
{
    if acts.len() == 0 {
        (empty_store(), Seq::empty())
    } else {
        let (store, urls) = history(acts.drop_last());
        match acts.last() {
            StoreAct::Ask { url } => (asked(store, url), urls),
            StoreAct::Deliver { url, loaded } => (after_delivery(store, url, loaded), urls),
            StoreAct::Start => match started(store) {
                (now, Some(url)) => (now, urls.push(url)),
                (now, None) => (now, urls),
            },
        }
    }
}

/// However often an image is asked for, and whatever became of it, it is
/// downloaded at most once; and no more downloads run at a time than are allowed.
pub proof fn no_image_is_fetched_twice(acts: Seq<StoreAct>)
    ensures
        history(acts).1.no_duplicates(),
        history(acts).0.active <= MAX_CONCURRENT,
        orderly(history(acts).0),
{
    downloads_are_new(acts);
}

/// What was downloaded, or is waiting to be, was asked for, and is there once.
proof fn downloads_are_new(acts: Seq<StoreAct>)
    ensures
        ({
            let (store, urls) = history(acts);
            &&& store.active <= MAX_CONCURRENT
            &&& (urls + store.queue).no_duplicates()
            &&& forall|i: int|
                0 <= i < urls.len() + store.queue.len() ==> store.entries.contains_key(
                    #[trigger] (urls + store.queue)[i],
                )
            &&& urls.no_duplicates()
            &&& orderly(store)
        }),
    decreases acts.len(),
{
    if acts.len() > 0 {
        downloads_are_new(acts.drop_last());
        let (was, before) = history(acts.drop_last());
        let (now, urls) = history(acts);
        let all = before + was.queue;
        match acts.last() {
            StoreAct::Ask { url } => {
                if !was.entries.contains_key(url) {
                    assert(urls + now.queue =~= all.push(url));
                    assert forall|i: int| 0 <= i < all.len() implies all[i] != url by {
                        assert(was.entries.contains_key(all[i]));
                    }
                }
            },
            StoreAct::Deliver { .. } => {},
            StoreAct::Start => {
                assert(urls + now.queue =~= all);
            },
        }
        let both = urls + now.queue;
        assert forall|i: int, j: int| 0 <= i < urls.len() && 0 <= j < urls.len() && i
            != j implies urls[i] != urls[j] by {
            assert(both[i] != both[j]);
        }
        let n = urls.len() as int;
        assert forall|i: int, j: int|
            0 <= i < now.queue.len() && 0 <= j < now.queue.len() && i != j implies now.queue[i]
            != now.queue[j] by {
            assert(both[n + i] != both[n + j]);
        }
        assert forall|i: int| 0 <= i < now.queue.len() implies now.entries.contains_key(
            #[trigger] now.queue[i],
        ) by {
            assert(both[n + i] == now.queue[i]);
        }
    }
}

/// What the image crate makes of a picture: its size, how many bytes and how many
/// channels a pixel has, and its pixels together with all that is said of how they
/// are laid out.
pub struct Raster {
    pub width: nat,
    pub height: nat,
    pub bytes_per_pixel: nat,
    pub channels: nat,
    pub pixels: Seq<u8>,
}

/// A picture of the image crate.
#[verifier::external_type_specification]
#[verifier::external_body]
pub struct ExDynamicImage(image::DynamicImage);

/// What a picture of the image crate holds.
pub uninterp spec fn raster(picture: image::DynamicImage) -> Raster;

/// What `image::load_from_memory` reads from some bytes; none where it refuses
/// them.
pub uninterp spec fn decoded(bytes: Seq<u8>) -> Option<Raster>;

/// What `DynamicImage::thumbnail` makes of a picture for a width and a height to
/// fit in.
pub uninterp spec fn shrunk(picture: Raster, width: nat, height: nat) -> Raster;

/// The bytes of a picture as `DynamicImage::to_rgba8` lays them out.
pub uninterp spec fn rgba(picture: Raster) -> Seq<u8>;

/// `image::load_from_memory` guesses the format of an encoded picture and
/// decodes it. Which bytes it accepts, and what picture they hold, is a function
/// of the bytes alone, which the contract names.
#[verifier::external_body]
fn load_from_memory(bytes: &[u8]) -> (r: Option<image::DynamicImage>)
    ensures
        match r {
            Some(picture) => decoded(bytes@) == Some(raster(picture)),
            None => decoded(bytes@) is None,
        },
{
    image::load_from_memory(bytes).ok()
}

/// `DynamicImage::width` gives the width of a picture.
#[verifier::external_body]
fn width(picture: &image::DynamicImage) -> (r: u32)
    ensures
        r == raster(*picture).width,
{
    picture.width()
}

/// `DynamicImage::height` gives the height of a picture.
#[verifier::external_body]
fn height(picture: &image::DynamicImage) -> (r: u32)
    ensures
        r == raster(*picture).height,
{
    picture.height()
}

/// `ColorType::bytes_per_pixel` of `DynamicImage::color` gives how many bytes a
/// pixel of a picture has.
#[verifier::external_body]
fn bytes_per_pixel(picture: &image::DynamicImage) -> (r: u8)
    ensures
        r == raster(*picture).bytes_per_pixel,
{
    picture.color().bytes_per_pixel()
}

/// `ColorType::channel_count` of `DynamicImage::color` gives how many channels a
/// pixel of a picture has.
#[verifier::external_body]
fn channel_count(picture: &image::DynamicImage) -> (r: u8)
    ensures
        r == raster(*picture).channels,
{
    picture.color().channel_count()
}

/// How many parts of a size it takes to cover another.
pub open spec fn parts_of(size: nat, part: nat) -> nat {
    (size + part - 1) as nat / part
}

/// How long a side of a picture is at least once its longer side was scaled to
/// `limit`: rounded to the nearest whole number, a half either way, and no less
/// than one.
pub open spec fn least_side(side: nat, longer: nat, limit: nat) -> nat {
    let n = (2 * limit * side + longer - 1) as nat / (2 * longer);
    if n > 0 {
        n
    } else {
        1
    }
}

/// How many pixels of a side at most go into one when it is scaled to `target`.
/// Where a block begins and ends is computed in single precision, which is off by
/// less than one for every 2^22 pixels of the side.
pub open spec fn most_across(side: nat, target: nat) -> nat {
    let n = parts_of(side, target) + parts_of(side, 0x40_0000);
    if n < side {
        n
    } else {
        side
    }
}

/// How many pixels of a picture at most go into one when its longer side is scaled
/// to `limit`.
pub open spec fn most_sources(width: nat, height: nat, limit: nat) -> nat {
    let longer = if width > height {
        width
    } else {
        height
    };
    most_across(width, least_side(width, longer, limit)) * most_across(
        height,
        least_side(height, longer, limit),
    )
}

/// How many samples of a picture can be summed in 32 bits, half their number for
/// rounding included: 2^16 of sixteen bits, and 2^24 of fewer. Samples of more are
/// summed in a wider type, but are still counted in 32 bits.
pub open spec fn most_summed(bytes_per_pixel: nat, channels: nat) -> nat {
    if bytes_per_pixel == 2 * channels {
        0x1_0000
    } else {
        0x100_0000
    }
}

/// A picture that is larger than `limit` one way or the other, and of which no
/// more pixels go into one than can be summed when it is scaled down.
pub open spec fn can_shrink(picture: Raster, limit: nat) -> bool {
    &&& picture.width > limit || picture.height > limit
    &&& most_sources(picture.width, picture.height, limit) <= most_summed(
        picture.bytes_per_pixel,
        picture.channels,
    )
}

/// `DynamicImage::thumbnail` scales a picture down, keeping its aspect ratio, to
/// the largest size that fits within the bounds, and to no less than one pixel
/// each way. The resulting picture is a function of the picture and the bounds,
/// which the contract names.
///
/// It averages blocks of pixels, whose samples it sums in 32 bits, a channel that
/// the picture lacks counting as one at its brightest; so it is asked only for a
/// picture that it makes smaller and whose blocks are small enough for that. What
/// a block with all four channels sums to below that bound is left unsaid: which
/// pixels are in which block is computed in floating point.
#[verifier::external_body]
fn thumbnail(picture: &image::DynamicImage, limit: u32) -> (r: image::DynamicImage)
    requires
        0 < limit <= MAX_DIMENSION,
        can_shrink(raster(*picture), limit as nat),
    ensures
        raster(r) == shrunk(raster(*picture), limit as nat, limit as nat),
        0 < raster(r).width <= limit,
        0 < raster(r).height <= limit,
{
    picture.thumbnail(limit, limit)
}

/// `DynamicImage::to_rgba8` copies a picture as one of four bytes a pixel. The
/// bytes are a function of the picture, which the contract names. Nothing is said
/// of their number: the crate allows a buffer that is larger than its pixels
/// need, and hands on a copy of it as it is.
#[verifier::external_body]
fn to_rgba8(picture: &image::DynamicImage) -> (r: Vec<u8>)
    ensures
        r@ == rgba(raster(*picture)),
{
    picture.to_rgba8().into_raw()
}

fn across(side: u32, longer: u32, limit: u32) -> (r: u64)
    requires
        0 < limit <= MAX_DIMENSION,
        side <= longer,
        longer > 0,
    ensures
        r == most_across(side as nat, least_side(side as nat, longer as nat, limit as nat)),
        r <= side,
{
    assert(2 * limit * side <= 1024 * side) by (nonlinear_arith)
        requires
            limit <= 512,
    ;
    let scaled: u64 = (2 * limit as u64 * side as u64 + longer as u64 - 1) / (2 * longer as u64);
    let target: u64 = if scaled > 0 {
        scaled
    } else {
        1
    };
    assert(scaled <= 0x1000_0000_0000);
    let n: u64 = (side as u64 + target - 1) / target + (side as u64 + 0x3f_ffff) / 0x40_0000;
    if n < side as u64 {
        n
    } else {
        side as u64
    }
}

/// Whether a picture that is too large can be shrunk; see [`can_shrink`].
pub fn shrinkable(width: u32, height: u32, bytes_per_pixel: u8, channels: u8) -> (r: bool)
    requires
        is_oversized(width as nat, height as nat),
    ensures
        r == (most_sources(width as nat, height as nat, MAX_DIMENSION as nat) <= most_summed(
            bytes_per_pixel as nat,
            channels as nat,
        )),
{
    let longer = if width > height {
        width
    } else {
        height
    };
    let a = across(width, longer, MAX_DIMENSION);
    let b = across(height, longer, MAX_DIMENSION);
    assert(a * b <= 0xffff_ffff * 0xffff_ffff) by (nonlinear_arith)
        requires
            a <= 0xffff_ffff,
            b <= 0xffff_ffff,
    ;
    let most: u64 = if bytes_per_pixel as u32 == 2 * channels as u32 {
        0x1_0000
    } else {
        0x100_0000
    };
    a * b <= most
}

/// A picture ready to be shown, four bytes a pixel.
#[derive(Debug, PartialEq, Eq)]
pub struct Pixels {
    pub width: u32,
    pub height: u32,
    pub rgba: Vec<u8>,
}

/// A picture that is too large to keep as it is.
pub open spec fn is_oversized(width: nat, height: nat) -> bool {
    width > MAX_DIMENSION || height > MAX_DIMENSION
}

/// Whether a picture is too large to keep as it is.
pub fn oversized(width: u32, height: u32) -> (r: bool)
    ensures
        r == is_oversized(width as nat, height as nat),
{
    width > MAX_DIMENSION || height > MAX_DIMENSION
}

/// The picture that is kept of one that was decoded: the picture itself, or what
/// it shrinks to where it is too large.
pub open spec fn kept(picture: Raster) -> Raster {
    if is_oversized(picture.width, picture.height) {
        shrunk(picture, MAX_DIMENSION as nat, MAX_DIMENSION as nat)
    } else {
        picture
    }
}

/// A picture that need not be shrunk, or can be.
pub open spec fn can_keep(picture: Raster) -> bool {
    is_oversized(picture.width, picture.height) ==> can_shrink(picture, MAX_DIMENSION as nat)
}

proof fn few_across(side: nat, longer: nat)
    requires
        side <= longer,
        0 < longer <= 0x1_0000,
    ensures
        most_across(side, least_side(side, longer, MAX_DIMENSION as nat)) <= 256,
{
    let sum = (1024 * side + longer - 1) as nat;
    let n = sum / (2 * longer);
    let target = least_side(side, longer, MAX_DIMENSION as nat);
    assert(2 * (MAX_DIMENSION as nat) * side == 1024 * side);
    assert(sum < 2 * longer * (n + 1)) by (nonlinear_arith)
        requires
            n == sum / (2 * longer),
            longer > 0,
    ;
    assert(2 * longer * (n + 1) <= 0x2_0000 * (n + 1)) by (nonlinear_arith)
        requires
            longer <= 0x1_0000,
    ;
    assert(side <= 255 * target) by {
        if n == 0 {
            assert(2 * longer * (n + 1) == 2 * longer) by (nonlinear_arith)
                requires
                    n == 0,
            ;
        } else {
            assert(2 * longer * (n + 1) == 2 * longer * n + 2 * longer) by (nonlinear_arith);
            assert(longer <= longer * n) by (nonlinear_arith)
                requires
                    n >= 1,
            ;
            assert(longer * n <= 0x1_0000 * n) by (nonlinear_arith)
                requires
                    longer <= 0x1_0000,
            ;
            assert(2 * longer * n == 2 * (longer * n)) by (nonlinear_arith);
        }
    }
    let parts = parts_of(side, target);
    assert(parts <= 255) by (nonlinear_arith)
        requires
            parts == (side + target - 1) as nat / target,
            side <= 255 * target,
            target > 0,
    ;
}

/// Any picture of up to 65,536 pixels a side can be kept.
pub proof fn ordinary_pictures_can_be_kept(picture: Raster)
    requires
        picture.width <= 0x1_0000,
        picture.height <= 0x1_0000,
    ensures
        can_keep(picture),
{
    if is_oversized(picture.width, picture.height) {
        let longer = if picture.width > picture.height {
            picture.width
        } else {
            picture.height
        };
        few_across(picture.width, longer);
        few_across(picture.height, longer);
        let limit = MAX_DIMENSION as nat;
        let a = most_across(picture.width, least_side(picture.width, longer, limit));
        let b = most_across(picture.height, least_side(picture.height, longer, limit));
        assert(a * b <= 0x1_0000) by (nonlinear_arith)
            requires
                a <= 256,
                b <= 256,
        ;
    }
}

/// Any picture of up to 512 MiB, which is the most that is decoded, can be kept
/// unless its samples have sixteen bits.
pub proof fn pictures_that_are_not_deep_can_be_kept(picture: Raster)
    requires
        picture.width * picture.height * picture.bytes_per_pixel <= 0x2000_0000,
        picture.bytes_per_pixel > 0,
        picture.bytes_per_pixel != 2 * picture.channels,
    ensures
        can_keep(picture),
{
    let (w, h) = (picture.width, picture.height);
    let bytes = picture.bytes_per_pixel;
    assert(w * h <= 0x2000_0000) by (nonlinear_arith)
        requires
            w * h * bytes <= 0x2000_0000,
            bytes > 0,
    ;
    if is_oversized(w, h) {
        let limit = MAX_DIMENSION as nat;
        if w > h {
            strip_is_summable(w, h);
        } else {
            assert(w * h == h * w) by (nonlinear_arith);
            strip_is_summable(h, w);
            let a = most_across(w, least_side(w, h, limit));
            let b = most_across(h, least_side(h, h, limit));
            assert(a * b == b * a) by (nonlinear_arith);
        }
    }
}

proof fn strip_is_summable(longer: nat, shorter: nat)
    requires
        0 < longer,
        shorter <= longer,
        longer * shorter <= 0x2000_0000,
    ensures
        most_across(longer, least_side(longer, longer, MAX_DIMENSION as nat)) * most_across(
            shorter,
            least_side(shorter, longer, MAX_DIMENSION as nat),
        ) <= 0x100_0000,
{
    let limit = MAX_DIMENSION as nat;
    let target = least_side(longer, longer, limit);
    assert(2 * limit * longer == 1024 * longer);
    assert((1024 * longer + longer - 1) as nat / (2 * longer) == 512) by (nonlinear_arith)
        requires
            longer > 0,
    ;
    assert(target == 512);
    let a = most_across(longer, target);
    let b = most_across(shorter, least_side(shorter, longer, limit));
    assert(b <= shorter);
    assert(512 * a <= longer + longer + 2048);
    assert(shorter <= 0x8000) by (nonlinear_arith)
        requires
            shorter <= longer,
            longer * shorter <= 0x2000_0000,
    ;
    assert(512 * (a * b) <= 2 * (longer * shorter) + 2048 * shorter) by (nonlinear_arith)
        requires
            512 * a <= longer + longer + 2048,
            b <= shorter,
    ;
}

/// A picture so large that the blocks of pixels to average might not be summed.
#[derive(Debug, Clone, Copy, PartialEq, Eq, Structural)]
pub struct Unshrinkable;

/// A picture and its bytes.
pub open spec fn shows(pixels: Pixels, picture: Raster) -> bool {
    &&& pixels.width == picture.width
    &&& pixels.height == picture.height
    &&& pixels.rgba@ == rgba(picture)
}

fn pixels_of(picture: &image::DynamicImage) -> (r: Pixels)
    ensures
        shows(r, raster(*picture)),
{
    Pixels { width: width(picture), height: height(picture), rgba: to_rgba8(picture) }
}

/// Decodes a downloaded picture and shrinks oversized art before it reaches
/// VRAM. Whatever comes in, what comes out is within the limit.
pub fn decode(bytes: &[u8]) -> (r: Option<Pixels>)
    requires
        decoded(bytes@) matches Some(picture) ==> can_keep(picture),
    ensures
        match decoded(bytes@) {
            None => r is None,
            Some(picture) => r matches Some(p) && shows(p, kept(picture)),
        },
        r matches Some(p) ==> p.width <= MAX_DIMENSION && p.height <= MAX_DIMENSION,
{
    let picture = load_from_memory(bytes)?;
    if oversized(width(&picture), height(&picture)) {
        Some(pixels_of(&thumbnail(&picture, MAX_DIMENSION)))
    } else {
        Some(pixels_of(&picture))
    }
}

/// Decodes a downloaded picture as [`decode`] does, or says that it is one which
/// has to be shrunk and may not be. One that has to be shrunk is read twice.
pub fn decode_checked(bytes: &[u8]) -> (r: Result<Option<Pixels>, Unshrinkable>)
    ensures
        match decoded(bytes@) {
            None => r matches Ok(shown) && shown is None,
            Some(picture) => if can_keep(picture) {
                r matches Ok(Some(p)) && shows(p, kept(picture))
            } else {
                r is Err
            },
        },
        r matches Ok(Some(p)) ==> p.width <= MAX_DIMENSION && p.height <= MAX_DIMENSION,
{
    match load_from_memory(bytes) {
        None => Ok(None),
        Some(picture) => {
            let (w, h) = (width(&picture), height(&picture));
            if !oversized(w, h) {
                Ok(Some(pixels_of(&picture)))
            } else if shrinkable(w, h, bytes_per_pixel(&picture), channel_count(&picture)) {
                Ok(decode(bytes))
            } else {
                Err(Unshrinkable)
            }
        },
    }
}

/// What was asked for, from first to last.
pub open spec fn first_asked(acts: Seq<StoreAct>) -> Seq<Seq<char>>
    decreases acts.len(),
{
    if acts.len() == 0 {
        Seq::empty()
    } else {
        let before = first_asked(acts.drop_last());
        match acts.last() {
            StoreAct::Ask { url } if !history(acts.drop_last()).0.entries.contains_key(url) =>
                before.push(url),
            _ => before,
        }
    }
}

/// Images are downloaded in the order they were asked for: what was started, and behind it
/// what is waiting, is what was asked for.
pub proof fn downloads_keep_their_order(acts: Seq<StoreAct>)
    ensures
        history(acts).1 + history(acts).0.queue == first_asked(acts),
    decreases acts.len(),
{
    if acts.len() > 0 {
        downloads_keep_their_order(acts.drop_last());
        let (was, before) = history(acts.drop_last());
        let (now, urls) = history(acts);
        match acts.last() {
            StoreAct::Ask { url } => {
                if !was.entries.contains_key(url) {
                    assert(urls + now.queue =~= (before + was.queue).push(url));
                }
            },
            StoreAct::Deliver { .. } => {},
            StoreAct::Start => {
                assert(urls + now.queue =~= before + was.queue);
            },
        }
    } else {
        assert(history(acts).1 + history(acts).0.queue =~= Seq::<Seq<char>>::empty());
    }
}

/// An image that was not asked for before is loading, and waits behind the others; asking
/// again changes nothing. Of the others nothing changes.
pub proof fn asking_queues_once(store: StoreModel, url: Seq<char>, other: Seq<char>)
    ensures
        asked(asked(store, url), url) == asked(store, url),
        asked(store, url).entries.contains_key(url),
        !store.entries.contains_key(url) ==> {
            &&& asked(store, url).entries[url] == Entry::Loading
            &&& asked(store, url).queue == store.queue + seq![url]
        },
        store.entries.contains_key(url) ==> asked(store, url) == store,
        asked(store, url).active == store.active,
        other != url ==> {
            &&& asked(store, url).entries.contains_key(other) == store.entries.contains_key(other)
            &&& store.entries.contains_key(other) ==> asked(store, url).entries[other]
                == store.entries[other]
        },
{
    assert(store.queue.push(url) =~= store.queue + seq![url]);
}

/// A download that ended well makes its image ready, one that did not makes it a failure,
/// and either makes room for another. The other images and those that wait stay as they
/// are.
pub proof fn deliveries_are_noted(
    store: StoreModel,
    url: Seq<char>,
    loaded: bool,
    other: Seq<char>,
)
    ensures
        ({
            let after = after_delivery(store, url, loaded);
            &&& after.entries.contains_key(url)
            &&& after.entries[url] == Entry::Ready <==> loaded
            &&& after.entries[url] == Entry::Failed <==> !loaded
            &&& after.queue == store.queue
            &&& store.active > 0 ==> after.active + 1 == store.active
            &&& other != url ==> {
                &&& after.entries.contains_key(other) == store.entries.contains_key(other)
                &&& store.entries.contains_key(other) ==> after.entries[other]
                    == store.entries[other]
            }
        }),
{
}

/// As long as fewer downloads run than are allowed and an image waits, the one that has
/// waited longest is started.
pub proof fn waiting_images_are_started(store: StoreModel, first: Seq<char>, others: Seq<Seq<char>>)
    requires
        store.queue == seq![first] + others,
    ensures
        store.active < MAX_CONCURRENT ==> {
            &&& started(store).1 == Some(first)
            &&& started(store).0.queue == others
            &&& started(store).0.active == store.active + 1
            &&& started(store).0.entries == store.entries
        },
        store.active >= MAX_CONCURRENT ==> started(store) == (store, None::<Seq<char>>),
{
    assert(store.queue.skip(1) =~= others);
    assert(store.queue[0] == first);
}

/// A picture within the limit is kept as it is; one that is wider or higher is shrunk to it.
pub proof fn large_pictures_are_shrunk(picture: Raster)
    ensures
        picture.width <= 512 && picture.height <= 512 ==> kept(picture) == picture,
        picture.width > 512 || picture.height > 512 ==> kept(picture) == shrunk(picture, 512, 512),
{
}

/// At first nothing was asked for, nothing waits and nothing is on its way; and where
/// nothing waits, nothing is started.
pub proof fn nothing_happens_unasked(store: StoreModel, url: Seq<char>, loaded: bool)
    ensures
        !empty_store().entries.contains_key(url),
        empty_store().queue.len() == 0,
        empty_store().active == 0,
        store.queue.len() == 0 ==> started(store) == (store, None::<Seq<char>>),
        store.active == 0 ==> after_delivery(store, url, loaded).active == 0,
{
}

} // verus!
