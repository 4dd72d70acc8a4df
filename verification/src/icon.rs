//! The `.ico` file format and the `RT_GROUP_ICON` resource built from it.
//!
//! Patching the resources of a built executable is the caller's side; what
//! stands here is plain byte-format work: reading an icon file's
//! `ICONDIR` header, its `ICONDIRENTRY` table and each image's bytes, and
//! writing the `GRPICONDIR` blob that Windows looks up to render the icon.
use vstd::prelude::*;
use crate::bytes::{
    le16_at, le16_bytes, le32_at, le32_bytes, push_bytes, push_le16, push_le32, read_le16,
    read_le32, sub_bytes,
};
use crate::error::LauncherError;
use crate::text::push_str;

verus! {

/// One image inside a `.ico` file.
#[derive(Debug)]
pub struct IcoImage {
    pub width: u8,
    pub height: u8,
    pub color_count: u8,
    pub planes: u16,
    pub bit_count: u16,
    pub data: Vec<u8>,
}

/// What an `IcoImage` holds.
pub struct IcoImageView {
    pub width: u8,
    pub height: u8,
    pub color_count: u8,
    pub planes: u16,
    pub bit_count: u16,
    pub data: Seq<u8>,
}

impl View for IcoImage {
    type V = IcoImageView;

    open spec fn view(&self) -> IcoImageView {
        IcoImageView {
            width: self.width,
            height: self.height,
            color_count: self.color_count,
            planes: self.planes,
            bit_count: self.bit_count,
            data: self.data@,
        }
    }
}

/// The views of a list of images.
pub open spec fn image_views(v: Seq<IcoImage>) -> Seq<IcoImageView> {
    v.map_values(|i: IcoImage| i@)
}

/// The image that directory entry `i` of `b` describes, or why it is bad.
pub open spec fn entry_image(b: Seq<u8>, i: nat) -> Result<IcoImageView, Seq<char>> {
    let e: int = 6 + 16 * (i as int);
    let size = le32_at(b, e + 8);
    let offset = le32_at(b, e + 12);
    if offset + size > usize::MAX {
        Err("image entry overflows"@)
    } else if offset + size > b.len() {
        Err("image entry points past end of file"@)
    } else {
        Ok(
            IcoImageView {
                width: b[e],
                height: b[e + 1],
                color_count: b[e + 2],
                planes: le16_at(b, e + 4) as u16,
                bit_count: le16_at(b, e + 6) as u16,
                data: b.subrange(offset as int, (offset + size) as int),
            },
        )
    }
}

/// The images of the first `n` directory entries, or the reason the first
/// bad one among them is bad.
pub open spec fn entry_images(b: Seq<u8>, n: nat) -> Result<Seq<IcoImageView>, Seq<char>>
    decreases n,
{
    if n == 0 {
        Ok(seq![])
    } else {
        match entry_images(b, (n - 1) as nat) {
            Err(m) => Err(m),
            Ok(v) => match entry_image(b, (n - 1) as nat) {
                Err(m) => Err(m),
                Ok(img) => Ok(v.push(img)),
            },
        }
    }
}

/// The images of the `.ico` file `b`, or why it is not a valid one.
pub open spec fn ico_images(b: Seq<u8>) -> Result<Seq<IcoImageView>, Seq<char>> {
    if b.len() < 6 {
        Err("file too short"@)
    } else if le16_at(b, 0) != 0 || le16_at(b, 2) != 1 {
        Err("missing ICO header (reserved=0, type=1)"@)
    } else if le16_at(b, 4) == 0 {
        Err("contains no images"@)
    } else if b.len() < 6 + 16 * le16_at(b, 4) {
        Err("truncated directory table"@)
    } else {
        entry_images(b, le16_at(b, 4))
    }
}

/// The error for a file that is not a valid `.ico`.
pub open spec fn bad_ico_message(why: Seq<char>) -> Seq<char> {
    "not a valid .ico file: "@ + why
}

fn bad_ico(why: &str) -> (e: LauncherError)
    ensures
        e matches LauncherError::Extraction(m) && m@ == bad_ico_message(why@),
{
    let mut m = String::new();
    push_str(&mut m, "not a valid .ico file: ");
    push_str(&mut m, why);
    LauncherError::Extraction(m)
}

/// Parses a `.ico` file: its `ICONDIR` header, its `ICONDIRENTRY` table,
/// and each image's bytes.
pub fn parse_ico(bytes: &[u8]) -> (r: Result<Vec<IcoImage>, LauncherError>)
    ensures
        match ico_images(bytes@) {
            Ok(imgs) => r matches Ok(v) && image_views(v@) == imgs,
            Err(why) => r matches Err(LauncherError::Extraction(m)) && m@ == bad_ico_message(why),
        },
{
    if bytes.len() < 6 {
        return Err(bad_ico("file too short"));
    }
    let reserved = read_le16(bytes, 0);
    let kind = read_le16(bytes, 2);
    let count = read_le16(bytes, 4) as usize;
    if reserved != 0 || kind != 1 {
        return Err(bad_ico("missing ICO header (reserved=0, type=1)"));
    }
    if count == 0 {
        return Err(bad_ico("contains no images"));
    }
    let table_end = 6 + count * 16;
    if bytes.len() < table_end {
        return Err(bad_ico("truncated directory table"));
    }
    let mut images: Vec<IcoImage> = Vec::new();
    assert(image_views(images@) =~= Seq::<IcoImageView>::empty());
    for i in 0..count
        invariant
            bytes.len() >= 6,
            le16_at(bytes@, 0) == 0,
            le16_at(bytes@, 2) == 1,
            count > 0,
            count as nat == le16_at(bytes@, 4),
            6 + count * 16 <= bytes.len(),
            entry_images(bytes@, i as nat) == Ok::<Seq<IcoImageView>, Seq<char>>(
                image_views(images@),
            ),
    {
        let e = 6 + i * 16;
        let width = bytes[e];
        let height = bytes[e + 1];
        let color_count = bytes[e + 2];
        let planes = read_le16(bytes, e + 4);
        let bit_count = read_le16(bytes, e + 6);
        let size = read_le32(bytes, e + 8) as usize;
        let offset = read_le32(bytes, e + 12) as usize;
        if offset > usize::MAX - size {
            proof {
                assert(offset as nat == le32_at(bytes@, 6 + 16 * (i as int) + 12));
                assert(size as nat == le32_at(bytes@, 6 + 16 * (i as int) + 8));
                assert(entry_image(bytes@, i as nat) == Err::<IcoImageView, Seq<char>>(
                    "image entry overflows"@,
                ));
                lemma_entry_images_stops(bytes@, (i + 1) as nat, le16_at(bytes@, 4));
            }
            return Err(bad_ico("image entry overflows"));
        }
        let end = offset + size;
        if end > bytes.len() {
            proof {
                assert(offset as nat == le32_at(bytes@, 6 + 16 * (i as int) + 12));
                assert(size as nat == le32_at(bytes@, 6 + 16 * (i as int) + 8));
                assert(entry_image(bytes@, i as nat) == Err::<IcoImageView, Seq<char>>(
                    "image entry points past end of file"@,
                ));
                lemma_entry_images_stops(bytes@, (i + 1) as nat, le16_at(bytes@, 4));
            }
            return Err(bad_ico("image entry points past end of file"));
        }
        let ghost prev = image_views(images@);
        images.push(
            IcoImage {
                width,
                height,
                color_count,
                planes,
                bit_count,
                data: sub_bytes(bytes, offset, end),
            },
        );
        assert(image_views(images@) =~= prev.push(entry_image(bytes@, i as nat)->Ok_0));
    }
    Ok(images)
}

/// Once an entry is bad, every longer prefix of the table reports that
/// entry's error.
proof fn lemma_entry_images_stops(b: Seq<u8>, n: nat, m: nat)
    requires
        n <= m,
        entry_images(b, n) is Err,
    ensures
        entry_images(b, m) == entry_images(b, n),
    decreases m - n,
{
    if n < m {
        lemma_entry_images_stops(b, n, (m - 1) as nat);
    }
}

/// The bytes directory entry `k` of `b` points at (size at offset 8 of the
/// 16-byte entry, offset at 12) lie inside `b`.
pub open spec fn entry_fits(b: Seq<u8>, k: int) -> bool {
    le32_at(b, 6 + 16 * k + 12) + le32_at(b, 6 + 16 * k + 8) <= b.len()
}

/// The first `n` entries of a table read as far as they fit, with the
/// image each one describes.
proof fn lemma_entry_images_all(b: Seq<u8>, n: nat)
    requires
        b.len() <= usize::MAX,
    ensures
        entry_images(b, n) is Ok <==> forall|k: int| 0 <= k < n ==> #[trigger] entry_fits(b, k),
        entry_images(b, n) matches Ok(v) ==> v.len() == n && forall|k: int|
            0 <= k < n ==> #[trigger] v[k] == entry_image(b, k as nat)->Ok_0 && entry_image(
                b,
                k as nat,
            ) is Ok,
    decreases n,
{
    if n > 0 {
        let m = (n - 1) as nat;
        lemma_entry_images_all(b, m);
        if entry_images(b, n) is Ok {
            assert forall|k: int| 0 <= k < n implies #[trigger] entry_fits(b, k) by {
                if k < m {
                } else {
                    assert(k == m);
                    assert(entry_image(b, m) is Ok);
                }
            }
        }
        if forall|k: int| 0 <= k < n ==> #[trigger] entry_fits(b, k) {
            assert(entry_fits(b, m as int));
            assert(entry_image(b, m) is Ok);
        }
    }
}

/// A `.ico` file is accepted exactly when it has the `ICONDIR` header
/// (reserved 0, type 1, at least one image), a full directory table for
/// its image count, and every entry's bytes inside the file; and then it
/// gives one image per directory entry, in table order: image `k` has the
/// width, height, colour count, planes and bit count of entry `k` and the
/// bytes that entry points at.
pub proof fn law_ico_lists_every_entry(b: Seq<u8>)
    requires
        b.len() <= usize::MAX,
    ensures
        ico_images(b) is Ok <==> ({
            &&& b.len() >= 6
            &&& le16_at(b, 0) == 0
            &&& le16_at(b, 2) == 1
            &&& le16_at(b, 4) > 0
            &&& b.len() >= 6 + 16 * le16_at(b, 4)
            &&& forall|k: int| 0 <= k < le16_at(b, 4) ==> #[trigger] entry_fits(b, k)
        }),
        ico_images(b) matches Ok(v) ==> v.len() == le16_at(b, 4) && forall|k: int|
            0 <= k < v.len() ==> {
                let e = 6 + 16 * k;
                let offset = le32_at(b, e + 12);
                let size = le32_at(b, e + 8);
                &&& (#[trigger] v[k]).width == b[e]
                &&& v[k].height == b[e + 1]
                &&& v[k].color_count == b[e + 2]
                &&& v[k].planes == le16_at(b, e + 4)
                &&& v[k].bit_count == le16_at(b, e + 6)
                &&& v[k].data == b.subrange(offset as int, (offset + size) as int)
            },
{
    if b.len() >= 6 {
        lemma_entry_images_all(b, le16_at(b, 4));
        if let Ok(v) = ico_images(b) {
            assert forall|k: int| 0 <= k < v.len() implies {
                let e = 6 + 16 * k;
                let offset = le32_at(b, e + 12);
                let size = le32_at(b, e + 8);
                &&& (#[trigger] v[k]).width == b[e]
                &&& v[k].height == b[e + 1]
                &&& v[k].color_count == b[e + 2]
                &&& v[k].planes == le16_at(b, e + 4)
                &&& v[k].bit_count == le16_at(b, e + 6)
                &&& v[k].data == b.subrange(offset as int, (offset + size) as int)
            } by {
                assert(v[k] == entry_image(b, k as nat)->Ok_0);
                assert(le16_at(b, 6 + 16 * k + 4) < 65536);
                assert(le16_at(b, 6 + 16 * k + 6) < 65536);
            }
        }
    }
}

/// One 14-byte group entry: width, height, color count, a zero byte and
/// the planes; then the image's size in bytes and its resource ID (at
/// offsets 6 and 10 of the entry, where this format's readers look for
/// them); then the bit count.
pub open spec fn group_entry(img: IcoImageView, id: u16) -> Seq<u8> {
    seq![img.width, img.height, img.color_count, 0u8] + le16_bytes(img.planes as nat) + le32_bytes(
        (img.data.len() as u32) as nat,
    ) + le16_bytes(id as nat) + le16_bytes(img.bit_count as nat)
}

/// The entries for the first `n` images, paired with their IDs.
pub open spec fn group_entries(imgs: Seq<IcoImageView>, ids: Seq<u16>, n: nat) -> Seq<u8>
    decreases n,
{
    if n == 0 {
        seq![]
    } else {
        group_entries(imgs, ids, (n - 1) as nat) + group_entry(imgs[n - 1], ids[n - 1])
    }
}

/// The `GRPICONDIR` blob for `imgs`, the images paired with `ids` in turn
/// (as far as both go).
pub open spec fn group_icon_data(imgs: Seq<IcoImageView>, ids: Seq<u16>) -> Seq<u8> {
    let n: nat = if imgs.len() < ids.len() {
        imgs.len()
    } else {
        ids.len()
    };
    le16_bytes(0) + le16_bytes(1) + le16_bytes((imgs.len() as u16) as nat) + group_entries(
        imgs,
        ids,
        n,
    )
}

/// Builds the `RT_GROUP_ICON` blob: a 6-byte header (reserved 0, type 1,
/// image count) and one 14-byte entry per image (see `group_entry`), each
/// naming the `RT_ICON` resource that holds the image's bytes.
pub fn build_group_icon_data(images: &[IcoImage], ids: &[u16]) -> (r: Vec<u8>)
    ensures
        r@ == group_icon_data(image_views(images@), ids@),
{
    let mut out: Vec<u8> = Vec::new();
    push_le16(&mut out, 0);
    push_le16(&mut out, 1);
    push_le16(&mut out, images.len() as u16);
    let n = if images.len() < ids.len() {
        images.len()
    } else {
        ids.len()
    };
    let ghost head = out@;
    let ghost imgs = image_views(images@);
    for i in 0..n
        invariant
            n <= images.len(),
            n <= ids.len(),
            imgs == image_views(images@),
            out@ == head + group_entries(imgs, ids@, i as nat),
    {
        let image = &images[i];
        out.push(image.width);
        out.push(image.height);
        out.push(image.color_count);
        out.push(0);
        push_le16(&mut out, image.planes);
        push_le32(&mut out, image.data.len() as u32);
        push_le16(&mut out, ids[i]);
        push_le16(&mut out, image.bit_count);
        assert(imgs[i as int] == images@[i as int]@);
        assert(out@ =~= head + group_entries(imgs, ids@, i as nat) + group_entry(imgs[i as int], ids@[i as int]));
    }
    out
}


/// A table of `n` entries read in full holds `n` images.
proof fn lemma_entry_images_len(b: Seq<u8>, n: nat)
    ensures
        entry_images(b, n) matches Ok(v) ==> v.len() == n,
    decreases n,
{
    if n > 0 {
        lemma_entry_images_len(b, (n - 1) as nat);
    }
}

/// The `RT_ICON` resource IDs given to `n` images: 101, 102, ... in turn.
/// A freshly built stub has no icons of its own, so these cannot collide.
pub open spec fn icon_ids(n: nat) -> Seq<u16> {
    Seq::new(n, |i: int| (101 + i) as u16)
}

/// The IDs `icon_ids(n)`.
pub fn resource_ids(n: usize) -> (r: Vec<u16>)
    requires
        n + 101 <= 65536,
    ensures
        r@ == icon_ids(n as nat),
{
    let mut r: Vec<u16> = Vec::new();
    for i in 0..n
        invariant
            n + 101 <= 65536,
            r@ == icon_ids(i as nat),
    {
        r.push(101 + i as u16);
        assert(r@ =~= icon_ids((i + 1) as nat));
    }
    r
}

/// What embedding an icon writes into an executable's resources: one
/// `RT_ICON` per image, under `ids` in turn, and the `RT_GROUP_ICON` blob
/// `group_data` that ties them together.
pub struct IconResources {
    pub images: Vec<IcoImage>,
    pub ids: Vec<u16>,
    pub group_data: Vec<u8>,
}

/// Reads the `.ico` file `ico_bytes` and lays out the resources that embed
/// it; the `.ico` errors of `parse_ico` otherwise. (An icon with more
/// images than IDs from 101 up fit in 16 bits is not accepted.)
pub fn icon_resources(ico_bytes: &[u8]) -> (r: Result<IconResources, LauncherError>)
    requires
        ico_bytes.len() >= 6 ==> le16_at(ico_bytes@, 4) + 101 <= 65536,
    ensures
        match ico_images(ico_bytes@) {
            Ok(imgs) => r matches Ok(res) && image_views(res.images@) == imgs
                && res.ids@ == icon_ids(imgs.len())
                && res.group_data@ == group_icon_data(imgs, icon_ids(imgs.len())),
            Err(why) => r matches Err(LauncherError::Extraction(m)) && m@ == bad_ico_message(why),
        },
{
    let images = match parse_ico(ico_bytes) {
        Ok(v) => v,
        Err(e) => {
            return Err(e);
        },
    };
    proof {
        lemma_entry_images_len(ico_bytes@, le16_at(ico_bytes@, 4));
        assert(image_views(images@).len() == images@.len());
    }
    let ids = resource_ids(images.len());
    let group_data = build_group_icon_data(images.as_slice(), ids.as_slice());
    Ok(IconResources { images, ids, group_data })
}

/// The message `embed_icon` gives where it cannot embed.
pub open spec fn embed_unsupported_message() -> Seq<char> {
    "--icon embeds a Windows PE resource and is only supported when building on Windows"@
}

/// Embedding an icon into `base_exe`'s copy at `output` on a host that
/// cannot edit PE resources (any but Windows): always refused with
/// `LauncherError::Extraction`, before anything is read or written. On
/// Windows the copy is patched with the layout of `icon_resources`.
pub fn embed_icon(base_exe: &str, ico_path: &str, output: &str) -> (r: Result<(), LauncherError>)
    ensures
        r matches Err(LauncherError::Extraction(m)) && m@ == embed_unsupported_message(),
{
    let mut m = String::new();
    push_str(&mut m, "--icon embeds a Windows PE resource and is only supported when building on Windows");
    Err(LauncherError::Extraction(m))
}

} // verus!
