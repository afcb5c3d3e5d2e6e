//! Album covers: choosing the picture to show and decoding it to pixels.
use vstd::prelude::*;

verus! {

/// What an embedded picture shows.
#[derive(Clone, Copy, Debug, PartialEq, Eq, Structural)]
pub enum PictureKind {
    CoverFront,
    CoverBack,
    Other,
}

/// A picture embedded in a track's tags: its kind and its encoded bytes.
#[derive(Debug)]
pub struct Picture {
    pub kind: PictureKind,
    pub data: Vec<u8>,
}

/// A decoded image as rows of RGBA bytes.
#[derive(Debug, PartialEq, Eq)]
pub struct CoverImage {
    pub rgba: Vec<u8>,
    pub width: u32,
    pub height: u32,
}

/// What `image` decodes `data` to, as RGBA bytes, width and height; `None`
/// when the format is unknown or the data broken.
pub uninterp spec fn rgba_of(data: Seq<u8>) -> Option<(Seq<u8>, u32, u32)>;

/// Relies on `image::load_from_memory` and `DynamicImage::into_rgba8`: the
/// picture decoded and converted to RGBA.
#[verifier::external_body]
fn decode_rgba(data: &Vec<u8>) -> (r: Option<CoverImage>)
    ensures
        match r {
            Some(c) => rgba_of(data@) == Some((c.rgba@, c.width, c.height)),
            None => rgba_of(data@) is None,
        },
{
    image::load_from_memory(data).ok().map(
        |img| {
            let rgba = img.into_rgba8();
            let (width, height) = rgba.dimensions();
            CoverImage { rgba: rgba.into_vec(), width, height }
        },
    )
}

pub open spec fn is_cover(p: Picture) -> bool {
    p.kind == PictureKind::CoverFront || p.kind == PictureKind::CoverBack
}

/// Position of the first front or back cover.
pub open spec fn first_cover(pics: Seq<Picture>) -> Option<int>
    decreases pics.len(),
{
    if pics.len() == 0 {
        None
    } else if is_cover(pics[0]) {
        Some(0)
    } else {
        match first_cover(pics.drop_first()) {
            Some(i) => Some(i + 1),
            None => None,
        }
    }
}

proof fn lemma_first_cover(pics: Seq<Picture>)
    ensures
        match first_cover(pics) {
            Some(i) => 0 <= i < pics.len() && is_cover(pics[i]) && forall|j: int|
                0 <= j < i ==> !is_cover(#[trigger] pics[j]),
            None => forall|j: int| 0 <= j < pics.len() ==> !is_cover(#[trigger] pics[j]),
        },
    decreases pics.len(),
{
    if pics.len() > 0 {
        lemma_first_cover(pics.drop_first());
        assert forall|j: int| 1 <= j < pics.len() implies pics[j] == pics.drop_first()[j - 1] by {}
    }
}

/// The album cover of a track: its first front or back cover picture,
/// decoded. `None` when there is no such picture or it cannot be decoded.
pub fn album_cover(pics: &Vec<Picture>) -> (r: Option<CoverImage>)
    ensures
        match first_cover(pics@) {
            None => r is None,
            Some(i) => match r {
                Some(c) => rgba_of(pics@[i].data@) == Some((c.rgba@, c.width, c.height)),
                None => rgba_of(pics@[i].data@) is None,
            },
        },
{
    proof {
        lemma_first_cover(pics@);
    }
    let mut i: usize = 0;
    while i < pics.len()
        invariant
            i <= pics@.len(),
            forall|j: int| 0 <= j < i ==> !is_cover(#[trigger] pics@[j]),
            match first_cover(pics@) {
                Some(k) => 0 <= k < pics@.len() && is_cover(pics@[k]) && forall|j: int|
                    0 <= j < k ==> !is_cover(#[trigger] pics@[j]),
                None => forall|j: int| 0 <= j < pics@.len() ==> !is_cover(#[trigger] pics@[j]),
            },
        decreases pics.len() - i,
    {
        let kind = pics[i].kind;
        if kind == PictureKind::CoverFront || kind == PictureKind::CoverBack {
            return decode_rgba(&pics[i].data);
        }
        i = i + 1;
    }
    None
}

} // verus!
