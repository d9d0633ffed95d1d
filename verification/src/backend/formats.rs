//! The pixel formats that a surface may be drawn in.
use crate::search::lemma_filter_keeps_distinct;
use crate::search::lemma_filter_members;
use vstd::prelude::*;

verus! {

/// 32 bits a pixel: alpha, red, green, blue.
pub const ARGB8888: u32 = 0x3432_5241;

/// 32 bits a pixel: alpha, blue, green, red.
pub const ABGR8888: u32 = 0x3432_4241;

/// A pixel format: how a pixel is encoded, and how the pixels lie in memory.
#[derive(Clone, Copy, PartialEq, Eq, Structural, Debug)]
pub struct Format {
    pub code: u32,
    pub modifier: u64,
}

/// The memory layouts that are told apart.
#[derive(Clone, Copy, PartialEq, Eq, Structural, Debug)]
pub enum Modifier {
    I915YTiledCcs,
    I915YTiledGen12McCcs,
    I915YTiledGen12RcCcs,
    /// The layout is left to the driver.
    Invalid,
    /// A layout without a name, by its number.
    Unrecognized(u64),
    /// Any other layout with a name.
    Named,
}

/// `drm_fourcc::DrmModifier::from`, which names the memory layout that has a number. The
/// contract gives the numbers of the four layouts that are told apart by name, and says of
/// five other numbers that they have none. Of the rest it says that each either is one of
/// the other names or keeps its number; which of them have a name is left unsaid.
#[verifier::external_body]
fn modifier_from(raw: u64) -> (r: Modifier)
    ensures
        raw == 0x0100_0000_0000_0004 <==> r == Modifier::I915YTiledCcs,
        raw == 0x0100_0000_0000_0007 <==> r == Modifier::I915YTiledGen12McCcs,
        raw == 0x0100_0000_0000_0006 <==> r == Modifier::I915YTiledGen12RcCcs,
        raw == 0x00ff_ffff_ffff_ffff <==> r == Modifier::Invalid,
        raw == 0x0100_0000_0000_0005 || raw == 0x0100_0000_0000_0008 || raw
            == 0x0100_0000_0000_000a || raw == 0x0100_0000_0000_000b || raw
            == 0x0100_0000_0000_000c ==> r == Modifier::Unrecognized(raw),
        r matches Modifier::Unrecognized(n) ==> n == raw,
{
    match drm_fourcc::DrmModifier::from(raw) {
        drm_fourcc::DrmModifier::I915_y_tiled_ccs => Modifier::I915YTiledCcs,
        drm_fourcc::DrmModifier::I915_y_tiled_gen12_mc_ccs => Modifier::I915YTiledGen12McCcs,
        drm_fourcc::DrmModifier::I915_y_tiled_gen12_rc_ccs => Modifier::I915YTiledGen12RcCcs,
        drm_fourcc::DrmModifier::Invalid => Modifier::Invalid,
        drm_fourcc::DrmModifier::Unrecognized(n) => Modifier::Unrecognized(n),
        _ => Modifier::Named,
    }
}

/// The layout keeps compression data beside the pixels, which a display controller may not
/// be able to scan out.
pub open spec fn is_compressed(modifier: u64) -> bool {
    ||| modifier == 0x0100_0000_0000_0004
    ||| modifier == 0x0100_0000_0000_0005
    ||| modifier == 0x0100_0000_0000_0006
    ||| modifier == 0x0100_0000_0000_0007
    ||| modifier == 0x0100_0000_0000_0008
    ||| modifier == 0x0100_0000_0000_000a
    ||| modifier == 0x0100_0000_0000_000b
    ||| modifier == 0x0100_0000_0000_000c
}

/// The layout is left to the driver.
pub open spec fn is_invalid(modifier: u64) -> bool {
    modifier == 0x00ff_ffff_ffff_ffff
}

/// The format is not laid out with compression data.
pub open spec fn uncompressed() -> spec_fn(Format) -> bool {
    |f: Format| !is_compressed(f.modifier)
}

/// The format leaves the layout to the driver.
pub open spec fn driver_chosen() -> spec_fn(Format) -> bool {
    |f: Format| is_invalid(f.modifier)
}

/// The formats to draw a surface in, and those to fall back to.
#[derive(Debug)]
pub struct RenderFormats {
    pub preferred: Vec<Format>,
    pub fallback: Vec<Format>,
}

/// The encodings that a surface is drawn in, the better first.
pub fn supported_color_formats() -> (r: [u32; 2])
    ensures
        r@ == seq![ARGB8888, ABGR8888],
{
    let r: [u32; 2] = [ARGB8888, ABGR8888];
    proof {
        assert(r@ =~= seq![ARGB8888, ABGR8888]);
    }
    r
}

fn compressed(modifier: u64) -> (r: bool)
    ensures
        r == is_compressed(modifier),
{
    match modifier_from(modifier) {
        Modifier::I915YTiledCcs => true,
        Modifier::I915YTiledGen12McCcs => true,
        Modifier::I915YTiledGen12RcCcs => true,
        Modifier::Unrecognized(n) => n == 0x0100_0000_0000_0005 || n == 0x0100_0000_0000_0008 || n
            == 0x0100_0000_0000_000a || n == 0x0100_0000_0000_000b || n == 0x0100_0000_0000_000c,
        Modifier::Invalid => false,
        Modifier::Named => false,
    }
}

/// Drops the formats whose layout keeps compression data beside the pixels.
pub fn filter_render_formats(formats: &Vec<Format>) -> (r: Vec<Format>)
    ensures
        r@ == formats@.filter(uncompressed()),
{
    let mut r: Vec<Format> = Vec::new();
    let mut i: usize = 0;
    proof {
        assert(formats@.take(0) =~= Seq::<Format>::empty());
        reveal(Seq::filter);
    }
    while i < formats.len()
        invariant
            i <= formats.len(),
            r@ == formats@.take(i as int).filter(uncompressed()),
        decreases formats.len() - i,
    {
        proof {
            let next = formats@.take(i + 1);
            assert(next.drop_last() =~= formats@.take(i as int));
            assert(next.last() == formats@[i as int]);
            reveal(Seq::filter);
        }
        if !compressed(formats[i].modifier) {
            r.push(formats[i]);
        }
        i += 1;
    }
    proof {
        assert(formats@.take(formats@.len() as int) =~= formats@);
    }
    r
}

/// Keeps only the formats that leave the layout to the driver.
pub fn fallback_formats(formats: &Vec<Format>) -> (r: Vec<Format>)
    ensures
        r@ == formats@.filter(driver_chosen()),
{
    let mut r: Vec<Format> = Vec::new();
    let mut i: usize = 0;
    proof {
        assert(formats@.take(0) =~= Seq::<Format>::empty());
        reveal(Seq::filter);
    }
    while i < formats.len()
        invariant
            i <= formats.len(),
            r@ == formats@.take(i as int).filter(driver_chosen()),
        decreases formats.len() - i,
    {
        proof {
            let next = formats@.take(i + 1);
            assert(next.drop_last() =~= formats@.take(i as int));
            assert(next.last() == formats@[i as int]);
            reveal(Seq::filter);
        }
        if modifier_from(formats[i].modifier) == Modifier::Invalid {
            r.push(formats[i]);
        }
        i += 1;
    }
    proof {
        assert(formats@.take(formats@.len() as int) =~= formats@);
    }
    r
}

/// Picks the formats to draw a surface in, out of those that the renderer can draw in, and
/// the formats to fall back to where the display controller takes none of them.
pub fn render_formats(formats: &Vec<Format>) -> (r: RenderFormats)
    ensures
        r.preferred@ == formats@.filter(uncompressed()),
        r.fallback@ == formats@.filter(uncompressed()).filter(driver_chosen()),
{
    let preferred = filter_render_formats(formats);
    let fallback = fallback_formats(&preferred);
    RenderFormats { preferred, fallback }
}

/// The formats to draw in are among those that the renderer can draw in, each once where
/// each was there once, and none keeps compression data; those to fall back to are among
/// them, and leave the layout to the driver.
pub proof fn law_formats_are_drawable(formats: Seq<Format>, f: Format)
    ensures
        ({
            let preferred = formats.filter(uncompressed());
            let fallback = preferred.filter(driver_chosen());
            &&& preferred.contains(f) <==> formats.contains(f) && !is_compressed(f.modifier)
            &&& fallback.contains(f) ==> preferred.contains(f) && is_invalid(f.modifier)
            &&& formats.no_duplicates() ==> preferred.no_duplicates() && fallback.no_duplicates()
        }),
{
    let preferred = formats.filter(uncompressed());
    lemma_filter_members(formats, uncompressed(), f);
    lemma_filter_members(preferred, driver_chosen(), f);
    if formats.no_duplicates() {
        lemma_filter_keeps_distinct(formats, uncompressed());
        lemma_filter_keeps_distinct(preferred, driver_chosen());
    }
}

/// Falling back gives up none of the formats that leave the layout to the driver.
pub proof fn law_fallback_is_complete(formats: Seq<Format>)
    ensures
        formats.filter(uncompressed()).filter(driver_chosen()) == formats.filter(driver_chosen()),
    decreases formats.len(),
{
    reveal(Seq::filter);
    if formats.len() > 0 {
        let rest = formats.drop_last();
        law_fallback_is_complete(rest);
        if uncompressed()(formats.last()) {
            assert(rest.filter(uncompressed()).push(formats.last()).drop_last() =~= rest.filter(
                uncompressed(),
            ));
        }
    }
}

/// The layouts that are given up are those that one vendor numbers four to eight and ten to
/// twelve; any other stays. The layout that is left to the driver has all bits of a number
/// set and no vendor, and is not given up.
pub proof fn law_compressed_layouts_are_given_up(formats: Seq<Format>, f: Format)
    requires
        formats.contains(f),
    ensures
        ({
            let vendor = f.modifier / 0x0100_0000_0000_0000;
            let number = f.modifier % 0x0100_0000_0000_0000;
            let preferred = formats.filter(uncompressed());
            &&& !preferred.contains(f) <==> vendor == 1 && (4 <= number <= 8 || 10 <= number <= 12)
            &&& formats.filter(driver_chosen()).contains(f) <==> vendor == 0 && number
                == 0x0100_0000_0000_0000 - 1
            &&& formats.filter(driver_chosen()).contains(f) ==> preferred.contains(f)
                && preferred.filter(driver_chosen()).contains(f)
        }),
{
    lemma_filter_members(formats, uncompressed(), f);
    lemma_filter_members(formats, driver_chosen(), f);
    lemma_filter_members(formats.filter(uncompressed()), driver_chosen(), f);
}

/// The formats stay in the order in which the renderer gives them: one more comes last, or
/// is left out.
pub proof fn law_formats_keep_their_order(formats: Seq<Format>, f: Format)
    ensures
        formats.push(f).filter(uncompressed()) == (if is_compressed(f.modifier) {
            formats.filter(uncompressed())
        } else {
            formats.filter(uncompressed()).push(f)
        }),
        formats.push(f).filter(driver_chosen()) == (if f.modifier + 1 == 0x0100_0000_0000_0000 {
            formats.filter(driver_chosen()).push(f)
        } else {
            formats.filter(driver_chosen())
        }),
{
    reveal(Seq::filter);
    assert(formats.push(f).drop_last() =~= formats);
}

/// The codes of the encodings spell their names, the first letter in the lowest byte.
pub proof fn law_codes_spell_their_names()
    ensures
        ARGB8888 == 'A' as int + 0x100 * ('R' as int) + 0x1_0000 * ('2' as int) + 0x100_0000 * (
        '4' as int),
        ABGR8888 == 'A' as int + 0x100 * ('B' as int) + 0x1_0000 * ('2' as int) + 0x100_0000 * (
        '4' as int),
{
}

} // verus!
