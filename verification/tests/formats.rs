use drm_fourcc::{DrmFourcc, DrmModifier};
use projectwc::backend::formats::{
    fallback_formats, filter_render_formats, render_formats, supported_color_formats, Format,
};

fn format_of(modifier: u64) -> Format {
    Format { code: DrmFourcc::Argb8888 as u32, modifier }
}

fn modifiers(formats: &[Format]) -> Vec<u64> {
    formats.iter().map(|f| f.modifier).collect()
}

#[test]
fn compressed_layouts_are_dropped() {
    let compressed = [
        u64::from(DrmModifier::I915_y_tiled_ccs),
        0x0100_0000_0000_0005,
        u64::from(DrmModifier::I915_y_tiled_gen12_mc_ccs),
        u64::from(DrmModifier::I915_y_tiled_gen12_rc_ccs),
        0x0100_0000_0000_0008,
        0x0100_0000_0000_000a,
        0x0100_0000_0000_000b,
        0x0100_0000_0000_000c,
    ];
    let formats: Vec<Format> = compressed.iter().map(|m| format_of(*m)).collect();
    assert!(filter_render_formats(&formats).is_empty());
}

#[test]
fn other_layouts_are_kept_in_order() {
    let kept = vec![
        u64::from(DrmModifier::Linear),
        u64::from(DrmModifier::I915_x_tiled),
        u64::from(DrmModifier::I915_y_tiled),
        0x0100_0000_0000_0009,
        0x0100_0000_0000_000d,
        u64::from(DrmModifier::Invalid),
        u64::MAX,
    ];
    let mut formats: Vec<Format> = kept.iter().map(|m| format_of(*m)).collect();
    formats.insert(2, format_of(0x0100_0000_0000_0004));
    assert_eq!(modifiers(&filter_render_formats(&formats)), kept);
}

#[test]
fn falling_back_keeps_what_the_driver_chooses() {
    let formats = vec![
        format_of(u64::from(DrmModifier::Linear)),
        format_of(u64::from(DrmModifier::Invalid)),
        Format { code: DrmFourcc::Abgr8888 as u32, modifier: 0x00ff_ffff_ffff_ffff },
        format_of(0x0100_0000_0000_0004),
    ];
    let plan = render_formats(&formats);
    assert_eq!(plan.preferred, formats[..3].to_vec());
    assert_eq!(plan.fallback, formats[1..3].to_vec());
    assert_eq!(plan.fallback, fallback_formats(&formats));
}

#[test]
fn surfaces_are_drawn_with_alpha() {
    assert_eq!(
        supported_color_formats(),
        [DrmFourcc::Argb8888 as u32, DrmFourcc::Abgr8888 as u32]
    );
    assert_eq!(supported_color_formats(), [875_713_089, 875_708_993]);
}
