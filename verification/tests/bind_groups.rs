use yhwh::bind_group_manager::{
    BindGroupManager, BindingKind, LayoutEntry, SampleType, SamplerKind, ViewDimension, TL,
};

fn texture(binding: u32, multisampled: bool, view: ViewDimension, sample: SampleType) -> LayoutEntry {
    LayoutEntry {
        binding,
        kind: BindingKind::Texture { multisampled, view_dimension: view, sample_type: sample },
    }
}

fn sampler(binding: u32, kind: SamplerKind) -> LayoutEntry {
    LayoutEntry { binding, kind: BindingKind::Sampler(kind) }
}

#[test]
fn two_filtered_textures_take_four_bindings() {
    let entries = BindGroupManager::bindgroup_layout_entries(0, &vec![TL::Float, TL::Float]);
    let filtered = SampleType::Float { filterable: true };
    assert_eq!(
        entries,
        vec![
            texture(0, false, ViewDimension::D2, filtered),
            sampler(1, SamplerKind::Filtering),
            texture(2, false, ViewDimension::D2, filtered),
            sampler(3, SamplerKind::Filtering),
        ]
    );
}

#[test]
fn every_layout_has_its_texture_and_sampler() {
    let all = vec![
        TL::Depth,
        TL::DepthMultisampled,
        TL::DepthArray,
        TL::Float,
        TL::NonfilterableFloat,
        TL::NonfilterableFloatMultisampled,
        TL::Cube,
        TL::UInt,
        TL::SInt,
    ];
    let entries = BindGroupManager::bindgroup_layout_entries(10, &all);
    let plain = SampleType::Float { filterable: true };
    let raw = SampleType::Float { filterable: false };
    assert_eq!(
        entries,
        vec![
            texture(10, false, ViewDimension::D2, SampleType::Depth),
            sampler(11, SamplerKind::Comparison),
            texture(12, true, ViewDimension::D2, SampleType::Depth),
            sampler(13, SamplerKind::Comparison),
            texture(14, false, ViewDimension::D2Array, SampleType::Depth),
            sampler(15, SamplerKind::Comparison),
            texture(16, false, ViewDimension::D2, plain),
            sampler(17, SamplerKind::Filtering),
            texture(18, false, ViewDimension::D2, raw),
            sampler(19, SamplerKind::Filtering),
            texture(20, true, ViewDimension::D2, raw),
            sampler(21, SamplerKind::Filtering),
            texture(22, false, ViewDimension::Cube, plain),
            sampler(23, SamplerKind::Filtering),
            texture(24, false, ViewDimension::D2, SampleType::Uint),
            sampler(25, SamplerKind::Filtering),
            texture(26, false, ViewDimension::D2, SampleType::Sint),
            sampler(27, SamplerKind::Filtering),
        ]
    );
}

#[test]
fn no_layout_gives_no_entry() {
    assert!(BindGroupManager::bindgroup_layout_entries(u32::MAX, &vec![]).is_empty());
}

#[test]
fn last_bindings_can_be_used() {
    let entries = BindGroupManager::bindgroup_layout_entries(u32::MAX - 1, &vec![TL::Cube]);
    assert_eq!(entries[0].binding, u32::MAX - 1);
    assert_eq!(entries[1].binding, u32::MAX);
}
