use vstd::prelude::*;

verus! {

/// Layout of one texture of a bind group.
#[derive(Clone, Copy, Debug, PartialEq, Eq, Structural)]
pub enum TL {
    Depth,
    DepthMultisampled,
    DepthArray,
    Float,
    NonfilterableFloat,
    NonfilterableFloatMultisampled,
    Cube,
    UInt,
    SInt,
}

/// Dimension of a texture view.
#[derive(Clone, Copy, Debug, PartialEq, Eq, Structural)]
pub enum ViewDimension {
    D2,
    D2Array,
    Cube,
}

/// How a shader samples a texture.
#[derive(Clone, Copy, Debug, PartialEq, Eq, Structural)]
pub enum SampleType {
    Depth,
    Uint,
    Sint,
    Float { filterable: bool },
}

/// Kind of the sampler that goes with a texture.
#[derive(Clone, Copy, Debug, PartialEq, Eq, Structural)]
pub enum SamplerKind {
    Comparison,
    Filtering,
}

/// What is bound at one binding of a bind group.
#[derive(Clone, Copy, Debug, PartialEq, Eq, Structural)]
pub enum BindingKind {
    Texture { multisampled: bool, view_dimension: ViewDimension, sample_type: SampleType },
    Sampler(SamplerKind),
}

/// One entry of a bind group layout, visible to vertex and fragment stage.
#[derive(Clone, Copy, Debug, PartialEq, Eq, Structural)]
pub struct LayoutEntry {
    pub binding: u32,
    pub kind: BindingKind,
}

/// Whether a texture of this layout is multisampled.
pub open spec fn is_multisampled(layout: TL) -> bool {
    layout == TL::NonfilterableFloatMultisampled || layout == TL::DepthMultisampled
}

/// Whether a texture of this layout holds depth values.
pub open spec fn is_depth(layout: TL) -> bool {
    layout == TL::Depth || layout == TL::DepthMultisampled || layout == TL::DepthArray
}

/// The texture binding of a layout.
pub open spec fn texture_kind(layout: TL) -> BindingKind {
    BindingKind::Texture {
        multisampled: is_multisampled(layout),
        view_dimension: if layout == TL::Cube {
            ViewDimension::Cube
        } else if layout == TL::DepthArray {
            ViewDimension::D2Array
        } else {
            ViewDimension::D2
        },
        sample_type: if is_depth(layout) {
            SampleType::Depth
        } else if layout == TL::UInt {
            SampleType::Uint
        } else if layout == TL::SInt {
            SampleType::Sint
        } else {
            SampleType::Float {
                filterable: !(layout == TL::NonfilterableFloat || layout
                    == TL::NonfilterableFloatMultisampled),
            }
        },
    }
}

/// The sampler binding of a layout: depth textures are compared, all others
/// filtered.
pub open spec fn sampler_kind(layout: TL) -> BindingKind {
    BindingKind::Sampler(
        if is_depth(layout) {
            SamplerKind::Comparison
        } else {
            SamplerKind::Filtering
        },
    )
}

/// The layout entries for `layouts`: texture `i` at binding
/// `binding_offset + 2 * i`, its sampler at the binding after it.
pub open spec fn layout_entries(binding_offset: u32, layouts: Seq<TL>) -> Seq<LayoutEntry> {
    Seq::new(
        2 * layouts.len(),
        |k: int|
            LayoutEntry {
                binding: (binding_offset + k) as u32,
                kind: if k % 2 == 0 {
                    texture_kind(layouts[k / 2])
                } else {
                    sampler_kind(layouts[k / 2])
                },
            },
    )
}

/// Plans bind group layouts.
pub struct BindGroupManager;

impl BindGroupManager {
    /// Lists a texture entry and a sampler entry for each layout, at
    /// consecutive bindings from `binding_offset` on.
    pub fn bindgroup_layout_entries(binding_offset: u32, layouts: &Vec<TL>) -> (entries: Vec<
        LayoutEntry,
    >)
        requires
            binding_offset + 2 * layouts@.len() <= u32::MAX + 1,
        ensures
            entries@ == layout_entries(binding_offset, layouts@),
    {
        let n: usize = layouts.len();
        let mut entries: Vec<LayoutEntry> = Vec::new();
        let mut i: usize = 0;
        while i < n
            invariant
                n == layouts@.len(),
                binding_offset + 2 * n <= u32::MAX + 1,
                0 <= i <= n,
                entries@.len() == 2 * i,
                forall|k: int|
                    0 <= k < 2 * i ==> #[trigger] entries@[k] == layout_entries(
                        binding_offset,
                        layouts@,
                    )[k],
            decreases n - i,
        {
            let layout: TL = layouts[i];
            let binding: u32 = binding_offset + 2 * (i as u32);
            let depth: bool = match layout {
                TL::Depth | TL::DepthMultisampled | TL::DepthArray => true,
                _ => false,
            };
            let texture = BindingKind::Texture {
                multisampled: match layout {
                    TL::NonfilterableFloatMultisampled | TL::DepthMultisampled => true,
                    _ => false,
                },
                view_dimension: match layout {
                    TL::Cube => ViewDimension::Cube,
                    TL::DepthArray => ViewDimension::D2Array,
                    _ => ViewDimension::D2,
                },
                sample_type: match layout {
                    TL::Depth | TL::DepthMultisampled | TL::DepthArray => SampleType::Depth,
                    TL::UInt => SampleType::Uint,
                    TL::SInt => SampleType::Sint,
                    _ => SampleType::Float {
                        filterable: match layout {
                            TL::NonfilterableFloat | TL::NonfilterableFloatMultisampled => false,
                            _ => true,
                        },
                    },
                },
            };
            let sampler = BindingKind::Sampler(
                if depth {
                    SamplerKind::Comparison
                } else {
                    SamplerKind::Filtering
                },
            );
            entries.push(LayoutEntry { binding, kind: texture });
            entries.push(LayoutEntry { binding: binding + 1, kind: sampler });
            i += 1;
        }
        assert(entries@ =~= layout_entries(binding_offset, layouts@));
        entries
    }
}

} // verus!
