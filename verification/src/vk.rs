//! Choices the Vulkan setup makes: surface format, present mode, swapchain
//! extent and image count, queue families, memory type, layout barriers.
use vstd::prelude::*;

verus! {

// ---- Vulkan values, read from ash ----

/// Raw `VK_PRESENT_MODE_MAILBOX_KHR`.
pub open spec fn mode_mailbox() -> i32 {
    1
}

/// Raw `VK_PRESENT_MODE_FIFO_KHR`.
pub open spec fn mode_fifo() -> i32 {
    2
}

/// Raw `VK_COMPOSITE_ALPHA_OPAQUE_BIT_KHR`.
pub open spec fn alpha_opaque() -> u32 {
    1
}

/// Raw `VK_COMPOSITE_ALPHA_INHERIT_BIT_KHR`.
pub open spec fn alpha_inherit() -> u32 {
    8
}

/// Raw `VK_QUEUE_GRAPHICS_BIT`.
pub open spec fn graphics_bit() -> u32 {
    1
}

/// Raw `VK_IMAGE_LAYOUT_UNDEFINED`, `..._TRANSFER_DST_OPTIMAL`, `..._SHADER_READ_ONLY_OPTIMAL`.
pub open spec fn layout_undefined() -> i32 {
    0
}

pub open spec fn layout_transfer_dst() -> i32 {
    7
}

pub open spec fn layout_shader_read() -> i32 {
    5
}

/// `ash::vk::Format::B8G8R8A8_UNORM`, raw (44 in ash's table).
#[verifier::external_body]
fn format_b8g8r8a8_unorm() -> (r: i32)
    ensures
        r == 44,
{
    ash::vk::Format::B8G8R8A8_UNORM.as_raw()
}

/// `ash::vk::ColorSpaceKHR::SRGB_NONLINEAR`, raw (0 in ash's table).
#[verifier::external_body]
fn color_space_srgb_nonlinear() -> (r: i32)
    ensures
        r == 0,
{
    ash::vk::ColorSpaceKHR::SRGB_NONLINEAR.as_raw()
}

/// `ash::vk::PresentModeKHR::MAILBOX`, raw (1 in ash's table).
#[verifier::external_body]
fn present_mode_mailbox() -> (r: i32)
    ensures
        r == mode_mailbox(),
{
    ash::vk::PresentModeKHR::MAILBOX.as_raw()
}

/// `ash::vk::PresentModeKHR::FIFO`, raw (2 in ash's table).
#[verifier::external_body]
fn present_mode_fifo() -> (r: i32)
    ensures
        r == mode_fifo(),
{
    ash::vk::PresentModeKHR::FIFO.as_raw()
}

/// `ash::vk::CompositeAlphaFlagsKHR::OPAQUE`, raw (bit 0 in ash's table).
#[verifier::external_body]
fn composite_alpha_opaque() -> (r: u32)
    ensures
        r == alpha_opaque(),
{
    ash::vk::CompositeAlphaFlagsKHR::OPAQUE.as_raw()
}

/// `ash::vk::CompositeAlphaFlagsKHR::INHERIT`, raw (bit 3 in ash's table).
#[verifier::external_body]
fn composite_alpha_inherit() -> (r: u32)
    ensures
        r == alpha_inherit(),
{
    ash::vk::CompositeAlphaFlagsKHR::INHERIT.as_raw()
}

/// `ash::vk::QueueFlags::GRAPHICS`, raw (bit 0 in ash's table).
#[verifier::external_body]
fn queue_graphics() -> (r: u32)
    ensures
        r == graphics_bit(),
{
    ash::vk::QueueFlags::GRAPHICS.as_raw()
}

/// `ash::vk::ImageLayout::UNDEFINED`, raw (0 in ash's table).
#[verifier::external_body]
fn image_layout_undefined() -> (r: i32)
    ensures
        r == layout_undefined(),
{
    ash::vk::ImageLayout::UNDEFINED.as_raw()
}

/// `ash::vk::ImageLayout::TRANSFER_DST_OPTIMAL`, raw (7 in ash's table).
#[verifier::external_body]
fn image_layout_transfer_dst() -> (r: i32)
    ensures
        r == layout_transfer_dst(),
{
    ash::vk::ImageLayout::TRANSFER_DST_OPTIMAL.as_raw()
}

/// `ash::vk::ImageLayout::SHADER_READ_ONLY_OPTIMAL`, raw (5 in ash's table).
#[verifier::external_body]
fn image_layout_shader_read_only() -> (r: i32)
    ensures
        r == layout_shader_read(),
{
    ash::vk::ImageLayout::SHADER_READ_ONLY_OPTIMAL.as_raw()
}

/// `ash::vk::AccessFlags::TRANSFER_WRITE`, raw (bit 12 in ash's table).
#[verifier::external_body]
fn access_transfer_write() -> (r: u32)
    ensures
        r == 0x1000,
{
    ash::vk::AccessFlags::TRANSFER_WRITE.as_raw()
}

/// `ash::vk::AccessFlags::SHADER_READ`, raw (bit 5 in ash's table).
#[verifier::external_body]
fn access_shader_read() -> (r: u32)
    ensures
        r == 0x20,
{
    ash::vk::AccessFlags::SHADER_READ.as_raw()
}

/// `ash::vk::PipelineStageFlags::TOP_OF_PIPE`, raw (bit 0 in ash's table).
#[verifier::external_body]
fn stage_top_of_pipe() -> (r: u32)
    ensures
        r == 1,
{
    ash::vk::PipelineStageFlags::TOP_OF_PIPE.as_raw()
}

/// `ash::vk::PipelineStageFlags::TRANSFER`, raw (bit 12 in ash's table).
#[verifier::external_body]
fn stage_transfer() -> (r: u32)
    ensures
        r == 0x1000,
{
    ash::vk::PipelineStageFlags::TRANSFER.as_raw()
}

/// `ash::vk::PipelineStageFlags::FRAGMENT_SHADER`, raw (bit 7 in ash's table).
#[verifier::external_body]
fn stage_fragment_shader() -> (r: u32)
    ensures
        r == 0x80,
{
    ash::vk::PipelineStageFlags::FRAGMENT_SHADER.as_raw()
}

// ---- Swapchain settings ----

/// A surface format as the driver reports it: raw `VkFormat` and `VkColorSpaceKHR`.
#[derive(Clone, Copy, Debug, PartialEq, Eq, Structural)]
pub struct SurfaceFormat {
    pub format: i32,
    pub color_space: i32,
}

/// A 2D extent in pixels.
#[derive(Clone, Copy, Debug, PartialEq, Eq, Structural)]
pub struct Extent {
    pub width: u32,
    pub height: u32,
}

/// The format the swapchain prefers: 8-bit BGRA in the sRGB non-linear space.
pub open spec fn preferred_surface_format() -> SurfaceFormat {
    SurfaceFormat { format: 44, color_space: 0 }
}

/// The preferred format where the surface offers it, else the first one offered.
pub fn choose_surface_format(formats: &[SurfaceFormat]) -> (f: SurfaceFormat)
    requires
        formats@.len() > 0,
    ensures
        f == (if formats@.contains(preferred_surface_format()) {
            preferred_surface_format()
        } else {
            formats@[0]
        }),
{
    let want_format = format_b8g8r8a8_unorm();
    let want_space = color_space_srgb_nonlinear();
    let mut i: usize = 0;
    while i < formats.len()
        invariant
            i <= formats@.len(),
            want_format == 44,
            want_space == 0,
            forall|j: int| 0 <= j < i ==> formats@[j] != preferred_surface_format(),
        decreases formats.len() - i,
    {
        let f = formats[i];
        if f.format == want_format && f.color_space == want_space {
            assert(formats@[i as int] == preferred_surface_format());
            return f;
        }
        i += 1;
    }
    formats[0]
}

/// Mailbox where the surface offers it, else FIFO (which every surface supports).
pub fn choose_present_mode(modes: &[i32]) -> (m: i32)
    ensures
        m == (if modes@.contains(mode_mailbox()) {
            mode_mailbox()
        } else {
            mode_fifo()
        }),
{
    let mailbox = present_mode_mailbox();
    let mut i: usize = 0;
    while i < modes.len()
        invariant
            i <= modes@.len(),
            mailbox == mode_mailbox(),
            forall|j: int| 0 <= j < i ==> modes@[j] != mode_mailbox(),
        decreases modes.len() - i,
    {
        if modes[i] == mailbox {
            assert(modes@[i as int] == mode_mailbox());
            return mailbox;
        }
        i += 1;
    }
    present_mode_fifo()
}

/// The extent the swapchain is made with when the surface does not fix one.
pub open spec fn fallback_extent() -> Extent {
    Extent { width: 1280, height: 720 }
}

/// An explicit extent wins; else the surface's current extent, unless the surface
/// leaves it to the swapchain (`u32::MAX` in either dimension), in which case the
/// extent the window asked for, or 1280x720.
pub fn choose_extent(override_extent: Option<Extent>, current: Extent, requested: Option<Extent>) -> (e: Extent)
    ensures
        e == (match override_extent {
            Some(o) => o,
            None => if current.width == u32::MAX || current.height == u32::MAX {
                match requested {
                    Some(r) => r,
                    None => fallback_extent(),
                }
            } else {
                current
            },
        }),
{
    if let Some(e) = override_extent {
        e
    } else {
        if current.width == u32::MAX || current.height == u32::MAX {
            match requested {
                Some(r) => r,
                None => Extent { width: 1280, height: 720 },
            }
        } else {
            current
        }
    }
}

/// One image more than the surface's minimum, capped by its maximum (0: no maximum).
pub fn choose_image_count(min_image_count: u32, max_image_count: u32) -> (n: u32)
    requires
        min_image_count < u32::MAX,
    ensures
        max_image_count == 0 ==> n == min_image_count + 1,
        max_image_count != 0 ==> n == if min_image_count + 1 <= max_image_count {
            (min_image_count + 1) as u32
        } else {
            max_image_count
        },
{
    let cap = if max_image_count == 0 {
        u32::MAX
    } else {
        max_image_count
    };
    let want = min_image_count + 1;
    if want <= cap {
        want
    } else {
        cap
    }
}

/// Opaque composition where the surface supports it, else inherit.
pub fn choose_composite_alpha(supported: u32) -> (c: u32)
    ensures
        c == (if supported & alpha_opaque() == alpha_opaque() {
            alpha_opaque()
        } else {
            alpha_inherit()
        }),
{
    let opaque = composite_alpha_opaque();
    if supported & opaque == opaque {
        opaque
    } else {
        composite_alpha_inherit()
    }
}

// ---- Queue families ----

/// The queue families chosen so far while the families of one device are
/// walked in order: the first with graphics, the first that can present.
#[derive(Clone, Copy, Debug, PartialEq, Eq, Structural)]
pub struct QueueFamilyScan {
    pub graphics: Option<u32>,
    pub present: Option<u32>,
}

/// The scan after it took in family `f = (index, VkQueueFlags, can present)`.
pub open spec fn observed(s: QueueFamilyScan, f: (u32, u32, bool)) -> QueueFamilyScan {
    QueueFamilyScan {
        graphics: if s.graphics is None && f.1 & graphics_bit() == graphics_bit() {
            Some(f.0)
        } else {
            s.graphics
        },
        present: if s.present is None && f.2 {
            Some(f.0)
        } else {
            s.present
        },
    }
}

impl QueueFamilyScan {
    pub fn new() -> (s: QueueFamilyScan)
        ensures
            s.graphics is None,
            s.present is None,
    {
        QueueFamilyScan { graphics: None, present: None }
    }

    /// Takes in family `index`, its `VkQueueFlags` and whether it can present to the
    /// surface; keeps the first family found for each role.
    pub fn observe(&mut self, index: u32, queue_flags: u32, supports_present: bool)
        ensures
            *final(self) == observed(*old(self), (index, queue_flags, supports_present)),
    {
        let graphics = queue_graphics();
        if queue_flags & graphics == graphics && self.graphics.is_none() {
            self.graphics = Some(index);
        }
        if supports_present && self.present.is_none() {
            self.present = Some(index);
        }
    }

    /// Both roles are filled: the walk over this device's families can stop.
    pub fn is_complete(&self) -> (b: bool)
        ensures
            b == (self.graphics is Some && self.present is Some),
    {
        self.graphics.is_some() && self.present.is_some()
    }

    /// `(graphics, present)` once both are found.
    pub fn families(&self) -> (r: Option<(u32, u32)>)
        ensures
            r == (match (self.graphics, self.present) {
                (Some(g), Some(p)) => Some((g, p)),
                _ => None,
            }),
    {
        match (self.graphics, self.present) {
            (Some(g), Some(p)) => Some((g, p)),
            _ => None,
        }
    }
}

/// The state of a scan that started empty and took in `families` in order; each
/// family is `(index, VkQueueFlags, can present)`.
pub open spec fn scan_of(families: Seq<(u32, u32, bool)>) -> QueueFamilyScan
    decreases families.len(),
{
    if families.len() == 0 {
        QueueFamilyScan { graphics: None, present: None }
    } else {
        observed(scan_of(families.drop_last()), families.last())
    }
}

/// A scan keeps the first graphics family and the first family that can present,
/// in the order the families were taken in.
pub proof fn lemma_scan_keeps_first(families: Seq<(u32, u32, bool)>)
    ensures
        match scan_of(families).graphics {
            Some(g) => exists|i: int|
                0 <= i < families.len() && families[i].0 == g && families[i].1 & 1u32 == 1u32 && forall|
                    j: int,
                | 0 <= j < i ==> #[trigger] families[j].1 & 1u32 != 1u32,
            None => forall|j: int| 0 <= j < families.len() ==> #[trigger] families[j].1 & 1u32 != 1u32,
        },
        match scan_of(families).present {
            Some(p) => exists|i: int|
                0 <= i < families.len() && families[i].0 == p && families[i].2 && forall|j: int|
                    0 <= j < i ==> !#[trigger] families[j].2,
            None => forall|j: int| 0 <= j < families.len() ==> !#[trigger] families[j].2,
        },
    decreases families.len(),
{
    if families.len() > 0 {
        let init = families.drop_last();
        lemma_scan_keeps_first(init);
        let n = families.len() - 1;
        assert(forall|j: int| 0 <= j < n ==> families[j] == init[j]);
        match scan_of(init).graphics {
            Some(g) => {
                let i = choose|i: int|
                    0 <= i < init.len() && init[i].0 == g && init[i].1 & 1u32 == 1u32 && forall|j: int|
                        0 <= j < i ==> #[trigger] init[j].1 & 1u32 != 1u32;
                assert(families[i] == init[i]);
                assert forall|j: int| 0 <= j < i implies #[trigger] families[j].1 & 1u32 != 1u32 by {
                    assert(families[j] == init[j]);
                }
            },
            None => {
                assert forall|j: int| 0 <= j < n implies #[trigger] families[j].1 & 1u32 != 1u32 by {
                    assert(families[j] == init[j]);
                }
            },
        }
        match scan_of(init).present {
            Some(p) => {
                let i = choose|i: int|
                    0 <= i < init.len() && init[i].0 == p && init[i].2 && forall|j: int|
                        0 <= j < i ==> !#[trigger] init[j].2;
                assert(families[i] == init[i]);
                assert forall|j: int| 0 <= j < i implies !#[trigger] families[j].2 by {
                    assert(families[j] == init[j]);
                }
            },
            None => {
                assert forall|j: int| 0 <= j < n implies !#[trigger] families[j].2 by {
                    assert(families[j] == init[j]);
                }
            },
        }
    }
}

/// The queue families a device is created with: the graphics and present
/// families, each once.
pub fn unique_queue_families(graphics: u32, present: u32) -> (qs: Vec<u32>)
    ensures
        qs@.no_duplicates(),
        qs@.to_set() == set![graphics, present],
        qs@ == (if graphics == present {
            seq![graphics]
        } else {
            seq![graphics, present]
        }),
{
    let mut qs: Vec<u32> = Vec::new();
    qs.push(graphics);
    if present != graphics {
        qs.push(present);
    }
    proof {
        if graphics == present {
            assert(qs@ =~= seq![graphics]);
            assert(qs@.to_set() =~= set![graphics, present]) by {
                assert(qs@[0] == graphics);
                assert(qs@.contains(graphics));
            }
        } else {
            assert(qs@ =~= seq![graphics, present]);
            assert(qs@.to_set() =~= set![graphics, present]) by {
                assert(qs@[0] == graphics);
                assert(qs@[1] == present);
            }
        }
    }
    qs
}

// ---- Memory types ----

/// Memory type `i` is allowed by the requirement bits and has every wanted property.
pub open spec fn memory_type_fits(type_bits: u32, type_flags: Seq<u32>, properties: u32, i: int) -> bool {
    type_bits & (1u32 << (i as u32)) != 0 && type_flags[i] & properties == properties
}

/// A memory type fits exactly when the type bits allow it and no requested
/// property is missing from its flags; then each bit set in `properties` is set
/// in its flags.
pub proof fn lemma_fitting_type_has_every_property(type_bits: u32, type_flags: Seq<u32>, properties: u32, i: int)
    requires
        0 <= i < 32,
        i < type_flags.len(),
    ensures
        memory_type_fits(type_bits, type_flags, properties, i) <==> ((type_bits >> (i as u32)) & 1 == 1
            && properties & !type_flags[i] == 0),
        memory_type_fits(type_bits, type_flags, properties, i) ==> forall|k: u32|
            k < 32 ==> ((properties >> k) & 1 == 1 ==> #[trigger] ((type_flags[i] >> k) & 1) == 1),
{
    let f = type_flags[i];
    let s = i as u32;
    assert((type_bits & (1u32 << s) != 0) == ((type_bits >> s) & 1 == 1)) by (bit_vector)
        requires s < 32;
    assert((f & properties == properties) == (properties & !f == 0)) by (bit_vector);
    assert forall|k: u32| k < 32 && f & properties == properties implies ((properties >> k) & 1 == 1
        ==> #[trigger] ((f >> k) & 1) == 1) by {
        assert(f & properties == properties && k < 32 && (properties >> k) & 1 == 1 ==> (f >> k) & 1 == 1)
            by (bit_vector);
    }
}

/// The first memory type that fits, among the device's memory types in order.
pub fn find_memory_type(type_bits: u32, type_flags: &[u32], properties: u32) -> (r: Option<u32>)
    requires
        type_flags@.len() <= 32,
    ensures
        match r {
            Some(i) => i < type_flags@.len() && memory_type_fits(type_bits, type_flags@, properties, i as int)
                && forall|j: int| 0 <= j < i ==> !memory_type_fits(type_bits, type_flags@, properties, j),
            None => forall|j: int|
                0 <= j < type_flags@.len() ==> !memory_type_fits(type_bits, type_flags@, properties, j),
        },
{
    let mut i: usize = 0;
    while i < type_flags.len()
        invariant
            i <= type_flags@.len() <= 32,
            forall|j: int| 0 <= j < i ==> !memory_type_fits(type_bits, type_flags@, properties, j),
        decreases type_flags.len() - i,
    {
        let bit: u32 = 1u32 << (i as u32);
        if type_bits & bit != 0 && type_flags[i] & properties == properties {
            return Some(i as u32);
        }
        i += 1;
    }
    None
}

// ---- Image layout transitions ----

/// Access masks and pipeline stages of an image layout barrier.
#[derive(Clone, Copy, Debug, PartialEq, Eq, Structural)]
pub struct LayoutBarrier {
    pub src_access: u32,
    pub dst_access: u32,
    pub src_stage: u32,
    pub dst_stage: u32,
}

/// A layout transition that has no barrier: its raw `VkImageLayout` values.
#[derive(Clone, Copy, Debug, PartialEq, Eq, Structural)]
pub struct UnsupportedTransition {
    pub from: i32,
    pub to: i32,
}

/// Undefined to transfer destination: nothing to wait for, transfer writes after.
pub open spec fn upload_barrier() -> LayoutBarrier {
    LayoutBarrier { src_access: 0, dst_access: 0x1000, src_stage: 1, dst_stage: 0x1000 }
}

/// Transfer destination to shader read: transfer writes before fragment shader reads.
pub open spec fn sample_barrier() -> LayoutBarrier {
    LayoutBarrier { src_access: 0x1000, dst_access: 0x20, src_stage: 0x1000, dst_stage: 0x80 }
}

/// The two barriers of a texture upload chain: what the first makes the
/// transfer write is what the second waits for before the shader reads.
pub proof fn lemma_upload_barriers_chain()
    ensures
        upload_barrier().dst_access == sample_barrier().src_access,
        upload_barrier().dst_stage == sample_barrier().src_stage,
{
}

/// The barrier for moving an image from layout `from` to `to`; only the two
/// transitions of a texture upload are known.
pub fn layout_transition(from: i32, to: i32) -> (r: Result<LayoutBarrier, UnsupportedTransition>)
    ensures
        r == (if from == layout_undefined() && to == layout_transfer_dst() {
            Ok::<LayoutBarrier, UnsupportedTransition>(upload_barrier())
        } else if from == layout_transfer_dst() && to == layout_shader_read() {
            Ok(sample_barrier())
        } else {
            Err(UnsupportedTransition { from, to })
        }),
{
    let undefined = image_layout_undefined();
    let transfer_dst = image_layout_transfer_dst();
    let shader_read = image_layout_shader_read_only();
    if from == undefined && to == transfer_dst {
        Ok(
            LayoutBarrier {
                src_access: 0,
                dst_access: access_transfer_write(),
                src_stage: stage_top_of_pipe(),
                dst_stage: stage_transfer(),
            },
        )
    } else if from == transfer_dst && to == shader_read {
        Ok(
            LayoutBarrier {
                src_access: access_transfer_write(),
                dst_access: access_shader_read(),
                src_stage: stage_transfer(),
                dst_stage: stage_fragment_shader(),
            },
        )
    } else {
        Err(UnsupportedTransition { from, to })
    }
}

// ---- Instance layers and extensions ----

/// The Khronos validation layer.
pub open spec fn validation_layer() -> Seq<char> {
    "VK_LAYER_KHRONOS_validation"@
}

/// The extension that carries validation messages to the debug callback.
pub open spec fn debug_utils_extension() -> Seq<char> {
    "VK_EXT_debug_utils"@
}

/// The layers an instance is created with: the validation layer when validation
/// is wanted and the loader offers it; none otherwise.
pub fn validation_layers(enable_validation: bool, available: &Vec<String>) -> (layers: Vec<String>)
    ensures
        (enable_validation && exists|i: int| 0 <= i < available@.len() && #[trigger] available@[i]@
            == validation_layer()) ==> layers@.len() == 1 && layers@[0]@ == validation_layer(),
        !(enable_validation && exists|i: int| 0 <= i < available@.len() && #[trigger] available@[i]@
            == validation_layer()) ==> layers@.len() == 0,
{
    let mut layers: Vec<String> = Vec::new();
    if !enable_validation {
        return layers;
    }
    let wanted = "VK_LAYER_KHRONOS_validation".to_owned();
    let mut i: usize = 0;
    while i < available.len()
        invariant
            enable_validation,
            i <= available@.len(),
            wanted@ == validation_layer(),
            layers@.len() == 0,
            forall|k: int| 0 <= k < i ==> #[trigger] available@[k]@ != validation_layer(),
        decreases available.len() - i,
    {
        if available[i] == wanted {
            assert(available@[i as int]@ == validation_layer());
            layers.push(wanted);
            return layers;
        }
        i += 1;
    }
    layers
}

/// The extensions an instance is created with: those the window system needs,
/// then, with validation, the debug-utils extension.
pub fn instance_extensions(required: Vec<String>, enable_validation: bool) -> (exts: Vec<String>)
    ensures
        !enable_validation ==> exts@ == required@,
        enable_validation ==> exts@.len() == required@.len() + 1 && exts@.take(required@.len() as int)
            == required@ && exts@.last()@ == debug_utils_extension(),
{
    let mut exts = required;
    if enable_validation {
        let ghost before = exts@;
        exts.push("VK_EXT_debug_utils".to_owned());
        assert(exts@.take(before.len() as int) =~= before);
    }
    exts
}

} // verus!
