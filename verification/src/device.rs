//! The decisions the device layer makes: which present mode and surface format to configure, which
//! usages a buffer is created with, which textures are still alive, what the index buffers that
//! stand in for fans and quads hold, and what the render statistics count.
//!
//! The wgpu calls themselves are the application's; what they are handed is decided here.

use vstd::prelude::*;
use std::collections::HashMap;

use crate::blaze::{BindGroupPlan, PrimitiveTopology};

verus! {

broadcast use vstd::std_specs::hash::group_hash_axioms;

// ---------------------------------------------------------------------------------------------
// Present mode and surface format
// ---------------------------------------------------------------------------------------------

/// What the JVM asks the swapchain for: the vsync setting, or a mode of its own.
#[derive(Clone, Copy, Debug, PartialEq, Eq, Structural)]
pub enum PresentModeRequest {
    FromSettings,
    Fifo,
    Immediate,
    Mailbox,
}

impl PresentModeRequest {
    /// The request the JVM's number stands for; anything unknown follows the settings.
    pub fn from_raw(raw: u32) -> (r: PresentModeRequest)
        ensures
            r == (if raw == 1 {
                PresentModeRequest::Fifo
            } else if raw == 2 {
                PresentModeRequest::Immediate
            } else if raw == 3 {
                PresentModeRequest::Mailbox
            } else {
                PresentModeRequest::FromSettings
            }),
    {
        if raw == 1 {
            PresentModeRequest::Fifo
        } else if raw == 2 {
            PresentModeRequest::Immediate
        } else if raw == 3 {
            PresentModeRequest::Mailbox
        } else {
            PresentModeRequest::FromSettings
        }
    }
}

/// A swapchain present mode, as wgpu names them.
#[derive(Clone, Copy, Debug, PartialEq, Eq, Structural)]
pub enum PresentMode {
    AutoVsync,
    AutoNoVsync,
    Fifo,
    FifoRelaxed,
    Immediate,
    Mailbox,
}

/// Whether a request asks for vsync: Fifo does, the other two modes do not, and the settings decide
/// otherwise - on when they have not been loaded.
pub open spec fn wants_vsync(request: PresentModeRequest, vsync_setting: Option<bool>) -> bool {
    match request {
        PresentModeRequest::Fifo => true,
        PresentModeRequest::Immediate | PresentModeRequest::Mailbox => false,
        PresentModeRequest::FromSettings => match vsync_setting {
            Some(v) => v,
            None => true,
        },
    }
}

/// The mode a request resolves to on a surface that supports `supported`.
pub open spec fn spec_present_mode(
    request: PresentModeRequest,
    vsync_setting: Option<bool>,
    supported: Seq<PresentMode>,
) -> PresentMode {
    if wants_vsync(request, vsync_setting) {
        PresentMode::Fifo
    } else if supported.contains(PresentMode::Mailbox) {
        PresentMode::Mailbox
    } else if supported.contains(PresentMode::Immediate) {
        PresentMode::Immediate
    } else {
        PresentMode::Fifo
    }
}

/// Whether `mode` is in `modes`.
fn has_mode(modes: &[PresentMode], mode: PresentMode) -> (r: bool)
    ensures
        r == modes@.contains(mode),
{
    let mut i: usize = 0;
    while i < modes.len()
        invariant
            i <= modes.len(),
            forall|k: int| 0 <= k < i ==> modes@[k] != mode,
        decreases modes.len() - i,
    {
        if modes[i] == mode {
            return true;
        }
        i = i + 1;
    }
    false
}

/// Turns a request into a mode the surface actually supports.
///
/// Vsync is Fifo, which every backend supports. Without vsync, Mailbox - the tear-free immediate
/// mode - is preferred to Immediate, and a surface with neither falls back to Fifo rather than being
/// asked for a mode it would reject. `vsync_setting` is the settings' vsync switch, `None` when the
/// settings are not loaded yet.
pub fn resolve_present_mode(
    request: PresentModeRequest,
    vsync_setting: Option<bool>,
    supported: &[PresentMode],
) -> (mode: PresentMode)
    ensures
        mode == spec_present_mode(request, vsync_setting, supported@),
{
    let vsync = match request {
        PresentModeRequest::Fifo => true,
        PresentModeRequest::Immediate | PresentModeRequest::Mailbox => false,
        PresentModeRequest::FromSettings => match vsync_setting {
            Some(v) => v,
            None => true,
        },
    };
    if vsync {
        PresentMode::Fifo
    } else if has_mode(supported, PresentMode::Mailbox) {
        PresentMode::Mailbox
    } else if has_mode(supported, PresentMode::Immediate) {
        PresentMode::Immediate
    } else {
        PresentMode::Fifo
    }
}

/// A swapchain format: the four this renderer prefers, and any other by the number the surface
/// listed it under.
#[derive(Clone, Copy, Debug, PartialEq, Eq, Structural)]
pub enum SurfaceFormat {
    Bgra8Unorm,
    Rgba8Unorm,
    Bgra8UnormSrgb,
    Rgba8UnormSrgb,
    Other(u32),
}

/// The format to configure: the first of Bgra8Unorm, Rgba8Unorm, Bgra8UnormSrgb and Rgba8UnormSrgb
/// that the surface offers, else the surface's first format, else Bgra8Unorm.
///
/// A non-sRGB format comes first because the main render target already holds display-referred
/// colour, and an sRGB swapchain would encode it a second time.
pub open spec fn spec_surface_format(formats: Seq<SurfaceFormat>) -> SurfaceFormat {
    if formats.contains(SurfaceFormat::Bgra8Unorm) {
        SurfaceFormat::Bgra8Unorm
    } else if formats.contains(SurfaceFormat::Rgba8Unorm) {
        SurfaceFormat::Rgba8Unorm
    } else if formats.contains(SurfaceFormat::Bgra8UnormSrgb) {
        SurfaceFormat::Bgra8UnormSrgb
    } else if formats.contains(SurfaceFormat::Rgba8UnormSrgb) {
        SurfaceFormat::Rgba8UnormSrgb
    } else if formats.len() > 0 {
        formats[0]
    } else {
        SurfaceFormat::Bgra8Unorm
    }
}

/// Whether `format` is in `formats`.
fn has_format(formats: &[SurfaceFormat], format: SurfaceFormat) -> (r: bool)
    ensures
        r == formats@.contains(format),
{
    let mut i: usize = 0;
    while i < formats.len()
        invariant
            i <= formats.len(),
            forall|k: int| 0 <= k < i ==> formats@[k] != format,
        decreases formats.len() - i,
    {
        if formats[i] == format {
            return true;
        }
        i = i + 1;
    }
    false
}

/// The swapchain format to configure, out of the ones the surface offers.
pub fn preferred_surface_format(formats: &[SurfaceFormat]) -> (format: SurfaceFormat)
    ensures
        format == spec_surface_format(formats@),
{
    if has_format(formats, SurfaceFormat::Bgra8Unorm) {
        SurfaceFormat::Bgra8Unorm
    } else if has_format(formats, SurfaceFormat::Rgba8Unorm) {
        SurfaceFormat::Rgba8Unorm
    } else if has_format(formats, SurfaceFormat::Bgra8UnormSrgb) {
        SurfaceFormat::Bgra8UnormSrgb
    } else if has_format(formats, SurfaceFormat::Rgba8UnormSrgb) {
        SurfaceFormat::Rgba8UnormSrgb
    } else if formats.len() > 0 {
        formats[0]
    } else {
        SurfaceFormat::Bgra8Unorm
    }
}

/// How much a swapchain format is wanted: the non-sRGB 8-bit ones first, Bgra8Unorm - the
/// swapchain format on both DX12 and Vulkan - before Rgba8Unorm, then their sRGB forms in the same
/// order, and anything else last.
pub open spec fn format_rank(f: SurfaceFormat) -> int {
    match f {
        SurfaceFormat::Bgra8Unorm => 0,
        SurfaceFormat::Rgba8Unorm => 1,
        SurfaceFormat::Bgra8UnormSrgb => 2,
        SurfaceFormat::Rgba8UnormSrgb => 3,
        SurfaceFormat::Other(_) => 4,
    }
}

/// The chosen format is one the surface offers - Bgra8Unorm when it offers none - and none of the
/// offered formats is wanted more: Bgra8Unorm whenever it is offered, Rgba8Unorm only when
/// Bgra8Unorm is not, an sRGB format only when neither is, and, where the surface offers only
/// formats outside the four, the first it offers.
pub proof fn lemma_surface_format_is_the_most_wanted(formats: Seq<SurfaceFormat>)
    ensures
        formats.len() > 0 ==> formats.contains(spec_surface_format(formats)),
        formats.len() == 0 ==> spec_surface_format(formats) == SurfaceFormat::Bgra8Unorm,
        forall|i: int|
            0 <= i < formats.len() ==> format_rank(spec_surface_format(formats)) <= format_rank(
                #[trigger] formats[i],
            ),
        formats.contains(SurfaceFormat::Bgra8Unorm) ==> spec_surface_format(formats)
            == SurfaceFormat::Bgra8Unorm,
        spec_surface_format(formats) == SurfaceFormat::Rgba8Unorm ==> !formats.contains(
            SurfaceFormat::Bgra8Unorm,
        ),
        format_rank(spec_surface_format(formats)) == 4 && formats.len() > 0 ==> spec_surface_format(
            formats,
        ) == formats[0],
{
    let r = spec_surface_format(formats);
    if formats.len() > 0 {
        assert(formats[0] == formats[0]);
        assert(formats.contains(formats[0]));
    }
    assert forall|i: int| 0 <= i < formats.len() implies format_rank(r) <= format_rank(
        #[trigger] formats[i],
    ) by {
        assert(formats.contains(formats[i]));
    }
}

/// How a surface's alpha is composited, as wgpu names the modes.
#[derive(Clone, Copy, Debug, PartialEq, Eq, Structural)]
pub enum AlphaMode {
    Auto,
    Opaque,
    PreMultiplied,
    PostMultiplied,
    Inherit,
}

/// Whether `mode` is in `modes`.
fn has_alpha_mode(modes: &[AlphaMode], mode: AlphaMode) -> (r: bool)
    ensures
        r == modes@.contains(mode),
{
    let mut i: usize = 0;
    while i < modes.len()
        invariant
            i <= modes.len(),
            forall|k: int| 0 <= k < i ==> modes@[k] != mode,
        decreases modes.len() - i,
    {
        if modes[i] == mode {
            return true;
        }
        i = i + 1;
    }
    false
}

/// The alpha mode to configure: opaque where the surface offers it, else the backend's choice.
pub fn preferred_alpha_mode(modes: &[AlphaMode]) -> (mode: AlphaMode)
    ensures
        mode == if modes@.contains(AlphaMode::Opaque) {
            AlphaMode::Opaque
        } else {
            AlphaMode::Auto
        },
{
    if has_alpha_mode(modes, AlphaMode::Opaque) {
        AlphaMode::Opaque
    } else {
        AlphaMode::Auto
    }
}

/// What the swapchain was last configured with.
#[derive(Clone, Copy, Debug, PartialEq, Eq, Structural)]
pub struct SurfaceConfig {
    pub width: u32,
    pub height: u32,
    pub format: SurfaceFormat,
    pub present_mode: PresentMode,
}

/// Whether the swapchain is to be configured with `wanted`, given what it was last configured
/// with: never for an empty window; always when forced - a stale swapchain is rebuilt with the
/// very configuration that broke - and otherwise only when something changed.
pub fn surface_needs_configure(current: Option<SurfaceConfig>, wanted: SurfaceConfig, force: bool) -> (r:
    bool)
    ensures
        r == (wanted.width != 0 && wanted.height != 0 && (force || current != Some(wanted))),
{
    if wanted.width == 0 || wanted.height == 0 {
        return false;
    }
    let unchanged = match current {
        Some(c) => c.width == wanted.width && c.height == wanted.height && c.format == wanted.format
            && c.present_mode == wanted.present_mode,
        None => false,
    };
    force || !unchanged
}

/// A request to configure the swapchain.
#[derive(Clone, Copy, Debug, PartialEq, Eq, Structural)]
pub struct ConfigureRequest {
    pub width: u32,
    pub height: u32,
    pub request: PresentModeRequest,
    pub force: bool,
}

/// What applying the vsync setting asks of the swapchain: the size already in force, the present
/// mode the settings resolve to, and no rebuild when that is what it already has; nothing before
/// the swapchain was ever configured.
pub fn reapply_present_mode(current: Option<SurfaceConfig>) -> (r: Option<ConfigureRequest>)
    ensures
        r == match current {
            Some(c) => Some(
                ConfigureRequest {
                    width: c.width,
                    height: c.height,
                    request: PresentModeRequest::FromSettings,
                    force: false,
                },
            ),
            None => None,
        },
{
    match current {
        Some(c) => Some(
            ConfigureRequest {
                width: c.width,
                height: c.height,
                request: PresentModeRequest::FromSettings,
                force: false,
            },
        ),
        None => None,
    }
}

/// What acquiring the next swapchain image gave, as wgpu names the outcomes.
#[derive(Clone, Copy, Debug, PartialEq, Eq, Structural)]
pub enum AcquireOutcome {
    Success,
    Suboptimal,
    Timeout,
    Occluded,
    Outdated,
    Lost,
    Validation,
}

/// What to do about an acquire.
#[derive(Clone, Copy, Debug, PartialEq, Eq, Structural)]
pub enum AcquireAction {
    /// Hand the image to the JVM.
    Present,
    /// The swapchain no longer matches the window: rebuild it with the configuration in force and
    /// try once more, asking for the mode it had.
    Reconfigure(PresentModeRequest),
    /// Nothing to draw into this frame.
    Skip,
}

/// The request that restores a present mode: Fifo and Immediate ask for themselves, anything else
/// for Mailbox.
pub open spec fn spec_restore_request(mode: PresentMode) -> PresentModeRequest {
    match mode {
        PresentMode::Fifo => PresentModeRequest::Fifo,
        PresentMode::Immediate => PresentModeRequest::Immediate,
        _ => PresentModeRequest::Mailbox,
    }
}

/// What to do about an acquire: an image, suboptimal or not, is presented; a swapchain that is
/// outdated, lost or refused is rebuilt when it was ever configured; anything else skips the frame.
pub fn acquire_action(outcome: AcquireOutcome, current: Option<SurfaceConfig>) -> (action: AcquireAction)
    ensures
        action == match outcome {
            AcquireOutcome::Success | AcquireOutcome::Suboptimal => AcquireAction::Present,
            AcquireOutcome::Outdated | AcquireOutcome::Lost | AcquireOutcome::Validation => {
                match current {
                    Some(c) => AcquireAction::Reconfigure(spec_restore_request(c.present_mode)),
                    None => AcquireAction::Skip,
                }
            },
            _ => AcquireAction::Skip,
        },
{
    match outcome {
        AcquireOutcome::Success | AcquireOutcome::Suboptimal => AcquireAction::Present,
        AcquireOutcome::Outdated | AcquireOutcome::Lost | AcquireOutcome::Validation => {
            match current {
                Some(c) => AcquireAction::Reconfigure(
                    match c.present_mode {
                        PresentMode::Fifo => PresentModeRequest::Fifo,
                        PresentMode::Immediate => PresentModeRequest::Immediate,
                        _ => PresentModeRequest::Mailbox,
                    },
                ),
                None => AcquireAction::Skip,
            }
        },
        _ => AcquireAction::Skip,
    }
}

// ---------------------------------------------------------------------------------------------
// Textures and views
// ---------------------------------------------------------------------------------------------

/// The usages a texture is created with.
#[derive(Clone, Copy, Debug, PartialEq, Eq, Structural)]
pub struct TextureUsage {
    pub copy_dst: bool,
    pub copy_src: bool,
    pub texture_binding: bool,
    pub render_attachment: bool,
}

/// The usages for the JVM's texture usage bits: bit 0 is a copy destination, bit 2 a sampled
/// texture, bit 3 a render target; every texture can be copied from, which is what lets any of
/// them be read back for diagnostics.
pub fn texture_usage(usage: u32) -> (flags: TextureUsage)
    ensures
        flags == (TextureUsage {
            copy_dst: usage & 1 != 0,
            copy_src: true,
            texture_binding: usage & 4 != 0,
            render_attachment: usage & 8 != 0,
        }),
{
    TextureUsage {
        copy_dst: usage & 1 != 0,
        copy_src: true,
        texture_binding: usage & 4 != 0,
        render_attachment: usage & 8 != 0,
    }
}

/// The number of binary digits of `n`.
pub open spec fn bit_length(n: nat) -> nat
    decreases n,
{
    if n == 0 {
        0
    } else {
        1 + bit_length(n / 2)
    }
}

proof fn lemma_bit_length_small(n: nat, k: nat)
    requires
        n < pow2_nat(k),
    ensures
        bit_length(n) <= k,
    decreases n,
{
    if n > 0 {
        assert(k > 0) by {
            if k == 0 {
                assert(pow2_nat(0) == 1);
            }
        }
        assert(pow2_nat(k) == 2 * pow2_nat((k - 1) as nat));
        lemma_bit_length_small(n / 2, (k - 1) as nat);
    }
}

/// Two to the `k`.
pub open spec fn pow2_nat(k: nat) -> nat
    decreases k,
{
    if k == 0 {
        1
    } else {
        2 * pow2_nat((k - 1) as nat)
    }
}

/// How many mip levels a `width` by `height` texture gets: what was asked for, at least one and at
/// most as many as halving the larger side takes to reach one texel.
pub fn mip_level_count(width: u32, height: u32, requested: u32) -> (levels: u32)
    ensures
        ({
            let largest = if width >= height {
                if width >= 1 {
                    width as nat
                } else {
                    1nat
                }
            } else {
                height as nat
            };
            let max_levels = bit_length(largest);
            &&& requested < 1 ==> levels == 1
            &&& 1 <= requested <= max_levels ==> levels == requested
            &&& requested > max_levels ==> levels == max_levels
        }),
{
    let largest = if width >= height {
        if width >= 1 {
            width
        } else {
            1
        }
    } else {
        height
    };
    let mut n = largest;
    let mut max_levels: u32 = 0;
    proof {
        reveal_with_fuel(pow2_nat, 33);
        assert(pow2_nat(32) == 0x1_0000_0000);
        lemma_bit_length_small(largest as nat, 32);
    }
    while n > 0
        invariant
            bit_length(largest as nat) == max_levels + bit_length(n as nat),
            bit_length(largest as nat) <= 32,
        decreases n,
    {
        n = n / 2;
        max_levels = max_levels + 1;
    }
    proof {
        assert(bit_length(largest as nat) >= 1);
    }
    if requested < 1 {
        1
    } else if requested > max_levels {
        max_levels
    } else {
        requested
    }
}

/// Which mip levels of a texture a view covers, and whether it is a cube.
#[derive(Clone, Copy, Debug, PartialEq, Eq, Structural)]
pub struct ViewRange {
    pub base: u32,
    /// `None` for every level from `base` on.
    pub count: Option<u32>,
    pub cube: bool,
}

/// The view the JVM asks for of a texture with `available` mip levels: the base level clamped to
/// the last one there is, a count of zero meaning every level from there and any other count
/// clamped to what is left (and to at least one), and a cube where usage bit 4 is set.
pub fn view_range(available: u32, base_mip_level: u32, mip_levels: u32, usage: u32) -> (range:
    ViewRange)
    ensures
        ({
            let last = if available >= 1 {
                available - 1
            } else {
                0
            };
            let base = if base_mip_level <= last {
                base_mip_level as int
            } else {
                last
            };
            let left = available - base;
            &&& range.base == base
            &&& range.count == if mip_levels == 0 {
                None
            } else {
                Some(
                    if mip_levels <= left {
                        if mip_levels >= 1 {
                            mip_levels as u32
                        } else {
                            1u32
                        }
                    } else if left >= 1 {
                        left as u32
                    } else {
                        1u32
                    },
                )
            }
            &&& range.cube == (usage & 16 != 0)
        }),
{
    let last = if available >= 1 {
        available - 1
    } else {
        0
    };
    let base = if base_mip_level <= last {
        base_mip_level
    } else {
        last
    };
    let left = available - base;
    let count = if mip_levels == 0 {
        None
    } else {
        let c = if mip_levels <= left {
            mip_levels
        } else {
            left
        };
        Some(
            if c >= 1 {
                c
            } else {
                1
            },
        )
    };
    ViewRange { base, count, cube: usage & 16 != 0 }
}

// ---------------------------------------------------------------------------------------------
// Bringing the device up
// ---------------------------------------------------------------------------------------------

/// The device features the renderer cares about.
#[derive(Clone, Copy, Debug, PartialEq, Eq, Structural)]
pub struct DeviceFeatures {
    pub mappable_primary_buffers: bool,
    pub depth_clip_control: bool,
    pub pipeline_cache: bool,
    pub timestamp_query: bool,
    pub timestamp_query_inside_encoders: bool,
}

/// The features the device is created with, given what the adapter has: mappable primary buffers
/// and depth clip control always; the pipeline cache where the adapter has one; timestamp queries,
/// both kinds together, where the adapter has both.
pub fn required_features(adapter: DeviceFeatures) -> (required: DeviceFeatures)
    ensures
        required == (DeviceFeatures {
            mappable_primary_buffers: true,
            depth_clip_control: true,
            pipeline_cache: adapter.pipeline_cache,
            timestamp_query: adapter.timestamp_query && adapter.timestamp_query_inside_encoders,
            timestamp_query_inside_encoders: adapter.timestamp_query
                && adapter.timestamp_query_inside_encoders,
        }),
{
    let timestamps = adapter.timestamp_query && adapter.timestamp_query_inside_encoders;
    DeviceFeatures {
        mappable_primary_buffers: true,
        depth_clip_control: true,
        pipeline_cache: adapter.pipeline_cache,
        timestamp_query: timestamps,
        timestamp_query_inside_encoders: timestamps,
    }
}

/// The flags the wgpu instance is created with.
#[derive(Clone, Copy, Debug, PartialEq, Eq, Structural)]
pub struct InstanceFlags {
    pub validation: bool,
    pub debug: bool,
    pub gpu_based_validation: bool,
}

/// Host-side validation and the debug utilities always; the driver's GPU-based validation only
/// behind its debug switch.
pub fn instance_flags(gpu_based_validation: bool) -> (flags: InstanceFlags)
    ensures
        flags == (InstanceFlags { validation: true, debug: true, gpu_based_validation }),
{
    InstanceFlags { validation: true, debug: true, gpu_based_validation }
}

// ---------------------------------------------------------------------------------------------
// The pipeline cache file
// ---------------------------------------------------------------------------------------------

/// How many pipelines are compiled between two writes of the pipeline cache.
pub const PIPELINE_CACHE_SAVE_EVERY: u64 = 16;

/// What this launch's pipeline cache turned out to be.
#[derive(Clone, Copy, Debug, PartialEq, Eq, Structural)]
pub enum PipelineCacheState {
    /// No pipeline has been compiled yet.
    Unknown,
    /// The device has no pipeline cache.
    Absent,
    /// There is a cache, but the backend does not hand its contents back.
    Private,
    /// The cache is written to disk as pipelines are compiled.
    Persisted,
}

/// When the pipeline cache is written, and what it was found to be.
pub struct PipelineCacheSaves {
    pub since_last_save: u64,
    pub state: PipelineCacheState,
}

impl PipelineCacheSaves {
    pub fn new() -> (s: Self)
        ensures
            s.since_last_save == 0,
            s.state == PipelineCacheState::Unknown,
    {
        PipelineCacheSaves { since_last_save: 0, state: PipelineCacheState::Unknown }
    }

    /// A pipeline was compiled: whether the cache is to be read and written now. Without a cache
    /// there is nothing to write; with one, every [`PIPELINE_CACHE_SAVE_EVERY`]-th compilation
    /// writes it, and the count starts again.
    pub fn compiled(&mut self, has_cache: bool) -> (save: bool)
        ensures
            !has_cache ==> !save && final(self).state == PipelineCacheState::Absent
                && final(self).since_last_save == old(self).since_last_save,
            has_cache ==> final(self).state == old(self).state,
            has_cache ==> save == (old(self).since_last_save.wrapping_add(1)
                >= PIPELINE_CACHE_SAVE_EVERY),
            has_cache && save ==> final(self).since_last_save == 0,
            has_cache && !save ==> final(self).since_last_save == old(
                self,
            ).since_last_save.wrapping_add(1),
    {
        if !has_cache {
            self.state = PipelineCacheState::Absent;
            return false;
        }
        let count = self.since_last_save.wrapping_add(1);
        if count < PIPELINE_CACHE_SAVE_EVERY {
            self.since_last_save = count;
            return false;
        }
        self.since_last_save = 0;
        true
    }

    /// What reading the cache for a write found: contents to persist, or a cache the backend keeps
    /// to itself.
    pub fn read(&mut self, readable: bool)
        ensures
            final(self).since_last_save == old(self).since_last_save,
            final(self).state == if readable {
                PipelineCacheState::Persisted
            } else {
                PipelineCacheState::Private
            },
    {
        self.state = if readable {
            PipelineCacheState::Persisted
        } else {
            PipelineCacheState::Private
        };
    }
}

// ---------------------------------------------------------------------------------------------
// Buffers and colours
// ---------------------------------------------------------------------------------------------

/// The usages a buffer is created with.
#[derive(Clone, Copy, Debug, PartialEq, Eq, Structural)]
pub struct BufferUsage {
    pub map_read: bool,
    pub map_write: bool,
    pub copy_src: bool,
    pub copy_dst: bool,
    pub vertex: bool,
    pub index: bool,
    pub uniform: bool,
    pub storage: bool,
}

/// Translates Blaze3D's `GpuBuffer` usage bits into the usages wgpu is asked for.
///
/// Map-read is bit 1, map-write bit 2, copy-destination bit 8, copy-source bit 16, vertex bit 32,
/// index bit 64, uniform bit 128 and the texel buffer bit 256, which becomes storage. A mappable
/// for writing buffer is also a copy destination, and a buffer that cannot be mapped for reading is
/// also a copy source, so it can be read back for diagnostics.
pub fn wgpu_buffer_usages(usage: u32) -> (flags: BufferUsage)
    ensures
        flags == wgpu_buffer_usages_spec(usage),
{
    let mut flags = BufferUsage {
        map_read: usage & 1 != 0,
        map_write: usage & 2 != 0,
        copy_src: usage & 16 != 0,
        copy_dst: usage & 8 != 0 || usage & 2 != 0,
        vertex: usage & 32 != 0,
        index: usage & 64 != 0,
        uniform: usage & 128 != 0,
        storage: usage & 256 != 0,
    };
    if usage & 1 == 0 {
        flags.copy_src = true;
    }
    flags
}

/// The usages of a buffer handed out mapped for the JVM to fill: the mask's own usages (its low 32
/// bits), map-write always, since a buffer mapped at creation needs it, and map-read wherever the
/// buffer is not a copy source.
pub fn mapped_buffer_usages(usages: u64) -> (flags: BufferUsage)
    ensures
        ({
            let base = wgpu_buffer_usages_spec(usages as u32);
            flags == (BufferUsage { map_write: true, map_read: base.map_read || !base.copy_src, ..base })
        }),
{
    let mut flags = wgpu_buffer_usages(usages as u32);
    flags.map_write = true;
    if !flags.copy_src {
        flags.map_read = true;
    }
    flags
}

/// The usages [`wgpu_buffer_usages`] gives for a Blaze3D usage mask.
pub open spec fn wgpu_buffer_usages_spec(usage: u32) -> BufferUsage {
    BufferUsage {
        map_read: usage & 1 != 0,
        map_write: usage & 2 != 0,
        copy_src: usage & 16 != 0 || usage & 1 == 0,
        copy_dst: usage & 8 != 0 || usage & 2 != 0,
        vertex: usage & 32 != 0,
        index: usage & 64 != 0,
        uniform: usage & 128 != 0,
        storage: usage & 256 != 0,
    }
}

/// The contents a buffer created with initial data gets: the data, followed by zeroes up to the
/// next multiple of 16 bytes.
pub fn padded_contents(data: &[u8]) -> (out: Vec<u8>)
    requires
        data@.len() + 15 <= usize::MAX,
    ensures
        out@.len() % 16 == 0,
        data@.len() <= out@.len() < data@.len() + 16,
        out@.subrange(0, data@.len() as int) == data@,
        forall|i: int| data@.len() <= i < out@.len() ==> out@[i] == 0u8,
{
    let mut out: Vec<u8> = Vec::new();
    let mut i: usize = 0;
    while i < data.len()
        invariant
            i <= data@.len(),
            out@ == data@.subrange(0, i as int),
        decreases data@.len() - i,
    {
        out.push(data[i]);
        i = i + 1;
    }
    let rem: usize = data.len() % 16;
    let pad: usize = if rem == 0 { 0 } else { 16 - rem };
    let mut j: usize = 0;
    while j < pad
        invariant
            j <= pad,
            pad < 16,
            (data@.len() + pad) % 16 == 0,
            data@.len() + 15 <= usize::MAX,
            out@.len() == data@.len() + j,
            out@.subrange(0, data@.len() as int) == data@,
            forall|k: int| data@.len() <= k < out@.len() ==> out@[k] == 0u8,
        decreases pad - j,
    {
        j = j + 1;
        out.push(0u8);
    }
    out
}

/// The four channels of a packed `ARGB` colour, as `net.minecraft.util.ARGB` packs them: red,
/// green, blue and alpha, each out of 255.
pub fn argb_channels(argb: u32) -> (rgba: (u8, u8, u8, u8))
    ensures
        rgba.0 == (argb >> 16u32) & 0xFF,
        rgba.1 == (argb >> 8u32) & 0xFF,
        rgba.2 == argb & 0xFF,
        rgba.3 == (argb >> 24u32) & 0xFF,
{
    let r = (argb >> 16u32) & 0xFF;
    let g = (argb >> 8u32) & 0xFF;
    let b = argb & 0xFF;
    let a = (argb >> 24u32) & 0xFF;
    assert(r < 256 && g < 256 && b < 256 && a < 256) by (bit_vector)
        requires
            r == (argb >> 16u32) & 0xFF,
            g == (argb >> 8u32) & 0xFF,
            b == argb & 0xFF,
            a == (argb >> 24u32) & 0xFF,
    ;
    (r as u8, g as u8, b as u8, a as u8)
}

/// An estimate of what a texture costs, good enough to watch for growth: four bytes a texel, a
/// texture having at least one layer.
pub open spec fn spec_texture_bytes(width: u32, height: u32, depth_or_layers: u32) -> int {
    width * height * (if depth_or_layers < 1 {
        1
    } else {
        depth_or_layers as int
    }) * 4
}

/// An estimate of what a texture costs: four bytes a texel.
pub fn texture_bytes(width: u32, height: u32, depth_or_layers: u32) -> (bytes: u64)
    requires
        spec_texture_bytes(width, height, depth_or_layers) <= u64::MAX,
    ensures
        bytes == spec_texture_bytes(width, height, depth_or_layers),
{
    let layers: u64 = if depth_or_layers < 1 {
        1
    } else {
        depth_or_layers as u64
    };
    let w = width as u64;
    let h = height as u64;
    assert(0 <= w * h <= w * h * layers * 4) by (nonlinear_arith)
        requires
            layers >= 1,
    ;
    assert(w * h * layers <= w * h * layers * 4) by (nonlinear_arith);
    (w * h) * layers * 4
}

// ---------------------------------------------------------------------------------------------
// Index buffers for fans and quads
// ---------------------------------------------------------------------------------------------

/// How many sizes either index cache keeps before it is emptied.
pub const INDEX_CACHE_LIMIT: usize = 64;

/// Whether an index cache holding `len` sizes has to be emptied before a size it does not hold is
/// added: a cache that cannot grow past its limit cannot leak.
pub fn cache_must_clear(len: usize, holds_size: bool) -> (r: bool)
    ensures
        r == (len >= INDEX_CACHE_LIMIT && !holds_size),
{
    len >= INDEX_CACHE_LIMIT && !holds_size
}

/// The indices that draw a triangle fan of `index_count` sequential vertices as a triangle list:
/// `(0, 1, 2), (0, 2, 3), (0, 3, 4), ...`.
pub open spec fn spec_fan_indices(index_count: nat) -> Seq<u32> {
    Seq::new(
        ((index_count - 2) * 3) as nat,
        |k: int|
            if k % 3 == 0 {
                0u32
            } else {
                (k / 3 + k % 3) as u32
            },
    )
}

/// The indices that draw a triangle fan of `index_count` vertices as a triangle list, or nothing
/// when there are too few vertices for one triangle.
pub fn fan_indices(index_count: u32) -> (indices: Option<Vec<u32>>)
    requires
        (index_count - 2) * 3 <= u32::MAX,
    ensures
        index_count < 3 ==> indices is None,
        index_count >= 3 ==> (indices matches Some(v) && v@ == spec_fan_indices(index_count as nat)),
{
    if index_count < 3 {
        return None;
    }
    let triangles = index_count - 2;
    let mut indices: Vec<u32> = Vec::new();
    let mut triangle: u32 = 0;
    while triangle < triangles
        invariant
            triangle <= triangles,
            triangles == index_count - 2,
            triangles * 3 <= u32::MAX,
            indices@ == spec_fan_indices(index_count as nat).take(triangle * 3),
        decreases triangles - triangle,
    {
        let ghost before = indices@;
        indices.push(0u32);
        indices.push(triangle + 1);
        indices.push(triangle + 2);
        assert(indices@ =~= spec_fan_indices(index_count as nat).take(triangle * 3 + 3)) by {
            assert forall|k: int| 0 <= k < triangle * 3 + 3 implies #[trigger] indices@[k]
                == spec_fan_indices(index_count as nat)[k] by {
                if k >= triangle * 3 {
                    assert((triangle * 3 + 1) / 3 == triangle && (triangle * 3 + 1) % 3 == 1)
                        by (nonlinear_arith);
                    assert((triangle * 3 + 2) / 3 == triangle && (triangle * 3 + 2) % 3 == 2)
                        by (nonlinear_arith);
                    assert((triangle * 3) % 3 == 0) by (nonlinear_arith);
                }
            }
        }
        triangle = triangle + 1;
    }
    assert(spec_fan_indices(index_count as nat).take(triangles * 3) =~= spec_fan_indices(
        index_count as nat,
    ));
    Some(indices)
}

/// The six indices of quad `q`: two triangles, `(i, i+1, i+2)` and `(i+2, i+3, i)`, where
/// `i = 4q`.
pub open spec fn quad_index(k: int) -> u32 {
    let first = (k / 6) * 4;
    let corner = k % 6;
    (if corner == 0 || corner == 5 {
        first
    } else if corner == 1 {
        first + 1
    } else if corner == 2 || corner == 3 {
        first + 2
    } else {
        first + 3
    }) as u32
}

/// The indices that draw `quads` quads as a triangle list.
pub open spec fn spec_quad_indices(quads: nat) -> Seq<u32> {
    Seq::new(quads * 6, |k: int| quad_index(k))
}

/// The indices that draw `vertex_count` vertices - whole quads of four - as a triangle list, and
/// how many there are, or nothing when there is not one whole quad.
pub fn quad_indices(vertex_count: u32) -> (r: Option<(Vec<u32>, u32)>)
    requires
        (vertex_count / 4) * 6 <= u32::MAX,
    ensures
        vertex_count / 4 == 0 ==> r is None,
        vertex_count / 4 > 0 ==> (r matches Some((v, n)) && v@ == spec_quad_indices(
            (vertex_count / 4) as nat,
        ) && n == (vertex_count / 4) * 6),
{
    let quads = vertex_count / 4;
    if quads == 0 {
        return None;
    }
    let mut indices: Vec<u32> = Vec::new();
    let mut quad: u32 = 0;
    while quad < quads
        invariant
            quad <= quads,
            quads == vertex_count / 4,
            quads * 6 <= u32::MAX,
            quads * 4 <= vertex_count,
            indices@ == spec_quad_indices(quads as nat).take(quad * 6),
        decreases quads - quad,
    {
        let first = quad * 4;
        indices.push(first);
        indices.push(first + 1);
        indices.push(first + 2);
        indices.push(first + 2);
        indices.push(first + 3);
        indices.push(first);
        assert(indices@ =~= spec_quad_indices(quads as nat).take(quad * 6 + 6)) by {
            assert forall|k: int| quad * 6 <= k < quad * 6 + 6 implies #[trigger] indices@[k]
                == quad_index(k) by {
                assert((k / 6) == quad && k % 6 == k - quad * 6) by (nonlinear_arith)
                    requires
                        quad * 6 <= k < quad * 6 + 6,
                ;
            }
        }
        quad = quad + 1;
    }
    assert(spec_quad_indices(quads as nat).take(quads * 6) =~= spec_quad_indices(quads as nat));
    Some((indices, quads * 6))
}

// ---------------------------------------------------------------------------------------------
// Textures that were dropped
// ---------------------------------------------------------------------------------------------

/// How many dropped textures are remembered.
pub const DEAD_TEXTURE_LIMIT: usize = 512;

/// What a dropped texture was, kept so a use after it was dropped can be described without reading
/// it.
#[derive(Debug, PartialEq, Eq, Structural)]
pub struct DeadTexture<F> {
    pub width: u32,
    pub height: u32,
    pub format: F,
    /// What the texture cost, so the live total can be given back.
    pub bytes: u64,
}

/// The textures this side created and has not dropped, by address, and the last ones it dropped.
///
/// A pointer the JVM hands over is checked against this before it is used: an address this side
/// saw dropped is refused, because using it would be a validation error that ends the process.
pub struct TextureRegistry<F> {
    /// Live textures, by address, with their labels.
    pub live: HashMap<usize, String>,
    /// Dropped textures, by address, with what they were and their labels.
    pub dead: HashMap<usize, (String, DeadTexture<F>)>,
    /// The order the dead textures were recorded in, oldest first.
    pub order: Vec<usize>,
    /// How many textures are live, and how many bytes they cost.
    pub live_count: u64,
    pub live_bytes: u64,
}

impl<F: Copy> TextureRegistry<F> {
    /// Whether the registry keeps no more tombstones than its limit.
    pub open spec fn wf(&self) -> bool {
        self.order@.len() <= DEAD_TEXTURE_LIMIT
    }

    /// A registry that knows no texture.
    pub fn new() -> (r: Self)
        ensures
            r.wf(),
            r.live@ == Map::<usize, String>::empty(),
            r.dead@ == Map::<usize, (String, DeadTexture<F>)>::empty(),
            r.order@ == Seq::<usize>::empty(),
            r.live_count == 0,
            r.live_bytes == 0,
    {
        TextureRegistry {
            live: HashMap::new(),
            dead: HashMap::new(),
            order: Vec::new(),
            live_count: 0,
            live_bytes: 0,
        }
    }

    /// Records a texture that was created at `address`, with its label and cost.
    ///
    /// The address may be one a dropped texture used to occupy, so its tombstone is cleared: a
    /// brand new texture must not be condemned for its predecessor's sins.
    pub fn note_alive(&mut self, address: usize, label: String, bytes: u64)
        ensures
            final(self).live@ == old(self).live@.insert(address, label),
            final(self).dead@ == old(self).dead@.remove(address),
            final(self).order@ == old(self).order@,
            final(self).live_count == old(self).live_count.wrapping_add(1),
            final(self).live_bytes == old(self).live_bytes.wrapping_add(bytes),
    {
        self.live.insert(address, label);
        self.dead.remove(&address);
        self.live_count = self.live_count.wrapping_add(1);
        self.live_bytes = self.live_bytes.wrapping_add(bytes);
    }

    /// Records a texture at `address` that is being dropped, while its size can still be read.
    ///
    /// Its label moves from the live list to the tombstone; once there are more tombstones than the
    /// limit, the oldest is forgotten.
    pub fn note_dead(
        &mut self,
        address: usize,
        width: u32,
        height: u32,
        depth_or_layers: u32,
        format: F,
    )
        requires
            old(self).wf(),
            spec_texture_bytes(width, height, depth_or_layers) <= u64::MAX,
        ensures
            final(self).wf(),
            ({
                let label = if old(self).live@.contains_key(address) {
                    old(self).live@[address]@
                } else {
                    "<unlabelled>"@
                };
                let record = DeadTexture {
                    width,
                    height,
                    format,
                    bytes: spec_texture_bytes(width, height, depth_or_layers) as u64,
                };
                let pushed = old(self).order@.push(address);
                &&& final(self).live@ == old(self).live@.remove(address)
                &&& final(self).live_count == old(self).live_count.wrapping_sub(1)
                &&& final(self).live_bytes == old(self).live_bytes.wrapping_sub(record.bytes)
                &&& final(self).dead@.contains_key(address) ==> final(self).dead@[address].0@
                    == label && final(self).dead@[address].1 == record
                &&& if pushed.len() > DEAD_TEXTURE_LIMIT {
                    &&& final(self).order@ == pushed.drop_first()
                    &&& final(self).dead@.dom() == old(self).dead@.dom().insert(address).remove(
                        pushed[0],
                    )
                } else {
                    &&& final(self).order@ == pushed
                    &&& final(self).dead@.dom() == old(self).dead@.dom().insert(address)
                }
            }),
    {
        let label = match self.live.remove(&address) {
            Some(label) => label,
            None => String::from_str("<unlabelled>"),
        };
        let bytes = texture_bytes(width, height, depth_or_layers);
        let record = DeadTexture { width, height, format, bytes };
        self.live_count = self.live_count.wrapping_sub(1);
        self.live_bytes = self.live_bytes.wrapping_sub(bytes);
        self.dead.insert(address, (label, record));
        self.order.push(address);
        let ghost pushed = self.order@;
        let ghost dom = self.dead@.dom();
        if self.order.len() > DEAD_TEXTURE_LIMIT {
            let oldest = self.order.remove(0);
            self.dead.remove(&oldest);
            assert(self.order@ =~= pushed.drop_first());
        }
    }

    /// Whether the texture at `address` may be used: one this side created and has not dropped, or
    /// one it never saw (the swapchain's own texture). Only an address it saw dropped is refused.
    pub fn is_alive(&self, address: usize) -> (r: bool)
        ensures
            r == (self.live@.contains_key(address) || !self.dead@.contains_key(address)),
    {
        self.live.contains_key(&address) || !self.dead.contains_key(&address)
    }

    /// The size and format a dropped texture had, which is what a stand-in for it needs.
    pub fn dead_description(&self, address: usize) -> (r: Option<(u32, u32, F)>)
        ensures
            self.dead@.contains_key(address) ==> r == Some(
                (
                    self.dead@[address].1.width,
                    self.dead@[address].1.height,
                    self.dead@[address].1.format,
                ),
            ),
            !self.dead@.contains_key(address) ==> r is None,
    {
        match self.dead.get(&address) {
            Some(entry) => Some((entry.1.width, entry.1.height, entry.1.format)),
            None => None,
        }
    }
}

// ---------------------------------------------------------------------------------------------
// Render statistics
// ---------------------------------------------------------------------------------------------

/// What `last_pass_draws` holds before any pass has closed.
pub const NO_PASS_YET: u64 = 0xffff_ffff_ffff_ffff;

/// The counters the render statistics report, on the thread that counts.
#[derive(Clone, Copy, Debug, PartialEq, Eq, Structural)]
pub struct Counters {
    pub passes: u64,
    /// Pipeline binds: state changes rather than draws.
    pub pipelines: u64,
    pub draws: u64,
    pub vertices: u64,
    pub empty_passes: u64,
    /// Draws the pass before the current one recorded; [`NO_PASS_YET`] when no pass has closed.
    pub last_pass_draws: u64,
    /// Draws recorded into the pass that is currently open.
    pub current_pass_draws: u64,
    pub bind_groups_created: u64,
    pub cache_hits: u64,
    pub cache_misses: u64,
}

/// One interval's worth of [`Counters`].
#[derive(Clone, Copy, Debug, PartialEq, Eq, Structural)]
pub struct RenderStats {
    pub passes: u64,
    pub pipelines: u64,
    pub draws: u64,
    pub vertices: u64,
    pub empty_passes: u64,
    pub last_pass_draws: u64,
    pub bind_groups_created: u64,
    pub cache_hits: u64,
    pub cache_misses: u64,
}

impl Counters {
    /// Nothing counted, and no pass closed yet.
    pub fn new() -> (c: Counters)
        ensures
            c == (Counters {
                passes: 0,
                pipelines: 0,
                draws: 0,
                vertices: 0,
                empty_passes: 0,
                last_pass_draws: NO_PASS_YET,
                current_pass_draws: 0,
                bind_groups_created: 0,
                cache_hits: 0,
                cache_misses: 0,
            }),
    {
        Counters {
            passes: 0,
            pipelines: 0,
            draws: 0,
            vertices: 0,
            empty_passes: 0,
            last_pass_draws: NO_PASS_YET,
            current_pass_draws: 0,
            bind_groups_created: 0,
            cache_hits: 0,
            cache_misses: 0,
        }
    }

    /// Counts a new pass, and closes the books on the one before it: its draws become the last
    /// pass's, and a pass that drew nothing is counted as empty.
    pub fn open_pass(&mut self)
        ensures
            *final(self) == (Counters {
                passes: old(self).passes.wrapping_add(1),
                last_pass_draws: old(self).current_pass_draws,
                current_pass_draws: 0,
                empty_passes: if old(self).current_pass_draws == 0 {
                    old(self).empty_passes.wrapping_add(1)
                } else {
                    old(self).empty_passes
                },
                ..*old(self)
            }),
    {
        self.passes = self.passes.wrapping_add(1);
        let previous = self.current_pass_draws;
        self.current_pass_draws = 0;
        self.last_pass_draws = previous;
        if previous == 0 {
            self.empty_passes = self.empty_passes.wrapping_add(1);
        }
    }

    /// Counts a pipeline bind.
    pub fn count_pipeline_bind(&mut self)
        ensures
            *final(self) == (Counters { pipelines: old(self).pipelines.wrapping_add(1), ..*old(self) }),
    {
        self.pipelines = self.pipelines.wrapping_add(1);
    }

    /// Counts a draw, in the totals and in the open pass.
    pub fn count_draw(&mut self)
        ensures
            *final(self) == (Counters {
                draws: old(self).draws.wrapping_add(1),
                current_pass_draws: old(self).current_pass_draws.wrapping_add(1),
                ..*old(self)
            }),
    {
        self.draws = self.draws.wrapping_add(1);
        self.current_pass_draws = self.current_pass_draws.wrapping_add(1);
    }

    /// Counts the vertices of a draw.
    pub fn count_vertices(&mut self, vertices: u64)
        ensures
            *final(self) == (Counters { vertices: old(self).vertices.wrapping_add(vertices), ..*old(self) }),
    {
        self.vertices = self.vertices.wrapping_add(vertices);
    }

    /// Counts bind groups that were built.
    pub fn count_bind_groups(&mut self, bind_groups: u64)
        ensures
            *final(self) == (Counters {
                bind_groups_created: old(self).bind_groups_created.wrapping_add(bind_groups),
                ..*old(self)
            }),
    {
        self.bind_groups_created = self.bind_groups_created.wrapping_add(bind_groups);
    }

    /// Counts a draw whose bind groups were found in the cache.
    pub fn count_cache_hit(&mut self)
        ensures
            *final(self) == (Counters { cache_hits: old(self).cache_hits.wrapping_add(1), ..*old(self) }),
    {
        self.cache_hits = self.cache_hits.wrapping_add(1);
    }

    /// Counts a draw whose bind groups had to be built.
    pub fn count_cache_miss(&mut self)
        ensures
            *final(self) == (Counters {
                cache_misses: old(self).cache_misses.wrapping_add(1),
                ..*old(self)
            }),
    {
        self.cache_misses = self.cache_misses.wrapping_add(1);
    }

    /// Reads every counter out and resets it. The last pass's draws go back to "no pass yet", and
    /// the open pass keeps counting.
    pub fn take(&mut self) -> (stats: RenderStats)
        ensures
            stats == (RenderStats {
                passes: old(self).passes,
                pipelines: old(self).pipelines,
                draws: old(self).draws,
                vertices: old(self).vertices,
                empty_passes: old(self).empty_passes,
                last_pass_draws: old(self).last_pass_draws,
                bind_groups_created: old(self).bind_groups_created,
                cache_hits: old(self).cache_hits,
                cache_misses: old(self).cache_misses,
            }),
            *final(self) == (Counters {
                passes: 0,
                pipelines: 0,
                draws: 0,
                vertices: 0,
                empty_passes: 0,
                last_pass_draws: NO_PASS_YET,
                current_pass_draws: old(self).current_pass_draws,
                bind_groups_created: 0,
                cache_hits: 0,
                cache_misses: 0,
            }),
    {
        let stats = RenderStats {
            passes: self.passes,
            pipelines: self.pipelines,
            draws: self.draws,
            vertices: self.vertices,
            empty_passes: self.empty_passes,
            last_pass_draws: self.last_pass_draws,
            bind_groups_created: self.bind_groups_created,
            cache_hits: self.cache_hits,
            cache_misses: self.cache_misses,
        };
        self.passes = 0;
        self.pipelines = 0;
        self.draws = 0;
        self.vertices = 0;
        self.empty_passes = 0;
        self.last_pass_draws = NO_PASS_YET;
        self.bind_groups_created = 0;
        self.cache_hits = 0;
        self.cache_misses = 0;
        stats
    }
}

// ---------------------------------------------------------------------------------------------
// Pass history
// ---------------------------------------------------------------------------------------------

/// How many distinct pipelines one pass's trace keeps.
pub const TRACE_PIPELINES: usize = 6;

/// How many passes and markers the history keeps.
pub const TRACE_HISTORY: usize = 16;

/// What one render pass was handed: how many draws, whether it cleared, whether it has a depth
/// attachment, what it drew into and which pipelines it bound.
pub struct PassTrace {
    pub draws: u64,
    pub clear: bool,
    pub depth: bool,
    pub target: String,
    pub pipelines: Vec<String>,
}

impl PassTrace {
    /// Records a draw.
    pub fn trace_draw(&mut self)
        ensures
            final(self).draws == old(self).draws.wrapping_add(1),
            final(self).pipelines@ == old(self).pipelines@,
    {
        self.draws = self.draws.wrapping_add(1);
    }

    /// Records a pipeline bind, keeping the first few distinct names.
    pub fn trace_pipeline(&mut self, name: &String)
        ensures
            final(self).draws == old(self).draws,
            ({
                let names = old(self).pipelines@.map_values(|p: String| p@);
                if names.len() < TRACE_PIPELINES && !names.contains(name@) {
                    final(self).pipelines@.map_values(|p: String| p@) == names.push(name@)
                } else {
                    final(self).pipelines@ == old(self).pipelines@
                }
            }),
    {
        let ghost names = self.pipelines@.map_values(|p: String| p@);
        if self.pipelines.len() < TRACE_PIPELINES {
            let mut seen = false;
            let mut i: usize = 0;
            while i < self.pipelines.len()
                invariant
                    i <= self.pipelines.len(),
                    names == self.pipelines@.map_values(|p: String| p@),
                    seen == names.take(i as int).contains(name@),
                decreases self.pipelines.len() - i,
            {
                assert(names.take(i as int + 1) =~= names.take(i as int).push(names[i as int]));
                if self.pipelines[i] == *name {
                    seen = true;
                    assert(names.take(i as int + 1)[i as int] == name@);
                }
                i = i + 1;
            }
            assert(names.take(self.pipelines.len() as int) =~= names);
            if !seen {
                self.pipelines.push(name.clone());
                assert(self.pipelines@.map_values(|p: String| p@) =~= names.push(name@));
            } else {
                assert(names.contains(name@));
            }
        }
    }
}

/// Records something that is not a render pass - the blit that presents a frame - in the history,
/// forgetting the oldest entry once the history is full.
pub fn trace_marker(traces: &mut Vec<PassTrace>, name: &String)
    requires
        old(traces)@.len() <= TRACE_HISTORY,
    ensures
        final(traces)@.len() <= TRACE_HISTORY,
        final(traces)@.len() > 0,
        final(traces)@.last().target@ == name@,
        final(traces)@.last().draws == 0,
        final(traces)@.last().pipelines@.len() == 0,
        old(traces)@.len() >= TRACE_HISTORY ==> final(traces)@.drop_last() == old(traces)@.drop_first(),
        old(traces)@.len() < TRACE_HISTORY ==> final(traces)@.drop_last() == old(traces)@,
{
    let ghost before = traces@;
    if traces.len() >= TRACE_HISTORY {
        traces.remove(0);
    }
    let ghost kept = traces@;
    traces.push(
        PassTrace {
            draws: 0,
            clear: false,
            depth: false,
            target: name.clone(),
            pipelines: Vec::new(),
        },
    );
    assert(traces@.drop_last() =~= kept);
}

// ---------------------------------------------------------------------------------------------
// Pipelines and encoders
// ---------------------------------------------------------------------------------------------

/// The handle the JVM holds for a command encoder: every recording shares one encoder, so the
/// handle carries nothing.
pub struct CommandEncoderHandle;

/// What a compiled pipeline is, besides its wgpu objects: the topology it was built with, its name,
/// its binding plan, and whether it has been reported as in use.
pub struct BlazePipeline {
    pub topology: PrimitiveTopology,
    pub name: String,
    pub plan: BindGroupPlan,
    pub logged: bool,
}

/// Whether a pipeline is being bound for the first time, which is the one bind worth a log line;
/// it is marked as reported either way.
pub fn log_pipeline_once(pipeline: &mut BlazePipeline) -> (first: bool)
    ensures
        first == !old(pipeline).logged,
        final(pipeline).logged,
        final(pipeline).topology == old(pipeline).topology,
        final(pipeline).name == old(pipeline).name,
        final(pipeline).plan == old(pipeline).plan,
{
    let was = pipeline.logged;
    pipeline.logged = true;
    !was
}

} // verus!
