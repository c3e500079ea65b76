//! The debug switches, and the marker files they replace.
//!
//! Every diagnostic this renderer has grew as a file in the run directory - `wgpu-dump-frames`,
//! `wgpu-no-bind-group-cache`, `wgpu-trace-dynamic-offsets`, `wgpu-dump-shaders` - because a file
//! needs no launcher support and no rebuild. They are options on the options screen now, and the
//! markers keep working: a flag is on when the setting is on *or* the marker exists. The two markers
//! that are spelled as an *off* switch win over the setting. The GPU timestamps, the PIX capture and
//! GPU-based validation follow their setting alone.
//!
//! [`DebugFlags::apply`] is what moves the settings into the flags the draw path reads; it runs
//! whenever the settings are loaded or sent, and says which flags changed so they can be logged.

use vstd::prelude::*;

use crate::pix::PixCapture;
use crate::settings::{DebugSettings, Settings};

verus! {

/// The marker file that turns the diagnostics on.
pub const DUMP_FRAMES_MARKER: &'static str = "wgpu-dump-frames";

/// The marker file that turns the bind group cache off.
pub const NO_BIND_GROUP_CACHE_MARKER: &'static str = "wgpu-no-bind-group-cache";

/// The marker file that turns dynamic offsets off.
pub const NO_DYNAMIC_OFFSETS_MARKER: &'static str = "wgpu-no-dynamic-offsets";

/// The marker file that turns the per-draw binding trace on.
pub const TRACE_DYNAMIC_OFFSETS_MARKER: &'static str = "wgpu-trace-dynamic-offsets";

/// The marker file that turns shader dumps on.
pub const DUMP_SHADERS_MARKER: &'static str = "wgpu-dump-shaders";

/// Which marker files exist, asked once per process.
#[derive(Clone, Copy, Debug, PartialEq, Eq, Structural)]
pub struct Markers {
    pub dump_frames: bool,
    pub no_bind_group_cache: bool,
    pub no_dynamic_offsets: bool,
    pub trace_dynamic_offsets: bool,
    pub dump_shaders: bool,
}

impl Markers {
    /// No marker file exists.
    pub fn none() -> (m: Markers)
        ensures
            !m.dump_frames,
            !m.no_bind_group_cache,
            !m.no_dynamic_offsets,
            !m.trace_dynamic_offsets,
            !m.dump_shaders,
    {
        Markers {
            dump_frames: false,
            no_bind_group_cache: false,
            no_dynamic_offsets: false,
            trace_dynamic_offsets: false,
            dump_shaders: false,
        }
    }
}

/// One of the flags the draw path reads.
#[derive(Clone, Copy, Debug, PartialEq, Eq, Structural)]
pub enum Flag {
    Diagnostics,
    BindGroupCache,
    DynamicOffsets,
    TraceDynamicOffsets,
    DumpShaders,
    GpuTimestamps,
    PixCapture,
    GpuBasedValidation,
}

/// A flag's name for the log, which is the one its setting has.
pub fn name(flag: Flag) -> (n: &'static str)
    ensures
        flag == Flag::Diagnostics ==> n@ == "diagnostics"@,
        flag == Flag::BindGroupCache ==> n@ == "bind group cache"@,
        flag == Flag::DynamicOffsets ==> n@ == "dynamic offsets"@,
        flag == Flag::TraceDynamicOffsets ==> n@ == "trace dynamic offsets"@,
        flag == Flag::DumpShaders ==> n@ == "dump shaders"@,
        flag == Flag::GpuTimestamps ==> n@ == "gpu timestamps"@,
        flag == Flag::PixCapture ==> n@ == "pix capture"@,
        flag == Flag::GpuBasedValidation ==> n@ == "gpu based validation"@,
{
    match flag {
        Flag::Diagnostics => "diagnostics",
        Flag::BindGroupCache => "bind group cache",
        Flag::DynamicOffsets => "dynamic offsets",
        Flag::TraceDynamicOffsets => "trace dynamic offsets",
        Flag::DumpShaders => "dump shaders",
        Flag::GpuTimestamps => "gpu timestamps",
        Flag::PixCapture => "pix capture",
        Flag::GpuBasedValidation => "gpu based validation",
    }
}

/// The flags the draw path reads.
#[derive(Clone, Copy, Debug, PartialEq, Eq, Structural)]
pub struct DebugFlags {
    /// Whether to report what the renderer is doing.
    pub diagnostics: bool,
    /// Whether a draw may reuse a bind group built for another draw at a different dynamic offset.
    pub bind_group_cache: bool,
    /// Whether uniform bindings carry their offset dynamically instead of baking it into the set.
    pub dynamic_offsets: bool,
    /// Whether every draw's bindings are logged.
    pub trace_dynamic_offsets: bool,
    /// Whether the GLSL that reaches the shader compiler is written out.
    pub dump_shaders: bool,
    /// Whether frame timings are measured with GPU timestamp queries.
    pub gpu_timestamps: bool,
    /// Whether a PIX timing capture has been asked for.
    pub pix_capture: bool,
    /// Whether the wgpu instance is created with the driver's GPU-based validation.
    pub gpu_based_validation: bool,
}

/// The flags the settings and the markers resolve to.
pub open spec fn resolved(d: DebugSettings, m: Markers) -> DebugFlags {
    DebugFlags {
        diagnostics: d.diagnostics || m.dump_frames,
        bind_group_cache: d.bind_group_cache && !m.no_bind_group_cache,
        dynamic_offsets: d.dynamic_offsets && !m.no_dynamic_offsets,
        trace_dynamic_offsets: d.trace_dynamic_offsets || m.trace_dynamic_offsets,
        dump_shaders: d.dump_shaders || m.dump_shaders,
        gpu_timestamps: d.gpu_timestamps,
        pix_capture: d.pix_capture,
        gpu_based_validation: d.gpu_based_validation,
    }
}

/// `flag` when `a` and `b` differ, nothing when they agree.
pub open spec fn change(flag: Flag, a: bool, b: bool) -> Seq<Flag> {
    if a != b {
        seq![flag]
    } else {
        Seq::empty()
    }
}

/// The flags that differ between `a` and `b`, in the order they are applied.
pub open spec fn changes(a: DebugFlags, b: DebugFlags) -> Seq<Flag> {
    change(Flag::Diagnostics, a.diagnostics, b.diagnostics) + change(
        Flag::BindGroupCache,
        a.bind_group_cache,
        b.bind_group_cache,
    ) + change(Flag::DynamicOffsets, a.dynamic_offsets, b.dynamic_offsets) + change(
        Flag::TraceDynamicOffsets,
        a.trace_dynamic_offsets,
        b.trace_dynamic_offsets,
    ) + change(Flag::DumpShaders, a.dump_shaders, b.dump_shaders) + change(
        Flag::GpuBasedValidation,
        a.gpu_based_validation,
        b.gpu_based_validation,
    ) + change(Flag::GpuTimestamps, a.gpu_timestamps, b.gpu_timestamps) + change(
        Flag::PixCapture,
        a.pix_capture,
        b.pix_capture,
    )
}

/// Stores `value` in `flag` and says whether that changed it.
pub fn set(flag: &mut bool, value: bool) -> (changed: bool)
    ensures
        *final(flag) == value,
        changed == (*old(flag) != value),
{
    let changed = *flag != value;
    *flag = value;
    changed
}

/// Records `flag` when it changed.
fn note(changed: bool, flag: Flag, log: &mut Vec<Flag>)
    ensures
        final(log)@ == old(log)@ + (if changed {
            seq![flag]
        } else {
            Seq::empty()
        }),
{
    if changed {
        log.push(flag);
    }
    assert(final(log)@ =~= old(log)@ + (if changed {
        seq![flag]
    } else {
        Seq::empty()
    }));
}

/// The flags that differ between `a` and `b`, in the order they are applied.
fn changes_between(a: &DebugFlags, b: &DebugFlags) -> (log: Vec<Flag>)
    ensures
        log@ == changes(*a, *b),
{
    let mut log: Vec<Flag> = Vec::new();
    note(a.diagnostics != b.diagnostics, Flag::Diagnostics, &mut log);
    note(a.bind_group_cache != b.bind_group_cache, Flag::BindGroupCache, &mut log);
    note(a.dynamic_offsets != b.dynamic_offsets, Flag::DynamicOffsets, &mut log);
    note(a.trace_dynamic_offsets != b.trace_dynamic_offsets, Flag::TraceDynamicOffsets, &mut log);
    note(a.dump_shaders != b.dump_shaders, Flag::DumpShaders, &mut log);
    note(a.gpu_based_validation != b.gpu_based_validation, Flag::GpuBasedValidation, &mut log);
    note(a.gpu_timestamps != b.gpu_timestamps, Flag::GpuTimestamps, &mut log);
    note(a.pix_capture != b.pix_capture, Flag::PixCapture, &mut log);
    log
}

impl DebugFlags {
    /// The flags before any settings were applied: the bind group cache and dynamic offsets on,
    /// everything else off.
    pub fn new() -> (f: DebugFlags)
        ensures
            !f.diagnostics,
            f.bind_group_cache,
            f.dynamic_offsets,
            !f.trace_dynamic_offsets,
            !f.dump_shaders,
            !f.gpu_timestamps,
            !f.pix_capture,
            !f.gpu_based_validation,
    {
        DebugFlags {
            diagnostics: false,
            bind_group_cache: true,
            dynamic_offsets: true,
            trace_dynamic_offsets: false,
            dump_shaders: false,
            gpu_timestamps: false,
            pix_capture: false,
            gpu_based_validation: false,
        }
    }

    pub fn diagnostics(&self) -> (r: bool)
        ensures
            r == self.diagnostics,
    {
        self.diagnostics
    }

    pub fn bind_group_cache(&self) -> (r: bool)
        ensures
            r == self.bind_group_cache,
    {
        self.bind_group_cache
    }

    pub fn dynamic_offsets(&self) -> (r: bool)
        ensures
            r == self.dynamic_offsets,
    {
        self.dynamic_offsets
    }

    pub fn trace_dynamic_offsets(&self) -> (r: bool)
        ensures
            r == self.trace_dynamic_offsets,
    {
        self.trace_dynamic_offsets
    }

    pub fn dump_shaders(&self) -> (r: bool)
        ensures
            r == self.dump_shaders,
    {
        self.dump_shaders
    }

    pub fn gpu_timestamps(&self) -> (r: bool)
        ensures
            r == self.gpu_timestamps,
    {
        self.gpu_timestamps
    }

    pub fn pix_capture(&self) -> (r: bool)
        ensures
            r == self.pix_capture,
    {
        self.pix_capture
    }

    pub fn gpu_based_validation(&self) -> (r: bool)
        ensures
            r == self.gpu_based_validation,
    {
        self.gpu_based_validation
    }

    /// Resolves every flag from the settings and the marker files, and says which flags changed,
    /// in the order they were applied.
    ///
    /// Two of the switches are the action itself rather than a flag read somewhere: the GPU
    /// timestamps are measured exactly while `gpu_timestamps` is on, and the PIX capture's switch,
    /// which its next tick follows, is set to the setting here. Both go by the setting alone.
    pub fn apply(&mut self, settings: &Settings, markers: &Markers, pix: &mut PixCapture) -> (changed:
        Vec<Flag>)
        ensures
            *final(self) == resolved(settings.debug_spec(), *markers),
            final(self).gpu_timestamps == settings.debug_spec().gpu_timestamps,
            changed@ == changes(*old(self), *final(self)),
            final(pix).wanted == settings.debug_spec().pix_capture,
            final(pix).stage == old(pix).stage,
            final(pix).frames == old(pix).frames,
    {
        let d = settings.debug();
        let next = DebugFlags {
            diagnostics: d.diagnostics || markers.dump_frames,
            bind_group_cache: d.bind_group_cache && !markers.no_bind_group_cache,
            dynamic_offsets: d.dynamic_offsets && !markers.no_dynamic_offsets,
            trace_dynamic_offsets: d.trace_dynamic_offsets || markers.trace_dynamic_offsets,
            dump_shaders: d.dump_shaders || markers.dump_shaders,
            gpu_timestamps: d.gpu_timestamps,
            pix_capture: d.pix_capture,
            gpu_based_validation: d.gpu_based_validation,
        };
        let log = changes_between(self, &next);
        *self = next;
        pix.set_capturing(d.pix_capture);
        log
    }
}

/// Applying the same settings twice changes nothing the second time.
pub proof fn lemma_apply_is_idempotent(flags: DebugFlags, d: DebugSettings, m: Markers)
    requires
        flags == resolved(d, m),
    ensures
        changes(flags, resolved(d, m)) =~= Seq::<Flag>::empty(),
{
}

} // verus!
