//! The renderer's settings: what the options screen edits and the config file holds.
//!
//! Every setting has a default that is what the renderer did before the setting existed, so a config
//! written by an older build loads with the missing settings at those defaults. The debug switches
//! are gathered into [`DebugSettings`], which is what [`crate::debug`] resolves its flags from.

use vstd::prelude::*;
use vstd::string::*;

use crate::text::{push_char, spec_digit};

verus! {

/// The section the options screen puts a debug switch under.
pub const DEBUG_SECTION: &'static str = "Debug";

/// The section for the switches that decide how the frame is rendered.
pub const OPTIMIZATION_SECTION: &'static str = "Optimization";

/// Renderer config, relative to the game directory.
pub const CONFIG_PATH: &'static str = "config/wgpu-mc-renderer.json";

/// Where the config used to live, before this crate was built for more than Fabric.
pub const LEGACY_CONFIG_PATH: &'static str = "config/fabric/wgpu-mc-renderer.json";

/// Where the renderer config is read and written, under the game directory: a config left at the
/// old location is still used there; anywhere else the config lives at the current one.
pub fn config_file(legacy_exists: bool) -> (path: &'static str)
    ensures
        path@ == if legacy_exists {
            LEGACY_CONFIG_PATH@
        } else {
            CONFIG_PATH@
        },
{
    if legacy_exists {
        LEGACY_CONFIG_PATH
    } else {
        CONFIG_PATH
    }
}

/// An on/off setting.
pub struct BoolSetting {
    pub value: bool,
}

impl BoolSetting {
    /// A setting whose default is not `true`, which is what [`Default`] gives every bool.
    pub fn of(value: bool) -> (s: BoolSetting)
        ensures
            s.value == value,
    {
        BoolSetting { value }
    }
}

impl Default for BoolSetting {
    fn default() -> (s: Self)
        ensures
            s.value,
    {
        BoolSetting { value: true }
    }
}

/// An integer setting a player moves between `min` and `max` in `step`s.
pub struct IntSetting {
    pub min: i32,
    pub max: i32,
    pub step: i32,
    pub value: i32,
}

impl IntSetting {
    /// A setting a player can move between `min` and `max` in `step`s.
    pub fn of(min: i32, max: i32, step: i32, value: i32) -> (s: Self)
        ensures
            s.min == min,
            s.max == max,
            s.step == step,
            s.value == value,
    {
        IntSetting { min, max, step, value }
    }

    pub fn get_min(&self) -> (r: i32)
        ensures
            r == self.min,
    {
        self.min
    }

    pub fn get_step(&self) -> (r: i32)
        ensures
            r == self.step,
    {
        self.step
    }

    pub fn get_max(&self) -> (r: i32)
        ensures
            r == self.max,
    {
        self.max
    }
}

impl Default for IntSetting {
    fn default() -> (s: Self)
        ensures
            s.min == 0,
            s.max == 100,
            s.step == 1,
            s.value == 0,
    {
        IntSetting { min: 0, max: 100, step: 1, value: 0 }
    }
}

/// The default of a setting that is off unless a player asks for it.
pub fn off() -> (s: BoolSetting)
    ensures
        !s.value,
{
    BoolSetting::of(false)
}

/// The default of `frames_in_flight`: one frame recorded ahead of the one being presented, in a
/// range of one to three.
pub fn two_frames_in_flight() -> (s: IntSetting)
    ensures
        s.min == 1,
        s.max == 3,
        s.step == 1,
        s.value == 2,
{
    IntSetting::of(1, 3, 1, 2)
}

/// The graphics API the wgpu instance is created with, in the order the options screen offers
/// them.
#[derive(PartialEq, Eq, Structural, Clone, Copy, Debug)]
pub enum GraphicsBackend {
    Vulkan,
    DirectX12,
}

/// The platform the game runs on, as far as the backends care.
#[derive(PartialEq, Eq, Structural, Clone, Copy, Debug)]
pub struct Platform {
    pub windows: bool,
    pub linux: bool,
}

impl Default for GraphicsBackend {
    fn default() -> (b: Self)
        ensures
            b == GraphicsBackend::Vulkan,
    {
        GraphicsBackend::Vulkan
    }
}

/// The backends in the order the options screen cycles through them.
pub open spec fn spec_variants() -> Seq<GraphicsBackend> {
    seq![GraphicsBackend::Vulkan, GraphicsBackend::DirectX12]
}

impl GraphicsBackend {
    /// Whether this backend can run on the given platform: Vulkan on Windows and Linux, DirectX 12
    /// only on Windows.
    pub fn is_available_here(self, platform: Platform) -> (r: bool)
        ensures
            r == match self {
                GraphicsBackend::Vulkan => platform.windows || platform.linux,
                GraphicsBackend::DirectX12 => platform.windows,
            },
    {
        match self {
            GraphicsBackend::Vulkan => platform.windows || platform.linux,
            GraphicsBackend::DirectX12 => platform.windows,
        }
    }

    /// The backend to try when this one cannot be created: the other one.
    pub fn alternative(self) -> (b: Self)
        ensures
            b == match self {
                GraphicsBackend::Vulkan => GraphicsBackend::DirectX12,
                GraphicsBackend::DirectX12 => GraphicsBackend::Vulkan,
            },
            b != self,
    {
        match self {
            GraphicsBackend::Vulkan => GraphicsBackend::DirectX12,
            GraphicsBackend::DirectX12 => GraphicsBackend::Vulkan,
        }
    }

    /// Every backend, in the order the options screen cycles through them.
    pub fn variants() -> (v: Vec<GraphicsBackend>)
        ensures
            v@ == spec_variants(),
    {
        let v = vec![GraphicsBackend::Vulkan, GraphicsBackend::DirectX12];
        assert(v@ =~= spec_variants());
        v
    }

    /// The name the options screen shows when no translation names the backend.
    pub fn display_name(self) -> (name: &'static str)
        ensures
            self == GraphicsBackend::Vulkan ==> name@ == "Vulkan"@,
            self == GraphicsBackend::DirectX12 ==> name@ == "DirectX 12"@,
    {
        match self {
            GraphicsBackend::Vulkan => "Vulkan",
            GraphicsBackend::DirectX12 => "DirectX 12",
        }
    }

    /// Where this backend is in [`GraphicsBackend::variants`].
    pub fn position(self) -> (i: usize)
        ensures
            i < spec_variants().len(),
            spec_variants()[i as int] == self,
    {
        match self {
            GraphicsBackend::Vulkan => 0,
            GraphicsBackend::DirectX12 => 1,
        }
    }
}

/// The backends to try bringing the renderer up on, in order: the one the settings ask for, then
/// the other, each only where it can run on this platform. The first that comes up is used.
pub fn backend_attempts(requested: GraphicsBackend, platform: Platform) -> (attempts: Vec<
    GraphicsBackend,
>)
    ensures
        attempts@ == seq![requested, requested.spec_alternative()].filter(
            |b: GraphicsBackend| b.spec_available(platform),
        ),
{
    let mut attempts: Vec<GraphicsBackend> = Vec::new();
    let other = requested.alternative();
    if requested.is_available_here(platform) {
        attempts.push(requested);
    }
    if other.is_available_here(platform) {
        attempts.push(other);
    }
    proof {
        let both = seq![requested, other];
        reveal_with_fuel(Seq::<_>::filter, 3);
        assert(both.drop_last() =~= seq![requested]);
        assert(seq![requested].drop_last() =~= Seq::<GraphicsBackend>::empty());
    }
    attempts
}

impl GraphicsBackend {
    /// Whether this backend can run on the given platform.
    pub open spec fn spec_available(self, platform: Platform) -> bool {
        match self {
            GraphicsBackend::Vulkan => platform.windows || platform.linux,
            GraphicsBackend::DirectX12 => platform.windows,
        }
    }

    /// The other backend.
    pub open spec fn spec_alternative(self) -> GraphicsBackend {
        match self {
            GraphicsBackend::Vulkan => GraphicsBackend::DirectX12,
            GraphicsBackend::DirectX12 => GraphicsBackend::Vulkan,
        }
    }
}

/// The backend the renderer is brought up on: the settings' choice, or Vulkan before the settings
/// are loaded.
pub fn selected_backend(settings: Option<&Settings>) -> (b: GraphicsBackend)
    ensures
        b == match settings {
            Some(s) => variant_at(s.backend.selected as int),
            None => GraphicsBackend::Vulkan,
        },
{
    match settings {
        Some(s) => s.graphics_backend(),
        None => GraphicsBackend::Vulkan,
    }
}

/// A setting value that is named in the mod's language file.
pub trait LanguageKey {
    fn lang_key(&self) -> &'static str;
}

impl LanguageKey for GraphicsBackend {
    fn lang_key(&self) -> (key: &'static str)
        ensures
            *self == GraphicsBackend::Vulkan ==> key@ == "wgpu_mc.option.backend.vulkan"@,
            *self == GraphicsBackend::DirectX12 ==> key@ == "wgpu_mc.option.backend.directx12"@,
    {
        match self {
            GraphicsBackend::Vulkan => "wgpu_mc.option.backend.vulkan",
            GraphicsBackend::DirectX12 => "wgpu_mc.option.backend.directx12",
        }
    }
}

/// A choice between the variants of an enum, by position.
pub struct EnumSetting {
    pub selected: usize,
}

impl Default for EnumSetting {
    fn default() -> (s: Self)
        ensures
            s.selected == 0,
    {
        EnumSetting { selected: 0 }
    }
}

/// The backend an index names, or the default one when it names none.
pub open spec fn variant_at(selected: int) -> GraphicsBackend {
    if 0 <= selected < spec_variants().len() {
        spec_variants()[selected]
    } else {
        GraphicsBackend::Vulkan
    }
}

impl EnumSetting {
    /// The setting that selects `variant`.
    pub fn from_variant(variant: GraphicsBackend) -> (s: EnumSetting)
        ensures
            s.selected < spec_variants().len(),
            spec_variants()[s.selected as int] == variant,
    {
        EnumSetting { selected: variant.position() }
    }

    /// The backend this setting selects.
    ///
    /// An index that does not name a variant (a hand-edited config file, or one written by a build
    /// that offered more variants) falls back to the default backend rather than panicking.
    pub fn get_variant(&self) -> (b: GraphicsBackend)
        ensures
            b == variant_at(self.selected as int),
    {
        let variants = GraphicsBackend::variants();
        if self.selected < variants.len() {
            variants[self.selected]
        } else {
            GraphicsBackend::default()
        }
    }
}

/// The renderer's settings, in the order the options screen shows them.
pub struct Settings {
    pub backend: EnumSetting,
    pub vsync: BoolSetting,
    /// How many frames the CPU may record ahead of the GPU.
    pub frames_in_flight: IntSetting,
    /// The two switches that change how the frame is rendered, under the `Optimization` heading.
    pub bind_group_cache: BoolSetting,
    pub dynamic_offsets: BoolSetting,
    /// Everything below is a debug switch, under the `Debug` heading.
    pub gpu_based_validation: BoolSetting,
    pub logging: BoolSetting,
    pub diagnostics: BoolSetting,
    pub trace_dynamic_offsets: BoolSetting,
    pub binding_verbosity: BoolSetting,
    pub dump_shaders: BoolSetting,
    pub gpu_timestamps: BoolSetting,
    pub pix_capture: BoolSetting,
    /// Whether the section feed is timed, phase by phase.
    pub section_timing: BoolSetting,
}

/// Every debug switch the renderer has, as the settings hold them.
#[derive(Clone, Copy, Debug, PartialEq, Eq, Structural)]
pub struct DebugSettings {
    pub gpu_based_validation: bool,
    /// Whether the renderer's diagnostic log lines are written.
    pub logging: bool,
    /// Whether its dumps are written.
    pub diagnostics: bool,
    pub bind_group_cache: bool,
    pub dynamic_offsets: bool,
    pub trace_dynamic_offsets: bool,
    pub binding_verbosity: bool,
    pub dump_shaders: bool,
    pub gpu_timestamps: bool,
    pub pix_capture: bool,
    pub section_timing: bool,
}

/// `value` kept within `low..=high`.
pub open spec fn clamped(value: int, low: int, high: int) -> int {
    if value < low {
        low
    } else if value > high {
        high
    } else {
        value
    }
}

impl Default for Settings {
    /// The defaults are what the renderer did before the settings existed: Vulkan, vsync on, two
    /// frames in flight, the bind group cache and dynamic offsets on, every debug switch off.
    fn default() -> (s: Self)
        ensures
            s.backend.selected == 0,
            s.vsync.value,
            s.frames_in_flight.min == 1,
            s.frames_in_flight.max == 3,
            s.frames_in_flight.step == 1,
            s.frames_in_flight.value == 2,
            s.bind_group_cache.value,
            s.dynamic_offsets.value,
            !s.gpu_based_validation.value,
            !s.logging.value,
            !s.diagnostics.value,
            !s.trace_dynamic_offsets.value,
            !s.binding_verbosity.value,
            !s.dump_shaders.value,
            !s.gpu_timestamps.value,
            !s.pix_capture.value,
            !s.section_timing.value,
    {
        Settings {
            backend: EnumSetting::from_variant(GraphicsBackend::default()),
            vsync: BoolSetting::default(),
            frames_in_flight: two_frames_in_flight(),
            gpu_based_validation: BoolSetting::of(false),
            logging: BoolSetting::of(false),
            diagnostics: BoolSetting::of(false),
            bind_group_cache: BoolSetting::of(true),
            dynamic_offsets: BoolSetting::of(true),
            trace_dynamic_offsets: BoolSetting::of(false),
            binding_verbosity: BoolSetting::of(false),
            dump_shaders: BoolSetting::of(false),
            gpu_timestamps: BoolSetting::of(false),
            pix_capture: BoolSetting::of(false),
            section_timing: BoolSetting::of(false),
        }
    }
}

impl Settings {
    /// The debug switches of these settings.
    pub open spec fn debug_spec(&self) -> DebugSettings {
        DebugSettings {
            gpu_based_validation: self.gpu_based_validation.value,
            logging: self.logging.value,
            diagnostics: self.diagnostics.value,
            bind_group_cache: self.bind_group_cache.value,
            dynamic_offsets: self.dynamic_offsets.value,
            trace_dynamic_offsets: self.trace_dynamic_offsets.value,
            binding_verbosity: self.binding_verbosity.value,
            dump_shaders: self.dump_shaders.value,
            gpu_timestamps: self.gpu_timestamps.value,
            pix_capture: self.pix_capture.value,
            section_timing: self.section_timing.value,
        }
    }

    /// How many frames may be in flight: the setting, kept within one to three, since the config is
    /// a text file and a hand-edited `0` or `9` has to mean one frame or three.
    pub fn frames_in_flight(&self) -> (n: usize)
        ensures
            n == clamped(self.frames_in_flight.value as int, 1, 3),
            1 <= n <= 3,
    {
        let value = self.frames_in_flight.value;
        if value < 1 {
            1
        } else if value > 3 {
            3
        } else {
            value as usize
        }
    }

    /// The graphics API to build the wgpu instance with.
    pub fn graphics_backend(&self) -> (b: GraphicsBackend)
        ensures
            b == variant_at(self.backend.selected as int),
    {
        self.backend.get_variant()
    }

    /// The debug switches, as they stand.
    pub fn debug(&self) -> (d: DebugSettings)
        ensures
            d == self.debug_spec(),
            d.gpu_based_validation == self.gpu_based_validation.value,
            d.logging == self.logging.value,
            d.diagnostics == self.diagnostics.value,
            d.bind_group_cache == self.bind_group_cache.value,
            d.dynamic_offsets == self.dynamic_offsets.value,
            d.trace_dynamic_offsets == self.trace_dynamic_offsets.value,
            d.binding_verbosity == self.binding_verbosity.value,
            d.dump_shaders == self.dump_shaders.value,
            d.gpu_timestamps == self.gpu_timestamps.value,
            d.pix_capture == self.pix_capture.value,
            d.section_timing == self.section_timing.value,
    {
        DebugSettings {
            gpu_based_validation: self.gpu_based_validation.value,
            logging: self.logging.value,
            diagnostics: self.diagnostics.value,
            bind_group_cache: self.bind_group_cache.value,
            dynamic_offsets: self.dynamic_offsets.value,
            trace_dynamic_offsets: self.trace_dynamic_offsets.value,
            binding_verbosity: self.binding_verbosity.value,
            dump_shaders: self.dump_shaders.value,
            gpu_timestamps: self.gpu_timestamps.value,
            pix_capture: self.pix_capture.value,
            section_timing: self.section_timing.value,
        }
    }
}

/// What the options screen shows about one setting.
pub struct SettingInfo {
    pub desc: &'static str,
    pub needs_restart: bool,
    /// Which section of the options screen this belongs to; absent for the plain ones.
    pub section: Option<&'static str>,
}

impl SettingInfo {
    /// A setting that sits in the options screen's list without a heading of its own.
    pub fn new(desc: &'static str, needs_restart: bool) -> (info: SettingInfo)
        ensures
            info.desc == desc,
            info.needs_restart == needs_restart,
            info.section is None,
    {
        SettingInfo { desc, needs_restart, section: None }
    }

    /// A setting under the options screen's `Debug` sub-heading.
    pub fn debug(desc: &'static str, needs_restart: bool) -> (info: SettingInfo)
        ensures
            info.desc == desc,
            info.needs_restart == needs_restart,
            info.section == Some(DEBUG_SECTION),
    {
        SettingInfo { desc, needs_restart, section: Some(DEBUG_SECTION) }
    }

    /// A setting under the options screen's `Optimization` sub-heading.
    pub fn optimization(desc: &'static str, needs_restart: bool) -> (info: SettingInfo)
        ensures
            info.desc == desc,
            info.needs_restart == needs_restart,
            info.section == Some(OPTIMIZATION_SECTION),
    {
        SettingInfo { desc, needs_restart, section: Some(OPTIMIZATION_SECTION) }
    }
}

/// A setting that selects a backend reads back as that backend.
pub proof fn lemma_backend_round_trip(b: GraphicsBackend, selected: int)
    requires
        0 <= selected < spec_variants().len(),
        spec_variants()[selected] == b,
    ensures
        variant_at(selected) == b,
{
}

// ---------------------------------------------------------------------------------------------
// The schema the options screen builds its widgets from
// ---------------------------------------------------------------------------------------------

/// What the options screen says about `backend`.
pub const BACKEND_DESC: &'static str = "Graphics API wgpu renders with. Vulkan is available on Windows and Linux, DirectX 12 \
    only on Windows. The two are not interchangeable at runtime: the wgpu instance, the \
    adapter and every resource below it are created for one backend and live as long as \
    the game does, so switching takes effect on the next launch.";

/// What the options screen says about `vsync`.
pub const VSYNC_DESC: &'static str = "Whether or not to sync the framerate to the display's framerate.May reduce screen \
    tearing, on the cost of added latency. Takes effect as soon as it is applied: the \
    swapchain is reconfigured with the other present mode.";

/// What the options screen says about `frames_in_flight`.
pub const FRAMES_IN_FLIGHT_DESC: &'static str = "How many frames the CPU may record ahead of the GPU. One is a full stall on every \
    frame and two hides the recording behind the GPU's own work; three adds a frame of \
    latency for a little more slack. Applies to the next present, without a restart.";

/// What the options screen says about `bind_group_cache`.
pub const BIND_GROUP_CACHE_DESC: &'static str = "Reuse a bind group between draws that bind the same resources at different dynamic \
    offsets, instead of building one per draw. On by default, and worth about a \
    `wgpu::BindGroup` per draw when it is turned off - which is what the frame time in a \
    scene with many small draws is made of. Turning it off is also how the cache is \
    ruled in or out as the cause of a rendering difference. This is the \
    `wgpu-no-bind-group-cache` marker as a switch, and the marker still turns the cache \
    off.";

/// What the options screen says about `dynamic_offsets`.
pub const DYNAMIC_OFFSETS_DESC: &'static str = "Bind uniform buffers with an offset instead of baking the offset into the bind \
    group. On by default, and it is what makes the bind group cache worth having: \
    Minecraft re-binds a buffer at a new offset for almost every draw. Turning it off \
    bakes the offset again, which is what the renderer did before dynamic offsets \
    existed - more bind groups built, and more memory spent on them. This is the \
    `wgpu-no-dynamic-offsets` marker as a switch.";

/// What the options screen says about `gpu_based_validation`.
pub const GPU_BASED_VALIDATION_DESC: &'static str = "Ask the driver's own validation layer to check what the GPU is actually asked to do, \
    rather than only what wgpu was asked to record. It catches the mistakes host-side \
    validation cannot see - a resource read after it was freed, a shader reading past a \
    binding, a barrier in the wrong place - and reports them through the driver's debug \
    output. It costs performance and it is a development tool, so it is off by default. \
    The wgpu instance is created with this flag, so switching takes effect on the next \
    launch.";

/// What the options screen says about `logging`.
pub const LOGGING_DESC: &'static str = "Write the renderer's diagnostic log lines: each pipeline the first time it is used, \
    the plan its bindings resolve against, each render pass with its draw count, the \
    draw and submission counters once a second, the sprite-animation pass counter, and \
    the reports for the uploads and uniforms the renderer verifies as it goes. Off by \
    default, because it is a line per pipeline and a line per second rather than a line \
    per frame - and it is a *log* switch: the dumps below are a separate one, so a run \
    can write a frame out without filling the log with counters. This is the \
    `wgpu-logging` marker as a switch, and the `wgpu_mc.diagnostics` system property or \
    `WGPU_MC_DIAGNOSTICS` environment variable still turns it on from outside the game.";

/// What the options screen says about `diagnostics`.
pub const DIAGNOSTICS_DESC: &'static str = "Write the renderer's dumps out as files: the frame the game is showing, the textures \
    it is showing it with, and a sprite atlas after the frame or two it takes Minecraft \
    to compose one. The dump itself is asked for by a `wgpu-dump-now` file in the run \
    directory, because a dump is about one specific frame and the interesting one is \
    rarely the one a switch was flipped on at; this is the switch that lets the ask \
    through, and `wgpu-dump-frames` turns both on. What the renderer *says* while it \
    does it is the logging switch above, so a diagnostic session is usually both.";

/// What the options screen says about `trace_dynamic_offsets`.
pub const TRACE_DYNAMIC_OFFSETS_DESC: &'static str = "Log every draw's bindings - the plan, each binding in slot order, and the offset \
    that travels with it - and the key the bind group cache was asked for. Very loud: it \
    is a line per draw, so it is meant to be turned on for a few frames and read back. \
    This is the `wgpu-trace-dynamic-offsets` marker as a switch.";

/// What the options screen says about `binding_verbosity`.
pub const BINDING_VERBOSITY_DESC: &'static str = "Log how every binding name was resolved against a pipeline's binding plan, and what \
    the plan was left holding: a name that only matched through the shim's `_wm_texshim` \
    / `_wm_sampler` suffix, the names a plan can be bound under when one of them is not \
    in it, and the slots a pipeline change left empty. This is the detailed version of \
    the warning the renderer always prints when a binding is not in the plan at all, and \
    it is the switch to turn on when a shader reads nothing and the question is which \
    name it was looking for. This is the `wgpu-binding-log` marker as a switch.";

/// What the options screen says about `dump_shaders`.
pub const DUMP_SHADERS_DESC: &'static str = "Write the GLSL that reaches the shader compiler into `wgpu-shaders/`, after this \
    renderer's preprocessing. The source naga sees is not the source Minecraft ships - \
    uniforms are annotated with the binding the plan gave them, implicit blocks are \
    added, samplers are split - and it is the only place that shows which of those went \
    wrong. This is the `wgpu-dump-shaders` marker as a switch.";

/// What the options screen says about `gpu_timestamps`.
pub const GPU_TIMESTAMPS_DESC: &'static str = "Measure how long each presented frame takes on the GPU, with timestamp queries at \
    the start of the frame's first submission and the end of its last one. The number is \
    the GPU's own clock, so it says what the driver actually spent - the frame's passes, \
    not the CPU time spent recording them - and it is reported with the render stats. \
    Nothing is measured while this is off: the queries are written into the frame's \
    command stream, so a disabled switch costs nothing at all.";

/// What the options screen says about `pix_capture`.
pub const PIX_CAPTURE_DESC: &'static str = "Load PIX's capture libraries into the game and let PIX inspect it: \
    `WinPixGpuCapturer.dll`, so PIX can attach for a GPU capture at all, and \
    `WinPixTimingCapturer.dll`, which programmatic timing captures run through. Both are \
    loaded from the newest PIX installation on the machine, before the D3D12 device is \
    created - which is why this needs a restart: a process that loads the GPU capturer \
    after its device exists is one PIX refuses to attach to. With it on, the game can be \
    attached to from PIX (or launched through it), and switching this off and on again \
    while it runs takes a `wgpu-mc-capture-N.wpix` timing capture of 600 frames. That \
    capture records through ETW providers, and only an elevated process may create \
    sessions for them, so the game itself has to run as an administrator - starting \
    `gradlew` from an administrator terminal is not enough, because Gradle reuses a \
    daemon started without elevation and the game, forked by that daemon, inherits its \
    token: run `gradlew --stop` first, or pass `--no-daemon`. Without it the capture is \
    refused with E_ACCESSDENIED, and the log says whether the process was elevated. A \
    capture holds everything the capture API can be asked for: GPU timing, CPU samples \
    with call stacks at 4 kHz, and the memory events - file IO, VirtualAlloc, HeapAlloc, \
    custom allocator and page faults - whose tables (`MemoryEventRanges`, \
    `MemoryPairing`, `PageFaults`, `FileIORange`) are empty without them. That is also \
    what makes a capture big and slow: 1.7 to 2.7 GB for 600 frames rather than a few \
    hundred megabytes, and the frame rate during a capture drops to a few frames per \
    second while those events are recorded. Function names come from a PDB the build \
    writes beside the library (`rust/Cargo.toml` asks for line tables), which PIX reads \
    when it opens the capture - without it every native frame in the capture is an \
    address and its function information stays empty. `GPU resources`/API objects, \
    memory access sampling and kernel image information are options only PIX's own \
    timing-capture dialog has: they are not fields of the API's parameter struct, so a \
    capture with them is one taken from PIX's UI, which is what the loaded GPU capturer \
    makes possible. RivaTuner Statistics Server - MSI Afterburner's on-screen display - \
    hooks D3D12 as well, and with its `RTSSHooks64.dll` in the process the game crashes \
    inside RTSS's own present hook once these libraries are loaded, capture or no \
    capture: the log says so, PIX's libraries are left unloaded in that case, and a \
    `wgpu-pix-with-rtss` file next to the game overrules that. An RTSS profile for the \
    `java.exe` the game runs as, with Application detection level `None`, is what makes \
    the switch work with RTSS installed. Nothing happens at all on a machine without \
    PIX: the log says which library was missing.";

/// What the options screen says about `section_timing`.
pub const SECTION_TIMING_DESC: &'static str = "Time the section feed, phase by phase, and report the averages. The feed is what \
    runs on Minecraft's chunk-build threads - the light lookup, the block data and the \
    call into the native side - so this is the switch that answers \"what does one \
    section rebuild cost, and which part of it\" with three numbers instead of a guess. \
    The averages appear on the F3 screen while it is on, and the counts are per offer, \
    so a quiet frame is one with nothing to show. Off by default: it is a clock read per \
    phase per section, and closing it costs nothing at all. This is the \
    `wgpu-section-timing` marker as a switch.";

/// What the options screen shows about the setting that picks a backend: the plain fields, and the
/// backends' display names and translation keys, in the order the screen cycles through them.
pub struct EnumSettingInfo {
    pub desc: &'static str,
    pub needs_restart: bool,
    pub section: Option<&'static str>,
    pub variants: Vec<&'static str>,
    pub variant_keys: Vec<&'static str>,
}

/// The characters of each string.
pub open spec fn str_views(items: Seq<&'static str>) -> Seq<Seq<char>> {
    items.map_values(|s: &'static str| s@)
}

impl EnumSettingInfo {
    /// The backend setting's schema, with every backend's name and key.
    pub fn new(desc: &'static str, needs_restart: bool) -> (info: EnumSettingInfo)
        ensures
            info.desc == desc,
            info.needs_restart == needs_restart,
            info.section is None,
            str_views(info.variants@) == seq!["Vulkan"@, "DirectX 12"@],
            str_views(info.variant_keys@) == seq![
                "wgpu_mc.option.backend.vulkan"@,
                "wgpu_mc.option.backend.directx12"@,
            ],
    {
        let backends = GraphicsBackend::variants();
        let mut variants: Vec<&'static str> = Vec::new();
        let mut variant_keys: Vec<&'static str> = Vec::new();
        let mut i: usize = 0;
        while i < backends.len()
            invariant
                i <= backends.len(),
                backends@ == spec_variants(),
                str_views(variants@) == seq!["Vulkan"@, "DirectX 12"@].take(i as int),
                str_views(variant_keys@) == seq![
                    "wgpu_mc.option.backend.vulkan"@,
                    "wgpu_mc.option.backend.directx12"@,
                ].take(i as int),
            decreases backends.len() - i,
        {
            let name = backends[i].display_name();
            let key = backends[i].lang_key();
            let ghost names_before = str_views(variants@);
            let ghost keys_before = str_views(variant_keys@);
            variants.push(name);
            variant_keys.push(key);
            assert(str_views(variants@) =~= names_before.push(name@));
            assert(str_views(variant_keys@) =~= keys_before.push(key@));
            assert(seq!["Vulkan"@, "DirectX 12"@].take(i as int + 1) =~= seq![
                "Vulkan"@,
                "DirectX 12"@,
            ].take(i as int).push(name@));
            assert(seq!["wgpu_mc.option.backend.vulkan"@, "wgpu_mc.option.backend.directx12"@].take(
                i as int + 1,
            ) =~= seq!["wgpu_mc.option.backend.vulkan"@, "wgpu_mc.option.backend.directx12"@].take(
                i as int,
            ).push(key@));
            i = i + 1;
        }
        assert(seq!["Vulkan"@, "DirectX 12"@].take(2) =~= seq!["Vulkan"@, "DirectX 12"@]);
        assert(seq!["wgpu_mc.option.backend.vulkan"@, "wgpu_mc.option.backend.directx12"@].take(2)
            =~= seq!["wgpu_mc.option.backend.vulkan"@, "wgpu_mc.option.backend.directx12"@]);
        EnumSettingInfo { desc, needs_restart, section: None, variants, variant_keys }
    }
}

/// What the options screen shows about every setting, in the order it shows them - which has to be
/// the order of [`Settings`], because the rows come from the settings and their headings from
/// here.
pub struct SettingsInfo {
    pub backend: EnumSettingInfo,
    pub vsync: SettingInfo,
    pub frames_in_flight: SettingInfo,
    pub bind_group_cache: SettingInfo,
    pub dynamic_offsets: SettingInfo,
    pub gpu_based_validation: SettingInfo,
    pub logging: SettingInfo,
    pub diagnostics: SettingInfo,
    pub trace_dynamic_offsets: SettingInfo,
    pub binding_verbosity: SettingInfo,
    pub dump_shaders: SettingInfo,
    pub gpu_timestamps: SettingInfo,
    pub pix_capture: SettingInfo,
    pub section_timing: SettingInfo,
}

/// The schema of the renderer's settings.
pub fn settings_info() -> (info: SettingsInfo)
    ensures
            info.backend.desc == BACKEND_DESC && info.backend.needs_restart && info.backend.section is None,
            info.vsync.desc == VSYNC_DESC && !info.vsync.needs_restart && info.vsync.section is None,
            info.frames_in_flight.desc == FRAMES_IN_FLIGHT_DESC && !info.frames_in_flight.needs_restart && info.frames_in_flight.section is None,
            info.bind_group_cache.desc == BIND_GROUP_CACHE_DESC && !info.bind_group_cache.needs_restart && info.bind_group_cache.section == Some(OPTIMIZATION_SECTION),
            info.dynamic_offsets.desc == DYNAMIC_OFFSETS_DESC && !info.dynamic_offsets.needs_restart && info.dynamic_offsets.section == Some(OPTIMIZATION_SECTION),
            info.gpu_based_validation.desc == GPU_BASED_VALIDATION_DESC && info.gpu_based_validation.needs_restart && info.gpu_based_validation.section == Some(DEBUG_SECTION),
            info.logging.desc == LOGGING_DESC && !info.logging.needs_restart && info.logging.section == Some(DEBUG_SECTION),
            info.diagnostics.desc == DIAGNOSTICS_DESC && !info.diagnostics.needs_restart && info.diagnostics.section == Some(DEBUG_SECTION),
            info.trace_dynamic_offsets.desc == TRACE_DYNAMIC_OFFSETS_DESC && !info.trace_dynamic_offsets.needs_restart && info.trace_dynamic_offsets.section == Some(DEBUG_SECTION),
            info.binding_verbosity.desc == BINDING_VERBOSITY_DESC && !info.binding_verbosity.needs_restart && info.binding_verbosity.section == Some(DEBUG_SECTION),
            info.dump_shaders.desc == DUMP_SHADERS_DESC && !info.dump_shaders.needs_restart && info.dump_shaders.section == Some(DEBUG_SECTION),
            info.gpu_timestamps.desc == GPU_TIMESTAMPS_DESC && !info.gpu_timestamps.needs_restart && info.gpu_timestamps.section == Some(DEBUG_SECTION),
            info.pix_capture.desc == PIX_CAPTURE_DESC && info.pix_capture.needs_restart && info.pix_capture.section == Some(DEBUG_SECTION),
            info.section_timing.desc == SECTION_TIMING_DESC && !info.section_timing.needs_restart && info.section_timing.section == Some(DEBUG_SECTION),
        str_views(info.backend.variants@) == seq!["Vulkan"@, "DirectX 12"@],
        str_views(info.backend.variant_keys@) == seq![
            "wgpu_mc.option.backend.vulkan"@,
            "wgpu_mc.option.backend.directx12"@,
        ],
{
    SettingsInfo {
        backend: EnumSettingInfo::new(BACKEND_DESC, true),
        vsync: SettingInfo::new(VSYNC_DESC, false),
        frames_in_flight: SettingInfo::new(FRAMES_IN_FLIGHT_DESC, false),
        bind_group_cache: SettingInfo::optimization(BIND_GROUP_CACHE_DESC, false),
        dynamic_offsets: SettingInfo::optimization(DYNAMIC_OFFSETS_DESC, false),
        gpu_based_validation: SettingInfo::debug(GPU_BASED_VALIDATION_DESC, true),
        logging: SettingInfo::debug(LOGGING_DESC, false),
        diagnostics: SettingInfo::debug(DIAGNOSTICS_DESC, false),
        trace_dynamic_offsets: SettingInfo::debug(TRACE_DYNAMIC_OFFSETS_DESC, false),
        binding_verbosity: SettingInfo::debug(BINDING_VERBOSITY_DESC, false),
        dump_shaders: SettingInfo::debug(DUMP_SHADERS_DESC, false),
        gpu_timestamps: SettingInfo::debug(GPU_TIMESTAMPS_DESC, false),
        pix_capture: SettingInfo::debug(PIX_CAPTURE_DESC, true),
        section_timing: SettingInfo::debug(SECTION_TIMING_DESC, false),
    }
}

/// How JSON writes one character inside a string.
pub open spec fn escape_char(c: char) -> Seq<char> {
    if c == '"' {
        seq!['\\', '"']
    } else if c == '\\' {
        seq!['\\', '\\']
    } else if c == '\n' {
        seq!['\\', 'n']
    } else if c == '\r' {
        seq!['\\', 'r']
    } else if c == '\t' {
        seq!['\\', 't']
    } else if c == '\x08' {
        seq!['\\', 'b']
    } else if c == '\x0c' {
        seq!['\\', 'f']
    } else if (c as u32) < 0x20 {
        seq!['\\', 'u', '0', '0', spec_digit(((c as u32) / 16) as int), spec_digit(((c as u32) % 16) as int)]
    } else {
        seq![c]
    }
}

/// A string's characters as JSON writes them inside quotes.
pub open spec fn escaped(s: Seq<char>) -> Seq<char>
    decreases s.len(),
{
    if s.len() == 0 {
        Seq::empty()
    } else {
        escaped(s.drop_last()) + escape_char(s.last())
    }
}

/// A JSON string.
pub open spec fn json_string(s: Seq<char>) -> Seq<char> {
    seq!['"'] + escaped(s) + seq!['"']
}

/// A JSON array of strings, without spaces.
pub open spec fn json_strings(items: Seq<Seq<char>>) -> Seq<char> {
    seq!['['] + json_items(items) + seq![']']
}

/// The strings of a JSON array, separated by commas.
pub open spec fn json_items(items: Seq<Seq<char>>) -> Seq<char>
    decreases items.len(),
{
    if items.len() == 0 {
        Seq::empty()
    } else if items.len() == 1 {
        json_string(items[0])
    } else {
        json_items(items.drop_last()) + seq![','] + json_string(items.last())
    }
}

/// The section field, when there is one.
pub open spec fn section_json(section: Option<&'static str>) -> Seq<char> {
    match section {
        Some(name) => ",\"section\":"@ + json_string(name@),
        None => Seq::empty(),
    }
}

/// `true` or `false`.
pub open spec fn json_bool(b: bool) -> Seq<char> {
    if b {
        "true"@
    } else {
        "false"@
    }
}

/// A setting's schema as JSON: its description, whether it needs a restart, and its section when it
/// has one.
pub open spec fn info_json(info: &SettingInfo) -> Seq<char> {
    "{\"desc\":"@ + json_string(info.desc@) + ",\"needs_restart\":"@ + json_bool(info.needs_restart)
        + section_json(info.section) + "}"@
}

/// The backend setting's schema as JSON, with its display names and translation keys.
pub open spec fn enum_info_json(info: &EnumSettingInfo) -> Seq<char> {
    "{\"desc\":"@ + json_string(info.desc@) + ",\"needs_restart\":"@ + json_bool(info.needs_restart)
        + section_json(info.section) + ",\"variants\":"@ + json_strings(str_views(info.variants@))
        + ",\"variant_keys\":"@ + json_strings(str_views(info.variant_keys@)) + "}"@
}

/// The whole schema as JSON, the settings in the order the options screen shows them.
pub open spec fn settings_info_json_spec(info: &SettingsInfo) -> Seq<char> {
    "{\"backend\":"@ + enum_info_json(&info.backend)
        + ",\"vsync\":"@ + info_json(&info.vsync)
        + ",\"frames_in_flight\":"@ + info_json(&info.frames_in_flight)
        + ",\"bind_group_cache\":"@ + info_json(&info.bind_group_cache)
        + ",\"dynamic_offsets\":"@ + info_json(&info.dynamic_offsets)
        + ",\"gpu_based_validation\":"@ + info_json(&info.gpu_based_validation)
        + ",\"logging\":"@ + info_json(&info.logging)
        + ",\"diagnostics\":"@ + info_json(&info.diagnostics)
        + ",\"trace_dynamic_offsets\":"@ + info_json(&info.trace_dynamic_offsets)
        + ",\"binding_verbosity\":"@ + info_json(&info.binding_verbosity)
        + ",\"dump_shaders\":"@ + info_json(&info.dump_shaders)
        + ",\"gpu_timestamps\":"@ + info_json(&info.gpu_timestamps)
        + ",\"pix_capture\":"@ + info_json(&info.pix_capture)
        + ",\"section_timing\":"@ + info_json(&info.section_timing)
        + "}"@
}

/// Appends one character as JSON writes it inside a string.
fn push_escaped_char(out: &mut String, c: char)
    ensures
        final(out)@ == old(out)@ + escape_char(c),
{
    let code = c as u32;
    if c == '"' {
        push_char(out, '\\');
        push_char(out, '"');
    } else if c == '\\' {
        push_char(out, '\\');
        push_char(out, '\\');
    } else if c == '\n' {
        push_char(out, '\\');
        push_char(out, 'n');
    } else if c == '\r' {
        push_char(out, '\\');
        push_char(out, 'r');
    } else if c == '\t' {
        push_char(out, '\\');
        push_char(out, 't');
    } else if c == '\x08' {
        push_char(out, '\\');
        push_char(out, 'b');
    } else if c == '\x0c' {
        push_char(out, '\\');
        push_char(out, 'f');
    } else if code < 0x20 {
        push_char(out, '\\');
        push_char(out, 'u');
        push_char(out, '0');
        push_char(out, '0');
        push_char(out, crate::text::digit((code / 16) as u64));
        push_char(out, crate::text::digit((code % 16) as u64));
    } else {
        push_char(out, c);
    }
    assert(final(out)@ =~= old(out)@ + escape_char(c));
}

/// Appends a JSON string.
fn push_json_string(out: &mut String, s: &str)
    ensures
        final(out)@ == old(out)@ + json_string(s@),
{
    let ghost start = out@;
    push_char(out, '"');
    let n = s.unicode_len();
    let mut i: usize = 0;
    while i < n
        invariant
            i <= n,
            n == s@.len(),
            out@ == start + seq!['"'] + escaped(s@.take(i as int)),
        decreases n - i,
    {
        let c = s.get_char(i);
        push_escaped_char(out, c);
        assert(s@.take(i as int + 1).drop_last() =~= s@.take(i as int));
        assert(out@ =~= start + seq!['"'] + escaped(s@.take(i as int + 1)));
        i = i + 1;
    }
    assert(s@.take(n as int) =~= s@);
    push_char(out, '"');
    assert(out@ =~= start + json_string(s@));
}

/// Appends a JSON array of strings.
fn push_json_strings(out: &mut String, items: &Vec<&'static str>)
    ensures
        final(out)@ == old(out)@ + json_strings(str_views(items@)),
{
    let ghost start = out@;
    let ghost v = str_views(items@);
    push_char(out, '[');
    let mut i: usize = 0;
    while i < items.len()
        invariant
            i <= items.len(),
            v == str_views(items@),
            out@ == start + seq!['['] + json_items(v.take(i as int)),
        decreases items.len() - i,
    {
        let ghost before = out@;
        if i > 0 {
            push_char(out, ',');
        }
        push_json_string(out, items[i]);
        let ghost t = v.take(i as int + 1);
        assert(t.drop_last() =~= v.take(i as int));
        assert(t.last() == items@[i as int]@);
        if i == 0 {
            assert(json_items(t) == json_string(t[0]));
        }
        assert(out@ =~= start + seq!['['] + json_items(t));
        i = i + 1;
    }
    assert(v.take(items.len() as int) =~= v);
    push_char(out, ']');
    assert(out@ =~= start + json_strings(v));
}

/// Appends `true` or `false`.
fn push_bool(out: &mut String, b: bool)
    ensures
        final(out)@ == old(out)@ + json_bool(b),
{
    if b {
        out.append("true");
    } else {
        out.append("false");
    }
}

/// Appends the section field, when there is one.
fn push_section(out: &mut String, section: Option<&'static str>)
    ensures
        final(out)@ == old(out)@ + section_json(section),
{
    match section {
        Some(name) => {
            out.append(",\"section\":");
            push_json_string(out, name);
            assert(final(out)@ =~= old(out)@ + section_json(section));
        },
        None => {
            assert(final(out)@ =~= old(out)@ + section_json(section));
        },
    }
}

/// Appends a setting's schema.
fn push_info(out: &mut String, info: &SettingInfo)
    ensures
        final(out)@ == old(out)@ + info_json(info),
{
    let ghost start = out@;
    out.append("{\"desc\":");
    push_json_string(out, info.desc);
    out.append(",\"needs_restart\":");
    push_bool(out, info.needs_restart);
    push_section(out, info.section);
    out.append("}");
    assert(out@ =~= start + info_json(info));
}

/// Appends the backend setting's schema.
fn push_enum_info(out: &mut String, info: &EnumSettingInfo)
    ensures
        final(out)@ == old(out)@ + enum_info_json(info),
{
    let ghost start = out@;
    out.append("{\"desc\":");
    push_json_string(out, info.desc);
    out.append(",\"needs_restart\":");
    push_bool(out, info.needs_restart);
    push_section(out, info.section);
    out.append(",\"variants\":");
    push_json_strings(out, &info.variants);
    out.append(",\"variant_keys\":");
    push_json_strings(out, &info.variant_keys);
    out.append("}");
    assert(out@ =~= start + enum_info_json(info));
}

impl SettingsInfo {
    /// The schema as JSON, the settings in the order the options screen shows them.
    pub fn to_json(&self) -> (json: String)
        ensures
            json@ == settings_info_json_spec(self),
    {
        let mut out = String::new();
        out.append("{\"backend\":");
        push_enum_info(&mut out, &self.backend);
        out.append(",\"vsync\":");
        push_info(&mut out, &self.vsync);
        out.append(",\"frames_in_flight\":");
        push_info(&mut out, &self.frames_in_flight);
        out.append(",\"bind_group_cache\":");
        push_info(&mut out, &self.bind_group_cache);
        out.append(",\"dynamic_offsets\":");
        push_info(&mut out, &self.dynamic_offsets);
        out.append(",\"gpu_based_validation\":");
        push_info(&mut out, &self.gpu_based_validation);
        out.append(",\"logging\":");
        push_info(&mut out, &self.logging);
        out.append(",\"diagnostics\":");
        push_info(&mut out, &self.diagnostics);
        out.append(",\"trace_dynamic_offsets\":");
        push_info(&mut out, &self.trace_dynamic_offsets);
        out.append(",\"binding_verbosity\":");
        push_info(&mut out, &self.binding_verbosity);
        out.append(",\"dump_shaders\":");
        push_info(&mut out, &self.dump_shaders);
        out.append(",\"gpu_timestamps\":");
        push_info(&mut out, &self.gpu_timestamps);
        out.append(",\"pix_capture\":");
        push_info(&mut out, &self.pix_capture);
        out.append(",\"section_timing\":");
        push_info(&mut out, &self.section_timing);
        out.append("}");
        assert(out@ =~= settings_info_json_spec(self));
        out
    }
}

/// The sections of every setting, in the order the options screen shows them.
pub open spec fn sections_in_order(info: &SettingsInfo) -> Seq<Option<&'static str>> {
    seq![
        info.backend.section,
        info.vsync.section,
        info.frames_in_flight.section,
        info.bind_group_cache.section,
        info.dynamic_offsets.section,
        info.gpu_based_validation.section,
        info.logging.section,
        info.diagnostics.section,
        info.trace_dynamic_offsets.section,
        info.binding_verbosity.section,
        info.dump_shaders.section,
        info.gpu_timestamps.section,
        info.pix_capture.section,
        info.section_timing.section,
    ]
}

/// Where a section comes on the options screen: the plain settings, then the optimisations, then
/// the debug switches.
pub open spec fn section_rank(section: Option<&'static str>) -> int {
    match section {
        None => 0,
        Some(name) => if name == OPTIMIZATION_SECTION {
            1
        } else {
            2
        },
    }
}

/// The options screen draws a heading when a setting's section differs from the one before it, so
/// each section has to be contiguous: in the schema, every plain setting comes before every
/// optimisation, and every optimisation before every debug switch.
pub proof fn lemma_sections_are_contiguous(info: &SettingsInfo)
    requires
        info.backend.section is None,
        info.vsync.section is None,
        info.frames_in_flight.section is None,
        info.bind_group_cache.section == Some(OPTIMIZATION_SECTION),
        info.dynamic_offsets.section == Some(OPTIMIZATION_SECTION),
        info.gpu_based_validation.section == Some(DEBUG_SECTION),
        info.logging.section == Some(DEBUG_SECTION),
        info.diagnostics.section == Some(DEBUG_SECTION),
        info.trace_dynamic_offsets.section == Some(DEBUG_SECTION),
        info.binding_verbosity.section == Some(DEBUG_SECTION),
        info.dump_shaders.section == Some(DEBUG_SECTION),
        info.gpu_timestamps.section == Some(DEBUG_SECTION),
        info.pix_capture.section == Some(DEBUG_SECTION),
        info.section_timing.section == Some(DEBUG_SECTION),
    ensures
        forall|i: int, j: int|
            0 <= i < j < sections_in_order(info).len() ==> section_rank(
                #[trigger] sections_in_order(info)[i],
            ) <= section_rank(#[trigger] sections_in_order(info)[j]),
{
    reveal_strlit("Debug");
    reveal_strlit("Optimization");
    assert(DEBUG_SECTION != OPTIMIZATION_SECTION);
}

} // verus!
