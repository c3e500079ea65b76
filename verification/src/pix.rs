//! PIX timing captures, driven by the `pix capture` switch.
//!
//! Turning the switch on takes one capture; it stops after a fixed number of frames, or when the
//! switch goes off. A finished capture is re-armed once the switch goes off, so turning it back on
//! starts the next one. The calls into PIX are the application's: [`PixCapture::tick`] says which
//! one to make each frame, and [`PixCapture::began`] is told whether a capture started.

use vstd::prelude::*;
use crate::blockstate::{find_char, index_of_char, lemma_index_of_char};
use crate::shader_cache::chars_le;
use crate::shaderpack::{parse_part, parse_u32};

verus! {

/// How many frames one capture records before it stops on its own.
pub const CAPTURE_FRAMES: u32 = 600;

/// Where a capture is.
#[derive(Clone, Copy, Debug, PartialEq, Eq, Structural)]
pub enum CaptureStage {
    Idle,
    Running,
    Finished,
}

/// What the application has to do this frame.
#[derive(Clone, Copy, Debug, PartialEq, Eq, Structural)]
pub enum PixAction {
    Nothing,
    /// Start a capture, and report with [`PixCapture::began`] whether it started.
    Begin,
    /// Stop the running capture: the switch went off.
    End,
    /// Stop the running capture: it has recorded all its frames.
    EndAtLimit,
}

/// The capture switch and where the capture is.
pub struct PixCapture {
    pub wanted: bool,
    pub stage: CaptureStage,
    /// Frames recorded by the current capture.
    pub frames: u32,
}

impl PixCapture {
    /// Whether the frame count stays within a capture's frames.
    pub open spec fn wf(&self) -> bool {
        &&& self.frames <= CAPTURE_FRAMES
        &&& self.stage == CaptureStage::Running ==> self.frames < CAPTURE_FRAMES
    }

    /// Nothing asked for and nothing running.
    pub fn new() -> (p: PixCapture)
        ensures
            p.wf(),
            !p.wanted,
            p.stage == CaptureStage::Idle,
            p.frames == 0,
    {
        PixCapture { wanted: false, stage: CaptureStage::Idle, frames: 0 }
    }

    /// Turns the switch on or off; what that does happens on the next tick.
    pub fn set_capturing(&mut self, enabled: bool)
        ensures
            final(self).wanted == enabled,
            final(self).stage == old(self).stage,
            final(self).frames == old(self).frames,
    {
        self.wanted = enabled;
    }

    /// Once a frame: starts a capture the switch asks for, counts a running capture's frames and
    /// stops it at the limit, stops it when the switch went off, and re-arms a finished one once the
    /// switch is off.
    pub fn tick(&mut self) -> (action: PixAction)
        requires
            old(self).wf(),
        ensures
            final(self).wf(),
            final(self).wanted == old(self).wanted,
            match (old(self).wanted, old(self).stage) {
                (true, CaptureStage::Idle) => action == PixAction::Begin && final(self).frames == 1
                    && final(self).stage == CaptureStage::Idle,
                (true, CaptureStage::Running) => if old(self).frames + 1 >= CAPTURE_FRAMES {
                    action == PixAction::EndAtLimit && final(self).stage == CaptureStage::Finished
                        && final(self).frames == old(self).frames + 1
                } else {
                    action == PixAction::Nothing && final(self).stage == CaptureStage::Running
                        && final(self).frames == old(self).frames + 1
                },
                (false, CaptureStage::Running) => action == PixAction::End && final(self).stage
                    == CaptureStage::Idle && final(self).frames == old(self).frames,
                (false, CaptureStage::Finished) => action == PixAction::Nothing && final(self).stage
                    == CaptureStage::Idle && final(self).frames == old(self).frames,
                _ => action == PixAction::Nothing && final(self).stage == old(self).stage
                    && final(self).frames == old(self).frames,
            },
    {
        match (self.wanted, self.stage) {
            (true, CaptureStage::Idle) => {
                self.frames = 1;
                PixAction::Begin
            },
            (true, CaptureStage::Running) => {
                self.frames = self.frames + 1;
                if self.frames >= CAPTURE_FRAMES {
                    self.stage = CaptureStage::Finished;
                    PixAction::EndAtLimit
                } else {
                    PixAction::Nothing
                }
            },
            (false, CaptureStage::Running) => {
                self.stage = CaptureStage::Idle;
                PixAction::End
            },
            (false, CaptureStage::Finished) => {
                self.stage = CaptureStage::Idle;
                PixAction::Nothing
            },
            _ => PixAction::Nothing,
        }
    }

    /// Whether the capture a [`PixAction::Begin`] asked for started: a capture that did not start
    /// counts as finished, so it is not retried until the switch goes off and on again.
    pub fn began(&mut self, started: bool)
        requires
            old(self).wf(),
            old(self).frames < CAPTURE_FRAMES,
        ensures
            final(self).wf(),
            final(self).wanted == old(self).wanted,
            final(self).frames == old(self).frames,
            final(self).stage == (if started {
                CaptureStage::Running
            } else {
                CaptureStage::Finished
            }),
    {
        self.stage = if started {
            CaptureStage::Running
        } else {
            CaptureStage::Finished
        };
    }
}

/// The version a PIX installation's directory is named for: `major.minor`, where the major
/// number has to read as a number and a minor one that is missing or does not counts as zero.
pub open spec fn spec_install_version(name: Seq<char>) -> Option<(u32, u32)> {
    let e = index_of_char(name, '.');
    match parse_u32(name.take(e)) {
        None => None,
        Some(major) => {
            let minor = if e < name.len() {
                let rest = name.skip(e + 1);
                match parse_u32(rest.take(index_of_char(rest, '.'))) {
                    Some(m) => m,
                    None => 0u32,
                }
            } else {
                0u32
            };
            Some((major, minor))
        },
    }
}

/// The version of the installation in directory `name`: see [`spec_install_version`].
pub fn install_version(name: &str) -> (v: Option<(u32, u32)>)
    ensures
        v == spec_install_version(name@),
{
    let n = name.unicode_len();
    let e = find_char(name, '.', 0, n);
    proof {
        lemma_index_of_char(name@, '.', e as int);
        assert(name@.subrange(0, e as int) =~= name@.take(e as int));
    }
    let major = match parse_part(name, 0, e) {
        None => return None,
        Some(m) => m,
    };
    let minor = if e < n {
        let f = find_char(name, '.', e + 1, n);
        let ghost rest = name@.skip(e + 1);
        proof {
            assert(rest =~= name@.subrange(e + 1, n as int));
            lemma_index_of_char(rest, '.', f - e - 1);
            assert(name@.subrange(e + 1, f as int) =~= rest.take(f - e - 1));
        }
        match parse_part(name, e + 1, f) {
            Some(m) => m,
            None => 0,
        }
    } else {
        0
    };
    Some((major, minor))
}

/// Whether an installation with version `a` in directory `an` sorts no later than one with
/// version `b` in `bn`: by major, then minor number, then directory name.
pub open spec fn install_le(a: (u32, u32), an: Seq<char>, b: (u32, u32), bn: Seq<char>) -> bool {
    ||| a.0 < b.0
    ||| a.0 == b.0 && a.1 < b.1
    ||| a.0 == b.0 && a.1 == b.1 && chars_le(an, bn)
}

/// Whether `a` sorts no later than `b`, character by character.
fn text_le(a: &str, b: &str) -> (r: bool)
    ensures
        r == chars_le(a@, b@),
{
    let n = a.unicode_len();
    let m = b.unicode_len();
    let mut i: usize = 0;
    assert(a@.skip(0) =~= a@);
    assert(b@.skip(0) =~= b@);
    while i < n && i < m
        invariant
            n == a@.len(),
            m == b@.len(),
            i <= n,
            i <= m,
            forall|j: int| 0 <= j < i ==> a@[j] == b@[j],
            chars_le(a@, b@) == chars_le(a@.skip(i as int), b@.skip(i as int)),
        decreases n - i,
    {
        let x = a.get_char(i);
        let y = b.get_char(i);
        proof {
            assert(a@.skip(i as int)[0] == x);
            assert(b@.skip(i as int)[0] == y);
            assert(a@.skip(i as int).drop_first() =~= a@.skip(i as int + 1));
            assert(b@.skip(i as int).drop_first() =~= b@.skip(i as int + 1));
        }
        if x != y {
            return (x as u32) < (y as u32);
        }
        i = i + 1;
    }
    n <= m
}

/// The newest of the PIX installations whose directories are named `names`: the one whose version,
/// and then name, sorts last among those whose name reads as a version.
pub fn newest_install(names: &Vec<String>) -> (chosen: Option<usize>)
    ensures
        match chosen {
            Some(i) => {
                &&& i < names@.len()
                &&& spec_install_version(names@[i as int]@) matches Some(vi)
                &&& forall|j: int|
                    0 <= j < names@.len() ==> (#[trigger] spec_install_version(names@[j]@) matches Some(
                        vj,
                    ) ==> install_le(vj, names@[j]@, vi, names@[i as int]@))
            },
            None => forall|j: int|
                0 <= j < names@.len() ==> #[trigger] spec_install_version(names@[j]@) is None,
        },
{
    let mut best: Option<(usize, (u32, u32))> = None;
    let mut i: usize = 0;
    while i < names.len()
        invariant
            i <= names@.len(),
            match best {
                Some((b, vb)) => {
                    &&& b < i
                    &&& spec_install_version(names@[b as int]@) == Some(vb)
                    &&& forall|j: int|
                        0 <= j < i ==> (#[trigger] spec_install_version(names@[j]@) matches Some(vj)
                            ==> install_le(vj, names@[j]@, vb, names@[b as int]@))
                },
                None => forall|j: int| 0 <= j < i ==> #[trigger] spec_install_version(names@[j]@) is None,
            },
        decreases names.len() - i,
    {
        match install_version(names[i].as_str()) {
            None => {},
            Some(v) => {
                match best {
                    None => {
                        best = Some((i, v));
                        proof {
                            lemma_install_le_reflexive(v, names@[i as int]@);
                        }
                    },
                    Some((b, vb)) => {
                        let later = if v.0 != vb.0 {
                            v.0 > vb.0
                        } else if v.1 != vb.1 {
                            v.1 > vb.1
                        } else {
                            text_le(names[b].as_str(), names[i].as_str())
                        };
                        if later {
                            best = Some((i, v));
                            proof {
                                lemma_install_le_reflexive(v, names@[i as int]@);
                                assert forall|j: int|
                                    0 <= j < i + 1 implies (#[trigger] spec_install_version(
                                    names@[j]@,
                                ) matches Some(vj) ==> install_le(
                                    vj,
                                    names@[j]@,
                                    v,
                                    names@[i as int]@,
                                )) by {
                                    if j < i {
                                        if let Some(vj) = spec_install_version(names@[j]@) {
                                            lemma_install_le_transitive(
                                                vj,
                                                names@[j]@,
                                                vb,
                                                names@[b as int]@,
                                                v,
                                                names@[i as int]@,
                                            );
                                        }
                                    }
                                }
                            }
                        } else {
                            proof {
                                lemma_install_le_total(v, names@[i as int]@, vb, names@[b as int]@);
                            }
                        }
                    },
                }
            },
        }
        i = i + 1;
    }
    match best {
        Some((b, _)) => Some(b),
        None => None,
    }
}

proof fn lemma_install_le_reflexive(a: (u32, u32), an: Seq<char>)
    ensures
        install_le(a, an, a, an),
{
    crate::shader_cache::lemma_chars_le_reflexive(an);
}

proof fn lemma_install_le_transitive(
    a: (u32, u32),
    an: Seq<char>,
    b: (u32, u32),
    bn: Seq<char>,
    c: (u32, u32),
    cn: Seq<char>,
)
    requires
        install_le(a, an, b, bn),
        install_le(b, bn, c, cn),
    ensures
        install_le(a, an, c, cn),
{
    if a.0 == c.0 && a.1 == c.1 {
        crate::shader_cache::lemma_chars_le_transitive(an, bn, cn);
    }
}

proof fn lemma_install_le_total(a: (u32, u32), an: Seq<char>, b: (u32, u32), bn: Seq<char>)
    ensures
        install_le(a, an, b, bn) || install_le(b, bn, a, an),
{
    crate::shader_cache::lemma_chars_le_total(an, bn);
}

} // verus!
