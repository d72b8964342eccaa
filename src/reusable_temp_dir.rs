//! The workspace directory and its reset policy.
use vstd::prelude::*;
use crate::command::{join, joined};

verus! {

/// What to do with an existing workspace at startup.
#[derive(Debug, Clone, Copy, PartialEq, Eq, Structural, Default)]
pub enum ResetData {
    /// Delete the whole workspace: extracted frames, generated frames, clips
    /// and the scene cache.
    #[default]
    Everything,
    /// Delete nothing, so that the run continues where the last one stopped.
    Nothing,
}

impl ResetData {
    /// Whether the workspace is wiped before the run.
    pub fn wipes_workspace(self) -> (r: bool)
        ensures
            r == (self == ResetData::Everything),
    {
        match self {
            ResetData::Everything => true,
            ResetData::Nothing => false,
        }
    }

    /// The policy's name on the command line.
    pub fn name(self) -> (r: &'static str)
        ensures
            self == ResetData::Everything ==> r@ == "everything"@,
            self == ResetData::Nothing ==> r@ == "nothing"@,
    {
        match self {
            ResetData::Everything => "everything",
            ResetData::Nothing => "nothing",
        }
    }
}

/// The workspace: a base directory with a directory for extracted frames and
/// one for generated frames.
#[derive(Debug, Clone)]
pub struct ReusableTempDir {
    base_dir: String,
    ffmpeg_dir: String,
    generated_frames_dir: String,
    reset_data: ResetData,
}

impl ReusableTempDir {
    pub closed spec fn spec_base_dir(&self) -> Seq<char> {
        self.base_dir@
    }

    pub closed spec fn spec_ffmpeg_dir(&self) -> Seq<char> {
        self.ffmpeg_dir@
    }

    pub closed spec fn spec_generated_frames_dir(&self) -> Seq<char> {
        self.generated_frames_dir@
    }

    pub closed spec fn spec_reset_data(&self) -> ResetData {
        self.reset_data
    }

    /// The layout under `base_dir`; the directories are made, after a wipe
    /// where `reset_data` asks for one, by whoever holds the file system.
    pub fn try_new(base_dir: String, reset_data: ResetData) -> (r: ReusableTempDir)
        ensures
            r.spec_base_dir() == base_dir@,
            r.spec_ffmpeg_dir() == joined(base_dir@, "ffmpeg"@),
            r.spec_generated_frames_dir() == joined(base_dir@, "generated_frames"@),
            r.spec_reset_data() == reset_data,
    {
        let ffmpeg_dir = join(base_dir.as_str(), "ffmpeg");
        let generated_frames_dir = join(base_dir.as_str(), "generated_frames");
        ReusableTempDir { base_dir, ffmpeg_dir, generated_frames_dir, reset_data }
    }

    pub fn base_dir(&self) -> (r: &str)
        ensures
            r@ == self.spec_base_dir(),
    {
        self.base_dir.as_str()
    }

    pub fn ffmpeg_dir(&self) -> (r: &str)
        ensures
            r@ == self.spec_ffmpeg_dir(),
    {
        self.ffmpeg_dir.as_str()
    }

    pub fn generated_frames_dir(&self) -> (r: &str)
        ensures
            r@ == self.spec_generated_frames_dir(),
    {
        self.generated_frames_dir.as_str()
    }

    pub fn reset_data(&self) -> (r: ResetData)
        ensures
            r == self.spec_reset_data(),
    {
        self.reset_data
    }
}

} // verus!
