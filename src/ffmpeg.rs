//! The extraction, encoding, concatenation and remux steps, as runs of
//! `ffmpeg` over the workspace's paths.
use vstd::prelude::*;
use vstd::string::*;
use crate::command::{join, joined, texts, usize_text, usize_text_of, Requirements};
use crate::decimal::{decimal_text_of, Decimal};
use crate::error::Error;
use crate::time_ranges::{duration_units, millisecond, TimeRange};
use crate::decimal::in_range;


verus! {

/// The extension of the file a path names, as `std` reads it.
pub uninterp spec fn extension_of(path: Seq<char>) -> Option<Seq<char>>;

/// Relies on `std::path::Path::extension`: the part of the file name after
/// its last dot, if any.
#[verifier::external_body]
fn path_extension(path: &str) -> (r: Option<String>)
    ensures
        r matches Some(e) ==> extension_of(path@) == Some(e@),
        r is None ==> extension_of(path@) is None,
{
    std::path::Path::new(path).extension().map(|e| e.to_string_lossy().into_owned())
}

/// The extension of the file that `path` names.
pub fn get_extension(path: &str) -> (r: Result<String, Error>)
    ensures
        r is Ok <==> extension_of(path@) is Some,
        r matches Ok(e) ==> extension_of(path@) == Some(e@),
        r is Err ==> (r matches Err(Error::MissingExtension(p)) && p@ == path@),
{
    match path_extension(path) {
        Some(e) => Ok(e),
        None => Err(Error::MissingExtension(path.to_string())),
    }
}

/// A run of `ffmpeg` with `args` in the current directory.
pub fn ffmpeg(args: Vec<String>) -> (r: Requirements)
    ensures
        r.spec_parts() == ("ffmpeg"@, texts(args@), None::<Seq<char>>),
{
    Requirements { binary: "ffmpeg".to_string(), args, current_dir: None }
}

/// A run of `ffprobe` with `args` in the current directory.
pub fn ffprobe(args: Vec<String>) -> (r: Requirements)
    ensures
        r.spec_parts() == ("ffprobe"@, texts(args@), None::<Seq<char>>),
{
    Requirements { binary: "ffprobe".to_string(), args, current_dir: None }
}

/// Arguments that copy the audio of `input` into `audio`.
pub open spec fn extract_audio_args(input: Seq<char>, audio: Seq<char>) -> Seq<Seq<char>> {
    seq!["-y"@, "-i"@, input, "-map"@, "0:a"@, "-c"@, "copy"@, audio]
}

/// Copies the audio streams of `input_file` into `audio_file`.
pub fn extract_audio(input_file: &str, audio_file: &str) -> (r: Requirements)
    ensures
        r.spec_parts() == ("ffmpeg"@, extract_audio_args(input_file@, audio_file@), None::<
            Seq<char>,
        >),
{
    let args = vec![
        "-y".to_string(),
        "-i".to_string(),
        input_file.to_string(),
        "-map".to_string(),
        "0:a".to_string(),
        "-c".to_string(),
        "copy".to_string(),
        audio_file.to_string(),
    ];
    assert(texts(args@) =~= extract_audio_args(input_file@, audio_file@));
    ffmpeg(args)
}

/// Extracts the frames from `start` for `duration` of `input_file` into
/// `output_dir`.
pub fn extract_frames(start: Decimal, input_file: &str, duration: Decimal, output_dir: &str) -> (r:
    Requirements)
    requires
        start.wf(),
        duration.wf(),
    ensures
        r.spec_parts() == (
            "ffmpeg"@,
            extract_frames_args(start.text_view(), input_file@, duration.text_view(), output_dir@),
            None::<Seq<char>>,
        ),
{
    let pattern = join(output_dir, "frame_%08d.png");
    let args = vec![
        "-ss".to_string(),
        start.to_text(),
        "-i".to_string(),
        input_file.to_string(),
        "-t".to_string(),
        duration.to_text(),
        "-frame_pts".to_string(),
        "true".to_string(),
        pattern,
    ];
    assert(texts(args@) =~= extract_frames_args(
        start.text_view(),
        input_file@,
        duration.text_view(),
        output_dir@,
    ));
    ffmpeg(args)
}

/// Concatenates the clips that the manifest at `concat_file_path` lists into
/// `output_file`.
pub fn concat_videos(concat_file_path: &str, output_file: &str) -> (r: Requirements)
    ensures
        r.spec_parts() == ("ffmpeg"@, concat_args(concat_file_path@, output_file@), None::<
            Seq<char>,
        >),
{
    let args = vec![
        "-y".to_string(),
        "-f".to_string(),
        "concat".to_string(),
        "-safe".to_string(),
        "0".to_string(),
        "-i".to_string(),
        concat_file_path.to_string(),
        "-c".to_string(),
        "copy".to_string(),
        output_file.to_string(),
    ];
    assert(texts(args@) =~= concat_args(concat_file_path@, output_file@));
    ffmpeg(args)
}

/// The paths and settings of the extraction and encoding steps.
#[derive(Debug, Clone)]
pub struct FfmpegStepper {
    pub input_file: String,
    pub frames_dir: String,
    pub videos_dir: String,
    pub scene_file: String,
    /// The concatenation manifest.
    pub concat_file: String,
    /// The video made by concatenating the clips.
    pub video_file: String,
    pub crf: usize,
    pub fps: usize,
    pub input_extension: String,
}

/// Arguments that extract the frames of a window into `frames_dir`.
pub open spec fn extract_frames_args(
    start: Seq<char>,
    input: Seq<char>,
    duration: Seq<char>,
    frames_dir: Seq<char>,
) -> Seq<Seq<char>> {
    seq![
        "-ss"@,
        start,
        "-i"@,
        input,
        "-t"@,
        duration,
        "-frame_pts"@,
        "true"@,
        joined(frames_dir, "frame_%08d.png"@),
    ]
}

/// Arguments that encode the frames of the current directory into `clip`.
pub open spec fn frames_to_video_args(fps: int, crf: int, clip: Seq<char>) -> Seq<Seq<char>> {
    seq![
        "-y"@,
        "-framerate"@,
        usize_text_of(fps as nat),
        "-pattern_type"@,
        "glob"@,
        "-i"@,
        "*.png"@,
        "-crf"@,
        usize_text_of(crf as nat),
        "-c:v"@,
        "libx264"@,
        "-pix_fmt"@,
        "yuv420p"@,
        clip,
    ]
}

/// Arguments that concatenate the clips that `manifest` lists into `video`.
pub open spec fn concat_args(manifest: Seq<char>, video: Seq<char>) -> Seq<Seq<char>> {
    seq!["-y"@, "-f"@, "concat"@, "-safe"@, "0"@, "-i"@, manifest, "-c"@, "copy"@, video]
}

/// Arguments that join the video of `video` with the other streams of `input`
/// into `output`, copying all of them.
pub open spec fn remux_args(video: Seq<char>, input: Seq<char>, output: Seq<char>) -> Seq<
    Seq<char>,
> {
    seq![
        "-ignore_unknown"@,
        "-y"@,
        "-i"@,
        video,
        "-vn"@,
        "-i"@,
        input,
        "-map"@,
        "0"@,
        "-c:v"@,
        "copy"@,
        "-map"@,
        "1"@,
        "-c:a"@,
        "copy"@,
        "-c:s"@,
        "copy"@,
        "-map_chapters"@,
        "1"@,
        "-max_interleave_delta"@,
        "0"@,
        output,
    ]
}

/// The manifest lines for the first `n` clips, in order of their index.
pub open spec fn manifest_text(videos_dir: Seq<char>, ext: Seq<char>, n: nat) -> Seq<char>
    decreases n,
{
    if n == 0 {
        seq![]
    } else if n == 1 {
        "file "@ + clip_path_of(videos_dir, ext, 0)
    } else {
        manifest_text(videos_dir, ext, (n - 1) as nat) + seq!['\n'] + "file "@ + clip_path_of(
            videos_dir,
            ext,
            (n - 1) as nat,
        )
    }
}

/// The path of the clip of window `n`.
pub open spec fn clip_path_of(videos_dir: Seq<char>, ext: Seq<char>, n: nat) -> Seq<char> {
    joined(videos_dir, usize_text_of(n) + "."@ + ext)
}

impl FfmpegStepper {
    /// The layout under `temp_dir` for `input_file`; fails if the input has
    /// no extension.
    pub fn try_new(temp_dir: &str, input_file: String, crf: usize, fps: usize) -> (r: Result<
        FfmpegStepper,
        Error,
    >)
        ensures
            r is Ok <==> extension_of(input_file@) is Some,
            r is Err ==> (r matches Err(Error::MissingExtension(p)) && p@ == input_file@),
            r matches Ok(s) ==> {
                &&& extension_of(input_file@) == Some(s.input_extension@)
                &&& s.input_file@ == input_file@
                &&& s.frames_dir@ == joined(temp_dir@, "frames"@)
                &&& s.videos_dir@ == joined(temp_dir@, "videos"@)
                &&& s.scene_file@ == joined(temp_dir@, "scene_timestamps.txt"@)
                &&& s.concat_file@ == joined(temp_dir@, "concat.txt"@)
                &&& s.video_file@ == joined(temp_dir@, "video."@ + s.input_extension@)
                &&& s.crf == crf
                &&& s.fps == fps
            },
    {
        let input_extension = get_extension(input_file.as_str())?;
        let frames_dir = join(temp_dir, "frames");
        let videos_dir = join(temp_dir, "videos");
        let scene_file = join(temp_dir, "scene_timestamps.txt");
        let concat_file = join(temp_dir, "concat.txt");
        let mut video_name = "video.".to_string();
        video_name.append(input_extension.as_str());
        let video_file = join(temp_dir, video_name.as_str());
        Ok(FfmpegStepper {
            input_file,
            frames_dir,
            videos_dir,
            scene_file,
            concat_file,
            video_file,
            crf,
            fps,
            input_extension,
        })
    }

    /// Where extracted frames go.
    pub fn frames_dir(&self) -> (r: &str)
        ensures
            r@ == self.frames_dir@,
    {
        self.frames_dir.as_str()
    }

    /// The path of the clip of window `n`.
    pub fn clip_path(&self, n: usize) -> (r: String)
        ensures
            r@ == clip_path_of(self.videos_dir@, self.input_extension@, n as nat),
    {
        let mut name = usize_text(n);
        name.append(".");
        name.append(self.input_extension.as_str());
        join(self.videos_dir.as_str(), name.as_str())
    }

    /// Extracts the frames of `time_range` into the frames directory, which
    /// must be emptied first. Fails where the window's duration rounds to zero
    /// or does not fit.
    pub fn extract_frames(&self, time_range: &TimeRange) -> (r: Result<Requirements, Error>)
        requires
            time_range.wf(),
        ensures
            r is Ok <==> duration_units(time_range@) != 0 && in_range(
                duration_units(time_range@) / millisecond(),
            ),
            r is Err ==> (r matches Err(Error::EmptyWindow(a, b)) && a == time_range.start && b@
                == time_range.end@),
            r matches Ok(q) ==> q.spec_parts() == (
                "ffmpeg"@,
                extract_frames_args(
                    time_range.start.text_view(),
                    self.input_file@,
                    decimal_text_of(duration_units(time_range@) / millisecond(), 3),
                    self.frames_dir@,
                ),
                None::<Seq<char>>,
            ),
    {
        let duration = match time_range.duration() {
            Some(d) => d,
            None => return Err(Error::EmptyWindow(time_range.start, time_range.end.get())),
        };
        Ok(extract_frames(
            time_range.start,
            self.input_file.as_str(),
            duration.get(),
            self.frames_dir.as_str(),
        ))
    }

    /// Encodes the frames in `input_dir` into the clip of window
    /// `video_number`.
    pub fn frames_to_video(&self, video_number: usize, input_dir: String) -> (r: Requirements)
        ensures
            r.spec_parts() == (
                "ffmpeg"@,
                frames_to_video_args(
                    self.fps as int,
                    self.crf as int,
                    clip_path_of(self.videos_dir@, self.input_extension@, video_number as nat),
                ),
                Some(input_dir@),
            ),
    {
        let clip = self.clip_path(video_number);
        let args = vec![
            "-y".to_string(),
            "-framerate".to_string(),
            usize_text(self.fps),
            "-pattern_type".to_string(),
            "glob".to_string(),
            "-i".to_string(),
            "*.png".to_string(),
            "-crf".to_string(),
            usize_text(self.crf),
            "-c:v".to_string(),
            "libx264".to_string(),
            "-pix_fmt".to_string(),
            "yuv420p".to_string(),
            clip,
        ];
        let ghost clip_view = clip_path_of(
            self.videos_dir@,
            self.input_extension@,
            video_number as nat,
        );
        assert(texts(args@) =~= frames_to_video_args(self.fps as int, self.crf as int, clip_view));
        Requirements { binary: "ffmpeg".to_string(), args, current_dir: Some(input_dir) }
    }

    /// The concatenation manifest for `clip_count` clips: one `file` line per
    /// clip, in ascending order of window index.
    pub fn concat_manifest(&self, clip_count: usize) -> (r: String)
        ensures
            r@ == manifest_text(self.videos_dir@, self.input_extension@, clip_count as nat),
    {
        let mut r = String::new();
        let mut i: usize = 0;
        while i < clip_count
            invariant
                0 <= i <= clip_count,
                r@ == manifest_text(self.videos_dir@, self.input_extension@, i as nat),
            decreases clip_count - i,
        {
            if i > 0 {
                r.append("\n");
            }
            r.append("file ");
            let clip = self.clip_path(i);
            r.append(clip.as_str());
            proof {
                reveal_strlit("\n");
                reveal_strlit("file ");
                if i == 0 {
                    assert(r@ =~= "file "@ + clip@);
                } else {
                    assert(r@ =~= manifest_text(self.videos_dir@, self.input_extension@, i as nat)
                        + seq!['\n'] + "file "@ + clip@);
                }
            }
            i = i + 1;
        }
        r
    }

    /// The two last runs, in order: concatenate the clips, then join the
    /// result with the input's audio, subtitles and chapters into
    /// `output_file`.
    pub fn aggregate(&self, output_file: &str) -> (r: Vec<Requirements>)
        ensures
            r.len() == 2,
            r[0].spec_parts() == ("ffmpeg"@, concat_args(self.concat_file@, self.video_file@), None::<
                Seq<char>,
            >),
            r[1].spec_parts() == (
                "ffmpeg"@,
                remux_args(self.video_file@, self.input_file@, output_file@),
                None::<Seq<char>>,
            ),
    {
        let concat = concat_videos(self.concat_file.as_str(), self.video_file.as_str());
        let args = vec![
            "-ignore_unknown".to_string(),
            "-y".to_string(),
            "-i".to_string(),
            self.video_file.clone(),
            "-vn".to_string(),
            "-i".to_string(),
            self.input_file.clone(),
            "-map".to_string(),
            "0".to_string(),
            "-c:v".to_string(),
            "copy".to_string(),
            "-map".to_string(),
            "1".to_string(),
            "-c:a".to_string(),
            "copy".to_string(),
            "-c:s".to_string(),
            "copy".to_string(),
            "-map_chapters".to_string(),
            "1".to_string(),
            "-max_interleave_delta".to_string(),
            "0".to_string(),
            output_file.to_string(),
        ];
        assert(texts(args@) =~= remux_args(self.video_file@, self.input_file@, output_file@));
        let remux = ffmpeg(args);
        vec![concat, remux]
    }
}

} // verus!
