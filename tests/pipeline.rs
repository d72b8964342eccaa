use more_fps::cli::{ai_args_for, can_be_decimal};
use more_fps::ffmpeg::{extract_audio, ffmpeg, get_extension};
use more_fps::scenes::{
    media_duration_probe, parse_captures, parse_media_duration, parse_scene_cache,
    parse_timestamps, scene_cache_text, scene_detection,
};
use more_fps::{
    Decimal, Error, FfmpegStepper, FrameGenerator, NonZeroDecimal, ResetData, ReusableTempDir,
    TimeRange, FPS,
};

const SCENE_TIMESTAMPS: &str = "
media_type=video|stream_index=0|key_frame=1|pkt_pts=9760|pkt_pts_time=9.760000|pkt_dts=9760|pkt_dts_time=9.760000|best_effort_timestamp=9760|best_effort_timestamp_time=9.760000|pkt_duration=N/A|pkt_duration_time=N/A|pkt_pos=858320|pkt_size=6220800|width=1920|height=1080|pix_fmt=yuv420p10le|sample_aspect_ratio=1:1|pict_type=I|coded_picture_number=0|display_picture_number=0|interlaced_frame=0|top_field_first=0|repeat_pict=0|color_range=unknown|color_space=unknown|color_primaries=unknown|color_transfer=unknown|chroma_location=unspecified|tag:lavfi.scene_score=0.504959
media_type=video|stream_index=0|key_frame=1|pkt_pts=13513|pkt_pts_time=13.513000|pkt_dts=13513|pkt_dts_time=13.513000|best_effort_timestamp=13513|best_effort_timestamp_time=13.513000|pkt_duration=N/A|pkt_duration_time=N/A|pkt_pos=1176734|pkt_size=6220800|width=1920|height=1080|pix_fmt=yuv420p10le|sample_aspect_ratio=1:1|pict_type=I|coded_picture_number=0|display_picture_number=0|interlaced_frame=0|top_field_first=0|repeat_pict=0|color_range=unknown|color_space=unknown|color_primaries=unknown|color_transfer=unknown|chroma_location=unspecified|tag:lavfi.scene_score=0.428674
media_type=video|stream_index=0|key_frame=1|pkt_pts=18936|pkt_pts_time=18.936000|pkt_dts=18936|pkt_dts_time=18.936000|best_effort_timestamp=18936|best_effort_timestamp_time=18.936000|pkt_duration=N/A|pkt_duration_time=N/A|pkt_pos=1694070|pkt_size=6220800|width=1920|height=1080|pix_fmt=yuv420p10le|sample_aspect_ratio=1:1|pict_type=I|coded_picture_number=0|display_picture_number=0|interlaced_frame=0|top_field_first=0|repeat_pict=0|color_range=unknown|color_space=unknown|color_primaries=unknown|color_transfer=unknown|chroma_location=unspecified|tag:lavfi.scene_score=0.990057
media_type=video|stream_index=0|key_frame=1|pkt_pts=22105|pkt_pts_time=22.105000|pkt_dts=22105|pkt_dts_time=22.105000|best_effort_timestamp=22105|best_effort_timestamp_time=22.105000|pkt_duration=N/A|pkt_duration_time=N/A|pkt_pos=2498438|pkt_size=6220800|width=1920|height=1080|pix_fmt=yuv420p10le|sample_aspect_ratio=1:1|pict_type=I|coded_picture_number=0|display_picture_number=0|interlaced_frame=0|top_field_first=0|repeat_pict=0|color_range=unknown|color_space=unknown|color_primaries=unknown|color_transfer=unknown|chroma_location=unspecified|tag:lavfi.scene_score=0.547889";

fn dec(s: &str) -> Decimal {
    Decimal::parse(s).unwrap()
}

fn strings(v: &[&str]) -> Vec<String> {
    v.iter().map(|s| s.to_string()).collect()
}

#[test]
fn scene_time_stamps() {
    let actual = parse_timestamps(SCENE_TIMESTAMPS).unwrap();
    let expected = vec![dec("9.76"), dec("13.513"), dec("18.936"), dec("22.105")];
    assert_eq!(actual, expected);
}

#[test]
fn timestamps_ignore_other_fields() {
    let report = "pkt_pts_time=1.500000|best_effort_timestamp=7|best_effort_timestamp_time=2.250000|x=3.5";
    assert_eq!(parse_timestamps(report).unwrap(), vec![dec("2.25")]);
    assert_eq!(parse_timestamps("").unwrap(), vec![]);
}

#[test]
fn scene_cache_round_trip() {
    let stamps = vec![dec("9.760000"), dec("13.513"), dec("22")];
    let text = scene_cache_text(&stamps);
    assert_eq!(text, "9.760000\n13.513\n22");
    assert_eq!(parse_scene_cache(&text).unwrap(), stamps);
    assert_eq!(scene_cache_text(&vec![]), "");
    assert_eq!(parse_scene_cache("").unwrap(), vec![]);
}

#[test]
fn captures_are_read_in_order() {
    let groups = vec![Some("1.5".to_string()), None, Some("2.25".to_string())];
    assert_eq!(parse_captures(&groups).unwrap(), vec![dec("1.5"), dec("2.25")]);
    let bad = vec![Some("1.5".to_string()), Some("x".to_string()), Some("y".to_string())];
    assert_eq!(parse_captures(&bad), Err(Error::Decimal("x".to_string())));
    assert_eq!(parse_captures(&vec![None, None]).unwrap(), vec![]);
}

#[test]
fn media_duration() {
    assert_eq!(parse_media_duration("123.456000\n").unwrap(), dec("123.456"));
    assert_eq!(parse_media_duration("N/A\n"), Err(Error::Decimal("N/A".to_string())));
    let r = media_duration_probe("/v/in.mkv");
    assert_eq!(r.binary, "ffprobe");
    assert_eq!(
        r.args,
        strings(&["-v", "error", "-show_entries", "format=duration", "-of", "default=noprint_wrappers=1:nokey=1", "/v/in.mkv"])
    );
}

#[test]
fn scene_cache_refuses_bad_lines() {
    assert_eq!(parse_scene_cache("1.5\nx\n2"), Err(Error::Decimal("x".to_string())));
    assert_eq!(parse_scene_cache("1.5\n"), Err(Error::Decimal(String::new())));
}

#[test]
fn scene_detection_arguments() {
    let r = scene_detection("/v/in.mkv", ".1");
    assert_eq!(r.binary, "ffprobe");
    assert_eq!(
        r.args,
        strings(&["-show_frames", "-of", "compact=p=0", "-f", "lavfi", "movie=/v/in.mkv,select=gt(scene\\,.1)"])
    );
    assert_eq!(r.current_dir, None);
}

#[test]
fn stepper_layout() {
    let s = FfmpegStepper::try_new("/tmp/w/ffmpeg", "/v/in.mkv".to_string(), 18, 60).unwrap();
    assert_eq!(s.frames_dir(), "/tmp/w/ffmpeg/frames");
    assert_eq!(s.videos_dir, "/tmp/w/ffmpeg/videos");
    assert_eq!(s.scene_file, "/tmp/w/ffmpeg/scene_timestamps.txt");
    assert_eq!(s.concat_file, "/tmp/w/ffmpeg/concat.txt");
    assert_eq!(s.video_file, "/tmp/w/ffmpeg/video.mkv");
    assert_eq!(s.clip_path(7), "/tmp/w/ffmpeg/videos/7.mkv");
}

#[test]
fn stepper_needs_an_extension() {
    assert_eq!(
        FfmpegStepper::try_new("/w", "/v/input".to_string(), 18, 60).unwrap_err(),
        Error::MissingExtension("/v/input".to_string())
    );
    assert_eq!(get_extension("/v/a.b.mp4").unwrap(), "mp4");
    assert!(get_extension("/v/.hidden").is_err());
}

#[test]
fn extraction_arguments() {
    let s = FfmpegStepper::try_new("/w", "/v/in.mkv".to_string(), 18, 60).unwrap();
    let w = TimeRange {
        start: dec("522.981"),
        end: NonZeroDecimal::try_new(dec("543")).unwrap(),
    };
    let r = s.extract_frames(&w).unwrap();
    assert_eq!(r.binary, "ffmpeg");
    assert_eq!(
        r.args,
        strings(&["-ss", "522.981", "-i", "/v/in.mkv", "-t", "20.019", "-frame_pts", "true", "/w/frames/frame_%08d.png"])
    );
    let tiny = TimeRange { start: dec("1"), end: NonZeroDecimal::try_new(dec("1.0001")).unwrap() };
    assert_eq!(s.extract_frames(&tiny).unwrap_err(), Error::EmptyWindow(dec("1"), dec("1.0001")));
}

#[test]
fn encoding_arguments() {
    let s = FfmpegStepper::try_new("/w", "/v/in.mkv".to_string(), 18, 60).unwrap();
    let r = s.frames_to_video(3, "/g".to_string());
    assert_eq!(
        r.args,
        strings(&["-y", "-framerate", "60", "-pattern_type", "glob", "-i", "*.png", "-crf", "18", "-c:v", "libx264", "-pix_fmt", "yuv420p", "/w/videos/3.mkv"])
    );
    assert_eq!(r.current_dir, Some("/g".to_string()));
}

#[test]
fn manifest_is_in_index_order() {
    let s = FfmpegStepper::try_new("/w", "/v/in.mkv".to_string(), 18, 60).unwrap();
    let lines: Vec<String> = (0..12).map(|i| format!("file /w/videos/{i}.mkv")).collect();
    assert_eq!(s.concat_manifest(12), lines.join("\n"));
    assert_eq!(s.concat_manifest(0), "");
}

#[test]
fn aggregate_concatenates_then_remuxes() {
    let s = FfmpegStepper::try_new("/w", "/v/in.mkv".to_string(), 18, 60).unwrap();
    let runs = s.aggregate("/out.mkv");
    assert_eq!(runs.len(), 2);
    assert_eq!(
        runs[0].args,
        strings(&["-y", "-f", "concat", "-safe", "0", "-i", "/w/concat.txt", "-c", "copy", "/w/video.mkv"])
    );
    assert_eq!(
        runs[1].args,
        strings(&["-ignore_unknown", "-y", "-i", "/w/video.mkv", "-vn", "-i", "/v/in.mkv", "-map", "0", "-c:v", "copy", "-map", "1", "-c:a", "copy", "-c:s", "copy", "-map_chapters", "1", "-max_interleave_delta", "0", "/out.mkv"])
    );
}

#[test]
fn audio_and_plain_runs() {
    let r = extract_audio("/v/in.mkv", "/w/a.mka");
    assert_eq!(r.args, strings(&["-y", "-i", "/v/in.mkv", "-map", "0:a", "-c", "copy", "/w/a.mka"]));
    let r = ffmpeg(strings(&["-version"]));
    assert_eq!(r.binary, "ffmpeg");
    assert_eq!(r.args, strings(&["-version"]));
}

fn generator() -> FrameGenerator {
    FrameGenerator {
        binary: "/bin/gen".to_string(),
        model: "/m".to_string(),
        fps: FPS::Sixty,
        input_dir: "/w/frames".to_string(),
        output_dir: "/w/generated_frames".to_string(),
        extra_args: strings(&["-g", "0,-1"]),
    }
}

#[test]
fn frame_count_rounds_product() {
    let g = generator();
    let d = |t: &str| NonZeroDecimal::try_new(dec(t)).unwrap();
    assert_eq!(g.frame_count(d("9.76")).unwrap(), dec("586"));
    assert_eq!(g.frame_count(d("0.025")).unwrap(), dec("2"));
    assert_eq!(g.frame_count(d("0.0083")).unwrap(), dec("0"));
    assert_eq!(g.frame_count(d("0.0125")).unwrap(), dec("1"));
    assert_eq!(
        g.frame_count(d("7922816251426433759354395033")).unwrap_err(),
        Error::MultiplicationOverflow(dec("60"), dec("7922816251426433759354395033"))
    );
}

#[test]
fn generator_arguments() {
    let g = generator();
    let r = g.execute(NonZeroDecimal::try_new(dec("9.76")).unwrap()).unwrap();
    assert_eq!(r.binary, "/bin/gen");
    assert_eq!(
        r.args,
        strings(&["-m", "/m", "-i", "/w/frames", "-o", "/w/generated_frames", "-n", "586", "-g", "0,-1"])
    );
}

#[test]
fn fps_and_workspace() {
    assert_eq!(FPS::Sixty.non_zero_usize(), 60);
    assert_eq!(FPS::default(), FPS::Sixty);
    let t = ReusableTempDir::try_new("/w".to_string(), ResetData::Nothing);
    assert_eq!(t.base_dir(), "/w");
    assert_eq!(t.ffmpeg_dir(), "/w/ffmpeg");
    assert_eq!(t.generated_frames_dir(), "/w/generated_frames");
    assert_eq!(t.reset_data(), ResetData::Nothing);
    assert!(ResetData::Everything.wipes_workspace());
    assert!(!ResetData::Nothing.wipes_workspace());
    assert_eq!(ResetData::default().name(), "everything");
}

#[test]
fn cli_checks() {
    assert_eq!(can_be_decimal(".1").unwrap(), ".1");
    assert_eq!(can_be_decimal("0"), Err(Error::Decimal("0".to_string())));
    assert_eq!(can_be_decimal("x"), Err(Error::Decimal("x".to_string())));
    assert_eq!(ai_args_for(4), "-g 0,-1 -j 3:3,16:32:16");
    assert_eq!(ai_args_for(1), "-g 0,-1 -j 0:0,16:32:16");
}
