//! Scene-aware window planning and a resumable pipeline that raises a video's
//! frame rate with outside tools.
pub mod cli;
pub mod command;
pub mod decimal;
pub mod time_ranges;
pub mod error;
pub mod ffmpeg;
pub mod fps;
pub mod frame_generator;
pub mod reusable_temp_dir;
pub mod scenes;

pub use decimal::Decimal;
pub use decimal::NonZeroDecimal;
pub use time_ranges::TimeRange;
pub use time_ranges::TimeRanges;
pub use error::Error;
pub use command::Requirements;
pub use ffmpeg::FfmpegStepper;
pub use fps::FPS;
pub use frame_generator::FrameGenerator;
pub use reusable_temp_dir::ResetData;
pub use reusable_temp_dir::ReusableTempDir;
