//! The catalog: which renditions a broadcast carries and how to decode them.
//! It travels as a JSON document on a track of its own.

use vstd::prelude::*;

verus! {

/// Priority of the catalog's sections and of the media tracks.
pub const MEDIA_PRIORITY: u8 = 2;

#[derive(Debug, Clone, Copy, PartialEq, Eq, Structural)]
pub struct H264 {
    pub profile: u8,
    pub constraints: u8,
    pub level: u8,
}

#[derive(Debug, Clone, Copy, PartialEq, Eq, Structural)]
pub struct H265 {
    /// Parameter sets travel in band (`hev1`) rather than in the description (`hvc1`).
    pub in_band: bool,
    pub profile_space: u8,
    pub profile_idc: u8,
    pub profile_compatibility_flags: u32,
    pub tier_flag: bool,
    pub level_idc: u8,
    pub constraint_flags: u64,
}

#[derive(Debug, Clone, Copy, PartialEq, Eq, Structural)]
pub struct VP9 {
    pub profile: u8,
    pub level: u8,
    pub bit_depth: u8,
    pub color_primaries: u8,
    pub chroma_subsampling: u8,
    pub transfer_characteristics: u8,
    pub matrix_coefficients: u8,
    pub full_range: bool,
}

#[derive(Debug, Clone, Copy, PartialEq, Eq, Structural)]
pub struct AV1 {
    pub profile: u8,
    pub level: u8,
    pub bitdepth: u8,
    pub mono_chrome: bool,
    pub chroma_subsampling_x: bool,
    pub chroma_subsampling_y: bool,
    pub chroma_sample_position: u8,
}

#[derive(Debug, Clone, Copy, PartialEq, Eq, Structural)]
pub enum VideoCodec {
    H264(H264),
    H265(H265),
    VP8,
    VP9(VP9),
    AV1(AV1),
}

#[derive(Debug, Clone, Copy, PartialEq, Eq, Structural)]
pub enum AudioCodec {
    AAC { profile: u8 },
    Opus,
}

#[derive(Debug, Clone)]
pub struct VideoConfig {
    pub codec: VideoCodec,
    /// Codec-private bytes (the `avcC` or `hvcC` body).
    pub description: Option<Vec<u8>>,
    pub coded_width: Option<u32>,
    pub coded_height: Option<u32>,
    pub bitrate: Option<u64>,
}

#[derive(Debug, Clone)]
pub struct AudioConfig {
    pub codec: AudioCodec,
    pub sample_rate: u32,
    pub channel_count: u32,
    pub bitrate: Option<u64>,
    pub description: Option<Vec<u8>>,
}

pub struct VideoConfigView {
    pub codec: VideoCodec,
    pub description: Option<Seq<u8>>,
    pub coded_width: Option<u32>,
    pub coded_height: Option<u32>,
    pub bitrate: Option<u64>,
}

pub struct AudioConfigView {
    pub codec: AudioCodec,
    pub sample_rate: u32,
    pub channel_count: u32,
    pub bitrate: Option<u64>,
    pub description: Option<Seq<u8>>,
}

pub open spec fn bytes_view(b: Option<Vec<u8>>) -> Option<Seq<u8>> {
    match b {
        Some(v) => Some(v@),
        None => None,
    }
}

impl View for VideoConfig {
    type V = VideoConfigView;

    open spec fn view(&self) -> VideoConfigView {
        VideoConfigView {
            codec: self.codec,
            description: bytes_view(self.description),
            coded_width: self.coded_width,
            coded_height: self.coded_height,
            bitrate: self.bitrate,
        }
    }
}

impl View for AudioConfig {
    type V = AudioConfigView;

    open spec fn view(&self) -> AudioConfigView {
        AudioConfigView {
            codec: self.codec,
            sample_rate: self.sample_rate,
            channel_count: self.channel_count,
            bitrate: self.bitrate,
            description: bytes_view(self.description),
        }
    }
}

#[derive(Debug, Clone)]
pub struct Video {
    /// Rendition name and its configuration, in the order of the movie's tracks.
    pub renditions: Vec<(String, VideoConfig)>,
    pub priority: u8,
}

#[derive(Debug, Clone)]
pub struct Audio {
    pub renditions: Vec<(String, AudioConfig)>,
    pub priority: u8,
}

/// A broadcast's catalog; a section is present when it has a rendition.
#[derive(Debug, Clone)]
pub struct Catalog {
    pub video: Option<Video>,
    pub audio: Option<Audio>,
}

} // verus!
