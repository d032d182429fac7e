//! CMAF ingest: turns the boxes of a fragmented MP4 stream into a catalog
//! and timestamped frames, one track per `trak`.
//!
//! The boxes arrive already decoded, as the plain values below; this module
//! holds the rules: which box may follow which, where each sample lies in the
//! `mdat`, its timestamp, and whether it starts a group.

use crate::catalog::{
    Audio, AudioCodec, AudioConfig, AudioConfigView, Catalog, Video, VideoCodec, VideoConfig,
    VideoConfigView, AV1, H264, H265, MEDIA_PRIORITY, VP9,
};
use crate::coding::{append_bytes, copy_range, string_from_utf8};
use vstd::utf8::{
    encode_utf8, encode_utf8_decode_utf8, encode_utf8_valid_utf8, is_ascii_chars,
    is_ascii_chars_encode_utf8,
};
use vstd::prelude::*;
use std::collections::HashMap;

verus! {

broadcast use vstd::std_specs::hash::group_hash_axioms;

/// The media formats an ingest can read.
#[derive(Debug, Clone, Copy, PartialEq, Eq, Structural)]
pub enum ImportType {
    /// Raw H.264 in Annex B framing.
    AnnexB,
    /// Fragmented MP4.
    Cmaf,
}

/// The boxes that the ingest names in its errors.
#[derive(Debug, Clone, Copy, PartialEq, Eq, Structural)]
pub enum BoxKind {
    Ftyp,
    Styp,
    Moov,
    Moof,
    Mdat,
    Tfdt,
    Trun,
}

/// Kinds of track that the ingest refuses.
#[derive(Debug, Clone, Copy, PartialEq, Eq, Structural)]
pub enum TrackKind {
    Subtitle,
    Unknown,
}

#[derive(Debug, Clone, Copy, PartialEq, Eq, Structural)]
pub enum Error {
    /// A box that the current one depends on has not been seen.
    MissingBox(BoxKind),
    /// Two boxes of this kind in a row.
    DuplicateBox(BoxKind),
    /// The stream did not start with this box.
    ExpectedBox(BoxKind),
    /// A fragment refers to a track that the movie does not declare.
    UnknownTrack,
    /// A sample lies outside its `mdat`.
    InvalidOffset,
    /// A sample's timestamp is negative or does not fit in 64 bits of microseconds.
    InvalidTimestamp,
    /// A track's sample description holds no codec.
    MissingCodec,
    /// A track's sample description holds several codecs.
    MultipleCodecs,
    /// A codec with this four-character code is not supported.
    UnsupportedCodec(u32),
    /// An MPEG-4 audio stream whose object type is not AAC.
    UnsupportedObjectType(u8),
    /// A codec that does not belong to the track's kind.
    UnknownCodec,
    /// A track that is neither video nor audio.
    UnsupportedTrack(TrackKind),
    /// Bytes were left over at the end of the stream.
    TrailingData,
}

/// The handler of a `trak`.
#[derive(Debug, Clone, Copy, PartialEq, Eq, Structural)]
pub enum Handler {
    Video,
    Audio,
    Subtitle,
    Other,
}

/// What the ingest reads of a `trak` to place and time its samples.
#[derive(Debug, Clone, Copy, PartialEq, Eq, Structural)]
pub struct TrakHeader {
    pub track_id: u32,
    pub handler: Handler,
    /// Units per second of the track's `mdhd`.
    pub timescale: u32,
}

/// A sample description of the `stsd`.
#[derive(Debug, Clone)]
pub enum SampleEntry {
    Avc1 { width: u16, height: u16, profile: u8, constraints: u8, level: u8, description: Vec<u8> },
    Hev1 { width: u16, height: u16, hvcc: Hvcc },
    Hvc1 { width: u16, height: u16, hvcc: Hvcc },
    Vp08 { width: u16, height: u16 },
    Vp09 { width: u16, height: u16, vpcc: VP9 },
    Av01 { width: u16, height: u16, av1c: Av1c },
    Mp4a {
        object_type_indication: u8,
        avg_bitrate: u32,
        max_bitrate: u32,
        profile: u8,
        sample_rate: u16,
        channel_count: u16,
    },
    Opus { sample_rate: u16, channel_count: u16 },
    /// A description of another known kind.
    Other,
    /// A description with an unrecognised four-character code.
    Unknown(u32),
}

/// The HEVC decoder configuration, with its encoded body.
#[derive(Debug, Clone)]
pub struct Hvcc {
    pub profile_space: u8,
    pub profile_idc: u8,
    pub profile_compatibility_flags: u32,
    pub tier_flag: bool,
    pub level_idc: u8,
    pub constraint_flags: u64,
    pub description: Vec<u8>,
}

#[derive(Debug, Clone, Copy, PartialEq, Eq, Structural)]
pub struct Av1c {
    pub seq_profile: u8,
    pub seq_level_idx_0: u8,
    pub seq_tier_0: bool,
    pub high_bitdepth: bool,
    pub monochrome: bool,
    pub chroma_subsampling_x: bool,
    pub chroma_subsampling_y: bool,
    pub chroma_sample_position: u8,
}

#[derive(Debug, Clone)]
pub struct Trak {
    pub header: TrakHeader,
    /// The codecs of the `stsd`.
    pub codecs: Vec<SampleEntry>,
}

/// Per-track defaults of the `mvex`.
#[derive(Debug, Clone, Copy, PartialEq, Eq, Structural)]
pub struct Trex {
    pub track_id: u32,
    pub default_sample_duration: u32,
    pub default_sample_size: u32,
    pub default_sample_flags: u32,
}

#[derive(Debug, Clone)]
pub struct Moov {
    pub trak: Vec<Trak>,
    /// Empty when the movie has no `mvex`.
    pub trex: Vec<Trex>,
}

#[derive(Debug, Clone, Copy, PartialEq, Eq, Structural)]
pub struct Tfhd {
    pub track_id: u32,
    pub base_data_offset: Option<u64>,
    pub default_sample_duration: Option<u32>,
    pub default_sample_size: Option<u32>,
    pub default_sample_flags: Option<u32>,
}

#[derive(Debug, Clone, Copy, PartialEq, Eq, Structural)]
pub struct TrunEntry {
    pub duration: Option<u32>,
    pub size: Option<u32>,
    pub flags: Option<u32>,
    pub cts: Option<i32>,
}

#[derive(Debug, Clone)]
pub struct Trun {
    pub data_offset: Option<i32>,
    pub entries: Vec<TrunEntry>,
}

#[derive(Debug, Clone)]
pub struct Traf {
    pub tfhd: Tfhd,
    /// The `base_media_decode_time` of the `tfdt`, if there is one.
    pub tfdt: Option<u64>,
    pub trun: Vec<Trun>,
}

#[derive(Debug, Clone)]
pub struct Moof {
    pub traf: Vec<Traf>,
}

/// One top-level box of the stream.
#[derive(Debug, Clone)]
pub enum Atom {
    Ftyp,
    Styp,
    Moov(Moov),
    Moof(Moof),
    /// The payload of an `mdat`, without its header.
    Mdat(Vec<u8>),
    /// Any other box, which is skipped.
    Other,
}

/// One sample, ready to be written to its track.
#[derive(Debug, Clone)]
pub struct SampleFrame {
    pub track_id: u32,
    /// Microseconds since the start of the track.
    pub timestamp: u64,
    pub keyframe: bool,
    pub payload: Vec<u8>,
}

pub struct TrunView {
    pub data_offset: Option<i32>,
    pub entries: Seq<TrunEntry>,
}

impl View for Trun {
    type V = TrunView;

    open spec fn view(&self) -> TrunView {
        TrunView { data_offset: self.data_offset, entries: self.entries@ }
    }
}

pub struct TrafView {
    pub tfhd: Tfhd,
    pub tfdt: Option<u64>,
    pub trun: Seq<TrunView>,
}

impl View for Traf {
    type V = TrafView;

    open spec fn view(&self) -> TrafView {
        TrafView { tfhd: self.tfhd, tfdt: self.tfdt, trun: self.trun@.map_values(|t: Trun| t@) }
    }
}

impl View for Moof {
    type V = Seq<TrafView>;

    open spec fn view(&self) -> Seq<TrafView> {
        self.traf@.map_values(|t: Traf| t@)
    }
}

pub struct FrameView {
    pub track_id: u32,
    pub timestamp: u64,
    pub keyframe: bool,
    pub payload: Seq<u8>,
}

impl View for SampleFrame {
    type V = FrameView;

    open spec fn view(&self) -> FrameView {
        FrameView {
            track_id: self.track_id,
            timestamp: self.timestamp,
            keyframe: self.keyframe,
            payload: self.payload@,
        }
    }
}

/// The headers of a movie's tracks, in order.
pub open spec fn trak_headers(moov: Moov) -> Seq<TrakHeader> {
    moov.trak@.map_values(|t: Trak| t.header)
}

/// The first header in `hs` at or after `i` with this track id.
pub open spec fn find_trak(hs: Seq<TrakHeader>, id: u32, i: int) -> Option<TrakHeader>
    decreases hs.len() - i,
{
    if i < 0 || i >= hs.len() {
        None
    } else if hs[i].track_id == id {
        Some(hs[i])
    } else {
        find_trak(hs, id, i + 1)
    }
}

/// The first `trex` at or after `i` with this track id.
pub open spec fn find_trex(ts: Seq<Trex>, id: u32, i: int) -> Option<Trex>
    decreases ts.len() - i,
{
    if i < 0 || i >= ts.len() {
        None
    } else if ts[i].track_id == id {
        Some(ts[i])
    } else {
        find_trex(ts, id, i + 1)
    }
}

/// The ids of the audio tracks among `hs`, in order.
pub open spec fn audio_ids(hs: Seq<TrakHeader>) -> Seq<u32>
    decreases hs.len(),
{
    if hs.len() == 0 {
        Seq::empty()
    } else if hs.last().handler == Handler::Audio {
        audio_ids(hs.drop_last()).push(hs.last().track_id)
    } else {
        audio_ids(hs.drop_last())
    }
}

/// `m` without the keys of `ids`.
pub open spec fn remove_all(m: Map<u32, u64>, ids: Seq<u32>) -> Map<u32, u64>
    decreases ids.len(),
{
    if ids.len() == 0 {
        m
    } else {
        remove_all(m, ids.drop_last()).remove(ids.last())
    }
}

/// A video sample starts a group when it depends on no other sample and is
/// not marked as a non-sync sample.
pub open spec fn is_sync_sample(flags: u32) -> bool {
    (flags >> 24u32) & 0x3 == 0x2 && (flags >> 16u32) & 0x1 == 0
}

/// An audio sample is forced to be a keyframe at most this many microseconds
/// after the previous one.
pub const AUDIO_KEYFRAME_INTERVAL: u64 = 10_000_000;

/// The presentation time in microseconds of a sample decoded at `dts` with
/// composition offset `cts`, in units of `timescale` per second; `None` when
/// it is negative, the timescale is zero, or it does not fit in 64 bits.
pub open spec fn timestamp_of(dts: u64, cts: i32, timescale: u32) -> Option<u64> {
    let pts = dts as int + cts as int;
    if pts < 0 || timescale == 0 {
        None
    } else {
        let t = (1_000_000 * pts) / (timescale as int);
        if t > u64::MAX {
            None
        } else {
            Some(t as u64)
        }
    }
}

/// What one track fragment needs besides its samples.
#[derive(Clone, Copy)]
pub struct TrafCtx {
    pub track_id: u32,
    pub video: bool,
    pub timescale: u32,
    pub default_duration: u32,
    pub default_size: u32,
    pub default_flags: u32,
    pub base_offset: u64,
}

/// Where the walk over the samples stands.
pub struct Walk {
    pub dts: u64,
    /// Offset of the next sample in the `mdat` payload.
    pub offset: int,
    /// Timestamp of the last keyframe of each track.
    pub clock: Map<u32, u64>,
    pub frames: Seq<FrameView>,
}

/// Whether a sample starts a group.
pub open spec fn keyframe_of(c: TrafCtx, clock: Map<u32, u64>, flags: u32, ts: u64) -> bool {
    if c.video {
        is_sync_sample(flags)
    } else {
        !clock.contains_key(c.track_id) || ts - clock[c.track_id] > AUDIO_KEYFRAME_INTERVAL
    }
}

/// One sample of a `trun`.
pub open spec fn sample_step(
    c: TrafCtx,
    audio: Seq<u32>,
    mdat: Seq<u8>,
    e: TrunEntry,
    w: Walk,
) -> Result<Walk, Error> {
    let flags = match e.flags {
        Some(f) => f,
        None => c.default_flags,
    };
    let duration = match e.duration {
        Some(d) => d,
        None => c.default_duration,
    };
    let size = match e.size {
        Some(s) => s,
        None => c.default_size,
    };
    let cts = match e.cts {
        Some(x) => x,
        None => 0,
    };
    match timestamp_of(w.dts, cts, c.timescale) {
        None => Err(Error::InvalidTimestamp),
        Some(ts) => if w.offset + size > mdat.len() {
            Err(Error::InvalidOffset)
        } else if w.dts + duration > u64::MAX {
            Err(Error::InvalidTimestamp)
        } else {
            let key = keyframe_of(c, w.clock, flags, ts);
            let cleared = if c.video && key {
                remove_all(w.clock, audio)
            } else {
                w.clock
            };
            let clock = if key {
                cleared.insert(c.track_id, ts)
            } else {
                cleared
            };
            let frame = FrameView {
                track_id: c.track_id,
                timestamp: ts,
                keyframe: key,
                payload: mdat.subrange(w.offset, w.offset + size),
            };
            Ok(
                Walk {
                    dts: (w.dts + duration) as u64,
                    offset: w.offset + size,
                    clock,
                    frames: w.frames.push(frame),
                },
            )
        },
    }
}

/// The samples `es[i..]`, in order.
pub open spec fn samples_from(
    c: TrafCtx,
    audio: Seq<u32>,
    mdat: Seq<u8>,
    es: Seq<TrunEntry>,
    i: int,
    w: Walk,
) -> Result<Walk, Error>
    decreases es.len() - i,
{
    if i < 0 || i >= es.len() {
        Ok(w)
    } else {
        match sample_step(c, audio, mdat, es[i], w) {
            Err(e) => Err(e),
            Ok(w2) => samples_from(c, audio, mdat, es, i + 1, w2),
        }
    }
}

/// Where the first sample of a `trun` lies in the `mdat` payload. A data
/// offset counts from the start of the `moof`.
pub open spec fn trun_offset(
    c: TrafCtx,
    data_offset: Option<i32>,
    moof_size: int,
    header_size: int,
    offset: int,
) -> Result<int, Error> {
    match data_offset {
        None => Ok(offset),
        Some(d) => {
            let o = c.base_offset + d - moof_size - header_size;
            if d < moof_size || o < 0 || o > u64::MAX {
                Err(Error::InvalidOffset)
            } else {
                Ok(o)
            }
        },
    }
}

/// The `trun`s `ts[i..]` of one track fragment, in order.
pub open spec fn truns_from(
    c: TrafCtx,
    audio: Seq<u32>,
    mdat: Seq<u8>,
    moof_size: int,
    header_size: int,
    ts: Seq<TrunView>,
    i: int,
    w: Walk,
) -> Result<Walk, Error>
    decreases ts.len() - i,
{
    if i < 0 || i >= ts.len() {
        Ok(w)
    } else {
        match trun_offset(c, ts[i].data_offset, moof_size, header_size, w.offset) {
            Err(e) => Err(e),
            Ok(o) => match samples_from(
                c,
                audio,
                mdat,
                ts[i].entries,
                0,
                Walk { offset: o, ..w },
            ) {
                Err(e) => Err(e),
                Ok(w2) => truns_from(c, audio, mdat, moof_size, header_size, ts, i + 1, w2),
            },
        }
    }
}

/// The context of a track fragment of track `h`, with the movie's defaults
/// `trex`.
pub open spec fn traf_ctx(h: TrakHeader, trex: Option<Trex>, tfhd: Tfhd) -> TrafCtx {
    let (dd, ds, df) = match trex {
        Some(t) => (t.default_sample_duration, t.default_sample_size, t.default_sample_flags),
        None => (0u32, 0u32, 0u32),
    };
    TrafCtx {
        track_id: tfhd.track_id,
        video: h.handler == Handler::Video,
        timescale: h.timescale,
        default_duration: match tfhd.default_sample_duration {
            Some(d) => d,
            None => dd,
        },
        default_size: match tfhd.default_sample_size {
            Some(s) => s,
            None => ds,
        },
        default_flags: match tfhd.default_sample_flags {
            Some(f) => f,
            None => df,
        },
        base_offset: match tfhd.base_data_offset {
            Some(b) => b,
            None => 0,
        },
    }
}

/// The track fragments `fs[i..]` of a `moof` followed by an `mdat` with this
/// payload and header size.
pub open spec fn trafs_from(
    moov: Moov,
    tracks: Map<u32, Seq<char>>,
    mdat: Seq<u8>,
    moof_size: int,
    header_size: int,
    fs: Seq<TrafView>,
    i: int,
    w: Walk,
) -> Result<Walk, Error>
    decreases fs.len() - i,
{
    if i < 0 || i >= fs.len() {
        Ok(w)
    } else {
        let f = fs[i];
        let id = f.tfhd.track_id;
        let hs = trak_headers(moov);
        if !tracks.contains_key(id) {
            Err(Error::UnknownTrack)
        } else {
            match find_trak(hs, id, 0) {
                None => Err(Error::UnknownTrack),
                Some(h) => match f.tfdt {
                    None => Err(Error::MissingBox(BoxKind::Tfdt)),
                    Some(base_time) => if f.trun.len() == 0 {
                        Err(Error::MissingBox(BoxKind::Trun))
                    } else {
                        let c = traf_ctx(h, find_trex(moov.trex@, id, 0), f.tfhd);
                        match truns_from(
                            c,
                            audio_ids(hs),
                            mdat,
                            moof_size,
                            header_size,
                            f.trun,
                            0,
                            Walk { dts: base_time, offset: c.base_offset as int, ..w },
                        ) {
                            Err(e) => Err(e),
                            Ok(w2) => trafs_from(
                                moov,
                                tracks,
                                mdat,
                                moof_size,
                                header_size,
                                fs,
                                i + 1,
                                w2,
                            ),
                        }
                    },
                },
            }
        }
    }
}

/// A video keyframe clears the keyframe time of every audio track, so the
/// next sample of each audio track starts a group.
pub proof fn lemma_video_keyframe_forces_audio(
    c: TrafCtx,
    clock: Map<u32, u64>,
    audio: Seq<u32>,
    id: u32,
    flags: u32,
    ts: u64,
)
    requires
        audio.contains(id),
    ensures
        !remove_all(clock, audio).contains_key(id),
        keyframe_of(TrafCtx { track_id: id, video: false, ..c }, remove_all(clock, audio), flags, ts),
    decreases audio.len(),
{
    lemma_remove_all(clock, audio, id);
}

/// `remove_all` removes each of the ids and keeps every other key.
pub proof fn lemma_remove_all(m: Map<u32, u64>, ids: Seq<u32>, id: u32)
    ensures
        ids.contains(id) ==> !remove_all(m, ids).contains_key(id),
        !ids.contains(id) ==> (remove_all(m, ids).contains_key(id) == m.contains_key(id) && (
        m.contains_key(id) ==> remove_all(m, ids)[id] == m[id])),
    decreases ids.len(),
{
    if ids.len() > 0 {
        lemma_remove_all(m, ids.drop_last(), id);
        if ids.contains(id) && ids.last() != id {
            let i = choose|i: int| 0 <= i < ids.len() && ids[i] == id;
            assert(ids.drop_last()[i] == id);
        }
        if !ids.contains(id) {
            assert(!ids.drop_last().contains(id)) by {
                if ids.drop_last().contains(id) {
                    let i = choose|i: int| 0 <= i < ids.drop_last().len() && ids.drop_last()[i] == id;
                    assert(ids[i] == id);
                }
            }
            assert(ids[ids.len() - 1] != id);
        }
    }
}

/// An audio sample starts a group exactly when its track has no keyframe
/// time, or more than ten seconds passed since it.
pub proof fn lemma_audio_keyframe(c: TrafCtx, clock: Map<u32, u64>, flags: u32, ts: u64)
    requires
        !c.video,
    ensures
        keyframe_of(c, clock, flags, ts) == (!clock.contains_key(c.track_id) || ts
            > clock[c.track_id] + AUDIO_KEYFRAME_INTERVAL),
{
}

/// A video sample starts a group exactly when it depends on no other sample
/// and is a sync sample.
pub proof fn lemma_video_keyframe(c: TrafCtx, clock: Map<u32, u64>, flags: u32, ts: u64)
    requires
        c.video,
    ensures
        keyframe_of(c, clock, flags, ts) == ((flags >> 24u32) & 0x3 == 0x2 && (flags >> 16u32)
            & 0x1 == 0),
        keyframe_of(c, clock, 0x0200_0000, ts),
        !keyframe_of(c, clock, 0x0101_0000, ts),
{
    assert((0x0200_0000u32 >> 24u32) & 0x3 == 0x2 && (0x0200_0000u32 >> 16u32) & 0x1 == 0)
        by (bit_vector);
    assert((0x0101_0000u32 >> 24u32) & 0x3 != 0x2) by (bit_vector);
}

/// A `trun` whose data offset points inside its own `moof` is refused, and
/// so is the whole fragment once it is reached.
pub proof fn lemma_offset_inside_moof(
    c: TrafCtx,
    audio: Seq<u32>,
    mdat: Seq<u8>,
    moof_size: int,
    header_size: int,
    ts: Seq<TrunView>,
    i: int,
    w: Walk,
)
    requires
        0 <= i < ts.len(),
        ts[i].data_offset matches Some(d) && 0 <= d < moof_size,
    ensures
        trun_offset(c, ts[i].data_offset, moof_size, header_size, w.offset) == Err::<int, Error>(
            Error::InvalidOffset,
        ),
        truns_from(c, audio, mdat, moof_size, header_size, ts, i, w) == Err::<Walk, Error>(
            Error::InvalidOffset,
        ),
{
}

/// A timestamp is the presentation time scaled to microseconds and rounded
/// down: 3000 units at 90 kHz is 33333 microseconds.
pub proof fn lemma_timestamp_example()
    ensures
        timestamp_of(3000, 0, 90000) == Some(33333u64),
        timestamp_of(0, 0, 48000) == Some(0u64),
{
    assert((1_000_000 * 3000int) / 90000int == 33333);
}

/// The walk as the executable state holds it.
pub open spec fn walk_of(
    dts: u64,
    offset: u64,
    clock: Map<u32, u64>,
    frames: Seq<SampleFrame>,
) -> Walk {
    Walk { dts, offset: offset as int, clock, frames: frames.map_values(|f: SampleFrame| f@) }
}

fn find_trak_header(trak: &Vec<Trak>, id: u32) -> (r: Option<TrakHeader>)
    ensures
        r == find_trak(trak@.map_values(|t: Trak| t.header), id, 0),
{
    let ghost hs = trak@.map_values(|t: Trak| t.header);
    let mut i: usize = 0;
    while i < trak.len()
        invariant
            i <= trak@.len(),
            hs == trak@.map_values(|t: Trak| t.header),
            find_trak(hs, id, 0) == find_trak(hs, id, i as int),
        decreases trak@.len() - i,
    {
        if trak[i].header.track_id == id {
            return Some(trak[i].header);
        }
        i = i + 1;
    }
    None
}

fn find_trex_defaults(trex: &Vec<Trex>, id: u32) -> (r: Option<Trex>)
    ensures
        r == find_trex(trex@, id, 0),
{
    let mut i: usize = 0;
    while i < trex.len()
        invariant
            i <= trex@.len(),
            find_trex(trex@, id, 0) == find_trex(trex@, id, i as int),
        decreases trex@.len() - i,
    {
        if trex[i].track_id == id {
            return Some(trex[i]);
        }
        i = i + 1;
    }
    None
}

fn audio_track_ids(trak: &Vec<Trak>) -> (r: Vec<u32>)
    ensures
        r@ == audio_ids(trak@.map_values(|t: Trak| t.header)),
{
    let ghost hs = trak@.map_values(|t: Trak| t.header);
    let mut r: Vec<u32> = Vec::new();
    let mut i: usize = 0;
    while i < trak.len()
        invariant
            i <= trak@.len(),
            hs == trak@.map_values(|t: Trak| t.header),
            r@ == audio_ids(hs.take(i as int)),
        decreases trak@.len() - i,
    {
        assert(hs.take(i + 1).drop_last() =~= hs.take(i as int));
        if trak[i].header.handler == Handler::Audio {
            r.push(trak[i].header.track_id);
        }
        i = i + 1;
    }
    assert(hs.take(i as int) =~= hs);
    r
}

fn forget_keyframes(clock: &mut HashMap<u32, u64>, ids: &Vec<u32>)
    ensures
        final(clock)@ == remove_all(old(clock)@, ids@),
{
    let mut i: usize = 0;
    while i < ids.len()
        invariant
            i <= ids@.len(),
            clock@ == remove_all(old(clock)@, ids@.take(i as int)),
        decreases ids@.len() - i,
    {
        assert(ids@.take(i + 1).drop_last() =~= ids@.take(i as int));
        clock.remove(&ids[i]);
        i = i + 1;
    }
    assert(ids@.take(i as int) =~= ids@);
}

/// The presentation time in microseconds; see `timestamp_of`.
pub fn timestamp(dts: u64, cts: i32, timescale: u32) -> (r: Option<u64>)
    ensures
        r == timestamp_of(dts, cts, timescale),
{
    let pts: i128 = dts as i128 + cts as i128;
    if pts < 0 || timescale == 0 {
        return None;
    }
    let p = pts as u128;
    assert(p < 0x2_0000_0000_0000_0000);
    assert(1_000_000 * p < 0x1_0000_0000_0000_0000_0000_0000_0000) by (nonlinear_arith)
        requires
            p < 0x2_0000_0000_0000_0000,
    ;
    let t: u128 = (1_000_000u128 * p) / (timescale as u128);
    if t > u64::MAX as u128 {
        None
    } else {
        Some(t as u64)
    }
}

/// Whether a video sample with these flags starts a group.
pub fn sync_sample(flags: u32) -> (r: bool)
    ensures
        r == is_sync_sample(flags),
{
    (flags >> 24u32) & 0x3 == 0x2 && (flags >> 16u32) & 0x1 == 0
}

/// Walks the samples of one `trun`, appending a frame for each.
fn extract_samples(
    c: TrafCtx,
    audio: &Vec<u32>,
    mdat: &Vec<u8>,
    es: &Vec<TrunEntry>,
    dts: &mut u64,
    offset: &mut u64,
    clock: &mut HashMap<u32, u64>,
    frames: &mut Vec<SampleFrame>,
) -> (r: Result<(), Error>)
    ensures
        match r {
            Ok(()) => samples_from(
                c,
                audio@,
                mdat@,
                es@,
                0,
                walk_of(*old(dts), *old(offset), old(clock)@, old(frames)@),
            ) == Ok::<Walk, Error>(walk_of(*final(dts), *final(offset), final(clock)@, final(frames)@)),
            Err(e) => samples_from(
                c,
                audio@,
                mdat@,
                es@,
                0,
                walk_of(*old(dts), *old(offset), old(clock)@, old(frames)@),
            ) == Err::<Walk, Error>(e),
        },
{
    let ghost w0 = walk_of(*dts, *offset, clock@, frames@);
    let mut i: usize = 0;
    while i < es.len()
        invariant
            i <= es@.len(),
            w0 == walk_of(*old(dts), *old(offset), old(clock)@, old(frames)@),
            samples_from(c, audio@, mdat@, es@, 0, w0) == samples_from(
                c,
                audio@,
                mdat@,
                es@,
                i as int,
                walk_of(*dts, *offset, clock@, frames@),
            ),
        decreases es@.len() - i,
    {
        let ghost w = walk_of(*dts, *offset, clock@, frames@);
        let e = es[i];
        let flags = match e.flags {
            Some(f) => f,
            None => c.default_flags,
        };
        let duration = match e.duration {
            Some(d) => d,
            None => c.default_duration,
        };
        let size = match e.size {
            Some(s) => s,
            None => c.default_size,
        };
        let cts = match e.cts {
            Some(x) => x,
            None => 0,
        };
        let ts = match timestamp(*dts, cts, c.timescale) {
            Some(t) => t,
            None => {
                assert(sample_step(c, audio@, mdat@, es@[i as int], w) == Err::<Walk, Error>(Error::InvalidTimestamp));
                assert(samples_from(c, audio@, mdat@, es@, i as int, w) == Err::<Walk, Error>(Error::InvalidTimestamp));
                return Err(Error::InvalidTimestamp);
            },
        };
        if *offset as u128 + size as u128 > mdat.len() as u128 {
            assert(sample_step(c, audio@, mdat@, es@[i as int], w) == Err::<Walk, Error>(Error::InvalidOffset));
            assert(samples_from(c, audio@, mdat@, es@, i as int, w) == Err::<Walk, Error>(Error::InvalidOffset));
            return Err(Error::InvalidOffset);
        }
        if duration as u64 > u64::MAX - *dts {
            assert(sample_step(c, audio@, mdat@, es@[i as int], w) == Err::<Walk, Error>(Error::InvalidTimestamp));
            assert(samples_from(c, audio@, mdat@, es@, i as int, w) == Err::<Walk, Error>(Error::InvalidTimestamp));
            return Err(Error::InvalidTimestamp);
        }
        let key = if c.video {
            sync_sample(flags)
        } else {
            match clock.get(&c.track_id) {
                Some(prev) => ts > *prev && ts - *prev > AUDIO_KEYFRAME_INTERVAL,
                None => true,
            }
        };
        if c.video && key {
            forget_keyframes(clock, audio);
        }
        if key {
            clock.insert(c.track_id, ts);
        }
        let start = *offset as usize;
        let end = start + size as usize;
        let payload = copy_range(mdat.as_slice(), start, end);
        let frame = SampleFrame { track_id: c.track_id, timestamp: ts, keyframe: key, payload };
        frames.push(frame);
        *dts = *dts + duration as u64;
        *offset = end as u64;
        proof {
            let w2 = walk_of(*dts, *offset, clock@, frames@);
            assert(w2.frames =~= w.frames.push(frame@));
            assert(sample_step(c, audio@, mdat@, es@[i as int], w) == Ok::<Walk, Error>(w2));
        }
        i = i + 1;
    }
    Ok(())
}

/// Where the first sample of a `trun` lies; see `trun_offset`.
fn trun_start(
    c: TrafCtx,
    data_offset: Option<i32>,
    moof_size: usize,
    header_size: usize,
    offset: u64,
) -> (r: Result<u64, Error>)
    ensures
        match r {
            Ok(o) => trun_offset(c, data_offset, moof_size as int, header_size as int, offset as int)
                == Ok::<int, Error>(o as int),
            Err(e) => trun_offset(c, data_offset, moof_size as int, header_size as int, offset as int)
                == Err::<int, Error>(e),
        },
{
    match data_offset {
        None => Ok(offset),
        Some(d) => {
            let o: i128 = c.base_offset as i128 + d as i128 - moof_size as i128 - header_size as i128;
            if (d as i128) < (moof_size as i128) || o < 0 || o > u64::MAX as i128 {
                Err(Error::InvalidOffset)
            } else {
                Ok(o as u64)
            }
        },
    }
}

/// Walks the `trun`s of one track fragment.
fn extract_truns(
    c: TrafCtx,
    audio: &Vec<u32>,
    mdat: &Vec<u8>,
    moof_size: usize,
    header_size: usize,
    truns: &Vec<Trun>,
    dts: &mut u64,
    offset: &mut u64,
    clock: &mut HashMap<u32, u64>,
    frames: &mut Vec<SampleFrame>,
) -> (r: Result<(), Error>)
    ensures
        ({
            let s = truns_from(
                c,
                audio@,
                mdat@,
                moof_size as int,
                header_size as int,
                truns@.map_values(|t: Trun| t@),
                0,
                walk_of(*old(dts), *old(offset), old(clock)@, old(frames)@),
            );
            match r {
                Ok(()) => s == Ok::<Walk, Error>(
                    walk_of(*final(dts), *final(offset), final(clock)@, final(frames)@),
                ),
                Err(e) => s == Err::<Walk, Error>(e),
            }
        }),
{
    let ghost ts = truns@.map_values(|t: Trun| t@);
    let ghost w0 = walk_of(*dts, *offset, clock@, frames@);
    let mut i: usize = 0;
    while i < truns.len()
        invariant
            i <= truns@.len(),
            ts == truns@.map_values(|t: Trun| t@),
            w0 == walk_of(*old(dts), *old(offset), old(clock)@, old(frames)@),
            truns_from(c, audio@, mdat@, moof_size as int, header_size as int, ts, 0, w0)
                == truns_from(
                c,
                audio@,
                mdat@,
                moof_size as int,
                header_size as int,
                ts,
                i as int,
                walk_of(*dts, *offset, clock@, frames@),
            ),
        decreases truns@.len() - i,
    {
        let trun = &truns[i];
        let ghost w = walk_of(*dts, *offset, clock@, frames@);
        let o = match trun_start(c, trun.data_offset, moof_size, header_size, *offset) {
            Ok(o) => o,
            Err(e) => return Err(e),
        };
        *offset = o;
        assert(walk_of(*dts, *offset, clock@, frames@) == (Walk { offset: o as int, ..w }));
        match extract_samples(c, audio, mdat, &trun.entries, dts, offset, clock, frames) {
            Ok(()) => {},
            Err(e) => return Err(e),
        }
        i = i + 1;
    }
    Ok(())
}

/// The context of a track fragment; see `traf_ctx`.
fn traf_context(h: TrakHeader, trex: Option<Trex>, tfhd: Tfhd) -> (r: TrafCtx)
    ensures
        r == traf_ctx(h, trex, tfhd),
{
    let (dd, ds, df) = match trex {
        Some(t) => (t.default_sample_duration, t.default_sample_size, t.default_sample_flags),
        None => (0u32, 0u32, 0u32),
    };
    TrafCtx {
        track_id: tfhd.track_id,
        video: h.handler == Handler::Video,
        timescale: h.timescale,
        default_duration: match tfhd.default_sample_duration {
            Some(d) => d,
            None => dd,
        },
        default_size: match tfhd.default_sample_size {
            Some(s) => s,
            None => ds,
        },
        default_flags: match tfhd.default_sample_flags {
            Some(f) => f,
            None => df,
        },
        base_offset: match tfhd.base_data_offset {
            Some(b) => b,
            None => 0,
        },
    }
}

/// Walks every track fragment of `moof` over the payload of the `mdat`
/// that follows it.
fn extract_fragment(
    moov: &Moov,
    tracks: &HashMap<u32, String>,
    moof: &Moof,
    moof_size: usize,
    mdat: &Vec<u8>,
    header_size: usize,
    clock: &mut HashMap<u32, u64>,
    frames: &mut Vec<SampleFrame>,
) -> (r: Result<(), Error>)
    ensures
        ({
            let s = trafs_from(
                *moov,
                tracks@.map_values(|n: String| n@),
                mdat@,
                moof_size as int,
                header_size as int,
                moof@,
                0,
                walk_of(0, 0, old(clock)@, old(frames)@),
            );
            match r {
                Ok(()) => s is Ok && s->Ok_0.clock == final(clock)@ && s->Ok_0.frames
                    == final(frames)@.map_values(|f: SampleFrame| f@),
                Err(e) => s == Err::<Walk, Error>(e),
            }
        }),
{
    let ghost names = tracks@.map_values(|n: String| n@);
    let ghost fs = moof@;
    let ghost hs = trak_headers(*moov);
    let audio = audio_track_ids(&moov.trak);
    let mut dts: u64 = 0;
    let mut offset: u64 = 0;
    let ghost w0 = walk_of(0, 0, clock@, frames@);
    let mut i: usize = 0;
    while i < moof.traf.len()
        invariant
            i <= moof.traf@.len(),
            fs == moof@,
            hs == trak_headers(*moov),
            audio@ == audio_ids(hs),
            names == tracks@.map_values(|n: String| n@),
            w0 == walk_of(0, 0, old(clock)@, old(frames)@),
            trafs_from(*moov, names, mdat@, moof_size as int, header_size as int, fs, 0, w0)
                == trafs_from(
                *moov,
                names,
                mdat@,
                moof_size as int,
                header_size as int,
                fs,
                i as int,
                walk_of(dts, offset, clock@, frames@),
            ),
        decreases moof.traf@.len() - i,
    {
        let traf = &moof.traf[i];
        let id = traf.tfhd.track_id;
        if !tracks.contains_key(&id) {
            return Err(Error::UnknownTrack);
        }
        let h = match find_trak_header(&moov.trak, id) {
            Some(h) => h,
            None => return Err(Error::UnknownTrack),
        };
        let base_time = match traf.tfdt {
            Some(t) => t,
            None => return Err(Error::MissingBox(BoxKind::Tfdt)),
        };
        if traf.trun.len() == 0 {
            return Err(Error::MissingBox(BoxKind::Trun));
        }
        let trex = find_trex_defaults(&moov.trex, id);
        let c = traf_context(h, trex, traf.tfhd);
        dts = base_time;
        offset = c.base_offset;
        match extract_truns(
            c,
            &audio,
            mdat,
            moof_size,
            header_size,
            &traf.trun,
            &mut dts,
            &mut offset,
            clock,
            frames,
        ) {
            Ok(()) => {},
            Err(e) => return Err(e),
        }
        i = i + 1;
    }
    Ok(())
}

/// The decimal digits of `n`, without sign or padding.
pub open spec fn decimal(n: nat) -> Seq<char>
    decreases n,
{
    if n < 10 {
        seq![((n + 48) as u32) as char]
    } else {
        decimal(n / 10).push((((n % 10) + 48) as u32) as char)
    }
}

/// The decimal digits of `n` as ASCII bytes.
pub open spec fn decimal_bytes(n: nat) -> Seq<u8>
    decreases n,
{
    if n < 10 {
        seq![(n + 48) as u8]
    } else {
        decimal_bytes(n / 10).push(((n % 10) + 48) as u8)
    }
}

/// The digits are ASCII characters, and their bytes are `decimal_bytes`.
proof fn lemma_decimal_bytes(n: nat)
    ensures
        is_ascii_chars(decimal(n)),
        encode_utf8(decimal(n)) == decimal_bytes(n),
    decreases n,
{
    let d: nat = if n < 10 {
        n
    } else {
        n % 10
    };
    let x: u32 = (d + 48) as u32;
    assert(x < 0x80);
    let c = x as char;
    assert(c as u32 == x);
    assert(c as u8 == (d + 48) as u8);
    if n < 10 {
        is_ascii_chars_encode_utf8(decimal(n));
        assert(encode_utf8(decimal(n)) =~= decimal_bytes(n));
    } else {
        lemma_decimal_bytes(n / 10);
        let prev = decimal(n / 10);
        assert(decimal(n) == prev.push(c));
        assert(is_ascii_chars(decimal(n))) by {
            assert forall|i| 0 <= i < decimal(n).len() implies '\0' <= #[trigger] decimal(n)[i] <= '\u{7f}' by {
                if i < prev.len() {
                    assert(decimal(n)[i] == prev[i]);
                }
            }
        }
        is_ascii_chars_encode_utf8(decimal(n));
        is_ascii_chars_encode_utf8(prev);
        assert(encode_utf8(decimal(n)) =~= decimal_bytes(n)) by {
            assert forall|i| 0 <= i < decimal(n).len() implies encode_utf8(decimal(n))[i]
                == decimal_bytes(n)[i] by {
                if i < prev.len() {
                    assert(decimal(n)[i] == prev[i]);
                    assert(decimal_bytes(n)[i] == decimal_bytes(n / 10)[i]);
                }
            }
        }
    }
}

/// Encoding two strings one after the other is encoding their concatenation.
proof fn lemma_encode_concat(a: Seq<char>, b: Seq<char>)
    ensures
        encode_utf8(a + b) == encode_utf8(a) + encode_utf8(b),
    decreases a.len(),
{
    if a.len() == 0 {
        assert(a + b =~= b);
        assert(encode_utf8(a) =~= Seq::<u8>::empty());
        assert(Seq::<u8>::empty() + encode_utf8(b) =~= encode_utf8(b));
    } else {
        lemma_encode_concat(a.drop_first(), b);
        assert((a + b).drop_first() =~= a.drop_first() + b);
        assert((a + b)[0] == a[0]);
        assert(encode_utf8(a + b) =~= encode_utf8(a) + encode_utf8(b));
    }
}

/// The decimal digits of `n` as ASCII bytes, most significant first.
fn decimal_digits(n: u32) -> (r: Vec<u8>)
    ensures
        r@ == decimal_bytes(n as nat),
{
    let mut r: Vec<u8> = Vec::new();
    let mut m: u32 = n;
    while m >= 10
        invariant
            decimal_bytes(n as nat) == decimal_bytes(m as nat) + r@,
        decreases m,
    {
        let d: u8 = (m % 10) as u8 + 48;
        let ghost before = r@;
        r.insert(0, d);
        assert(decimal_bytes(m as nat) == decimal_bytes((m / 10) as nat).push(d));
        assert(decimal_bytes(m as nat) + before =~= decimal_bytes((m / 10) as nat) + r@);
        m = m / 10;
    }
    let ghost before = r@;
    r.insert(0, m as u8 + 48);
    assert(decimal_bytes(m as nat) + before =~= r@);
    r
}

/// `prefix` followed by the decimal digits of `n`.
fn prefixed_number(prefix: &str, n: u32) -> (r: String)
    ensures
        r@ == prefix@ + decimal(n as nat),
{
    let mut b: Vec<u8> = Vec::new();
    append_bytes(&mut b, prefix.as_bytes());
    let digits = decimal_digits(n);
    append_bytes(&mut b, digits.as_slice());
    proof {
        lemma_decimal_bytes(n as nat);
        lemma_encode_concat(prefix@, decimal(n as nat));
        assert(b@ =~= encode_utf8(prefix@ + decimal(n as nat)));
        encode_utf8_valid_utf8(prefix@ + decimal(n as nat));
        encode_utf8_decode_utf8(prefix@ + decimal(n as nat));
    }
    match string_from_utf8(b) {
        Some(s) => s,
        None => vstd::pervasive::unreached(),
    }
}

/// The bit depth that an AV1 configuration announces.
pub open spec fn av1_bitdepth(tier: bool, high: bool) -> u8 {
    if tier && high {
        12
    } else if tier || high {
        10
    } else {
        8
    }
}

/// The catalog entry of a video sample description.
pub open spec fn video_entry(e: SampleEntry) -> Result<VideoConfigView, Error> {
    match e {
        SampleEntry::Avc1 { width, height, profile, constraints, level, description } => Ok(
            VideoConfigView {
                codec: VideoCodec::H264(H264 { profile, constraints, level }),
                description: Some(description@),
                coded_width: Some(width as u32),
                coded_height: Some(height as u32),
                bitrate: None,
            },
        ),
        SampleEntry::Hev1 { width, height, hvcc } => Ok(h265_view(true, width, height, hvcc)),
        SampleEntry::Hvc1 { width, height, hvcc } => Ok(h265_view(false, width, height, hvcc)),
        SampleEntry::Vp08 { width, height } => Ok(
            VideoConfigView {
                codec: VideoCodec::VP8,
                description: None,
                coded_width: Some(width as u32),
                coded_height: Some(height as u32),
                bitrate: None,
            },
        ),
        SampleEntry::Vp09 { width, height, vpcc } => Ok(
            VideoConfigView {
                codec: VideoCodec::VP9(vpcc),
                description: None,
                coded_width: Some(width as u32),
                coded_height: Some(height as u32),
                bitrate: None,
            },
        ),
        SampleEntry::Av01 { width, height, av1c } => Ok(
            VideoConfigView {
                codec: VideoCodec::AV1(
                    AV1 {
                        profile: av1c.seq_profile,
                        level: av1c.seq_level_idx_0,
                        bitdepth: av1_bitdepth(av1c.seq_tier_0, av1c.high_bitdepth),
                        mono_chrome: av1c.monochrome,
                        chroma_subsampling_x: av1c.chroma_subsampling_x,
                        chroma_subsampling_y: av1c.chroma_subsampling_y,
                        chroma_sample_position: av1c.chroma_sample_position,
                    },
                ),
                description: None,
                coded_width: Some(width as u32),
                coded_height: Some(height as u32),
                bitrate: None,
            },
        ),
        SampleEntry::Unknown(code) => Err(Error::UnsupportedCodec(code)),
        _ => Err(Error::UnknownCodec),
    }
}

pub open spec fn h265_view(in_band: bool, width: u16, height: u16, hvcc: Hvcc) -> VideoConfigView {
    VideoConfigView {
        codec: VideoCodec::H265(
            H265 {
                in_band,
                profile_space: hvcc.profile_space,
                profile_idc: hvcc.profile_idc,
                profile_compatibility_flags: hvcc.profile_compatibility_flags,
                tier_flag: hvcc.tier_flag,
                level_idc: hvcc.level_idc,
                constraint_flags: hvcc.constraint_flags,
            },
        ),
        description: Some(hvcc.description@),
        coded_width: Some(width as u32),
        coded_height: Some(height as u32),
        bitrate: None,
    }
}

/// The catalog entry of an audio sample description.
pub open spec fn audio_entry(e: SampleEntry) -> Result<AudioConfigView, Error> {
    match e {
        SampleEntry::Mp4a {
            object_type_indication,
            avg_bitrate,
            max_bitrate,
            profile,
            sample_rate,
            channel_count,
        } => if object_type_indication != 0x40 {
            Err(Error::UnsupportedObjectType(object_type_indication))
        } else {
            Ok(
                AudioConfigView {
                    codec: AudioCodec::AAC { profile },
                    sample_rate: sample_rate as u32,
                    channel_count: channel_count as u32,
                    bitrate: Some(
                        if avg_bitrate >= max_bitrate {
                            avg_bitrate as u64
                        } else {
                            max_bitrate as u64
                        },
                    ),
                    description: None,
                },
            )
        },
        SampleEntry::Opus { sample_rate, channel_count } => Ok(
            AudioConfigView {
                codec: AudioCodec::Opus,
                sample_rate: sample_rate as u32,
                channel_count: channel_count as u32,
                bitrate: None,
                description: None,
            },
        ),
        SampleEntry::Unknown(code) => Err(Error::UnsupportedCodec(code)),
        _ => Err(Error::UnknownCodec),
    }
}

/// A track's sample description must hold exactly one codec.
pub open spec fn single_codec(codecs: Seq<SampleEntry>) -> Result<SampleEntry, Error> {
    if codecs.len() == 0 {
        Err(Error::MissingCodec)
    } else if codecs.len() > 1 {
        Err(Error::MultipleCodecs)
    } else {
        Ok(codecs[0])
    }
}

/// The rendition that a `trak` contributes to the catalog.
pub enum RenditionView {
    Video(u32, Seq<char>, VideoConfigView),
    Audio(u32, Seq<char>, AudioConfigView),
}

pub open spec fn rendition_of(t: Trak) -> Result<RenditionView, Error> {
    let id = t.header.track_id;
    match t.header.handler {
        Handler::Video => match single_codec(t.codecs@) {
            Err(e) => Err(e),
            Ok(c) => match video_entry(c) {
                Err(e) => Err(e),
                Ok(v) => Ok(RenditionView::Video(id, seq!['v', 'i', 'd', 'e', 'o'] + decimal(id as nat), v)),
            },
        },
        Handler::Audio => match single_codec(t.codecs@) {
            Err(e) => Err(e),
            Ok(c) => match audio_entry(c) {
                Err(e) => Err(e),
                Ok(a) => Ok(RenditionView::Audio(id, seq!['a', 'u', 'd', 'i', 'o'] + decimal(id as nat), a)),
            },
        },
        Handler::Subtitle => Err(Error::UnsupportedTrack(TrackKind::Subtitle)),
        Handler::Other => Err(Error::UnsupportedTrack(TrackKind::Unknown)),
    }
}

/// The renditions of the tracks `ts`, in order, or the error of the first
/// track that has none.
pub open spec fn renditions_of(ts: Seq<Trak>) -> Result<Seq<RenditionView>, Error>
    decreases ts.len(),
{
    if ts.len() == 0 {
        Ok(Seq::empty())
    } else {
        match renditions_of(ts.drop_last()) {
            Err(e) => Err(e),
            Ok(rs) => match rendition_of(ts.last()) {
                Err(e) => Err(e),
                Ok(r) => Ok(rs.push(r)),
            },
        }
    }
}

/// The video renditions among `rs`, with their names.
pub open spec fn video_renditions(rs: Seq<RenditionView>) -> Seq<(Seq<char>, VideoConfigView)>
    decreases rs.len(),
{
    if rs.len() == 0 {
        Seq::empty()
    } else {
        match rs.last() {
            RenditionView::Video(_, n, v) => video_renditions(rs.drop_last()).push((n, v)),
            RenditionView::Audio(..) => video_renditions(rs.drop_last()),
        }
    }
}

pub open spec fn audio_renditions(rs: Seq<RenditionView>) -> Seq<(Seq<char>, AudioConfigView)>
    decreases rs.len(),
{
    if rs.len() == 0 {
        Seq::empty()
    } else {
        match rs.last() {
            RenditionView::Audio(_, n, a) => audio_renditions(rs.drop_last()).push((n, a)),
            RenditionView::Video(..) => audio_renditions(rs.drop_last()),
        }
    }
}

/// `m` with each rendition's track id mapped to its name, in order.
pub open spec fn name_tracks(m: Map<u32, Seq<char>>, rs: Seq<RenditionView>) -> Map<u32, Seq<char>>
    decreases rs.len(),
{
    if rs.len() == 0 {
        m
    } else {
        let m2 = name_tracks(m, rs.drop_last());
        match rs.last() {
            RenditionView::Video(id, n, _) => m2.insert(id, n),
            RenditionView::Audio(id, n, _) => m2.insert(id, n),
        }
    }
}

pub open spec fn video_view(v: Option<Video>) -> Seq<(Seq<char>, VideoConfigView)> {
    match v {
        Some(v) => v.renditions@.map_values(|r: (String, VideoConfig)| (r.0@, r.1@)),
        None => Seq::empty(),
    }
}

pub open spec fn audio_view(a: Option<Audio>) -> Seq<(Seq<char>, AudioConfigView)> {
    match a {
        Some(a) => a.renditions@.map_values(|r: (String, AudioConfig)| (r.0@, r.1@)),
        None => Seq::empty(),
    }
}

/// The catalog that a movie with these renditions announces.
pub open spec fn catalog_matches(c: Catalog, rs: Seq<RenditionView>) -> bool {
    &&& video_view(c.video) == video_renditions(rs)
    &&& audio_view(c.audio) == audio_renditions(rs)
    &&& (c.video is Some <==> video_renditions(rs).len() > 0)
    &&& (c.audio is Some <==> audio_renditions(rs).len() > 0)
    &&& (c.video is Some ==> c.video->0.priority == MEDIA_PRIORITY)
    &&& (c.audio is Some ==> c.audio->0.priority == MEDIA_PRIORITY)
}

fn copy_bytes(b: &Vec<u8>) -> (r: Vec<u8>)
    ensures
        r@ == b@,
{
    copy_range(b.as_slice(), 0, b.len())
}

fn h265_config(in_band: bool, width: u16, height: u16, hvcc: &Hvcc) -> (r: VideoConfig)
    ensures
        r@ == h265_view(in_band, width, height, *hvcc),
{
    VideoConfig {
        codec: VideoCodec::H265(
            H265 {
                in_band,
                profile_space: hvcc.profile_space,
                profile_idc: hvcc.profile_idc,
                profile_compatibility_flags: hvcc.profile_compatibility_flags,
                tier_flag: hvcc.tier_flag,
                level_idc: hvcc.level_idc,
                constraint_flags: hvcc.constraint_flags,
            },
        ),
        description: Some(copy_bytes(&hvcc.description)),
        coded_width: Some(width as u32),
        coded_height: Some(height as u32),
        bitrate: None,
    }
}

/// The catalog entry of a video sample description; see `video_entry`.
pub fn video_config(e: &SampleEntry) -> (r: Result<VideoConfig, Error>)
    ensures
        match r {
            Ok(c) => video_entry(*e) == Ok::<VideoConfigView, Error>(c@),
            Err(x) => video_entry(*e) == Err::<VideoConfigView, Error>(x),
        },
{
    match e {
        SampleEntry::Avc1 { width, height, profile, constraints, level, description } => Ok(
            VideoConfig {
                codec: VideoCodec::H264(
                    H264 { profile: *profile, constraints: *constraints, level: *level },
                ),
                description: Some(copy_bytes(description)),
                coded_width: Some(*width as u32),
                coded_height: Some(*height as u32),
                bitrate: None,
            },
        ),
        SampleEntry::Hev1 { width, height, hvcc } => Ok(h265_config(true, *width, *height, hvcc)),
        SampleEntry::Hvc1 { width, height, hvcc } => Ok(h265_config(false, *width, *height, hvcc)),
        SampleEntry::Vp08 { width, height } => Ok(
            VideoConfig {
                codec: VideoCodec::VP8,
                description: None,
                coded_width: Some(*width as u32),
                coded_height: Some(*height as u32),
                bitrate: None,
            },
        ),
        SampleEntry::Vp09 { width, height, vpcc } => Ok(
            VideoConfig {
                codec: VideoCodec::VP9(*vpcc),
                description: None,
                coded_width: Some(*width as u32),
                coded_height: Some(*height as u32),
                bitrate: None,
            },
        ),
        SampleEntry::Av01 { width, height, av1c } => {
            let bitdepth: u8 = if av1c.seq_tier_0 && av1c.high_bitdepth {
                12
            } else if av1c.seq_tier_0 || av1c.high_bitdepth {
                10
            } else {
                8
            };
            Ok(
                VideoConfig {
                    codec: VideoCodec::AV1(
                        AV1 {
                            profile: av1c.seq_profile,
                            level: av1c.seq_level_idx_0,
                            bitdepth,
                            mono_chrome: av1c.monochrome,
                            chroma_subsampling_x: av1c.chroma_subsampling_x,
                            chroma_subsampling_y: av1c.chroma_subsampling_y,
                            chroma_sample_position: av1c.chroma_sample_position,
                        },
                    ),
                    description: None,
                    coded_width: Some(*width as u32),
                    coded_height: Some(*height as u32),
                    bitrate: None,
                },
            )
        },
        SampleEntry::Unknown(code) => Err(Error::UnsupportedCodec(*code)),
        _ => Err(Error::UnknownCodec),
    }
}

/// The catalog entry of an audio sample description; see `audio_entry`.
pub fn audio_config(e: &SampleEntry) -> (r: Result<AudioConfig, Error>)
    ensures
        match r {
            Ok(c) => audio_entry(*e) == Ok::<AudioConfigView, Error>(c@),
            Err(x) => audio_entry(*e) == Err::<AudioConfigView, Error>(x),
        },
{
    match e {
        SampleEntry::Mp4a {
            object_type_indication,
            avg_bitrate,
            max_bitrate,
            profile,
            sample_rate,
            channel_count,
        } => {
            if *object_type_indication != 0x40 {
                return Err(Error::UnsupportedObjectType(*object_type_indication));
            }
            let bitrate: u64 = if *avg_bitrate >= *max_bitrate {
                *avg_bitrate as u64
            } else {
                *max_bitrate as u64
            };
            Ok(
                AudioConfig {
                    codec: AudioCodec::AAC { profile: *profile },
                    sample_rate: *sample_rate as u32,
                    channel_count: *channel_count as u32,
                    bitrate: Some(bitrate),
                    description: None,
                },
            )
        },
        SampleEntry::Opus { sample_rate, channel_count } => Ok(
            AudioConfig {
                codec: AudioCodec::Opus,
                sample_rate: *sample_rate as u32,
                channel_count: *channel_count as u32,
                bitrate: None,
                description: None,
            },
        ),
        SampleEntry::Unknown(code) => Err(Error::UnsupportedCodec(*code)),
        _ => Err(Error::UnknownCodec),
    }
}

/// A rendition as the ingest builds it.
#[derive(Debug)]
pub enum Rendition {
    Video(u32, String, VideoConfig),
    Audio(u32, String, AudioConfig),
}

impl View for Rendition {
    type V = RenditionView;

    open spec fn view(&self) -> RenditionView {
        match self {
            Rendition::Video(id, n, c) => RenditionView::Video(*id, n@, c@),
            Rendition::Audio(id, n, c) => RenditionView::Audio(*id, n@, c@),
        }
    }
}

/// The rendition of one `trak`; see `rendition_of`.
pub fn trak_rendition(t: &Trak) -> (r: Result<Rendition, Error>)
    ensures
        match r {
            Ok(x) => rendition_of(*t) == Ok::<RenditionView, Error>(x@),
            Err(e) => rendition_of(*t) == Err::<RenditionView, Error>(e),
        },
{
    let id = t.header.track_id;
    match t.header.handler {
        Handler::Video => {
            if t.codecs.len() == 0 {
                return Err(Error::MissingCodec);
            }
            if t.codecs.len() > 1 {
                return Err(Error::MultipleCodecs);
            }
            match video_config(&t.codecs[0]) {
                Ok(c) => {
                    proof {
                        reveal_strlit("video");
                        assert("video"@ =~= seq!['v', 'i', 'd', 'e', 'o']);
                    }
                    Ok(Rendition::Video(id, prefixed_number("video", id), c))
                },
                Err(e) => Err(e),
            }
        },
        Handler::Audio => {
            if t.codecs.len() == 0 {
                return Err(Error::MissingCodec);
            }
            if t.codecs.len() > 1 {
                return Err(Error::MultipleCodecs);
            }
            match audio_config(&t.codecs[0]) {
                Ok(c) => {
                    proof {
                        reveal_strlit("audio");
                        assert("audio"@ =~= seq!['a', 'u', 'd', 'i', 'o']);
                    }
                    Ok(Rendition::Audio(id, prefixed_number("audio", id), c))
                },
                Err(e) => Err(e),
            }
        },
        Handler::Subtitle => Err(Error::UnsupportedTrack(TrackKind::Subtitle)),
        Handler::Other => Err(Error::UnsupportedTrack(TrackKind::Unknown)),
    }
}

/// What processing one box produced.
#[derive(Debug)]
pub enum Ingest {
    /// Nothing to publish.
    Nothing,
    /// The movie was read: publish this catalog, and a track per rendition.
    Catalog(Catalog),
    /// The samples of a fragment, to write to their tracks in this order.
    Frames(Vec<SampleFrame>),
}

/// The state of an ingest: the tracks announced so far, the last keyframe of
/// each, the movie, and the fragment header waiting for its `mdat`.
pub struct Import {
    tracks: HashMap<u32, String>,
    last_keyframe: HashMap<u32, u64>,
    moov: Option<Moov>,
    moof: Option<Moof>,
    moof_size: usize,
}

impl Import {
    /// Track id to track name, for every track announced.
    pub closed spec fn spec_tracks(&self) -> Map<u32, Seq<char>> {
        self.tracks@.map_values(|n: String| n@)
    }

    /// Track id to the timestamp of its last keyframe.
    pub closed spec fn spec_clock(&self) -> Map<u32, u64> {
        self.last_keyframe@
    }

    pub closed spec fn spec_moov(&self) -> Option<Moov> {
        self.moov
    }

    /// The fragment header waiting for its `mdat`.
    pub closed spec fn spec_moof(&self) -> Option<Moof> {
        self.moof
    }

    /// The size of that fragment header's box, header included.
    pub closed spec fn spec_moof_size(&self) -> usize {
        self.moof_size
    }

    pub fn new() -> (r: Import)
        ensures
            r.spec_tracks() == Map::<u32, Seq<char>>::empty(),
            r.spec_clock() == Map::<u32, u64>::empty(),
            r.spec_moov() is None,
            r.spec_moof() is None,
    {
        let r = Import {
            tracks: HashMap::new(),
            last_keyframe: HashMap::new(),
            moov: None,
            moof: None,
            moof_size: 0,
        };
        assert(r.spec_tracks() =~= Map::<u32, Seq<char>>::empty());
        r
    }

    /// Reads a movie: one rendition per track, all or nothing.
    fn init(&mut self, moov: Moov) -> (r: Result<Catalog, Error>)
        ensures
            match renditions_of(moov.trak@) {
                Ok(rs) => r is Ok && catalog_matches(r->Ok_0, rs) && final(self).spec_tracks()
                    == name_tracks(old(self).spec_tracks(), rs) && final(self).spec_moov() == Some(
                    moov,
                ),
                Err(e) => r == Err::<Catalog, Error>(e) && *final(self) == *old(self),
            },
            final(self).spec_clock() == old(self).spec_clock(),
            final(self).spec_moof() == old(self).spec_moof(),
            final(self).spec_moof_size() == old(self).spec_moof_size(),
    {
        let mut tracks = self.tracks.clone();
        let mut video: Vec<(String, VideoConfig)> = Vec::new();
        let mut audio: Vec<(String, AudioConfig)> = Vec::new();
        let ghost mut rs: Seq<RenditionView> = Seq::empty();
        let mut i: usize = 0;
        while i < moov.trak.len()
            invariant
                i <= moov.trak@.len(),
                renditions_of(moov.trak@.take(i as int)) == Ok::<Seq<RenditionView>, Error>(rs),
                video@.map_values(|r: (String, VideoConfig)| (r.0@, r.1@)) == video_renditions(rs),
                audio@.map_values(|r: (String, AudioConfig)| (r.0@, r.1@)) == audio_renditions(rs),
                tracks@.map_values(|n: String| n@) == name_tracks(
                    self.tracks@.map_values(|n: String| n@),
                    rs,
                ),
                self == old(self),
            decreases moov.trak@.len() - i,
        {
            assert(moov.trak@.take(i + 1).drop_last() =~= moov.trak@.take(i as int));
            let x = match trak_rendition(&moov.trak[i]) {
                Ok(x) => x,
                Err(e) => {
                    proof {
                        lemma_renditions_error(moov.trak@, i as int + 1, e);
                    }
                    return Err(e);
                },
            };
            let ghost rv = x@;
            match x {
                Rendition::Video(id, name, c) => {
                    let ghost old_tracks = tracks@;
                    tracks.insert(id, name.clone());
                    assert(tracks@.map_values(|n: String| n@) =~= old_tracks.map_values(
                        |n: String| n@,
                    ).insert(id, name@));
                    let ghost old_video = video@;
                    video.push((name, c));
                    assert(video@.map_values(|r: (String, VideoConfig)| (r.0@, r.1@))
                        =~= old_video.map_values(|r: (String, VideoConfig)| (r.0@, r.1@)).push(
                        (rv->Video_1, rv->Video_2),
                    ));
                },
                Rendition::Audio(id, name, c) => {
                    let ghost old_tracks = tracks@;
                    tracks.insert(id, name.clone());
                    assert(tracks@.map_values(|n: String| n@) =~= old_tracks.map_values(
                        |n: String| n@,
                    ).insert(id, name@));
                    let ghost old_audio = audio@;
                    audio.push((name, c));
                    assert(audio@.map_values(|r: (String, AudioConfig)| (r.0@, r.1@))
                        =~= old_audio.map_values(|r: (String, AudioConfig)| (r.0@, r.1@)).push(
                        (rv->Audio_1, rv->Audio_2),
                    ));
                },
            }
            proof {
                assert(rs.push(rv).drop_last() =~= rs);
                rs = rs.push(rv);
            }
            i = i + 1;
        }
        assert(moov.trak@.take(i as int) =~= moov.trak@);
        assert(video@.len() == video_renditions(rs).len());
        assert(audio@.len() == audio_renditions(rs).len());
        assert(video@.len() == 0 ==> video_renditions(rs) =~= Seq::empty());
        assert(audio@.len() == 0 ==> audio_renditions(rs) =~= Seq::empty());
        let v = if video.len() > 0 {
            Some(Video { renditions: video, priority: MEDIA_PRIORITY })
        } else {
            None
        };
        let a = if audio.len() > 0 {
            Some(Audio { renditions: audio, priority: MEDIA_PRIORITY })
        } else {
            None
        };
        self.tracks = tracks;
        self.moov = Some(moov);
        Ok(Catalog { video: v, audio: a })
    }
}

impl Import {
    /// Extracts the samples of the pending fragment from the payload of the
    /// `mdat` that follows it. The fragment header is used up whether or not
    /// this succeeds; keyframe times change only when it does.
    fn extract(&mut self, mdat: Vec<u8>, header_size: usize) -> (r: Result<Vec<SampleFrame>, Error>)
        ensures
            final(self).spec_tracks() == old(self).spec_tracks(),
            final(self).spec_moov() == old(self).spec_moov(),
            final(self).spec_moof_size() == old(self).spec_moof_size(),
            old(self).spec_moov() is None ==> r == Err::<Vec<SampleFrame>, Error>(
                Error::MissingBox(BoxKind::Moov),
            ) && *final(self) == *old(self),
            old(self).spec_moov() is Some && old(self).spec_moof() is None ==> r == Err::<
                Vec<SampleFrame>,
                Error,
            >(Error::MissingBox(BoxKind::Moof)) && *final(self) == *old(self),
            old(self).spec_moov() is Some && old(self).spec_moof() is Some ==> ({
                let s = trafs_from(
                    old(self).spec_moov()->0,
                    old(self).spec_tracks(),
                    mdat@,
                    old(self).spec_moof_size() as int,
                    header_size as int,
                    old(self).spec_moof()->0@,
                    0,
                    walk_of(0, 0, old(self).spec_clock(), Seq::empty()),
                );
                &&& final(self).spec_moof() is None
                &&& match r {
                    Ok(fs) => s is Ok && s->Ok_0.frames == fs@.map_values(|f: SampleFrame| f@)
                        && final(self).spec_clock() == s->Ok_0.clock,
                    Err(e) => s == Err::<Walk, Error>(e) && final(self).spec_clock() == old(self).spec_clock(),
                }
            }),
    {
        let moov = match &self.moov {
            Some(m) => m,
            None => return Err(Error::MissingBox(BoxKind::Moov)),
        };
        let moof = match self.moof.take() {
            Some(m) => m,
            None => return Err(Error::MissingBox(BoxKind::Moof)),
        };
        let mut clock = self.last_keyframe.clone();
        let mut frames: Vec<SampleFrame> = Vec::new();
        assert(frames@.map_values(|f: SampleFrame| f@) =~= Seq::empty());
        match extract_fragment(
            moov,
            &self.tracks,
            &moof,
            self.moof_size,
            &mdat,
            header_size,
            &mut clock,
            &mut frames,
        ) {
            Ok(()) => {
                self.last_keyframe = clock;
                Ok(frames)
            },
            Err(e) => Err(e),
        }
    }

    /// Processes one top-level box of `size` bytes, header included.
    ///
    /// `ftyp`, `styp` and unknown boxes are skipped. A `moov` yields the
    /// catalog. A `moof` is held until its `mdat`; a second `moof` before it
    /// is refused. An `mdat` yields the samples of the held `moof`.
    pub fn process(&mut self, atom: Atom, size: usize) -> (r: Result<Ingest, Error>)
        requires
            atom matches Atom::Mdat(d) ==> d@.len() <= size,
        ensures
            match atom {
                Atom::Moov(m) => match renditions_of(m.trak@) {
                    Ok(rs) => r matches Ok(Ingest::Catalog(c)) && catalog_matches(c, rs)
                        && final(self).spec_tracks() == name_tracks(old(self).spec_tracks(), rs)
                        && final(self).spec_moov() == Some(m) && final(self).spec_clock() == old(self).spec_clock() && final(self).spec_moof() == old(self).spec_moof()
                        && final(self).spec_moof_size() == old(self).spec_moof_size(),
                    Err(e) => r == Err::<Ingest, Error>(e) && *final(self) == *old(self),
                },
                Atom::Moof(m) => if old(self).spec_moof() is Some {
                    r == Err::<Ingest, Error>(Error::DuplicateBox(BoxKind::Moof)) && *final(self)
                        == *old(self)
                } else {
                    r matches Ok(Ingest::Nothing) && final(self).spec_moof() == Some(m)
                        && final(self).spec_moof_size() == size && final(self).spec_tracks()
                        == old(self).spec_tracks() && final(self).spec_moov() == old(self).spec_moov() && final(self).spec_clock() == old(self).spec_clock()
                },
                Atom::Mdat(d) => {
                    let header_size = size - d@.len();
                    &&& final(self).spec_tracks() == old(self).spec_tracks()
                    &&& final(self).spec_moov() == old(self).spec_moov()
                    &&& old(self).spec_moov() is None ==> r == Err::<Ingest, Error>(
                        Error::MissingBox(BoxKind::Moov),
                    ) && *final(self) == *old(self)
                    &&& old(self).spec_moov() is Some && old(self).spec_moof() is None ==> r
                        == Err::<Ingest, Error>(Error::MissingBox(BoxKind::Moof)) && *final(self)
                        == *old(self)
                    &&& old(self).spec_moov() is Some && old(self).spec_moof() is Some ==> ({
                        let s = trafs_from(
                            old(self).spec_moov()->0,
                            old(self).spec_tracks(),
                            d@,
                            old(self).spec_moof_size() as int,
                            header_size,
                            old(self).spec_moof()->0@,
                            0,
                            walk_of(0, 0, old(self).spec_clock(), Seq::empty()),
                        );
                        &&& final(self).spec_moof() is None
                        &&& match r {
                            Ok(Ingest::Frames(fs)) => s is Ok && s->Ok_0.frames == fs@.map_values(
                                |f: SampleFrame| f@,
                            ) && final(self).spec_clock() == s->Ok_0.clock,
                            Ok(_) => false,
                            Err(e) => s == Err::<Walk, Error>(e) && final(self).spec_clock() == old(self).spec_clock(),
                        }
                    })
                },
                _ => r matches Ok(Ingest::Nothing) && *final(self) == *old(self),
            },
    {
        match atom {
            Atom::Moov(m) => match self.init(m) {
                Ok(c) => Ok(Ingest::Catalog(c)),
                Err(e) => Err(e),
            },
            Atom::Moof(m) => {
                if self.moof.is_some() {
                    return Err(Error::DuplicateBox(BoxKind::Moof));
                }
                self.moof = Some(m);
                self.moof_size = size;
                Ok(Ingest::Nothing)
            },
            Atom::Mdat(d) => {
                let header_size = size - d.len();
                match self.extract(d, header_size) {
                    Ok(fs) => Ok(Ingest::Frames(fs)),
                    Err(e) => Err(e),
                }
            },
            _ => Ok(Ingest::Nothing),
        }
    }
}

/// Once a track has no rendition, no longer list of tracks has renditions.
proof fn lemma_renditions_error(ts: Seq<Trak>, n: int, e: Error)
    requires
        0 < n <= ts.len(),
        renditions_of(ts.take(n - 1)) is Ok,
        rendition_of(ts[n - 1]) == Err::<RenditionView, Error>(e),
    ensures
        renditions_of(ts) == Err::<Seq<RenditionView>, Error>(e),
    decreases ts.len() - n,
{
    if n == ts.len() {
        assert(ts.take(n - 1) =~= ts.drop_last());
    } else {
        assert(ts.drop_last().take(n - 1) =~= ts.take(n - 1));
        assert(ts.drop_last()[n - 1] == ts[n - 1]);
        lemma_renditions_error(ts.drop_last(), n, e);
    }
}

} // verus!
