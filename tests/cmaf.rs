use moq::catalog::{AudioCodec, VideoCodec, H264};
use moq::cmaf::{
    timestamp, Atom, BoxKind, Error, Handler, Import, Ingest, Moof, Moov, SampleEntry, SampleFrame,
    Tfhd, Traf, Trak, TrakHeader, Trex, Trun, TrunEntry,
};

const KEY: u32 = 0x0200_0000;
const NON_KEY: u32 = 0x0101_0000;

fn movie() -> Moov {
    Moov {
        trak: vec![
            Trak {
                header: TrakHeader { track_id: 1, handler: Handler::Video, timescale: 90000 },
                codecs: vec![SampleEntry::Avc1 {
                    width: 1280,
                    height: 720,
                    profile: 0x64,
                    constraints: 0,
                    level: 0x1f,
                    description: vec![1, 2, 3],
                }],
            },
            Trak {
                header: TrakHeader { track_id: 2, handler: Handler::Audio, timescale: 48000 },
                codecs: vec![SampleEntry::Mp4a {
                    object_type_indication: 0x40,
                    avg_bitrate: 128000,
                    max_bitrate: 160000,
                    profile: 2,
                    sample_rate: 48000,
                    channel_count: 2,
                }],
            },
        ],
        trex: vec![],
    }
}

fn entry(size: u32, duration: u32, flags: Option<u32>) -> TrunEntry {
    TrunEntry { duration: Some(duration), size: Some(size), flags, cts: None }
}

fn traf(track_id: u32, data_offset: i32, entries: Vec<TrunEntry>) -> Traf {
    Traf {
        tfhd: Tfhd {
            track_id,
            base_data_offset: None,
            default_sample_duration: None,
            default_sample_size: None,
            default_sample_flags: None,
        },
        tfdt: Some(0),
        trun: vec![Trun { data_offset: Some(data_offset), entries }],
    }
}

fn frames(r: Result<Ingest, Error>) -> Vec<SampleFrame> {
    match r.unwrap() {
        Ingest::Frames(f) => f,
        _ => panic!("expected frames"),
    }
}

const MOOF_SIZE: usize = 200;
const MDAT_HEADER: usize = 8;

#[test]
fn video_and_audio_fragment() {
    let mut import = Import::new();
    assert!(matches!(import.process(Atom::Ftyp, 24).unwrap(), Ingest::Nothing));
    let catalog = match import.process(Atom::Moov(movie()), 800).unwrap() {
        Ingest::Catalog(c) => c,
        _ => panic!("expected a catalog"),
    };
    let video = catalog.video.unwrap();
    assert_eq!(video.priority, 2);
    assert_eq!(video.renditions.len(), 1);
    assert_eq!(video.renditions[0].0, "video1");
    assert_eq!(
        video.renditions[0].1.codec,
        VideoCodec::H264(H264 { profile: 0x64, constraints: 0, level: 0x1f })
    );
    assert_eq!(video.renditions[0].1.coded_width, Some(1280));
    assert_eq!(video.renditions[0].1.description, Some(vec![1, 2, 3]));
    let audio = catalog.audio.unwrap();
    assert_eq!(audio.renditions[0].0, "audio2");
    assert_eq!(audio.renditions[0].1.codec, AudioCodec::AAC { profile: 2 });
    assert_eq!(audio.renditions[0].1.bitrate, Some(160000));
    assert_eq!(audio.renditions[0].1.sample_rate, 48000);

    let base = (MOOF_SIZE + MDAT_HEADER) as i32;
    let moof = Moof {
        traf: vec![
            traf(1, base, vec![entry(1000, 3000, Some(KEY)), entry(500, 3000, Some(NON_KEY))]),
            traf(2, base + 1500, vec![entry(100, 1024, None)]),
        ],
    };
    assert!(matches!(import.process(Atom::Moof(moof), MOOF_SIZE).unwrap(), Ingest::Nothing));
    let mut payload = vec![0xaa; 1000];
    payload.extend(vec![0xbb; 500]);
    payload.extend(vec![0xcc; 100]);
    let out = frames(import.process(Atom::Mdat(payload), 1600 + MDAT_HEADER));
    assert_eq!(out.len(), 3);
    assert_eq!((out[0].track_id, out[0].timestamp, out[0].keyframe), (1, 0, true));
    assert_eq!((out[1].track_id, out[1].timestamp, out[1].keyframe), (1, 33333, false));
    assert_eq!((out[2].track_id, out[2].timestamp, out[2].keyframe), (2, 0, true));
    assert_eq!(out[0].payload, vec![0xaa; 1000]);
    assert_eq!(out[1].payload, vec![0xbb; 500]);
    assert_eq!(out[2].payload, vec![0xcc; 100]);
}

#[test]
fn audio_alone_gets_a_keyframe_after_ten_seconds() {
    let mut import = Import::new();
    import.process(Atom::Moov(movie()), 800).unwrap();
    let base = (MOOF_SIZE + MDAT_HEADER) as i32;
    let moof = Moof {
        traf: vec![traf(
            2,
            base,
            vec![
                entry(10, 240000, None),
                entry(10, 240000, None),
                entry(10, 48000, None),
                entry(10, 1024, None),
            ],
        )],
    };
    import.process(Atom::Moof(moof), MOOF_SIZE).unwrap();
    let out = frames(import.process(Atom::Mdat(vec![0; 40]), 40 + MDAT_HEADER));
    let times: Vec<u64> = out.iter().map(|f| f.timestamp).collect();
    let keys: Vec<bool> = out.iter().map(|f| f.keyframe).collect();
    assert_eq!(times, vec![0, 5_000_000, 10_000_000, 11_000_000]);
    assert_eq!(keys, vec![true, false, false, true]);
}

#[test]
fn mdat_before_moof_is_missing_a_box() {
    let mut import = Import::new();
    assert_eq!(
        import.process(Atom::Mdat(vec![]), 8).unwrap_err(),
        Error::MissingBox(BoxKind::Moov)
    );
    import.process(Atom::Moov(movie()), 800).unwrap();
    assert_eq!(
        import.process(Atom::Mdat(vec![]), 8).unwrap_err(),
        Error::MissingBox(BoxKind::Moof)
    );
}

#[test]
fn two_moofs_in_a_row() {
    let mut import = Import::new();
    import.process(Atom::Moov(movie()), 800).unwrap();
    import.process(Atom::Moof(Moof { traf: vec![] }), 16).unwrap();
    assert_eq!(
        import.process(Atom::Moof(Moof { traf: vec![] }), 16).unwrap_err(),
        Error::DuplicateBox(BoxKind::Moof)
    );
}

#[test]
fn data_offset_inside_the_moof_is_invalid() {
    let mut import = Import::new();
    import.process(Atom::Moov(movie()), 800).unwrap();
    let moof = Moof { traf: vec![traf(1, (MOOF_SIZE - 1) as i32, vec![entry(4, 3000, Some(KEY))])] };
    import.process(Atom::Moof(moof), MOOF_SIZE).unwrap();
    assert_eq!(
        import.process(Atom::Mdat(vec![0; 4]), 4 + MDAT_HEADER).unwrap_err(),
        Error::InvalidOffset
    );
}

#[test]
fn sample_past_the_mdat_is_invalid() {
    let mut import = Import::new();
    import.process(Atom::Moov(movie()), 800).unwrap();
    let base = (MOOF_SIZE + MDAT_HEADER) as i32;
    let moof = Moof { traf: vec![traf(1, base, vec![entry(5, 3000, Some(KEY))])] };
    import.process(Atom::Moof(moof), MOOF_SIZE).unwrap();
    assert_eq!(
        import.process(Atom::Mdat(vec![0; 4]), 4 + MDAT_HEADER).unwrap_err(),
        Error::InvalidOffset
    );
}

#[test]
fn fragment_of_an_unknown_track() {
    let mut import = Import::new();
    import.process(Atom::Moov(movie()), 800).unwrap();
    let moof = Moof { traf: vec![traf(9, 208, vec![entry(1, 1, None)])] };
    import.process(Atom::Moof(moof), MOOF_SIZE).unwrap();
    assert_eq!(import.process(Atom::Mdat(vec![0]), 9).unwrap_err(), Error::UnknownTrack);
}

#[test]
fn missing_tfdt_and_trun() {
    let mut import = Import::new();
    import.process(Atom::Moov(movie()), 800).unwrap();
    let mut t = traf(1, 208, vec![entry(1, 1, None)]);
    t.tfdt = None;
    import.process(Atom::Moof(Moof { traf: vec![t] }), MOOF_SIZE).unwrap();
    assert_eq!(
        import.process(Atom::Mdat(vec![0]), 9).unwrap_err(),
        Error::MissingBox(BoxKind::Tfdt)
    );
    let mut t = traf(1, 208, vec![]);
    t.trun = vec![];
    import.process(Atom::Moof(Moof { traf: vec![t] }), MOOF_SIZE).unwrap();
    assert_eq!(
        import.process(Atom::Mdat(vec![0]), 9).unwrap_err(),
        Error::MissingBox(BoxKind::Trun)
    );
}

#[test]
fn movie_defaults_and_composition_offset() {
    let mut import = Import::new();
    let mut moov = movie();
    moov.trex = vec![Trex {
        track_id: 1,
        default_sample_duration: 1500,
        default_sample_size: 2,
        default_sample_flags: NON_KEY,
    }];
    import.process(Atom::Moov(moov), 800).unwrap();
    let mut t = traf(1, 208, vec![TrunEntry { duration: None, size: None, flags: None, cts: Some(3000) }]);
    t.tfdt = Some(90000);
    import.process(Atom::Moof(Moof { traf: vec![t] }), MOOF_SIZE).unwrap();
    let out = frames(import.process(Atom::Mdat(vec![5, 6]), 10));
    assert_eq!(out.len(), 1);
    assert_eq!(out[0].timestamp, 1_033_333);
    assert!(!out[0].keyframe);
    assert_eq!(out[0].payload, vec![5, 6]);
}

#[test]
fn unsupported_tracks_and_codecs() {
    let mut import = Import::new();
    let mut moov = movie();
    moov.trak[0].header.handler = Handler::Subtitle;
    assert!(matches!(
        import.process(Atom::Moov(moov), 800),
        Err(Error::UnsupportedTrack(_))
    ));
    let mut moov = movie();
    moov.trak[1].codecs = vec![];
    assert_eq!(import.process(Atom::Moov(moov), 800).unwrap_err(), Error::MissingCodec);
    let mut moov = movie();
    moov.trak[1].codecs = vec![SampleEntry::Mp4a {
        object_type_indication: 0x6b,
        avg_bitrate: 0,
        max_bitrate: 0,
        profile: 0,
        sample_rate: 44100,
        channel_count: 2,
    }];
    assert_eq!(
        import.process(Atom::Moov(moov), 800).unwrap_err(),
        Error::UnsupportedObjectType(0x6b)
    );
    let mut moov = movie();
    moov.trak[0].codecs.push(SampleEntry::Vp08 { width: 1, height: 1 });
    assert_eq!(import.process(Atom::Moov(moov), 800).unwrap_err(), Error::MultipleCodecs);
    let mut moov = movie();
    moov.trak[0].codecs = vec![SampleEntry::Unknown(0x61626364)];
    assert_eq!(
        import.process(Atom::Moov(moov), 800).unwrap_err(),
        Error::UnsupportedCodec(0x61626364)
    );
}

#[test]
fn timestamps() {
    assert_eq!(timestamp(3000, 0, 90000), Some(33333));
    assert_eq!(timestamp(48000, 0, 48000), Some(1_000_000));
    assert_eq!(timestamp(0, -1, 90000), None);
    assert_eq!(timestamp(1, 0, 0), None);
    assert_eq!(timestamp(u64::MAX, 0, 1), None);
}
