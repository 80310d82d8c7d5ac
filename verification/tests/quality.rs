use mnamer::quality::{
    height_of_tag, preferred_quality_index, probe_error_message, probe_step, probed_quality, quality_description,
    quality_from_path, quality_from_streams, resolution_from_filename, ProbeFailure, ProbeState,
    ProbeStep, VideoQuality, VideoStream, PROBE_SECONDS,
};

fn quality(height: u32, bitrate: Option<u64>, codec: Option<&str>) -> VideoQuality {
    VideoQuality { height, bitrate, codec: codec.map(str::to_string) }
}

fn parse_ffprobe_quality(output: &[u8]) -> Option<VideoQuality> {
    let parsed: serde_json::Value = serde_json::from_slice(output).ok()?;
    let mut streams: Vec<VideoStream> = Vec::new();
    for stream in parsed["streams"].as_array()? {
        let height = match stream["height"].as_u64() {
            Some(height) => Some(u32::try_from(height).ok()?),
            None => None,
        };
        streams.push(VideoStream {
            height,
            bit_rate: stream["bit_rate"].as_str().map(str::to_string),
            codec_name: stream["codec_name"].as_str().map(str::to_string),
        });
    }
    quality_from_streams(&streams)
}

#[test]
fn parses_actual_video_quality_from_ffprobe_output() {
    let quality = parse_ffprobe_quality(
        br#"{"streams":[{"height":1080,"bit_rate":"6500000","codec_name":"H264"}]}"#,
    )
    .unwrap();

    assert_eq!(quality.height, 1080);
    assert_eq!(quality.bitrate, Some(6_500_000));
    assert_eq!(quality.codec.as_deref(), Some("h264"));
    let missing = parse_ffprobe_quality(br#"{"streams":[{"height":1080}]}"#).unwrap();
    assert!(missing.codec.is_none());
    assert!(parse_ffprobe_quality(b"not json").is_none());
}

#[test]
fn probe_errors_preserve_timeout_and_permission_details() {
    for (failure, expected) in [
        (ProbeFailure::TimedOut, "video probe timed out"),
        (
            ProbeFailure::Other("test permission failure".to_string()),
            "test permission failure",
        ),
    ] {
        let message = probe_error_message("movie.mkv", &failure);
        assert!(message.contains(expected));
        assert!(message.contains("quality may be unknown"));
    }
}

#[test]
fn a_missing_probe_is_explained() {
    let message = probe_error_message("movie.mkv", &ProbeFailure::NotFound);
    assert!(message.contains("ffprobe"));
    assert!(message.contains("PATH"));
    assert!(message.contains("movie.mkv"));
    assert!(message.contains("falling back to filename resolution tags"));
    assert_eq!(
        probe_error_message("m", &ProbeFailure::TimedOut),
        "video probe timed out for m; falling back to filename resolution tags; quality may be unknown"
    );
}

#[test]
fn bitrate_breaks_an_actual_resolution_tie() {
    let qualities = [
        VideoQuality {
            height: 1080,
            bitrate: Some(4_000_000),
            codec: Some("h264".to_string()),
        },
        VideoQuality {
            height: 1080,
            bitrate: Some(8_000_000),
            codec: Some("h264".to_string()),
        },
    ];

    assert_eq!(preferred_quality_index(&qualities), Some(1));
}

#[test]
fn bitrate_does_not_rank_different_or_unknown_codecs() {
    for codec in [Some("hevc"), None] {
        let qualities = [
            VideoQuality {
                height: 1080,
                bitrate: Some(4_000_000),
                codec: Some("h264".into()),
            },
            VideoQuality {
                height: 1080,
                bitrate: Some(8_000_000),
                codec: codec.map(str::to_string),
            },
        ];
        assert_eq!(preferred_quality_index(&qualities), None);
    }
}

#[test]
fn resolution_still_takes_priority_over_codec_and_bitrate() {
    let qualities = [
        VideoQuality {
            height: 2160,
            bitrate: Some(4_000_000),
            codec: Some("hevc".into()),
        },
        VideoQuality {
            height: 1080,
            bitrate: Some(8_000_000),
            codec: Some("h264".into()),
        },
    ];
    assert_eq!(preferred_quality_index(&qualities), Some(0));
}

#[test]
fn same_codec_with_missing_or_tied_bitrate_remains_ambiguous() {
    for bitrate in [None, Some(4_000_000)] {
        let qualities = [
            VideoQuality {
                height: 1080,
                bitrate: Some(4_000_000),
                codec: Some("h264".into()),
            },
            VideoQuality {
                height: 1080,
                bitrate,
                codec: Some("h264".into()),
            },
        ];
        assert_eq!(preferred_quality_index(&qualities), None);
    }
}

#[test]
fn the_preference_follows_the_candidates_not_their_order() {
    let low = quality(720, Some(9), Some("h264"));
    let high = quality(1080, Some(5), Some("h264"));
    let best = quality(1080, Some(6), Some("h264"));
    assert_eq!(preferred_quality_index(&[low.clone(), high.clone(), best.clone()]), Some(2));
    assert_eq!(preferred_quality_index(&[best, low, high]), Some(0));
    assert_eq!(preferred_quality_index(&[]), None);
    assert_eq!(preferred_quality_index(&[quality(1, None, None)]), Some(0));
}

#[test]
fn unusable_probe_values_are_dropped() {
    let read = |height: Option<u32>, rate: &str, codec: &str| {
        quality_from_streams(&vec![VideoStream {
            height,
            bit_rate: Some(rate.to_string()),
            codec_name: Some(codec.to_string()),
        }])
    };
    assert_eq!(read(None, "5", "h264"), None);
    assert_eq!(read(Some(0), "5", "h264"), None);
    assert_eq!(read(Some(480), "0", " Unknown "), Some(quality(480, None, None)));
    assert_eq!(read(Some(480), "N/A", "  "), Some(quality(480, None, None)));
    assert_eq!(read(Some(480), "7", " HEVC "), Some(quality(480, Some(7), Some("hevc"))));
    assert_eq!(quality_from_streams(&vec![]), None);
}

#[test]
fn resolution_tags_are_read_from_names() {
    assert_eq!(resolution_from_filename("movie.720p.mkv"), Some(720));
    assert_eq!(resolution_from_filename("movie.UHD.720p.mkv"), Some(2160));
    assert_eq!(resolution_from_filename("movie.8K.mkv"), Some(4320));
    assert_eq!(resolution_from_filename("movie.mkv"), None);
    assert_eq!(resolution_from_filename("movie.1080px.mkv"), None);
    assert_eq!(height_of_tag("4K"), Some(2160));
    assert_eq!(height_of_tag("576P"), Some(576));
    assert_eq!(height_of_tag("tall"), None);
}

#[test]
fn qualities_are_described_with_their_origin() {
    let probed = Some(quality(1080, Some(4_000_000), Some("h264")));
    let (known, origin) = quality_from_path("movie.720p.mkv", &probed);
    assert_eq!(known, probed);
    assert_eq!(
        quality_description(&known, origin),
        "1080 pixels high; codec h264; bitrate 4000000 bit/s; source: ffprobe"
    );
    let (fallback, origin) = quality_from_path("movie.720p.mkv", &None);
    assert_eq!(fallback, Some(quality(720, None, None)));
    assert_eq!(
        quality_description(&fallback, origin),
        "720 pixels high; codec unknown; bitrate unknown; source: filename tag"
    );
    assert_eq!(
        quality_description(&None, origin),
        "unknown (no usable probe result or filename resolution tag)"
    );
}

#[test]
fn probes_are_stopped_at_their_deadline() {
    let limit = PROBE_SECONDS as u128 * 1_000_000_000;
    assert_eq!(probe_step(&ProbeState::Exited, limit), ProbeStep::Collect);
    assert_eq!(
        probe_step(&ProbeState::Running { elapsed_nanos: limit - 1 }, limit),
        ProbeStep::Wait { millis: 20 }
    );
    assert_eq!(
        probe_step(&ProbeState::Running { elapsed_nanos: limit }, limit),
        ProbeStep::StopTimedOut
    );
    assert_eq!(probe_step(&ProbeState::Failed, limit), ProbeStep::StopFailed);
}

#[test]
fn only_successful_probes_of_files_count() {
    let streams = || {
        vec![VideoStream { height: Some(720), bit_rate: None, codec_name: None }]
    };
    assert_eq!(probed_quality(true, true, &streams()), Some(quality(720, None, None)));
    assert_eq!(probed_quality(false, true, &streams()), None);
    assert_eq!(probed_quality(true, false, &streams()), None);
    assert_eq!(probed_quality(true, true, &vec![]), None);
}
