use shield_optimizer::codecs::{decoders_from_events, parse_media_codecs, Decoder};
use shield_optimizer::media::{
    build_capabilities, surround_mode, video_formats, AudioPassthrough, DisplayModeEntry,
    SurroundMode, VerdictLevel,
};
use shield_optimizer::xml::{read_events, XmlAttribute, XmlEvent, XmlTag};

#[test]
fn reads_multiline_nested_types_comments_and_concatenated_documents() {
    let xml = r#"<?xml version="1.0"?><MediaCodecs><Decoders>
        <!-- <MediaCodec name="fake" type="video/av01"/> -->
        <MediaCodec
          name="vendor.decoder">
          <Type name="video/hevc"><Limit name="size" max="4096x4096"/></Type>
          <Type name="video/avc"/>
        </MediaCodec></Decoders><Encoders>
        <MediaCodec name="vendor.encoder" type="video/av01"/>
        </Encoders></MediaCodecs>
        <?xml version="1.0"?><MediaCodecs><Decoders>
        <MediaCodec name="c2.android.av1.decoder" type="video/av01"/>
        </Decoders></MediaCodecs>"#;
    let decoders = parse_media_codecs(xml);
    assert_eq!(decoders.len(), 3);
    assert!(!decoders[0].software);
    assert!(decoders[2].software);
    assert!(!decoders
        .iter()
        .any(|d| d.name.contains("encoder") || d.name == "fake"));
}

#[test]
fn vendor_name_does_not_prove_hardware_acceleration() {
    let xml = r#"<Decoders><MediaCodec name="vendor.decoder" type="video/hevc"/></Decoders>"#;
    let video = video_formats(&parse_media_codecs(xml));
    let hevc = video.iter().find(|v| v.mime == "video/hevc").unwrap();
    assert!(hevc.advertised && hevc.acceleration_unknown && !hevc.software);
    let av1 = video.iter().find(|v| v.mime == "video/av01").unwrap();
    assert!(!av1.advertised);
}

#[test]
fn software_metadata_and_mixed_decoders_preserve_presence() {
    let xml = r#"<Decoders>
        <MediaCodec name="vendor.soft" type="video/hevc" software-codec="true"/>
        <MediaCodec name="vendor.unknown" type="video/hevc"/>
        <MediaCodec name="OMX.google.avc.decoder" type="video/avc"/>
        </Decoders>"#;
    let video = video_formats(&parse_media_codecs(xml));
    let hevc = video.iter().find(|v| v.mime == "video/hevc").unwrap();
    assert!(hevc.advertised && hevc.software && hevc.acceleration_unknown);
}

#[test]
fn duplicate_documents_do_not_duplicate_decoders() {
    let xml = r#"<Decoders><MediaCodec name="vendor" type="video/hevc,video/avc"/></Decoders>"#;
    assert_eq!(
        parse_media_codecs(&format!("{xml}{xml}")),
        parse_media_codecs(xml)
    );
}

#[test]
fn empty_and_malformed_xml_do_not_panic_or_invent_support() {
    assert!(parse_media_codecs("").is_empty());
    assert!(parse_media_codecs("cat: permission denied").is_empty());
    assert!(parse_media_codecs("<Decoders><MediaCodec name=\"unterminated").is_empty());
}

#[test]
fn audio_codes_preserve_unknowns_and_do_not_confuse_mpegh_with_dts() {
    let audio = surround_mode(Some("3"), Some("26,27,999"));
    assert_eq!(
        audio.enabled_formats,
        ["MPEG-H LC L4", "DTS UHD P1", "Format 999"]
    );
    assert_eq!(audio.raw_formats.as_deref(), Some("26,27,999"));
    assert_eq!(SurroundMode::from_raw(Some("99")), SurroundMode::Unknown);
    assert_eq!(SurroundMode::from_raw(None), SurroundMode::Unset);
}

#[test]
fn absent_frame_setting_and_display_data_stay_unknown() {
    let caps = build_capabilities(&[], vec![], vec![], surround_mode(None, None), None);
    assert_eq!(caps.match_content_frame_rate, None);
    assert!(caps
        .verdicts
        .iter()
        .any(|v| v.title == "Decoder list unavailable"));
    assert!(!caps
        .verdicts
        .iter()
        .any(|v| v.title.contains("SDR") || v.title.contains("Never")));
}

fn decoder(name: &str, mime: &str, software: bool) -> Decoder {
    Decoder {
        name: name.to_string(),
        mime: mime.to_string(),
        software,
    }
}

fn tag(name: &str, attributes: &[(&str, &str)]) -> XmlEvent {
    XmlEvent::Open(XmlTag {
        name: name.as_bytes().to_vec(),
        attributes: attributes
            .iter()
            .map(|(key, value)| {
                Some(XmlAttribute {
                    key: key.as_bytes().to_vec(),
                    value: Some(value.to_string()),
                })
            })
            .collect(),
    })
}

fn close(name: &str) -> XmlEvent {
    XmlEvent::Close(name.as_bytes().to_vec())
}

#[test]
fn events_hold_what_the_document_holds() {
    let events = read_events("<a k='&lt;x' k bad=\"&nope;\"><b/>text<!-- c --></a>");
    assert_eq!(events.len(), 6);
    match &events[0] {
        XmlEvent::Open(tag) => {
            assert_eq!(tag.name, b"a");
            let first = tag.attributes[0].as_ref().unwrap();
            assert_eq!(first.key, b"k");
            assert_eq!(first.value.as_deref(), Some("<x"));
            assert!(tag.attributes[1].is_none());
            let last = tag.attributes.last().unwrap().as_ref().unwrap();
            assert_eq!(last.key, b"bad");
            assert_eq!(last.value, None);
        }
        other => panic!("{other:?}"),
    }
    assert!(matches!(&events[1], XmlEvent::Empty(tag) if tag.name == b"b"));
    assert!(matches!(&events[2], XmlEvent::Other));
    assert!(matches!(&events[3], XmlEvent::Other));
    assert!(matches!(&events[4], XmlEvent::Close(name) if name == b"a"));
    assert!(matches!(&events[5], XmlEvent::End));
    assert!(matches!(read_events("</a>")[0], XmlEvent::Failed));
    assert!(matches!(read_events("")[0], XmlEvent::End));
}

#[test]
fn a_codec_is_known_until_it_is_closed() {
    let events = [
        tag("Type", &[("name", "video/none")]),
        tag("Decoders", &[]),
        tag("Type", &[("name", "video/none")]),
        tag("MediaCodec", &[("name", "One"), ("type", " Video/A , ,video/b")]),
        tag("Type", &[("name", "video/c")]),
        close("MediaCodec"),
        tag("Type", &[("name", "video/none")]),
        tag("MediaCodec", &[("type", "video/none")]),
        tag("MediaCodec", &[("name", "C2.Android.two")]),
        tag("Type", &[("name", "video/d")]),
        tag("Type", &[("name", "video/d")]),
        close("Decoders"),
        tag("MediaCodec", &[("name", "x"), ("type", "video/none")]),
        XmlEvent::End,
        tag("Decoders", &[]),
        tag("MediaCodec", &[("name", "x"), ("type", "video/none")]),
    ];
    assert_eq!(
        decoders_from_events(&events),
        [
            decoder("One", "video/a", false),
            decoder("One", "video/b", false),
            decoder("One", "video/c", false),
            decoder("C2.Android.two", "video/d", true),
        ]
    );
}

#[test]
fn attributes_that_cannot_be_read_are_passed_over() {
    let unreadable = XmlEvent::Open(XmlTag {
        name: b"MediaCodec".to_vec(),
        attributes: vec![
            None,
            Some(XmlAttribute { key: b"name".to_vec(), value: Some("n".to_string()) }),
            Some(XmlAttribute { key: b"name".to_vec(), value: Some("m".to_string()) }),
            Some(XmlAttribute { key: b"type".to_vec(), value: None }),
            Some(XmlAttribute { key: b"type".to_vec(), value: Some("video/x".to_string()) }),
        ],
    });
    let events = [tag("Decoders", &[]), unreadable, tag("Type", &[("name", "video/y")])];
    assert_eq!(decoders_from_events(&events), [decoder("n", "video/y", false)]);
}

#[test]
fn reading_stops_where_the_xml_does() {
    let events = [
        tag("Decoders", &[]),
        tag("MediaCodec", &[("name", "a"), ("type", "video/a")]),
        XmlEvent::Failed,
        tag("MediaCodec", &[("name", "b"), ("type", "video/b")]),
    ];
    assert_eq!(decoders_from_events(&events), [decoder("a", "video/a", false)]);
}

#[test]
fn a_document_without_decoders_lists_none() {
    let xml = r#"<Encoders><MediaCodec name="e" type="video/avc"/></Encoders>
        <MediaCodec name="f" type="video/avc"/>"#;
    assert!(parse_media_codecs(xml).is_empty());
}

#[test]
fn two_documents_state_what_each_states() {
    let one = r#"<Decoders><MediaCodec name="a" type="video/avc"/></Decoders>"#;
    let two = r#"<Decoders><MediaCodec name="b" type="video/avc"/><MediaCodec name="a" type="video/avc"/></Decoders>"#;
    assert_eq!(
        parse_media_codecs(&format!("{one}{two}")),
        [decoder("a", "video/avc", false), decoder("b", "video/avc", false)]
    );
}

#[test]
fn text_behind_a_document_is_read_as_by_itself() {
    let one = "\u{feff}<?xml version=\"1.0\"?>\n<M><Decoders><MediaCodec name=\"a\" type=\"x,y\"/></Decoders></M> \n";
    for two in [
        "",
        " t &amp; <Decoders><MediaCodec name='b' type='z,x'/><MediaCodec name='a' type='y,w'/></Decoders>",
        "\u{feff}<Decoders><MediaCodec name='b' type='z'/></Decoders>",
        "<MediaCodec name='b' type='z'/><Type name='q'/>",
        "</M><Decoders><MediaCodec name='b' type='z'/></Decoders>",
        "<Decoders><MediaCodec name='b' type='z'/><oops",
        "&broken <Decoders><MediaCodec name='b' type='z'/></Decoders>",
    ] {
        let mut wanted = parse_media_codecs(one);
        for decoder in parse_media_codecs(two) {
            if !wanted.contains(&decoder) {
                wanted.push(decoder);
            }
        }
        assert_eq!(parse_media_codecs(&format!("{one}{two}")), wanted, "{two}");
    }
    assert_eq!(parse_media_codecs(&format!("{one}{one}")), parse_media_codecs(one));
}

#[test]
fn a_section_that_closes_itself_is_never_closed() {
    let one = "<Decoders/>";
    let two = "<MediaCodec name='b' type='z'/>";
    assert!(parse_media_codecs(two).is_empty());
    assert_eq!(
        parse_media_codecs(&format!("{one}{two}")),
        [decoder("b", "z", false)]
    );
}

#[test]
fn the_formats_that_are_reported_on_are_these() {
    let decoders = [
        decoder("s", "video/av01", true),
        decoder("h", "video/mpeg2", false),
        decoder("s", "video/mpeg2", true),
        decoder("x", "video/other", true),
    ];
    let formats: Vec<(String, String, bool, bool, bool)> = video_formats(&decoders)
        .into_iter()
        .map(|f| (f.mime, f.label, f.advertised, f.software, f.acceleration_unknown))
        .collect();
    let wanted = [
        ("video/avc", "H.264 / AVC", false, false, false),
        ("video/hevc", "HEVC / H.265", false, false, false),
        ("video/x-vnd.on2.vp9", "VP9", false, false, false),
        ("video/av01", "AV1", true, true, false),
        ("video/dolby-vision", "Dolby Vision", false, false, false),
        ("video/mpeg2", "MPEG-2", true, true, true),
    ];
    assert_eq!(formats.len(), wanted.len());
    for (format, (mime, label, advertised, software, unknown)) in formats.iter().zip(wanted) {
        assert_eq!(
            *format,
            (mime.to_string(), label.to_string(), advertised, software, unknown)
        );
    }
}

#[test]
fn surround_settings_are_read_like_this() {
    for (raw, mode) in [
        ("0", SurroundMode::Auto),
        (" 1\n", SurroundMode::Never),
        ("2", SurroundMode::Always),
        ("3", SurroundMode::Manual),
        ("", SurroundMode::Unset),
        ("  ", SurroundMode::Unset),
        ("null", SurroundMode::Unset),
        ("4", SurroundMode::Unknown),
        ("00", SurroundMode::Unknown),
    ] {
        assert_eq!(SurroundMode::from_raw(Some(raw)), mode, "{raw:?}");
    }
    assert_eq!(
        surround_mode(Some("2"), Some(" 5, 6,7 ,8,14,17,18,19,, x ")),
        AudioPassthrough {
            mode: SurroundMode::Always,
            enabled_formats: [
                "Dolby Digital (AC-3)",
                "Dolby Digital Plus (E-AC-3)",
                "DTS",
                "DTS-HD",
                "Dolby TrueHD",
                "Dolby AC-4",
                "Dolby Atmos over DD+ (E-AC-3 JOC)",
                "Dolby MAT",
                "Format x",
            ]
            .map(String::from)
            .to_vec(),
            raw_formats: Some("5, 6,7 ,8,14,17,18,19,, x".to_string()),
        }
    );
    for raw in [None, Some(""), Some(" null ")] {
        let audio = surround_mode(None, raw);
        assert_eq!(audio.raw_formats, None);
        assert!(audio.enabled_formats.is_empty());
    }
}

fn mode(fps: f64) -> DisplayModeEntry {
    DisplayModeEntry {
        width: 3840,
        height: 2160,
        fps_bits: fps.to_bits(),
        fps_text: format!("{fps:.3}"),
        active: false,
    }
}

#[test]
fn film_rates_are_those_near_24() {
    for fps in [
        0.0,
        -24.0,
        -0.0,
        23.9,
        23.899999999999995,
        23.900000000000002,
        23.976,
        24.0,
        24.1,
        24.099999999999998,
        24.100000000000005,
        25.0,
        59.94,
        1e300,
        f64::INFINITY,
        f64::NEG_INFINITY,
        f64::NAN,
        -f64::NAN,
        f64::MIN_POSITIVE,
    ] {
        assert_eq!(
            mode(fps).is_film_rate(),
            (23.9..=24.1).contains(&fps),
            "{fps}"
        );
    }
}

#[test]
fn verdicts_inform_in_this_order() {
    let caps = build_capabilities(
        &[],
        vec!["HDR10".to_string()],
        vec![mode(60.0), mode(23.976), mode(24.0)],
        surround_mode(Some("1"), None),
        Some("1".to_string()),
    );
    let titles: Vec<&str> = caps.verdicts.iter().map(|v| v.title.as_str()).collect();
    assert_eq!(
        titles,
        [
            "Configuration, not a playback test",
            "Decoder list unavailable",
            "24p mode reported (23.976 Hz)",
            "Encoded surround passthrough is off",
        ]
    );
    assert!(caps.verdicts.iter().all(|v| v.level == VerdictLevel::Info));
    assert_eq!(
        caps.verdicts[1].detail,
        "No decoder entries were read. Codec support could not be determined."
    );
    assert_eq!(caps.hdr_types, ["HDR10"]);
    assert_eq!(caps.modes.len(), 3);
    assert_eq!(caps.match_content_frame_rate.as_deref(), Some("1"));

    let caps = build_capabilities(
        &[decoder("a", "video/avc", false)],
        vec![],
        vec![mode(60.0)],
        surround_mode(Some("0"), None),
        None,
    );
    assert_eq!(caps.verdicts.len(), 1);
    assert!(caps.video[0].advertised);
}
