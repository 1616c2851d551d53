//! What a device's codec configuration, display modes and audio settings say of playback.

use vstd::prelude::*;

use crate::codecs::{decoder_views, Decoder, DecoderView};
use crate::text::{
    concat2, concat3, items, items_are_the_pieces_that_say_something, list_items, opt_text, same,
    slice_texts, split, texts, trim, trimmed,
};

verus! {

/// What is known of one video format.
#[derive(Debug, Clone, PartialEq, Eq)]
pub struct VideoFormat {
    pub label: String,
    pub mime: String,
    /// A decoder for it is configured.
    pub advertised: bool,
    /// One of them is known to run in software.
    pub software: bool,
    /// Of one of them it is not known whether it is accelerated.
    pub acceleration_unknown: bool,
}

/// A mode of the display.
#[derive(Debug, Clone, PartialEq, Eq)]
pub struct DisplayModeEntry {
    pub width: u32,
    pub height: u32,
    /// The refresh rate in hertz, as the bits of an IEEE 754 double.
    pub fps_bits: u64,
    /// The refresh rate in hertz, with three decimals.
    pub fps_text: String,
    pub active: bool,
}

/// The bits of the double nearest to 23.9.
pub const FILM_RATE_LOW_BITS: u64 = 0x4037_e666_6666_6666;

/// The bits of the double nearest to 24.1.
pub const FILM_RATE_HIGH_BITS: u64 = 0x4038_1999_9999_999a;

impl DisplayModeEntry {
    /// The rate lies between 23.9 and 24.1. Doubles that are not negative are in the order of
    /// their bits, and those of all others are above both bounds.
    pub open spec fn film_rate(self) -> bool {
        FILM_RATE_LOW_BITS <= self.fps_bits <= FILM_RATE_HIGH_BITS
    }

    /// Whether the mode shows films at their own rate.
    pub fn is_film_rate(&self) -> (r: bool)
        ensures
            r == self.film_rate(),
    {
        FILM_RATE_LOW_BITS <= self.fps_bits && self.fps_bits <= FILM_RATE_HIGH_BITS
    }
}

/// When encoded surround sound is passed on to the receiver.
#[derive(Debug, Clone, Copy, PartialEq, Eq, Structural)]
pub enum SurroundMode {
    Auto,
    Never,
    Always,
    Manual,
    Unset,
    Unknown,
}

/// The mode that a value of the setting stands for.
pub open spec fn surround_mode_of(raw: Option<Seq<char>>) -> SurroundMode {
    match raw {
        None => SurroundMode::Unset,
        Some(raw) => {
            let value = trimmed(raw);
            if value == "0"@ {
                SurroundMode::Auto
            } else if value == "1"@ {
                SurroundMode::Never
            } else if value == "2"@ {
                SurroundMode::Always
            } else if value == "3"@ {
                SurroundMode::Manual
            } else if value == ""@ || value == "null"@ {
                SurroundMode::Unset
            } else {
                SurroundMode::Unknown
            }
        },
    }
}

/// The characters of a string slice, where there is one.
pub open spec fn opt_slice(s: Option<&str>) -> Option<Seq<char>> {
    match s {
        Some(s) => Some(s@),
        None => None,
    }
}

impl SurroundMode {
    /// The mode that a value of the setting stands for.
    pub fn from_raw(raw: Option<&str>) -> (r: SurroundMode)
        ensures
            r == surround_mode_of(opt_slice(raw)),
    {
        match raw {
            None => SurroundMode::Unset,
            Some(raw) => {
                let value = trim(raw);
                if same(value, "0") {
                    SurroundMode::Auto
                } else if same(value, "1") {
                    SurroundMode::Never
                } else if same(value, "2") {
                    SurroundMode::Always
                } else if same(value, "3") {
                    SurroundMode::Manual
                } else if same(value, "") || same(value, "null") {
                    SurroundMode::Unset
                } else {
                    SurroundMode::Unknown
                }
            },
        }
    }
}

/// What the audio settings say of encoded surround sound.
#[derive(Debug, Clone, PartialEq, Eq)]
pub struct AudioPassthrough {
    pub mode: SurroundMode,
    pub enabled_formats: Vec<String>,
    pub raw_formats: Option<String>,
}

/// What a verdict amounts to.
#[derive(Debug, Clone, Copy, PartialEq, Eq, Structural)]
pub enum VerdictLevel {
    Good,
    Warn,
    Info,
}

/// One thing that a user should know.
#[derive(Debug, Clone, PartialEq, Eq)]
pub struct Verdict {
    pub level: VerdictLevel,
    pub title: String,
    pub detail: String,
}

/// What is known of a device's playback.
#[derive(Debug, Clone, PartialEq, Eq)]
pub struct MediaCapabilities {
    pub video: Vec<VideoFormat>,
    pub hdr_types: Vec<String>,
    pub modes: Vec<DisplayModeEntry>,
    pub audio: AudioPassthrough,
    pub match_content_frame_rate: Option<String>,
    pub verdicts: Vec<Verdict>,
}

// ---------------------------------------------------------------------------
// Video.
// ---------------------------------------------------------------------------

/// What a `VideoFormat` holds.
pub struct VideoFormatView {
    pub label: Seq<char>,
    pub mime: Seq<char>,
    pub advertised: bool,
    pub software: bool,
    pub acceleration_unknown: bool,
}

impl View for VideoFormat {
    type V = VideoFormatView;

    open spec fn view(&self) -> VideoFormatView {
        VideoFormatView {
            label: self.label@,
            mime: self.mime@,
            advertised: self.advertised,
            software: self.software,
            acceleration_unknown: self.acceleration_unknown,
        }
    }
}

/// The video formats that are reported on: their MIME types and names.
pub open spec fn known_video() -> Seq<(Seq<char>, Seq<char>)> {
    seq![
        ("video/avc"@, "H.264 / AVC"@),
        ("video/hevc"@, "HEVC / H.265"@),
        ("video/x-vnd.on2.vp9"@, "VP9"@),
        ("video/av01"@, "AV1"@),
        ("video/dolby-vision"@, "Dolby Vision"@),
        ("video/mpeg2"@, "MPEG-2"@),
    ]
}

/// Some decoder is for the format and is known, or not known, to run in software.
pub open spec fn decodes(decoders: Seq<DecoderView>, mime: Seq<char>, software: bool) -> bool {
    exists|i: int|
        0 <= i < decoders.len() && (#[trigger] decoders[i]).mime == mime && decoders[i].software
            == software
}

/// What the decoders say of a format.
pub open spec fn format_in(decoders: Seq<DecoderView>, known: (Seq<char>, Seq<char>)) ->
    VideoFormatView {
    VideoFormatView {
        label: known.1,
        mime: known.0,
        advertised: decodes(decoders, known.0, true) || decodes(decoders, known.0, false),
        software: decodes(decoders, known.0, true),
        acceleration_unknown: decodes(decoders, known.0, false),
    }
}

/// What the decoders say of each format that is reported on.
pub open spec fn formats_in(decoders: Seq<DecoderView>) -> Seq<VideoFormatView> {
    known_video().map_values(|known: (Seq<char>, Seq<char>)| format_in(decoders, known))
}

/// What each format of a list holds.
pub open spec fn format_views(formats: Seq<VideoFormat>) -> Seq<VideoFormatView> {
    formats.map_values(|format: VideoFormat| format@)
}

/// What the decoders say of a format.
fn video_format(decoders: &[Decoder], mime: &str, label: &str) -> (r: VideoFormat)
    ensures
        r@ == format_in(decoder_views(decoders@), (mime@, label@)),
{
    let ghost all = decoder_views(decoders@);
    let mut software: bool = false;
    let mut acceleration_unknown: bool = false;
    let mut i: usize = 0;
    assert(all.take(0) =~= Seq::<DecoderView>::empty());
    while i < decoders.len()
        invariant
            all == decoder_views(decoders@),
            i <= all.len(),
            software == decodes(all.take(i as int), mime@, true),
            acceleration_unknown == decodes(all.take(i as int), mime@, false),
        decreases all.len() - i,
    {
        let matches: bool = same(decoders[i].mime.as_str(), mime);
        proof {
            assert(all[i as int] == decoders@[i as int]@);
            lemma_decodes_step(all, i as int, mime@, true);
            lemma_decodes_step(all, i as int, mime@, false);
        }
        if matches && decoders[i].software {
            software = true;
        }
        if matches && !decoders[i].software {
            acceleration_unknown = true;
        }
        i = i + 1;
    }
    assert(all.take(all.len() as int) =~= all);
    VideoFormat {
        label: label.to_owned(),
        mime: mime.to_owned(),
        advertised: software || acceleration_unknown,
        software,
        acceleration_unknown,
    }
}

proof fn lemma_decodes_step(decoders: Seq<DecoderView>, i: int, mime: Seq<char>, software: bool)
    requires
        0 <= i < decoders.len(),
    ensures
        decodes(decoders.take(i + 1), mime, software) == (decodes(decoders.take(i), mime, software)
            || (decoders[i].mime == mime && decoders[i].software == software)),
{
    let less = decoders.take(i);
    let more = decoders.take(i + 1);
    if decodes(more, mime, software) {
        let k = choose|k: int|
            0 <= k < more.len() && (#[trigger] more[k]).mime == mime && more[k].software
                == software;
        if k < i {
            assert(less[k] == more[k]);
        }
    }
    if decodes(less, mime, software) {
        let k = choose|k: int|
            0 <= k < less.len() && (#[trigger] less[k]).mime == mime && less[k].software
                == software;
        assert(more[k] == less[k]);
    }
    assert(more[i] == decoders[i]);
}

/// What the decoders say of each format that is reported on.
pub fn video_formats(decoders: &[Decoder]) -> (r: Vec<VideoFormat>)
    ensures
        format_views(r@) == formats_in(decoder_views(decoders@)),
{
    let mut r: Vec<VideoFormat> = Vec::new();
    r.push(video_format(decoders, "video/avc", "H.264 / AVC"));
    r.push(video_format(decoders, "video/hevc", "HEVC / H.265"));
    r.push(video_format(decoders, "video/x-vnd.on2.vp9", "VP9"));
    r.push(video_format(decoders, "video/av01", "AV1"));
    r.push(video_format(decoders, "video/dolby-vision", "Dolby Vision"));
    r.push(video_format(decoders, "video/mpeg2", "MPEG-2"));
    assert(format_views(r@) =~= formats_in(decoder_views(decoders@)));
    r
}

/// A format is advertised where some decoder is for it, and of each advertised format it is
/// said that a decoder runs in software, or that its acceleration is unknown, or both.
pub proof fn presence_is_not_acceleration(decoders: Seq<DecoderView>, k: int)
    requires
        0 <= k < formats_in(decoders).len(),
    ensures
        ({
            let format = formats_in(decoders)[k];
            &&& format.advertised <==> format.software || format.acceleration_unknown
            &&& format.advertised <==> exists|i: int|
                0 <= i < decoders.len() && (#[trigger] decoders[i]).mime == known_video()[k].0
        }),
{
    let mime = known_video()[k].0;
    if exists|i: int| 0 <= i < decoders.len() && (#[trigger] decoders[i]).mime == mime {
        let i = choose|i: int| 0 <= i < decoders.len() && (#[trigger] decoders[i]).mime == mime;
        assert(decodes(decoders, mime, decoders[i].software));
    }
}

// ---------------------------------------------------------------------------
// Audio.
// ---------------------------------------------------------------------------

/// The name of an audio format, by the platform's number for it.
pub open spec fn format_label(code: Seq<char>) -> Seq<char> {
    let code = trimmed(code);
    if code == "5"@ {
        "Dolby Digital (AC-3)"@
    } else if code == "6"@ {
        "Dolby Digital Plus (E-AC-3)"@
    } else if code == "7"@ {
        "DTS"@
    } else if code == "8"@ {
        "DTS-HD"@
    } else if code == "14"@ {
        "Dolby TrueHD"@
    } else if code == "17"@ {
        "Dolby AC-4"@
    } else if code == "18"@ {
        "Dolby Atmos over DD+ (E-AC-3 JOC)"@
    } else if code == "19"@ {
        "Dolby MAT"@
    } else if code == "26"@ {
        "MPEG-H LC L4"@
    } else if code == "27"@ {
        "DTS UHD P1"@
    } else {
        "Format "@ + code
    }
}

/// The name of an audio format, by the platform's number for it.
fn audio_format_label(code: &str) -> (r: String)
    ensures
        r@ == format_label(code@),
{
    let code = trim(code);
    if same(code, "5") {
        "Dolby Digital (AC-3)".to_owned()
    } else if same(code, "6") {
        "Dolby Digital Plus (E-AC-3)".to_owned()
    } else if same(code, "7") {
        "DTS".to_owned()
    } else if same(code, "8") {
        "DTS-HD".to_owned()
    } else if same(code, "14") {
        "Dolby TrueHD".to_owned()
    } else if same(code, "17") {
        "Dolby AC-4".to_owned()
    } else if same(code, "18") {
        "Dolby Atmos over DD+ (E-AC-3 JOC)".to_owned()
    } else if same(code, "19") {
        "Dolby MAT".to_owned()
    } else if same(code, "26") {
        "MPEG-H LC L4".to_owned()
    } else if same(code, "27") {
        "DTS UHD P1".to_owned()
    } else {
        concat2("Format ", code)
    }
}

/// The list of formats that the setting holds, where it holds one.
pub open spec fn stated_formats(raw: Option<Seq<char>>) -> Option<Seq<char>> {
    match raw {
        None => None,
        Some(raw) => if trimmed(raw) == ""@ || trimmed(raw) == "null"@ {
            None
        } else {
            Some(trimmed(raw))
        },
    }
}

/// The names of the formats on a list.
pub open spec fn format_labels(list: Option<Seq<char>>) -> Seq<Seq<char>> {
    match list {
        None => Seq::empty(),
        Some(list) => items(split(list, ',')).map_values(|code: Seq<char>| format_label(code)),
    }
}

/// What the two audio settings say of encoded surround sound.
pub fn surround_mode(mode_raw: Option<&str>, formats_raw: Option<&str>) -> (r: AudioPassthrough)
    ensures
        r.mode == surround_mode_of(opt_slice(mode_raw)),
        opt_text(r.raw_formats) == stated_formats(opt_slice(formats_raw)),
        texts(r.enabled_formats@) == format_labels(stated_formats(opt_slice(formats_raw))),
{
    broadcast use crate::text::lemma_texts_push;

    let raw_formats: Option<String> = match formats_raw {
        None => None,
        Some(raw) => {
            let list = trim(raw);
            if same(list, "") || same(list, "null") {
                None
            } else {
                Some(list.to_owned())
            }
        },
    };
    let mut enabled_formats: Vec<String> = Vec::new();
    proof {
        assert(texts(enabled_formats@) =~= Seq::<Seq<char>>::empty());
    }
    if let Some(list) = &raw_formats {
        let codes = list_items(list.as_str(), ',');
        let ghost wanted = format_labels(Some(list@));
        let mut i: usize = 0;
        assert(wanted.take(0) =~= Seq::<Seq<char>>::empty());
        while i < codes.len()
            invariant
                slice_texts(codes@) == items(split(list@, ',')),
                wanted == format_labels(Some(list@)),
                wanted.len() == codes@.len(),
                i <= codes@.len(),
                texts(enabled_formats@) == wanted.take(i as int),
            decreases codes@.len() - i,
        {
            broadcast use crate::text::lemma_texts_push;

            assert(slice_texts(codes@)[i as int] == codes@[i as int]@);
            enabled_formats.push(audio_format_label(codes[i]));
            assert(wanted.take(i + 1) =~= wanted.take(i as int).push(wanted[i as int]));
            i = i + 1;
        }
        assert(wanted.take(wanted.len() as int) =~= wanted);
    }
    AudioPassthrough { mode: SurroundMode::from_raw(mode_raw), enabled_formats, raw_formats }
}

// ---------------------------------------------------------------------------
// Verdicts.
// ---------------------------------------------------------------------------

/// What a `Verdict` says.
pub struct VerdictView {
    pub level: VerdictLevel,
    pub title: Seq<char>,
    pub detail: Seq<char>,
}

impl View for Verdict {
    type V = VerdictView;

    open spec fn view(&self) -> VerdictView {
        VerdictView { level: self.level, title: self.title@, detail: self.detail@ }
    }
}

/// What each verdict of a list says.
pub open spec fn verdict_views(verdicts: Seq<Verdict>) -> Seq<VerdictView> {
    verdicts.map_values(|verdict: Verdict| verdict@)
}

/// A verdict that informs.
pub open spec fn info(title: Seq<char>, detail: Seq<char>) -> VerdictView {
    VerdictView { level: VerdictLevel::Info, title, detail }
}

/// The rate of the first mode that shows films at their own rate.
pub open spec fn first_film_rate(modes: Seq<DisplayModeEntry>) -> Option<Seq<char>>
    decreases modes.len(),
{
    if modes.len() == 0 {
        None
    } else if modes[0].film_rate() {
        Some(modes[0].fps_text@)
    } else {
        first_film_rate(modes.drop_first())
    }
}

/// The list, with one more item where there is one.
pub open spec fn and_maybe(list: Seq<VerdictView>, more: Option<VerdictView>) -> Seq<VerdictView> {
    match more {
        Some(verdict) => list.push(verdict),
        None => list,
    }
}

/// That configuration is no test.
pub open spec fn configuration_verdict() -> VerdictView {
    info(
        "Configuration, not a playback test"@,
        "Codec entries describe available configuration. They do not verify runtime registration, acceleration, profiles, DRM, or playback performance."@,
    )
}

/// That no decoder was read, where none was.
pub open spec fn decoder_verdict(count: nat) -> Option<VerdictView> {
    if count == 0 {
        Some(
            info(
                "Decoder list unavailable"@,
                "No decoder entries were read. Codec support could not be determined."@,
            ),
        )
    } else {
        None
    }
}

/// That a mode shows films at their own rate, where one does.
pub open spec fn film_verdict(rate: Option<Seq<char>>) -> Option<VerdictView> {
    match rate {
        Some(rate) => Some(
            info(
                "24p mode reported ("@ + rate + " Hz)"@,
                "A matching display mode is available. Actual switching depends on the player, device, and display; this setting alone does not guarantee film-rate output."@,
            ),
        ),
        None => None,
    }
}

/// That encoded surround sound is off, where it is.
pub open spec fn surround_verdict(mode: SurroundMode) -> Option<VerdictView> {
    if mode == SurroundMode::Never {
        Some(
            info(
                "Encoded surround passthrough is off"@,
                "The setting disables encoded surround output. PCM channel count and quality depend on the app and output path; this does not by itself imply downmixing."@,
            ),
        )
    } else {
        None
    }
}

/// What a user should know of a device's playback.
pub open spec fn verdicts_on(
    decoders: nat,
    modes: Seq<DisplayModeEntry>,
    mode: SurroundMode,
) -> Seq<VerdictView> {
    and_maybe(
        and_maybe(
            and_maybe(seq![configuration_verdict()], decoder_verdict(decoders)),
            film_verdict(first_film_rate(modes)),
        ),
        surround_verdict(mode),
    )
}

/// A verdict that informs.
fn info_verdict(title: String, detail: &str) -> (r: Verdict)
    ensures
        r@ == info(title@, detail@),
{
    Verdict { level: VerdictLevel::Info, title, detail: detail.to_owned() }
}

/// The rate of the first mode that shows films at their own rate.
fn find_film_rate(modes: &Vec<DisplayModeEntry>) -> (r: Option<&str>)
    ensures
        opt_slice(r) == first_film_rate(modes@),
{
    let mut i: usize = 0;
    assert(modes@.skip(0) =~= modes@);
    while i < modes.len()
        invariant
            i <= modes@.len(),
            first_film_rate(modes@) == first_film_rate(modes@.skip(i as int)),
        decreases modes@.len() - i,
    {
        assert(modes@.skip(i as int).drop_first() =~= modes@.skip(i + 1));
        if modes[i].is_film_rate() {
            return Some(modes[i].fps_text.as_str());
        }
        i = i + 1;
    }
    None
}

/// Puts together what is known of a device's playback.
pub fn build_capabilities(
    decoders: &[Decoder],
    hdr_types: Vec<String>,
    modes: Vec<DisplayModeEntry>,
    audio: AudioPassthrough,
    match_content_frame_rate: Option<String>,
) -> (r: MediaCapabilities)
    ensures
        format_views(r.video@) == formats_in(decoder_views(decoders@)),
        r.hdr_types == hdr_types,
        r.modes == modes,
        r.audio == audio,
        r.match_content_frame_rate == match_content_frame_rate,
        verdict_views(r.verdicts@) == verdicts_on(decoders@.len(), modes@, audio.mode),
{
    let mut verdicts: Vec<Verdict> = Vec::new();
    verdicts.push(
        info_verdict(
            "Configuration, not a playback test".to_owned(),
            "Codec entries describe available configuration. They do not verify runtime registration, acceleration, profiles, DRM, or playback performance.",
        ),
    );
    assert(verdict_views(verdicts@) =~= seq![configuration_verdict()]);
    if decoders.len() == 0 {
        let ghost before = verdicts@;
        verdicts.push(
            info_verdict(
                "Decoder list unavailable".to_owned(),
                "No decoder entries were read. Codec support could not be determined.",
            ),
        );
        assert(verdict_views(verdicts@) =~= verdict_views(before).push(verdicts@.last()@));
    }
    if let Some(rate) = find_film_rate(&modes) {
        let ghost before = verdicts@;
        verdicts.push(
            info_verdict(
                concat3("24p mode reported (", rate, " Hz)"),
                "A matching display mode is available. Actual switching depends on the player, device, and display; this setting alone does not guarantee film-rate output.",
            ),
        );
        assert(verdict_views(verdicts@) =~= verdict_views(before).push(verdicts@.last()@));
    }
    if audio.mode == SurroundMode::Never {
        let ghost before = verdicts@;
        verdicts.push(
            info_verdict(
                "Encoded surround passthrough is off".to_owned(),
                "The setting disables encoded surround output. PCM channel count and quality depend on the app and output path; this does not by itself imply downmixing.",
            ),
        );
        assert(verdict_views(verdicts@) =~= verdict_views(before).push(verdicts@.last()@));
    }
    MediaCapabilities {
        video: video_formats(decoders),
        hdr_types,
        modes,
        audio,
        match_content_frame_rate,
        verdicts,
    }
}

/// Nothing is claimed: every verdict informs, none praises or warns, and the first says that
/// configuration is no test.
pub proof fn verdicts_only_inform(decoders: nat, modes: Seq<DisplayModeEntry>, mode: SurroundMode)
    ensures
        ({
            let verdicts = verdicts_on(decoders, modes, mode);
            &&& verdicts.len() >= 1
            &&& verdicts[0] == configuration_verdict()
            &&& forall|i: int|
                0 <= i < verdicts.len() ==> (#[trigger] verdicts[i]).level == VerdictLevel::Info
        }),
{
}

// ---------------------------------------------------------------------------
// Laws.
// ---------------------------------------------------------------------------

/// Some verdict of the list has this title.
pub open spec fn has_title(verdicts: Seq<VerdictView>, title: Seq<char>) -> bool {
    exists|i: int| 0 <= i < verdicts.len() && (#[trigger] verdicts[i]).title == title
}

/// A mode of the list shows films at their own rate: its rate lies between 23.9 and 24.1.
pub open spec fn shows_film(modes: Seq<DisplayModeEntry>, i: int) -> bool {
    0 <= i < modes.len() && 0x4037_e666_6666_6666 <= modes[i].fps_bits <= 0x4038_1999_9999_999a
}

/// The rate that is reported is that of the first mode that shows films at their own rate, and
/// none is reported only where no mode does.
pub proof fn the_first_film_mode_is_reported(modes: Seq<DisplayModeEntry>)
    ensures
        first_film_rate(modes) is None <==> forall|i: int| !#[trigger] shows_film(modes, i),
        first_film_rate(modes) matches Some(rate) ==> exists|i: int| #[trigger]
            shows_film(modes, i) && rate == modes[i].fps_text@ && forall|j: int|
                j < i ==> !#[trigger] shows_film(modes, j),
    decreases modes.len(),
{
    if modes.len() > 0 {
        let rest = modes.drop_first();
        the_first_film_mode_is_reported(rest);
        assert(modes[0].film_rate() <==> shows_film(modes, 0));
        if !modes[0].film_rate() {
            assert forall|i: int| shows_film(rest, i) <==> shows_film(modes, i + 1) by {
                if 0 <= i < rest.len() {
                    assert(rest[i] == modes[i + 1]);
                }
            }
            assert forall|i: int| shows_film(modes, i) implies shows_film(rest, i - 1) by {
                if i > 0 {
                    assert(shows_film(rest, i - 1) <==> shows_film(modes, i - 1 + 1));
                }
            }
            if first_film_rate(rest) is Some {
                let i = choose|i: int| #[trigger]
                    shows_film(rest, i) && first_film_rate(rest) == Some(rest[i].fps_text@)
                        && forall|j: int| j < i ==> !#[trigger] shows_film(rest, j);
                assert(shows_film(modes, i + 1));
                assert(rest[i] == modes[i + 1]);
                assert forall|j: int| j < i + 1 implies !#[trigger] shows_film(modes, j) by {
                    if shows_film(modes, j) {
                        assert(shows_film(rest, j - 1));
                    }
                }
            }
        } else {
            assert forall|j: int| j < 0 implies !#[trigger] shows_film(modes, j) by {}
        }
    }
}

proof fn lemma_titles_differ(rate: Seq<char>)
    ensures
        "Configuration, not a playback test"@ != "Decoder list unavailable"@,
        "Configuration, not a playback test"@ != "Encoded surround passthrough is off"@,
        "Decoder list unavailable"@ != "Encoded surround passthrough is off"@,
        "24p mode reported ("@ + rate + " Hz)"@ != "Configuration, not a playback test"@,
        "24p mode reported ("@ + rate + " Hz)"@ != "Decoder list unavailable"@,
        "24p mode reported ("@ + rate + " Hz)"@ != "Encoded surround passthrough is off"@,
{
    reveal_strlit("Configuration, not a playback test");
    reveal_strlit("Decoder list unavailable");
    reveal_strlit("Encoded surround passthrough is off");
    reveal_strlit("24p mode reported (");
    let film = "24p mode reported ("@ + rate + " Hz)"@;
    assert(film[0] == '2');
    assert("Configuration, not a playback test"@[0] == 'C');
    assert("Decoder list unavailable"@[0] == 'D');
    assert("Encoded surround passthrough is off"@[0] == 'E');
}

/// That encoded surround sound is off is said if and only if the setting says never: not where
/// it is automatic, always on, manual, unset or unknown.
pub proof fn surround_is_called_off_only_where_it_is(
    decoders: nat,
    modes: Seq<DisplayModeEntry>,
    mode: SurroundMode,
)
    ensures
        has_title(
            verdicts_on(decoders, modes, mode),
            "Encoded surround passthrough is off"@,
        ) <==> mode == SurroundMode::Never,
{
    let verdicts = verdicts_on(decoders, modes, mode);
    let rate = match first_film_rate(modes) {
        Some(rate) => rate,
        None => Seq::empty(),
    };
    lemma_titles_differ(rate);
    if mode == SurroundMode::Never {
        assert(verdicts[verdicts.len() - 1].title == "Encoded surround passthrough is off"@);
    }
}

/// That no decoder was read is said if and only if none was.
pub proof fn decoders_are_called_unavailable_only_where_none_was_read(
    decoders: nat,
    modes: Seq<DisplayModeEntry>,
    mode: SurroundMode,
)
    ensures
        has_title(verdicts_on(decoders, modes, mode), "Decoder list unavailable"@) <==> decoders == 0,
{
    let verdicts = verdicts_on(decoders, modes, mode);
    let rate = match first_film_rate(modes) {
        Some(rate) => rate,
        None => Seq::empty(),
    };
    lemma_titles_differ(rate);
    if decoders == 0 {
        assert(verdicts[1].title == "Decoder list unavailable"@);
    }
}

/// That a mode shows films at their own rate is said if and only if one does, and the rate that
/// is told is that of the first such mode.
pub proof fn a_film_mode_is_told_where_there_is_one(
    decoders: nat,
    modes: Seq<DisplayModeEntry>,
    mode: SurroundMode,
    i: int,
)
    ensures
        shows_film(modes, i) && (forall|j: int| j < i ==> !#[trigger] shows_film(modes, j))
            ==> has_title(
            verdicts_on(decoders, modes, mode),
            "24p mode reported ("@ + modes[i].fps_text@ + " Hz)"@,
        ),
        (forall|j: int| !#[trigger] shows_film(modes, j)) ==> forall|rate: Seq<char>|
            !#[trigger] has_title(
                verdicts_on(decoders, modes, mode),
                "24p mode reported ("@ + rate + " Hz)"@,
            ),
{
    let verdicts = verdicts_on(decoders, modes, mode);
    the_first_film_mode_is_reported(modes);
    if shows_film(modes, i) && forall|j: int| j < i ==> !#[trigger] shows_film(modes, j) {
        let k = choose|k: int| #[trigger]
            shows_film(modes, k) && first_film_rate(modes) == Some(modes[k].fps_text@)
                && forall|j: int| j < k ==> !#[trigger] shows_film(modes, j);
        assert(k == i);
        let n: int = if decoders == 0 {
            2
        } else {
            1
        };
        assert(verdicts[n].title == "24p mode reported ("@ + modes[i].fps_text@ + " Hz)"@);
    }
    if forall|j: int| !#[trigger] shows_film(modes, j) {
        assert forall|rate: Seq<char>|
            !#[trigger] has_title(verdicts, "24p mode reported ("@ + rate + " Hz)"@) by {
            lemma_titles_differ(rate);
        }
    }
}

/// Nothing is said but that configuration is no test, that no decoder was read, that a mode
/// shows films at their own rate, and that surround sound is off; in that order, each once at
/// most, and each with what it means.
pub proof fn nothing_else_is_said(decoders: nat, modes: Seq<DisplayModeEntry>, mode: SurroundMode)
    ensures
        ({
            let verdicts = verdicts_on(decoders, modes, mode);
            let none: int = if decoders == 0 {
                1
            } else {
                0
            };
            let film: int = if exists|i: int| #[trigger] shows_film(modes, i) {
                1
            } else {
                0
            };
            let off: int = if mode == SurroundMode::Never {
                1
            } else {
                0
            };
            &&& verdicts.len() == 1 + none + film + off
            &&& verdicts[0].title == "Configuration, not a playback test"@
            &&& verdicts[0].detail
                == "Codec entries describe available configuration. They do not verify runtime registration, acceleration, profiles, DRM, or playback performance."@
            &&& none == 1 ==> verdicts[1].title == "Decoder list unavailable"@ && verdicts[1].detail
                == "No decoder entries were read. Codec support could not be determined."@
            &&& film == 1 ==> verdicts[1 + none].detail
                == "A matching display mode is available. Actual switching depends on the player, device, and display; this setting alone does not guarantee film-rate output."@
            &&& off == 1 ==> verdicts[1 + none + film].title
                == "Encoded surround passthrough is off"@ && verdicts[1 + none + film].detail
                == "The setting disables encoded surround output. PCM channel count and quality depend on the app and output path; this does not by itself imply downmixing."@
            &&& forall|i: int|
                0 <= i < verdicts.len() ==> (#[trigger] verdicts[i]).level == VerdictLevel::Info
        }),
{
    the_first_film_mode_is_reported(modes);
}

/// The setting says when surround sound is passed on by its number: automatically, never,
/// always, or by hand. Nothing and `null` are no setting, and anything else is not known.
pub proof fn surround_modes_are_known_by_their_numbers(raw: Option<Seq<char>>)
    ensures
        ({
            let mode = surround_mode_of(raw);
            let said = match raw {
                Some(raw) => trimmed(raw),
                None => Seq::empty(),
            };
            &&& mode == SurroundMode::Auto <==> said == seq!['0']
            &&& mode == SurroundMode::Never <==> said == seq!['1']
            &&& mode == SurroundMode::Always <==> said == seq!['2']
            &&& mode == SurroundMode::Manual <==> said == seq!['3']
            &&& mode == SurroundMode::Unset <==> said.len() == 0 || said == "null"@
        }),
{
    reveal_strlit("0");
    reveal_strlit("1");
    reveal_strlit("2");
    reveal_strlit("3");
    reveal_strlit("");
    reveal_strlit("null");
    assert("0"@ =~= seq!['0']);
    assert("1"@ =~= seq!['1']);
    assert("2"@ =~= seq!['2']);
    assert("3"@ =~= seq!['3']);
    assert(seq!['0'][0] == '0' && seq!['1'][0] == '1' && seq!['2'][0] == '2' && seq!['3'][0] == '3');
    assert("null"@.len() == 4);
    let said = match raw {
        Some(raw) => trimmed(raw),
        None => Seq::empty(),
    };
    assert(said.len() == 0 <==> said =~= ""@);
}

/// The formats that the setting lists are told in order, each by the name of its number; blank
/// ones are left out, and nothing and `null` list none.
pub proof fn formats_are_told_in_the_order_of_the_setting(raw: Option<Seq<char>>)
    ensures
        stated_formats(raw) is None <==> (raw is None || trimmed(raw->Some_0).len() == 0 || trimmed(
            raw->Some_0,
        ) == "null"@),
        stated_formats(raw) matches Some(list) ==> raw is Some && list == trimmed(raw->Some_0),
        format_labels(None).len() == 0,
        forall|list: Seq<char>| #[trigger]
            format_labels(Some(list)) == split(list, ',').map_values(
                |piece: Seq<char>| trimmed(piece),
            ).filter(|item: Seq<char>| item.len() > 0).map_values(
                |code: Seq<char>| format_label(code),
            ),
{
    reveal_strlit("");
    if raw is Some {
        assert(trimmed(raw->Some_0).len() == 0 <==> trimmed(raw->Some_0) =~= ""@);
    }
    assert forall|list: Seq<char>| #[trigger]
        format_labels(Some(list)) == split(list, ',').map_values(
            |piece: Seq<char>| trimmed(piece),
        ).filter(|item: Seq<char>| item.len() > 0).map_values(
            |code: Seq<char>| format_label(code),
        ) by {
        items_are_the_pieces_that_say_something(split(list, ','));
    }
}

/// A format is named by the number that the platform has for it, white space round it aside, and
/// a number without a name is told as it is.
pub proof fn formats_are_known_by_their_numbers(code: Seq<char>)
    ensures
        trimmed(code) == "5"@ ==> format_label(code) == "Dolby Digital (AC-3)"@,
        trimmed(code) == "6"@ ==> format_label(code) == "Dolby Digital Plus (E-AC-3)"@,
        trimmed(code) == "7"@ ==> format_label(code) == "DTS"@,
        trimmed(code) == "8"@ ==> format_label(code) == "DTS-HD"@,
        trimmed(code) == "14"@ ==> format_label(code) == "Dolby TrueHD"@,
        trimmed(code) == "17"@ ==> format_label(code) == "Dolby AC-4"@,
        trimmed(code) == "18"@ ==> format_label(code) == "Dolby Atmos over DD+ (E-AC-3 JOC)"@,
        trimmed(code) == "19"@ ==> format_label(code) == "Dolby MAT"@,
        trimmed(code) == "26"@ ==> format_label(code) == "MPEG-H LC L4"@,
        trimmed(code) == "27"@ ==> format_label(code) == "DTS UHD P1"@,
        trimmed(code) != "5"@ && trimmed(code) != "6"@ && trimmed(code) != "7"@ && trimmed(code)
            != "8"@ && trimmed(code) != "14"@ && trimmed(code) != "17"@ && trimmed(code) != "18"@
            && trimmed(code) != "19"@ && trimmed(code) != "26"@ && trimmed(code) != "27"@
            ==> format_label(code) == "Format "@ + trimmed(code),
{
    reveal_strlit("5");
    reveal_strlit("6");
    reveal_strlit("7");
    reveal_strlit("8");
    reveal_strlit("14");
    reveal_strlit("17");
    reveal_strlit("18");
    reveal_strlit("19");
    reveal_strlit("26");
    reveal_strlit("27");
    assert("5"@.len() == 1 && "6"@.len() == 1 && "7"@.len() == 1 && "8"@.len() == 1);
    assert("5"@[0] == '5' && "6"@[0] == '6' && "7"@[0] == '7' && "8"@[0] == '8');
    assert("14"@.len() == 2 && "17"@.len() == 2 && "18"@.len() == 2 && "19"@.len() == 2
        && "26"@.len() == 2 && "27"@.len() == 2);
    assert("14"@[1] == '4' && "17"@[1] == '7' && "18"@[1] == '8' && "19"@[1] == '9');
    assert("26"@[0] == '2' && "27"@[0] == '2' && "14"@[0] == '1' && "17"@[0] == '1');
    assert("26"@[1] == '6' && "27"@[1] == '7');
}

/// Six formats are reported on, each under its name. Of each it is told whether a decoder is for
/// it, whether one for it runs in software, and whether of one for it the acceleration is not
/// known.
pub proof fn formats_are_reported_by_their_decoders(decoders: Seq<DecoderView>, k: int)
    requires
        0 <= k < 6,
    ensures
        formats_in(decoders).len() == 6,
        known_video()[0] == ("video/avc"@, "H.264 / AVC"@),
        known_video()[1] == ("video/hevc"@, "HEVC / H.265"@),
        known_video()[2] == ("video/x-vnd.on2.vp9"@, "VP9"@),
        known_video()[3] == ("video/av01"@, "AV1"@),
        known_video()[4] == ("video/dolby-vision"@, "Dolby Vision"@),
        known_video()[5] == ("video/mpeg2"@, "MPEG-2"@),
        ({
            let format = formats_in(decoders)[k];
            let mime = known_video()[k].0;
            &&& format.mime == mime
            &&& format.label == known_video()[k].1
            &&& format.advertised <==> exists|i: int|
                0 <= i < decoders.len() && (#[trigger] decoders[i]).mime == mime
            &&& format.software <==> exists|i: int|
                0 <= i < decoders.len() && (#[trigger] decoders[i]).mime == mime
                    && decoders[i].software
            &&& format.acceleration_unknown <==> exists|i: int|
                0 <= i < decoders.len() && (#[trigger] decoders[i]).mime == mime
                    && !decoders[i].software
        }),
{
    presence_is_not_acceleration(decoders, k);
    let mime = known_video()[k].0;
    if decodes(decoders, mime, true) {
        let i = choose|i: int|
            0 <= i < decoders.len() && (#[trigger] decoders[i]).mime == mime
                && decoders[i].software == true;
        assert(decoders[i].software);
    }
    if decodes(decoders, mime, false) {
        let i = choose|i: int|
            0 <= i < decoders.len() && (#[trigger] decoders[i]).mime == mime
                && decoders[i].software == false;
        assert(!decoders[i].software);
    }
}

} // verus!
