//! Decisions of the MKV-to-MP4 remux: which files need it, which tracks
//! are copied, how the codec headers that Matroska stores are read, and
//! the time arithmetic between the two containers. Reading the Matroska
//! file and writing the MP4 one are the caller's.
use vstd::prelude::*;
use crate::text::{ends_with, ends_with_exec, lowercase, to_lower};

verus! {

#[verifier::external_type_specification]
pub struct ExAudioObjectType(mp4::AudioObjectType);

#[verifier::external_type_specification]
pub struct ExSampleFreqIndex(mp4::SampleFreqIndex);

#[verifier::external_type_specification]
pub struct ExChannelConfig(mp4::ChannelConfig);

/// The timescale of the MP4 tracks written: 90 kHz.
pub const MP4_TIMESCALE: u64 = 90_000;

/// Samples in one AAC frame.
pub const AAC_SAMPLES_PER_FRAME: u64 = 1024;

/// Whether a file is a Matroska video (its name ends with `.mkv`, case
/// aside), which the player cannot open and the remux turns into MP4.
pub fn needs_remux(file_name: &str) -> (r: bool)
    ensures
        r == ends_with(lowercase(file_name@), ".mkv"@),
{
    let lower = to_lower(file_name);
    ends_with_exec(lower.as_str(), ".mkv")
}

/// `a * b`, or `u64::MAX` when it does not fit.
pub open spec fn sat_mul(a: u64, b: u64) -> u64 {
    if a * b > u64::MAX {
        u64::MAX
    } else {
        (a * b) as u64
    }
}

/// A Matroska timestamp (`ticks` of `scale_ns` nanoseconds) in MP4 time
/// units, each product saturating.
pub open spec fn mp4_time(ticks: u64, scale_ns: u64) -> u64 {
    (sat_mul(sat_mul(ticks, scale_ns), 90_000) / 1_000_000_000) as u64
}

/// Converts a Matroska timestamp to MP4 time units.
pub fn to_mp4_timescale(matroska_ticks: u64, timestamp_scale_ns: u64) -> (r: u64)
    ensures
        r == mp4_time(matroska_ticks, timestamp_scale_ns),
{
    let total_ns = match matroska_ticks.checked_mul(timestamp_scale_ns) {
        Some(x) => x,
        None => u64::MAX,
    };
    let units = match total_ns.checked_mul(MP4_TIMESCALE) {
        Some(x) => x,
        None => u64::MAX,
    };
    units / 1_000_000_000
}

/// The duration of a video sample: the track's default duration (in
/// nanoseconds) or 1/24 s, in MP4 units, truncated to 32 bits.
pub fn video_sample_duration(default_duration_ns: Option<u64>) -> (r: u32)
    ensures
        r == (mp4_time(
            match default_duration_ns {
                Some(d) => d,
                None => 41_666_666u64,
            },
            1,
        ) as u32),
{
    let d = match default_duration_ns {
        Some(d) => d,
        None => 1_000_000_000 / 24,
    };
    #[verifier::truncate]
    (to_mp4_timescale(d, 1) as u32)
}

/// The duration of an AAC sample (1024 samples at `sample_rate` Hz) in MP4
/// units, truncated to 32 bits.
pub fn audio_sample_duration(sample_rate: u64) -> (r: u32)
    requires
        sample_rate > 0,
    ensures
        r == ((92_160_000int / sample_rate as int) as u32),
{
    #[verifier::truncate]
    ((AAC_SAMPLES_PER_FRAME * MP4_TIMESCALE / sample_rate) as u32)
}

/// The kind of a Matroska track.
#[derive(PartialEq, Eq, Structural, Clone, Copy, Debug)]
pub enum TrackKind {
    Video,
    Audio,
    Other,
}

/// What the remux reads of a track to choose it.
pub struct TrackSummary {
    pub kind: TrackKind,
    pub codec_id: String,
}

/// The first track of the kind with the codec, from `i` on.
pub open spec fn first_track(tracks: Seq<TrackSummary>, kind: TrackKind, codec: Seq<char>, i: int) -> Option<int>
    decreases tracks.len() - i,
{
    if i < 0 || i >= tracks.len() {
        None
    } else if tracks[i].kind == kind && tracks[i].codec_id@ == codec {
        Some(i)
    } else {
        first_track(tracks, kind, codec, i + 1)
    }
}

fn first_track_exec(tracks: &Vec<TrackSummary>, kind: TrackKind, codec: &str) -> (r: Option<usize>)
    ensures
        r matches Some(i) ==> first_track(tracks@, kind, codec@, 0) == Some(i as int) && i < tracks@.len(),
        r is None ==> first_track(tracks@, kind, codec@, 0) is None,
{
    let c = codec.to_owned();
    let mut i: usize = 0;
    while i < tracks.len()
        invariant
            i <= tracks@.len(),
            c@ == codec@,
            first_track(tracks@, kind, codec@, 0) == first_track(tracks@, kind, codec@, i as int),
        decreases tracks@.len() - i,
    {
        if tracks[i].kind == kind && tracks[i].codec_id == c {
            return Some(i);
        }
        i += 1;
    }
    None
}

/// The tracks the remux copies: the first H.264 video track and the first
/// AAC audio track; any other codec is refused rather than written into a
/// broken file.
pub fn select_remux_tracks(tracks: &Vec<TrackSummary>) -> (r: Result<(usize, usize), String>)
    ensures
        match r {
            Ok((v, a)) => first_track(tracks@, TrackKind::Video, "V_MPEG4/ISO/AVC"@, 0) == Some(v as int)
                && first_track(tracks@, TrackKind::Audio, "A_AAC"@, 0) == Some(a as int),
            Err(e) => (first_track(tracks@, TrackKind::Video, "V_MPEG4/ISO/AVC"@, 0) is None
                && e@ == "sin track de video H.264 — códec no soportado para remux"@) || (first_track(
                tracks@,
                TrackKind::Video,
                "V_MPEG4/ISO/AVC"@,
                0,
            ) is Some && first_track(tracks@, TrackKind::Audio, "A_AAC"@, 0) is None
                && e@ == "sin track de audio AAC — códec no soportado para remux"@),
        },
{
    let v = match first_track_exec(tracks, TrackKind::Video, "V_MPEG4/ISO/AVC") {
        Some(v) => v,
        None => {
            return Err("sin track de video H.264 — códec no soportado para remux".to_owned());
        },
    };
    let a = match first_track_exec(tracks, TrackKind::Audio, "A_AAC") {
        Some(a) => a,
        None => {
            return Err("sin track de audio AAC — códec no soportado para remux".to_owned());
        },
    };
    Ok((v, a))
}

/// Where a Matroska frame goes.
#[derive(PartialEq, Eq, Structural, Clone, Copy, Debug)]
pub enum FrameRoute {
    Video,
    Audio,
    Skip,
}

/// The MP4 track a frame of track `track` is written to; frames of other
/// tracks (embedded subtitles) are skipped.
pub fn route_frame(track: u64, video_number: u64, audio_number: u64) -> (r: FrameRoute)
    ensures
        r == (if track == video_number {
            FrameRoute::Video
        } else if track == audio_number {
            FrameRoute::Audio
        } else {
            FrameRoute::Skip
        }),
{
    if track == video_number {
        FrameRoute::Video
    } else if track == audio_number {
        FrameRoute::Audio
    } else {
        FrameRoute::Skip
    }
}

// ----------------------------------------------------------------------
// AVCDecoderConfigurationRecord

/// A big-endian 16-bit length at `p`.
pub open spec fn be16(d: Seq<u8>, p: int) -> int {
    d[p] * 256 + d[p + 1]
}

/// Skips `k` more length-prefixed parameter sets from `pos`: where the
/// next field starts, or `None` when a length would be read past the end.
pub open spec fn skip_sets(d: Seq<u8>, pos: int, k: int) -> Option<int>
    decreases k,
{
    if k <= 0 {
        Some(pos)
    } else if pos + 1 < d.len() {
        skip_sets(d, pos + 2 + be16(d, pos), k - 1)
    } else {
        None
    }
}

/// What reading an AVCDecoderConfigurationRecord gives: the first SPS and
/// the first PPS without their length prefixes, or the error. A record
/// cut short anywhere is refused: before or inside a sequence parameter
/// set ("SPS truncado"), or inside the picture parameter set ("PPS
/// truncado").
pub open spec fn avcc_result(d: Seq<u8>) -> Result<(Seq<u8>, Seq<u8>), Seq<char>> {
    if d.len() < 6 {
        Err("AVCDecoderConfigurationRecord demasiado corto"@)
    } else if d[5] % 32 == 0 {
        Err("AVCDecoderConfigurationRecord sin SPS"@)
    } else if d.len() < 8 {
        Err("SPS truncado"@)
    } else if 8 + be16(d, 6) > d.len() {
        Err("SPS truncado"@)
    } else {
        let sps = d.subrange(8, 8 + be16(d, 6));
        match skip_sets(d, 8 + be16(d, 6), d[5] % 32 - 1) {
            None => Err("SPS truncado"@),
            Some(pos) => if pos >= d.len() {
                Err("AVCDecoderConfigurationRecord sin PPS"@)
            } else if d[pos] == 0 {
                Err("AVCDecoderConfigurationRecord sin PPS"@)
            } else if pos + 2 >= d.len() {
                Err("PPS truncado"@)
            } else if pos + 3 + be16(d, pos + 1) > d.len() {
                Err("PPS truncado"@)
            } else {
                Ok((sps, d.subrange(pos + 3, pos + 3 + be16(d, pos + 1))))
            },
        }
    }
}

/// Reads the first SPS and PPS of an H.264 AVCDecoderConfigurationRecord
/// (the codec header Matroska keeps), without their length prefixes.
/// Extra SPS are skipped.
pub fn parse_avcc(data: &[u8]) -> (r: Result<(Vec<u8>, Vec<u8>), String>)
    requires
        data@.len() < usize::MAX - 65_536 * 33,
    ensures
        match r {
            Ok((sps, pps)) => avcc_result(data@) == Ok::<(Seq<u8>, Seq<u8>), Seq<char>>((sps@, pps@)),
            Err(e) => avcc_result(data@) == Err::<(Seq<u8>, Seq<u8>), Seq<char>>(e@),
        },
{
    if data.len() < 6 {
        return Err("AVCDecoderConfigurationRecord demasiado corto".to_owned());
    }
    let b5 = data[5];
    let num_sps = b5 & 0x1F;
    assert(num_sps == b5 % 32) by (bit_vector)
        requires
            num_sps == b5 & 0x1F,
    ;
    if num_sps < 1 {
        return Err("AVCDecoderConfigurationRecord sin SPS".to_owned());
    }
    if data.len() < 8 {
        return Err("SPS truncado".to_owned());
    }
    let sps_len = data[6] as usize * 256 + data[7] as usize;
    if 8 + sps_len > data.len() {
        return Err("SPS truncado".to_owned());
    }
    let sps = copy_range(data, 8, 8 + sps_len);
    let mut pos = 8 + sps_len;
    let mut k: u8 = 1;
    while k < num_sps
        invariant
            1 <= k <= num_sps,
            num_sps == data@[5] % 32,
            num_sps <= 31,
            8 <= pos <= data@.len() + 65_537,
            data@.len() >= 8,
            8 + be16(data@, 6) <= data@.len(),
            data@.len() < usize::MAX - 65_536 * 33,
            skip_sets(data@, 8 + be16(data@, 6), num_sps - 1) == skip_sets(data@, pos as int, num_sps - k),
        decreases num_sps - k,
    {
        if pos + 1 >= data.len() {
            return Err("SPS truncado".to_owned());
        }
        let len = data[pos] as usize * 256 + data[pos + 1] as usize;
        pos = pos + 2 + len;
        k += 1;
    }
    if pos >= data.len() {
        return Err("AVCDecoderConfigurationRecord sin PPS".to_owned());
    }
    let num_pps = data[pos];
    if num_pps < 1 {
        return Err("AVCDecoderConfigurationRecord sin PPS".to_owned());
    }
    if pos + 2 >= data.len() {
        return Err("PPS truncado".to_owned());
    }
    let pps_len = data[pos + 1] as usize * 256 + data[pos + 2] as usize;
    if pos + 3 + pps_len > data.len() {
        return Err("PPS truncado".to_owned());
    }
    let pps = copy_range(data, pos + 3, pos + 3 + pps_len);
    Ok((sps, pps))
}

fn copy_range(data: &[u8], lo: usize, hi: usize) -> (r: Vec<u8>)
    requires
        lo <= hi <= data@.len(),
    ensures
        r@ == data@.subrange(lo as int, hi as int),
{
    let mut out: Vec<u8> = Vec::new();
    let mut i = lo;
    while i < hi
        invariant
            lo <= i <= hi <= data@.len(),
            out@ == data@.subrange(lo as int, i as int),
        decreases hi - i,
    {
        out.push(data[i]);
        i += 1;
        assert(out@ =~= data@.subrange(lo as int, i as int));
    }
    out
}

// ----------------------------------------------------------------------
// AudioSpecificConfig

/// The audio object types that `mp4` knows.
pub open spec fn known_object_type(v: u8) -> bool {
    (1 <= v <= 9) || (12 <= v <= 17) || (19 <= v <= 30) || (32 <= v <= 46)
}

/// The code of an audio object type, as `mp4` declares it.
pub open spec fn object_type_code(t: mp4::AudioObjectType) -> u8 {
    match t {
        mp4::AudioObjectType::AacMain => 1,
        mp4::AudioObjectType::AacLowComplexity => 2,
        mp4::AudioObjectType::AacScalableSampleRate => 3,
        mp4::AudioObjectType::AacLongTermPrediction => 4,
        mp4::AudioObjectType::SpectralBandReplication => 5,
        mp4::AudioObjectType::AACScalable => 6,
        mp4::AudioObjectType::TwinVQ => 7,
        mp4::AudioObjectType::CodeExcitedLinearPrediction => 8,
        mp4::AudioObjectType::HarmonicVectorExcitationCoding => 9,
        mp4::AudioObjectType::TextToSpeechtInterface => 12,
        mp4::AudioObjectType::MainSynthetic => 13,
        mp4::AudioObjectType::WavetableSynthesis => 14,
        mp4::AudioObjectType::GeneralMIDI => 15,
        mp4::AudioObjectType::AlgorithmicSynthesis => 16,
        mp4::AudioObjectType::ErrorResilientAacLowComplexity => 17,
        mp4::AudioObjectType::ErrorResilientAacLongTermPrediction => 19,
        mp4::AudioObjectType::ErrorResilientAacScalable => 20,
        mp4::AudioObjectType::ErrorResilientAacTwinVQ => 21,
        mp4::AudioObjectType::ErrorResilientAacBitSlicedArithmeticCoding => 22,
        mp4::AudioObjectType::ErrorResilientAacLowDelay => 23,
        mp4::AudioObjectType::ErrorResilientCodeExcitedLinearPrediction => 24,
        mp4::AudioObjectType::ErrorResilientHarmonicVectorExcitationCoding => 25,
        mp4::AudioObjectType::ErrorResilientHarmonicIndividualLinesNoise => 26,
        mp4::AudioObjectType::ErrorResilientParametric => 27,
        mp4::AudioObjectType::SinuSoidalCoding => 28,
        mp4::AudioObjectType::ParametricStereo => 29,
        mp4::AudioObjectType::MpegSurround => 30,
        mp4::AudioObjectType::MpegLayer1 => 32,
        mp4::AudioObjectType::MpegLayer2 => 33,
        mp4::AudioObjectType::MpegLayer3 => 34,
        mp4::AudioObjectType::DirectStreamTransfer => 35,
        mp4::AudioObjectType::AudioLosslessCoding => 36,
        mp4::AudioObjectType::ScalableLosslessCoding => 37,
        mp4::AudioObjectType::ScalableLosslessCodingNoneCore => 38,
        mp4::AudioObjectType::ErrorResilientAacEnhancedLowDelay => 39,
        mp4::AudioObjectType::SymbolicMusicRepresentationSimple => 40,
        mp4::AudioObjectType::SymbolicMusicRepresentationMain => 41,
        mp4::AudioObjectType::UnifiedSpeechAudioCoding => 42,
        mp4::AudioObjectType::SpatialAudioObjectCoding => 43,
        mp4::AudioObjectType::LowDelayMpegSurround => 44,
        mp4::AudioObjectType::SpatialAudioObjectCodingDialogueEnhancement => 45,
        mp4::AudioObjectType::AudioSync => 46,
    }
}

/// The sampling frequency index of a `mp4` frequency, as it declares it.
pub open spec fn freq_index_code(t: mp4::SampleFreqIndex) -> u8 {
    match t {
        mp4::SampleFreqIndex::Freq96000 => 0,
        mp4::SampleFreqIndex::Freq88200 => 1,
        mp4::SampleFreqIndex::Freq64000 => 2,
        mp4::SampleFreqIndex::Freq48000 => 3,
        mp4::SampleFreqIndex::Freq44100 => 4,
        mp4::SampleFreqIndex::Freq32000 => 5,
        mp4::SampleFreqIndex::Freq24000 => 6,
        mp4::SampleFreqIndex::Freq22050 => 7,
        mp4::SampleFreqIndex::Freq16000 => 8,
        mp4::SampleFreqIndex::Freq12000 => 9,
        mp4::SampleFreqIndex::Freq11025 => 10,
        mp4::SampleFreqIndex::Freq8000 => 11,
        mp4::SampleFreqIndex::Freq7350 => 12,
    }
}

/// The channel configuration code of a `mp4` layout, as it declares it.
pub open spec fn channel_config_code(t: mp4::ChannelConfig) -> u8 {
    match t {
        mp4::ChannelConfig::Mono => 1,
        mp4::ChannelConfig::Stereo => 2,
        mp4::ChannelConfig::Three => 3,
        mp4::ChannelConfig::Four => 4,
        mp4::ChannelConfig::Five => 5,
        mp4::ChannelConfig::FiveOne => 6,
        mp4::ChannelConfig::SevenOne => 7,
    }
}

/// Calls `mp4::AudioObjectType::try_from`, which knows the object types
/// 1–9, 12–17, 19–30 and 32–46, gives the variant declared with that
/// code, and fails with "invalid audio object type" on any other value.
#[verifier::external_body]
fn audio_object_type(v: u8) -> (r: Result<mp4::AudioObjectType, String>)
    ensures
        r is Ok <==> known_object_type(v),
        r matches Ok(t) ==> object_type_code(t) == v,
        r matches Err(e) ==> e@ == "invalid audio object type"@,
{
    match mp4::AudioObjectType::try_from(v) {
        Ok(t) => Ok(t),
        Err(e) => Err(e.to_string()),
    }
}

/// Calls `mp4::SampleFreqIndex::try_from`, which knows the indexes 0–12
/// and gives the frequency declared with that index, failing with
/// "invalid sampling frequency index" on any other value.
#[verifier::external_body]
fn sample_freq_index(v: u8) -> (r: Result<mp4::SampleFreqIndex, String>)
    ensures
        r is Ok <==> v <= 12,
        r matches Ok(t) ==> freq_index_code(t) == v,
        r matches Err(e) ==> e@ == "invalid sampling frequency index"@,
{
    match mp4::SampleFreqIndex::try_from(v) {
        Ok(t) => Ok(t),
        Err(e) => Err(e.to_string()),
    }
}

/// Calls `mp4::ChannelConfig::try_from`, which knows the configurations
/// 1–7 and gives the layout declared with that code, failing with
/// "invalid channel configuration" on any other value.
#[verifier::external_body]
fn channel_config(v: u8) -> (r: Result<mp4::ChannelConfig, String>)
    ensures
        r is Ok <==> 1 <= v <= 7,
        r matches Ok(t) ==> channel_config_code(t) == v,
        r matches Err(e) ==> e@ == "invalid channel configuration"@,
{
    match mp4::ChannelConfig::try_from(v) {
        Ok(t) => Ok(t),
        Err(e) => Err(e.to_string()),
    }
}

/// The fields of an AudioSpecificConfig: 5 bits of object type, 4 bits of
/// sampling frequency index, 4 bits of channel configuration.
pub open spec fn asc_fields(d: Seq<u8>) -> (u8, u8, u8) {
    ((d[0] / 8) as u8, ((d[0] % 8) * 2 + d[1] / 128) as u8, ((d[1] / 8) % 16) as u8)
}

/// The error reading an AudioSpecificConfig gives, if any.
pub open spec fn asc_error(d: Seq<u8>) -> Option<Seq<char>> {
    if d.len() < 2 {
        Some("AudioSpecificConfig demasiado corto"@)
    } else {
        let (obj, freq, chan) = asc_fields(d);
        if freq == 15 {
            Some("frecuencia de muestreo explícita no soportada"@)
        } else if !known_object_type(obj) {
            Some("audioObjectType inválido: "@ + "invalid audio object type"@)
        } else if freq > 12 {
            Some("samplingFrequencyIndex inválido: "@ + "invalid sampling frequency index"@)
        } else if !(1 <= chan <= 7) {
            Some("channelConfiguration inválido: "@ + "invalid channel configuration"@)
        } else {
            None
        }
    }
}

/// Reads an AAC AudioSpecificConfig (the codec header Matroska keeps):
/// object type, sampling frequency index and channel configuration. An
/// explicit sampling frequency (index 15) is refused. Each value returned
/// is the `mp4` variant declared with the code of its field.
pub fn parse_audio_specific_config(data: &[u8]) -> (r: Result<
    (mp4::AudioObjectType, mp4::SampleFreqIndex, mp4::ChannelConfig),
    String,
>)
    ensures
        match r {
            Ok((o, f, c)) => {
                &&& asc_error(data@) is None
                &&& object_type_code(o) == asc_fields(data@).0
                &&& freq_index_code(f) == asc_fields(data@).1
                &&& channel_config_code(c) == asc_fields(data@).2
            },
            Err(e) => asc_error(data@) == Some(e@),
        },
{
    if data.len() < 2 {
        return Err("AudioSpecificConfig demasiado corto".to_owned());
    }
    let b0 = data[0];
    let b1 = data[1];
    let object_type = b0 >> 3;
    let freq_index = ((b0 & 0x07) << 1) | (b1 >> 7);
    let chan = (b1 >> 3) & 0x0F;
    assert(object_type == b0 / 8) by (bit_vector)
        requires
            object_type == b0 >> 3,
    ;
    assert(freq_index == (b0 % 8) * 2 + b1 / 128) by (bit_vector)
        requires
            freq_index == ((b0 & 0x07) << 1) | (b1 >> 7),
    ;
    assert(chan == (b1 / 8) % 16) by (bit_vector)
        requires
            chan == (b1 >> 3) & 0x0F,
    ;
    if freq_index == 0x0F {
        return Err("frecuencia de muestreo explícita no soportada".to_owned());
    }
    let obj = match audio_object_type(object_type) {
        Ok(t) => t,
        Err(e) => {
            let mut m = "audioObjectType inválido: ".to_owned();
            crate::text::push_all(&mut m, e.as_str());
            return Err(m);
        },
    };
    let freq = match sample_freq_index(freq_index) {
        Ok(t) => t,
        Err(e) => {
            let mut m = "samplingFrequencyIndex inválido: ".to_owned();
            crate::text::push_all(&mut m, e.as_str());
            return Err(m);
        },
    };
    let ch = match channel_config(chan) {
        Ok(t) => t,
        Err(e) => {
            let mut m = "channelConfiguration inválido: ".to_owned();
            crate::text::push_all(&mut m, e.as_str());
            return Err(m);
        },
    };
    Ok((obj, freq, ch))
}


proof fn lemma_first_track_at_least(tracks: Seq<TrackSummary>, kind: TrackKind, codec: Seq<char>, m: int)
    ensures
        first_track(tracks, kind, codec, m) matches Some(x) ==> m <= x,
    decreases tracks.len() - m,
{
    if 0 <= m < tracks.len() && !(tracks[m].kind == kind && tracks[m].codec_id@ == codec) {
        lemma_first_track_at_least(tracks, kind, codec, m + 1);
    }
}

proof fn lemma_first_track(tracks: Seq<TrackSummary>, kind: TrackKind, codec: Seq<char>, k: int, i: int)
    requires
        0 <= k <= i,
    ensures
        first_track(tracks, kind, codec, k) == Some(i) <==> (i < tracks.len() && tracks[i].kind == kind
            && tracks[i].codec_id@ == codec && forall|j: int|
            k <= j < i ==> !((#[trigger] tracks[j]).kind == kind && tracks[j].codec_id@ == codec)),
    decreases i - k,
{
    lemma_first_track_at_least(tracks, kind, codec, k + 1);
    if k < i && k < tracks.len() {
        if tracks[k].kind == kind && tracks[k].codec_id@ == codec {
            assert(first_track(tracks, kind, codec, k) == Some(k));
        } else {
            lemma_first_track(tracks, kind, codec, k + 1, i);
            if first_track(tracks, kind, codec, k + 1) == Some(i) {
                assert forall|j: int| k <= j < i implies !((#[trigger] tracks[j]).kind == kind
                    && tracks[j].codec_id@ == codec) by {
                    if j == k {
                    }
                }
            }
        }
    }
}

/// The track copied of a kind is the first track of that kind with the
/// codec: track `i` is chosen exactly when it has the kind and the codec
/// and no earlier track has both.
pub proof fn the_first_matching_track_is_copied(tracks: Seq<TrackSummary>, kind: TrackKind, codec: Seq<char>, i: int)
    requires
        0 <= i,
    ensures
        first_track(tracks, kind, codec, 0) == Some(i) <==> (i < tracks.len() && tracks[i].kind == kind
            && tracks[i].codec_id@ == codec && forall|j: int|
            0 <= j < i ==> !((#[trigger] tracks[j]).kind == kind && tracks[j].codec_id@ == codec)),
{
    lemma_first_track(tracks, kind, codec, 0, i);
}

} // verus!
