//! Presets for the external audio and video encoders, and the command lines
//! made from them.

use crate::policy::file_name_of;
use crate::path::names_of;
use crate::text::{
    append_chars, chars_of, extension_of, find_last, lower, same_chars, same_text, slice_of,
    split_name, stem_of, string_of, to_lower,
};
use vstd::prelude::*;
use vstd::string::StringExecFns;

verus! {

/// Audio processing preset configuration
#[derive(Debug)]
pub struct AudioPreset {
    /// Executor name (e.g., "ffmpeg", "oggenc")
    pub executor: String,
    /// Output format (e.g., "ogg", "flac")
    pub output_format: String,
    /// Additional arguments (can be empty)
    pub arguments: Option<String>,
}

/// The content of an `AudioPreset`.
pub struct AudioPresetView {
    pub executor: Seq<char>,
    pub output_format: Seq<char>,
    pub arguments: Option<Seq<char>>,
}

impl View for AudioPreset {
    type V = AudioPresetView;

    open spec fn view(&self) -> AudioPresetView {
        AudioPresetView {
            executor: self.executor@,
            output_format: self.output_format@,
            arguments: match self.arguments {
                Some(a) => Some(a@),
                None => None,
            },
        }
    }
}

/// The arguments of a preset, or the empty text where it has none.
pub open spec fn arguments_or_empty(p: AudioPresetView) -> Seq<char> {
    match p.arguments {
        Some(a) => a,
        None => Seq::empty(),
    }
}

/// The command line that converts `input` to `output` under `p`; none for an
/// executor other than `ffmpeg`, `oggenc` and `flac`.
pub open spec fn audio_command(input: Seq<char>, output: Seq<char>, p: AudioPresetView) -> Option<
    Seq<char>,
> {
    let args = arguments_or_empty(p);
    if p.executor == "ffmpeg"@ {
        Some(
            "ffmpeg -hide_banner -loglevel panic -i \""@ + input + "\" -f "@ + p.output_format
                + " -map_metadata 0 "@ + args + " \""@ + output + "\""@,
        )
    } else if p.executor == "oggenc"@ {
        Some("oggenc "@ + args + " \""@ + input + "\" -o \""@ + output + "\""@)
    } else if p.executor == "flac"@ {
        Some("flac "@ + args + " \""@ + input + "\" -o \""@ + output + "\""@)
    } else {
        None
    }
}

/// The audio preset with the given name.
pub open spec fn audio_preset_of(name: Seq<char>) -> Option<AudioPresetView> {
    if name == "FLAC"@ {
        Some(
            AudioPresetView {
                executor: "flac"@,
                output_format: "flac"@,
                arguments: Some("--keep-foreign-metadata-if-present --best -f"@),
            },
        )
    } else if name == "FLAC_FFMPEG"@ {
        Some(AudioPresetView { executor: "ffmpeg"@, output_format: "flac"@, arguments: None })
    } else if name == "WAV_FROM_FLAC"@ {
        Some(
            AudioPresetView {
                executor: "flac"@,
                output_format: "wav"@,
                arguments: Some("-d --keep-foreign-metadata-if-present -f"@),
            },
        )
    } else if name == "WAV_FFMPEG"@ {
        Some(AudioPresetView { executor: "ffmpeg"@, output_format: "wav"@, arguments: None })
    } else if name == "OGG_Q10"@ {
        Some(
            AudioPresetView {
                executor: "oggenc"@,
                output_format: "ogg"@,
                arguments: Some("-q10"@),
            },
        )
    } else if name == "OGG_FFMPEG"@ {
        Some(AudioPresetView { executor: "ffmpeg"@, output_format: "ogg"@, arguments: None })
    } else {
        None
    }
}

impl AudioPreset {
    /// Create new audio preset
    pub fn new(executor: &str, output_format: &str, arguments: Option<&str>) -> (r: Self)
        ensures
            r@ == (AudioPresetView {
                executor: executor@,
                output_format: output_format@,
                arguments: match arguments {
                    Some(a) => Some(a@),
                    None => None,
                },
            }),
    {
        AudioPreset {
            executor: String::from_str(executor),
            output_format: String::from_str(output_format),
            arguments: match arguments {
                Some(a) => Some(String::from_str(a)),
                None => None,
            },
        }
    }
}

/// The audio preset with the given name.
pub fn audio_preset(name: &str) -> (r: Option<AudioPreset>)
    ensures
        match r {
            Some(p) => audio_preset_of(name@) == Some(p@),
            None => audio_preset_of(name@) is None,
        },
{
    if same_text(name, "FLAC") {
        Some(AudioPreset::new("flac", "flac", Some("--keep-foreign-metadata-if-present --best -f")))
    } else if same_text(name, "FLAC_FFMPEG") {
        Some(AudioPreset::new("ffmpeg", "flac", None))
    } else if same_text(name, "WAV_FROM_FLAC") {
        Some(AudioPreset::new("flac", "wav", Some("-d --keep-foreign-metadata-if-present -f")))
    } else if same_text(name, "WAV_FFMPEG") {
        Some(AudioPreset::new("ffmpeg", "wav", None))
    } else if same_text(name, "OGG_Q10") {
        Some(AudioPreset::new("oggenc", "ogg", Some("-q10")))
    } else if same_text(name, "OGG_FFMPEG") {
        Some(AudioPreset::new("ffmpeg", "ogg", None))
    } else {
        None
    }
}

/// Get command string for processing audio files
pub fn get_audio_command(input_path: &str, output_path: &str, preset: &AudioPreset) -> (r: Option<
    String,
>)
    ensures
        match r {
            Some(c) => audio_command(input_path@, output_path@, preset@) == Some(c@),
            None => audio_command(input_path@, output_path@, preset@) is None,
        },
{
    let empty = String::new();
    let args: &str = match &preset.arguments {
        Some(a) => a.as_str(),
        None => empty.as_str(),
    };
    let executor = preset.executor.as_str();
    if same_text(executor, "ffmpeg") {
        let mut c = String::from_str("ffmpeg -hide_banner -loglevel panic -i \"");
        c.append(input_path);
        c.append("\" -f ");
        c.append(preset.output_format.as_str());
        c.append(" -map_metadata 0 ");
        c.append(args);
        c.append(" \"");
        c.append(output_path);
        c.append("\"");
        Some(c)
    } else if same_text(executor, "oggenc") {
        let mut c = String::from_str("oggenc ");
        c.append(args);
        c.append(" \"");
        c.append(input_path);
        c.append("\" -o \"");
        c.append(output_path);
        c.append("\"");
        Some(c)
    } else if same_text(executor, "flac") {
        let mut c = String::from_str("flac ");
        c.append(args);
        c.append(" \"");
        c.append(input_path);
        c.append("\" -o \"");
        c.append(output_path);
        c.append("\"");
        Some(c)
    } else {
        None
    }
}

/// What is known of a video stream.
#[derive(Debug, Clone, Copy, PartialEq, Eq, Structural)]
pub struct VideoInfo {
    /// Width in pixels.
    pub width: i32,
    /// Height in pixels.
    pub height: i32,
    /// Bits per second, 0 where unknown.
    pub bit_rate: i32,
}

/// Video processing preset configuration
#[derive(Debug)]
pub struct VideoPreset {
    /// Executor name (e.g. "ffmpeg")
    pub executor: String,
    /// Arguments before the input file
    pub input_args: String,
    /// Filter arguments
    pub filter_args: String,
    /// Extension of the output file
    pub output_ext: String,
    /// Video codec of the output
    pub output_codec: String,
    /// Further arguments
    pub extra_args: String,
}

/// The content of a `VideoPreset`.
pub struct VideoPresetView {
    pub executor: Seq<char>,
    pub input_args: Seq<char>,
    pub filter_args: Seq<char>,
    pub output_ext: Seq<char>,
    pub output_codec: Seq<char>,
    pub extra_args: Seq<char>,
}

impl View for VideoPreset {
    type V = VideoPresetView;

    open spec fn view(&self) -> VideoPresetView {
        VideoPresetView {
            executor: self.executor@,
            input_args: self.input_args@,
            filter_args: self.filter_args@,
            output_ext: self.output_ext@,
            output_codec: self.output_codec@,
            extra_args: self.extra_args@,
        }
    }
}

/// The command line that converts `input` to `output` under `p`.
pub open spec fn video_command(input: Seq<char>, output: Seq<char>, p: VideoPresetView) -> Seq<
    char,
> {
    p.executor + " "@ + p.input_args + " \""@ + input + "\" "@ + p.filter_args
        + " -map_metadata 0 -c:v "@ + p.output_codec + " "@ + p.extra_args + " \""@ + output
        + "\""@
}

/// A `/`-separated path with the extension of its last component replaced
/// by `ext`. A path without a last component stays as it is.
pub open spec fn with_extension(path: Seq<char>, ext: Seq<char>) -> Seq<char> {
    let name = file_name_of(path);
    if name.len() == 0 {
        path
    } else {
        let base = path.take(path.len() - name.len()) + stem_of(name);
        if ext.len() == 0 {
            base
        } else {
            base + seq!['.'] + ext
        }
    }
}

/// The filter that fits a video into a square of 512 pixels.
pub open spec fn filter_512() -> Seq<char> {
    "-filter_complex \"[0:v]scale=512:512:force_original_aspect_ratio=increase,crop=512:512:(ow-iw)/2:(oh-ih)/2,boxblur=20[v1];[0:v]scale=512:512:force_original_aspect_ratio=decrease[v2];[v1][v2]overlay=(main_w-overlay_w)/2:(main_h-overlay_h)/2[vid]\" -map [vid]"@
}

/// The filter that fits a video into 640 by 480 pixels.
pub open spec fn filter_480() -> Seq<char> {
    "-filter_complex \"[0:v]scale=640:480:force_original_aspect_ratio=increase,crop=640:480:(ow-iw)/2:(oh-ih)/2,boxblur=20[v1];[0:v]scale=640:480:force_original_aspect_ratio=decrease[v2];[v1][v2]overlay=(main_w-overlay_w)/2:(main_h-overlay_h)/2[vid]\" -map [vid]"@
}

/// The ffmpeg preset with this filter, extension, codec and further arguments.
pub open spec fn ffmpeg_preset(
    filter: Seq<char>,
    ext: Seq<char>,
    codec: Seq<char>,
    extra: Seq<char>,
) -> VideoPresetView {
    VideoPresetView {
        executor: "ffmpeg"@,
        input_args: "-hide_banner -i"@,
        filter_args: filter,
        output_ext: ext,
        output_codec: codec,
        extra_args: extra,
    }
}

/// The video preset with the given name.
pub open spec fn video_preset_of(name: Seq<char>) -> Option<VideoPresetView> {
    if name == "AVI_512X512"@ {
        Some(ffmpeg_preset(filter_512(), "avi"@, "mpeg4"@, "-an -q:v 8"@))
    } else if name == "WMV2_512X512"@ {
        Some(ffmpeg_preset(filter_512(), "wmv"@, "wmv2"@, "-an -q:v 8"@))
    } else if name == "MPEG1VIDEO_512X512"@ {
        Some(ffmpeg_preset(filter_512(), "mpg"@, "mpeg1video"@, "-an -b:v 1500k"@))
    } else if name == "AVI_480P"@ {
        Some(ffmpeg_preset(filter_480(), "avi"@, "mpeg4"@, "-an -q:v 8"@))
    } else if name == "WMV2_480P"@ {
        Some(ffmpeg_preset(filter_480(), "wmv"@, "wmv2"@, "-an -q:v 8"@))
    } else if name == "MPEG1VIDEO_480P"@ {
        Some(ffmpeg_preset(filter_480(), "mpg"@, "mpeg1video"@, "-an -b:v 1500k"@))
    } else {
        None
    }
}

impl VideoPreset {
    /// Creates a video preset.
    pub fn new(
        executor: &str,
        input_args: &str,
        filter_args: &str,
        output_ext: &str,
        output_codec: &str,
        extra_args: &str,
    ) -> (r: Self)
        ensures
            r@ == (VideoPresetView {
                executor: executor@,
                input_args: input_args@,
                filter_args: filter_args@,
                output_ext: output_ext@,
                output_codec: output_codec@,
                extra_args: extra_args@,
            }),
    {
        VideoPreset {
            executor: String::from_str(executor),
            input_args: String::from_str(input_args),
            filter_args: String::from_str(filter_args),
            output_ext: String::from_str(output_ext),
            output_codec: String::from_str(output_codec),
            extra_args: String::from_str(extra_args),
        }
    }

    /// The path of the output file for the input file at `input_path`.
    pub fn output_path(&self, input_path: &str) -> (r: String)
        ensures
            r@ == with_extension(input_path@, self@.output_ext),
    {
        replace_extension(input_path, self.output_ext.as_str())
    }

    /// The command line that converts `input_path` to `output_path`.
    pub fn command(&self, input_path: &str, output_path: &str) -> (r: String)
        ensures
            r@ == video_command(input_path@, output_path@, self@),
    {
        let mut c = String::new();
        proof {
            assert(Seq::<char>::empty() + self@.executor =~= self@.executor);
        }
        c.append(self.executor.as_str());
        c.append(" ");
        c.append(self.input_args.as_str());
        c.append(" \"");
        c.append(input_path);
        c.append("\" ");
        c.append(self.filter_args.as_str());
        c.append(" -map_metadata 0 -c:v ");
        c.append(self.output_codec.as_str());
        c.append(" ");
        c.append(self.extra_args.as_str());
        c.append(" \"");
        c.append(output_path);
        c.append("\"");
        c
    }
}

/// The video preset with the given name.
pub fn video_preset(name: &str) -> (r: Option<VideoPreset>)
    ensures
        match r {
            Some(p) => video_preset_of(name@) == Some(p@),
            None => video_preset_of(name@) is None,
        },
{
    let filter_512 = "-filter_complex \"[0:v]scale=512:512:force_original_aspect_ratio=increase,crop=512:512:(ow-iw)/2:(oh-ih)/2,boxblur=20[v1];[0:v]scale=512:512:force_original_aspect_ratio=decrease[v2];[v1][v2]overlay=(main_w-overlay_w)/2:(main_h-overlay_h)/2[vid]\" -map [vid]";
    let filter_480 = "-filter_complex \"[0:v]scale=640:480:force_original_aspect_ratio=increase,crop=640:480:(ow-iw)/2:(oh-ih)/2,boxblur=20[v1];[0:v]scale=640:480:force_original_aspect_ratio=decrease[v2];[v1][v2]overlay=(main_w-overlay_w)/2:(main_h-overlay_h)/2[vid]\" -map [vid]";
    if same_text(name, "AVI_512X512") {
        Some(VideoPreset::new("ffmpeg", "-hide_banner -i", filter_512, "avi", "mpeg4", "-an -q:v 8"))
    } else if same_text(name, "WMV2_512X512") {
        Some(VideoPreset::new("ffmpeg", "-hide_banner -i", filter_512, "wmv", "wmv2", "-an -q:v 8"))
    } else if same_text(name, "MPEG1VIDEO_512X512") {
        Some(
            VideoPreset::new(
                "ffmpeg",
                "-hide_banner -i",
                filter_512,
                "mpg",
                "mpeg1video",
                "-an -b:v 1500k",
            ),
        )
    } else if same_text(name, "AVI_480P") {
        Some(VideoPreset::new("ffmpeg", "-hide_banner -i", filter_480, "avi", "mpeg4", "-an -q:v 8"))
    } else if same_text(name, "WMV2_480P") {
        Some(VideoPreset::new("ffmpeg", "-hide_banner -i", filter_480, "wmv", "wmv2", "-an -q:v 8"))
    } else if same_text(name, "MPEG1VIDEO_480P") {
        Some(
            VideoPreset::new(
                "ffmpeg",
                "-hide_banner -i",
                filter_480,
                "mpg",
                "mpeg1video",
                "-an -b:v 1500k",
            ),
        )
    } else {
        None
    }
}

/// Whether the file `name` has one of `extensions`, letters of either case
/// counting alike. A name without extension has none of them.
pub open spec fn has_extension_of(name: Seq<char>, extensions: Seq<Seq<char>>) -> bool {
    match extension_of(name) {
        Some(e) => exists|i: int|
            0 <= i < extensions.len() && lower(#[trigger] extensions[i]) == lower(e),
        None => false,
    }
}

/// Whether the file `name` has one of `extensions`, letters of either case
/// counting alike.
pub fn has_extension_among(name: &str, extensions: &Vec<String>) -> (r: bool)
    ensures
        r == has_extension_of(name@, names_of(extensions@)),
{
    let (_stem, ext) = split_name(&chars_of(name));
    match ext {
        Some(e) => {
            let wanted = to_lower(&e);
            let mut i: usize = 0;
            while i < extensions.len()
                invariant
                    i <= extensions.len(),
                    extension_of(name@) == Some(e@),
                    wanted@ == lower(e@),
                    forall|j: int| 0 <= j < i ==> lower(names_of(extensions@)[j]) != lower(e@),
                decreases extensions.len() - i,
            {
                let offered = to_lower(&chars_of(extensions[i].as_str()));
                proof {
                    assert(names_of(extensions@)[i as int] == extensions@[i as int]@);
                }
                if same_chars(&offered, &wanted) {
                    proof {
                        assert(lower(names_of(extensions@)[i as int]) == lower(e@));
                    }
                    return true;
                }
                i += 1;
            }
            false
        },
        None => false,
    }
}

/// How many conversions run at once in a directory: as many as there are
/// processors, but off the system drive at most 24.
pub fn audio_workers(on_system_drive: bool, cpus: usize) -> (r: usize)
    ensures
        r == if on_system_drive || cpus <= 24 {
            cpus
        } else {
            24
        },
{
    if on_system_drive || cpus <= 24 {
        cpus
    } else {
        24
    }
}

/// One way to convert a file: where the result goes, and the command that
/// makes it, if the preset has one.
#[derive(Debug)]
pub struct Attempt {
    /// The path of the output file.
    pub output: String,
    /// The command line, or none where the preset offers none.
    pub command: Option<String>,
}

/// The content of an `Attempt`.
pub struct AttemptView {
    pub output: Seq<char>,
    pub command: Option<Seq<char>>,
}

impl View for Attempt {
    type V = AttemptView;

    open spec fn view(&self) -> AttemptView {
        AttemptView {
            output: self.output@,
            command: match self.command {
                Some(c) => Some(c@),
                None => None,
            },
        }
    }
}

/// The attempts held by a list, as plain values.
pub open spec fn attempts_of(attempts: Seq<Attempt>) -> Seq<AttemptView> {
    Seq::new(attempts.len(), |i: int| attempts[i]@)
}

/// The audio presets held by a list, as plain values.
pub open spec fn audio_presets_of(presets: Seq<AudioPreset>) -> Seq<AudioPresetView> {
    Seq::new(presets.len(), |i: int| presets[i]@)
}

/// The attempt to convert the audio file `input` under `p`.
pub open spec fn audio_attempt(input: Seq<char>, p: AudioPresetView) -> AttemptView {
    let output = with_extension(input, p.output_format);
    AttemptView { output, command: audio_command(input, output, p) }
}

/// The attempts to convert the audio file `input`, one per preset, in order.
pub fn audio_attempts(input: &str, presets: &Vec<AudioPreset>) -> (r: Vec<Attempt>)
    ensures
        attempts_of(r@) == Seq::new(
            presets@.len(),
            |i: int| audio_attempt(input@, audio_presets_of(presets@)[i]),
        ),
{
    let mut out: Vec<Attempt> = Vec::new();
    let mut i: usize = 0;
    while i < presets.len()
        invariant
            i <= presets.len(),
            out@.len() == i,
            forall|j: int|
                0 <= j < i ==> (#[trigger] out@[j])@ == audio_attempt(input@, presets@[j]@),
        decreases presets.len() - i,
    {
        let output = replace_extension(input, presets[i].output_format.as_str());
        let command = get_audio_command(input, output.as_str(), &presets[i]);
        out.push(Attempt { output, command });
        i += 1;
    }
    proof {
        assert(attempts_of(out@) =~= Seq::new(
            presets@.len(),
            |i: int| audio_attempt(input@, audio_presets_of(presets@)[i]),
        ));
    }
    out
}

/// The attempt to convert the video file `input` under `p`.
pub open spec fn video_attempt(input: Seq<char>, p: VideoPresetView) -> AttemptView {
    let output = with_extension(input, p.output_ext);
    AttemptView { output, command: Some(video_command(input, output, p)) }
}

/// The attempt to convert the video file `input` under the preset named
/// `name`; none where no preset has that name or the output would be the
/// input itself.
pub open spec fn video_attempt_named(input: Seq<char>, name: Seq<char>) -> Option<AttemptView> {
    match video_preset_of(name) {
        Some(p) => if video_attempt(input, p).output == input {
            None
        } else {
            Some(video_attempt(input, p))
        },
        None => None,
    }
}

/// The attempts to convert the video file `input` under the presets named,
/// in order, without the names that give none.
pub open spec fn video_attempts_of(input: Seq<char>, names: Seq<Seq<char>>) -> Seq<AttemptView>
    decreases names.len(),
{
    if names.len() == 0 {
        Seq::empty()
    } else {
        let before = video_attempts_of(input, names.drop_last());
        match video_attempt_named(input, names.last()) {
            Some(a) => before.push(a),
            None => before,
        }
    }
}

/// The attempts to convert the video file `input` under the presets named.
pub fn video_attempts(input: &str, preset_names: &Vec<String>) -> (r: Vec<Attempt>)
    ensures
        attempts_of(r@) == video_attempts_of(input@, names_of(preset_names@)),
{
    let ghost all = names_of(preset_names@);
    let mut out: Vec<Attempt> = Vec::new();
    let mut i: usize = 0;
    proof {
        assert(all.take(0) =~= Seq::<Seq<char>>::empty());
        assert(attempts_of(out@) =~= Seq::<AttemptView>::empty());
    }
    while i < preset_names.len()
        invariant
            i <= preset_names.len(),
            all == names_of(preset_names@),
            attempts_of(out@) == video_attempts_of(input@, all.take(i as int)),
        decreases preset_names.len() - i,
    {
        proof {
            assert(all.take(i as int + 1).drop_last() =~= all.take(i as int));
            assert(all.take(i as int + 1).last() == preset_names@[i as int]@);
        }
        let ghost before = attempts_of(out@);
        match video_preset(preset_names[i].as_str()) {
            Some(preset) => {
                let output = preset.output_path(input);
                if !same_text(output.as_str(), input) {
                    let command = preset.command(input, output.as_str());
                    out.push(Attempt { output, command: Some(command) });
                    proof {
                        assert(attempts_of(out@) =~= before.push(video_attempt(input@, preset@)));
                    }
                }
            },
            None => {},
        }
        i += 1;
    }
    proof {
        assert(all.take(preset_names.len() as int) =~= all);
    }
    out
}

/// The path `path` with the extension of its last component replaced by `ext`.
pub fn replace_extension(path: &str, ext: &str) -> (r: String)
    ensures
        r@ == with_extension(path@, ext@),
{
    let chars = chars_of(path);
    let start: usize = match find_last(&chars, '/') {
        Some(i) => i + 1,
        None => 0,
    };
    let name = slice_of(&chars, start, chars.len());
    proof {
        assert(name@ =~= file_name_of(path@));
    }
    if name.len() == 0 {
        return string_of(&chars);
    }
    let mut out = slice_of(&chars, 0, start);
    proof {
        assert(out@ =~= path@.take(path@.len() - name@.len()));
    }
    let (stem, _ext) = split_name(&name);
    append_chars(&mut out, &stem);
    let new_ext = chars_of(ext);
    if new_ext.len() != 0 {
        out.push('.');
        append_chars(&mut out, &new_ext);
    }
    string_of(&out)
}

/// What is done around the attempts to convert a file.
#[derive(Debug, Clone, Copy, PartialEq, Eq, Structural)]
pub struct ConvertRules {
    /// Whether the input is removed once an attempt has succeeded.
    pub remove_input_on_success: bool,
    /// Whether the input is removed once every attempt has failed.
    pub remove_input_on_fail: bool,
    /// Whether an output file that exists is removed before the attempt; an
    /// attempt whose output exists is passed over otherwise.
    pub remove_existing: bool,
    /// Whether an output file that exists but is empty is left for the
    /// command to write over.
    pub keep_empty_existing: bool,
    /// Whether the output of a failed attempt is removed.
    pub clean_failed_output: bool,
}

/// What was found at the path of an output file.
#[derive(Debug, Clone, Copy, PartialEq, Eq, Structural)]
pub enum OutputState {
    /// Nothing.
    Missing,
    /// An empty file.
    Empty,
    /// A file that holds something.
    Filled,
}

/// Where the conversion of a file stands.
#[derive(Debug, Clone, Copy, PartialEq, Eq, Structural)]
pub enum ConvertPhase {
    /// Asked what is at the output of the attempt with this number.
    Probing(usize),
    /// Asked for the removal of the existing output of this attempt.
    Clearing(usize),
    /// Asked for the run of this attempt's command.
    Running(usize),
    /// Asked for the removal of the output this attempt left when it failed.
    Cleaning(usize),
    /// Asked for the removal of the input after a success.
    RemovingAfterSuccess,
    /// Asked for the removal of the input after the last failure.
    RemovingAfterFailure,
    /// Ended.
    Finished,
}

/// The answer to an operation.
#[derive(Debug, Clone, Copy, PartialEq, Eq, Structural)]
pub enum ConvertEvent {
    /// What is at the output path.
    Output(OutputState),
    /// Whether the command succeeded.
    Ran(bool),
    /// A removal was tried; whether it succeeded does not matter.
    Removed,
}

/// The next operation of a conversion.
#[derive(Debug)]
pub enum ConvertAction {
    /// Find out what is at this output path.
    ProbeOutput(String),
    /// Remove the file at this output path.
    RemoveOutput(String),
    /// Run this command, which writes this output.
    Run { command: String, output: String },
    /// Remove the input file.
    RemoveInput,
    /// Nothing more: the file was converted, or every attempt has failed.
    Done(bool),
}

/// The content of a `ConvertAction`.
pub enum ConvertActionView {
    ProbeOutput(Seq<char>),
    RemoveOutput(Seq<char>),
    Run { command: Seq<char>, output: Seq<char> },
    RemoveInput,
    Done(bool),
}

impl View for ConvertAction {
    type V = ConvertActionView;

    open spec fn view(&self) -> ConvertActionView {
        match self {
            ConvertAction::ProbeOutput(p) => ConvertActionView::ProbeOutput(p@),
            ConvertAction::RemoveOutput(p) => ConvertActionView::RemoveOutput(p@),
            ConvertAction::Run { command, output } => ConvertActionView::Run {
                command: command@,
                output: output@,
            },
            ConvertAction::RemoveInput => ConvertActionView::RemoveInput,
            ConvertAction::Done(ok) => ConvertActionView::Done(*ok),
        }
    }
}

/// The conversion of one file: its attempts, tried in order until one succeeds.
#[derive(Debug)]
pub struct Conversion {
    /// The attempts, in the order in which they are tried.
    pub attempts: Vec<Attempt>,
    /// What is done around the attempts.
    pub rules: ConvertRules,
    /// Where the conversion stands.
    pub phase: ConvertPhase,
}

/// The content of a `Conversion`.
pub struct ConversionView {
    pub attempts: Seq<AttemptView>,
    pub rules: ConvertRules,
    pub phase: ConvertPhase,
}

impl View for Conversion {
    type V = ConversionView;

    open spec fn view(&self) -> ConversionView {
        ConversionView {
            attempts: attempts_of(self.attempts@),
            rules: self.rules,
            phase: self.phase,
        }
    }
}

/// The conversion moves to `phase` and asks for `action`.
pub open spec fn convert_go(m: ConversionView, phase: ConvertPhase, action: ConvertActionView) -> (
    ConversionView,
    ConvertActionView,
) {
    (ConversionView { phase, ..m }, action)
}

/// The conversion goes on with the attempt with number `i`, or ends in
/// failure when the attempts are used up.
pub open spec fn convert_from(m: ConversionView, i: int) -> (ConversionView, ConvertActionView) {
    if 0 <= i < m.attempts.len() && i <= usize::MAX {
        convert_go(
            m,
            ConvertPhase::Probing(i as usize),
            ConvertActionView::ProbeOutput(m.attempts[i].output),
        )
    } else if m.rules.remove_input_on_fail {
        convert_go(m, ConvertPhase::RemovingAfterFailure, ConvertActionView::RemoveInput)
    } else {
        convert_go(m, ConvertPhase::Finished, ConvertActionView::Done(false))
    }
}

/// The conversion runs the command of the attempt with number `i`, or
/// passes the attempt over where it has no command.
pub open spec fn convert_run(m: ConversionView, i: int) -> (ConversionView, ConvertActionView) {
    if 0 <= i < m.attempts.len() && i <= usize::MAX {
        match m.attempts[i].command {
            Some(command) => convert_go(
                m,
                ConvertPhase::Running(i as usize),
                ConvertActionView::Run { command, output: m.attempts[i].output },
            ),
            None => convert_from(m, i + 1),
        }
    } else {
        convert_from(m, i)
    }
}

/// The conversion in its first state, and the first operation.
pub open spec fn convert_start(attempts: Seq<AttemptView>, rules: ConvertRules) -> (
    ConversionView,
    ConvertActionView,
) {
    convert_from(ConversionView { attempts, rules, phase: ConvertPhase::Finished }, 0)
}

/// The transition of a conversion: the state after `e` and the next operation.
///
/// - An attempt whose output is missing is run. An attempt whose output
///   exists is passed over, unless existing outputs are removed: then the
///   output is removed first, or left where it is empty and empty outputs
///   are kept, and the attempt is run.
/// - After a success the input is removed where the rules say so, and the
///   conversion ends in success.
/// - After a failure the output is removed where the rules say so, and the
///   next attempt is tried. When the attempts are used up, the input is
///   removed where the rules say so, and the conversion ends in failure.
pub open spec fn convert_step(m: ConversionView, e: ConvertEvent) -> (
    ConversionView,
    ConvertActionView,
) {
    let end = convert_go(m, ConvertPhase::Finished, ConvertActionView::Done(false));
    match m.phase {
        ConvertPhase::Probing(i) => match e {
            ConvertEvent::Output(OutputState::Missing) => convert_run(m, i as int),
            ConvertEvent::Output(state) => if !m.rules.remove_existing {
                convert_from(m, i + 1)
            } else if state == OutputState::Empty && m.rules.keep_empty_existing {
                convert_run(m, i as int)
            } else if i < m.attempts.len() {
                convert_go(
                    m,
                    ConvertPhase::Clearing(i),
                    ConvertActionView::RemoveOutput(m.attempts[i as int].output),
                )
            } else {
                convert_from(m, i as int)
            },
            _ => end,
        },
        ConvertPhase::Clearing(i) => match e {
            ConvertEvent::Removed => convert_run(m, i as int),
            _ => end,
        },
        ConvertPhase::Running(i) => match e {
            ConvertEvent::Ran(true) => if m.rules.remove_input_on_success {
                convert_go(m, ConvertPhase::RemovingAfterSuccess, ConvertActionView::RemoveInput)
            } else {
                convert_go(m, ConvertPhase::Finished, ConvertActionView::Done(true))
            },
            ConvertEvent::Ran(false) => if m.rules.clean_failed_output && i < m.attempts.len() {
                convert_go(
                    m,
                    ConvertPhase::Cleaning(i),
                    ConvertActionView::RemoveOutput(m.attempts[i as int].output),
                )
            } else {
                convert_from(m, i + 1)
            },
            _ => end,
        },
        ConvertPhase::Cleaning(i) => match e {
            ConvertEvent::Removed => convert_from(m, i + 1),
            _ => end,
        },
        ConvertPhase::RemovingAfterSuccess => match e {
            ConvertEvent::Removed => convert_go(
                m,
                ConvertPhase::Finished,
                ConvertActionView::Done(true),
            ),
            _ => end,
        },
        ConvertPhase::RemovingAfterFailure => end,
        ConvertPhase::Finished => end,
    }
}

impl Conversion {
    /// The conversion that tries `attempts` under `rules`, and its first operation.
    pub fn start(attempts: Vec<Attempt>, rules: ConvertRules) -> (r: (Conversion, ConvertAction))
        ensures
            (r.0@, r.1@) == convert_start(attempts_of(attempts@), rules),
    {
        let mut m = Conversion { attempts, rules, phase: ConvertPhase::Finished };
        let action = m.from(0);
        (m, action)
    }

    /// Whether the conversion has ended.
    pub fn is_finished(&self) -> (r: bool)
        ensures
            r == (self@.phase == ConvertPhase::Finished),
    {
        self.phase == ConvertPhase::Finished
    }

    fn end(&mut self, ok: bool) -> (act: ConvertAction)
        ensures
            (final(self)@, act@) == convert_go(
                old(self)@,
                ConvertPhase::Finished,
                ConvertActionView::Done(ok),
            ),
    {
        self.phase = ConvertPhase::Finished;
        ConvertAction::Done(ok)
    }

    fn from(&mut self, i: usize) -> (act: ConvertAction)
        ensures
            (final(self)@, act@) == convert_from(old(self)@, i as int),
    {
        if i < self.attempts.len() {
            self.phase = ConvertPhase::Probing(i);
            ConvertAction::ProbeOutput(self.attempts[i].output.clone())
        } else if self.rules.remove_input_on_fail {
            self.phase = ConvertPhase::RemovingAfterFailure;
            ConvertAction::RemoveInput
        } else {
            self.end(false)
        }
    }

    fn after(&mut self, i: usize) -> (act: ConvertAction)
        ensures
            (final(self)@, act@) == convert_from(old(self)@, i + 1),
    {
        if i < self.attempts.len() {
            self.from(i + 1)
        } else {
            self.from(i)
        }
    }

    fn run(&mut self, i: usize) -> (act: ConvertAction)
        ensures
            (final(self)@, act@) == convert_run(old(self)@, i as int),
    {
        if i < self.attempts.len() {
            match &self.attempts[i].command {
                Some(command) => {
                    let command = command.clone();
                    let output = self.attempts[i].output.clone();
                    self.phase = ConvertPhase::Running(i);
                    ConvertAction::Run { command, output }
                },
                None => self.from(i + 1),
            }
        } else {
            self.from(i)
        }
    }

    fn remove_output(&mut self, i: usize, phase: ConvertPhase) -> (act: ConvertAction)
        requires
            i < old(self).attempts@.len(),
        ensures
            (final(self)@, act@) == convert_go(
                old(self)@,
                phase,
                ConvertActionView::RemoveOutput(old(self)@.attempts[i as int].output),
            ),
    {
        self.phase = phase;
        ConvertAction::RemoveOutput(self.attempts[i].output.clone())
    }

    /// Takes the answer to the last operation and returns the next one.
    pub fn step(&mut self, event: ConvertEvent) -> (act: ConvertAction)
        ensures
            (final(self)@, act@) == convert_step(old(self)@, event),
    {
        match self.phase {
            ConvertPhase::Probing(i) => match event {
                ConvertEvent::Output(OutputState::Missing) => self.run(i),
                ConvertEvent::Output(state) => {
                    if !self.rules.remove_existing {
                        self.after(i)
                    } else if state == OutputState::Empty && self.rules.keep_empty_existing {
                        self.run(i)
                    } else if i < self.attempts.len() {
                        self.remove_output(i, ConvertPhase::Clearing(i))
                    } else {
                        self.from(i)
                    }
                },
                _ => self.end(false),
            },
            ConvertPhase::Clearing(i) => match event {
                ConvertEvent::Removed => self.run(i),
                _ => self.end(false),
            },
            ConvertPhase::Running(i) => match event {
                ConvertEvent::Ran(true) => {
                    if self.rules.remove_input_on_success {
                        self.phase = ConvertPhase::RemovingAfterSuccess;
                        ConvertAction::RemoveInput
                    } else {
                        self.end(true)
                    }
                },
                ConvertEvent::Ran(false) => {
                    if self.rules.clean_failed_output && i < self.attempts.len() {
                        self.remove_output(i, ConvertPhase::Cleaning(i))
                    } else {
                        self.after(i)
                    }
                },
                _ => self.end(false),
            },
            ConvertPhase::Cleaning(i) => match event {
                ConvertEvent::Removed => self.after(i),
                _ => self.end(false),
            },
            ConvertPhase::RemovingAfterSuccess => match event {
                ConvertEvent::Removed => self.end(true),
                _ => self.end(false),
            },
            ConvertPhase::RemovingAfterFailure => self.end(false),
            ConvertPhase::Finished => self.end(false),
        }
    }
}

/// The rules for converting audio files: an existing output is removed
/// unless it is empty, and a failed attempt leaves its output.
pub fn audio_rules(remove_on_success: bool, remove_on_fail: bool, remove_existing: bool) -> (r:
    ConvertRules)
    ensures
        r == (ConvertRules {
            remove_input_on_success: remove_on_success,
            remove_input_on_fail: remove_on_fail,
            remove_existing,
            keep_empty_existing: true,
            clean_failed_output: false,
        }),
{
    ConvertRules {
        remove_input_on_success: remove_on_success,
        remove_input_on_fail: remove_on_fail,
        remove_existing,
        keep_empty_existing: true,
        clean_failed_output: false,
    }
}

/// The rules for converting video files: the input outlives a failure, an
/// existing output is removed whatever it holds, and a failed attempt's
/// output is removed.
pub fn video_rules(remove_original: bool, remove_existing: bool) -> (r: ConvertRules)
    ensures
        r == (ConvertRules {
            remove_input_on_success: remove_original,
            remove_input_on_fail: false,
            remove_existing,
            keep_empty_existing: false,
            clean_failed_output: true,
        }),
{
    ConvertRules {
        remove_input_on_success: remove_original,
        remove_input_on_fail: false,
        remove_existing,
        keep_empty_existing: false,
        clean_failed_output: true,
    }
}

/// A conversion ends in success only right after a command has succeeded,
/// and it removes the input only after a command has succeeded, where the
/// rules say so, or after the last attempt has failed, where the rules say so.
pub proof fn law_conversion_removes_input_by_rule(m: ConversionView, e: ConvertEvent)
    ensures
        convert_step(m, e).1 == ConvertActionView::Done(true) ==> (m.phase is Running && e
            == ConvertEvent::Ran(true) && !m.rules.remove_input_on_success) || (m.phase
            == ConvertPhase::RemovingAfterSuccess && e == ConvertEvent::Removed),
        convert_step(m, e).1 == ConvertActionView::RemoveInput ==> (m.phase is Running && e
            == ConvertEvent::Ran(true) && m.rules.remove_input_on_success)
            || m.rules.remove_input_on_fail,
{
}

} // verus!
