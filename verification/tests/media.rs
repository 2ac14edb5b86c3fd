use be_music_cabinet::media::{
    audio_attempts, audio_preset, audio_rules, audio_workers, get_audio_command,
    has_extension_among, replace_extension, video_attempts, video_preset, video_rules, Attempt,
    AudioPreset, Conversion, ConvertAction, ConvertEvent, ConvertPhase, OutputState, VideoInfo,
    VideoPreset,
};

const FILTER_512: &str = r#"-filter_complex "[0:v]scale=512:512:force_original_aspect_ratio=increase,crop=512:512:(ow-iw)/2:(oh-ih)/2,boxblur=20[v1];[0:v]scale=512:512:force_original_aspect_ratio=decrease[v2];[v1][v2]overlay=(main_w-overlay_w)/2:(main_h-overlay_h)/2[vid]" -map [vid]"#;
const FILTER_480: &str = r#"-filter_complex "[0:v]scale=640:480:force_original_aspect_ratio=increase,crop=640:480:(ow-iw)/2:(oh-ih)/2,boxblur=20[v1];[0:v]scale=640:480:force_original_aspect_ratio=decrease[v2];[v1][v2]overlay=(main_w-overlay_w)/2:(main_h-overlay_h)/2[vid]" -map [vid]"#;

#[test]
fn audio_presets_by_name() {
    let flac = audio_preset("FLAC").expect("FLAC");
    assert_eq!(flac.executor, "flac");
    assert_eq!(flac.output_format, "flac");
    assert_eq!(
        flac.arguments.as_deref(),
        Some("--keep-foreign-metadata-if-present --best -f")
    );
    let wav = audio_preset("WAV_FROM_FLAC").expect("WAV_FROM_FLAC");
    assert_eq!(
        (wav.executor.as_str(), wav.output_format.as_str(), wav.arguments.as_deref()),
        ("flac", "wav", Some("-d --keep-foreign-metadata-if-present -f"))
    );
    let ogg = audio_preset("OGG_Q10").expect("OGG_Q10");
    assert_eq!(
        (ogg.executor.as_str(), ogg.output_format.as_str(), ogg.arguments.as_deref()),
        ("oggenc", "ogg", Some("-q10"))
    );
    for (name, format) in [("FLAC_FFMPEG", "flac"), ("WAV_FFMPEG", "wav"), ("OGG_FFMPEG", "ogg")] {
        let p = audio_preset(name).expect(name);
        assert_eq!(p.executor, "ffmpeg");
        assert_eq!(p.output_format, format);
        assert_eq!(p.arguments, None);
    }
    assert!(audio_preset("flac").is_none());
    assert!(audio_preset("").is_none());
}

#[test]
fn audio_commands() {
    let ffmpeg = AudioPreset::new("ffmpeg", "ogg", None);
    assert_eq!(
        get_audio_command("in put.wav", "out.ogg", &ffmpeg).as_deref(),
        Some("ffmpeg -hide_banner -loglevel panic -i \"in put.wav\" -f ogg -map_metadata 0  \"out.ogg\"")
    );
    let oggenc = AudioPreset::new("oggenc", "ogg", Some("-q10"));
    assert_eq!(
        get_audio_command("a.wav", "a.ogg", &oggenc).as_deref(),
        Some("oggenc -q10 \"a.wav\" -o \"a.ogg\"")
    );
    let flac = AudioPreset::new("flac", "flac", Some("--best -f"));
    assert_eq!(
        get_audio_command("a.wav", "a.flac", &flac).as_deref(),
        Some("flac --best -f \"a.wav\" -o \"a.flac\"")
    );
    let other = AudioPreset::new("lame", "mp3", None);
    assert_eq!(get_audio_command("a.wav", "a.mp3", &other), None);
}

#[test]
fn video_presets_by_name() {
    for (name, filter, ext, codec, extra) in [
        ("AVI_512X512", FILTER_512, "avi", "mpeg4", "-an -q:v 8"),
        ("WMV2_512X512", FILTER_512, "wmv", "wmv2", "-an -q:v 8"),
        ("MPEG1VIDEO_512X512", FILTER_512, "mpg", "mpeg1video", "-an -b:v 1500k"),
        ("AVI_480P", FILTER_480, "avi", "mpeg4", "-an -q:v 8"),
        ("WMV2_480P", FILTER_480, "wmv", "wmv2", "-an -q:v 8"),
        ("MPEG1VIDEO_480P", FILTER_480, "mpg", "mpeg1video", "-an -b:v 1500k"),
    ] {
        let p = video_preset(name).expect(name);
        assert_eq!(p.executor, "ffmpeg");
        assert_eq!(p.input_args, "-hide_banner -i");
        assert_eq!(p.filter_args, filter);
        assert_eq!(p.output_ext, ext);
        assert_eq!(p.output_codec, codec);
        assert_eq!(p.extra_args, extra);
    }
    assert!(video_preset("AVI").is_none());
}

#[test]
fn video_commands_and_output_paths() {
    let p = VideoPreset::new("ffmpeg", "-i", "-vf x", "avi", "mpeg4", "-an");
    assert_eq!(
        p.command("in.mp4", "in.avi"),
        "ffmpeg -i \"in.mp4\" -vf x -map_metadata 0 -c:v mpeg4 -an \"in.avi\""
    );
    assert_eq!(p.output_path("dir.d/in.mp4"), "dir.d/in.avi");
    assert_eq!(p.output_path("in.tar.mp4"), "in.tar.avi");
    assert_eq!(p.output_path("dir.d/in"), "dir.d/in.avi");
    assert_eq!(p.output_path("/a/.hidden"), "/a/.hidden.avi");
    assert_eq!(p.output_path("dir/"), "dir/");
    let bare = VideoPreset::new("ffmpeg", "", "", "", "copy", "");
    assert_eq!(bare.output_path("a/b.mp4"), "a/b");
}

#[test]
fn video_info_is_plain_data() {
    let info = VideoInfo { width: 640, height: 480, bit_rate: 0 };
    assert_eq!(info, VideoInfo { width: 640, height: 480, bit_rate: 0 });
}

#[test]
fn extensions_match_in_either_case() {
    let wanted = vec!["wav".to_string(), "FLAC".to_string()];
    assert!(has_extension_among("a.wav", &wanted));
    assert!(has_extension_among("a.WAV", &wanted));
    assert!(has_extension_among("a.flac", &wanted));
    assert!(has_extension_among("a.b.Flac", &wanted));
    assert!(!has_extension_among("a.ogg", &wanted));
    assert!(!has_extension_among("wav", &wanted));
    assert!(!has_extension_among(".wav", &wanted));
    assert!(!has_extension_among("a.wav", &vec![]));
}

#[test]
fn workers_are_capped_off_the_system_drive() {
    assert_eq!(audio_workers(false, 8), 8);
    assert_eq!(audio_workers(false, 24), 24);
    assert_eq!(audio_workers(false, 64), 24);
    assert_eq!(audio_workers(true, 64), 64);
    assert_eq!(audio_workers(true, 1), 1);
}

fn attempt(output: &str, command: Option<&str>) -> Attempt {
    Attempt {
        output: output.to_string(),
        command: command.map(|c| c.to_string()),
    }
}

fn probed(action: ConvertAction) -> String {
    match action {
        ConvertAction::ProbeOutput(path) => path,
        other => panic!("expected a look at the output, got {:?}", other),
    }
}

fn ran(action: ConvertAction) -> (String, String) {
    match action {
        ConvertAction::Run { command, output } => (command, output),
        other => panic!("expected a run, got {:?}", other),
    }
}

fn ended(action: ConvertAction) -> bool {
    match action {
        ConvertAction::Done(ok) => ok,
        other => panic!("expected the end, got {:?}", other),
    }
}

#[test]
fn audio_attempts_follow_the_presets() {
    let presets = vec![
        AudioPreset::new("flac", "flac", Some("--best -f")),
        AudioPreset::new("lame", "mp3", None),
        AudioPreset::new("ffmpeg", "flac", None),
    ];
    let attempts = audio_attempts("dir/a.wav", &presets);
    assert_eq!(attempts.len(), 3);
    assert_eq!(attempts[0].output, "dir/a.flac");
    assert_eq!(
        attempts[0].command.as_deref(),
        Some("flac --best -f \"dir/a.wav\" -o \"dir/a.flac\"")
    );
    assert_eq!(attempts[1].output, "dir/a.mp3");
    assert_eq!(attempts[1].command, None);
    assert_eq!(attempts[2].output, "dir/a.flac");
    assert!(attempts[2].command.as_deref().expect("command").starts_with("ffmpeg "));
}

#[test]
fn video_attempts_pass_over_unknown_presets_and_the_input_itself() {
    let names = vec![
        "AVI_512X512".to_string(),
        "NO_SUCH_PRESET".to_string(),
        "WMV2_480P".to_string(),
    ];
    let attempts = video_attempts("dir/a.mp4", &names);
    assert_eq!(attempts.len(), 2);
    assert_eq!(attempts[0].output, "dir/a.avi");
    assert_eq!(attempts[1].output, "dir/a.wmv");
    assert!(attempts[1].command.as_deref().expect("command").ends_with("\"dir/a.wmv\""));

    let same = video_attempts("dir/a.avi", &names);
    assert_eq!(same.len(), 1);
    assert_eq!(same[0].output, "dir/a.wmv");
    assert_eq!(replace_extension("dir/a.tar.gz", "zip"), "dir/a.tar.zip");
    assert_eq!(replace_extension("dir/a", ""), "dir/a");
}

#[test]
fn a_conversion_stops_at_the_first_success() {
    let attempts = vec![attempt("a.flac", Some("first")), attempt("a.ogg", Some("second"))];
    let (mut c, first) = Conversion::start(attempts, audio_rules(true, false, true));
    assert_eq!(probed(first), "a.flac");
    assert_eq!(
        ran(c.step(ConvertEvent::Output(OutputState::Missing))),
        ("first".to_string(), "a.flac".to_string())
    );
    assert!(matches!(c.step(ConvertEvent::Ran(true)), ConvertAction::RemoveInput));
    assert_eq!(c.phase, ConvertPhase::RemovingAfterSuccess);
    assert!(ended(c.step(ConvertEvent::Removed)));
    assert!(c.is_finished());
}

#[test]
fn a_conversion_falls_back_to_the_next_attempt() {
    let attempts = vec![
        attempt("a.flac", Some("first")),
        attempt("a.mp3", None),
        attempt("a.ogg", Some("third")),
    ];
    let (mut c, _) = Conversion::start(attempts, audio_rules(false, true, true));
    ran(c.step(ConvertEvent::Output(OutputState::Missing)));
    assert_eq!(probed(c.step(ConvertEvent::Ran(false))), "a.mp3");
    assert_eq!(probed(c.step(ConvertEvent::Output(OutputState::Missing))), "a.ogg");
    assert_eq!(
        ran(c.step(ConvertEvent::Output(OutputState::Missing))),
        ("third".to_string(), "a.ogg".to_string())
    );
    assert!(matches!(c.step(ConvertEvent::Ran(false)), ConvertAction::RemoveInput));
    assert!(!ended(c.step(ConvertEvent::Removed)));
}

#[test]
fn existing_outputs_are_removed_or_passed_over() {
    let attempts = || vec![attempt("a.flac", Some("first")), attempt("a.ogg", Some("second"))];

    let (mut c, _) = Conversion::start(attempts(), audio_rules(false, false, true));
    assert!(matches!(
        c.step(ConvertEvent::Output(OutputState::Filled)),
        ConvertAction::RemoveOutput(ref p) if p == "a.flac"
    ));
    assert_eq!(ran(c.step(ConvertEvent::Removed)).0, "first");

    let (mut c, _) = Conversion::start(attempts(), audio_rules(false, false, true));
    assert_eq!(ran(c.step(ConvertEvent::Output(OutputState::Empty))).0, "first");

    let (mut c, _) = Conversion::start(attempts(), video_rules(false, true));
    assert!(matches!(
        c.step(ConvertEvent::Output(OutputState::Empty)),
        ConvertAction::RemoveOutput(ref p) if p == "a.flac"
    ));

    let (mut c, _) = Conversion::start(attempts(), audio_rules(false, false, false));
    assert_eq!(probed(c.step(ConvertEvent::Output(OutputState::Filled))), "a.ogg");
    assert!(!ended(c.step(ConvertEvent::Output(OutputState::Empty))));
}

#[test]
fn failed_video_attempts_clean_up_after_themselves() {
    let attempts = vec![attempt("a.avi", Some("first")), attempt("a.wmv", Some("second"))];
    let (mut c, _) = Conversion::start(attempts, video_rules(true, false));
    ran(c.step(ConvertEvent::Output(OutputState::Missing)));
    assert!(matches!(
        c.step(ConvertEvent::Ran(false)),
        ConvertAction::RemoveOutput(ref p) if p == "a.avi"
    ));
    assert_eq!(probed(c.step(ConvertEvent::Removed)), "a.wmv");
    ran(c.step(ConvertEvent::Output(OutputState::Missing)));
    assert!(matches!(c.step(ConvertEvent::Ran(false)), ConvertAction::RemoveOutput(_)));
    assert!(!ended(c.step(ConvertEvent::Removed)));
}

#[test]
fn a_conversion_without_attempts_fails_at_once() {
    let (c, first) = Conversion::start(vec![], video_rules(true, true));
    assert!(!ended(first));
    assert!(c.is_finished());
    let (_, first) = Conversion::start(vec![], audio_rules(true, true, true));
    assert!(matches!(first, ConvertAction::RemoveInput));
}

#[test]
fn answers_out_of_turn_end_a_conversion() {
    let attempts = vec![attempt("a.flac", Some("first"))];
    let (mut c, _) = Conversion::start(attempts, audio_rules(true, true, true));
    assert!(!ended(c.step(ConvertEvent::Ran(true))));
    assert!(c.is_finished());
    assert!(!ended(c.step(ConvertEvent::Removed)));
}
