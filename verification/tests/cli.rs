use dsp_core::{default_block, parse_args, parse_voice, sidecar_path_for, trig_events, CliRequest, EventSpec, Voice};

fn args(a: &[&str]) -> Vec<String> {
    a.iter().map(|s| s.to_string()).collect()
}

#[test]
fn default_block_is_128() {
    assert_eq!(default_block(), 128);
}

#[test]
fn voice_names_ignore_ascii_case() {
    assert_eq!(parse_voice("bd"), Ok(Voice::Bd));
    assert_eq!(parse_voice("SD"), Ok(Voice::Sd));
    assert_eq!(parse_voice("Lt"), Ok(Voice::Lt));
    assert_eq!(parse_voice("hT"), Ok(Voice::Ht));
    assert_eq!(parse_voice("cy"), Ok(Voice::Cy));
    assert_eq!(parse_voice("OH"), Ok(Voice::Oh));
    assert_eq!(parse_voice("ch"), Ok(Voice::Ch));
}

#[test]
fn unknown_voice_is_quoted_in_lowercase() {
    assert_eq!(parse_voice("Kick"), Err("unknown voice 'kick'".to_string()));
    assert_eq!(parse_voice(""), Err("unknown voice ''".to_string()));
    assert_eq!(parse_voice("BDX"), Err("unknown voice 'bdx'".to_string()));
    assert_eq!(parse_voice("ÄB"), Err("unknown voice 'Äb'".to_string()));
}

#[test]
fn sidecar_replaces_last_extension() {
    assert_eq!(sidecar_path_for("out.wav"), "out.json");
    assert_eq!(sidecar_path_for("a.b/kick.final.wav"), "a.b/kick.final.json");
    assert_eq!(sidecar_path_for("noext"), "noext.json");
    assert_eq!(sidecar_path_for(""), ".json");
    assert_eq!(sidecar_path_for("trailing."), "trailing.json");
}

fn render(r: Result<CliRequest, String>) -> (Option<String>, String) {
    match r {
        Ok(CliRequest::Render { input_path, output_path }) => (input_path, output_path),
        Ok(CliRequest::Help) => panic!("unexpected help"),
        Err(e) => panic!("unexpected error {e}"),
    }
}

#[test]
fn args_default_to_stdin_and_out_wav() {
    assert_eq!(render(parse_args(&args(&[]))), (None, "out.wav".to_string()));
}

#[test]
fn args_set_input_and_output() {
    assert_eq!(
        render(parse_args(&args(&["req.json", "-o", "kick.wav"]))),
        (Some("req.json".to_string()), "kick.wav".to_string())
    );
    assert_eq!(
        render(parse_args(&args(&["--out", "x.wav", "a.json", "b.json"]))),
        (Some("b.json".to_string()), "x.wav".to_string())
    );
}

#[test]
fn dangling_output_flag_is_an_error() {
    assert!(matches!(parse_args(&args(&["in.json", "-o"])), Err(e) if e == "-o requires a path"));
}

#[test]
fn help_stops_argument_reading() {
    assert!(matches!(parse_args(&args(&["-h", "-o"])), Ok(CliRequest::Help)));
    assert!(matches!(parse_args(&args(&["a.json", "--help"])), Ok(CliRequest::Help)));
    assert!(matches!(parse_args(&args(&["-o", "-h"])), Ok(CliRequest::Render { .. })));
}

#[test]
fn event_voices_are_resolved_in_order() {
    let specs = vec![
        EventSpec { sample_index: 0, voice: "BD".to_string(), accent: true },
        EventSpec { sample_index: 100, voice: "ch".to_string(), accent: false },
    ];
    let ev = trig_events(&specs).unwrap();
    assert_eq!(ev.len(), 2);
    assert_eq!((ev[0].sample_index, ev[0].voice, ev[0].accent), (0, Voice::Bd, true));
    assert_eq!((ev[1].sample_index, ev[1].voice, ev[1].accent), (100, Voice::Ch, false));
}

#[test]
fn first_unknown_event_voice_is_reported() {
    let specs = vec![
        EventSpec { sample_index: 0, voice: "sd".to_string(), accent: false },
        EventSpec { sample_index: 1, voice: "Tom".to_string(), accent: false },
        EventSpec { sample_index: 2, voice: "Cow".to_string(), accent: false },
    ];
    assert_eq!(trig_events(&specs).err(), Some("unknown voice 'tom'".to_string()));
}
