use image_processor::args::{Args, DEFAULT_PLUGIN_PATH};
use image_processor::error::Error;
use image_processor::pipeline::{
    module_file_name, step, Action, Event, Paths, Platform, Stage, ENTRY_POINT,
    OUTPUT_EXTENSION,
};
use image_processor::process_image;

fn args() -> Args {
    Args {
        input: "in.png".to_string(),
        output: "out.png".to_string(),
        plugin: "blur".to_string(),
        params: "params.json".to_string(),
        plugin_path: DEFAULT_PLUGIN_PATH.to_string(),
    }
}

fn platform() -> Platform {
    Platform { prefix: "lib".to_string(), extension: "so".to_string() }
}

fn paths() -> Paths {
    Paths { module: Ok("plugins/libblur.so".to_string()), extension: Some("png".to_string()) }
}

fn loading() -> Stage {
    Stage::Loading { params: vec![123, 125, 0], path: "plugins/libblur.so".to_string() }
}

/// Answers the events one after another, from the start, and collects the
/// actions.
fn run(args: &Args, paths: &Paths, events: Vec<Event>) -> (Stage, Vec<Action>) {
    let mut stage = Stage::Start;
    let mut actions = Vec::new();
    for event in events {
        let (next, action) = step(args, paths, stage, event);
        stage = next;
        actions.push(action);
    }
    (stage, actions)
}

fn good_events() -> Vec<Event> {
    vec![
        Event::Begin,
        Event::Decoded,
        Event::ParamsRead("{}".to_string()),
        Event::ModuleLoaded,
        Event::SymbolResolved,
        Event::Invoked,
        Event::Encoded,
    ]
}

#[test]
fn a_run_without_failure_takes_the_seven_steps_in_order() {
    let (stage, actions) = run(&args(), &paths(), good_events());
    assert_eq!(stage, Stage::Finished);
    assert_eq!(
        actions,
        vec![
            Action::Decode("in.png".to_string()),
            Action::ReadParams("params.json".to_string()),
            Action::Load("plugins/libblur.so".to_string()),
            Action::Resolve("process_image".to_string()),
            Action::Invoke(vec![123, 125, 0]),
            Action::Encode("out.png".to_string()),
            Action::Succeed,
        ]
    );
}

#[test]
fn stages_follow_one_another() {
    let (args, paths) = (args(), paths());
    assert_eq!(step(&args, &paths, Stage::Start, Event::Begin).0, Stage::Decoding);
    assert_eq!(step(&args, &paths, Stage::Decoding, Event::Decoded).0, Stage::ReadingParams);
    assert_eq!(
        step(&args, &paths, Stage::ReadingParams, Event::ParamsRead("{}".to_string())).0,
        loading()
    );
    assert_eq!(
        step(&args, &paths, loading(), Event::ModuleLoaded).0,
        Stage::Resolving { params: vec![123, 125, 0] }
    );
    assert_eq!(
        step(&args, &paths, Stage::Resolving { params: vec![0] }, Event::SymbolResolved).0,
        Stage::Invoking
    );
    assert_eq!(step(&args, &paths, Stage::Invoking, Event::Invoked).0, Stage::Encoding);
    assert_eq!(step(&args, &paths, Stage::Encoding, Event::Encoded).0, Stage::Finished);
}

#[test]
fn entry_point_and_extension_are_fixed() {
    assert_eq!(ENTRY_POINT, "process_image");
    assert_eq!(OUTPUT_EXTENSION, "png");
    assert_eq!(DEFAULT_PLUGIN_PATH, "target/debug");
}

#[test]
fn unreadable_source_is_an_io_error() {
    let answer = step(
        &args(),
        &paths(),
        Stage::Decoding,
        Event::SourceUnreadable("No such file or directory (os error 2)".to_string()),
    );
    assert_eq!(
        answer,
        (
            Stage::Finished,
            Action::Fail(Error::Io(
                "file in.png open error: No such file or directory (os error 2)".to_string()
            ))
        )
    );
}

#[test]
fn undecodable_source_is_an_image_error() {
    let answer =
        step(&args(), &paths(), Stage::Decoding, Event::Undecodable("bad signature".to_string()));
    assert_eq!(
        answer,
        (
            Stage::Finished,
            Action::Fail(Error::ImageError("decode error: bad signature".to_string()))
        )
    );
}

#[test]
fn unreadable_parameters_are_an_io_error() {
    let answer = step(
        &args(),
        &paths(),
        Stage::ReadingParams,
        Event::ParamsUnreadable("permission denied".to_string()),
    );
    assert_eq!(
        answer,
        (
            Stage::Finished,
            Action::Fail(Error::Io(
                "error reading file params.json: permission denied".to_string()
            ))
        )
    );
}

#[test]
fn parameters_with_a_zero_byte_end_the_run_before_any_module_is_loaded() {
    let (stage, actions) = run(
        &args(),
        &paths(),
        vec![Event::Begin, Event::Decoded, Event::ParamsRead("{\"a\":\0}".to_string())],
    );
    assert_eq!(stage, Stage::Finished);
    assert_eq!(actions[2], Action::Fail(Error::EmbeddedTerminator(5)));
    assert!(!actions.iter().any(|action| matches!(action, Action::Load(_))));
}

#[test]
fn parameters_are_marshalled_for_the_invocation() {
    let (_, actions) = run(
        &args(),
        &paths(),
        vec![
            Event::Begin,
            Event::Decoded,
            Event::ParamsRead("{\"radius\":2}".to_string()),
            Event::ModuleLoaded,
            Event::SymbolResolved,
        ],
    );
    let mut expected = "{\"radius\":2}".as_bytes().to_vec();
    expected.push(0);
    assert_eq!(actions[4], Action::Invoke(expected));
}

#[test]
fn module_path_that_is_no_text_is_an_io_error() {
    let paths = Paths { module: Err("plugins/lib\u{FFFD}.so".to_string()), extension: None };
    let answer =
        step(&args(), &paths, Stage::ReadingParams, Event::ParamsRead("{}".to_string()));
    assert_eq!(
        answer,
        (
            Stage::Finished,
            Action::Fail(Error::Io("invalid plugin path: plugins/lib\u{FFFD}.so".to_string()))
        )
    );
}

#[test]
fn missing_module_is_not_found_and_nothing_is_invoked() {
    let mut events = vec![
        Event::Begin,
        Event::Decoded,
        Event::ParamsRead("{}".to_string()),
        Event::ModuleMissing("no such file".to_string()),
    ];
    // Whatever is reported afterwards, the run stays over.
    events.extend(vec![Event::ModuleLoaded, Event::SymbolResolved, Event::Invoked, Event::Encoded]);
    let (stage, actions) = run(&args(), &paths(), events);
    assert_eq!(stage, Stage::Finished);
    assert_eq!(
        actions[3],
        Action::Fail(Error::ModuleNotFound(
            "unable to load plugins/libblur.so: no such file".to_string()
        ))
    );
    for action in &actions {
        assert!(!matches!(action, Action::Invoke(_)));
    }
    for action in &actions[4..] {
        assert_eq!(*action, Action::Fail(Error::Io("event out of turn".to_string())));
    }
}

#[test]
fn module_that_cannot_be_loaded_is_a_load_error() {
    let answer =
        step(&args(), &paths(), loading(), Event::ModuleRejected("wrong ELF class".to_string()));
    assert_eq!(
        answer,
        (
            Stage::Finished,
            Action::Fail(Error::ModuleLoadError(
                "unable to load plugins/libblur.so: wrong ELF class".to_string()
            ))
        )
    );
}

#[test]
fn missing_entry_point_is_a_symbol_error() {
    let answer = step(
        &args(),
        &paths(),
        Stage::Resolving { params: vec![0] },
        Event::SymbolMissing("undefined symbol: process_image".to_string()),
    );
    assert_eq!(
        answer,
        (
            Stage::Finished,
            Action::Fail(Error::SymbolNotFound(
                "unable to find process image: undefined symbol: process_image".to_string()
            ))
        )
    );
}

#[test]
fn destination_without_the_extension_is_refused_after_the_invocation() {
    for extension in [None, Some("jpg".to_string()), Some("PNG".to_string()), Some(String::new())] {
        let paths = Paths { module: Ok("plugins/libblur.so".to_string()), extension };
        let (stage, actions) = run(&args(), &paths, good_events());
        assert_eq!(stage, Stage::Finished);
        assert!(matches!(actions[4], Action::Invoke(_)));
        assert_eq!(
            actions[5],
            Action::Fail(Error::Io("output path must have .png extension".to_string()))
        );
        for action in &actions {
            assert!(!matches!(action, Action::Encode(_) | Action::Succeed));
        }
    }
}

#[test]
fn failed_encoding_is_an_image_error() {
    let answer =
        step(&args(), &paths(), Stage::Encoding, Event::EncodeFailed("disk full".to_string()));
    assert_eq!(
        answer,
        (
            Stage::Finished,
            Action::Fail(Error::ImageError("error saving image: disk full".to_string()))
        )
    );
}

#[test]
fn event_out_of_turn_ends_the_run() {
    let out_of_turn = (Stage::Finished, Action::Fail(Error::Io("event out of turn".to_string())));
    assert_eq!(step(&args(), &paths(), Stage::Start, Event::Decoded), out_of_turn);
    assert_eq!(step(&args(), &paths(), Stage::Decoding, Event::Begin), out_of_turn);
    assert_eq!(step(&args(), &paths(), Stage::Invoking, Event::Encoded), out_of_turn);
    assert_eq!(step(&args(), &paths(), loading(), Event::SymbolResolved), out_of_turn);
    assert_eq!(step(&args(), &paths(), Stage::Finished, Event::Begin), out_of_turn);
}

#[test]
fn module_file_is_named_as_the_platform_names_it() {
    assert_eq!(module_file_name(&platform(), "blur"), "libblur.so");
    let windows = Platform { prefix: String::new(), extension: "dll".to_string() };
    assert_eq!(module_file_name(&windows, "mirror"), "mirror.dll");
}

#[test]
fn module_is_looked_for_in_the_search_directory() {
    let mut args = args();
    args.plugin = "mirror".to_string();
    args.plugin_path = "plugins".to_string();
    let separator = std::path::MAIN_SEPARATOR;
    let path = format!("plugins{separator}libmirror.so");
    assert_eq!(
        process_image(&args, &platform(), Stage::ReadingParams, Event::ParamsRead(String::new())),
        (Stage::Loading { params: vec![0], path: path.clone() }, Action::Load(path))
    );
}

#[test]
fn destination_extension_is_what_follows_the_last_dot_of_the_file_name() {
    let mut args = args();
    for (output, accepted) in [
        ("out.png", true),
        ("dir/archive.tar.png", true),
        ("out.jpg", false),
        ("out.png.jpg", false),
        ("out", false),
        ("png", false),
        (".png", false),
        ("dir.png/out", false),
        ("out.PNG", false),
        ("out.png ", false),
    ] {
        args.output = output.to_string();
        let (stage, action) = process_image(&args, &platform(), Stage::Invoking, Event::Invoked);
        if accepted {
            assert_eq!((stage, action), (Stage::Encoding, Action::Encode(output.to_string())));
        } else {
            assert_eq!(
                (stage, action),
                (
                    Stage::Finished,
                    Action::Fail(Error::Io("output path must have .png extension".to_string()))
                )
            );
        }
    }
}

#[test]
fn one_step_of_a_run_on_this_platform() {
    let args = args();
    let separator = std::path::MAIN_SEPARATOR;
    let path = format!("target/debug{separator}libblur.so");
    assert_eq!(
        process_image(&args, &platform(), Stage::Start, Event::Begin),
        (Stage::Decoding, Action::Decode("in.png".to_string()))
    );
    assert_eq!(
        process_image(&args, &platform(), Stage::ReadingParams, Event::ParamsRead("{}".to_string())),
        (Stage::Loading { params: vec![123, 125, 0], path: path.clone() }, Action::Load(path))
    );
    assert_eq!(
        process_image(&args, &platform(), Stage::Invoking, Event::Invoked),
        (Stage::Encoding, Action::Encode("out.png".to_string()))
    );
}

#[test]
fn destination_without_the_extension_fails_on_this_platform() {
    let mut args = args();
    args.output = "out.jpeg".to_string();
    assert_eq!(
        process_image(&args, &platform(), Stage::Invoking, Event::Invoked),
        (
            Stage::Finished,
            Action::Fail(Error::Io("output path must have .png extension".to_string()))
        )
    );
}
