//! One run of the host: decode the source, read and marshal the parameters,
//! load the filter's module, resolve its entry point, invoke it, check the
//! destination, encode.
//!
//! What touches the world (files, the image codec, the dynamic loader, the
//! call into the module) is the caller's work. This module decides: it is
//! told what happened, as an [`Event`], and answers with what to do next, as
//! an [`Action`]. Between two calls the caller keeps the [`Stage`].

use vstd::prelude::*;
use vstd::string::StringExecFns;
use vstd::string::StringSliceAdditionalSpecFns;
use vstd::utf8::encode_utf8;
use crate::args::Args;
use crate::error::{Error, ErrorView};
use crate::marshal::{marshal, marshal_spec, marshalled, zero_free};

verus! {

/// Name of the one function that a filter's module exports.
pub const ENTRY_POINT: &'static str = "process_image";

/// Extension that the destination path must carry.
pub const OUTPUT_EXTENSION: &'static str = "png";

/// How the host platform names the file of a dynamic module.
#[derive(Debug, Clone, PartialEq, Eq)]
pub struct Platform {
    /// What the file name begins with, before the module's name.
    pub prefix: String,
    /// The file name's extension, without the dot.
    pub extension: String,
}

/// What the platform's path rules make of the paths of a run.
#[derive(Debug, PartialEq, Eq)]
pub struct Paths {
    /// Path of the module's file, or, where that path cannot be written as
    /// text, a rendering of it for the error message.
    pub module: Result<String, String>,
    /// Extension of the destination path, where it has one.
    pub extension: Option<String>,
}

/// How far a run has come.
#[derive(Debug, Clone, PartialEq, Eq)]
pub enum Stage {
    /// Nothing has been asked for yet.
    Start,
    /// The source image is being decoded.
    Decoding,
    /// The parameter document is being read.
    ReadingParams,
    /// The module at `path` is being loaded; `params` is marshalled.
    Loading { params: Vec<u8>, path: String },
    /// The entry point is being resolved.
    Resolving { params: Vec<u8> },
    /// The filter is at work on the buffer.
    Invoking,
    /// The buffer is being encoded to the destination.
    Encoding,
    /// The run is over.
    Finished,
}

/// What the caller reports of the work it was asked to do. The texts say,
/// in the words of whoever failed, why.
#[derive(Debug, Clone, PartialEq, Eq)]
pub enum Event {
    /// The run begins.
    Begin,
    /// The source file cannot be opened.
    SourceUnreadable(String),
    /// The source file holds no image that can be decoded.
    Undecodable(String),
    /// The source image is decoded into the buffer.
    Decoded,
    /// The parameter file cannot be read.
    ParamsUnreadable(String),
    /// The parameter file holds this text.
    ParamsRead(String),
    /// There is no file at the module's path.
    ModuleMissing(String),
    /// The file at the module's path cannot be loaded.
    ModuleRejected(String),
    /// The module is loaded.
    ModuleLoaded,
    /// The module does not export the entry point.
    SymbolMissing(String),
    /// The entry point is resolved.
    SymbolResolved,
    /// The filter has returned.
    Invoked,
    /// The buffer cannot be encoded to the destination.
    EncodeFailed(String),
    /// The destination image is written.
    Encoded,
}

/// What the caller is to do next.
#[derive(Debug, Clone, PartialEq, Eq)]
pub enum Action {
    /// Decode the image at this path into the buffer.
    Decode(String),
    /// Read the whole text of the file at this path.
    ReadParams(String),
    /// Load the module at this path.
    Load(String),
    /// Resolve the exported function of this name in the loaded module.
    Resolve(String),
    /// Invoke the entry point on the buffer, with these marshalled
    /// parameters.
    Invoke(Vec<u8>),
    /// Encode the buffer to this path.
    Encode(String),
    /// Stop: the destination image is written.
    Succeed,
    /// Stop: the run has failed, for this reason.
    Fail(Error),
}

/// The arguments and paths of a run, as contracts speak of them.
pub struct Job {
    pub input: Seq<char>,
    pub output: Seq<char>,
    pub params: Seq<char>,
    pub module: Result<Seq<char>, Seq<char>>,
    pub extension: Option<Seq<char>>,
}

/// A stage as contracts speak of it.
pub enum StageView {
    Start,
    Decoding,
    ReadingParams,
    Loading { params: Seq<u8>, path: Seq<char> },
    Resolving { params: Seq<u8> },
    Invoking,
    Encoding,
    Finished,
}

/// An event as contracts speak of it.
pub enum EventView {
    Begin,
    SourceUnreadable(Seq<char>),
    Undecodable(Seq<char>),
    Decoded,
    ParamsUnreadable(Seq<char>),
    ParamsRead(Seq<char>),
    ModuleMissing(Seq<char>),
    ModuleRejected(Seq<char>),
    ModuleLoaded,
    SymbolMissing(Seq<char>),
    SymbolResolved,
    Invoked,
    EncodeFailed(Seq<char>),
    Encoded,
}

/// An action as contracts speak of it.
pub enum ActionView {
    Decode(Seq<char>),
    ReadParams(Seq<char>),
    Load(Seq<char>),
    Resolve(Seq<char>),
    Invoke(Seq<u8>),
    Encode(Seq<char>),
    Succeed,
    Fail(ErrorView),
}

impl View for Stage {
    type V = StageView;

    open spec fn view(&self) -> StageView {
        match *self {
            Stage::Start => StageView::Start,
            Stage::Decoding => StageView::Decoding,
            Stage::ReadingParams => StageView::ReadingParams,
            Stage::Loading { params, path } => StageView::Loading { params: params@, path: path@ },
            Stage::Resolving { params } => StageView::Resolving { params: params@ },
            Stage::Invoking => StageView::Invoking,
            Stage::Encoding => StageView::Encoding,
            Stage::Finished => StageView::Finished,
        }
    }
}

impl View for Event {
    type V = EventView;

    open spec fn view(&self) -> EventView {
        match *self {
            Event::Begin => EventView::Begin,
            Event::SourceUnreadable(detail) => EventView::SourceUnreadable(detail@),
            Event::Undecodable(detail) => EventView::Undecodable(detail@),
            Event::Decoded => EventView::Decoded,
            Event::ParamsUnreadable(detail) => EventView::ParamsUnreadable(detail@),
            Event::ParamsRead(text) => EventView::ParamsRead(text@),
            Event::ModuleMissing(detail) => EventView::ModuleMissing(detail@),
            Event::ModuleRejected(detail) => EventView::ModuleRejected(detail@),
            Event::ModuleLoaded => EventView::ModuleLoaded,
            Event::SymbolMissing(detail) => EventView::SymbolMissing(detail@),
            Event::SymbolResolved => EventView::SymbolResolved,
            Event::Invoked => EventView::Invoked,
            Event::EncodeFailed(detail) => EventView::EncodeFailed(detail@),
            Event::Encoded => EventView::Encoded,
        }
    }
}

impl View for Action {
    type V = ActionView;

    open spec fn view(&self) -> ActionView {
        match *self {
            Action::Decode(path) => ActionView::Decode(path@),
            Action::ReadParams(path) => ActionView::ReadParams(path@),
            Action::Load(path) => ActionView::Load(path@),
            Action::Resolve(name) => ActionView::Resolve(name@),
            Action::Invoke(params) => ActionView::Invoke(params@),
            Action::Encode(path) => ActionView::Encode(path@),
            Action::Succeed => ActionView::Succeed,
            Action::Fail(error) => ActionView::Fail(error@),
        }
    }
}

/// The run that `args` ask for, with the paths as `paths` give them.
pub open spec fn job_of(args: Args, paths: Paths) -> Job {
    Job {
        input: args.input@,
        output: args.output@,
        params: args.params@,
        module: path_view(paths.module),
        extension: extension_view(paths.extension),
    }
}

/// Name of the file that holds the module of the filter `plugin`.
pub open spec fn module_file(platform: Platform, plugin: Seq<char>) -> Seq<char> {
    platform.prefix@ + plugin + "."@ + platform.extension@
}

/// A run that ends here in failure.
pub open spec fn failed(error: ErrorView) -> (StageView, ActionView) {
    (StageView::Finished, ActionView::Fail(error))
}

/// What a run answers to an event that its stage does not wait for.
pub open spec fn out_of_turn() -> (StageView, ActionView) {
    failed(ErrorView::Io("event out of turn"@))
}

/// The stage that follows `stage` on `event`, and what is to be done then.
/// A failure ends the run; so does an event that the stage does not wait
/// for.
pub open spec fn next(job: Job, stage: StageView, event: EventView) -> (StageView, ActionView) {
    match stage {
        StageView::Start => match event {
            EventView::Begin => (StageView::Decoding, ActionView::Decode(job.input)),
            _ => out_of_turn(),
        },
        StageView::Decoding => match event {
            EventView::SourceUnreadable(detail) => failed(
                ErrorView::Io("file "@ + job.input + " open error: "@ + detail),
            ),
            EventView::Undecodable(detail) => failed(
                ErrorView::ImageError("decode error: "@ + detail),
            ),
            EventView::Decoded => (StageView::ReadingParams, ActionView::ReadParams(job.params)),
            _ => out_of_turn(),
        },
        StageView::ReadingParams => match event {
            EventView::ParamsUnreadable(detail) => failed(
                ErrorView::Io("error reading file "@ + job.params + ": "@ + detail),
            ),
            EventView::ParamsRead(text) => match marshal_spec(encode_utf8(text)) {
                Err(error) => failed(error),
                Ok(params) => match job.module {
                    Err(shown) => failed(ErrorView::Io("invalid plugin path: "@ + shown)),
                    Ok(path) => (StageView::Loading { params, path }, ActionView::Load(path)),
                },
            },
            _ => out_of_turn(),
        },
        StageView::Loading { params, path } => match event {
            EventView::ModuleMissing(detail) => failed(
                ErrorView::ModuleNotFound("unable to load "@ + path + ": "@ + detail),
            ),
            EventView::ModuleRejected(detail) => failed(
                ErrorView::ModuleLoadError("unable to load "@ + path + ": "@ + detail),
            ),
            EventView::ModuleLoaded => (
                StageView::Resolving { params },
                ActionView::Resolve(ENTRY_POINT@),
            ),
            _ => out_of_turn(),
        },
        StageView::Resolving { params } => match event {
            EventView::SymbolMissing(detail) => failed(
                ErrorView::SymbolNotFound("unable to find process image: "@ + detail),
            ),
            EventView::SymbolResolved => (StageView::Invoking, ActionView::Invoke(params)),
            _ => out_of_turn(),
        },
        StageView::Invoking => match event {
            EventView::Invoked => if job.extension == Some(OUTPUT_EXTENSION@) {
                (StageView::Encoding, ActionView::Encode(job.output))
            } else {
                failed(ErrorView::Io("output path must have .png extension"@))
            },
            _ => out_of_turn(),
        },
        StageView::Encoding => match event {
            EventView::EncodeFailed(detail) => failed(
                ErrorView::ImageError("error saving image: "@ + detail),
            ),
            EventView::Encoded => (StageView::Finished, ActionView::Succeed),
            _ => out_of_turn(),
        },
        StageView::Finished => out_of_turn(),
    }
}

/// The view of a stage and an action together.
pub open spec fn step_view(step: (Stage, Action)) -> (StageView, ActionView) {
    (step.0@, step.1@)
}

/// The path that `std::path::PathBuf::join` makes of a directory and a file
/// name: as text where it is text, else as it is rendered for a message.
pub uninterp spec fn joined_path(directory: Seq<char>, file: Seq<char>) -> Result<
    Seq<char>,
    Seq<char>,
>;

/// The extension that `std::path::Path::extension` finds in a path, where
/// it finds one and that is text.
pub uninterp spec fn path_extension(path: Seq<char>) -> Option<Seq<char>>;

/// A path, or its rendering, by its characters.
pub open spec fn path_view(path: Result<String, String>) -> Result<Seq<char>, Seq<char>> {
    match path {
        Ok(text) => Ok(text@),
        Err(shown) => Err(shown@),
    }
}

/// An extension, where there is one, by its characters.
pub open spec fn extension_view(extension: Option<String>) -> Option<Seq<char>> {
    match extension {
        Some(text) => Some(text@),
        None => None,
    }
}

/// Joins a directory and a file name by `std::path::PathBuf::join`, and
/// hands the result back as text (`Path::to_str`), or, where it is no
/// text, as `Path::display` renders it. The join reads the two texts and
/// nothing else, by the path rules of the platform that the library is
/// built for. That is all the contract claims: the result is `joined_path`
/// of the two texts, of which nothing more is said.
#[verifier::external_body]
fn join_path(directory: &str, file: &str) -> (joined: Result<String, String>)
    ensures
        path_view(joined) == joined_path(directory@, file@),
{
    let path = std::path::PathBuf::from(directory).join(file);
    match path.to_str() {
        Some(text) => Ok(text.to_string()),
        None => Err(path.display().to_string()),
    }
}

/// The extension of a path as `std::path::Path::extension` gives it, where
/// there is one and it is text. The search reads the path's text and
/// nothing else, by the path rules of the platform that the library is
/// built for. That is all the contract claims: the result is
/// `path_extension` of the text, of which nothing more is said.
#[verifier::external_body]
fn extension_of(path: &str) -> (extension: Option<String>)
    ensures
        extension_view(extension) == path_extension(path@),
{
    match std::path::Path::new(path).extension() {
        Some(found) => match found.to_str() {
            Some(text) => Some(text.to_string()),
            None => None,
        },
        None => None,
    }
}

/// The run that `args` ask for on `platform`: the module's file is looked
/// for in the search directory under the name that the platform gives it,
/// and the destination's extension is that of the output path.
pub open spec fn job_for(args: Args, platform: Platform) -> Job {
    Job {
        input: args.input@,
        output: args.output@,
        params: args.params@,
        module: joined_path(args.plugin_path@, module_file(platform, args.plugin@)),
        extension: path_extension(args.output@),
    }
}

/// Name of the file that holds the module of the filter `plugin`: the
/// platform's prefix, the filter's name, a dot, the platform's extension.
pub fn module_file_name(platform: &Platform, plugin: &str) -> (name: String)
    ensures
        name@ == module_file(*platform, plugin@),
{
    let name = platform.prefix.clone();
    let name = name.concat(plugin);
    let name = name.concat(".");
    name.concat(platform.extension.as_str())
}

/// The paths of a run, as the platform's path rules give them: the module's
/// file in the search directory, and the extension of the destination.
fn paths_of(args: &Args, platform: &Platform) -> (paths: Paths)
    ensures
        path_view(paths.module) == joined_path(
            args.plugin_path@,
            module_file(*platform, args.plugin@),
        ),
        extension_view(paths.extension) == path_extension(args.output@),
        job_of(*args, paths) == job_for(*args, *platform),
{
    let file = module_file_name(platform, args.plugin.as_str());
    Paths {
        module: join_path(args.plugin_path.as_str(), file.as_str()),
        extension: extension_of(args.output.as_str()),
    }
}

fn fail(error: Error) -> (step: (Stage, Action))
    ensures
        step_view(step) == failed(error@),
{
    (Stage::Finished, Action::Fail(error))
}

fn reject() -> (step: (Stage, Action))
    ensures
        step_view(step) == out_of_turn(),
{
    fail(Error::Io(String::from_str("event out of turn")))
}

/// The text `lead`, then `subject`, then `link`, then `detail`.
fn message(lead: &str, subject: &str, link: &str, detail: &str) -> (text: String)
    ensures
        text@ == lead@ + subject@ + link@ + detail@,
{
    let text = String::from_str(lead);
    let text = text.concat(subject);
    let text = text.concat(link);
    text.concat(detail)
}

/// The text `lead`, then `detail`.
fn explained(lead: &str, detail: &str) -> (text: String)
    ensures
        text@ == lead@ + detail@,
{
    String::from_str(lead).concat(detail)
}

/// Takes one step of a run whose paths are `paths`: answers `event`, which
/// reports on what `stage` was waiting for, with the stage that follows and
/// the action to take.
pub fn step(args: &Args, paths: &Paths, stage: Stage, event: Event) -> (step: (Stage, Action))
    ensures
        step_view(step) == next(job_of(*args, *paths), stage@, event@),
{
    match stage {
        Stage::Start => match event {
            Event::Begin => (Stage::Decoding, Action::Decode(args.input.clone())),
            _ => reject(),
        },
        Stage::Decoding => match event {
            Event::SourceUnreadable(detail) => fail(
                Error::Io(
                    message("file ", args.input.as_str(), " open error: ", detail.as_str()),
                ),
            ),
            Event::Undecodable(detail) => fail(
                Error::ImageError(explained("decode error: ", detail.as_str())),
            ),
            Event::Decoded => (Stage::ReadingParams, Action::ReadParams(args.params.clone())),
            _ => reject(),
        },
        Stage::ReadingParams => match event {
            Event::ParamsUnreadable(detail) => fail(
                Error::Io(
                    message("error reading file ", args.params.as_str(), ": ", detail.as_str()),
                ),
            ),
            Event::ParamsRead(text) => match marshal(text.as_str()) {
                Err(error) => fail(error),
                Ok(params) => match &paths.module {
                    Err(shown) => fail(
                        Error::Io(explained("invalid plugin path: ", shown.as_str())),
                    ),
                    Ok(path) => (
                        Stage::Loading { params, path: path.clone() },
                        Action::Load(path.clone()),
                    ),
                },
            },
            _ => reject(),
        },
        Stage::Loading { params, path } => match event {
            Event::ModuleMissing(detail) => fail(
                Error::ModuleNotFound(
                    message("unable to load ", path.as_str(), ": ", detail.as_str()),
                ),
            ),
            Event::ModuleRejected(detail) => fail(
                Error::ModuleLoadError(
                    message("unable to load ", path.as_str(), ": ", detail.as_str()),
                ),
            ),
            Event::ModuleLoaded => (
                Stage::Resolving { params },
                Action::Resolve(String::from_str(ENTRY_POINT)),
            ),
            _ => reject(),
        },
        Stage::Resolving { params } => match event {
            Event::SymbolMissing(detail) => fail(
                Error::SymbolNotFound(
                    explained("unable to find process image: ", detail.as_str()),
                ),
            ),
            Event::SymbolResolved => (Stage::Invoking, Action::Invoke(params)),
            _ => reject(),
        },
        Stage::Invoking => match event {
            Event::Invoked => {
                let expected = String::from_str(OUTPUT_EXTENSION);
                let accepted = match &paths.extension {
                    Some(extension) => *extension == expected,
                    None => false,
                };
                if accepted {
                    (Stage::Encoding, Action::Encode(args.output.clone()))
                } else {
                    fail(Error::Io(String::from_str("output path must have .png extension")))
                }
            },
            _ => reject(),
        },
        Stage::Encoding => match event {
            Event::EncodeFailed(detail) => fail(
                Error::ImageError(explained("error saving image: ", detail.as_str())),
            ),
            Event::Encoded => (Stage::Finished, Action::Succeed),
            _ => reject(),
        },
        Stage::Finished => reject(),
    }
}

/// Takes one step of the run that `args` ask for on `platform`: answers
/// `event` with the stage that follows `stage` and the action to take. The
/// module is looked for in the search directory under the name that the
/// platform gives its file, and the destination is accepted by the
/// extension of the output path.
pub fn process_image(args: &Args, platform: &Platform, stage: Stage, event: Event) -> (step: (
    Stage,
    Action,
))
    ensures
        step_view(step) == next(job_for(*args, *platform), stage@, event@),
{
    let paths = paths_of(args, platform);
    self::step(args, &paths, stage, event)
}

/// The stage that a run of `job` has reached when it has answered the
/// first `n` of `events`.
pub open spec fn stage_at(job: Job, events: Seq<EventView>, n: int) -> StageView
    decreases n,
{
    if n <= 0 {
        StageView::Start
    } else {
        next(job, stage_at(job, events, n - 1), events[n - 1]).0
    }
}

/// The action with which a run of `job` answers `events[n]`.
pub open spec fn action_at(job: Job, events: Seq<EventView>, n: int) -> ActionView {
    next(job, stage_at(job, events, n), events[n]).1
}

/// Place of a stage in the order of a run.
pub open spec fn rank(stage: StageView) -> int {
    match stage {
        StageView::Start => 0,
        StageView::Decoding => 1,
        StageView::ReadingParams => 2,
        StageView::Loading { .. } => 3,
        StageView::Resolving { .. } => 4,
        StageView::Invoking => 5,
        StageView::Encoding => 6,
        StageView::Finished => 7,
    }
}

/// A run never goes back: every step leads to the stage that follows in
/// order, or ends the run. A run that is over stays over.
pub proof fn lemma_stages_in_order(job: Job, events: Seq<EventView>, n: int, m: int)
    requires
        0 <= n <= m,
    ensures
        rank(stage_at(job, events, n)) <= rank(stage_at(job, events, m)),
        n < m ==> rank(stage_at(job, events, n)) < rank(stage_at(job, events, m)) || stage_at(
            job,
            events,
            m,
        ) is Finished,
    decreases m - n,
{
    if n < m {
        lemma_stages_in_order(job, events, n, m - 1);
    }
}

/// Where the module's file is missing, the run ends there with a
/// module-not-found error, and at no time is the filter invoked: not
/// before, not then, and not after, whatever else is reported.
pub proof fn lemma_missing_module_never_invokes(job: Job, events: Seq<EventView>, k: int)
    requires
        0 <= k < events.len(),
        stage_at(job, events, k) is Loading,
        events[k] is ModuleMissing,
    ensures
        action_at(job, events, k) is Fail,
        action_at(job, events, k)->Fail_0 is ModuleNotFound,
        stage_at(job, events, k + 1) is Finished,
        forall|n: int| 0 <= n < events.len() ==> !(#[trigger] action_at(job, events, n) is Invoke),
{
    assert(stage_at(job, events, k + 1) == next(job, stage_at(job, events, k), events[k]).0);
    assert forall|n: int| 0 <= n < events.len() implies !(#[trigger] action_at(job, events, n)
        is Invoke) by {
        if n < k {
            lemma_stages_in_order(job, events, n, k);
        } else if n > k {
            lemma_stages_in_order(job, events, k + 1, n);
        }
    }
}

/// Where the destination does not carry the expected extension, the run
/// never comes to encode, and never ends in success, whatever is reported.
pub proof fn lemma_bad_destination_never_encodes(job: Job, events: Seq<EventView>, n: int)
    requires
        job.extension != Some(OUTPUT_EXTENSION@),
        0 <= n,
    ensures
        !(stage_at(job, events, n) is Encoding),
        !(action_at(job, events, n) is Encode),
        !(action_at(job, events, n) is Succeed),
    decreases n,
{
    if n > 0 {
        lemma_bad_destination_never_encodes(job, events, n - 1);
    }
}

/// Where the destination does not carry the expected extension, a run that
/// has come to its end has ended in failure.
pub proof fn lemma_bad_destination_ends_in_failure(job: Job, events: Seq<EventView>, n: int)
    requires
        job.extension != Some(OUTPUT_EXTENSION@),
        0 <= n,
        stage_at(job, events, n) is Finished,
    ensures
        exists|k: int| 0 <= k < n && #[trigger] action_at(job, events, k) is Fail,
    decreases n,
{
    if stage_at(job, events, n - 1) is Finished {
        lemma_bad_destination_ends_in_failure(job, events, n - 1);
    } else {
        lemma_bad_destination_never_encodes(job, events, n - 1);
        assert(action_at(job, events, n - 1) is Fail);
    }
}

/// A failure ends the run: after it nothing more is asked of the caller,
/// whatever is reported.
pub proof fn lemma_failure_ends_run(job: Job, events: Seq<EventView>, k: int, n: int)
    requires
        0 <= k < n,
        action_at(job, events, k) is Fail,
    ensures
        stage_at(job, events, n) is Finished,
        action_at(job, events, n) == out_of_turn().1,
{
    assert(stage_at(job, events, k + 1) == next(job, stage_at(job, events, k), events[k]).0);
    lemma_stages_in_order(job, events, k + 1, n);
}

/// The filter is invoked only on a module that was loaded and whose entry
/// point was resolved, and with the parameters that were read, marshalled:
/// the invocation answers the report that the entry point is resolved, the
/// step before it the report that the module is loaded, and the one before
/// that the text of the parameter document, which is free of zero bytes and
/// is handed on with one zero byte after it.
pub proof fn lemma_invoke_follows_load(job: Job, events: Seq<EventView>, n: int)
    requires
        0 <= n,
        action_at(job, events, n) is Invoke,
    ensures
        n >= 3,
        events[n] is SymbolResolved,
        events[n - 1] is ModuleLoaded,
        events[n - 2] is ParamsRead,
        action_at(job, events, n - 1) is Resolve,
        action_at(job, events, n - 2) is Load,
        zero_free(encode_utf8(events[n - 2]->ParamsRead_0)),
        action_at(job, events, n)->Invoke_0 == marshalled(
            encode_utf8(events[n - 2]->ParamsRead_0),
        ),
{
    reveal_with_fuel(stage_at, 4);
}

} // verus!
