//! The command line: which action a command is, and what each action's outcome
//! prints.
use vstd::prelude::*;
use vstd::string::*;
use crate::bootstrap::{CreatedScope, InitReport};
use crate::error::{path_texts, ConflictedFileView, DotsyncError, Explanation, ExplanationView};
use crate::paths::{joined_path, FilePath};
use crate::pause::{AbortReport, ContinueReport, Resumed};
use crate::payload::{lemma_with_field, shown, shown_list, with_field, Object, Payload, PayloadView};
use crate::render::{
    carried_change_notes, carried_lines, changes_json, changes_view, display_paths, push_lines,
    push_notes, success_lines, success_notes,
};
use crate::repo::{left_behind, PushReport};
use crate::selection::DotsyncPaths;
use crate::sync::{FileDrift, SyncCommandReport, SyncReport};
use crate::text::{
    add_texts, cat3, cat4, cat5, decimal, decimal_text, join, joined, list1, list2, no_texts,
    same_text, texts, trim, trimmed, Text,
};

verus! {

/// How a run answers.
#[derive(Debug, Clone, Copy, PartialEq, Eq, Structural)]
pub enum OutputFormat {
    Human,
    Json,
}

/// A command as it was typed.
#[derive(Debug)]
pub enum Command {
    Init { remote_url: Option<String>, parents: Vec<String> },
    CreateScope { scope: String, parents: Vec<String>, description: Option<String> },
    Commit { scope: String, message: String, paths: Vec<FilePath> },
    Discard { paths: Vec<FilePath> },
    Continue,
    Abort,
    Status,
    Diff,
    View { scope: Option<String>, file: Option<FilePath> },
    /// A command dotsync does not have, with everything that followed it.
    Unknown(Vec<String>),
}

/// Where `init` gets its remote from.
#[derive(Debug)]
pub enum InitRemote {
    Provided(String),
    Prompt,
}

/// What a run is to do.
#[derive(Debug)]
pub enum Action {
    Sync,
    Init { remote_url: InitRemote, parents: Vec<String> },
    CreateScope { scope: String, parents: Vec<String>, description: Option<String> },
    Commit { scope: String, message: String, paths: Vec<FilePath> },
    Discard { paths: Vec<FilePath> },
    Continue,
    Abort,
    Status,
    Diff,
    View { scope: Option<String>, file: Option<FilePath> },
}

pub const INIT_REMOTE_URL_USAGE: &'static str = "init needs the repo remote URL\n\nUsage:\n  dotsync init <remote-url>\n\nThe remote URL is the git remote that stores your dotsync repo.\n\nExample:\n  dotsync init git@github.com:maxeonyx/dotfiles.git";

/// Where `init` gets its remote from: what was typed, a person who can be
/// asked, or nowhere.
pub fn init_remote_from_args(remote_url: Option<String>, interactive: bool) -> (remote: Result<
    InitRemote,
    String,
>)
    ensures
        match (remote_url, remote) {
            (Some(url), Ok(InitRemote::Provided(given))) => given == url,
            (None, Ok(InitRemote::Prompt)) => interactive,
            (None, Err(said)) => !interactive && said@ == INIT_REMOTE_URL_USAGE@,
            _ => false,
        },
{
    match remote_url {
        Some(url) => Ok(InitRemote::Provided(url)),
        None => if interactive {
            Ok(InitRemote::Prompt)
        } else {
            Err(INIT_REMOTE_URL_USAGE.to_owned())
        },
    }
}

/// The remote that was typed at the prompt, if any was.
pub fn prompted_remote(line: &str) -> (remote: Result<String, String>)
    ensures
        match remote {
            Ok(url) => url@ == trimmed(line@) && url@.len() > 0,
            Err(said) => trimmed(line@).len() == 0 && said@ == INIT_REMOTE_URL_USAGE@,
        },
{
    let url = trim(line);
    if url.as_str().is_empty() {
        Err(INIT_REMOTE_URL_USAGE.to_owned())
    } else {
        Ok(url)
    }
}

/// What is said of a command that dotsync does not have.
pub open spec fn unknown_command(args: Seq<Text>) -> Text {
    "unknown command `"@ + if args.len() > 0 {
        args[0]
    } else {
        "<empty>"@
    } + "`; run `dotsync --help` for supported commands"@
}

/// What a command comes to.
pub open spec fn acts_as(
    command: Option<Command>,
    interactive: bool,
    action: Result<Action, String>,
) -> bool {
    match (command, action) {
        (None, Ok(Action::Sync)) => true,
        (
            Some(Command::Init { remote_url, parents }),
            Ok(Action::Init { remote_url: remote, parents: named }),
        ) => named == parents && match (remote_url, remote) {
            (Some(url), InitRemote::Provided(given)) => given == url,
            (None, InitRemote::Prompt) => interactive,
            _ => false,
        },
        (Some(Command::Init { remote_url, parents }), Err(said)) => remote_url is None
            && !interactive && said@ == INIT_REMOTE_URL_USAGE@,
        (
            Some(Command::CreateScope { scope, parents, description }),
            Ok(action),
        ) => action == (Action::CreateScope { scope, parents, description }),
        (Some(Command::Commit { scope, message, paths }), Ok(action)) => action == (
        Action::Commit { scope, message, paths }),
        (Some(Command::Discard { paths }), Ok(action)) => action == (Action::Discard { paths }),
        (Some(Command::Continue), Ok(Action::Continue)) => true,
        (Some(Command::Abort), Ok(Action::Abort)) => true,
        (Some(Command::Status), Ok(Action::Status)) => true,
        (Some(Command::Diff), Ok(Action::Diff)) => true,
        (Some(Command::View { scope, file }), Ok(action)) => action == (Action::View {
            scope,
            file,
        }),
        (Some(Command::Unknown(args)), Err(said)) => said@ == unknown_command(texts(args@)),
        _ => false,
    }
}

impl Action {
    /// The action that a command is, or what is wrong with the command line.
    pub fn try_from_cli(command: Option<Command>, interactive: bool) -> (action: Result<
        Action,
        String,
    >)
        ensures
            acts_as(command, interactive, action),
    {
        match command {
            None => Ok(Action::Sync),
            Some(command) => match command {
                Command::Init { remote_url, parents } => match init_remote_from_args(
                    remote_url,
                    interactive,
                ) {
                    Ok(remote_url) => Ok(Action::Init { remote_url, parents }),
                    Err(said) => Err(said),
                },
                Command::CreateScope { scope, parents, description } => Ok(
                    Action::CreateScope { scope, parents, description },
                ),
                Command::Commit { scope, message, paths } => Ok(
                    Action::Commit { scope, message, paths },
                ),
                Command::Discard { paths } => Ok(Action::Discard { paths }),
                Command::Continue => Ok(Action::Continue),
                Command::Abort => Ok(Action::Abort),
                Command::Status => Ok(Action::Status),
                Command::Diff => Ok(Action::Diff),
                Command::View { scope, file } => Ok(Action::View { scope, file }),
                Command::Unknown(args) => {
                    proof {
                        if args@.len() > 0 {
                            assert(texts(args@)[0] == args@[0]@);
                        }
                    }
                    let named = if args.len() > 0 {
                        args[0].as_str()
                    } else {
                        "<empty>"
                    };
                    Err(
                        cat3(
                            "unknown command `",
                            named,
                            "`; run `dotsync --help` for supported commands",
                        ),
                    )
                },
            },
        }
    }
}

/// Whether arguments ask for the version in machine-readable form: that, and
/// nothing else.
pub open spec fn asks_version_json(args: Seq<Text>) -> bool {
    &&& args.contains("--version"@) || args.contains("-V"@)
    &&& args.contains("--json"@)
    &&& forall|i: int|
        0 <= i < args.len() ==> (#[trigger] args[i] == "--version"@ || args[i] == "-V"@ || args[i]
            == "--json"@)
}

/// Whether arguments ask for the version in machine-readable form.
pub fn is_version_json_request(args: &Vec<String>) -> (asked: bool)
    ensures
        asked == asks_version_json(texts(args@)),
{
    let ghost all = texts(args@);
    let mut version = false;
    let mut json = false;
    let mut i: usize = 0;
    while i < args.len()
        invariant
            i <= args.len(),
            all == texts(args@),
            version == exists|j: int|
                0 <= j < i && (#[trigger] all[j] == "--version"@ || all[j] == "-V"@),
            json == exists|j: int| 0 <= j < i && #[trigger] all[j] == "--json"@,
            forall|j: int|
                0 <= j < i ==> (#[trigger] all[j] == "--version"@ || all[j] == "-V"@ || all[j]
                    == "--json"@),
        decreases args.len() - i,
    {
        let arg = args[i].as_str();
        proof {
            assert(all[i as int] == arg@);
        }
        if same_text(arg, "--version") || same_text(arg, "-V") {
            version = true;
        }
        if same_text(arg, "--json") {
            json = true;
        }
        if !same_text(arg, "--version") && !same_text(arg, "-V") && !same_text(arg, "--json") {
            return false;
        }
        i += 1;
    }
    proof {
        if version {
            let j = choose|j: int|
                0 <= j < all.len() && (#[trigger] all[j] == "--version"@ || all[j] == "-V"@);
            assert(all.contains(all[j]));
        }
        if all.contains("--version"@) {
            let j = choose|j: int| 0 <= j < all.len() && all[j] == "--version"@;
            assert(all[j] == "--version"@);
        }
        if all.contains("-V"@) {
            let j = choose|j: int| 0 <= j < all.len() && all[j] == "-V"@;
            assert(all[j] == "-V"@);
        }
    }
    version && json
}

/// Whether arguments ask for answers in JSON.
pub open spec fn asks_json(args: Seq<Text>) -> bool {
    exists|i: int|
        0 <= i < args.len() && (#[trigger] args[i] == "--output=json"@ || (args[i] == "--output"@
            && i + 1 < args.len() && args[i + 1] == "json"@))
}

/// Which format a run answers in, read off the arguments: for a command line
/// that could not be parsed there is nothing else to ask.
pub fn output_format_from_args(args: &Vec<String>) -> (format: OutputFormat)
    ensures
        format == if asks_json(texts(args@)) {
            OutputFormat::Json
        } else {
            OutputFormat::Human
        },
{
    let ghost all = texts(args@);
    let mut i: usize = 0;
    while i < args.len()
        invariant
            i <= args.len(),
            all == texts(args@),
            forall|j: int|
                0 <= j < i ==> !(#[trigger] all[j] == "--output=json"@ || (all[j] == "--output"@
                    && j + 1 < all.len() && all[j + 1] == "json"@)),
        decreases args.len() - i,
    {
        let arg = args[i].as_str();
        proof {
            assert(all[i as int] == arg@);
            if i + 1 < args.len() {
                assert(all[i + 1] == args@[i + 1]@);
            }
        }
        if same_text(arg, "--output=json") {
            return OutputFormat::Json;
        }
        if same_text(arg, "--output") && i + 1 < args.len() && same_text(
            args[i + 1].as_str(),
            "json",
        ) {
            return OutputFormat::Json;
        }
        i += 1;
    }
    OutputFormat::Human
}

/// Where the hidden repo is, under home.
pub const REPO_UNDER_HOME: &'static str = ".local/share/dotsync/repo";

/// The directories a run works with.
pub fn discover_paths(home: Option<FilePath>) -> (paths: Result<DotsyncPaths, DotsyncError>)
    ensures
        match home {
            None => paths == Err::<DotsyncPaths, DotsyncError>(DotsyncError::HomeNotSet),
            Some(home) => paths matches Ok(paths) && paths.home_dir == home
                && paths.repo_root.text@ == joined_path(home.text@, REPO_UNDER_HOME@),
        },
{
    match home {
        None => Err(DotsyncError::HomeNotSet),
        Some(home_dir) => {
            let repo_root = home_dir.join(&FilePath::new(REPO_UNDER_HOME));
            Ok(DotsyncPaths { repo_root, home_dir })
        },
    }
}

/// A command line that never started a run, as the stop it still is.
pub open spec fn usage_view(message: Text) -> ExplanationView {
    ExplanationView {
        code: "usage"@,
        message,
        paused_cascade: None,
        current_state: Seq::empty(),
        conflicts: Seq::empty(),
        teaching: None,
    }
}

/// A command line that never started a run, as the stop it still is.
pub fn usage_error(message: &str) -> (stop: Explanation)
    ensures
        stop@ == usage_view(message@),
{
    let stop = Explanation {
        code: "usage",
        message: message.to_owned(),
        paused_cascade: None,
        current_state: Vec::new(),
        conflicts: Vec::new(),
        teaching: None,
    };
    proof {
        assert(stop@.current_state =~= Seq::<Text>::empty());
        assert(stop@.conflicts =~= Seq::<ConflictedFileView>::empty());
    }
    stop
}

/// A human-readable answer, and the stream it belongs on.
#[derive(Debug)]
pub enum HumanOutput {
    /// The answer is the output: a caller may pipe it into something.
    Stdout(String),
    /// A report about what the run did.
    Message(String),
}

/// What a run that worked says.
#[derive(Debug)]
pub struct SuccessOutput {
    pub json: Object,
    /// The same answer for a person.
    pub human: HumanOutput,
    /// Said alongside the answer, in every format.
    pub notes: Vec<String>,
    pub exit_code: i32,
}

/// A human-readable answer as contracts see it.
pub enum HumanView {
    Stdout(Text),
    Message(Text),
}

/// What a run that worked says, as contracts see it.
pub struct SuccessView {
    pub json: Seq<(Text, PayloadView)>,
    pub human: HumanView,
    pub notes: Seq<Text>,
    pub exit_code: int,
}

impl View for SuccessOutput {
    type V = SuccessView;

    open spec fn view(&self) -> SuccessView {
        SuccessView {
            json: self.json@,
            human: match self.human {
                HumanOutput::Stdout(text) => HumanView::Stdout(text@),
                HumanOutput::Message(text) => HumanView::Message(text@),
            },
            notes: texts(self.notes@),
            exit_code: self.exit_code as int,
        }
    }
}

impl SuccessOutput {
    /// A run that reports what it did.
    pub fn message(json: Object, message: String) -> (output: SuccessOutput)
        ensures
            output@ == (SuccessView {
                json: json@,
                human: HumanView::Message(message@),
                notes: Seq::empty(),
                exit_code: 0,
            }),
    {
        SuccessOutput { json, human: HumanOutput::Message(message), notes: no_texts(), exit_code: 0 }
    }

    /// A run whose answer is its output.
    pub fn stdout(json: Object, stdout: String) -> (output: SuccessOutput)
        ensures
            output@ == (SuccessView {
                json: json@,
                human: HumanView::Stdout(stdout@),
                notes: Seq::empty(),
                exit_code: 0,
            }),
    {
        SuccessOutput { json, human: HumanOutput::Stdout(stdout), notes: no_texts(), exit_code: 0 }
    }

    /// Adds to what this run has to say.
    pub fn with_notes(self, notes: &Vec<String>) -> (output: SuccessOutput)
        ensures
            output@ == (SuccessView { notes: self@.notes + texts(notes@), ..self@ }),
    {
        let mut output = self;
        add_texts(&mut output.notes, notes);
        output
    }
}

/// The paths of some drifts.
pub open spec fn drift_paths(drifts: Seq<FileDrift>) -> Seq<Text> {
    drifts.map_values(|d: FileDrift| d.repo_path.text@)
}

fn shown_drifts(drifts: &Vec<FileDrift>) -> (paths: Vec<String>)
    ensures
        texts(paths@) == drift_paths(drifts@),
{
    let mut paths: Vec<String> = Vec::new();
    let mut i: usize = 0;
    while i < drifts.len()
        invariant
            i <= drifts.len(),
            paths.len() == i,
            forall|j: int| 0 <= j < i ==> (#[trigger] paths@[j])@ == drifts@[j].repo_path.text@,
        decreases drifts.len() - i,
    {
        paths.push(drifts[i].repo_path.text.clone());
        i += 1;
    }
    proof {
        assert(texts(paths@) =~= drift_paths(drifts@));
    }
    paths
}

/// What a command says whose job is to bring home up to its scope.
pub open spec fn synced_view(
    command: Text,
    headline: Text,
    sync: SyncReport,
    push: Option<PushReport>,
) -> SuccessView {
    let fields = seq![
        ("status"@, shown("ok"@)),
        ("command"@, shown(command)),
        ("machine_scope"@, shown(sync.current_scope@)),
        ("synced_files"@, shown_list(path_texts(sync.synced_paths@))),
        ("overwritten_files"@, shown_list(drift_paths(sync.drifts@))),
        ("carried_changes"@, changes_view(sync.carried_changes@)),
    ];
    SuccessView {
        json: match push {
            Some(push) => with_field(fields, "unpushed_scopes"@, shown_list(left_behind(push))),
            None => fields,
        },
        human: HumanView::Message(headline),
        notes: carried_lines(sync.carried_changes@) + success_lines(sync.drifts@, push),
        exit_code: 0,
    }
}

/// What a command says whose job is to bring home up to its scope. They differ
/// in what they did to get there and in nothing else they report.
pub fn synced_output(
    command: &str,
    headline: String,
    sync: &SyncReport,
    push: Option<&PushReport>,
) -> (output: SuccessOutput)
    ensures
        output@ == synced_view(
            command@,
            headline@,
            *sync,
            match push {
                Some(push) => Some(*push),
                None => None,
            },
        ),
{
    let synced = display_paths(&sync.synced_paths);
    let overwritten = shown_drifts(&sync.drifts);
    let object = Object::new().field("status", Payload::text("ok")).field(
        "command",
        Payload::text(command),
    ).field("machine_scope", Payload::text(sync.current_scope.as_str())).field(
        "synced_files",
        Payload::texts(&synced),
    ).field("overwritten_files", Payload::texts(&overwritten)).field(
        "carried_changes",
        changes_json(&sync.carried_changes),
    );
    proof {
        assert(object@ =~= seq![
            ("status"@, shown("ok"@)),
            ("command"@, shown(command@)),
            ("machine_scope"@, shown(sync.current_scope@)),
            ("synced_files"@, shown_list(path_texts(sync.synced_paths@))),
            ("overwritten_files"@, shown_list(drift_paths(sync.drifts@))),
            ("carried_changes"@, changes_view(sync.carried_changes@)),
        ]);
    }
    let json = match push {
        Some(push) => {
            let unpushed = push.unpushed_scopes();
            object.with("unpushed_scopes", Payload::texts(&unpushed))
        },
        None => object,
    };
    let mut notes = carried_change_notes(&sync.carried_changes);
    let more = success_notes(&sync.drifts, push);
    add_texts(&mut notes, &more);
    SuccessOutput { json, human: HumanOutput::Message(headline), notes, exit_code: 0 }
}

/// A command that publishes never omits what it left unpublished: it says so to
/// people and to machines.
pub proof fn law_what_is_not_published_is_said(
    command: Text,
    headline: Text,
    sync: SyncReport,
    push: PushReport,
)
    requires
        left_behind(push).len() > 0,
    ensures
        push_lines(push).len() > 0,
        forall|k: int|
            0 <= k < push_lines(push).len() ==> synced_view(
                command,
                headline,
                sync,
                Some(push),
            ).notes.contains(#[trigger] push_lines(push)[k]),
        synced_view(command, headline, sync, Some(push)).json.contains(
            ("unpushed_scopes"@, shown_list(left_behind(push))),
        ),
{
    let said = synced_view(command, headline, sync, Some(push));
    let carried = carried_lines(sync.carried_changes@);
    assert forall|k: int| 0 <= k < push_lines(push).len() implies said.notes.contains(
        #[trigger] push_lines(push)[k],
    ) by {
        assert(said.notes[carried.len() + k] == push_lines(push)[k]);
    }
    lemma_with_field(
        synced_view(command, headline, sync, None).json,
        "unpushed_scopes"@,
        shown_list(left_behind(push)),
    );
}

/// What `init` says.
pub open spec fn init_view(report: InitReport) -> SuccessView {
    synced_view(
        "init"@,
        "dotsync: initialized "@ + report.sync.current_scope@ + " and synced "@ + decimal(
            report.sync.synced_paths@.len(),
        ) + " file(s)"@,
        report.sync,
        Some(report.push),
    )
}

/// What `init` says.
pub fn render_init(report: &InitReport) -> (output: SuccessOutput)
    ensures
        output@ == init_view(*report),
{
    let count = decimal_text(report.sync.synced_paths.len());
    let headline = cat5(
        "dotsync: initialized ",
        report.sync.current_scope.as_str(),
        " and synced ",
        count.as_str(),
        " file(s)",
    );
    synced_output("init", headline, &report.sync, Some(&report.push))
}

/// What a plain run says.
pub open spec fn sync_view(report: SyncCommandReport) -> SuccessView {
    synced_view(
        "sync"@,
        "dotsync: synced "@ + decimal(report.sync.synced_paths@.len()) + " file(s) for "@
            + report.sync.current_scope@,
        report.sync,
        Some(report.push),
    )
}

/// What a plain run says.
pub fn render_sync(report: &SyncCommandReport) -> (output: SuccessOutput)
    ensures
        output@ == sync_view(*report),
{
    let count = decimal_text(report.sync.synced_paths.len());
    let headline = cat4(
        "dotsync: synced ",
        count.as_str(),
        " file(s) for ",
        report.sync.current_scope.as_str(),
    );
    synced_output("sync", headline, &report.sync, Some(&report.push))
}

/// What `discard` says.
pub open spec fn discard_view(report: SyncCommandReport) -> SuccessView {
    synced_view(
        "discard"@,
        "dotsync: discarded "@ + decimal(report.sync.drifts@.len())
            + " local change(s) and synced "@ + decimal(report.sync.synced_paths@.len())
            + " file(s) for "@ + report.sync.current_scope@,
        report.sync,
        Some(report.push),
    )
}

/// What `discard` says.
pub fn render_discard(report: &SyncCommandReport) -> (output: SuccessOutput)
    ensures
        output@ == discard_view(*report),
{
    let dropped = decimal_text(report.sync.drifts.len());
    let count = decimal_text(report.sync.synced_paths.len());
    let front = cat4(
        "dotsync: discarded ",
        dropped.as_str(),
        " local change(s) and synced ",
        count.as_str(),
    );
    let headline = cat3(front.as_str(), " file(s) for ", report.sync.current_scope.as_str());
    synced_output("discard", headline, &report.sync, Some(&report.push))
}

/// What `create-scope` says.
pub open spec fn created_view(report: CreatedScope) -> SuccessView {
    SuccessView {
        json: seq![
            ("status"@, shown("ok"@)),
            ("command"@, shown("create-scope"@)),
            ("scope"@, shown(report.scope@)),
            ("parents"@, shown_list(texts(report.parents@))),
        ],
        human: HumanView::Message(
            "dotsync: created scope "@ + report.scope@ + " under "@ + joined(
                texts(report.parents@),
                ", "@,
            ),
        ),
        notes: push_lines(report.push),
        exit_code: 0,
    }
}

/// What `create-scope` says.
pub fn render_created_scope(report: &CreatedScope) -> (output: SuccessOutput)
    ensures
        output@ == created_view(*report),
{
    let parents = join(&report.parents, ", ");
    let json = Object::new().field("status", Payload::text("ok")).field(
        "command",
        Payload::text("create-scope"),
    ).field("scope", Payload::text(report.scope.as_str())).field(
        "parents",
        Payload::texts(&report.parents),
    );
    let notes = push_notes(&report.push);
    let output = SuccessOutput::message(
        json,
        cat4("dotsync: created scope ", report.scope.as_str(), " under ", parents.as_str()),
    ).with_notes(&notes);
    proof {
        assert(output@.json =~= created_view(*report).json);
        assert(output@.notes =~= created_view(*report).notes);
    }
    output
}

/// What `continue` says.
pub open spec fn continue_view(report: ContinueReport) -> SuccessView {
    let count = decimal(report.sync.synced_paths@.len());
    let output = synced_view(
        "continue"@,
        match report.resumed {
            Resumed::Cascade { scope, borrowed_from } => "dotsync: recorded your version on `"@
                + scope@ + "` and synced "@ + count + " file(s)"@,
            Resumed::SyncConflict =>
                "dotsync: took your version of the conflicted file(s) and synced "@ + count
                + " file(s)"@,
        },
        report.sync,
        Some(report.push),
    );
    match report.resumed {
        Resumed::Cascade { scope, borrowed_from: Some(machine) } => SuccessView {
            notes: output.notes + seq![
                "dotsync: the conflicted file(s) held `"@ + scope@
                    + "`'s merge while you resolved it; `"@ + machine@
                    + "`'s own version is back in home now, and `"@ + scope@
                    + "` has your resolution."@,
            ],
            ..output
        },
        _ => output,
    }
}

/// What `continue` says. Handing borrowed files back reads exactly like losing
/// work, so the run says what makes it not that.
pub fn render_continue(report: &ContinueReport) -> (output: SuccessOutput)
    ensures
        output@ == continue_view(*report),
{
    let count = decimal_text(report.sync.synced_paths.len());
    let headline = match &report.resumed {
        Resumed::Cascade { scope, borrowed_from } => cat5(
            "dotsync: recorded your version on `",
            scope.as_str(),
            "` and synced ",
            count.as_str(),
            " file(s)",
        ),
        Resumed::SyncConflict => cat3(
            "dotsync: took your version of the conflicted file(s) and synced ",
            count.as_str(),
            " file(s)",
        ),
    };
    let output = synced_output("continue", headline, &report.sync, Some(&report.push));
    match &report.resumed {
        Resumed::Cascade { scope, borrowed_from } => match borrowed_from {
            Some(machine) => {
                let front = cat5(
                    "dotsync: the conflicted file(s) held `",
                    scope.as_str(),
                    "`'s merge while you resolved it; `",
                    machine.as_str(),
                    "`'s own version is back in home now, and `",
                );
                let note = cat3(front.as_str(), scope.as_str(), "` has your resolution.");
                output.with_notes(&list1(note))
            },
            None => output,
        },
        Resumed::SyncConflict => output,
    }
}

pub const STILL_PAUSED_ADVICE: &'static str = "dotsync: aborting again will not clear it — edit the conflicted file(s) in home to the merged contents you want and run `dotsync continue`.";

/// What `abort` says.
pub open spec fn abort_view(report: AbortReport) -> SuccessView {
    let count = decimal(report.sync.synced_paths@.len());
    let output = synced_view(
        "abort"@,
        match report.still_paused {
            None => "dotsync: discarded the merge paused at `"@ + report.paused_scope@
                + "` and synced "@ + count + " file(s)"@,
            Some(scope) => "dotsync: put home back and synced "@ + count
                + " file(s); the merge at `"@ + scope@ + "` is still waiting"@,
        },
        report.sync,
        None,
    );
    let json = with_field(output.json, "paused_scope"@, shown(report.paused_scope@));
    match report.still_paused {
        None => SuccessView { json, ..output },
        Some(scope) => SuccessView {
            json: with_field(json, "paused_cascade"@, shown(scope@)),
            notes: output.notes + seq![
                "dotsync: the conflict at `"@ + scope@
                    + "` came from the remote rather than from anything this machine committed, so there was nothing to take back and it is still waiting"@,
                STILL_PAUSED_ADVICE@,
            ],
            exit_code: 1,
            ..output
        },
    }
}

/// What `abort` says. Where the merge it was asked to end is still waiting, it
/// says so and exits with the code that means it did not do what it says.
pub fn render_abort(report: &AbortReport) -> (output: SuccessOutput)
    ensures
        output@ == abort_view(*report),
{
    let count = decimal_text(report.sync.synced_paths.len());
    let headline = match &report.still_paused {
        None => cat5(
            "dotsync: discarded the merge paused at `",
            report.paused_scope.as_str(),
            "` and synced ",
            count.as_str(),
            " file(s)",
        ),
        Some(scope) => cat5(
            "dotsync: put home back and synced ",
            count.as_str(),
            " file(s); the merge at `",
            scope.as_str(),
            "` is still waiting",
        ),
    };
    let output = synced_output("abort", headline, &report.sync, None);
    let json = output.json.with("paused_scope", Payload::text(report.paused_scope.as_str()));
    match &report.still_paused {
        None => SuccessOutput { json, ..output },
        Some(scope) => {
            let note = cat3(
                "dotsync: the conflict at `",
                scope.as_str(),
                "` came from the remote rather than from anything this machine committed, so there was nothing to take back and it is still waiting",
            );
            let json = json.with("paused_cascade", Payload::text(scope.as_str()));
            let notes = list2(note, STILL_PAUSED_ADVICE.to_owned());
            let waiting = SuccessOutput {
                json,
                human: output.human,
                notes: output.notes,
                exit_code: 1,
            };
            waiting.with_notes(&notes)
        },
    }
}

/// A command is done as it was typed: with every parent, path and word that was
/// given, and nothing made up. Only a command that dotsync does not have, and an
/// `init` that says no remote where nobody can be asked, are refused.
pub proof fn law_a_command_is_done_as_it_was_typed(
    command: Option<Command>,
    interactive: bool,
    action: Result<Action, String>,
)
    requires
        acts_as(command, interactive, action),
    ensures
        action is Err <==> command is Some && (command->Some_0 is Unknown || (
        command->Some_0 is Init && command->Some_0->Init_remote_url is None && !interactive)),
        action is Ok && action->Ok_0 is Sync <==> command is None,
        action is Ok && action->Ok_0 is Init ==> command is Some && command->Some_0 is Init
            && action->Ok_0->Init_parents == command->Some_0->Init_parents && (
        command->Some_0->Init_remote_url is Some ==> action->Ok_0->Init_remote_url
            == InitRemote::Provided(command->Some_0->Init_remote_url->Some_0)) && (
        command->Some_0->Init_remote_url is None ==> action->Ok_0->Init_remote_url is Prompt),
        action is Ok && action->Ok_0 is CreateScope ==> command is Some
            && command->Some_0 is CreateScope && action->Ok_0->CreateScope_scope
            == command->Some_0->CreateScope_scope && action->Ok_0->CreateScope_parents
            == command->Some_0->CreateScope_parents && action->Ok_0->CreateScope_description
            == command->Some_0->CreateScope_description,
        action is Ok && action->Ok_0 is Commit ==> command is Some && command->Some_0 is Commit
            && action->Ok_0->Commit_scope == command->Some_0->Commit_scope
            && action->Ok_0->Commit_message == command->Some_0->Commit_message
            && action->Ok_0->Commit_paths == command->Some_0->Commit_paths,
        action is Ok && action->Ok_0 is Discard ==> command is Some && command->Some_0 is Discard
            && action->Ok_0->Discard_paths == command->Some_0->Discard_paths,
        action is Ok && action->Ok_0 is View ==> command is Some && command->Some_0 is View
            && action->Ok_0->View_scope == command->Some_0->View_scope && action->Ok_0->View_file
            == command->Some_0->View_file,
        action is Ok && action->Ok_0 is Continue ==> command == Some(Command::Continue),
        action is Ok && action->Ok_0 is Abort ==> command == Some(Command::Abort),
        action is Ok && action->Ok_0 is Status ==> command == Some(Command::Status),
        action is Ok && action->Ok_0 is Diff ==> command == Some(Command::Diff),
{
}

/// JSON is asked for in either spelling, wherever among the arguments it stands, and
/// the version in JSON only by arguments that ask for nothing else.
pub proof fn law_json_is_asked_for_anywhere(before: Seq<Text>, after: Seq<Text>)
    ensures
        asks_json(before + seq!["--output=json"@] + after),
        asks_json(before + seq!["--output"@, "json"@] + after),
        asks_json(after) ==> asks_json(before + after),
        asks_version_json(seq!["--version"@, "--json"@]),
        asks_version_json(seq!["--json"@, "-V"@]),
        !asks_version_json(before + seq!["status"@] + after),
        !before.contains("--json"@) ==> !asks_version_json(before),
        !before.contains("--version"@) && !before.contains("-V"@) ==> !asks_version_json(before),
        (forall|i: int| 0 <= i < before.len() ==> #[trigger] before[i] != "--output=json"@)
            && !before.contains("json"@) ==> !asks_json(before),
{
    let one = before + seq!["--output=json"@] + after;
    assert(one[before.len() as int] == "--output=json"@);
    let two = before + seq!["--output"@, "json"@] + after;
    assert(two[before.len() as int] == "--output"@);
    assert(two[before.len() as int + 1] == "json"@);
    if asks_json(after) {
        let i = choose|i: int|
            0 <= i < after.len() && (#[trigger] after[i] == "--output=json"@ || (after[i]
                == "--output"@ && i + 1 < after.len() && after[i + 1] == "json"@));
        let all = before + after;
        assert(all[before.len() + i] == after[i]);
        if i + 1 < after.len() {
            assert(all[before.len() + i + 1] == after[i + 1]);
        }
    }
    let version = seq!["--version"@, "--json"@];
    assert(version[0] == "--version"@ && version[1] == "--json"@);
    let short = seq!["--json"@, "-V"@];
    assert(short[0] == "--json"@ && short[1] == "-V"@);
    reveal_strlit("status");
    reveal_strlit("--version");
    reveal_strlit("--json");
    reveal_strlit("-V");
    assert("status"@[0] == 's' && "--version"@[0] == '-' && "--json"@[0] == '-' && "-V"@[0] == '-');
    let other = before + seq!["status"@] + after;
    assert(other[before.len() as int] == "status"@);
}

} // verus!
