//! What the commands that look answer, what a commit says, and what is finally
//! printed where.
use vstd::prelude::*;
use vstd::string::*;
use crate::cli::{
    HumanOutput, HumanView, OutputFormat, SuccessOutput, SuccessView,
};
use crate::commit::CommitReport;
use crate::error::{explanation, file_views, path_texts, DotsyncError, Explanation, ExplanationView};
use crate::inspect::{info_views, DiffReport, ScopeInfo, ScopeInfoView, ViewAnswer, ViewReport};
use crate::paths::FilePath;
use crate::payload::{
    payload_views, shown, shown_list, shown_opt, with_field, Object, Payload, PayloadView,
};
use crate::render::{
    change_lines, changes_json, changes_view, conflicts_json, conflicts_lines, conflicts_view,
    decoded, display_paths, diverged_lines, diverged_scope_notes, drift_view, drifts_lines,
    error_text, error_view, lossy_text, newly_tracked_lines, newly_tracked_notes,
    paused_cascade_notes, paused_lines, push_lines, push_notes, remote_fields, render_change_lines,
    render_conflicts_human, render_drift_json, render_drifts_human, render_error_human,
    render_error_json, skipped_lines, skipped_path_notes, skipped_paths_json, skipped_view,
    success_lines, success_notes, unpushed_lines, unpushed_scope_notes, unreachable_lines,
    unreachable_remote_notes, with_remote_state,
};
use crate::repo::left_behind;
use crate::session::{opt_reason, UnreachableRemote};
use crate::status::{MachineState, StatusReport};
use crate::sync::FileDrift;
use crate::text::{
    add_texts, cat2, cat3, cat4, cat5, decimal, decimal_text, join, joined, lemma_texts_push,
    list1, list3, no_texts, opt_str, opt_text, same_text, texts, Text,
};

verus! {

pub const NEW_FILE_ADVICE: &'static str = "dotsync: a file dotsync does not track yet is not a change to it, so a commit naming no paths never adds one. Name the file, or the directory it is in, to start tracking it.";

/// What both outcomes of a commit report.
pub open spec fn commit_fields(report: CommitReport) -> Seq<(Text, PayloadView)> {
    seq![
        ("status"@, shown("ok"@)),
        ("command"@, shown("commit"@)),
        (
            "outcome"@,
            shown(
                if report.recorded is Some {
                    "committed"@
                } else {
                    "nothing_to_commit"@
                },
            ),
        ),
        ("scope"@, shown(report.committed_scope@)),
        ("machine_scope"@, shown(report.machine_scope@)),
        ("skipped_paths"@, skipped_view(report.skipped@)),
        ("unpushed_scopes"@, shown_list(left_behind(report.push))),
    ]
}

/// What a commit says.
pub open spec fn commit_view(report: CommitReport, named_paths: bool) -> SuccessView {
    let skipped = skipped_lines(report.skipped@);
    match report.recorded {
        None => SuccessView {
            json: commit_fields(report),
            human: HumanView::Message(
                "dotsync: nothing to record on `"@ + report.committed_scope@
                    + "`; no commit was made and home was not synced"@,
            ),
            notes: skipped + if named_paths {
                Seq::empty()
            } else {
                seq![NEW_FILE_ADVICE@]
            } + push_lines(report.push),
            exit_code: 0,
        },
        Some(recorded) => SuccessView {
            json: with_field(
                with_field(
                    commit_fields(report),
                    "synced_files"@,
                    shown_list(path_texts(recorded.sync.synced_paths@)),
                ),
                "newly_tracked"@,
                shown_list(path_texts(recorded.newly_tracked@)),
            ),
            human: HumanView::Message(
                "dotsync: committed "@ + report.committed_scope@ + " and synced "@ + decimal(
                    recorded.sync.synced_paths@.len(),
                ) + " file(s)"@,
            ),
            notes: newly_tracked_lines(recorded.newly_tracked@) + skipped + success_lines(
                recorded.sync.drifts@,
                Some(report.push),
            ),
            exit_code: 0,
        },
    }
}

/// What a commit says: which of its two outcomes it had, and what only that one
/// can honestly say. `named_paths` is whether the caller named anything.
pub fn render_commit_success(report: &CommitReport, named_paths: bool) -> (output: SuccessOutput)
    ensures
        output@ == commit_view(*report, named_paths),
{
    let outcome = if report.recorded.is_some() {
        "committed"
    } else {
        "nothing_to_commit"
    };
    let unpushed = report.push.unpushed_scopes();
    let json = Object::new().field("status", Payload::text("ok")).field(
        "command",
        Payload::text("commit"),
    ).field("outcome", Payload::text(outcome)).field(
        "scope",
        Payload::text(report.committed_scope.as_str()),
    ).field("machine_scope", Payload::text(report.machine_scope.as_str())).field(
        "skipped_paths",
        skipped_paths_json(&report.skipped),
    ).field("unpushed_scopes", Payload::texts(&unpushed));
    proof {
        assert(json@ =~= commit_fields(*report));
    }
    let skipped = skipped_path_notes(&report.skipped);
    match &report.recorded {
        None => {
            let mut notes = skipped;
            if !named_paths {
                add_texts(&mut notes, &list1(NEW_FILE_ADVICE.to_owned()));
            } else {
                proof {
                    assert(texts(notes@) + Seq::<Text>::empty() =~= texts(notes@));
                }
            }
            add_texts(&mut notes, &push_notes(&report.push));
            let output = SuccessOutput::message(
                json,
                cat3(
                    "dotsync: nothing to record on `",
                    report.committed_scope.as_str(),
                    "`; no commit was made and home was not synced",
                ),
            ).with_notes(&notes);
            proof {
                assert(output@.notes =~= commit_view(*report, named_paths).notes);
            }
            output
        },
        Some(recorded) => {
            let synced = display_paths(&recorded.sync.synced_paths);
            let new_paths = display_paths(&recorded.newly_tracked);
            let json = json.with("synced_files", Payload::texts(&synced)).with(
                "newly_tracked",
                Payload::texts(&new_paths),
            );
            let mut notes = newly_tracked_notes(&recorded.newly_tracked);
            add_texts(&mut notes, &skipped);
            add_texts(&mut notes, &success_notes(&recorded.sync.drifts, Some(&report.push)));
            let count = decimal_text(recorded.sync.synced_paths.len());
            let output = SuccessOutput::message(
                json,
                cat5(
                    "dotsync: committed ",
                    report.committed_scope.as_str(),
                    " and synced ",
                    count.as_str(),
                    " file(s)",
                ),
            ).with_notes(&notes);
            proof {
                assert(output@.notes =~= commit_view(*report, named_paths).notes);
            }
            output
        },
    }
}

/// The scope a machine waits at.
pub open spec fn waits_at(machine: MachineState) -> Option<Text> {
    match machine.paused_cascade {
        Some(paused) => Some(paused.scope@),
        None => None,
    }
}

/// An answer with what is true of the machine, whatever was asked.
pub open spec fn machine_view(
    answer: SuccessView,
    machine_scope: Text,
    machine: MachineState,
) -> SuccessView {
    let scoped = with_field(answer.json, "machine_scope"@, shown(machine_scope));
    let paused = match waits_at(machine) {
        Some(scope) => with_field(scoped, "paused_cascade"@, shown(scope)),
        None => scoped,
    };
    SuccessView {
        json: with_field(
            with_field(
                paused,
                "diverged_scopes"@,
                shown_list(texts(machine.diverged_scopes@)),
            ),
            "unpushed_scopes"@,
            shown_list(texts(machine.unpushed_scopes@)),
        ),
        notes: answer.notes + (paused_lines(waits_at(machine)) + diverged_lines(
            texts(machine.diverged_scopes@),
        ) + unpushed_lines(texts(machine.unpushed_scopes@))),
        ..answer
    }
}

/// An answer with what is true of the machine, whatever was asked: one function
/// for every command that looks, so that none of them leaves a fact out.
pub fn with_machine_state(
    answer: SuccessOutput,
    machine_scope: &str,
    machine: &MachineState,
) -> (output: SuccessOutput)
    ensures
        output@ == machine_view(answer@, machine_scope@, *machine),
{
    let scoped = answer.json.with("machine_scope", Payload::text(machine_scope));
    let waiting = match &machine.paused_cascade {
        Some(paused) => Some(paused.scope.as_str()),
        None => None,
    };
    let paused = match waiting {
        Some(scope) => scoped.with("paused_cascade", Payload::text(scope)),
        None => scoped,
    };
    let json = paused.with("diverged_scopes", Payload::texts(&machine.diverged_scopes)).with(
        "unpushed_scopes",
        Payload::texts(&machine.unpushed_scopes),
    );
    let mut notes = paused_cascade_notes(waiting);
    add_texts(&mut notes, &diverged_scope_notes(&machine.diverged_scopes));
    add_texts(&mut notes, &unpushed_scope_notes(&machine.unpushed_scopes));
    let output = SuccessOutput {
        json,
        human: answer.human,
        notes: answer.notes,
        exit_code: answer.exit_code,
    };
    output.with_notes(&notes)
}

/// An answer with the conflict a machine is paused on, printed again.
pub open spec fn reprinted(answer: SuccessView, machine: MachineState) -> SuccessView {
    match machine.paused_cascade {
        Some(paused) if paused.conflicts@.len() > 0 => SuccessView {
            json: with_field(
                answer.json,
                "conflicts"@,
                conflicts_view(file_views(paused.conflicts@)),
            ),
            notes: answer.notes + (seq![
                "dotsync: the merge at `"@ + paused.scope@ + "` is waiting on these file(s)"@,
            ] + conflicts_lines(file_views(paused.conflicts@))),
            ..answer
        },
        _ => answer,
    }
}

/// An answer with the conflict a machine is paused on, printed again: the
/// versions exist nowhere else.
pub fn reprinting_any_conflict(answer: SuccessOutput, machine: &MachineState) -> (output:
    SuccessOutput)
    ensures
        output@ == reprinted(answer@, *machine),
{
    match &machine.paused_cascade {
        None => answer,
        Some(paused) => {
            if paused.conflicts.is_empty() {
                return answer;
            }
            let json = answer.json.with("conflicts", conflicts_json(&paused.conflicts));
            let mut notes = list1(
                cat3(
                    "dotsync: the merge at `",
                    paused.scope.as_str(),
                    "` is waiting on these file(s)",
                ),
            );
            add_texts(&mut notes, &render_conflicts_human(&paused.conflicts));
            let output = SuccessOutput {
                json,
                human: answer.human,
                notes: answer.notes,
                exit_code: answer.exit_code,
            };
            output.with_notes(&notes)
        },
    }
}

/// The header `status` and `diff` share.
pub open spec fn changed_header(count: nat, machine_scope: Text) -> Text {
    "dotsync: "@ + decimal(count) + " changed managed file(s) for "@ + machine_scope
}

/// The header `status` and `diff` share: same count, same words.
pub fn changed_files_header(count: usize, machine_scope: &str) -> (text: String)
    ensures
        text@ == changed_header(count as nat, machine_scope@),
{
    cat4("dotsync: ", decimal_text(count).as_str(), " changed managed file(s) for ", machine_scope)
}

/// The lines of `status`.
pub open spec fn status_lines(report: StatusReport) -> Seq<Text> {
    let changed = if report.changes@.len() > 0 {
        seq![changed_header(report.changes@.len(), report.machine_scope@)] + change_lines(
            report.changes@,
        )
    } else {
        Seq::empty()
    };
    let incoming = if report.incoming@.len() > 0 {
        seq![
            "dotsync: "@ + decimal(report.incoming@.len()) + " incoming file(s) for "@
                + report.machine_scope@ + " — plain `dotsync` applies these"@,
        ] + change_lines(report.incoming@)
    } else {
        Seq::empty()
    };
    changed + incoming
}

/// `status`, for a person.
pub open spec fn status_text(report: StatusReport) -> Text {
    if status_lines(report).len() == 0 {
        "dotsync: no changes for "@ + report.machine_scope@
    } else {
        joined(status_lines(report), "\n"@)
    }
}

/// `status`, for a person.
pub fn render_status_human(report: &StatusReport) -> (text: String)
    ensures
        text@ == status_text(*report),
{
    let mut lines = no_texts();
    if !report.changes.is_empty() {
        add_texts(
            &mut lines,
            &list1(changed_files_header(report.changes.len(), report.machine_scope.as_str())),
        );
        add_texts(&mut lines, &render_change_lines(&report.changes));
    }
    let ghost first = texts(lines@);
    if !report.incoming.is_empty() {
        let header = cat5(
            "dotsync: ",
            decimal_text(report.incoming.len()).as_str(),
            " incoming file(s) for ",
            report.machine_scope.as_str(),
            " — plain `dotsync` applies these",
        );
        add_texts(&mut lines, &list1(header));
        add_texts(&mut lines, &render_change_lines(&report.incoming));
    }
    proof {
        assert(texts(lines@) =~= status_lines(*report));
        assert(texts(lines@).len() == lines.len());
    }
    if lines.is_empty() {
        return cat2("dotsync: no changes for ", report.machine_scope.as_str());
    }
    join(&lines, "\n")
}

/// What `status` says.
pub open spec fn status_view(report: StatusReport) -> SuccessView {
    machine_view(
        SuccessView {
            json: seq![
                ("status"@, shown("ok"@)),
                ("command"@, shown("status"@)),
                ("changes"@, changes_view(report.changes@)),
                ("incoming"@, changes_view(report.incoming@)),
            ],
            human: HumanView::Message(status_text(report)),
            notes: Seq::empty(),
            exit_code: 0,
        },
        report.machine_scope@,
        report.machine,
    )
}

/// What `status` says.
pub fn render_status(report: &StatusReport) -> (output: SuccessOutput)
    ensures
        output@ == status_view(*report),
{
    let json = Object::new().field("status", Payload::text("ok")).field(
        "command",
        Payload::text("status"),
    ).field("changes", changes_json(&report.changes)).field(
        "incoming",
        changes_json(&report.incoming),
    );
    proof {
        assert(json@ =~= seq![
            ("status"@, shown("ok"@)),
            ("command"@, shown("status"@)),
            ("changes"@, changes_view(report.changes@)),
            ("incoming"@, changes_view(report.incoming@)),
        ]);
    }
    with_machine_state(
        SuccessOutput::message(json, render_status_human(report)),
        report.machine_scope.as_str(),
        &report.machine,
    )
}

/// `diff`, for a person.
pub open spec fn diff_text(report: DiffReport) -> Text {
    if report.drifts@.len() == 0 {
        "dotsync: no changes for "@ + report.machine_scope@
    } else {
        joined(
            seq![changed_header(report.drifts@.len(), report.machine_scope@)] + drifts_lines(
                report.drifts@,
            ),
            "\n"@,
        )
    }
}

/// `diff`, for a person: `status`'s list, with each file's two sides under it.
pub fn render_diff_human(report: &DiffReport) -> (text: String)
    ensures
        text@ == diff_text(*report),
{
    if report.drifts.is_empty() {
        return cat2("dotsync: no changes for ", report.machine_scope.as_str());
    }
    let mut lines = list1(
        changed_files_header(report.drifts.len(), report.machine_scope.as_str()),
    );
    add_texts(&mut lines, &render_drifts_human(&report.drifts));
    join(&lines, "\n")
}

/// The drifts of `diff`, for a machine.
pub open spec fn drifts_view(drifts: Seq<FileDrift>) -> PayloadView {
    PayloadView::List(drifts.map_values(|d: FileDrift| PayloadView::Object(drift_view(d))))
}

fn drifts_json(drifts: &Vec<FileDrift>) -> (payload: Payload)
    ensures
        payload@ == drifts_view(drifts@),
{
    let mut items: Vec<Payload> = Vec::new();
    let mut i: usize = 0;
    while i < drifts.len()
        invariant
            i <= drifts.len(),
            items.len() == i,
            forall|j: int|
                0 <= j < i ==> (#[trigger] items@[j])@ == PayloadView::Object(
                    drift_view(drifts@[j]),
                ),
        decreases drifts.len() - i,
    {
        items.push(render_drift_json(&drifts[i]).payload());
        i += 1;
    }
    proof {
        assert(payload_views(items@) =~= drifts_view(drifts@)->List_0);
    }
    Payload::list(items)
}

/// What `diff` says.
pub open spec fn diff_view(report: DiffReport) -> SuccessView {
    SuccessView {
        exit_code: if report.drifts@.len() == 0 {
            0
        } else {
            1
        },
        ..machine_view(
            SuccessView {
                json: seq![
                    ("status"@, shown("ok"@)),
                    ("command"@, shown("diff"@)),
                    ("changes"@, drifts_view(report.drifts@)),
                ],
                human: HumanView::Message(diff_text(report)),
                notes: Seq::empty(),
                exit_code: 0,
            },
            report.machine_scope@,
            report.machine,
        )
    }
}

/// What `diff` says. It exits with one when it found changes, so that a script
/// can tell clean from dirty without parsing.
pub fn render_diff(report: &DiffReport) -> (output: SuccessOutput)
    ensures
        output@ == diff_view(*report),
{
    let json = Object::new().field("status", Payload::text("ok")).field(
        "command",
        Payload::text("diff"),
    ).field("changes", drifts_json(&report.drifts));
    proof {
        assert(json@ =~= seq![
            ("status"@, shown("ok"@)),
            ("command"@, shown("diff"@)),
            ("changes"@, drifts_view(report.drifts@)),
        ]);
    }
    let mut output = with_machine_state(
        SuccessOutput::message(json, render_diff_human(report)),
        report.machine_scope.as_str(),
        &report.machine,
    );
    output.exit_code = if report.drifts.is_empty() {
        0
    } else {
        1
    };
    output
}

/// Some lines, each closed.
pub open spec fn closed_lines(lines: Seq<Text>) -> Text {
    joined(lines.push(Seq::empty()), "\n"@)
}

/// Some lines, each closed.
pub fn render_lines(lines: Vec<String>) -> (text: String)
    ensures
        text@ == closed_lines(texts(lines@)),
{
    let mut all = lines;
    all.push(String::new());
    proof {
        lemma_texts_push(lines@, all@.last());
    }
    join(&all, "\n")
}

/// One scope, its parents, whether it is the machine reading this, and what it
/// is for.
pub open spec fn scope_line(scope: ScopeInfoView, machine_scope: Text) -> Text {
    let here = if scope.name == machine_scope {
        "* "@
    } else {
        "  "@
    };
    let line = if scope.parents.len() == 0 {
        here + scope.name
    } else {
        here + scope.name + " <- "@ + joined(scope.parents, ", "@)
    };
    match scope.description {
        Some(description) => line + "  # "@ + description,
        None => line,
    }
}

/// One scope, its parents, whether it is the machine reading this, and what it
/// is for.
pub fn render_scope_line(scope: &ScopeInfo, machine_scope: &str) -> (line: String)
    ensures
        line@ == scope_line(scope@, machine_scope@),
{
    let here = if same_text(scope.name.as_str(), machine_scope) {
        "* "
    } else {
        "  "
    };
    let line = if scope.parents.is_empty() {
        cat2(here, scope.name.as_str())
    } else {
        let parents = join(&scope.parents, ", ");
        cat4(here, scope.name.as_str(), " <- ", parents.as_str())
    };
    match &scope.description {
        Some(description) => cat3(line.as_str(), "  # ", description.as_str()),
        None => line,
    }
}

/// The lines of some scopes.
pub open spec fn scope_lines(scopes: Seq<ScopeInfo>, machine_scope: Text) -> Seq<Text> {
    scopes.map_values(|s: ScopeInfo| scope_line(s@, machine_scope))
}

/// `view` of everything, for a person.
pub open spec fn overview_text(
    scopes: Seq<ScopeInfo>,
    files: Seq<FilePath>,
    machine_scope: Text,
) -> Text {
    closed_lines(
        seq!["Scopes"@] + scope_lines(scopes, machine_scope) + seq![Seq::empty(), "Files"@]
            + path_texts(files),
    )
}

/// `view` of everything, for a person.
pub fn render_view_overview_stdout(
    scopes: &Vec<ScopeInfo>,
    files: &Vec<FilePath>,
    machine_scope: &str,
) -> (text: String)
    ensures
        text@ == overview_text(scopes@, files@, machine_scope@),
{
    let mut listed: Vec<String> = Vec::new();
    let mut i: usize = 0;
    while i < scopes.len()
        invariant
            i <= scopes.len(),
            listed.len() == i,
            forall|j: int|
                0 <= j < i ==> (#[trigger] listed@[j])@ == scope_line(scopes@[j]@, machine_scope@),
        decreases scopes.len() - i,
    {
        listed.push(render_scope_line(&scopes[i], machine_scope));
        i += 1;
    }
    proof {
        assert(texts(listed@) =~= scope_lines(scopes@, machine_scope@));
    }
    let mut lines = list1("Scopes".to_owned());
    add_texts(&mut lines, &listed);
    add_texts(&mut lines, &crate::text::list2(String::new(), "Files".to_owned()));
    add_texts(&mut lines, &display_paths(files));
    render_lines(lines)
}

/// `view` of one scope, for a person.
pub open spec fn scope_text(scope: Text, files: Seq<FilePath>) -> Text {
    closed_lines(seq!["Scope "@ + scope] + path_texts(files))
}

/// `view` of one scope, for a person.
pub fn render_view_scope_stdout(scope: &str, files: &Vec<FilePath>) -> (text: String)
    ensures
        text@ == scope_text(scope@, files@),
{
    let mut lines = list1(cat2("Scope ", scope));
    add_texts(&mut lines, &display_paths(files));
    render_lines(lines)
}

/// `view` of one file, for a person: which scopes hold it, none of them
/// included.
pub open spec fn file_text(path: Text, scopes: Seq<Text>, owner: Option<Text>) -> Text {
    match owner {
        None => closed_lines(
            seq![
                "File "@ + path,
                "No scope holds "@ + path + "."@,
                "Run `dotsync view` to see every file the scopes do hold."@,
            ],
        ),
        Some(owner) => closed_lines(
            seq![
                "File "@ + path,
                "Owned by "@ + owner
                    + "; every other scope below has it from the cascade."@,
                "Scopes"@,
            ] + scopes,
        ),
    }
}

/// `view` of one file, for a person.
pub fn render_view_file_scopes_stdout(path: &FilePath, scopes: &Vec<String>, owner: Option<&str>) -> (
text: String)
    ensures
        text@ == file_text(path.text@, texts(scopes@), opt_str(owner)),
{
    let path = path.text.as_str();
    match owner {
        None => render_lines(
            list3(
                cat2("File ", path),
                cat3("No scope holds ", path, "."),
                "Run `dotsync view` to see every file the scopes do hold.".to_owned(),
            ),
        ),
        Some(owner) => {
            let mut lines = list3(
                cat2("File ", path),
                cat3("Owned by ", owner, "; every other scope below has it from the cascade."),
                "Scopes".to_owned(),
            );
            add_texts(&mut lines, scopes);
            render_lines(lines)
        },
    }
}

/// The scope that a file is owned by: the first of those that hold it, in the
/// order the graph reads in.
pub open spec fn owner_of(scopes: Seq<Text>) -> Option<Text> {
    if scopes.len() > 0 {
        Some(scopes[0])
    } else {
        None
    }
}

/// A listed scope, for a machine.
pub open spec fn info_fields(info: ScopeInfoView) -> PayloadView {
    PayloadView::Object(
        seq![
            ("name"@, shown(info.name)),
            ("parents"@, shown_list(info.parents)),
            ("description"@, shown_opt(info.description)),
        ],
    )
}

fn infos_json(scopes: &Vec<ScopeInfo>) -> (payload: Payload)
    ensures
        payload@ == PayloadView::List(
            info_views(scopes@).map_values(|i: ScopeInfoView| info_fields(i)),
        ),
{
    let mut items: Vec<Payload> = Vec::new();
    let mut i: usize = 0;
    while i < scopes.len()
        invariant
            i <= scopes.len(),
            items.len() == i,
            forall|j: int| 0 <= j < i ==> (#[trigger] items@[j])@ == info_fields(scopes@[j]@),
        decreases scopes.len() - i,
    {
        let object = Object::new().field("name", Payload::text(scopes[i].name.as_str())).field(
            "parents",
            Payload::texts(&scopes[i].parents),
        ).field("description", Payload::opt(&scopes[i].description));
        proof {
            assert(object@ =~= info_fields(scopes@[i as int]@)->Object_0);
        }
        items.push(object.payload());
        i += 1;
    }
    proof {
        assert(payload_views(items@) =~= info_views(scopes@).map_values(
            |i: ScopeInfoView| info_fields(i),
        ));
    }
    Payload::list(items)
}

/// What `view` answers before anything is added.
pub open spec fn answer_view(found: ViewAnswer, machine_scope: Text) -> SuccessView {
    let opening = seq![("status"@, shown("ok"@)), ("command"@, shown("view"@))];
    match found {
        ViewAnswer::FileContents { scope, file, contents } => SuccessView {
            json: opening + seq![
                ("scope"@, shown(scope@)),
                ("path"@, shown(file.text@)),
                ("contents"@, shown(lossy_text(contents@))),
            ],
            human: HumanView::Stdout(lossy_text(contents@)),
            notes: Seq::empty(),
            exit_code: 0,
        },
        ViewAnswer::Scope { scope, files } => SuccessView {
            json: opening + seq![
                ("scope"@, shown(scope@)),
                ("files"@, shown_list(path_texts(files@))),
            ],
            human: HumanView::Stdout(scope_text(scope@, files@)),
            notes: Seq::empty(),
            exit_code: 0,
        },
        ViewAnswer::FileScopes { file, scopes } => SuccessView {
            json: opening + seq![
                ("file"@, shown(file.text@)),
                ("scopes"@, shown_list(texts(scopes@))),
                ("owner"@, shown_opt(owner_of(texts(scopes@)))),
            ],
            human: HumanView::Stdout(
                file_text(file.text@, texts(scopes@), owner_of(texts(scopes@))),
            ),
            notes: Seq::empty(),
            exit_code: 0,
        },
        ViewAnswer::Overview { scopes, files } => SuccessView {
            json: opening + seq![
                (
                    "scopes"@,
                    PayloadView::List(
                        info_views(scopes@).map_values(|i: ScopeInfoView| info_fields(i)),
                    ),
                ),
                ("files"@, shown_list(path_texts(files@))),
            ],
            human: HumanView::Stdout(overview_text(scopes@, files@, machine_scope)),
            notes: Seq::empty(),
            exit_code: 0,
        },
    }
}

fn view_opening() -> (object: Object)
    ensures
        object@ == seq![("status"@, shown("ok"@)), ("command"@, shown("view"@))],
{
    let object = Object::new().field("status", Payload::text("ok")).field(
        "command",
        Payload::text("view"),
    );
    proof {
        assert(object@ =~= seq![("status"@, shown("ok"@)), ("command"@, shown("view"@))]);
    }
    object
}

fn render_answer(found: &ViewAnswer, machine_scope: &str) -> (output: SuccessOutput)
    ensures
        output@ == answer_view(*found, machine_scope@),
{
    match found {
        ViewAnswer::FileContents { scope, file, contents } => {
            let text = decoded(contents);
            let json = view_opening().field("scope", Payload::text(scope.as_str())).field(
                "path",
                Payload::text(file.text.as_str()),
            ).field("contents", Payload::text(text.as_str()));
            proof {
                assert(json@ =~= answer_view(*found, machine_scope@).json);
            }
            SuccessOutput::stdout(json, text)
        },
        ViewAnswer::Scope { scope, files } => {
            let shown_files = display_paths(files);
            let json = view_opening().field("scope", Payload::text(scope.as_str())).field(
                "files",
                Payload::texts(&shown_files),
            );
            proof {
                assert(json@ =~= answer_view(*found, machine_scope@).json);
            }
            SuccessOutput::stdout(json, render_view_scope_stdout(scope.as_str(), files))
        },
        ViewAnswer::FileScopes { file, scopes } => {
            proof {
                if scopes@.len() > 0 {
                    assert(texts(scopes@)[0] == scopes@[0]@);
                }
                assert(texts(scopes@).len() == scopes@.len());
            }
            let owner = if scopes.len() > 0 {
                Some(scopes[0].as_str())
            } else {
                None
            };
            let owned = match owner {
                Some(owner) => Payload::text(owner),
                None => Payload::Null,
            };
            let json = view_opening().field("file", Payload::text(file.text.as_str())).field(
                "scopes",
                Payload::texts(scopes),
            ).field("owner", owned);
            proof {
                assert(json@ =~= answer_view(*found, machine_scope@).json);
            }
            SuccessOutput::stdout(json, render_view_file_scopes_stdout(file, scopes, owner))
        },
        ViewAnswer::Overview { scopes, files } => {
            let shown_files = display_paths(files);
            let json = view_opening().field("scopes", infos_json(scopes)).field(
                "files",
                Payload::texts(&shown_files),
            );
            proof {
                assert(json@ =~= answer_view(*found, machine_scope@).json);
            }
            SuccessOutput::stdout(
                json,
                render_view_overview_stdout(scopes, files, machine_scope),
            )
        },
    }
}

/// What `view` says.
pub open spec fn view_view(report: ViewReport, machine_scope: Text) -> SuccessView {
    machine_view(
        reprinted(answer_view(report.found, machine_scope), report.machine),
        machine_scope,
        report.machine,
    )
}

/// What `view` says: its answer, any conflict the machine waits on, and what is
/// true of the machine.
pub fn render_view(report: &ViewReport, machine_scope: &str) -> (output: SuccessOutput)
    ensures
        output@ == view_view(*report, machine_scope@),
{
    let answer = render_answer(&report.found, machine_scope);
    with_machine_state(
        reprinting_any_conflict(answer, &report.machine),
        machine_scope,
        &report.machine,
    )
}

/// How a run ended.
pub enum OutputKind {
    Success(SuccessOutput),
    Error(DotsyncError),
    /// The command line was wrong, so there was never a run.
    Usage(Explanation),
}

/// What is printed where, and how the process exits.
pub struct Emission {
    /// Lines for the error stream, in order.
    pub stderr: Vec<String>,
    /// What goes to the output stream as it is.
    pub stdout: Option<String>,
    /// The answer for a machine, one line on the output stream.
    pub payload: Option<Object>,
    pub exit_code: i32,
}

/// What is printed where, as contracts see it.
pub struct EmissionView {
    pub stderr: Seq<Text>,
    pub stdout: Option<Text>,
    pub payload: Option<Seq<(Text, PayloadView)>>,
    pub exit_code: int,
}

impl View for Emission {
    type V = EmissionView;

    open spec fn view(&self) -> EmissionView {
        EmissionView {
            stderr: texts(self.stderr@),
            stdout: opt_text(self.stdout),
            payload: match self.payload {
                Some(payload) => Some(payload@),
                None => None,
            },
            exit_code: self.exit_code as int,
        }
    }
}

/// What a run that worked prints.
pub open spec fn success_emission(
    format: OutputFormat,
    success: SuccessView,
    reason: Option<Text>,
) -> EmissionView {
    let notes = unreachable_lines(reason) + success.notes;
    match format {
        OutputFormat::Json => EmissionView {
            stderr: notes,
            stdout: None,
            payload: Some(remote_fields(success.json, reason)),
            exit_code: success.exit_code,
        },
        OutputFormat::Human => EmissionView {
            stderr: match success.human {
                HumanView::Stdout(_) => notes,
                HumanView::Message(message) => notes.push(message),
            },
            stdout: match success.human {
                HumanView::Stdout(text) => Some(text),
                HumanView::Message(_) => None,
            },
            payload: None,
            exit_code: success.exit_code,
        },
    }
}

/// What a stop prints: the teaching block, the conflict if there is one, and
/// the payload.
pub open spec fn stop_emission(
    format: OutputFormat,
    stop: ExplanationView,
    reason: Option<Text>,
) -> EmissionView {
    EmissionView {
        stderr: unreachable_lines(reason) + seq![error_text(stop)] + if stop.conflicts.len() > 0 {
            seq!["\nConflicted files:"@] + conflicts_lines(stop.conflicts)
        } else {
            Seq::empty()
        },
        stdout: None,
        payload: match format {
            OutputFormat::Json => Some(remote_fields(error_view(stop), reason)),
            OutputFormat::Human => None,
        },
        exit_code: 1,
    }
}

/// What a run prints, however it ended.
pub open spec fn emission_view(
    format: OutputFormat,
    kind: OutputKind,
    reason: Option<Text>,
    invocation: Option<Text>,
) -> EmissionView {
    match kind {
        OutputKind::Success(success) => success_emission(format, success@, reason),
        OutputKind::Error(error) => stop_emission(format, explanation(error, invocation), reason),
        OutputKind::Usage(stop) => stop_emission(format, stop@, reason),
    }
}

fn emit_success(
    format: OutputFormat,
    success: SuccessOutput,
    unreachable: &Option<UnreachableRemote>,
) -> (emission: Emission)
    ensures
        emission@ == success_emission(format, success@, opt_reason(*unreachable)),
{
    let mut stderr = unreachable_remote_notes(unreachable);
    add_texts(&mut stderr, &success.notes);
    match format {
        OutputFormat::Json => Emission {
            stderr,
            stdout: None,
            payload: Some(with_remote_state(success.json, unreachable)),
            exit_code: success.exit_code,
        },
        OutputFormat::Human => match success.human {
            HumanOutput::Stdout(text) => Emission {
                stderr,
                stdout: Some(text),
                payload: None,
                exit_code: success.exit_code,
            },
            HumanOutput::Message(message) => {
                let ghost before = stderr@;
                stderr.push(message);
                proof {
                    lemma_texts_push(before, message);
                }
                Emission { stderr, stdout: None, payload: None, exit_code: success.exit_code }
            },
        },
    }
}

/// What a stop prints.
pub fn emit_stop(
    format: OutputFormat,
    stop: &Explanation,
    unreachable: &Option<UnreachableRemote>,
) -> (emission: Emission)
    ensures
        emission@ == stop_emission(format, stop@, opt_reason(*unreachable)),
{
    let mut stderr = unreachable_remote_notes(unreachable);
    add_texts(&mut stderr, &list1(render_error_human(stop)));
    proof {
        assert(file_views(stop.conflicts@).len() == stop.conflicts@.len());
    }
    if !stop.conflicts.is_empty() {
        let mut more = list1("\nConflicted files:".to_owned());
        add_texts(&mut more, &render_conflicts_human(&stop.conflicts));
        add_texts(&mut stderr, &more);
    } else {
        proof {
            assert(texts(stderr@) + Seq::<Text>::empty() =~= texts(stderr@));
        }
    }
    let payload = match format {
        OutputFormat::Json => Some(with_remote_state(render_error_json(stop), unreachable)),
        OutputFormat::Human => None,
    };
    Emission { stderr, stdout: None, payload, exit_code: 1 }
}

/// What a run prints, however it ended. The remote being out of reach comes
/// before anything else it has to say: it is the frame for all of it.
pub fn emit_output(
    format: OutputFormat,
    kind: OutputKind,
    unreachable: &Option<UnreachableRemote>,
    invocation: Option<&str>,
) -> (emission: Emission)
    ensures
        emission@ == emission_view(format, kind, opt_reason(*unreachable), opt_str(invocation)),
{
    match kind {
        OutputKind::Success(success) => emit_success(format, success, unreachable),
        OutputKind::Error(error) => {
            let stop = error.explain(invocation);
            emit_stop(format, &stop, unreachable)
        },
        OutputKind::Usage(stop) => emit_stop(format, &stop, unreachable),
    }
}

/// A run that reached nothing of the remote says so first, in both formats, and
/// as a field of the answer for a machine.
pub proof fn law_an_unreachable_remote_is_always_said(
    kind: OutputKind,
    format: OutputFormat,
    reason: Text,
    invocation: Option<Text>,
)
    ensures
        emission_view(format, kind, Some(reason), invocation).stderr.len() >= 2,
        emission_view(format, kind, Some(reason), invocation).stderr[0]
            == crate::render::UNREACHABLE_NOTE@,
        emission_view(format, kind, Some(reason), invocation).stderr[1] == "dotsync: "@ + reason,
{
}

/// A stop exits with one, and a run that worked exits with zero but for `diff`
/// that found changes and `abort` whose merge still waits.
pub proof fn law_stops_exit_with_one(
    kind: OutputKind,
    format: OutputFormat,
    reason: Option<Text>,
    invocation: Option<Text>,
)
    ensures
        !(kind is Success) ==> emission_view(format, kind, reason, invocation).exit_code == 1,
        kind matches OutputKind::Success(success) ==> emission_view(
            format,
            kind,
            reason,
            invocation,
        ).exit_code == success@.exit_code,
{
}

} // verus!
