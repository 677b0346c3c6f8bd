//! What the answers of the commands hold: everything that a report found is there
//! to read, for a person and for a machine.
use vstd::prelude::*;
use vstd::string::*;
use vstd::utf8::{decode_utf8, valid_utf8};
use crate::answer::{
    answer_view, changed_header, closed_lines, commit_fields, commit_view, diff_text, diff_view,
    drifts_view, file_text, info_fields, machine_view, overview_text, owner_of, reprinted,
    scope_line, scope_lines, scope_text, status_lines, status_text, status_view, stop_emission,
    success_emission, view_view, waits_at, NEW_FILE_ADVICE,
};
use crate::bootstrap::{CreatedScope, InitReport};
use crate::cli::{
    abort_view, continue_view, created_view, discard_view, drift_paths, init_view, sync_view,
    synced_view, HumanView, OutputFormat, SuccessView,
};
use crate::commit::CommitReport;
use crate::config::{scope_comment, ScopeKind};
use crate::drift::{code_text, reason_text, FileState};
use crate::error::{
    explanation, file_paths, file_views, opt_bytes, path_texts, refusal_text, rejection_text,
    repo_scopes_text, role_text, skip_code, skip_text, CommitPathProblem, ConflictedFileView,
    ConflictedVersionView, DotsyncError, ExplanationView, SkippedCommitPath, DISCARD_FACT,
};
use crate::inspect::{info_views, DiffReport, ScopeInfo, ScopeInfoView, ViewAnswer, ViewReport};
use crate::paths::FilePath;
use crate::pause::{AbortReport, ContinueReport, Resumed};
use crate::payload::{shown, shown_list, with_field, PayloadView};
use crate::render::{
    carried_lines, change_line, change_lines, change_view, changes_view, conflict_lines,
    conflict_view, conflicts_lines, conflicts_view, diverged_lines, drift_diff, drifts_lines,
    error_text, error_view, lossy_text, marker, newly_tracked_lines, overwritten_lines, paused_lines, prefixed,
    push_lines, quoted, shortened, skipped_line, skipped_lines, skipped_view, unified_diff,
    unpushed_lines, unreachable_lines, version_lines, version_view, versions_lines, CARRIED_ADVICE,
};
use crate::repo::{left_behind, rejection_reason, PushReport};
use crate::status::{MachineState, StatusReport};
use crate::sync::{FileChange, FileDrift, SyncCommandReport, SyncReport};
use crate::teaching::TeachingView;
use crate::text::{decimal, joined, texts, without_trailing, Text};

verus! {

/// Whether a text stands somewhere in another.
pub open spec fn reads(text: Text, piece: Text) -> bool {
    exists|before: Text, after: Text| #[trigger] (before + piece + after) == text
}

/// Whether one of some lines holds a text.
pub open spec fn any_reads(lines: Seq<Text>, piece: Text) -> bool {
    exists|i: int| 0 <= i < lines.len() && reads(#[trigger] lines[i], piece)
}

/// Whether some fields hold one with a key and a value.
pub open spec fn tells(fields: Seq<(Text, PayloadView)>, key: Text, value: PayloadView) -> bool {
    exists|i: int| 0 <= i < fields.len() && (#[trigger] fields[i]).0 == key && fields[i].1 == value
}

/// Whether a value lists some texts, all of them and in their order.
pub open spec fn lists_texts(value: PayloadView, list: Seq<Text>) -> bool {
    &&& value is List
    &&& value->List_0.len() == list.len()
    &&& forall|i: int|
        0 <= i < list.len() ==> #[trigger] value->List_0[i] == PayloadView::Text(list[i])
}

pub proof fn lemma_reads_itself(text: Text)
    ensures
        reads(text, text),
{
    let none: Text = Seq::empty();
    assert(none + text + none =~= text);
}

pub proof fn lemma_reads_within(before: Text, text: Text, after: Text, piece: Text)
    requires
        reads(text, piece),
    ensures
        reads(before + text + after, piece),
{
    let (b, a) = choose|b: Text, a: Text| #[trigger] (b + piece + a) == text;
    assert((before + b) + piece + (a + after) =~= before + text + after);
}

pub proof fn lemma_reads_part(before: Text, piece: Text, after: Text)
    ensures
        reads(before + piece + after, piece),
{
    lemma_reads_itself(piece);
    lemma_reads_within(before, piece, after, piece);
}

/// What stands in one of some parts stands in them joined.
pub proof fn lemma_joined_reads(parts: Seq<Text>, separator: Text, at: int, piece: Text)
    requires
        0 <= at < parts.len(),
        reads(parts[at], piece),
    ensures
        reads(joined(parts, separator), piece),
    decreases parts.len(),
{
    let none: Text = Seq::empty();
    if parts.len() > 1 {
        if at == parts.len() - 1 {
            let first = joined(parts.drop_last(), separator) + separator;
            lemma_reads_within(first, parts.last(), none, piece);
            assert(first + parts.last() + none =~= joined(parts, separator));
        } else {
            assert(parts.drop_last()[at] == parts[at]);
            lemma_joined_reads(parts.drop_last(), separator, at, piece);
            let first = joined(parts.drop_last(), separator);
            lemma_reads_within(none, first, separator + parts.last(), piece);
            assert(none + first + (separator + parts.last()) =~= joined(parts, separator));
        }
    }
}

pub proof fn lemma_closed_reads(lines: Seq<Text>, at: int, piece: Text)
    requires
        0 <= at < lines.len(),
        reads(lines[at], piece),
    ensures
        reads(closed_lines(lines), piece),
{
    let all = lines.push(Seq::empty());
    assert(all[at] == lines[at]);
    lemma_joined_reads(all, "\n"@, at, piece);
}

/// The line of a scope holds its name, each of its parents and what it is for.
pub proof fn law_a_scope_line_names_every_parent(scope: ScopeInfoView, machine_scope: Text)
    ensures
        reads(scope_line(scope, machine_scope), scope.name),
        forall|k: int|
            0 <= k < scope.parents.len() ==> reads(
                scope_line(scope, machine_scope),
                #[trigger] scope.parents[k],
            ),
        scope.description matches Some(description) ==> reads(
            scope_line(scope, machine_scope),
            description,
        ),
{
    let none: Text = Seq::empty();
    let line = scope_line(scope, machine_scope);
    let here = if scope.name == machine_scope {
        "* "@
    } else {
        "  "@
    };
    let parents = joined(scope.parents, ", "@);
    let first = if scope.parents.len() == 0 {
        here + scope.name
    } else {
        here + scope.name + " <- "@ + parents
    };
    let rest = match scope.description {
        Some(description) => "  # "@ + description,
        None => none,
    };
    assert(line =~= none + first + rest);
    if scope.parents.len() == 0 {
        lemma_reads_part(here, scope.name, none);
        assert(here + scope.name + none =~= first);
    } else {
        lemma_reads_part(here, scope.name, " <- "@ + parents);
        assert(here + scope.name + (" <- "@ + parents) =~= first);
    }
    lemma_reads_within(none, first, rest, scope.name);
    assert forall|k: int| 0 <= k < scope.parents.len() implies reads(
        line,
        #[trigger] scope.parents[k],
    ) by {
        lemma_reads_itself(scope.parents[k]);
        lemma_joined_reads(scope.parents, ", "@, k, scope.parents[k]);
        lemma_reads_within(here + scope.name + " <- "@, parents, none, scope.parents[k]);
        assert((here + scope.name + " <- "@) + parents + none =~= first);
        lemma_reads_within(none, first, rest, scope.parents[k]);
    }
    if let Some(description) = scope.description {
        lemma_reads_part(first + "  # "@, description, none);
        assert((first + "  # "@) + description + none =~= line);
    }
}

/// A view of everything prints every scope that it lists, with every parent and
/// what the scope is for, and every file.
pub proof fn law_an_overview_prints_everything_it_lists(
    scopes: Seq<ScopeInfo>,
    files: Seq<FilePath>,
    machine_scope: Text,
)
    ensures
        forall|i: int|
            0 <= i < scopes.len() ==> reads(
                overview_text(scopes, files, machine_scope),
                (#[trigger] scopes[i])@.name,
            ),
        forall|i: int, k: int|
            0 <= i < scopes.len() && 0 <= k < scopes[i]@.parents.len() ==> reads(
                overview_text(scopes, files, machine_scope),
                #[trigger] scopes[i]@.parents[k],
            ),
        forall|i: int|
            0 <= i < scopes.len() && (#[trigger] scopes[i])@.description is Some ==> reads(
                overview_text(scopes, files, machine_scope),
                scopes[i]@.description->Some_0,
            ),
        forall|j: int|
            0 <= j < files.len() ==> reads(
                overview_text(scopes, files, machine_scope),
                (#[trigger] files[j]).text@,
            ),
{
    let lines = seq!["Scopes"@] + scope_lines(scopes, machine_scope) + seq![
        Seq::empty(),
        "Files"@,
    ] + path_texts(files);
    assert forall|i: int| 0 <= i < scopes.len() implies lines[1 + i] == scope_line(
        (#[trigger] scopes[i])@,
        machine_scope,
    ) by {}
    assert forall|i: int| 0 <= i < scopes.len() implies reads(
        overview_text(scopes, files, machine_scope),
        (#[trigger] scopes[i])@.name,
    ) by {
        law_a_scope_line_names_every_parent(scopes[i]@, machine_scope);
        lemma_closed_reads(lines, 1 + i, scopes[i]@.name);
    }
    assert forall|i: int, k: int|
        0 <= i < scopes.len() && 0 <= k < scopes[i]@.parents.len() implies reads(
        overview_text(scopes, files, machine_scope),
        #[trigger] scopes[i]@.parents[k],
    ) by {
        law_a_scope_line_names_every_parent(scopes[i]@, machine_scope);
        lemma_closed_reads(lines, 1 + i, scopes[i]@.parents[k]);
    }
    assert forall|i: int|
        0 <= i < scopes.len() && (#[trigger] scopes[i])@.description is Some implies reads(
        overview_text(scopes, files, machine_scope),
        scopes[i]@.description->Some_0,
    ) by {
        law_a_scope_line_names_every_parent(scopes[i]@, machine_scope);
        lemma_closed_reads(lines, 1 + i, scopes[i]@.description->Some_0);
    }
    assert forall|j: int| 0 <= j < files.len() implies reads(
        overview_text(scopes, files, machine_scope),
        (#[trigger] files[j]).text@,
    ) by {
        let at = 3 + scopes.len() + j;
        assert(path_texts(files)[j] == files[j].text@);
        assert(lines[at] == path_texts(files)[j]);
        lemma_reads_itself(files[j].text@);
        lemma_closed_reads(lines, at, files[j].text@);
    }
}

/// The machine reads of a listed scope its name, all of its parents in their order,
/// and what it is for, or that it says nothing of it.
pub proof fn law_a_scope_is_listed_with_all_its_parents(info: ScopeInfoView)
    ensures
        info_fields(info) is Object,
        tells(info_fields(info)->Object_0, "name"@, PayloadView::Text(info.name)),
        tells(info_fields(info)->Object_0, "parents"@, shown_list(info.parents)),
        lists_texts(shown_list(info.parents), info.parents),
        tells(
            info_fields(info)->Object_0,
            "description"@,
            match info.description {
                Some(description) => PayloadView::Text(description),
                None => PayloadView::Null,
            },
        ),
{
    let fields = info_fields(info)->Object_0;
    assert(fields[0].0 == "name"@);
    assert(fields[1].0 == "parents"@);
    assert(fields[2].0 == "description"@);
}

/// What stands in some lines stands in them among others.
pub proof fn lemma_any_reads_within(before: Seq<Text>, lines: Seq<Text>, after: Seq<Text>, piece: Text)
    requires
        any_reads(lines, piece),
    ensures
        any_reads(before + lines + after, piece),
{
    let i = choose|i: int| 0 <= i < lines.len() && reads(#[trigger] lines[i], piece);
    assert((before + lines + after)[before.len() + i] == lines[i]);
}

/// A field that is set is there.
pub proof fn lemma_tells_set(fields: Seq<(Text, PayloadView)>, key: Text, value: PayloadView)
    ensures
        tells(with_field(fields, key, value), key, value),
    decreases fields.len(),
{
    let set = with_field(fields, key, value);
    if fields.len() == 0 || fields[0].0 == key {
        assert(set[0] == (key, value));
    } else {
        lemma_tells_set(fields.skip(1), key, value);
        let rest = with_field(fields.skip(1), key, value);
        let i = choose|i: int|
            0 <= i < rest.len() && (#[trigger] rest[i]).0 == key && rest[i].1 == value;
        assert(set[1 + i] == rest[i]);
    }
}

/// Setting a field leaves the others as they are.
pub proof fn lemma_tells_kept(
    fields: Seq<(Text, PayloadView)>,
    key: Text,
    value: PayloadView,
    other: Text,
    held: PayloadView,
)
    requires
        tells(fields, other, held),
        other != key,
    ensures
        tells(with_field(fields, key, value), other, held),
    decreases fields.len(),
{
    let set = with_field(fields, key, value);
    let i = choose|i: int|
        0 <= i < fields.len() && (#[trigger] fields[i]).0 == other && fields[i].1 == held;
    if fields[0].0 == key {
        assert(fields.skip(1)[i - 1] == fields[i]);
        assert(set[i] == fields[i]);
    } else if i == 0 {
        assert(set[0] == fields[0]);
    } else {
        assert(fields.skip(1)[i - 1] == fields[i]);
        lemma_tells_kept(fields.skip(1), key, value, other, held);
        let rest = with_field(fields.skip(1), key, value);
        let k = choose|k: int|
            0 <= k < rest.len() && (#[trigger] rest[k]).0 == other && rest[k].1 == held;
        assert(set[1 + k] == rest[k]);
    }
}

/// The line of a changed file holds its marker, its path and why it is there.
pub proof fn law_a_change_is_printed_with_its_reason(path: Text, state: FileState)
    ensures
        reads(change_line(path, state), marker(state)),
        reads(change_line(path, state), path),
        reads(change_line(path, state), reason_text(state)),
{
    let line = change_line(path, state);
    lemma_reads_part("  "@, marker(state), " "@ + path + " ("@ + reason_text(state) + ")"@);
    assert("  "@ + marker(state) + (" "@ + path + " ("@ + reason_text(state) + ")"@) =~= line);
    lemma_reads_part("  "@ + marker(state) + " "@, path, " ("@ + reason_text(state) + ")"@);
    assert(("  "@ + marker(state) + " "@) + path + (" ("@ + reason_text(state) + ")"@) =~= line);
    lemma_reads_part("  "@ + marker(state) + " "@ + path + " ("@, reason_text(state), ")"@);
}

/// A file that home deleted is marked so, one in conflict is, one that is new is,
/// one that is behind is and one that the scope dropped is; what home edited is
/// marked as modified.
pub proof fn law_a_marker_tells_what_happened(state: FileState)
    ensures
        marker(state) == "D"@ <==> state is DeletedInHome || state is DeletedInHomeTipAlsoChanged,
        marker(state) == "C"@ <==> state is DivergedEdit
            || state is IncomingNewCollidesWithUntrackedHome,
        marker(state) == "A"@ <==> state is IncomingNew,
        marker(state) == "U"@ <==> state is StaleNotYours,
        marker(state) == "R"@ <==> state is RemovedFromRepo,
        marker(state) == "M"@ <==> state is EditedInHome || state is EditedInHomeButRemovedFromRepo
            || state is KindDiffersFromScope || state is DivergedEditThatMerges,
{
    reveal_strlit("D");
    reveal_strlit("C");
    reveal_strlit("A");
    reveal_strlit("U");
    reveal_strlit("R");
    reveal_strlit("M");
    reveal_strlit(" ");
    assert("D"@[0] == 'D' && "C"@[0] == 'C' && "A"@[0] == 'A' && "U"@[0] == 'U' && "R"@[0] == 'R'
        && "M"@[0] == 'M' && " "@[0] == ' ');
}

/// Whether a value tells of changed files: each of them, in order, with its path,
/// the code of what happened to it and the reason in words.
pub open spec fn lists_changes(value: PayloadView, changes: Seq<FileChange>) -> bool {
    &&& value is List
    &&& value->List_0.len() == changes.len()
    &&& forall|i: int|
        0 <= i < changes.len() ==> {
            let item = #[trigger] value->List_0[i];
            &&& item is Object
            &&& tells(item->Object_0, "path"@, PayloadView::Text(changes[i].path.text@))
            &&& tells(item->Object_0, "state"@, PayloadView::Text(code_text(changes[i].state)))
            &&& tells(item->Object_0, "reason"@, PayloadView::Text(reason_text(changes[i].state)))
        }
}

proof fn lemma_change_fields(path: Text, code: Text, reason: Text)
    ensures
        tells(change_view(path, code, reason), "path"@, PayloadView::Text(path)),
        tells(change_view(path, code, reason), "state"@, PayloadView::Text(code)),
        tells(change_view(path, code, reason), "reason"@, PayloadView::Text(reason)),
{
    let fields = change_view(path, code, reason);
    assert(fields[0].0 == "path"@);
    assert(fields[1].0 == "state"@);
    assert(fields[2].0 == "reason"@);
}

/// Every changed file is told to a machine, with what happened to it.
pub proof fn law_every_change_is_told(changes: Seq<FileChange>)
    ensures
        lists_changes(changes_view(changes), changes),
{
    let value = changes_view(changes);
    assert forall|i: int| 0 <= i < changes.len() implies {
        let item = #[trigger] value->List_0[i];
        &&& item is Object
        &&& tells(item->Object_0, "path"@, PayloadView::Text(changes[i].path.text@))
        &&& tells(item->Object_0, "state"@, PayloadView::Text(code_text(changes[i].state)))
        &&& tells(item->Object_0, "reason"@, PayloadView::Text(reason_text(changes[i].state)))
    } by {
        lemma_change_fields(
            changes[i].path.text@,
            code_text(changes[i].state),
            reason_text(changes[i].state),
        );
    }
}

proof fn lemma_change_lines_read(changes: Seq<FileChange>, at: int)
    requires
        0 <= at < changes.len(),
    ensures
        any_reads(change_lines(changes), changes[at].path.text@),
        any_reads(change_lines(changes), reason_text(changes[at].state)),
{
    law_a_change_is_printed_with_its_reason(changes[at].path.text@, changes[at].state);
    assert(change_lines(changes)[at] == change_line(changes[at].path.text@, changes[at].state));
}

proof fn lemma_joined_any(lines: Seq<Text>, separator: Text, piece: Text)
    requires
        any_reads(lines, piece),
    ensures
        reads(joined(lines, separator), piece),
{
    let i = choose|i: int| 0 <= i < lines.len() && reads(#[trigger] lines[i], piece);
    lemma_joined_reads(lines, separator, i, piece);
}

/// `status` prints every file that home changed and every file that is coming, each
/// with its reason, and tells a machine the same.
pub proof fn law_status_prints_every_file(report: StatusReport)
    ensures
        forall|i: int|
            0 <= i < report.changes@.len() ==> reads(
                status_text(report),
                (#[trigger] report.changes@[i]).path.text@,
            ) && reads(status_text(report), reason_text(report.changes@[i].state)),
        forall|i: int|
            0 <= i < report.incoming@.len() ==> reads(
                status_text(report),
                (#[trigger] report.incoming@[i]).path.text@,
            ) && reads(status_text(report), reason_text(report.incoming@[i].state)),
        reads(status_text(report), report.machine_scope@),
        status_view(report).human == HumanView::Message(status_text(report)),
        status_view(report).exit_code == 0,
        tells(status_view(report).json, "changes"@, changes_view(report.changes@)),
        tells(status_view(report).json, "incoming"@, changes_view(report.incoming@)),
        lists_changes(changes_view(report.changes@), report.changes@),
        lists_changes(changes_view(report.incoming@), report.incoming@),
{
    let none: Seq<Text> = Seq::empty();
    let blank: Text = Seq::empty();
    let scope = report.machine_scope@;
    let first = seq![changed_header(report.changes@.len(), scope)];
    let changed = if report.changes@.len() > 0 {
        first + change_lines(report.changes@)
    } else {
        none
    };
    let second = seq![
        "dotsync: "@ + decimal(report.incoming@.len()) + " incoming file(s) for "@ + scope
            + " — plain `dotsync` applies these"@,
    ];
    let incoming = if report.incoming@.len() > 0 {
        second + change_lines(report.incoming@)
    } else {
        none
    };
    let lines = status_lines(report);
    assert(lines == changed + incoming);
    assert forall|i: int| 0 <= i < report.changes@.len() implies reads(
        status_text(report),
        (#[trigger] report.changes@[i]).path.text@,
    ) && reads(status_text(report), reason_text(report.changes@[i].state)) by {
        let path = report.changes@[i].path.text@;
        let reason = reason_text(report.changes@[i].state);
        lemma_change_lines_read(report.changes@, i);
        lemma_any_reads_within(first, change_lines(report.changes@), incoming, path);
        lemma_any_reads_within(first, change_lines(report.changes@), incoming, reason);
        assert(first + change_lines(report.changes@) + incoming =~= lines);
        lemma_joined_any(lines, "\n"@, path);
        lemma_joined_any(lines, "\n"@, reason);
    }
    assert forall|i: int| 0 <= i < report.incoming@.len() implies reads(
        status_text(report),
        (#[trigger] report.incoming@[i]).path.text@,
    ) && reads(status_text(report), reason_text(report.incoming@[i].state)) by {
        let path = report.incoming@[i].path.text@;
        let reason = reason_text(report.incoming@[i].state);
        lemma_change_lines_read(report.incoming@, i);
        lemma_any_reads_within(changed + second, change_lines(report.incoming@), none, path);
        lemma_any_reads_within(changed + second, change_lines(report.incoming@), none, reason);
        assert((changed + second) + change_lines(report.incoming@) + none =~= lines);
        lemma_joined_any(lines, "\n"@, path);
        lemma_joined_any(lines, "\n"@, reason);
    }
    if report.changes@.len() > 0 {
        let before = "dotsync: "@ + decimal(report.changes@.len()) + " changed managed file(s) for "@;
        lemma_reads_part(before, scope, blank);
        assert(before + scope + blank =~= first[0]);
        assert(lines[0] == first[0]);
        lemma_joined_any(lines, "\n"@, scope);
    } else if report.incoming@.len() > 0 {
        let before = "dotsync: "@ + decimal(report.incoming@.len()) + " incoming file(s) for "@;
        lemma_reads_part(before, scope, " — plain `dotsync` applies these"@);
        assert(before + scope + " — plain `dotsync` applies these"@ =~= second[0]);
        assert(lines[0] == second[0]);
        lemma_joined_any(lines, "\n"@, scope);
    } else {
        assert(lines =~= none);
        lemma_reads_part("dotsync: no changes for "@, scope, blank);
        assert("dotsync: no changes for "@ + scope + blank =~= status_text(report));
    }
    law_every_change_is_told(report.changes@);
    law_every_change_is_told(report.incoming@);
    let fields = seq![
        ("status"@, shown("ok"@)),
        ("command"@, shown("status"@)),
        ("changes"@, changes_view(report.changes@)),
        ("incoming"@, changes_view(report.incoming@)),
    ];
    let answer = SuccessView {
        json: fields,
        human: HumanView::Message(status_text(report)),
        notes: Seq::empty(),
        exit_code: 0,
    };
    assert(fields[2].0 == "changes"@);
    assert(fields[3].0 == "incoming"@);
    lemma_machine_keeps(answer, scope, report.machine, "changes"@, changes_view(report.changes@));
    lemma_machine_keeps(answer, scope, report.machine, "incoming"@, changes_view(report.incoming@));
}

/// Whether a key is one of those that an answer has for the machine.
pub open spec fn is_machine_key(key: Text) -> bool {
    ||| key == "machine_scope"@
    ||| key == "paused_cascade"@
    ||| key == "diverged_scopes"@
    ||| key == "unpushed_scopes"@
}

proof fn lemma_machine_keys()
    ensures
        "machine_scope"@ != "paused_cascade"@,
        "machine_scope"@ != "diverged_scopes"@,
        "machine_scope"@ != "unpushed_scopes"@,
        "paused_cascade"@ != "diverged_scopes"@,
        "paused_cascade"@ != "unpushed_scopes"@,
        "diverged_scopes"@ != "unpushed_scopes"@,
        !is_machine_key("changes"@),
        !is_machine_key("incoming"@),
        !is_machine_key("conflicts"@),
        !is_machine_key("status"@),
        !is_machine_key("command"@),
{
    reveal_strlit("machine_scope");
    reveal_strlit("paused_cascade");
    reveal_strlit("diverged_scopes");
    reveal_strlit("unpushed_scopes");
    reveal_strlit("changes");
    reveal_strlit("incoming");
    reveal_strlit("conflicts");
    reveal_strlit("status");
    reveal_strlit("command");
    assert("machine_scope"@.len() == 13);
    assert("paused_cascade"@.len() == 14);
    assert("diverged_scopes"@.len() == 15);
    assert("unpushed_scopes"@.len() == 15);
    assert("changes"@.len() == 7);
    assert("incoming"@.len() == 8);
    assert("conflicts"@.len() == 9);
    assert("status"@.len() == 6);
    assert("command"@.len() == 7);
    assert("diverged_scopes"@[0] == 'd');
    assert("unpushed_scopes"@[0] == 'u');
}

/// What an answer told before, it tells with the machine's state too.
proof fn lemma_machine_keeps(
    answer: SuccessView,
    machine_scope: Text,
    machine: MachineState,
    key: Text,
    value: PayloadView,
)
    requires
        tells(answer.json, key, value),
        key == "changes"@ || key == "incoming"@ || key == "conflicts"@ || key == "status"@ || key
            == "command"@,
    ensures
        tells(machine_view(answer, machine_scope, machine).json, key, value),
{
    lemma_machine_keys();
    let scoped = with_field(answer.json, "machine_scope"@, shown(machine_scope));
    lemma_tells_kept(answer.json, "machine_scope"@, shown(machine_scope), key, value);
    let paused = match waits_at(machine) {
        Some(scope) => with_field(scoped, "paused_cascade"@, shown(scope)),
        None => scoped,
    };
    if let Some(scope) = waits_at(machine) {
        lemma_tells_kept(scoped, "paused_cascade"@, shown(scope), key, value);
    }
    let diverged = shown_list(texts(machine.diverged_scopes@));
    lemma_tells_kept(paused, "diverged_scopes"@, diverged, key, value);
    lemma_tells_kept(
        with_field(paused, "diverged_scopes"@, diverged),
        "unpushed_scopes"@,
        shown_list(texts(machine.unpushed_scopes@)),
        key,
        value,
    );
}

proof fn lemma_quoted_reads(scopes: Seq<Text>, at: int)
    requires
        0 <= at < scopes.len(),
    ensures
        reads(quoted(scopes), scopes[at]),
{
    let parts = scopes.map_values(|s: Text| "`"@ + s + "`"@);
    lemma_reads_part("`"@, scopes[at], "`"@);
    assert(parts[at] == "`"@ + scopes[at] + "`"@);
    lemma_joined_reads(parts, ", "@, at, scopes[at]);
}

/// Every answer of a command that looks says what is true of the machine: its
/// scope, where it waits, every scope that is contested and every scope that no
/// other machine can see yet. Nothing of the answer itself is lost.
pub proof fn law_an_answer_says_what_is_true_of_the_machine(
    answer: SuccessView,
    machine_scope: Text,
    machine: MachineState,
)
    ensures
        ({
            let said = machine_view(answer, machine_scope, machine);
            &&& said.human == answer.human
            &&& said.exit_code == answer.exit_code
            &&& forall|i: int|
                0 <= i < answer.notes.len() ==> said.notes.contains(#[trigger] answer.notes[i])
            &&& tells(said.json, "machine_scope"@, PayloadView::Text(machine_scope))
            &&& machine.paused_cascade matches Some(paused) ==> tells(
                said.json,
                "paused_cascade"@,
                PayloadView::Text(paused.scope@),
            ) && any_reads(said.notes, paused.scope@)
            &&& tells(
                said.json,
                "diverged_scopes"@,
                shown_list(texts(machine.diverged_scopes@)),
            )
            &&& lists_texts(
                shown_list(texts(machine.diverged_scopes@)),
                texts(machine.diverged_scopes@),
            )
            &&& tells(
                said.json,
                "unpushed_scopes"@,
                shown_list(texts(machine.unpushed_scopes@)),
            )
            &&& lists_texts(
                shown_list(texts(machine.unpushed_scopes@)),
                texts(machine.unpushed_scopes@),
            )
            &&& forall|i: int|
                0 <= i < machine.diverged_scopes@.len() ==> any_reads(
                    said.notes,
                    (#[trigger] machine.diverged_scopes@[i])@,
                )
            &&& forall|i: int|
                0 <= i < machine.unpushed_scopes@.len() ==> any_reads(
                    said.notes,
                    (#[trigger] machine.unpushed_scopes@[i])@,
                )
        }),
{
    lemma_machine_keys();
    let none: Seq<Text> = Seq::empty();
    let said = machine_view(answer, machine_scope, machine);
    let scoped = with_field(answer.json, "machine_scope"@, shown(machine_scope));
    let paused = match waits_at(machine) {
        Some(scope) => with_field(scoped, "paused_cascade"@, shown(scope)),
        None => scoped,
    };
    let diverged_value = shown_list(texts(machine.diverged_scopes@));
    let unpushed_value = shown_list(texts(machine.unpushed_scopes@));
    let diverged = with_field(paused, "diverged_scopes"@, diverged_value);
    lemma_tells_set(answer.json, "machine_scope"@, shown(machine_scope));
    if let Some(scope) = waits_at(machine) {
        lemma_tells_kept(
            scoped,
            "paused_cascade"@,
            shown(scope),
            "machine_scope"@,
            shown(machine_scope),
        );
        lemma_tells_set(scoped, "paused_cascade"@, shown(scope));
        lemma_tells_kept(
            paused,
            "diverged_scopes"@,
            diverged_value,
            "paused_cascade"@,
            shown(scope),
        );
        lemma_tells_kept(
            diverged,
            "unpushed_scopes"@,
            unpushed_value,
            "paused_cascade"@,
            shown(scope),
        );
    }
    lemma_tells_kept(
        paused,
        "diverged_scopes"@,
        diverged_value,
        "machine_scope"@,
        shown(machine_scope),
    );
    lemma_tells_kept(
        diverged,
        "unpushed_scopes"@,
        unpushed_value,
        "machine_scope"@,
        shown(machine_scope),
    );
    lemma_tells_set(paused, "diverged_scopes"@, diverged_value);
    lemma_tells_kept(
        diverged,
        "unpushed_scopes"@,
        unpushed_value,
        "diverged_scopes"@,
        diverged_value,
    );
    lemma_tells_set(diverged, "unpushed_scopes"@, unpushed_value);
    let first = paused_lines(waits_at(machine));
    let second = diverged_lines(texts(machine.diverged_scopes@));
    let third = unpushed_lines(texts(machine.unpushed_scopes@));
    assert forall|i: int| 0 <= i < answer.notes.len() implies said.notes.contains(
        #[trigger] answer.notes[i],
    ) by {
        assert(said.notes[i] == answer.notes[i]);
    }
    if let Some(cascade) = machine.paused_cascade {
        let scope = cascade.scope@;
        let rest =
            "`; this machine cannot commit and is publishing nothing until it is resolved"@;
        lemma_reads_part("dotsync: a cascade is paused at scope `"@, scope, rest);
        assert(first[0] == "dotsync: a cascade is paused at scope `"@ + scope + rest);
        lemma_any_reads_within(answer.notes, first, second + third, scope);
        assert(answer.notes + first + (second + third) =~= said.notes);
    }
    assert forall|i: int| 0 <= i < machine.diverged_scopes@.len() implies any_reads(
        said.notes,
        (#[trigger] machine.diverged_scopes@[i])@,
    ) by {
        let scopes = texts(machine.diverged_scopes@);
        let rest =
            " diverged: this machine and the remote each hold commits the other does not"@;
        lemma_quoted_reads(scopes, i);
        lemma_reads_within("dotsync: "@, quoted(scopes), rest, scopes[i]);
        assert(second[0] == "dotsync: "@ + quoted(scopes) + rest);
        lemma_any_reads_within(answer.notes + first, second, third, scopes[i]);
        assert((answer.notes + first) + second + third =~= said.notes);
    }
    assert forall|i: int| 0 <= i < machine.unpushed_scopes@.len() implies any_reads(
        said.notes,
        (#[trigger] machine.unpushed_scopes@[i])@,
    ) by {
        let scopes = texts(machine.unpushed_scopes@);
        let rest = " committed here and not on the remote"@;
        lemma_quoted_reads(scopes, i);
        lemma_reads_within("dotsync: "@, quoted(scopes), rest, scopes[i]);
        assert(third[0] == "dotsync: "@ + quoted(scopes) + rest);
        lemma_any_reads_within(answer.notes + first + second, third, none, scopes[i]);
        assert((answer.notes + first + second) + third + none =~= said.notes);
    }
}

/// A version of a conflicted file is printed with whose it is, what it is called
/// and what it holds, or that it does not have the file.
pub proof fn law_a_version_is_printed_whole(path: Text, version: ConflictedVersionView)
    ensures
        version_lines(path, version).len() == 2,
        reads(version_lines(path, version)[0], path),
        reads(version_lines(path, version)[0], role_text(version.role)),
        reads(version_lines(path, version)[0], version.label),
        version.contents matches Some(bytes) ==> version_lines(path, version)[1]
            == without_trailing(lossy_text(bytes), '\n'),
        version.contents is None ==> version_lines(path, version)[1]
            == "(this version does not have the file)"@,
{
    let header = version_lines(path, version)[0];
    let role = role_text(version.role);
    lemma_reads_part("--- "@, path, " | "@ + role + ": "@ + version.label + " ---"@);
    assert("--- "@ + path + (" | "@ + role + ": "@ + version.label + " ---"@) =~= header);
    lemma_reads_part("--- "@ + path + " | "@, role, ": "@ + version.label + " ---"@);
    assert(("--- "@ + path + " | "@) + role + (": "@ + version.label + " ---"@) =~= header);
    lemma_reads_part("--- "@ + path + " | "@ + role + ": "@, version.label, " ---"@);
}

/// Whether some lines hold the lines of one version, one after the other.
pub open spec fn prints_version(lines: Seq<Text>, path: Text, version: ConflictedVersionView) -> bool {
    exists|at: int|
        0 <= at < lines.len() - 1 && #[trigger] lines[at] == version_lines(path, version)[0]
            && lines[at + 1] == version_lines(path, version)[1]
}

proof fn lemma_prints_within(
    before: Seq<Text>,
    lines: Seq<Text>,
    after: Seq<Text>,
    path: Text,
    version: ConflictedVersionView,
)
    requires
        prints_version(lines, path, version),
    ensures
        prints_version(before + lines + after, path, version),
{
    let at = choose|at: int|
        0 <= at < lines.len() - 1 && #[trigger] lines[at] == version_lines(path, version)[0]
            && lines[at + 1] == version_lines(path, version)[1];
    let all = before + lines + after;
    assert(all[before.len() + at] == lines[at]);
    assert(all[before.len() + at + 1] == lines[at + 1]);
}

proof fn lemma_versions_printed(path: Text, versions: Seq<ConflictedVersionView>, at: int)
    requires
        0 <= at < versions.len(),
    ensures
        prints_version(versions_lines(path, versions), path, versions[at]),
    decreases versions.len(),
{
    let none: Seq<Text> = Seq::empty();
    let first = versions_lines(path, versions.drop_last());
    let last = version_lines(path, versions.last());
    if at == versions.len() - 1 {
        assert(last[0] == version_lines(path, versions[at])[0]);
        assert(prints_version(last, path, versions[at]));
        lemma_prints_within(first, last, none, path, versions[at]);
        assert(first + last + none =~= versions_lines(path, versions));
    } else {
        assert(versions.drop_last()[at] == versions[at]);
        lemma_versions_printed(path, versions.drop_last(), at);
        lemma_prints_within(none, first, last, path, versions[at]);
        assert(none + first + last =~= versions_lines(path, versions));
    }
}

/// Every version of every conflicted file is printed: what a reader resolves from
/// exists nowhere else.
pub proof fn law_every_version_of_a_conflict_is_printed(
    files: Seq<ConflictedFileView>,
    file: int,
    version: int,
)
    requires
        0 <= file < files.len(),
        0 <= version < files[file].versions.len(),
    ensures
        prints_version(
            conflicts_lines(files),
            files[file].path,
            files[file].versions[version],
        ),
    decreases files.len(),
{
    let none: Seq<Text> = Seq::empty();
    let first = conflicts_lines(files.drop_last());
    let last = conflict_lines(files.last());
    let path = files[file].path;
    let shown_version = files[file].versions[version];
    if file == files.len() - 1 {
        let versions = versions_lines(path, files[file].versions);
        lemma_versions_printed(path, files[file].versions, version);
        let opening = seq![last[0]];
        lemma_prints_within(opening, versions, none, path, shown_version);
        assert(opening + versions + none =~= last);
        lemma_prints_within(first, last, none, path, shown_version);
        assert(first + last + none =~= conflicts_lines(files));
    } else {
        assert(files.drop_last()[file] == files[file]);
        law_every_version_of_a_conflict_is_printed(files.drop_last(), file, version);
        lemma_prints_within(none, first, last, path, shown_version);
        assert(none + first + last =~= conflicts_lines(files));
    }
}

/// A machine is told of every conflicted file with every version of it: whose it
/// is, what it is called and what it holds. A version without the file is not the
/// same as an empty one.
pub proof fn law_every_version_of_a_conflict_is_told(
    files: Seq<ConflictedFileView>,
    file: int,
    version: int,
)
    requires
        0 <= file < files.len(),
        0 <= version < files[file].versions.len(),
    ensures
        conflicts_view(files) is List,
        conflicts_view(files)->List_0.len() == files.len(),
        conflicts_view(files)->List_0[file] == conflict_view(files[file]),
        conflict_view(files[file]) is Object,
        conflict_view(files[file])->Object_0.len() == 2,
        conflict_view(files[file])->Object_0[0] == ("path"@, PayloadView::Text(files[file].path)),
        conflict_view(files[file])->Object_0[1].0 == "versions"@,
        conflict_view(files[file])->Object_0[1].1 is List,
        conflict_view(files[file])->Object_0[1].1->List_0.len() == files[file].versions.len(),
        ({
            let told = conflict_view(files[file])->Object_0[1].1->List_0[version];
            let held = files[file].versions[version];
            &&& told is Object
            &&& tells(told->Object_0, "role"@, PayloadView::Text(role_text(held.role)))
            &&& tells(told->Object_0, "label"@, PayloadView::Text(held.label))
            &&& held.contents matches Some(bytes) ==> tells(
                told->Object_0,
                "contents"@,
                PayloadView::Text(lossy_text(bytes)),
            )
            &&& held.contents is None ==> tells(told->Object_0, "contents"@, PayloadView::Null)
        }),
{
    let told = conflict_view(files[file])->Object_0[1].1->List_0[version];
    assert(told == version_view(files[file].versions[version]));
    let fields = told->Object_0;
    assert(fields[0].0 == "role"@);
    assert(fields[1].0 == "label"@);
    assert(fields[2].0 == "contents"@);
}

/// The diff of a changed file goes from what the repo holds to what home holds,
/// and names them so; a side that is missing reads as empty. Only content that is
/// not text is not shown.
pub proof fn law_a_diff_goes_from_the_repo_to_home(
    repo: Option<Seq<u8>>,
    home: Option<Seq<u8>>,
    old: Text,
    new: Text,
)
    requires
        repo matches Some(bytes) ==> valid_utf8(bytes) && decode_utf8(bytes) == old,
        repo is None ==> old.len() == 0,
        home matches Some(bytes) ==> valid_utf8(bytes) && decode_utf8(bytes) == new,
        home is None ==> new.len() == 0,
    ensures
        ({
            let diff = unified_diff(old, new, "repo"@, "system"@);
            if diff.len() > 0 && diff.last() == '\n' {
                diff == drift_diff(repo, home).push('\n')
            } else {
                diff == drift_diff(repo, home)
            }
        }),
{
    let none: Text = Seq::empty();
    if repo is None {
        assert(old =~= none);
    }
    if home is None {
        assert(new =~= none);
    }
    let diff = unified_diff(old, new, "repo"@, "system"@);
    if diff.len() > 0 && diff.last() == '\n' {
        assert(diff =~= diff.drop_last().push('\n'));
    }
}

proof fn lemma_drifts_read(drifts: Seq<FileDrift>, at: int)
    requires
        0 <= at < drifts.len(),
    ensures
        any_reads(drifts_lines(drifts), drifts[at].repo_path.text@),
        any_reads(drifts_lines(drifts), reason_text(drifts[at].state)),
        any_reads(
            drifts_lines(drifts),
            drift_diff(opt_bytes(drifts[at].repo_bytes), opt_bytes(drifts[at].home_bytes)),
        ),
    decreases drifts.len(),
{
    let none: Seq<Text> = Seq::empty();
    let first = drifts_lines(drifts.drop_last());
    let path = drifts[at].repo_path.text@;
    let reason = reason_text(drifts[at].state);
    let diff = drift_diff(opt_bytes(drifts[at].repo_bytes), opt_bytes(drifts[at].home_bytes));
    let last = seq![
        change_line(drifts.last().repo_path.text@, drifts.last().state),
        drift_diff(opt_bytes(drifts.last().repo_bytes), opt_bytes(drifts.last().home_bytes)),
    ];
    assert(drifts_lines(drifts) == first + last);
    if at == drifts.len() - 1 {
        law_a_change_is_printed_with_its_reason(path, drifts[at].state);
        lemma_reads_itself(diff);
        assert(reads(last[0], path));
        assert(reads(last[0], reason));
        assert(reads(last[1], diff));
        lemma_any_reads_within(first, last, none, path);
        lemma_any_reads_within(first, last, none, reason);
        lemma_any_reads_within(first, last, none, diff);
        assert(first + last + none =~= drifts_lines(drifts));
    } else {
        assert(drifts.drop_last()[at] == drifts[at]);
        lemma_drifts_read(drifts.drop_last(), at);
        lemma_any_reads_within(none, first, last, path);
        lemma_any_reads_within(none, first, last, reason);
        lemma_any_reads_within(none, first, last, diff);
        assert(none + first + last =~= drifts_lines(drifts));
    }
}

/// `diff` prints every file that home changed, with its reason and its two sides,
/// tells a machine the same, and exits with one exactly when there is such a file.
pub proof fn law_diff_prints_every_file(report: DiffReport)
    ensures
        forall|i: int|
            0 <= i < report.drifts@.len() ==> reads(
                diff_text(report),
                (#[trigger] report.drifts@[i]).repo_path.text@,
            ) && reads(diff_text(report), reason_text(report.drifts@[i].state)) && reads(
                diff_text(report),
                drift_diff(
                    opt_bytes(report.drifts@[i].repo_bytes),
                    opt_bytes(report.drifts@[i].home_bytes),
                ),
            ),
        diff_view(report).human == HumanView::Message(diff_text(report)),
        diff_view(report).exit_code == 0 <==> report.drifts@.len() == 0,
        diff_view(report).exit_code == 1 <==> report.drifts@.len() > 0,
        tells(diff_view(report).json, "changes"@, drifts_view(report.drifts@)),
        drifts_view(report.drifts@) is List,
        drifts_view(report.drifts@)->List_0.len() == report.drifts@.len(),
        forall|i: int|
            0 <= i < report.drifts@.len() ==> {
                let item = #[trigger] drifts_view(report.drifts@)->List_0[i];
                let drift = report.drifts@[i];
                &&& item is Object
                &&& tells(item->Object_0, "path"@, PayloadView::Text(drift.repo_path.text@))
                &&& tells(item->Object_0, "state"@, PayloadView::Text(code_text(drift.state)))
                &&& tells(item->Object_0, "reason"@, PayloadView::Text(reason_text(drift.state)))
                &&& tells(
                    item->Object_0,
                    "diff"@,
                    PayloadView::Text(
                        drift_diff(opt_bytes(drift.repo_bytes), opt_bytes(drift.home_bytes)),
                    ),
                )
            },
{
    let none: Seq<Text> = Seq::empty();
    let first = seq![changed_header(report.drifts@.len(), report.machine_scope@)];
    let lines = first + drifts_lines(report.drifts@);
    assert forall|i: int| 0 <= i < report.drifts@.len() implies reads(
        diff_text(report),
        (#[trigger] report.drifts@[i]).repo_path.text@,
    ) && reads(diff_text(report), reason_text(report.drifts@[i].state)) && reads(
        diff_text(report),
        drift_diff(
            opt_bytes(report.drifts@[i].repo_bytes),
            opt_bytes(report.drifts@[i].home_bytes),
        ),
    ) by {
        let drift = report.drifts@[i];
        let diff = drift_diff(opt_bytes(drift.repo_bytes), opt_bytes(drift.home_bytes));
        lemma_drifts_read(report.drifts@, i);
        lemma_any_reads_within(first, drifts_lines(report.drifts@), none, drift.repo_path.text@);
        lemma_any_reads_within(first, drifts_lines(report.drifts@), none, reason_text(drift.state));
        lemma_any_reads_within(first, drifts_lines(report.drifts@), none, diff);
        assert(first + drifts_lines(report.drifts@) + none =~= lines);
        lemma_joined_any(lines, "\n"@, drift.repo_path.text@);
        lemma_joined_any(lines, "\n"@, reason_text(drift.state));
        lemma_joined_any(lines, "\n"@, diff);
    }
    let fields = seq![
        ("status"@, shown("ok"@)),
        ("command"@, shown("diff"@)),
        ("changes"@, drifts_view(report.drifts@)),
    ];
    let answer = SuccessView {
        json: fields,
        human: HumanView::Message(diff_text(report)),
        notes: Seq::empty(),
        exit_code: 0,
    };
    assert(fields[2].0 == "changes"@);
    lemma_machine_keeps(
        answer,
        report.machine_scope@,
        report.machine,
        "changes"@,
        drifts_view(report.drifts@),
    );
    reveal_strlit("path");
    reveal_strlit("state");
    reveal_strlit("reason");
    reveal_strlit("diff");
    assert("path"@.len() == 4 && "path"@[0] == 'p');
    assert("diff"@.len() == 4 && "diff"@[0] == 'd');
    assert("state"@.len() == 5);
    assert("reason"@.len() == 6);
    assert forall|i: int| 0 <= i < report.drifts@.len() implies {
        let item = #[trigger] drifts_view(report.drifts@)->List_0[i];
        let drift = report.drifts@[i];
        &&& item is Object
        &&& tells(item->Object_0, "path"@, PayloadView::Text(drift.repo_path.text@))
        &&& tells(item->Object_0, "state"@, PayloadView::Text(code_text(drift.state)))
        &&& tells(item->Object_0, "reason"@, PayloadView::Text(reason_text(drift.state)))
        &&& tells(
            item->Object_0,
            "diff"@,
            PayloadView::Text(
                drift_diff(opt_bytes(drift.repo_bytes), opt_bytes(drift.home_bytes)),
            ),
        )
    } by {
        let drift = report.drifts@[i];
        let path = drift.repo_path.text@;
        let code = code_text(drift.state);
        let reason = reason_text(drift.state);
        let diff = shown(drift_diff(opt_bytes(drift.repo_bytes), opt_bytes(drift.home_bytes)));
        let plain = change_view(path, code, reason);
        lemma_change_fields(path, code, reason);
        lemma_tells_set(plain, "diff"@, diff);
        lemma_tells_kept(plain, "diff"@, diff, "path"@, shown(path));
        lemma_tells_kept(plain, "diff"@, diff, "state"@, shown(code));
        lemma_tells_kept(plain, "diff"@, diff, "reason"@, shown(reason));
    }
}

/// Every scope that a push left behind is named, with why.
pub proof fn law_every_scope_left_behind_is_named(push: PushReport)
    ensures
        push is UpToDate ==> push_lines(push).len() == 0,
        push matches PushReport::Refused { scopes, rejection } ==> reads(
            push_lines(push)[0],
            rejection_reason(rejection),
        ) && forall|i: int|
            0 <= i < scopes@.len() ==> reads(push_lines(push)[0], (#[trigger] scopes@[i])@),
        push matches PushReport::Unreachable { scopes, reason } ==> reads(
            push_lines(push)[0],
            reason@,
        ) && forall|i: int|
            0 <= i < scopes@.len() ==> reads(push_lines(push)[0], (#[trigger] scopes@[i])@),
        push is UpToDate ==> left_behind(push).len() == 0,
        push matches PushReport::Refused { scopes, rejection } ==> left_behind(push) == texts(
            scopes@,
        ),
        push matches PushReport::Unreachable { scopes, reason } ==> left_behind(push) == texts(
            scopes@,
        ),
{
    match push {
        PushReport::UpToDate => {},
        PushReport::Refused { scopes, rejection } => {
            let names = joined(texts(scopes@), ", "@);
            let why = rejection_reason(rejection);
            let before = "dotsync: the remote refused "@;
            lemma_reads_part(before + names + " ("@, why, ")"@);
            assert forall|i: int| 0 <= i < scopes@.len() implies reads(
                push_lines(push)[0],
                (#[trigger] scopes@[i])@,
            ) by {
                lemma_reads_itself(scopes@[i]@);
                lemma_joined_reads(texts(scopes@), ", "@, i, scopes@[i]@);
                lemma_reads_within(before, names, " ("@ + why + ")"@, scopes@[i]@);
                assert(before + names + (" ("@ + why + ")"@) =~= push_lines(push)[0]);
            }
        },
        PushReport::Unreachable { scopes, reason } => {
            let names = joined(texts(scopes@), ", "@);
            let before = "dotsync: could not publish "@;
            lemma_reads_part(before + names + " ("@, reason@, ")"@);
            assert forall|i: int| 0 <= i < scopes@.len() implies reads(
                push_lines(push)[0],
                (#[trigger] scopes@[i])@,
            ) by {
                lemma_reads_itself(scopes@[i]@);
                lemma_joined_reads(texts(scopes@), ", "@, i, scopes@[i]@);
                lemma_reads_within(before, names, " ("@ + reason@ + ")"@, scopes@[i]@);
                assert(before + names + (" ("@ + reason@ + ")"@) =~= push_lines(push)[0]);
            }
        },
    }
}

/// A command that brings home up to its scope tells of every file it wrote, every
/// file it wrote over and every change it carried, prints the last two with what
/// they held, and says what it left unpublished.
pub proof fn law_a_sync_tells_of_every_file(
    command: Text,
    headline: Text,
    sync: SyncReport,
    push: Option<PushReport>,
)
    ensures
        ({
            let said = synced_view(command, headline, sync, push);
            &&& said.human == HumanView::Message(headline)
            &&& said.exit_code == 0
            &&& tells(said.json, "command"@, PayloadView::Text(command))
            &&& tells(said.json, "machine_scope"@, PayloadView::Text(sync.current_scope@))
            &&& tells(said.json, "synced_files"@, shown_list(path_texts(sync.synced_paths@)))
            &&& lists_texts(
                shown_list(path_texts(sync.synced_paths@)),
                sync.synced_paths@.map_values(|p: FilePath| p.text@),
            )
            &&& tells(said.json, "overwritten_files"@, shown_list(drift_paths(sync.drifts@)))
            &&& lists_texts(
                shown_list(drift_paths(sync.drifts@)),
                sync.drifts@.map_values(|d: FileDrift| d.repo_path.text@),
            )
            &&& tells(said.json, "carried_changes"@, changes_view(sync.carried_changes@))
            &&& lists_changes(changes_view(sync.carried_changes@), sync.carried_changes@)
            &&& forall|i: int|
                0 <= i < sync.drifts@.len() ==> any_reads(
                    said.notes,
                    (#[trigger] sync.drifts@[i]).repo_path.text@,
                ) && any_reads(
                    said.notes,
                    drift_diff(
                        opt_bytes(sync.drifts@[i].repo_bytes),
                        opt_bytes(sync.drifts@[i].home_bytes),
                    ),
                )
            &&& forall|i: int|
                0 <= i < sync.carried_changes@.len() ==> any_reads(
                    said.notes,
                    (#[trigger] sync.carried_changes@[i]).path.text@,
                ) && any_reads(said.notes, reason_text(sync.carried_changes@[i].state))
            &&& push matches Some(push) ==> tells(
                said.json,
                "unpushed_scopes"@,
                shown_list(left_behind(push)),
            ) && lists_texts(shown_list(left_behind(push)), left_behind(push)) && forall|k: int|
                0 <= k < push_lines(push).len() ==> said.notes.contains(
                    #[trigger] push_lines(push)[k],
                )
        }),
{
    let none: Seq<Text> = Seq::empty();
    let said = synced_view(command, headline, sync, push);
    let fields = synced_view(command, headline, sync, None).json;
    assert(fields[1].0 == "command"@);
    assert(fields[2].0 == "machine_scope"@);
    assert(fields[3].0 == "synced_files"@);
    assert(fields[4].0 == "overwritten_files"@);
    assert(fields[5].0 == "carried_changes"@);
    law_every_change_is_told(sync.carried_changes@);
    if let Some(push) = push {
        let value = shown_list(left_behind(push));
        reveal_strlit("unpushed_scopes");
        reveal_strlit("command");
        reveal_strlit("machine_scope");
        reveal_strlit("synced_files");
        reveal_strlit("overwritten_files");
        reveal_strlit("carried_changes");
        assert("unpushed_scopes"@.len() == 15 && "unpushed_scopes"@[0] == 'u');
        assert("carried_changes"@.len() == 15 && "carried_changes"@[0] == 'c');
        assert("command"@.len() == 7);
        assert("machine_scope"@.len() == 13);
        assert("synced_files"@.len() == 12);
        assert("overwritten_files"@.len() == 17);
        lemma_tells_set(fields, "unpushed_scopes"@, value);
        lemma_tells_kept(fields, "unpushed_scopes"@, value, "command"@, fields[1].1);
        lemma_tells_kept(fields, "unpushed_scopes"@, value, "machine_scope"@, fields[2].1);
        lemma_tells_kept(fields, "unpushed_scopes"@, value, "synced_files"@, fields[3].1);
        lemma_tells_kept(fields, "unpushed_scopes"@, value, "overwritten_files"@, fields[4].1);
        lemma_tells_kept(fields, "unpushed_scopes"@, value, "carried_changes"@, fields[5].1);
    }
    let carried = carried_lines(sync.carried_changes@);
    let pushed = match push {
        Some(push) => push_lines(push),
        None => none,
    };
    let over = overwritten_lines(sync.drifts@);
    assert(said.notes =~= carried + pushed + over);
    if let Some(push) = push {
        assert forall|k: int| 0 <= k < push_lines(push).len() implies said.notes.contains(
            #[trigger] push_lines(push)[k],
        ) by {
            assert(said.notes[carried.len() + k] == push_lines(push)[k]);
        }
    }
    assert forall|i: int| 0 <= i < sync.drifts@.len() implies any_reads(
        said.notes,
        (#[trigger] sync.drifts@[i]).repo_path.text@,
    ) && any_reads(
        said.notes,
        drift_diff(opt_bytes(sync.drifts@[i].repo_bytes), opt_bytes(sync.drifts@[i].home_bytes)),
    ) by {
        let drift = sync.drifts@[i];
        let diff = drift_diff(opt_bytes(drift.repo_bytes), opt_bytes(drift.home_bytes));
        lemma_drifts_read(sync.drifts@, i);
        let before = carried + pushed + seq![over[0]];
        lemma_any_reads_within(before, drifts_lines(sync.drifts@), none, drift.repo_path.text@);
        lemma_any_reads_within(before, drifts_lines(sync.drifts@), none, diff);
        assert(before + drifts_lines(sync.drifts@) + none =~= said.notes);
    }
    assert forall|i: int| 0 <= i < sync.carried_changes@.len() implies any_reads(
        said.notes,
        (#[trigger] sync.carried_changes@[i]).path.text@,
    ) && any_reads(said.notes, reason_text(sync.carried_changes@[i].state)) by {
        let change = sync.carried_changes@[i];
        lemma_change_lines_read(sync.carried_changes@, i);
        let before = seq![carried[0]];
        let after = seq![CARRIED_ADVICE@] + pushed + over;
        let lines = change_lines(sync.carried_changes@);
        lemma_any_reads_within(before, lines, after, change.path.text@);
        lemma_any_reads_within(before, lines, after, reason_text(change.state));
        assert(before + lines + after =~= said.notes);
    }
}

/// A note that lists shows the first handful of what it lists, all of it where it
/// is no more than that, and says how many more there are otherwise.
pub proof fn law_a_short_list_is_shown_whole(lines: Seq<Text>)
    ensures
        forall|i: int|
            0 <= i < lines.len() && i < 5 ==> reads(
                #[trigger] shortened(lines)[i],
                lines[i],
            ),
        lines.len() <= 5 ==> shortened(lines).len() == lines.len(),
        lines.len() > 5 ==> shortened(lines).len() == 6 && reads(
            shortened(lines)[5],
            decimal((lines.len() - 5) as nat),
        ),
{
    let none: Text = Seq::empty();
    assert forall|i: int| 0 <= i < lines.len() && i < 5 implies reads(
        #[trigger] shortened(lines)[i],
        lines[i],
    ) by {
        lemma_reads_part("- "@, lines[i], none);
        assert("- "@ + lines[i] + none =~= "- "@ + lines[i]);
        assert(shortened(lines)[i] == "- "@ + lines[i]);
    }
    if lines.len() > 5 {
        lemma_reads_part("- ... and "@, decimal((lines.len() - 5) as nat), " more"@);
    }
}

/// Whether a value tells of paths that were left alone: each of them, in order,
/// with the code and the words of why.
pub open spec fn lists_skipped(value: PayloadView, skipped: Seq<SkippedCommitPath>) -> bool {
    &&& value is List
    &&& value->List_0.len() == skipped.len()
    &&& forall|i: int|
        0 <= i < skipped.len() ==> {
            let item = #[trigger] value->List_0[i];
            &&& item is Object
            &&& tells(item->Object_0, "path"@, PayloadView::Text(skipped[i].path.text@))
            &&& tells(item->Object_0, "state"@, PayloadView::Text(skip_code(skipped[i].reason)))
            &&& tells(item->Object_0, "reason"@, PayloadView::Text(skip_text(skipped[i].reason)))
        }
}

proof fn lemma_commit_keys()
    ensures
        "synced_files"@ != "newly_tracked"@,
        "outcome"@ != "synced_files"@,
        "outcome"@ != "newly_tracked"@,
        "scope"@ != "synced_files"@,
        "scope"@ != "newly_tracked"@,
        "skipped_paths"@ != "synced_files"@,
        "skipped_paths"@ != "newly_tracked"@,
        "unpushed_scopes"@ != "synced_files"@,
        "unpushed_scopes"@ != "newly_tracked"@,
{
    reveal_strlit("synced_files");
    reveal_strlit("newly_tracked");
    reveal_strlit("outcome");
    reveal_strlit("scope");
    reveal_strlit("skipped_paths");
    reveal_strlit("unpushed_scopes");
    assert("synced_files"@.len() == 12);
    assert("newly_tracked"@.len() == 13 && "newly_tracked"@[0] == 'n');
    assert("outcome"@.len() == 7);
    assert("scope"@.len() == 5);
    assert("skipped_paths"@.len() == 13 && "skipped_paths"@[0] == 's');
    assert("unpushed_scopes"@.len() == 15);
}

/// A commit says whether it recorded anything and on which scope, every path that
/// it left alone and why, every file it put on the scope for the first time, every
/// file it wrote, and what it left unpublished.
pub proof fn law_a_commit_tells_of_every_file(report: CommitReport, named_paths: bool)
    ensures
        ({
            let said = commit_view(report, named_paths);
            &&& said.exit_code == 0
            &&& tells(said.json, "scope"@, PayloadView::Text(report.committed_scope@))
            &&& tells(
                said.json,
                "outcome"@,
                PayloadView::Text(
                    if report.recorded is Some {
                        "committed"@
                    } else {
                        "nothing_to_commit"@
                    },
                ),
            )
            &&& tells(said.json, "skipped_paths"@, skipped_view(report.skipped@))
            &&& lists_skipped(skipped_view(report.skipped@), report.skipped@)
            &&& tells(said.json, "unpushed_scopes"@, shown_list(left_behind(report.push)))
            &&& lists_texts(shown_list(left_behind(report.push)), left_behind(report.push))
            &&& forall|k: int|
                0 <= k < push_lines(report.push).len() ==> said.notes.contains(
                    #[trigger] push_lines(report.push)[k],
                )
            &&& forall|k: int|
                0 <= k < skipped_lines(report.skipped@).len() ==> said.notes.contains(
                    #[trigger] skipped_lines(report.skipped@)[k],
                )
            &&& report.recorded matches Some(recorded) ==> {
                &&& tells(
                    said.json,
                    "synced_files"@,
                    shown_list(path_texts(recorded.sync.synced_paths@)),
                )
                &&& lists_texts(
                    shown_list(path_texts(recorded.sync.synced_paths@)),
                    recorded.sync.synced_paths@.map_values(|p: FilePath| p.text@),
                )
                &&& tells(
                    said.json,
                    "newly_tracked"@,
                    shown_list(path_texts(recorded.newly_tracked@)),
                )
                &&& lists_texts(
                    shown_list(path_texts(recorded.newly_tracked@)),
                    recorded.newly_tracked@.map_values(|p: FilePath| p.text@),
                )
                &&& forall|k: int|
                    0 <= k < newly_tracked_lines(recorded.newly_tracked@).len()
                        ==> said.notes.contains(
                        #[trigger] newly_tracked_lines(recorded.newly_tracked@)[k],
                    )
                &&& forall|i: int|
                    0 <= i < recorded.sync.drifts@.len() ==> any_reads(
                        said.notes,
                        (#[trigger] recorded.sync.drifts@[i]).repo_path.text@,
                    )
            }
        }),
{
    lemma_commit_keys();
    let none: Seq<Text> = Seq::empty();
    let said = commit_view(report, named_paths);
    let fields = commit_fields(report);
    assert(fields[2].0 == "outcome"@);
    assert(fields[3].0 == "scope"@);
    assert(fields[5].0 == "skipped_paths"@);
    assert(fields[6].0 == "unpushed_scopes"@);
    let value = skipped_view(report.skipped@);
    assert forall|i: int| 0 <= i < report.skipped@.len() implies {
        let item = #[trigger] value->List_0[i];
        &&& item is Object
        &&& tells(item->Object_0, "path"@, PayloadView::Text(report.skipped@[i].path.text@))
        &&& tells(item->Object_0, "state"@, PayloadView::Text(skip_code(report.skipped@[i].reason)))
        &&& tells(item->Object_0, "reason"@, PayloadView::Text(skip_text(report.skipped@[i].reason)))
    } by {
        lemma_change_fields(
            report.skipped@[i].path.text@,
            skip_code(report.skipped@[i].reason),
            skip_text(report.skipped@[i].reason),
        );
    }
    let skipped = skipped_lines(report.skipped@);
    let pushed = push_lines(report.push);
    match report.recorded {
        None => {
            let advice = if named_paths {
                none
            } else {
                seq![NEW_FILE_ADVICE@]
            };
            assert(said.notes == skipped + advice + pushed);
            assert forall|k: int| 0 <= k < pushed.len() implies said.notes.contains(
                #[trigger] pushed[k],
            ) by {
                assert(said.notes[skipped.len() + advice.len() + k] == pushed[k]);
            }
            assert forall|k: int| 0 <= k < skipped.len() implies said.notes.contains(
                #[trigger] skipped[k],
            ) by {
                assert(said.notes[k] == skipped[k]);
            }
        },
        Some(recorded) => {
            let synced = shown_list(path_texts(recorded.sync.synced_paths@));
            let fresh = shown_list(path_texts(recorded.newly_tracked@));
            let first = with_field(fields, "synced_files"@, synced);
            lemma_tells_set(fields, "synced_files"@, synced);
            lemma_tells_kept(fields, "synced_files"@, synced, "outcome"@, fields[2].1);
            lemma_tells_kept(fields, "synced_files"@, synced, "scope"@, fields[3].1);
            lemma_tells_kept(fields, "synced_files"@, synced, "skipped_paths"@, fields[5].1);
            lemma_tells_kept(fields, "synced_files"@, synced, "unpushed_scopes"@, fields[6].1);
            lemma_tells_set(first, "newly_tracked"@, fresh);
            lemma_tells_kept(first, "newly_tracked"@, fresh, "synced_files"@, synced);
            lemma_tells_kept(first, "newly_tracked"@, fresh, "outcome"@, fields[2].1);
            lemma_tells_kept(first, "newly_tracked"@, fresh, "scope"@, fields[3].1);
            lemma_tells_kept(first, "newly_tracked"@, fresh, "skipped_paths"@, fields[5].1);
            lemma_tells_kept(first, "newly_tracked"@, fresh, "unpushed_scopes"@, fields[6].1);
            let new_lines = newly_tracked_lines(recorded.newly_tracked@);
            let over = overwritten_lines(recorded.sync.drifts@);
            assert(said.notes =~= new_lines + skipped + pushed + over);
            assert forall|k: int| 0 <= k < pushed.len() implies said.notes.contains(
                #[trigger] pushed[k],
            ) by {
                assert(said.notes[new_lines.len() + skipped.len() + k] == pushed[k]);
            }
            assert forall|k: int| 0 <= k < skipped.len() implies said.notes.contains(
                #[trigger] skipped[k],
            ) by {
                assert(said.notes[new_lines.len() + k] == skipped[k]);
            }
            assert forall|k: int| 0 <= k < new_lines.len() implies said.notes.contains(
                #[trigger] new_lines[k],
            ) by {
                assert(said.notes[k] == new_lines[k]);
            }
            assert forall|i: int| 0 <= i < recorded.sync.drifts@.len() implies any_reads(
                said.notes,
                (#[trigger] recorded.sync.drifts@[i]).repo_path.text@,
            ) by {
                let drifts = recorded.sync.drifts@;
                let before = new_lines + skipped + pushed + seq![over[0]];
                lemma_drifts_read(drifts, i);
                lemma_any_reads_within(
                    before,
                    drifts_lines(drifts),
                    none,
                    drifts[i].repo_path.text@,
                );
                assert(before + drifts_lines(drifts) + none =~= said.notes);
            }
        },
    }
}

/// The notes of a commit name every path that it left alone and every file that it
/// put on the scope for the first time, as far as a note shows them.
pub proof fn law_a_commit_notes_what_it_left_alone(
    skipped: Seq<SkippedCommitPath>,
    fresh: Seq<FilePath>,
)
    ensures
        forall|i: int|
            0 <= i < skipped.len() && i < 5 ==> any_reads(
                skipped_lines(skipped),
                (#[trigger] skipped[i]).path.text@,
            ) && any_reads(skipped_lines(skipped), skip_text(skipped[i].reason)),
        forall|i: int|
            0 <= i < fresh.len() && i < 5 ==> any_reads(
                newly_tracked_lines(fresh),
                (#[trigger] fresh[i]).text@,
            ),
{
    let none: Seq<Text> = Seq::empty();
    let blank: Text = Seq::empty();
    let named = skipped.map_values(|s: SkippedCommitPath| skipped_line(s));
    law_a_short_list_is_shown_whole(named);
    assert forall|i: int| 0 <= i < skipped.len() && i < 5 implies any_reads(
        skipped_lines(skipped),
        (#[trigger] skipped[i]).path.text@,
    ) && any_reads(skipped_lines(skipped), skip_text(skipped[i].reason)) by {
        let path = skipped[i].path.text@;
        let reason = skip_text(skipped[i].reason);
        let all = skipped_lines(skipped);
        assert(named[i] == path + " ("@ + reason + ")"@);
        assert(all[1 + i] == shortened(named)[i]);
        assert(shortened(named)[i] == "- "@ + named[i]);
        lemma_reads_part("- "@, path, " ("@ + reason + ")"@);
        assert("- "@ + path + (" ("@ + reason + ")"@) =~= all[1 + i]);
        lemma_reads_part("- "@ + path + " ("@, reason, ")"@);
        assert(("- "@ + path + " ("@) + reason + ")"@ =~= all[1 + i]);
    }
    law_a_short_list_is_shown_whole(path_texts(fresh));
    assert forall|i: int| 0 <= i < fresh.len() && i < 5 implies any_reads(
        newly_tracked_lines(fresh),
        (#[trigger] fresh[i]).text@,
    ) by {
        assert(path_texts(fresh)[i] == fresh[i].text@);
        assert(newly_tracked_lines(fresh)[1 + i] == shortened(path_texts(fresh))[i]);
    }
}

/// What was created is said with every parent that it hangs under.
pub proof fn law_a_created_scope_is_said_with_every_parent(report: CreatedScope)
    ensures
        tells(created_view(report).json, "scope"@, PayloadView::Text(report.scope@)),
        tells(created_view(report).json, "parents"@, shown_list(texts(report.parents@))),
        lists_texts(shown_list(texts(report.parents@)), texts(report.parents@)),
        created_view(report).human is Message,
        reads(created_view(report).human->Message_0, report.scope@),
        forall|i: int|
            0 <= i < report.parents@.len() ==> reads(
                created_view(report).human->Message_0,
                (#[trigger] report.parents@[i])@,
            ),
        created_view(report).notes == push_lines(report.push),
        created_view(report).exit_code == 0,
{
    let fields = created_view(report).json;
    assert(fields[2].0 == "scope"@);
    assert(fields[3].0 == "parents"@);
    let none: Text = Seq::empty();
    let parents = joined(texts(report.parents@), ", "@);
    let message = created_view(report).human->Message_0;
    lemma_reads_part("dotsync: created scope "@, report.scope@, " under "@ + parents);
    assert("dotsync: created scope "@ + report.scope@ + (" under "@ + parents) =~= message);
    assert forall|i: int| 0 <= i < report.parents@.len() implies reads(
        message,
        (#[trigger] report.parents@[i])@,
    ) by {
        let parent = report.parents@[i]@;
        lemma_reads_itself(parent);
        lemma_joined_reads(texts(report.parents@), ", "@, i, parent);
        let before = "dotsync: created scope "@ + report.scope@ + " under "@;
        lemma_reads_within(before, parents, none, parent);
        assert(before + parents + none =~= message);
    }
}

/// `view` of one scope prints the scope and every file it holds, and `view` of one
/// file prints every scope that holds it, or that none does.
pub proof fn law_view_prints_every_file_and_scope(
    scope: Text,
    files: Seq<FilePath>,
    path: Text,
    scopes: Seq<Text>,
)
    ensures
        reads(scope_text(scope, files), scope),
        forall|i: int|
            0 <= i < files.len() ==> reads(
                scope_text(scope, files),
                (#[trigger] files[i]).text@,
            ),
        reads(file_text(path, scopes, owner_of(scopes)), path),
        forall|i: int|
            0 <= i < scopes.len() ==> reads(
                file_text(path, scopes, owner_of(scopes)),
                #[trigger] scopes[i],
            ),
        owner_of(scopes) is None <==> scopes.len() == 0,
        owner_of(scopes) matches Some(owner) ==> owner == scopes[0],
{
    let none: Text = Seq::empty();
    let lines = seq!["Scope "@ + scope] + path_texts(files);
    lemma_reads_part("Scope "@, scope, none);
    assert("Scope "@ + scope + none =~= lines[0]);
    lemma_closed_reads(lines, 0, scope);
    assert forall|i: int| 0 <= i < files.len() implies reads(
        scope_text(scope, files),
        (#[trigger] files[i]).text@,
    ) by {
        lemma_reads_itself(files[i].text@);
        assert(path_texts(files)[i] == files[i].text@);
        assert(lines[1 + i] == files[i].text@);
        lemma_closed_reads(lines, 1 + i, files[i].text@);
    }
    lemma_reads_part("File "@, path, none);
    assert("File "@ + path + none =~= "File "@ + path);
    match owner_of(scopes) {
        None => {
            let said = seq![
                "File "@ + path,
                "No scope holds "@ + path + "."@,
                "Run `dotsync view` to see every file the scopes do hold."@,
            ];
            assert(said[0] == "File "@ + path);
            lemma_closed_reads(said, 0, path);
        },
        Some(owner) => {
            let head = seq![
                "File "@ + path,
                "Owned by "@ + owner
                    + "; every other scope below has it from the cascade."@,
                "Scopes"@,
            ];
            let said = head + scopes;
            assert(said[0] == "File "@ + path);
            lemma_closed_reads(said, 0, path);
            assert forall|i: int| 0 <= i < scopes.len() implies reads(
                file_text(path, scopes, owner_of(scopes)),
                #[trigger] scopes[i],
            ) by {
                lemma_reads_itself(scopes[i]);
                assert(said[3 + i] == scopes[i]);
                lemma_closed_reads(said, 3 + i, scopes[i]);
            }
        },
    }
}

/// An answer of a machine that waits on a merge prints the merge again: every
/// version of every file, for a person and for a machine.
pub proof fn law_a_waiting_merge_is_printed_again(
    answer: SuccessView,
    machine: MachineState,
    file: int,
    version: int,
)
    requires
        machine.paused_cascade is Some,
        0 <= file < machine.paused_cascade->Some_0.conflicts@.len(),
        0 <= version < file_views(
            machine.paused_cascade->Some_0.conflicts@,
        )[file].versions.len(),
    ensures
        ({
            let files = file_views(machine.paused_cascade->Some_0.conflicts@);
            &&& prints_version(
                reprinted(answer, machine).notes,
                files[file].path,
                files[file].versions[version],
            )
            &&& tells(reprinted(answer, machine).json, "conflicts"@, conflicts_view(files))
            &&& reprinted(answer, machine).human == answer.human
            &&& reprinted(answer, machine).exit_code == answer.exit_code
        }),
{
    let none: Seq<Text> = Seq::empty();
    let paused = machine.paused_cascade->Some_0;
    let files = file_views(paused.conflicts@);
    law_every_version_of_a_conflict_is_printed(files, file, version);
    let before = answer.notes + seq![
        "dotsync: the merge at `"@ + paused.scope@ + "` is waiting on these file(s)"@,
    ];
    lemma_prints_within(
        before,
        conflicts_lines(files),
        none,
        files[file].path,
        files[file].versions[version],
    );
    assert(before + conflicts_lines(files) + none =~= reprinted(answer, machine).notes);
    lemma_tells_set(answer.json, "conflicts"@, conflicts_view(files));
}

/// What a run that worked has to say is printed whole: its notes in every format,
/// its answer to a person where a person asked, and its fields where a machine did.
pub proof fn law_an_answer_is_printed_whole(
    format: OutputFormat,
    success: SuccessView,
    reason: Option<Text>,
)
    ensures
        ({
            let printed = success_emission(format, success, reason);
            &&& forall|i: int|
                0 <= i < success.notes.len() ==> printed.stderr.contains(
                    #[trigger] success.notes[i],
                )
            &&& reason matches Some(reason) ==> any_reads(printed.stderr, reason)
            &&& printed.exit_code == success.exit_code
            &&& format is Json <==> printed.payload is Some
            &&& format is Json && reason is None ==> printed.payload == Some(success.json)
            &&& format is Json && reason is Some ==> tells(
                printed.payload->Some_0,
                "remote_unreachable"@,
                PayloadView::Text(reason->Some_0),
            )
            &&& format is Json ==> printed.stdout is None
            &&& format is Human ==> match success.human {
                HumanView::Stdout(text) => printed.stdout == Some(text),
                HumanView::Message(message) => printed.stdout is None && printed.stderr.len() > 0
                    && printed.stderr.last() == message,
            }
        }),
{
    let printed = success_emission(format, success, reason);
    let none: Text = Seq::empty();
    let opening = unreachable_lines(reason);
    assert forall|i: int| 0 <= i < success.notes.len() implies printed.stderr.contains(
        #[trigger] success.notes[i],
    ) by {
        assert(printed.stderr[opening.len() + i] == success.notes[i]);
    }
    if let Some(reason) = reason {
        lemma_reads_part("dotsync: "@, reason, none);
        assert("dotsync: "@ + reason + none =~= opening[1]);
        assert(printed.stderr[1] == opening[1]);
        lemma_tells_set(success.json, "remote_unreachable"@, shown(reason));
    }
}

/// A stop is printed whole: what it teaches, what was found, every next step, and
/// every version of every conflicted file.
pub proof fn law_a_stop_is_printed_whole(
    format: OutputFormat,
    stop: ExplanationView,
    reason: Option<Text>,
)
    ensures
        ({
            let printed = stop_emission(format, stop, reason);
            &&& printed.stderr.contains(error_text(stop))
            &&& printed.stdout is None
            &&& printed.exit_code == 1
            &&& format is Json <==> printed.payload is Some
            &&& forall|i: int, k: int|
                0 <= i < stop.conflicts.len() && 0 <= k < stop.conflicts[i].versions.len()
                    ==> prints_version(
                    printed.stderr,
                    stop.conflicts[i].path,
                    #[trigger] stop.conflicts[i].versions[k],
                )
        }),
        stop.teaching is None ==> reads(error_text(stop), stop.message),
        stop.teaching matches Some(teaching) ==> {
            &&& reads(error_text(stop), teaching.summary)
            &&& reads(error_text(stop), teaching.what_dotsync_does)
            &&& reads(error_text(stop), teaching.this_flow)
            &&& reads(error_text(stop), teaching.expected)
            &&& reads(error_text(stop), teaching.why_stopped)
            &&& forall|i: int|
                0 <= i < teaching.next_steps.len() ==> reads(
                    error_text(stop),
                    #[trigger] teaching.next_steps[i],
                )
            &&& stop.current_state.len() == 0 ==> reads(error_text(stop), stop.message)
            &&& forall|i: int|
                0 <= i < stop.current_state.len() ==> reads(
                    error_text(stop),
                    #[trigger] stop.current_state[i],
                )
        },
{
    let none: Text = Seq::empty();
    let no_lines: Seq<Text> = Seq::empty();
    let printed = stop_emission(format, stop, reason);
    let opening = unreachable_lines(reason);
    assert(printed.stderr[opening.len() as int] == error_text(stop));
    assert forall|i: int, k: int|
        0 <= i < stop.conflicts.len() && 0 <= k < stop.conflicts[i].versions.len() implies prints_version(
        printed.stderr,
        stop.conflicts[i].path,
        #[trigger] stop.conflicts[i].versions[k],
    ) by {
        law_every_version_of_a_conflict_is_printed(stop.conflicts, i, k);
        let before = opening + seq![error_text(stop)] + seq!["\nConflicted files:"@];
        lemma_prints_within(
            before,
            conflicts_lines(stop.conflicts),
            no_lines,
            stop.conflicts[i].path,
            stop.conflicts[i].versions[k],
        );
        assert(before + conflicts_lines(stop.conflicts) + no_lines =~= printed.stderr);
    }
    match stop.teaching {
        None => {
            lemma_reads_part("dotsync: "@, stop.message, none);
            assert("dotsync: "@ + stop.message + none =~= error_text(stop));
        },
        Some(teaching) => {
            lemma_taught(stop, teaching);
        },
    }
}

proof fn lemma_taught(stop: ExplanationView, teaching: TeachingView)
    requires
        stop.teaching == Some(teaching),
    ensures
        reads(error_text(stop), teaching.summary),
        reads(error_text(stop), teaching.what_dotsync_does),
        reads(error_text(stop), teaching.this_flow),
        reads(error_text(stop), teaching.expected),
        reads(error_text(stop), teaching.why_stopped),
        forall|i: int|
            0 <= i < teaching.next_steps.len() ==> reads(
                error_text(stop),
                #[trigger] teaching.next_steps[i],
            ),
        stop.current_state.len() == 0 ==> reads(error_text(stop), stop.message),
        forall|i: int|
            0 <= i < stop.current_state.len() ==> reads(
                error_text(stop),
                #[trigger] stop.current_state[i],
            ),
{
    let none: Text = Seq::empty();
    let text = error_text(stop);
    let found = if stop.current_state.len() == 0 {
        stop.message
    } else {
        joined(stop.current_state, "\n"@)
    };
    let marked = prefixed("- "@, teaching.next_steps);
    let steps = joined(marked, "\n"@);
    let s0 = "dotsync: "@;
    let s1 = s0 + teaching.summary + "\n\nWhat dotsync does:\n"@;
    let s2 = s1 + teaching.what_dotsync_does + "\n\nThis flow:\n"@;
    let s3 = s2 + teaching.this_flow + "\n\nExpected:\n"@;
    let s4 = s3 + teaching.expected + "\n\nCurrent state found:\n"@;
    let s5 = s4 + found + "\n\nWhy dotsync stopped:\n"@;
    let s6 = s5 + teaching.why_stopped + "\n\nCorrect flow:\n"@;
    assert(text == s6 + steps);
    lemma_reads_part(s0, teaching.summary, "\n\nWhat dotsync does:\n"@);
    lemma_reads_part(s1, teaching.what_dotsync_does, "\n\nThis flow:\n"@);
    lemma_reads_part(s2, teaching.this_flow, "\n\nExpected:\n"@);
    lemma_reads_part(s3, teaching.expected, "\n\nCurrent state found:\n"@);
    lemma_reads_part(s5, teaching.why_stopped, "\n\nCorrect flow:\n"@);
    lemma_reads_before(s1, teaching.what_dotsync_does, "\n\nThis flow:\n"@, teaching.summary);
    lemma_reads_before(s2, teaching.this_flow, "\n\nExpected:\n"@, teaching.summary);
    lemma_reads_before(s2, teaching.this_flow, "\n\nExpected:\n"@, teaching.what_dotsync_does);
    lemma_reads_before(s3, teaching.expected, "\n\nCurrent state found:\n"@, teaching.summary);
    lemma_reads_before(
        s3,
        teaching.expected,
        "\n\nCurrent state found:\n"@,
        teaching.what_dotsync_does,
    );
    lemma_reads_before(s3, teaching.expected, "\n\nCurrent state found:\n"@, teaching.this_flow);
    assert forall|piece: Text| #[trigger] reads(s4, piece) implies reads(text, piece) by {
        let rest = found + "\n\nWhy dotsync stopped:\n"@ + teaching.why_stopped
            + "\n\nCorrect flow:\n"@ + steps;
        lemma_reads_within(none, s4, rest, piece);
        assert(none + s4 + rest =~= text);
    }
    assert forall|piece: Text| #[trigger] reads(found, piece) implies reads(text, piece) by {
        let rest = "\n\nWhy dotsync stopped:\n"@ + teaching.why_stopped + "\n\nCorrect flow:\n"@
            + steps;
        lemma_reads_within(s4, found, rest, piece);
        assert(s4 + found + rest =~= text);
    }
    lemma_reads_within(none, s6, steps, teaching.why_stopped);
    assert(none + s6 + steps =~= text);
    assert forall|i: int| 0 <= i < teaching.next_steps.len() implies reads(
        text,
        #[trigger] teaching.next_steps[i],
    ) by {
        let step = teaching.next_steps[i];
        lemma_reads_part("- "@, step, none);
        assert("- "@ + step + none =~= marked[i]);
        lemma_joined_reads(marked, "\n"@, i, step);
        lemma_reads_within(s6, steps, none, step);
        assert(s6 + steps + none =~= text);
    }
    if stop.current_state.len() == 0 {
        lemma_reads_itself(found);
    }
    assert forall|i: int| 0 <= i < stop.current_state.len() implies reads(
        text,
        #[trigger] stop.current_state[i],
    ) by {
        lemma_reads_itself(stop.current_state[i]);
        lemma_joined_reads(stop.current_state, "\n"@, i, stop.current_state[i]);
        assert(reads(found, stop.current_state[i]));
    }
}

/// What stands in the first of three texts stands in them together.
proof fn lemma_reads_before(text: Text, second: Text, third: Text, piece: Text)
    requires
        reads(text, piece),
    ensures
        reads(text + second + third, piece),
{
    let none: Text = Seq::empty();
    lemma_reads_within(none, text, second + third, piece);
    assert(none + text + (second + third) =~= text + second + third);
}

/// A machine is told of a stop its code, its message, what was found and where a
/// merge waits, and of every conflicted file.
pub proof fn law_a_stop_is_told_whole(stop: ExplanationView)
    ensures
        tells(error_view(stop), "status"@, PayloadView::Text("error"@)),
        tells(error_view(stop), "error"@, PayloadView::Text(stop.code)),
        tells(error_view(stop), "message"@, PayloadView::Text(stop.message)),
        tells(error_view(stop), "conflicts"@, conflicts_view(stop.conflicts)),
        tells(error_view(stop), "current_state"@, shown_list(stop.current_state)),
        lists_texts(shown_list(stop.current_state), stop.current_state),
        stop.paused_cascade matches Some(scope) ==> tells(
            error_view(stop),
            "paused_cascade"@,
            PayloadView::Text(scope),
        ),
{
    let fields = error_view(ExplanationView { paused_cascade: None, ..stop });
    assert(fields[0].0 == "status"@);
    assert(fields[1].0 == "error"@);
    assert(fields[2].0 == "message"@);
    assert(fields[3].0 == "conflicts"@);
    assert(fields[4].0 == "current_state"@);
    if let Some(scope) = stop.paused_cascade {
        reveal_strlit("paused_cascade");
        reveal_strlit("status");
        reveal_strlit("error");
        reveal_strlit("message");
        reveal_strlit("conflicts");
        reveal_strlit("current_state");
        assert("paused_cascade"@.len() == 14);
        assert("status"@.len() == 6);
        assert("error"@.len() == 5);
        assert("message"@.len() == 7);
        assert("conflicts"@.len() == 9);
        assert("current_state"@.len() == 13);
        lemma_tells_set(fields, "paused_cascade"@, shown(scope));
        lemma_tells_kept(fields, "paused_cascade"@, shown(scope), "status"@, fields[0].1);
        lemma_tells_kept(fields, "paused_cascade"@, shown(scope), "error"@, fields[1].1);
        lemma_tells_kept(fields, "paused_cascade"@, shown(scope), "message"@, fields[2].1);
        lemma_tells_kept(fields, "paused_cascade"@, shown(scope), "conflicts"@, fields[3].1);
        lemma_tells_kept(fields, "paused_cascade"@, shown(scope), "current_state"@, fields[4].1);
    }
}

/// `abort` says which merge it was asked to end, and exits with zero exactly when
/// nothing waits any more; where something does, it names the scope, for a person
/// and for a machine.
pub proof fn law_abort_says_whether_anything_still_waits(report: AbortReport)
    ensures
        abort_view(report).exit_code == 0 <==> report.still_paused is None,
        abort_view(report).exit_code == 1 <==> report.still_paused is Some,
        tells(abort_view(report).json, "paused_scope"@, PayloadView::Text(report.paused_scope@)),
        report.still_paused matches Some(scope) ==> tells(
            abort_view(report).json,
            "paused_cascade"@,
            PayloadView::Text(scope@),
        ) && any_reads(abort_view(report).notes, scope@),
        abort_view(report).human is Message,
        report.still_paused is None ==> reads(
            abort_view(report).human->Message_0,
            report.paused_scope@,
        ),
        report.still_paused matches Some(scope) ==> reads(
            abort_view(report).human->Message_0,
            scope@,
        ),
{
    let said = abort_view(report);
    let count = decimal(report.sync.synced_paths@.len());
    let message = said.human->Message_0;
    let plain = synced_view("abort"@, message, report.sync, None);
    let first = with_field(plain.json, "paused_scope"@, shown(report.paused_scope@));
    lemma_tells_set(plain.json, "paused_scope"@, shown(report.paused_scope@));
    match report.still_paused {
        None => {
            lemma_reads_part(
                "dotsync: discarded the merge paused at `"@,
                report.paused_scope@,
                "` and synced "@ + count + " file(s)"@,
            );
            assert("dotsync: discarded the merge paused at `"@ + report.paused_scope@ + (
            "` and synced "@ + count + " file(s)"@) =~= message);
        },
        Some(scope) => {
            reveal_strlit("paused_scope");
            reveal_strlit("paused_cascade");
            assert("paused_scope"@.len() == 12);
            assert("paused_cascade"@.len() == 14);
            lemma_tells_set(first, "paused_cascade"@, shown(scope@));
            lemma_tells_kept(
                first,
                "paused_cascade"@,
                shown(scope@),
                "paused_scope"@,
                shown(report.paused_scope@),
            );
            let before = "dotsync: put home back and synced "@ + count
                + " file(s); the merge at `"@;
            lemma_reads_part(before, scope@, "` is still waiting"@);
            assert(before + scope@ + "` is still waiting"@ =~= message);
            let rest =
                "` came from the remote rather than from anything this machine committed, so there was nothing to take back and it is still waiting"@;
            lemma_reads_part("dotsync: the conflict at `"@, scope@, rest);
            assert(said.notes[plain.notes.len() as int] == "dotsync: the conflict at `"@ + scope@
                + rest);
        },
    }
}

/// `continue` says all that a sync says and, where it handed borrowed files back,
/// names the machine's scope and the scope that has the resolution.
pub proof fn law_continue_says_what_it_handed_back(report: ContinueReport)
    ensures
        continue_view(report).exit_code == 0,
        continue_view(report).human is Message,
        ({
            let plain = synced_view(
                "continue"@,
                continue_view(report).human->Message_0,
                report.sync,
                Some(report.push),
            );
            &&& continue_view(report).json == plain.json
            &&& forall|i: int|
                0 <= i < plain.notes.len() ==> continue_view(report).notes.contains(
                    #[trigger] plain.notes[i],
                )
        }),
        report.resumed matches Resumed::Cascade { scope, borrowed_from } ==> reads(
            continue_view(report).human->Message_0,
            scope@,
        ),
        report.resumed matches Resumed::Cascade { scope, borrowed_from: Some(machine) }
            ==> any_reads(continue_view(report).notes, scope@) && any_reads(
            continue_view(report).notes,
            machine@,
        ),
{
    let said = continue_view(report);
    let count = decimal(report.sync.synced_paths@.len());
    let plain = synced_view(
        "continue"@,
        said.human->Message_0,
        report.sync,
        Some(report.push),
    );
    assert forall|i: int| 0 <= i < plain.notes.len() implies said.notes.contains(
        #[trigger] plain.notes[i],
    ) by {
        assert(said.notes[i] == plain.notes[i]);
    }
    if let Resumed::Cascade { scope, borrowed_from } = report.resumed {
        let rest = "` and synced "@ + count + " file(s)"@;
        lemma_reads_part("dotsync: recorded your version on `"@, scope@, rest);
        assert("dotsync: recorded your version on `"@ + scope@ + rest =~= said.human->Message_0);
        if let Some(machine) = borrowed_from {
            let at = plain.notes.len() as int;
            let one = "dotsync: the conflicted file(s) held `"@;
            let two = "`'s merge while you resolved it; `"@;
            let three = "`'s own version is back in home now, and `"@;
            let four = "` has your resolution."@;
            assert(said.notes[at] == one + scope@ + two + machine@ + three + scope@ + four);
            lemma_reads_part(one, scope@, two + machine@ + three + scope@ + four);
            assert(one + scope@ + (two + machine@ + three + scope@ + four) =~= said.notes[at]);
            lemma_reads_part(one + scope@ + two, machine@, three + scope@ + four);
            assert((one + scope@ + two) + machine@ + (three + scope@ + four) =~= said.notes[at]);
        }
    }
}

proof fn lemma_begins_reads(before: Text, piece: Text, after: Text, text: Text)
    requires
        text == before + piece + after,
    ensures
        reads(text, piece),
{
    lemma_reads_part(before, piece, after);
}

/// A path that a commit refused is named in what is said of it.
pub proof fn law_a_refused_path_is_named(
    path: Text,
    state: FileState,
    problem: CommitPathProblem,
    scope: Text,
)
    ensures
        reads(refusal_text(path, state), path),
        reads(rejection_text(path, problem, scope), path),
        !(state is StaleNotYours || state is IncomingNew || state is RemovedFromRepo
            || state is IncomingNewCollidesWithUntrackedHome) ==> reads(
            refusal_text(path, state),
            reason_text(state),
        ),
{
    let refusal = refusal_text(path, state);
    let rest = refusal.skip(("`"@.len() + path.len()) as int);
    assert(refusal =~= "`"@ + path + rest);
    lemma_begins_reads("`"@, path, rest, refusal);
    if !(state is StaleNotYours || state is IncomingNew || state is RemovedFromRepo
        || state is IncomingNewCollidesWithUntrackedHome) {
        lemma_reads_part("`"@ + path + "` is "@, reason_text(state), "."@);
    }
    let rejection = rejection_text(path, problem, scope);
    let last = rejection.skip(("`"@.len() + path.len()) as int);
    assert(rejection =~= "`"@ + path + last);
    lemma_begins_reads("`"@, path, last, rejection);
}

/// A stop names all that it is about: every path a commit refused, every file that
/// still holds markers, every path with nothing to discard, every file in conflict
/// and every scope that is in the way.
pub proof fn law_a_stop_names_all_it_is_about(error: DotsyncError, invocation: Option<Text>)
    ensures
        error matches DotsyncError::UnusableCommitPaths { scope, rejected } ==> forall|i: int|
            0 <= i < rejected@.len() ==> any_reads(
                explanation(error, invocation).current_state,
                (#[trigger] rejected@[i]).path.text@,
            ),
        error matches DotsyncError::StaleCommitPaths { scope, refused } ==> forall|i: int|
            0 <= i < refused@.len() ==> any_reads(
                explanation(error, invocation).current_state,
                (#[trigger] refused@[i]).path.text@,
            ),
        error matches DotsyncError::UnresolvedConflict { scope, paths } ==> forall|i: int|
            0 <= i < paths@.len() ==> any_reads(
                explanation(error, invocation).current_state,
                (#[trigger] paths@[i]).text@,
            ),
        error matches DotsyncError::NothingToDiscard { paths } ==> forall|i: int|
            0 <= i < paths@.len() ==> any_reads(
                explanation(error, invocation).current_state,
                (#[trigger] paths@[i]).text@,
            ),
        error matches DotsyncError::SyncConflict { scope, files } ==> forall|i: int|
            0 <= i < files@.len() ==> any_reads(
                explanation(error, invocation).current_state,
                (#[trigger] files@[i]).path.text@,
            ),
        error matches DotsyncError::CascadePaused { scope, borrowed_from, files } ==> forall|i: int|
            0 <= i < files@.len() ==> any_reads(
                explanation(error, invocation).current_state,
                (#[trigger] files@[i]).path.text@,
            ),
{
    let state = explanation(error, invocation).current_state;
    match error {
        DotsyncError::UnusableCommitPaths { scope, rejected } => {
            assert forall|i: int| 0 <= i < rejected@.len() implies any_reads(
                state,
                (#[trigger] rejected@[i]).path.text@,
            ) by {
                law_a_refused_path_is_named(
                    rejected@[i].path.text@,
                    FileState::IncomingNew,
                    rejected@[i].problem,
                    scope@,
                );
                assert(state[i] == rejection_text(
                    rejected@[i].path.text@,
                    rejected@[i].problem,
                    scope@,
                ));
            }
        },
        DotsyncError::StaleCommitPaths { scope, refused } => {
            assert forall|i: int| 0 <= i < refused@.len() implies any_reads(
                state,
                (#[trigger] refused@[i]).path.text@,
            ) by {
                law_a_refused_path_is_named(
                    refused@[i].path.text@,
                    refused@[i].state,
                    CommitPathProblem::HomeRoot,
                    scope@,
                );
                assert(state[i] == refusal_text(refused@[i].path.text@, refused@[i].state));
            }
        },
        DotsyncError::UnresolvedConflict { scope, paths } => {
            let none: Text = Seq::empty();
            assert forall|i: int| 0 <= i < paths@.len() implies any_reads(
                state,
                (#[trigger] paths@[i]).text@,
            ) by {
                let path = paths@[i].text@;
                let before = "still holding conflict markers, for the merge paused at scope `"@
                    + scope@ + "`: "@;
                let names = joined(path_texts(paths@), ", "@);
                lemma_reads_itself(path);
                assert(path_texts(paths@)[i] == path);
                lemma_joined_reads(path_texts(paths@), ", "@, i, path);
                lemma_reads_within(before, names, none, path);
                assert(before + names + none =~= state[0]);
            }
        },
        DotsyncError::NothingToDiscard { paths } => {
            assert forall|i: int| 0 <= i < paths@.len() implies any_reads(
                state,
                (#[trigger] paths@[i]).text@,
            ) by {
                lemma_reads_part("`"@, paths@[i].text@, DISCARD_FACT@);
                assert(path_texts(paths@)[i] == paths@[i].text@);
                assert(state[i] == "`"@ + paths@[i].text@ + DISCARD_FACT@);
            }
        },
        DotsyncError::SyncConflict { scope, files } => {
            let rest = "` was changed in home and on `"@ + scope@
                + "` since this machine last synced it"@;
            assert forall|i: int| 0 <= i < files@.len() implies any_reads(
                state,
                (#[trigger] files@[i]).path.text@,
            ) by {
                lemma_reads_part("`"@, files@[i].path.text@, rest);
                assert(file_paths(files@)[i] == files@[i].path.text@);
                assert(state[i] == "`"@ + files@[i].path.text@ + rest);
            }
        },
        DotsyncError::CascadePaused { scope, borrowed_from, files } => {
            let rest = "` was changed differently by two of the histories merging into `"@ + scope@
                + "`"@;
            assert forall|i: int| 0 <= i < files@.len() implies any_reads(
                state,
                (#[trigger] files@[i]).path.text@,
            ) by {
                lemma_reads_part("`"@, files@[i].path.text@, rest);
                assert(file_paths(files@)[i] == files@[i].path.text@);
                assert(state[i] == "`"@ + files@[i].path.text@ + rest);
            }
        },
        _ => {},
    }
}

/// A stop about scopes names them all: those that stand in the way of a machine's
/// own, those it could have meant, and every file that parents disagree about.
pub proof fn law_a_stop_names_every_scope(error: DotsyncError, invocation: Option<Text>)
    ensures
        error matches DotsyncError::MachineScopeIsShared { scope, children } ==> forall|i: int|
            0 <= i < children@.len() ==> any_reads(
                explanation(error, invocation).current_state,
                (#[trigger] children@[i])@,
            ),
        error matches DotsyncError::MachineScopeAlreadyPlaced { scope, parents } ==> forall|i: int|
            0 <= i < parents@.len() ==> any_reads(
                explanation(error, invocation).current_state,
                (#[trigger] parents@[i])@,
            ),
        error matches DotsyncError::NoSuchParentScope { parent, scopes } ==> any_reads(
            explanation(error, invocation).current_state,
            parent@,
        ) && forall|i: int|
            0 <= i < scopes@.len() ==> any_reads(
                explanation(error, invocation).current_state,
                (#[trigger] scopes@[i])@,
            ),
        error matches DotsyncError::MachineScopeMissing { scope, scopes, root } ==> any_reads(
            explanation(error, invocation).current_state,
            scope@,
        ) && forall|i: int|
            0 <= i < scopes@.len() ==> any_reads(
                explanation(error, invocation).current_state,
                (#[trigger] scopes@[i])@,
            ),
        error matches DotsyncError::ScopeCreationConflict { scope, files } ==> forall|i: int|
            0 <= i < files@.len() ==> any_reads(
                explanation(error, invocation).current_state,
                (#[trigger] files@[i])@,
            ),
{
    let state = explanation(error, invocation).current_state;
    match error {
        DotsyncError::MachineScopeIsShared { scope, children } => {
            lemma_list_read("scope: "@ + scope@ + "; scopes hanging off it: "@, children@, state);
        },
        DotsyncError::MachineScopeAlreadyPlaced { scope, parents } => {
            lemma_list_read("scope: "@ + scope@ + "; it already hangs off: "@, parents@, state);
        },
        DotsyncError::ScopeCreationConflict { scope, files } => {
            lemma_list_read(
                "scope: "@ + scope@ + "; its parents hold different versions of: "@,
                files@,
                state,
            );
        },
        DotsyncError::NoSuchParentScope { parent, scopes } => {
            lemma_repo_scopes_read(parent@, scopes@, state);
        },
        DotsyncError::MachineScopeMissing { scope, scopes, root } => {
            lemma_repo_scopes_read(scope@, scopes@, state);
        },
        _ => {},
    }
}

proof fn lemma_list_read(before: Text, list: Seq<String>, lines: Seq<Text>)
    requires
        lines.len() == 1,
        lines[0] == before + joined(texts(list), ", "@),
    ensures
        forall|i: int| 0 <= i < list.len() ==> any_reads(lines, (#[trigger] list[i])@),
{
    let none: Text = Seq::empty();
    assert forall|i: int| 0 <= i < list.len() implies any_reads(
        lines,
        (#[trigger] list[i])@,
    ) by {
        lemma_reads_itself(list[i]@);
        assert(texts(list)[i] == list[i]@);
        lemma_joined_reads(texts(list), ", "@, i, list[i]@);
        lemma_reads_within(before, joined(texts(list), ", "@), none, list[i]@);
        assert(before + joined(texts(list), ", "@) + none =~= lines[0]);
    }
}

proof fn lemma_repo_scopes_read(named: Text, scopes: Seq<String>, lines: Seq<Text>)
    requires
        lines.len() == 1,
        lines[0] == repo_scopes_text(named, texts(scopes)),
    ensures
        any_reads(lines, named),
        forall|i: int| 0 <= i < scopes.len() ==> any_reads(lines, (#[trigger] scopes[i])@),
{
    if scopes.len() == 0 {
        lemma_reads_part("named scope: "@, named, "; this remote has no scopes yet"@);
        assert(reads(lines[0], named));
    } else {
        let before = "named scope: "@ + named + "; scopes in the repo: "@;
        let names = joined(texts(scopes), ", "@);
        lemma_list_read(before, scopes, lines);
        lemma_reads_part("named scope: "@, named, "; scopes in the repo: "@ + names);
        assert("named scope: "@ + named + ("; scopes in the repo: "@ + names) =~= lines[0]);
    }
}

/// What `view` answers holds all that it found, for a person and for a machine: the
/// scopes and files of an overview, the files of a scope, the scopes of a file with
/// the one that owns it, and what a file holds.
pub proof fn law_view_answers_with_all_it_found(found: ViewAnswer, machine_scope: Text)
    ensures
        answer_view(found, machine_scope).exit_code == 0,
        match found {
            ViewAnswer::FileContents { scope, file, contents } => {
                let said = answer_view(found, machine_scope);
                &&& said.human == HumanView::Stdout(lossy_text(contents@))
                &&& tells(said.json, "scope"@, PayloadView::Text(scope@))
                &&& tells(said.json, "path"@, PayloadView::Text(file.text@))
                &&& tells(said.json, "contents"@, PayloadView::Text(lossy_text(contents@)))
            },
            ViewAnswer::Scope { scope, files } => {
                let said = answer_view(found, machine_scope);
                &&& said.human == HumanView::Stdout(scope_text(scope@, files@))
                &&& tells(said.json, "scope"@, PayloadView::Text(scope@))
                &&& tells(said.json, "files"@, shown_list(path_texts(files@)))
            },
            ViewAnswer::FileScopes { file, scopes } => {
                let said = answer_view(found, machine_scope);
                &&& said.human == HumanView::Stdout(
                    file_text(file.text@, texts(scopes@), owner_of(texts(scopes@))),
                )
                &&& tells(said.json, "file"@, PayloadView::Text(file.text@))
                &&& tells(said.json, "scopes"@, shown_list(texts(scopes@)))
                &&& lists_texts(shown_list(texts(scopes@)), texts(scopes@))
                &&& tells(
                    said.json,
                    "owner"@,
                    if scopes@.len() > 0 {
                        PayloadView::Text(scopes@[0]@)
                    } else {
                        PayloadView::Null
                    },
                )
            },
            ViewAnswer::Overview { scopes, files } => {
                let said = answer_view(found, machine_scope);
                &&& said.human == HumanView::Stdout(
                    overview_text(scopes@, files@, machine_scope),
                )
                &&& tells(said.json, "files"@, shown_list(path_texts(files@)))
                &&& exists|listed: Seq<PayloadView>|
                    listed.len() == scopes@.len() && #[trigger] tells(
                        said.json,
                        "scopes"@,
                        PayloadView::List(listed),
                    ) && forall|i: int|
                        0 <= i < scopes@.len() ==> #[trigger] listed[i] == info_fields(scopes@[i]@)
            },
        },
{
    let fields = answer_view(found, machine_scope).json;
    match found {
        ViewAnswer::FileContents { scope, file, contents } => {
            assert(fields[2].0 == "scope"@);
            assert(fields[3].0 == "path"@);
            assert(fields[4].0 == "contents"@);
        },
        ViewAnswer::Scope { scope, files } => {
            assert(fields[2].0 == "scope"@);
            assert(fields[3].0 == "files"@);
        },
        ViewAnswer::FileScopes { file, scopes } => {
            assert(fields[2].0 == "file"@);
            assert(fields[3].0 == "scopes"@);
            assert(fields[4].0 == "owner"@);
        },
        ViewAnswer::Overview { scopes, files } => {
            assert(fields[2].0 == "scopes"@);
            assert(fields[3].0 == "files"@);
            let listed = info_views(scopes@).map_values(|i: ScopeInfoView| info_fields(i));
            assert(tells(fields, "scopes"@, PayloadView::List(listed)));
        },
    }
}

/// `view` says what it found, the merge that the machine waits on, and what is true
/// of the machine.
pub proof fn law_view_says_all_three(report: ViewReport, machine_scope: Text)
    ensures
        view_view(report, machine_scope).human == answer_view(report.found, machine_scope).human,
        view_view(report, machine_scope).exit_code == 0,
        view_view(report, machine_scope) == machine_view(
            reprinted(answer_view(report.found, machine_scope), report.machine),
            machine_scope,
            report.machine,
        ),
{
}

/// `init`, a plain run and `discard` say how many files they wrote and for which
/// scope, and `discard` how many changes it gave up; they answer as syncs do.
pub proof fn law_a_headline_counts(
    made: InitReport,
    run: SyncCommandReport,
)
    ensures
        ({
            let said = init_view(made);
            &&& said.human is Message
            &&& said == synced_view("init"@, said.human->Message_0, made.sync, Some(made.push))
            &&& reads(said.human->Message_0, made.sync.current_scope@)
            &&& reads(said.human->Message_0, decimal(made.sync.synced_paths@.len()))
        }),
        ({
            let said = sync_view(run);
            &&& said.human is Message
            &&& said == synced_view("sync"@, said.human->Message_0, run.sync, Some(run.push))
            &&& reads(said.human->Message_0, run.sync.current_scope@)
            &&& reads(said.human->Message_0, decimal(run.sync.synced_paths@.len()))
        }),
        ({
            let said = discard_view(run);
            &&& said.human is Message
            &&& said == synced_view("discard"@, said.human->Message_0, run.sync, Some(run.push))
            &&& reads(said.human->Message_0, decimal(run.sync.drifts@.len()))
            &&& reads(said.human->Message_0, decimal(run.sync.synced_paths@.len()))
            &&& reads(said.human->Message_0, run.sync.current_scope@)
        }),
{
    let none: Text = Seq::empty();
    let scope = made.sync.current_scope@;
    let count = decimal(made.sync.synced_paths@.len());
    let one = init_view(made).human->Message_0;
    lemma_reads_part("dotsync: initialized "@, scope, " and synced "@ + count + " file(s)"@);
    assert("dotsync: initialized "@ + scope + (" and synced "@ + count + " file(s)"@) =~= one);
    lemma_reads_part("dotsync: initialized "@ + scope + " and synced "@, count, " file(s)"@);
    let scope = run.sync.current_scope@;
    let count = decimal(run.sync.synced_paths@.len());
    let two = sync_view(run).human->Message_0;
    lemma_reads_part("dotsync: synced "@, count, " file(s) for "@ + scope);
    assert("dotsync: synced "@ + count + (" file(s) for "@ + scope) =~= two);
    lemma_reads_part("dotsync: synced "@ + count + " file(s) for "@, scope, none);
    assert(("dotsync: synced "@ + count + " file(s) for "@) + scope + none =~= two);
    let three = discard_view(run).human->Message_0;
    let gone = decimal(run.sync.drifts@.len());
    let middle = " local change(s) and synced "@;
    lemma_reads_part("dotsync: discarded "@, gone, middle + count + " file(s) for "@ + scope);
    assert("dotsync: discarded "@ + gone + (middle + count + " file(s) for "@ + scope) =~= three);
    lemma_reads_part("dotsync: discarded "@ + gone + middle, count, " file(s) for "@ + scope);
    assert(("dotsync: discarded "@ + gone + middle) + count + (" file(s) for "@ + scope)
        =~= three);
    lemma_reads_part("dotsync: discarded "@ + gone + middle + count + " file(s) for "@, scope, none);
    assert(("dotsync: discarded "@ + gone + middle + count + " file(s) for "@) + scope + none
        =~= three);
}

/// A commit that recorded nothing and was given no path says how a new file comes to
/// be tracked; one that was given paths does not.
pub proof fn law_a_bare_commit_says_how_files_are_added(report: CommitReport, named_paths: bool)
    requires
        report.recorded is None,
    ensures
        !named_paths ==> commit_view(report, named_paths).notes.contains(NEW_FILE_ADVICE@),
        named_paths ==> commit_view(report, named_paths).notes == skipped_lines(report.skipped@)
            + push_lines(report.push),
{
    let skipped = skipped_lines(report.skipped@);
    let notes = commit_view(report, named_paths).notes;
    if !named_paths {
        assert(notes[skipped.len() as int] == NEW_FILE_ADVICE@);
    } else {
        assert(notes =~= skipped + push_lines(report.push));
    }
}

/// The comment of a scope names the scope, and tells a root, an OS and a machine
/// apart.
pub proof fn law_a_scope_comment_names_its_scope(name: Text, kind: ScopeKind)
    ensures
        reads(scope_comment(name, kind), name),
        kind is Root ==> reads(scope_comment(name, kind), "every machine, whatever its OS."@),
        kind is Os ==> reads(scope_comment(name, kind), "every machine whose OS is "@ + name),
        kind is Machine ==> reads(scope_comment(name, kind), "only the machine called "@ + name),
{
    let text = scope_comment(name, kind);
    let end = "\n# What belongs here:\n"@;
    let rest = match kind {
        ScopeKind::Root => "` — every machine, whatever its OS."@,
        ScopeKind::Os => "` — every machine whose OS is "@ + name + "."@,
        ScopeKind::Machine => "` — only the machine called "@ + name + "."@,
    };
    lemma_reads_part("# "@ + "`"@, name, rest + end);
    assert(("# "@ + "`"@) + name + (rest + end) =~= text);
    reveal_strlit("` — every machine, whatever its OS.");
    reveal_strlit("every machine, whatever its OS.");
    reveal_strlit("` — every machine whose OS is ");
    reveal_strlit("every machine whose OS is ");
    reveal_strlit("` — only the machine called ");
    reveal_strlit("only the machine called ");
    reveal_strlit("` — ");
    let open = "# "@ + "`"@ + name + "` — "@;
    match kind {
        ScopeKind::Root => {
            assert("` — every machine, whatever its OS."@ =~= "` — "@
                + "every machine, whatever its OS."@);
            lemma_reads_part(open, "every machine, whatever its OS."@, end);
            assert(open + "every machine, whatever its OS."@ + end =~= text);
        },
        ScopeKind::Os => {
            assert("` — every machine whose OS is "@ =~= "` — "@ + "every machine whose OS is "@);
            lemma_reads_part(open, "every machine whose OS is "@ + name, "."@ + end);
            assert(open + ("every machine whose OS is "@ + name) + ("."@ + end) =~= text);
        },
        ScopeKind::Machine => {
            assert("` — only the machine called "@ =~= "` — "@ + "only the machine called "@);
            lemma_reads_part(open, "only the machine called "@ + name, "."@ + end);
            assert(open + ("only the machine called "@ + name) + ("."@ + end) =~= text);
        },
    }
}

} // verus!
