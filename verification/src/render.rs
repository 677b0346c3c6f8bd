//! How what a run found reads, for a person and for a machine.
use vstd::prelude::*;
use vstd::string::*;
use vstd::utf8::{decode_utf8, valid_utf8};
use similar::TextDiff;
use crate::drift::{code_text, reason_text, FileState};
use crate::error::{
    opt_bytes, path_texts, role_text, skip_code, skip_text, ConflictedFile, ConflictedFileView,
    ConflictedVersion, ConflictedVersionView, Explanation, ExplanationView, SkipReason,
    SkippedCommitPath,
};
use crate::paths::FilePath;
use crate::payload::{
    payload_views, shown, shown_list, with_field, Object, Payload, PayloadView,
};
use crate::repo::{rejection_reason, PushReport};
use crate::session::{opt_reason, UnreachableRemote};
use crate::sync::{FileChange, FileDrift};
use crate::text::{
    add_texts, cat2, cat3, cat4, cat5, decimal, decimal_text, join, joined, lemma_texts_push, list1,
    list2, no_texts, texts, trim_trailing, without_trailing, Text,
};

verus! {

/// A path as it is shown.
pub fn display_path(path: &FilePath) -> (text: String)
    ensures
        text@ == path.text@,
{
    path.text.clone()
}

/// Paths as they are shown.
pub fn display_paths(paths: &Vec<FilePath>) -> (shown: Vec<String>)
    ensures
        texts(shown@) == path_texts(paths@),
{
    let mut shown: Vec<String> = Vec::new();
    let mut i: usize = 0;
    while i < paths.len()
        invariant
            i <= paths.len(),
            shown.len() == i,
            forall|j: int| 0 <= j < i ==> (#[trigger] shown@[j])@ == paths@[j].text@,
        decreases paths.len() - i,
    {
        shown.push(display_path(&paths[i]));
        i += 1;
    }
    proof {
        assert(texts(shown@) =~= path_texts(paths@));
    }
    shown
}

/// One changed file, for a machine: `state` is the code to branch on, `reason`
/// the same thing in words.
pub open spec fn change_view(path: Text, code: Text, reason: Text) -> Seq<(Text, PayloadView)> {
    seq![("path"@, shown(path)), ("state"@, shown(code)), ("reason"@, shown(reason))]
}

fn change_object(path: &FilePath, code: &str, reason: &str) -> (object: Object)
    ensures
        object@ == change_view(path.text@, code@, reason@),
{
    let object = Object::new().field("path", Payload::text(path.text.as_str())).field(
        "state",
        Payload::text(code),
    ).field("reason", Payload::text(reason));
    proof {
        assert(object@ =~= change_view(path.text@, code@, reason@));
    }
    object
}

/// One changed file, for a machine.
pub fn change_json(path: &FilePath, state: FileState) -> (object: Object)
    ensures
        object@ == change_view(path.text@, code_text(state), reason_text(state)),
{
    change_object(path, state.code(), state.reason())
}

/// Changed files, for a machine.
pub open spec fn changes_view(changes: Seq<FileChange>) -> PayloadView {
    PayloadView::List(
        changes.map_values(
            |c: FileChange|
                PayloadView::Object(
                    change_view(c.path.text@, code_text(c.state), reason_text(c.state)),
                ),
        ),
    )
}

/// Changed files, for a machine.
pub fn changes_json(changes: &Vec<FileChange>) -> (payload: Payload)
    ensures
        payload@ == changes_view(changes@),
{
    let mut items: Vec<Payload> = Vec::new();
    let mut i: usize = 0;
    while i < changes.len()
        invariant
            i <= changes.len(),
            items.len() == i,
            forall|j: int|
                0 <= j < i ==> (#[trigger] items@[j])@ == PayloadView::Object(
                    change_view(
                        changes@[j].path.text@,
                        code_text(changes@[j].state),
                        reason_text(changes@[j].state),
                    ),
                ),
        decreases changes.len() - i,
    {
        items.push(change_json(&changes[i].path, changes[i].state).payload());
        i += 1;
    }
    proof {
        assert(payload_views(items@) =~= changes_view(changes@)->List_0);
    }
    Payload::list(items)
}

/// Paths a commit left alone, for a machine: the same object a changed file
/// gets.
pub open spec fn skipped_view(skipped: Seq<SkippedCommitPath>) -> PayloadView {
    PayloadView::List(
        skipped.map_values(
            |s: SkippedCommitPath|
                PayloadView::Object(
                    change_view(s.path.text@, skip_code(s.reason), skip_text(s.reason)),
                ),
        ),
    )
}

/// Paths a commit left alone, for a machine.
pub fn skipped_paths_json(skipped: &Vec<SkippedCommitPath>) -> (payload: Payload)
    ensures
        payload@ == skipped_view(skipped@),
{
    let mut items: Vec<Payload> = Vec::new();
    let mut i: usize = 0;
    while i < skipped.len()
        invariant
            i <= skipped.len(),
            items.len() == i,
            forall|j: int|
                0 <= j < i ==> (#[trigger] items@[j])@ == PayloadView::Object(
                    change_view(
                        skipped@[j].path.text@,
                        skip_code(skipped@[j].reason),
                        skip_text(skipped@[j].reason),
                    ),
                ),
        decreases skipped.len() - i,
    {
        let reason = skipped[i].reason.explain();
        items.push(
            change_object(&skipped[i].path, skipped[i].reason.code(), reason.as_str()).payload(),
        );
        i += 1;
    }
    proof {
        assert(payload_views(items@) =~= skipped_view(skipped@)->List_0);
    }
    Payload::list(items)
}

/// The marker of a state, to scan for.
pub open spec fn marker(state: FileState) -> Text {
    match state {
        FileState::EditedInHome
        | FileState::EditedInHomeButRemovedFromRepo
        | FileState::KindDiffersFromScope
        | FileState::DivergedEditThatMerges => "M"@,
        FileState::DeletedInHome | FileState::DeletedInHomeTipAlsoChanged => "D"@,
        FileState::DivergedEdit | FileState::IncomingNewCollidesWithUntrackedHome => "C"@,
        FileState::IncomingNew => "A"@,
        FileState::StaleNotYours => "U"@,
        FileState::RemovedFromRepo => "R"@,
        _ => " "@,
    }
}

/// The marker of a state, to scan for.
pub fn change_marker(state: FileState) -> (text: &'static str)
    ensures
        text@ == marker(state),
{
    match state {
        FileState::EditedInHome
        | FileState::EditedInHomeButRemovedFromRepo
        | FileState::KindDiffersFromScope
        | FileState::DivergedEditThatMerges => "M",
        FileState::DeletedInHome | FileState::DeletedInHomeTipAlsoChanged => "D",
        FileState::DivergedEdit | FileState::IncomingNewCollidesWithUntrackedHome => "C",
        FileState::IncomingNew => "A",
        FileState::StaleNotYours => "U",
        FileState::RemovedFromRepo => "R",
        _ => " ",
    }
}

/// What a reader has to act on has a marker, and nothing else has.
pub proof fn law_markers_are_for_what_is_reported(state: FileState)
    ensures
        marker(state) != " "@ <==> crate::drift::drifted(state) || crate::drift::incoming(state),
{
    reveal_strlit("M");
    reveal_strlit("D");
    reveal_strlit("C");
    reveal_strlit("A");
    reveal_strlit("U");
    reveal_strlit("R");
    reveal_strlit(" ");
    let text = marker(state);
    assert(text != " "@ ==> text[0] != " "@[0]);
    assert(" "@[0] == ' ');
    assert("M"@[0] == 'M' && "D"@[0] == 'D' && "C"@[0] == 'C' && "A"@[0] == 'A' && "U"@[0] == 'U'
        && "R"@[0] == 'R');
}

/// One changed file, for a person.
pub open spec fn change_line(path: Text, state: FileState) -> Text {
    "  "@ + marker(state) + " "@ + path + " ("@ + reason_text(state) + ")"@
}

/// One changed file, for a person: a marker, the path, and the reason in words.
pub fn render_change_line(path: &FilePath, state: FileState) -> (line: String)
    ensures
        line@ == change_line(path.text@, state),
{
    let front = cat5("  ", change_marker(state), " ", path.text.as_str(), " (");
    cat3(front.as_str(), state.reason(), ")")
}

/// The text that some bytes are, with U+FFFD in place of what is not valid
/// UTF-8.
pub uninterp spec fn lossy_text(bytes: Seq<u8>) -> Seq<char>;

/// Wraps `String::from_utf8_lossy`, which decodes UTF-8 and puts U+FFFD in place
/// of invalid sequences. How many of them it puts for one is left unsaid.
#[verifier::external_body]
fn decode_lossy(bytes: &Vec<u8>) -> (text: String)
    ensures
        text@ == lossy_text(bytes@),
        valid_utf8(bytes@) ==> text@ == decode_utf8(bytes@),
{
    String::from_utf8_lossy(bytes).into_owned()
}

/// Wraps `String::from_utf8`, which decodes bytes that are valid UTF-8 and
/// refuses all others.
#[verifier::external_body]
fn decode_strictly(bytes: &Vec<u8>) -> (text: Option<String>)
    ensures
        text is Some <==> valid_utf8(bytes@),
        text matches Some(text) ==> text@ == decode_utf8(bytes@),
{
    String::from_utf8(bytes.to_vec()).ok()
}

/// The text that some bytes are, as far as they are text.
pub fn decoded(bytes: &Vec<u8>) -> (text: String)
    ensures
        text@ == lossy_text(bytes@),
        valid_utf8(bytes@) ==> text@ == decode_utf8(bytes@),
{
    decode_lossy(bytes)
}

/// One version of a conflicted file, for a machine. A version that does not
/// hold the file is not the same as one that holds it empty.
pub open spec fn version_view(version: ConflictedVersionView) -> PayloadView {
    PayloadView::Object(
        seq![
            ("role"@, shown(role_text(version.role))),
            ("label"@, shown(version.label)),
            (
                "contents"@,
                match version.contents {
                    Some(bytes) => shown(lossy_text(bytes)),
                    None => PayloadView::Null,
                },
            ),
        ],
    )
}

/// A conflicted file with every version of it, for a machine.
pub open spec fn conflict_view(file: ConflictedFileView) -> PayloadView {
    PayloadView::Object(
        seq![
            ("path"@, shown(file.path)),
            (
                "versions"@,
                PayloadView::List(file.versions.map_values(|v: ConflictedVersionView| version_view(v))),
            ),
        ],
    )
}

fn version_json(version: &ConflictedVersion) -> (payload: Payload)
    ensures
        payload@ == version_view(version@),
{
    let contents = match &version.contents {
        Some(bytes) => {
            let text = decode_lossy(bytes);
            Payload::text(text.as_str())
        },
        None => Payload::Null,
    };
    let object = Object::new().field("role", Payload::text(version.role.code())).field(
        "label",
        Payload::text(version.label.as_str()),
    ).field("contents", contents);
    proof {
        assert(object@ =~= version_view(version@)->Object_0);
    }
    object.payload()
}

/// A conflicted file with every version of it, for a machine.
pub fn render_conflict_json(file: &ConflictedFile) -> (payload: Payload)
    ensures
        payload@ == conflict_view(file@),
{
    let mut versions: Vec<Payload> = Vec::new();
    let mut i: usize = 0;
    while i < file.versions.len()
        invariant
            i <= file.versions.len(),
            versions.len() == i,
            forall|j: int|
                0 <= j < i ==> (#[trigger] versions@[j])@ == version_view(file.versions@[j]@),
        decreases file.versions.len() - i,
    {
        versions.push(version_json(&file.versions[i]));
        i += 1;
    }
    proof {
        assert(payload_views(versions@) =~= file@.versions.map_values(
            |v: ConflictedVersionView| version_view(v),
        ));
    }
    let object = Object::new().field("path", Payload::text(file.path.text.as_str())).field(
        "versions",
        Payload::list(versions),
    );
    proof {
        assert(object@ =~= conflict_view(file@)->Object_0);
    }
    object.payload()
}

/// Conflicted files, for a machine.
pub open spec fn conflicts_view(files: Seq<ConflictedFileView>) -> PayloadView {
    PayloadView::List(files.map_values(|f: ConflictedFileView| conflict_view(f)))
}

/// Conflicted files, for a machine.
pub fn conflicts_json(files: &Vec<ConflictedFile>) -> (payload: Payload)
    ensures
        payload@ == conflicts_view(crate::error::file_views(files@)),
{
    let mut items: Vec<Payload> = Vec::new();
    let mut i: usize = 0;
    while i < files.len()
        invariant
            i <= files.len(),
            items.len() == i,
            forall|j: int| 0 <= j < i ==> (#[trigger] items@[j])@ == conflict_view(files@[j]@),
        decreases files.len() - i,
    {
        items.push(render_conflict_json(&files[i]));
        i += 1;
    }
    proof {
        assert(payload_views(items@) =~= conflicts_view(
            crate::error::file_views(files@),
        )->List_0);
    }
    Payload::list(items)
}

/// A stop, for a machine.
pub open spec fn error_view(explanation: ExplanationView) -> Seq<(Text, PayloadView)> {
    let stop = seq![
        ("status"@, shown("error"@)),
        ("error"@, shown(explanation.code)),
        ("message"@, shown(explanation.message)),
        ("conflicts"@, conflicts_view(explanation.conflicts)),
        ("current_state"@, shown_list(explanation.current_state)),
    ];
    match explanation.paused_cascade {
        Some(scope) => with_field(stop, "paused_cascade"@, shown(scope)),
        None => stop,
    }
}

/// A stop, for a machine. The scope a merge waits at is there only when the run
/// met that state.
pub fn render_error_json(explanation: &Explanation) -> (object: Object)
    ensures
        object@ == error_view(explanation@),
{
    let object = Object::new().field("status", Payload::text("error")).field(
        "error",
        Payload::text(explanation.code),
    ).field("message", Payload::text(explanation.message.as_str())).field(
        "conflicts",
        conflicts_json(&explanation.conflicts),
    ).field("current_state", Payload::texts(&explanation.current_state));
    proof {
        assert(object@ =~= seq![
            ("status"@, shown("error"@)),
            ("error"@, shown(explanation@.code)),
            ("message"@, shown(explanation@.message)),
            ("conflicts"@, conflicts_view(explanation@.conflicts)),
            ("current_state"@, shown_list(explanation@.current_state)),
        ]);
    }
    match &explanation.paused_cascade {
        Some(scope) => object.with("paused_cascade", Payload::text(scope.as_str())),
        None => object,
    }
}

/// One version of a conflicted file, for a person: a header naming it, and its
/// contents unindented, so that a line can be copied out.
pub open spec fn version_lines(path: Text, version: ConflictedVersionView) -> Seq<Text> {
    seq![
        "--- "@ + path + " | "@ + role_text(version.role) + ": "@ + version.label + " ---"@,
        match version.contents {
            Some(bytes) => without_trailing(lossy_text(bytes), '\n'),
            None => "(this version does not have the file)"@,
        },
    ]
}

/// The versions of a conflicted file, for a person.
pub open spec fn versions_lines(path: Text, versions: Seq<ConflictedVersionView>) -> Seq<Text>
    decreases versions.len(),
{
    if versions.len() == 0 {
        Seq::empty()
    } else {
        versions_lines(path, versions.drop_last()) + version_lines(path, versions.last())
    }
}

/// A conflicted file, for a person: where it stands, and every version of it.
pub open spec fn conflict_lines(file: ConflictedFileView) -> Seq<Text> {
    let line = match file.state {
        Some(state) => change_line(file.path, state),
        None => "  C "@ + file.path,
    };
    seq![line] + versions_lines(file.path, file.versions)
}

/// Conflicted files, for a person.
pub open spec fn conflicts_lines(files: Seq<ConflictedFileView>) -> Seq<Text>
    decreases files.len(),
{
    if files.len() == 0 {
        Seq::empty()
    } else {
        conflicts_lines(files.drop_last()) + conflict_lines(files.last())
    }
}

fn render_version(path: &str, version: &ConflictedVersion) -> (lines: Vec<String>)
    ensures
        texts(lines@) == version_lines(path@, version@),
{
    let front = cat5("--- ", path, " | ", version.role.code(), ": ");
    let header = cat3(front.as_str(), version.label.as_str(), " ---");
    let body = match &version.contents {
        Some(bytes) => {
            let text = decode_lossy(bytes);
            trim_trailing(text.as_str(), '\n')
        },
        None => "(this version does not have the file)".to_owned(),
    };
    list2(header, body)
}

fn render_conflict(file: &ConflictedFile) -> (lines: Vec<String>)
    ensures
        texts(lines@) == conflict_lines(file@),
{
    let path = file.path.text.as_str();
    let line = match file.state {
        Some(state) => render_change_line(&file.path, state),
        None => cat2("  C ", path),
    };
    let mut lines = list1(line);
    let ghost all = file@.versions;
    let ghost head = seq![line@];
    let mut i: usize = 0;
    proof {
        assert(all.take(0) =~= Seq::<ConflictedVersionView>::empty());
        assert(texts(lines@) =~= head + versions_lines(path@, all.take(0)));
    }
    while i < file.versions.len()
        invariant
            i <= file.versions.len(),
            all == file@.versions,
            texts(lines@) == head + versions_lines(path@, all.take(i as int)),
        decreases file.versions.len() - i,
    {
        let more = render_version(path, &file.versions[i]);
        add_texts(&mut lines, &more);
        proof {
            let longer = all.take(i + 1);
            assert(longer.drop_last() =~= all.take(i as int));
            assert(longer.last() == file.versions@[i as int]@);
            assert(texts(lines@) =~= head + versions_lines(path@, longer));
        }
        i += 1;
    }
    proof {
        assert(all.take(all.len() as int) =~= all);
    }
    lines
}

/// Conflicted files, for a person.
pub fn render_conflicts_human(files: &Vec<ConflictedFile>) -> (lines: Vec<String>)
    ensures
        texts(lines@) == conflicts_lines(crate::error::file_views(files@)),
{
    let ghost all = crate::error::file_views(files@);
    let mut lines = no_texts();
    let mut i: usize = 0;
    proof {
        assert(all.take(0) =~= Seq::<ConflictedFileView>::empty());
    }
    while i < files.len()
        invariant
            i <= files.len(),
            all == crate::error::file_views(files@),
            texts(lines@) == conflicts_lines(all.take(i as int)),
        decreases files.len() - i,
    {
        let more = render_conflict(&files[i]);
        add_texts(&mut lines, &more);
        proof {
            let longer = all.take(i + 1);
            assert(longer.drop_last() =~= all.take(i as int));
            assert(longer.last() == files@[i as int]@);
        }
        i += 1;
    }
    proof {
        assert(all.take(all.len() as int) =~= all);
    }
    lines
}

/// The text of one side of a diff, if it has lines to compare. An absent side
/// reads as empty.
pub open spec fn side_text(bytes: Option<Seq<u8>>) -> Option<Text> {
    match bytes {
        None => Some(Seq::empty()),
        Some(bytes) => if valid_utf8(bytes) {
            Some(decode_utf8(bytes))
        } else {
            None
        },
    }
}

/// The text of one side of a diff, if it has lines to compare.
pub fn drift_side_text(bytes: &Option<Vec<u8>>) -> (text: Option<String>)
    ensures
        crate::text::opt_text(text) == side_text(opt_bytes(*bytes)),
{
    match bytes {
        None => Some(String::new()),
        Some(bytes) => decode_strictly(bytes),
    }
}

/// The unified diff of two texts, with the names of their files at the top.
pub uninterp spec fn unified_diff(old: Seq<char>, new: Seq<char>, old_name: Seq<char>, new_name: Seq<char>) -> Seq<char>;

/// Wraps `similar::TextDiff::from_lines` and the `unified_diff` of what it
/// gives, with `header`: the unified diff of two texts by line, in the default
/// context of three lines.
#[verifier::external_body]
fn diff_lines(old: &str, new: &str, old_name: &str, new_name: &str) -> (text: String)
    ensures
        text@ == unified_diff(old@, new@, old_name@, new_name@),
{
    TextDiff::from_lines(old, new).unified_diff().header(old_name, new_name).to_string()
}

/// A text without the one line ending that closes it.
pub open spec fn without_last_newline(text: Text) -> Text {
    if text.len() > 0 && text.last() == '\n' {
        text.drop_last()
    } else {
        text
    }
}

/// A rendered block without the line ending that closes it, which would show up
/// as a blank line.
pub fn as_block(rendered: &str) -> (block: String)
    ensures
        block@ == without_last_newline(rendered@),
{
    let size: usize = rendered.unicode_len();
    if size > 0 && rendered.get_char(size - 1) == '\n' {
        proof {
            assert(rendered@.subrange(0, size - 1) =~= rendered@.drop_last());
        }
        rendered.substring_char(0, size - 1).to_owned()
    } else {
        rendered.to_owned()
    }
}

/// What the repo holds against what home holds.
pub open spec fn drift_diff(repo: Option<Seq<u8>>, home: Option<Seq<u8>>) -> Text {
    match (side_text(repo), side_text(home)) {
        (Some(repo), Some(home)) => without_last_newline(
            unified_diff(repo, home, "repo"@, "system"@),
        ),
        _ => "binary content differs"@,
    }
}

/// A unified diff of what the repo holds against what home holds. Content that
/// is not text is reported rather than mangled.
pub fn render_drift_diff(drift: &FileDrift) -> (text: String)
    ensures
        text@ == drift_diff(opt_bytes(drift.repo_bytes), opt_bytes(drift.home_bytes)),
{
    match (drift_side_text(&drift.repo_bytes), drift_side_text(&drift.home_bytes)) {
        (Some(repo), Some(home)) => {
            let rendered = diff_lines(repo.as_str(), home.as_str(), "repo", "system");
            as_block(rendered.as_str())
        },
        _ => "binary content differs".to_owned(),
    }
}

/// A changed file with the two sides shown, for a machine: the object `status`
/// reports for the same file, plus the diff.
pub open spec fn drift_view(drift: FileDrift) -> Seq<(Text, PayloadView)> {
    with_field(
        change_view(drift.repo_path.text@, code_text(drift.state), reason_text(drift.state)),
        "diff"@,
        shown(drift_diff(opt_bytes(drift.repo_bytes), opt_bytes(drift.home_bytes))),
    )
}

/// A changed file with the two sides shown, for a machine.
pub fn render_drift_json(drift: &FileDrift) -> (object: Object)
    ensures
        object@ == drift_view(*drift),
{
    let diff = render_drift_diff(drift);
    change_json(&drift.repo_path, drift.state).with("diff", Payload::text(diff.as_str()))
}

/// Changed files with their two sides shown, for a person.
pub open spec fn drifts_lines(drifts: Seq<FileDrift>) -> Seq<Text>
    decreases drifts.len(),
{
    if drifts.len() == 0 {
        Seq::empty()
    } else {
        let last = drifts.last();
        drifts_lines(drifts.drop_last()) + seq![
            change_line(last.repo_path.text@, last.state),
            drift_diff(opt_bytes(last.repo_bytes), opt_bytes(last.home_bytes)),
        ]
    }
}

/// Changed files with their two sides shown, for a person: the line `status`
/// gives each, then the diff under it.
pub fn render_drifts_human(drifts: &Vec<FileDrift>) -> (lines: Vec<String>)
    ensures
        texts(lines@) == drifts_lines(drifts@),
{
    let mut lines = no_texts();
    let mut i: usize = 0;
    proof {
        assert(drifts@.take(0) =~= Seq::<FileDrift>::empty());
    }
    while i < drifts.len()
        invariant
            i <= drifts.len(),
            texts(lines@) == drifts_lines(drifts@.take(i as int)),
        decreases drifts.len() - i,
    {
        let more = list2(
            render_change_line(&drifts[i].repo_path, drifts[i].state),
            render_drift_diff(&drifts[i]),
        );
        add_texts(&mut lines, &more);
        proof {
            let longer = drifts@.take(i + 1);
            assert(longer.drop_last() =~= drifts@.take(i as int));
            assert(longer.last() == drifts@[i as int]);
        }
        i += 1;
    }
    proof {
        assert(drifts@.take(drifts@.len() as int) =~= drifts@);
    }
    lines
}

/// Some lines, each with words before it.
pub open spec fn prefixed(prefix: Text, lines: Seq<Text>) -> Seq<Text> {
    lines.map_values(|l: Text| prefix + l)
}

fn prefix_all(prefix: &str, lines: &Vec<String>) -> (marked: Vec<String>)
    ensures
        texts(marked@) == prefixed(prefix@, texts(lines@)),
{
    let mut marked: Vec<String> = Vec::new();
    let mut i: usize = 0;
    while i < lines.len()
        invariant
            i <= lines.len(),
            marked.len() == i,
            forall|j: int| 0 <= j < i ==> (#[trigger] marked@[j])@ == prefix@ + lines@[j]@,
        decreases lines.len() - i,
    {
        marked.push(cat2(prefix, lines[i].as_str()));
        i += 1;
    }
    proof {
        assert(texts(marked@) =~= prefixed(prefix@, texts(lines@)));
    }
    marked
}

/// A stop, for a person: the teaching block if it has one, and its one line if
/// it has not.
pub open spec fn error_text(explanation: ExplanationView) -> Text {
    match explanation.teaching {
        None => "dotsync: "@ + explanation.message,
        Some(teaching) => {
            let found = if explanation.current_state.len() == 0 {
                explanation.message
            } else {
                joined(explanation.current_state, "\n"@)
            };
            "dotsync: "@ + teaching.summary + "\n\nWhat dotsync does:\n"@
                + teaching.what_dotsync_does + "\n\nThis flow:\n"@ + teaching.this_flow
                + "\n\nExpected:\n"@ + teaching.expected + "\n\nCurrent state found:\n"@ + found
                + "\n\nWhy dotsync stopped:\n"@ + teaching.why_stopped + "\n\nCorrect flow:\n"@
                + joined(prefixed("- "@, teaching.next_steps), "\n"@)
        },
    }
}

/// A stop, for a person.
pub fn render_error_human(explanation: &Explanation) -> (text: String)
    ensures
        text@ == error_text(explanation@),
{
    match &explanation.teaching {
        None => cat2("dotsync: ", explanation.message.as_str()),
        Some(teaching) => {
            let steps = prefix_all("- ", &teaching.next_steps);
            let flow = join(&steps, "\n");
            let found = if explanation.current_state.is_empty() {
                explanation.message.clone()
            } else {
                join(&explanation.current_state, "\n")
            };
            let mut text = cat4(
                "dotsync: ",
                teaching.summary.as_str(),
                "\n\nWhat dotsync does:\n",
                teaching.what_dotsync_does.as_str(),
            );
            text.append("\n\nThis flow:\n");
            text.append(teaching.this_flow.as_str());
            text.append("\n\nExpected:\n");
            text.append(teaching.expected.as_str());
            text.append("\n\nCurrent state found:\n");
            text.append(found.as_str());
            text.append("\n\nWhy dotsync stopped:\n");
            text.append(teaching.why_stopped.as_str());
            text.append("\n\nCorrect flow:\n");
            text.append(flow.as_str());
            text
        },
    }
}

/// How many lines a note shows of a list.
pub const SHOWN: usize = 5;

/// At most a handful of lines, then a count.
pub open spec fn shortened(lines: Seq<Text>) -> Seq<Text> {
    if lines.len() > SHOWN {
        prefixed("- "@, lines.take(SHOWN as int)).push(
            "- ... and "@ + decimal((lines.len() - SHOWN) as nat) + " more"@,
        )
    } else {
        prefixed("- "@, lines)
    }
}

/// At most a handful of lines, then a count: a note that scrolls the run's own
/// result off the screen is worse than a shorter one.
pub fn listed(lines: &Vec<String>) -> (list: Vec<String>)
    ensures
        texts(list@) == shortened(texts(lines@)),
{
    let total: usize = lines.len();
    let ghost all = texts(lines@);
    let most: usize = if total > SHOWN {
        SHOWN
    } else {
        total
    };
    let mut list: Vec<String> = Vec::new();
    let mut i: usize = 0;
    while i < most
        invariant
            i <= most,
            most <= lines.len(),
            all == texts(lines@),
            list.len() == i,
            forall|j: int| 0 <= j < i ==> (#[trigger] list@[j])@ == "- "@ + all[j],
        decreases most - i,
    {
        list.push(cat2("- ", lines[i].as_str()));
        i += 1;
    }
    proof {
        assert(texts(list@) =~= prefixed("- "@, all.take(most as int)));
        if total <= SHOWN {
            assert(all.take(most as int) =~= all);
        }
    }
    if total > SHOWN {
        let ghost before = list@;
        list.push(cat3("- ... and ", decimal_text(total - SHOWN).as_str(), " more"));
        proof {
            lemma_texts_push(before, list@.last());
        }
    }
    list
}

/// What a commit put on the scope for the first time.
pub open spec fn newly_tracked_lines(paths: Seq<FilePath>) -> Seq<Text> {
    if paths.len() == 0 {
        Seq::empty()
    } else {
        seq![
            "dotsync: started tracking "@ + decimal(paths.len()) + " new file(s) on this scope"@,
        ] + shortened(path_texts(paths))
    }
}

/// What a commit put on the scope for the first time: every machine sharing the
/// scope will have it written into its home.
pub fn newly_tracked_notes(paths: &Vec<FilePath>) -> (notes: Vec<String>)
    ensures
        texts(notes@) == newly_tracked_lines(paths@),
{
    if paths.is_empty() {
        return no_texts();
    }
    let shown = display_paths(paths);
    let more = listed(&shown);
    let mut notes = list1(
        cat3(
            "dotsync: started tracking ",
            decimal_text(paths.len()).as_str(),
            " new file(s) on this scope",
        ),
    );
    add_texts(&mut notes, &more);
    notes
}

/// Whether any path was left alone because home holds no change of this
/// machine's own there.
pub open spec fn any_not_changed_here(skipped: Seq<SkippedCommitPath>) -> bool {
    exists|i: int| 0 <= i < skipped.len() && (#[trigger] skipped[i]).reason is NotChangedHere
}

/// A path that was left alone, and why.
pub open spec fn skipped_line(skipped: SkippedCommitPath) -> Text {
    skipped.path.text@ + " ("@ + skip_text(skipped.reason) + ")"@
}

/// What a named directory matched that the commit left alone.
pub open spec fn skipped_lines(skipped: Seq<SkippedCommitPath>) -> Seq<Text> {
    if skipped.len() == 0 {
        Seq::empty()
    } else {
        let count = seq![
            "dotsync: did not record "@ + decimal(skipped.len())
                + " file(s) under the paths you named"@,
        ];
        let list = shortened(skipped.map_values(|s: SkippedCommitPath| skipped_line(s)));
        if any_not_changed_here(skipped) {
            count + list + seq![SKIPPED_ADVICE@]
        } else {
            count + list
        }
    }
}

pub const SKIPPED_ADVICE: &'static str = "dotsync: run `dotsync` to bring those up to date, or name one exactly to be told what happened to it.";

/// What a named directory matched that the commit left alone.
pub fn skipped_path_notes(skipped: &Vec<SkippedCommitPath>) -> (notes: Vec<String>)
    ensures
        texts(notes@) == skipped_lines(skipped@),
{
    if skipped.is_empty() {
        return no_texts();
    }
    let mut lines: Vec<String> = Vec::new();
    let mut stale = false;
    let mut i: usize = 0;
    while i < skipped.len()
        invariant
            i <= skipped.len(),
            lines.len() == i,
            forall|j: int| 0 <= j < i ==> (#[trigger] lines@[j])@ == skipped_line(skipped@[j]),
            stale == exists|j: int|
                0 <= j < i && (#[trigger] skipped@[j]).reason is NotChangedHere,
        decreases skipped.len() - i,
    {
        let reason = skipped[i].reason.explain();
        lines.push(cat4(skipped[i].path.text.as_str(), " (", reason.as_str(), ")"));
        if matches!(skipped[i].reason, SkipReason::NotChangedHere(_)) {
            stale = true;
        }
        i += 1;
    }
    proof {
        assert(texts(lines@) =~= skipped@.map_values(|s: SkippedCommitPath| skipped_line(s)));
    }
    let list = listed(&lines);
    let mut notes = list1(
        cat3(
            "dotsync: did not record ",
            decimal_text(skipped.len()).as_str(),
            " file(s) under the paths you named",
        ),
    );
    add_texts(&mut notes, &list);
    if stale {
        let ghost before = notes@;
        notes.push(SKIPPED_ADVICE.to_owned());
        proof {
            lemma_texts_push(before, notes@.last());
            assert(texts(before).push(SKIPPED_ADVICE@) =~= texts(before) + seq![SKIPPED_ADVICE@]);
        }
    }
    notes
}

pub const REFUSED_ADVICE: &'static str = "dotsync: those scopes are committed here but not published, so the remote does not have this change yet. The next run will try again.";

pub const UNPUBLISHED_ADVICE: &'static str = "dotsync: those scopes are committed here and will be published by the next run that reaches the remote.";

/// What did not reach the remote.
pub open spec fn push_lines(push: PushReport) -> Seq<Text> {
    match push {
        PushReport::UpToDate => Seq::empty(),
        PushReport::Refused { scopes, rejection } => seq![
            "dotsync: the remote refused "@ + joined(texts(scopes@), ", "@) + " ("@
                + rejection_reason(rejection) + ")"@,
            REFUSED_ADVICE@,
        ],
        PushReport::Unreachable { scopes, reason } => seq![
            "dotsync: could not publish "@ + joined(texts(scopes@), ", "@) + " ("@ + reason@ + ")"@,
            UNPUBLISHED_ADVICE@,
        ],
    }
}

/// What did not reach the remote.
pub fn push_notes(push: &PushReport) -> (notes: Vec<String>)
    ensures
        texts(notes@) == push_lines(*push),
{
    match push {
        PushReport::UpToDate => no_texts(),
        PushReport::Refused { scopes, rejection } => {
            let list = join(scopes, ", ");
            let reason = rejection.reason();
            list2(
                cat5("dotsync: the remote refused ", list.as_str(), " (", reason.as_str(), ")"),
                REFUSED_ADVICE.to_owned(),
            )
        },
        PushReport::Unreachable { scopes, reason } => {
            let list = join(scopes, ", ");
            list2(
                cat5("dotsync: could not publish ", list.as_str(), " (", reason.as_str(), ")"),
                UNPUBLISHED_ADVICE.to_owned(),
            )
        },
    }
}

/// What was overwritten.
pub open spec fn overwritten_lines(drifts: Seq<FileDrift>) -> Seq<Text> {
    if drifts.len() == 0 {
        Seq::empty()
    } else {
        seq!["dotsync: overwrote "@ + decimal(drifts.len()) + " drifted file(s)"@] + drifts_lines(
            drifts,
        )
    }
}

/// What was overwritten.
pub fn notes_for_drifts(drifts: &Vec<FileDrift>) -> (notes: Vec<String>)
    ensures
        texts(notes@) == overwritten_lines(drifts@),
{
    if drifts.is_empty() {
        return no_texts();
    }
    let more = render_drifts_human(drifts);
    let mut notes = list1(
        cat3("dotsync: overwrote ", decimal_text(drifts.len()).as_str(), " drifted file(s)"),
    );
    add_texts(&mut notes, &more);
    notes
}

/// What a run that worked says alongside: what did not reach the remote, for a
/// command that publishes, and what was overwritten.
pub open spec fn success_lines(drifts: Seq<FileDrift>, push: Option<PushReport>) -> Seq<Text> {
    let unpublished = match push {
        Some(push) => push_lines(push),
        None => Seq::empty(),
    };
    unpublished + overwritten_lines(drifts)
}

/// What a run that worked says alongside. `push` is `None` only for a command
/// that does not publish at all.
pub fn success_notes(drifts: &Vec<FileDrift>, push: Option<&PushReport>) -> (notes: Vec<String>)
    ensures
        texts(notes@) == success_lines(
            drifts@,
            match push {
                Some(push) => Some(*push),
                None => None,
            },
        ),
{
    let mut notes = match push {
        Some(push) => push_notes(push),
        None => no_texts(),
    };
    let more = notes_for_drifts(drifts);
    add_texts(&mut notes, &more);
    notes
}

pub const CARRIED_ADVICE: &'static str = "dotsync: commit them with `dotsync commit <scope> -m \"message\" -- <path>`, or run `dotsync status` to see them again.";

/// The lines of some changes.
pub open spec fn change_lines(changes: Seq<FileChange>) -> Seq<Text> {
    changes.map_values(|c: FileChange| change_line(c.path.text@, c.state))
}

/// The lines of some changes.
pub fn render_change_lines(changes: &Vec<FileChange>) -> (lines: Vec<String>)
    ensures
        texts(lines@) == change_lines(changes@),
{
    let mut lines: Vec<String> = Vec::new();
    let mut i: usize = 0;
    while i < changes.len()
        invariant
            i <= changes.len(),
            lines.len() == i,
            forall|j: int|
                0 <= j < i ==> (#[trigger] lines@[j])@ == change_line(
                    changes@[j].path.text@,
                    changes@[j].state,
                ),
        decreases changes.len() - i,
    {
        lines.push(render_change_line(&changes[i].path, changes[i].state));
        i += 1;
    }
    proof {
        assert(texts(lines@) =~= change_lines(changes@));
    }
    lines
}

/// What a sync merged around and left in home.
pub open spec fn carried_lines(carried: Seq<FileChange>) -> Seq<Text> {
    if carried.len() == 0 {
        Seq::empty()
    } else {
        seq![
            "dotsync: carried "@ + decimal(carried.len())
                + " local change(s) through the sync; they are still only in home"@,
        ] + change_lines(carried) + seq![CARRIED_ADVICE@]
    }
}

/// What a sync merged around and left in home, said out loud on a run that
/// worked.
pub fn carried_change_notes(carried: &Vec<FileChange>) -> (notes: Vec<String>)
    ensures
        texts(notes@) == carried_lines(carried@),
{
    if carried.is_empty() {
        return no_texts();
    }
    let lines = render_change_lines(carried);
    let mut notes = list1(
        cat3(
            "dotsync: carried ",
            decimal_text(carried.len()).as_str(),
            " local change(s) through the sync; they are still only in home",
        ),
    );
    add_texts(&mut notes, &lines);
    let ghost before = notes@;
    notes.push(CARRIED_ADVICE.to_owned());
    proof {
        lemma_texts_push(before, notes@.last());
        assert(texts(before).push(CARRIED_ADVICE@) =~= texts(before) + seq![CARRIED_ADVICE@]);
    }
    notes
}

pub const PAUSED_ADVICE: &'static str = "dotsync: edit the conflicted files in home to the merged contents you want and run `dotsync continue`, or run `dotsync abort` to discard the cascade.";

/// What a read-only command says about a cascade it found paused.
pub open spec fn paused_lines(scope: Option<Text>) -> Seq<Text> {
    match scope {
        None => Seq::empty(),
        Some(scope) => seq![
            "dotsync: a cascade is paused at scope `"@ + scope
                + "`; this machine cannot commit and is publishing nothing until it is resolved"@,
            PAUSED_ADVICE@,
        ],
    }
}

/// What a read-only command says about a cascade it found paused.
pub fn paused_cascade_notes(scope: Option<&str>) -> (notes: Vec<String>)
    ensures
        texts(notes@) == paused_lines(crate::text::opt_str(scope)),
{
    match scope {
        None => no_texts(),
        Some(scope) => list2(
            cat3(
                "dotsync: a cascade is paused at scope `",
                scope,
                "`; this machine cannot commit and is publishing nothing until it is resolved",
            ),
            PAUSED_ADVICE.to_owned(),
        ),
    }
}

/// Scopes, each in backquotes.
pub open spec fn quoted(scopes: Seq<Text>) -> Text {
    joined(scopes.map_values(|s: Text| "`"@ + s + "`"@), ", "@)
}

fn quoted_scopes(scopes: &Vec<String>) -> (text: String)
    ensures
        text@ == quoted(texts(scopes@)),
{
    let mut list: Vec<String> = Vec::new();
    let mut i: usize = 0;
    while i < scopes.len()
        invariant
            i <= scopes.len(),
            list.len() == i,
            forall|j: int| 0 <= j < i ==> (#[trigger] list@[j])@ == "`"@ + scopes@[j]@ + "`"@,
        decreases scopes.len() - i,
    {
        list.push(cat3("`", scopes[i].as_str(), "`"));
        i += 1;
    }
    proof {
        assert(texts(list@) =~= texts(scopes@).map_values(|s: Text| "`"@ + s + "`"@));
    }
    join(&list, ", ")
}

pub const DIVERGED_ADVICE: &'static str = "dotsync: the next `dotsync`, `dotsync commit` or `dotsync continue` merges them, and this answer describes the state before that merge.";

/// What a read-only command says about scopes it found contested.
pub open spec fn diverged_lines(scopes: Seq<Text>) -> Seq<Text> {
    if scopes.len() == 0 {
        Seq::empty()
    } else {
        seq![
            "dotsync: "@ + quoted(scopes)
                + " diverged: this machine and the remote each hold commits the other does not"@,
            DIVERGED_ADVICE@,
        ]
    }
}

/// What a read-only command says about scopes it found contested.
pub fn diverged_scope_notes(scopes: &Vec<String>) -> (notes: Vec<String>)
    ensures
        texts(notes@) == diverged_lines(texts(scopes@)),
{
    if scopes.is_empty() {
        return no_texts();
    }
    let list = quoted_scopes(scopes);
    list2(
        cat3(
            "dotsync: ",
            list.as_str(),
            " diverged: this machine and the remote each hold commits the other does not",
        ),
        DIVERGED_ADVICE.to_owned(),
    )
}

pub const UNPUSHED_ADVICE: &'static str = "dotsync: the next `dotsync` publishes them; until it does, no other machine can see this work.";

/// What a read-only command says about scopes the remote has never seen.
pub open spec fn unpushed_lines(scopes: Seq<Text>) -> Seq<Text> {
    if scopes.len() == 0 {
        Seq::empty()
    } else {
        seq![
            "dotsync: "@ + quoted(scopes) + " committed here and not on the remote"@,
            UNPUSHED_ADVICE@,
        ]
    }
}

/// What a read-only command says about scopes the remote has never seen.
pub fn unpushed_scope_notes(scopes: &Vec<String>) -> (notes: Vec<String>)
    ensures
        texts(notes@) == unpushed_lines(texts(scopes@)),
{
    if scopes.is_empty() {
        return no_texts();
    }
    let list = quoted_scopes(scopes);
    list2(
        cat3("dotsync: ", list.as_str(), " committed here and not on the remote"),
        UNPUSHED_ADVICE.to_owned(),
    )
}

pub const UNREACHABLE_NOTE: &'static str = "dotsync: could not reach the remote; reporting against the last-fetched state";

/// Which state a run is reporting against, when it is not the remote's.
pub open spec fn unreachable_lines(reason: Option<Text>) -> Seq<Text> {
    match reason {
        None => Seq::empty(),
        Some(reason) => seq![UNREACHABLE_NOTE@, "dotsync: "@ + reason],
    }
}

/// Which state a run is reporting against, when it is not the remote's.
pub fn unreachable_remote_notes(unreachable: &Option<UnreachableRemote>) -> (notes: Vec<String>)
    ensures
        texts(notes@) == unreachable_lines(opt_reason(*unreachable)),
{
    match unreachable {
        None => no_texts(),
        Some(remote) => list2(
            UNREACHABLE_NOTE.to_owned(),
            cat2("dotsync: ", remote.reason.as_str()),
        ),
    }
}

/// An answer with the remote out of reach, where it was.
pub open spec fn remote_fields(
    fields: Seq<(Text, PayloadView)>,
    reason: Option<Text>,
) -> Seq<(Text, PayloadView)> {
    match reason {
        None => fields,
        Some(reason) => with_field(fields, "remote_unreachable"@, shown(reason)),
    }
}

/// An answer with the remote out of reach, where it was: said in the one place
/// every answer passes through.
pub fn with_remote_state(object: Object, unreachable: &Option<UnreachableRemote>) -> (answer: Object)
    ensures
        answer@ == remote_fields(object@, opt_reason(*unreachable)),
{
    match unreachable {
        None => object,
        Some(remote) => object.with(
            "remote_unreachable",
            Payload::text(remote.reason.as_str()),
        ),
    }
}

} // verus!
