//! Which machine this is: the scope named after it, and the scope of its OS.
use vstd::prelude::*;
use vstd::string::*;
use crate::error::DotsyncError;
use crate::paths::FilePath;
use crate::text::{opt_text, trim, trimmed, Text};

verus! {

/// The two names a machine has among the scopes.
#[derive(Debug, Clone)]
pub struct MachineIdentity {
    pub os_scope: String,
    pub machine_scope: String,
}

/// The file that a machine's name is read from where no variable says it.
pub const HOSTNAME_FILE: &'static str = "/etc/hostname";

/// What is known about a machine's name, from the surest source to the last.
/// A variable that is not valid text is as good as unset.
pub struct HostnameSources {
    pub hostname: Option<String>,
    pub computername: Option<String>,
    /// What the hostname file holds, where there is one, or what the system
    /// said when it could not be read.
    pub file: Option<Result<String, String>>,
}

/// The value of a variable that is set to something.
pub open spec fn non_empty(value: Option<String>) -> Option<Text> {
    match value {
        Some(text) if text@.len() > 0 => Some(text@),
        _ => None,
    }
}

/// The value of a variable that is set to something.
pub fn non_empty_text(value: &Option<String>) -> (text: Option<String>)
    ensures
        opt_text(text) == non_empty(*value),
{
    match value {
        Some(text) => {
            if text.as_str().is_empty() {
                None
            } else {
                Some(text.clone())
            }
        },
        None => None,
    }
}

/// What looking for a machine's name comes to: from the variables first, then
/// from the file.
pub open spec fn hostname_result(
    sources: HostnameSources,
    name: Result<String, DotsyncError>,
) -> bool {
    match (non_empty(sources.hostname), non_empty(sources.computername), sources.file) {
        (Some(text), _, _) => name matches Ok(name) && name@ == text,
        (None, Some(text), _) => name matches Ok(name) && name@ == text,
        (None, None, Some(Ok(contents))) => if trimmed(contents@).len() > 0 {
            name matches Ok(name) && name@ == trimmed(contents@)
        } else {
            name == Err::<String, DotsyncError>(DotsyncError::MissingHostname)
        },
        (None, None, Some(Err(said))) => name matches Err(DotsyncError::Io { path, source })
            && path.text@ == HOSTNAME_FILE@ && source@ == said@,
        (None, None, None) => name == Err::<String, DotsyncError>(
            DotsyncError::MissingHostname,
        ),
    }
}

/// The name of this machine: from the variables first, then from the file.
pub fn detect_hostname(sources: &HostnameSources) -> (name: Result<String, DotsyncError>)
    ensures
        hostname_result(*sources, name),
{
    match non_empty_text(&sources.hostname) {
        Some(name) => {
            return Ok(name);
        },
        None => {},
    }
    match non_empty_text(&sources.computername) {
        Some(name) => {
            return Ok(name);
        },
        None => {},
    }
    match &sources.file {
        None => Err(DotsyncError::MissingHostname),
        Some(read) => match read {
            Ok(contents) => {
                let name = trim(contents.as_str());
                if name.as_str().is_empty() {
                    Err(DotsyncError::MissingHostname)
                } else {
                    Ok(name)
                }
            },
            Err(said) => Err(
                DotsyncError::Io { path: FilePath::new(HOSTNAME_FILE), source: said.clone() },
            ),
        },
    }
}

/// The scope of an OS, by whether it is Windows.
pub fn detect_os(windows: bool) -> (name: &'static str)
    ensures
        name@ == if windows {
            "windows"@
        } else {
            "linux"@
        },
{
    if windows {
        "windows"
    } else {
        "linux"
    }
}

/// What asking which machine this is comes to.
pub open spec fn identifies(
    os_override: Option<String>,
    name_override: Option<String>,
    windows: bool,
    sources: HostnameSources,
    identity: Result<MachineIdentity, DotsyncError>,
) -> bool {
    &&& match name_override {
        Some(name) => identity matches Ok(identity) && identity.machine_scope@ == name@,
        None => match identity {
            Ok(identity) => hostname_result(
                sources,
                Ok::<String, DotsyncError>(identity.machine_scope),
            ),
            Err(error) => hostname_result(sources, Err::<String, DotsyncError>(error)),
        },
    }
    &&& identity matches Ok(identity) ==> identity.os_scope@ == match os_override {
        Some(os) => os@,
        None => if windows {
            "windows"@
        } else {
            "linux"@
        },
    }
}

/// The machine this is: what the user's own variables say, and otherwise what
/// was detected.
pub fn identify(
    os_override: Option<String>,
    name_override: Option<String>,
    windows: bool,
    sources: &HostnameSources,
) -> (identity: Result<MachineIdentity, DotsyncError>)
    ensures
        identifies(os_override, name_override, windows, *sources, identity),
{
    let os_scope = match os_override {
        Some(os) => os,
        None => detect_os(windows).to_owned(),
    };
    let machine_scope = match name_override {
        Some(name) => name,
        None => match detect_hostname(sources) {
            Ok(name) => name,
            Err(error) => {
                return Err(error);
            },
        },
    };
    Ok(MachineIdentity { os_scope, machine_scope })
}

/// Whether a variable says something.
pub open spec fn is_said(value: Option<String>) -> bool {
    value is Some && value->Some_0@.len() > 0
}

/// A machine is named by what its user said, or else by the first variable that
/// says anything, or else by the hostname file without the white space round it. It
/// has no name exactly where none of them says one, and an empty variable says
/// nothing.
pub proof fn law_a_machine_is_named_by_the_surest_source(
    os_override: Option<String>,
    name_override: Option<String>,
    windows: bool,
    sources: HostnameSources,
    identity: Result<MachineIdentity, DotsyncError>,
)
    requires
        identifies(os_override, name_override, windows, sources, identity),
    ensures
        name_override is Some ==> identity is Ok && identity->Ok_0.machine_scope@
            == name_override->Some_0@,
        name_override is None && is_said(sources.hostname) ==> identity is Ok
            && identity->Ok_0.machine_scope@ == sources.hostname->Some_0@,
        name_override is None && !is_said(sources.hostname) && is_said(sources.computername)
            ==> identity is Ok && identity->Ok_0.machine_scope@
            == sources.computername->Some_0@,
        name_override is None && !is_said(sources.hostname) && !is_said(sources.computername)
            ==> match sources.file {
            Some(Ok(contents)) => (identity is Ok <==> trimmed(contents@).len() > 0) && (
            identity is Ok ==> identity->Ok_0.machine_scope@ == trimmed(contents@)) && (
            identity is Err ==> identity->Err_0 is MissingHostname),
            Some(Err(_)) => identity is Err && identity->Err_0 is Io,
            None => identity is Err && identity->Err_0 is MissingHostname,
        },
        identity is Ok && os_override is Some ==> identity->Ok_0.os_scope@
            == os_override->Some_0@,
        identity is Ok && os_override is None && windows ==> identity->Ok_0.os_scope@
            == "windows"@,
        identity is Ok && os_override is None && !windows ==> identity->Ok_0.os_scope@
            == "linux"@,
{
}

} // verus!
