//! The background service: what to run, what to write and what to remove.

use vstd::prelude::*;

verus! {

use crate::config::{
    has_component, home_directory, is_config_path, is_plain_name, optional_str,
    project_data_directory, resolve_config_path,
};
use crate::listing::concat;
use crate::paths::{
    is_file_name, join_path, law_joining_adds_the_name, parent, path_file_name, path_join,
    path_parent, path_under,
};
use crate::text::{chars_of, join, joined, occurs_in, stands_at, views};

pub const SERVICE_NAME: &'static str = "note-embedding";

pub const SERVICE_UNIT_NAME: &'static str = "note-embedding.service";

/// What can be done with the service.
#[derive(Debug, Clone, Copy, PartialEq, Eq, Structural)]
pub enum ServiceAction {
    Start,
    Status,
    Log,
    Restart,
    Stop,
    Uninstall,
}

/// A place that belongs to the service.
#[derive(Debug, Clone, Copy, PartialEq, Eq, Structural)]
pub enum ServicePlace {
    Unit,
    Executable,
    Config,
    ConfigDirectory,
    DataDirectory,
    SystemdDirectory,
    ExecutableDirectory,
}

/// One step of an action. Except where it says otherwise, a step that fails ends the action.
#[derive(Debug)]
pub enum ServiceStep {
    /// Make sure that services of users can be managed.
    RequireSystemd,
    /// Load the configuration. Where it was only just created, say so, name the command to run
    /// again, and end the action.
    LoadConfig { again: String },
    /// Write the unit file, and link the executable.
    InstallFiles,
    /// Run a command.
    Run { command: String, args: Vec<String> },
    /// Run a command where services of users can be managed; it may fail.
    TryRun { command: String, args: Vec<String> },
    /// Delete the webhook that the configuration names, where there is one; this may fail.
    DeleteWebhook,
    /// Remove a file, where it is there.
    RemoveFile(ServicePlace),
    /// Remove a link, where it is there.
    RemoveLink(ServicePlace),
    /// Remove a directory with all that is in it, where it is there.
    RemoveTree(ServicePlace),
    /// Remove a directory, where it is there and empty.
    RemoveIfEmpty(ServicePlace),
    /// Say what was done, and to what.
    Report { text: String, subject: String },
}

pub enum StepView {
    RequireSystemd,
    LoadConfig(Seq<char>),
    InstallFiles,
    Run(Seq<char>, Seq<Seq<char>>),
    TryRun(Seq<char>, Seq<Seq<char>>),
    DeleteWebhook,
    RemoveFile(ServicePlace),
    RemoveLink(ServicePlace),
    RemoveTree(ServicePlace),
    RemoveIfEmpty(ServicePlace),
    Report(Seq<char>, Seq<char>),
}

impl View for ServiceStep {
    type V = StepView;

    open spec fn view(&self) -> StepView {
        match self {
            ServiceStep::RequireSystemd => StepView::RequireSystemd,
            ServiceStep::LoadConfig { again } => StepView::LoadConfig(again@),
            ServiceStep::InstallFiles => StepView::InstallFiles,
            ServiceStep::Run { command, args } => StepView::Run(command@, views(args@)),
            ServiceStep::TryRun { command, args } => StepView::TryRun(command@, views(args@)),
            ServiceStep::DeleteWebhook => StepView::DeleteWebhook,
            ServiceStep::RemoveFile(place) => StepView::RemoveFile(*place),
            ServiceStep::RemoveLink(place) => StepView::RemoveLink(*place),
            ServiceStep::RemoveTree(place) => StepView::RemoveTree(*place),
            ServiceStep::RemoveIfEmpty(place) => StepView::RemoveIfEmpty(*place),
            ServiceStep::Report { text, subject } => StepView::Report(text@, subject@),
        }
    }
}

pub open spec fn step_views(steps: Seq<ServiceStep>) -> Seq<StepView> {
    Seq::new(steps.len(), |i: int| steps[i]@)
}

/// A call of `systemctl` for the services of the user.
pub open spec fn systemctl(args: Seq<Seq<char>>) -> StepView {
    StepView::Run("systemctl"@, seq!["--user"@] + args)
}

/// The steps of an action.
pub open spec fn action_steps(action: ServiceAction) -> Seq<StepView> {
    match action {
        ServiceAction::Start => seq![
            StepView::RequireSystemd,
            StepView::LoadConfig("note-embedding --service start"@),
            StepView::InstallFiles,
            systemctl(seq!["daemon-reload"@]),
            systemctl(seq!["enable"@, "--now"@, SERVICE_UNIT_NAME@]),
            StepView::Report("Started user service: "@, SERVICE_UNIT_NAME@),
        ],
        ServiceAction::Restart => seq![
            StepView::RequireSystemd,
            StepView::LoadConfig("note-embedding --service restart"@),
            StepView::InstallFiles,
            systemctl(seq!["daemon-reload"@]),
            systemctl(seq!["enable"@, SERVICE_UNIT_NAME@]),
            systemctl(seq!["restart"@, SERVICE_UNIT_NAME@]),
            StepView::Report("Restarted user service: "@, SERVICE_UNIT_NAME@),
        ],
        ServiceAction::Status => seq![
            StepView::RequireSystemd,
            systemctl(seq!["status"@, "--no-pager"@, SERVICE_UNIT_NAME@]),
        ],
        ServiceAction::Log => seq![
            StepView::RequireSystemd,
            StepView::Run(
                "journalctl"@,
                seq!["--user"@] + seq!["-u"@, SERVICE_UNIT_NAME@, "-n"@, "100"@, "--no-pager"@],
            ),
        ],
        ServiceAction::Stop => seq![
            StepView::RequireSystemd,
            systemctl(seq!["stop"@, SERVICE_UNIT_NAME@]),
            StepView::Report("Stopped user service: "@, SERVICE_UNIT_NAME@),
        ],
        ServiceAction::Uninstall => seq![
            StepView::DeleteWebhook,
            StepView::TryRun(
                "systemctl"@,
                seq!["--user"@] + seq!["disable"@, "--now"@, SERVICE_UNIT_NAME@],
            ),
            StepView::TryRun("systemctl"@, seq!["--user"@] + seq!["daemon-reload"@]),
            StepView::RemoveFile(ServicePlace::Unit),
            StepView::RemoveLink(ServicePlace::Executable),
            StepView::RemoveFile(ServicePlace::Config),
            StepView::RemoveIfEmpty(ServicePlace::ConfigDirectory),
            StepView::RemoveTree(ServicePlace::DataDirectory),
            StepView::RemoveIfEmpty(ServicePlace::SystemdDirectory),
            StepView::RemoveIfEmpty(ServicePlace::ExecutableDirectory),
            StepView::Report("Uninstalled user service assets for "@, SERVICE_NAME@),
        ],
    }
}

fn user_args(a: &str, b: Option<&str>, c: Option<&str>) -> (r: Vec<String>)
    requires
        b is None ==> c is None,
    ensures
        views(r@) == seq!["--user"@] + (match (b, c) {
            (Some(second), Some(third)) => seq![a@, second@, third@],
            (Some(second), None) => seq![a@, second@],
            _ => seq![a@],
        }),
{
    let mut r: Vec<String> = Vec::new();
    r.push("--user".to_owned());
    r.push(a.to_owned());
    if let Some(second) = b {
        r.push(second.to_owned());
    }
    if let Some(third) = c {
        r.push(third.to_owned());
    }
    assert(views(r@) =~= seq!["--user"@] + (match (b, c) {
        (Some(second), Some(third)) => seq![a@, second@, third@],
        (Some(second), None) => seq![a@, second@],
        _ => seq![a@],
    }));
    r
}

fn run_systemctl(a: &str, b: Option<&str>, c: Option<&str>) -> (r: ServiceStep)
    requires
        b is None ==> c is None,
    ensures
        r@ == systemctl(
            match (b, c) {
                (Some(second), Some(third)) => seq![a@, second@, third@],
                (Some(second), None) => seq![a@, second@],
                _ => seq![a@],
            },
        ),
{
    ServiceStep::Run { command: "systemctl".to_owned(), args: user_args(a, b, c) }
}

fn report(text: &str, subject: &str) -> (r: ServiceStep)
    ensures
        r@ == StepView::Report(text@, subject@),
{
    ServiceStep::Report { text: text.to_owned(), subject: subject.to_owned() }
}

fn start_service() -> (r: Vec<ServiceStep>)
    ensures
        step_views(r@) == action_steps(ServiceAction::Start),
{
    let mut r: Vec<ServiceStep> = Vec::new();
    r.push(ServiceStep::RequireSystemd);
    r.push(ServiceStep::LoadConfig { again: "note-embedding --service start".to_owned() });
    r.push(ServiceStep::InstallFiles);
    r.push(run_systemctl("daemon-reload", None, None));
    r.push(run_systemctl("enable", Some("--now"), Some(SERVICE_UNIT_NAME)));
    r.push(report("Started user service: ", SERVICE_UNIT_NAME));
    assert(step_views(r@) =~= action_steps(ServiceAction::Start));
    r
}

fn restart_service() -> (r: Vec<ServiceStep>)
    ensures
        step_views(r@) == action_steps(ServiceAction::Restart),
{
    let mut r: Vec<ServiceStep> = Vec::new();
    r.push(ServiceStep::RequireSystemd);
    r.push(ServiceStep::LoadConfig { again: "note-embedding --service restart".to_owned() });
    r.push(ServiceStep::InstallFiles);
    r.push(run_systemctl("daemon-reload", None, None));
    r.push(run_systemctl("enable", Some(SERVICE_UNIT_NAME), None));
    r.push(run_systemctl("restart", Some(SERVICE_UNIT_NAME), None));
    r.push(report("Restarted user service: ", SERVICE_UNIT_NAME));
    assert(step_views(r@) =~= action_steps(ServiceAction::Restart));
    r
}

fn status_service() -> (r: Vec<ServiceStep>)
    ensures
        step_views(r@) == action_steps(ServiceAction::Status),
{
    let mut r: Vec<ServiceStep> = Vec::new();
    r.push(ServiceStep::RequireSystemd);
    r.push(run_systemctl("status", Some("--no-pager"), Some(SERVICE_UNIT_NAME)));
    assert(step_views(r@) =~= action_steps(ServiceAction::Status));
    r
}

fn log_service() -> (r: Vec<ServiceStep>)
    ensures
        step_views(r@) == action_steps(ServiceAction::Log),
{
    let mut args: Vec<String> = Vec::new();
    args.push("--user".to_owned());
    args.push("-u".to_owned());
    args.push(SERVICE_UNIT_NAME.to_owned());
    args.push("-n".to_owned());
    args.push("100".to_owned());
    args.push("--no-pager".to_owned());
    assert(views(args@) =~= seq!["--user"@] + seq![
        "-u"@,
        SERVICE_UNIT_NAME@,
        "-n"@,
        "100"@,
        "--no-pager"@,
    ]);
    let mut r: Vec<ServiceStep> = Vec::new();
    r.push(ServiceStep::RequireSystemd);
    r.push(ServiceStep::Run { command: "journalctl".to_owned(), args });
    assert(step_views(r@) =~= action_steps(ServiceAction::Log));
    r
}

fn stop_service() -> (r: Vec<ServiceStep>)
    ensures
        step_views(r@) == action_steps(ServiceAction::Stop),
{
    let mut r: Vec<ServiceStep> = Vec::new();
    r.push(ServiceStep::RequireSystemd);
    r.push(run_systemctl("stop", Some(SERVICE_UNIT_NAME), None));
    r.push(report("Stopped user service: ", SERVICE_UNIT_NAME));
    assert(step_views(r@) =~= action_steps(ServiceAction::Stop));
    r
}

fn uninstall_service() -> (r: Vec<ServiceStep>)
    ensures
        step_views(r@) == action_steps(ServiceAction::Uninstall),
{
    let mut r: Vec<ServiceStep> = Vec::new();
    r.push(ServiceStep::DeleteWebhook);
    r.push(
        ServiceStep::TryRun {
            command: "systemctl".to_owned(),
            args: user_args("disable", Some("--now"), Some(SERVICE_UNIT_NAME)),
        },
    );
    r.push(
        ServiceStep::TryRun {
            command: "systemctl".to_owned(),
            args: user_args("daemon-reload", None, None),
        },
    );
    r.push(ServiceStep::RemoveFile(ServicePlace::Unit));
    r.push(ServiceStep::RemoveLink(ServicePlace::Executable));
    r.push(ServiceStep::RemoveFile(ServicePlace::Config));
    r.push(ServiceStep::RemoveIfEmpty(ServicePlace::ConfigDirectory));
    r.push(ServiceStep::RemoveTree(ServicePlace::DataDirectory));
    r.push(ServiceStep::RemoveIfEmpty(ServicePlace::SystemdDirectory));
    r.push(ServiceStep::RemoveIfEmpty(ServicePlace::ExecutableDirectory));
    r.push(report("Uninstalled user service assets for ", SERVICE_NAME));
    assert(step_views(r@) =~= action_steps(ServiceAction::Uninstall));
    r
}

/// The steps of an action, in order.
pub fn handle_service_action(action: ServiceAction) -> (r: Vec<ServiceStep>)
    ensures
        step_views(r@) == action_steps(action),
{
    match action {
        ServiceAction::Start => start_service(),
        ServiceAction::Status => status_service(),
        ServiceAction::Log => log_service(),
        ServiceAction::Restart => restart_service(),
        ServiceAction::Stop => stop_service(),
        ServiceAction::Uninstall => uninstall_service(),
    }
}

/// Uninstalling removes the unit file, the link to the executable, the configuration and the
/// data.
pub proof fn law_uninstalling_removes_all()
    ensures
        action_steps(ServiceAction::Uninstall).contains(StepView::RemoveFile(ServicePlace::Unit)),
        action_steps(ServiceAction::Uninstall).contains(
            StepView::RemoveLink(ServicePlace::Executable),
        ),
        action_steps(ServiceAction::Uninstall).contains(StepView::RemoveFile(ServicePlace::Config)),
        action_steps(ServiceAction::Uninstall).contains(
            StepView::RemoveTree(ServicePlace::DataDirectory),
        ),
{
    let steps = action_steps(ServiceAction::Uninstall);
    assert(steps[3] == StepView::RemoveFile(ServicePlace::Unit));
    assert(steps[4] == StepView::RemoveLink(ServicePlace::Executable));
    assert(steps[5] == StepView::RemoveFile(ServicePlace::Config));
    assert(steps[7] == StepView::RemoveTree(ServicePlace::DataDirectory));
}

/// No action but uninstalling removes anything.
pub proof fn law_only_uninstalling_removes(action: ServiceAction, i: int)
    requires
        action != ServiceAction::Uninstall,
        0 <= i < action_steps(action).len(),
    ensures
        !(action_steps(action)[i] is RemoveFile),
        !(action_steps(action)[i] is RemoveLink),
        !(action_steps(action)[i] is RemoveTree),
        !(action_steps(action)[i] is RemoveIfEmpty),
        !(action_steps(action)[i] is DeleteWebhook),
{
}

// ---------------------------------------------------------------------------------------------
// Places

/// The files and directories of the service.
#[derive(Debug)]
pub struct ServicePaths {
    pub config_path: String,
    pub config_dir: String,
    pub data_dir: String,
    pub current_exe: String,
    pub user_bin_dir: String,
    pub user_bin_path: String,
    pub user_systemd_dir: String,
    pub service_unit_path: String,
}

impl ServicePaths {
    pub open spec fn lies_in(
        self,
        home: Seq<char>,
        data_dir: Seq<char>,
        config_path: Seq<char>,
        current_exe: Seq<char>,
    ) -> bool {
        let bin = path_join(home, ".local/bin"@);
        let systemd = path_join(home, ".config/systemd/user"@);
        &&& self.config_path@ == config_path
        &&& self.config_dir@ == (match path_parent(config_path) {
            Some(dir) => dir,
            None => path_join(home, ".config"@),
        })
        &&& self.data_dir@ == data_dir
        &&& self.current_exe@ == current_exe
        &&& self.user_bin_dir@ == bin
        &&& self.user_bin_path@ == path_join(bin, SERVICE_NAME@)
        &&& self.user_systemd_dir@ == systemd
        &&& self.service_unit_path@ == path_join(systemd, SERVICE_UNIT_NAME@)
    }

    /// The places fit some home directory, some data directory and some configuration file.
    pub open spec fn lies_somewhere(self, current_exe: Seq<char>) -> bool {
        exists|home: Seq<char>, data_dir: Seq<char>, config_path: Seq<char>| #[trigger]
            self.lies_in(home, data_dir, config_path, current_exe)
    }

    /// The places of the service in the given directories.
    pub fn resolve_in(home: &str, data_dir: &str, config_path: &str, current_exe: &str) -> (r: Self)
        ensures
            r.lies_in(home@, data_dir@, config_path@, current_exe@),
    {
        let user_bin_dir = join_path(home, ".local/bin");
        let user_systemd_dir = join_path(home, ".config/systemd/user");
        let config_dir = match parent(config_path) {
            Some(dir) => dir,
            None => join_path(home, ".config"),
        };
        let user_bin_path = join_path(user_bin_dir.as_str(), SERVICE_NAME);
        let service_unit_path = join_path(user_systemd_dir.as_str(), SERVICE_UNIT_NAME);
        ServicePaths {
            config_path: config_path.to_owned(),
            config_dir,
            data_dir: data_dir.to_owned(),
            current_exe: current_exe.to_owned(),
            user_bin_dir,
            user_bin_path,
            user_systemd_dir,
            service_unit_path,
        }
    }

    /// The places of the service on this machine, or what could not be found.
    pub fn resolve(config_override: Option<&str>, current_exe: &str) -> (r: Result<
        Self,
        &'static str,
    >)
        ensures
            r matches Ok(paths) ==> {
                &&& paths.lies_somewhere(current_exe@)
                &&& has_component(paths.data_dir@, SERVICE_NAME@)
                &&& is_config_path(optional_str(config_override), paths.config_path@)
            },
            r matches Err(message) ==> message@ == "failed to resolve user home directory"@
                || message@ == "failed to resolve project directories"@ || (message@
                == "failed to resolve config path"@ && config_override is None),
    {
        let home = match home_directory() {
            Some(home) => home,
            None => return Err("failed to resolve user home directory"),
        };
        proof {
            reveal_strlit("note-embedding");
            assert(is_plain_name(SERVICE_NAME@));
        }
        let data_dir = match project_data_directory(SERVICE_NAME) {
            Some(dir) => dir,
            None => return Err("failed to resolve project directories"),
        };
        let config_path = match resolve_config_path(config_override) {
            Ok(path) => path,
            Err(_) => return Err("failed to resolve config path"),
        };
        let paths = ServicePaths::resolve_in(
            home.as_str(),
            data_dir.as_str(),
            config_path.as_str(),
            current_exe,
        );
        assert(paths.lies_somewhere(current_exe@));
        Ok(paths)
    }

    pub open spec fn place_path(self, place: ServicePlace) -> Seq<char> {
        match place {
            ServicePlace::Unit => self.service_unit_path@,
            ServicePlace::Executable => self.user_bin_path@,
            ServicePlace::Config => self.config_path@,
            ServicePlace::ConfigDirectory => self.config_dir@,
            ServicePlace::DataDirectory => self.data_dir@,
            ServicePlace::SystemdDirectory => self.user_systemd_dir@,
            ServicePlace::ExecutableDirectory => self.user_bin_dir@,
        }
    }

    pub fn place(&self, place: ServicePlace) -> (r: &str)
        ensures
            r@ == self.place_path(place),
    {
        match place {
            ServicePlace::Unit => self.service_unit_path.as_str(),
            ServicePlace::Executable => self.user_bin_path.as_str(),
            ServicePlace::Config => self.config_path.as_str(),
            ServicePlace::ConfigDirectory => self.config_dir.as_str(),
            ServicePlace::DataDirectory => self.data_dir.as_str(),
            ServicePlace::SystemdDirectory => self.user_systemd_dir.as_str(),
            ServicePlace::ExecutableDirectory => self.user_bin_dir.as_str(),
        }
    }
}

// ---------------------------------------------------------------------------------------------
// The unit file

/// How a character is written between the quotation marks of a unit file.
pub open spec fn quoted_char(c: char) -> Seq<char> {
    if c == '\\' {
        seq!['\\', '\\']
    } else if c == '"' {
        seq!['\\', '"']
    } else {
        seq![c]
    }
}

pub open spec fn quoted_chars(s: Seq<char>) -> Seq<char>
    decreases s.len(),
{
    if s.len() == 0 {
        Seq::empty()
    } else {
        quoted_chars(s.drop_last()) + quoted_char(s.last())
    }
}

/// The text between quotation marks, as a unit file has it.
pub open spec fn quoted(s: Seq<char>) -> Seq<char> {
    seq!['"'] + quoted_chars(s) + seq!['"']
}

pub fn systemd_quote(value: &str) -> (r: String)
    ensures
        r@ == quoted(value@),
{
    let chars = chars_of(value);
    let mut inner = String::new();
    let mut i: usize = 0;
    while i < chars.len()
        invariant
            i <= chars@.len(),
            chars@ == value@,
            inner@ == quoted_chars(value@.take(i as int)),
        decreases chars@.len() - i,
    {
        assert(value@.take(i + 1).drop_last() == value@.take(i as int));
        let c = chars[i];
        let ghost before = inner@;
        if c == '\\' || c == '"' {
            inner.push('\\');
        }
        inner.push(c);
        assert(inner@ =~= before + quoted_char(c));
        i += 1;
    }
    assert(value@.take(i as int) == value@);
    let mut r = String::new();
    r.push('"');
    r.append(inner.as_str());
    r.push('"');
    assert(r@ =~= quoted(value@));
    r
}

/// What is read from between the quotation marks: a backslash stands for the character after it.
pub open spec fn unquoted_chars(s: Seq<char>) -> Seq<char>
    decreases s.len(),
{
    if s.len() == 0 {
        Seq::empty()
    } else if s.first() == '\\' && s.len() > 1 {
        seq![s[1]] + unquoted_chars(s.skip(2))
    } else {
        seq![s.first()] + unquoted_chars(s.skip(1))
    }
}

/// What was quoted is read back as it was.
pub proof fn law_quoting_reads_back(s: Seq<char>)
    ensures
        unquoted_chars(quoted_chars(s)) == s,
    decreases s.len(),
{
    if s.len() > 0 {
        let tail = s.drop_first();
        lemma_quoted_front(s);
        law_quoting_reads_back(tail);
        let first = quoted_char(s.first());
        let all = quoted_chars(s);
        if s.first() == '\\' || s.first() == '"' {
            assert(all[0] == '\\' && all[1] == s.first());
            assert(all.skip(2) =~= quoted_chars(tail));
        } else {
            assert(all[0] == s.first());
            assert(all.skip(1) =~= quoted_chars(tail));
        }
        assert(seq![s.first()] + tail =~= s);
    } else {
        assert(unquoted_chars(quoted_chars(s)) =~= s);
    }
}

proof fn lemma_quoted_front(s: Seq<char>)
    requires
        s.len() > 0,
    ensures
        quoted_chars(s) == quoted_char(s.first()) + quoted_chars(s.drop_first()),
    decreases s.len(),
{
    if s.len() == 1 {
        reveal_with_fuel(quoted_chars, 2);
        assert(s.drop_last() =~= Seq::<char>::empty());
        assert(s.drop_first() =~= Seq::<char>::empty());
        assert(quoted_chars(s) =~= quoted_char(s.first()) + quoted_chars(s.drop_first()));
    } else {
        let short = s.drop_last();
        lemma_quoted_front(short);
        assert(short.first() == s.first());
        assert(s.drop_first().drop_last() =~= short.drop_first());
        assert(s.drop_first().last() == s.last());
        assert(quoted_chars(s) =~= quoted_char(s.first()) + quoted_chars(s.drop_first()));
    }
}

/// The unit file of the service.
pub open spec fn unit_file(executable: Seq<char>, config_path: Seq<char>) -> Seq<char> {
    "[Unit]\nDescription=note-embedding background service\nAfter=network-online.target\nWants=network-online.target\n\n[Service]\nType=simple\nExecStart="@
        + quoted(executable) + "\nEnvironment="@ + quoted("NOTE_EMBEDDING_CONFIG="@ + config_path)
        + "\nRestart=on-failure\nRestartSec=5\nStandardOutput=journal\nStandardError=journal\n\n[Install]\nWantedBy=default.target\n"@
}

pub fn render_unit_file(paths: &ServicePaths) -> (r: String)
    ensures
        r@ == unit_file(paths.user_bin_path@, paths.config_path@),
{
    let setting = concat("NOTE_EMBEDDING_CONFIG=", paths.config_path.as_str());
    let mut text =
        "[Unit]\nDescription=note-embedding background service\nAfter=network-online.target\nWants=network-online.target\n\n[Service]\nType=simple\nExecStart=".to_owned();
    text.append(systemd_quote(paths.user_bin_path.as_str()).as_str());
    text.append("\nEnvironment=");
    text.append(systemd_quote(setting.as_str()).as_str());
    text.append(
        "\nRestart=on-failure\nRestartSec=5\nStandardOutput=journal\nStandardError=journal\n\n[Install]\nWantedBy=default.target\n",
    );
    text
}

// ---------------------------------------------------------------------------------------------
// Links and commands

/// What to do about the link to the executable.
#[derive(Debug)]
pub enum LinkStep {
    /// Something else is there; fail with this message.
    Refuse(String),
    /// Remove the old link, and make a new one.
    Replace,
    /// Make a new link.
    Create,
}

/// Whether a new link is made.
pub open spec fn links_anew(exists: bool, is_link: bool) -> bool {
    is_link || !exists
}

pub fn plan_executable_link(link_path: &str, exists: bool, is_link: bool) -> (r: LinkStep)
    ensures
        r is Refuse <==> !links_anew(exists, is_link),
        is_link ==> r is Replace,
        !is_link && !exists ==> r is Create,
        !is_link && exists ==> {
            &&& r matches LinkStep::Refuse(message)
            &&& message@ == link_path@
                + " already exists and is not a symlink; remove it manually or choose a different install path"@
        },
{
    if is_link {
        LinkStep::Replace
    } else if exists {
        LinkStep::Refuse(
            concat(
                link_path,
                " already exists and is not a symlink; remove it manually or choose a different install path",
            ),
        )
    } else {
        LinkStep::Create
    }
}

pub const NO_SYSTEMD: &'static str = "systemd user services are not available; make sure `systemctl --user` works in this session";

/// What is said of a command that failed.
pub fn command_failure(command: &str, args: &Vec<String>, status: &str) -> (r: String)
    ensures
        r@ == "`"@ + command@ + " "@ + joined(views(args@), " "@) + "` exited with status "@
            + status@,
{
    let mut text = "`".to_owned();
    text.append(command);
    text.append(" ");
    text.append(join(args, " ").as_str());
    text.append("` exited with status ");
    text.append(status);
    text
}

// ---------------------------------------------------------------------------------------------
// Laws

/// A service is started only after it was made sure that services can be managed, the configuration
/// was loaded and the files were installed, in this order; nothing is run before.
pub proof fn law_service_is_installed_before_it_runs(action: ServiceAction, i: int)
    requires
        action == ServiceAction::Start || action == ServiceAction::Restart,
        0 <= i < action_steps(action).len(),
        action_steps(action)[i] is Run,
    ensures
        i > 2,
        action_steps(action)[0] is RequireSystemd,
        action_steps(action)[1] is LoadConfig,
        action_steps(action)[2] is InstallFiles,
{
}

/// Starting enables the service and starts it at once, restarting restarts it, and stopping stops
/// it without installing anything.
pub proof fn law_actions_run_what_they_are_called_for()
    ensures
        action_steps(ServiceAction::Start).contains(
            StepView::Run(
                "systemctl"@,
                seq!["--user"@, "enable"@, "--now"@, "note-embedding.service"@],
            ),
        ),
        action_steps(ServiceAction::Restart).contains(
            StepView::Run("systemctl"@, seq!["--user"@, "restart"@, "note-embedding.service"@]),
        ),
        action_steps(ServiceAction::Restart).contains(
            StepView::Run("systemctl"@, seq!["--user"@, "enable"@, "note-embedding.service"@]),
        ),
        !action_steps(ServiceAction::Stop).contains(StepView::InstallFiles),
        !action_steps(ServiceAction::Uninstall).contains(StepView::InstallFiles),
{
    let start = action_steps(ServiceAction::Start);
    assert(seq!["--user"@] + seq!["enable"@, "--now"@, SERVICE_UNIT_NAME@] =~= seq![
        "--user"@,
        "enable"@,
        "--now"@,
        "note-embedding.service"@,
    ]);
    assert(start[4] == systemctl(seq!["enable"@, "--now"@, SERVICE_UNIT_NAME@]));
    let again = action_steps(ServiceAction::Restart);
    assert(seq!["--user"@] + seq!["restart"@, SERVICE_UNIT_NAME@] =~= seq![
        "--user"@,
        "restart"@,
        "note-embedding.service"@,
    ]);
    assert(seq!["--user"@] + seq!["enable"@, SERVICE_UNIT_NAME@] =~= seq![
        "--user"@,
        "enable"@,
        "note-embedding.service"@,
    ]);
    assert(again[4] == systemctl(seq!["enable"@, SERVICE_UNIT_NAME@]));
    assert(again[5] == systemctl(seq!["restart"@, SERVICE_UNIT_NAME@]));
}

/// The unit file starts the executable and tells it where its configuration is.
pub proof fn law_unit_file_names_executable_and_configuration(
    executable: Seq<char>,
    config_path: Seq<char>,
)
    ensures
        occurs_in(unit_file(executable, config_path), "\nExecStart="@ + quoted(executable)),
        occurs_in(
            unit_file(executable, config_path),
            "\nEnvironment="@ + quoted("NOTE_EMBEDDING_CONFIG="@ + config_path),
        ),
{
    let text = unit_file(executable, config_path);
    let head =
        "[Unit]\nDescription=note-embedding background service\nAfter=network-online.target\nWants=network-online.target\n\n[Service]\nType=simple\nExecStart="@;
    reveal_strlit(
        "[Unit]\nDescription=note-embedding background service\nAfter=network-online.target\nWants=network-online.target\n\n[Service]\nType=simple\nExecStart=",
    );
    reveal_strlit("\nExecStart=");
    let wanted = "\nExecStart="@ + quoted(executable);
    let at = head.len() - "\nExecStart="@.len();
    assert(text.subrange(at, at + wanted.len()) =~= wanted);
    assert(stands_at(text, wanted, at));
    let setting = "\nEnvironment="@ + quoted("NOTE_EMBEDDING_CONFIG="@ + config_path);
    let there = (head + quoted(executable)).len() as int;
    assert(text.subrange(there, there + setting.len()) =~= setting);
    assert(stands_at(text, setting, there));
}

/// The unit file lies in the directory of the user's services and the link in that of the user's
/// programs, each under the name of the service.
pub proof fn law_files_of_the_service_lie_in_their_directories(
    paths: ServicePaths,
    home: Seq<char>,
    data_dir: Seq<char>,
    config_path: Seq<char>,
    current_exe: Seq<char>,
)
    requires
        paths.lies_in(home, data_dir, config_path, current_exe),
    ensures
        path_under(
            paths.place_path(ServicePlace::Unit),
            paths.place_path(ServicePlace::SystemdDirectory),
        ),
        path_under(
            paths.place_path(ServicePlace::Executable),
            paths.place_path(ServicePlace::ExecutableDirectory),
        ),
        path_file_name(paths.place_path(ServicePlace::Unit)) == Some("note-embedding.service"@),
        path_file_name(paths.place_path(ServicePlace::Executable)) == Some("note-embedding"@),
        paths.place_path(ServicePlace::Config) == config_path,
        paths.place_path(ServicePlace::DataDirectory) == data_dir,
{
    reveal_strlit("note-embedding");
    reveal_strlit("note-embedding.service");
    assert(is_file_name("note-embedding"@)) by {
        assert("note-embedding"@.len() == 14);
    }
    assert(is_file_name("note-embedding.service"@)) by {
        assert("note-embedding.service"@.len() == 22);
    }
    law_joining_adds_the_name(paths.user_bin_dir@, "note-embedding"@);
    law_joining_adds_the_name(paths.user_systemd_dir@, "note-embedding.service"@);
}

/// Uninstalling deletes the webhook while the configuration is still there, and stops the service
/// before any of its files goes.
pub proof fn law_service_is_stopped_before_it_is_removed(i: int)
    requires
        0 <= i < action_steps(ServiceAction::Uninstall).len(),
        action_steps(ServiceAction::Uninstall)[i] is RemoveFile || action_steps(
            ServiceAction::Uninstall,
        )[i] is RemoveLink || action_steps(ServiceAction::Uninstall)[i] is RemoveTree,
    ensures
        exists|j: int| 0 <= j < i && #[trigger] action_steps(ServiceAction::Uninstall)[j]
            is DeleteWebhook,
        exists|j: int| 0 <= j < i && #[trigger] action_steps(ServiceAction::Uninstall)[j]
            == StepView::TryRun(
            "systemctl"@,
            seq!["--user"@, "disable"@, "--now"@, "note-embedding.service"@],
        ),
        action_steps(ServiceAction::Stop).contains(
            StepView::Run("systemctl"@, seq!["--user"@, "stop"@, "note-embedding.service"@]),
        ),
{
    let steps = action_steps(ServiceAction::Uninstall);
    assert(steps[0] is DeleteWebhook);
    assert(seq!["--user"@] + seq!["disable"@, "--now"@, SERVICE_UNIT_NAME@] =~= seq![
        "--user"@,
        "disable"@,
        "--now"@,
        "note-embedding.service"@,
    ]);
    assert(steps[1] is TryRun);
    assert(seq!["--user"@] + seq!["stop"@, SERVICE_UNIT_NAME@] =~= seq![
        "--user"@,
        "stop"@,
        "note-embedding.service"@,
    ]);
    assert(action_steps(ServiceAction::Stop)[1] == systemctl(seq!["stop"@, SERVICE_UNIT_NAME@]));
}

/// Nothing but a link is ever replaced by one: a file of that name is left alone.
pub proof fn law_only_links_are_replaced(exists: bool, is_link: bool)
    ensures
        exists && !is_link ==> !links_anew(exists, is_link),
        is_link ==> links_anew(exists, is_link),
        !exists ==> links_anew(exists, is_link),
{
}

} // verus!
