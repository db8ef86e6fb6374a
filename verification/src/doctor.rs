//! The self-test: which checks are made, how their results are shown, and what to do about them.

use vstd::prelude::*;

verus! {

use crate::config::{optional_str, AppConfig, TelegramConfig, TelegramMode};
use crate::config_text::{create_default_config_if_missing, is_first_file};
use crate::listing::{
    concat, empty_list, extend, keeps_at, kept_in_order, lemma_kept_concat, no_texts, note, only_if,
};
use crate::numbers::{decimal, render_usize};
use crate::text::{
    contains, has_prefix, join, joined, lines, occurs_in, split_lines, stands_at, views,
};
use crate::ui::{
    paint, painted, BOLD_CYAN, BOLD_GREEN, BOLD_MAGENTA, BOLD_RED, BOLD_YELLOW,
};

#[derive(Debug, Clone, Copy, PartialEq, Eq, Structural)]
pub enum DoctorStatus {
    Pass,
    Warn,
    Fail,
}

/// The result of a check, and what to do about it.
#[derive(Debug)]
pub struct DoctorCheck {
    pub name: String,
    pub status: DoctorStatus,
    pub detail: String,
    pub fix: Option<String>,
}

pub struct CheckView {
    pub name: Seq<char>,
    pub status: DoctorStatus,
    pub detail: Seq<char>,
    pub fix: Option<Seq<char>>,
}

impl View for DoctorCheck {
    type V = CheckView;

    open spec fn view(&self) -> CheckView {
        CheckView {
            name: self.name@,
            status: self.status,
            detail: self.detail@,
            fix: match self.fix {
                Some(fix) => Some(fix@),
                None => None,
            },
        }
    }
}

pub open spec fn passed(name: Seq<char>, detail: Seq<char>) -> CheckView {
    CheckView { name, status: DoctorStatus::Pass, detail, fix: None }
}

pub open spec fn warned(name: Seq<char>, detail: Seq<char>, fix: Seq<char>) -> CheckView {
    CheckView { name, status: DoctorStatus::Warn, detail, fix: Some(fix) }
}

pub open spec fn failed(name: Seq<char>, detail: Seq<char>, fix: Seq<char>) -> CheckView {
    CheckView { name, status: DoctorStatus::Fail, detail, fix: Some(fix) }
}

impl DoctorCheck {
    pub fn ok(name: &str, detail: String) -> (r: Self)
        ensures
            r@ == passed(name@, detail@),
    {
        DoctorCheck { name: name.to_owned(), status: DoctorStatus::Pass, detail, fix: None }
    }

    pub fn warn(name: &str, detail: String, fix: String) -> (r: Self)
        ensures
            r@ == warned(name@, detail@, fix@),
    {
        DoctorCheck { name: name.to_owned(), status: DoctorStatus::Warn, detail, fix: Some(fix) }
    }

    pub fn fail(name: &str, detail: String, fix: String) -> (r: Self)
        ensures
            r@ == failed(name@, detail@, fix@),
    {
        DoctorCheck { name: name.to_owned(), status: DoctorStatus::Fail, detail, fix: Some(fix) }
    }
}

/// A check from the outcome of what was tried: what was found, or what went wrong.
pub fn run_check(name: &str, fix: &str, outcome: Result<String, String>) -> (r: DoctorCheck)
    ensures
        outcome matches Ok(message) ==> r@ == passed(name@, message@),
        outcome matches Err(message) ==> r@ == failed(name@, message@, fix@),
{
    match outcome {
        Ok(message) => DoctorCheck::ok(name, message),
        Err(message) => DoctorCheck::fail(name, message, fix.to_owned()),
    }
}

// ---------------------------------------------------------------------------------------------
// Which checks are made

/// Something to try.
#[derive(Debug, Clone, Copy, PartialEq, Eq, Structural)]
pub enum Probe {
    /// Make the directory for processed files.
    ProcessedDir,
    /// Open the database.
    Database,
    /// Watch the directory.
    Watcher,
    /// Reach the preferred provider.
    Primary,
    /// Reach the other provider.
    Fallback,
    /// Log in to Telegram.
    Telegram,
    /// Listen for the webhook.
    WebhookBind,
    /// Load the ranges of Cloudflare.
    Cloudflare,
    /// Read the ranges of the trusted proxies.
    TrustedProxies,
    /// Generate an embedding.
    Sample,
}

/// A check whose result is known, or one that has to be tried first.
#[derive(Debug)]
pub enum PlannedCheck {
    Known(DoctorCheck),
    Try { probe: Probe, name: String, fix: String },
}

pub enum PlannedView {
    Known(CheckView),
    Try { probe: Probe, name: Seq<char>, fix: Seq<char> },
}

impl View for PlannedCheck {
    type V = PlannedView;

    open spec fn view(&self) -> PlannedView {
        match self {
            PlannedCheck::Known(check) => PlannedView::Known(check@),
            PlannedCheck::Try { probe, name, fix } => PlannedView::Try {
                probe: *probe,
                name: name@,
                fix: fix@,
            },
        }
    }
}

pub open spec fn planned_views(plan: Seq<PlannedCheck>) -> Seq<PlannedView> {
    Seq::new(plan.len(), |i: int| plan[i]@)
}

pub open spec fn good(name: Seq<char>, detail: Seq<char>) -> PlannedView {
    PlannedView::Known(passed(name, detail))
}

pub open spec fn doubtful(name: Seq<char>, detail: Seq<char>, fix: Seq<char>) -> PlannedView {
    PlannedView::Known(warned(name, detail, fix))
}

pub open spec fn trial(probe: Probe, name: Seq<char>, fix: Seq<char>) -> PlannedView {
    PlannedView::Try { probe, name, fix }
}

fn add_known(plan: &mut Vec<PlannedCheck>, check: DoctorCheck)
    ensures
        planned_views(final(plan)@) == planned_views(old(plan)@).push(PlannedView::Known(check@)),
{
    let ghost before = planned_views(plan@);
    let ghost shown = check@;
    plan.push(PlannedCheck::Known(check));
    assert(planned_views(plan@) =~= before.push(PlannedView::Known(shown)));
}

fn add_good(plan: &mut Vec<PlannedCheck>, name: &str, detail: String)
    ensures
        planned_views(final(plan)@) == planned_views(old(plan)@).push(good(name@, detail@)),
{
    add_known(plan, DoctorCheck::ok(name, detail));
}

fn add_doubtful(plan: &mut Vec<PlannedCheck>, name: &str, detail: String, fix: String)
    ensures
        planned_views(final(plan)@) == planned_views(old(plan)@).push(
            doubtful(name@, detail@, fix@),
        ),
{
    add_known(plan, DoctorCheck::warn(name, detail, fix));
}

fn add_trial(plan: &mut Vec<PlannedCheck>, probe: Probe, name: &str, fix: String)
    ensures
        planned_views(final(plan)@) == planned_views(old(plan)@).push(trial(probe, name@, fix@)),
{
    let ghost before = planned_views(plan@);
    let ghost advice = fix@;
    plan.push(PlannedCheck::Try { probe, name: name.to_owned(), fix });
    assert(planned_views(plan@) =~= before.push(trial(probe, name@, advice)));
}

fn three(a: &str, b: &str, c: &str) -> (r: String)
    ensures
        r@ == a@ + b@ + c@,
{
    let mut r = a.to_owned();
    r.append(b);
    r.append(c);
    r
}

/// The checks of the files and directories.
pub open spec fn file_checks(
    config: AppConfig,
    path: Seq<char>,
    fields: Seq<Seq<char>>,
) -> Seq<PlannedView> {
    let loaded = seq![good("config"@, "loaded "@ + path)];
    let filled = if fields.len() > 0 {
        loaded.push(
            good(
                "config.autofill"@,
                "added missing config field(s): "@ + joined(fields, ", "@),
            ),
        )
    } else {
        loaded
    };
    filled.push(good("watch_dir"@, "found "@ + config.watch_dir@)).push(
        good("file_types"@, "monitoring "@ + joined(views(config.file_types@), ", "@)),
    ).push(
        trial(
            Probe::ProcessedDir,
            "processed_dir"@,
            "Set processed_dir in "@ + path
                + " to a writable directory that is different from watch_dir."@,
        ),
    ).push(
        trial(
            Probe::Database,
            "database"@,
            "Set database_path in "@ + path + " to a writable location for the service user."@,
        ),
    ).push(
        trial(
            Probe::Watcher,
            "watcher"@,
            "Make sure the service user can read and watch "@ + config.watch_dir@ + "."@,
        ),
    )
}

fn plan_file_checks(config: &AppConfig, path: &str, fields: &Vec<String>) -> (r: Vec<PlannedCheck>)
    ensures
        planned_views(r@) == file_checks(*config, path@, views(fields@)),
{
    let mut plan: Vec<PlannedCheck> = Vec::new();
    plan.push(PlannedCheck::Known(DoctorCheck::ok("config", concat("loaded ", path))));
    assert(planned_views(plan@) =~= seq![good("config"@, "loaded "@ + path@)]);
    if fields.len() > 0 {
        let listed = join(fields, ", ");
        add_good(
            &mut plan,
            "config.autofill",
            concat("added missing config field(s): ", listed.as_str()),
        );
    }
    add_good(&mut plan, "watch_dir", concat("found ", config.watch_dir.as_str()));
    let types = join(&config.file_types, ", ");
    add_good(&mut plan, "file_types", concat("monitoring ", types.as_str()));
    add_trial(
        &mut plan,
        Probe::ProcessedDir,
        "processed_dir",
        three(
            "Set processed_dir in ",
            path,
            " to a writable directory that is different from watch_dir.",
        ),
    );
    add_trial(
        &mut plan,
        Probe::Database,
        "database",
        three(
            "Set database_path in ",
            path,
            " to a writable location for the service user.",
        ),
    );
    add_trial(
        &mut plan,
        Probe::Watcher,
        "watcher",
        three("Make sure the service user can read and watch ", config.watch_dir.as_str(), "."),
    );
    plan
}

/// The checks of the providers, behind the others.
pub open spec fn provider_checks(
    before: Seq<PlannedView>,
    config: AppConfig,
    path: Seq<char>,
) -> Seq<PlannedView> {
    let primary = before.push(
        trial(
            Probe::Primary,
            "embedding.primary"@,
            "For Ollama: start the server, verify base_url, and run 'ollama list'. For Gemini: enable the section, set api_key, and verify the model name in "@
                + path + "."@,
        ),
    );
    if config.provider_enabled(config.embedding.fallback_provider@) {
        primary.push(
            trial(
                Probe::Fallback,
                "embedding.fallback"@,
                "Check the fallback provider settings in "@ + path
                    + ". For Ollama, confirm the server and model. For Gemini, confirm enabled = true, api_key, and model."@,
            ),
        )
    } else {
        primary.push(
            doubtful(
                "embedding.fallback"@,
                config.embedding.fallback_provider@ + " is configured but disabled"@,
                "Enable the fallback provider in "@ + path
                    + " if you want automatic failover, or leave it disabled to use only the primary provider."@,
            ),
        )
    }
}

fn plan_provider_checks(plan: &mut Vec<PlannedCheck>, config: &AppConfig, path: &str)
    ensures
        planned_views(final(plan)@) == provider_checks(planned_views(old(plan)@), *config, path@),
{
    add_trial(
        plan,
        Probe::Primary,
        "embedding.primary",
        three(
            "For Ollama: start the server, verify base_url, and run 'ollama list'. For Gemini: enable the section, set api_key, and verify the model name in ",
            path,
            ".",
        ),
    );
    let fallback = config.embedding.fallback_provider.as_str();
    if config.is_provider_enabled(fallback) {
        add_trial(
            plan,
            Probe::Fallback,
            "embedding.fallback",
            three(
                "Check the fallback provider settings in ",
                path,
                ". For Ollama, confirm the server and model. For Gemini, confirm enabled = true, api_key, and model.",
            ),
        );
    } else {
        add_doubtful(
            plan,
            "embedding.fallback",
            concat(fallback, " is configured but disabled"),
            three(
                "Enable the fallback provider in ",
                path,
                " if you want automatic failover, or leave it disabled to use only the primary provider.",
            ),
        );
    }
}

/// The checks of who may use the bot, behind the others.
pub open spec fn access_checks(
    before: Seq<PlannedView>,
    config: AppConfig,
    path: Seq<char>,
    enabled: bool,
) -> Seq<PlannedView> {
    if config.telegram.admin_user_ids@.len() == 0 && config.telegram.allowed_user_ids@.len() == 0 {
        before.push(
            doubtful(
                "telegram.access"@,
                "admin_user_ids and allowed_user_ids are empty; any Telegram user who can message the bot may use it"@,
                "Set "@ + painted("telegram.admin_user_ids"@, BOLD_MAGENTA@, enabled) + " and "@
                    + painted("telegram.allowed_user_ids"@, BOLD_MAGENTA@, enabled) + " in "@ + path
                    + " to restrict the bot and allow admin approvals."@,
            ),
        )
    } else if config.telegram.admin_user_ids@.len() == 0 {
        before.push(
            doubtful(
                "telegram.access"@,
                "admin_user_ids is empty; access requests cannot be approved from Telegram"@,
                "Set "@ + painted("telegram.admin_user_ids"@, BOLD_MAGENTA@, enabled) + " in "@
                    + path + " if you want to approve users with /approve or /join."@,
            ),
        )
    } else {
        before
    }
}

fn plan_access_checks(plan: &mut Vec<PlannedCheck>, config: &AppConfig, path: &str, enabled: bool)
    ensures
        planned_views(final(plan)@) == access_checks(
            planned_views(old(plan)@),
            *config,
            path@,
            enabled,
        ),
{
    let admins = paint("telegram.admin_user_ids", BOLD_MAGENTA, enabled);
    if config.telegram.admin_user_ids.len() == 0 && config.telegram.allowed_user_ids.len() == 0 {
        let users = paint("telegram.allowed_user_ids", BOLD_MAGENTA, enabled);
        let mut fix = three("Set ", admins.as_str(), " and ");
        fix.append(users.as_str());
        fix.append(" in ");
        fix.append(path);
        fix.append(" to restrict the bot and allow admin approvals.");
        add_doubtful(
            plan,
            "telegram.access",
            "admin_user_ids and allowed_user_ids are empty; any Telegram user who can message the bot may use it".to_owned(),
            fix,
        );
    } else if config.telegram.admin_user_ids.len() == 0 {
        let mut fix = three("Set ", admins.as_str(), " in ");
        fix.append(path);
        fix.append(" if you want to approve users with /approve or /join.");
        add_doubtful(
            plan,
            "telegram.access",
            "admin_user_ids is empty; access requests cannot be approved from Telegram".to_owned(),
            fix,
        );
    }
}

/// The checks of the webhook, behind the others.
pub open spec fn webhook_checks(
    before: Seq<PlannedView>,
    config: AppConfig,
    path: Seq<char>,
    enabled: bool,
) -> Seq<PlannedView> {
    before.push(
        good(
            "telegram.webhook"@,
            "listening on "@ + config.telegram.webhook_bind_addr@ + " and registering "@
                + config.telegram.webhook_url@,
        ),
    ).push(
        trial(
            Probe::WebhookBind,
            "telegram.webhook.bind"@,
            "Free the port in "@ + path + " if another process is already listening on "@
                + config.telegram.webhook_bind_addr@ + "."@,
        ),
    ).push(
        trial(
            Probe::Cloudflare,
            "telegram.webhook.cloudflare"@,
            "Allow outbound HTTPS to Cloudflare so the app can verify Cloudflare edge IP ranges before accepting webhook traffic."@,
        ),
    ).push(
        trial(
            Probe::TrustedProxies,
            "telegram.webhook.trusted_proxy_cidrs"@,
            "Set "@ + painted("telegram.webhook_trusted_proxy_cidrs"@, BOLD_MAGENTA@, enabled)
                + " in "@ + path
                + " to only loopback or specific reverse proxies you control."@,
        ),
    ).push(good("telegram.webhook_secret_token"@, "configured"@)).push(
        good(
            "telegram.webhook.audit"@,
            "webhook sender audit lines will be written to "@ + config.telegram.audit_log_path@,
        ),
    )
}

fn plan_webhook_checks(plan: &mut Vec<PlannedCheck>, config: &AppConfig, path: &str, enabled: bool)
    ensures
        planned_views(final(plan)@) == webhook_checks(
            planned_views(old(plan)@),
            *config,
            path@,
            enabled,
        ),
{
    let address = config.telegram.webhook_bind_addr.as_str();
    let mut listening = three("listening on ", address, " and registering ");
    listening.append(config.telegram.webhook_url.as_str());
    add_good(plan, "telegram.webhook", listening);
    let mut port = three(
        "Free the port in ",
        path,
        " if another process is already listening on ",
    );
    port.append(address);
    port.append(".");
    add_trial(plan, Probe::WebhookBind, "telegram.webhook.bind", port);
    add_trial(
        plan,
        Probe::Cloudflare,
        "telegram.webhook.cloudflare",
        "Allow outbound HTTPS to Cloudflare so the app can verify Cloudflare edge IP ranges before accepting webhook traffic.".to_owned(),
    );
    let ranges = paint("telegram.webhook_trusted_proxy_cidrs", BOLD_MAGENTA, enabled);
    let mut proxies = three("Set ", ranges.as_str(), " in ");
    proxies.append(path);
    proxies.append(" to only loopback or specific reverse proxies you control.");
    add_trial(plan, Probe::TrustedProxies, "telegram.webhook.trusted_proxy_cidrs", proxies);
    add_good(plan, "telegram.webhook_secret_token", "configured".to_owned());
    add_good(
        plan,
        "telegram.webhook.audit",
        concat(
            "webhook sender audit lines will be written to ",
            config.telegram.audit_log_path.as_str(),
        ),
    );
}

/// What to do where there is no chat for notifications.
pub open spec fn chat_advice(config: AppConfig, path: Seq<char>, enabled: bool) -> Seq<char> {
    match config.telegram.mode {
        TelegramMode::Polling => "Run "@ + painted(
            "note-embedding --telegram-discover-chat"@,
            BOLD_CYAN@,
            enabled,
        )
            + " after messaging the bot if you want the app to push new-document notifications to a default chat."@,
        TelegramMode::Webhook => "Set "@ + painted("telegram.chat_id"@, BOLD_MAGENTA@, enabled)
            + " manually in "@ + path
            + " if you want the app to push new-document notifications to a default chat. --telegram-discover-chat only works in polling mode."@,
    }
}

fn render_chat_advice(config: &AppConfig, path: &str, enabled: bool) -> (r: String)
    ensures
        r@ == chat_advice(*config, path@, enabled),
{
    match config.telegram.mode {
        TelegramMode::Polling => three(
            "Run ",
            paint("note-embedding --telegram-discover-chat", BOLD_CYAN, enabled).as_str(),
            " after messaging the bot if you want the app to push new-document notifications to a default chat.",
        ),
        TelegramMode::Webhook => {
            let mut text = three(
                "Set ",
                paint("telegram.chat_id", BOLD_MAGENTA, enabled).as_str(),
                " manually in ",
            );
            text.append(path);
            text.append(
                " if you want the app to push new-document notifications to a default chat. --telegram-discover-chat only works in polling mode.",
            );
            text
        },
    }
}

/// The checks of the bot, behind the others.
pub open spec fn telegram_checks(
    before: Seq<PlannedView>,
    config: AppConfig,
    path: Seq<char>,
    enabled: bool,
) -> Seq<PlannedView> {
    if config.telegram.enabled {
        let login = before.push(
            trial(
                Probe::Telegram,
                "telegram"@,
                "Set telegram.bot_token in "@ + path
                    + " or disable [telegram]. Use --telegram-discover-chat if you want to save a default chat_id for proactive notifications."@,
            ),
        );
        let mode = login.push(
            good("telegram.mode"@, "using "@ + config.telegram.mode.text()),
        );
        let access = access_checks(mode, config, path, enabled);
        let webhook = if config.telegram.mode is Webhook {
            webhook_checks(access, config, path, enabled)
        } else {
            access
        };
        if config.telegram.chat_id == 0 {
            webhook.push(
                doubtful(
                    "telegram.notifications"@,
                    "chat_id is not configured; proactive document notifications are disabled"@,
                    chat_advice(config, path, enabled),
                ),
            )
        } else {
            webhook
        }
    } else {
        before.push(
            doubtful(
                "telegram"@,
                "disabled"@,
                "Enable [telegram] in "@ + path + " if you want notifications."@,
            ),
        )
    }
}

fn plan_telegram_checks(plan: &mut Vec<PlannedCheck>, config: &AppConfig, path: &str, enabled: bool)
    ensures
        planned_views(final(plan)@) == telegram_checks(
            planned_views(old(plan)@),
            *config,
            path@,
            enabled,
        ),
{
    if !config.telegram.enabled {
        add_doubtful(
            plan,
            "telegram",
            "disabled".to_owned(),
            three("Enable [telegram] in ", path, " if you want notifications."),
        );
        return;
    }
    add_trial(
        plan,
        Probe::Telegram,
        "telegram",
        three(
            "Set telegram.bot_token in ",
            path,
            " or disable [telegram]. Use --telegram-discover-chat if you want to save a default chat_id for proactive notifications.",
        ),
    );
    add_good(plan, "telegram.mode", concat("using ", config.telegram.mode.as_str()));
    plan_access_checks(plan, config, path, enabled);
    match config.telegram.mode {
        TelegramMode::Webhook => plan_webhook_checks(plan, config, path, enabled),
        TelegramMode::Polling => {},
    }
    if config.telegram.chat_id == 0 {
        add_doubtful(
            plan,
            "telegram.notifications",
            "chat_id is not configured; proactive document notifications are disabled".to_owned(),
            render_chat_advice(config, path, enabled),
        );
    }
}

/// All the checks, in order.
pub open spec fn doctor_checks(
    config: AppConfig,
    path: Seq<char>,
    fields: Seq<Seq<char>>,
    enabled: bool,
) -> Seq<PlannedView> {
    telegram_checks(
        provider_checks(file_checks(config, path, fields), config, path),
        config,
        path,
        enabled,
    ).push(
        trial(
            Probe::Sample,
            "embedding.result"@,
            "Check the configured embedding provider in "@ + path
                + ". For Ollama, verify the server is running and the model supports embeddings. For Gemini, verify api_key and model access."@,
        ),
    )
}

/// The checks to make, with the configuration file at `path`, to which `fields` were just added.
pub fn plan_doctor(config: &AppConfig, path: &str, fields: &Vec<String>, enabled: bool) -> (r: Vec<
    PlannedCheck,
>)
    ensures
        planned_views(r@) == doctor_checks(*config, path@, views(fields@), enabled),
{
    let mut plan = plan_file_checks(config, path, fields);
    plan_provider_checks(&mut plan, config, path);
    plan_telegram_checks(&mut plan, config, path, enabled);
    add_trial(
        &mut plan,
        Probe::Sample,
        "embedding.result",
        three(
            "Check the configured embedding provider in ",
            path,
            ". For Ollama, verify the server is running and the model supports embeddings. For Gemini, verify api_key and model access.",
        ),
    );
    plan
}

/// Whether the plan tries something.
pub open spec fn tries(plan: Seq<PlannedView>, probe: Probe) -> bool {
    exists|i: int|
        0 <= i < plan.len() && (#[trigger] plan[i] matches PlannedView::Try { probe: p, .. } && p
            == probe)
}

/// Where the bot is off, the self-test neither talks to Telegram nor listens for it.
pub proof fn law_disabled_bot_is_not_tried(
    config: AppConfig,
    path: Seq<char>,
    fields: Seq<Seq<char>>,
    enabled: bool,
)
    requires
        !config.telegram.enabled,
    ensures
        !tries(doctor_checks(config, path, fields, enabled), Probe::Telegram),
        !tries(doctor_checks(config, path, fields, enabled), Probe::WebhookBind),
        !tries(doctor_checks(config, path, fields, enabled), Probe::Cloudflare),
        !tries(doctor_checks(config, path, fields, enabled), Probe::TrustedProxies),
{
}

/// The self-test always generates an embedding, and does so last.
pub proof fn law_sample_comes_last(
    config: AppConfig,
    path: Seq<char>,
    fields: Seq<Seq<char>>,
    enabled: bool,
)
    ensures
        doctor_checks(config, path, fields, enabled).last() matches PlannedView::Try { probe, .. }
            && probe == Probe::Sample,
{
}

// ---------------------------------------------------------------------------------------------
// What was found

/// What is said of a directory or a file that can be used.
pub fn ready_at(place: &str) -> (r: String)
    ensures
        r@ == "ready at "@ + place@,
{
    concat("ready at ", place)
}

pub const WATCHER_READY: &'static str = "watcher can subscribe to watch_dir";

/// What is said of an address that can be listened on.
pub fn address_available(address: &str) -> (r: String)
    ensures
        r@ == address@ + " is available for the webhook listener"@,
{
    concat(address, " is available for the webhook listener")
}

pub fn cloudflare_loaded(ranges: usize) -> (r: String)
    ensures
        r@ == "loaded "@ + decimal(ranges as nat)
            + " Cloudflare edge IP ranges; webhook will only accept those senders"@,
{
    three(
        "loaded ",
        render_usize(ranges).as_str(),
        " Cloudflare edge IP ranges; webhook will only accept those senders",
    )
}

pub fn trusted_proxies_read(ranges: &str) -> (r: String)
    ensures
        r@ == "trusted proxy CIDRs: "@ + ranges@,
{
    concat("trusted proxy CIDRs: ", ranges)
}

pub fn sample_generated(status: &str, provider: &str, dimensions: usize) -> (r: String)
    ensures
        r@ == status@ + "; provider "@ + provider@ + "; "@ + decimal(dimensions as nat)
            + " dimensions"@,
{
    let mut text = three(status, "; provider ", provider);
    text.append("; ");
    text.append(render_usize(dimensions).as_str());
    text.append(" dimensions");
    text
}

/// What is said of the bot after it logged in. The webhook is asked for only where it is used.
pub open spec fn telegram_found_text(
    config: TelegramConfig,
    username: Option<Seq<char>>,
    webhook_url: Seq<char>,
) -> Seq<char> {
    "authenticated as @"@ + (match username {
        Some(name) => name,
        None => "<no-username>"@,
    }) + "; "@ + (if config.mode is Polling {
        "polling"@
    } else if webhook_url.len() == 0 {
        "webhook not registered"@
    } else {
        "webhook registered at "@ + webhook_url
    })
}

pub fn telegram_found(config: &TelegramConfig, username: Option<&str>, webhook_url: &str) -> (r:
    String)
    ensures
        r@ == telegram_found_text(
            *config,
            optional_str(username),
            webhook_url@,
        ),
{
    let name = match username {
        Some(name) => name,
        None => "<no-username>",
    };
    let mut text = three("authenticated as @", name, "; ");
    match config.mode {
        TelegramMode::Polling => text.append("polling"),
        TelegramMode::Webhook => {
            if webhook_url.is_empty() {
                text.append("webhook not registered");
            } else {
                text.append(concat("webhook registered at ", webhook_url).as_str());
            }
        },
    }
    text
}

// ---------------------------------------------------------------------------------------------
// The report

pub open spec fn status_label(status: DoctorStatus, enabled: bool) -> Seq<char> {
    match status {
        DoctorStatus::Pass => painted("[ok]"@, BOLD_GREEN@, enabled),
        DoctorStatus::Warn => painted("[warn]"@, BOLD_YELLOW@, enabled),
        DoctorStatus::Fail => painted("[fail]"@, BOLD_RED@, enabled),
    }
}

fn render_label(status: DoctorStatus, enabled: bool) -> (r: String)
    ensures
        r@ == status_label(status, enabled),
{
    match status {
        DoctorStatus::Pass => paint("[ok]", BOLD_GREEN, enabled),
        DoctorStatus::Warn => paint("[warn]", BOLD_YELLOW, enabled),
        DoctorStatus::Fail => paint("[fail]", BOLD_RED, enabled),
    }
}

/// The first line of a check: its label, its name and the first line of what was found.
pub open spec fn headline(check: CheckView, enabled: bool) -> Seq<char> {
    let start = status_label(check.status, enabled) + " "@ + check.name;
    let found = lines(check.detail);
    if found.len() > 0 {
        start + ": "@ + found[0]
    } else {
        start + ":"@
    }
}

/// The lines of a check: the headline, the other lines of what was found, and the advice.
pub open spec fn check_lines(check: CheckView, enabled: bool) -> Seq<Seq<char>> {
    let found = lines(check.detail);
    let details = Seq::new(
        if found.len() > 0 {
            (found.len() - 1) as nat
        } else {
            0
        },
        |i: int| "  "@ + found[i + 1],
    );
    seq![headline(check, enabled)] + details + (match check.fix {
        Some(fix) => seq!["  "@ + painted("[info]"@, BOLD_CYAN@, enabled) + " "@ + fix],
        None => Seq::empty(),
    })
}

pub fn report_check(check: &DoctorCheck, enabled: bool) -> (r: Vec<String>)
    ensures
        views(r@) == check_lines(check@, enabled),
{
    let found = split_lines(check.detail.as_str());
    let ghost shown = lines(check.detail@);
    let mut headline_text = three(
        render_label(check.status, enabled).as_str(),
        " ",
        check.name.as_str(),
    );
    if found.len() > 0 {
        headline_text.append(": ");
        headline_text.append(found[0].as_str());
    } else {
        headline_text.append(":");
    }
    let ghost first = headline_text@;
    assert(found@.len() == shown.len());
    assert(first == headline(check@, enabled)) by {
        if found@.len() > 0 {
            assert(shown[0] == found@[0]@);
        }
    }
    let mut r: Vec<String> = Vec::new();
    r.push(headline_text);
    let ghost details = Seq::new(
        if shown.len() > 0 {
            (shown.len() - 1) as nat
        } else {
            0
        },
        |i: int| "  "@ + shown[i + 1],
    );
    let mut i: usize = 1;
    assert(views(r@) =~= seq![first] + details.take(0));
    while i < found.len()
        invariant
            1 <= i,
            found@.len() > 0 ==> i <= found@.len(),
            views(found@) == shown,
            details == Seq::new(
                if shown.len() > 0 {
                    (shown.len() - 1) as nat
                } else {
                    0
                },
                |i: int| "  "@ + shown[i + 1],
            ),
            found@.len() == 0 ==> i == 1,
            views(r@) == seq![first] + details.take(i - 1),
        decreases found@.len() - i,
    {
        let line = concat("  ", found[i].as_str());
        let ghost before = views(r@);
        let ghost added = line@;
        assert(added == details[i - 1]) by {
            assert(shown[i as int] == found@[i as int]@);
        }
        r.push(line);
        assert(views(r@) =~= before.push(added));
        assert(details.take(i as int) =~= details.take(i - 1).push(added));
        i += 1;
    }
    assert(details.take(i - 1) =~= details);
    match &check.fix {
        Some(fix) => {
            let line = {
                let mut text = concat("  ", paint("[info]", BOLD_CYAN, enabled).as_str());
                text.append(" ");
                text.append(fix.as_str());
                text
            };
            let ghost before = views(r@);
            let ghost added = line@;
            r.push(line);
            assert(views(r@) =~= before + seq![added]);
        },
        None => {
            assert(views(r@) =~= views(r@) + Seq::<Seq<char>>::empty());
        },
    }
    r
}

/// How many checks have the status.
pub open spec fn count_of(checks: Seq<DoctorCheck>, status: DoctorStatus) -> nat
    decreases checks.len(),
{
    if checks.len() == 0 {
        0
    } else {
        count_of(checks.drop_last(), status) + (if checks.last().status == status {
            1nat
        } else {
            0nat
        })
    }
}

/// Every check passed, warned or failed.
pub proof fn law_counts_add_up(checks: Seq<DoctorCheck>)
    ensures
        count_of(checks, DoctorStatus::Pass) + count_of(checks, DoctorStatus::Warn) + count_of(
            checks,
            DoctorStatus::Fail,
        ) == checks.len(),
    decreases checks.len(),
{
    if checks.len() > 0 {
        law_counts_add_up(checks.drop_last());
    }
}

fn count_status(checks: &Vec<DoctorCheck>, status: DoctorStatus) -> (r: usize)
    ensures
        r == count_of(checks@, status),
        r <= checks@.len(),
{
    let mut count: usize = 0;
    let mut i: usize = 0;
    while i < checks.len()
        invariant
            i <= checks@.len(),
            count == count_of(checks@.take(i as int), status),
            count <= i,
        decreases checks@.len() - i,
    {
        assert(checks@.take(i + 1).drop_last() =~= checks@.take(i as int));
        if checks[i].status == status {
            count += 1;
        }
        i += 1;
    }
    assert(checks@.take(i as int) =~= checks@);
    count
}

/// The last line of the report.
pub open spec fn summary_text(checks: Seq<DoctorCheck>, enabled: bool) -> Seq<char> {
    "Doctor summary: "@ + painted(
        decimal(count_of(checks, DoctorStatus::Pass)),
        BOLD_MAGENTA@,
        enabled,
    ) + " ok, "@ + painted(decimal(count_of(checks, DoctorStatus::Warn)), BOLD_MAGENTA@, enabled)
        + " warning(s), "@ + painted(
        decimal(count_of(checks, DoctorStatus::Fail)),
        BOLD_MAGENTA@,
        enabled,
    ) + " failure(s)"@
}

pub fn doctor_summary(checks: &Vec<DoctorCheck>, enabled: bool) -> (r: String)
    ensures
        r@ == summary_text(checks@, enabled),
{
    let failures = count_status(checks, DoctorStatus::Fail);
    let warnings = count_status(checks, DoctorStatus::Warn);
    proof {
        law_counts_add_up(checks@);
    }
    let total = checks.len();
    let passes: usize = total - warnings - failures;
    let mut text = three(
        "Doctor summary: ",
        paint(render_usize(passes).as_str(), BOLD_MAGENTA, enabled).as_str(),
        " ok, ",
    );
    text.append(paint(render_usize(warnings).as_str(), BOLD_MAGENTA, enabled).as_str());
    text.append(" warning(s), ");
    text.append(paint(render_usize(failures).as_str(), BOLD_MAGENTA, enabled).as_str());
    text.append(" failure(s)");
    text
}

/// Whether the self-test succeeded.
pub open spec fn is_healthy(checks: Seq<DoctorCheck>) -> bool {
    count_of(checks, DoctorStatus::Fail) == 0
}

/// Whether the self-test succeeded: warnings do not count against it.
pub fn doctor_verdict(checks: &Vec<DoctorCheck>) -> (r: Result<(), String>)
    ensures
        r is Ok <==> is_healthy(checks@),
        r is Ok <==> count_of(checks@, DoctorStatus::Fail) == 0,
        r matches Err(message) ==> message@ == "doctor found "@ + decimal(
            count_of(checks@, DoctorStatus::Fail),
        ) + " failing check(s)"@,
{
    let failures = count_status(checks, DoctorStatus::Fail);
    if failures == 0 {
        return Ok(());
    }
    Err(three("doctor found ", render_usize(failures).as_str(), " failing check(s)"))
}

/// The check after a configuration file was only just created.
pub open spec fn created_check(path: Seq<char>) -> CheckView {
    warned(
        "config"@,
        "created a new config template at "@ + path,
        "Edit "@ + path
            + ", fill in watch_dir, embedding providers, and optional Telegram settings, then rerun --doctor."@,
    )
}

pub fn config_created_check(path: &str) -> (r: DoctorCheck)
    ensures
        r@ == created_check(path@),
{
    DoctorCheck::warn(
        "config",
        concat("created a new config template at ", path),
        three(
            "Edit ",
            path,
            ", fill in watch_dir, embedding providers, and optional Telegram settings, then rerun --doctor.",
        ),
    )
}

/// How the self-test begins.
#[derive(Debug)]
pub enum DoctorStart {
    /// There is no configuration file: write this text to it, report the check, and end with the
    /// error. Nothing is asked and nothing is tried.
    Create { text: String, check: DoctorCheck, error: String },
    /// Examine the configuration.
    Examine,
}

/// Decides how the self-test begins.
pub fn begin_doctor(path: &str, file_exists: bool) -> (r: DoctorStart)
    ensures
        r is Examine <==> file_exists,
        r matches DoctorStart::Create { text, check, error } ==> {
            &&& is_first_file(text@)
            &&& check@ == created_check(path@)
            &&& error@ == "doctor created a new config template"@
        },
{
    match create_default_config_if_missing(file_exists) {
        None => DoctorStart::Examine,
        Some(text) => DoctorStart::Create {
            text,
            check: config_created_check(path),
            error: "doctor created a new config template".to_owned(),
        },
    }
}

// ---------------------------------------------------------------------------------------------
// Advice

/// The advice about the file and its directories.
pub open spec fn file_fixes(path: Seq<char>, detail: Seq<char>) -> Seq<Seq<char>> {
    no_texts() + only_if(
        occurs_in(detail, "failed to read config"@),
        "Create the config file at "@ + path
            + " or run the program once without --doctor to generate it."@,
    ) + only_if(
        occurs_in(detail, "failed to parse config"@),
        "Open "@ + path
            + " and fix the TOML syntax. Check quotes, commas, and section headers."@,
    ) + only_if(
        occurs_in(detail, "watch_dir does not exist"@) || occurs_in(
            detail,
            "watch_dir is not a directory"@,
        ),
        "Set watch_dir in "@ + path
            + " to an existing directory the service user can access."@,
    )
}

/// The advice about what is processed.
pub open spec fn content_fixes(path: Seq<char>, detail: Seq<char>) -> Seq<Seq<char>> {
    no_texts() + only_if(
        occurs_in(detail, "processed_dir is not a directory"@) || occurs_in(
            detail,
            "processed_dir must be different from watch_dir"@,
        ),
        "Set processed_dir in "@ + path
            + " to a different directory from watch_dir. The directory will be created automatically when needed."@,
    ) + only_if(
        occurs_in(detail, "file_types must contain at least one extension"@),
        "Set file_types in "@ + path + " to a non-empty list such as [\"txt\", \"md\"]."@,
    )
}

/// The advice about Telegram.
pub open spec fn telegram_fixes(path: Seq<char>, detail: Seq<char>) -> Seq<Seq<char>> {
    no_texts() + only_if(
        occurs_in(detail, "telegram.bot_token is empty"@) || occurs_in(
            detail,
            "telegram.chat_id is 0"@,
        ),
        "Either disable [telegram], or set telegram.bot_token and telegram.chat_id in "@ + path
            + ". After setting the bot token, you can run `note-embedding --telegram-discover-chat` to discover and save the chat ID."@,
    ) + only_if(
        occurs_in(detail, "telegram.mode is webhook"@) || occurs_in(
            detail,
            "telegram.webhook_bind_addr"@,
        ) || occurs_in(detail, "telegram.webhook_secret_token"@) || occurs_in(
            detail,
            "telegram.webhook_url must start with https://"@,
        ) || occurs_in(detail, "telegram.webhook_trusted_proxy_cidrs"@),
        "If you use webhook mode in "@ + path
            + ", set telegram.webhook_url to the public HTTPS endpoint, telegram.webhook_bind_addr to the local listen address, telegram.webhook_secret_token to a random token, and telegram.webhook_trusted_proxy_cidrs only to proxies you control. The webhook listener only accepts direct Cloudflare senders or configured trusted proxies carrying Cloudflare headers."@,
    )
}

/// The advice about other services.
pub open spec fn service_fixes(path: Seq<char>, detail: Seq<char>) -> Seq<Seq<char>> {
    no_texts() + only_if(
        occurs_in(detail, "Cloudflare IP range"@),
        "Make sure this host can reach https://www.cloudflare.com/ips-v4 and https://www.cloudflare.com/ips-v6 so webhook security checks can load Cloudflare's current IP ranges."@,
    ) + only_if(
        occurs_in(detail, "embedding.preferred_provider"@) || occurs_in(
            detail,
            "embedding.fallback_provider"@,
        ) || occurs_in(detail, "embedding.ollama"@) || occurs_in(detail, "embedding.gemini"@),
        "Review the [embedding], [embedding.ollama], and [embedding.gemini] sections in "@ + path
            + ". Use provider names 'ollama' or 'gemini' only."@,
    )
}

/// The advice for what is wrong with the configuration, one sentence for each kind of mistake.
pub open spec fn config_fixes(path: Seq<char>, detail: Seq<char>) -> Seq<Seq<char>> {
    no_texts() + file_fixes(path, detail) + content_fixes(path, detail) + telegram_fixes(
        path,
        detail,
    ) + service_fixes(path, detail)
}

/// The advice where no mistake is recognised.
pub open spec fn general_advice(path: Seq<char>) -> Seq<char> {
    "Review "@ + path + " and correct the reported configuration errors."@
}

/// All the advice in one text; general advice where no mistake is recognised.
pub open spec fn config_advice(path: Seq<char>, detail: Seq<char>) -> Seq<char> {
    let fixes = config_fixes(path, detail);
    if fixes.len() == 0 {
        general_advice(path)
    } else {
        joined(fixes, " "@)
    }
}

fn list_file_fixes(config_path: &str, detail: &str) -> (r: Vec<String>)
    ensures
        views(r@) == file_fixes(config_path@, detail@),
{
    let mut fixes = empty_list();
    note(
        &mut fixes,
        contains(detail, "failed to read config"),
        three(
            "Create the config file at ",
            config_path,
            " or run the program once without --doctor to generate it.",
        ),
    );
    note(
        &mut fixes,
        contains(detail, "failed to parse config"),
        three(
            "Open ",
            config_path,
            " and fix the TOML syntax. Check quotes, commas, and section headers.",
        ),
    );
    note(
        &mut fixes,
        contains(detail, "watch_dir does not exist") || contains(
            detail,
            "watch_dir is not a directory",
        ),
        three(
            "Set watch_dir in ",
            config_path,
            " to an existing directory the service user can access.",
        ),
    );
    fixes
}

fn list_content_fixes(config_path: &str, detail: &str) -> (r: Vec<String>)
    ensures
        views(r@) == content_fixes(config_path@, detail@),
{
    let mut fixes = empty_list();
    note(
        &mut fixes,
        contains(detail, "processed_dir is not a directory") || contains(
            detail,
            "processed_dir must be different from watch_dir",
        ),
        three(
            "Set processed_dir in ",
            config_path,
            " to a different directory from watch_dir. The directory will be created automatically when needed.",
        ),
    );
    note(
        &mut fixes,
        contains(detail, "file_types must contain at least one extension"),
        three(
            "Set file_types in ",
            config_path,
            " to a non-empty list such as [\"txt\", \"md\"].",
        ),
    );
    fixes
}

fn list_telegram_fixes(config_path: &str, detail: &str) -> (r: Vec<String>)
    ensures
        views(r@) == telegram_fixes(config_path@, detail@),
{
    let mut fixes = empty_list();
    note(
        &mut fixes,
        contains(detail, "telegram.bot_token is empty") || contains(
            detail,
            "telegram.chat_id is 0",
        ),
        three(
            "Either disable [telegram], or set telegram.bot_token and telegram.chat_id in ",
            config_path,
            ". After setting the bot token, you can run `note-embedding --telegram-discover-chat` to discover and save the chat ID.",
        ),
    );
    note(
        &mut fixes,
        contains(detail, "telegram.mode is webhook") || contains(
            detail,
            "telegram.webhook_bind_addr",
        ) || contains(detail, "telegram.webhook_secret_token") || contains(
            detail,
            "telegram.webhook_url must start with https://",
        ) || contains(detail, "telegram.webhook_trusted_proxy_cidrs"),
        three(
            "If you use webhook mode in ",
            config_path,
            ", set telegram.webhook_url to the public HTTPS endpoint, telegram.webhook_bind_addr to the local listen address, telegram.webhook_secret_token to a random token, and telegram.webhook_trusted_proxy_cidrs only to proxies you control. The webhook listener only accepts direct Cloudflare senders or configured trusted proxies carrying Cloudflare headers.",
        ),
    );
    fixes
}

fn list_service_fixes(config_path: &str, detail: &str) -> (r: Vec<String>)
    ensures
        views(r@) == service_fixes(config_path@, detail@),
{
    let mut fixes = empty_list();
    note(
        &mut fixes,
        contains(detail, "Cloudflare IP range"),
        "Make sure this host can reach https://www.cloudflare.com/ips-v4 and https://www.cloudflare.com/ips-v6 so webhook security checks can load Cloudflare's current IP ranges.".to_owned(),
    );
    note(
        &mut fixes,
        contains(detail, "embedding.preferred_provider") || contains(
            detail,
            "embedding.fallback_provider",
        ) || contains(detail, "embedding.ollama") || contains(detail, "embedding.gemini"),
        three(
            "Review the [embedding], [embedding.ollama], and [embedding.gemini] sections in ",
            config_path,
            ". Use provider names 'ollama' or 'gemini' only.",
        ),
    );
    fixes
}

pub fn config_error_fix(config_path: &str, detail: &str) -> (r: String)
    ensures
        r@ == config_advice(config_path@, detail@),
{
    let mut fixes = empty_list();
    extend(&mut fixes, list_file_fixes(config_path, detail));
    extend(&mut fixes, list_content_fixes(config_path, detail));
    extend(&mut fixes, list_telegram_fixes(config_path, detail));
    extend(&mut fixes, list_service_fixes(config_path, detail));
    assert(views(fixes@).len() == fixes@.len());
    if fixes.len() == 0 {
        three("Review ", config_path, " and correct the reported configuration errors.")
    } else {
        join(&fixes, " ")
    }
}

proof fn lemma_occurs_in_longer(s: Seq<char>, more: Seq<char>, needle: Seq<char>)
    requires
        occurs_in(s, needle),
    ensures
        occurs_in(s + more, needle),
{
    let at = choose|at: int| stands_at(s, needle, at);
    assert((s + more).subrange(at, at + needle.len()) =~= s.subrange(at, at + needle.len()));
    assert(stands_at(s + more, needle, at));
}

proof fn lemma_kept_only_if(before: bool, after: bool, text: Seq<char>)
    requires
        before ==> after,
    ensures
        kept_in_order(only_if(before, text), only_if(after, text)),
{
    let at: Seq<int> = if before {
        seq![0]
    } else {
        Seq::empty()
    };
    assert(keeps_at(only_if(before, text), only_if(after, text), at));
}

/// Where a sentence of advice stands among all of them, told by its first words.
spec fn place_of_advice(text: Seq<char>) -> int {
    if text[0] == 'C' {
        0
    } else if text[0] == 'O' {
        1
    } else if text[0] == 'S' && text[4] == 'w' {
        2
    } else if text[0] == 'S' && text[4] == 'p' {
        3
    } else if text[0] == 'S' {
        4
    } else if text[0] == 'E' {
        5
    } else if text[0] == 'I' {
        6
    } else if text[0] == 'M' {
        7
    } else {
        8
    }
}

/// The sentences are in their order, none of them twice, and none is the general advice.
spec fn in_places(fixes: Seq<Seq<char>>, path: Seq<char>, low: int, high: int) -> bool {
    &&& forall|i: int|
        0 <= i < fixes.len() ==> (#[trigger] fixes[i]).len() > 0 && low <= place_of_advice(fixes[i])
            < high && fixes[i] != general_advice(path)
    &&& forall|i: int, j: int|
        0 <= i < j < fixes.len() ==> place_of_advice(#[trigger] fixes[i]) < place_of_advice(
            #[trigger] fixes[j],
        )
}

proof fn lemma_places_concat(
    a: Seq<Seq<char>>,
    b: Seq<Seq<char>>,
    path: Seq<char>,
    low: int,
    middle: int,
    high: int,
)
    requires
        low <= middle <= high,
        in_places(a, path, low, middle),
        in_places(b, path, middle, high),
    ensures
        in_places(a + b, path, low, high),
{
    let all = a + b;
    assert forall|i: int| 0 <= i < all.len() implies (#[trigger] all[i]).len() > 0 && low
        <= place_of_advice(all[i]) < high && all[i] != general_advice(path) by {
        if i < a.len() {
            assert(all[i] == a[i]);
        } else {
            assert(all[i] == b[i - a.len()]);
        }
    }
    assert forall|i: int, j: int| 0 <= i < j < all.len() implies place_of_advice(
        #[trigger] all[i],
    ) < place_of_advice(#[trigger] all[j]) by {
        if j < a.len() {
            assert(all[i] == a[i] && all[j] == a[j]);
        } else if i < a.len() {
            assert(all[i] == a[i] && all[j] == b[j - a.len()]);
        } else {
            assert(all[i] == b[i - a.len()] && all[j] == b[j - a.len()]);
        }
    }
}

/// A sentence that begins with the given words stands at the place of these words.
proof fn lemma_begins(words: Seq<char>, rest: Seq<char>, path: Seq<char>, condition: bool)
    requires
        words.len() > 4,
        words[0] != 'R',
    ensures
        place_of_advice(words + rest) == place_of_advice(words),
        in_places(
            only_if(condition, words + rest),
            path,
            place_of_advice(words),
            place_of_advice(words) + 1,
        ),
{
    reveal_strlit("Review ");
    let text = words + rest;
    assert(text[0] == words[0] && text[4] == words[4]);
    assert(general_advice(path)[0] == 'R');
    assert(text != general_advice(path)) by {
        assert(text[0] != general_advice(path)[0]);
    }
}

proof fn lemma_begins_twice(words: Seq<char>, path: Seq<char>, end: Seq<char>, condition: bool)
    requires
        words.len() > 4,
        words[0] != 'R',
    ensures
        in_places(
            only_if(condition, words + path + end),
            path,
            place_of_advice(words),
            place_of_advice(words) + 1,
        ),
{
    lemma_begins(words, path + end, path, condition);
    assert(words + path + end =~= words + (path + end));
}

proof fn lemma_file_fixes(path: Seq<char>, detail: Seq<char>)
    ensures
        in_places(file_fixes(path, detail), path, 0, 3),
{
    reveal_strlit("Create the config file at ");
    reveal_strlit("Open ");
    reveal_strlit("Set watch_dir in ");
    let first = only_if(
        occurs_in(detail, "failed to read config"@),
        "Create the config file at "@ + path
            + " or run the program once without --doctor to generate it."@,
    );
    let second = only_if(
        occurs_in(detail, "failed to parse config"@),
        "Open "@ + path
            + " and fix the TOML syntax. Check quotes, commas, and section headers."@,
    );
    let condition = occurs_in(detail, "watch_dir does not exist"@) || occurs_in(
        detail,
        "watch_dir is not a directory"@,
    );
    let third = only_if(
        condition,
        "Set watch_dir in "@ + path + " to an existing directory the service user can access."@,
    );
    lemma_begins_twice(
        "Create the config file at "@,
        path,
        " or run the program once without --doctor to generate it."@,
        occurs_in(detail, "failed to read config"@),
    );
    lemma_begins_twice(
        "Open "@,
        path,
        " and fix the TOML syntax. Check quotes, commas, and section headers."@,
        occurs_in(detail, "failed to parse config"@),
    );
    lemma_begins_twice(
        "Set watch_dir in "@,
        path,
        " to an existing directory the service user can access."@,
        condition,
    );
    lemma_places_concat(no_texts(), first, path, 0, 0, 1);
    lemma_places_concat(no_texts() + first, second, path, 0, 1, 2);
    lemma_places_concat(no_texts() + first + second, third, path, 0, 2, 3);
}

proof fn lemma_content_fixes(path: Seq<char>, detail: Seq<char>)
    ensures
        in_places(content_fixes(path, detail), path, 3, 5),
{
    reveal_strlit("Set processed_dir in ");
    reveal_strlit("Set file_types in ");
    let condition = occurs_in(detail, "processed_dir is not a directory"@) || occurs_in(
        detail,
        "processed_dir must be different from watch_dir"@,
    );
    let first = only_if(
        condition,
        "Set processed_dir in "@ + path
            + " to a different directory from watch_dir. The directory will be created automatically when needed."@,
    );
    let second = only_if(
        occurs_in(detail, "file_types must contain at least one extension"@),
        "Set file_types in "@ + path + " to a non-empty list such as [\"txt\", \"md\"]."@,
    );
    lemma_begins_twice(
        "Set processed_dir in "@,
        path,
        " to a different directory from watch_dir. The directory will be created automatically when needed."@,
        condition,
    );
    lemma_begins_twice(
        "Set file_types in "@,
        path,
        " to a non-empty list such as [\"txt\", \"md\"]."@,
        occurs_in(detail, "file_types must contain at least one extension"@),
    );
    lemma_places_concat(no_texts(), first, path, 3, 3, 4);
    lemma_places_concat(no_texts() + first, second, path, 3, 4, 5);
}

proof fn lemma_telegram_fixes(path: Seq<char>, detail: Seq<char>)
    ensures
        in_places(telegram_fixes(path, detail), path, 5, 7),
{
    let words = "Either disable [telegram], or set telegram.bot_token and telegram.chat_id in "@;
    reveal_strlit("Either disable [telegram], or set telegram.bot_token and telegram.chat_id in ");
    reveal_strlit("If you use webhook mode in ");
    let all = telegram_fixes(path, detail);
    let end = ". After setting the bot token, you can run `note-embedding --telegram-discover-chat` to discover and save the chat ID."@;
    let advice = ", set telegram.webhook_url to the public HTTPS endpoint, telegram.webhook_bind_addr to the local listen address, telegram.webhook_secret_token to a random token, and telegram.webhook_trusted_proxy_cidrs only to proxies you control. The webhook listener only accepts direct Cloudflare senders or configured trusted proxies carrying Cloudflare headers."@;
    let token = occurs_in(detail, "telegram.bot_token is empty"@) || occurs_in(
        detail,
        "telegram.chat_id is 0"@,
    );
    let webhook = occurs_in(detail, "telegram.mode is webhook"@) || occurs_in(
        detail,
        "telegram.webhook_bind_addr"@,
    ) || occurs_in(detail, "telegram.webhook_secret_token"@) || occurs_in(
        detail,
        "telegram.webhook_url must start with https://"@,
    ) || occurs_in(detail, "telegram.webhook_trusted_proxy_cidrs"@);
    lemma_begins_twice(words, path, end, token);
    lemma_begins_twice("If you use webhook mode in "@, path, advice, webhook);
    let first = only_if(token, words + path + end);
    let second = only_if(webhook, "If you use webhook mode in "@ + path + advice);
    lemma_places_concat(no_texts(), first, path, 5, 5, 6);
    lemma_places_concat(no_texts() + first, second, path, 5, 6, 7);
    assert(all == no_texts() + first + second);
}

proof fn lemma_service_fixes(path: Seq<char>, detail: Seq<char>)
    ensures
        in_places(service_fixes(path, detail), path, 7, 9),
{
    let reach = "Make sure this host can reach https://www.cloudflare.com/ips-v4 and https://www.cloudflare.com/ips-v6 so webhook security checks can load Cloudflare's current IP ranges."@;
    reveal_strlit(
        "Make sure this host can reach https://www.cloudflare.com/ips-v4 and https://www.cloudflare.com/ips-v6 so webhook security checks can load Cloudflare's current IP ranges.",
    );
    reveal_strlit(
        "Review the [embedding], [embedding.ollama], and [embedding.gemini] sections in ",
    );
    reveal_strlit(". Use provider names 'ollama' or 'gemini' only.");
    reveal_strlit("Review ");
    reveal_strlit(" and correct the reported configuration errors.");
    let range = occurs_in(detail, "Cloudflare IP range"@);
    let provider = occurs_in(detail, "embedding.preferred_provider"@) || occurs_in(
        detail,
        "embedding.fallback_provider"@,
    ) || occurs_in(detail, "embedding.ollama"@) || occurs_in(detail, "embedding.gemini"@);
    let sections = "Review the [embedding], [embedding.ollama], and [embedding.gemini] sections in "@
        + path + ". Use provider names 'ollama' or 'gemini' only."@;
    let general = general_advice(path);
    let first = only_if(range, reach);
    let second = only_if(provider, sections);
    assert(reach + Seq::<char>::empty() =~= reach);
    lemma_begins(reach, Seq::empty(), path, range);
    assert(sections[0] == 'R');
    assert(sections[sections.len() - 2] == 'y');
    assert(general[general.len() - 2] == 's');
    assert(sections != general);
    assert(in_places(second, path, 8, 9));
    lemma_places_concat(no_texts(), first, path, 7, 7, 8);
    lemma_places_concat(no_texts() + first, second, path, 7, 8, 9);
}

proof fn lemma_config_fixes(path: Seq<char>, detail: Seq<char>)
    ensures
        in_places(config_fixes(path, detail), path, 0, 9),
{
    let file = file_fixes(path, detail);
    let content = content_fixes(path, detail);
    let telegram = telegram_fixes(path, detail);
    let service = service_fixes(path, detail);
    lemma_file_fixes(path, detail);
    lemma_content_fixes(path, detail);
    lemma_telegram_fixes(path, detail);
    lemma_service_fixes(path, detail);
    lemma_places_concat(no_texts(), file, path, 0, 0, 3);
    lemma_places_concat(no_texts() + file, content, path, 0, 3, 5);
    lemma_places_concat(no_texts() + file + content, telegram, path, 0, 5, 7);
    lemma_places_concat(no_texts() + file + content + telegram, service, path, 0, 7, 9);
}

/// What occurs in one text occurs in the other.
spec fn says_no_more(less: Seq<char>, more: Seq<char>) -> bool {
    forall|needle: Seq<char>| #[trigger] occurs_in(less, needle) ==> occurs_in(more, needle)
}

proof fn lemma_first_fixes_kept(path: Seq<char>, less: Seq<char>, more: Seq<char>)
    requires
        says_no_more(less, more),
    ensures
        kept_in_order(
            no_texts() + file_fixes(path, less) + content_fixes(path, less),
            no_texts() + file_fixes(path, more) + content_fixes(path, more),
        ),
{
    let create = "Create the config file at "@ + path
        + " or run the program once without --doctor to generate it."@;
    let open = "Open "@ + path
        + " and fix the TOML syntax. Check quotes, commas, and section headers."@;
    let watch = "Set watch_dir in "@ + path
        + " to an existing directory the service user can access."@;
    let processed = "Set processed_dir in "@ + path
        + " to a different directory from watch_dir. The directory will be created automatically when needed."@;
    let types = "Set file_types in "@ + path
        + " to a non-empty list such as [\"txt\", \"md\"]."@;
    let read = |d: Seq<char>| occurs_in(d, "failed to read config"@);
    let parse = |d: Seq<char>| occurs_in(d, "failed to parse config"@);
    let place = |d: Seq<char>|
        occurs_in(d, "watch_dir does not exist"@) || occurs_in(d, "watch_dir is not a directory"@);
    let moved = |d: Seq<char>|
        occurs_in(d, "processed_dir is not a directory"@) || occurs_in(
            d,
            "processed_dir must be different from watch_dir"@,
        );
    let typed = |d: Seq<char>| occurs_in(d, "file_types must contain at least one extension"@);
    lemma_kept_only_if(false, false, create);
    lemma_kept_only_if(read(less), read(more), create);
    lemma_kept_only_if(parse(less), parse(more), open);
    lemma_kept_only_if(place(less), place(more), watch);
    lemma_kept_only_if(moved(less), moved(more), processed);
    lemma_kept_only_if(typed(less), typed(more), types);
    assert(only_if(false, create) =~= no_texts());
    lemma_kept_concat(
        no_texts(),
        no_texts(),
        only_if(read(less), create),
        only_if(read(more), create),
    );
    lemma_kept_concat(
        no_texts() + only_if(read(less), create),
        no_texts() + only_if(read(more), create),
        only_if(parse(less), open),
        only_if(parse(more), open),
    );
    lemma_kept_concat(
        no_texts() + only_if(read(less), create) + only_if(parse(less), open),
        no_texts() + only_if(read(more), create) + only_if(parse(more), open),
        only_if(place(less), watch),
        only_if(place(more), watch),
    );
    lemma_kept_concat(
        no_texts(),
        no_texts(),
        only_if(moved(less), processed),
        only_if(moved(more), processed),
    );
    lemma_kept_concat(
        no_texts() + only_if(moved(less), processed),
        no_texts() + only_if(moved(more), processed),
        only_if(typed(less), types),
        only_if(typed(more), types),
    );
    lemma_kept_concat(no_texts(), no_texts(), file_fixes(path, less), file_fixes(path, more));
    lemma_kept_concat(
        no_texts() + file_fixes(path, less),
        no_texts() + file_fixes(path, more),
        content_fixes(path, less),
        content_fixes(path, more),
    );
}

proof fn lemma_telegram_fixes_kept(path: Seq<char>, less: Seq<char>, more: Seq<char>)
    requires
        says_no_more(less, more),
    ensures
        kept_in_order(telegram_fixes(path, less), telegram_fixes(path, more)),
{
    let either = "Either disable [telegram], or set telegram.bot_token and telegram.chat_id in "@
        + path
        + ". After setting the bot token, you can run `note-embedding --telegram-discover-chat` to discover and save the chat ID."@;
    let hook = "If you use webhook mode in "@ + path
        + ", set telegram.webhook_url to the public HTTPS endpoint, telegram.webhook_bind_addr to the local listen address, telegram.webhook_secret_token to a random token, and telegram.webhook_trusted_proxy_cidrs only to proxies you control. The webhook listener only accepts direct Cloudflare senders or configured trusted proxies carrying Cloudflare headers."@;
    let token = |d: Seq<char>|
        occurs_in(d, "telegram.bot_token is empty"@) || occurs_in(d, "telegram.chat_id is 0"@);
    let webhook = |d: Seq<char>|
        occurs_in(d, "telegram.mode is webhook"@) || occurs_in(d, "telegram.webhook_bind_addr"@)
            || occurs_in(d, "telegram.webhook_secret_token"@) || occurs_in(
            d,
            "telegram.webhook_url must start with https://"@,
        ) || occurs_in(d, "telegram.webhook_trusted_proxy_cidrs"@);
    lemma_kept_only_if(false, false, either);
    lemma_kept_only_if(token(less), token(more), either);
    lemma_kept_only_if(webhook(less), webhook(more), hook);
    assert(only_if(false, either) =~= no_texts());
    lemma_kept_concat(
        no_texts(),
        no_texts(),
        only_if(token(less), either),
        only_if(token(more), either),
    );
    lemma_kept_concat(
        no_texts() + only_if(token(less), either),
        no_texts() + only_if(token(more), either),
        only_if(webhook(less), hook),
        only_if(webhook(more), hook),
    );
}

proof fn lemma_service_fixes_kept(path: Seq<char>, less: Seq<char>, more: Seq<char>)
    requires
        says_no_more(less, more),
    ensures
        kept_in_order(service_fixes(path, less), service_fixes(path, more)),
{
    let reach = "Make sure this host can reach https://www.cloudflare.com/ips-v4 and https://www.cloudflare.com/ips-v6 so webhook security checks can load Cloudflare's current IP ranges."@;
    let sections = "Review the [embedding], [embedding.ollama], and [embedding.gemini] sections in "@
        + path + ". Use provider names 'ollama' or 'gemini' only."@;
    let range = |d: Seq<char>| occurs_in(d, "Cloudflare IP range"@);
    let provider = |d: Seq<char>|
        occurs_in(d, "embedding.preferred_provider"@) || occurs_in(
            d,
            "embedding.fallback_provider"@,
        ) || occurs_in(d, "embedding.ollama"@) || occurs_in(d, "embedding.gemini"@);
    lemma_kept_only_if(false, false, reach);
    lemma_kept_only_if(range(less), range(more), reach);
    lemma_kept_only_if(provider(less), provider(more), sections);
    assert(only_if(false, reach) =~= no_texts());
    lemma_kept_concat(
        no_texts(),
        no_texts(),
        only_if(range(less), reach),
        only_if(range(more), reach),
    );
    lemma_kept_concat(
        no_texts() + only_if(range(less), reach),
        no_texts() + only_if(range(more), reach),
        only_if(provider(less), sections),
        only_if(provider(more), sections),
    );
}

/// A longer report of errors keeps all the advice: every sentence that was given stays, in the
/// same order, none comes twice, and none is the general advice, to which the text does not fall
/// back.
pub proof fn law_longer_report_keeps_the_advice(
    path: Seq<char>,
    report: Seq<char>,
    more: Seq<char>,
)
    requires
        config_fixes(path, report).len() > 0,
    ensures
        ({
            let fixes = config_fixes(path, report + "\n"@ + more);
            &&& kept_in_order(config_fixes(path, report), fixes)
            &&& fixes.no_duplicates()
            &&& !fixes.contains(general_advice(path))
            &&& config_advice(path, report + "\n"@ + more) == joined(fixes, " "@)
        }),
{
    let longer = report + "\n"@ + more;
    let fixes = config_fixes(path, longer);
    assert(longer =~= report + ("\n"@ + more));
    assert forall|needle: Seq<char>| #[trigger] occurs_in(report, needle) implies occurs_in(
        longer,
        needle,
    ) by {
        lemma_occurs_in_longer(report, "\n"@ + more, needle);
    }
    lemma_first_fixes_kept(path, report, longer);
    lemma_telegram_fixes_kept(path, report, longer);
    lemma_service_fixes_kept(path, report, longer);
    lemma_kept_concat(
        no_texts() + file_fixes(path, report) + content_fixes(path, report),
        no_texts() + file_fixes(path, longer) + content_fixes(path, longer),
        telegram_fixes(path, report),
        telegram_fixes(path, longer),
    );
    lemma_kept_concat(
        no_texts() + file_fixes(path, report) + content_fixes(path, report) + telegram_fixes(
            path,
            report,
        ),
        no_texts() + file_fixes(path, longer) + content_fixes(path, longer) + telegram_fixes(
            path,
            longer,
        ),
        service_fixes(path, report),
        service_fixes(path, longer),
    );
    let at = choose|at: Seq<int>| keeps_at(config_fixes(path, report), fixes, at);
    assert(0 <= at[0] < fixes.len());
    lemma_config_fixes(path, longer);
    assert forall|i: int, j: int| 0 <= i < fixes.len() && 0 <= j < fixes.len() && i != j implies fixes[i]
        != fixes[j] by {
        if i < j {
            assert(place_of_advice(fixes[i]) < place_of_advice(fixes[j]));
        } else {
            assert(place_of_advice(fixes[j]) < place_of_advice(fixes[i]));
        }
    }
}

proof fn lemma_joined_holds_first(parts: Seq<Seq<char>>, separator: Seq<char>)
    requires
        parts.len() > 0,
    ensures
        joined(parts, separator).len() >= parts[0].len(),
    decreases parts.len(),
{
    if parts.len() > 1 {
        lemma_joined_holds_first(parts.drop_last(), separator);
    }
}

/// There is always some advice, and nothing but the general one where nothing was reported.
pub proof fn law_there_is_always_advice(path: Seq<char>, report: Seq<char>)
    ensures
        config_advice(path, report).len() > 0,
        config_advice(path, ""@) == general_advice(path),
{
    reveal_strlit("Review ");
    let fixes = config_fixes(path, report);
    if fixes.len() > 0 {
        lemma_config_fixes(path, report);
        lemma_joined_holds_first(fixes, " "@);
        assert(fixes[0].len() > 0);
    }
    lemma_nothing_reported(path);
}

proof fn lemma_nothing_reported(path: Seq<char>)
    ensures
        config_fixes(path, ""@).len() == 0,
{
    reveal_strlit("");
    reveal_strlit("failed to read config");
    reveal_strlit("failed to parse config");
    reveal_strlit("watch_dir does not exist");
    reveal_strlit("watch_dir is not a directory");
    reveal_strlit("processed_dir is not a directory");
    reveal_strlit("processed_dir must be different from watch_dir");
    reveal_strlit("file_types must contain at least one extension");
    reveal_strlit("telegram.bot_token is empty");
    reveal_strlit("telegram.chat_id is 0");
    reveal_strlit("telegram.mode is webhook");
    reveal_strlit("telegram.webhook_bind_addr");
    reveal_strlit("telegram.webhook_secret_token");
    reveal_strlit("telegram.webhook_url must start with https://");
    reveal_strlit("telegram.webhook_trusted_proxy_cidrs");
    reveal_strlit("Cloudflare IP range");
    reveal_strlit("embedding.preferred_provider");
    reveal_strlit("embedding.fallback_provider");
    reveal_strlit("embedding.ollama");
    reveal_strlit("embedding.gemini");
    assert forall|needle: Seq<char>| needle.len() > 0 implies !#[trigger] occurs_in(""@, needle) by {
        if occurs_in(""@, needle) {
            let at = choose|at: int| stands_at(""@, needle, at);
            assert(stands_at(""@, needle, at));
        }
    }
    assert(file_fixes(path, ""@).len() == 0);
    assert(content_fixes(path, ""@).len() == 0);
    assert(telegram_fixes(path, ""@).len() == 0);
    assert(service_fixes(path, ""@).len() == 0);
}

// ---------------------------------------------------------------------------------------------
// Laws

proof fn lemma_tries_one_more(plan: Seq<PlannedView>, check: PlannedView, probe: Probe)
    ensures
        tries(plan.push(check), probe) <==> tries(plan, probe) || (check matches PlannedView::Try {
            probe: p,
            ..
        } && p == probe),
{
    let longer = plan.push(check);
    if tries(plan, probe) {
        let i = choose|i: int|
            0 <= i < plan.len() && (#[trigger] plan[i] matches PlannedView::Try { probe: p, .. }
                && p == probe);
        assert(longer[i] == plan[i]);
    }
    if tries(longer, probe) {
        let i = choose|i: int|
            0 <= i < longer.len() && (#[trigger] longer[i] matches PlannedView::Try { probe: p, .. }
                && p == probe);
        if i < plan.len() {
            assert(plan[i] == longer[i]);
        }
    }
    assert(longer[plan.len() as int] == check);
}

proof fn lemma_files_are_tried(
    config: AppConfig,
    path: Seq<char>,
    fields: Seq<Seq<char>>,
    probe: Probe,
)
    ensures
        tries(file_checks(config, path, fields), probe) <==> probe == Probe::ProcessedDir || probe
            == Probe::Database || probe == Probe::Watcher,
{
    let plan = file_checks(config, path, fields);
    let n = plan.len() as int;
    assert(plan[n - 3] matches PlannedView::Try { probe: p, .. } && p == Probe::ProcessedDir);
    assert(plan[n - 2] matches PlannedView::Try { probe: p, .. } && p == Probe::Database);
    assert(plan[n - 1] matches PlannedView::Try { probe: p, .. } && p == Probe::Watcher);
}

/// The self-test tries the directories, the database, the preferred provider and a sample always;
/// the other provider, the bot and what a webhook needs exactly where they are used.
pub proof fn law_everything_in_use_is_tried(
    config: AppConfig,
    path: Seq<char>,
    fields: Seq<Seq<char>>,
    enabled: bool,
    probe: Probe,
)
    ensures
        tries(doctor_checks(config, path, fields, enabled), probe) <==> match probe {
            Probe::Fallback => config.provider_enabled(config.embedding.fallback_provider@),
            Probe::Telegram => config.telegram.enabled,
            Probe::WebhookBind => config.telegram.enabled && config.telegram.mode is Webhook,
            Probe::Cloudflare => config.telegram.enabled && config.telegram.mode is Webhook,
            Probe::TrustedProxies => config.telegram.enabled && config.telegram.mode is Webhook,
            _ => true,
        },
{
    lemma_files_are_tried(config, path, fields, probe);
    let files = file_checks(config, path, fields);
    let providers = provider_checks(files, config, path);
    let primary = providers.drop_last();
    lemma_tries_one_more(files, primary.last(), probe);
    assert(primary =~= files.push(primary.last()));
    lemma_tries_one_more(primary, providers.last(), probe);
    assert(providers =~= primary.push(providers.last()));
    let bot = telegram_checks(providers, config, path, enabled);
    if config.telegram.enabled {
        let n = providers.len() as int;
        let login = providers.push(bot[n]);
        lemma_tries_one_more(providers, bot[n], probe);
        let mode = login.push(bot[n + 1]);
        lemma_tries_one_more(login, bot[n + 1], probe);
        let access = access_checks(mode, config, path, enabled);
        if access.len() > mode.len() {
            lemma_tries_one_more(mode, access.last(), probe);
            assert(access =~= mode.push(access.last()));
        }
        let webhook = if config.telegram.mode is Webhook {
            webhook_checks(access, config, path, enabled)
        } else {
            access
        };
        if config.telegram.mode is Webhook {
            let k = access.len() as int;
            let one = access.push(webhook[k]);
            lemma_tries_one_more(access, webhook[k], probe);
            let two = one.push(webhook[k + 1]);
            lemma_tries_one_more(one, webhook[k + 1], probe);
            let three = two.push(webhook[k + 2]);
            lemma_tries_one_more(two, webhook[k + 2], probe);
            let four = three.push(webhook[k + 3]);
            lemma_tries_one_more(three, webhook[k + 3], probe);
            let five = four.push(webhook[k + 4]);
            lemma_tries_one_more(four, webhook[k + 4], probe);
            lemma_tries_one_more(five, webhook[k + 5], probe);
            assert(webhook =~= five.push(webhook[k + 5]));
        }
        if bot.len() > webhook.len() {
            lemma_tries_one_more(webhook, bot.last(), probe);
            assert(bot =~= webhook.push(bot.last()));
        }
    } else {
        lemma_tries_one_more(providers, bot.last(), probe);
        assert(bot =~= providers.push(bot.last()));
    }
    let all = doctor_checks(config, path, fields, enabled);
    lemma_tries_one_more(bot, all.last(), probe);
    assert(all =~= bot.push(all.last()));
}

/// A report of a check begins with its status and its name, shows every further line of what was
/// found, and ends with the advice where there is some.
pub proof fn law_report_shows_the_whole_check(check: CheckView, enabled: bool, i: int)
    ensures
        has_prefix(
            check_lines(check, enabled)[0],
            status_label(check.status, enabled) + " "@ + check.name,
        ),
        lines(check.detail).len() > 0 ==> lines(check.detail)[0].is_suffix_of(
            check_lines(check, enabled)[0],
        ),
        1 <= i < lines(check.detail).len() ==> i < check_lines(check, enabled).len() && check_lines(
            check,
            enabled,
        )[i] == "  "@ + lines(check.detail)[i],
        check.fix matches Some(fix) ==> fix.is_suffix_of(check_lines(check, enabled).last()),
        check_lines(check, enabled).len() == (if lines(check.detail).len() == 0 {
            1int
        } else {
            lines(check.detail).len() as int
        }) + (if check.fix is Some {
            1int
        } else {
            0int
        }),
{
    let start = status_label(check.status, enabled) + " "@ + check.name;
    let found = lines(check.detail);
    let shown = check_lines(check, enabled);
    assert(shown[0] == headline(check, enabled));
    assert(shown[0].take(start.len() as int) =~= start);
    if found.len() > 0 {
        assert(shown[0].skip(shown[0].len() - found[0].len()) =~= found[0]);
    }
    if let Some(fix) = check.fix {
        let line = "  "@ + painted("[info]"@, BOLD_CYAN@, enabled) + " "@ + fix;
        assert(shown.last() == line);
        assert(line.skip(line.len() - fix.len()) =~= fix);
    }
}

/// Without colours a check is labelled as passed, doubtful or failed, each in its own word.
pub proof fn law_labels_tell_the_status(status: DoctorStatus)
    ensures
        status_label(status, false) == "[ok]"@ <==> status is Pass,
        status_label(status, false) == "[warn]"@ <==> status is Warn,
        status_label(status, false) == "[fail]"@ <==> status is Fail,
{
    reveal_strlit("[ok]");
    reveal_strlit("[warn]");
    reveal_strlit("[fail]");
    assert("[ok]"@[1] == 'o' && "[warn]"@[1] == 'w' && "[fail]"@[1] == 'f');
}

/// A status is counted as often as it was found.
pub proof fn law_every_check_is_counted(checks: Seq<DoctorCheck>, status: DoctorStatus)
    ensures
        count_of(checks, status) == checks.filter(
            |check: DoctorCheck| check.status == status,
        ).len(),
        count_of(checks, status) == 0 <==> forall|i: int|
            0 <= i < checks.len() ==> (#[trigger] checks[i]).status != status,
    decreases checks.len(),
{
    reveal(Seq::filter);
    if checks.len() > 0 {
        let before = checks.drop_last();
        law_every_check_is_counted(before, status);
        assert(checks[checks.len() - 1] == checks.last());
        assert(forall|i: int| 0 <= i < before.len() ==> before[i] == checks[i]);
        if count_of(checks, status) == 0 {
            assert forall|i: int| 0 <= i < checks.len() implies (#[trigger] checks[i]).status
                != status by {
                if i < before.len() {
                    assert(before[i].status != status);
                }
            }
        }
        if forall|i: int| 0 <= i < checks.len() ==> (#[trigger] checks[i]).status != status {
            assert forall|i: int| 0 <= i < before.len() implies (#[trigger] before[i]).status
                != status by {
                assert(checks[i].status != status);
            }
        }
    }
}

proof fn lemma_in_either(a: Seq<Seq<char>>, b: Seq<Seq<char>>, text: Seq<char>)
    requires
        a.contains(text) || b.contains(text),
    ensures
        (a + b).contains(text),
{
    if a.contains(text) {
        let i = choose|i: int| 0 <= i < a.len() && a[i] == text;
        assert((a + b)[i] == text);
    } else {
        let i = choose|i: int| 0 <= i < b.len() && b[i] == text;
        assert((a + b)[a.len() + i] == text);
    }
}

/// A mistake in the directories is answered with advice on that directory, and one in the providers
/// with advice on their sections.
pub proof fn law_mistakes_get_their_own_advice(path: Seq<char>, detail: Seq<char>)
    ensures
        occurs_in(detail, "watch_dir does not exist"@) || occurs_in(
            detail,
            "watch_dir is not a directory"@,
        ) ==> config_fixes(path, detail).contains(
            "Set watch_dir in "@ + path
                + " to an existing directory the service user can access."@,
        ),
        occurs_in(detail, "processed_dir must be different from watch_dir"@) || occurs_in(
            detail,
            "processed_dir is not a directory"@,
        ) ==> content_fixes(path, detail).contains(
            "Set processed_dir in "@ + path
                + " to a different directory from watch_dir. The directory will be created automatically when needed."@,
        ),
        occurs_in(detail, "embedding.preferred_provider"@) || occurs_in(
            detail,
            "embedding.fallback_provider"@,
        ) || occurs_in(detail, "embedding.ollama"@) || occurs_in(detail, "embedding.gemini"@)
            ==> config_fixes(path, detail).contains(
            "Review the [embedding], [embedding.ollama], and [embedding.gemini] sections in "@ + path
                + ". Use provider names 'ollama' or 'gemini' only."@,
        ),
{
    let files = file_fixes(path, detail);
    let contents = content_fixes(path, detail);
    let telegram = telegram_fixes(path, detail);
    let services = service_fixes(path, detail);
    let watch = "Set watch_dir in "@ + path
        + " to an existing directory the service user can access."@;
    let sections = "Review the [embedding], [embedding.ollama], and [embedding.gemini] sections in "@
        + path + ". Use provider names 'ollama' or 'gemini' only."@;
    if occurs_in(detail, "watch_dir does not exist"@) || occurs_in(
        detail,
        "watch_dir is not a directory"@,
    ) {
        assert(files.last() == watch);
        assert(files[files.len() - 1] == watch);
        lemma_in_either(no_texts(), files, watch);
        lemma_in_either(no_texts() + files, contents, watch);
        lemma_in_either(no_texts() + files + contents, telegram, watch);
        lemma_in_either(no_texts() + files + contents + telegram, services, watch);
    }
    if occurs_in(detail, "processed_dir must be different from watch_dir"@) || occurs_in(
        detail,
        "processed_dir is not a directory"@,
    ) {
        assert(contents[0] == "Set processed_dir in "@ + path
            + " to a different directory from watch_dir. The directory will be created automatically when needed."@);
    }
    if occurs_in(detail, "embedding.preferred_provider"@) || occurs_in(
        detail,
        "embedding.fallback_provider"@,
    ) || occurs_in(detail, "embedding.ollama"@) || occurs_in(detail, "embedding.gemini"@) {
        assert(services.last() == sections);
        assert(services[services.len() - 1] == sections);
        lemma_in_either(no_texts() + files + contents + telegram, services, sections);
    }
}

/// Whether the plan holds a warning of that name.
pub open spec fn warns_of(plan: Seq<PlannedView>, name: Seq<char>) -> bool {
    exists|i: int|
        0 <= i < plan.len() && (#[trigger] plan[i] matches PlannedView::Known(check) && check.name
            == name && check.status is Warn)
}

proof fn lemma_warns_one_more(plan: Seq<PlannedView>, check: PlannedView, name: Seq<char>)
    ensures
        warns_of(plan.push(check), name) <==> warns_of(plan, name) || (
        check matches PlannedView::Known(known) && known.name == name && known.status is Warn),
{
    let longer = plan.push(check);
    if warns_of(plan, name) {
        let i = choose|i: int|
            0 <= i < plan.len() && (#[trigger] plan[i] matches PlannedView::Known(check)
                && check.name == name && check.status is Warn);
        assert(longer[i] == plan[i]);
    }
    if warns_of(longer, name) {
        let i = choose|i: int|
            0 <= i < longer.len() && (#[trigger] longer[i] matches PlannedView::Known(check)
                && check.name == name && check.status is Warn);
        if i < plan.len() {
            assert(plan[i] == longer[i]);
        }
    }
    assert(longer[plan.len() as int] == check);
}

/// Behind the other checks, it is warned of the access to the bot exactly where nobody can approve
/// users, and of notifications exactly where there is no chat for them; a bot that is off is
/// warned of alone.
pub proof fn law_doubts_about_the_bot_are_told(
    before: Seq<PlannedView>,
    config: AppConfig,
    path: Seq<char>,
    enabled: bool,
)
    requires
        !warns_of(before, "telegram.access"@),
        !warns_of(before, "telegram.notifications"@),
        !warns_of(before, "telegram"@),
    ensures
        ({
            let plan = telegram_checks(before, config, path, enabled);
            &&& warns_of(plan, "telegram"@) <==> !config.telegram.enabled
            &&& warns_of(plan, "telegram.access"@) <==> config.telegram.enabled
                && config.telegram.admin_user_ids@.len() == 0
            &&& warns_of(plan, "telegram.notifications"@) <==> config.telegram.enabled
                && config.telegram.chat_id == 0
        }),
{
    reveal_strlit("telegram");
    reveal_strlit("telegram.access");
    reveal_strlit("telegram.notifications");
    assert("telegram"@.len() == 8 && "telegram.access"@.len() == 15
        && "telegram.notifications"@.len() == 22);
    lemma_bot_warnings(before, config, path, enabled, "telegram"@);
    lemma_bot_warnings(before, config, path, enabled, "telegram.access"@);
    lemma_bot_warnings(before, config, path, enabled, "telegram.notifications"@);
}

proof fn lemma_bot_warnings(
    before: Seq<PlannedView>,
    config: AppConfig,
    path: Seq<char>,
    enabled: bool,
    name: Seq<char>,
)
    ensures
        warns_of(telegram_checks(before, config, path, enabled), name) <==> warns_of(before, name)
            || (if config.telegram.enabled {
            (name == "telegram.access"@ && config.telegram.admin_user_ids@.len() == 0) || (name
                == "telegram.notifications"@ && config.telegram.chat_id == 0)
        } else {
            name == "telegram"@
        }),
{
    let bot = telegram_checks(before, config, path, enabled);
    if config.telegram.enabled {
        let n = before.len() as int;
        let login = before.push(bot[n]);
        lemma_warns_one_more(before, bot[n], name);
        let mode = login.push(bot[n + 1]);
        lemma_warns_one_more(login, bot[n + 1], name);
        let access = access_checks(mode, config, path, enabled);
        if access.len() > mode.len() {
            lemma_warns_one_more(mode, access.last(), name);
            assert(access =~= mode.push(access.last()));
        }
        let webhook = if config.telegram.mode is Webhook {
            webhook_checks(access, config, path, enabled)
        } else {
            access
        };
        if config.telegram.mode is Webhook {
            let k = access.len() as int;
            let one = access.push(webhook[k]);
            lemma_warns_one_more(access, webhook[k], name);
            let two = one.push(webhook[k + 1]);
            lemma_warns_one_more(one, webhook[k + 1], name);
            let three = two.push(webhook[k + 2]);
            lemma_warns_one_more(two, webhook[k + 2], name);
            let four = three.push(webhook[k + 3]);
            lemma_warns_one_more(three, webhook[k + 3], name);
            let five = four.push(webhook[k + 4]);
            lemma_warns_one_more(four, webhook[k + 4], name);
            lemma_warns_one_more(five, webhook[k + 5], name);
            assert(webhook =~= five.push(webhook[k + 5]));
        }
        if bot.len() > webhook.len() {
            lemma_warns_one_more(webhook, bot.last(), name);
            assert(bot =~= webhook.push(bot.last()));
        }
    } else {
        lemma_warns_one_more(before, bot.last(), name);
        assert(bot =~= before.push(bot.last()));
    }
}

/// What is said of a bot that logged in names it, and tells how its updates arrive.
pub proof fn law_bot_is_described_as_it_is(
    config: TelegramConfig,
    username: Seq<char>,
    webhook_url: Seq<char>,
)
    ensures
        has_prefix(
            telegram_found_text(config, Some(username), webhook_url),
            "authenticated as @"@ + username,
        ),
        config.mode is Polling ==> "; polling"@.is_suffix_of(
            telegram_found_text(config, Some(username), webhook_url),
        ),
        config.mode is Webhook && webhook_url.len() == 0 ==> "; webhook not registered"@.is_suffix_of(
            telegram_found_text(config, Some(username), webhook_url),
        ),
        config.mode is Webhook && webhook_url.len() > 0 ==> ("webhook registered at "@
            + webhook_url).is_suffix_of(
            telegram_found_text(config, Some(username), webhook_url),
        ),
{
    reveal_strlit("; ");
    reveal_strlit("polling");
    reveal_strlit("; polling");
    reveal_strlit("webhook not registered");
    reveal_strlit("; webhook not registered");
    let text = telegram_found_text(config, Some(username), webhook_url);
    let start = "authenticated as @"@ + username;
    assert(text.take(start.len() as int) =~= start);
    if config.mode is Polling {
        assert(text.skip(text.len() - "; polling"@.len()) =~= "; polling"@);
    } else if webhook_url.len() == 0 {
        assert(text.skip(text.len() - "; webhook not registered"@.len())
            =~= "; webhook not registered"@);
    } else {
        let end = "webhook registered at "@ + webhook_url;
        assert(text.skip(text.len() - end.len()) =~= end);
    }
}

/// The self-test succeeds exactly if no check failed, however many warned.
pub proof fn law_only_failures_count_against_health(checks: Seq<DoctorCheck>)
    ensures
        is_healthy(checks) <==> forall|i: int|
            0 <= i < checks.len() ==> !((#[trigger] checks[i]).status is Fail),
{
    law_every_check_is_counted(checks, DoctorStatus::Fail);
}

} // verus!
