//! Many sessions side by side: which of them is at work, what waits for it,
//! and what a request of the user does to it.
//!
//! A session has one turn at a time. Messages that come meanwhile wait in
//! line, and the first of them begins the next turn when the turn is over.

use crate::agent::{
    endpoint, find_level, find_model, find_provider, is_keyed, level_params, make_endpoint,
    model_at, opt_str, provider_at, put_key,
};
use crate::chars::{
    chars_of, copied_opt, decimal, holds_text, number_text, opt_text, push_text, str_eq, string_of,
    text_from, texts,
};
use crate::config::{expand_steps, expand_within, expansion_ends, settled_after, vars_say};
use crate::protocol::{
    pending_images_say, AppConfig, Event, EventV, ExecMode, ModelConfig, PendingImage,
    PendingImageV, ProviderConfig, SessionMeta, SessionMetaV,
};
use crate::provider::{ResolvedModel, ResolvedV};
use crate::session::{
    copied_opt_model_selection, meta_to_selection, opt_model_selection, selection_of, ModelSelection,
    ModelSelectionV, Session, SessionV,
};
use crate::stream::{wrap_sum, wrapped};
use crate::subagent::opt_config;
use vstd::prelude::*;

verus! {

// ---------------------------------------------------------------------------
// Models
// ---------------------------------------------------------------------------

/// The first enabled provider, from `i` on.
pub open spec fn enabled_at(v: Seq<ProviderConfig>, i: int) -> Option<int>
    decreases v.len() - i,
{
    if i < 0 || i >= v.len() {
        None
    } else if v[i].enabled {
        Some(i)
    } else {
        enabled_at(v, i + 1)
    }
}

/// The provider that is used for an id: the enabled one of that id, else the
/// first enabled one.
pub open spec fn provider_for(v: Seq<ProviderConfig>, id: Seq<char>) -> Option<int> {
    match provider_at(v, id, 0) {
        Some(i) => Some(i),
        None => enabled_at(v, 0),
    }
}

/// The model that is used for an id: the one of that id, else the first.
pub open spec fn model_for(v: Seq<ModelConfig>, id: Seq<char>) -> Option<int> {
    match model_at(v, id, 0) {
        Some(i) => Some(i),
        None => if v.len() > 0 {
            Some(0)
        } else {
            None
        },
    }
}

/// The endpoint that a session uses: that of its own choice, else the
/// configured one, with the parameters of the reasoning level.
pub open spec fn resolved(
    config: AppConfig,
    selection: Option<ModelSelectionV>,
    default_level: Option<Seq<char>>,
) -> Option<ResolvedV> {
    let (pid, mid, level) = match selection {
        Some(s) => (s.provider_id, s.model_id, s.reasoning_level),
        None => (config.default_provider@, config.default_model@, default_level),
    };
    match provider_for(config.providers@, pid) {
        None => None,
        Some(i) => {
            let p = config.providers@[i];
            match model_for(p.models@, mid) {
                None => None,
                Some(k) => {
                    let m = p.models@[k];
                    Some(
                        endpoint(
                            p,
                            m,
                            match level {
                                Some(l) => level_params(m.reasoning_params@, l),
                                None => None,
                            },
                        ),
                    )
                },
            }
        },
    }
}

/// What an optional endpoint says.
pub open spec fn opt_resolved(r: Option<ResolvedModel>) -> Option<ResolvedV> {
    match r {
        Some(m) => Some(m@),
        None => None,
    }
}

/// What an optional choice of a model says.
pub open spec fn opt_selection(s: Option<&ModelSelection>) -> Option<ModelSelectionV> {
    match s {
        Some(x) => Some(x@),
        None => None,
    }
}

fn find_enabled(v: &[ProviderConfig]) -> (r: Option<usize>)
    ensures
        match r {
            Some(i) => enabled_at(v@, 0) == Some(i as int) && i < v@.len(),
            None => enabled_at(v@, 0) is None,
        },
{
    for i in 0..v.len()
        invariant
            enabled_at(v@, 0) == enabled_at(v@, i as int),
    {
        if v[i].enabled {
            return Some(i);
        }
    }
    None
}

/// Finds the endpoint that a session uses, with the key of its provider as it
/// is configured. What is named but not there gives way to the first enabled
/// provider and its first model.
pub fn choose_model(
    config: &AppConfig,
    selection: Option<&ModelSelection>,
    default_level: Option<&str>,
) -> (r: Option<ResolvedModel>)
    ensures
        opt_resolved(r) == resolved(*config, opt_selection(selection), opt_str(default_level)),
{
    let (pid, mid, level): (Vec<char>, Vec<char>, Option<String>) = match selection {
        Some(s) => (
            chars_of(s.provider_id.as_str()),
            chars_of(s.model_id.as_str()),
            copied_opt(&s.reasoning_level),
        ),
        None => (
            chars_of(config.default_provider.as_str()),
            chars_of(config.default_model.as_str()),
            match default_level {
                Some(l) => Some(text_from(l)),
                None => None,
            },
        ),
    };
    let i: usize = match find_provider(config.providers.as_slice(), pid.as_slice()) {
        Some(i) => i,
        None => match find_enabled(config.providers.as_slice()) {
            Some(i) => i,
            None => return None,
        },
    };
    let p = &config.providers[i];
    let k: usize = match find_model(p.models.as_slice(), mid.as_slice()) {
        Some(k) => k,
        None => if p.models.len() > 0 {
            0
        } else {
            return None;
        },
    };
    let m = &p.models[k];
    let params = match &level {
        Some(l) => find_level(m.reasoning_params.as_slice(), l.as_str()),
        None => None,
    };
    Some(make_endpoint(p, m, params))
}

/// Finds the endpoint that a session uses, with the key that is sent: the
/// environment variables that the configured one refers to are put in.
pub fn resolve_model(
    config: &AppConfig,
    selection: Option<&ModelSelection>,
    default_level: Option<&str>,
    env: &[(String, String)],
) -> (r: Option<ResolvedModel>)
    requires
        resolved(*config, opt_selection(selection), opt_str(default_level)) matches Some(m)
            ==> expansion_ends(m.api_key, vars_say(env@)),
    ensures
        match resolved(*config, opt_selection(selection), opt_str(default_level)) {
            Some(m) => r is Some && is_keyed(m, vars_say(env@), r->0@),
            None => r is None,
        },
{
    match choose_model(config, selection, default_level) {
        Some(m) => Some(put_key(m, env)),
        None => None,
    }
}

/// An endpoint with the key that is sent: the environment variables that the
/// configured one refers to are put in, in at most `limit` replacements.
pub open spec fn keyed(m: ResolvedV, env: Seq<(Seq<char>, Seq<char>)>, limit: nat) -> ResolvedV {
    ResolvedV { api_key: expand_steps(m.api_key, env, limit), ..m }
}

/// Puts the environment variables that the key of an endpoint refers to in
/// their places. Nothing comes back when the key is not settled after `limit`
/// replacements.
pub fn ready_endpoint(model: &ResolvedModel, env: &[(String, String)], limit: u64) -> (r: Option<
    ResolvedModel,
>)
    ensures
        match r {
            Some(m) => settled_after(model@.api_key, vars_say(env@), limit as nat) && m@ == keyed(
                model@,
                vars_say(env@),
                limit as nat,
            ),
            None => !settled_after(model@.api_key, vars_say(env@), limit as nat),
        },
{
    match expand_within(model.api_key.as_str(), env, limit) {
        Some(key) => {
            let mut m = model.copy();
            m.api_key = key;
            Some(m)
        },
        None => None,
    }
}

/// The endpoint, where there is a configuration.
pub open spec fn maybe_resolved(
    config: Option<AppConfig>,
    selection: Option<ModelSelectionV>,
    level: Option<Seq<char>>,
) -> Option<ResolvedV> {
    match config {
        Some(c) => resolved(c, selection, level),
        None => None,
    }
}

fn try_resolve(config: Option<&AppConfig>, e: &Entry) -> (r: Option<ResolvedModel>)
    ensures
        opt_resolved(r) == maybe_resolved(
            opt_config(config),
            e@.model_override,
            e@.reasoning_level,
        ),
{
    match config {
        Some(c) => {
            let level: Option<&str> = match &e.reasoning_level {
                Some(l) => Some(l.as_str()),
                None => None,
            };
            let sel: Option<&ModelSelection> = match &e.model_override {
                Some(s) => Some(s),
                None => None,
            };
            choose_model(c, sel, level)
        },
        None => None,
    }
}

/// How the model of a session is shown: its name and that of its provider.
pub open spec fn model_label_of(config: Option<AppConfig>, selection: Option<ModelSelectionV>) -> (
    Seq<char>,
    Seq<char>,
) {
    match maybe_resolved(config, selection, None) {
        Some(r) => (r.model, r.provider_name),
        None => ("未配置模型"@, ""@),
    }
}

/// Says how the model of a session is shown.
pub fn model_label(config: Option<&AppConfig>, selection: Option<&ModelSelection>) -> (r: (
    String,
    String,
))
    ensures
        (r.0@, r.1@) == model_label_of(opt_config(config), opt_selection(selection)),
{
    match config {
        Some(c) => match choose_model(c, selection, None) {
            Some(m) => (m.model, m.provider_name),
            None => (text_from("未配置模型"), text_from("")),
        },
        None => (text_from("未配置模型"), text_from("")),
    }
}

// ---------------------------------------------------------------------------
// New sessions
// ---------------------------------------------------------------------------

/// What the user asks for in a new session.
#[derive(Debug)]
pub struct NewSession {
    pub cwd: String,
    pub provider_id: Option<String>,
    pub model_id: Option<String>,
    pub reasoning_level: Option<String>,
    pub exec_mode: Option<ExecMode>,
}

/// `a`, or `b` where there is no `a`.
pub open spec fn or_else(a: Option<Seq<char>>, b: Option<Seq<char>>) -> Option<Seq<char>> {
    match a {
        Some(x) => Some(x),
        None => b,
    }
}

/// The first provider of an id, enabled or not, from `i` on.
pub open spec fn named_at(v: Seq<ProviderConfig>, id: Seq<char>, i: int) -> Option<int>
    decreases v.len() - i,
{
    if i < 0 || i >= v.len() {
        None
    } else if v[i].id@ == id {
        Some(i)
    } else {
        named_at(v, id, i + 1)
    }
}

/// The level that a model's configuration gives a new session: its default, if
/// that is one of its levels.
pub open spec fn default_level_of(config: AppConfig, pid: Seq<char>, mid: Seq<char>) -> Option<
    Seq<char>,
> {
    match named_at(config.providers@, pid, 0) {
        None => None,
        Some(i) => {
            let p = config.providers@[i];
            match model_at(p.models@, mid, 0) {
                None => None,
                Some(k) => {
                    let m = p.models@[k];
                    match opt_text(m.default_reasoning_level) {
                        Some(l) => if texts(m.reasoning_levels@).contains(l) {
                            Some(l)
                        } else {
                            None
                        },
                        None => None,
                    }
                },
            }
        },
    }
}

/// What is kept of a new session: what the user asks for, else what the last
/// session in the workspace had. The reasoning level is never inherited; where
/// none is asked for, it is the default of the model.
pub open spec fn new_meta(
    id: Seq<char>,
    now: u64,
    w: NewSession,
    seed: Option<SessionMetaV>,
    config: Option<AppConfig>,
) -> SessionMetaV {
    let provider_id = or_else(
        opt_text(w.provider_id),
        match seed {
            Some(s) => s.provider_id,
            None => None,
        },
    );
    let model_id = or_else(
        opt_text(w.model_id),
        match seed {
            Some(s) => s.model_id,
            None => None,
        },
    );
    SessionMetaV {
        id,
        title: "新任务"@,
        title_custom: false,
        cwd: w.cwd@,
        created_at: now,
        updated_at: now,
        pinned: false,
        archived: false,
        provider_id,
        model_id,
        reasoning_level: or_else(
            opt_text(w.reasoning_level),
            match config {
                Some(c) => default_level_of(
                    c,
                    or_else(provider_id, Some(c.default_provider@))->0,
                    or_else(model_id, Some(c.default_model@))->0,
                ),
                None => None,
            },
        ),
        exec_mode: match w.exec_mode {
            Some(m) => m,
            None => match seed {
                Some(s) => s.exec_mode,
                None => ExecMode::ConfirmBeforeEdit,
            },
        },
        fs_read_outside: match seed {
            Some(s) => s.fs_read_outside,
            None => false,
        },
        fs_write_outside: match seed {
            Some(s) => s.fs_write_outside,
            None => false,
        },
    }
}

/// What optional metadata says.
pub open spec fn opt_meta(m: Option<&SessionMeta>) -> Option<SessionMetaV> {
    match m {
        Some(x) => Some(x@),
        None => None,
    }
}

fn find_named(v: &[ProviderConfig], id: &str) -> (r: Option<usize>)
    ensures
        match r {
            Some(i) => named_at(v@, id@, 0) == Some(i as int) && i < v@.len(),
            None => named_at(v@, id@, 0) is None,
        },
{
    for i in 0..v.len()
        invariant
            named_at(v@, id@, 0) == named_at(v@, id@, i as int),
    {
        if str_eq(v[i].id.as_str(), id) {
            return Some(i);
        }
    }
    None
}

fn default_level(config: &AppConfig, pid: &str, mid: &str) -> (r: Option<String>)
    ensures
        opt_text(r) == default_level_of(*config, pid@, mid@),
{
    match find_named(config.providers.as_slice(), pid) {
        None => None,
        Some(i) => {
            let p = &config.providers[i];
            match find_model(p.models.as_slice(), chars_of(mid).as_slice()) {
                None => None,
                Some(k) => {
                    let m = &p.models[k];
                    match &m.default_reasoning_level {
                        Some(l) => if holds_text(m.reasoning_levels.as_slice(), l.as_str()) {
                            Some(l.clone())
                        } else {
                            None
                        },
                        None => None,
                    }
                },
            }
        },
    }
}

fn first_of(a: &Option<String>, b: Option<&Option<String>>) -> (r: Option<String>)
    ensures
        opt_text(r) == or_else(
            opt_text(*a),
            match b {
                Some(x) => opt_text(*x),
                None => None,
            },
        ),
{
    match a {
        Some(x) => Some(x.clone()),
        None => match b {
            Some(x) => copied_opt(x),
            None => None,
        },
    }
}

/// Makes what is kept of a new session. `seed` is the last active session in
/// the workspace.
pub fn plan_session(
    id: &str,
    now: u64,
    wanted: &NewSession,
    seed: Option<&SessionMeta>,
    config: Option<&AppConfig>,
) -> (r: SessionMeta)
    ensures
        r@ == new_meta(id@, now, *wanted, opt_meta(seed), opt_config(config)),
{
    let provider_id = match seed {
        Some(s) => first_of(&wanted.provider_id, Some(&s.provider_id)),
        None => first_of(&wanted.provider_id, None),
    };
    let model_id = match seed {
        Some(s) => first_of(&wanted.model_id, Some(&s.model_id)),
        None => first_of(&wanted.model_id, None),
    };
    let mut reasoning_level = copied_opt(&wanted.reasoning_level);
    if reasoning_level.is_none() {
        match config {
            Some(c) => {
                let pid: &str = match &provider_id {
                    Some(p) => p.as_str(),
                    None => c.default_provider.as_str(),
                };
                let mid: &str = match &model_id {
                    Some(m) => m.as_str(),
                    None => c.default_model.as_str(),
                };
                reasoning_level = default_level(c, pid, mid);
            },
            None => {},
        }
    }
    let exec_mode: ExecMode = match wanted.exec_mode {
        Some(m) => m,
        None => match seed {
            Some(s) => s.exec_mode,
            None => ExecMode::ConfirmBeforeEdit,
        },
    };
    SessionMeta {
        id: text_from(id),
        title: text_from("新任务"),
        title_custom: false,
        cwd: wanted.cwd.clone(),
        created_at: now,
        updated_at: now,
        pinned: false,
        archived: false,
        provider_id,
        model_id,
        reasoning_level,
        exec_mode,
        fs_read_outside: match seed {
            Some(s) => s.fs_read_outside,
            None => false,
        },
        fs_write_outside: match seed {
            Some(s) => s.fs_write_outside,
            None => false,
        },
    }
}

/// The name of a new session.
pub open spec fn session_name(now: u64, n: u64) -> Seq<char> {
    "s"@ + decimal(now as nat) + "-"@ + decimal(n as nat)
}

/// What the user changes in what is kept of a session.
pub open spec fn changed_meta(
    m: SessionMetaV,
    pinned: Option<bool>,
    archived: Option<bool>,
    title: Option<Seq<char>>,
    now: u64,
) -> SessionMetaV {
    SessionMetaV {
        pinned: match pinned {
            Some(b) => b,
            None => m.pinned,
        },
        archived: match archived {
            Some(b) => b,
            None => m.archived,
        },
        title: match title {
            Some(t) => t,
            None => m.title,
        },
        title_custom: m.title_custom || title is Some,
        updated_at: now,
        ..m
    }
}

/// Takes the user's changes into what is kept of a session. A title that the
/// user gives is the user's own from then on.
pub fn update_meta(
    meta: &SessionMeta,
    pinned: Option<bool>,
    archived: Option<bool>,
    title: Option<&str>,
    now: u64,
) -> (r: SessionMeta)
    ensures
        r@ == changed_meta(meta@, pinned, archived, opt_str(title), now),
{
    let mut m = meta.copy();
    match pinned {
        Some(b) => {
            m.pinned = b;
        },
        None => {},
    }
    match archived {
        Some(b) => {
            m.archived = b;
        },
        None => {},
    }
    match title {
        Some(t) => {
            m.title = text_from(t);
            m.title_custom = true;
        },
        None => {},
    }
    m.updated_at = now;
    m
}

// ---------------------------------------------------------------------------
// The sessions
// ---------------------------------------------------------------------------

/// A message that waits for its turn.
#[derive(Debug)]
pub struct Queued {
    pub content: String,
    pub files: Vec<String>,
    pub images: Vec<PendingImage>,
    pub mode: ExecMode,
}

/// What a `Queued` says.
#[verifier::ext_equal]
pub struct QueuedV {
    pub content: Seq<char>,
    pub files: Seq<Seq<char>>,
    pub images: Seq<PendingImageV>,
    pub mode: ExecMode,
}

impl View for Queued {
    type V = QueuedV;

    open spec fn view(&self) -> QueuedV {
        QueuedV {
            content: self.content@,
            files: texts(self.files@),
            images: pending_images_say(self.images@),
            mode: self.mode,
        }
    }
}

/// What a line of messages says.
pub open spec fn line_says(v: Seq<Queued>) -> Seq<QueuedV> {
    v.map_values(|q: Queued| q@)
}

/// A session that is open.
#[derive(Debug)]
pub struct Entry {
    pub id: String,
    /// Whether a turn is in flight.
    pub busy: bool,
    pub model_override: Option<ModelSelection>,
    pub reasoning_level: Option<String>,
    /// The mode that the user chose last.
    pub last_mode: ExecMode,
    /// The messages that wait, the first one first.
    pub queue: Vec<Queued>,
}

/// What an `Entry` says.
#[verifier::ext_equal]
pub struct EntryV {
    pub id: Seq<char>,
    pub busy: bool,
    pub model_override: Option<ModelSelectionV>,
    pub reasoning_level: Option<Seq<char>>,
    pub last_mode: ExecMode,
    pub queue: Seq<QueuedV>,
}

impl View for Entry {
    type V = EntryV;

    open spec fn view(&self) -> EntryV {
        EntryV {
            id: self.id@,
            busy: self.busy,
            model_override: opt_model_selection(self.model_override),
            reasoning_level: opt_text(self.reasoning_level),
            last_mode: self.last_mode,
            queue: line_says(self.queue@),
        }
    }
}

/// What a list of sessions says.
pub open spec fn entries_say(v: Seq<Entry>) -> Seq<EntryV> {
    v.map_values(|e: Entry| e@)
}

/// The sessions that are open.
#[derive(Debug)]
pub struct Manager {
    pub entries: Vec<Entry>,
    /// The sessions that were deleted.
    pub deleted: Vec<String>,
    /// How many sessions were made.
    pub id_counter: u64,
}

/// What a `Manager` says.
#[verifier::ext_equal]
pub struct ManagerV {
    pub entries: Seq<EntryV>,
    pub deleted: Seq<Seq<char>>,
    pub id_counter: u64,
}

impl View for Manager {
    type V = ManagerV;

    open spec fn view(&self) -> ManagerV {
        ManagerV {
            entries: entries_say(self.entries@),
            deleted: texts(self.deleted@),
            id_counter: self.id_counter,
        }
    }
}

/// Whether no session is open twice.
pub open spec fn distinct(v: Seq<EntryV>) -> bool {
    forall|i: int, j: int|
        0 <= i < j < v.len() ==> (#[trigger] v[i]).id != (#[trigger] v[j]).id
}

/// The place of a session, from `i` on.
pub open spec fn entry_at(v: Seq<EntryV>, id: Seq<char>, i: int) -> Option<int>
    decreases v.len() - i,
{
    if i < 0 || i >= v.len() {
        None
    } else if v[i].id == id {
        Some(i)
    } else {
        entry_at(v, id, i + 1)
    }
}

/// The session of a name.
pub open spec fn entry_of(m: ManagerV, id: Seq<char>) -> Option<EntryV> {
    match entry_at(m.entries, id, 0) {
        Some(i) => Some(m.entries[i]),
        None => None,
    }
}

/// The sessions with one of them changed.
pub open spec fn with_entry(m: ManagerV, id: Seq<char>, e: EntryV) -> ManagerV {
    match entry_at(m.entries, id, 0) {
        Some(i) => ManagerV { entries: m.entries.update(i, e), ..m },
        None => m,
    }
}

/// A session that has just been opened.
pub open spec fn new_entry(
    id: Seq<char>,
    selection: Option<ModelSelectionV>,
    reasoning_level: Option<Seq<char>>,
    mode: ExecMode,
) -> EntryV {
    EntryV {
        id,
        busy: false,
        model_override: selection,
        reasoning_level,
        last_mode: mode,
        queue: Seq::empty(),
    }
}

/// What becomes of a message.
#[derive(Debug)]
pub enum Sending {
    /// There is no such session.
    Missing,
    /// The session is at work; the message waits.
    Waits,
    /// There is no model to send it to.
    NoModel,
    /// A turn begins with it.
    Start { message: Queued, model: ResolvedModel },
}

/// What a `Sending` says.
#[verifier::ext_equal]
pub enum SendingV {
    Missing,
    Waits,
    NoModel,
    Start { message: QueuedV, model: ResolvedV },
}

impl View for Sending {
    type V = SendingV;

    open spec fn view(&self) -> SendingV {
        match self {
            Sending::Missing => SendingV::Missing,
            Sending::Waits => SendingV::Waits,
            Sending::NoModel => SendingV::NoModel,
            Sending::Start { message, model } => SendingV::Start {
                message: message@,
                model: model@,
            },
        }
    }
}

/// What the user is shown of what becomes of a message.
pub open spec fn sending_event(s: SendingV, text: Seq<char>) -> Option<EventV> {
    match s {
        SendingV::Missing => Some(EventV::Error { message: "会话不存在，请先新建或打开"@ }),
        SendingV::Waits => Some(EventV::MessageQueued { text }),
        SendingV::NoModel => Some(
            EventV::Error {
                message: "未配置模型，请在 设置 → 模型设置 中添加供应商和模型"@,
            },
        ),
        SendingV::Start { .. } => None,
    }
}

impl Sending {
    /// Says what the user is shown of what becomes of a message.
    pub fn event(&self, text: &str) -> (r: Option<Event>)
        ensures
            match r {
                Some(e) => sending_event(self@, text@) == Some(e@),
                None => sending_event(self@, text@) is None,
            },
    {
        match self {
            Sending::Missing => Some(
                Event::Error { message: text_from("会话不存在，请先新建或打开") },
            ),
            Sending::Waits => Some(Event::MessageQueued { text: text_from(text) }),
            Sending::NoModel => Some(
                Event::Error {
                    message: text_from(
                        "未配置模型，请在 设置 → 模型设置 中添加供应商和模型",
                    ),
                },
            ),
            Sending::Start { .. } => None,
        }
    }
}

/// A message to a session: it waits where a turn is in flight, else it begins
/// one.
pub open spec fn sent(
    m: ManagerV,
    id: Seq<char>,
    q: QueuedV,
    config: Option<AppConfig>,
) -> (ManagerV, SendingV) {
    match entry_of(m, id) {
        None => (m, SendingV::Missing),
        Some(e) => {
            let heard = EntryV { last_mode: q.mode, ..e };
            if e.busy {
                (
                    with_entry(m, id, EntryV { queue: heard.queue.push(q), ..heard }),
                    SendingV::Waits,
                )
            } else {
                match maybe_resolved(config, e.model_override, e.reasoning_level) {
                    None => (with_entry(m, id, heard), SendingV::NoModel),
                    Some(model) => (
                        with_entry(m, id, EntryV { busy: true, ..heard }),
                        SendingV::Start { message: q, model },
                    ),
                }
            }
        },
    }
}

/// The message with which a finished agent wakes a session: in the mode that
/// the user chose last.
pub open spec fn waking(e: EntryV, content: Seq<char>) -> QueuedV {
    QueuedV { content, files: Seq::empty(), images: Seq::empty(), mode: e.last_mode }
}

/// A session is woken: like a message to it.
pub open spec fn woken(
    m: ManagerV,
    id: Seq<char>,
    content: Seq<char>,
    config: Option<AppConfig>,
) -> (ManagerV, SendingV) {
    match entry_of(m, id) {
        None => (m, SendingV::Missing),
        Some(e) => sent(m, id, waking(e, content), config),
    }
}

/// What follows the end of a turn.
#[derive(Debug)]
pub enum AfterTurn {
    /// The session was deleted; now its record can go.
    DropRecord,
    /// The session rests.
    Rest,
    /// A message that waited begins the next turn.
    Start { message: Queued, model: ResolvedModel },
}

/// What an `AfterTurn` says.
#[verifier::ext_equal]
pub enum AfterTurnV {
    DropRecord,
    Rest,
    Start { message: QueuedV, model: ResolvedV },
}

impl View for AfterTurn {
    type V = AfterTurnV;

    open spec fn view(&self) -> AfterTurnV {
        match self {
            AfterTurn::DropRecord => AfterTurnV::DropRecord,
            AfterTurn::Rest => AfterTurnV::Rest,
            AfterTurn::Start { message, model } => AfterTurnV::Start {
                message: message@,
                model: model@,
            },
        }
    }
}

/// The end of a turn: the first message that waits begins the next one. Where
/// there is no model to send it to, it is dropped.
pub open spec fn turn_over(m: ManagerV, id: Seq<char>, config: Option<AppConfig>) -> (
    ManagerV,
    AfterTurnV,
) {
    if m.deleted.contains(id) {
        (m, AfterTurnV::DropRecord)
    } else {
        match entry_of(m, id) {
            None => (m, AfterTurnV::Rest),
            Some(e) => {
                let idle = EntryV { busy: false, ..e };
                if e.queue.len() == 0 {
                    (with_entry(m, id, idle), AfterTurnV::Rest)
                } else {
                    let q = e.queue[0];
                    let rest = EntryV { queue: e.queue.skip(1), ..idle };
                    match maybe_resolved(config, e.model_override, e.reasoning_level) {
                        None => (with_entry(m, id, rest), AfterTurnV::Rest),
                        Some(model) => (
                            with_entry(m, id, EntryV { busy: true, ..rest }),
                            AfterTurnV::Start { message: q, model },
                        ),
                    }
                }
            },
        }
    }
}

/// The place of the first waiting message of a text, from `i` on.
pub open spec fn waiting_at(v: Seq<QueuedV>, text: Seq<char>, i: int) -> Option<int>
    decreases v.len() - i,
{
    if i < 0 || i >= v.len() {
        None
    } else if v[i].content == text {
        Some(i)
    } else {
        waiting_at(v, text, i + 1)
    }
}

/// The sessions after a waiting message was taken back.
pub open spec fn taken_back(m: ManagerV, id: Seq<char>, text: Seq<char>) -> ManagerV {
    match entry_of(m, id) {
        None => m,
        Some(e) => match waiting_at(e.queue, text, 0) {
            None => m,
            Some(i) => with_entry(m, id, EntryV { queue: e.queue.remove(i), ..e }),
        },
    }
}

/// The sessions after one of them was deleted.
pub open spec fn without_session(m: ManagerV, id: Seq<char>) -> ManagerV {
    ManagerV {
        entries: match entry_at(m.entries, id, 0) {
            Some(i) => m.entries.remove(i),
            None => m.entries,
        },
        deleted: m.deleted.push(id),
        ..m
    }
}

fn find_waiting(v: &[Queued], text: &str) -> (r: Option<usize>)
    ensures
        match r {
            Some(i) => waiting_at(line_says(v@), text@, 0) == Some(i as int) && i < v@.len(),
            None => waiting_at(line_says(v@), text@, 0) is None,
        },
{
    let ghost all = line_says(v@);
    for i in 0..v.len()
        invariant
            all == line_says(v@),
            waiting_at(all, text@, 0) == waiting_at(all, text@, i as int),
    {
        proof {
            assert(all[i as int] == v@[i as int]@);
        }
        if str_eq(v[i].content.as_str(), text) {
            return Some(i);
        }
    }
    None
}

fn find_entry(v: &[Entry], id: &str) -> (r: Option<usize>)
    ensures
        match r {
            Some(i) => entry_at(entries_say(v@), id@, 0) == Some(i as int) && i < v@.len(),
            None => entry_at(entries_say(v@), id@, 0) is None,
        },
{
    let ghost all = entries_say(v@);
    for i in 0..v.len()
        invariant
            all == entries_say(v@),
            entry_at(all, id@, 0) == entry_at(all, id@, i as int),
    {
        proof {
            assert(all[i as int] == v@[i as int]@);
        }
        if str_eq(v[i].id.as_str(), id) {
            return Some(i);
        }
    }
    None
}

proof fn lemma_entry_at(v: Seq<EntryV>, id: Seq<char>, from: int)
    requires
        0 <= from,
    ensures
        match entry_at(v, id, from) {
            Some(i) => from <= i < v.len() && v[i].id == id,
            None => forall|k: int| from <= k < v.len() ==> (#[trigger] v[k]).id != id,
        },
    decreases v.len() - from,
{
    if from < v.len() && v[from].id != id {
        lemma_entry_at(v, id, from + 1);
    }
}

impl Manager {
    /// No sessions.
    pub fn new() -> (r: Self)
        ensures
            r@ == (ManagerV { entries: Seq::empty(), deleted: Seq::empty(), id_counter: 0 }),
            distinct(r@.entries),
    {
        let m = Manager { entries: Vec::new(), deleted: Vec::new(), id_counter: 0 };
        proof {
            assert(entries_say(m.entries@) =~= Seq::<EntryV>::empty());
            assert(texts(m.deleted@) =~= Seq::<Seq<char>>::empty());
        }
        m
    }

    /// Names the next session, and counts it.
    pub fn next_session_id(&mut self, now: u64) -> (r: String)
        ensures
            final(self)@ == (ManagerV {
                id_counter: wrapped(old(self)@.id_counter, 1),
                ..old(self)@
            }),
            r@ == session_name(now, final(self)@.id_counter),
    {
        self.id_counter = wrap_sum(self.id_counter, 1);
        let mut out = chars_of("s");
        push_text(&mut out, number_text(now).as_str());
        push_text(&mut out, "-");
        push_text(&mut out, number_text(self.id_counter).as_str());
        string_of(out.as_slice())
    }

    /// Whether a session is open.
    pub fn is_open(&self, id: &str) -> (r: bool)
        ensures
            r == (entry_of(self@, id@) is Some),
    {
        find_entry(self.entries.as_slice(), id).is_some()
    }

    /// Whether a session is open and at work.
    pub fn is_busy(&self, id: &str) -> (r: bool)
        ensures
            r == (entry_of(self@, id@) matches Some(e) && e.busy),
    {
        match find_entry(self.entries.as_slice(), id) {
            Some(i) => {
                proof {
                    assert(self@.entries[i as int] == self.entries@[i as int]@);
                }
                self.entries[i].busy
            },
            None => false,
        }
    }

    /// Opens a session, as what is kept of it says; without that, with nothing
    /// chosen. A session that is open stays as it is.
    pub fn open(&mut self, id: &str, meta: Option<&SessionMeta>)
        requires
            distinct(old(self)@.entries),
        ensures
            distinct(final(self)@.entries),
            final(self)@ == if entry_of(old(self)@, id@) is Some {
                old(self)@
            } else {
                ManagerV {
                    entries: old(self)@.entries.push(
                        match opt_meta(meta) {
                            Some(m) => new_entry(
                                id@,
                                selection_of(m),
                                m.reasoning_level,
                                m.exec_mode,
                            ),
                            None => new_entry(id@, None, None, ExecMode::ConfirmBeforeEdit),
                        },
                    ),
                    ..old(self)@
                }
            },
    {
        let ghost before = self@;
        proof {
            lemma_entry_at(before.entries, id@, 0);
        }
        if find_entry(self.entries.as_slice(), id).is_some() {
            return;
        }
        let mut e = Entry {
            id: text_from(id),
            busy: false,
            model_override: None,
            reasoning_level: None,
            last_mode: ExecMode::ConfirmBeforeEdit,
            queue: Vec::new(),
        };
        match meta {
            Some(m) => {
                e.model_override = meta_to_selection(m);
                e.reasoning_level = copied_opt(&m.reasoning_level);
                e.last_mode = m.exec_mode;
            },
            None => {},
        }
        proof {
            assert(line_says(e.queue@) =~= Seq::<QueuedV>::empty());
        }
        let ghost ev = e@;
        self.entries.push(e);
        proof {
            assert(entries_say(self.entries@) =~= before.entries.push(ev));
            let now = self@.entries;
            assert forall|i: int, j: int| 0 <= i < j < now.len() implies (#[trigger] now[i]).id != (
            #[trigger] now[j]).id by {
                assert(now[i] == before.entries[i]);
                if j < before.entries.len() {
                    assert(now[j] == before.entries[j]);
                }
            }
        }
    }

    /// Takes a message of the user for a session.
    pub fn send_message(&mut self, id: &str, message: Queued, config: Option<&AppConfig>) -> (r:
        Sending)
        ensures
            (final(self)@, r@) == sent(old(self)@, id@, message@, opt_config(config)),
    {
        let ghost before = self@;
        let i: usize = match find_entry(self.entries.as_slice(), id) {
            Some(i) => i,
            None => return Sending::Missing,
        };
        proof {
            assert(before.entries[i as int] == self.entries@[i as int]@);
        }
        self.entries[i].last_mode = message.mode;
        if self.entries[i].busy {
            let ghost q = line_says(self.entries@[i as int].queue@);
            let ghost mv = message@;
            self.entries[i].queue.push(message);
            proof {
                assert(line_says(self.entries@[i as int].queue@) =~= q.push(mv));
                assert(entries_say(self.entries@) =~= before.entries.update(
                    i as int,
                    self.entries@[i as int]@,
                ));
            }
            return Sending::Waits;
        }
        match try_resolve(config, &self.entries[i]) {
            None => {
                proof {
                    assert(entries_say(self.entries@) =~= before.entries.update(
                        i as int,
                        self.entries@[i as int]@,
                    ));
                }
                Sending::NoModel
            },
            Some(model) => {
                self.entries[i].busy = true;
                proof {
                    assert(entries_say(self.entries@) =~= before.entries.update(
                        i as int,
                        self.entries@[i as int]@,
                    ));
                }
                Sending::Start { message, model }
            },
        }
    }

    /// Wakes a session when an agent in the background is done.
    pub fn wake(&mut self, id: &str, content: String, config: Option<&AppConfig>) -> (r: Sending)
        ensures
            (final(self)@, r@) == woken(old(self)@, id@, content@, opt_config(config)),
    {
        let mode: ExecMode = match find_entry(self.entries.as_slice(), id) {
            Some(i) => {
                proof {
                    assert(self@.entries[i as int] == self.entries@[i as int]@);
                }
                self.entries[i].last_mode
            },
            None => return Sending::Missing,
        };
        let message = Queued { content, files: Vec::new(), images: Vec::new(), mode };
        proof {
            assert(texts(message.files@) =~= Seq::<Seq<char>>::empty());
            assert(pending_images_say(message.images@) =~= Seq::<PendingImageV>::empty());
        }
        self.send_message(id, message, config)
    }

    /// Takes the end of a turn. The first message that waits begins the next.
    pub fn turn_done(&mut self, id: &str, config: Option<&AppConfig>) -> (r: AfterTurn)
        ensures
            (final(self)@, r@) == turn_over(old(self)@, id@, opt_config(config)),
    {
        let ghost before = self@;
        if holds_text(self.deleted.as_slice(), id) {
            return AfterTurn::DropRecord;
        }
        let i: usize = match find_entry(self.entries.as_slice(), id) {
            Some(i) => i,
            None => return AfterTurn::Rest,
        };
        let ghost e0 = self.entries@[i as int]@;
        proof {
            assert(before.entries[i as int] == e0);
            assert(line_says(self.entries@[i as int].queue@).len()
                == self.entries@[i as int].queue@.len());
        }
        self.entries[i].busy = false;
        if self.entries[i].queue.len() == 0 {
            proof {
                assert(entries_say(self.entries@) =~= before.entries.update(
                    i as int,
                    self.entries@[i as int]@,
                ));
            }
            return AfterTurn::Rest;
        }
        let message = self.entries[i].queue.remove(0);
        proof {
            assert(message@ == e0.queue[0]);
            assert(line_says(self.entries@[i as int].queue@) =~= e0.queue.skip(1));
        }
        match try_resolve(config, &self.entries[i]) {
            None => {
                proof {
                    assert(entries_say(self.entries@) =~= before.entries.update(
                        i as int,
                        self.entries@[i as int]@,
                    ));
                }
                AfterTurn::Rest
            },
            Some(model) => {
                self.entries[i].busy = true;
                proof {
                    assert(entries_say(self.entries@) =~= before.entries.update(
                        i as int,
                        self.entries@[i as int]@,
                    ));
                }
                AfterTurn::Start { message, model }
            },
        }
    }

    /// Takes back the first waiting message of a text.
    pub fn cancel_queued(&mut self, id: &str, text: &str)
        ensures
            final(self)@ == taken_back(old(self)@, id@, text@),
    {
        let ghost before = self@;
        let i: usize = match find_entry(self.entries.as_slice(), id) {
            Some(i) => i,
            None => return,
        };
        let ghost e0 = self.entries@[i as int]@;
        proof {
            assert(before.entries[i as int] == e0);
        }
        match find_waiting(self.entries[i].queue.as_slice(), text) {
            Some(k) => {
                let _gone = self.entries[i].queue.remove(k);
                proof {
                    assert(line_says(self.entries@[i as int].queue@) =~= e0.queue.remove(k as int));
                    assert(entries_say(self.entries@) =~= before.entries.update(
                        i as int,
                        self.entries@[i as int]@,
                    ));
                }
            },
            None => {},
        }
    }

    /// Sets the mode that the user chooses. Says whether the session is open,
    /// and whether it rests, so that its own mode changes too.
    pub fn set_exec_mode(&mut self, id: &str, mode: ExecMode) -> (r: Option<bool>)
        ensures
            match entry_of(old(self)@, id@) {
                None => final(self)@ == old(self)@ && r is None,
                Some(e) => final(self)@ == with_entry(
                    old(self)@,
                    id@,
                    EntryV { last_mode: mode, ..e },
                ) && r == Some(!e.busy),
            },
    {
        let ghost before = self@;
        match find_entry(self.entries.as_slice(), id) {
            Some(i) => {
                proof {
                    assert(before.entries[i as int] == self.entries@[i as int]@);
                }
                self.entries[i].last_mode = mode;
                proof {
                    assert(entries_say(self.entries@) =~= before.entries.update(
                        i as int,
                        self.entries@[i as int]@,
                    ));
                }
                Some(!self.entries[i].busy)
            },
            None => None,
        }
    }

    /// Sets the model that the user chooses for a session. Says whether the
    /// session is open.
    pub fn set_model(&mut self, id: &str, selection: ModelSelection) -> (r: bool)
        ensures
            match entry_of(old(self)@, id@) {
                None => final(self)@ == old(self)@ && !r,
                Some(e) => final(self)@ == with_entry(
                    old(self)@,
                    id@,
                    EntryV {
                        model_override: Some(selection@),
                        reasoning_level: selection@.reasoning_level,
                        ..e
                    },
                ) && r,
            },
    {
        let ghost before = self@;
        match find_entry(self.entries.as_slice(), id) {
            Some(i) => {
                proof {
                    assert(before.entries[i as int] == self.entries@[i as int]@);
                }
                self.entries[i].reasoning_level = copied_opt(&selection.reasoning_level);
                self.entries[i].model_override = Some(selection);
                proof {
                    assert(entries_say(self.entries@) =~= before.entries.update(
                        i as int,
                        self.entries@[i as int]@,
                    ));
                }
                true
            },
            None => false,
        }
    }

    /// Sets the reasoning level that the user chooses for a session, whether it
    /// has a model of its own or not. Says whether the session is open.
    pub fn set_reasoning(&mut self, id: &str, level: Option<String>) -> (r: bool)
        ensures
            match entry_of(old(self)@, id@) {
                None => final(self)@ == old(self)@ && !r,
                Some(e) => final(self)@ == with_entry(
                    old(self)@,
                    id@,
                    EntryV {
                        reasoning_level: opt_text(level),
                        model_override: match e.model_override {
                            Some(s) => Some(
                                ModelSelectionV { reasoning_level: opt_text(level), ..s },
                            ),
                            None => None,
                        },
                        ..e
                    },
                ) && r,
            },
    {
        let ghost before = self@;
        match find_entry(self.entries.as_slice(), id) {
            Some(i) => {
                proof {
                    assert(before.entries[i as int] == self.entries@[i as int]@);
                }
                let chosen = copied_opt_model_selection(&self.entries[i].model_override);
                match chosen {
                    Some(s) => {
                        let mut s = s;
                        s.reasoning_level = copied_opt(&level);
                        self.entries[i].model_override = Some(s);
                    },
                    None => {},
                }
                self.entries[i].reasoning_level = level;
                proof {
                    assert(entries_say(self.entries@) =~= before.entries.update(
                        i as int,
                        self.entries@[i as int]@,
                    ));
                }
                true
            },
            None => false,
        }
    }

    /// Deletes a session. Says whether a turn is in flight: it is to be broken
    /// off, and the record goes only when it is over.
    pub fn delete_session(&mut self, id: &str) -> (r: bool)
        ensures
            final(self)@ == without_session(old(self)@, id@),
            r == (entry_of(old(self)@, id@) matches Some(e) && e.busy),
            distinct(old(self)@.entries) ==> distinct(final(self)@.entries) && entry_of(
                final(self)@,
                id@,
            ) is None,
    {
        let ghost before = self@;
        let mut busy = false;
        match find_entry(self.entries.as_slice(), id) {
            Some(i) => {
                proof {
                    assert(before.entries[i as int] == self.entries@[i as int]@);
                }
                let gone = self.entries.remove(i);
                busy = gone.busy;
                proof {
                    assert(entries_say(self.entries@) =~= before.entries.remove(i as int));
                }
            },
            None => {},
        }
        self.deleted.push(text_from(id));
        proof {
            assert(texts(self.deleted@) =~= before.deleted.push(id@));
            lemma_deleted(before, id@);
        }
        busy
    }

    /// Begins to make the conversation of a session shorter: it is at work
    /// then, as in a turn. Gives the model for the summary, where there is
    /// one.
    pub fn begin_compact(&mut self, id: &str, config: Option<&AppConfig>) -> (r: Result<
        Option<ResolvedModel>,
        String,
    >)
        ensures
            match entry_of(old(self)@, id@) {
                Some(e) if !e.busy => final(self)@ == with_entry(
                    old(self)@,
                    id@,
                    EntryV { busy: true, ..e },
                ) && (r matches Ok(model) && opt_resolved(model) == maybe_resolved(
                    opt_config(config),
                    e.model_override,
                    e.reasoning_level,
                )),
                _ => final(self)@ == old(self)@ && (r matches Err(t) && t@
                    == "回合进行中或会话不存在，无法压缩"@),
            },
    {
        let ghost before = self@;
        match find_entry(self.entries.as_slice(), id) {
            Some(i) => {
                proof {
                    assert(before.entries[i as int] == self.entries@[i as int]@);
                }
                if !self.entries[i].busy {
                    let model = try_resolve(config, &self.entries[i]);
                    self.entries[i].busy = true;
                    proof {
                        assert(entries_say(self.entries@) =~= before.entries.update(
                            i as int,
                            self.entries@[i as int]@,
                        ));
                    }
                    return Ok(model);
                }
            },
            None => {},
        }
        Err(text_from("回合进行中或会话不存在，无法压缩"))
    }

    /// Why the changes of a file cannot be undone now.
    pub fn revert_fault(&self, id: &str) -> (r: Option<String>)
        ensures
            opt_text(r) == match entry_of(self@, id@) {
                Some(e) => if e.busy {
                    Some("回合进行中，无法撤销文件"@)
                } else {
                    None
                },
                None => Some("会话不存在"@),
            },
    {
        match find_entry(self.entries.as_slice(), id) {
            Some(i) => {
                proof {
                    assert(self@.entries[i as int] == self.entries@[i as int]@);
                }
                if self.entries[i].busy {
                    Some(text_from("回合进行中，无法撤销文件"))
                } else {
                    None
                }
            },
            None => Some(text_from("会话不存在")),
        }
    }

    /// The model that a session uses now.
    pub fn model_of(&self, id: &str, config: Option<&AppConfig>) -> (r: Option<ResolvedModel>)
        ensures
            opt_resolved(r) == match entry_of(self@, id@) {
                Some(e) => maybe_resolved(
                    opt_config(config),
                    e.model_override,
                    e.reasoning_level,
                ),
                None => None,
            },
    {
        match find_entry(self.entries.as_slice(), id) {
            Some(i) => {
                proof {
                    assert(self@.entries[i as int] == self.entries@[i as int]@);
                }
                try_resolve(config, &self.entries[i])
            },
            None => None,
        }
    }
}

proof fn lemma_deleted(m: ManagerV, id: Seq<char>)
    ensures
        distinct(m.entries) ==> distinct(without_session(m, id).entries) && entry_of(
            without_session(m, id),
            id,
        ) is None,
{
    let now = without_session(m, id).entries;
    lemma_entry_at(m.entries, id, 0);
    lemma_entry_at(now, id, 0);
    if distinct(m.entries) {
        match entry_at(m.entries, id, 0) {
            Some(k) => {
                assert forall|i: int, j: int| 0 <= i < j < now.len() implies (#[trigger] now[i]).id
                    != (#[trigger] now[j]).id by {
                    let a = if i < k {
                        i
                    } else {
                        i + 1
                    };
                    let b = if j < k {
                        j
                    } else {
                        j + 1
                    };
                    assert(now[i] == m.entries[a]);
                    assert(now[j] == m.entries[b]);
                }
                assert forall|i: int| 0 <= i < now.len() implies (#[trigger] now[i]).id != id by {
                    let a = if i < k {
                        i
                    } else {
                        i + 1
                    };
                    assert(now[i] == m.entries[a]);
                    if a < k {
                        assert(m.entries[a].id != m.entries[k].id);
                    } else {
                        assert(m.entries[k].id != m.entries[a].id);
                    }
                }
            },
            None => {},
        }
    }
}

/// What the use of the context is shown as when a session is opened or turned
/// to: nothing where no request was made yet or there is no model.
pub open spec fn usage_event(s: SessionV, model: Option<ResolvedV>) -> Option<EventV> {
    match (s.last_total_tokens, model) {
        (Some(used), Some(m)) => Some(
            EventV::ContextUsage {
                used,
                total: m.context_window,
                cache_read_total: s.cache_read_total,
                input_total: s.input_total,
            },
        ),
        _ => None,
    }
}

/// Says how much of the context a session uses.
pub fn context_usage(session: &Session, model: Option<&ResolvedModel>) -> (r: Option<Event>)
    ensures
        match r {
            Some(e) => usage_event(
                session@,
                match model {
                    Some(m) => Some(m@),
                    None => None,
                },
            ) == Some(e@),
            None => usage_event(
                session@,
                match model {
                    Some(m) => Some(m@),
                    None => None,
                },
            ) is None,
        },
{
    match (session.last_total_tokens, model) {
        (Some(used), Some(m)) => Some(
            Event::ContextUsage {
                used,
                total: m.context_window,
                cache_read_total: session.cache_read_total,
                input_total: session.input_total,
            },
        ),
        _ => None,
    }
}

/// The request with which a provider is tried: its first model, or a made-up
/// one.
pub fn provider_to_test<'a>(config: Option<&'a AppConfig>, id: &str) -> (r: Result<
    (&'a ProviderConfig, String),
    String,
>)
    ensures
        match r {
            Ok((p, model)) => config is Some && (named_at(
                config->0.providers@,
                id@,
                0,
            ) matches Some(i) && *p == config->0.providers@[i]) && model@ == if p.models@.len() > 0 {
                p.models@[0].id@
            } else {
                "ping"@
            },
            Err(e) => e@ == "供应商不存在"@ && (config is None || named_at(
                config->0.providers@,
                id@,
                0,
            ) is None),
        },
{
    match config {
        Some(c) => match find_named(c.providers.as_slice(), id) {
            Some(i) => {
                let p = &c.providers[i];
                let model = if p.models.len() > 0 {
                    p.models[0].id.clone()
                } else {
                    text_from("ping")
                };
                Ok((p, model))
            },
            None => Err(text_from("供应商不存在")),
        },
        None => Err(text_from("供应商不存在")),
    }
}

// ---------------------------------------------------------------------------
// Laws
// ---------------------------------------------------------------------------

proof fn lemma_with_entry(m: ManagerV, id: Seq<char>, e: EntryV)
    requires
        entry_of(m, id) is Some,
        e.id == id,
    ensures
        entry_of(with_entry(m, id, e), id) == Some(e),
        with_entry(m, id, e).deleted == m.deleted,
{
    lemma_entry_at(m.entries, id, 0);
    let i = entry_at(m.entries, id, 0)->0;
    lemma_first(m.entries, id, 0);
    lemma_kept_place(m.entries, id, i, e, 0);
}

proof fn lemma_first(v: Seq<EntryV>, id: Seq<char>, from: int)
    requires
        0 <= from,
    ensures
        match entry_at(v, id, from) {
            Some(i) => forall|k: int| from <= k < i ==> (#[trigger] v[k]).id != id,
            None => true,
        },
    decreases v.len() - from,
{
    if from < v.len() && v[from].id != id {
        lemma_first(v, id, from + 1);
    }
}

proof fn lemma_kept_place(v: Seq<EntryV>, id: Seq<char>, i: int, e: EntryV, from: int)
    requires
        0 <= from <= i < v.len(),
        forall|k: int| from <= k < i ==> (#[trigger] v[k]).id != id,
        e.id == id,
    ensures
        entry_at(v.update(i, e), id, from) == Some(i),
    decreases i - from,
{
    if from < i {
        assert(v[from].id != id);
        lemma_kept_place(v, id, i, e, from + 1);
    }
}

/// A turn begins only for a session that rests, and from then on the session
/// is at work: a session never has two turns at once.
pub proof fn law_one_turn_at_a_time(m: ManagerV, id: Seq<char>, q: QueuedV, config: Option<AppConfig>)
    requires
        sent(m, id, q, config).1 is Start,
    ensures
        entry_of(m, id) matches Some(e) && !e.busy,
        entry_of(sent(m, id, q, config).0, id) matches Some(e) && e.busy,
{
    lemma_entry_at(m.entries, id, 0);
    let e = entry_of(m, id)->0;
    lemma_with_entry(m, id, EntryV { busy: true, last_mode: q.mode, ..e });
}

/// Messages that come while a turn is in flight begin turns in the order in
/// which they came: each goes behind those that wait, and the end of the turn
/// takes the first.
pub proof fn law_messages_wait_in_line(
    m: ManagerV,
    id: Seq<char>,
    q: QueuedV,
    config: Option<AppConfig>,
)
    requires
        entry_of(m, id) is Some,
        entry_of(m, id)->0.busy,
        !m.deleted.contains(id),
        maybe_resolved(
            config,
            entry_of(m, id)->0.model_override,
            entry_of(m, id)->0.reasoning_level,
        ) is Some,
    ensures
        ({
            let waiting = entry_of(m, id)->0.queue;
            let (later, what) = sent(m, id, q, config);
            let (next, then) = turn_over(later, id, config);
            &&& what == SendingV::Waits
            &&& then matches AfterTurnV::Start { message, model } && message == if waiting.len()
                > 0 {
                waiting[0]
            } else {
                q
            }
            &&& entry_of(next, id) is Some
            &&& entry_of(next, id)->0.queue == waiting.push(q).skip(1)
            &&& entry_of(next, id)->0.busy
        }),
{
    lemma_entry_at(m.entries, id, 0);
    let e = entry_of(m, id)->0;
    let heard = EntryV { queue: e.queue.push(q), last_mode: q.mode, ..e };
    lemma_with_entry(m, id, heard);
    let later = sent(m, id, q, config).0;
    lemma_with_entry(later, id, EntryV { queue: heard.queue.skip(1), busy: true, ..heard });
}

/// A session that was deleted never begins a turn: not by a message, not by a
/// finished agent, and not by the end of the turn that was in flight.
pub proof fn law_deleted_stays_silent(
    m: ManagerV,
    id: Seq<char>,
    q: QueuedV,
    content: Seq<char>,
    config: Option<AppConfig>,
)
    requires
        distinct(m.entries),
    ensures
        ({
            let gone = without_session(m, id);
            &&& sent(gone, id, q, config).1 == SendingV::Missing
            &&& woken(gone, id, content, config).1 == SendingV::Missing
            &&& turn_over(gone, id, config) == (gone, AfterTurnV::DropRecord)
        }),
{
    lemma_deleted(m, id);
    let gone = without_session(m, id);
    assert(gone.deleted.last() == id);
    assert(gone.deleted.contains(id));
}

/// What happens to one session leaves the others as they are.
pub proof fn law_sessions_are_apart(
    m: ManagerV,
    id: Seq<char>,
    other: Seq<char>,
    q: QueuedV,
    config: Option<AppConfig>,
)
    requires
        id != other,
    ensures
        entry_of(sent(m, id, q, config).0, other) == entry_of(m, other),
        entry_of(turn_over(m, id, config).0, other) == entry_of(m, other),
{
    lemma_entry_at(m.entries, id, 0);
    match entry_at(m.entries, id, 0) {
        Some(i) => {
            let a = sent(m, id, q, config).0.entries;
            let b = turn_over(m, id, config).0.entries;
            lemma_other(m.entries, a, other, i, 0);
            lemma_other(m.entries, b, other, i, 0);
        },
        None => {},
    }
}

proof fn lemma_other(v: Seq<EntryV>, w: Seq<EntryV>, other: Seq<char>, i: int, from: int)
    requires
        0 <= from,
        0 <= i < v.len(),
        v.len() == w.len(),
        forall|k: int| 0 <= k < v.len() && k != i ==> #[trigger] v[k] == w[k],
        v[i].id != other,
        w[i].id != other,
    ensures
        entry_at(v, other, from) == entry_at(w, other, from),
        entry_at(v, other, from) is Some ==> entry_at(v, other, from) != Some(i)
            && v[entry_at(v, other, from)->0] == w[entry_at(v, other, from)->0],
    decreases v.len() - from,
{
    if from < v.len() {
        if from != i {
            assert(v[from] == w[from]);
        }
        if v[from].id != other {
            lemma_other(v, w, other, i, from + 1);
        }
    }
}

/// A message to a session at rest begins a turn with that very message, on the
/// model that the session has; without a model it begins none.
pub proof fn law_message_begins_its_turn(
    m: ManagerV,
    id: Seq<char>,
    q: QueuedV,
    config: Option<AppConfig>,
)
    requires
        entry_of(m, id) is Some,
        !entry_of(m, id)->0.busy,
    ensures
        ({
            let e = entry_of(m, id)->0;
            let (now, what) = sent(m, id, q, config);
            let model = maybe_resolved(config, e.model_override, e.reasoning_level);
            &&& model matches Some(x) ==> what == (SendingV::Start { message: q, model: x })
                && entry_of(now, id) == Some(EntryV { busy: true, last_mode: q.mode, ..e })
            &&& model is None ==> what == SendingV::NoModel && entry_of(now, id) == Some(
                EntryV { last_mode: q.mode, ..e },
            )
        }),
{
    lemma_entry_at(m.entries, id, 0);
    let e = entry_of(m, id)->0;
    lemma_with_entry(m, id, EntryV { busy: true, last_mode: q.mode, ..e });
    lemma_with_entry(m, id, EntryV { last_mode: q.mode, ..e });
}

/// An agent that is done wakes its session with its own text, in the mode that
/// the user chose last.
pub proof fn law_waking_is_a_message(
    m: ManagerV,
    id: Seq<char>,
    content: Seq<char>,
    config: Option<AppConfig>,
)
    requires
        entry_of(m, id) is Some,
    ensures
        woken(m, id, content, config) == sent(
            m,
            id,
            QueuedV {
                content,
                files: Seq::empty(),
                images: Seq::empty(),
                mode: entry_of(m, id)->0.last_mode,
            },
            config,
        ),
{
}

/// Where no message waits, the end of a turn leaves the session at rest and
/// changes nothing else of it.
pub proof fn law_turn_ends_in_rest(m: ManagerV, id: Seq<char>, config: Option<AppConfig>)
    requires
        entry_of(m, id) is Some,
        entry_of(m, id)->0.queue.len() == 0,
        !m.deleted.contains(id),
    ensures
        turn_over(m, id, config).1 == AfterTurnV::Rest,
        entry_of(turn_over(m, id, config).0, id) == Some(
            EntryV { busy: false, ..entry_of(m, id)->0 },
        ),
{
    lemma_entry_at(m.entries, id, 0);
    lemma_with_entry(m, id, EntryV { busy: false, ..entry_of(m, id)->0 });
}

/// Taking a waiting message back takes the first one with its text out of the
/// line, and no other.
pub proof fn law_message_is_taken_back(m: ManagerV, id: Seq<char>, k: int)
    requires
        entry_of(m, id) is Some,
        0 <= k < entry_of(m, id)->0.queue.len(),
        forall|j: int|
            0 <= j < k ==> (#[trigger] entry_of(m, id)->0.queue[j]).content
                != entry_of(m, id)->0.queue[k].content,
    ensures
        ({
            let e = entry_of(m, id)->0;
            entry_of(taken_back(m, id, e.queue[k].content), id) == Some(
                EntryV { queue: e.queue.take(k) + e.queue.skip(k + 1), ..e },
            )
        }),
{
    lemma_entry_at(m.entries, id, 0);
    let e = entry_of(m, id)->0;
    lemma_waiting_at(e.queue, e.queue[k].content, 0, k);
    assert(e.queue.remove(k) =~= e.queue.take(k) + e.queue.skip(k + 1));
    lemma_with_entry(m, id, EntryV { queue: e.queue.remove(k), ..e });
}

proof fn lemma_waiting_at(v: Seq<QueuedV>, text: Seq<char>, from: int, k: int)
    requires
        0 <= from <= k < v.len(),
        v[k].content == text,
        forall|j: int| from <= j < k ==> (#[trigger] v[j]).content != text,
    ensures
        waiting_at(v, text, from) == Some(k),
    decreases k - from,
{
    if from < k {
        assert(v[from].content != text);
        lemma_waiting_at(v, text, from + 1, k);
    }
}

/// A session that chose a model uses that model at its provider: the address,
/// the key and the format of the provider, the name and the limits of the
/// model, and the parameters of the chosen level.
pub proof fn law_chosen_model_is_used(
    config: AppConfig,
    s: ModelSelectionV,
    default_level: Option<Seq<char>>,
    i: int,
    k: int,
)
    requires
        provider_at(config.providers@, s.provider_id, 0) == Some(i),
        model_at(config.providers@[i].models@, s.model_id, 0) == Some(k),
    ensures
        ({
            let p = config.providers@[i];
            let m = p.models@[k];
            resolved(config, Some(s), default_level) matches Some(e) && e.base_url == p.base_url@
                && e.api_key == p.api_key@ && e.model == m.id@ && e.context_window
                == m.context_window && e.max_output_tokens == m.max_output_tokens && e.api_format
                == p.api_format && e.cap_web_search == m.cap_web_search && e.input_image
                == m.input_image && e.provider_name == p.name@ && e.reasoning_params == (
            match s.reasoning_level {
                Some(l) => level_params(m.reasoning_params@, l),
                None => None,
            })
        }),
{
}

/// What the user changes of a session is changed and nothing else: pinned,
/// archived and the title each by itself; a title that the user gave stays the
/// user's.
pub proof fn law_changes_touch_what_they_name(
    m: SessionMetaV,
    pinned: Option<bool>,
    archived: Option<bool>,
    title: Option<Seq<char>>,
    now: u64,
)
    ensures
        ({
            let c = changed_meta(m, pinned, archived, title, now);
            &&& pinned matches Some(b) ==> c.pinned == b
            &&& pinned is None ==> c.pinned == m.pinned
            &&& archived matches Some(b) ==> c.archived == b
            &&& archived is None ==> c.archived == m.archived
            &&& title matches Some(t) ==> c.title == t && c.title_custom
            &&& title is None ==> c.title == m.title && c.title_custom == m.title_custom
            &&& c.updated_at == now
            &&& c.id == m.id && c.cwd == m.cwd && c.created_at == m.created_at
        }),
{
}

} // verus!
