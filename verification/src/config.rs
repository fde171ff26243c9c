//! The configuration file: its two forms, and references to environment
//! variables in it.

use crate::chars::{
    cat3, cat5, chars_of, copied, find, find_sub, lemma_find_from, lemma_find_sub_from, opt_text,
    position, position_sub, push_all, push_text, reads, stands_at, str_eq, string_of, text_from, texts,
    trim_end_char, without_end,
};
use crate::json::{lemma_arr, member, parse_toml, toml_text, Json, JsonV};
use crate::paths::{join_path, under};
use crate::prompt::opt_view;
use crate::protocol::{ApiFormat, AppConfig, ModelConfig, ProviderConfig};
use vstd::prelude::*;
use vstd::slice::slice_subrange;

verus! {

/// The context window of a model for which none is given.
pub const DEFAULT_CONTEXT_WINDOW: u64 = 128_000;

/// The output limit of a model for which none is given.
pub const DEFAULT_MAX_OUTPUT_TOKENS: u64 = 8_192;

/// Where the data is kept: the directory that the environment names, or
/// `.pigcode` below the user's directory.
pub open spec fn data_place(
    own: Option<Seq<char>>,
    profile: Option<Seq<char>>,
    home: Option<Seq<char>>,
) -> Seq<char> {
    match (own, profile, home) {
        (Some(d), _, _) => d,
        (None, Some(d), _) => under(d, ".pigcode"@),
        (None, None, Some(d)) => under(d, ".pigcode"@),
        (None, None, None) => under("."@, ".pigcode"@),
    }
}

/// Finds where the data is kept, from what the environment has under
/// `PIG_DATA_DIR`, `USERPROFILE` and `HOME`.
pub fn data_dir(own: Option<&str>, profile: Option<&str>, home: Option<&str>) -> (r: String)
    ensures
        r@ == data_place(opt_view(own), opt_view(profile), opt_view(home)),
{
    match (own, profile, home) {
        (Some(d), _, _) => text_from(d),
        (None, Some(d), _) => join_path(d, ".pigcode"),
        (None, None, Some(d)) => join_path(d, ".pigcode"),
        (None, None, None) => join_path(".", ".pigcode"),
    }
}

/// The configuration file of a data directory.
pub fn default_path(data_dir: &str) -> (r: String)
    ensures
        r@ == under(data_dir@, "config.toml"@),
{
    join_path(data_dir, "config.toml")
}

/// The only provider of a file of the older form.
#[derive(Clone, Debug)]
pub struct LegacyProvider {
    pub base_url: String,
    pub api_key: String,
    pub model: String,
    pub context_window: u64,
    pub max_output_tokens: u64,
}

/// What a `LegacyProvider` says.
#[verifier::ext_equal]
pub struct LegacyProviderV {
    pub base_url: Seq<char>,
    pub api_key: Seq<char>,
    pub model: Seq<char>,
    pub context_window: u64,
    pub max_output_tokens: u64,
}

impl View for LegacyProvider {
    type V = LegacyProviderV;

    open spec fn view(&self) -> LegacyProviderV {
        LegacyProviderV {
            base_url: self.base_url@,
            api_key: self.api_key@,
            model: self.model@,
            context_window: self.context_window,
            max_output_tokens: self.max_output_tokens,
        }
    }
}

// ---------------------------------------------------------------------------
// References to the environment
// ---------------------------------------------------------------------------

/// What a list of variables says.
pub open spec fn vars_say(v: Seq<(String, String)>) -> Seq<(Seq<char>, Seq<char>)> {
    v.map_values(|p: (String, String)| (p.0@, p.1@))
}

/// The value of a variable at or after `i`; empty where there is none.
pub open spec fn value_from(env: Seq<(Seq<char>, Seq<char>)>, name: Seq<char>, i: int) -> Seq<char>
    decreases env.len() - i,
{
    if i < 0 || i >= env.len() {
        Seq::empty()
    } else if env[i].0 == name {
        env[i].1
    } else {
        value_from(env, name, i + 1)
    }
}

/// The value of a variable; empty where it is not set.
pub open spec fn value_of(env: Seq<(Seq<char>, Seq<char>)>, name: Seq<char>) -> Seq<char> {
    value_from(env, name, 0)
}

/// The text with its first reference `${name}` replaced by the variable's
/// value; none where the text holds no complete reference.
pub open spec fn expand_step(s: Seq<char>, env: Seq<(Seq<char>, Seq<char>)>) -> Option<Seq<char>> {
    match find_sub(s, "${"@) {
        None => None,
        Some(start) => {
            let rest = s.skip(start);
            match find(rest, '}') {
                None => None,
                Some(end) => Some(
                    s.take(start) + value_of(env, rest.subrange(2, end)) + rest.skip(end + 1),
                ),
            }
        },
    }
}

/// The text after at most `n` replacements.
pub open spec fn expand_steps(s: Seq<char>, env: Seq<(Seq<char>, Seq<char>)>, n: nat) -> Seq<char>
    decreases n,
{
    if n == 0 {
        s
    } else {
        let before = expand_steps(s, env, (n - 1) as nat);
        match expand_step(before, env) {
            Some(t) => t,
            None => before,
        }
    }
}

/// Whether nothing is left to replace after `n` replacements.
pub open spec fn settled_after(s: Seq<char>, env: Seq<(Seq<char>, Seq<char>)>, n: nat) -> bool {
    expand_step(expand_steps(s, env, n), env) is None
}

/// Whether the replacements come to an end. They do not where a variable
/// refers to itself.
pub open spec fn expansion_ends(s: Seq<char>, env: Seq<(Seq<char>, Seq<char>)>) -> bool {
    exists|n: nat| #[trigger] settled_after(s, env, n)
}

/// Whether `t` is the text with all references replaced.
pub open spec fn is_expansion(
    s: Seq<char>,
    env: Seq<(Seq<char>, Seq<char>)>,
    t: Seq<char>,
) -> bool {
    exists|n: nat| #[trigger] settled_after(s, env, n) && t == expand_steps(s, env, n)
}

fn lookup(env: &[(String, String)], name: &[char]) -> (r: String)
    ensures
        r@ == value_of(vars_say(env@), name@),
{
    let ghost all = vars_say(env@);
    let mut i: usize = 0;
    while i < env.len()
        invariant
            all == vars_say(env@),
            i <= env@.len(),
            value_of(all, name@) == value_from(all, name@, i as int),
        decreases env@.len() - i,
    {
        if reads(name, env[i].0.as_str()) {
            return env[i].1.clone();
        }
        i = i + 1;
    }
    proof {
        reveal_strlit("");
        assert(""@ =~= Seq::<char>::empty());
    }
    text_from("")
}

proof fn lemma_reference(s: Seq<char>, start: int, end: int)
    requires
        find_sub(s, "${"@) == Some(start),
        find(s.skip(start), '}') == Some(end),
    ensures
        0 <= start,
        start + 2 <= s.len(),
        2 <= end < s.len() - start,
        s[start + end] == '}',
{
    lemma_find_sub_from(s, "${"@, 0);
    reveal_strlit("${");
    assert("${"@.len() == 2);
    assert(stands_at(s, "${"@, start));
    let rest = s.skip(start);
    lemma_find_from(rest, '}', 0);
    assert(s.subrange(start, start + 2) == "${"@);
    assert(s.subrange(start, start + 2)[0] == '$');
    assert(s.subrange(start, start + 2)[1] == '{');
    assert(rest[0] == '$');
    assert(rest[1] == '{');
}

fn replace_first(s: &[char], env: &[(String, String)]) -> (r: Option<Vec<char>>)
    ensures
        match r {
            Some(t) => expand_step(s@, vars_say(env@)) == Some(t@),
            None => expand_step(s@, vars_say(env@)) is None,
        },
{
    match position_sub(s, "${") {
        None => None,
        Some(start) => {
            proof {
                lemma_find_sub_from(s@, "${"@, 0);
            }
            let rest = slice_subrange(s, start, s.len());
            proof {
                assert(rest@ =~= s@.skip(start as int));
            }
            match position(rest, '}') {
                None => None,
                Some(end) => {
                    proof {
                        lemma_reference(s@, start as int, end as int);
                    }
                    let name = slice_subrange(rest, 2, end);
                    let value = lookup(env, name);
                    let mut out = copied(slice_subrange(s, 0, start));
                    push_text(&mut out, value.as_str());
                    push_all(&mut out, slice_subrange(rest, end + 1, rest.len()));
                    proof {
                        assert(rest@.subrange(end as int + 1, rest@.len() as int) =~= rest@.skip(
                            end as int + 1,
                        ));
                        assert(s@.subrange(0, start as int) =~= s@.take(start as int));
                    }
                    Some(out)
                },
            }
        },
    }
}

/// Replaces every reference `${name}` by the value of that variable, also
/// those that come in with a value. A variable that is not set counts as
/// empty, and a reference without its closing brace stays.
pub fn expand_env(value: &str, env: &[(String, String)]) -> (r: String)
    requires
        expansion_ends(value@, vars_say(env@)),
    ensures
        is_expansion(value@, vars_say(env@), r@),
{
    let ghost e = vars_say(env@);
    let ghost n = choose|n: nat| #[trigger] settled_after(value@, e, n);
    let mut out = chars_of(value);
    let ghost mut k: nat = 0;
    loop
        invariant
            e == vars_say(env@),
            settled_after(value@, e, n),
            out@ == expand_steps(value@, e, k),
            k <= n,
        decreases n - k,
    {
        match replace_first(out.as_slice(), env) {
            Some(t) => {
                proof {
                    assert(k != n);
                    k = k + 1;
                }
                out = t;
            },
            None => {
                proof {
                    assert(settled_after(value@, e, k));
                }
                return string_of(out.as_slice());
            },
        }
    }
}

/// Replaces references as `expand_env` does, but gives up when something is
/// left to replace after `limit` replacements.
pub fn expand_within(value: &str, env: &[(String, String)], limit: u64) -> (r: Option<String>)
    ensures
        match r {
            Some(t) => settled_after(value@, vars_say(env@), limit as nat) && t@ == expand_steps(
                value@,
                vars_say(env@),
                limit as nat,
            ),
            None => !settled_after(value@, vars_say(env@), limit as nat),
        },
{
    let ghost e = vars_say(env@);
    let mut out = chars_of(value);
    let mut k: u64 = 0;
    while k < limit
        invariant
            e == vars_say(env@),
            out@ == expand_steps(value@, e, k as nat),
            k <= limit,
        decreases limit - k,
    {
        match replace_first(out.as_slice(), env) {
            Some(t) => {
                out = t;
                k = k + 1;
            },
            None => {
                proof {
                    assert(settled_after(value@, e, k as nat));
                    lemma_settled(value@, e, k as nat, limit as nat);
                }
                return Some(string_of(out.as_slice()));
            },
        }
    }
    match replace_first(out.as_slice(), env) {
        Some(_t) => None,
        None => Some(string_of(out.as_slice())),
    }
}

proof fn lemma_settled(s: Seq<char>, env: Seq<(Seq<char>, Seq<char>)>, n: nat, m: nat)
    requires
        n <= m,
        settled_after(s, env, n),
    ensures
        settled_after(s, env, m),
        expand_steps(s, env, m) == expand_steps(s, env, n),
    decreases m,
{
    if n < m {
        lemma_settled(s, env, n, (m - 1) as nat);
    }
}

// ---------------------------------------------------------------------------
// The older form of the file
// ---------------------------------------------------------------------------

/// The field at place `i` of a record that is written as a table, by its
/// `key`, or as a list, by its place.
pub open spec fn field(v: JsonV, i: int, key: Seq<char>) -> Option<JsonV> {
    match v {
        JsonV::Arr(a) => if 0 <= i < a.len() {
            Some(a[i])
        } else {
            None
        },
        _ => member(v, key),
    }
}

/// A field that is a text.
pub open spec fn text_field(v: JsonV, i: int, key: Seq<char>) -> Option<Seq<char>> {
    match field(v, i, key) {
        Some(JsonV::Str(s)) => Some(s),
        _ => None,
    }
}

/// A count that may be missing; `None` where it is something else.
pub open spec fn count_or(v: JsonV, i: int, key: Seq<char>, default: u64) -> Option<u64> {
    match field(v, i, key) {
        None => Some(default),
        Some(JsonV::Num(n, _)) => n,
        _ => None,
    }
}

/// The only provider of a file of the older form, if it is of that form: a
/// table, or a list of its fields in order.
pub open spec fn legacy_in(v: JsonV) -> Option<LegacyProviderV> {
    match member(v, "provider"@) {
        None => None,
        Some(p) => match (
            text_field(p, 0, "base_url"@),
            text_field(p, 1, "api_key"@),
            text_field(p, 2, "model"@),
            count_or(p, 3, "context_window"@, DEFAULT_CONTEXT_WINDOW),
            count_or(p, 4, "max_output_tokens"@, DEFAULT_MAX_OUTPUT_TOKENS),
        ) {
            (
                Some(base_url),
                Some(api_key),
                Some(model),
                Some(context_window),
                Some(max_output_tokens),
            ) => Some(
                LegacyProviderV { base_url, api_key, model, context_window, max_output_tokens },
            ),
            _ => None,
        },
    }
}

/// The provider that a text of the older form names.
pub open spec fn legacy_text(raw: Seq<char>) -> Option<LegacyProviderV> {
    match toml_text(raw) {
        Ok(v) => legacy_in(v),
        Err(_) => None,
    }
}

fn read_field<'a>(v: &'a Json, i: usize, key: &str) -> (r: Option<&'a Json>)
    ensures
        match r {
            Some(j) => field(v.says(), i as int, key@) == Some(j.says()),
            None => field(v.says(), i as int, key@) is None,
        },
{
    match v {
        Json::Arr(a) => {
            proof {
                lemma_arr(*v);
            }
            if i < a.len() {
                Some(&a[i])
            } else {
                None
            }
        },
        _ => v.get(key),
    }
}

fn read_text(v: &Json, i: usize, key: &str) -> (r: Option<String>)
    ensures
        opt_text(r) == text_field(v.says(), i as int, key@),
{
    match read_field(v, i, key) {
        Some(Json::Str(s)) => Some(s.clone()),
        _ => None,
    }
}

fn read_count(v: &Json, i: usize, key: &str, default: u64) -> (r: Option<u64>)
    ensures
        r == count_or(v.says(), i as int, key@, default),
{
    match read_field(v, i, key) {
        None => Some(default),
        Some(Json::Num(n)) => n.unsigned,
        _ => None,
    }
}

/// Reads the provider out of a file of the older form.
pub fn read_legacy(raw: &str) -> (r: Option<LegacyProvider>)
    ensures
        match r {
            Some(l) => legacy_text(raw@) == Some(l@),
            None => legacy_text(raw@) is None,
        },
{
    let root = match parse_toml(raw) {
        Ok(v) => v,
        Err(_) => return None,
    };
    let p = match root.get("provider") {
        Some(p) => p,
        None => return None,
    };
    match (
        read_text(p, 0, "base_url"),
        read_text(p, 1, "api_key"),
        read_text(p, 2, "model"),
        read_count(p, 3, "context_window", DEFAULT_CONTEXT_WINDOW),
        read_count(p, 4, "max_output_tokens", DEFAULT_MAX_OUTPUT_TOKENS),
    ) {
        (
            Some(base_url),
            Some(api_key),
            Some(model),
            Some(context_window),
            Some(max_output_tokens),
        ) => Some(
            LegacyProvider { base_url, api_key, model, context_window, max_output_tokens },
        ),
        _ => None,
    }
}

/// Whether a configuration says what one of the older form said: one provider
/// with one model, which is the default.
pub open spec fn is_migration(c: AppConfig, l: LegacyProviderV) -> bool {
    &&& c.default_provider@ == "default"@
    &&& c.default_model@ == l.model
    &&& c.providers@.len() == 1
    &&& {
        let p = c.providers@[0];
        &&& p.id@ == "default"@
        &&& p.name@ == "默认供应商"@
        &&& p.base_url@ == l.base_url
        &&& p.api_key@ == l.api_key
        &&& p.api_format == ApiFormat::OpenAiChat
        &&& p.enabled
        &&& p.models@.len() == 1
        &&& is_plain_model(p.models@[0], l.model, l.context_window, l.max_output_tokens)
    }
}

/// Whether a model has nothing but its limits.
pub open spec fn is_plain_model(
    m: ModelConfig,
    id: Seq<char>,
    context_window: u64,
    max_output_tokens: u64,
) -> bool {
    &&& m.id@ == id
    &&& m.context_window == context_window
    &&& m.max_output_tokens == max_output_tokens
    &&& m.reasoning_params@.len() == 0
    &&& m.reasoning_levels@.len() == 0
    &&& m.default_reasoning_level is None
    &&& !m.cap_web_search
    &&& m.web_search_tool is None
    &&& !m.input_image
}

/// Writes a configuration of the older form in the newer one.
pub fn migrate(legacy: LegacyProvider) -> (r: AppConfig)
    ensures
        is_migration(r, legacy@),
{
    let model = ModelConfig::new(
        legacy.model.as_str(),
        legacy.context_window,
        legacy.max_output_tokens,
    );
    let mut models: Vec<ModelConfig> = Vec::new();
    models.push(model);
    let mut providers: Vec<ProviderConfig> = Vec::new();
    providers.push(
        ProviderConfig {
            id: text_from("default"),
            name: text_from("默认供应商"),
            base_url: legacy.base_url,
            api_key: legacy.api_key,
            api_format: ApiFormat::OpenAiChat,
            enabled: true,
            models,
        },
    );
    AppConfig {
        providers,
        default_provider: text_from("default"),
        default_model: legacy.model,
    }
}

// ---------------------------------------------------------------------------
// Loading
// ---------------------------------------------------------------------------

/// A configuration as it was read. One of the older form is written back.
#[derive(Debug)]
pub struct Loaded {
    pub config: AppConfig,
    pub migrated: bool,
}

/// A configuration without providers.
pub fn no_config() -> (r: AppConfig)
    ensures
        r.providers@.len() == 0,
        r.default_provider@ == ""@,
        r.default_model@ == ""@,
{
    AppConfig {
        providers: Vec::new(),
        default_provider: text_from(""),
        default_model: text_from(""),
    }
}

/// Decides what a file says. `parsed` is what it says in the newer form, if it
/// has that form; without a provider that counts for nothing, and the older
/// form is tried.
pub fn choose_config(raw: &str, path: &str, parsed: Option<AppConfig>) -> (r: Result<
    Loaded,
    String,
>)
    ensures
        match r {
            Ok(l) => if parsed is Some && parsed->0.providers@.len() > 0 {
                l.config == parsed->0 && !l.migrated
            } else {
                l.migrated && legacy_text(raw@) is Some && is_migration(
                    l.config,
                    legacy_text(raw@)->0,
                )
            },
            Err(e) => !(parsed is Some && parsed->0.providers@.len() > 0) && legacy_text(
                raw@,
            ) is None && e@ == "解析配置失败 "@ + path@ + ": 既不是新格式也不是旧格式"@,
        },
{
    match parsed {
        Some(config) => {
            if config.providers.len() > 0 {
                return Ok(Loaded { config, migrated: false });
            }
        },
        None => {},
    }
    match read_legacy(raw) {
        Some(l) => Ok(Loaded { config: migrate(l), migrated: true }),
        None => Err(cat3("解析配置失败 ", path, ": 既不是新格式也不是旧格式")),
    }
}

/// Whether the keys of all providers can be expanded within `limit`
/// replacements.
pub open spec fn keys_settle(
    p: Seq<ProviderConfig>,
    env: Seq<(Seq<char>, Seq<char>)>,
    limit: nat,
) -> bool {
    forall|i: int| 0 <= i < p.len() ==> settled_after((#[trigger] p[i]).api_key@, env, limit)
}

/// Whether `q` is the provider `p` with its key expanded and its address
/// without slashes at the end.
pub open spec fn is_ready(
    p: ProviderConfig,
    q: ProviderConfig,
    env: Seq<(Seq<char>, Seq<char>)>,
    limit: nat,
) -> bool {
    &&& q == (ProviderConfig { api_key: q.api_key, base_url: q.base_url, ..p })
    &&& q.api_key@ == expand_steps(p.api_key@, env, limit)
    &&& q.base_url@ == trim_end_char(p.base_url@, '/')
}

/// Expands the keys of the providers and takes the slashes off the ends of
/// their addresses. Nothing comes back when a key is not settled after `limit`
/// replacements.
pub fn expand_env_keys(config: AppConfig, env: &[(String, String)], limit: u64) -> (r: Option<
    AppConfig,
>)
    ensures
        match r {
            Some(c) => {
                &&& keys_settle(config.providers@, vars_say(env@), limit as nat)
                &&& c.default_provider == config.default_provider
                &&& c.default_model == config.default_model
                &&& c.providers@.len() == config.providers@.len()
                &&& forall|i: int|
                    0 <= i < c.providers@.len() ==> is_ready(
                        config.providers@[i],
                        #[trigger] c.providers@[i],
                        vars_say(env@),
                        limit as nat,
                    )
            },
            None => !keys_settle(config.providers@, vars_say(env@), limit as nat),
        },
{
    let ghost e = vars_say(env@);
    let ghost from = config.providers@;
    let mut c = config;
    let n = c.providers.len();
    for i in 0..n
        invariant
            e == vars_say(env@),
            n == from.len(),
            c.providers@.len() == n,
            c.default_provider == config.default_provider,
            c.default_model == config.default_model,
            from == config.providers@,
            forall|k: int|
                0 <= k < i ==> settled_after((#[trigger] from[k]).api_key@, e, limit as nat),
            forall|k: int|
                0 <= k < i ==> is_ready(from[k], #[trigger] c.providers@[k], e, limit as nat),
            forall|k: int| i <= k < n ==> #[trigger] c.providers@[k] == from[k],
    {
        proof {
            assert(c.providers@[i as int] == from[i as int]);
        }
        let key = match expand_within(c.providers[i].api_key.as_str(), env, limit) {
            Some(k) => k,
            None => return None,
        };
        let base = chars_of(c.providers[i].base_url.as_str());
        let base_url = string_of(without_end(base.as_slice(), '/'));
        c.providers[i].api_key = key;
        c.providers[i].base_url = base_url;
        proof {
            assert(is_ready(from[i as int], c.providers@[i as int], e, limit as nat));
        }
    }
    Some(c)
}

/// Whether an earlier provider has the name of the one at `i`.
pub open spec fn repeats(p: Seq<ProviderConfig>, i: int) -> bool {
    exists|j: int| 0 <= j < i && (#[trigger] p[j]).id@ == p[i].id@
}

/// The warnings about providers whose name an earlier one has, up to `n`.
pub open spec fn warnings(p: Seq<ProviderConfig>, n: int) -> Seq<Seq<char>>
    decreases n,
{
    if n <= 0 {
        Seq::empty()
    } else if repeats(p, n - 1) {
        warnings(p, n - 1).push(
            "[config] 警告：供应商 id 重复 \""@ + p[n - 1].id@ + "\"（"@ + p[n - 1].name@
                + " 与其他供应商共用，请在设置里删掉重建受影响的供应商）"@,
        )
    } else {
        warnings(p, n - 1)
    }
}

/// Warns about each provider whose name an earlier one has: every look-up by
/// name would find the earlier one.
pub fn duplicate_provider_ids(config: &AppConfig) -> (r: Vec<String>)
    ensures
        texts(r@) == warnings(config.providers@, config.providers@.len() as int),
{
    let ghost p = config.providers@;
    let mut out: Vec<String> = Vec::new();
    proof {
        assert(texts(out@) =~= Seq::<Seq<char>>::empty());
    }
    for i in 0..config.providers.len()
        invariant
            p == config.providers@,
            texts(out@) == warnings(p, i as int),
    {
        let mut seen = false;
        for j in 0..i
            invariant
                p == config.providers@,
                i < p.len(),
                seen == (exists|k: int| 0 <= k < j && (#[trigger] p[k]).id@ == p[i as int].id@),
        {
            if str_eq(config.providers[j].id.as_str(), config.providers[i].id.as_str()) {
                seen = true;
                proof {
                    assert(p[j as int].id@ == p[i as int].id@);
                }
            }
        }
        if seen {
            let ghost before = texts(out@);
            let w = cat5(
                "[config] 警告：供应商 id 重复 \"",
                config.providers[i].id.as_str(),
                "\"（",
                config.providers[i].name.as_str(),
                " 与其他供应商共用，请在设置里删掉重建受影响的供应商）",
            );
            let ghost wv = w@;
            out.push(w);
            proof {
                assert(texts(out@) =~= before.push(wv));
            }
        }
    }
    out
}

// ---------------------------------------------------------------------------
// Laws
// ---------------------------------------------------------------------------

/// A text has at most one expansion.
pub proof fn law_one_expansion(
    s: Seq<char>,
    env: Seq<(Seq<char>, Seq<char>)>,
    t: Seq<char>,
    u: Seq<char>,
)
    requires
        is_expansion(s, env, t),
        is_expansion(s, env, u),
    ensures
        t == u,
{
    let n = choose|n: nat| #[trigger] settled_after(s, env, n) && t == expand_steps(s, env, n);
    let m = choose|m: nat| #[trigger] settled_after(s, env, m) && u == expand_steps(s, env, m);
    if n <= m {
        lemma_settled(s, env, n, m);
    } else {
        lemma_settled(s, env, m, n);
    }
}

/// What has been expanded holds no complete reference, so that expanding it
/// again changes nothing.
pub proof fn law_expanded_is_settled(
    s: Seq<char>,
    env: Seq<(Seq<char>, Seq<char>)>,
    t: Seq<char>,
)
    requires
        is_expansion(s, env, t),
    ensures
        expand_step(t, env) is None,
        is_expansion(t, env, t),
{
    assert(expand_steps(t, env, 0) == t);
    assert(settled_after(t, env, 0));
}

/// How often a character occurs.
pub open spec fn count(s: Seq<char>, c: char) -> nat
    decreases s.len(),
{
    if s.len() == 0 {
        0
    } else {
        count(s.drop_last(), c) + if s.last() == c {
            1nat
        } else {
            0nat
        }
    }
}

proof fn lemma_count_cat(a: Seq<char>, b: Seq<char>, c: char)
    ensures
        count(a + b, c) == count(a, c) + count(b, c),
    decreases b.len(),
{
    if b.len() == 0 {
        assert(a + b =~= a);
    } else {
        lemma_count_cat(a, b.drop_last(), c);
        assert((a + b).drop_last() =~= a + b.drop_last());
        assert((a + b).last() == b.last());
    }
}

/// Whether no value of a variable closes a brace.
pub open spec fn no_closing(env: Seq<(Seq<char>, Seq<char>)>) -> bool {
    forall|i: int| 0 <= i < env.len() ==> count((#[trigger] env[i]).1, '}') == 0
}

proof fn lemma_value_plain(env: Seq<(Seq<char>, Seq<char>)>, name: Seq<char>, i: int)
    requires
        no_closing(env),
        0 <= i,
    ensures
        count(value_from(env, name, i), '}') == 0,
    decreases env.len() - i,
{
    if i < env.len() && env[i].0 != name {
        lemma_value_plain(env, name, i + 1);
    }
}

proof fn lemma_step_shrinks(s: Seq<char>, env: Seq<(Seq<char>, Seq<char>)>)
    requires
        no_closing(env),
        expand_step(s, env) is Some,
    ensures
        count(expand_step(s, env)->0, '}') < count(s, '}'),
{
    let start = find_sub(s, "${"@)->0;
    let rest = s.skip(start);
    let end = find(rest, '}')->0;
    lemma_reference(s, start, end);
    let name = rest.subrange(2, end);
    let value = value_of(env, name);
    let tail = rest.skip(end + 1);
    lemma_value_plain(env, name, 0);
    lemma_count_cat(s.take(start), value, '}');
    lemma_count_cat(s.take(start) + value, tail, '}');
    let middle = rest.take(end + 1);
    assert(s =~= s.take(start) + middle + tail);
    lemma_count_cat(s.take(start), middle, '}');
    lemma_count_cat(s.take(start) + middle, tail, '}');
    assert(middle.last() == s[start + end]);
    assert(count(middle, '}') >= 1);
}

proof fn lemma_ends_within(s: Seq<char>, env: Seq<(Seq<char>, Seq<char>)>, n: nat)
    requires
        no_closing(env),
    ensures
        settled_after(s, env, n) || count(expand_steps(s, env, n), '}') + n <= count(s, '}'),
    decreases n,
{
    if n > 0 {
        lemma_ends_within(s, env, (n - 1) as nat);
        let before = expand_steps(s, env, (n - 1) as nat);
        if expand_step(before, env) is Some {
            lemma_step_shrinks(before, env);
        }
    }
}

/// Where no value of a variable holds a closing brace, the replacements come
/// to an end, at the latest when each closing brace of the text is used up.
pub proof fn law_expansion_ends(s: Seq<char>, env: Seq<(Seq<char>, Seq<char>)>)
    requires
        no_closing(env),
    ensures
        settled_after(s, env, count(s, '}')),
        expansion_ends(s, env),
{
    let n = count(s, '}');
    lemma_ends_within(s, env, n);
    if !settled_after(s, env, n) {
        lemma_step_shrinks(expand_steps(s, env, n), env);
    }
}

/// A reference to an environment variable is replaced by the variable's value,
/// and by nothing where there is no such variable; what stands before and
/// behind it is kept.
pub proof fn law_reference_is_replaced(
    a: Seq<char>,
    name: Seq<char>,
    b: Seq<char>,
    env: Seq<(Seq<char>, Seq<char>)>,
    i: int,
)
    requires
        !a.contains('$'),
        !name.contains('}'),
    ensures
        ({
            let s = a + seq!['$', '{'] + name + seq!['}'] + b;
            &&& 0 <= i < env.len() && env[i].0 == name && (forall|j: int|
                0 <= j < i ==> (#[trigger] env[j]).0 != name) ==> expand_step(s, env) == Some(
                a + env[i].1 + b,
            )
            &&& (forall|j: int| 0 <= j < env.len() ==> (#[trigger] env[j]).0 != name)
                ==> expand_step(s, env) == Some(a + b)
        }),
{
    lemma_written_reference(a, name, b, env);
    if 0 <= i < env.len() && env[i].0 == name && (forall|j: int|
        0 <= j < i ==> (#[trigger] env[j]).0 != name) {
        lemma_value_at(env, name, 0, i);
    }
    if forall|j: int| 0 <= j < env.len() ==> (#[trigger] env[j]).0 != name {
        lemma_no_value(env, name, 0);
        assert(a + Seq::<char>::empty() + b =~= a + b);
    }
}

proof fn lemma_written_reference(
    a: Seq<char>,
    name: Seq<char>,
    b: Seq<char>,
    env: Seq<(Seq<char>, Seq<char>)>,
)
    requires
        !a.contains('$'),
        !name.contains('}'),
    ensures
        expand_step(a + seq!['$', '{'] + name + seq!['}'] + b, env) == Some(
            a + value_of(env, name) + b,
        ),
{
    let s = a + seq!['$', '{'] + name + seq!['}'] + b;
    reveal_strlit("${");
    let p = "${"@;
    let n = a.len() as int;
    lemma_first_reference(a, name + seq!['}'] + b);
    assert(s =~= a + seq!['$', '{'] + (name + seq!['}'] + b));
    let rest = s.skip(n);
    let m = 2 + name.len() as int;
    lemma_first_closing(name, b);
    assert(rest =~= seq!['$', '{'] + name + seq!['}'] + b);
    assert(rest.subrange(2, m) =~= name);
    assert(rest.skip(m + 1) =~= b);
    assert(s.take(n) =~= a);
}

proof fn lemma_first_reference(a: Seq<char>, b: Seq<char>)
    requires
        !a.contains('$'),
    ensures
        find_sub(a + seq!['$', '{'] + b, "${"@) == Some(a.len() as int),
{
    let s = a + seq!['$', '{'] + b;
    reveal_strlit("${");
    let p = "${"@;
    crate::chars::lemma_find_sub_from(s, p, 0);
    let n = a.len() as int;
    assert(s.subrange(n, n + 2) =~= p);
    assert(crate::chars::stands_at(s, p, n));
    assert forall|j: int| 0 <= j < n implies !crate::chars::stands_at(s, p, j) by {
        assert(s[j] == a[j]);
        assert(a.contains(a[j]));
        if crate::chars::stands_at(s, p, j) {
            assert(s.subrange(j, j + 2)[0] == s[j]);
            assert(p[0] == '$');
        }
    }
}

proof fn lemma_first_closing(name: Seq<char>, b: Seq<char>)
    requires
        !name.contains('}'),
    ensures
        find(seq!['$', '{'] + name + seq!['}'] + b, '}') == Some(2 + name.len() as int),
{
    let rest = seq!['$', '{'] + name + seq!['}'] + b;
    let m = 2 + name.len() as int;
    crate::chars::lemma_find_from(rest, '}', 0);
    assert(rest[m] == '}');
    assert forall|j: int| 0 <= j < m implies rest[j] != '}' by {
        if j >= 2 {
            assert(rest[j] == name[j - 2]);
            assert(name.contains(name[j - 2]));
        }
    }
}

proof fn lemma_value_at(env: Seq<(Seq<char>, Seq<char>)>, name: Seq<char>, from: int, i: int)
    requires
        0 <= from <= i < env.len(),
        env[i].0 == name,
        forall|j: int| from <= j < i ==> (#[trigger] env[j]).0 != name,
    ensures
        value_from(env, name, from) == env[i].1,
    decreases i - from,
{
    if from < i {
        assert(env[from].0 != name);
        lemma_value_at(env, name, from + 1, i);
    }
}

proof fn lemma_no_value(env: Seq<(Seq<char>, Seq<char>)>, name: Seq<char>, from: int)
    requires
        0 <= from,
        forall|j: int| from <= j < env.len() ==> (#[trigger] env[j]).0 != name,
    ensures
        value_from(env, name, from) == Seq::<char>::empty(),
    decreases env.len() - from,
{
    if from < env.len() {
        assert(env[from].0 != name);
        lemma_no_value(env, name, from + 1);
    }
}

} // verus!
