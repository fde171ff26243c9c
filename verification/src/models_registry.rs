//! What is publicly known of models, by their names.
//!
//! The register is read out of one large JSON document in which many providers
//! list their models. The same model is listed by several of them; what its
//! own maker says counts.

use crate::chars::{
    after_last, behind_last, cat3, chars_of, copied_strings, str_eq, string_of, texts,
};
use crate::json::{
    at, compact_json, down, flag_at, held, held_all, held_members, in_order, items_at, jarr, jnum,
    jobj, json_text, jstr, lemma_held, lemma_in_order, lemma_obj, lemma_set_in_order,
    lemma_set_member, lemma_slot, member, ms, no_members, num_says, number_at, parse_json, put,
    put_item, reads_back, says_all, says_members, set_member, set_members, slot, text_at, u64_in,
    written, Json, JsonV,
};
use crate::order::{lemma_text_le_prefix, text_le};
use vstd::prelude::*;

verus! {

/// Where the document lies.
pub const API_URL: &'static str = "https://models.dev/api.json?type=all";

/// The form in which the register is kept on disk.
pub const CACHE_SCHEMA: u64 = 3;

/// A register that is older is fetched again when it lacks a model.
pub const REFETCH_AFTER_SECS: u64 = 600;

/// What is publicly known of a model.
#[derive(Clone, Debug, PartialEq)]
pub struct ModelRegistryInfo {
    /// The provider and the name that it gives the model.
    pub full_id: String,
    pub context: Option<u64>,
    pub input: Option<u64>,
    pub output: Option<u64>,
    pub reasoning: bool,
    pub reasoning_levels: Vec<String>,
    pub input_modalities: Vec<String>,
    pub structured_output: Option<bool>,
}

/// What a `ModelRegistryInfo` says.
#[verifier::ext_equal]
pub struct ModelRegistryInfoV {
    pub full_id: Seq<char>,
    pub context: Option<u64>,
    pub input: Option<u64>,
    pub output: Option<u64>,
    pub reasoning: bool,
    pub reasoning_levels: Seq<Seq<char>>,
    pub input_modalities: Seq<Seq<char>>,
    pub structured_output: Option<bool>,
}

impl View for ModelRegistryInfo {
    type V = ModelRegistryInfoV;

    open spec fn view(&self) -> ModelRegistryInfoV {
        ModelRegistryInfoV {
            full_id: self.full_id@,
            context: self.context,
            input: self.input,
            output: self.output,
            reasoning: self.reasoning,
            reasoning_levels: texts(self.reasoning_levels@),
            input_modalities: texts(self.input_modalities@),
            structured_output: self.structured_output,
        }
    }
}

impl ModelRegistryInfo {
    /// A value that says the same.
    pub fn copy(&self) -> (r: ModelRegistryInfo)
        ensures
            r@ == self@,
    {
        ModelRegistryInfo {
            full_id: self.full_id.clone(),
            context: self.context,
            input: self.input,
            output: self.output,
            reasoning: self.reasoning,
            reasoning_levels: copied_strings(self.reasoning_levels.as_slice()),
            input_modalities: copied_strings(self.input_modalities.as_slice()),
            structured_output: self.structured_output,
        }
    }
}

/// Whether a provider makes its models itself.
pub open spec fn is_official(pid: Seq<char>) -> bool {
    pid == "openai"@ || pid == "anthropic"@ || pid == "google"@ || pid == "deepseek"@ || pid
        == "alibaba"@ || pid == "moonshot"@ || pid == "zhipu"@ || pid == "xai"@ || pid
        == "minimax"@ || pid == "mistral"@ || pid == "meta"@ || pid == "cohere"@ || pid == "amazon"@
        || pid == "microsoft"@ || pid == "perplexity"@ || pid == "nvidia"@
}

/// Whether a provider makes its models itself.
pub fn official(pid: &str) -> (r: bool)
    ensures
        r == is_official(pid@),
{
    str_eq(pid, "openai") || str_eq(pid, "anthropic") || str_eq(pid, "google") || str_eq(
        pid,
        "deepseek",
    ) || str_eq(pid, "alibaba") || str_eq(pid, "moonshot") || str_eq(pid, "zhipu") || str_eq(
        pid,
        "xai",
    ) || str_eq(pid, "minimax") || str_eq(pid, "mistral") || str_eq(pid, "meta") || str_eq(
        pid,
        "cohere",
    ) || str_eq(pid, "amazon") || str_eq(pid, "microsoft") || str_eq(pid, "perplexity") || str_eq(
        pid,
        "nvidia",
    )
}

// ---------------------------------------------------------------------------
// One model
// ---------------------------------------------------------------------------

/// The texts among some values.
pub open spec fn strings_of(v: Seq<JsonV>) -> Seq<Seq<char>>
    decreases v.len(),
{
    if v.len() == 0 {
        Seq::empty()
    } else {
        match v.last() {
            JsonV::Str(s) => strings_of(v.drop_last()).push(s),
            _ => strings_of(v.drop_last()),
        }
    }
}

/// The texts of a list that may be missing.
pub open spec fn strings_in(v: Option<Seq<JsonV>>) -> Seq<Seq<char>> {
    match v {
        Some(l) => strings_of(l),
        None => Seq::empty(),
    }
}

/// The levels among the reasoning options: the values of those that have
/// steps.
pub open spec fn levels_of(v: Seq<JsonV>) -> Seq<Seq<char>>
    decreases v.len(),
{
    if v.len() == 0 {
        Seq::empty()
    } else {
        let o = v.last();
        let before = levels_of(v.drop_last());
        if text_at(o, "type"@) == Some("effort"@) {
            before + strings_in(items_at(o, "values"@))
        } else {
            before
        }
    }
}

/// What the document says of a model.
pub open spec fn model_info(pid: Seq<char>, mid: Seq<char>, model: JsonV) -> ModelRegistryInfoV {
    let limit = at(model, "limit"@);
    ModelRegistryInfoV {
        full_id: pid + "/"@ + mid,
        context: number_at(limit, "context"@),
        input: number_at(limit, "input"@),
        output: number_at(limit, "output"@),
        reasoning: flag_at(model, "reasoning"@) == Some(true),
        reasoning_levels: match items_at(model, "reasoning_options"@) {
            Some(v) => levels_of(v),
            None => Seq::empty(),
        },
        input_modalities: strings_in(items_at(at(model, "modalities"@), "input"@)),
        structured_output: flag_at(model, "structured_output"@),
    }
}

fn add_strings(out: &mut Vec<String>, v: &[Json])
    ensures
        texts(final(out)@) == texts(old(out)@) + strings_of(says_all(v@)),
{
    let ghost before = texts(out@);
    let ghost all = says_all(v@);
    proof {
        assert(before + strings_of(all.take(0)) =~= before);
    }
    for i in 0..v.len()
        invariant
            all == says_all(v@),
            texts(out@) == before + strings_of(all.take(i as int)),
    {
        let ghost now = texts(out@);
        proof {
            assert(all.take(i as int + 1).drop_last() =~= all.take(i as int));
            assert(all.take(i as int + 1).last() == v@[i as int].says());
        }
        match &v[i] {
            Json::Str(s) => {
                out.push(s.clone());
                proof {
                    assert(texts(out@) =~= now.push(s@));
                    assert(texts(out@) =~= before + strings_of(all.take(i as int + 1)));
                }
            },
            _ => {},
        }
    }
    proof {
        assert(all.take(v@.len() as int) =~= all);
    }
}

fn read_levels(v: &[Json]) -> (r: Vec<String>)
    ensures
        texts(r@) == levels_of(says_all(v@)),
{
    let ghost all = says_all(v@);
    let mut out: Vec<String> = Vec::new();
    proof {
        assert(texts(out@) =~= Seq::<Seq<char>>::empty());
    }
    for i in 0..v.len()
        invariant
            all == says_all(v@),
            texts(out@) == levels_of(all.take(i as int)),
    {
        proof {
            assert(all.take(i as int + 1).drop_last() =~= all.take(i as int));
            assert(all.take(i as int + 1).last() == v@[i as int].says());
            assert(texts(out@) + Seq::<Seq<char>>::empty() =~= texts(out@));
        }
        let stepped = match v[i].str_at("type") {
            Some(t) => str_eq(t.as_str(), "effort"),
            None => false,
        };
        if stepped {
            match v[i].arr_at("values") {
                Some(a) => {
                    add_strings(&mut out, a.as_slice());
                },
                None => {},
            }
        }
    }
    proof {
        assert(all.take(v@.len() as int) =~= all);
    }
    out
}

/// Reads what the document says of a model.
pub fn parse_entry(pid: &str, mid: &str, model: &Json) -> (r: ModelRegistryInfo)
    ensures
        r@ == model_info(pid@, mid@, model.says()),
{
    let limit = down(Some(model), "limit");
    let reasoning = match model.bool_at("reasoning") {
        Some(b) => b,
        None => false,
    };
    let reasoning_levels = match model.arr_at("reasoning_options") {
        Some(v) => read_levels(v.as_slice()),
        None => Vec::new(),
    };
    let mut input_modalities: Vec<String> = Vec::new();
    proof {
        assert(texts(input_modalities@) =~= Seq::<Seq<char>>::empty());
        assert(texts(Seq::<String>::empty()) =~= Seq::<Seq<char>>::empty());
    }
    match down(Some(model), "modalities") {
        Some(m) => {
            match m.arr_at("input") {
                Some(v) => {
                    add_strings(&mut input_modalities, v.as_slice());
                    proof {
                        assert(Seq::<Seq<char>>::empty() + strings_of(says_all(v@)) =~= strings_of(
                            says_all(v@),
                        ));
                    }
                },
                None => {},
            }
        },
        None => {},
    }
    ModelRegistryInfo {
        full_id: cat3(pid, "/", mid),
        context: u64_in(limit, "context"),
        input: u64_in(limit, "input"),
        output: u64_in(limit, "output"),
        reasoning,
        reasoning_levels,
        input_modalities,
        structured_output: model.bool_at("structured_output"),
    }
}

// ---------------------------------------------------------------------------
// The register
// ---------------------------------------------------------------------------

/// What a list of models says.
pub open spec fn infos_say(v: Seq<(String, ModelRegistryInfo)>) -> Seq<
    (Seq<char>, ModelRegistryInfoV),
> {
    v.map_values(|p: (String, ModelRegistryInfo)| (p.0@, p.1@))
}

/// The models of a list by their names, the last of a name counting.
pub open spec fn infos_of(v: Seq<(Seq<char>, ModelRegistryInfoV)>) -> Map<
    Seq<char>,
    ModelRegistryInfoV,
>
    decreases v.len(),
{
    if v.len() == 0 {
        Map::empty()
    } else {
        infos_of(v.drop_last()).insert(v.last().0, v.last().1)
    }
}

/// Models by their bare names.
#[derive(Debug, PartialEq)]
pub struct Registry {
    pub entries: Vec<(String, ModelRegistryInfo)>,
}

impl View for Registry {
    type V = Map<Seq<char>, ModelRegistryInfoV>;

    open spec fn view(&self) -> Map<Seq<char>, ModelRegistryInfoV> {
        infos_of(infos_say(self.entries@))
    }
}

/// The register with the models of a provider, but for those that it has.
pub open spec fn with_models(
    m: Map<Seq<char>, ModelRegistryInfoV>,
    pid: Seq<char>,
    models: Seq<(Seq<char>, JsonV)>,
) -> Map<Seq<char>, ModelRegistryInfoV>
    decreases models.len(),
{
    if models.len() == 0 {
        m
    } else {
        let before = with_models(m, pid, models.drop_last());
        let (mid, model) = models.last();
        let bare = after_last(mid, '/');
        if before.contains_key(bare) {
            before
        } else {
            before.insert(bare, model_info(pid, mid, model))
        }
    }
}

/// The register with the models of the providers that are official, or of
/// those that are not.
pub open spec fn with_providers(
    m: Map<Seq<char>, ModelRegistryInfoV>,
    providers: Seq<(Seq<char>, JsonV)>,
    official: bool,
) -> Map<Seq<char>, ModelRegistryInfoV>
    decreases providers.len(),
{
    if providers.len() == 0 {
        m
    } else {
        let before = with_providers(m, providers.drop_last(), official);
        let (pid, p) = providers.last();
        if is_official(pid) != official {
            before
        } else {
            match member(p, "models"@) {
                Some(JsonV::Obj(models)) => with_models(before, pid, models),
                _ => before,
            }
        }
    }
}

/// The register that a document gives: official providers first. What is no
/// document gives an empty one.
pub open spec fn register_of(root: Option<JsonV>) -> Map<Seq<char>, ModelRegistryInfoV> {
    match root {
        Some(JsonV::Obj(providers)) => with_providers(
            with_providers(Map::empty(), providers, true),
            providers,
            false,
        ),
        _ => Map::empty(),
    }
}

impl Registry {
    /// A register of nothing.
    pub fn new() -> (r: Self)
        ensures
            r@ == Map::<Seq<char>, ModelRegistryInfoV>::empty(),
    {
        let r = Registry { entries: Vec::new() };
        proof {
            assert(infos_say(r.entries@) =~= Seq::<(Seq<char>, ModelRegistryInfoV)>::empty());
        }
        r
    }

    /// Whether the register holds nothing.
    pub fn is_empty(&self) -> (r: bool)
        ensures
            r == (self@.dom() =~= Set::<Seq<char>>::empty()),
    {
        let n = self.entries.len();
        proof {
            let v = infos_say(self.entries@);
            assert(v.len() == n);
            if n > 0 {
                assert(infos_of(v).contains_key(v.last().0));
            }
        }
        n == 0
    }

    /// What is known of a model.
    pub fn get(&self, id: &str) -> (r: Option<&ModelRegistryInfo>)
        ensures
            match r {
                Some(i) => self@.contains_key(id@) && self@[id@] == i@,
                None => !self@.contains_key(id@),
            },
    {
        let ghost all = infos_say(self.entries@);
        let mut i: usize = self.entries.len();
        proof {
            assert(all.take(i as int) =~= all);
        }
        while i > 0
            invariant
                all == infos_say(self.entries@),
                i <= self.entries@.len(),
                infos_of(all).contains_key(id@) == infos_of(all.take(i as int)).contains_key(id@),
                infos_of(all).contains_key(id@) ==> infos_of(all)[id@] == infos_of(
                    all.take(i as int),
                )[id@],
            decreases i,
        {
            proof {
                assert(all.take(i as int).drop_last() =~= all.take(i as int - 1));
                assert(all.take(i as int).last() == (
                    self.entries@[i as int - 1].0@,
                    self.entries@[i as int - 1].1@,
                ));
            }
            if str_eq(self.entries[i - 1].0.as_str(), id) {
                return Some(&self.entries[i - 1].1);
            }
            i = i - 1;
        }
        None
    }

    /// Enters a model, in place of one of the same name.
    pub fn insert(&mut self, id: String, info: ModelRegistryInfo)
        ensures
            final(self)@ == old(self)@.insert(id@, info@),
    {
        let ghost before = infos_say(self.entries@);
        let ghost p = (id@, info@);
        self.entries.push((id, info));
        proof {
            assert(infos_say(self.entries@) =~= before.push(p));
            assert(before.push(p).drop_last() =~= before);
        }
    }

    fn add_models(&mut self, pid: &str, models: &[(String, Json)])
        ensures
            final(self)@ == with_models(old(self)@, pid@, says_members(models@)),
    {
        let ghost start = self@;
        let ghost all = says_members(models@);
        for i in 0..models.len()
            invariant
                all == says_members(models@),
                self@ == with_models(start, pid@, all.take(i as int)),
        {
            proof {
                assert(all.take(i as int + 1).drop_last() =~= all.take(i as int));
                assert(all.take(i as int + 1).last() == (
                    models@[i as int].0@,
                    models@[i as int].1.says(),
                ));
            }
            let mid = chars_of(models[i].0.as_str());
            let bare = string_of(behind_last(mid.as_slice(), '/'));
            if self.get(bare.as_str()).is_none() {
                let info = parse_entry(pid, models[i].0.as_str(), &models[i].1);
                self.insert(bare, info);
            }
        }
        proof {
            assert(all.take(models@.len() as int) =~= all);
        }
    }

    fn add_providers(&mut self, providers: &[(String, Json)], wanted: bool)
        ensures
            final(self)@ == with_providers(old(self)@, says_members(providers@), wanted),
    {
        let ghost start = self@;
        let ghost all = says_members(providers@);
        for i in 0..providers.len()
            invariant
                all == says_members(providers@),
                self@ == with_providers(start, all.take(i as int), wanted),
        {
            proof {
                assert(all.take(i as int + 1).drop_last() =~= all.take(i as int));
                assert(all.take(i as int + 1).last() == (
                    providers@[i as int].0@,
                    providers@[i as int].1.says(),
                ));
            }
            if official(providers[i].0.as_str()) == wanted {
                match providers[i].1.get("models") {
                    Some(m) => {
                        proof {
                            lemma_obj(*m);
                        }
                        match m {
                            Json::Obj(models) => {
                                self.add_models(providers[i].0.as_str(), models.as_slice());
                            },
                            _ => {},
                        }
                    },
                    None => {},
                }
            }
        }
        proof {
            assert(all.take(providers@.len() as int) =~= all);
        }
    }
}

/// Reads the register out of a document that has been taken apart.
pub fn read_register(root: &Json) -> (r: Registry)
    ensures
        r@ == register_of(Some(root.says())),
{
    let mut out = Registry::new();
    proof {
        lemma_obj(*root);
    }
    match root {
        Json::Obj(providers) => {
            out.add_providers(providers.as_slice(), true);
            out.add_providers(providers.as_slice(), false);
        },
        _ => {},
    }
    out
}

/// Reads the register out of the document. A text that is no JSON gives an
/// empty one.
pub fn parse_api_json(raw: &str) -> (r: Registry)
    ensures
        r@ == register_of(json_text(raw@)),
{
    match parse_json(raw) {
        Some(root) => read_register(&root),
        None => Registry::new(),
    }
}

// ---------------------------------------------------------------------------
// The register on disk
// ---------------------------------------------------------------------------

/// A count as JSON; null where there is none.
pub open spec fn count_json(n: Option<u64>) -> JsonV {
    match n {
        Some(k) => num_says(k),
        None => JsonV::Null,
    }
}

/// Texts as JSON.
pub open spec fn strings_json(v: Seq<Seq<char>>) -> JsonV {
    JsonV::Arr(v.map_values(|s: Seq<char>| JsonV::Str(s)))
}

/// A model as JSON.
pub open spec fn info_json(i: ModelRegistryInfoV) -> JsonV {
    JsonV::Obj(
        ms().push(("context"@, count_json(i.context))).push(
            ("full_id"@, JsonV::Str(i.full_id)),
        ).push(("input"@, count_json(i.input))).push(
            ("input_modalities"@, strings_json(i.input_modalities)),
        ).push(("output"@, count_json(i.output))).push(
            ("reasoning"@, JsonV::Bool(i.reasoning)),
        ).push(("reasoning_levels"@, strings_json(i.reasoning_levels))).push(
            (
                "structured_output"@,
                match i.structured_output {
                    Some(b) => JsonV::Bool(b),
                    None => JsonV::Null,
                },
            ),
        ),
    )
}

/// A count that may be missing or null; `None` where it is something else.
pub open spec fn opt_count(v: JsonV, key: Seq<char>) -> Option<Option<u64>> {
    match member(v, key) {
        None => Some(None),
        Some(JsonV::Null) => Some(None),
        Some(JsonV::Num(Some(n), _)) => Some(Some(n)),
        _ => None,
    }
}

/// A truth value that may be missing or null; `None` where it is something
/// else.
pub open spec fn opt_flag(v: JsonV, key: Seq<char>) -> Option<Option<bool>> {
    match member(v, key) {
        None => Some(None),
        Some(JsonV::Null) => Some(None),
        Some(JsonV::Bool(b)) => Some(Some(b)),
        _ => None,
    }
}

/// Whether every value is a text.
pub open spec fn all_strings(v: Seq<JsonV>) -> bool {
    forall|k: int| 0 <= k < v.len() ==> (#[trigger] v[k]) is Str
}

/// A list of texts; `None` where it is something else.
pub open spec fn string_list(v: JsonV, key: Seq<char>) -> Option<Seq<Seq<char>>> {
    match items_at(v, key) {
        Some(a) => if all_strings(a) {
            Some(strings_of(a))
        } else {
            None
        },
        None => None,
    }
}

/// The model that JSON writes, if it writes one.
pub open spec fn info_of(v: JsonV) -> Option<ModelRegistryInfoV> {
    match (
        text_at(v, "full_id"@),
        opt_count(v, "context"@),
        opt_count(v, "input"@),
        opt_count(v, "output"@),
        flag_at(v, "reasoning"@),
        string_list(v, "reasoning_levels"@),
        string_list(v, "input_modalities"@),
        opt_flag(v, "structured_output"@),
    ) {
        (
            Some(full_id),
            Some(context),
            Some(input),
            Some(output),
            Some(reasoning),
            Some(reasoning_levels),
            Some(input_modalities),
            Some(structured_output),
        ) => Some(
            ModelRegistryInfoV {
                full_id,
                context,
                input,
                output,
                reasoning,
                reasoning_levels,
                input_modalities,
                structured_output,
            },
        ),
        _ => None,
    }
}

/// The models among members; what is none is passed over.
pub open spec fn infos_in(v: Seq<(Seq<char>, JsonV)>) -> Seq<(Seq<char>, ModelRegistryInfoV)>
    decreases v.len(),
{
    if v.len() == 0 {
        Seq::empty()
    } else {
        match info_of(v.last().1) {
            Some(i) => infos_in(v.drop_last()).push((v.last().0, i)),
            None => infos_in(v.drop_last()),
        }
    }
}

/// What is kept on disk of a register that was fetched at a time.
pub open spec fn cache_json(
    fetched_at: u64,
    v: Seq<(Seq<char>, ModelRegistryInfoV)>,
) -> JsonV {
    JsonV::Obj(
        ms().push(("fetched_at"@, num_says(fetched_at))).push(
            (
                "models"@,
                JsonV::Obj(
                    v.map_values(|p: (Seq<char>, ModelRegistryInfoV)| (p.0, info_json(p.1))),
                ),
            ),
        ).push(("schema"@, num_says(CACHE_SCHEMA))),
    )
}

/// The register that is kept on disk, and when it was fetched; none where the
/// form is another or something is missing.
pub open spec fn cached(v: JsonV) -> Option<(u64, Seq<(Seq<char>, ModelRegistryInfoV)>)> {
    if number_at(v, "schema"@) != Some(CACHE_SCHEMA) {
        None
    } else {
        match (number_at(v, "fetched_at"@), member(v, "models"@)) {
            (Some(t), Some(JsonV::Obj(m))) => Some((t, infos_in(m))),
            _ => None,
        }
    }
}

fn count_to_json(n: Option<u64>) -> (r: Json)
    ensures
        r.says() == count_json(n),
{
    match n {
        Some(k) => jnum(k),
        None => Json::Null,
    }
}

fn strings_to_json(v: &[String]) -> (r: Json)
    ensures
        r.says() == strings_json(texts(v@)),
{
    let ghost want = texts(v@).map_values(|s: Seq<char>| JsonV::Str(s));
    let mut out: Vec<Json> = Vec::new();
    proof {
        assert(says_all(out@) =~= want.take(0));
    }
    for i in 0..v.len()
        invariant
            want == texts(v@).map_values(|s: Seq<char>| JsonV::Str(s)),
            says_all(out@) == want.take(i as int),
    {
        put_item(&mut out, jstr(v[i].as_str()));
        proof {
            assert(want.take(i as int + 1) =~= want.take(i as int).push(want[i as int]));
        }
    }
    proof {
        assert(want.take(v@.len() as int) =~= want);
    }
    jarr(out)
}

fn info_to_json(i: &ModelRegistryInfo) -> (r: Json)
    ensures
        r.says() == info_json(i@),
{
    let mut m = no_members();
    put(&mut m, "context", count_to_json(i.context));
    put(&mut m, "full_id", jstr(i.full_id.as_str()));
    put(&mut m, "input", count_to_json(i.input));
    put(&mut m, "input_modalities", strings_to_json(i.input_modalities.as_slice()));
    put(&mut m, "output", count_to_json(i.output));
    put(&mut m, "reasoning", Json::Bool(i.reasoning));
    put(&mut m, "reasoning_levels", strings_to_json(i.reasoning_levels.as_slice()));
    put(
        &mut m,
        "structured_output",
        match i.structured_output {
            Some(b) => Json::Bool(b),
            None => Json::Null,
        },
    );
    jobj(m)
}

/// Makes the tree of what is kept on disk of a register.
pub fn cache_value(fetched_at: u64, index: &Registry) -> (r: Json)
    ensures
        r.says() == cache_json(fetched_at, infos_say(index.entries@)),
{
    let ghost want = infos_say(index.entries@).map_values(
        |p: (Seq<char>, ModelRegistryInfoV)| (p.0, info_json(p.1)),
    );
    let mut models = no_members();
    proof {
        assert(ms() =~= want.take(0));
    }
    for i in 0..index.entries.len()
        invariant
            want == infos_say(index.entries@).map_values(
                |p: (Seq<char>, ModelRegistryInfoV)| (p.0, info_json(p.1)),
            ),
            says_members(models@) == want.take(i as int),
    {
        put(
            &mut models,
            index.entries[i].0.as_str(),
            info_to_json(&index.entries[i].1),
        );
        proof {
            assert(want.take(i as int + 1) =~= want.take(i as int).push(want[i as int]));
        }
    }
    proof {
        assert(want.take(index.entries@.len() as int) =~= want);
    }
    let mut m = no_members();
    put(&mut m, "fetched_at", jnum(fetched_at));
    put(&mut m, "models", jobj(models));
    put(&mut m, "schema", jnum(CACHE_SCHEMA));
    jobj(m)
}

fn read_count(v: &Json, key: &str) -> (r: Option<Option<u64>>)
    ensures
        r == opt_count(v.says(), key@),
{
    match v.get(key) {
        None => Some(None),
        Some(Json::Null) => Some(None),
        Some(Json::Num(n)) => match n.unsigned {
            Some(k) => Some(Some(k)),
            None => None,
        },
        _ => None,
    }
}

fn read_flag(v: &Json, key: &str) -> (r: Option<Option<bool>>)
    ensures
        r == opt_flag(v.says(), key@),
{
    match v.get(key) {
        None => Some(None),
        Some(Json::Null) => Some(None),
        Some(Json::Bool(b)) => Some(Some(*b)),
        _ => None,
    }
}

/// What an optional list of texts says.
pub open spec fn opt_list(v: Option<Vec<String>>) -> Option<Seq<Seq<char>>> {
    match v {
        Some(l) => Some(texts(l@)),
        None => None,
    }
}

fn read_strings(v: &Json, key: &str) -> (r: Option<Vec<String>>)
    ensures
        opt_list(r) == string_list(v.says(), key@),
{
    match v.arr_at(key) {
        None => None,
        Some(a) => {
            let ghost all = says_all(a@);
            proof {
                assert(items_at(v.says(), key@) == Some(all));
            }
            for i in 0..a.len()
                invariant
                    all == says_all(a@),
                    items_at(v.says(), key@) == Some(all),
                    forall|k: int| 0 <= k < i ==> (#[trigger] all[k]) is Str,
            {
                proof {
                    assert(all[i as int] == a@[i as int].says());
                }
                match &a[i] {
                    Json::Str(_) => {},
                    _ => {
                        return None;
                    },
                }
            }
            let mut out: Vec<String> = Vec::new();
            add_strings(&mut out, a.as_slice());
            proof {
                assert(Seq::<Seq<char>>::empty() + strings_of(all) =~= strings_of(all));
                assert(texts(Seq::<String>::empty()) =~= Seq::<Seq<char>>::empty());
            }
            Some(out)
        },
    }
}

fn read_info(v: &Json) -> (r: Option<ModelRegistryInfo>)
    ensures
        match r {
            Some(i) => info_of(v.says()) == Some(i@),
            None => info_of(v.says()) is None,
        },
{
    match (
        v.str_at("full_id"),
        read_count(v, "context"),
        read_count(v, "input"),
        read_count(v, "output"),
        v.bool_at("reasoning"),
        read_strings(v, "reasoning_levels"),
        read_strings(v, "input_modalities"),
        read_flag(v, "structured_output"),
    ) {
        (
            Some(full_id),
            Some(context),
            Some(input),
            Some(output),
            Some(reasoning),
            Some(reasoning_levels),
            Some(input_modalities),
            Some(structured_output),
        ) => Some(
            ModelRegistryInfo {
                full_id,
                context,
                input,
                output,
                reasoning,
                reasoning_levels,
                input_modalities,
                structured_output,
            },
        ),
        _ => None,
    }
}

/// Takes the register that is kept on disk, and when it was fetched, out of the
/// tree that the text writes. Another form counts as none.
pub fn read_cached(value: &Json) -> (r: Option<(u64, Registry)>)
    ensures
        match r {
            Some((t, index)) => cached(value.says()) == Some((t, infos_say(index.entries@))),
            None => cached(value.says()) is None,
        },
{
    match value.u64_at("schema") {
        Some(n) => {
            if n != CACHE_SCHEMA {
                return None;
            }
        },
        None => {
            return None;
        },
    }
    let fetched_at = match value.u64_at("fetched_at") {
        Some(t) => t,
        None => return None,
    };
    let models = match value.get("models") {
        Some(m) => m,
        None => return None,
    };
    proof {
        lemma_obj(*models);
    }
    match models {
        Json::Obj(m) => {
            let ghost all = says_members(m@);
            let mut entries: Vec<(String, ModelRegistryInfo)> = Vec::new();
            proof {
                assert(infos_say(entries@) =~= Seq::<(Seq<char>, ModelRegistryInfoV)>::empty());
            }
            for i in 0..m.len()
                invariant
                    all == says_members(m@),
                    infos_say(entries@) == infos_in(all.take(i as int)),
            {
                let ghost before = infos_say(entries@);
                proof {
                    assert(all.take(i as int + 1).drop_last() =~= all.take(i as int));
                    assert(all.take(i as int + 1).last() == (
                        m@[i as int].0@,
                        m@[i as int].1.says(),
                    ));
                }
                match read_info(&m[i].1) {
                    Some(info) => {
                        let ghost iv = info@;
                        entries.push((m[i].0.clone(), info));
                        proof {
                            assert(infos_say(entries@) =~= before.push((m@[i as int].0@, iv)));
                        }
                    },
                    None => {},
                }
            }
            proof {
                assert(all.take(m@.len() as int) =~= all);
            }
            Some((fetched_at, Registry { entries }))
        },
        _ => None,
    }
}

/// What is done when a model is looked up.
#[derive(Clone, Copy, Debug, PartialEq, Eq, Structural)]
pub enum Lookup {
    /// The register at hand has it, or is too new to be fetched again.
    Known,
    /// The register is fetched.
    Fetch,
}

/// What is done when a model is looked up: the register is fetched only where
/// the one at hand lacks it and is old.
pub open spec fn lookup_of(has: bool, fetched_at: u64, now: u64) -> Lookup {
    if has || (fetched_at > 0 && now < fetched_at + REFETCH_AFTER_SECS) {
        Lookup::Known
    } else {
        Lookup::Fetch
    }
}

/// Decides what is done when a model is looked up. `at_hand` is the register
/// on disk and when it was fetched.
pub fn lookup(at_hand: Option<&(u64, Registry)>, id: &str, now: u64) -> (r: Lookup)
    ensures
        r == match at_hand {
            Some(p) => lookup_of(p.1@.contains_key(id@), p.0, now),
            None => Lookup::Fetch,
        },
{
    match at_hand {
        Some(p) => {
            if p.1.get(id).is_some() {
                return Lookup::Known;
            }
            let until: u64 = p.0.saturating_add(REFETCH_AFTER_SECS);
            if p.0 > 0 && (now < until || p.0 > u64::MAX - REFETCH_AFTER_SECS) {
                Lookup::Known
            } else {
                Lookup::Fetch
            }
        },
        None => Lookup::Fetch,
    }
}

// ---------------------------------------------------------------------------
// Laws
// ---------------------------------------------------------------------------

proof fn lemma_keys()
    ensures
        "context"@ != "full_id"@,
        "context"@.len() == 7,
        "full_id"@.len() == 7,
        "input"@.len() == 5,
        "input_modalities"@.len() == 16,
        "output"@.len() == 6,
        "reasoning"@.len() == 9,
        "reasoning_levels"@.len() == 16,
        "structured_output"@.len() == 17,
        "input_modalities"@ != "reasoning_levels"@,
        "fetched_at"@.len() == 10,
        "models"@.len() == 6,
        "schema"@.len() == 6,
        "models"@ != "schema"@,
{
    reveal_strlit("context");
    reveal_strlit("full_id");
    reveal_strlit("input");
    reveal_strlit("input_modalities");
    reveal_strlit("output");
    reveal_strlit("reasoning");
    reveal_strlit("reasoning_levels");
    reveal_strlit("structured_output");
    reveal_strlit("fetched_at");
    reveal_strlit("models");
    reveal_strlit("schema");
    assert("context"@[0] == 'c');
    assert("full_id"@[0] == 'f');
    assert("input_modalities"@[0] == 'i');
    assert("reasoning_levels"@[0] == 'r');
    assert("models"@[0] == 'm');
    assert("schema"@[0] == 's');
}

proof fn lemma_strings(v: Seq<Seq<char>>)
    ensures
        all_strings(v.map_values(|s: Seq<char>| JsonV::Str(s))),
        strings_of(v.map_values(|s: Seq<char>| JsonV::Str(s))) == v,
    decreases v.len(),
{
    let w = v.map_values(|s: Seq<char>| JsonV::Str(s));
    if v.len() > 0 {
        lemma_strings(v.drop_last());
        assert(w.drop_last() =~= v.drop_last().map_values(|s: Seq<char>| JsonV::Str(s)));
        assert(strings_of(w) =~= v);
    } else {
        assert(strings_of(w) =~= v);
    }
}

proof fn lemma_info_back(i: ModelRegistryInfoV)
    ensures
        info_of(info_json(i)) == Some(i),
{
    lemma_keys();
    lemma_strings(i.input_modalities);
    lemma_strings(i.reasoning_levels);
    reveal_with_fuel(crate::json::first_named, 9);
    let v = info_json(i);
    assert(text_at(v, "full_id"@) == Some(i.full_id));
    assert(opt_count(v, "context"@) == Some(i.context));
    assert(opt_count(v, "input"@) == Some(i.input));
    assert(opt_count(v, "output"@) == Some(i.output));
    assert(flag_at(v, "reasoning"@) == Some(i.reasoning));
    assert(opt_flag(v, "structured_output"@) == Some(i.structured_output));
    assert(string_list(v, "input_modalities"@) == Some(i.input_modalities));
    assert(string_list(v, "reasoning_levels"@) == Some(i.reasoning_levels));
}

proof fn lemma_infos_back(v: Seq<(Seq<char>, ModelRegistryInfoV)>)
    ensures
        infos_in(v.map_values(|p: (Seq<char>, ModelRegistryInfoV)| (p.0, info_json(p.1)))) == v,
    decreases v.len(),
{
    let w = v.map_values(|p: (Seq<char>, ModelRegistryInfoV)| (p.0, info_json(p.1)));
    if v.len() > 0 {
        lemma_infos_back(v.drop_last());
        lemma_info_back(v.last().1);
        assert(w.drop_last() =~= v.drop_last().map_values(
            |p: (Seq<char>, ModelRegistryInfoV)| (p.0, info_json(p.1)),
        ));
        assert(w.last() == (v.last().0, info_json(v.last().1)));
        assert(infos_in(w) =~= v);
    } else {
        assert(infos_in(w) =~= v);
    }
}

/// The models of a list as members.
pub open spec fn as_members(v: Seq<(Seq<char>, ModelRegistryInfoV)>) -> Seq<(Seq<char>, JsonV)> {
    v.map_values(|p: (Seq<char>, ModelRegistryInfoV)| (p.0, info_json(p.1)))
}

proof fn lemma_strings_held(v: Seq<Seq<char>>)
    ensures
        held(strings_json(v)) == strings_json(v),
        reads_back(strings_json(v), 97),
{
    lemma_held(strings_json(v));
    let a = v.map_values(|s: Seq<char>| JsonV::Str(s));
    assert(held_all(a) =~= a);
    assert forall|k: int| 0 <= k < a.len() implies reads_back(#[trigger] a[k], 96) by {
        assert(a[k] is Str);
    }
}

proof fn lemma_info_held(i: ModelRegistryInfoV)
    ensures
        held(info_json(i)) == info_json(i),
        reads_back(info_json(i), 98),
{
    lemma_strings_held(i.input_modalities);
    lemma_strings_held(i.reasoning_levels);
    reveal_strlit("context");
    reveal_strlit("full_id");
    reveal_strlit("input");
    reveal_strlit("input_modalities");
    reveal_strlit("output");
    reveal_strlit("reasoning");
    reveal_strlit("reasoning_levels");
    reveal_strlit("structured_output");
    assert("input"@ =~= "input_modalities"@.take(5));
    lemma_text_le_prefix("input"@, "input_modalities"@);
    assert("reasoning"@ =~= "reasoning_levels"@.take(9));
    lemma_text_le_prefix("reasoning"@, "reasoning_levels"@);
    lemma_keys();
    let m = info_json(i)->Obj_0;
    assert(m[0].0 == "context"@ && m[1].0 == "full_id"@ && m[2].0 == "input"@);
    assert(m[3].0 == "input_modalities"@ && m[4].0 == "output"@ && m[5].0 == "reasoning"@);
    assert(m[6].0 == "reasoning_levels"@ && m[7].0 == "structured_output"@);
    assert(text_le("context"@, "full_id"@));
    assert(text_le("full_id"@, "input"@));
    assert(text_le("input_modalities"@, "output"@));
    assert(text_le("output"@, "reasoning"@));
    assert(text_le("reasoning_levels"@, "structured_output"@));
    lemma_in_order(m);
    lemma_set_in_order(m);
    lemma_held(info_json(i));
    assert(held_members(m) =~= m);
    assert(m.len() == 8);
    assert forall|k: int| 0 <= k < m.len() implies reads_back((#[trigger] m[k]).1, 97) by {
        assert(k == 0 || k == 1 || k == 2 || k == 3 || k == 4 || k == 5 || k == 6 || k == 7);
    }
}

/// The models of members in order, by their names.
proof fn lemma_infos_of(v: Seq<(Seq<char>, ModelRegistryInfoV)>)
    requires
        in_order(as_members(v)),
    ensures
        forall|k: int|
            0 <= k < v.len() ==> infos_of(v).contains_key((#[trigger] v[k]).0) && infos_of(
                v,
            )[v[k].0] == v[k].1,
        forall|id: Seq<char>| #[trigger]
            infos_of(v).contains_key(id) ==> exists|k: int| 0 <= k < v.len() && v[k].0 == id,
    decreases v.len(),
{
    if v.len() > 0 {
        let d = v.drop_last();
        let n = v.len() - 1;
        assert(as_members(d) =~= as_members(v).drop_last());
        lemma_infos_of(d);
        assert forall|k: int| 0 <= k < v.len() implies infos_of(v).contains_key((#[trigger] v[k]).0)
            && infos_of(v)[v[k].0] == v[k].1 by {
            if k < n {
                assert(d[k] == v[k]);
                assert(as_members(v)[k].0 != as_members(v)[n].0);
            }
        }
        assert forall|id: Seq<char>| #[trigger] infos_of(v).contains_key(id) implies exists|k: int|
            0 <= k < v.len() && v[k].0 == id by {
            if id == v[n].0 {
                assert(v[n].0 == id);
            } else {
                assert(infos_of(d).contains_key(id));
                let k = choose|k: int| 0 <= k < d.len() && d[k].0 == id;
                assert(v[k].0 == id);
            }
        }
    }
}

/// Setting a member that is a model enters the model.
proof fn lemma_enter(
    w: Seq<(Seq<char>, ModelRegistryInfoV)>,
    key: Seq<char>,
    i: ModelRegistryInfoV,
) -> (now: Seq<(Seq<char>, ModelRegistryInfoV)>)
    requires
        in_order(as_members(w)),
    ensures
        set_member(as_members(w), key, info_json(i)) == as_members(now),
        in_order(as_members(now)),
        infos_of(now) == infos_of(w).insert(key, i),
{
    let m = as_members(w);
    lemma_slot(m, key, 0);
    lemma_set_member(m, key, info_json(i));
    let s = slot(m, key, 0);
    let there = s < m.len() && m[s].0 == key;
    let now = if there {
        w.update(s, (key, i))
    } else {
        w.insert(s, (key, i))
    };
    assert(set_member(m, key, info_json(i)) =~= as_members(now));
    lemma_infos_of(w);
    lemma_infos_of(now);
    let before = infos_of(w).insert(key, i);
    assert forall|id: Seq<char>| #[trigger] infos_of(now).contains_key(id) implies before.contains_key(
        id,
    ) && before[id] == infos_of(now)[id] by {
        let k = choose|k: int| 0 <= k < now.len() && now[k].0 == id;
        if id != key {
            let o = if there || k < s {
                k
            } else {
                k - 1
            };
            assert(now[k] == w[o]);
        } else {
            assert(now[s] == (key, i));
        }
    }
    assert forall|id: Seq<char>| #[trigger] before.contains_key(id) implies infos_of(
        now,
    ).contains_key(id) by {
        if id != key {
            let o = choose|o: int| 0 <= o < w.len() && w[o].0 == id;
            let k = if there || o < s {
                o
            } else {
                o + 1
            };
            assert(m[o].0 == w[o].0);
            assert(now[k] == w[o]);
        } else {
            assert(now[s] == (key, i));
        }
    }
    assert(infos_of(now) =~= before);
    now
}

/// The models that the members of a list make in order.
proof fn lemma_ordered(v: Seq<(Seq<char>, ModelRegistryInfoV)>) -> (w: Seq<
    (Seq<char>, ModelRegistryInfoV),
>)
    ensures
        set_members(ms(), as_members(v)) == as_members(w),
        in_order(as_members(w)),
        infos_of(w) == infos_of(v),
    decreases v.len(),
{
    if v.len() == 0 {
        assert(as_members(v) =~= ms());
        v
    } else {
        let d = lemma_ordered(v.drop_last());
        assert(as_members(v).drop_last() =~= as_members(v.drop_last()));
        lemma_enter(d, v.last().0, v.last().1)
    }
}

/// What is kept on disk of a register is read back: the time, and the same
/// models.
pub proof fn law_cache_text_reads_back(fetched_at: u64, v: Seq<(Seq<char>, ModelRegistryInfoV)>)
    ensures
        reads_back(held(cache_json(fetched_at, v)), 100),
        match cached(held(cache_json(fetched_at, v))) {
            Some((t, w)) => t == fetched_at && infos_of(w) == infos_of(v),
            None => false,
        },
{
    let w = lemma_ordered(v);
    let j = cache_json(fetched_at, v);
    let m = j->Obj_0;
    let models = as_members(v);
    lemma_keys();
    reveal_strlit("fetched_at");
    reveal_strlit("models");
    reveal_strlit("schema");
    assert(text_le("fetched_at"@, "models"@));
    assert(text_le("models"@, "schema"@));
    assert forall|k: int| 0 <= k < v.len() implies held((#[trigger] models[k]).1) == models[k].1 by {
        lemma_info_held(v[k].1);
    }
    assert(held_members(models) =~= models);
    lemma_held(JsonV::Obj(models));
    assert(held(m[1].1) == JsonV::Obj(as_members(w)));
    lemma_held(j);
    let h = held_members(m);
    assert(h.len() == 3);
    assert(h[0] == ("fetched_at"@, num_says(fetched_at)));
    assert(h[1] == ("models"@, JsonV::Obj(as_members(w))));
    assert(h[2] == ("schema"@, num_says(CACHE_SCHEMA)));
    lemma_in_order(h);
    lemma_set_in_order(h);
    assert(h =~= cache_json(fetched_at, w)->Obj_0);
    assert(held(j) == cache_json(fetched_at, w));
    law_cache_reads_back(fetched_at, w);
    assert forall|k: int| 0 <= k < w.len() implies reads_back(
        (#[trigger] as_members(w)[k]).1,
        98,
    ) by {
        lemma_info_held(w[k].1);
    }
    assert(reads_back(JsonV::Obj(as_members(w)), 99));
    assert forall|k: int| 0 <= k < h.len() implies reads_back((#[trigger] h[k]).1, 99) by {
        assert(k == 0 || k == 1 || k == 2);
    }
}

/// Writes what is kept on disk of a register. The text is read back as it was
/// meant: the time, and the same models.
pub fn save_cache(fetched_at: u64, index: &Registry) -> (r: String)
    ensures
        r@ == compact_json(held(cache_json(fetched_at, infos_say(index.entries@)))),
        match json_text(r@) {
            Some(v) => match cached(v) {
                Some((t, w)) => t == fetched_at && infos_of(w) == index@,
                None => false,
            },
            None => false,
        },
{
    proof {
        law_cache_text_reads_back(fetched_at, infos_say(index.entries@));
    }
    written(&cache_value(fetched_at, index))
}

/// Reads the register that is kept on disk, and when it was fetched. What is no
/// JSON or has another form counts as none.
pub fn load_cache(raw: &str) -> (r: Option<(u64, Registry)>)
    ensures
        match r {
            Some((t, index)) => json_text(raw@) is Some && cached(json_text(raw@)->0) == Some(
                (t, infos_say(index.entries@)),
            ),
            None => json_text(raw@) is None || cached(json_text(raw@)->0) is None,
        },
{
    match parse_json(raw) {
        Some(value) => read_cached(&value),
        None => None,
    }
}

/// What a failed request for the register ends in, after it was made again.
pub fn after_retry(first: &str, second: Result<Registry, String>) -> (r: Result<Registry, String>)
    ensures
        match second {
            Ok(g) => r == Ok::<Registry, String>(g),
            Err(e) => r is Err && r->Err_0@ == first@ + "; 重试: "@ + e@,
        },
{
    match second {
        Ok(g) => Ok(g),
        Err(e) => Err(cat3(first, "; 重试: ", e.as_str())),
    }
}

/// A register that was put on disk is read back as it was, with the time at
/// which it was fetched.
pub proof fn law_cache_reads_back(fetched_at: u64, v: Seq<(Seq<char>, ModelRegistryInfoV)>)
    ensures
        cached(cache_json(fetched_at, v)) == Some((fetched_at, v)),
{
    lemma_keys();
    lemma_infos_back(v);
    reveal_with_fuel(crate::json::first_named, 4);
    let j = cache_json(fetched_at, v);
    assert(number_at(j, "schema"@) == Some(CACHE_SCHEMA));
    assert(number_at(j, "fetched_at"@) == Some(fetched_at));
}

/// What an official provider says of a model is never replaced by what another
/// says.
pub proof fn law_official_wins(providers: Seq<(Seq<char>, JsonV)>, id: Seq<char>)
    requires
        with_providers(Map::empty(), providers, true).contains_key(id),
    ensures
        register_of(Some(JsonV::Obj(providers))).contains_key(id),
        register_of(Some(JsonV::Obj(providers)))[id] == with_providers(
            Map::empty(),
            providers,
            true,
        )[id],
{
    lemma_providers_keep(with_providers(Map::empty(), providers, true), providers, false, id);
}

proof fn lemma_providers_keep(
    m: Map<Seq<char>, ModelRegistryInfoV>,
    providers: Seq<(Seq<char>, JsonV)>,
    official: bool,
    id: Seq<char>,
)
    requires
        m.contains_key(id),
    ensures
        with_providers(m, providers, official).contains_key(id),
        with_providers(m, providers, official)[id] == m[id],
    decreases providers.len(),
{
    if providers.len() > 0 {
        lemma_providers_keep(m, providers.drop_last(), official, id);
        let before = with_providers(m, providers.drop_last(), official);
        match member(providers.last().1, "models"@) {
            Some(JsonV::Obj(models)) => {
                lemma_models_keep(before, providers.last().0, models, id);
            },
            _ => {},
        }
    }
}

proof fn lemma_models_keep(
    m: Map<Seq<char>, ModelRegistryInfoV>,
    pid: Seq<char>,
    models: Seq<(Seq<char>, JsonV)>,
    id: Seq<char>,
)
    requires
        m.contains_key(id),
    ensures
        with_models(m, pid, models).contains_key(id),
        with_models(m, pid, models)[id] == m[id],
    decreases models.len(),
{
    if models.len() > 0 {
        lemma_models_keep(m, pid, models.drop_last(), id);
    }
}

/// The texts of a list are all its values that are texts, in their order.
pub proof fn law_strings_are_all_read(v: Seq<JsonV>)
    ensures
        strings_of(v) == v.filter(|x: JsonV| x is Str).map_values(|x: JsonV| x->Str_0),
    decreases v.len(),
{
    let is_text = |x: JsonV| x is Str;
    let read = |x: JsonV| x->Str_0;
    reveal(Seq::filter);
    if v.len() == 0 {
        assert(v.filter(is_text).map_values(read) =~= Seq::<Seq<char>>::empty());
    } else {
        let front = v.drop_last();
        law_strings_are_all_read(front);
        if is_text(v.last()) {
            assert(v.filter(is_text).map_values(read) =~= front.filter(is_text).map_values(read).push(
                read(v.last()),
            ));
        }
    }
}

/// What the document says of a model is kept, each number and each list in its
/// own place.
pub proof fn law_model_is_read(pid: Seq<char>, mid: Seq<char>, model: JsonV)
    ensures
        ({
            let i = model_info(pid, mid, model);
            &&& i.full_id == pid + seq!['/'] + mid
            &&& i.context == number_at(at(model, "limit"@), "context"@)
            &&& i.input == number_at(at(model, "limit"@), "input"@)
            &&& i.output == number_at(at(model, "limit"@), "output"@)
            &&& i.reasoning <==> flag_at(model, "reasoning"@) == Some(true)
            &&& i.structured_output == flag_at(model, "structured_output"@)
            &&& items_at(at(model, "modalities"@), "input"@) matches Some(l)
                ==> i.input_modalities == l.filter(|x: JsonV| x is Str).map_values(
                |x: JsonV| x->Str_0,
            )
        }),
{
    reveal_strlit("/");
    assert("/"@ =~= seq!['/']);
    match items_at(at(model, "modalities"@), "input"@) {
        Some(l) => {
            law_strings_are_all_read(l);
        },
        None => {},
    }
}

/// A model that the register has is kept as it is, and one that it does not
/// have comes in under its bare name with what the document says of it.
pub proof fn law_first_model_of_a_name_counts(
    m: Map<Seq<char>, ModelRegistryInfoV>,
    pid: Seq<char>,
    models: Seq<(Seq<char>, JsonV)>,
    mid: Seq<char>,
    model: JsonV,
)
    ensures
        ({
            let before = with_models(m, pid, models);
            let now = with_models(m, pid, models.push((mid, model)));
            let bare = after_last(mid, '/');
            &&& before.contains_key(bare) ==> now == before
            &&& !before.contains_key(bare) ==> now == before.insert(
                bare,
                model_info(pid, mid, model),
            )
        }),
{
    assert(models.push((mid, model)).drop_last() =~= models);
}

} // verus!
