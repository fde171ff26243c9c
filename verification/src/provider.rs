//! Talking to model providers: the messages of a request, the events of a
//! streamed reply, and when a request is tried again.

use crate::chars::{
    chars_of, copied_opt, decimal, number_of, opt_text, parse_number, push_all, push_text, str_eq, string_of,
    ends_with, finishes, first_chars, prefix, trim_end_char, without_end,
};
use crate::json::{
    at, copied_json, down, field, field_of, jarr, jnum, jobj, json_text, jstr, list_field, list_of,
    ms, no_members, num_says, parse_json, put, put_item, put_members, said, says_all, says_members,
    says_opt, set_members, text_field, text_of, Json, JsonV,
};
use crate::protocol::ApiFormat;
use vstd::prelude::*;

pub use crate::stream::ProviderEvent;

verus! {

// ---------------------------------------------------------------------------
// Models and messages
// ---------------------------------------------------------------------------

/// A model with everything that a request to it needs.
#[derive(Debug)]
pub struct ResolvedModel {
    pub base_url: String,
    pub api_key: String,
    pub model: String,
    pub context_window: u64,
    pub max_output_tokens: u64,
    pub api_format: ApiFormat,
    pub reasoning_params: Option<Json>,
    pub cap_web_search: bool,
    pub web_search_tool: Option<Json>,
    pub input_image: bool,
    pub provider_name: String,
}

/// What a `ResolvedModel` says.
#[verifier::ext_equal]
pub struct ResolvedV {
    pub base_url: Seq<char>,
    pub api_key: Seq<char>,
    pub model: Seq<char>,
    pub context_window: u64,
    pub max_output_tokens: u64,
    pub api_format: ApiFormat,
    pub reasoning_params: Option<JsonV>,
    pub cap_web_search: bool,
    pub web_search_tool: Option<JsonV>,
    pub input_image: bool,
    pub provider_name: Seq<char>,
}

impl View for ResolvedModel {
    type V = ResolvedV;

    open spec fn view(&self) -> ResolvedV {
        ResolvedV {
            base_url: self.base_url@,
            api_key: self.api_key@,
            model: self.model@,
            context_window: self.context_window,
            max_output_tokens: self.max_output_tokens,
            api_format: self.api_format,
            reasoning_params: says_opt(self.reasoning_params),
            cap_web_search: self.cap_web_search,
            web_search_tool: says_opt(self.web_search_tool),
            input_image: self.input_image,
            provider_name: self.provider_name@,
        }
    }
}

impl ResolvedModel {
    /// A model that says the same.
    pub fn copy(&self) -> (r: ResolvedModel)
        ensures
            r@ == self@,
    {
        ResolvedModel {
            base_url: self.base_url.clone(),
            api_key: self.api_key.clone(),
            model: self.model.clone(),
            context_window: self.context_window,
            max_output_tokens: self.max_output_tokens,
            api_format: self.api_format,
            reasoning_params: copied_json(&self.reasoning_params),
            cap_web_search: self.cap_web_search,
            web_search_tool: copied_json(&self.web_search_tool),
            input_image: self.input_image,
            provider_name: self.provider_name.clone(),
        }
    }
}

/// An image that goes into the context with a message.
#[derive(Clone, Debug)]
pub struct ChatImage {
    pub media_type: String,
    pub data_base64: String,
    pub label: Option<String>,
}

/// What a `ChatImage` says.
#[verifier::ext_equal]
pub struct ImageV {
    pub media_type: Seq<char>,
    pub data_base64: Seq<char>,
    pub label: Option<Seq<char>>,
}

impl View for ChatImage {
    type V = ImageV;

    open spec fn view(&self) -> ImageV {
        ImageV {
            media_type: self.media_type@,
            data_base64: self.data_base64@,
            label: opt_text(self.label),
        }
    }
}

/// What a list of images says.
pub open spec fn images_say(v: Seq<ChatImage>) -> Seq<ImageV> {
    v.map_values(|i: ChatImage| i@)
}

impl ChatImage {
    /// An image that says the same.
    pub fn copy(&self) -> (r: ChatImage)
        ensures
            r@ == self@,
    {
        ChatImage {
            media_type: self.media_type.clone(),
            data_base64: self.data_base64.clone(),
            label: copied_opt(&self.label),
        }
    }
}

/// Images that say the same.
pub fn copied_images(v: &[ChatImage]) -> (r: Vec<ChatImage>)
    ensures
        images_say(r@) == images_say(v@),
{
    let mut out: Vec<ChatImage> = Vec::new();
    for i in 0..v.len()
        invariant
            out.len() == i,
            forall|k: int| 0 <= k < i ==> (#[trigger] out@[k])@ == v@[k]@,
    {
        out.push(v[i].copy());
    }
    proof {
        assert(images_say(out@) =~= images_say(v@));
    }
    out
}

/// A call of a tool that the model asks for.
#[derive(Clone, Debug)]
pub struct ToolCall {
    pub id: String,
    pub name: String,
    pub arguments: String,
}

/// What a `ToolCall` says.
#[verifier::ext_equal]
pub struct CallV {
    pub id: Seq<char>,
    pub name: Seq<char>,
    pub arguments: Seq<char>,
}

impl View for ToolCall {
    type V = CallV;

    open spec fn view(&self) -> CallV {
        CallV { id: self.id@, name: self.name@, arguments: self.arguments@ }
    }
}

/// What a list of calls says.
pub open spec fn calls_say(v: Seq<ToolCall>) -> Seq<CallV> {
    v.map_values(|c: ToolCall| c@)
}

/// The call with nothing in it.
pub open spec fn empty_call() -> CallV {
    CallV { id: Seq::empty(), name: Seq::empty(), arguments: Seq::empty() }
}

impl Default for ToolCall {
    fn default() -> (r: Self)
        ensures
            r@ == empty_call(),
    {
        ToolCall { id: String::new(), name: String::new(), arguments: String::new() }
    }
}

/// The function of a call as it stands in a message.
#[derive(Clone, Debug)]
pub struct FunctionWire {
    pub name: String,
    pub arguments: String,
}

/// A call as it stands in a message.
#[derive(Clone, Debug)]
pub struct ToolCallWire {
    pub id: String,
    pub kind: &'static str,
    pub function: FunctionWire,
}

/// What a `ToolCallWire` says.
#[verifier::ext_equal]
pub struct WireV {
    pub id: Seq<char>,
    pub kind: Seq<char>,
    pub name: Seq<char>,
    pub arguments: Seq<char>,
}

impl View for ToolCallWire {
    type V = WireV;

    open spec fn view(&self) -> WireV {
        WireV {
            id: self.id@,
            kind: self.kind@,
            name: self.function.name@,
            arguments: self.function.arguments@,
        }
    }
}

/// What a list of calls in a message says.
pub open spec fn wires_say(v: Seq<ToolCallWire>) -> Seq<WireV> {
    v.map_values(|c: ToolCallWire| c@)
}

/// A call as it stands in a message.
pub open spec fn wire_of(c: CallV) -> WireV {
    WireV { id: c.id, kind: "function"@, name: c.name, arguments: c.arguments }
}

impl ToolCall {
    /// The call as it stands in a message.
    pub fn to_wire(&self) -> (r: ToolCallWire)
        ensures
            r@ == wire_of(self@),
    {
        ToolCallWire {
            id: self.id.clone(),
            kind: "function",
            function: FunctionWire { name: self.name.clone(), arguments: self.arguments.clone() },
        }
    }

    /// A call that says the same.
    pub fn copy(&self) -> (r: ToolCall)
        ensures
            r@ == self@,
    {
        ToolCall {
            id: self.id.clone(),
            name: self.name.clone(),
            arguments: self.arguments.clone(),
        }
    }
}

impl ToolCallWire {
    /// A call that says the same.
    pub fn copy(&self) -> (r: ToolCallWire)
        ensures
            r@ == self@,
    {
        ToolCallWire {
            id: self.id.clone(),
            kind: self.kind,
            function: FunctionWire {
                name: self.function.name.clone(),
                arguments: self.function.arguments.clone(),
            },
        }
    }
}

/// A message of the conversation with a model.
#[derive(Clone, Debug)]
pub struct ChatMsg {
    pub role: String,
    pub content: Option<String>,
    pub tool_calls: Option<Vec<ToolCallWire>>,
    pub tool_call_id: Option<String>,
    pub images: Vec<ChatImage>,
    /// The reasoning of an assistant's message; it goes back to Anthropic
    /// endpoints only.
    pub reasoning: Option<String>,
}

/// What a `ChatMsg` says.
#[verifier::ext_equal]
pub struct MsgV {
    pub role: Seq<char>,
    pub content: Option<Seq<char>>,
    pub tool_calls: Option<Seq<WireV>>,
    pub tool_call_id: Option<Seq<char>>,
    pub images: Seq<ImageV>,
    pub reasoning: Option<Seq<char>>,
}

/// What an optional list of calls says.
pub open spec fn opt_wires(v: Option<Vec<ToolCallWire>>) -> Option<Seq<WireV>> {
    match v {
        Some(l) => Some(wires_say(l@)),
        None => None,
    }
}

impl View for ChatMsg {
    type V = MsgV;

    open spec fn view(&self) -> MsgV {
        MsgV {
            role: self.role@,
            content: opt_text(self.content),
            tool_calls: opt_wires(self.tool_calls),
            tool_call_id: opt_text(self.tool_call_id),
            images: images_say(self.images@),
            reasoning: opt_text(self.reasoning),
        }
    }
}

/// What a conversation says.
pub open spec fn msgs_say(v: Seq<ChatMsg>) -> Seq<MsgV> {
    v.map_values(|m: ChatMsg| m@)
}

/// A message of one role that is only text.
pub open spec fn text_msg(role: Seq<char>, content: Seq<char>) -> MsgV {
    MsgV {
        role,
        content: Some(content),
        tool_calls: None,
        tool_call_id: None,
        images: Seq::empty(),
        reasoning: None,
    }
}

/// A message of the system.
pub open spec fn system_msg(content: Seq<char>) -> MsgV {
    text_msg("system"@, content)
}

/// A message of the user.
pub open spec fn user_msg(content: Seq<char>) -> MsgV {
    text_msg("user"@, content)
}

/// `t`, where it is not empty.
pub open spec fn unless_empty(t: Option<Seq<char>>) -> Option<Seq<char>> {
    match t {
        Some(s) => if s.len() > 0 {
            Some(s)
        } else {
            None
        },
        None => None,
    }
}

/// A message of the assistant: what is empty is absent.
pub open spec fn assistant_msg(
    content: Seq<char>,
    calls: Seq<CallV>,
    reasoning: Option<Seq<char>>,
) -> MsgV {
    MsgV {
        role: "assistant"@,
        content: unless_empty(Some(content)),
        tool_calls: if calls.len() > 0 {
            Some(calls.map_values(|c: CallV| wire_of(c)))
        } else {
            None
        },
        tool_call_id: None,
        images: Seq::empty(),
        reasoning: unless_empty(reasoning),
    }
}

/// The result of a tool call.
pub open spec fn tool_msg(call_id: Seq<char>, output: Seq<char>, images: Seq<ImageV>) -> MsgV {
    MsgV { tool_call_id: Some(call_id), images, ..text_msg("tool"@, output) }
}

impl ChatMsg {
    /// A message of the system.
    pub fn system(content: String) -> (r: Self)
        ensures
            r@ == system_msg(content@),
    {
        let r = ChatMsg {
            role: "system".to_owned(),
            content: Some(content),
            tool_calls: None,
            tool_call_id: None,
            images: Vec::new(),
            reasoning: None,
        };
        proof {
            assert(r@ =~= system_msg(content@));
        }
        r
    }

    /// A message of the user.
    pub fn user(content: String) -> (r: Self)
        ensures
            r@ == user_msg(content@),
    {
        let r = ChatMsg {
            role: "user".to_owned(),
            content: Some(content),
            tool_calls: None,
            tool_call_id: None,
            images: Vec::new(),
            reasoning: None,
        };
        proof {
            assert(r@ =~= user_msg(content@));
        }
        r
    }

    /// A message of the assistant.
    pub fn assistant(content: String, tool_calls: Vec<ToolCall>, reasoning: Option<String>) -> (r:
        Self)
        ensures
            r@ == assistant_msg(content@, calls_say(tool_calls@), opt_text(reasoning)),
    {
        let ghost calls = calls_say(tool_calls@);
        let mut wires: Vec<ToolCallWire> = Vec::new();
        for i in 0..tool_calls.len()
            invariant
                wires.len() == i,
                forall|k: int|
                    0 <= k < i ==> (#[trigger] wires@[k])@ == wire_of(tool_calls@[k]@),
        {
            wires.push(tool_calls[i].to_wire());
        }
        proof {
            assert(wires_say(wires@) =~= calls.map_values(|c: CallV| wire_of(c)));
        }
        let content_kept: Option<String> = if content.as_str().is_empty() {
            None
        } else {
            Some(content)
        };
        let reasoning_kept: Option<String> = match reasoning {
            Some(s) => if s.as_str().is_empty() {
                None
            } else {
                Some(s)
            },
            None => None,
        };
        let r = ChatMsg {
            role: "assistant".to_owned(),
            content: content_kept,
            tool_calls: if tool_calls.len() > 0 {
                Some(wires)
            } else {
                None
            },
            tool_call_id: None,
            images: Vec::new(),
            reasoning: reasoning_kept,
        };
        proof {
            assert(r@ =~= assistant_msg(content@, calls, opt_text(reasoning)));
        }
        r
    }

    /// The result of a tool call.
    pub fn tool_result(call_id: &str, output: String) -> (r: Self)
        ensures
            r@ == tool_msg(call_id@, output@, Seq::empty()),
    {
        let r = ChatMsg {
            role: "tool".to_owned(),
            content: Some(output),
            tool_calls: None,
            tool_call_id: Some(call_id.to_owned()),
            images: Vec::new(),
            reasoning: None,
        };
        proof {
            assert(r@ =~= tool_msg(call_id@, output@, Seq::empty()));
        }
        r
    }

    /// The result of a tool call that has images.
    pub fn tool_result_with_images(call_id: &str, output: String, images: Vec<ChatImage>) -> (r:
        Self)
        ensures
            r@ == tool_msg(call_id@, output@, images_say(images@)),
    {
        let mut r = Self::tool_result(call_id, output);
        r.images = images;
        r
    }

    /// A message that says the same.
    pub fn copy(&self) -> (r: ChatMsg)
        ensures
            r@ == self@,
    {
        let calls: Option<Vec<ToolCallWire>> = match &self.tool_calls {
            Some(l) => {
                let mut out: Vec<ToolCallWire> = Vec::new();
                for i in 0..l.len()
                    invariant
                        out.len() == i,
                        forall|k: int| 0 <= k < i ==> (#[trigger] out@[k])@ == l@[k]@,
                {
                    out.push(l[i].copy());
                }
                proof {
                    assert(wires_say(out@) =~= wires_say(l@));
                }
                Some(out)
            },
            None => None,
        };
        ChatMsg {
            role: self.role.clone(),
            content: copied_opt(&self.content),
            tool_calls: calls,
            tool_call_id: copied_opt(&self.tool_call_id),
            images: copied_images(self.images.as_slice()),
            reasoning: copied_opt(&self.reasoning),
        }
    }
}

/// A conversation that says the same.
pub fn copied_msgs(v: &[ChatMsg]) -> (r: Vec<ChatMsg>)
    ensures
        msgs_say(r@) == msgs_say(v@),
{
    let mut out: Vec<ChatMsg> = Vec::new();
    for i in 0..v.len()
        invariant
            out.len() == i,
            forall|k: int| 0 <= k < i ==> (#[trigger] out@[k])@ == v@[k]@,
    {
        out.push(v[i].copy());
    }
    proof {
        assert(msgs_say(out@) =~= msgs_say(v@));
    }
    out
}

// ---------------------------------------------------------------------------
// Requests in the OpenAI format
// ---------------------------------------------------------------------------

/// A message or image field that is left out where it is absent.
pub open spec fn opt_member(m: Seq<(Seq<char>, JsonV)>, key: Seq<char>, v: Option<Seq<char>>) -> Seq<
    (Seq<char>, JsonV),
> {
    match v {
        Some(s) => m.push((key, JsonV::Str(s))),
        None => m,
    }
}

/// Adds a text member unless it is absent.
fn put_opt(m: &mut Vec<(String, Json)>, key: &str, v: &Option<String>)
    ensures
        says_members(final(m)@) == opt_member(says_members(old(m)@), key@, opt_text(*v)),
{
    match v {
        Some(s) => put(m, key, jstr(s.as_str())),
        None => {},
    }
}

/// An image as a JSON object.
pub open spec fn image_json(i: ImageV) -> JsonV {
    JsonV::Obj(
        opt_member(
            ms().push(("data_base64"@, JsonV::Str(i.data_base64))),
            "label"@,
            i.label,
        ).push(("media_type"@, JsonV::Str(i.media_type))),
    )
}

/// A tool call as a JSON object.
pub open spec fn wire_json(w: WireV) -> JsonV {
    JsonV::Obj(
        ms().push(( "function"@, JsonV::Obj( ms().push(("arguments"@, JsonV::Str(w.arguments))).push(("name"@, JsonV::Str(w.name))), ), )).push(("id"@, JsonV::Str(w.id))).push(("type"@, JsonV::Str(w.kind))),
    )
}

/// A message as a JSON object: its reasoning and what is absent are left out.
pub open spec fn msg_json(m: MsgV) -> JsonV {
    let a = opt_member(ms(), "content"@, m.content);
    let b = if m.images.len() > 0 {
        a.push(("images"@, JsonV::Arr(m.images.map_values(|i: ImageV| image_json(i)))))
    } else {
        a
    };
    let c = opt_member(b.push(("role"@, JsonV::Str(m.role))), "tool_call_id"@, m.tool_call_id);
    JsonV::Obj(
        match m.tool_calls {
            Some(l) => c.push(("tool_calls"@, JsonV::Arr(l.map_values(|w: WireV| wire_json(w))))),
            None => c,
        },
    )
}

fn image_to_json(i: &ChatImage) -> (r: Json)
    ensures
        r.says() == image_json(i@),
{
    let mut m = no_members();
    put(&mut m, "data_base64", jstr(i.data_base64.as_str()));
    put_opt(&mut m, "label", &i.label);
    put(&mut m, "media_type", jstr(i.media_type.as_str()));
    jobj(m)
}

fn wire_to_json(w: &ToolCallWire) -> (r: Json)
    ensures
        r.says() == wire_json(w@),
{
    let mut f = no_members();
    put(&mut f, "arguments", jstr(w.function.arguments.as_str()));
    put(&mut f, "name", jstr(w.function.name.as_str()));
    let mut m = no_members();
    put(&mut m, "function", jobj(f));
    put(&mut m, "id", jstr(w.id.as_str()));
    put(&mut m, "type", jstr(w.kind));
    jobj(m)
}

pub(crate) fn no_items() -> (r: Vec<Json>)
    ensures
        says_all(r@) == Seq::<JsonV>::empty(),
{
    let v: Vec<Json> = Vec::new();
    proof {
        assert(says_all(v@) =~= Seq::<JsonV>::empty());
    }
    v
}

fn images_to_json(v: &[ChatImage]) -> (r: Json)
    ensures
        r.says() == JsonV::Arr(images_say(v@).map_values(|i: ImageV| image_json(i))),
{
    let ghost want = images_say(v@).map_values(|i: ImageV| image_json(i));
    let mut out = no_items();
    for i in 0..v.len()
        invariant
            want == images_say(v@).map_values(|i: ImageV| image_json(i)),
            says_all(out@) == want.take(i as int),
    {
        put_item(&mut out, image_to_json(&v[i]));
        proof {
            assert(want.take(i as int + 1) =~= want.take(i as int).push(want[i as int]));
        }
    }
    proof {
        assert(want.take(v@.len() as int) =~= want);
    }
    jarr(out)
}

/// Writes a message as a JSON object.
pub fn msg_to_json(m: &ChatMsg) -> (r: Json)
    ensures
        r.says() == msg_json(m@),
{
    let mut o = no_members();
    put_opt(&mut o, "content", &m.content);
    proof {
        assert(m@.images.len() == m.images@.len());
    }
    if m.images.len() > 0 {
        put(&mut o, "images", images_to_json(m.images.as_slice()));
    }
    put(&mut o, "role", jstr(m.role.as_str()));
    put_opt(&mut o, "tool_call_id", &m.tool_call_id);
    match &m.tool_calls {
        Some(l) => {
            let ghost want = wires_say(l@).map_values(|w: WireV| wire_json(w));
            let mut out = no_items();
            for i in 0..l.len()
                invariant
                    want == wires_say(l@).map_values(|w: WireV| wire_json(w)),
                    says_all(out@) == want.take(i as int),
            {
                put_item(&mut out, wire_to_json(&l[i]));
                proof {
                    assert(want.take(i as int + 1) =~= want.take(i as int).push(want[i as int]));
                }
            }
            proof {
                assert(want.take(l@.len() as int) =~= want);
            }
            put(&mut o, "tool_calls", jarr(out));
        },
        None => {},
    }
    jobj(o)
}

/// The two parts of a user message that show an image of a tool's result: a
/// caption and the image itself.
pub open spec fn image_parts(v: Seq<ImageV>) -> Seq<JsonV>
    decreases v.len(),
{
    if v.len() == 0 {
        Seq::empty()
    } else {
        let i = v.last();
        let label = match i.label {
            Some(l) => l,
            None => "图片"@,
        };
        image_parts(v.drop_last()).push(
            JsonV::Obj(
                ms().push(("text"@, JsonV::Str("[ReadMediaFile 输出图片: "@ + label + "]"@))).push(("type"@, JsonV::Str("text"@))),
            ),
        ).push(
            JsonV::Obj(
                ms().push(( "image_url"@, JsonV::Obj( ms().push(( "url"@, JsonV::Str( "data:"@ + i.media_type + ";base64,"@ + i.data_base64, ), )), ), )).push(("type"@, JsonV::Str("image_url"@))),
            ),
        )
    }
}

/// A message with a role and a content.
pub open spec fn role_json(role: Seq<char>, content: JsonV) -> JsonV {
    JsonV::Obj(ms().push(("content"@, content)).push(("role"@, JsonV::Str(role))))
}

/// The messages that one message of the conversation becomes: a tool's result
/// with images is split into its text and a user message that shows them.
pub open spec fn openai_one(m: MsgV) -> Seq<JsonV> {
    if m.role == "tool"@ && m.images.len() > 0 {
        seq![
            msg_json(MsgV { images: Seq::empty(), ..m }),
            role_json("user"@, JsonV::Arr(image_parts(m.images))),
        ]
    } else {
        seq![msg_json(m)]
    }
}

/// The messages of a request in the OpenAI format.
pub open spec fn openai_messages(v: Seq<MsgV>) -> Seq<JsonV>
    decreases v.len(),
{
    if v.len() == 0 {
        Seq::empty()
    } else {
        openai_messages(v.drop_last()) + openai_one(v.last())
    }
}

fn image_parts_of(v: &[ChatImage]) -> (r: Vec<Json>)
    ensures
        says_all(r@) == image_parts(images_say(v@)),
{
    let ghost all = images_say(v@);
    let mut parts = no_items();
    for k in 0..v.len()
        invariant
            all == images_say(v@),
            says_all(parts@) == image_parts(all.take(k as int)),
    {
        let img = &v[k];
        proof {
            assert(all.take(k as int + 1).drop_last() =~= all.take(k as int));
            assert(all.take(k as int + 1).last() == img@);
        }
        let mut caption = chars_of("[ReadMediaFile 输出图片: ");
        match &img.label {
            Some(l) => push_text(&mut caption, l.as_str()),
            None => push_text(&mut caption, "图片"),
        }
        push_text(&mut caption, "]");
        let mut t = no_members();
        put(&mut t, "text", Json::Str(string_of(caption.as_slice())));
        put(&mut t, "type", jstr("text"));
        put_item(&mut parts, jobj(t));
        let mut url = chars_of("data:");
        push_text(&mut url, img.media_type.as_str());
        push_text(&mut url, ";base64,");
        push_text(&mut url, img.data_base64.as_str());
        let mut u = no_members();
        put(&mut u, "url", Json::Str(string_of(url.as_slice())));
        let mut p = no_members();
        put(&mut p, "image_url", jobj(u));
        put(&mut p, "type", jstr("image_url"));
        put_item(&mut parts, jobj(p));
    }
    proof {
        assert(all.take(v@.len() as int) =~= all);
    }
    parts
}

fn role_to_json(role: &str, content: Json) -> (r: Json)
    ensures
        r.says() == role_json(role@, content.says()),
{
    let mut m = no_members();
    put(&mut m, "content", content);
    put(&mut m, "role", jstr(role));
    jobj(m)
}

/// Makes the messages of a request in the OpenAI format.
pub fn to_openai_messages(messages: &[ChatMsg]) -> (r: Vec<Json>)
    ensures
        says_all(r@) == openai_messages(msgs_say(messages@)),
{
    let ghost all = msgs_say(messages@);
    let mut out = no_items();
    for i in 0..messages.len()
        invariant
            all == msgs_say(messages@),
            says_all(out@) == openai_messages(all.take(i as int)),
    {
        let msg = &messages[i];
        let ghost before = says_all(out@);
        proof {
            assert(all.take(i as int + 1).drop_last() =~= all.take(i as int));
            assert(all.take(i as int + 1).last() == msg@);
            assert(msg@.images.len() == msg.images@.len());
        }
        if str_eq(msg.role.as_str(), "tool") && msg.images.len() > 0 {
            let mut plain = msg.copy();
            plain.images = Vec::new();
            proof {
                assert(plain@ =~= (MsgV { images: Seq::empty(), ..msg@ }));
            }
            put_item(&mut out, msg_to_json(&plain));
            let parts = image_parts_of(msg.images.as_slice());
            put_item(&mut out, role_to_json("user", jarr(parts)));
        } else {
            put_item(&mut out, msg_to_json(msg));
        }
        proof {
            assert(says_all(out@) =~= before + openai_one(msg@));
        }
    }
    proof {
        assert(all.take(messages@.len() as int) =~= all);
    }
    out
}

/// The search tool that a request in the OpenAI format carries: the configured
/// one, where the model can search.
pub open spec fn openai_search(c: ResolvedV) -> Option<JsonV> {
    if c.cap_web_search {
        c.web_search_tool
    } else {
        None
    }
}

/// The search tool of a request in the OpenAI format. There is no default.
pub fn openai_web_search_tool(config: &ResolvedModel) -> (r: Option<Json>)
    ensures
        says_opt(r) == openai_search(config@),
{
    if !config.cap_web_search {
        return None;
    }
    copied_json(&config.web_search_tool)
}

/// The search tool that a request in the Anthropic format carries, where the
/// model can search: the configured one, else the endpoint's own.
pub open spec fn anthropic_search(c: ResolvedV) -> Option<JsonV> {
    if !c.cap_web_search {
        None
    } else if c.web_search_tool is Some {
        c.web_search_tool
    } else {
        Some(
            JsonV::Obj(
                ms().push(("name"@, JsonV::Str("web_search"@))).push(
                    ("type"@, JsonV::Str("web_search_20250305"@)),
                ),
            ),
        )
    }
}

/// The search tool of a request in the Anthropic format.
pub fn anthropic_web_search_tool(config: &ResolvedModel) -> (r: Option<Json>)
    ensures
        says_opt(r) == anthropic_search(config@),
{
    if !config.cap_web_search {
        return None;
    }
    match &config.web_search_tool {
        Some(t) => Some(t.copy()),
        None => {
            let mut m = no_members();
            put(&mut m, "name", jstr("web_search"));
            put(&mut m, "type", jstr("web_search_20250305"));
            Some(jobj(m))
        },
    }
}

/// A request body with the parameters of the reasoning level set, where they
/// are an object.
pub open spec fn with_reasoning(m: Seq<(Seq<char>, JsonV)>, params: Option<JsonV>) -> JsonV {
    match params {
        Some(JsonV::Obj(extra)) => JsonV::Obj(set_members(m, extra)),
        _ => JsonV::Obj(m),
    }
}

/// Sets the parameters of the reasoning level in a request body.
pub fn merge_reasoning_params(body: Vec<(String, Json)>, params: &Option<Json>) -> (r: Json)
    ensures
        r.says() == with_reasoning(says_members(body@), says_opt(*params)),
{
    let mut body = body;
    match params {
        Some(p) => {
            proof {
                crate::json::lemma_obj(*p);
            }
            match p {
                Json::Obj(extra) => put_members(&mut body, extra.as_slice()),
                _ => {},
            }
        },
        None => {},
    }
    jobj(body)
}

/// `tools` with one more behind them, where there is one.
pub open spec fn with_tool(tools: Seq<JsonV>, extra: Option<JsonV>) -> Seq<JsonV> {
    match extra {
        Some(t) => tools.push(t),
        None => tools,
    }
}

/// The body of a streamed request in the OpenAI format.
pub open spec fn openai_body_json(c: ResolvedV, messages: Seq<MsgV>, tools: Seq<JsonV>) -> JsonV {
    let all = with_tool(tools, openai_search(c));
    let m = ms().push(("max_tokens"@, num_says(c.max_output_tokens))).push(
        ("messages"@, JsonV::Arr(openai_messages(messages))),
    ).push(("model"@, JsonV::Str(c.model))).push(("stream"@, JsonV::Bool(true))).push(
        ("stream_options"@, JsonV::Obj(ms().push(("include_usage"@, JsonV::Bool(true))))),
    );
    with_reasoning(
        if all.len() > 0 {
            m.push(("tools"@, JsonV::Arr(all)))
        } else {
            m
        },
        c.reasoning_params,
    )
}

/// Adds an item where there is one.
fn put_extra(v: &mut Vec<Json>, extra: Option<Json>)
    ensures
        says_all(final(v)@) == with_tool(says_all(old(v)@), says_opt(extra)),
{
    match extra {
        Some(t) => put_item(v, t),
        None => {},
    }
}

/// Makes the body of a streamed request in the OpenAI format.
pub fn openai_body(config: &ResolvedModel, messages: &[ChatMsg], tools: Vec<Json>) -> (r: Json)
    ensures
        r.says() == openai_body_json(config@, msgs_say(messages@), says_all(tools@)),
{
    let mut tools = tools;
    put_extra(&mut tools, openai_web_search_tool(config));
    let mut m = no_members();
    put(&mut m, "max_tokens", jnum(config.max_output_tokens));
    put(&mut m, "messages", jarr(to_openai_messages(messages)));
    put(&mut m, "model", jstr(config.model.as_str()));
    put(&mut m, "stream", Json::Bool(true));
    let mut o = no_members();
    put(&mut o, "include_usage", Json::Bool(true));
    put(&mut m, "stream_options", jobj(o));
    proof {
        assert(says_all(tools@).len() == tools@.len());
    }
    if tools.len() > 0 {
        put(&mut m, "tools", jarr(tools));
    }
    merge_reasoning_params(m, &config.reasoning_params)
}

// ---------------------------------------------------------------------------
// Requests in the Anthropic format
// ---------------------------------------------------------------------------

/// The address of the messages endpoint below a base address.
pub open spec fn messages_url(base: Seq<char>) -> Seq<char> {
    if ends_with(base, "/v1"@) {
        base + "/messages"@
    } else {
        base + "/v1/messages"@
    }
}

/// The address of the messages endpoint.
pub fn anthropic_url(base: &str) -> (r: String)
    ensures
        r@ == messages_url(base@),
{
    let mut v = chars_of(base);
    if finishes(v.as_slice(), "/v1") {
        push_text(&mut v, "/messages");
    } else {
        push_text(&mut v, "/v1/messages");
    }
    string_of(v.as_slice())
}

/// The content of a message in the Anthropic format.
#[verifier::ext_equal]
pub enum ContentV {
    Text(Seq<char>),
    Blocks(Seq<JsonV>),
}

/// A content as JSON.
pub open spec fn content_json(c: ContentV) -> JsonV {
    match c {
        ContentV::Text(t) => JsonV::Str(t),
        ContentV::Blocks(b) => JsonV::Arr(b),
    }
}

/// What is empty where it is absent.
pub open spec fn or_empty(t: Option<Seq<char>>) -> Seq<char> {
    match t {
        Some(s) => s,
        None => Seq::empty(),
    }
}

/// A block with a type and one more member, whose name comes before `type`.
pub open spec fn block(kind: Seq<char>, key: Seq<char>, v: JsonV) -> JsonV {
    JsonV::Obj(ms().push((key, v)).push(("type"@, JsonV::Str(kind))))
}

/// The block of a tool call; arguments that are no JSON count as an empty
/// object.
pub open spec fn tool_use(w: WireV) -> JsonV {
    JsonV::Obj(
        ms().push(("id"@, JsonV::Str(w.id))).push(
            (
                "input"@,
                match json_text(w.arguments) {
                    Some(v) => v,
                    None => JsonV::Obj(ms()),
                },
            ),
        ).push(("name"@, JsonV::Str(w.name))).push(("type"@, JsonV::Str("tool_use"@))),
    )
}

/// The blocks of an assistant's message: its reasoning comes first, then its
/// text, then its tool calls.
pub open spec fn assistant_blocks(m: MsgV) -> Seq<JsonV> {
    let a = match unless_empty(m.reasoning) {
        Some(t) => Seq::<JsonV>::empty().push(
            JsonV::Obj(
                ms().push(("thinking"@, JsonV::Str(t))).push(("type"@, JsonV::Str("thinking"@))),
            ),
        ),
        None => Seq::<JsonV>::empty(),
    };
    let b = match m.content {
        Some(t) => a.push(block("text"@, "text"@, JsonV::Str(t))),
        None => a,
    };
    match m.tool_calls {
        Some(l) => b + l.map_values(|w: WireV| tool_use(w)),
        None => b,
    }
}

/// The block of an image.
pub open spec fn image_block(i: ImageV) -> JsonV {
    block(
        "image"@,
        "source"@,
        JsonV::Obj(
            ms().push(("data"@, JsonV::Str(i.data_base64))).push(
                ("media_type"@, JsonV::Str(i.media_type)),
            ).push(("type"@, JsonV::Str("base64"@))),
        ),
    )
}

/// The block of a tool's result: its text, or its images and then its text.
pub open spec fn tool_result_block(m: MsgV) -> JsonV {
    let text = JsonV::Str(or_empty(m.content));
    let content = if m.images.len() == 0 {
        text
    } else {
        JsonV::Arr(
            m.images.map_values(|i: ImageV| image_block(i)).push(block("text"@, "text"@, text)),
        )
    };
    JsonV::Obj(
        ms().push(("content"@, content)).push(
            ("tool_use_id"@, JsonV::Str(or_empty(m.tool_call_id))),
        ).push(("type"@, JsonV::Str("tool_result"@))),
    )
}

/// The system text and the messages, as far as they have been put together.
pub type Anth = (Seq<char>, Seq<(Seq<char>, ContentV)>);

/// One more message: system texts are gathered, a tool's result joins a user
/// message of blocks before it, and unknown roles are left out.
pub open spec fn anthropic_step(st: Anth, m: MsgV) -> Anth {
    let (system, out) = st;
    if m.role == "system"@ {
        match m.content {
            Some(c) => (
                if system.len() > 0 {
                    system + "\n\n"@ + c
                } else {
                    c
                },
                out,
            ),
            None => st,
        }
    } else if m.role == "user"@ {
        (system, out.push(("user"@, ContentV::Text(or_empty(m.content)))))
    } else if m.role == "assistant"@ {
        (system, out.push(("assistant"@, ContentV::Blocks(assistant_blocks(m)))))
    } else if m.role == "tool"@ {
        let b = tool_result_block(m);
        if out.len() > 0 && out.last().0 == "user"@ && out.last().1 is Blocks {
            (
                system,
                out.drop_last().push(("user"@, ContentV::Blocks(out.last().1->Blocks_0.push(b)))),
            )
        } else {
            (system, out.push(("user"@, ContentV::Blocks(Seq::<JsonV>::empty().push(b)))))
        }
    } else {
        st
    }
}

/// The system text and the messages of a request in the Anthropic format.
pub open spec fn anthropic_fold(v: Seq<MsgV>) -> Anth
    decreases v.len(),
{
    if v.len() == 0 {
        (Seq::empty(), Seq::empty())
    } else {
        anthropic_step(anthropic_fold(v.drop_last()), v.last())
    }
}

/// The messages of a request in the Anthropic format.
pub open spec fn anthropic_messages(v: Seq<MsgV>) -> Seq<JsonV> {
    anthropic_fold(v).1.map_values(|m: (Seq<char>, ContentV)| role_json(m.0, content_json(m.1)))
}

/// The content of a message.
enum Content {
    Text(String),
    Blocks(Vec<Json>),
}

impl View for Content {
    type V = ContentV;

    closed spec fn view(&self) -> ContentV {
        match self {
            Content::Text(t) => ContentV::Text(t@),
            Content::Blocks(b) => ContentV::Blocks(says_all(b@)),
        }
    }
}

spec fn contents_say(v: Seq<(bool, Content)>) -> Seq<(Seq<char>, ContentV)> {
    v.map_values(
        |m: (bool, Content)|
            (
                if m.0 {
                    "user"@
                } else {
                    "assistant"@
                },
                m.1@,
            ),
    )
}

fn block_of(kind: &str, key: &str, v: Json) -> (r: Json)
    ensures
        r.says() == block(kind@, key@, v.says()),
{
    let mut m = no_members();
    put(&mut m, key, v);
    put(&mut m, "type", jstr(kind));
    jobj(m)
}

fn tool_use_of(w: &ToolCallWire) -> (r: Json)
    ensures
        r.says() == tool_use(w@),
{
    let input = match parse_json(w.function.arguments.as_str()) {
        Some(v) => v,
        None => jobj(no_members()),
    };
    let mut m = no_members();
    put(&mut m, "id", jstr(w.id.as_str()));
    put(&mut m, "input", input);
    put(&mut m, "name", jstr(w.function.name.as_str()));
    put(&mut m, "type", jstr("tool_use"));
    jobj(m)
}

fn assistant_blocks_of(msg: &ChatMsg) -> (r: Vec<Json>)
    ensures
        says_all(r@) == assistant_blocks(msg@),
{
    let mut out = no_items();
    match &msg.reasoning {
        Some(t) => if !t.as_str().is_empty() {
            let mut m = no_members();
            put(&mut m, "thinking", jstr(t.as_str()));
            put(&mut m, "type", jstr("thinking"));
            put_item(&mut out, jobj(m));
        },
        None => {},
    }
    match &msg.content {
        Some(t) => put_item(&mut out, block_of("text", "text", jstr(t.as_str()))),
        None => {},
    }
    match &msg.tool_calls {
        Some(l) => {
            let ghost before = says_all(out@);
            let ghost want = wires_say(l@).map_values(|w: WireV| tool_use(w));
            proof {
                assert(before + want.take(0) =~= before);
            }
            for i in 0..l.len()
                invariant
                    want == wires_say(l@).map_values(|w: WireV| tool_use(w)),
                    says_all(out@) == before + want.take(i as int),
            {
                put_item(&mut out, tool_use_of(&l[i]));
                proof {
                    assert(want.take(i as int + 1) =~= want.take(i as int).push(want[i as int]));
                    assert(says_all(out@) =~= before + want.take(i as int + 1));
                }
            }
            proof {
                assert(want.take(l@.len() as int) =~= want);
            }
        },
        None => {},
    }
    out
}

fn text_or_empty(t: &Option<String>) -> (r: Json)
    ensures
        r.says() == JsonV::Str(or_empty(opt_text(*t))),
{
    match t {
        Some(s) => jstr(s.as_str()),
        None => Json::Str(String::new()),
    }
}

fn tool_result_of(msg: &ChatMsg) -> (r: Json)
    ensures
        r.says() == tool_result_block(msg@),
{
    proof {
        assert(msg@.images.len() == msg.images@.len());
    }
    let content = if msg.images.len() == 0 {
        text_or_empty(&msg.content)
    } else {
        let ghost want = msg@.images.map_values(|i: ImageV| image_block(i));
        let mut out = no_items();
        for i in 0..msg.images.len()
            invariant
                want == msg@.images.map_values(|i: ImageV| image_block(i)),
                says_all(out@) == want.take(i as int),
        {
            let img = &msg.images[i];
            let mut m = no_members();
            put(&mut m, "data", jstr(img.data_base64.as_str()));
            put(&mut m, "media_type", jstr(img.media_type.as_str()));
            put(&mut m, "type", jstr("base64"));
            put_item(&mut out, block_of("image", "source", jobj(m)));
            proof {
                assert(want[i as int] == image_block(img@));
                assert(want.take(i as int + 1) =~= want.take(i as int).push(want[i as int]));
            }
        }
        proof {
            assert(want.take(msg.images@.len() as int) =~= want);
        }
        put_item(&mut out, block_of("text", "text", text_or_empty(&msg.content)));
        jarr(out)
    };
    let mut m = no_members();
    put(&mut m, "content", content);
    put(&mut m, "tool_use_id", text_or_empty(&msg.tool_call_id));
    put(&mut m, "type", jstr("tool_result"));
    jobj(m)
}

/// Makes the system text and the messages of a request in the Anthropic
/// format.
pub fn to_anthropic_messages(messages: &[ChatMsg]) -> (r: (String, Vec<Json>))
    ensures
        r.0@ == anthropic_fold(msgs_say(messages@)).0,
        says_all(r.1@) == anthropic_messages(msgs_say(messages@)),
{
    let ghost all = msgs_say(messages@);
    let mut system: Vec<char> = Vec::new();
    let mut out: Vec<(bool, Content)> = Vec::new();
    proof {
        assert(contents_say(out@) =~= anthropic_fold(all.take(0)).1);
        reveal_strlit("user");
        reveal_strlit("assistant");
        assert("user"@.len() != "assistant"@.len());
    }
    for i in 0..messages.len()
        invariant
            all == msgs_say(messages@),
            "user"@.len() != "assistant"@.len(),
            system@ == anthropic_fold(all.take(i as int)).0,
            contents_say(out@) == anthropic_fold(all.take(i as int)).1,
    {
        let msg = &messages[i];
        let ghost before = contents_say(out@);
        proof {
            assert(all.take(i as int + 1).drop_last() =~= all.take(i as int));
            assert(all.take(i as int + 1).last() == msg@);
        }
        if str_eq(msg.role.as_str(), "system") {
            match &msg.content {
                Some(c) => {
                    if system.len() > 0 {
                        push_text(&mut system, "\n\n");
                    }
                    let ghost base = system@;
                    push_text(&mut system, c.as_str());
                    proof {
                        assert(Seq::<char>::empty() + c@ =~= c@);
                        assert(system@ =~= anthropic_fold(all.take(i as int + 1)).0);
                    }
                },
                None => {},
            }
        } else if str_eq(msg.role.as_str(), "user") {
            let text = match &msg.content {
                Some(c) => c.clone(),
                None => String::new(),
            };
            out.push((true, Content::Text(text)));
            proof {
                assert(contents_say(out@) =~= before.push(
                    ("user"@, ContentV::Text(or_empty(msg@.content))),
                ));
            }
        } else if str_eq(msg.role.as_str(), "assistant") {
            out.push((false, Content::Blocks(assistant_blocks_of(msg))));
            proof {
                assert(contents_say(out@) =~= before.push(
                    ("assistant"@, ContentV::Blocks(assistant_blocks(msg@))),
                ));
            }
        } else if str_eq(msg.role.as_str(), "tool") {
            let b = tool_result_of(msg);
            match out.pop() {
                Some((true, Content::Blocks(l))) => {
                    let ghost prior = says_all(l@);
                    proof {
                        assert(contents_say(out@) =~= before.drop_last());
                        assert(before.last() == ("user"@, ContentV::Blocks(prior)));
                    }
                    let mut l = l;
                    put_item(&mut l, b);
                    out.push((true, Content::Blocks(l)));
                    proof {
                        assert(contents_say(out@) =~= before.drop_last().push(
                            ("user"@, ContentV::Blocks(prior.push(b.says()))),
                        ));
                    }
                },
                other => {
                    match other {
                        Some(m) => {
                            out.push(m);
                        },
                        None => {},
                    }
                    proof {
                        assert(contents_say(out@) =~= before);
                        if before.len() > 0 {
                            assert(before.last() == contents_say(out@)[out@.len() - 1]);
                        }
                    }
                    let mut l = no_items();
                    put_item(&mut l, b);
                    out.push((true, Content::Blocks(l)));
                    proof {
                        assert(contents_say(out@) =~= before.push(
                            ("user"@, ContentV::Blocks(Seq::<JsonV>::empty().push(b.says()))),
                        ));
                    }
                },
            }
        }
    }
    let ghost fold = anthropic_fold(all).1;
    proof {
        assert(all.take(messages@.len() as int) =~= all);
    }
    let ghost want = anthropic_messages(all);
    let mut list = no_items();
    for i in 0..out.len()
        invariant
            contents_say(out@) == fold,
            want == fold.map_values(
                |m: (Seq<char>, ContentV)| role_json(m.0, content_json(m.1)),
            ),
            says_all(list@) == want.take(i as int),
    {
        proof {
            assert(fold[i as int] == contents_say(out@)[i as int]);
        }
        let content = match &out[i].1 {
            Content::Text(t) => jstr(t.as_str()),
            Content::Blocks(l) => {
                let j = jarr(copied_list(l.as_slice()));
                j
            },
        };
        let role = if out[i].0 {
            "user"
        } else {
            "assistant"
        };
        put_item(&mut list, role_to_json(role, content));
        proof {
            assert(want.take(i as int + 1) =~= want.take(i as int).push(want[i as int]));
        }
    }
    proof {
        assert(want.len() == out@.len());
        assert(want.take(out@.len() as int) =~= want);
    }
    (string_of(system.as_slice()), list)
}

/// Values that say the same.
pub fn copied_list(v: &[Json]) -> (r: Vec<Json>)
    ensures
        says_all(r@) == says_all(v@),
{
    let mut out: Vec<Json> = Vec::new();
    for i in 0..v.len()
        invariant
            out.len() == i,
            forall|k: int| 0 <= k < i ==> (#[trigger] out@[k]).says() == v@[k].says(),
    {
        out.push(v[i].copy());
    }
    proof {
        assert(says_all(out@) =~= says_all(v@));
    }
    out
}

/// A tool's description in the Anthropic format.
pub open spec fn anthropic_tool(t: JsonV) -> JsonV {
    let f = at(t, "function"@);
    JsonV::Obj(
        ms().push(("description"@, at(f, "description"@))).push(
            ("input_schema"@, at(f, "parameters"@)),
        ).push(("name"@, at(f, "name"@))),
    )
}

fn copy_or_null(v: Option<&Json>) -> (r: Json)
    ensures
        r.says() == said(v),
{
    match v {
        Some(j) => j.copy(),
        None => Json::Null,
    }
}

/// Makes the tools' descriptions in the Anthropic format.
pub fn to_anthropic_tools(tools: &[Json]) -> (r: Vec<Json>)
    ensures
        says_all(r@) == says_all(tools@).map_values(|t: JsonV| anthropic_tool(t)),
{
    let ghost want = says_all(tools@).map_values(|t: JsonV| anthropic_tool(t));
    let mut out = no_items();
    for i in 0..tools.len()
        invariant
            want == says_all(tools@).map_values(|t: JsonV| anthropic_tool(t)),
            says_all(out@) == want.take(i as int),
    {
        let f = down(Some(&tools[i]), "function");
        let mut m = no_members();
        put(&mut m, "description", copy_or_null(down(f, "description")));
        put(&mut m, "input_schema", copy_or_null(down(f, "parameters")));
        put(&mut m, "name", copy_or_null(down(f, "name")));
        put_item(&mut out, jobj(m));
        proof {
            assert(want.take(i as int + 1) =~= want.take(i as int).push(want[i as int]));
        }
    }
    proof {
        assert(want.take(tools@.len() as int) =~= want);
    }
    out
}

/// The body of a streamed request in the Anthropic format.
pub open spec fn anthropic_body_json(c: ResolvedV, messages: Seq<MsgV>, tools: Seq<JsonV>) -> JsonV {
    let system = anthropic_fold(messages).0;
    let all = with_tool(tools.map_values(|t: JsonV| anthropic_tool(t)), anthropic_search(c));
    let m = ms().push(("max_tokens"@, num_says(c.max_output_tokens))).push(
        ("messages"@, JsonV::Arr(anthropic_messages(messages))),
    ).push(("model"@, JsonV::Str(c.model))).push(("stream"@, JsonV::Bool(true)));
    let n = if system.len() > 0 {
        m.push(("system"@, JsonV::Str(system)))
    } else {
        m
    };
    with_reasoning(
        if all.len() > 0 {
            n.push(("tools"@, JsonV::Arr(all)))
        } else {
            n
        },
        c.reasoning_params,
    )
}

/// Makes the body of a streamed request in the Anthropic format.
pub fn anthropic_body(config: &ResolvedModel, messages: &[ChatMsg], tools: &[Json]) -> (r: Json)
    ensures
        r.says() == anthropic_body_json(config@, msgs_say(messages@), says_all(tools@)),
{
    let (system, list) = to_anthropic_messages(messages);
    let mut all = to_anthropic_tools(tools);
    put_extra(&mut all, anthropic_web_search_tool(config));
    let mut m = no_members();
    put(&mut m, "max_tokens", jnum(config.max_output_tokens));
    put(&mut m, "messages", jarr(list));
    put(&mut m, "model", jstr(config.model.as_str()));
    put(&mut m, "stream", Json::Bool(true));
    if !system.as_str().is_empty() {
        put(&mut m, "system", Json::Str(system));
    }
    proof {
        assert(says_all(all@).len() == all@.len());
    }
    if all.len() > 0 {
        put(&mut m, "tools", jarr(all));
    }
    merge_reasoning_params(m, &config.reasoning_params)
}

// ---------------------------------------------------------------------------
// One request, one answer
// ---------------------------------------------------------------------------

/// A request with one user message and no streaming.
pub open spec fn single_body(model: Seq<char>, max_tokens: u64, content: Seq<char>) -> JsonV {
    JsonV::Obj(
        ms().push(("max_tokens"@, num_says(max_tokens))).push(
            (
                "messages"@,
                JsonV::Arr(
                    Seq::<JsonV>::empty().push(role_json("user"@, JsonV::Str(content))),
                ),
            ),
        ).push(("model"@, JsonV::Str(model))).push(("stream"@, JsonV::Bool(false))),
    )
}

/// Makes a request with one user message and no streaming; the two wire
/// formats agree on it.
pub fn single_request(model: &str, max_tokens: u64, content: &str) -> (r: Json)
    ensures
        r.says() == single_body(model@, max_tokens, content@),
{
    let mut list = no_items();
    put_item(&mut list, role_to_json("user", jstr(content)));
    let mut m = no_members();
    put(&mut m, "max_tokens", jnum(max_tokens));
    put(&mut m, "messages", jarr(list));
    put(&mut m, "model", jstr(model));
    put(&mut m, "stream", Json::Bool(false));
    jobj(m)
}

/// The address that a request of a wire format goes to.
pub open spec fn request_address(format: ApiFormat, base: Seq<char>) -> Seq<char> {
    match format {
        ApiFormat::OpenAiChat => base + "/chat/completions"@,
        ApiFormat::AnthropicMessages => messages_url(base),
    }
}

/// The address that a request of a wire format goes to.
pub fn request_url(format: ApiFormat, base: &str) -> (r: String)
    ensures
        r@ == request_address(format, base@),
{
    match format {
        ApiFormat::OpenAiChat => {
            let mut v = chars_of(base);
            push_text(&mut v, "/chat/completions");
            string_of(v.as_slice())
        },
        ApiFormat::AnthropicMessages => anthropic_url(base),
    }
}

/// The content of the last choice of an answer. The outer `None`: the answer
/// is malformed.
pub open spec fn answer_choices(v: Seq<JsonV>) -> Option<Option<Seq<char>>>
    decreases v.len(),
{
    if v.len() == 0 {
        Some(None)
    } else {
        match (answer_choices(v.drop_last()), answer_choice(v.last())) {
            (Some(_l), Some(c)) => Some(c),
            _ => None,
        }
    }
}

/// The content of a choice.
pub open spec fn answer_choice(v: JsonV) -> Option<Option<Seq<char>>> {
    match field(v, "message"@, 0, 1, 1) {
        Some(JsonV::Null) => Some(None),
        Some(m) => text_field(field(m, "content"@, 0, 1, 1)),
        None => None,
    }
}

/// The first text among the blocks of an answer.
pub open spec fn answer_blocks(v: Seq<JsonV>) -> Option<Option<Seq<char>>>
    decreases v.len(),
{
    if v.len() == 0 {
        Some(None)
    } else {
        match (answer_blocks(v.drop_last()), text_field(field(v.last(), "text"@, 0, 1, 1))) {
            (Some(Some(t)), Some(_n)) => Some(Some(t)),
            (Some(None), Some(t)) => Some(t),
            _ => None,
        }
    }
}

/// The text of an answer, where it has one that is not empty. The outer
/// `None`: the answer is malformed.
pub open spec fn answer_text(format: ApiFormat, v: JsonV) -> Option<Option<Seq<char>>> {
    match (
        list_field(field(v, "choices"@, 0, 2, 2)),
        list_field(field(v, "content"@, 1, 2, 2)),
    ) {
        (Some(choices), Some(blocks)) => {
            let c = match choices {
                Some(l) => answer_choices(l),
                None => Some(None),
            };
            let b = match blocks {
                Some(l) => answer_blocks(l),
                None => Some(None),
            };
            match (c, b) {
                (Some(x), Some(y)) => Some(
                    unless_empty(
                        match format {
                            ApiFormat::OpenAiChat => x,
                            ApiFormat::AnthropicMessages => y,
                        },
                    ),
                ),
                _ => None,
            }
        },
        _ => None,
    }
}

/// What an optional reading says.
pub open spec fn opt_reading(r: Option<Option<String>>) -> Option<Option<Seq<char>>> {
    match r {
        Some(t) => Some(opt_text(t)),
        None => None,
    }
}

fn read_answer_choice(v: &Json) -> (r: Option<Option<String>>)
    ensures
        opt_reading(r) == answer_choice(v.says()),
{
    match field_of(v, "message", 0, 1, 1) {
        None => None,
        Some(None) => Some(None),
        Some(Some(Json::Null)) => Some(None),
        Some(Some(m)) => text_of(field_of(m, "content", 0, 1, 1)),
    }
}

fn read_answer_choices(v: &[Json]) -> (r: Option<Option<String>>)
    ensures
        opt_reading(r) == answer_choices(says_all(v@)),
{
    let ghost all = says_all(v@);
    let mut now: Option<Option<String>> = Some(None);
    for i in 0..v.len()
        invariant
            all == says_all(v@),
            opt_reading(now) == answer_choices(all.take(i as int)),
    {
        proof {
            assert(all.take(i as int + 1).drop_last() =~= all.take(i as int));
            assert(all.take(i as int + 1).last() == v@[i as int].says());
        }
        now = match (now, read_answer_choice(&v[i])) {
            (Some(_l), Some(c)) => Some(c),
            _ => None,
        };
    }
    proof {
        assert(all.take(v@.len() as int) =~= all);
    }
    now
}

fn read_answer_blocks(v: &[Json]) -> (r: Option<Option<String>>)
    ensures
        opt_reading(r) == answer_blocks(says_all(v@)),
{
    let ghost all = says_all(v@);
    let mut now: Option<Option<String>> = Some(None);
    for i in 0..v.len()
        invariant
            all == says_all(v@),
            opt_reading(now) == answer_blocks(all.take(i as int)),
    {
        proof {
            assert(all.take(i as int + 1).drop_last() =~= all.take(i as int));
            assert(all.take(i as int + 1).last() == v@[i as int].says());
        }
        now = match (now, text_of(field_of(&v[i], "text", 0, 1, 1))) {
            (Some(Some(t)), Some(_n)) => Some(Some(t)),
            (Some(None), Some(t)) => Some(t),
            _ => None,
        };
    }
    proof {
        assert(all.take(v@.len() as int) =~= all);
    }
    now
}

/// Reads the text of an answer. The outer `None`: the answer is malformed; the
/// inner one: it holds no text.
pub fn read_answer(format: ApiFormat, v: &Json) -> (r: Option<Option<String>>)
    ensures
        opt_reading(r) == answer_text(format, v.says()),
{
    match (list_of(field_of(v, "choices", 0, 2, 2)), list_of(field_of(v, "content", 1, 2, 2))) {
        (Some(choices), Some(blocks)) => {
            let c = match choices {
                Some(l) => read_answer_choices(l.as_slice()),
                None => Some(None),
            };
            let b = match blocks {
                Some(l) => read_answer_blocks(l.as_slice()),
                None => Some(None),
            };
            match (c, b) {
                (Some(x), Some(y)) => {
                    let t = match format {
                        ApiFormat::OpenAiChat => x,
                        ApiFormat::AnthropicMessages => y,
                    };
                    match t {
                        Some(s) => if s.as_str().is_empty() {
                            Some(None)
                        } else {
                            Some(Some(s))
                        },
                        None => Some(None),
                    }
                },
                _ => None,
            }
        },
        _ => None,
    }
}

/// The text of an answer's body, or the message that it has none. The outer
/// `None`: the body is no well-formed answer.
pub open spec fn completion(format: ApiFormat, body: Seq<char>) -> Option<
    Result<Seq<char>, Seq<char>>,
> {
    match json_text(body) {
        None => None,
        Some(v) => match answer_text(format, v) {
            None => None,
            Some(None) => Some(Err("响应无内容"@)),
            Some(Some(t)) => Some(Ok(t)),
        },
    }
}

/// Reads the text of an answer's body.
pub fn complete_text(format: ApiFormat, body: &str) -> (r: Option<Result<String, String>>)
    ensures
        match r {
            None => completion(format, body@) is None,
            Some(Ok(t)) => completion(format, body@) == Some(Ok::<Seq<char>, Seq<char>>(t@)),
            Some(Err(e)) => completion(format, body@) == Some(Err::<Seq<char>, Seq<char>>(e@)),
        },
{
    match parse_json(body) {
        None => None,
        Some(v) => match read_answer(format, &v) {
            None => None,
            Some(None) => Some(Err("响应无内容".to_owned())),
            Some(Some(t)) => Some(Ok(t)),
        },
    }
}

/// The message of a refused request: its status and the first `limit`
/// characters of the answer.
pub open spec fn http_message(status: Seq<char>, detail: Seq<char>, limit: int) -> Seq<char> {
    "HTTP "@ + status + ": "@ + prefix(detail, limit)
}

/// The message of a refused request.
pub fn http_failure(status: &str, detail: &str, limit: usize) -> (r: String)
    ensures
        r@ == http_message(status@, detail@, limit as int),
{
    let mut v = chars_of("HTTP ");
    push_text(&mut v, status);
    push_text(&mut v, ": ");
    let d = chars_of(detail);
    push_all(&mut v, first_chars(d.as_slice(), limit));
    string_of(v.as_slice())
}

/// What a connection test sends: the address, without slashes at the end of
/// the base address, and the smallest request.
pub fn test_request(format: ApiFormat, base_url: &str, model: &str) -> (r: (String, Json))
    ensures
        r.0@ == request_address(format, trim_end_char(base_url@, '/')),
        r.1.says() == single_body(model@, 1, "ping"@),
{
    let v = chars_of(base_url);
    let base = string_of(without_end(v.as_slice(), '/'));
    (request_url(format, base.as_str()), single_request(model, 1, "ping"))
}

/// What a connection test reports for an answer.
pub fn test_provider(success: bool, status: &str, detail: &str) -> (r: Result<String, String>)
    ensures
        match r {
            Ok(m) => success && m@ == "连接成功（HTTP "@ + status@ + "）"@,
            Err(m) => !success && m@ == http_message(status@, detail@, 200),
        },
{
    if success {
        let mut v = chars_of("连接成功（HTTP ");
        push_text(&mut v, status);
        push_text(&mut v, "）");
        Ok(string_of(v.as_slice()))
    } else {
        Err(http_failure(status, detail, 200))
    }
}

/// The message of a network error: its own text, with the root cause where
/// that says something else.
pub fn net_err(text: &str, root: Option<&str>) -> (r: String)
    ensures
        r@ == match root {
            Some(c) => if c@ != text@ {
                "网络错误: "@ + text@ + "（"@ + c@ + "）"@
            } else {
                "网络错误: "@ + text@
            },
            None => "网络错误: "@ + text@,
        },
{
    let mut v = chars_of("网络错误: ");
    push_text(&mut v, text);
    match root {
        Some(c) => if !str_eq(c, text) {
            push_text(&mut v, "（");
            push_text(&mut v, c);
            push_text(&mut v, "）");
        },
        None => {},
    }
    string_of(v.as_slice())
}

// ---------------------------------------------------------------------------
// Trying again
// ---------------------------------------------------------------------------

/// How often a request is tried again at most.
pub const MAX_RETRIES: u32 = 10;

/// Whether an answer with this status may be followed by another try.
pub open spec fn is_retryable(status: u16) -> bool {
    status == 429 || 500 <= status < 600
}

/// Whether an answer with this status may be followed by another try.
pub fn retryable_status(status: u16) -> (r: bool)
    ensures
        r == is_retryable(status),
{
    status == 429 || (500 <= status && status < 600)
}

/// Two to the power of `n`.
pub open spec fn two_to(n: nat) -> nat
    decreases n,
{
    if n == 0 {
        1
    } else {
        2 * two_to((n - 1) as nat)
    }
}

/// How many seconds to wait before try number `retry + 1`: what the server
/// asks for, at most 120, or else 1, 2, 4 and so on, at most 30.
pub open spec fn backoff(retry: nat, retry_after: Option<Seq<char>>) -> nat {
    let asked = match retry_after {
        Some(t) => parse_number(t, u64::MAX as nat),
        None => None,
    };
    match asked {
        Some(n) => if n <= 120 {
            n
        } else {
            120
        },
        None => if two_to(retry) <= 30 {
            two_to(retry)
        } else {
            30
        },
    }
}

proof fn lemma_two_to(n: nat)
    ensures
        n >= 5 ==> two_to(n) >= 32,
        n >= 1 ==> two_to(n) >= 2,
    decreases n,
{
    if n > 0 {
        lemma_two_to((n - 1) as nat);
        reveal_with_fuel(two_to, 6);
    }
}

/// How many seconds to wait before the next try.
pub fn backoff_delay(retry: u32, retry_after: Option<&str>) -> (r: u64)
    ensures
        r == backoff(
            retry as nat,
            match retry_after {
                Some(t) => Some(t@),
                None => None,
            },
        ),
{
    match retry_after {
        Some(t) => {
            let v = chars_of(t);
            match number_of(v.as_slice(), u64::MAX) {
                Some(n) => {
                    return if n <= 120 {
                        n
                    } else {
                        120
                    };
                },
                None => {},
            }
        },
        None => {},
    }
    proof {
        lemma_two_to(retry as nat);
        reveal_with_fuel(two_to, 6);
    }
    if retry == 0 {
        1
    } else if retry == 1 {
        2
    } else if retry == 2 {
        4
    } else if retry == 3 {
        8
    } else if retry == 4 {
        16
    } else {
        30
    }
}

/// What to do after a try.
#[derive(Clone, Copy, Debug, PartialEq, Eq, Structural)]
pub enum Retry {
    /// Take what came back.
    Stop,
    /// Wait for some seconds and try again.
    After(u64),
}

/// Decides after try number `retry + 1`. `status` is that of the answer, and
/// absent where the request failed on the way; that failure may pass.
pub fn retry_step(retry: u32, status: Option<u16>, retry_after: Option<&str>) -> (r: Retry)
    ensures
        r == retry_decision(
            retry as nat,
            status,
            match retry_after {
                Some(t) => Some(t@),
                None => None,
            },
        ),
{
    let again = match status {
        Some(s) => retryable_status(s),
        None => true,
    };
    if !again || retry >= MAX_RETRIES {
        Retry::Stop
    } else {
        Retry::After(backoff_delay(retry, retry_after))
    }
}

/// What to do after try number `retry + 1`.
pub open spec fn retry_decision(
    retry: nat,
    status: Option<u16>,
    retry_after: Option<Seq<char>>,
) -> Retry {
    if (status is Some && !is_retryable(status->0)) || retry >= MAX_RETRIES {
        Retry::Stop
    } else {
        Retry::After(backoff(retry, retry_after) as u64)
    }
}

/// No wait is longer than two minutes, none without the server's wish longer
/// than half a minute, and after the tenth repetition there is no other.
pub proof fn law_retry_bounds(retry: nat, status: Option<u16>, retry_after: Option<Seq<char>>)
    ensures
        backoff(retry, retry_after) <= 120,
        retry_after is None ==> backoff(retry, retry_after) <= 30,
        retry >= MAX_RETRIES ==> retry_decision(retry, status, retry_after) is Stop,
{
}

/// A conversation without images is the list of its messages as they are, in
/// the OpenAI format.
pub proof fn law_openai_plain(v: Seq<MsgV>)
    requires
        forall|i: int| 0 <= i < v.len() ==> (#[trigger] v[i]).images.len() == 0,
    ensures
        openai_messages(v) == v.map_values(|m: MsgV| msg_json(m)),
    decreases v.len(),
{
    if v.len() > 0 {
        let h = v.drop_last();
        assert forall|i: int| 0 <= i < h.len() implies (#[trigger] h[i]).images.len() == 0 by {
            assert(h[i] == v[i]);
        }
        law_openai_plain(h);
        assert(v[v.len() - 1].images.len() == 0);
        assert(openai_messages(v) =~= v.map_values(|m: MsgV| msg_json(m)));
    } else {
        assert(openai_messages(v) =~= v.map_values(|m: MsgV| msg_json(m)));
    }
}

/// In the Anthropic format no two tool results in a row make two messages: a
/// message of blocks of the user is never followed by a tool result's own.
pub proof fn law_anthropic_results_join(v: Seq<MsgV>, m: MsgV)
    requires
        v.len() > 0,
        v.last().role == "tool"@,
        m.role == "tool"@,
    ensures
        anthropic_fold(v.push(m)).1.len() == anthropic_fold(v).1.len(),
{
    assert(v.push(m).drop_last() =~= v);
    reveal_strlit("system");
    reveal_strlit("user");
    reveal_strlit("assistant");
    reveal_strlit("tool");
    assert("tool"@[0] != "system"@[0] && "tool"@[0] != "assistant"@[0] && "tool"@[0]
        != "user"@[0]);
}

/// A tool call as the OpenAI format writes it.
pub open spec fn call_written(w: WireV) -> JsonV {
    JsonV::Obj(
        seq![
            (
                "function"@,
                JsonV::Obj(
                    seq![
                        ("arguments"@, JsonV::Str(w.arguments)),
                        ("name"@, JsonV::Str(w.name)),
                    ],
                ),
            ),
            ("id"@, JsonV::Str(w.id)),
            ("type"@, JsonV::Str(w.kind)),
        ],
    )
}

/// A member that is there where a text is.
pub open spec fn where_said(key: Seq<char>, t: Option<Seq<char>>) -> Seq<(Seq<char>, JsonV)> {
    match t {
        Some(s) => seq![(key, JsonV::Str(s))],
        None => Seq::empty(),
    }
}

/// In the OpenAI format each message of the conversation is one message with
/// its own role, text, calls and call id, behind those of the messages before
/// it. A tool's result with images becomes two: its text, and a message of the
/// user that shows each image behind a caption.
pub proof fn law_openai_message_by_message(v: Seq<MsgV>, m: MsgV)
    ensures
        ({
            let before = openai_messages(v);
            let now = openai_messages(v.push(m));
            let calls = match m.tool_calls {
                Some(l) => seq![
                    ("tool_calls"@, JsonV::Arr(l.map_values(|w: WireV| call_written(w)))),
                ],
                None => Seq::<(Seq<char>, JsonV)>::empty(),
            };
            let text = JsonV::Obj(
                where_said("content"@, m.content) + seq![("role"@, JsonV::Str(m.role))]
                    + where_said("tool_call_id"@, m.tool_call_id) + calls,
            );
            &&& now.take(before.len() as int) == before
            &&& m.images.len() == 0 ==> now == before.push(text)
            &&& m.images.len() > 0 && m.role == "tool"@ ==> now.len() == before.len() + 2
                && now[before.len() as int] == text && exists|parts: Seq<JsonV>|
                now[before.len() as int + 1] == JsonV::Obj(
                    seq![("content"@, JsonV::Arr(parts)), ("role"@, JsonV::Str("user"@))],
                ) && #[trigger] shows_images(parts, m.images)
            &&& m.images.len() > 0 && m.role != "tool"@ ==> now == before.push(
                JsonV::Obj(
                    where_said("content"@, m.content) + seq![
                        (
                            "images"@,
                            JsonV::Arr(
                                m.images.map_values(
                                    |i: ImageV|
                                        JsonV::Obj(
                                            where_said("data_base64"@, Some(i.data_base64))
                                                + where_said("label"@, i.label) + where_said(
                                                "media_type"@,
                                                Some(i.media_type),
                                            ),
                                        ),
                                ),
                            ),
                        ),
                        ("role"@, JsonV::Str(m.role)),
                    ] + where_said("tool_call_id"@, m.tool_call_id) + calls,
                ),
            )
        }),
{
    assert(v.push(m).drop_last() =~= v);
    let before = openai_messages(v);
    let now = openai_messages(v.push(m));
    assert(now =~= before + openai_one(m));
    assert(now.take(before.len() as int) =~= before);
    if m.tool_calls is Some {
        let l = m.tool_calls->0;
        assert forall|i: int| 0 <= i < l.len() implies wire_json(#[trigger] l[i]) == call_written(
            l[i],
        ) by {
            lemma_call_written(l[i]);
        }
        assert(l.map_values(|w: WireV| wire_json(w)) =~= l.map_values(|w: WireV| call_written(w)));
    }
    let calls = match m.tool_calls {
        Some(l) => seq![("tool_calls"@, JsonV::Arr(l.map_values(|w: WireV| call_written(w))))],
        None => Seq::<(Seq<char>, JsonV)>::empty(),
    };
    let text = where_said("content"@, m.content) + seq![("role"@, JsonV::Str(m.role))]
        + where_said("tool_call_id"@, m.tool_call_id) + calls;
    let bare = MsgV { images: Seq::empty(), ..m };
    assert(msg_json(bare) matches JsonV::Obj(x) && x =~= text);
    if m.images.len() == 0 {
        assert(m.images =~= bare.images);
        assert(now =~= before.push(JsonV::Obj(text)));
    } else if m.role == "tool"@ {
        let parts = image_parts(m.images);
        lemma_image_parts(m.images);
        assert(now[before.len() as int + 1] == role_json("user"@, JsonV::Arr(parts)));
        assert(ms().push(("content"@, JsonV::Arr(parts))).push(("role"@, JsonV::Str("user"@)))
            =~= seq![("content"@, JsonV::Arr(parts)), ("role"@, JsonV::Str("user"@))]);
        assert(shows_images(parts, m.images));
    } else {
        let list = m.images.map_values(
            |i: ImageV|
                JsonV::Obj(
                    where_said("data_base64"@, Some(i.data_base64)) + where_said("label"@, i.label)
                        + where_said("media_type"@, Some(i.media_type)),
                ),
        );
        assert forall|k: int| 0 <= k < m.images.len() implies image_json(#[trigger] m.images[k])
            == list[k] by {
            let i = m.images[k];
            assert(opt_member(
                ms().push(("data_base64"@, JsonV::Str(i.data_base64))),
                "label"@,
                i.label,
            ).push(("media_type"@, JsonV::Str(i.media_type))) =~= where_said(
                "data_base64"@,
                Some(i.data_base64),
            ) + where_said("label"@, i.label) + where_said("media_type"@, Some(i.media_type)));
        }
        assert(m.images.map_values(|i: ImageV| image_json(i)) =~= list);
        let shown = where_said("content"@, m.content) + seq![
            ("images"@, JsonV::Arr(list)),
            ("role"@, JsonV::Str(m.role)),
        ] + where_said("tool_call_id"@, m.tool_call_id) + calls;
        assert(msg_json(m) matches JsonV::Obj(x) && x =~= shown);
        assert(now =~= before.push(JsonV::Obj(shown)));
    }
}

proof fn lemma_call_written(w: WireV)
    ensures
        wire_json(w) == call_written(w),
{
    let f = ms().push(("arguments"@, JsonV::Str(w.arguments))).push(("name"@, JsonV::Str(w.name)));
    let g = seq![("arguments"@, JsonV::Str(w.arguments)), ("name"@, JsonV::Str(w.name))];
    assert(f =~= g);
    assert(ms().push(("function"@, JsonV::Obj(f))).push(("id"@, JsonV::Str(w.id))).push(
        ("type"@, JsonV::Str(w.kind)),
    ) =~= seq![
        ("function"@, JsonV::Obj(g)),
        ("id"@, JsonV::Str(w.id)),
        ("type"@, JsonV::Str(w.kind)),
    ]);
}

/// Whether parts of a message show images, each behind a caption with its
/// label and as an address that holds its own type and data.
pub open spec fn shows_images(parts: Seq<JsonV>, images: Seq<ImageV>) -> bool {
    &&& parts.len() == 2 * images.len()
    &&& forall|i: int|
        0 <= i < images.len() ==> {
            &&& parts[2 * i + 1] == JsonV::Obj(
                seq![
                    (
                        "image_url"@,
                        JsonV::Obj(
                            seq![
                                (
                                    "url"@,
                                    JsonV::Str(
                                        "data:"@ + (#[trigger] images[i]).media_type + ";base64,"@
                                            + images[i].data_base64,
                                    ),
                                ),
                            ],
                        ),
                    ),
                    ("type"@, JsonV::Str("image_url"@)),
                ],
            )
            &&& images[i].label matches Some(l) ==> parts[2 * i] == JsonV::Obj(
                seq![
                    ("text"@, JsonV::Str("[ReadMediaFile 输出图片: "@ + l + "]"@)),
                    ("type"@, JsonV::Str("text"@)),
                ],
            )
        }
}

proof fn lemma_image_parts(v: Seq<ImageV>)
    ensures
        shows_images(image_parts(v), v),
    decreases v.len(),
{
    if v.len() > 0 {
        let front = v.drop_last();
        lemma_image_parts(front);
        let parts = image_parts(v);
        let before = image_parts(front);
        assert forall|i: int| 0 <= i < v.len() implies {
            &&& parts[2 * i + 1] == JsonV::Obj(
                seq![
                    (
                        "image_url"@,
                        JsonV::Obj(
                            seq![
                                (
                                    "url"@,
                                    JsonV::Str(
                                        "data:"@ + (#[trigger] v[i]).media_type + ";base64,"@
                                            + v[i].data_base64,
                                    ),
                                ),
                            ],
                        ),
                    ),
                    ("type"@, JsonV::Str("image_url"@)),
                ],
            )
            &&& v[i].label matches Some(l) ==> parts[2 * i] == JsonV::Obj(
                seq![
                    ("text"@, JsonV::Str("[ReadMediaFile 输出图片: "@ + l + "]"@)),
                    ("type"@, JsonV::Str("text"@)),
                ],
            )
        } by {
            if i < front.len() {
                assert(front[i] == v[i]);
                assert(parts[2 * i + 1] == before[2 * i + 1]);
                assert(parts[2 * i] == before[2 * i]);
            } else {
                let url = JsonV::Str("data:"@ + v[i].media_type + ";base64,"@ + v[i].data_base64);
                assert(ms().push(("url"@, url)) =~= seq![("url"@, url)]);
                let inner = JsonV::Obj(seq![("url"@, url)]);
                assert(ms().push(("image_url"@, inner)).push(("type"@, JsonV::Str("image_url"@)))
                    =~= seq![("image_url"@, inner), ("type"@, JsonV::Str("image_url"@))]);
                if v[i].label is Some {
                    let c = JsonV::Str("[ReadMediaFile 输出图片: "@ + v[i].label->0 + "]"@);
                    assert(ms().push(("text"@, c)).push(("type"@, JsonV::Str("text"@))) =~= seq![
                        ("text"@, c),
                        ("type"@, JsonV::Str("text"@)),
                    ]);
                }
            }
        }
    }
}

/// An image as a block of the Anthropic format.
pub open spec fn image_written(i: ImageV) -> JsonV {
    JsonV::Obj(
        seq![
            (
                "source"@,
                JsonV::Obj(
                    seq![
                        ("data"@, JsonV::Str(i.data_base64)),
                        ("media_type"@, JsonV::Str(i.media_type)),
                        ("type"@, JsonV::Str("base64"@)),
                    ],
                ),
            ),
            ("type"@, JsonV::Str("image"@)),
        ],
    )
}

/// A text as a block of the Anthropic format.
pub open spec fn text_written(t: Seq<char>) -> JsonV {
    JsonV::Obj(seq![("text"@, JsonV::Str(t)), ("type"@, JsonV::Str("text"@))])
}

/// The result of a call as a block of the Anthropic format.
pub open spec fn result_written(id: Seq<char>, content: JsonV) -> JsonV {
    JsonV::Obj(
        seq![
            ("content"@, content),
            ("tool_use_id"@, JsonV::Str(id)),
            ("type"@, JsonV::Str("tool_result"@)),
        ],
    )
}

/// A call as a block of the Anthropic format.
pub open spec fn use_written(id: Seq<char>, input: JsonV, name: Seq<char>) -> JsonV {
    JsonV::Obj(
        seq![
            ("id"@, JsonV::Str(id)),
            ("input"@, input),
            ("name"@, JsonV::Str(name)),
            ("type"@, JsonV::Str("tool_use"@)),
        ],
    )
}

/// A message with a role and a content.
pub open spec fn message_written(role: Seq<char>, content: JsonV) -> JsonV {
    JsonV::Obj(seq![("content"@, content), ("role"@, JsonV::Str(role))])
}

/// In the Anthropic format the result of a tool is a block that names the call
/// it answers by the id of its own message and holds its own text, behind its
/// images where it has any.
pub proof fn law_anthropic_result_names_its_call(m: MsgV)
    ensures
        m.tool_call_id matches Some(id) ==> (m.content matches Some(t) ==> {
            &&& m.images.len() == 0 ==> tool_result_block(m) == result_written(id, JsonV::Str(t))
            &&& m.images.len() > 0 ==> tool_result_block(m) == result_written(
                id,
                JsonV::Arr(m.images.map_values(|i: ImageV| image_written(i)).push(text_written(t))),
            )
        }),
        m.tool_call_id matches Some(id) ==> exists|c: JsonV|
            tool_result_block(m) == #[trigger] result_written(id, c),
{
    let id = or_empty(m.tool_call_id);
    let text = JsonV::Str(or_empty(m.content));
    let content = if m.images.len() == 0 {
        text
    } else {
        JsonV::Arr(
            m.images.map_values(|i: ImageV| image_block(i)).push(block("text"@, "text"@, text)),
        )
    };
    assert(ms().push(("content"@, content)).push(("tool_use_id"@, JsonV::Str(id))).push(
        ("type"@, JsonV::Str("tool_result"@)),
    ) =~= seq![
        ("content"@, content),
        ("tool_use_id"@, JsonV::Str(id)),
        ("type"@, JsonV::Str("tool_result"@)),
    ]);
    assert(tool_result_block(m) == result_written(id, content));
    assert(ms().push(("text"@, text)).push(("type"@, JsonV::Str("text"@))) =~= seq![
        ("text"@, text),
        ("type"@, JsonV::Str("text"@)),
    ]);
    assert forall|i: int| 0 <= i < m.images.len() implies image_block(#[trigger] m.images[i])
        == image_written(m.images[i]) by {
        lemma_image_written(m.images[i]);
    }
    assert(m.images.map_values(|i: ImageV| image_block(i)) =~= m.images.map_values(
        |i: ImageV| image_written(i),
    ));
}

proof fn lemma_image_written(i: ImageV)
    ensures
        image_block(i) == image_written(i),
{
    let a = ms().push(("data"@, JsonV::Str(i.data_base64))).push(
        ("media_type"@, JsonV::Str(i.media_type)),
    ).push(("type"@, JsonV::Str("base64"@)));
    let b = seq![
        ("data"@, JsonV::Str(i.data_base64)),
        ("media_type"@, JsonV::Str(i.media_type)),
        ("type"@, JsonV::Str("base64"@)),
    ];
    assert(a =~= b);
    assert(ms().push(("source"@, JsonV::Obj(a))).push(("type"@, JsonV::Str("image"@))) =~= seq![
        ("source"@, JsonV::Obj(b)),
        ("type"@, JsonV::Str("image"@)),
    ]);
}

/// In the Anthropic format a message of the assistant is its reasoning, its
/// text and its calls, each in a block of its own, none left out and in this
/// order; a call has its own id and name, and its arguments where they are
/// JSON.
pub proof fn law_anthropic_reply_is_written_whole(m: MsgV)
    ensures
        ({
            let thought = match m.reasoning {
                Some(t) => if t.len() > 0 {
                    seq![
                        JsonV::Obj(
                            seq![("thinking"@, JsonV::Str(t)), ("type"@, JsonV::Str("thinking"@))],
                        ),
                    ]
                } else {
                    Seq::<JsonV>::empty()
                },
                None => Seq::<JsonV>::empty(),
            };
            let said = match m.content {
                Some(t) => seq![text_written(t)],
                None => Seq::<JsonV>::empty(),
            };
            let blocks = assistant_blocks(m);
            let first = (thought.len() + said.len()) as int;
            &&& blocks.len() >= first
            &&& blocks.take(first) == thought + said
            &&& m.tool_calls is None ==> blocks.len() == first
            &&& m.tool_calls matches Some(l) ==> blocks.len() == first + l.len() && forall|i: int|
                0 <= i < l.len() ==> blocks[first + i] == use_written(
                    (#[trigger] l[i]).id,
                    match json_text(l[i].arguments) {
                        Some(v) => v,
                        None => JsonV::Obj(Seq::empty()),
                    },
                    l[i].name,
                )
        }),
{
    let blocks = assistant_blocks(m);
    if m.reasoning is Some {
        let t = m.reasoning->0;
        assert(ms().push(("thinking"@, JsonV::Str(t))).push(("type"@, JsonV::Str("thinking"@)))
            =~= seq![("thinking"@, JsonV::Str(t)), ("type"@, JsonV::Str("thinking"@))]);
    }
    if m.content is Some {
        let t = m.content->0;
        assert(ms().push(("text"@, JsonV::Str(t))).push(("type"@, JsonV::Str("text"@))) =~= seq![
            ("text"@, JsonV::Str(t)),
            ("type"@, JsonV::Str("text"@)),
        ]);
    }
    if m.tool_calls is Some {
        let l = m.tool_calls->0;
        assert forall|i: int| 0 <= i < l.len() implies tool_use(#[trigger] l[i]) == use_written(
            l[i].id,
            match json_text(l[i].arguments) {
                Some(v) => v,
                None => JsonV::Obj(Seq::empty()),
            },
            l[i].name,
        ) by {
            lemma_use_written(l[i]);
        }
    }
    let thought = match m.reasoning {
        Some(t) => if t.len() > 0 {
            seq![
                JsonV::Obj(seq![("thinking"@, JsonV::Str(t)), ("type"@, JsonV::Str("thinking"@))]),
            ]
        } else {
            Seq::<JsonV>::empty()
        },
        None => Seq::<JsonV>::empty(),
    };
    let said = match m.content {
        Some(t) => seq![text_written(t)],
        None => Seq::<JsonV>::empty(),
    };
    assert(blocks.take((thought.len() + said.len()) as int) =~= thought + said);
}

proof fn lemma_use_written(w: WireV)
    ensures
        tool_use(w) == use_written(
            w.id,
            match json_text(w.arguments) {
                Some(v) => v,
                None => JsonV::Obj(Seq::empty()),
            },
            w.name,
        ),
{
    let input = match json_text(w.arguments) {
        Some(v) => v,
        None => JsonV::Obj(ms()),
    };
    assert(ms().push(("id"@, JsonV::Str(w.id))).push(("input"@, input)).push(
        ("name"@, JsonV::Str(w.name)),
    ).push(("type"@, JsonV::Str("tool_use"@))) =~= seq![
        ("id"@, JsonV::Str(w.id)),
        ("input"@, input),
        ("name"@, JsonV::Str(w.name)),
        ("type"@, JsonV::Str("tool_use"@)),
    ]);
}

/// In the Anthropic format the messages of a conversation are built one behind
/// the other: a user's and an assistant's message is one more message, a tool's
/// result is one more block of the user's message of blocks at the end or else
/// a new one, and a system message adds its text to the system text and
/// nothing to the messages. Nothing from before is lost.
pub proof fn law_anthropic_message_by_message(v: Seq<MsgV>, m: MsgV)
    ensures
        ({
            let before = anthropic_messages(v);
            let now = anthropic_messages(v.push(m));
            let system = anthropic_fold(v).0;
            let system_now = anthropic_fold(v.push(m)).0;
            &&& m.role != "system"@ ==> system_now == system
            &&& m.role == "system"@ ==> now == before && (m.content matches Some(t) ==> system_now
                == (if system.len() > 0 {
                system + seq!['\n', '\n'] + t
            } else {
                t
            }))
            &&& m.role == "user"@ ==> (m.content matches Some(t) ==> now == before.push(
                message_written("user"@, JsonV::Str(t)),
            ))
            &&& m.role == "assistant"@ ==> now == before.push(
                message_written("assistant"@, JsonV::Arr(assistant_blocks(m))),
            )
            &&& m.role == "tool"@ ==> ({
                ||| now == before.push(
                    message_written("user"@, JsonV::Arr(seq![tool_result_block(m)])),
                )
                ||| exists|b: Seq<JsonV>|
                    before.len() > 0 && before.last() == #[trigger] message_written(
                        "user"@,
                        JsonV::Arr(b),
                    ) && now == before.drop_last().push(
                        message_written("user"@, JsonV::Arr(b.push(tool_result_block(m)))),
                    )
            })
            &&& m.role != "system"@ && m.role != "user"@ && m.role != "assistant"@ && m.role
                != "tool"@ ==> now == before
        }),
{
    assert(v.push(m).drop_last() =~= v);
    lemma_roles_differ();
    reveal_strlit("\n\n");
    assert("\n\n"@ =~= seq!['\n', '\n']);
    let out = anthropic_fold(v).1;
    let after = anthropic_fold(v.push(m)).1;
    let before = anthropic_messages(v);
    let now = anthropic_messages(v.push(m));
    assert forall|role: Seq<char>, c: JsonV| #[trigger]
        role_json(role, c) == message_written(role, c) by {
        assert(ms().push(("content"@, c)).push(("role"@, JsonV::Str(role))) =~= seq![
            ("content"@, c),
            ("role"@, JsonV::Str(role)),
        ]);
    }
    if m.role == "user"@ && m.content is Some {
        assert(now =~= before.push(message_written("user"@, JsonV::Str(m.content->0))));
    } else if m.role == "assistant"@ {
        assert(now =~= before.push(
            message_written("assistant"@, JsonV::Arr(assistant_blocks(m))),
        ));
    } else if m.role == "tool"@ {
        let b = tool_result_block(m);
        assert(Seq::<JsonV>::empty().push(b) =~= seq![b]);
        if out.len() > 0 && out.last().0 == "user"@ && out.last().1 is Blocks {
            let l = out.last().1->Blocks_0;
            assert(before.last() == role_json("user"@, JsonV::Arr(l)));
            assert(now =~= before.drop_last().push(
                message_written("user"@, JsonV::Arr(l.push(b))),
            ));
            assert(before.last() == message_written("user"@, JsonV::Arr(l)));
        } else {
            assert(now =~= before.push(message_written("user"@, JsonV::Arr(seq![b]))));
        }
    } else {
        assert(m.role != "user"@ ==> now =~= before);
    }
}

proof fn lemma_roles_differ()
    ensures
        "tool"@ != "system"@,
        "tool"@ != "assistant"@,
        "tool"@ != "user"@,
        "user"@ != "system"@,
        "user"@ != "assistant"@,
        "assistant"@ != "system"@,
{
    reveal_strlit("system");
    reveal_strlit("user");
    reveal_strlit("assistant");
    reveal_strlit("tool");
    assert("tool"@[0] == 't' && "system"@[0] == 's' && "assistant"@[0] == 'a' && "user"@[0] == 'u');
}

/// The blocks of a message, where its content is a list of blocks.
pub open spec fn blocks_in(message: JsonV) -> Seq<JsonV> {
    match message {
        JsonV::Obj(m) => if m.len() > 0 {
            match m[0] {
                (_, JsonV::Arr(b)) => b,
                _ => Seq::empty(),
            }
        } else {
            Seq::empty()
        },
        _ => Seq::empty(),
    }
}

/// All blocks of a list of messages, in order.
pub open spec fn all_blocks(messages: Seq<JsonV>) -> Seq<JsonV> {
    messages.map_values(|m: JsonV| blocks_in(m)).flatten()
}

/// Whether a call with this id stands in a conversation before place `i`.
pub open spec fn called_before(v: Seq<MsgV>, i: int, id: Seq<char>) -> bool {
    exists|j: int, k: int|
        0 <= j < i && v[j].role == "assistant"@ && v[j].tool_calls is Some && 0 <= k
            < v[j].tool_calls->0.len() && (#[trigger] v[j].tool_calls->0[k]).id == id
}

/// Whether every tool's result in a conversation answers a call before it.
pub open spec fn all_answer(v: Seq<MsgV>) -> bool {
    forall|i: int|
        0 <= i < v.len() && (#[trigger] v[i]).role == "tool"@ ==> v[i].tool_call_id is Some
            && called_before(v, i, v[i].tool_call_id->0)
}

/// Where every tool's result in a conversation answers a call before it, every
/// result block of the Anthropic format names a call block before it.
pub proof fn law_anthropic_results_answer_calls(v: Seq<MsgV>)
    requires
        all_answer(v),
    ensures
        ({
            let b = all_blocks(anthropic_messages(v));
            forall|i: int, id: Seq<char>, c: JsonV|
                0 <= i < b.len() && #[trigger] b[i] == #[trigger] result_written(id, c)
                    ==> exists|j: int, input: JsonV, name: Seq<char>|
                    0 <= j < i && #[trigger] b[j] == #[trigger] use_written(id, input, name)
        }),
    decreases v.len(),
{
    let b = all_blocks(anthropic_messages(v));
    if v.len() == 0 {
        assert(anthropic_messages(v) =~= Seq::<JsonV>::empty());
        assert(anthropic_messages(v).map_values(|m: JsonV| blocks_in(m)) =~= Seq::<
            Seq<JsonV>,
        >::empty());
        assert(b.len() == 0);
    } else {
        let front = v.drop_last();
        let m = v.last();
        assert(front.push(m) =~= v);
        assert forall|i: int| 0 <= i < front.len() && (#[trigger] front[i]).role == "tool"@ implies
            front[i].tool_call_id is Some && called_before(front, i, front[i].tool_call_id->0) by {
            assert(v[i] == front[i]);
            let id = v[i].tool_call_id->0;
            let (j, k) = choose|j: int, k: int|
                0 <= j < i && v[j].role == "assistant"@ && v[j].tool_calls is Some && 0 <= k
                    < v[j].tool_calls->0.len() && (#[trigger] v[j].tool_calls->0[k]).id == id;
            assert(front[j] == v[j]);
            assert(front[j].tool_calls->0[k].id == id);
        }
        law_anthropic_results_answer_calls(front);
        let a = all_blocks(anthropic_messages(front));
        let more = lemma_blocks_grow(front, m);
        assert(b == a + more);
        assert forall|i: int, id: Seq<char>, c: JsonV|
            0 <= i < b.len() && #[trigger] b[i] == #[trigger] result_written(id, c) implies exists|
            j: int,
            input: JsonV,
            name: Seq<char>,
        | 0 <= j < i && #[trigger] b[j] == #[trigger] use_written(id, input, name) by {
            if i < a.len() {
                assert(a[i] == result_written(id, c));
                let (j, input, name) = choose|j: int, input: JsonV, name: Seq<char>|
                    0 <= j < i && #[trigger] a[j] == #[trigger] use_written(id, input, name);
                assert(b[j] == use_written(id, input, name));
            } else {
                let r = more[i - a.len()];
                assert(r == result_written(id, c));
                assert(m.role == "tool"@);
                law_anthropic_result_names_its_call(m);
                let n = (v.len() - 1) as int;
                assert(v[n] == m);
                assert(m.tool_call_id is Some && called_before(v, n, m.tool_call_id->0));
                let own = m.tool_call_id->0;
                let c2 = choose|c2: JsonV| tool_result_block(m) == #[trigger] result_written(own, c2);
                lemma_same_result(id, c, own, c2);
                let (j, k) = choose|j: int, k: int|
                    0 <= j < n && v[j].role == "assistant"@ && v[j].tool_calls is Some && 0 <= k
                        < v[j].tool_calls->0.len() && (#[trigger] v[j].tool_calls->0[k]).id == own;
                assert(front[j] == v[j]);
                let (q, input, name) = lemma_call_has_block(front, j, k);
                assert(b[q] == use_written(id, input, name));
            }
        }
    }
}

proof fn lemma_same_result(a: Seq<char>, c: JsonV, b: Seq<char>, d: JsonV)
    requires
        result_written(a, c) == result_written(b, d),
    ensures
        a == b,
{
    let x = result_written(a, c);
    let y = result_written(b, d);
    assert(x->Obj_0[1] == ("tool_use_id"@, JsonV::Str(a)));
    assert(y->Obj_0[1] == ("tool_use_id"@, JsonV::Str(b)));
}

/// One more message adds its own blocks behind those from before: those of an
/// assistant's reply, none of which is a result, or the one of a result.
proof fn lemma_blocks_grow(v: Seq<MsgV>, m: MsgV) -> (more: Seq<JsonV>)
    ensures
        all_blocks(anthropic_messages(v.push(m))) == all_blocks(anthropic_messages(v)) + more,
        m.role == "assistant"@ ==> more == assistant_blocks(m),
        m.role == "tool"@ ==> more == seq![tool_result_block(m)],
        m.role != "tool"@ ==> forall|i: int, id: Seq<char>, c: JsonV|
            0 <= i < more.len() ==> #[trigger] more[i] != #[trigger] result_written(id, c),
{
    law_anthropic_message_by_message(v, m);
    lemma_roles_differ();
    let before = anthropic_messages(v);
    let now = anthropic_messages(v.push(m));
    let f = |x: JsonV| blocks_in(x);
    let old_lists = before.map_values(f);
    if m.role == "assistant"@ {
        let b = assistant_blocks(m);
        let msg = message_written("assistant"@, JsonV::Arr(b));
        assert(blocks_in(msg) == b);
        assert(now.map_values(f) =~= old_lists.push(b));
        crate::chars::lemma_flatten_push(old_lists, b);
        lemma_no_result(m);
        b
    } else if m.role == "tool"@ {
        let r = tool_result_block(m);
        if now == before.push(message_written("user"@, JsonV::Arr(seq![r]))) {
            assert(blocks_in(message_written("user"@, JsonV::Arr(seq![r]))) == seq![r]);
            assert(now.map_values(f) =~= old_lists.push(seq![r]));
            crate::chars::lemma_flatten_push(old_lists, seq![r]);
        } else {
            let b = choose|b: Seq<JsonV>|
                before.len() > 0 && before.last() == #[trigger] message_written(
                    "user"@,
                    JsonV::Arr(b),
                ) && now == before.drop_last().push(
                    message_written("user"@, JsonV::Arr(b.push(r))),
                );
            let lists = before.drop_last().map_values(f);
            assert(blocks_in(message_written("user"@, JsonV::Arr(b))) == b);
            assert(blocks_in(message_written("user"@, JsonV::Arr(b.push(r)))) == b.push(r));
            assert(old_lists =~= lists.push(b));
            assert(now.map_values(f) =~= lists.push(b.push(r)));
            crate::chars::lemma_flatten_push(lists, b);
            crate::chars::lemma_flatten_push(lists, b.push(r));
            assert(lists.flatten() + b.push(r) =~= (lists.flatten() + b) + seq![r]);
        }
        seq![r]
    } else {
        let none = Seq::<JsonV>::empty();
        assert(all_blocks(before) + none =~= all_blocks(before));
        if m.role == "user"@ {
            let msg = now.last();
            assert(v.push(m).drop_last() =~= v);
            assert(now =~= before.push(
                role_json("user"@, JsonV::Str(or_empty(m.content))),
            ));
            assert(blocks_in(role_json("user"@, JsonV::Str(or_empty(m.content)))) == none);
            assert(now.map_values(f) =~= old_lists.push(none));
            crate::chars::lemma_flatten_push(old_lists, none);
        }
        none
    }
}

proof fn lemma_no_result(m: MsgV)
    ensures
        forall|i: int, id: Seq<char>, c: JsonV|
            0 <= i < assistant_blocks(m).len() ==> #[trigger] assistant_blocks(m)[i]
                != #[trigger] result_written(id, c),
{
    let b = assistant_blocks(m);
    assert forall|i: int, id: Seq<char>, c: JsonV| 0 <= i < b.len() implies #[trigger] b[i]
        != #[trigger] result_written(id, c) by {
        let r = result_written(id, c);
        assert(r->Obj_0.len() == 3);
        law_anthropic_reply_is_written_whole(m);
        assert(b[i]->Obj_0.len() == 2 || b[i]->Obj_0.len() == 4);
    }
}

/// Each call of an assistant's message has a block of its own.
proof fn lemma_call_has_block(v: Seq<MsgV>, j: int, k: int) -> (r: (int, JsonV, Seq<char>))
    requires
        0 <= j < v.len(),
        v[j].role == "assistant"@,
        v[j].tool_calls is Some,
        0 <= k < v[j].tool_calls->0.len(),
    ensures
        0 <= r.0 < all_blocks(anthropic_messages(v)).len(),
        all_blocks(anthropic_messages(v))[r.0] == use_written(
            v[j].tool_calls->0[k].id,
            r.1,
            r.2,
        ),
    decreases v.len(),
{
    let front = v.drop_last();
    let m = v.last();
    assert(front.push(m) =~= v);
    let more = lemma_blocks_grow(front, m);
    let a = all_blocks(anthropic_messages(front));
    if j < front.len() {
        assert(front[j] == v[j]);
        lemma_call_has_block(front, j, k)
    } else {
        let l = m.tool_calls->0;
        lemma_use_written(l[k]);
        let input = match json_text(l[k].arguments) {
            Some(x) => x,
            None => JsonV::Obj(Seq::empty()),
        };
        let n = assistant_blocks(m).len() - l.len();
        assert(assistant_blocks(m)[n + k] == tool_use(l[k]));
        assert((a + more)[a.len() + n + k] == tool_use(l[k]));
        (a.len() + n + k, input, l[k].name)
    }
}

/// A request in the OpenAI format names its model and its limit of tokens,
/// streams, asks for the token counts, and holds the conversation and the tools
/// that it was given, with the search tool behind them where the model can
/// search.
pub proof fn law_openai_request_is_whole(c: ResolvedV, messages: Seq<MsgV>, tools: Seq<JsonV>)
    ensures
        ({
            let all = if c.cap_web_search && c.web_search_tool is Some {
                tools.push(c.web_search_tool->0)
            } else {
                tools
            };
            let own = seq![
                (
                    "max_tokens"@,
                    JsonV::Num(Some(c.max_output_tokens), decimal(c.max_output_tokens as nat)),
                ),
                ("messages"@, JsonV::Arr(openai_messages(messages))),
                ("model"@, JsonV::Str(c.model)),
                ("stream"@, JsonV::Bool(true)),
                (
                    "stream_options"@,
                    JsonV::Obj(seq![("include_usage"@, JsonV::Bool(true))]),
                ),
            ] + (if all.len() > 0 {
                seq![("tools"@, JsonV::Arr(all))]
            } else {
                Seq::<(Seq<char>, JsonV)>::empty()
            });
            let body = openai_body_json(c, messages, tools);
            &&& !(c.reasoning_params matches Some(JsonV::Obj(_))) ==> body == JsonV::Obj(own)
            &&& c.reasoning_params matches Some(JsonV::Obj(extra)) ==> body == JsonV::Obj(
                set_members(own, extra),
            )
        }),
{
    let all = with_tool(tools, openai_search(c));
    let asks = ms().push(("include_usage"@, JsonV::Bool(true)));
    assert(asks =~= seq![("include_usage"@, JsonV::Bool(true))]);
    let m = ms().push(("max_tokens"@, num_says(c.max_output_tokens))).push(
        ("messages"@, JsonV::Arr(openai_messages(messages))),
    ).push(("model"@, JsonV::Str(c.model))).push(("stream"@, JsonV::Bool(true))).push(
        ("stream_options"@, JsonV::Obj(asks)),
    );
    let own = seq![
        (
            "max_tokens"@,
            JsonV::Num(Some(c.max_output_tokens), decimal(c.max_output_tokens as nat)),
        ),
        ("messages"@, JsonV::Arr(openai_messages(messages))),
        ("model"@, JsonV::Str(c.model)),
        ("stream"@, JsonV::Bool(true)),
        ("stream_options"@, JsonV::Obj(seq![("include_usage"@, JsonV::Bool(true))])),
    ];
    assert(m =~= own);
    assert(m.push(("tools"@, JsonV::Arr(all))) =~= own + seq![("tools"@, JsonV::Arr(all))]);
    assert(own + Seq::<(Seq<char>, JsonV)>::empty() =~= own);
}

/// A request in the Anthropic format names its model and its limit of tokens,
/// streams, and holds the conversation, the system text where there is one and
/// every tool that it was given, each with its name, its description and its
/// parameters.
pub proof fn law_anthropic_request_is_whole(c: ResolvedV, messages: Seq<MsgV>, tools: Seq<JsonV>)
    ensures
        ({
            let told = tools.map_values(
                |t: JsonV|
                    JsonV::Obj(
                        seq![
                            ("description"@, at(at(t, "function"@), "description"@)),
                            ("input_schema"@, at(at(t, "function"@), "parameters"@)),
                            ("name"@, at(at(t, "function"@), "name"@)),
                        ],
                    ),
            );
            let all = if !c.cap_web_search {
                told
            } else if c.web_search_tool is Some {
                told.push(c.web_search_tool->0)
            } else {
                told.push(
                    JsonV::Obj(
                        seq![
                            ("name"@, JsonV::Str("web_search"@)),
                            ("type"@, JsonV::Str("web_search_20250305"@)),
                        ],
                    ),
                )
            };
            let system = anthropic_fold(messages).0;
            let own = seq![
                (
                    "max_tokens"@,
                    JsonV::Num(Some(c.max_output_tokens), decimal(c.max_output_tokens as nat)),
                ),
                ("messages"@, JsonV::Arr(anthropic_messages(messages))),
                ("model"@, JsonV::Str(c.model)),
                ("stream"@, JsonV::Bool(true)),
            ] + (if system.len() > 0 {
                seq![("system"@, JsonV::Str(system))]
            } else {
                Seq::<(Seq<char>, JsonV)>::empty()
            }) + (if all.len() > 0 {
                seq![("tools"@, JsonV::Arr(all))]
            } else {
                Seq::<(Seq<char>, JsonV)>::empty()
            });
            let body = anthropic_body_json(c, messages, tools);
            &&& !(c.reasoning_params matches Some(JsonV::Obj(_))) ==> body == JsonV::Obj(own)
            &&& c.reasoning_params matches Some(JsonV::Obj(extra)) ==> body == JsonV::Obj(
                set_members(own, extra),
            )
        }),
{
    let told = tools.map_values(
        |t: JsonV|
            JsonV::Obj(
                seq![
                    ("description"@, at(at(t, "function"@), "description"@)),
                    ("input_schema"@, at(at(t, "function"@), "parameters"@)),
                    ("name"@, at(at(t, "function"@), "name"@)),
                ],
            ),
    );
    let made = tools.map_values(|t: JsonV| anthropic_tool(t));
    assert forall|i: int| 0 <= i < tools.len() implies made[i] == told[i] by {
        let f = at(tools[i], "function"@);
        assert(ms().push(("description"@, at(f, "description"@))).push(
            ("input_schema"@, at(f, "parameters"@)),
        ).push(("name"@, at(f, "name"@))) =~= seq![
            ("description"@, at(f, "description"@)),
            ("input_schema"@, at(f, "parameters"@)),
            ("name"@, at(f, "name"@)),
        ]);
    }
    assert(made =~= told);
    assert(ms().push(("name"@, JsonV::Str("web_search"@))).push(
        ("type"@, JsonV::Str("web_search_20250305"@)),
    ) =~= seq![
        ("name"@, JsonV::Str("web_search"@)),
        ("type"@, JsonV::Str("web_search_20250305"@)),
    ]);
    let all = with_tool(made, anthropic_search(c));
    let system = anthropic_fold(messages).0;
    let m = ms().push(("max_tokens"@, num_says(c.max_output_tokens))).push(
        ("messages"@, JsonV::Arr(anthropic_messages(messages))),
    ).push(("model"@, JsonV::Str(c.model))).push(("stream"@, JsonV::Bool(true)));
    let own = seq![
        (
            "max_tokens"@,
            JsonV::Num(Some(c.max_output_tokens), decimal(c.max_output_tokens as nat)),
        ),
        ("messages"@, JsonV::Arr(anthropic_messages(messages))),
        ("model"@, JsonV::Str(c.model)),
        ("stream"@, JsonV::Bool(true)),
    ];
    let none = Seq::<(Seq<char>, JsonV)>::empty();
    assert(m =~= own);
    let n = if system.len() > 0 {
        m.push(("system"@, JsonV::Str(system)))
    } else {
        m
    };
    let own_n = own + (if system.len() > 0 {
        seq![("system"@, JsonV::Str(system))]
    } else {
        none
    });
    assert(n =~= own_n);
    assert(n.push(("tools"@, JsonV::Arr(all))) =~= own_n + seq![("tools"@, JsonV::Arr(all))]);
    assert(own_n + none =~= own_n);
}

/// A request for one answer names its model and its limit of tokens, does not
/// stream, and holds one message of the user with the given text.
pub proof fn law_single_request_is_whole(model: Seq<char>, max_tokens: u64, content: Seq<char>)
    ensures
        single_body(model, max_tokens, content) == JsonV::Obj(
            seq![
                ("max_tokens"@, JsonV::Num(Some(max_tokens), decimal(max_tokens as nat))),
                (
                    "messages"@,
                    JsonV::Arr(seq![message_written("user"@, JsonV::Str(content))]),
                ),
                ("model"@, JsonV::Str(model)),
                ("stream"@, JsonV::Bool(false)),
            ],
        ),
{
    let a = ms().push(("content"@, JsonV::Str(content))).push(("role"@, JsonV::Str("user"@)));
    assert(a =~= seq![("content"@, JsonV::Str(content)), ("role"@, JsonV::Str("user"@))]);
    let l = Seq::<JsonV>::empty().push(role_json("user"@, JsonV::Str(content)));
    assert(l =~= seq![message_written("user"@, JsonV::Str(content))]);
    assert(ms().push(("max_tokens"@, num_says(max_tokens))).push(("messages"@, JsonV::Arr(l))).push(
        ("model"@, JsonV::Str(model)),
    ).push(("stream"@, JsonV::Bool(false))) =~= seq![
        ("max_tokens"@, JsonV::Num(Some(max_tokens), decimal(max_tokens as nat))),
        ("messages"@, JsonV::Arr(l)),
        ("model"@, JsonV::Str(model)),
        ("stream"@, JsonV::Bool(false)),
    ]);
}

/// The text of an answer is what the endpoint wrote: in the OpenAI format the
/// content of the message, in the Anthropic format the text of the first block;
/// an empty one counts as none.
pub proof fn law_answer_is_read(body: Seq<char>, v: JsonV, c: JsonV, t: Seq<char>)
    requires
        json_text(body) == Some(v),
        v is Obj,
        c is Obj,
    ensures
        at(v, "choices"@) == JsonV::Arr(seq![c]) && at(v, "content"@) == JsonV::Null && at(
            c,
            "message"@,
        ) is Obj && at(at(c, "message"@), "content"@) == JsonV::Str(t) ==> completion(
            ApiFormat::OpenAiChat,
            body,
        ) == (if t.len() > 0 {
            Some(Ok::<Seq<char>, Seq<char>>(t))
        } else {
            Some(Err("响应无内容"@))
        }),
        at(v, "content"@) == JsonV::Arr(seq![c]) && at(v, "choices"@) == JsonV::Null && at(
            c,
            "text"@,
        ) == JsonV::Str(t) ==> completion(ApiFormat::AnthropicMessages, body) == (if t.len() > 0 {
            Some(Ok::<Seq<char>, Seq<char>>(t))
        } else {
            Some(Err("响应无内容"@))
        }),
{
    reveal_with_fuel(answer_choices, 2);
    reveal_with_fuel(answer_blocks, 2);
    assert(seq![c].drop_last() =~= Seq::<JsonV>::empty());
    assert(seq![c].last() == c);
}

/// Without a wish of the server the first wait is one second and each further
/// one twice as long, up to half a minute; a wish of the server is met up to
/// two minutes. Another try follows exactly a failure on the way, a status of
/// too many requests or one of the server's own errors, ten times at most.
pub proof fn law_waits_double(retry: nat, n: nat, t: Seq<char>, status: Option<u16>)
    ensures
        backoff(0, None) == 1,
        backoff(retry + 1, None) == (if 2 * backoff(retry, None) <= 16 {
            2 * backoff(retry, None)
        } else {
            30
        }),
        parse_number(t, u64::MAX as nat) == Some(n) ==> backoff(retry, Some(t)) == (if n <= 120 {
            n
        } else {
            120
        }),
        parse_number(t, u64::MAX as nat) is None ==> backoff(retry, Some(t)) == backoff(
            retry,
            None,
        ),
        retry_decision(retry, status, None) is Stop <==> retry >= 10 || (status matches Some(s) && s
            != 429 && !(500 <= s <= 599)),
        retry_decision(retry, status, None) matches Retry::After(s) ==> s == backoff(retry, None),
{
    lemma_two_to(retry);
    lemma_two_to(retry + 1);
    reveal_with_fuel(two_to, 7);
}

/// Of several blocks of an answer the first with a text counts.
pub proof fn law_first_text_counts(v: Seq<JsonV>, b: JsonV, t: Seq<char>)
    requires
        b is Obj,
        at(b, "text"@) is Null || at(b, "text"@) is Str,
    ensures
        answer_blocks(v) == Some(Some(t)) ==> answer_blocks(v.push(b)) == Some(Some(t)),
        answer_blocks(v) == Some(None::<Seq<char>>) && at(b, "text"@) == JsonV::Str(t)
            ==> answer_blocks(v.push(b)) == Some(Some(t)),
{
    assert(v.push(b).drop_last() =~= v);
}

} // verus!
