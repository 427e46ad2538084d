//! What is said to a model and what it answers, and how both are put into the
//! provider's terms.

use crate::keyed::Keyed;
use crate::resource_registry::Temperature;
use crate::text;
use vstd::prelude::*;

verus! {

broadcast use text::texts_push;

/// Who says a message.
#[derive(Debug, Clone, Copy, PartialEq, Eq, Structural)]
pub enum Role {
    System,
    User,
    Assistant,
    /// The result of a tool call, given back to the model.
    Tool,
}

impl Role {
    /// The provider's word for the role.
    pub open spec fn wire(self) -> Seq<char> {
        match self {
            Role::System => "system"@,
            Role::User => "user"@,
            Role::Assistant => "assistant"@,
            Role::Tool => "tool"@,
        }
    }

    /// The provider's word for the role.
    pub fn as_wire_str(self) -> (r: &'static str)
        ensures
            r@ == self.wire(),
    {
        match self {
            Role::System => "system",
            Role::User => "user",
            Role::Assistant => "assistant",
            Role::Tool => "tool",
        }
    }
}

/// A tool call that the model asked for.
#[derive(Debug, Clone)]
pub struct ToolCall {
    /// The provider's name for this call; the result is matched by it.
    pub id: String,
    pub name: String,
    /// The arguments as the model wrote them.
    pub arguments: String,
}

/// A tool call by its characters.
#[verifier::ext_equal]
pub struct ToolCallView {
    pub id: Seq<char>,
    pub name: Seq<char>,
    pub arguments: Seq<char>,
}

impl View for ToolCall {
    type V = ToolCallView;

    open spec fn view(&self) -> ToolCallView {
        ToolCallView { id: self.id@, name: self.name@, arguments: self.arguments@ }
    }
}

impl ToolCall {
    /// The same call once more.
    pub fn copy(&self) -> (r: ToolCall)
        ensures
            r == *self,
    {
        ToolCall { id: self.id.clone(), name: self.name.clone(), arguments: self.arguments.clone() }
    }
}

/// The views of several tool calls.
pub open spec fn calls(v: Seq<ToolCall>) -> Seq<ToolCallView> {
    v.map_values(|c: ToolCall| c@)
}

/// The same calls once more.
pub fn copy_calls(v: &Vec<ToolCall>) -> (r: Vec<ToolCall>)
    ensures
        calls(r@) == calls(v@),
{
    let mut out: Vec<ToolCall> = Vec::new();
    let mut i: usize = 0;
    while i < v.len()
        invariant
            i <= v@.len(),
            out@ == v@.take(i as int),
        decreases v@.len() - i,
    {
        out.push(v[i].copy());
        assert(v@.take(i + 1) =~= v@.take(i as int).push(v@[i as int]));
        i = i + 1;
    }
    assert(v@.take(v@.len() as int) =~= v@);
    out
}

/// One message of a conversation.
#[derive(Debug, Clone)]
pub struct Message {
    pub role: Role,
    pub content: String,
    /// The call that this message answers; of a tool's message only.
    pub tool_call_id: Option<String>,
    /// The calls that the assistant asked for in this message.
    pub tool_calls: Vec<ToolCall>,
}

/// A message by its characters.
#[verifier::ext_equal]
pub struct MessageView {
    pub role: Role,
    pub content: Seq<char>,
    pub tool_call_id: Option<Seq<char>>,
    pub tool_calls: Seq<ToolCallView>,
}

impl View for Message {
    type V = MessageView;

    open spec fn view(&self) -> MessageView {
        MessageView {
            role: self.role,
            content: self.content@,
            tool_call_id: text::opt_text(self.tool_call_id),
            tool_calls: calls(self.tool_calls@),
        }
    }
}

/// The views of several messages.
pub open spec fn messages(v: Seq<Message>) -> Seq<MessageView> {
    v.map_values(|m: Message| m@)
}

/// Appending a message appends its view.
pub broadcast proof fn messages_push(v: Seq<Message>, m: Message)
    ensures
        #[trigger] messages(v.push(m)) == messages(v).push(m@),
{
    assert(messages(v.push(m)) =~= messages(v).push(m@));
}

/// An ordinary message: it answers no call and asks for none.
pub open spec fn plain_message(role: Role, content: Seq<char>) -> MessageView {
    MessageView { role, content, tool_call_id: None, tool_calls: Seq::empty() }
}

/// The assistant's message that asks for calls.
pub open spec fn calls_message(asked: Seq<ToolCallView>) -> MessageView {
    MessageView {
        role: Role::Assistant,
        content: Seq::empty(),
        tool_call_id: None,
        tool_calls: asked,
    }
}

/// The message that answers a call.
pub open spec fn result_message(id: Seq<char>, content: Seq<char>) -> MessageView {
    MessageView { role: Role::Tool, content, tool_call_id: Some(id), tool_calls: Seq::empty() }
}

impl Message {
    /// An ordinary message.
    pub fn new(role: Role, content: String) -> (r: Self)
        ensures
            r@ == plain_message(role, content@),
    {
        let r = Message { role, content, tool_call_id: None, tool_calls: Vec::new() };
        assert(r@.tool_calls =~= Seq::<ToolCallView>::empty());
        r
    }

    /// The assistant's message that asks for calls.
    pub fn assistant_tool_calls(asked: Vec<ToolCall>) -> (r: Self)
        ensures
            r@ == calls_message(calls(asked@)),
    {
        Message {
            role: Role::Assistant,
            content: String::new(),
            tool_call_id: None,
            tool_calls: asked,
        }
    }

    /// The result of a tool call, for the model.
    pub fn tool_result(tool_call_id: String, content: String) -> (r: Self)
        ensures
            r@ == result_message(tool_call_id@, content@),
    {
        let r = Message {
            role: Role::Tool,
            content,
            tool_call_id: Some(tool_call_id),
            tool_calls: Vec::new(),
        };
        assert(r@.tool_calls =~= Seq::<ToolCallView>::empty());
        r
    }
}

/// The same messages once more.
pub fn copy_messages(v: &Vec<Message>) -> (r: Vec<Message>)
    ensures
        messages(r@) == messages(v@),
{
    let ghost all = messages(v@);
    let mut out: Vec<Message> = Vec::new();
    let mut i: usize = 0;
    assert(messages(out@) =~= all.take(0));
    while i < v.len()
        invariant
            i <= v@.len(),
            all == messages(v@),
            messages(out@) == all.take(i as int),
        decreases v@.len() - i,
    {
        let m = Message {
            role: v[i].role,
            content: v[i].content.clone(),
            tool_call_id: match &v[i].tool_call_id {
                Some(id) => Some(id.clone()),
                None => None,
            },
            tool_calls: copy_calls(&v[i].tool_calls),
        };
        assert(m@ =~= v@[i as int]@);
        proof {
            messages_push(out@, m);
        }
        out.push(m);
        assert(all.take(i + 1) =~= all.take(i as int).push(all[i as int]));
        i = i + 1;
    }
    assert(all.take(all.len() as int) =~= all);
    out
}

/// A tool that the model may ask for.
pub struct ToolSpec {
    pub name: String,
    pub description: String,
    /// The schema of the arguments, handed to the provider as it came.
    pub input_schema: serde_json::Value,
}

/// What a model is asked.
pub struct GenerateRequest {
    pub messages: Vec<Message>,
    /// The tools on offer; where there are none, nothing of tools is sent.
    pub tools: Vec<ToolSpec>,
    /// The temperature; where there is none, the provider's default holds.
    pub temperature: Option<Temperature>,
}

/// What a model answers: a text, or tool calls to be made first.
pub enum GenerateResponse {
    Text(String),
    ToolCalls(Vec<ToolCall>),
}

/// An answer by its characters.
#[verifier::ext_equal]
pub enum ResponseView {
    Text(Seq<char>),
    ToolCalls(Seq<ToolCallView>),
}

impl View for GenerateResponse {
    type V = ResponseView;

    open spec fn view(&self) -> ResponseView {
        match self {
            GenerateResponse::Text(t) => ResponseView::Text(t@),
            GenerateResponse::ToolCalls(c) => ResponseView::ToolCalls(calls(c@)),
        }
    }
}

impl GenerateResponse {
    /// The text, where the model answered with one.
    pub fn text(&self) -> (r: Option<&str>)
        ensures
            r is Some <==> self@ is Text,
            r matches Some(t) ==> self@ == ResponseView::Text(t@),
    {
        match self {
            GenerateResponse::Text(content) => Some(content.as_str()),
            GenerateResponse::ToolCalls(_) => None,
        }
    }
}

// The provider's terms.

/// The word for the only kind of tool that the provider knows.
pub const FUNCTION: &'static str = "function";

/// A tool call as it goes to the provider.
pub struct WireToolCall<'a> {
    pub id: &'a str,
    pub kind: &'a str,
    pub name: &'a str,
    pub arguments: &'a str,
}

/// A message as it goes to the provider. An absent field is not sent at all.
pub struct WireMessage<'a> {
    pub role: &'a str,
    pub content: &'a str,
    pub tool_call_id: Option<&'a str>,
    pub tool_calls: Option<Vec<WireToolCall<'a>>>,
}

/// A tool as it goes to the provider.
pub struct WireTool<'a> {
    pub kind: &'a str,
    pub name: &'a str,
    pub description: &'a str,
    pub parameters: &'a serde_json::Value,
}

/// A request as it goes to the provider. An absent field is not sent at all.
pub struct ChatCompletionsRequest<'a> {
    pub model: &'a str,
    pub messages: Vec<WireMessage<'a>>,
    pub temperature: Option<Temperature>,
    pub tools: Option<Vec<WireTool<'a>>>,
}

impl<'a> WireToolCall<'a> {
    /// Says of which call this is the provider's form.
    pub open spec fn stands_for(&self, c: ToolCallView) -> bool {
        &&& self.id@ == c.id
        &&& self.kind@ == "function"@
        &&& self.name@ == c.name
        &&& self.arguments@ == c.arguments
    }
}

impl<'a> WireMessage<'a> {
    /// Says of which message this is the provider's form: the calls are there
    /// exactly if the message asks for some.
    pub open spec fn stands_for(&self, m: MessageView) -> bool {
        &&& self.role@ == m.role.wire()
        &&& self.content@ == m.content
        &&& match (self.tool_call_id, m.tool_call_id) {
            (Some(a), Some(b)) => a@ == b,
            (None, None) => true,
            _ => false,
        }
        &&& self.tool_calls is None <==> m.tool_calls.len() == 0
        &&& self.tool_calls matches Some(v) ==> v@.len() == m.tool_calls.len() && forall|i: int|
            0 <= i < v@.len() ==> (#[trigger] v@[i]).stands_for(m.tool_calls[i])
    }
}

impl<'a> WireTool<'a> {
    /// Says of which tool this is the provider's form.
    pub open spec fn stands_for(&self, t: ToolSpec) -> bool {
        &&& self.kind@ == "function"@
        &&& self.name@ == t.name@
        &&& self.description@ == t.description@
        &&& *self.parameters == t.input_schema
    }
}

/// Puts a message into the provider's terms.
pub fn wire_message<'a>(m: &'a Message) -> (r: WireMessage<'a>)
    ensures
        r.stands_for(m@),
{
    let tool_call_id: Option<&str> = match &m.tool_call_id {
        Some(id) => Some(id.as_str()),
        None => None,
    };
    let tool_calls: Option<Vec<WireToolCall>> = if m.tool_calls.len() == 0 {
        None
    } else {
        let mut v: Vec<WireToolCall> = Vec::new();
        let mut i: usize = 0;
        while i < m.tool_calls.len()
            invariant
                i <= m.tool_calls@.len(),
                v@.len() == i,
                forall|k: int| 0 <= k < i ==> (#[trigger] v@[k]).stands_for(m.tool_calls@[k]@),
            decreases m.tool_calls@.len() - i,
        {
            let c = &m.tool_calls[i];
            v.push(
                WireToolCall {
                    id: c.id.as_str(),
                    kind: FUNCTION,
                    name: c.name.as_str(),
                    arguments: c.arguments.as_str(),
                },
            );
            i = i + 1;
        }
        Some(v)
    };
    WireMessage { role: m.role.as_wire_str(), content: m.content.as_str(), tool_call_id, tool_calls }
}

/// Puts a request into the provider's terms: every message and every tool in
/// their order, and no word of tools or of temperature where there is none.
pub fn wire_request<'a>(model: &'a str, request: &'a GenerateRequest) -> (r: ChatCompletionsRequest<
    'a,
>)
    ensures
        r.model@ == model@,
        r.temperature == request.temperature,
        r.messages@.len() == request.messages@.len(),
        forall|i: int|
            0 <= i < r.messages@.len() ==> (#[trigger] r.messages@[i]).stands_for(
                request.messages@[i]@,
            ),
        r.tools is None <==> request.tools@.len() == 0,
        r.tools matches Some(v) ==> v@.len() == request.tools@.len() && forall|i: int|
            0 <= i < v@.len() ==> (#[trigger] v@[i]).stands_for(request.tools@[i]),
{
    let mut wire: Vec<WireMessage> = Vec::new();
    let mut i: usize = 0;
    while i < request.messages.len()
        invariant
            i <= request.messages@.len(),
            wire@.len() == i,
            forall|k: int|
                0 <= k < i ==> (#[trigger] wire@[k]).stands_for(request.messages@[k]@),
        decreases request.messages@.len() - i,
    {
        wire.push(wire_message(&request.messages[i]));
        i = i + 1;
    }
    let mut tools: Vec<WireTool> = Vec::new();
    let mut j: usize = 0;
    while j < request.tools.len()
        invariant
            j <= request.tools@.len(),
            tools@.len() == j,
            forall|k: int| 0 <= k < j ==> (#[trigger] tools@[k]).stands_for(request.tools@[k]),
        decreases request.tools@.len() - j,
    {
        let t = &request.tools[j];
        tools.push(
            WireTool {
                kind: FUNCTION,
                name: t.name.as_str(),
                description: t.description.as_str(),
                parameters: &t.input_schema,
            },
        );
        j = j + 1;
    }
    ChatCompletionsRequest {
        model,
        messages: wire,
        temperature: request.temperature,
        tools: if tools.len() == 0 {
            None
        } else {
            Some(tools)
        },
    }
}

/// One variant of the provider's answer.
pub struct CompletionMessage {
    pub content: Option<String>,
    pub tool_calls: Option<Vec<ToolCall>>,
}

/// What the provider's answer means: its first variant counts; calls go before
/// a text, and a missing text is an empty one.
pub open spec fn meaning(m: CompletionMessage) -> ResponseView {
    if m.tool_calls is Some && m.tool_calls->0@.len() > 0 {
        ResponseView::ToolCalls(calls(m.tool_calls->0@))
    } else {
        ResponseView::Text(
            match m.content {
                Some(t) => t@,
                None => Seq::empty(),
            },
        )
    }
}

/// Reads the provider's answer. An answer without variants is an error, not an
/// empty text.
pub fn interpret_completion(choices: Vec<CompletionMessage>) -> (r: Result<
    GenerateResponse,
    String,
>)
    ensures
        r is Ok <==> choices@.len() > 0,
        r matches Ok(a) ==> a@ == meaning(choices@[0]),
        r matches Err(e) ==> e@ == "LM Studio вернула ответ без вариантов (пустой choices)"@,
{
    let mut choices = choices;
    if choices.len() == 0 {
        return Err(String::from_str("LM Studio вернула ответ без вариантов (пустой choices)"));
    }
    let first = choices.remove(0);
    match first.tool_calls {
        Some(asked) => {
            if asked.len() > 0 {
                return Ok(GenerateResponse::ToolCalls(asked));
            }
        },
        None => {},
    }
    match first.content {
        Some(t) => Ok(GenerateResponse::Text(t)),
        None => Ok(GenerateResponse::Text(String::new())),
    }
}

/// What the provider says of one of its models.
pub struct ModelInfo {
    pub key: String,
    pub loaded_instances: Vec<String>,
}

/// The instances of several models, one after the other.
pub open spec fn all_instances(models: Seq<ModelInfo>) -> Seq<Seq<char>>
    decreases models.len(),
{
    if models.len() == 0 {
        Seq::empty()
    } else {
        all_instances(models.drop_last()) + text::texts(models.last().loaded_instances@)
    }
}

/// Whether the provider has an instance of a model.
pub fn listed_as_loaded(models: &Vec<ModelInfo>, model: &str) -> (r: bool)
    ensures
        r == exists|i: int|
            0 <= i < models@.len() && (#[trigger] models@[i]).key@ == model@
                && models@[i].loaded_instances@.len() > 0,
{
    let mut i: usize = 0;
    while i < models.len()
        invariant
            i <= models@.len(),
            forall|k: int|
                0 <= k < i ==> !((#[trigger] models@[k]).key@ == model@
                    && models@[k].loaded_instances@.len() > 0),
        decreases models@.len() - i,
    {
        if text::same(models[i].key.as_str(), model) && models[i].loaded_instances.len() > 0 {
            return true;
        }
        i = i + 1;
    }
    false
}

/// The identifiers of everything the provider has loaded.
pub fn listed_instances(models: &Vec<ModelInfo>) -> (r: Vec<String>)
    ensures
        text::texts(r@) == all_instances(models@),
{
    let mut out: Vec<String> = Vec::new();
    let mut i: usize = 0;
    assert(models@.take(0) =~= Seq::<ModelInfo>::empty());
    assert(text::texts(out@) =~= Seq::<Seq<char>>::empty());
    while i < models.len()
        invariant
            i <= models@.len(),
            text::texts(out@) == all_instances(models@.take(i as int)),
        decreases models@.len() - i,
    {
        assert(models@.take(i + 1).drop_last() =~= models@.take(i as int));
        let ids = &models[i].loaded_instances;
        let ghost before = text::texts(out@);
        let ghost added = text::texts(ids@);
        let mut j: usize = 0;
        assert(before + added.take(0) =~= before);
        while j < ids.len()
            invariant
                j <= ids@.len(),
                added == text::texts(ids@),
                text::texts(out@) == before + added.take(j as int),
            decreases ids@.len() - j,
        {
            out.push(ids[j].clone());
            assert(before + added.take(j + 1) =~= (before + added.take(j as int)).push(
                added[j as int],
            ));
            j = j + 1;
        }
        assert(added.take(added.len() as int) =~= added);
        i = i + 1;
    }
    assert(models@.take(models@.len() as int) =~= models@);
    out
}

/// The address of the model server, the way to sign in, and the instances that
/// it named when models were loaded.
pub struct LmStudioBackend {
    pub base_url: String,
    pub api_token: Option<String>,
    /// The instance that the server named for each loaded model.
    pub instance_ids: Keyed<String>,
}

impl LmStudioBackend {
    /// The instance remembered for each model.
    pub open spec fn instances(&self) -> Map<Seq<char>, String> {
        self.instance_ids@
    }

    /// A server of which no instance is known yet.
    pub fn new(base_url: String, api_token: Option<String>) -> (r: Self)
        ensures
            r.base_url == base_url,
            r.api_token == api_token,
            r.instances() == Map::<Seq<char>, String>::empty(),
    {
        LmStudioBackend { base_url, api_token, instance_ids: Keyed::new() }
    }

    /// Where the list of models is.
    pub fn models_url(&self) -> (r: String)
        ensures
            r@ == self.base_url@ + "/api/v1/models"@,
    {
        self.base_url.clone().concat("/api/v1/models")
    }

    /// Where a model is loaded.
    pub fn load_url(&self) -> (r: String)
        ensures
            r@ == self.base_url@ + "/api/v1/models/load"@,
    {
        self.base_url.clone().concat("/api/v1/models/load")
    }

    /// Where an instance is unloaded.
    pub fn unload_url(&self) -> (r: String)
        ensures
            r@ == self.base_url@ + "/api/v1/models/unload"@,
    {
        self.base_url.clone().concat("/api/v1/models/unload")
    }

    /// Where answers are generated.
    pub fn chat_url(&self) -> (r: String)
        ensures
            r@ == self.base_url@ + "/v1/chat/completions"@,
    {
        self.base_url.clone().concat("/v1/chat/completions")
    }

    /// Remembers the instance that the server named for a loaded model.
    pub fn loaded(&mut self, model: &str, instance_id: String)
        ensures
            final(self).base_url == old(self).base_url,
            final(self).api_token == old(self).api_token,
            final(self).instances() == old(self).instances().insert(model@, instance_id),
    {
        self.instance_ids.insert(model.to_owned(), instance_id);
    }

    /// The instance to unload for a model: the one the server named, else the
    /// model's own name.
    pub fn instance_of(&self, model: &str) -> (r: String)
        ensures
            r@ == if self.instances().dom().contains(model@) {
                self.instances()[model@]@
            } else {
                model@
            },
    {
        match self.instance_ids.get(model) {
            Some(id) => id.clone(),
            None => model.to_owned(),
        }
    }

    /// Forgets the instance of an unloaded model.
    pub fn unloaded(&mut self, model: &str)
        ensures
            final(self).base_url == old(self).base_url,
            final(self).api_token == old(self).api_token,
            final(self).instances() == old(self).instances().remove(model@),
    {
        self.instance_ids.remove(model);
    }
}

/// The provider has one word for each role, and no two roles share one.
pub proof fn law_roles_have_their_words(a: Role, b: Role)
    ensures
        Role::System.wire() == "system"@,
        Role::User.wire() == "user"@,
        Role::Assistant.wire() == "assistant"@,
        Role::Tool.wire() == "tool"@,
        a.wire() == b.wire() ==> a == b,
{
    reveal_strlit("system");
    reveal_strlit("user");
    reveal_strlit("assistant");
    reveal_strlit("tool");
    assert("user"@[0] != "tool"@[0]);
    assert("system"@.len() != "user"@.len());
    assert("system"@.len() != "assistant"@.len());
    assert("assistant"@.len() != "user"@.len());
}

/// What goes to the provider is the message as it was: its words, the call that it
/// answers, and the calls that it asks for, each whole and in its order; where there are
/// none, nothing is said of calls.
pub proof fn law_a_message_goes_out_as_it_is<'a>(w: WireMessage<'a>, m: MessageView, i: int)
    requires
        w.stands_for(m),
    ensures
        w.content@ == m.content,
        w.role@ == m.role.wire(),
        w.tool_call_id is Some <==> m.tool_call_id is Some,
        w.tool_call_id matches Some(id) ==> m.tool_call_id == Some(id@),
        w.tool_calls is Some <==> m.tool_calls.len() > 0,
        w.tool_calls matches Some(v) ==> v@.len() == m.tool_calls.len() && (0 <= i < v@.len() ==> {
            &&& v@[i].id@ == m.tool_calls[i].id
            &&& v@[i].name@ == m.tool_calls[i].name
            &&& v@[i].arguments@ == m.tool_calls[i].arguments
            &&& v@[i].kind@ == "function"@
        }),
{
}

/// What goes to the provider of a tool is the tool as it was.
pub proof fn law_a_tool_goes_out_as_it_is<'a>(w: WireTool<'a>, t: ToolSpec)
    requires
        w.stands_for(t),
    ensures
        w.kind@ == "function"@,
        w.name@ == t.name@,
        w.description@ == t.description@,
        *w.parameters == t.input_schema,
{
}

/// Calls go before a text: an answer with calls is those calls, in their order, whatever
/// text comes with them; one without is its text, and an empty one where there is none.
pub proof fn law_calls_go_before_a_text(m: CompletionMessage, i: int)
    ensures
        (m.tool_calls matches Some(v) && v@.len() > 0) ==> (meaning(m) matches ResponseView::ToolCalls(
            c,
        ) && c.len() == m.tool_calls->0@.len() && (0 <= i < c.len() ==> c[i]
            == m.tool_calls->0@[i]@)),
        !(m.tool_calls matches Some(v) && v@.len() > 0) ==> (meaning(m) matches ResponseView::Text(t)
            && (m.content matches Some(c) ==> t == c@) && (m.content is None ==> t.len() == 0)),
{
}

/// Everything that the provider has loaded is listed, model by model, in its order.
pub proof fn law_every_instance_is_listed(models: Seq<ModelInfo>, next: ModelInfo)
    ensures
        all_instances(Seq::empty()).len() == 0,
        all_instances(models.push(next)).len() == all_instances(models).len()
            + next.loaded_instances@.len(),
        all_instances(models.push(next)) == all_instances(models) + Seq::new(
            next.loaded_instances@.len(),
            |i: int| next.loaded_instances@[i]@,
        ),
{
    assert(models.push(next).drop_last() =~= models);
    assert(text::texts(next.loaded_instances@) =~= Seq::new(
        next.loaded_instances@.len(),
        |i: int| next.loaded_instances@[i]@,
    ));
}

/// A message says who says it and what, and only a tool's message answers a call, and
/// only the assistant's asks for calls.
pub proof fn law_messages_are_told_apart(
    role: Role,
    content: Seq<char>,
    id: Seq<char>,
    asked: Seq<ToolCallView>,
)
    ensures
        plain_message(role, content).role == role,
        plain_message(role, content).content == content,
        plain_message(role, content).tool_call_id is None,
        plain_message(role, content).tool_calls.len() == 0,
        calls_message(asked).role == Role::Assistant,
        calls_message(asked).tool_calls == asked,
        calls_message(asked).tool_call_id is None,
        calls_message(asked).content.len() == 0,
        result_message(id, content).role == Role::Tool,
        result_message(id, content).content == content,
        result_message(id, content).tool_call_id == Some(id),
        result_message(id, content).tool_calls.len() == 0,
{
}

} // verus!
