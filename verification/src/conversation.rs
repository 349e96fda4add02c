//! Messages, tool requests and tool responses.

use crate::json::{members, tree_opt, Json, Member, Tree};
use crate::text::{text_opt, texts};
use vstd::prelude::*;
use vstd::string::*;

verus! {

/// Who speaks in a message.
#[derive(Clone, Copy, PartialEq, Eq, Structural, Debug)]
pub enum Role {
    User,
    Assistant,
}

/// The kinds of error that a tool call is answered with.
#[derive(Clone, Copy, PartialEq, Eq, Structural, Debug)]
pub enum ErrorCode {
    InvalidParams,
    ResourceNotFound,
    MethodNotFound,
    InternalError,
    /// Another kind, by its number.
    Other(i32),
}

/// An error that answers a tool call.
#[derive(Debug, PartialEq, Eq)]
pub struct ErrorData {
    pub code: ErrorCode,
    pub message: String,
    /// What else the sender says of it.
    pub data: Option<Json>,
}

#[verifier::ext_equal]
pub struct ErrorModel {
    pub code: ErrorCode,
    pub message: Seq<char>,
    pub data: Option<Tree>,
}

impl ErrorData {
    pub open spec fn view(&self) -> ErrorModel {
        ErrorModel { code: self.code, message: self.message@, data: tree_opt(self.data) }
    }

    pub fn copy(&self) -> (r: ErrorData)
        ensures
            r@ == self@,
    {
        ErrorData {
            code: self.code,
            message: self.message.clone(),
            data: copy_json(&self.data),
        }
    }

    /// An error of which nothing more is said.
    pub fn new(code: ErrorCode, message: String) -> (r: ErrorData)
        ensures
            r@ == plain_error(code, message@),
    {
        ErrorData { code, message, data: None }
    }

    /// An error of kind `InternalError`.
    pub fn internal(message: String) -> (r: ErrorData)
        ensures
            r@ == internal_error(message@),
    {
        ErrorData::new(ErrorCode::InternalError, message)
    }

    /// An error of kind `InvalidParams`.
    pub fn invalid_params(message: String) -> (r: ErrorData)
        ensures
            r@ == plain_error(ErrorCode::InvalidParams, message@),
    {
        ErrorData::new(ErrorCode::InvalidParams, message)
    }
}

/// An error of which nothing more is said.
pub open spec fn plain_error(code: ErrorCode, message: Seq<char>) -> ErrorModel {
    ErrorModel { code, message, data: None }
}

pub open spec fn internal_error(message: Seq<char>) -> ErrorModel {
    plain_error(ErrorCode::InternalError, message)
}

/// A call of a tool by name.
#[derive(Debug, PartialEq, Eq)]
pub struct ToolCall {
    pub name: String,
    pub arguments: Option<Vec<Member>>,
    /// What else the call holds, such as metadata.
    pub rest: Option<Json>,
}

#[verifier::ext_equal]
pub struct CallModel {
    pub name: Seq<char>,
    pub arguments: Option<Seq<(Seq<char>, Tree)>>,
    pub rest: Option<Tree>,
}

/// What optional arguments hold.
pub open spec fn members_opt(a: Option<Vec<Member>>) -> Option<Seq<(Seq<char>, Tree)>> {
    match a {
        Some(v) => Some(members(v@)),
        None => None,
    }
}

/// A copy of the members of an object.
pub fn copy_members(v: &Vec<Member>) -> (r: Vec<Member>)
    ensures
        members(r@) == members(v@),
{
    let mut out: Vec<Member> = Vec::new();
    let mut i: usize = 0;
    while i < v.len()
        invariant
            i <= v@.len(),
            out@.len() == i,
            forall|j: int|
                0 <= j < i ==> #[trigger] out@[j].key@ == v@[j].key@ && out@[j].value@
                    == v@[j].value@,
        decreases v@.len() - i,
    {
        out.push(Member { key: v[i].key.clone(), value: v[i].value.copy() });
        i = i + 1;
    }
    assert(members(out@) =~= members(v@));
    out
}

/// A copy of optional arguments.
pub fn copy_arguments(a: &Option<Vec<Member>>) -> (r: Option<Vec<Member>>)
    ensures
        members_opt(r) == members_opt(*a),
{
    match a {
        Some(v) => Some(copy_members(v)),
        None => None,
    }
}

/// A copy of an optional value.
pub fn copy_json(o: &Option<Json>) -> (r: Option<Json>)
    ensures
        tree_opt(r) == tree_opt(*o),
{
    match o {
        Some(j) => Some(j.copy()),
        None => None,
    }
}

/// A copy of an optional string.
pub fn copy_text(o: &Option<String>) -> (r: Option<String>)
    ensures
        text_opt(r) == text_opt(*o),
        r == *o,
{
    match o {
        Some(s) => Some(s.clone()),
        None => None,
    }
}

impl ToolCall {
    pub open spec fn view(&self) -> CallModel {
        CallModel {
            name: self.name@,
            arguments: members_opt(self.arguments),
            rest: tree_opt(self.rest),
        }
    }

    /// A call of a tool with some arguments and nothing else.
    pub fn new(name: String, arguments: Option<Vec<Member>>) -> (r: ToolCall)
        ensures
            r@ == (CallModel { name: name@, arguments: members_opt(arguments), rest: None }),
    {
        ToolCall { name, arguments, rest: None }
    }

    pub fn copy(&self) -> (r: ToolCall)
        ensures
            r@ == self@,
    {
        ToolCall {
            name: self.name.clone(),
            arguments: copy_arguments(&self.arguments),
            rest: copy_json(&self.rest),
        }
    }
}

/// A request by the model to call a tool. The call is an error where the model's request could
/// not be read.
#[derive(Debug, PartialEq, Eq)]
pub struct ToolRequest {
    pub id: String,
    pub tool_call: Result<ToolCall, ErrorData>,
    pub metadata: Option<Json>,
    pub tool_meta: Option<Json>,
}

#[verifier::ext_equal]
pub struct RequestModel {
    pub id: Seq<char>,
    pub tool_call: Result<CallModel, ErrorModel>,
    pub metadata: Option<Tree>,
    pub tool_meta: Option<Tree>,
}

/// The member of a request's `tool_meta` that says that the provider already ran the tool.
pub open spec fn external_dispatch_key() -> Seq<char> {
    "goose.external_dispatch"@
}

impl RequestModel {
    /// Whether the provider already ran the tool.
    pub open spec fn external(self) -> bool {
        self.tool_meta matches Some(meta) && meta.get(external_dispatch_key()) == Some(
            Tree::Bool(true),
        )
    }
}

impl ToolRequest {
    pub open spec fn view(&self) -> RequestModel {
        RequestModel {
            id: self.id@,
            tool_call: match self.tool_call {
                Ok(c) => Ok(c@),
                Err(e) => Err(e@),
            },
            metadata: tree_opt(self.metadata),
            tool_meta: tree_opt(self.tool_meta),
        }
    }

    pub fn copy(&self) -> (r: ToolRequest)
        ensures
            r@ == self@,
    {
        ToolRequest {
            id: self.id.clone(),
            tool_call: match &self.tool_call {
                Ok(c) => Ok(c.copy()),
                Err(e) => Err(e.copy()),
            },
            metadata: copy_json(&self.metadata),
            tool_meta: copy_json(&self.tool_meta),
        }
    }

    /// Whether the provider already ran the tool.
    pub fn is_externally_dispatched(&self) -> (r: bool)
        ensures
            r == self@.external(),
    {
        match &self.tool_meta {
            Some(meta) => match meta.get("goose.external_dispatch") {
                Some(Json::Bool(b)) => *b,
                _ => false,
            },
            None => false,
        }
    }
}

/// What the requests of a sequence hold.
pub open spec fn requests(v: Seq<ToolRequest>) -> Seq<RequestModel> {
    Seq::new(v.len(), |i: int| v[i]@)
}

/// A copy of a vector of requests.
pub fn copy_requests(v: &Vec<ToolRequest>) -> (r: Vec<ToolRequest>)
    ensures
        requests(r@) == requests(v@),
{
    let mut out: Vec<ToolRequest> = Vec::new();
    let mut i: usize = 0;
    while i < v.len()
        invariant
            i <= v@.len(),
            out@.len() == i,
            forall|j: int| 0 <= j < i ==> #[trigger] out@[j]@ == v@[j]@,
        decreases v@.len() - i,
    {
        out.push(v[i].copy());
        i = i + 1;
    }
    assert(requests(out@) =~= requests(v@));
    out
}

/// A part of what a tool call returned. Parts that are not text are held as JSON, and so is what
/// else is said of a text.
#[derive(Debug, PartialEq, Eq)]
pub enum OutputPart {
    Text { text: String, audience: Option<Vec<Role>>, rest: Option<Json> },
    Other(Json),
}

#[verifier::ext_equal]
pub enum PartModel {
    Text { text: Seq<char>, audience: Option<Seq<Role>>, rest: Option<Tree> },
    Other(Tree),
}

impl OutputPart {
    pub open spec fn view(&self) -> PartModel {
        match self {
            OutputPart::Text { text, audience, rest } => PartModel::Text {
                text: text@,
                audience: match audience {
                    Some(v) => Some(v@),
                    None => None,
                },
                rest: tree_opt(*rest),
            },
            OutputPart::Other(j) => PartModel::Other(j@),
        }
    }

    /// A text for every audience.
    pub fn text(text: String) -> (r: OutputPart)
        ensures
            r@ == (PartModel::Text { text: text@, audience: None, rest: None }),
    {
        OutputPart::Text { text, audience: None, rest: None }
    }

    pub fn copy(&self) -> (r: OutputPart)
        ensures
            r@ == self@,
    {
        match self {
            OutputPart::Text { text, audience, rest } => OutputPart::Text {
                text: text.clone(),
                audience: match audience {
                    Some(v) => Some(copy_roles(v)),
                    None => None,
                },
                rest: copy_json(rest),
            },
            OutputPart::Other(j) => OutputPart::Other(j.copy()),
        }
    }
}

fn copy_roles(v: &Vec<Role>) -> (r: Vec<Role>)
    ensures
        r@ == v@,
{
    let mut out: Vec<Role> = Vec::new();
    let mut i: usize = 0;
    while i < v.len()
        invariant
            i <= v@.len(),
            out@ == v@.take(i as int),
        decreases v@.len() - i,
    {
        out.push(v[i]);
        i = i + 1;
    }
    out
}

/// What the parts of a sequence hold.
pub open spec fn parts(v: Seq<OutputPart>) -> Seq<PartModel> {
    Seq::new(v.len(), |i: int| v[i]@)
}

/// What a tool call returned.
#[derive(Debug, PartialEq, Eq)]
pub struct ToolOutput {
    pub content: Vec<OutputPart>,
    pub is_error: Option<bool>,
    pub structured_content: Option<Json>,
    pub meta: Option<Json>,
}

#[verifier::ext_equal]
pub struct OutputModel {
    pub content: Seq<PartModel>,
    pub is_error: Option<bool>,
    pub structured_content: Option<Tree>,
    pub meta: Option<Tree>,
}

/// The output of a call that succeeded with one text.
pub open spec fn success_text(text: Seq<char>) -> OutputModel {
    OutputModel {
        content: seq![PartModel::Text { text, audience: None, rest: None }],
        is_error: Some(false),
        structured_content: None,
        meta: None,
    }
}

/// The output of a call that failed with one text.
pub open spec fn error_text(text: Seq<char>) -> OutputModel {
    OutputModel {
        content: seq![PartModel::Text { text, audience: None, rest: None }],
        is_error: Some(true),
        structured_content: None,
        meta: None,
    }
}

impl ToolOutput {
    pub open spec fn view(&self) -> OutputModel {
        OutputModel {
            content: parts(self.content@),
            is_error: self.is_error,
            structured_content: tree_opt(self.structured_content),
            meta: tree_opt(self.meta),
        }
    }

    /// A successful output of one text.
    pub fn success(text: String) -> (r: ToolOutput)
        ensures
            r@ == success_text(text@),
    {
        let r = ToolOutput {
            content: vec![OutputPart::text(text)],
            is_error: Some(false),
            structured_content: None,
            meta: None,
        };
        assert(parts(r.content@) =~= success_text(text@).content);
        r
    }

    /// A failed output of one text.
    pub fn error(text: String) -> (r: ToolOutput)
        ensures
            r@ == error_text(text@),
    {
        let r = ToolOutput {
            content: vec![OutputPart::text(text)],
            is_error: Some(true),
            structured_content: None,
            meta: None,
        };
        assert(parts(r.content@) =~= error_text(text@).content);
        r
    }

    pub fn copy(&self) -> (r: ToolOutput)
        ensures
            r@ == self@,
    {
        let mut out: Vec<OutputPart> = Vec::new();
        let mut i: usize = 0;
        while i < self.content.len()
            invariant
                i <= self.content@.len(),
                out@.len() == i,
                forall|j: int| 0 <= j < i ==> #[trigger] out@[j]@ == self.content@[j]@,
            decreases self.content@.len() - i,
        {
            out.push(self.content[i].copy());
            i = i + 1;
        }
        assert(parts(out@) =~= parts(self.content@));
        ToolOutput {
            content: out,
            is_error: self.is_error,
            structured_content: copy_json(&self.structured_content),
            meta: copy_json(&self.meta),
        }
    }
}

/// What the result of a tool call holds.
pub open spec fn result_model(r: Result<ToolOutput, ErrorData>) -> Result<OutputModel, ErrorModel> {
    match r {
        Ok(o) => Ok(o@),
        Err(e) => Err(e@),
    }
}

/// The answer to a tool request.
#[derive(Debug, PartialEq, Eq)]
pub struct ToolResponse {
    pub id: String,
    pub result: Result<ToolOutput, ErrorData>,
    pub metadata: Option<Json>,
}

#[verifier::ext_equal]
pub struct ResponseModel {
    pub id: Seq<char>,
    pub result: Result<OutputModel, ErrorModel>,
    pub metadata: Option<Tree>,
}

impl ToolResponse {
    pub open spec fn view(&self) -> ResponseModel {
        ResponseModel {
            id: self.id@,
            result: result_model(self.result),
            metadata: tree_opt(self.metadata),
        }
    }

    pub fn copy(&self) -> (r: ToolResponse)
        ensures
            r@ == self@,
    {
        ToolResponse {
            id: self.id.clone(),
            result: match &self.result {
                Ok(o) => Ok(o.copy()),
                Err(e) => Err(e.copy()),
            },
            metadata: copy_json(&self.metadata),
        }
    }
}

/// The kinds of notice that are shown to the user.
#[derive(Clone, Copy, PartialEq, Eq, Structural, Debug)]
pub enum NotificationKind {
    InlineMessage,
    ThinkingMessage,
    CreditsExhausted,
}

/// What the user did with a form.
#[derive(Clone, Copy, PartialEq, Eq, Structural, Debug)]
pub enum ElicitationAction {
    Accept,
    Decline,
    Cancel,
}

/// The contents of a message. Contents that no rule here looks into are held as JSON, and so is
/// what else is said of a text.
#[derive(Debug, PartialEq, Eq)]
pub enum MessageContent {
    Text { text: String, rest: Option<Json> },
    Thinking { text: String, signature: String },
    RedactedThinking(String),
    ToolRequest(ToolRequest),
    ToolResponse(ToolResponse),
    SystemNotification { kind: NotificationKind, text: String, data: Option<Json> },
    ElicitationResponse { id: String, user_data: Json, action: ElicitationAction },
    Other(Json),
}

#[verifier::ext_equal]
pub enum ContentModel {
    Text { text: Seq<char>, rest: Option<Tree> },
    Thinking { text: Seq<char>, signature: Seq<char> },
    RedactedThinking(Seq<char>),
    ToolRequest(RequestModel),
    ToolResponse(ResponseModel),
    SystemNotification { kind: NotificationKind, text: Seq<char>, data: Option<Tree> },
    ElicitationResponse { id: Seq<char>, user_data: Tree, action: ElicitationAction },
    Other(Tree),
}

/// A text of which nothing more is said.
pub open spec fn text_content(text: Seq<char>) -> ContentModel {
    ContentModel::Text { text, rest: None }
}

impl ContentModel {
    /// Whether this is reasoning of the model.
    pub open spec fn thinking(self) -> bool {
        self is Thinking || self is RedactedThinking
    }
}

impl MessageContent {
    pub open spec fn view(&self) -> ContentModel {
        match self {
            MessageContent::Text { text, rest } => ContentModel::Text {
                text: text@,
                rest: tree_opt(*rest),
            },
            MessageContent::Thinking { text, signature } => ContentModel::Thinking {
                text: text@,
                signature: signature@,
            },
            MessageContent::RedactedThinking(s) => ContentModel::RedactedThinking(s@),
            MessageContent::ToolRequest(r) => ContentModel::ToolRequest(r@),
            MessageContent::ToolResponse(r) => ContentModel::ToolResponse(r@),
            MessageContent::SystemNotification { kind, text, data } =>
                ContentModel::SystemNotification {
                kind: *kind,
                text: text@,
                data: tree_opt(*data),
            },
            MessageContent::ElicitationResponse { id, user_data, action } =>
                ContentModel::ElicitationResponse {
                id: id@,
                user_data: user_data@,
                action: *action,
            },
            MessageContent::Other(j) => ContentModel::Other(j@),
        }
    }

    pub fn copy(&self) -> (r: MessageContent)
        ensures
            r@ == self@,
    {
        match self {
            MessageContent::Text { text, rest } => MessageContent::Text {
                text: text.clone(),
                rest: copy_json(rest),
            },
            MessageContent::Thinking { text, signature } => MessageContent::Thinking {
                text: text.clone(),
                signature: signature.clone(),
            },
            MessageContent::RedactedThinking(s) => MessageContent::RedactedThinking(s.clone()),
            MessageContent::ToolRequest(r) => MessageContent::ToolRequest(r.copy()),
            MessageContent::ToolResponse(r) => MessageContent::ToolResponse(r.copy()),
            MessageContent::SystemNotification { kind, text, data } =>
                MessageContent::SystemNotification {
                kind: *kind,
                text: text.clone(),
                data: copy_json(data),
            },
            MessageContent::ElicitationResponse { id, user_data, action } =>
                MessageContent::ElicitationResponse {
                id: id.clone(),
                user_data: user_data.copy(),
                action: *action,
            },
            MessageContent::Other(j) => MessageContent::Other(j.copy()),
        }
    }

    /// A text of which nothing more is said.
    pub fn text(text: String) -> (r: MessageContent)
        ensures
            r@ == text_content(text@),
    {
        MessageContent::Text { text, rest: None }
    }

    /// Whether this is reasoning of the model.
    pub fn is_thinking(&self) -> (r: bool)
        ensures
            r == self@.thinking(),
    {
        match self {
            MessageContent::Thinking { .. } => true,
            MessageContent::RedactedThinking(_) => true,
            _ => false,
        }
    }
}

/// What the contents of a sequence hold.
pub open spec fn contents(v: Seq<MessageContent>) -> Seq<ContentModel> {
    Seq::new(v.len(), |i: int| v[i]@)
}

/// A copy of a vector of contents.
pub fn copy_contents(v: &Vec<MessageContent>) -> (r: Vec<MessageContent>)
    ensures
        contents(r@) == contents(v@),
{
    let mut out: Vec<MessageContent> = Vec::new();
    let mut i: usize = 0;
    while i < v.len()
        invariant
            i <= v@.len(),
            out@.len() == i,
            forall|j: int| 0 <= j < i ==> #[trigger] out@[j]@ == v@[j]@,
        decreases v@.len() - i,
    {
        out.push(v[i].copy());
        i = i + 1;
    }
    assert(contents(out@) =~= contents(v@));
    out
}

/// Which model answered, where the provider resolved the requested name to another.
#[derive(Debug, PartialEq, Eq)]
pub struct Inference {
    pub provider: String,
    pub requested_model: String,
    pub resolved_model: String,
}

#[verifier::ext_equal]
pub struct InferenceModel {
    pub provider: Seq<char>,
    pub requested_model: Seq<char>,
    pub resolved_model: Seq<char>,
}

impl Inference {
    pub open spec fn view(&self) -> InferenceModel {
        InferenceModel {
            provider: self.provider@,
            requested_model: self.requested_model@,
            resolved_model: self.resolved_model@,
        }
    }

    pub fn copy(&self) -> (r: Inference)
        ensures
            r@ == self@,
    {
        Inference {
            provider: self.provider.clone(),
            requested_model: self.requested_model.clone(),
            resolved_model: self.resolved_model.clone(),
        }
    }
}

pub open spec fn inference_opt(o: Option<Inference>) -> Option<InferenceModel> {
    match o {
        Some(i) => Some(i@),
        None => None,
    }
}

/// A message of a conversation.
#[derive(Debug, PartialEq, Eq)]
pub struct Message {
    pub id: Option<String>,
    pub role: Role,
    pub created: i64,
    pub content: Vec<MessageContent>,
    pub user_visible: bool,
    pub agent_visible: bool,
    pub steer: bool,
    pub inference: Option<Inference>,
}

#[verifier::ext_equal]
pub struct MessageModel {
    pub id: Option<Seq<char>>,
    pub role: Role,
    pub created: i64,
    pub content: Seq<ContentModel>,
    pub user_visible: bool,
    pub agent_visible: bool,
    pub steer: bool,
    pub inference: Option<InferenceModel>,
}

/// A visible message without an id.
pub open spec fn plain_message(
    role: Role,
    created: i64,
    content: Seq<ContentModel>,
) -> MessageModel {
    MessageModel {
        id: None,
        role,
        created,
        content,
        user_visible: true,
        agent_visible: true,
        steer: false,
        inference: None,
    }
}

/// A visible message of one text.
pub open spec fn text_message(role: Role, created: i64, text: Seq<char>) -> MessageModel {
    plain_message(role, created, seq![text_content(text)])
}

/// A notice to the user.
pub open spec fn notice(created: i64, kind: NotificationKind, text: Seq<char>) -> MessageModel {
    plain_message(
        Role::Assistant,
        created,
        seq![ContentModel::SystemNotification { kind, text, data: None }],
    )
}

impl MessageModel {
    pub open spec fn with_visibility(self, user_visible: bool, agent_visible: bool) -> MessageModel {
        MessageModel { user_visible, agent_visible, ..self }
    }
}

/// The text parts of some contents, in order.
pub open spec fn text_parts(content: Seq<ContentModel>) -> Seq<Seq<char>>
    decreases content.len(),
{
    if content.len() == 0 {
        Seq::empty()
    } else {
        let head = text_parts(content.drop_last());
        match content.last() {
            ContentModel::Text { text, .. } => head.push(text),
            _ => head,
        }
    }
}

impl Message {
    pub open spec fn view(&self) -> MessageModel {
        MessageModel {
            id: text_opt(self.id),
            role: self.role,
            created: self.created,
            content: contents(self.content@),
            user_visible: self.user_visible,
            agent_visible: self.agent_visible,
            steer: self.steer,
            inference: inference_opt(self.inference),
        }
    }

    /// A visible message without an id.
    pub fn new(role: Role, created: i64, content: Vec<MessageContent>) -> (r: Message)
        ensures
            r@ == plain_message(role, created, contents(content@)),
    {
        Message {
            id: None,
            role,
            created,
            content,
            user_visible: true,
            agent_visible: true,
            steer: false,
            inference: None,
        }
    }

    /// A visible message of one text.
    pub fn text(role: Role, created: i64, text: String) -> (r: Message)
        ensures
            r@ == text_message(role, created, text@),
    {
        let content = vec![MessageContent::text(text)];
        assert(contents(content@) =~= seq![text_content(text@)]);
        Message::new(role, created, content)
    }

    /// A notice to the user.
    pub fn notification(created: i64, kind: NotificationKind, text: String) -> (r: Message)
        ensures
            r@ == notice(created, kind, text@),
    {
        let content = vec![MessageContent::SystemNotification { kind, text, data: None }];
        assert(contents(content@) =~= notice(created, kind, text@).content);
        Message::new(Role::Assistant, created, content)
    }

    pub fn copy(&self) -> (r: Message)
        ensures
            r@ == self@,
    {
        Message {
            id: copy_text(&self.id),
            role: self.role,
            created: self.created,
            content: copy_contents(&self.content),
            user_visible: self.user_visible,
            agent_visible: self.agent_visible,
            steer: self.steer,
            inference: match &self.inference {
                Some(i) => Some(i.copy()),
                None => None,
            },
        }
    }

    pub fn with_visibility(self, user_visible: bool, agent_visible: bool) -> (r: Message)
        ensures
            r@ == self@.with_visibility(user_visible, agent_visible),
    {
        Message {
            id: self.id,
            role: self.role,
            created: self.created,
            content: self.content,
            user_visible,
            agent_visible,
            steer: self.steer,
            inference: self.inference,
        }
    }

    /// The text parts of the message, in order.
    pub fn text_parts(&self) -> (r: Vec<String>)
        ensures
            texts(r@) == text_parts(self@.content),
    {
        let mut out: Vec<String> = Vec::new();
        let mut i: usize = 0;
        assert(texts(out@) =~= text_parts(contents(self.content@).take(0)));
        while i < self.content.len()
            invariant
                i <= self.content@.len(),
                texts(out@) == text_parts(contents(self.content@).take(i as int)),
            decreases self.content@.len() - i,
        {
            let ghost next = contents(self.content@).take(i + 1);
            assert(next.drop_last() =~= contents(self.content@).take(i as int));
            let ghost before = texts(out@);
            if let MessageContent::Text { text, .. } = &self.content[i] {
                out.push(text.clone());
                assert(texts(out@) =~= before.push(text@));
            }
            i = i + 1;
        }
        assert(contents(self.content@).take(i as int) =~= contents(self.content@));
        out
    }
}

/// What the messages of a sequence hold.
pub open spec fn messages(v: Seq<Message>) -> Seq<MessageModel> {
    Seq::new(v.len(), |i: int| v[i]@)
}

/// A copy of a vector of messages.
pub fn copy_messages(v: &Vec<Message>) -> (r: Vec<Message>)
    ensures
        messages(r@) == messages(v@),
{
    let mut out: Vec<Message> = Vec::new();
    let mut i: usize = 0;
    while i < v.len()
        invariant
            i <= v@.len(),
            out@.len() == i,
            forall|j: int| 0 <= j < i ==> #[trigger] out@[j]@ == v@[j]@,
        decreases v@.len() - i,
    {
        out.push(v[i].copy());
        i = i + 1;
    }
    assert(messages(out@) =~= messages(v@));
    out
}

/// What a call came to is told by its mark: a failed one says so, and each holds its text for
/// everyone.
pub proof fn law_results_tell_success(text: Seq<char>)
    ensures
        error_text(text).is_error == Some(true),
        success_text(text).is_error == Some(false),
        error_text(text).content == success_text(text).content,
        success_text(text).content.len() == 1,
        success_text(text).content[0] matches PartModel::Text { text: t, audience, .. } && t == text
            && audience is None,
{
}

/// A message is seen by both sides unless it is said otherwise, comes with its text and nothing
/// else, and a notice is the assistant's.
pub proof fn law_messages_are_seen_by_both(
    role: Role,
    created: i64,
    text: Seq<char>,
    kind: NotificationKind,
    user: bool,
    agent: bool,
)
    ensures
        ({
            let m = text_message(role, created, text);
            &&& m.role == role
            &&& m.created == created
            &&& m.user_visible && m.agent_visible && !m.steer
            &&& m.id is None && m.inference is None
            &&& m.content == seq![text_content(text)]
            &&& m.with_visibility(user, agent).user_visible == user
            &&& m.with_visibility(user, agent).agent_visible == agent
            &&& m.with_visibility(user, agent).content == m.content
        }),
        ({
            let n = notice(created, kind, text);
            &&& n.role == Role::Assistant
            &&& n.content.len() == 1
            &&& n.content[0] matches ContentModel::SystemNotification { kind: k, text: t, .. } && k
                == kind && t == text
        }),
{
}

/// The provider ran a tool exactly where the request's metadata says so with a plain yes.
pub proof fn law_external_requests_say_so(r: RequestModel, v: Tree)
    ensures
        r.tool_meta is None ==> !r.external(),
        (r.tool_meta matches Some(m) && m.get("goose.external_dispatch"@) is None) ==> !r.external(),
        (r.tool_meta matches Some(m) && m.get("goose.external_dispatch"@) == Some(v)) ==> (
        r.external() <==> v == Tree::Bool(true)),
{
}

/// The text parts of some contents are those of its texts, in order.
pub proof fn law_text_parts_keep_their_order(a: Seq<ContentModel>, b: Seq<ContentModel>)
    ensures
        text_parts(a + b) == text_parts(a) + text_parts(b),
        a.len() == 1 ==> text_parts(a) == match a[0] {
            ContentModel::Text { text, .. } => seq![text],
            _ => Seq::empty(),
        },
    decreases b.len(),
{
    if a.len() == 1 {
        assert(a.drop_last() =~= Seq::empty());
        assert(text_parts(a.drop_last()) =~= Seq::empty());
        assert(a.last() == a[0]);
        if let ContentModel::Text { text, .. } = a[0] {
            assert(text_parts(a) =~= seq![text]);
        }
    }
    if b.len() > 0 {
        law_text_parts_keep_their_order(a, b.drop_last());
        assert((a + b).drop_last() =~= a + b.drop_last());
        assert((a + b).last() == b.last());
        assert(text_parts(a + b) =~= text_parts(a) + text_parts(b));
    } else {
        assert(a + b =~= a);
        assert(text_parts(a) + text_parts(b) =~= text_parts(a));
    }
}

} // verus!
