//! Calls to the backend that keeps history and notes: what is sent, for whom, and how each step
//! that fails is reported.

use vstd::prelude::*;
use vstd::string::StringExecFns;

use crate::history::AccountScope;
use crate::history::ScopeModel;
use crate::history::scoped;
use crate::json::JsonModel;
use crate::json::document;
use crate::json::empty_object;
use crate::json::insert_member;
use crate::json::is_object;
use crate::json::read_bytes;
use crate::json::read_bytes_of;
use crate::json::text_value;
use crate::table::ascending;
use crate::table::lookup;
use crate::table::placed;
use crate::table::placed_found;
use crate::text::maybe;
use crate::text::same;

verus! {

/// The header that says that arguments are encrypted.
pub const ENCRYPTED_TOOL_ARGUMENTS_HEADER: &'static str = "x-openai-encrypted-tool-arguments";

/// The header that says how the output is to be shortened.
pub const TOOL_OUTPUT_TRUNCATION_POLICY_HEADER: &'static str = "x-openai-tool-output-truncation-policy";

/// How long the backend may take, in seconds.
pub const HISTORY_NOTES_BACKEND_TIMEOUT: u64 = 35;

/// The character can stand in a header value: a tab, or any character from the space on but for the
/// one that deletes.
pub open spec fn header_char(c: char) -> bool {
    c as u32 == 9 || (c as u32 >= 32 && c as u32 != 127)
}

/// The text can stand as a header value.
pub open spec fn header_text(s: Seq<char>) -> bool {
    forall|i: int| 0 <= i < s.len() ==> header_char(#[trigger] s[i])
}

/// `http::HeaderValue::from_str` takes a text whose bytes are each a tab, or at least 32 and not
/// 127; every byte of a character beyond ASCII is above that.
#[verifier::external_body]
fn is_header_value(text: &str) -> (r: bool)
    ensures
        r == header_text(text@),
{
    http::HeaderValue::from_str(text).is_ok()
}

/// What names the caller among the arguments.
pub open spec fn context_of(session_id: Seq<char>, agent: Seq<char>) -> JsonModel {
    JsonModel::Object(
        placed(
            placed(Seq::empty(), "session_id"@, JsonModel::Text(session_id)),
            "current_agent_name"@,
            JsonModel::Text(agent),
        ),
    )
}

/// The arguments with the context among them; none where they are no object.
pub open spec fn contextual(
    arguments: JsonModel,
    session_id: Seq<char>,
    agent: Seq<char>,
) -> Option<JsonModel> {
    match arguments {
        JsonModel::Object(rows) => Some(
            JsonModel::Object(placed(rows, "context"@, context_of(session_id, agent))),
        ),
        _ => None,
    }
}

/// The arguments with the context among them, in place of any context that they held.
pub fn with_context(arguments: serde_json::Value, session_id: &str, agent: &str) -> (r: Result<
    serde_json::Value,
    String,
>)
    ensures
        match r {
            Ok(body) => contextual(document(arguments), session_id@, agent@) == Some(
                document(body),
            ),
            Err(error) => contextual(document(arguments), session_id@, agent@) is None && error@
                == "History tool arguments must be a JSON object"@,
        },
{
    if !is_object(&arguments) {
        return Err("History tool arguments must be a JSON object".to_string());
    }
    let mut context = empty_object();
    insert_member(&mut context, "session_id".to_string(), text_value(session_id.to_string()));
    insert_member(
        &mut context,
        "current_agent_name".to_string(),
        text_value(agent.to_string()),
    );
    let mut body = arguments;
    insert_member(&mut body, "context".to_string(), context);
    Ok(body)
}

/// The paths whose arguments are encrypted.
pub open spec fn sealed_path(path: Seq<char>) -> bool {
    ||| path == "alpha/history/v2/search_contents"@
    ||| path == "alpha/notes/v2/search_contents"@
    ||| path == "alpha/notes/v2/append_to_file"@
    ||| path == "alpha/notes/v2/write_file"@
}

/// Whether the arguments for a path are encrypted.
pub fn is_sealed_path(path: &str) -> (r: bool)
    ensures
        r == sealed_path(path@),
{
    same(path, "alpha/history/v2/search_contents") || same(path, "alpha/notes/v2/search_contents")
        || same(path, "alpha/notes/v2/append_to_file") || same(path, "alpha/notes/v2/write_file")
}

/// What is called, and on whose behalf.
#[derive(Debug, PartialEq, Eq)]
pub struct NotesRequest {
    pub path: String,
    /// The account that the arguments were encrypted for.
    pub originating_account: Option<AccountScope>,
}

/// The outside steps of a call, in the order of one that goes through.
#[derive(Clone, Copy, Debug, PartialEq, Eq, Structural)]
pub enum NotesWork {
    ResolveAuth,
    EncodePolicy,
    ApplyAuth,
    Execute,
    /// The call is answered.
    Reply,
}

/// How an outside step ended.
#[derive(Debug, PartialEq, Eq)]
pub enum NotesEvent {
    Done,
    Failed,
    /// The account that the request will be sent for, where it is known.
    Account(Option<AccountScope>),
    /// The policy by which the output is shortened, as it is written down.
    Policy(String),
    /// What the backend sent back.
    Body(Vec<u8>),
}

/// A call on its way.
#[derive(Debug)]
pub struct NotesCall {
    pub doing: NotesWork,
    pub body: Option<serde_json::Value>,
    pub account_scope: Option<AccountScope>,
    /// The policy header, once it is there.
    pub policy: Option<String>,
    /// The arguments are marked as encrypted.
    pub sealed: bool,
    pub response: Option<serde_json::Value>,
    pub failure: Option<String>,
}

/// A call on its way, with its texts as sequences of characters.
#[verifier::ext_equal]
pub struct NotesModel {
    pub doing: NotesWork,
    pub body: Option<JsonModel>,
    pub account_scope: Option<ScopeModel>,
    pub policy: Option<Seq<char>>,
    pub sealed: bool,
    pub response: Option<JsonModel>,
    pub failure: Option<Seq<char>>,
}

/// What an optional document holds.
pub open spec fn documented(value: Option<serde_json::Value>) -> Option<JsonModel> {
    match value {
        Some(value) => Some(document(value)),
        None => None,
    }
}

impl View for NotesCall {
    type V = NotesModel;

    open spec fn view(&self) -> NotesModel {
        NotesModel {
            doing: self.doing,
            body: documented(self.body),
            account_scope: scoped(self.account_scope),
            policy: maybe(self.policy),
            sealed: self.sealed,
            response: documented(self.response),
            failure: maybe(self.failure),
        }
    }
}

/// A call that starts with its first step.
pub open spec fn calling(body: Option<JsonModel>) -> NotesModel {
    NotesModel {
        doing: NotesWork::ResolveAuth,
        body,
        account_scope: None,
        policy: None,
        sealed: false,
        response: None,
        failure: None,
    }
}

/// The call is answered with a failure of the operation.
pub open spec fn not_done(call: NotesModel, what: Seq<char>) -> NotesModel {
    NotesModel {
        doing: NotesWork::Reply,
        failure: Some("Unable to perform operation:"@ + what),
        ..call
    }
}

/// The arguments belong to the account that the request is sent for.
pub open spec fn owns_arguments(originating: Option<ScopeModel>, account: Option<ScopeModel>) -> bool {
    originating is Some && originating == account
}

/// What a call does next. An event that does not answer the step being taken changes nothing.
pub open spec fn notes_stepped(
    request: NotesRequest,
    call: NotesModel,
    event: NotesEvent,
) -> NotesModel {
    match (call.doing, event) {
        (NotesWork::ResolveAuth, NotesEvent::Account(account)) => NotesModel {
            doing: NotesWork::EncodePolicy,
            account_scope: scoped(account),
            ..call
        },
        (NotesWork::ResolveAuth, NotesEvent::Failed) => not_done(
            call,
            " Could not resolve backend authentication."@,
        ),
        (NotesWork::EncodePolicy, NotesEvent::Policy(policy)) => if !header_text(policy@) {
            not_done(call, " Could not construct the output truncation policy header."@)
        } else if sealed_path(request.path@) && !owns_arguments(
            scoped(request.originating_account),
            call.account_scope,
        ) {
            not_done(call, " Encrypted arguments belong to a different or unknown account."@)
        } else {
            NotesModel {
                doing: NotesWork::ApplyAuth,
                policy: Some(policy@),
                sealed: sealed_path(request.path@),
                ..call
            }
        },
        (NotesWork::EncodePolicy, NotesEvent::Failed) => not_done(
            call,
            " Could not encode the output truncation policy."@,
        ),
        (NotesWork::ApplyAuth, NotesEvent::Done) => NotesModel {
            doing: NotesWork::Execute,
            ..call
        },
        (NotesWork::ApplyAuth, NotesEvent::Failed) => not_done(
            call,
            " Could not apply backend authentication."@,
        ),
        (NotesWork::Execute, NotesEvent::Body(bytes)) => match read_bytes_of(bytes@) {
            Some(value) => NotesModel {
                doing: NotesWork::Reply,
                response: Some(value),
                ..call
            },
            None => not_done(call, " The backend returned invalid JSON."@),
        },
        (NotesWork::Execute, NotesEvent::Failed) => not_done(call, " The backend request failed."@),
        _ => call,
    }
}

/// Whether the arguments belong to the account that the request is sent for.
fn owns(originating: &Option<AccountScope>, account: &Option<AccountScope>) -> (r: bool)
    ensures
        r == owns_arguments(scoped(*originating), scoped(*account)),
{
    match (originating, account) {
        (Some(originating), Some(account)) => originating.same_as(account),
        _ => false,
    }
}

impl NotesCall {
    /// A call that starts with its first step, unless the arguments are no object.
    pub fn start(arguments: serde_json::Value, session_id: &str, agent: &str) -> (call: Self)
        ensures
            call@ == match contextual(document(arguments), session_id@, agent@) {
                Some(body) => calling(Some(body)),
                None => NotesModel {
                    doing: NotesWork::Reply,
                    failure: Some("History tool arguments must be a JSON object"@),
                    ..calling(None)
                },
            },
    {
        let (doing, body, failure) = match with_context(arguments, session_id, agent) {
            Ok(body) => (NotesWork::ResolveAuth, Some(body), None),
            Err(error) => (NotesWork::Reply, None, Some(error)),
        };
        NotesCall {
            doing,
            body,
            account_scope: None,
            policy: None,
            sealed: false,
            response: None,
            failure,
        }
    }

    /// The call is answered with a failure of the operation.
    fn fail(self, what: &str) -> (call: Self)
        ensures
            call@ == not_done(self@, what@),
    {
        let mut error = "Unable to perform operation:".to_string();
        error.append(what);
        let mut call = self;
        call.doing = NotesWork::Reply;
        call.failure = Some(error);
        call
    }

    /// What the call does next, now that its step ended. An event that does not answer the step
    /// being taken changes nothing.
    pub fn next(self, request: &NotesRequest, event: NotesEvent) -> (call: Self)
        ensures
            call@ == notes_stepped(*request, self@, event),
    {
        let mut call = self;
        match (call.doing, event) {
            (NotesWork::ResolveAuth, NotesEvent::Account(account)) => {
                call.doing = NotesWork::EncodePolicy;
                call.account_scope = account;
            },
            (NotesWork::ResolveAuth, NotesEvent::Failed) => {
                return call.fail(" Could not resolve backend authentication.");
            },
            (NotesWork::EncodePolicy, NotesEvent::Policy(policy)) => {
                if !is_header_value(policy.as_str()) {
                    return call.fail(
                        " Could not construct the output truncation policy header.",
                    );
                }
                let sealed = is_sealed_path(request.path.as_str());
                if sealed && !owns(&request.originating_account, &call.account_scope) {
                    return call.fail(
                        " Encrypted arguments belong to a different or unknown account.",
                    );
                }
                call.doing = NotesWork::ApplyAuth;
                call.policy = Some(policy);
                call.sealed = sealed;
            },
            (NotesWork::EncodePolicy, NotesEvent::Failed) => {
                return call.fail(" Could not encode the output truncation policy.");
            },
            (NotesWork::ApplyAuth, NotesEvent::Done) => {
                call.doing = NotesWork::Execute;
            },
            (NotesWork::ApplyAuth, NotesEvent::Failed) => {
                return call.fail(" Could not apply backend authentication.");
            },
            (NotesWork::Execute, NotesEvent::Body(bytes)) => {
                match read_bytes(bytes.as_slice()) {
                    Some(value) => {
                        call.doing = NotesWork::Reply;
                        call.response = Some(value);
                    },
                    None => {
                        return call.fail(" The backend returned invalid JSON.");
                    },
                }
            },
            (NotesWork::Execute, NotesEvent::Failed) => {
                return call.fail(" The backend request failed.");
            },
            (_, _) => {},
        }
        call
    }
}

/// The headers that a call is sent with.
pub open spec fn headers_of(call: NotesModel) -> Seq<(Seq<char>, Seq<char>)> {
    (match call.policy {
        Some(policy) => seq![("x-openai-tool-output-truncation-policy"@, policy)],
        None => Seq::empty(),
    }) + (if call.sealed {
        seq![("x-openai-encrypted-tool-arguments"@, "true"@)]
    } else {
        Seq::empty()
    })
}

/// What a list of headers stands for.
pub open spec fn headed(list: Seq<(String, String)>) -> Seq<(Seq<char>, Seq<char>)> {
    Seq::new(list.len(), |i: int| (list[i].0@, list[i].1@))
}

impl NotesCall {
    /// The headers that the call is sent with, by name and value.
    pub fn headers(&self) -> (r: Vec<(String, String)>)
        ensures
            headed(r@) == headers_of(self@),
    {
        let mut out: Vec<(String, String)> = Vec::new();
        if let Some(policy) = &self.policy {
            out.push((TOOL_OUTPUT_TRUNCATION_POLICY_HEADER.to_string(), policy.clone()));
        }
        if self.sealed {
            out.push((ENCRYPTED_TOOL_ARGUMENTS_HEADER.to_string(), "true".to_string()));
        }
        assert(headed(out@) =~= headers_of(self@));
        out
    }
}

/// Where a call stands after a run of events.
pub open spec fn notes_after(
    request: NotesRequest,
    first: NotesModel,
    events: Seq<NotesEvent>,
) -> NotesModel
    decreases events.len(),
{
    if events.len() == 0 {
        first
    } else {
        notes_stepped(request, notes_after(request, first, events.drop_last()), events.last())
    }
}

/// Encrypted arguments are sent only for the account that they were encrypted for, marked as
/// encrypted, and only they are marked so.
pub proof fn sealed_arguments_stay_with_their_account(
    request: NotesRequest,
    body: Option<JsonModel>,
    events: Seq<NotesEvent>,
)
    ensures
        ({
            let call = notes_after(request, calling(body), events);
            &&& call.body == body
            &&& call.doing == NotesWork::ApplyAuth || call.doing == NotesWork::Execute
                || call.response is Some ==> call.sealed == sealed_path(request.path@) && (
            call.sealed ==> owns_arguments(
                scoped(request.originating_account),
                call.account_scope,
            ))
        }),
    decreases events.len(),
{
    if events.len() > 0 {
        sealed_arguments_stay_with_their_account(request, body, events.drop_last());
        unanswered(request, body, events.drop_last());
    }
}

/// Before the request is answered there is no response.
proof fn unanswered(request: NotesRequest, body: Option<JsonModel>, events: Seq<NotesEvent>)
    ensures
        ({
            let call = notes_after(request, calling(body), events);
            call.doing != NotesWork::Reply ==> call.response is None
        }),
    decreases events.len(),
{
    if events.len() > 0 {
        unanswered(request, body, events.drop_last());
    }
}

/// The context among the arguments names the session and the agent, whatever the arguments held
/// under that key, and no other argument changes.
pub proof fn context_names_the_caller(
    rows: Seq<(Seq<char>, JsonModel)>,
    session_id: Seq<char>,
    agent: Seq<char>,
    key: Seq<char>,
)
    requires
        ascending(rows),
    ensures
        contextual(JsonModel::Object(rows), session_id, agent) matches Some(JsonModel::Object(with))
            && lookup(with, "context"@) == Some(context_of(session_id, agent)) && (key
            != "context"@ ==> lookup(with, key) == lookup(rows, key)),
        context_of(session_id, agent) matches JsonModel::Object(context) && lookup(
            context,
            "session_id"@,
        ) == Some(JsonModel::Text(session_id)) && lookup(context, "current_agent_name"@) == Some(
            JsonModel::Text(agent),
        ),
{
    placed_found(rows, "context"@, context_of(session_id, agent), key);
    let none = Seq::<(Seq<char>, JsonModel)>::empty();
    let first = placed(none, "session_id"@, JsonModel::Text(session_id));
    placed_found(none, "session_id"@, JsonModel::Text(session_id), key);
    reveal_strlit("session_id");
    reveal_strlit("current_agent_name");
    assert("session_id"@[0] != "current_agent_name"@[0]);
    placed_found(first, "current_agent_name"@, JsonModel::Text(agent), "session_id"@);
}

/// A call that goes through resolves whom it is for, writes the policy down, applies the authentication
/// and is executed, in this order; it is answered what the backend sent, and is made for that account
/// with that policy.
pub proof fn calls_go_through(
    request: NotesRequest,
    body: Option<JsonModel>,
    account: Option<AccountScope>,
    policy: String,
    bytes: Vec<u8>,
)
    requires
        header_text(policy@),
        sealed_path(request.path@) ==> account is Some && scoped(request.originating_account)
            == scoped(account),
        read_bytes_of(bytes@) is Some,
    ensures
        ({
            let start = NotesModel {
                doing: NotesWork::ResolveAuth,
                body,
                account_scope: None,
                policy: None,
                sealed: false,
                response: None,
                failure: None,
            };
            let a = notes_stepped(request, start, NotesEvent::Account(account));
            let b = notes_stepped(request, a, NotesEvent::Policy(policy));
            let c = notes_stepped(request, b, NotesEvent::Done);
            let d = notes_stepped(request, c, NotesEvent::Body(bytes));
            &&& a.doing == NotesWork::EncodePolicy
            &&& b.doing == NotesWork::ApplyAuth
            &&& c.doing == NotesWork::Execute
            &&& d.doing == NotesWork::Reply
            &&& d.failure is None
            &&& d.response == read_bytes_of(bytes@)
            &&& d.account_scope == scoped(account)
            &&& d.policy == Some(policy@)
            &&& d.body == body
            &&& d.sealed == sealed_path(request.path@)
        }),
{
}

/// Encrypted arguments of another account, or of an unknown one, are never sent: the call is answered
/// with a failure in place of being authorised. Those of a path without encrypted arguments are sent for
/// any account.
pub proof fn foreign_arguments_are_refused(
    request: NotesRequest,
    call: NotesModel,
    policy: String,
)
    requires
        call.doing == NotesWork::EncodePolicy,
        header_text(policy@),
    ensures
        ({
            let next = notes_stepped(request, call, NotesEvent::Policy(policy));
            let foreign = request.originating_account is None || scoped(
                request.originating_account,
            ) != call.account_scope;
            &&& sealed_path(request.path@) && foreign ==> next.doing == NotesWork::Reply
                && next.failure == Some(
                "Unable to perform operation:"@
                    + " Encrypted arguments belong to a different or unknown account."@,
            )
            &&& !(sealed_path(request.path@) && foreign) ==> next.doing == NotesWork::ApplyAuth
                && next.failure == call.failure
        }),
{
}

/// A step that fails answers the call with what could not be done, and so does a policy that no header
/// can hold, and an answer that is no JSON.
pub proof fn failed_calls_are_answered(
    request: NotesRequest,
    call: NotesModel,
    policy: String,
    bytes: Vec<u8>,
)
    ensures
        call.doing != NotesWork::Reply ==> ({
            let next = notes_stepped(request, call, NotesEvent::Failed);
            &&& next.doing == NotesWork::Reply
            &&& next.response == call.response
            &&& next.failure == Some(
                "Unable to perform operation:"@ + match call.doing {
                    NotesWork::ResolveAuth => " Could not resolve backend authentication."@,
                    NotesWork::EncodePolicy => " Could not encode the output truncation policy."@,
                    NotesWork::ApplyAuth => " Could not apply backend authentication."@,
                    _ => " The backend request failed."@,
                },
            )
        }),
        call.doing == NotesWork::EncodePolicy && !header_text(policy@) ==> notes_stepped(
            request,
            call,
            NotesEvent::Policy(policy),
        ).doing == NotesWork::Reply && notes_stepped(
            request,
            call,
            NotesEvent::Policy(policy),
        ).failure is Some,
        call.doing == NotesWork::Execute && read_bytes_of(bytes@) is None ==> notes_stepped(
            request,
            call,
            NotesEvent::Body(bytes),
        ).doing == NotesWork::Reply && notes_stepped(
            request,
            call,
            NotesEvent::Body(bytes),
        ).failure is Some,
{
}

/// A call is sent with its policy where it has one, and with the mark for encrypted arguments exactly
/// where they are encrypted.
pub proof fn headers_tell_policy_and_encryption(call: NotesModel)
    ensures
        call.policy matches Some(policy) ==> headers_of(call).contains(
            ("x-openai-tool-output-truncation-policy"@, policy),
        ),
        headers_of(call).contains(("x-openai-encrypted-tool-arguments"@, "true"@)) <==> call.sealed,
        headers_of(call).len() == (if call.policy is Some { 1int } else { 0 }) + (if call.sealed {
            1int
        } else {
            0
        }),
{
    let all = headers_of(call);
    reveal_strlit("x-openai-tool-output-truncation-policy");
    reveal_strlit("x-openai-encrypted-tool-arguments");
    assert("x-openai-tool-output-truncation-policy"@.len()
        != "x-openai-encrypted-tool-arguments"@.len());
    if call.policy is Some {
        assert(all[0] == ("x-openai-tool-output-truncation-policy"@, call.policy->0));
    }
    if call.sealed {
        assert(all[all.len() - 1] == ("x-openai-encrypted-tool-arguments"@, "true"@));
    }
}

/// The arguments are encrypted where contents are searched, and where notes are appended or written.
pub proof fn searches_and_writes_are_encrypted(path: Seq<char>)
    ensures
        sealed_path("alpha/history/v2/search_contents"@),
        sealed_path("alpha/notes/v2/search_contents"@),
        sealed_path("alpha/notes/v2/append_to_file"@),
        sealed_path("alpha/notes/v2/write_file"@),
        sealed_path(path) ==> path == "alpha/history/v2/search_contents"@ || path
            == "alpha/notes/v2/search_contents"@ || path == "alpha/notes/v2/append_to_file"@ || path
            == "alpha/notes/v2/write_file"@,
{
}

} // verus!
