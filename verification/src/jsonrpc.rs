//! The replies of JSON-RPC 2.0.
use crate::json::{json_string, write_string};
use crate::text::{signed_decimal, signed_decimal_text};
use vstd::prelude::*;
use vstd::string::StringExecFns;

verus! {

/// Why a request was refused.
#[derive(Clone, Copy, Debug, PartialEq, Eq, Structural)]
pub enum ErrorCode {
    /// It is not JSON.
    ParseError,
    /// It is not a request that can be served.
    InvalidRequest,
    /// There is no such method.
    MethodNotFound,
    /// Its parameters are not those of the method.
    InvalidParams,
    /// The server failed.
    InternalError,
}

impl ErrorCode {
    /// The number that stands for the code.
    pub open spec fn number(self) -> int {
        match self {
            ErrorCode::ParseError => -32700,
            ErrorCode::InvalidRequest => -32600,
            ErrorCode::MethodNotFound => -32601,
            ErrorCode::InvalidParams => -32602,
            ErrorCode::InternalError => -32603,
        }
    }

    /// The number that stands for the code.
    pub fn code(&self) -> (code: i64)
        ensures
            code == self.number(),
    {
        match self {
            ErrorCode::ParseError => -32700,
            ErrorCode::InvalidRequest => -32600,
            ErrorCode::MethodNotFound => -32601,
            ErrorCode::InvalidParams => -32602,
            ErrorCode::InternalError => -32603,
        }
    }
}

/// The refusal of a request.
#[derive(Debug)]
pub struct Error {
    pub code: ErrorCode,
    pub message: String,
}

/// What a refusal says.
pub ghost struct ErrorView {
    pub code: ErrorCode,
    pub message: Seq<char>,
}

impl View for Error {
    type V = ErrorView;

    open spec fn view(&self) -> ErrorView {
        ErrorView { code: self.code, message: self.message@ }
    }
}

impl Error {
    /// Makes a refusal.
    pub fn new(code: ErrorCode, message: &str) -> (error: Error)
        ensures
            error@ == (ErrorView { code, message: message@ }),
    {
        Error { code, message: message.to_owned() }
    }

    /// Makes the refusal of parameters.
    pub fn invalid_params(message: &str) -> (error: Error)
        ensures
            error@ == invalid_params(message@),
    {
        Error::new(ErrorCode::InvalidParams, message)
    }

    /// Makes the refusal of a request.
    pub fn invalid_request(message: &str) -> (error: Error)
        ensures
            error@ == invalid_request(message@),
    {
        Error::new(ErrorCode::InvalidRequest, message)
    }
}

/// The refusal of parameters.
pub open spec fn invalid_params(message: Seq<char>) -> ErrorView {
    ErrorView { code: ErrorCode::InvalidParams, message }
}

/// The refusal of a request.
pub open spec fn invalid_request(message: Seq<char>) -> ErrorView {
    ErrorView { code: ErrorCode::InvalidRequest, message }
}

/// The reply to a request with that id: the result, as a JSON text.
pub open spec fn result_reply(id: Seq<char>, result: Seq<char>) -> Seq<char> {
    "{\"id\":"@ + id + ",\"jsonrpc\":\"2.0\",\"result\":"@ + result + "}"@
}

/// The reply to a request with that id that was refused.
pub open spec fn error_reply(id: Seq<char>, error: ErrorView) -> Seq<char> {
    "{\"error\":{\"code\":"@ + signed_decimal(error.code.number()) + ",\"message\":"@ + json_string(
        error.message,
    ) + "},\"id\":"@ + id + ",\"jsonrpc\":\"2.0\"}"@
}

/// Writes the reply that carries a result.
pub fn send_result(id: &str, result: &str) -> (reply: String)
    ensures
        reply@ == result_reply(id@, result@),
{
    let mut reply = "{\"id\":".to_owned();
    reply.append(id);
    reply.append(",\"jsonrpc\":\"2.0\",\"result\":");
    reply.append(result);
    reply.append("}");
    reply
}

/// Writes the reply that carries a refusal.
pub fn send_error(id: &str, error: &Error) -> (reply: String)
    ensures
        reply@ == error_reply(id@, error@),
{
    let mut reply = "{\"error\":{\"code\":".to_owned();
    reply.append(signed_decimal_text(error.code.code()).as_str());
    reply.append(",\"message\":");
    reply.append(write_string(error.message.as_str()).as_str());
    reply.append("},\"id\":");
    reply.append(id);
    reply.append(",\"jsonrpc\":\"2.0\"}");
    reply
}

/// The text of a member of a JSON object.
pub open spec fn member_as_text(name: Seq<char>, value: Seq<char>) -> Seq<char> {
    seq!['"'] + name + seq!['"', ':'] + value
}

/// The texts of members, with a comma between each and the next.
pub open spec fn members_as_text(members: Seq<(Seq<char>, Seq<char>)>) -> Seq<char>
    decreases members.len(),
{
    if members.len() == 0 {
        Seq::empty()
    } else if members.len() == 1 {
        member_as_text(members[0].0, members[0].1)
    } else {
        members_as_text(members.drop_last()) + seq![','] + member_as_text(
            members.last().0,
            members.last().1,
        )
    }
}

/// The text of a JSON object with these members, the values being JSON texts.
pub open spec fn object_text(members: Seq<(Seq<char>, Seq<char>)>) -> Seq<char> {
    seq!['{'] + members_as_text(members) + seq!['}']
}

/// The text of an object with one, two, three or four members.
pub proof fn lemma_object_text(
    a: (Seq<char>, Seq<char>),
    b: (Seq<char>, Seq<char>),
    c: (Seq<char>, Seq<char>),
    d: (Seq<char>, Seq<char>),
)
    ensures
        object_text(seq![a]) == seq!['{'] + member_as_text(a.0, a.1) + seq!['}'],
        object_text(seq![a, b]) == seq!['{'] + (member_as_text(a.0, a.1) + seq![',']
            + member_as_text(b.0, b.1)) + seq!['}'],
        object_text(seq![a, b, c]) == seq!['{'] + (member_as_text(a.0, a.1) + seq![',']
            + member_as_text(b.0, b.1) + seq![','] + member_as_text(c.0, c.1)) + seq!['}'],
        object_text(seq![a, b, c, d]) == seq!['{'] + (member_as_text(a.0, a.1) + seq![',']
            + member_as_text(b.0, b.1) + seq![','] + member_as_text(c.0, c.1) + seq![',']
            + member_as_text(d.0, d.1)) + seq!['}'],
{
    assert(seq![a, b].drop_last() =~= seq![a]);
    assert(seq![a, b, c].drop_last() =~= seq![a, b]);
    assert(seq![a, b, c, d].drop_last() =~= seq![a, b, c]);
    reveal_with_fuel(members_as_text, 4);
}

/// The reply to a request that was served is a JSON object of the id, the version and the result,
/// each as it was given.
pub proof fn results_are_json_rpc_objects(id: Seq<char>, result: Seq<char>)
    ensures
        result_reply(id, result) == object_text(
            seq![("id"@, id), ("jsonrpc"@, "\"2.0\""@), ("result"@, result)],
        ),
{
    lemma_object_text(
        ("id"@, id),
        ("jsonrpc"@, "\"2.0\""@),
        ("result"@, result),
        ("result"@, result),
    );
    reveal_strlit("{\"id\":");
    reveal_strlit(",\"jsonrpc\":\"2.0\",\"result\":");
    reveal_strlit("}");
    reveal_strlit("id");
    reveal_strlit("jsonrpc");
    reveal_strlit("\"2.0\"");
    reveal_strlit("result");
    assert("{\"id\":"@ =~= seq!['{'] + (seq!['"'] + "id"@ + seq!['"', ':']));
    assert(",\"jsonrpc\":\"2.0\",\"result\":"@ =~= seq![','] + member_as_text(
        "jsonrpc"@,
        "\"2.0\""@,
    ) + seq![','] + (seq!['"'] + "result"@ + seq!['"', ':']));
    assert("}"@ =~= seq!['}']);
    assert(result_reply(id, result) =~= object_text(
        seq![("id"@, id), ("jsonrpc"@, "\"2.0\""@), ("result"@, result)],
    ));
}

/// The reply to a request that was refused is a JSON object of the error, with its number and its
/// message, the id as it was given, and the version.
pub proof fn errors_are_json_rpc_objects(id: Seq<char>, error: ErrorView)
    ensures
        ({
            let number = match error.code {
                ErrorCode::ParseError => -32_700int,
                ErrorCode::InvalidRequest => -32_600int,
                ErrorCode::MethodNotFound => -32_601int,
                ErrorCode::InvalidParams => -32_602int,
                ErrorCode::InternalError => -32_603int,
            };
            let inner = object_text(
                seq![
                    ("code"@, signed_decimal(number)),
                    ("message"@, json_string(error.message)),
                ],
            );
            error_reply(id, error) == object_text(
                seq![("error"@, inner), ("id"@, id), ("jsonrpc"@, "\"2.0\""@)],
            )
        }),
{
    let code = signed_decimal(error.code.number());
    let message = json_string(error.message);
    let inner = object_text(seq![("code"@, code), ("message"@, message)]);
    lemma_object_text(("code"@, code), ("message"@, message), ("id"@, id), ("id"@, id));
    lemma_object_text(
        ("error"@, inner),
        ("id"@, id),
        ("jsonrpc"@, "\"2.0\""@),
        ("id"@, id),
    );
    reveal_strlit("{\"error\":{\"code\":");
    reveal_strlit(",\"message\":");
    reveal_strlit("},\"id\":");
    reveal_strlit(",\"jsonrpc\":\"2.0\"}");
    reveal_strlit("error");
    reveal_strlit("code");
    reveal_strlit("message");
    reveal_strlit("id");
    reveal_strlit("jsonrpc");
    reveal_strlit("\"2.0\"");
    assert("{\"error\":{\"code\":"@ =~= seq!['{'] + (seq!['"'] + "error"@ + seq!['"', ':']) + seq![
        '{',
    ] + (seq!['"'] + "code"@ + seq!['"', ':']));
    assert(",\"message\":"@ =~= seq![','] + (seq!['"'] + "message"@ + seq!['"', ':']));
    assert("},\"id\":"@ =~= seq!['}'] + seq![','] + (seq!['"'] + "id"@ + seq!['"', ':']));
    assert(",\"jsonrpc\":\"2.0\"}"@ =~= seq![','] + member_as_text("jsonrpc"@, "\"2.0\""@) + seq![
        '}',
    ]);
    assert(error_reply(id, error) =~= object_text(
        seq![("error"@, inner), ("id"@, id), ("jsonrpc"@, "\"2.0\""@)],
    ));
}

/// The refusals of parameters and of a request carry the message and the code that is for them.
pub proof fn refusals_carry_their_message(message: Seq<char>)
    ensures
        invalid_params(message).code == ErrorCode::InvalidParams,
        invalid_params(message).message == message,
        invalid_request(message).code == ErrorCode::InvalidRequest,
        invalid_request(message).message == message,
{
}

} // verus!
