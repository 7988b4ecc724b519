//! What the inspector and its server tell each other.

use vstd::prelude::*;
use tokio::sync::mpsc::{Receiver, Sender};
use crate::inspector::api::UpdateResult;
use crate::inspector::values::errors::InspectorError;
use crate::inspector::values::listener::update_channel;

verus! {

/// How many updates may wait for one client.
pub const CHANNEL_SIZE: usize = 1024;

/// The fewest bytes that a token has.
pub const TOKEN_LENGTH_MIN: usize = 8;

/// The settings of the inspector. Durations are in milliseconds.
pub struct Config {
    /// The address to listen on, as text.
    pub ip: String,
    pub port: u16,
    pub auth_tokens: Vec<Token>,
    pub heartbeat_period: u64,
    pub update_period: u64,
    pub parallel_requests_max: usize,
}

/// The heartbeat period of a configuration that names none: two seconds.
pub fn heartbeat_period_default() -> (period: u64)
    ensures
        period == 2000,
{
    2000
}

/// The bound on parallel requests of a configuration that names none.
pub fn parallel_requests_max_default() -> (max: usize)
    ensures
        max == 1024,
{
    1024
}

/// What a client asks for.
#[derive(Clone, Copy, PartialEq, Eq, Structural, Debug, Hash)]
pub enum RequestBody {
    GetTopology,
}

/// The number of a request.
#[derive(Clone, Copy, PartialEq, Eq, Structural, Debug)]
pub struct RequestId(pub u64);

impl Default for RequestId {
    fn default() -> (id: RequestId)
        ensures
            id == RequestId(1),
    {
        RequestId(1)
    }
}

/// The secret by which a client shows that it may ask.
pub struct Token {
    secret: String,
}

impl Token {
    /// The text of the token.
    pub closed spec fn spec_secret(&self) -> Seq<char> {
        self.secret@
    }

    /// Takes `s` as a token if it is at least eight bytes long.
    pub fn from_str(s: &str) -> (token: Result<Token, InspectorError>)
        ensures
            match token {
                Ok(token) => s.len() >= TOKEN_LENGTH_MIN && token.spec_secret() == s@,
                Err(error) => s.len() < TOKEN_LENGTH_MIN && error.spec_message()
                    == "the string is too short to be a token"@,
            },
    {
        if s.len() < TOKEN_LENGTH_MIN {
            Err(InspectorError::new("the string is too short to be a token"))
        } else {
            Ok(Token { secret: s.to_owned() })
        }
    }

    /// The text of the token.
    pub fn expose(&self) -> (secret: &str)
        ensures
            secret@ == self.spec_secret(),
    {
        self.secret.as_str()
    }
}

/// One request of a client, with the sending end of the channel on which
/// the client gets its updates.
pub struct Request {
    token: Token,
    tx: Sender<UpdateResult>,
    body: RequestBody,
}

impl Request {
    pub closed spec fn spec_token(&self) -> Token {
        self.token
    }

    pub closed spec fn spec_tx(&self) -> Sender<UpdateResult> {
        self.tx
    }

    pub closed spec fn spec_body(&self) -> RequestBody {
        self.body
    }

    /// A request with a new channel of `CHANNEL_SIZE` updates: the request
    /// holds the sending end, the caller gets the receiving end.
    pub fn new(token: Token, body: RequestBody) -> (made: (Request, Receiver<UpdateResult>))
        ensures
            made.0.spec_token() == token,
            made.0.spec_body() == body,
    {
        let (tx, rx) = update_channel(CHANNEL_SIZE);
        (Request { body, token, tx }, rx)
    }

    /// The sending end of the client's channel.
    pub fn tx(&self) -> (tx: &Sender<UpdateResult>)
        ensures
            *tx == self.spec_tx(),
    {
        &self.tx
    }

    /// What the client asks for.
    #[verifier::when_used_as_spec(spec_body)]
    pub fn body(&self) -> (body: RequestBody)
        ensures
            body == self.spec_body(),
    {
        self.body
    }

    /// The request taken apart: the token, the sending end and the body.
    pub fn into_parts(self) -> (parts: (Token, Sender<UpdateResult>, RequestBody))
        ensures
            parts.0 == self.spec_token(),
            parts.1 == self.spec_tx(),
            parts.2 == self.spec_body(),
    {
        (self.token, self.tx, self.body)
    }

    pub fn token(&self) -> (token: &Token)
        ensures
            *token == self.spec_token(),
    {
        &self.token
    }
}

} // verus!
