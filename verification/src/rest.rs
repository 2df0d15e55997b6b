//! Queries that use a node's REST API as their source of information: where they go, how
//! long they may take, and what their answers mean.

use crate::text::{
    contains, ends_with, has_part, join2, join_with_commas, starts_with, texts, with_commas,
};
use vstd::prelude::*;
use vstd::string::*;

verus! {

/// How long to wait for a connection to be established, TLS handshake included: 10 seconds,
/// in nanoseconds.
pub const DEFAULT_CONNECT_TIMEOUT: u128 = 10000000000;

/// How long an answer may take to begin, and then how long its body may take; on the async
/// path, how long it may go without delivering more of itself: 30 seconds, in nanoseconds.
pub const DEFAULT_STALL_TIMEOUT: u128 = 30000000000;

/// How long a whole request may take, whatever its phases do: 300 seconds, in nanoseconds.
pub const DEFAULT_TOTAL_TIMEOUT: u128 = 300000000000;

/// The bounds on a request, in nanoseconds.
#[derive(Copy, Clone, Debug, PartialEq, Eq, Structural)]
pub struct Timeouts {
    /// To establish the connection.
    pub connect: u128,
    /// For the answer to begin, and then for its body.
    pub stall: u128,
    /// Overall.
    pub total: u128,
}

/// The parts of a parsed URL.
#[derive(Clone)]
pub struct UriParts {
    /// The whole URL.
    pub text: String,
    pub scheme: Option<String>,
    pub host: Option<String>,
    pub path: String,
    pub query: Option<String>,
    pub path_and_query: Option<String>,
}

/// What the parts of a parsed URL say.
pub ghost struct UriView {
    pub text: Seq<char>,
    pub scheme: Option<Seq<char>>,
    pub host: Option<Seq<char>>,
    pub path: Seq<char>,
    pub query: Option<Seq<char>>,
    pub path_and_query: Option<Seq<char>>,
}

/// What optional text says.
pub open spec fn optional(text: Option<String>) -> Option<Seq<char>> {
    match text {
        Some(text) => Some(text@),
        None => None,
    }
}

impl UriParts {
    pub open spec fn view(&self) -> UriView {
        UriView {
            text: self.text@,
            scheme: optional(self.scheme),
            host: optional(self.host),
            path: self.path@,
            query: optional(self.query),
            path_and_query: optional(self.path_and_query),
        }
    }
}

/// The parts of a text that parses as a URL, or else why it does not.
pub uninterp spec fn uri_parts(text: Seq<char>) -> Result<UriView, Seq<char>>;

/// A URL that begins with `http://` or `https://`, in lower case, and has no fragment.
pub open spec fn is_plain_url(text: Seq<char>) -> bool {
    &&& "http://"@.is_prefix_of(text) || "https://"@.is_prefix_of(text)
    &&& !text.contains('#')
}

/// The URL is written as the text it was parsed from, except that an empty path is written as
/// a slash.
pub open spec fn written_as(text: Seq<char>, uri: UriView) -> bool {
    &&& uri.path.len() > 0
    &&& uri.text == text || {
        &&& !ends_in_slash(text)
        &&& uri.path == seq!['/']
        &&& uri.text == text + seq!['/']
    }
}

/// `<http::Uri as FromStr>::from_str`, as `ureq` re-exports it, with the parsed URL's
/// `to_string`, `scheme_str`, `host`, `path`, `query` and `path_and_query`. A URL without a
/// query is written with its path at the end. A plain one without a query is written as the
/// text it was parsed from, except that an empty path becomes a slash. Text that is no URL
/// gives the parser's error in its own words.
#[verifier::external_body]
fn parse_uri(text: &str) -> (r: Result<UriParts, String>)
    ensures
        r is Ok ==> uri_parts(text@) == Ok::<UriView, Seq<char>>((r->Ok_0)@),
        r is Err ==> uri_parts(text@) == Err::<UriView, Seq<char>>(r->Err_0@),
        r is Ok && (r->Ok_0).query is None ==> (r->Ok_0).path@.is_suffix_of((r->Ok_0).text@),
        r is Ok && (r->Ok_0).query is None && is_plain_url(text@) ==> written_as(
            text@,
            (r->Ok_0)@,
        ),
{
    let uri = text.parse::<ureq::http::Uri>().map_err(|error| error.to_string())?;
    Ok(UriParts {
        text: uri.to_string(),
        scheme: uri.scheme_str().map(|s| s.to_string()),
        host: uri.host().map(|s| s.to_string()),
        path: uri.path().to_string(),
        query: uri.query().map(|s| s.to_string()),
        path_and_query: uri.path_and_query().map(|p| p.to_string()),
    })
}

/// Why a URL is no base for REST queries, or a route no endpoint.
#[derive(Debug, PartialEq, Eq)]
pub enum UrlError {
    /// The text is no URL; the reason is the parser's.
    Unparsable(String),
    /// The scheme is neither `http` nor `https`.
    InvalidScheme(String),
    /// The host is there, but empty.
    EmptyHost,
    /// There is no host.
    NoHost,
    /// There is a query.
    HasQuery,
    /// The route starts with a slash.
    AbsoluteRoute,
}

impl UrlError {
    /// What the message of the error says.
    pub open spec fn message_text(&self) -> Seq<char> {
        match self {
            UrlError::Unparsable(_) => "Failed to parse URL"@,
            UrlError::InvalidScheme(scheme) => "Invalid scheme in URL: "@ + scheme@,
            UrlError::EmptyHost => "Invalid URL for REST endpoint. Empty hostname given."@,
            UrlError::NoHost => "Invalid URL for REST endpoint. No hostname given."@,
            UrlError::HasQuery => "Base URL for REST endpoints cannot contain a query"@,
            UrlError::AbsoluteRoute => "path cannot start with a slash"@,
        }
    }

    /// Converts the error into an [`anyhow::Error`]; what led to text that is no URL is the
    /// parser's reason.
    pub fn into_error(self) -> (error: anyhow::Error)
        ensures
            self is Unparsable ==> error_messages(error) == seq![
                self.message_text(),
                self->Unparsable_0@,
            ],
            !(self is Unparsable) ==> error_messages(error) == seq![self.message_text()],
    {
        let message: String = self.message();
        match self {
            UrlError::Unparsable(reason) => {
                let error: anyhow::Error = error_context(error_msg(reason), message);
                assert(error_messages(error) =~= seq![message@, reason@]);
                error
            },
            _ => error_msg(message),
        }
    }

    /// The message of the error.
    pub fn message(&self) -> (text: String)
        ensures
            text@ == self.message_text(),
            text@ == (match self {
                UrlError::Unparsable(_) => "Failed to parse URL"@,
                UrlError::InvalidScheme(scheme) => "Invalid scheme in URL: "@ + scheme@,
                UrlError::EmptyHost => "Invalid URL for REST endpoint. Empty hostname given."@,
                UrlError::NoHost => "Invalid URL for REST endpoint. No hostname given."@,
                UrlError::HasQuery => "Base URL for REST endpoints cannot contain a query"@,
                UrlError::AbsoluteRoute => "path cannot start with a slash"@,
            }),
    {
        match self {
            UrlError::Unparsable(_) => String::from_str("Failed to parse URL"),
            UrlError::InvalidScheme(scheme) => join2("Invalid scheme in URL: ", scheme.as_str()),
            UrlError::EmptyHost => String::from_str(
                "Invalid URL for REST endpoint. Empty hostname given.",
            ),
            UrlError::NoHost => String::from_str(
                "Invalid URL for REST endpoint. No hostname given.",
            ),
            UrlError::HasQuery => String::from_str(
                "Base URL for REST endpoints cannot contain a query",
            ),
            UrlError::AbsoluteRoute => String::from_str("path cannot start with a slash"),
        }
    }
}

/// What is wrong with a base URL.
pub ghost enum UrlFault {
    Scheme(Seq<char>),
    EmptyHost,
    NoHost,
    Query,
}

/// What is wrong with a base URL, if anything: another scheme than `http` or `https`, an empty
/// or a missing host, or a query; the first of these counts.
pub open spec fn url_fault(uri: UriView) -> Option<UrlFault> {
    if uri.scheme is Some && uri.scheme->0 != "http"@ && uri.scheme->0 != "https"@ {
        Some(UrlFault::Scheme(uri.scheme->0))
    } else if uri.host is Some && uri.host->0.len() == 0 {
        Some(UrlFault::EmptyHost)
    } else if uri.host is None {
        Some(UrlFault::NoHost)
    } else if uri.query is Some {
        Some(UrlFault::Query)
    } else {
        None
    }
}

/// The error tells the fault.
pub open spec fn tells_fault(error: UrlError, fault: UrlFault) -> bool {
    match fault {
        UrlFault::Scheme(scheme) => error is InvalidScheme && error->InvalidScheme_0@ == scheme,
        UrlFault::EmptyHost => error is EmptyHost,
        UrlFault::NoHost => error is NoHost,
        UrlFault::Query => error is HasQuery,
    }
}

/// Queries that use a node's REST API as their source of information.
#[derive(Clone)]
pub struct RestQuery {
    base_url: UriParts,
    timeouts: Timeouts,
}

impl RestQuery {
    /// The base URL of every request.
    pub closed spec fn base(&self) -> UriView {
        self.base_url@
    }

    /// The bounds on every request.
    pub closed spec fn bounds(&self) -> Timeouts {
        self.timeouts
    }

    /// Queries on a base URL, under the default bounds.
    pub fn from_uri(base_url: UriParts) -> (query: Self)
        ensures
            query.base() == base_url@,
            query.bounds() == (Timeouts {
                connect: DEFAULT_CONNECT_TIMEOUT,
                stall: DEFAULT_STALL_TIMEOUT,
                total: DEFAULT_TOTAL_TIMEOUT,
            }),
    {
        RestQuery {
            base_url,
            timeouts: Timeouts {
                connect: DEFAULT_CONNECT_TIMEOUT,
                stall: DEFAULT_STALL_TIMEOUT,
                total: DEFAULT_TOTAL_TIMEOUT,
            },
        }
    }

    /// Queries on a parsed URL, where it is fit as a base.
    pub fn from_parts(base_url: UriParts) -> (r: Result<Self, UrlError>)
        ensures
            r is Ok <==> url_fault(base_url@) is None,
            r is Err ==> tells_fault(r->Err_0, url_fault(base_url@)->0),
            r is Ok <==> {
                &&& base_url.scheme is None || base_url.scheme->0@ == "http"@
                    || base_url.scheme->0@ == "https"@
                &&& base_url.host is Some && base_url.host->0@.len() > 0
                &&& base_url.query is None
            },
            r is Err && r->Err_0 is InvalidScheme <==> base_url.scheme is Some
                && base_url.scheme->0@ != "http"@ && base_url.scheme->0@ != "https"@,
            r is Err && r->Err_0 is InvalidScheme ==> r->Err_0->InvalidScheme_0@
                == base_url.scheme->0@,
            r is Err && r->Err_0 is EmptyHost ==> base_url.host is Some && base_url.host->0@.len()
                == 0,
            r is Err && r->Err_0 is NoHost ==> base_url.host is None,
            r is Err && r->Err_0 is HasQuery ==> base_url.host is Some && base_url.host->0@.len() > 0
                && base_url.query is Some,
            r is Err ==> r->Err_0 is InvalidScheme || r->Err_0 is EmptyHost || r->Err_0 is NoHost
                || r->Err_0 is HasQuery,
            r is Ok ==> r->Ok_0.base().text == base_url.text@ && r->Ok_0.base().path
                == base_url.path@,
            r is Ok ==> r->Ok_0.base() == base_url@ && r->Ok_0.bounds() == (Timeouts {
                connect: DEFAULT_CONNECT_TIMEOUT,
                stall: DEFAULT_STALL_TIMEOUT,
                total: DEFAULT_TOTAL_TIMEOUT,
            }),
            r is Ok ==> r->Ok_0.bounds() == (Timeouts {
                connect: 10000000000,
                stall: 30000000000,
                total: 300000000000,
            }),
    {
        if let Some(scheme) = &base_url.scheme {
            if *scheme != String::from_str("http") && *scheme != String::from_str("https") {
                return Err(UrlError::InvalidScheme(scheme.clone()));
            }
        }
        match &base_url.host {
            Some(host) => {
                if host.as_str().unicode_len() == 0 {
                    return Err(UrlError::EmptyHost);
                }
            },
            None => {
                return Err(UrlError::NoHost);
            },
        }
        if base_url.query.is_some() {
            return Err(UrlError::HasQuery);
        }
        Ok(Self::from_uri(base_url))
    }

    /// Queries on the URL of a node's REST API, passed as text.
    pub fn from_str(text: &str) -> (r: Result<Self, UrlError>)
        ensures
            uri_parts(text@) is Err ==> r is Err && r->Err_0 is Unparsable
                && r->Err_0->Unparsable_0@ == uri_parts(text@)->Err_0,
            uri_parts(text@) is Ok ==> {
                let uri = uri_parts(text@)->Ok_0;
                &&& r is Ok <==> url_fault(uri) is None
                &&& r is Err ==> tells_fault(r->Err_0, url_fault(uri)->0)
                &&& r is Ok <==> (uri.scheme is None || uri.scheme->0 == "http"@ || uri.scheme->0
                    == "https"@) && uri.host is Some && uri.host->0.len() > 0 && uri.query is None
                &&& r is Err && r->Err_0 is InvalidScheme <==> uri.scheme is Some && uri.scheme->0
                    != "http"@ && uri.scheme->0 != "https"@
                &&& r is Err && r->Err_0 is InvalidScheme ==> r->Err_0->InvalidScheme_0@
                    == uri.scheme->0
                &&& r is Err && r->Err_0 is EmptyHost ==> uri.host is Some && uri.host->0.len() == 0
                &&& r is Err && r->Err_0 is NoHost ==> uri.host is None
                &&& r is Err && r->Err_0 is HasQuery ==> uri.query is Some
                &&& r is Err ==> r->Err_0 is InvalidScheme || r->Err_0 is EmptyHost
                    || r->Err_0 is NoHost || r->Err_0 is HasQuery
                &&& r is Ok && is_plain_url(text@) ==> written_as(text@, uri)
                &&& r is Ok ==> r->Ok_0.base() == uri && uri.path.is_suffix_of(uri.text)
                    && r->Ok_0.bounds() == (Timeouts {
                    connect: DEFAULT_CONNECT_TIMEOUT,
                    stall: DEFAULT_STALL_TIMEOUT,
                    total: DEFAULT_TOTAL_TIMEOUT,
                })
            },
    {
        match parse_uri(text) {
            Ok(base_url) => Self::from_parts(base_url),
            Err(reason) => Err(UrlError::Unparsable(reason)),
        }
    }

    /// Sets how long each request may take: `connect` to establish the connection, `stall` for
    /// the answer to begin and then for its body (on the async path, between successive
    /// reads), `total` overall.
    pub fn with_timeouts(self, connect: u128, stall: u128, total: u128) -> (query: Self)
        ensures
            query.base() == self.base(),
            query.bounds() == (Timeouts { connect, stall, total }),
    {
        RestQuery { base_url: self.base_url, timeouts: Timeouts { connect, stall, total } }
    }

    /// The text of the base URL.
    pub fn base_url(&self) -> (text: &str)
        ensures
            text@ == self.base().text,
    {
        self.base_url.text.as_str()
    }

    /// The path and the query of the base URL.
    pub fn path_and_query(&self) -> (text: Option<&str>)
        ensures
            text is Some <==> self.base().path_and_query is Some,
            text is Some ==> text->0@ == self.base().path_and_query->0,
    {
        match &self.base_url.path_and_query {
            Some(text) => Some(text.as_str()),
            None => None,
        }
    }

    /// The bounds on every request.
    pub fn timeouts(&self) -> (timeouts: Timeouts)
        ensures
            timeouts == self.bounds(),
    {
        self.timeouts
    }

    /// Builds the full endpoint from the base, the network's short name and the route. The
    /// route cannot start with a slash.
    ///
    /// An empty path of the base is written as a slash, other paths may or may not end in
    /// one; either way one slash stands between the base and the network.
    pub fn build_endpoint(&self, network: &str, route: &str) -> (r: Result<String, UrlError>)
        ensures
            r is Ok <==> !is_absolute(route@),
            r is Err ==> r->Err_0 is AbsoluteRoute,
            r is Ok ==> r->Ok_0@ == endpoint(self.base(), network@, route@),
            r is Err <==> route@.len() > 0 && route@[0] == '/',
            r is Ok && self.base().path.len() > 0 && self.base().path.last() == '/' ==> r->Ok_0@
                == self.base().text + network@ + "/"@ + route@,
            r is Ok && !(self.base().path.len() > 0 && self.base().path.last() == '/')
                ==> r->Ok_0@ == self.base().text + "/"@ + network@ + "/"@ + route@,
    {
        if starts_with(route, '/') {
            return Err(UrlError::AbsoluteRoute);
        }
        proof {
            reveal_strlit("/");
            assert("/"@ =~= seq!['/']);
        }
        let mut out: String = String::new();
        out.append(self.base_url.text.as_str());
        if !ends_with(self.base_url.path.as_str(), '/') {
            out.append("/");
        }
        out.append(network);
        out.append("/");
        out.append(route);
        assert(out@ =~= endpoint(self.base(), network@, route@));
        Ok(out)
    }
}

/// The route starts with a slash.
pub open spec fn is_absolute(route: Seq<char>) -> bool {
    route.len() > 0 && route[0] == '/'
}

/// The text ends in a slash.
pub open spec fn ends_in_slash(text: Seq<char>) -> bool {
    text.len() > 0 && text.last() == '/'
}

/// The endpoint of a route on a network: the base, the network and the route, with one slash
/// between any two of them.
pub open spec fn endpoint(base: UriView, network: Seq<char>, route: Seq<char>) -> Seq<char> {
    if ends_in_slash(base.path) {
        base.text + network + seq!['/'] + route
    } else {
        base.text + seq!['/'] + network + seq!['/'] + route
    }
}

/// A slash at the end of the base changes no endpoint.
pub proof fn lemma_trailing_slash(
    plain: UriView,
    slashed: UriView,
    network: Seq<char>,
    route: Seq<char>,
)
    requires
        !ends_in_slash(plain.path),
        ends_in_slash(slashed.path),
        slashed.text == plain.text + seq!['/'],
    ensures
        endpoint(plain, network, route) == endpoint(slashed, network, route),
{
    assert(endpoint(plain, network, route) =~= endpoint(slashed, network, route));
}

/// A slash behind the text of a base URL changes no endpoint: with and without it, the endpoint
/// is the text, the network and the route, with one slash between any two of them.
pub proof fn lemma_trailing_slash_of_text(
    text: Seq<char>,
    plain: UriView,
    slashed: UriView,
    network: Seq<char>,
    route: Seq<char>,
)
    requires
        is_plain_url(text),
        !ends_in_slash(text),
        written_as(text, plain),
        plain.path.is_suffix_of(plain.text),
        written_as(text + seq!['/'], slashed),
        slashed.path.is_suffix_of(slashed.text),
    ensures
        is_plain_url(text + seq!['/']),
        endpoint(plain, network, route) == text + seq!['/'] + network + seq!['/'] + route,
        endpoint(slashed, network, route) == text + seq!['/'] + network + seq!['/'] + route,
{
    let longer = text + seq!['/'];
    assert(ends_in_slash(longer));
    assert(slashed.path.last() == slashed.text.last());
    assert(plain.path.last() == plain.text.last());
    assert(is_plain_url(longer)) by {
        assert forall|prefix: Seq<char>| #[trigger] prefix.is_prefix_of(
            text,
        ) implies prefix.is_prefix_of(longer) by {
            assert(longer.subrange(0, prefix.len() as int) =~= text.subrange(
                0,
                prefix.len() as int,
            ));
        }
        assert forall|i: int| 0 <= i < longer.len() implies longer[i] != '#' by {
            if i < text.len() {
                assert(text.contains(text[i]));
            }
        }
    }
}

/// Exactly one slash is put between the base and the network where the base does not end in
/// one, and none where it does.
pub proof fn lemma_one_slash(base: UriView, network: Seq<char>, route: Seq<char>)
    requires
        base.path.is_suffix_of(base.text),
        !ends_in_slash(base.text) || base.path.len() > 0,
    ensures
        ends_in_slash(base.text) ==> endpoint(base, network, route) == base.text + network + seq![
            '/',
        ] + route,
        !ends_in_slash(base.text) ==> endpoint(base, network, route) == base.text + seq!['/']
            + network + seq!['/'] + route,
{
    if base.path.len() > 0 {
        assert(base.text.last() == base.path.last());
    }
}

/// The route of the current state root.
pub fn state_root_route() -> (route: &'static str)
    ensures
        route@ == "stateRoot/latest"@,
{
    "stateRoot/latest"
}

/// The route of the current block height.
pub fn block_height_route() -> (route: &'static str)
    ensures
        route@ == "block/height/latest"@,
{
    "block/height/latest"
}

/// The route of the state path of a commitment.
pub fn state_path_route(commitment: &str) -> (route: String)
    ensures
        route@ == "statePath/"@ + commitment@,
{
    join2("statePath/", commitment)
}

/// The route of the state paths of a list of commitments. No commitments have no state paths,
/// and there is nothing to ask a node for: some answer an empty list with an error.
pub fn state_paths_route(commitments: &[String]) -> (route: Option<String>)
    ensures
        route is None <==> commitments@.len() == 0,
        route is Some ==> route->0@ == "statePaths?commitments="@ + with_commas(
            texts(commitments@),
        ),
{
    if commitments.len() == 0 {
        return None;
    }
    let list: String = join_with_commas(commitments);
    Some(join2("statePaths?commitments=", list.as_str()))
}

/// The route of a transaction.
pub fn transaction_route(transaction_id: &str) -> (route: String)
    ensures
        route@ == "transaction/"@ + transaction_id@,
{
    join2("transaction/", transaction_id)
}

/// The route of a program.
pub fn program_route(program_id: &str) -> (route: String)
    ensures
        route@ == "program/"@ + program_id@,
{
    join2("program/", program_id)
}

/// Every route can be made an endpoint: none starts with a slash.
pub proof fn lemma_routes_are_relative(argument: Seq<char>)
    ensures
        !is_absolute("stateRoot/latest"@),
        !is_absolute("block/height/latest"@),
        !is_absolute("statePath/"@ + argument),
        !is_absolute("statePaths?commitments="@ + argument),
        !is_absolute("transaction/"@ + argument),
        !is_absolute("program/"@ + argument),
{
    reveal_strlit("stateRoot/latest");
    reveal_strlit("block/height/latest");
    reveal_strlit("statePath/");
    reveal_strlit("statePaths?commitments=");
    reveal_strlit("transaction/");
    reveal_strlit("program/");
}

/// How an attempt to reach an endpoint ended.
#[derive(Copy, Clone, Debug, PartialEq, Eq, Structural)]
pub enum CallOutcome {
    /// There is an answer.
    Answered,
    /// The request was lost on the way, as on a pooled connection that the peer had closed.
    Lost,
    /// It failed in another way; a bound that ran out is one.
    Failed,
}

/// Which attempt it is.
#[derive(Copy, Clone, Debug, PartialEq, Eq, Structural)]
pub enum Attempt {
    First,
    Second,
}

/// What to do once an attempt has ended.
#[derive(Copy, Clone, Debug, PartialEq, Eq, Structural)]
pub enum CallAction {
    /// Take what came back.
    Finish,
    /// Ask once more, within what is left of the total bound, where there is one.
    AskAgain(Option<u128>),
}

/// What is left of a bound.
pub open spec fn left_of(total: Option<u128>, elapsed: u128) -> Option<u128> {
    match total {
        Some(total) => Some(
            if elapsed <= total {
                (total - elapsed) as u128
            } else {
                0
            },
        ),
        None => None,
    }
}

/// A lost first request is asked again, and nothing else is.
pub open spec fn action_after(
    attempt: Attempt,
    outcome: CallOutcome,
    total: Option<u128>,
    elapsed: u128,
) -> CallAction {
    if attempt is First && outcome is Lost {
        CallAction::AskAgain(left_of(total, elapsed))
    } else {
        CallAction::Finish
    }
}

/// Decides what follows an attempt that ended `elapsed` nanoseconds after the request began.
pub fn after_call(
    attempt: Attempt,
    outcome: CallOutcome,
    total: Option<u128>,
    elapsed: u128,
) -> (action: CallAction)
    ensures
        action == action_after(attempt, outcome, total, elapsed),
        action is AskAgain <==> attempt is First && outcome is Lost,
        action is AskAgain ==> (action->AskAgain_0 is Some <==> total is Some),
        action is AskAgain && total is Some && elapsed <= total->0 ==> elapsed
            + action->AskAgain_0->0 == total->0,
        action is AskAgain && total is Some && elapsed > total->0 ==> action->AskAgain_0->0 == 0,
{
    match (attempt, outcome) {
        (Attempt::First, CallOutcome::Lost) => {
            let remaining: Option<u128> = match total {
                Some(total) => if elapsed <= total {
                    Some(total - elapsed)
                } else {
                    Some(0)
                },
                None => None,
            };
            CallAction::AskAgain(remaining)
        },
        _ => CallAction::Finish,
    }
}

/// Tells a request that was lost on the async path: one that failed as a request, neither by
/// a bound nor while connecting.
pub fn async_outcome(is_request: bool, is_timeout: bool, is_connect: bool) -> (outcome: CallOutcome)
    ensures
        outcome == (if is_request && !is_timeout && !is_connect {
            CallOutcome::Lost
        } else {
            CallOutcome::Failed
        }),
{
    if is_request && !is_timeout && !is_connect {
        CallOutcome::Lost
    } else {
        CallOutcome::Failed
    }
}

/// A request is asked twice at most, and one that was not lost is asked once: the bounds are
/// what they say only if they are spent once.
pub proof fn lemma_asked_again_once(outcome: CallOutcome, total: Option<u128>, elapsed: u128)
    ensures
        action_after(Attempt::Second, outcome, total, elapsed) is Finish,
        !(outcome is Lost) ==> action_after(Attempt::First, outcome, total, elapsed) is Finish,
{
}

/// The second attempt is not a second budget: together with the time that has passed it stays
/// within the total bound, unless that has run out already, and then it gets nothing.
pub proof fn lemma_second_attempt_within_total(total: u128, elapsed: u128)
    ensures
        action_after(Attempt::First, CallOutcome::Lost, Some(total), elapsed)
            is AskAgain,
        action_after(Attempt::First, CallOutcome::Lost, Some(total), elapsed)->AskAgain_0 is Some,
        elapsed <= total ==> elapsed + action_after(
            Attempt::First,
            CallOutcome::Lost,
            Some(total),
            elapsed,
        )->AskAgain_0->0 == total,
        elapsed > total ==> action_after(
            Attempt::First,
            CallOutcome::Lost,
            Some(total),
            elapsed,
        )->AskAgain_0->0 == 0,
{
}

/// What the body of an answer is to be taken for.
#[derive(Copy, Clone, Debug, PartialEq, Eq, Structural)]
pub enum BodyKind {
    /// The value that was asked for, as JSON.
    Value,
    /// An error, as JSON.
    JsonError,
    /// An error, as plain text.
    TextError,
}

/// Tells what a body is from the status and the content type. Depending on the API version an
/// error is encoded as text or as JSON.
pub fn body_kind(is_success: bool, content_type: Option<&str>) -> (kind: BodyKind)
    ensures
        is_success ==> kind is Value,
        !is_success ==> (kind is JsonError <==> content_type is Some && has_part(
            content_type->0@,
            "json"@,
        )),
        !is_success && !(kind is JsonError) ==> kind is TextError,
{
    if is_success {
        return BodyKind::Value;
    }
    match content_type {
        Some(content_type) => if contains(content_type, "json") {
            BodyKind::JsonError
        } else {
            BodyKind::TextError
        },
        None => BodyKind::TextError,
    }
}

/// The error type of the `anyhow` crate.
#[verifier::external_type_specification]
#[verifier::external_body]
pub struct ExError(anyhow::Error);

/// The messages of an error and of what led to it, the outermost one first.
pub uninterp spec fn error_messages(error: anyhow::Error) -> Seq<Seq<char>>;

/// `anyhow::Error::msg`: an error with this message, which nothing led to.
#[verifier::external_body]
fn error_msg(message: String) -> (error: anyhow::Error)
    ensures
        error_messages(error) == seq![message@],
{
    anyhow::Error::msg(message)
}

/// `anyhow::Error::context`: an error with this message, which `error` led to.
#[verifier::external_body]
fn error_context(error: anyhow::Error, message: String) -> (out: anyhow::Error)
    ensures
        error_messages(out) == seq![message@] + error_messages(error),
{
    error.context(message)
}

/// The REST error that a node sends.
#[derive(Debug)]
pub struct RestError {
    /// The type of error (corresponding to the HTTP status code).
    pub error_type: String,
    /// The top-level error message.
    pub message: String,
    /// The chain of errors that led to the top-level error.
    pub chain: Vec<String>,
}

impl RestError {
    /// The messages of the error, the outermost one first: the type and the top-level message,
    /// and then the chain, its last entry first.
    pub open spec fn messages(&self) -> Seq<Seq<char>> {
        seq![self.error_type@ + ": "@ + self.message@] + texts(self.chain@).reverse()
    }

    /// Converts the error into an [`anyhow::Error`].
    pub fn parse(self) -> (error: anyhow::Error)
        ensures
            error_messages(error) == self.messages(),
            error_messages(error).len() == self.chain@.len() + 1,
            error_messages(error)[0] == self.error_type@ + ": "@ + self.message@,
            forall|i: int|
                0 <= i < self.chain@.len() ==> #[trigger] error_messages(error)[i + 1]
                    == self.chain@[self.chain@.len() - 1 - i]@,
    {
        let mut error: Option<anyhow::Error> = None;
        let mut i: usize = 0;
        while i < self.chain.len()
            invariant
                i <= self.chain@.len(),
                error is None <==> i == 0,
                error is Some ==> error_messages(error->0) == texts(self.chain@).take(
                    i as int,
                ).reverse(),
            decreases self.chain@.len() - i,
        {
            let next: String = self.chain[i].clone();
            let ghost before = error;
            error = match error {
                Some(previous) => Some(error_context(previous, next)),
                None => Some(error_msg(next)),
            };
            proof {
                let done = texts(self.chain@).take(i + 1);
                assert(done.reverse() =~= seq![next@] + texts(self.chain@).take(
                    i as int,
                ).reverse());
                if i == 0 {
                    assert(done.reverse() =~= seq![next@]);
                }
            }
            i += 1;
        }
        assert(texts(self.chain@).take(i as int) =~= texts(self.chain@));
        let label: String = join2(self.error_type.as_str(), ": ");
        let toplevel: String = join2(label.as_str(), self.message.as_str());
        match error {
            Some(error) => error_context(error, toplevel),
            None => {
                assert(self.messages() =~= seq![toplevel@]);
                error_msg(toplevel)
            },
        }
    }
}

/// The body of an answer that is an error.
pub enum ErrorBody {
    Json(RestError),
    Text(String),
}

/// The message of a request that failed.
pub fn fetch_failure(endpoint: &str) -> (text: String)
    ensures
        text@ == "Failed to fetch from "@ + endpoint@,
{
    join2("Failed to fetch from ", endpoint)
}

/// The error of a request that was answered with one: that the request failed, and what the
/// node says.
pub fn answered_failure(endpoint: &str, body: ErrorBody) -> (error: anyhow::Error)
    ensures
        error_messages(error) == seq!["Failed to fetch from "@ + endpoint@] + (match body {
            ErrorBody::Json(error) => error.messages(),
            ErrorBody::Text(text) => seq![text@],
        }),
{
    let cause: anyhow::Error = match body {
        ErrorBody::Json(error) => error.parse(),
        ErrorBody::Text(text) => error_msg(text),
    };
    error_context(cause, fetch_failure(endpoint))
}

/// The message of a body that could not be read as what it is.
pub fn unreadable_body(endpoint: &str, kind: BodyKind) -> (text: String)
    ensures
        text@ == (match kind {
            BodyKind::Value => "Failed to parse JSON response from "@ + endpoint@,
            BodyKind::JsonError => "Failed to parse JSON error response from "@ + endpoint@,
            BodyKind::TextError => "Failed to read error message "@ + endpoint@,
        }),
{
    match kind {
        BodyKind::Value => join2("Failed to parse JSON response from ", endpoint),
        BodyKind::JsonError => join2("Failed to parse JSON error response from ", endpoint),
        BodyKind::TextError => join2("Failed to read error message ", endpoint),
    }
}

} // verus!
