//! The request that opens a connection: where it goes and how it is authorised.

use vstd::prelude::*;
use vstd::utf8::encode_utf8;

use crate::provider::OpenAiRealtimeAsrProvider;
use crate::query::{update_views, upsert_query_params, upserted, Update};
use crate::text::{joined, optional, trimmed};
use crate::types::{AsrConfig, AsrError, Fault, OpenAiRealtimeBackend};
use crate::wire::text_or;

verus! {

/// `http::Request`, the head of a request and its body.
#[verifier::external_type_specification]
#[verifier::external_body]
#[verifier::reject_recursive_types(T)]
pub struct ExRequest<T>(tokio_tungstenite::tungstenite::http::Request<T>);

/// `http::HeaderValue`, the bytes of a header.
#[verifier::external_type_specification]
#[verifier::external_body]
pub struct ExHeaderValue(tokio_tungstenite::tungstenite::http::HeaderValue);

/// The first line of a request.
pub struct RequestLine {
    /// The method, as text.
    pub method: Seq<char>,
    /// The URI, as text.
    pub target: Seq<char>,
    /// The version of HTTP, as text.
    pub version: Seq<char>,
}

/// What `into_client_request` makes of a URL: the URI that the request goes to
/// and the host that it names, or the text of an error.
pub uninterp spec fn client_target(url: Seq<char>) -> Result<(Seq<char>, Seq<u8>), Seq<char>>;

/// The URI that a request for a websocket at `url` goes to.
pub open spec fn client_uri(url: Seq<char>) -> Seq<char> {
    match client_target(url) {
        Ok((uri, _)) => uri,
        Err(_) => Seq::empty(),
    }
}

/// The host that a request for a websocket at `url` names.
pub open spec fn client_host(url: Seq<char>) -> Seq<u8> {
    match client_target(url) {
        Ok((_, host)) => host,
        Err(_) => Seq::empty(),
    }
}

/// The first line of a request.
pub uninterp spec fn request_line(
    request: tokio_tungstenite::tungstenite::http::Request<()>,
) -> RequestLine;

/// The headers of a request: under each name in lower case its values in order.
pub uninterp spec fn request_headers(
    request: tokio_tungstenite::tungstenite::http::Request<()>,
) -> Map<Seq<char>, Seq<Seq<u8>>>;

/// The bytes of a header value.
pub uninterp spec fn header_bytes(
    value: tokio_tungstenite::tungstenite::http::HeaderValue,
) -> Seq<u8>;

/// The headers that every request for a websocket has.
pub open spec fn handshake_headers() -> Set<Seq<char>> {
    set!["host"@, "connection"@, "upgrade"@, "sec-websocket-version"@, "sec-websocket-key"@]
}

/// The first line of a request for a websocket.
pub open spec fn handshake_line(uri: Seq<char>) -> RequestLine {
    RequestLine { method: "GET"@, target: uri, version: "HTTP/1.1"@ }
}

/// Whether these are the headers of a request for a websocket on a host: each
/// has one value, and three of them always the same.
pub open spec fn is_handshake(headers: Map<Seq<char>, Seq<Seq<u8>>>, host: Seq<u8>) -> bool {
    &&& headers.dom() == handshake_headers()
    &&& forall|name: Seq<char>| #[trigger] headers.contains_key(name) ==> headers[name].len() == 1
    &&& headers["host"@] == seq![host]
    &&& headers["connection"@] == seq![encode_utf8("Upgrade"@)]
    &&& headers["upgrade"@] == seq![encode_utf8("websocket"@)]
    &&& headers["sec-websocket-version"@] == seq![encode_utf8("13"@)]
}

/// `into_client_request` on a URL makes the request for a websocket there, with
/// the headers of the handshake and no others, by the method GET of HTTP/1.1.
/// Whether it does, where the request goes and which host it names depends on
/// the URL alone. The key of the handshake is left to chance.
#[verifier::external_body]
pub(crate) fn client_request(url: &str) -> (res: Result<
    tokio_tungstenite::tungstenite::http::Request<()>,
    String,
>)
    ensures
        match res {
            Ok(request) => {
                &&& client_target(url@) is Ok
                &&& request_line(request) == handshake_line(client_uri(url@))
                &&& is_handshake(request_headers(request), client_host(url@))
            },
            Err(error) => client_target(url@) == Err::<(Seq<char>, Seq<u8>), Seq<char>>(error@),
        },
{
    tokio_tungstenite::tungstenite::client::IntoClientRequest::into_client_request(url).map_err(
        |e: tokio_tungstenite::tungstenite::Error| e.to_string(),
    )
}

/// Whether a header may hold `c`: any character but the ASCII control
/// characters other than the tab.
pub open spec fn header_accepts(c: char) -> bool {
    c as u32 >= 32 && c as u32 != 127 || c == '\t'
}

/// Whether a header may hold `text`.
pub open spec fn is_header_text(text: Seq<char>) -> bool {
    forall|i: int| 0 <= i < text.len() ==> header_accepts(#[trigger] text[i])
}

/// `HeaderValue::from_str` takes a text without ASCII control characters other
/// than the tab, and keeps its bytes.
#[verifier::external_body]
pub(crate) fn header_value(text: &str) -> (res: Option<
    tokio_tungstenite::tungstenite::http::HeaderValue,
>)
    ensures
        match res {
            Some(value) => is_header_text(text@) && header_bytes(value) == encode_utf8(text@),
            None => !is_header_text(text@),
        },
{
    tokio_tungstenite::tungstenite::http::HeaderValue::from_str(text).ok()
}

/// `c` in lower case, if it is an ASCII letter.
pub open spec fn lower(c: char) -> char {
    if 'A' <= c <= 'Z' {
        (c as u32 + 32) as char
    } else {
        c
    }
}

/// Whether `name` can name a header: it has a letter or more, and besides
/// letters only hyphens.
pub open spec fn is_header_name(name: Seq<char>) -> bool {
    &&& 0 < name.len() <= 64
    &&& forall|i: int|
        0 <= i < name.len() ==> {
            ||| 'a' <= #[trigger] name[i] <= 'z'
            ||| 'A' <= name[i] <= 'Z'
            ||| name[i] == '-'
        }
}

/// `HeaderMap::insert` on the headers of a request sets the only value under a
/// name, whose case does not matter. The rest of the request stays as it is. It
/// panics on a name that is none and on a map that is full.
#[verifier::external_body]
pub(crate) fn insert_header(
    request: &mut tokio_tungstenite::tungstenite::http::Request<()>,
    name: &'static str,
    value: tokio_tungstenite::tungstenite::http::HeaderValue,
)
    requires
        is_header_name(name@),
        request_headers(*old(request)).dom().len() < 100,
    ensures
        request_headers(*final(request)) == request_headers(*old(request)).insert(
            name@.map_values(|c: char| lower(c)),
            seq![header_bytes(value)],
        ),
        request_line(*final(request)) == request_line(*old(request)),
{
    request.headers_mut().insert(name, value);
}

/// The backend that is set, or that of OpenAI itself.
pub open spec fn backend_of(config: AsrConfig) -> OpenAiRealtimeBackend {
    match config.openai_realtime_backend {
        Some(backend) => backend,
        None => OpenAiRealtimeBackend::OpenAi,
    }
}

/// The parameters that the URL gets for a backend.
pub open spec fn url_updates(backend: OpenAiRealtimeBackend, model: Seq<char>) -> Seq<Update> {
    match backend {
        OpenAiRealtimeBackend::OpenAi => seq![("intent"@, Some("transcription"@))],
        OpenAiRealtimeBackend::AzureOpenAi => seq![
            ("deployment"@, Some(model)),
            ("intent"@, Some("transcription"@)),
        ],
    }
}

/// The deployment that is set, without white space around it.
pub open spec fn deployment(config: AsrConfig) -> Seq<char> {
    trimmed(text_or(optional(config.model), Seq::empty()))
}

/// The URL to connect to, or why there is none.
pub open spec fn ws_url(config: AsrConfig, backend: OpenAiRealtimeBackend) -> Result<
    Seq<char>,
    Fault,
> {
    let base = trimmed(config.url@);
    if base.len() == 0 {
        Err(Fault::Connection("url is required"@))
    } else if backend == OpenAiRealtimeBackend::AzureOpenAi && deployment(config).len() == 0 {
        Err(Fault::Connection("model is required for Azure OpenAI realtime"@))
    } else {
        Ok(upserted(base, url_updates(backend, deployment(config))))
    }
}

/// The header that carries the key.
pub open spec fn key_header(backend: OpenAiRealtimeBackend) -> Seq<char> {
    match backend {
        OpenAiRealtimeBackend::OpenAi => "authorization"@,
        OpenAiRealtimeBackend::AzureOpenAi => "api-key"@,
    }
}

/// The text of the header that carries the key.
pub open spec fn key_text(backend: OpenAiRealtimeBackend, api_key: Seq<char>) -> Seq<char> {
    match backend {
        OpenAiRealtimeBackend::OpenAi => "Bearer "@ + api_key,
        OpenAiRealtimeBackend::AzureOpenAi => api_key,
    }
}

/// Why no request can be made, if so: no key, no URL, a URL that cannot be
/// used, or a key that cannot stand in a header, in this order.
pub open spec fn request_refusal(config: AsrConfig) -> Option<Fault> {
    let backend = backend_of(config);
    if config.access_key@.len() == 0 {
        Some(Fault::Connection("api_key is required"@))
    } else {
        match ws_url(config, backend) {
            Err(fault) => Some(fault),
            Ok(url) => match client_target(url) {
                Err(error) => Some(Fault::Connection("invalid URL: "@ + error)),
                Ok(_) => if is_header_text(key_text(backend, config.access_key@)) {
                    None
                } else {
                    Some(Fault::Connection("invalid api_key"@))
                },
            },
        }
    }
}

/// Whether `request` asks for a websocket where the settings say and carries
/// their key, in a header beside those of the handshake.
pub open spec fn is_request_for(
    request: tokio_tungstenite::tungstenite::http::Request<()>,
    config: AsrConfig,
) -> bool {
    let backend = backend_of(config);
    let headers = request_headers(request);
    match ws_url(config, backend) {
        Ok(url) => {
            &&& client_target(url) is Ok
            &&& request_line(request) == handshake_line(client_uri(url))
            &&& is_handshake(headers.remove(key_header(backend)), client_host(url))
            &&& headers.contains_key(key_header(backend))
            &&& headers[key_header(backend)] == seq![
                encode_utf8(key_text(backend, config.access_key@)),
            ]
        },
        Err(_) => false,
    }
}

/// The headers of a handshake are few, and none of them carries a key.
pub proof fn lemma_handshake_headers(backend: OpenAiRealtimeBackend)
    ensures
        handshake_headers().finite(),
        handshake_headers().len() <= 5,
        !handshake_headers().contains(key_header(backend)),
{
    reveal_strlit("host");
    reveal_strlit("connection");
    reveal_strlit("upgrade");
    reveal_strlit("sec-websocket-version");
    reveal_strlit("sec-websocket-key");
    reveal_strlit("authorization");
    reveal_strlit("api-key");
    assert("host"@.len() == 4 && "connection"@.len() == 10 && "upgrade"@.len() == 7);
    assert("sec-websocket-version"@.len() == 21 && "sec-websocket-key"@.len() == 17);
    assert("upgrade"@[0] != "api-key"@[0]);
}

impl OpenAiRealtimeAsrProvider {
    /// The backend that is set, or that of OpenAI itself.
    pub fn detect_backend(config: &AsrConfig) -> (backend: OpenAiRealtimeBackend)
        ensures
            backend == backend_of(*config),
    {
        match config.openai_realtime_backend {
            Some(backend) => backend,
            None => OpenAiRealtimeBackend::OpenAi,
        }
    }

    /// The URL to connect to.
    pub fn build_ws_url(config: &AsrConfig, backend: OpenAiRealtimeBackend) -> (res: Result<
        String,
        AsrError,
    >)
        ensures
            match res {
                Ok(url) => ws_url(*config, backend) == Ok::<Seq<char>, Fault>(url@),
                Err(error) => ws_url(*config, backend) == Err::<Seq<char>, Fault>(error@),
            },
    {
        let base: &str = config.url.as_str().trim();
        if base.is_empty() {
            return Err(AsrError::Connection("url is required".to_owned()));
        }
        match backend {
            OpenAiRealtimeBackend::OpenAi => {
                let updates: [(&str, Option<&str>); 1] = [("intent", Some("transcription"))];
                assert(update_views(updates@) =~= url_updates(backend, deployment(*config)));
                Ok(upsert_query_params(base, &updates))
            },
            OpenAiRealtimeBackend::AzureOpenAi => {
                let model: &str = match &config.model {
                    Some(model) => model.as_str(),
                    None => "",
                };
                proof {
                    reveal_strlit("");
                    assert(model@ =~= text_or(optional(config.model), Seq::empty()));
                }
                let model: &str = model.trim();
                if model.is_empty() {
                    return Err(
                        AsrError::Connection(
                            "model is required for Azure OpenAI realtime".to_owned(),
                        ),
                    );
                }
                let updates: [(&str, Option<&str>); 2] = [
                    ("deployment", Some(model)),
                    ("intent", Some("transcription")),
                ];
                assert(update_views(updates@) =~= url_updates(backend, deployment(*config)));
                Ok(upsert_query_params(base, &updates))
            },
        }
    }

    /// Puts the key into a request, in place of one that was there.
    pub fn authorize(
        request: tokio_tungstenite::tungstenite::http::Request<()>,
        backend: OpenAiRealtimeBackend,
        api_key: &str,
    ) -> (res: Result<tokio_tungstenite::tungstenite::http::Request<()>, AsrError>)
        requires
            request_headers(request).dom().len() < 100,
        ensures
            match res {
                Ok(authorized) => {
                    &&& is_header_text(key_text(backend, api_key@))
                    &&& request_line(authorized) == request_line(request)
                    &&& request_headers(authorized) == request_headers(request).insert(
                        key_header(backend),
                        seq![encode_utf8(key_text(backend, api_key@))],
                    )
                },
                Err(error) => {
                    &&& !is_header_text(key_text(backend, api_key@))
                    &&& error@ == Fault::Connection("invalid api_key"@)
                },
            },
    {
        let mut request = request;
        let text: String = match backend {
            OpenAiRealtimeBackend::OpenAi => joined("Bearer ", api_key),
            OpenAiRealtimeBackend::AzureOpenAi => api_key.to_owned(),
        };
        let value = match header_value(text.as_str()) {
            Some(value) => value,
            None => {
                return Err(AsrError::Connection("invalid api_key".to_owned()));
            },
        };
        proof {
            reveal_strlit("Authorization");
            reveal_strlit("authorization");
            reveal_strlit("api-key");
        }
        match backend {
            OpenAiRealtimeBackend::OpenAi => {
                insert_header(&mut request, "Authorization", value);
                assert("Authorization"@.map_values(|c: char| lower(c)) =~= "authorization"@);
            },
            OpenAiRealtimeBackend::AzureOpenAi => {
                insert_header(&mut request, "api-key", value);
                assert("api-key"@.map_values(|c: char| lower(c)) =~= "api-key"@);
            },
        }
        Ok(request)
    }

    /// The error for a URL that cannot be used.
    pub fn invalid_url(error: &str) -> (fault: AsrError)
        ensures
            fault@ == Fault::Connection("invalid URL: "@ + error@),
    {
        AsrError::Connection(joined("invalid URL: ", error))
    }

    /// The request that opens a connection.
    pub fn build_request(config: &AsrConfig) -> (res: Result<
        tokio_tungstenite::tungstenite::http::Request<()>,
        AsrError,
    >)
        ensures
            match res {
                Ok(request) => {
                    &&& request_refusal(*config) is None
                    &&& is_request_for(request, *config)
                },
                Err(error) => request_refusal(*config) == Some(error@),
            },
    {
        if config.access_key.as_str().is_empty() {
            return Err(AsrError::Connection("api_key is required".to_owned()));
        }
        let backend: OpenAiRealtimeBackend = Self::detect_backend(config);
        let url: String = match Self::build_ws_url(config, backend) {
            Ok(url) => url,
            Err(error) => {
                return Err(error);
            },
        };
        let request = match client_request(url.as_str()) {
            Ok(request) => request,
            Err(error) => {
                return Err(Self::invalid_url(error.as_str()));
            },
        };
        proof {
            lemma_handshake_headers(backend);
        }
        let ghost headers = request_headers(request);
        match Self::authorize(request, backend, config.access_key.as_str()) {
            Ok(request) => {
                assert(request_headers(request).remove(key_header(backend)) =~= headers);
                Ok(request)
            },
            Err(error) => Err(error),
        }
    }
}

} // verus!
