//! What holds of the URL and the request whatever the settings are.

use vstd::prelude::*;
use vstd::utf8::encode_utf8;

use crate::query::{url_pairs, url_path, Pair};
use crate::query_laws::{
    clean_updates, is_clean, is_clean_update, last_update, law_path_is_kept,
    law_settings_are_read_back, law_updated_url_is_written, lemma_all_updated_filter,
    lemma_upserted_pairs, names, turns_into, value_of, written,
};
use crate::request::{
    backend_of, client_host, client_target, client_uri, deployment, handshake_headers,
    header_accepts, is_request_for, key_header, key_text, lemma_handshake_headers,
    request_headers, request_line, request_refusal, url_updates, ws_url,
};
use crate::text::{
    has_bare_ends, is_blank, is_white_space, law_trimmed_stands_inside,
    law_trimming_takes_the_ends, trimmed,
};
use crate::types::{AsrConfig, Fault, OpenAiRealtimeBackend};

verus! {

/// Whether this is the backend of the settings: the one that is set, or that of
/// OpenAI where none is.
pub open spec fn is_backend(config: AsrConfig, backend: OpenAiRealtimeBackend) -> bool {
    match config.openai_realtime_backend {
        Some(chosen) => backend == chosen,
        None => backend == OpenAiRealtimeBackend::OpenAi,
    }
}

/// The backend that is set is used, and that of OpenAI where none is.
pub proof fn law_backend_is_the_one_that_is_set(config: AsrConfig)
    ensures
        is_backend(config, backend_of(config)),
{
}

/// A text is blank if and only if nothing is left of it when it is trimmed.
proof fn lemma_blank(s: Seq<char>)
    ensures
        is_blank(s) <==> trimmed(s).len() == 0,
{
    let none: Seq<char> = Seq::empty();
    if is_blank(s) {
        law_trimming_takes_the_ends(s, none, none);
        assert(s + none + none =~= s);
    }
    if trimmed(s).len() == 0 {
        law_trimmed_stands_inside(s);
        let (a, b) = choose|a: Seq<char>, b: Seq<char>|
            #![trigger is_blank(a), is_blank(b)]
            is_blank(a) && is_blank(b) && s == a + trimmed(s) + b;
        assert(s =~= a + b);
        assert forall|i: int| 0 <= i < s.len() implies is_white_space(#[trigger] s[i]) by {
            if i < a.len() {
                assert(s[i] == a[i]);
            } else {
                assert(s[i] == b[i - a.len()]);
            }
        }
    }
}

/// Whether the settings name no model, or a blank one.
pub open spec fn names_no_model(config: AsrConfig) -> bool {
    match config.model {
        Some(model) => is_blank(model@),
        None => true,
    }
}

/// There is a URL to connect to unless the one that is set is blank or, on
/// Azure, no model is set; and the error says which.
pub proof fn law_missing_settings_are_told(config: AsrConfig, backend: OpenAiRealtimeBackend)
    ensures
        is_blank(config.url@) ==> ws_url(config, backend) == Err::<Seq<char>, Fault>(
            Fault::Connection("url is required"@),
        ),
        !is_blank(config.url@) && backend == OpenAiRealtimeBackend::AzureOpenAi && names_no_model(
            config,
        ) ==> ws_url(config, backend) == Err::<Seq<char>, Fault>(
            Fault::Connection("model is required for Azure OpenAI realtime"@),
        ),
        !is_blank(config.url@) && !(backend == OpenAiRealtimeBackend::AzureOpenAi
            && names_no_model(config)) ==> ws_url(config, backend) is Ok,
{
    lemma_blank(config.url@);
    match config.model {
        Some(model) => lemma_blank(model@),
        None => lemma_blank(Seq::empty()),
    }
}

/// The URL to connect to is the one that is set, without the white space around
/// it: its path as it was, and behind it its pairs, after `deployment` was set
/// to the model on Azure, without the white space around it, and `intent` to
/// `transcription`.
pub proof fn law_url_to_connect_to_is_written(
    config: AsrConfig,
    backend: OpenAiRealtimeBackend,
    url_ends: (Seq<char>, Seq<char>),
    path: Seq<char>,
    rest: Seq<char>,
    model_ends: (Seq<char>, Seq<char>),
    model: Seq<char>,
    stages: Seq<Seq<Pair>>,
)
    requires
        is_blank(url_ends.0),
        is_blank(url_ends.1),
        config.url@ == url_ends.0 + (path + rest) + url_ends.1,
        (path + rest).len() > 0,
        has_bare_ends(path + rest),
        !path.contains('?'),
        rest.len() > 0 ==> rest[0] == '?',
        match backend {
            OpenAiRealtimeBackend::OpenAi => {
                &&& stages.len() == 2
                &&& stages[0] == url_pairs(path + rest)
                &&& turns_into(stages[0], ("intent"@, Some("transcription"@)), stages[1])
            },
            OpenAiRealtimeBackend::AzureOpenAi => {
                &&& is_blank(model_ends.0)
                &&& is_blank(model_ends.1)
                &&& config.model matches Some(set) && set@ == model_ends.0 + model + model_ends.1
                &&& model.len() > 0
                &&& has_bare_ends(model)
                &&& stages.len() == 3
                &&& stages[0] == url_pairs(path + rest)
                &&& turns_into(stages[0], ("deployment"@, Some(model)), stages[1])
                &&& turns_into(stages[1], ("intent"@, Some("transcription"@)), stages[2])
            },
        },
    ensures
        ws_url(config, backend) == Ok::<Seq<char>, Fault>(path + written('?', stages.last())),
{
    law_trimming_takes_the_ends(url_ends.0, path + rest, url_ends.1);
    if backend == OpenAiRealtimeBackend::AzureOpenAi {
        law_trimming_takes_the_ends(model_ends.0, model, model_ends.1);
    }
    let updates = url_updates(backend, deployment(config));
    assert forall|i: int| 0 <= i < updates.len() implies turns_into(
        stages[i],
        #[trigger] updates[i],
        stages[i + 1],
    ) by {}
    law_updated_url_is_written(path, rest, updates, stages);
}

/// Whether a parameter is one that connecting sets.
pub open spec fn is_set_to_connect(backend: OpenAiRealtimeBackend, key: Seq<char>) -> bool {
    key == "intent"@ || backend == OpenAiRealtimeBackend::AzureOpenAi && key == "deployment"@
}

/// Whether the model, which becomes a parameter on Azure, is one that can.
pub open spec fn model_is_one_parameter(
    config: AsrConfig,
    backend: OpenAiRealtimeBackend,
) -> bool {
    backend == OpenAiRealtimeBackend::AzureOpenAi ==> (config.model matches Some(model)
        ==> !model@.contains('&'))
}

/// What is set of the model has no ampersand where the model has none.
proof fn lemma_url_updates_clean(config: AsrConfig, backend: OpenAiRealtimeBackend)
    requires
        model_is_one_parameter(config, backend),
    ensures
        clean_updates(url_updates(backend, deployment(config))),
{
    reveal_strlit("intent");
    reveal_strlit("transcription");
    reveal_strlit("deployment");
    let raw = match config.model {
        Some(model) => model@,
        None => Seq::empty(),
    };
    law_trimmed_stands_inside(raw);
    let (a, b) = choose|a: Seq<char>, b: Seq<char>|
        #![trigger is_blank(a), is_blank(b)]
        is_blank(a) && is_blank(b) && raw == a + trimmed(raw) + b;
    let updates = url_updates(backend, deployment(config));
    assert forall|i: int| 0 <= i < updates.len() implies is_clean_update(#[trigger] updates[i]) by {
        if i == 0 && backend == OpenAiRealtimeBackend::AzureOpenAi {
            let name = deployment(config);
            assert forall|k: int| 0 <= k < name.len() implies name[k] != '&' by {
                assert(raw[a.len() + k] == name[k]);
                assert(raw.contains(name[k]));
            }
            assert(is_clean(("deployment"@, name)));
        } else {
            assert(is_clean(("intent"@, "transcription"@)));
        }
    }
}

/// The URL to connect to keeps what stands before the question mark of the URL
/// that is set, and all its parameters but those that connecting sets, with
/// their values and in their order.
pub proof fn law_url_keeps_what_was_set(
    config: AsrConfig,
    backend: OpenAiRealtimeBackend,
    key: Seq<char>,
)
    ensures
        ws_url(config, backend) matches Ok(url) ==> url_path(url) == url_path(
            trimmed(config.url@),
        ),
        model_is_one_parameter(config, backend) ==> (ws_url(config, backend) matches Ok(url) ==> {
            &&& url_pairs(url).filter(|pair: Pair| !is_set_to_connect(backend, pair.0))
                == url_pairs(trimmed(config.url@)).filter(
                |pair: Pair| !is_set_to_connect(backend, pair.0),
            )
            &&& !is_set_to_connect(backend, key) ==> value_of(url_pairs(url), key) == value_of(
                url_pairs(trimmed(config.url@)),
                key,
            )
        }),
{
    let base = trimmed(config.url@);
    let updates = url_updates(backend, deployment(config));
    if let Ok(url) = ws_url(config, backend) {
        law_path_is_kept(base, updates);
        if model_is_one_parameter(config, backend) {
            lemma_url_updates_clean(config, backend);
            lemma_upserted_pairs(base, updates);
            let keep = |pair: Pair| !is_set_to_connect(backend, pair.0);
            assert forall|pair: Pair| #[trigger] keep(pair) implies !names(updates, pair.0) by {
                if names(updates, pair.0) {
                    let i = choose|i: int|
                        0 <= i < updates.len() && (#[trigger] updates[i]).0 == pair.0;
                    assert(i == 0 || i == 1);
                }
            }
            lemma_all_updated_filter(url_pairs(base), updates, keep);
            if !is_set_to_connect(backend, key) {
                reveal_with_fuel(last_update, 3);
                law_settings_are_read_back(base, updates, key);
            }
        }
    }
}

/// The URL to connect to asks for transcription, and on Azure names the model
/// that is set, without the white space around it.
pub proof fn law_url_asks_for_transcription(
    config: AsrConfig,
    backend: OpenAiRealtimeBackend,
    model_ends: (Seq<char>, Seq<char>),
    model: Seq<char>,
)
    requires
        model_is_one_parameter(config, backend),
        is_blank(model_ends.0),
        is_blank(model_ends.1),
        has_bare_ends(model),
        config.model matches Some(set) ==> set@ == model_ends.0 + model + model_ends.1,
    ensures
        ws_url(config, backend) matches Ok(url) ==> {
            &&& value_of(url_pairs(url), "intent"@) == Some("transcription"@)
            &&& backend == OpenAiRealtimeBackend::AzureOpenAi ==> value_of(
                url_pairs(url),
                "deployment"@,
            ) == Some(model)
        },
{
    let base = trimmed(config.url@);
    let updates = url_updates(backend, deployment(config));
    if let Ok(url) = ws_url(config, backend) {
        lemma_url_updates_clean(config, backend);
        law_trimming_takes_the_ends(model_ends.0, model, model_ends.1);
        law_missing_settings_are_told(config, backend);
        reveal_strlit("intent");
        reveal_strlit("deployment");
        assert("intent"@.len() == 6 && "deployment"@.len() == 10);
        reveal_with_fuel(last_update, 3);
        law_settings_are_read_back(base, updates, "intent"@);
        law_settings_are_read_back(base, updates, "deployment"@);
    }
}

/// Whether this is the text that authorises a request.
pub open spec fn bears(
    backend: OpenAiRealtimeBackend,
    api_key: Seq<char>,
    text: Seq<char>,
) -> bool {
    match backend {
        OpenAiRealtimeBackend::OpenAi => text == "Bearer "@ + api_key,
        OpenAiRealtimeBackend::AzureOpenAi => text == api_key,
    }
}

/// A key is carried for OpenAI behind `Bearer` in the header `authorization`, and
/// for Azure as it is in the header `api-key`.
pub proof fn law_key_is_carried_as_it_is(backend: OpenAiRealtimeBackend, api_key: Seq<char>)
    ensures
        bears(backend, api_key, key_text(backend, api_key)),
        backend == OpenAiRealtimeBackend::OpenAi ==> key_header(backend) == "authorization"@,
        backend == OpenAiRealtimeBackend::AzureOpenAi ==> key_header(backend) == "api-key"@,
{
}

/// A request is refused for want of a key, then for its URL, then for a key that
/// cannot stand in a header, with the error that says so; else it is made.
pub proof fn law_requests_are_refused_in_order(
    config: AsrConfig,
    backend: OpenAiRealtimeBackend,
    text: Seq<char>,
)
    requires
        is_backend(config, backend),
        bears(backend, config.access_key@, text),
    ensures
        config.access_key@.len() == 0 ==> request_refusal(config) == Some(
            Fault::Connection("api_key is required"@),
        ),
        config.access_key@.len() > 0 ==> match ws_url(config, backend) {
            Err(fault) => request_refusal(config) == Some(fault),
            Ok(url) => match client_target(url) {
                Err(error) => request_refusal(config) == Some(
                    Fault::Connection("invalid URL: "@ + error),
                ),
                Ok(_) => if exists|i: int|
                    0 <= i < text.len() && !header_accepts(#[trigger] text[i]) {
                    request_refusal(config) == Some(Fault::Connection("invalid api_key"@))
                } else {
                    request_refusal(config) is None
                },
            },
        },
{
}

/// The request that is made goes to the URL to connect to as a request for a
/// websocket, and carries the key: for OpenAI behind `Bearer` in the header
/// `authorization`, for Azure as it is in the header `api-key`.
pub proof fn law_request_carries_the_key(
    request: tokio_tungstenite::tungstenite::http::Request<()>,
    config: AsrConfig,
    backend: OpenAiRealtimeBackend,
    text: Seq<char>,
    name: Seq<char>,
)
    requires
        is_backend(config, backend),
        bears(backend, config.access_key@, text),
        name == match backend {
            OpenAiRealtimeBackend::OpenAi => "authorization"@,
            OpenAiRealtimeBackend::AzureOpenAi => "api-key"@,
        },
        is_request_for(request, config),
    ensures
        ({
            let headers = request_headers(request);
            let line = request_line(request);
            &&& ws_url(config, backend) matches Ok(url) && {
                &&& client_target(url) is Ok
                &&& line.target == client_uri(url)
                &&& headers["host"@] == seq![client_host(url)]
            }
            &&& line.method == "GET"@
            &&& line.version == "HTTP/1.1"@
            &&& headers.dom() == handshake_headers().insert(name)
            &&& headers[name] == seq![encode_utf8(text)]
            &&& headers["connection"@] == seq![encode_utf8("Upgrade"@)]
            &&& headers["upgrade"@] == seq![encode_utf8("websocket"@)]
            &&& headers["sec-websocket-version"@] == seq![encode_utf8("13"@)]
        }),
{
    let headers = request_headers(request);
    lemma_handshake_headers(backend);
    assert(headers.remove(name).dom() =~= handshake_headers());
    assert(headers.dom() =~= handshake_headers().insert(name));
    assert(handshake_headers().contains("host"@));
    assert(handshake_headers().contains("connection"@));
    assert(handshake_headers().contains("upgrade"@));
    assert(handshake_headers().contains("sec-websocket-version"@));
}

} // verus!
