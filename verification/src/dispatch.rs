//! The table of served APIs and the dispatch of a decoded request to its
//! handler.

use vstd::prelude::*;
use crate::errors::{wire_code, KafkaError};
use crate::request::{fetch_request_of, FetchRequest, FetchRequestView, KafkaRequestHeader, KafkaRequestHeaderView};
use crate::response::{
    ApiKeyVerInfo, ApiVersionsResponse, ApiVersionsResponseView, ErrorResponse, FetchResponse,
    FetchResponseView, KafkaResponse, KafkaResponseView, ResponseTopic,
};

verus! {

/// API key of a fetch request.
pub const FETCH: i16 = 1;

/// API key of a version-negotiation request.
pub const APIVERSIONS: i16 = 18;

/// The APIs that the broker serves, each with the versions it accepts.
pub open spec fn supported_apis() -> Seq<ApiKeyVerInfo> {
    seq![
        ApiKeyVerInfo { id: APIVERSIONS, min: 4, max: 4 },
        ApiKeyVerInfo { id: FETCH, min: 16, max: 16 },
    ]
}

/// The first entry of `table` for the API `key`, if there is one.
pub open spec fn supported_range(table: Seq<ApiKeyVerInfo>, key: i16) -> Option<ApiKeyVerInfo>
    decreases table.len(),
{
    if table.len() == 0 {
        None
    } else if table.first().id == key {
        Some(table.first())
    } else {
        supported_range(table.drop_first(), key)
    }
}

/// The answer to a fetch request: no throttling, the session of the request
/// and no records, since no storage stands behind the broker.
pub open spec fn fetch_reply(request: FetchRequestView) -> FetchResponseView {
    FetchResponseView {
        correlation_id: request.correlation_id,
        throttle_time_ms: 0,
        session_id: request.session_id,
        responses: Seq::empty(),
    }
}

/// What a request with the header `header` and the body `body` is answered
/// with, or why it is refused.
///
/// An API key outside the table is refused as unsupported, and so is a
/// version outside the range that the table gives for the key. A
/// version-negotiation request is answered with the whole table, a fetch
/// request with [`fetch_reply`] of its decoded body.
pub open spec fn dispatch(header: KafkaRequestHeaderView, body: Seq<u8>) -> Result<
    KafkaResponseView,
    KafkaError,
> {
    match supported_range(supported_apis(), header.api_key) {
        None => Err(KafkaError::UnsupportedApiKey(header.api_key)),
        Some(info) => if header.api_ver < info.min || header.api_ver > info.max {
            Err(KafkaError::UnsupportedApiVersion(header.api_ver))
        } else if header.api_key == APIVERSIONS {
            Ok(
                KafkaResponseView::ApiVersions(
                    ApiVersionsResponseView {
                        correlation_id: header.correlation_id,
                        api_key_versions: supported_apis(),
                    },
                ),
            )
        } else if header.api_key == FETCH {
            match fetch_request_of(body, header.correlation_id) {
                Err(error) => Err(error),
                Ok(request) => Ok(KafkaResponseView::Fetch(fetch_reply(request))),
            }
        } else {
            Err(KafkaError::UnsupportedApiKey(header.api_key))
        },
    }
}

/// The response that goes back for a request: what [`dispatch`] answers, or
/// an error response that carries the correlation identifier of the request
/// and the code of the failure.
pub open spec fn reply_to(header: KafkaRequestHeaderView, body: Seq<u8>) -> KafkaResponseView {
    match dispatch(header, body) {
        Ok(response) => response,
        Err(error) => KafkaResponseView::Error(
            ErrorResponse { correlation_id: header.correlation_id, error_code: wire_code(error) },
        ),
    }
}

/// The table of served APIs.
pub fn api_versions_table() -> (table: Vec<ApiKeyVerInfo>)
    ensures
        table@ == supported_apis(),
{
    let mut table: Vec<ApiKeyVerInfo> = Vec::new();
    table.push(ApiKeyVerInfo { id: APIVERSIONS, min: 4, max: 4 });
    table.push(ApiKeyVerInfo { id: FETCH, min: 16, max: 16 });
    proof {
        assert(table@ =~= supported_apis());
    }
    table
}

/// Looks the API `key` up in `table`.
pub fn lookup_api(table: &Vec<ApiKeyVerInfo>, key: i16) -> (found: Option<ApiKeyVerInfo>)
    ensures
        found == supported_range(table@, key),
{
    let mut index: usize = 0;
    proof {
        assert(table@.skip(0) =~= table@);
    }
    while index < table.len()
        invariant
            index <= table@.len(),
            supported_range(table@, key) == supported_range(table@.skip(index as int), key),
        decreases table@.len() - index,
    {
        let info = table[index];
        if info.id == key {
            return Some(info);
        }
        proof {
            assert(table@.skip(index as int).drop_first() =~= table@.skip(index + 1));
        }
        index = index + 1;
    }
    None
}

/// Answers a fetch request.
pub fn handle_fetch(request: &FetchRequest) -> (response: FetchResponse)
    ensures
        response@ == fetch_reply(request@),
{
    let responses: Vec<ResponseTopic> = Vec::new();
    let response = FetchResponse {
        correlation_id: request.correlation_id,
        throttle_time_ms: 0,
        session_id: request.session_id,
        responses,
    };
    proof {
        assert(response@.responses =~= Seq::empty());
    }
    response
}

/// Decodes the body of a request and hands it to the handler of its API.
///
/// `request_buffer` holds the body alone: the bytes of the frame that follow
/// the header.
pub fn process_request(request_header: &KafkaRequestHeader, request_buffer: &[u8]) -> (result:
    Result<KafkaResponse, KafkaError>)
    ensures
        match dispatch(request_header@, request_buffer@) {
            Ok(response) => result matches Ok(found) && found@ == response,
            Err(error) => result matches Err(found) && found == error,
        },
        result matches Ok(found) ==> found@.encodable(),
{
    let table = api_versions_table();
    let info = match lookup_api(&table, request_header.api_key) {
        None => { return Err(KafkaError::UnsupportedApiKey(request_header.api_key)); },
        Some(info) => info,
    };
    if request_header.api_ver < info.min || request_header.api_ver > info.max {
        return Err(KafkaError::UnsupportedApiVersion(request_header.api_ver));
    }
    if request_header.api_key == APIVERSIONS {
        Ok(
            KafkaResponse::ApiVersions(
                ApiVersionsResponse {
                    correlation_id: request_header.correlation_id,
                    api_key_versions: table,
                },
            ),
        )
    } else if request_header.api_key == FETCH {
        let request = FetchRequest::parse(request_buffer, request_header.correlation_id)?;
        Ok(KafkaResponse::Fetch(handle_fetch(&request)))
    } else {
        Err(KafkaError::UnsupportedApiKey(request_header.api_key))
    }
}

/// Answers a request: with the response of its handler, or with an error
/// response where the request is refused or its body does not decode.
pub fn respond(request_header: &KafkaRequestHeader, request_buffer: &[u8]) -> (response:
    KafkaResponse)
    ensures
        response@ == reply_to(request_header@, request_buffer@),
        response@.encodable(),
{
    match process_request(request_header, request_buffer) {
        Ok(response) => response,
        Err(error) => KafkaResponse::Error(
            ErrorResponse {
                correlation_id: request_header.correlation_id,
                error_code: error.to_error_code(),
            },
        ),
    }
}

/// Every response carries the correlation identifier of the request it
/// answers, whether the request was served or refused.
pub proof fn lemma_reply_echoes_correlation_id(header: KafkaRequestHeaderView, body: Seq<u8>)
    ensures
        reply_to(header, body).correlation_id() == header.correlation_id,
{
}

/// Every response to a request can be encoded.
pub proof fn lemma_reply_is_encodable(header: KafkaRequestHeaderView, body: Seq<u8>)
    ensures
        reply_to(header, body).encodable(),
{
    reveal_with_fuel(supported_range, 3);
}

/// A request is served exactly when its API key is in the table, its
/// version is in the range that the table gives, and, for a fetch, its body
/// decodes. A version-negotiation request in range is always served.
pub proof fn lemma_dispatch_cases(header: KafkaRequestHeaderView, body: Seq<u8>)
    ensures
        header.api_key != APIVERSIONS && header.api_key != FETCH ==> dispatch(header, body) == Err::<
            KafkaResponseView,
            KafkaError,
        >(KafkaError::UnsupportedApiKey(header.api_key)),
        header.api_key == APIVERSIONS && header.api_ver != 4 ==> dispatch(header, body) == Err::<
            KafkaResponseView,
            KafkaError,
        >(KafkaError::UnsupportedApiVersion(header.api_ver)),
        header.api_key == FETCH && header.api_ver != 16 ==> dispatch(header, body) == Err::<
            KafkaResponseView,
            KafkaError,
        >(KafkaError::UnsupportedApiVersion(header.api_ver)),
        header.api_key == APIVERSIONS && header.api_ver == 4 ==> dispatch(header, body) == Ok::<
            KafkaResponseView,
            KafkaError,
        >(
            KafkaResponseView::ApiVersions(
                ApiVersionsResponseView {
                    correlation_id: header.correlation_id,
                    api_key_versions: supported_apis(),
                },
            ),
        ),
        header.api_key == FETCH && header.api_ver == 16 ==> (dispatch(header, body) is Ok
            <==> fetch_request_of(body, header.correlation_id) is Ok),
{
    reveal_with_fuel(supported_range, 3);
}

} // verus!
