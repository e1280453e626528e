//! Verified core of the client for the TCG Price Lookup API: request
//! building, percent-encoding, response classification, rate-limit headers
//! and the splitting and merging of batch card searches.

pub mod client;
pub mod error;
pub mod rate_limit;
pub mod resources;
pub mod text;
pub mod urlencode;

pub use client::{trim_end_slashes, ClientBuilder, DEFAULT_TIMEOUT_SECS};
pub use error::{check_response, from_response, is_success, response_message, Error};
pub use rate_limit::{capture_rate_limit, header_value_u32, parse_u32, RateLimitInfo};
pub use resources::cards::{
    cards_get_path, cards_get_request, cards_history_request, cards_search_plan,
    cards_search_query, merge_chunked_search, CardSearchParams, HistoryParams, MergedPage,
    SearchPlan, ChunkStep, ChunkedSearch, SEARCH_IDS_CHUNK_SIZE,
};
pub use resources::games::{games_list_request, GameListParams};
pub use resources::sets::{sets_list_request, SetListParams};
pub use resources::{request_headers, request_url, ApiRequest};
pub use text::{decimal_string, hex_digit_char, push_decimal};
pub use urlencode::{is_unreserved_byte, urlencode};
