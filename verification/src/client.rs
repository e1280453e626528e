//! Configuration of the API client.

use vstd::prelude::*;
use vstd::string::StrSliceExecFns;

use std::time::Duration;

verus! {

/// The API base URL a builder starts with.
pub open spec fn default_base_url() -> Seq<char> {
    "https://api.tcgpricelookup.com/v1"@
}

/// The User-Agent a builder starts with.
pub open spec fn default_user_agent() -> Seq<char> {
    "tcglookup-rs/0.1.0"@
}

/// The per-request timeout a builder starts with, in seconds.
pub const DEFAULT_TIMEOUT_SECS: u64 = 30;

/// The duration of a whole number of seconds, as `Duration::from_secs` makes
/// it. `Duration` is opaque here, so nothing more of it is stated than that
/// the same number of seconds gives the same duration.
pub uninterp spec fn duration_of_secs(secs: u64) -> Duration;

/// Calls `Duration::from_secs`, which std documents as creating a duration of
/// the given number of whole seconds; the contract claims only that the result
/// is `duration_of_secs(secs)`.
#[verifier::external_body]
fn duration_from_secs(secs: u64) -> (d: Duration)
    ensures
        d == duration_of_secs(secs),
{
    Duration::from_secs(secs)
}

/// A text with every trailing `/` removed.
pub open spec fn trim_trailing_slashes(s: Seq<char>) -> Seq<char>
    decreases s.len(),
{
    if s.len() > 0 && s.last() == '/' {
        trim_trailing_slashes(s.drop_last())
    } else {
        s
    }
}

/// Removes every trailing `/` from `s`, as `s.trim_end_matches('/')` does.
pub fn trim_end_slashes(s: &str) -> (r: String)
    ensures
        r@ == trim_trailing_slashes(s@),
{
    let n = s.unicode_len();
    let mut end = n;
    assert(s@.take(n as int) =~= s@);
    while end > 0 && s.get_char(end - 1) == '/'
        invariant
            end <= n,
            n == s@.len(),
            trim_trailing_slashes(s@) == trim_trailing_slashes(s@.take(end as int)),
        decreases end,
    {
        assert(s@.take(end as int).drop_last() =~= s@.take(end - 1));
        end = end - 1;
    }
    s.substring_char(0, end).to_owned()
}

/// Trimming keeps a prefix of the text that does not end in `/`, and all it
/// drops are slashes.
pub proof fn lemma_trim_trailing_slashes(s: Seq<char>)
    ensures
        trim_trailing_slashes(s).len() <= s.len(),
        trim_trailing_slashes(s) =~= s.take(trim_trailing_slashes(s).len() as int),
        trim_trailing_slashes(s).len() == 0 || trim_trailing_slashes(s).last() != '/',
        forall|i: int|
            trim_trailing_slashes(s).len() <= i < s.len() ==> #[trigger] s[i] == '/',
    decreases s.len(),
{
    if s.len() > 0 && s.last() == '/' {
        let init = s.drop_last();
        lemma_trim_trailing_slashes(init);
        assert forall|i: int|
            trim_trailing_slashes(s).len() <= i < s.len() implies #[trigger] s[i] == '/' by {
            if i < s.len() - 1 {
                assert(s[i] == init[i]);
            }
        }
    }
}

/// Trimming twice is trimming once.
pub proof fn lemma_trim_idempotent(s: Seq<char>)
    ensures
        trim_trailing_slashes(trim_trailing_slashes(s)) == trim_trailing_slashes(s),
{
    lemma_trim_trailing_slashes(s);
}

/// What a builder holds.
pub struct BuilderView {
    pub api_key: Seq<char>,
    pub base_url: Seq<char>,
    pub user_agent: Seq<char>,
    pub timeout: Duration,
}

/// Builder for the API client with custom configuration.
pub struct ClientBuilder {
    api_key: String,
    base_url: String,
    user_agent: String,
    timeout: Duration,
}

impl View for ClientBuilder {
    type V = BuilderView;

    closed spec fn view(&self) -> BuilderView {
        BuilderView {
            api_key: self.api_key@,
            base_url: self.base_url@,
            user_agent: self.user_agent@,
            timeout: self.timeout,
        }
    }
}

impl ClientBuilder {
    /// Start a builder with the default base URL, User-Agent and timeout.
    pub fn new(api_key: String) -> (b: Self)
        ensures
            b@.api_key == api_key@,
            b@.base_url == default_base_url(),
            b@.user_agent == default_user_agent(),
            b@.timeout == duration_of_secs(DEFAULT_TIMEOUT_SECS),
    {
        ClientBuilder {
            api_key,
            base_url: "https://api.tcgpricelookup.com/v1".to_owned(),
            user_agent: "tcglookup-rs/0.1.0".to_owned(),
            timeout: duration_from_secs(DEFAULT_TIMEOUT_SECS),
        }
    }

    /// Override the API base URL; trailing slashes are dropped.
    pub fn base_url(self, url: String) -> (b: Self)
        ensures
            b@ == (BuilderView { base_url: trim_trailing_slashes(url@), ..self@ }),
    {
        let trimmed = trim_end_slashes(url.as_str());
        ClientBuilder { base_url: trimmed, ..self }
    }

    /// Override the per-request timeout.
    pub fn timeout(self, timeout: Duration) -> (b: Self)
        ensures
            b@ == (BuilderView { timeout, ..self@ }),
    {
        ClientBuilder { timeout, ..self }
    }

    /// Override the User-Agent header.
    pub fn user_agent(self, ua: String) -> (b: Self)
        ensures
            b@ == (BuilderView { user_agent: ua@, ..self@ }),
    {
        ClientBuilder { user_agent: ua, ..self }
    }

    /// The configuration, for building the client: API key, base URL,
    /// User-Agent and timeout.
    pub fn into_parts(self) -> (parts: (String, String, String, Duration))
        ensures
            parts.0@ == self@.api_key,
            parts.1@ == self@.base_url,
            parts.2@ == self@.user_agent,
            parts.3 == self@.timeout,
    {
        (self.api_key, self.base_url, self.user_agent, self.timeout)
    }
}

} // verus!
