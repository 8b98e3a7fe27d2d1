//! Pure helpers for the fetch gateway: its error taxonomy, the guard that
//! rejects profiles without a token, and the URL surgery applied to API
//! responses. The network calls themselves live outside the library and
//! hand their outcomes to the account state machine as plain values.

use vstd::prelude::*;
use vstd::string::{StrSliceExecFns, StringExecFns};
use crate::domain::{GitHubAccount, MentionKind};
use crate::text::{has_substring, replace_spec, replace_str, str_contains, strip_prefix_repeated,
    strip_prefix_spec};

verus! {

/// Everything that can go wrong between the dashboard and the provider.
#[derive(Clone, Debug)]
pub enum FetchError {
    /// Transport or API failure, carrying the underlying error's text.
    Http(String),
    /// The account has no token; no network call was attempted.
    MissingToken,
    /// A background worker terminated without delivering a result.
    BackgroundWorkerGone,
}

/// The human-readable text of each error, as `message` renders it.
pub open spec fn error_text(e: FetchError) -> Seq<char> {
    match e {
        FetchError::Http(m) => "GitHub API request failed: "@ + m@,
        FetchError::MissingToken => "Account token is missing"@,
        FetchError::BackgroundWorkerGone => "Background worker disconnected before returning a result"@,
    }
}

impl FetchError {
    /// The human-readable message shown beside an account.
    pub fn message(&self) -> (r: String)
        ensures
            r@ == error_text(*self),
    {
        match self {
            FetchError::Http(m) => String::from_str("GitHub API request failed: ").concat(
                m.as_str(),
            ),
            FetchError::MissingToken => String::from_str("Account token is missing"),
            FetchError::BackgroundWorkerGone => String::from_str(
                "Background worker disconnected before returning a result",
            ),
        }
    }
}

/// Fails fast when the profile carries no token, as every remote call must.
pub fn require_token(profile: &GitHubAccount) -> (r: Result<(), FetchError>)
    ensures
        r is Ok <==> profile@.token.len() > 0,
        r is Err ==> r->Err_0 is MissingToken,
{
    if profile.token.as_str().is_empty() {
        Err(FetchError::MissingToken)
    } else {
        Ok(())
    }
}

/// Tells a pull-request thread from an issue thread by its web URL.
pub fn classify_thread(url: &str) -> (kind: MentionKind)
    ensures
        kind == (if has_substring(url@, "/pull/"@) {
            MentionKind::PullRequest
        } else {
            MentionKind::Issue
        }),
{
    if str_contains(url, "/pull/") {
        MentionKind::PullRequest
    } else {
        MentionKind::Issue
    }
}

/// The repository's `owner/name`, as read off its API URL.
pub fn extract_repo_name(api_url: &str) -> (r: String)
    ensures
        r@ == strip_prefix_spec(api_url@, "https://api.github.com/repos/"@),
{
    proof {
        reveal_strlit("https://api.github.com/repos/");
    }
    let stripped = strip_prefix_repeated(api_url, "https://api.github.com/repos/");
    String::from_str(stripped)
}

/// The character of one decimal digit.
pub open spec fn dec_digit(d: int) -> char {
    if d == 0 {
        '0'
    } else if d == 1 {
        '1'
    } else if d == 2 {
        '2'
    } else if d == 3 {
        '3'
    } else if d == 4 {
        '4'
    } else if d == 5 {
        '5'
    } else if d == 6 {
        '6'
    } else if d == 7 {
        '7'
    } else if d == 8 {
        '8'
    } else {
        '9'
    }
}

/// The decimal rendering of a number, most significant digit first.
pub open spec fn dec_str(n: nat) -> Seq<char>
    decreases n,
{
    if n < 10 {
        seq![dec_digit(n as int)]
    } else {
        dec_str(n / 10) + seq![dec_digit((n % 10) as int)]
    }
}

fn digit_slice(d: u64) -> (r: &'static str)
    requires
        d < 10,
    ensures
        r@ == seq![dec_digit(d as int)],
{
    let s = "0123456789";
    proof {
        reveal_strlit("0123456789");
    }
    let r = s.substring_char(d as usize, d as usize + 1);
    proof {
        assert(r@ =~= seq![dec_digit(d as int)]);
    }
    r
}

fn push_dec(out: &mut String, n: u64)
    ensures
        final(out)@ == old(out)@ + dec_str(n as nat),
    decreases n,
{
    if n >= 10 {
        proof {
            assert(n / 10 < n) by (nonlinear_arith)
                requires
                    n >= 10,
            ;
        }
        push_dec(out, n / 10);
    }
    let piece = digit_slice(n % 10);
    out.append(piece);
    proof {
        if n >= 10 {
            assert(old(out)@ + (dec_str((n / 10) as nat) + seq![dec_digit((n % 10) as int)])
                =~= (old(out)@ + dec_str((n / 10) as nat)) + seq![dec_digit((n % 10) as int)]);
        }
    }
}

/// The row title of a search result: its number behind a hash, then its
/// own title.
pub fn compose_search_title(number: u64, title: &str) -> (r: String)
    ensures
        r@ == "#"@ + dec_str(number as nat) + " "@ + title@,
{
    let mut out = String::from_str("#");
    push_dec(&mut out, number);
    out.append(" ");
    let r = out.concat(title);
    proof {
        assert(r@ =~= "#"@ + dec_str(number as nat) + " "@ + title@);
    }
    r
}

/// Maps a notification subject's API URL to the human-facing page: the API
/// host and repository prefix give way to the web host, and the `/pulls/`
/// segment becomes `/pull/` so hyperlinks open the request itself.
pub fn rewrite_subject_url(api_url: &str) -> (r: String)
    ensures
        r@ == replace_spec(
            replace_spec(api_url@, "api.github.com/repos"@, "github.com"@),
            "/pulls/"@,
            "/pull/"@,
        ),
{
    proof {
        reveal_strlit("api.github.com/repos");
        reveal_strlit("/pulls/");
    }
    let first = replace_str(api_url, "api.github.com/repos", "github.com");
    replace_str(first.as_str(), "/pulls/", "/pull/")
}

} // verus!
