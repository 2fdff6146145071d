//! Azure Blob Storage addressing: endpoints, blob and SAS URLs, SAS token sources, and the
//! mapping of failed requests to errors.
//!
//! The HTTP transfer and the Azure CLI run outside the library; the library decides what to ask
//! for and what the answers mean.
use vstd::prelude::*;
use vstd::string::StrSliceExecFns;
use crate::error::{Error, ErrorCode};
use crate::paths::{extension, extension_of_name, file_name_of, PathStyle};
use crate::text::{
    all_ascii, ascii_lowercase, contains_seq, decimal, owned, push_decimal, push_str, str_contains, strip_leading, to_lowercase, trim,
    trim_start_char, trimmed, unicode_lowercase,
};

verus! {

/// Where blobs of one account and container are sent, and the secret stored for the profile.
#[derive(Debug)]
pub struct Client {
    pub endpoint_base: String,
    pub account_name: String,
    pub container_name: String,
    pub secret: Option<String>,
}

/// Not empty once whitespace is trimmed.
pub open spec fn is_nonblank(s: Seq<char>) -> bool {
    trimmed(s).len() > 0
}

/// `s` with a `/` appended unless it already ends with one.
pub open spec fn with_trailing_slash(s: Seq<char>) -> Seq<char> {
    if s.len() > 0 && s.last() == '/' {
        s
    } else {
        s.push('/')
    }
}

/// The blob endpoint: the override if it is not blank, else the profile's endpoint if it is
/// not blank (each with a trailing `/`), else the account's public Azure endpoint.
pub open spec fn endpoint_base_for(env_endpoint: Option<&str>, account: Seq<char>, custom: Option<&str>) -> Seq<char> {
    if env_endpoint matches Some(e) && is_nonblank(e@) {
        with_trailing_slash(env_endpoint->0@)
    } else if custom matches Some(c) && is_nonblank(c@) {
        with_trailing_slash(custom->0@)
    } else {
        "https://"@ + account + ".blob.core.windows.net/"@
    }
}

/// `s` with a trailing `/`, added when missing.
pub fn ensure_trailing_slash(s: String) -> (r: String)
    ensures
        r@ == with_trailing_slash(s@),
{
    let n = s.as_str().unicode_len();
    if n > 0 && s.as_str().get_char(n - 1) == '/' {
        s
    } else {
        let mut s = s;
        crate::text::push_char(&mut s, '/');
        s
    }
}

fn is_blank(s: &str) -> (r: bool)
    ensures
        r == !is_nonblank(s@),
{
    trim(s).unicode_len() == 0
}

/// Every blob endpoint ends with `/`, so blob paths can be appended to it.
pub proof fn lemma_endpoint_base_ends_with_slash(env_endpoint: Option<&str>, account: Seq<char>, custom: Option<&str>)
    ensures
        endpoint_base_for(env_endpoint, account, custom).len() > 0,
        endpoint_base_for(env_endpoint, account, custom).last() == '/',
{
    reveal_strlit(".blob.core.windows.net/");
    let b = endpoint_base_for(env_endpoint, account, custom);
    if !(env_endpoint matches Some(e) && is_nonblank(e@)) && !(custom matches Some(c) && is_nonblank(c@)) {
        let tail = ".blob.core.windows.net/"@;
        assert(b == ("https://"@ + account) + tail);
        assert(b.last() == tail.last());
    }
}

/// Adding the trailing slash twice adds nothing more.
pub proof fn lemma_trailing_slash_idempotent(s: Seq<char>)
    ensures
        with_trailing_slash(with_trailing_slash(s)) == with_trailing_slash(s),
{
}

/// A leading `?` on a token changes no SAS URL: the token is read without its leading `?`s.
pub proof fn lemma_question_mark_ignored(t: Seq<char>)
    ensures
        strip_leading(seq!['?'] + t, '?') == strip_leading(t, '?'),
{
    let u = seq!['?'] + t;
    let k = choose|k: int| crate::text::leading_count(t, '?', k);
    let w: int = choose|k: int| crate::text::leading_count(u, '?', k);
    // Some count of leading `?` exists for `t`: the first position that is not `?`.
    lemma_leading_count_exists(t);
    assert(crate::text::leading_count(t, '?', k));
    assert(crate::text::leading_count(u, '?', k + 1));
    assert(crate::text::leading_count(u, '?', w));
    if w < k + 1 {
        assert(u[w] == '?');
    }
    if w > k + 1 {
        assert(u[k + 1] == '?');
    }
    assert(u.subrange(w, u.len() as int) =~= t.subrange(k, t.len() as int));
}

proof fn lemma_leading_count_exists(t: Seq<char>)
    ensures
        exists|k: int| crate::text::leading_count(t, '?', k),
{
    lemma_leading_count_from(t, 0);
}

proof fn lemma_leading_count_from(t: Seq<char>, i: int)
    requires
        0 <= i <= t.len(),
        forall|j: int| 0 <= j < i ==> #[trigger] t[j] == '?',
    ensures
        exists|k: int| crate::text::leading_count(t, '?', k),
    decreases t.len() - i,
{
    if i < t.len() && t[i] == '?' {
        lemma_leading_count_from(t, i + 1);
    } else {
        assert(crate::text::leading_count(t, '?', i));
    }
}

/// Two tokens that differ by a leading `?` give the same read-only URL.
pub proof fn lemma_read_url_ignores_question_mark(
    endpoint_base: Seq<char>,
    container: Seq<char>,
    blob: Seq<char>,
    token: Seq<char>,
)
    ensures
        read_url(endpoint_base, container, blob, seq!['?'] + token) == read_url(endpoint_base, container, blob, token),
{
    lemma_question_mark_ignored(token);
}

/// The read-only URL of a blob: the blob's address, then `?` and the token without its leading
/// `?`s, unless that leaves nothing.
pub open spec fn read_url(endpoint_base: Seq<char>, container: Seq<char>, blob: Seq<char>, token: Seq<char>) -> Seq<char> {
    let sas = strip_leading(token, '?');
    endpoint_base + container + "/"@ + blob + if sas.len() == 0 {
        Seq::empty()
    } else {
        "?"@ + sas
    }
}

/// The upload URL of a blob: the blob's address, then `?` and the token without its leading
/// `?`s when a token that is not blank is given.
pub open spec fn upload_url_for(endpoint_base: Seq<char>, container: Seq<char>, blob: Seq<char>, token: Option<&str>) -> Seq<char> {
    endpoint_base + container + "/"@ + blob + if token matches Some(t) && is_nonblank(t@) {
        "?"@ + strip_leading(token->0@, '?')
    } else {
        Seq::empty()
    }
}

/// The permissions of the token that uploads a blob: add, create, write.
pub fn upload_permissions() -> (r: &'static str)
    ensures
        r@ == "acw"@,
{
    "acw"
}

/// The permissions asked of the Azure CLI for the token of the read link: read only.
pub fn read_only_permissions() -> (r: &'static str)
    ensures
        r@ == "r"@,
{
    "r"
}

/// Where a SAS token comes from.
#[derive(Debug)]
pub enum SasSource {
    /// A token known already.
    Token(String),
    /// A token that the Azure CLI has to make: `az` and these arguments.
    AzureCli(Vec<String>),
}

/// The stored secret is itself a SAS token (it holds `sv=` or `sig=`), not an account key.
pub open spec fn is_sas_secret(s: Seq<char>) -> bool {
    contains_seq(s, "sv="@) || contains_seq(s, "sig="@)
}

/// The arguments of `az storage container generate-sas` for this request.
pub open spec fn az_sas_args(
    account: Seq<char>,
    container: Seq<char>,
    permissions: Seq<char>,
    expires: Seq<char>,
    account_key: Option<Seq<char>>,
) -> Seq<Seq<char>> {
    seq![
        "storage"@,
        "container"@,
        "generate-sas"@,
        "--account-name"@,
        account,
        "--name"@,
        container,
        "--permissions"@,
        permissions,
        "--expiry"@,
        expires,
        "--https-only"@,
        "--output"@,
        "tsv"@,
    ] + match account_key {
        Some(k) => seq!["--account-key"@, k],
        None => Seq::empty(),
    }
}

pub open spec fn strings_view(v: Seq<String>) -> Seq<Seq<char>> {
    v.map_values(|s: String| s@)
}

fn push_arg(v: &mut Vec<String>, a: &str)
    ensures
        strings_view(final(v)@) == strings_view(old(v)@).push(a@),
{
    let ghost before = v@;
    v.push(owned(a));
    assert(strings_view(v@) =~= strings_view(before).push(a@));
}

/// The message of an upload that failed with HTTP `status`.
pub open spec fn status_message(status: u16) -> Seq<char> {
    if status == 401 || status == 403 {
        "Azure Blob Storage authentication failed."@
    } else if status == 404 {
        "The storage container or resource was not found."@
    } else if status == 429 {
        "Rate limited by Azure Storage."@
    } else if status == 400 || status == 422 {
        "Azure Storage refused the upload request."@
    } else if status >= 500 {
        "Azure Storage returned a server error."@
    } else {
        "Upload to Azure Storage failed."@
    }
}

/// The kind of failure of an upload that failed with HTTP `status`.
pub open spec fn status_code(status: u16) -> ErrorCode {
    if status == 401 || status == 403 {
        ErrorCode::AuthRequired
    } else if status == 404 {
        ErrorCode::NotFound
    } else if status == 429 {
        ErrorCode::RateLimited
    } else if status == 400 || status == 422 {
        ErrorCode::InvalidInput
    } else if status >= 500 {
        ErrorCode::Network
    } else {
        ErrorCode::Error
    }
}

/// The remediation offered for an upload that failed with HTTP `status`, if any.
pub open spec fn status_fix(status: u16) -> Option<Seq<char>> {
    if status == 401 || status == 403 {
        Some("Verify your SAS token, account key, or Azure CLI login ('az login')."@)
    } else if status == 404 {
        Some("Check that the container exists in the Azure Storage account."@)
    } else if status == 429 {
        Some("Back off before retrying."@)
    } else if status == 400 || status == 422 {
        None
    } else if status >= 500 {
        Some("Retry; if it persists, check Azure status."@)
    } else {
        None
    }
}

/// `HTTP <status>`, then `: ` and the body when there is one.
pub open spec fn status_detail(status: u16, body: Seq<char>) -> Seq<char> {
    "HTTP "@ + decimal(status as nat) + if body.len() == 0 {
        Seq::empty()
    } else {
        ": "@ + body
    }
}

/// The opt view of an optional string.
pub open spec fn opt_view(o: Option<String>) -> Option<Seq<char>> {
    match o {
        Some(s) => Some(s@),
        None => None,
    }
}

/// The error of an upload that Azure answered with HTTP `status` and `body`.
pub fn status_error(status: u16, body: &str) -> (r: Error)
    ensures
        r.code == status_code(status),
        r.message@ == status_message(status),
        opt_view(r.fix) == status_fix(status),
        opt_view(r.detail) == Some(status_detail(status, body@)),
{
    let mut detail = owned("HTTP ");
    push_decimal(&mut detail, status as u64);
    if body.unicode_len() > 0 {
        push_str(&mut detail, ": ");
        push_str(&mut detail, body);
    }
    let e = if status == 401 || status == 403 {
        Error::new(ErrorCode::AuthRequired, owned("Azure Blob Storage authentication failed.")).fix(
            owned("Verify your SAS token, account key, or Azure CLI login ('az login')."),
        )
    } else if status == 404 {
        Error::new(ErrorCode::NotFound, owned("The storage container or resource was not found.")).fix(
            owned("Check that the container exists in the Azure Storage account."),
        )
    } else if status == 429 {
        Error::new(ErrorCode::RateLimited, owned("Rate limited by Azure Storage.")).fix(
            owned("Back off before retrying."),
        )
    } else if status == 400 || status == 422 {
        Error::new(ErrorCode::InvalidInput, owned("Azure Storage refused the upload request."))
    } else if status >= 500 {
        Error::new(ErrorCode::Network, owned("Azure Storage returned a server error.")).fix(
            owned("Retry; if it persists, check Azure status."),
        )
    } else {
        Error::new(ErrorCode::Error, owned("Upload to Azure Storage failed."))
    };
    e.detail(detail)
}

/// The outcome of an upload that Azure answered with HTTP `status` and `body`: success for a
/// 2xx status, else the error for the status with the trimmed body.
pub fn upload_outcome(status: u16, body: &str) -> (r: Result<(), Error>)
    ensures
        200 <= status < 300 ==> r is Ok,
        !(200 <= status < 300) ==> (r matches Err(e) && e.code == status_code(status) && e.message@
            == status_message(status) && opt_view(e.fix) == status_fix(status) && opt_view(e.detail) == Some(
            status_detail(status, trimmed(body@)),
        )),
{
    if 200 <= status && status < 300 {
        Ok(())
    } else {
        Err(status_error(status, trim(body)))
    }
}

/// The error of an upload request that never got an answer: a timeout, or another failure
/// described by `reason`.
pub fn transport_error(timed_out: bool, reason: &str) -> (r: Error)
    ensures
        r.code == ErrorCode::Network,
        timed_out ==> r.message@ == "The upload request timed out."@ && r.detail is None && opt_view(r.fix)
            == Some("Retry once, then stop."@),
        !timed_out ==> r.message@ == "Could not reach Azure Blob Storage."@ && opt_view(r.detail) == Some(reason@)
            && opt_view(r.fix) == Some("Check your network connection or endpoint configuration."@),
{
    if timed_out {
        Error::new(ErrorCode::Network, owned("The upload request timed out.")).fix(owned("Retry once, then stop."))
    } else {
        Error::new(ErrorCode::Network, owned("Could not reach Azure Blob Storage.")).detail(owned(reason)).fix(
            owned("Check your network connection or endpoint configuration."),
        )
    }
}

/// The error when the Azure CLI could not be started: missing from `PATH`, or another reason.
pub fn az_launch_error(not_found: bool, reason: &str) -> (r: Error)
    ensures
        not_found ==> r.code == ErrorCode::AuthRequired && r.message@ == "Azure CLI ('az') was not found on PATH."@
            && opt_view(r.detail) == Some("A SAS token could not be generated without the Azure CLI."@)
            && opt_view(r.fix) == Some(
            "Install Azure CLI ('az login') or set STORAGE_SAS_TOKEN environment variable."@,
        ),
        !not_found ==> r.code == ErrorCode::Error && r.message@ == "Could not run Azure CLI: "@ + reason@
            && r.detail is None && r.fix is None,
{
    if not_found {
        Error::new(ErrorCode::AuthRequired, owned("Azure CLI ('az') was not found on PATH.")).detail(
            owned("A SAS token could not be generated without the Azure CLI."),
        ).fix(owned("Install Azure CLI ('az login') or set STORAGE_SAS_TOKEN environment variable."))
    } else {
        let mut msg = owned("Could not run Azure CLI: ");
        push_str(&mut msg, reason);
        Error::other(msg)
    }
}

/// The SAS token printed by the Azure CLI, from its exit status and output: the trimmed output
/// without leading `?`s. A failed run, or an empty token, is an `auth_required` error.
pub fn az_token(success: bool, stdout: &str, stderr: &str) -> (r: Result<String, Error>)
    ensures
        !success ==> (r matches Err(e) && e.code == ErrorCode::AuthRequired && e.message@
            == "Failed to generate SAS token via Azure CLI."@ && opt_view(e.detail) == Some(trimmed(stderr@))
            && opt_view(e.fix) == Some(
            "Ensure you are logged in ('az login') and have permissions on the storage account."@,
        )),
        success && strip_leading(trimmed(stdout@), '?').len() == 0 ==> (r matches Err(e) && e.code
            == ErrorCode::AuthRequired && e.message@
            == "Azure CLI returned an empty SAS token. Ensure you are logged in ('az login')."@ && e.detail is None
            && e.fix is None),
        success && strip_leading(trimmed(stdout@), '?').len() > 0 ==> (r matches Ok(t) && t@ == strip_leading(
            trimmed(stdout@),
            '?',
        )),
{
    if !success {
        return Err(
            Error::new(ErrorCode::AuthRequired, owned("Failed to generate SAS token via Azure CLI.")).detail(
                owned(trim(stderr)),
            ).fix(owned("Ensure you are logged in ('az login') and have permissions on the storage account.")),
        );
    }
    let token = trim_start_char(trim(stdout), '?');
    if token.unicode_len() == 0 {
        return Err(
            Error::new(
                ErrorCode::AuthRequired,
                owned("Azure CLI returned an empty SAS token. Ensure you are logged in ('az login')."),
            ),
        );
    }
    Ok(owned(token))
}

/// The MIME type for a lower-cased file extension.
pub open spec fn mime_for_extension(ext: Seq<char>) -> Seq<char> {
    if ext == "jpg"@ || ext == "jpeg"@ {
        "image/jpeg"@
    } else if ext == "png"@ {
        "image/png"@
    } else if ext == "gif"@ {
        "image/gif"@
    } else if ext == "webp"@ {
        "image/webp"@
    } else if ext == "svg"@ {
        "image/svg+xml"@
    } else if ext == "pdf"@ {
        "application/pdf"@
    } else if ext == "json"@ {
        "application/json"@
    } else if ext == "xml"@ {
        "application/xml"@
    } else if ext == "html"@ || ext == "htm"@ {
        "text/html"@
    } else if ext == "css"@ {
        "text/css"@
    } else if ext == "js"@ || ext == "mjs"@ {
        "application/javascript"@
    } else if ext == "txt"@ || ext == "log"@ || ext == "md"@ {
        "text/plain"@
    } else if ext == "csv"@ {
        "text/csv"@
    } else if ext == "zip"@ {
        "application/zip"@
    } else if ext == "gz"@ {
        "application/gzip"@
    } else if ext == "tar"@ {
        "application/x-tar"@
    } else if ext == "mp4"@ {
        "video/mp4"@
    } else if ext == "mp3"@ {
        "audio/mpeg"@
    } else if ext == "wasm"@ {
        "application/wasm"@
    } else if ext == "yaml"@ || ext == "yml"@ {
        "application/yaml"@
    } else {
        "application/octet-stream"@
    }
}

/// The extension of the file name of `path` (empty when it has none).
pub open spec fn path_extension(style: PathStyle, path: Seq<char>) -> Seq<char> {
    match file_name_of(style, path) {
        Some(f) => match extension_of_name(f) {
            Some(x) => x,
            None => Seq::empty(),
        },
        None => Seq::empty(),
    }
}

fn eq_str(a: &str, b: &str) -> (r: bool)
    ensures
        r == (a@ == b@),
{
    let n = a.unicode_len();
    if n != b.unicode_len() {
        return false;
    }
    let mut i: usize = 0;
    while i < n
        invariant
            i <= n,
            n == a@.len(),
            n == b@.len(),
            forall|j: int| 0 <= j < i ==> a@[j] == b@[j],
        decreases n - i,
    {
        if a.get_char(i) != b.get_char(i) {
            return false;
        }
        i = i + 1;
    }
    assert(a@ =~= b@);
    true
}

/// The MIME type of a file, chosen by the extension of its name in lower case.
pub fn mime_type_for_path(path: &str, style: PathStyle) -> (r: &'static str)
    ensures
        r@ == mime_for_extension(unicode_lowercase(path_extension(style, path@))),
        all_ascii(path_extension(style, path@)) ==> r@ == mime_for_extension(
            ascii_lowercase(path_extension(style, path@)),
        ),
{
    let ext_raw: &str = match extension(path, style) {
        Some(x) => x,
        None => "",
    };
    proof {
        reveal_strlit("");
    }
    assert(ext_raw@ == path_extension(style, path@));
    let lowered = to_lowercase(ext_raw);
    let e = lowered.as_str();
    if eq_str(e, "jpg") || eq_str(e, "jpeg") {
        "image/jpeg"
    } else if eq_str(e, "png") {
        "image/png"
    } else if eq_str(e, "gif") {
        "image/gif"
    } else if eq_str(e, "webp") {
        "image/webp"
    } else if eq_str(e, "svg") {
        "image/svg+xml"
    } else if eq_str(e, "pdf") {
        "application/pdf"
    } else if eq_str(e, "json") {
        "application/json"
    } else if eq_str(e, "xml") {
        "application/xml"
    } else if eq_str(e, "html") || eq_str(e, "htm") {
        "text/html"
    } else if eq_str(e, "css") {
        "text/css"
    } else if eq_str(e, "js") || eq_str(e, "mjs") {
        "application/javascript"
    } else if eq_str(e, "txt") || eq_str(e, "log") || eq_str(e, "md") {
        "text/plain"
    } else if eq_str(e, "csv") {
        "text/csv"
    } else if eq_str(e, "zip") {
        "application/zip"
    } else if eq_str(e, "gz") {
        "application/gzip"
    } else if eq_str(e, "tar") {
        "application/x-tar"
    } else if eq_str(e, "mp4") {
        "video/mp4"
    } else if eq_str(e, "mp3") {
        "audio/mpeg"
    } else if eq_str(e, "wasm") {
        "application/wasm"
    } else if eq_str(e, "yaml") || eq_str(e, "yml") {
        "application/yaml"
    } else {
        "application/octet-stream"
    }
}

/// The tokens at hand for a request, in the order they are preferred, each without its
/// leading `?`s: the explicit token (`--sas-token`), the `STORAGE_SAS_TOKEN` value when not blank, and the
/// stored secret when it is a SAS token.
pub open spec fn sas_candidates(explicit: Option<&str>, env_token: Option<&str>, secret: Option<Seq<char>>) -> Seq<
    Seq<char>,
> {
    (match explicit {
        Some(t) => seq![strip_leading(t@, '?')],
        None => Seq::empty(),
    }) + (match env_token {
        Some(t) => if is_nonblank(t@) {
            seq![strip_leading(t@, '?')]
        } else {
            Seq::empty()
        },
        None => Seq::empty(),
    }) + (match secret {
        Some(s) => if is_sas_secret(s) {
            seq![strip_leading(s, '?')]
        } else {
            Seq::empty()
        },
        None => Seq::empty(),
    })
}

/// The account key handed to the Azure CLI: the stored secret unless it is a SAS token.
pub open spec fn cli_account_key(secret: Option<Seq<char>>) -> Option<Seq<char>> {
    match secret {
        Some(s) => if is_sas_secret(s) {
            None
        } else {
            Some(s)
        },
        None => None,
    }
}

impl Client {
    /// A client for `container_name` of `account_name`, with the blob endpoint chosen from the
    /// override `env_endpoint` (the `STORAGE_ENDPOINT` setting), the profile's `custom_endpoint`,
    /// and the public Azure endpoint, in that order; a blank secret counts as none.
    pub fn new_with_override(
        env_endpoint: Option<&str>,
        account_name: &str,
        container_name: &str,
        custom_endpoint: Option<&str>,
        secret: Option<&str>,
    ) -> (r: Client)
        ensures
            r.endpoint_base@ == endpoint_base_for(env_endpoint, account_name@, custom_endpoint),
            r.account_name@ == account_name@,
            r.container_name@ == container_name@,
            opt_view(r.secret) == match secret {
                Some(s) => if is_nonblank(s@) {
                    Some(s@)
                } else {
                    None
                },
                None => None,
            },
    {
        let endpoint_base = match env_endpoint {
            Some(e) if !is_blank(e) => ensure_trailing_slash(owned(e)),
            _ => match custom_endpoint {
                Some(c) if !is_blank(c) => ensure_trailing_slash(owned(c)),
                _ => {
                    let mut b = owned("https://");
                    push_str(&mut b, account_name);
                    push_str(&mut b, ".blob.core.windows.net/");
                    b
                },
            },
        };
        let secret = match secret {
            Some(s) if !is_blank(s) => Some(owned(s)),
            _ => None,
        };
        Client {
            endpoint_base,
            account_name: owned(account_name),
            container_name: owned(container_name),
            secret,
        }
    }

    /// A client with no endpoint override: as `new_with_override` with `None` for it.
    pub fn new(account_name: &str, container_name: &str, custom_endpoint: Option<&str>, secret: Option<&str>) -> (r:
        Client)
        ensures
            r.endpoint_base@ == endpoint_base_for(None, account_name@, custom_endpoint),
            r.account_name@ == account_name@,
            r.container_name@ == container_name@,
            opt_view(r.secret) == match secret {
                Some(s) => if is_nonblank(s@) {
                    Some(s@)
                } else {
                    None
                },
                None => None,
            },
    {
        Client::new_with_override(None, account_name, container_name, custom_endpoint, secret)
    }

    pub fn account_name(&self) -> (r: &str)
        ensures
            r@ == self.account_name@,
    {
        self.account_name.as_str()
    }

    pub fn container_name(&self) -> (r: &str)
        ensures
            r@ == self.container_name@,
    {
        self.container_name.as_str()
    }

    pub fn endpoint_base(&self) -> (r: &str)
        ensures
            r@ == self.endpoint_base@,
    {
        self.endpoint_base.as_str()
    }

    /// Where a SAS token with `permissions` valid until `expires_str` comes from: the first of
    /// the tokens at hand (the explicit one, `env_token` when not blank, the stored secret when
    /// it is a SAS token), whatever it grants; else the Azure CLI, given the stored secret as the
    /// account key when there is one.
    pub fn sas_token_source(
        &self,
        explicit: Option<&str>,
        env_token: Option<&str>,
        permissions: &str,
        expires_str: &str,
    ) -> (r: SasSource)
        ensures
            ({
                let c = sas_candidates(explicit, env_token, opt_view(self.secret));
                if c.len() > 0 {
                    r matches SasSource::Token(tok) && tok@ == c[0]
                } else {
                    r matches SasSource::AzureCli(args) && strings_view(args@) == az_sas_args(
                        self.account_name@,
                        self.container_name@,
                        permissions@,
                        expires_str@,
                        cli_account_key(opt_view(self.secret)),
                    )
                }
            }),
    {
        if let Some(t) = explicit {
            return SasSource::Token(owned(trim_start_char(t, '?')));
        }
        if let Some(t) = env_token {
            if !is_blank(t) {
                return SasSource::Token(owned(trim_start_char(t, '?')));
            }
        }
        let mut key: Option<&str> = None;
        if let Some(s) = &self.secret {
            if str_contains(s.as_str(), "sv=") || str_contains(s.as_str(), "sig=") {
                return SasSource::Token(owned(trim_start_char(s.as_str(), '?')));
            }
            key = Some(s.as_str());
        }
        let mut args: Vec<String> = Vec::new();
        push_arg(&mut args, "storage");
        push_arg(&mut args, "container");
        push_arg(&mut args, "generate-sas");
        push_arg(&mut args, "--account-name");
        push_arg(&mut args, self.account_name.as_str());
        push_arg(&mut args, "--name");
        push_arg(&mut args, self.container_name.as_str());
        push_arg(&mut args, "--permissions");
        push_arg(&mut args, permissions);
        push_arg(&mut args, "--expiry");
        push_arg(&mut args, expires_str);
        push_arg(&mut args, "--https-only");
        push_arg(&mut args, "--output");
        push_arg(&mut args, "tsv");
        if let Some(key) = key {
            push_arg(&mut args, "--account-key");
            push_arg(&mut args, key);
        }
        assert(strings_view(args@) =~= az_sas_args(
            self.account_name@,
            self.container_name@,
            permissions@,
            expires_str@,
            cli_account_key(opt_view(self.secret)),
        ));
        SasSource::AzureCli(args)
    }

    /// The URL to `PUT` a blob to, with the upload SAS token as its query when one is given.
    pub fn upload_url(&self, blob_name: &str, upload_sas_token: Option<&str>) -> (r: String)
        ensures
            r@ == upload_url_for(self.endpoint_base@, self.container_name@, blob_name@, upload_sas_token),
    {
        let mut url = self.endpoint_base.clone();
        push_str(&mut url, self.container_name.as_str());
        push_str(&mut url, "/");
        push_str(&mut url, blob_name);
        match upload_sas_token {
            Some(tok) if !is_blank(tok) => {
                push_str(&mut url, "?");
                push_str(&mut url, trim_start_char(tok, '?'));
            },
            _ => {},
        }
        url
    }

    /// The read-only SAS URL of an uploaded blob.
    pub fn build_read_sas_url(&self, blob_name: &str, read_sas_token: &str) -> (r: String)
        ensures
            r@ == read_url(self.endpoint_base@, self.container_name@, blob_name@, read_sas_token@),
    {
        let sas = trim_start_char(read_sas_token, '?');
        let mut url = self.endpoint_base.clone();
        push_str(&mut url, self.container_name.as_str());
        push_str(&mut url, "/");
        push_str(&mut url, blob_name);
        if sas.unicode_len() > 0 {
            push_str(&mut url, "?");
            push_str(&mut url, sas);
        }
        url
    }
}

/// The read link of a blob and its upload URL name the same blob: both are the blob's address
/// (`<endpoint><container>/<blob>`) followed by the token's query, so they agree for a token
/// that is not blank and has more than `?`s; with no token both are the bare address.
pub proof fn lemma_read_link_matches_upload_url(
    base: Seq<char>,
    container: Seq<char>,
    blob: Seq<char>,
    token: &str,
)
    ensures
        is_nonblank(token@) && strip_leading(token@, '?').len() > 0 ==> read_url(base, container, blob, token@)
            == upload_url_for(base, container, blob, Some(token)),
        read_url(base, container, blob, Seq::empty()) == upload_url_for(base, container, blob, None),
        read_url(base, container, blob, Seq::empty()) == base + container + "/"@ + blob,
        read_url(base, container, blob, token@).take((base + container + "/"@ + blob).len() as int) == base
            + container + "/"@ + blob,
{
    let addr = base + container + "/"@ + blob;
    let sas = strip_leading(token@, '?');
    assert(crate::text::leading_count(Seq::<char>::empty(), '?', 0));
    assert(strip_leading(Seq::<char>::empty(), '?') =~= Seq::<char>::empty());
    assert(addr + Seq::<char>::empty() =~= addr);
    if sas.len() > 0 {
        assert((addr + ("?"@ + sas)).take(addr.len() as int) =~= addr);
    } else {
        assert((addr + Seq::<char>::empty()).take(addr.len() as int) =~= addr);
    }
}

/// `args` passes `flag` followed by `value`.
pub open spec fn passes_option(args: Seq<Seq<char>>, flag: Seq<char>, value: Seq<char>) -> bool {
    exists|i: int| 0 <= i && i + 1 < args.len() && #[trigger] args[i] == flag && args[i + 1] == value
}

/// The Azure CLI is asked for a container SAS (`storage container generate-sas`) of the
/// account and container, with the permissions and expiry given, HTTPS only, printed as plain
/// text; the account key is passed exactly when there is one, after all else.
pub proof fn lemma_az_request(
    account: Seq<char>,
    container: Seq<char>,
    permissions: Seq<char>,
    expires: Seq<char>,
    key: Seq<char>,
)
    ensures
        ({
            let a = az_sas_args(account, container, permissions, expires, None);
            &&& a.take(3) == seq!["storage"@, "container"@, "generate-sas"@]
            &&& passes_option(a, "--account-name"@, account)
            &&& passes_option(a, "--name"@, container)
            &&& passes_option(a, "--permissions"@, permissions)
            &&& passes_option(a, "--expiry"@, expires)
            &&& passes_option(a, "--output"@, "tsv"@)
            &&& a.contains("--https-only"@)
            &&& az_sas_args(account, container, permissions, expires, Some(key)) == a + seq!["--account-key"@, key]
        }),
{
    let a = az_sas_args(account, container, permissions, expires, None);
    assert(a.take(3) =~= seq!["storage"@, "container"@, "generate-sas"@]);
    assert(a[3] == "--account-name"@ && a[4] == account);
    assert(a[5] == "--name"@ && a[6] == container);
    assert(a[7] == "--permissions"@ && a[8] == permissions);
    assert(a[9] == "--expiry"@ && a[10] == expires);
    assert(a[11] == "--https-only"@);
    assert(a[12] == "--output"@ && a[13] == "tsv"@);
    assert(a + Seq::<Seq<char>>::empty() =~= a);
}

/// Which token is used first: an explicit token whatever the rest; else a `STORAGE_SAS_TOKEN`
/// that is not blank; else a stored secret that is a SAS token (it holds `sv=` or `sig=`); each
/// without its leading `?`s. There is none exactly when none of these is at hand.
pub proof fn lemma_token_precedence(explicit: Option<&str>, env_token: Option<&str>, secret: Option<Seq<char>>)
    ensures
        ({
            let c = sas_candidates(explicit, env_token, secret);
            let env_ok = env_token matches Some(t) && is_nonblank(t@);
            let stored_ok = secret matches Some(s) && (contains_seq(s, "sv="@) || contains_seq(s, "sig="@));
            &&& (explicit matches Some(t) ==> c.len() > 0 && c[0] == strip_leading(t@, '?'))
            &&& (explicit is None && env_ok ==> c.len() > 0 && c[0] == strip_leading(env_token->0@, '?'))
            &&& (explicit is None && !env_ok && stored_ok ==> c.len() > 0 && c[0] == strip_leading(secret->0, '?'))
            &&& (c.len() == 0 <==> explicit is None && !env_ok && !stored_ok)
        }),
{
}

/// How an upload's HTTP status is reported: 401 and 403 as rejected credentials, 404 as a
/// missing container, 429 as rate limiting, 400 and 422 as a refused request, 500 and above as
/// a server error, and any other status as a plain failure; each with its message and fix.
pub proof fn lemma_status_classes(status: u16)
    ensures
        status_code(status) == ErrorCode::AuthRequired <==> (status == 401 || status == 403),
        status_code(status) == ErrorCode::NotFound <==> status == 404,
        status_code(status) == ErrorCode::RateLimited <==> status == 429,
        status_code(status) == ErrorCode::InvalidInput <==> (status == 400 || status == 422),
        status_code(status) == ErrorCode::Network <==> status >= 500,
        status_code(status) == ErrorCode::Error <==> !(status == 400 || status == 401 || status == 403 || status
            == 404 || status == 422 || status == 429 || status >= 500),
        status == 401 || status == 403 ==> status_message(status) == "Azure Blob Storage authentication failed."@
            && status_fix(status) == Some("Verify your SAS token, account key, or Azure CLI login ('az login')."@),
        status == 404 ==> status_message(status) == "The storage container or resource was not found."@
            && status_fix(status) == Some("Check that the container exists in the Azure Storage account."@),
        status == 429 ==> status_message(status) == "Rate limited by Azure Storage."@ && status_fix(status) == Some(
            "Back off before retrying."@,
        ),
        status == 400 || status == 422 ==> status_message(status) == "Azure Storage refused the upload request."@
            && status_fix(status) is None,
        status >= 500 ==> status_message(status) == "Azure Storage returned a server error."@ && status_fix(status)
            == Some("Retry; if it persists, check Azure status."@),
        status_code(status) == ErrorCode::Error ==> status_message(status) == "Upload to Azure Storage failed."@
            && status_fix(status) is None,
{
}

/// The content type of a blob follows the extension, lower-cased, by this table: each type is
/// given for exactly the extensions listed with it, and every other extension gets
/// `application/octet-stream`.
pub proof fn lemma_mime_table(ext: Seq<char>)
    ensures
        mime_for_extension(ext) == "image/jpeg"@ <==> (ext == "jpg"@ || ext == "jpeg"@),
        mime_for_extension(ext) == "image/png"@ <==> (ext == "png"@),
        mime_for_extension(ext) == "image/gif"@ <==> (ext == "gif"@),
        mime_for_extension(ext) == "image/webp"@ <==> (ext == "webp"@),
        mime_for_extension(ext) == "image/svg+xml"@ <==> (ext == "svg"@),
        mime_for_extension(ext) == "application/pdf"@ <==> (ext == "pdf"@),
        mime_for_extension(ext) == "application/json"@ <==> (ext == "json"@),
        mime_for_extension(ext) == "application/xml"@ <==> (ext == "xml"@),
        mime_for_extension(ext) == "text/html"@ <==> (ext == "html"@ || ext == "htm"@),
        mime_for_extension(ext) == "text/css"@ <==> (ext == "css"@),
        mime_for_extension(ext) == "application/javascript"@ <==> (ext == "js"@ || ext == "mjs"@),
        mime_for_extension(ext) == "text/plain"@ <==> (ext == "txt"@ || ext == "log"@ || ext == "md"@),
        mime_for_extension(ext) == "text/csv"@ <==> (ext == "csv"@),
        mime_for_extension(ext) == "application/zip"@ <==> (ext == "zip"@),
        mime_for_extension(ext) == "application/gzip"@ <==> (ext == "gz"@),
        mime_for_extension(ext) == "application/x-tar"@ <==> (ext == "tar"@),
        mime_for_extension(ext) == "video/mp4"@ <==> (ext == "mp4"@),
        mime_for_extension(ext) == "audio/mpeg"@ <==> (ext == "mp3"@),
        mime_for_extension(ext) == "application/wasm"@ <==> (ext == "wasm"@),
        mime_for_extension(ext) == "application/yaml"@ <==> (ext == "yaml"@ || ext == "yml"@),
        mime_for_extension(ext) == "application/octet-stream"@ <==> !(ext == "jpg"@ || ext == "jpeg"@ || ext == "png"@ || ext == "gif"@ || ext == "webp"@ || ext == "svg"@ || ext == "pdf"@ || ext == "json"@ || ext == "xml"@ || ext == "html"@ || ext == "htm"@ || ext == "css"@ || ext == "js"@ || ext == "mjs"@ || ext == "txt"@ || ext == "log"@ || ext == "md"@ || ext == "csv"@ || ext == "zip"@ || ext == "gz"@ || ext == "tar"@ || ext == "mp4"@ || ext == "mp3"@ || ext == "wasm"@ || ext == "yaml"@ || ext == "yml"@),
{
    reveal_strlit("image/jpeg");
    assert("image/jpeg"@.len() == 10);
    reveal_strlit("image/png");
    assert("image/png"@.len() == 9);
    reveal_strlit("image/gif");
    assert("image/gif"@.len() == 9);
    reveal_strlit("image/webp");
    assert("image/webp"@.len() == 10);
    reveal_strlit("image/svg+xml");
    assert("image/svg+xml"@.len() == 13);
    reveal_strlit("application/pdf");
    assert("application/pdf"@.len() == 15);
    reveal_strlit("application/json");
    assert("application/json"@.len() == 16);
    reveal_strlit("application/xml");
    assert("application/xml"@.len() == 15);
    reveal_strlit("text/html");
    assert("text/html"@.len() == 9);
    reveal_strlit("text/css");
    assert("text/css"@.len() == 8);
    reveal_strlit("application/javascript");
    assert("application/javascript"@.len() == 22);
    reveal_strlit("text/plain");
    assert("text/plain"@.len() == 10);
    reveal_strlit("text/csv");
    assert("text/csv"@.len() == 8);
    reveal_strlit("application/zip");
    assert("application/zip"@.len() == 15);
    reveal_strlit("application/gzip");
    assert("application/gzip"@.len() == 16);
    reveal_strlit("application/x-tar");
    assert("application/x-tar"@.len() == 17);
    reveal_strlit("video/mp4");
    assert("video/mp4"@.len() == 9);
    reveal_strlit("audio/mpeg");
    assert("audio/mpeg"@.len() == 10);
    reveal_strlit("application/wasm");
    assert("application/wasm"@.len() == 16);
    reveal_strlit("application/yaml");
    assert("application/yaml"@.len() == 16);
    reveal_strlit("application/octet-stream");
    assert("application/octet-stream"@.len() == 24);
    assert("image/jpeg"@[6] != "image/webp"@[6]);
    assert("image/jpeg"@[0] != "text/plain"@[0]);
    assert("image/jpeg"@[0] != "audio/mpeg"@[0]);
    assert("image/png"@[6] != "image/gif"@[6]);
    assert("image/png"@[0] != "text/html"@[0]);
    assert("image/png"@[0] != "video/mp4"@[0]);
    assert("image/gif"@[0] != "text/html"@[0]);
    assert("image/gif"@[0] != "video/mp4"@[0]);
    assert("image/webp"@[0] != "text/plain"@[0]);
    assert("image/webp"@[0] != "audio/mpeg"@[0]);
    assert("application/pdf"@[12] != "application/xml"@[12]);
    assert("application/pdf"@[12] != "application/zip"@[12]);
    assert("application/json"@[12] != "application/gzip"@[12]);
    assert("application/json"@[12] != "application/wasm"@[12]);
    assert("application/json"@[12] != "application/yaml"@[12]);
    assert("application/xml"@[12] != "application/zip"@[12]);
    assert("text/html"@[0] != "video/mp4"@[0]);
    assert("text/css"@[7] != "text/csv"@[7]);
    assert("text/plain"@[0] != "audio/mpeg"@[0]);
    assert("application/gzip"@[12] != "application/wasm"@[12]);
    assert("application/gzip"@[12] != "application/yaml"@[12]);
    assert("application/wasm"@[12] != "application/yaml"@[12]);
    reveal_strlit("jpg");
    assert("jpg"@.len() == 3);
    reveal_strlit("jpeg");
    assert("jpeg"@.len() == 4);
    reveal_strlit("png");
    assert("png"@.len() == 3);
    reveal_strlit("gif");
    assert("gif"@.len() == 3);
    reveal_strlit("webp");
    assert("webp"@.len() == 4);
    reveal_strlit("svg");
    assert("svg"@.len() == 3);
    reveal_strlit("pdf");
    assert("pdf"@.len() == 3);
    reveal_strlit("json");
    assert("json"@.len() == 4);
    reveal_strlit("xml");
    assert("xml"@.len() == 3);
    reveal_strlit("html");
    assert("html"@.len() == 4);
    reveal_strlit("htm");
    assert("htm"@.len() == 3);
    reveal_strlit("css");
    assert("css"@.len() == 3);
    reveal_strlit("js");
    assert("js"@.len() == 2);
    reveal_strlit("mjs");
    assert("mjs"@.len() == 3);
    reveal_strlit("txt");
    assert("txt"@.len() == 3);
    reveal_strlit("log");
    assert("log"@.len() == 3);
    reveal_strlit("md");
    assert("md"@.len() == 2);
    reveal_strlit("csv");
    assert("csv"@.len() == 3);
    reveal_strlit("zip");
    assert("zip"@.len() == 3);
    reveal_strlit("gz");
    assert("gz"@.len() == 2);
    reveal_strlit("tar");
    assert("tar"@.len() == 3);
    reveal_strlit("mp4");
    assert("mp4"@.len() == 3);
    reveal_strlit("mp3");
    assert("mp3"@.len() == 3);
    reveal_strlit("wasm");
    assert("wasm"@.len() == 4);
    reveal_strlit("yaml");
    assert("yaml"@.len() == 4);
    reveal_strlit("yml");
    assert("yml"@.len() == 3);
    assert("jpg"@[0] != "png"@[0]);
    assert("jpg"@[0] != "gif"@[0]);
    assert("jpg"@[0] != "svg"@[0]);
    assert("jpg"@[0] != "pdf"@[0]);
    assert("jpg"@[0] != "xml"@[0]);
    assert("jpg"@[0] != "htm"@[0]);
    assert("jpg"@[0] != "css"@[0]);
    assert("jpg"@[0] != "mjs"@[0]);
    assert("jpg"@[0] != "txt"@[0]);
    assert("jpg"@[0] != "log"@[0]);
    assert("jpg"@[0] != "csv"@[0]);
    assert("jpg"@[0] != "zip"@[0]);
    assert("jpg"@[0] != "tar"@[0]);
    assert("jpg"@[0] != "mp4"@[0]);
    assert("jpg"@[0] != "mp3"@[0]);
    assert("jpg"@[0] != "yml"@[0]);
    assert("jpeg"@[0] != "webp"@[0]);
    assert("jpeg"@[1] != "json"@[1]);
    assert("jpeg"@[0] != "html"@[0]);
    assert("jpeg"@[0] != "wasm"@[0]);
    assert("jpeg"@[0] != "yaml"@[0]);
    assert("png"@[0] != "gif"@[0]);
    assert("png"@[0] != "svg"@[0]);
    assert("png"@[1] != "pdf"@[1]);
    assert("png"@[0] != "xml"@[0]);
    assert("png"@[0] != "htm"@[0]);
    assert("png"@[0] != "css"@[0]);
    assert("png"@[0] != "mjs"@[0]);
    assert("png"@[0] != "txt"@[0]);
    assert("png"@[0] != "log"@[0]);
    assert("png"@[0] != "csv"@[0]);
    assert("png"@[0] != "zip"@[0]);
    assert("png"@[0] != "tar"@[0]);
    assert("png"@[0] != "mp4"@[0]);
    assert("png"@[0] != "mp3"@[0]);
    assert("png"@[0] != "yml"@[0]);
    assert("gif"@[0] != "svg"@[0]);
    assert("gif"@[0] != "pdf"@[0]);
    assert("gif"@[0] != "xml"@[0]);
    assert("gif"@[0] != "htm"@[0]);
    assert("gif"@[0] != "css"@[0]);
    assert("gif"@[0] != "mjs"@[0]);
    assert("gif"@[0] != "txt"@[0]);
    assert("gif"@[0] != "log"@[0]);
    assert("gif"@[0] != "csv"@[0]);
    assert("gif"@[0] != "zip"@[0]);
    assert("gif"@[0] != "tar"@[0]);
    assert("gif"@[0] != "mp4"@[0]);
    assert("gif"@[0] != "mp3"@[0]);
    assert("gif"@[0] != "yml"@[0]);
    assert("webp"@[0] != "json"@[0]);
    assert("webp"@[0] != "html"@[0]);
    assert("webp"@[1] != "wasm"@[1]);
    assert("webp"@[0] != "yaml"@[0]);
    assert("svg"@[0] != "pdf"@[0]);
    assert("svg"@[0] != "xml"@[0]);
    assert("svg"@[0] != "htm"@[0]);
    assert("svg"@[0] != "css"@[0]);
    assert("svg"@[0] != "mjs"@[0]);
    assert("svg"@[0] != "txt"@[0]);
    assert("svg"@[0] != "log"@[0]);
    assert("svg"@[0] != "csv"@[0]);
    assert("svg"@[0] != "zip"@[0]);
    assert("svg"@[0] != "tar"@[0]);
    assert("svg"@[0] != "mp4"@[0]);
    assert("svg"@[0] != "mp3"@[0]);
    assert("svg"@[0] != "yml"@[0]);
    assert("pdf"@[0] != "xml"@[0]);
    assert("pdf"@[0] != "htm"@[0]);
    assert("pdf"@[0] != "css"@[0]);
    assert("pdf"@[0] != "mjs"@[0]);
    assert("pdf"@[0] != "txt"@[0]);
    assert("pdf"@[0] != "log"@[0]);
    assert("pdf"@[0] != "csv"@[0]);
    assert("pdf"@[0] != "zip"@[0]);
    assert("pdf"@[0] != "tar"@[0]);
    assert("pdf"@[0] != "mp4"@[0]);
    assert("pdf"@[0] != "mp3"@[0]);
    assert("pdf"@[0] != "yml"@[0]);
    assert("json"@[0] != "html"@[0]);
    assert("json"@[0] != "wasm"@[0]);
    assert("json"@[0] != "yaml"@[0]);
    assert("xml"@[0] != "htm"@[0]);
    assert("xml"@[0] != "css"@[0]);
    assert("xml"@[0] != "mjs"@[0]);
    assert("xml"@[0] != "txt"@[0]);
    assert("xml"@[0] != "log"@[0]);
    assert("xml"@[0] != "csv"@[0]);
    assert("xml"@[0] != "zip"@[0]);
    assert("xml"@[0] != "tar"@[0]);
    assert("xml"@[0] != "mp4"@[0]);
    assert("xml"@[0] != "mp3"@[0]);
    assert("xml"@[0] != "yml"@[0]);
    assert("html"@[0] != "wasm"@[0]);
    assert("html"@[0] != "yaml"@[0]);
    assert("htm"@[0] != "css"@[0]);
    assert("htm"@[0] != "mjs"@[0]);
    assert("htm"@[0] != "txt"@[0]);
    assert("htm"@[0] != "log"@[0]);
    assert("htm"@[0] != "csv"@[0]);
    assert("htm"@[0] != "zip"@[0]);
    assert("htm"@[0] != "tar"@[0]);
    assert("htm"@[0] != "mp4"@[0]);
    assert("htm"@[0] != "mp3"@[0]);
    assert("htm"@[0] != "yml"@[0]);
    assert("css"@[0] != "mjs"@[0]);
    assert("css"@[0] != "txt"@[0]);
    assert("css"@[0] != "log"@[0]);
    assert("css"@[2] != "csv"@[2]);
    assert("css"@[0] != "zip"@[0]);
    assert("css"@[0] != "tar"@[0]);
    assert("css"@[0] != "mp4"@[0]);
    assert("css"@[0] != "mp3"@[0]);
    assert("css"@[0] != "yml"@[0]);
    assert("js"@[0] != "md"@[0]);
    assert("js"@[0] != "gz"@[0]);
    assert("mjs"@[0] != "txt"@[0]);
    assert("mjs"@[0] != "log"@[0]);
    assert("mjs"@[0] != "csv"@[0]);
    assert("mjs"@[0] != "zip"@[0]);
    assert("mjs"@[0] != "tar"@[0]);
    assert("mjs"@[1] != "mp4"@[1]);
    assert("mjs"@[1] != "mp3"@[1]);
    assert("mjs"@[0] != "yml"@[0]);
    assert("txt"@[0] != "log"@[0]);
    assert("txt"@[0] != "csv"@[0]);
    assert("txt"@[0] != "zip"@[0]);
    assert("txt"@[1] != "tar"@[1]);
    assert("txt"@[0] != "mp4"@[0]);
    assert("txt"@[0] != "mp3"@[0]);
    assert("txt"@[0] != "yml"@[0]);
    assert("log"@[0] != "csv"@[0]);
    assert("log"@[0] != "zip"@[0]);
    assert("log"@[0] != "tar"@[0]);
    assert("log"@[0] != "mp4"@[0]);
    assert("log"@[0] != "mp3"@[0]);
    assert("log"@[0] != "yml"@[0]);
    assert("md"@[0] != "gz"@[0]);
    assert("csv"@[0] != "zip"@[0]);
    assert("csv"@[0] != "tar"@[0]);
    assert("csv"@[0] != "mp4"@[0]);
    assert("csv"@[0] != "mp3"@[0]);
    assert("csv"@[0] != "yml"@[0]);
    assert("zip"@[0] != "tar"@[0]);
    assert("zip"@[0] != "mp4"@[0]);
    assert("zip"@[0] != "mp3"@[0]);
    assert("zip"@[0] != "yml"@[0]);
    assert("tar"@[0] != "mp4"@[0]);
    assert("tar"@[0] != "mp3"@[0]);
    assert("tar"@[0] != "yml"@[0]);
    assert("mp4"@[2] != "mp3"@[2]);
    assert("mp4"@[0] != "yml"@[0]);
    assert("mp3"@[0] != "yml"@[0]);
    assert("wasm"@[0] != "yaml"@[0]);
}

} // verus!
