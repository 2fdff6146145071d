//! The `upload` command: expiry dates, target selection and naming.
use vstd::prelude::*;
use vstd::string::StrSliceExecFns;
use crate::calendar::{
    civil_date, lemma_every_day_has_a_date, lemma_four_digit_year, lemma_timestamp_shape, push_utc_date,
    utc_date_text, utc_timestamp_text,
};
use crate::text::{decimal, lemma_decimal_digits, lemma_decimal_short, signed_padded};
use crate::error::{Error, ErrorCode};
use crate::account::Resolved;
use crate::cli::UploadArgs;
use crate::client::{read_url, Client};
use crate::paths::{file_name, file_name_of, PathStyle};
use crate::text::{owned, push_str};

verus! {

pub open spec fn is_ascii_digit(c: char) -> bool {
    '0' <= c && c <= '9'
}

/// `YYYY-MM-DD` in shape: ten characters, dashes at positions 4 and 7, ASCII digits elsewhere.
pub open spec fn is_date_shaped(s: Seq<char>) -> bool {
    &&& s.len() == 10
    &&& forall|i: int|
        0 <= i < 10 ==> if i == 4 || i == 7 {
            #[trigger] s[i] == '-'
        } else {
            is_ascii_digit(s[i])
        }
}

/// Whether `s` has the shape `YYYY-MM-DD` (the calendar values themselves are not checked).
pub fn is_valid_date(s: &str) -> (r: bool)
    ensures
        r == is_date_shaped(s@),
{
    if s.unicode_len() != 10 {
        return false;
    }
    let mut i: usize = 0;
    while i < 10
        invariant
            i <= 10,
            s@.len() == 10,
            forall|j: int|
                0 <= j < i ==> if j == 4 || j == 7 {
                    #[trigger] s@[j] == '-'
                } else {
                    is_ascii_digit(s@[j])
                },
        decreases 10 - i,
    {
        let c = s.get_char(i);
        if i == 4 || i == 7 {
            if c != '-' {
                return false;
            }
        } else if !(c >= '0' && c <= '9') {
            return false;
        }
        i = i + 1;
    }
    true
}

/// Positions `from` to `to` (exclusive) of `s` hold ASCII digits.
pub open spec fn all_digits(s: Seq<char>, from: int, to: int) -> bool {
    forall|i: int| from <= i < to ==> is_ascii_digit(#[trigger] s[i])
}

/// Positions `from` to `to` (exclusive) hold a time's fraction of a second: nothing, or `.` and
/// one or more digits.
pub open spec fn fraction_at(s: Seq<char>, from: int, to: int) -> bool {
    from == to || (from + 2 <= to && s[from] == '.' && all_digits(s, from + 1, to))
}

/// The last six characters of `s`, from `k`, are a numeric UTC offset `+hh:mm` or `-hh:mm`.
pub open spec fn numeric_offset_at(s: Seq<char>, k: int) -> bool {
    &&& 0 <= k && k + 6 == s.len()
    &&& (s[k] == '+' || s[k] == '-')
    &&& all_digits(s, k + 1, k + 3)
    &&& s[k + 3] == ':'
    &&& all_digits(s, k + 4, k + 6)
}

/// An RFC 3339 date-time in shape: `YYYY-MM-DD`, `T`, `hh:mm:ss`, an optional fraction of a
/// second, and `Z` or a numeric offset (`T` and `Z` in either case; the values themselves are
/// not checked).
pub open spec fn is_rfc3339_shaped(s: Seq<char>) -> bool {
    &&& s.len() >= 20
    &&& all_digits(s, 0, 4) && s[4] == '-' && all_digits(s, 5, 7) && s[7] == '-' && all_digits(s, 8, 10)
    &&& (s[10] == 'T' || s[10] == 't')
    &&& all_digits(s, 11, 13) && s[13] == ':' && all_digits(s, 14, 16) && s[16] == ':' && all_digits(s, 17, 19)
    &&& {
        ||| ((s[s.len() - 1] == 'Z' || s[s.len() - 1] == 'z') && fraction_at(s, 19, s.len() - 1))
        ||| (s.len() >= 25 && numeric_offset_at(s, s.len() - 6) && fraction_at(s, 19, s.len() - 6))
    }
}

fn all_digits_in(s: &str, from: usize, to: usize) -> (r: bool)
    requires
        from <= to <= s@.len(),
    ensures
        r == all_digits(s@, from as int, to as int),
{
    let mut i = from;
    while i < to
        invariant
            from <= i <= to,
            to <= s@.len(),
            all_digits(s@, from as int, i as int),
        decreases to - i,
    {
        let c = s.get_char(i);
        if !(c >= '0' && c <= '9') {
            return false;
        }
        i = i + 1;
    }
    true
}

fn fraction_in(s: &str, from: usize, to: usize) -> (r: bool)
    requires
        from <= to <= s@.len(),
    ensures
        r == fraction_at(s@, from as int, to as int),
{
    from == to || (to - from >= 2 && s.get_char(from) == '.' && all_digits_in(s, from + 1, to))
}

/// Whether `s` has the shape of an RFC 3339 date-time.
pub fn is_rfc3339_time(s: &str) -> (r: bool)
    ensures
        r == is_rfc3339_shaped(s@),
{
    let n = s.unicode_len();
    if n < 20 {
        return false;
    }
    let head = all_digits_in(s, 0, 4) && s.get_char(4) == '-' && all_digits_in(s, 5, 7) && s.get_char(7) == '-'
        && all_digits_in(s, 8, 10) && (s.get_char(10) == 'T' || s.get_char(10) == 't') && all_digits_in(s, 11, 13)
        && s.get_char(13) == ':' && all_digits_in(s, 14, 16) && s.get_char(16) == ':' && all_digits_in(s, 17, 19);
    if !head {
        return false;
    }
    let last = s.get_char(n - 1);
    if last == 'Z' || last == 'z' {
        return fraction_in(s, 19, n - 1);
    }
    if n < 25 {
        return false;
    }
    let k = n - 6;
    let c = s.get_char(k);
    (c == '+' || c == '-') && all_digits_in(s, k + 1, k + 3) && s.get_char(k + 3) == ':' && all_digits_in(
        s,
        k + 4,
        k + 6,
    ) && fraction_in(s, 19, k)
}

/// Every timestamp the tool writes, from 0000-01-01T00:00:00Z to 9999-12-31T23:59:59Z, is
/// accepted as an RFC 3339 `--expires` time; and a date accepted as `YYYY-MM-DD` followed by
/// `T00:00:00Z`, with or without a fraction of a second and in either case, is one too.
pub proof fn lemma_rfc3339_accepts_timestamps(secs: int, date: Seq<char>, frac: Seq<char>)
    requires
        -62167219200 <= secs <= 253402300799,
    ensures
        is_rfc3339_shaped(utc_timestamp_text(secs)),
        is_date_shaped(date) ==> is_rfc3339_shaped(date + "T00:00:00Z"@),
        is_date_shaped(date) ==> is_rfc3339_shaped(date + "t00:00:00z"@),
        is_date_shaped(date) && frac.len() > 0 && all_digits(frac, 0, frac.len() as int) ==> is_rfc3339_shaped(
            date + "T00:00:00."@ + frac + "+01:00"@,
        ),
{
    lemma_timestamp_shape(secs);
    let t = utc_timestamp_text(secs);
    assert(t[4] == '-' && t[7] == '-' && t[10] == 'T' && t[13] == ':' && t[16] == ':' && t[19] == 'Z');
    assert(fraction_at(t, 19, 19));
    reveal_strlit("T00:00:00Z");
    reveal_strlit("t00:00:00z");
    reveal_strlit("T00:00:00.");
    reveal_strlit("+01:00");
    if is_date_shaped(date) {
        let u = date + "T00:00:00Z"@;
        assert(u.len() == 20);
        assert(forall|i: int| 0 <= i < 10 ==> u[i] == #[trigger] date[i]);
        assert(fraction_at(u, 19, 19));
        let l = date + "t00:00:00z"@;
        assert(forall|i: int| 0 <= i < 10 ==> l[i] == #[trigger] date[i]);
        assert(fraction_at(l, 19, 19));
        if frac.len() > 0 && all_digits(frac, 0, frac.len() as int) {
            let v = date + "T00:00:00."@ + frac + "+01:00"@;
            let n = v.len() as int;
            assert(n == 20 + frac.len() + 6);
            assert(forall|i: int| 0 <= i < 10 ==> v[i] == #[trigger] date[i]);
            assert(forall|i: int| 0 <= i < frac.len() ==> v[20 + i] == #[trigger] frac[i]);
            assert(v[19] == '.');
            assert(all_digits(v, 20, n - 6));
            assert(fraction_at(v, 19, n - 6));
            assert(numeric_offset_at(v, n - 6));
        }
    }
}

/// The UTC date `YYYY-MM-DD` of `secs` seconds after the Unix epoch.
pub fn format_utc_date(secs: i64) -> (r: String)
    ensures
        r@ == utc_date_text(secs as int),
{
    let mut s = String::new();
    push_utc_date(&mut s, secs);
    s
}

proof fn lemma_padded_digits(n: int, width: int)
    requires
        0 <= n,
        width == 2 && n < 100 || width == 4 && n < 10000,
    ensures
        signed_padded(n, width).len() == width,
        forall|i: int| 0 <= i < width ==> is_ascii_digit(#[trigger] signed_padded(n, width)[i]),
{
    lemma_decimal_short(n as nat);
    lemma_decimal_digits(n as nat);
    let d = decimal(n as nat);
    assert forall|i: int| 0 <= i < width implies is_ascii_digit(#[trigger] signed_padded(n, width)[i]) by {
        if d.len() < width && i >= width - d.len() {
            assert(signed_padded(n, width)[i] == d[i - (width - d.len())]);
        }
    }
}

/// A date in years 0 to 9999 has the shape `YYYY-MM-DD`.
proof fn lemma_date_text_shaped(secs: int)
    requires
        0 <= civil_date(secs / 86400).0 <= 9999,
    ensures
        is_date_shaped(utc_date_text(secs)),
{
    let ymd = civil_date(secs / 86400);
    lemma_every_day_has_a_date(secs / 86400);
    lemma_padded_digits(ymd.0, 4);
    lemma_padded_digits(ymd.1, 2);
    lemma_padded_digits(ymd.2, 2);
    let t = utc_date_text(secs);
    let a = signed_padded(ymd.0, 4);
    let b = signed_padded(ymd.1, 2);
    let c = signed_padded(ymd.2, 2);
    assert(t =~= a + seq!['-'] + b + seq!['-'] + c);
    assert forall|i: int| 0 <= i < 10 implies if i == 4 || i == 7 {
        #[trigger] t[i] == '-'
    } else {
        is_ascii_digit(t[i])
    } by {
        if i < 4 {
            assert(t[i] == a[i]);
        } else if 4 < i < 7 {
            assert(t[i] == b[i - 5]);
        } else if i > 7 {
            assert(t[i] == c[i - 8]);
        }
    }
}

/// Every expiry date computed from the clock, from 0000-01-01T00:00:00Z up to
/// 9999-12-31T23:59:59Z, is accepted back as an `--expires` date.
pub proof fn lemma_expiry_date_is_date_shaped(secs: int)
    requires
        -62167219200 <= secs <= 253402300799,
    ensures
        is_date_shaped(utc_date_text(secs)),
{
    lemma_four_digit_year(secs);
    lemma_date_text_shaped(secs);
}

/// The date of a second is the date of the first second of its day.
pub proof fn lemma_date_of_day_start(secs: int)
    ensures
        utc_date_text(secs) == utc_date_text(86400 * (secs / 86400)),
{
    assert((86400 * (secs / 86400)) / 86400 == secs / 86400) by (nonlinear_arith);
}

/// The second at which a link made at `now_secs` expires: `hours` hours later, or 30 days later.
/// The hour count is first converted to `i64` as the wrapping `as` cast does.
pub open spec fn expiry_secs(now_secs: int, hours: Option<u64>) -> int {
    match hours {
        Some(h) => now_secs + (h as i64) * 3600,
        None => now_secs + 30 * 86400,
    }
}

/// With no expiry given, a link lasts 30 days: as long as one asked for 720 hours; and one
/// asked for `h` hours (within `i64`) expires `h` hours, each of 3600 seconds, after `now`.
pub proof fn lemma_default_expiry_is_thirty_days(now: int, h: u64)
    ensures
        expiry_secs(now, None) == expiry_secs(now, Some(720)),
        expiry_secs(now, None) == now + 30 * 24 * 3600,
        h <= i64::MAX ==> expiry_secs(now, Some(h)) == now + 3600 * h,
{
}

/// The expiry of a link: the text given, when it is shaped `YYYY-MM-DD` or as an RFC 3339
/// date-time, else the UTC date `expiry_hours` hours (default 30 days) after `now_secs`.
pub fn compute_expiry_string(expires_arg: Option<&str>, expiry_hours: Option<u64>, now_secs: i64) -> (r:
    Result<String, Error>)
    requires
        expires_arg is None ==> {
            &&& i64::MIN <= expiry_secs(now_secs as int, expiry_hours) <= i64::MAX
            &&& (expiry_hours matches Some(h) ==> i64::MIN <= (h as i64) * 3600 <= i64::MAX)
        },
    ensures
        match expires_arg {
            Some(exp) => if is_date_shaped(exp@) || is_rfc3339_shaped(exp@) {
                r matches Ok(t) && t@ == exp@
            } else {
                r matches Err(e) && e.code == ErrorCode::InvalidInput && e.message@ == "Invalid date format: "@
                    + exp@ + ". Use YYYY-MM-DD."@ && e.detail is None && e.fix is None
            },
            None => r matches Ok(t) && t@ == utc_date_text(expiry_secs(now_secs as int, expiry_hours)),
        },
{
    if let Some(exp) = expires_arg {
        if !is_valid_date(exp) && !is_rfc3339_time(exp) {
            let mut msg = owned("Invalid date format: ");
            push_str(&mut msg, exp);
            push_str(&mut msg, ". Use YYYY-MM-DD.");
            return Err(Error::invalid(msg));
        }
        return Ok(owned(exp));
    }
    let target_secs: i64 = if let Some(hours) = expiry_hours {
        now_secs + (hours as i64) * 3600
    } else {
        now_secs + 30 * 86400
    };
    Ok(format_utc_date(target_secs))
}


/// What an upload's arguments name.
#[derive(Debug)]
pub enum UploadTarget {
    /// The profile to upload with and the path to upload.
    Profile { profile: String, path: String },
    /// A single argument that is an existing path, with no profile named.
    ProfileMissing,
}

/// The profile and path of an upload: `<profile> <path>`, or `<path> --account <profile>`;
/// a lone argument that is an existing path names no profile, and any other lone argument is
/// taken as the profile, with an empty path.
pub fn upload_target(args: &UploadArgs, first_is_existing_path: bool) -> (r: UploadTarget)
    ensures
        match args.second {
            Some(second) => r matches UploadTarget::Profile { profile, path } && profile@ == args.first@ && path@
                == second@,
            None => match args.account {
                Some(account) => r matches UploadTarget::Profile { profile, path } && profile@ == account@
                    && path@ == args.first@,
                None => if first_is_existing_path {
                    r is ProfileMissing
                } else {
                    r matches UploadTarget::Profile { profile, path } && profile@ == args.first@ && path@.len() == 0
                },
            },
        },
{
    match &args.second {
        Some(second) => UploadTarget::Profile { profile: args.first.clone(), path: second.clone() },
        None => match &args.account {
            Some(account) => UploadTarget::Profile { profile: account.clone(), path: args.first.clone() },
            None => {
                if first_is_existing_path {
                    UploadTarget::ProfileMissing
                } else {
                    UploadTarget::Profile { profile: args.first.clone(), path: String::new() }
                }
            },
        },
    }
}

/// The error for an upload path that does not exist.
pub fn path_not_found(path: &str) -> (r: Error)
    ensures
        r.code == ErrorCode::InvalidInput,
        r.message@ == "Path not found: "@ + path@,
        r.detail is None,
        r.fix is None,
{
    let mut msg = owned("Path not found: ");
    push_str(&mut msg, path);
    Error::invalid(msg)
}

/// Directories are always zipped; single files when asked to.
pub fn should_zip(is_dir: bool, zipped: bool) -> (r: bool)
    ensures
        r == (is_dir || zipped),
{
    is_dir || zipped
}

/// The blob name of a file uploaded as it is: its file name.
pub fn plain_blob_name(path: &str, style: PathStyle) -> (r: Result<String, Error>)
    ensures
        match file_name_of(style, path@) {
            Some(f) => r matches Ok(name) && name@ == f,
            None => r matches Err(e) && e.code == ErrorCode::InvalidInput && e.message@ == "Invalid file path: "@
                + path@ && e.detail is None && e.fix is None,
        },
{
    match file_name(path, style) {
        Some(f) => Ok(owned(f)),
        None => {
            let mut msg = owned("Invalid file path: ");
            push_str(&mut msg, path);
            Err(Error::invalid(msg))
        },
    }
}

/// The container to upload to: the one given, else the profile's.
pub fn upload_container(args: &UploadArgs, resolved: &Resolved) -> (r: String)
    ensures
        r@ == match args.container {
            Some(c) => c@,
            None => resolved.profile.container_name@,
        },
{
    match &args.container {
        Some(c) => c.clone(),
        None => resolved.profile.container_name.clone(),
    }
}

/// The endpoint to upload to: the one given, else the profile's, if any.
pub fn upload_endpoint(args: &UploadArgs, resolved: &Resolved) -> (r: Option<String>)
    ensures
        r == match args.endpoint {
            Some(e) => Some(e),
            None => resolved.profile.endpoint,
        },
{
    match &args.endpoint {
        Some(e) => Some(e.clone()),
        None => match &resolved.profile.endpoint {
            Some(e) => Some(e.clone()),
            None => None,
        },
    }
}

/// What an upload reports: where the blob went, what it holds, and the read-only link to it.
#[derive(Debug)]
pub struct UploadReport {
    pub status: String,
    pub account: String,
    pub container: String,
    pub blob: String,
    pub size_bytes: usize,
    pub content_type: String,
    pub expires: String,
    pub url: String,
}

/// The report of a finished upload of `size_bytes` bytes to `blob`, linking it with the read
/// token `read_token`.
pub fn upload_report(
    client: &Client,
    blob: &str,
    size_bytes: usize,
    content_type: &str,
    expires: &str,
    read_token: &str,
) -> (r: UploadReport)
    ensures
        r.status@ == "uploaded"@,
        r.account@ == client.account_name@,
        r.container@ == client.container_name@,
        r.blob@ == blob@,
        r.size_bytes == size_bytes,
        r.content_type@ == content_type@,
        r.expires@ == expires@,
        r.url@ == read_url(client.endpoint_base@, client.container_name@, blob@, read_token@),
{
    UploadReport {
        status: owned("uploaded"),
        account: owned(client.account_name()),
        container: owned(client.container_name()),
        blob: owned(blob),
        size_bytes,
        content_type: owned(content_type),
        expires: owned(expires),
        url: client.build_read_sas_url(blob, read_token),
    }
}

} // verus!
