//! File names and locations the agent uses, the sanitizing of exported PDF
//! names, and the retention rule for debugging screenshots.

use vstd::prelude::*;
use crate::text::{chars_of, ends_with, lemma_trim_noop, push_str, slice_chars, starts_with, starts_with_str, trim, trim_vec};
use crate::unicode::string_from_chars;
use crate::crash_guard::is_path_sep;
use crate::unicode::is_ascii_alnum;

verus! {

/// Name of the per-user data folder.
pub const APP_DIR_NAME: &'static str = "FlowSight";

/// The local SQLite database.
pub const DB_FILE: &'static str = "dev-agent.db";

/// Log of the managed `llama-server`.
pub const SERVER_LOG_FILE: &'static str = "server.log";

/// Log of the authentication flow.
pub const AUTH_LOG_FILE: &'static str = "auth.log";

/// Log of agent errors.
pub const AGENT_ERROR_LOG_FILE: &'static str = "agent_error.log";

/// Log written by the panic hook.
pub const CRASH_LOG_FILE: &'static str = "crash.log";

/// Subfolder for debugging screenshots.
pub const SCREENSHOTS_TMP_DIR: &'static str = "screenshots_tmp";

/// A single relative path component: non-empty, neither `.` nor `..`, and
/// without a separator or a colon.
pub open spec fn is_plain_name(name: Seq<char>) -> bool {
    &&& name.len() > 0
    &&& !(name.len() == 1 && name[0] == '.')
    &&& !(name.len() == 2 && name[0] == '.' && name[1] == '.')
    &&& forall|i: int|
        0 <= i < name.len() ==> #[trigger] name[i] != '/' && name[i] != '\\' && name[i] != ':'
}

/// Whether `base` is one of the two forms on which `Path::join` may do more
/// than append a relative name: a path that starts like a Windows verbatim
/// path (`\\?\...`, either separator), or a bare drive such as `C:`.
pub open spec fn is_special_base(base: Seq<char>) -> bool {
    ||| base.len() >= 3 && is_path_sep(base[0]) && is_path_sep(base[1]) && base[2] == '?'
    ||| base.len() == 2 && base[1] == ':'
}

/// `base` extended with `name` on a platform whose separator is `sep`: no
/// separator is inserted when `base` is empty or already ends in one (`/`
/// separates on every platform, `sep` on its own).
pub open spec fn joined_with(base: Seq<char>, name: Seq<char>, sep: char) -> Seq<char> {
    if base.len() == 0 || base.last() == '/' || base.last() == sep {
        base + name
    } else {
        base + seq![sep] + name
    }
}

/// Whether `p` is `base` joined with `name` on a Unix-like platform (separator
/// `/`) or on Windows (separator `\`).
pub open spec fn is_joined(base: Seq<char>, name: Seq<char>, p: Seq<char>) -> bool {
    p == joined_with(base, name, '/') || p == joined_with(base, name, '\\')
}

/// What `Path::new(base).join(name)` renders as text. It depends on the two
/// arguments and on the platform the crate is built for, which is fixed for a
/// given build.
pub uninterp spec fn path_join(base: Seq<char>, name: Seq<char>) -> Seq<char>;

/// Whether `p` is what `Path::join` gives for `base` and `name`: the named
/// result, which appends `name` as `is_joined` says wherever `base` is not
/// special.
pub open spec fn is_path_join(base: Seq<char>, name: Seq<char>, p: Seq<char>) -> bool {
    &&& p == path_join(base, name)
    &&& !is_special_base(base) ==> is_joined(base, name, p)
}

/// Calls `Path::join` and renders the result as text, which loses nothing
/// here since both arguments are UTF-8. Its result is named `path_join`.
/// For a plain relative name, `PathBuf::push` appends the name after the
/// platform's separator (`/` on Unix-like systems, `\` on Windows), adding
/// none when `base` is empty or already ends in a separator. On a base that
/// starts like a verbatim path (`\\?\C:\...`) Windows normalizes the result,
/// and after a bare drive (`C:`) it adds no separator; on those bases nothing
/// but the name is claimed.
#[verifier::external_body]
fn join_path(base: &str, name: &str) -> (p: String)
    ensures
        p@ == path_join(base@, name@),
        is_plain_name(name@) && !is_special_base(base@) ==> is_joined(base@, name@, p@),
{
    std::path::Path::new(base).join(name).to_string_lossy().into_owned()
}

proof fn lemma_file_names_plain()
    ensures
        is_plain_name(APP_DIR_NAME@),
        is_plain_name(DB_FILE@),
        is_plain_name(SERVER_LOG_FILE@),
        is_plain_name(AUTH_LOG_FILE@),
        is_plain_name(AGENT_ERROR_LOG_FILE@),
        is_plain_name(CRASH_LOG_FILE@),
        is_plain_name(SCREENSHOTS_TMP_DIR@),
        is_plain_name("bin"@),
        is_plain_name("llama-server"@),
        is_plain_name("llama-server.exe"@),
{
    reveal_strlit("FlowSight");
    reveal_strlit("dev-agent.db");
    reveal_strlit("server.log");
    reveal_strlit("auth.log");
    reveal_strlit("agent_error.log");
    reveal_strlit("crash.log");
    reveal_strlit("screenshots_tmp");
    reveal_strlit("bin");
    reveal_strlit("llama-server");
    reveal_strlit("llama-server.exe");
}

/// The agent's data folder under the user's local data directory `base`.
pub fn app_data_dir_in(base: &str) -> (p: String)
    ensures
        is_path_join(base@, APP_DIR_NAME@, p@),
{
    proof {
        lemma_file_names_plain();
    }
    join_path(base, APP_DIR_NAME)
}

/// `file` inside the data folder, or the folder's error.
fn in_app_dir(app_dir: &Result<String, String>, file: &str) -> (r: Result<String, String>)
    requires
        is_plain_name(file@),
    ensures
        match app_dir {
            Ok(d) => r matches Ok(p) && is_path_join(d@, file@, p@),
            Err(e) => r matches Err(e2) && e2@ == e@,
        },
{
    match app_dir {
        Ok(d) => Ok(join_path(d.as_str(), file)),
        Err(e) => Err(e.clone()),
    }
}

/// Path of `dev-agent.db` in the data folder `app_dir` (or its error).
pub fn db_path(app_dir: &Result<String, String>) -> (r: Result<String, String>)
    ensures
        match app_dir {
            Ok(d) => r matches Ok(p) && is_path_join(d@, DB_FILE@, p@),
            Err(e) => r matches Err(e2) && e2@ == e@,
        },
{
    proof {
        lemma_file_names_plain();
    }
    in_app_dir(app_dir, DB_FILE)
}

/// Path of the database for callers that cannot propagate an error: the
/// bare file name when the data folder is unavailable.
pub fn db_path_or_fallback(app_dir: &Result<String, String>) -> (p: String)
    ensures
        match app_dir {
            Ok(d) => is_path_join(d@, DB_FILE@, p@),
            Err(_) => p@ == DB_FILE@,
        },
{
    match db_path(app_dir) {
        Ok(p) => p,
        Err(_) => DB_FILE.to_owned(),
    }
}

/// Path of the `llama-server` log.
pub fn server_log_path(app_dir: &Result<String, String>) -> (r: Result<String, String>)
    ensures
        match app_dir {
            Ok(d) => r matches Ok(p) && is_path_join(d@, SERVER_LOG_FILE@, p@),
            Err(e) => r matches Err(e2) && e2@ == e@,
        },
{
    proof {
        lemma_file_names_plain();
    }
    in_app_dir(app_dir, SERVER_LOG_FILE)
}

/// Path of the authentication log.
pub fn auth_log_path(app_dir: &Result<String, String>) -> (r: Result<String, String>)
    ensures
        match app_dir {
            Ok(d) => r matches Ok(p) && is_path_join(d@, AUTH_LOG_FILE@, p@),
            Err(e) => r matches Err(e2) && e2@ == e@,
        },
{
    proof {
        lemma_file_names_plain();
    }
    in_app_dir(app_dir, AUTH_LOG_FILE)
}

/// Path of the agent error log.
pub fn agent_error_log_path(app_dir: &Result<String, String>) -> (r: Result<String, String>)
    ensures
        match app_dir {
            Ok(d) => r matches Ok(p) && is_path_join(d@, AGENT_ERROR_LOG_FILE@, p@),
            Err(e) => r matches Err(e2) && e2@ == e@,
        },
{
    proof {
        lemma_file_names_plain();
    }
    in_app_dir(app_dir, AGENT_ERROR_LOG_FILE)
}

/// Path of the crash log, the bare file name when the data folder is
/// unavailable.
pub fn crash_log_path_or_fallback(app_dir: &Result<String, String>) -> (p: String)
    ensures
        match app_dir {
            Ok(d) => is_path_join(d@, CRASH_LOG_FILE@, p@),
            Err(_) => p@ == CRASH_LOG_FILE@,
        },
{
    proof {
        lemma_file_names_plain();
    }
    match in_app_dir(app_dir, CRASH_LOG_FILE) {
        Ok(p) => p,
        Err(_) => CRASH_LOG_FILE.to_owned(),
    }
}

/// The debugging screenshot folder inside the data folder `app_dir`.
pub fn screenshots_tmp_path(app_dir: &str) -> (p: String)
    ensures
        is_path_join(app_dir@, SCREENSHOTS_TMP_DIR@, p@),
{
    proof {
        lemma_file_names_plain();
    }
    join_path(app_dir, SCREENSHOTS_TMP_DIR)
}

/// Name of the `llama-server` binary on the platform.
pub fn llama_server_bin_name(is_windows: bool) -> (name: &'static str)
    ensures
        name@ == if is_windows {
            "llama-server.exe"@
        } else {
            "llama-server"@
        },
{
    if is_windows {
        "llama-server.exe"
    } else {
        "llama-server"
    }
}

/// Where the `llama-server` binary lies under a `local_llm` folder `dir`:
/// `dir/bin/<binary>`.
pub fn llama_server_path(dir: &str, is_windows: bool) -> (p: String)
    ensures
        is_path_join(dir@, "bin"@, path_join(dir@, "bin"@)),
        is_path_join(
            path_join(dir@, "bin"@),
            if is_windows {
                "llama-server.exe"@
            } else {
                "llama-server"@
            },
            p@,
        ),
        !is_special_base(dir@) ==> !is_special_base(path_join(dir@, "bin"@)),
{
    proof {
        lemma_file_names_plain();
    }
    let bin = join_path(dir, "bin");
    let p = join_path(bin.as_str(), llama_server_bin_name(is_windows));
    proof {
        if !is_special_base(dir@) {
            reveal_strlit("bin");
            lemma_join_not_special(dir@, "bin"@, bin@);
        }
    }
    p
}

/// Joining a base that is not special with a plain name of at least three
/// characters that does not start with `?` gives a base that is not special
/// either.
proof fn lemma_join_not_special(base: Seq<char>, name: Seq<char>, p: Seq<char>)
    requires
        !is_special_base(base),
        is_plain_name(name),
        name.len() >= 3,
        name[0] != '?',
        is_joined(base, name, p),
    ensures
        !is_special_base(p),
{
    assert(!is_path_sep(name[0]) && !is_path_sep(name[1]));
    let sep = if p == joined_with(base, name, '/') { '/' } else { '\\' };
    assert(p == joined_with(base, name, sep));
    if base.len() == 0 || base.last() == '/' || base.last() == sep {
        assert(p == base + name);
        assert(forall|i: int| 0 <= i < base.len() ==> p[i] == base[i]);
        assert(forall|i: int| 0 <= i < name.len() ==> p[base.len() + i] == name[i]);
    } else {
        assert(p == base + seq![sep] + name);
        assert(forall|i: int| 0 <= i < base.len() ==> p[i] == base[i]);
        assert(p[base.len() as int] == sep);
        assert(forall|i: int| 0 <= i < name.len() ==> p[base.len() + 1 + i] == name[i]);
    }
}

/// The hint added to the message when the data folder cannot be written.
pub fn write_probe_hint(is_windows: bool, is_macos: bool) -> (hint: &'static str)
    ensures
        hint@ == if is_windows {
            " (on Windows 11 this may be Controlled Folder Access / Defender blocking an unsigned app)"@
        } else if is_macos {
            " (on macOS, Full Disk Access is not required for Application Support)"@
        } else {
            ""@
        },
{
    if is_windows {
        " (on Windows 11 this may be Controlled Folder Access / Defender blocking an unsigned app)"
    } else if is_macos {
        " (on macOS, Full Disk Access is not required for Application Support)"
    } else {
        ""
    }
}

// ---------------------------------------------------------------------------
// Debugging screenshot retention
// ---------------------------------------------------------------------------

/// Whether a file of the screenshot folder is removed: it is a `capture_*`
/// file whose age is known and greater than `max_age` (nanoseconds).
pub open spec fn stale_capture(name: Seq<char>, age: Option<u128>, max_age: u128) -> bool {
    &&& starts_with(name, "capture_"@)
    &&& (age matches Some(a) && a > max_age)
}

/// Whether the screenshot file `name`, `age` old (unknown when its
/// modification time cannot be read), is past retention.
pub fn is_stale_capture(name: &str, age: Option<u128>, max_age: u128) -> (b: bool)
    ensures
        b == stale_capture(name@, age, max_age),
{
    let cs = chars_of(name);
    if !starts_with_str(&cs, "capture_") {
        return false;
    }
    match age {
        Some(a) => a > max_age,
        None => false,
    }
}

// ---------------------------------------------------------------------------
// PDF export names
// ---------------------------------------------------------------------------

/// The message of a rejected PDF file name.
pub open spec fn invalid_pdf_message() -> Seq<char> {
    "Invalid PDF filename"@
}

/// Whether `c` may stay in an exported file name: an ASCII letter or digit,
/// `.`, `_` or `-`.
pub open spec fn pdf_name_char(c: char) -> bool {
    ||| ('0' <= c && c <= '9')
    ||| ('A' <= c && c <= 'Z')
    ||| ('a' <= c && c <= 'z')
    ||| c == '.'
    ||| c == '_'
    ||| c == '-'
}

/// The characters of `s` that may stay in an exported file name.
pub open spec fn kept_chars(s: Seq<char>) -> Seq<char>
    decreases s.len(),
{
    if s.len() == 0 {
        seq![]
    } else {
        kept_chars(s.drop_last()) + if pdf_name_char(s.last()) {
            seq![s.last()]
        } else {
            seq![]
        }
    }
}

/// Whether `s` ends in `.pdf`, ignoring ASCII case.
pub open spec fn ends_with_pdf(s: Seq<char>) -> bool {
    &&& s.len() >= 4
    &&& s[s.len() - 4] == '.'
    &&& (s[s.len() - 3] == 'p' || s[s.len() - 3] == 'P')
    &&& (s[s.len() - 2] == 'd' || s[s.len() - 2] == 'D')
    &&& (s[s.len() - 1] == 'f' || s[s.len() - 1] == 'F')
}

/// The sanitized export name, or `None` when the name is rejected: blank, not
/// ending in `.pdf`, or shorter than five characters once sanitized.
pub open spec fn sanitized_pdf_name(name: Seq<char>) -> Option<Seq<char>> {
    let t = trim(name);
    if t.len() == 0 || !ends_with_pdf(t) {
        None
    } else if kept_chars(t).len() < 5 {
        None
    } else {
        Some(kept_chars(t))
    }
}

fn is_pdf_name_char(c: char) -> (b: bool)
    ensures
        b == pdf_name_char(c),
{
    ('0' <= c && c <= '9') || ('A' <= c && c <= 'Z') || ('a' <= c && c <= 'z') || c == '.' || c
        == '_' || c == '-'
}

/// Checks an exported PDF name and keeps only safe characters.
pub fn sanitize_pdf_filename(name: &str) -> (r: Result<String, String>)
    ensures
        match r {
            Ok(s) => sanitized_pdf_name(name@) == Some(s@),
            Err(e) => sanitized_pdf_name(name@) is None && e@ == invalid_pdf_message(),
        },
{
    let cs = chars_of(name);
    let t = trim_vec(&cs);
    let n = t.len();
    if n == 0 || !(n >= 4 && t[n - 4] == '.' && (t[n - 3] == 'p' || t[n - 3] == 'P') && (t[n - 2]
        == 'd' || t[n - 2] == 'D') && (t[n - 1] == 'f' || t[n - 1] == 'F')) {
        return Err("Invalid PDF filename".to_owned());
    }
    let mut safe: Vec<char> = Vec::new();
    let mut i: usize = 0;
    assert(t@.take(0) =~= Seq::<char>::empty());
    while i < n
        invariant
            i <= n == t.len(),
            safe@ == kept_chars(t@.take(i as int)),
        decreases n - i,
    {
        assert(t@.take(i + 1).drop_last() =~= t@.take(i as int));
        assert(t@.take(i + 1).last() == t@[i as int]);
        if is_pdf_name_char(t[i]) {
            safe.push(t[i]);
        } else {
            assert(safe@ + Seq::<char>::empty() =~= safe@);
        }
        i += 1;
    }
    assert(t@.take(n as int) =~= t@);
    if safe.len() < 5 {
        return Err("Invalid PDF filename".to_owned());
    }
    Ok(string_from_chars(&safe))
}

/// `s` without a trailing `.pdf` (`str::strip_suffix`, case-sensitive).
pub open spec fn pdf_stem(s: Seq<char>) -> Seq<char> {
    if ends_with(s, ".pdf"@) {
        s.take(s.len() - 4)
    } else {
        s
    }
}

/// The decimal digit for `d < 10`.
pub open spec fn digit(d: nat) -> char {
    if d == 0 {
        '0'
    } else if d == 1 {
        '1'
    } else if d == 2 {
        '2'
    } else if d == 3 {
        '3'
    } else if d == 4 {
        '4'
    } else if d == 5 {
        '5'
    } else if d == 6 {
        '6'
    } else if d == 7 {
        '7'
    } else if d == 8 {
        '8'
    } else {
        '9'
    }
}

fn digit_exec(d: u32) -> (c: char)
    requires
        d < 10,
    ensures
        c == digit(d as nat),
{
    if d == 0 {
        '0'
    } else if d == 1 {
        '1'
    } else if d == 2 {
        '2'
    } else if d == 3 {
        '3'
    } else if d == 4 {
        '4'
    } else if d == 5 {
        '5'
    } else if d == 6 {
        '6'
    } else if d == 7 {
        '7'
    } else if d == 8 {
        '8'
    } else {
        '9'
    }
}

/// The decimal representation of `n`.
pub open spec fn decimal(n: nat) -> Seq<char>
    decreases n,
{
    if n < 10 {
        seq![digit(n)]
    } else {
        decimal(n / 10) + seq![digit(n % 10)]
    }
}

fn push_decimal(dst: &mut Vec<char>, n: u32)
    ensures
        final(dst)@ == old(dst)@ + decimal(n as nat),
    decreases n,
{
    if n >= 10 {
        push_decimal(dst, n / 10);
    }
    dst.push(digit_exec(n % 10));
    assert(final(dst)@ =~= old(dst)@ + decimal(n as nat));
}

/// `stem` of `safe`, written into a new vector.
fn stem_chars(safe: &Vec<char>) -> (r: Vec<char>)
    ensures
        r@ == pdf_stem(safe@),
{
    let ext = chars_of(".pdf");
    proof {
        reveal_strlit(".pdf");
    }
    if ends_with_exec(safe, &ext) {
        slice_chars(safe, 0, safe.len() - 4)
    } else {
        slice_chars(safe, 0, safe.len())
    }
}

fn ends_with_exec(s: &Vec<char>, p: &Vec<char>) -> (b: bool)
    ensures
        b == ends_with(s@, p@),
{
    if p.len() > s.len() {
        return false;
    }
    let start = s.len() - p.len();
    let mut j: usize = 0;
    while j < p.len()
        invariant
            j <= p.len() <= s.len(),
            start == s.len() - p.len(),
            forall|m: int| 0 <= m < j ==> s@[start + m] == p@[m],
        decreases p.len() - j,
    {
        if s[start + j] != p[j] {
            assert(s@.subrange(start as int, s.len() as int)[j as int] != p@[j as int]);
            return false;
        }
        j += 1;
    }
    assert(s@.subrange(start as int, s.len() as int) =~= p@);
    true
}

/// The name tried for the `n`-th duplicate of `safe`: `<stem>_<n>.pdf`.
pub open spec fn numbered_pdf_name(safe: Seq<char>, n: nat) -> Seq<char> {
    pdf_stem(safe) + "_"@ + decimal(n) + ".pdf"@
}

/// The last attempt before the time-stamped fallback.
pub const LAST_NUMBERED_DOWNLOAD: u32 = 99;

/// The file name tried at `attempt` (from 0) when saving `safe` into the
/// downloads folder: the name itself, then `<stem>_2.pdf` to
/// `<stem>_99.pdf`; `None` once those are used up.
pub open spec fn download_candidate_name(safe: Seq<char>, attempt: nat) -> Option<Seq<char>> {
    if attempt == 0 {
        Some(safe)
    } else if attempt + 1 <= LAST_NUMBERED_DOWNLOAD {
        Some(numbered_pdf_name(safe, attempt + 1))
    } else {
        None
    }
}

/// The file name tried at `attempt` when saving `safe` into the downloads
/// folder.
pub fn download_candidate(safe: &str, attempt: u32) -> (r: Option<String>)
    ensures
        match r {
            Some(s) => download_candidate_name(safe@, attempt as nat) == Some(s@),
            None => download_candidate_name(safe@, attempt as nat) is None,
        },
{
    if attempt == 0 {
        return Some(safe.to_owned());
    }
    if attempt >= LAST_NUMBERED_DOWNLOAD {
        return None;
    }
    let cs = chars_of(safe);
    let mut r = stem_chars(&cs);
    push_str(&mut r, "_");
    push_decimal(&mut r, attempt + 1);
    push_str(&mut r, ".pdf");
    Some(string_from_chars(&r))
}

/// The time-stamped fallback name `<stem>_<stamp>.pdf`.
pub open spec fn stamped_pdf_name(safe: Seq<char>, stamp: Seq<char>) -> Seq<char> {
    pdf_stem(safe) + "_"@ + stamp + ".pdf"@
}

/// The time-stamped fallback name for `safe` with the clock reading `stamp`.
pub fn stamped_download_name_at(safe: &str, stamp: &str) -> (r: String)
    ensures
        r@ == stamped_pdf_name(safe@, stamp@),
{
    let cs = chars_of(safe);
    let mut r = stem_chars(&cs);
    push_str(&mut r, "_");
    push_str(&mut r, stamp);
    push_str(&mut r, ".pdf");
    string_from_chars(&r)
}


// ---------------------------------------------------------------------------
// Laws
// ---------------------------------------------------------------------------

proof fn lemma_kept_all_allowed(s: Seq<char>)
    ensures
        forall|i: int| 0 <= i < kept_chars(s).len() ==> pdf_name_char(#[trigger] kept_chars(s)[i]),
    decreases s.len(),
{
    if s.len() > 0 {
        lemma_kept_all_allowed(s.drop_last());
        let a = kept_chars(s.drop_last());
        let tail = if pdf_name_char(s.last()) {
            seq![s.last()]
        } else {
            Seq::<char>::empty()
        };
        assert(kept_chars(s) == a + tail);
        assert forall|i: int| 0 <= i < kept_chars(s).len() implies pdf_name_char(
            #[trigger] kept_chars(s)[i],
        ) by {
            if i < a.len() {
                assert(kept_chars(s)[i] == a[i]);
            } else {
                assert(kept_chars(s)[i] == tail[i - a.len()]);
            }
        }
    }
}

proof fn lemma_kept_noop(s: Seq<char>)
    requires
        forall|i: int| 0 <= i < s.len() ==> pdf_name_char(#[trigger] s[i]),
    ensures
        kept_chars(s) == s,
    decreases s.len(),
{
    if s.len() > 0 {
        let t = s.drop_last();
        assert forall|i: int| 0 <= i < t.len() implies pdf_name_char(#[trigger] t[i]) by {
            assert(t[i] == s[i]);
        }
        lemma_kept_noop(t);
        assert(t + seq![s.last()] =~= s);
    }
}

proof fn lemma_kept_concat(a: Seq<char>, b: Seq<char>)
    ensures
        kept_chars(a + b) == kept_chars(a) + kept_chars(b),
    decreases b.len(),
{
    if b.len() == 0 {
        assert(a + b =~= a);
        assert(kept_chars(a) + Seq::<char>::empty() =~= kept_chars(a));
    } else {
        lemma_kept_concat(a, b.drop_last());
        assert((a + b).drop_last() =~= a + b.drop_last());
        assert((a + b).last() == b.last());
        let tail = if pdf_name_char(b.last()) {
            seq![b.last()]
        } else {
            Seq::<char>::empty()
        };
        assert(kept_chars(a) + kept_chars(b.drop_last()) + tail =~= kept_chars(a) + (kept_chars(
            b.drop_last(),
        ) + tail));
    }
}

/// Sanitizing an accepted name again accepts it and changes nothing.
pub proof fn lemma_sanitize_idempotent(name: Seq<char>)
    ensures
        sanitized_pdf_name(name) matches Some(s) ==> sanitized_pdf_name(s) == Some(s),
        sanitized_pdf_name(name) matches Some(s) ==> s.len() >= 5 && ends_with_pdf(s) && forall|
            i: int,
        | 0 <= i < s.len() ==> pdf_name_char(#[trigger] s[i]),
{
    if let Some(s) = sanitized_pdf_name(name) {
        let t = trim(name);
        let n = t.len() as int;
        let front = t.take(n - 4);
        let last4 = t.skip(n - 4);
        assert(front + last4 =~= t);
        lemma_kept_concat(front, last4);
        assert forall|i: int| 0 <= i < last4.len() implies pdf_name_char(#[trigger] last4[i]) by {
            assert(last4[i] == t[n - 4 + i]);
        }
        lemma_kept_noop(last4);
        lemma_kept_all_allowed(t);
        let k = kept_chars(front).len() as int;
        assert(s[s.len() - 4] == last4[0]);
        assert(s[s.len() - 3] == last4[1]);
        assert(s[s.len() - 2] == last4[2]);
        assert(s[s.len() - 1] == last4[3]);
        lemma_kept_noop(s);
        assert(trim(s) == s);
    }
}

/// A name that is already safe is kept exactly: at least five characters,
/// each an ASCII letter or digit, `.`, `_` or `-`, ending in `.pdf` in any
/// letter case, comes back unchanged; in particular no letter or digit is
/// ever dropped.
pub proof fn lemma_safe_name_kept(n: Seq<char>)
    requires
        n.len() >= 5,
        forall|i: int|
            0 <= i < n.len() ==> is_ascii_alnum(#[trigger] n[i]) || n[i] == '.' || n[i] == '_'
                || n[i] == '-',
        n[n.len() - 4] == '.',
        n[n.len() - 3] == 'p' || n[n.len() - 3] == 'P',
        n[n.len() - 2] == 'd' || n[n.len() - 2] == 'D',
        n[n.len() - 1] == 'f' || n[n.len() - 1] == 'F',
    ensures
        sanitized_pdf_name(n) == Some(n),
{
    assert(forall|i: int| 0 <= i < n.len() ==> pdf_name_char(#[trigger] n[i]));
    assert(pdf_name_char(n[0]) && pdf_name_char(n.last()));
    lemma_trim_noop(n);
    lemma_kept_noop(n);
}

/// Every ASCII letter and digit may stay in an exported file name, and so
/// may `.`, `_` and `-`; nothing else may.
pub proof fn lemma_pdf_name_chars(c: char)
    ensures
        pdf_name_char(c) <==> (is_ascii_alnum(c) || c == '.' || c == '_' || c == '-'),
{
}

} // verus!
