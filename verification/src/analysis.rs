//! Parsing of the local vision model's answer into a structured description
//! and an activity category.

use vstd::prelude::*;
use crate::text::{
    append_chars, byte_len, byte_len_prefix, char_at_byte, char_index_at_byte, chars_of,
    contains, contains_str, end_of_nth_word, eq_str, find_newline, join, join_exec,
    lemma_char_at_byte_order, lemma_char_at_byte_sound, lemma_lines_step, lemma_trim_end_len,
    is_ws, lemma_trim_idempotent, lemma_trim_noop, line_len, strip_cr, lemma_trim_start_from, lemma_trim_start_len,
    line_chars, lines, matches_at, matches_at_exec,
    remove_all, remove_all_exec, skip_ws_from, slice_chars, split_whitespace, starts_with,
    starts_with_str, trim, trim_end, trim_end_vec, trim_start, trim_vec, views, word_end, words,
};
use crate::unicode::{
    alphanumeric, ascii_lower, ascii_lower_char, ascii_upper, ascii_upper_char, char_lowercase,
    char_to_lowercase, is_alphanumeric, is_ascii, is_ascii_alnum, lowercase, string_from_chars, to_lowercase,
    to_uppercase, uppercase,
};

verus! {

/// The category labels that the vision prompt offers the model.
pub const ALLOWED_CATEGORIES: &'static str = "Coding, Debugging, CodeReview, Testing, Documentation, Design, Planning, Meeting, Communication, Research, Learning, DevOps, Database, Sales, Admin, Browsing, Idle, General";

// ---------------------------------------------------------------------------
// Category labels
// ---------------------------------------------------------------------------

/// `s` reduced to one lowercase alphanumeric token: every alphanumeric
/// character kept and lowercased, everything else dropped, so that
/// "Code Review", "code_review" and "CodeReview" all give "codereview".
pub open spec fn normalize(s: Seq<char>) -> Seq<char>
    decreases s.len(),
{
    if s.len() == 0 {
        seq![]
    } else {
        normalize(s.drop_last()) + if alphanumeric(s.last()) {
            char_lowercase(s.last())
        } else {
            seq![]
        }
    }
}

/// The label whose normalized key is `norm`.
pub open spec fn lookup(norm: Seq<char>) -> Option<Seq<char>> {
    if norm == "coding"@ {
        Some("Coding"@)
    } else if norm == "debugging"@ {
        Some("Debugging"@)
    } else if norm == "codereview"@ {
        Some("CodeReview"@)
    } else if norm == "testing"@ {
        Some("Testing"@)
    } else if norm == "documentation"@ {
        Some("Documentation"@)
    } else if norm == "design"@ {
        Some("Design"@)
    } else if norm == "planning"@ {
        Some("Planning"@)
    } else if norm == "meeting"@ {
        Some("Meeting"@)
    } else if norm == "communication"@ {
        Some("Communication"@)
    } else if norm == "research"@ {
        Some("Research"@)
    } else if norm == "learning"@ {
        Some("Learning"@)
    } else if norm == "devops"@ {
        Some("DevOps"@)
    } else if norm == "database"@ {
        Some("Database"@)
    } else if norm == "sales"@ {
        Some("Sales"@)
    } else if norm == "admin"@ {
        Some("Admin"@)
    } else if norm == "browsing"@ {
        Some("Browsing"@)
    } else if norm == "idle"@ {
        Some("Idle"@)
    } else if norm == "general"@ {
        Some("General"@)
    } else {
        None
    }
}

/// The view of an optional label.
pub open spec fn label_view(o: Option<&str>) -> Option<Seq<char>> {
    match o {
        Some(l) => Some(l@),
        None => None,
    }
}

/// The label for the first `n` words of `ws`, joined by one space.
pub open spec fn chunk_label(ws: Seq<Seq<char>>, n: int) -> Option<Seq<char>> {
    lookup(normalize(join(ws.take(n), " "@)))
}

/// A known category named at the start of `s`: the whole of `s`, else its
/// first three, two or one words, the longer phrase winning.
pub open spec fn match_prefix(s: Seq<char>) -> Option<Seq<char>> {
    let ws = words(s);
    if ws.len() == 0 {
        None
    } else if lookup(normalize(s)) is Some {
        lookup(normalize(s))
    } else if ws.len() >= 3 && chunk_label(ws, 3) is Some {
        chunk_label(ws, 3)
    } else if ws.len() >= 2 && chunk_label(ws, 2) is Some {
        chunk_label(ws, 2)
    } else {
        chunk_label(ws, 1)
    }
}

/// Normalizes `s` into a single lowercase alphanumeric token.
pub fn normalize_category_value(s: &Vec<char>) -> (r: Vec<char>)
    ensures
        r@ == normalize(s@),
{
    let mut r: Vec<char> = Vec::new();
    let mut i: usize = 0;
    assert(s@.take(0) =~= Seq::<char>::empty());
    while i < s.len()
        invariant
            i <= s.len(),
            r@ == normalize(s@.take(i as int)),
        decreases s.len() - i,
    {
        let c = s[i];
        assert(s@.take(i + 1).drop_last() =~= s@.take(i as int));
        assert(s@.take(i + 1).last() == c);
        if is_alphanumeric(c) {
            let low = char_to_lowercase(c);
            append_chars(&mut r, &low);
        } else {
            assert(r@ + Seq::<char>::empty() =~= r@);
        }
        i += 1;
    }
    assert(s@.take(s.len() as int) =~= s@);
    r
}

/// The label whose key is `norm`.
pub fn lookup_category(norm: &Vec<char>) -> (r: Option<&'static str>)
    ensures
        label_view(r) == lookup(norm@),
{
    if eq_str(norm, "coding") {
        Some("Coding")
    } else if eq_str(norm, "debugging") {
        Some("Debugging")
    } else if eq_str(norm, "codereview") {
        Some("CodeReview")
    } else if eq_str(norm, "testing") {
        Some("Testing")
    } else if eq_str(norm, "documentation") {
        Some("Documentation")
    } else if eq_str(norm, "design") {
        Some("Design")
    } else if eq_str(norm, "planning") {
        Some("Planning")
    } else if eq_str(norm, "meeting") {
        Some("Meeting")
    } else if eq_str(norm, "communication") {
        Some("Communication")
    } else if eq_str(norm, "research") {
        Some("Research")
    } else if eq_str(norm, "learning") {
        Some("Learning")
    } else if eq_str(norm, "devops") {
        Some("DevOps")
    } else if eq_str(norm, "database") {
        Some("Database")
    } else if eq_str(norm, "sales") {
        Some("Sales")
    } else if eq_str(norm, "admin") {
        Some("Admin")
    } else if eq_str(norm, "browsing") {
        Some("Browsing")
    } else if eq_str(norm, "idle") {
        Some("Idle")
    } else if eq_str(norm, "general") {
        Some("General")
    } else {
        None
    }
}

/// The first `n` entries of `ws`.
fn first_words(ws: &Vec<Vec<char>>, n: usize) -> (r: Vec<Vec<char>>)
    requires
        n <= ws.len(),
    ensures
        views(r@) == views(ws@).take(n as int),
{
    let mut r: Vec<Vec<char>> = Vec::new();
    let mut i: usize = 0;
    while i < n
        invariant
            i <= n <= ws.len(),
            views(r@) == views(ws@).take(i as int),
        decreases n - i,
    {
        let w = slice_chars(&ws[i], 0, ws[i].len());
        assert(ws@[i as int]@.subrange(0, ws@[i as int]@.len() as int) =~= ws@[i as int]@);
        let ghost r0 = r@;
        r.push(w);
        assert(views(r@) =~= views(r0).push(w@));
        assert(views(ws@).take(i + 1) =~= views(ws@).take(i as int).push(ws@[i as int]@));
        i += 1;
    }
    r
}

/// `chunk_label(ws, n)`.
fn chunk_label_exec(ws: &Vec<Vec<char>>, n: usize) -> (r: Option<&'static str>)
    requires
        n <= ws.len(),
    ensures
        label_view(r) == chunk_label(views(ws@), n as int),
{
    let head = first_words(ws, n);
    let sep = chars_of(" ");
    let joined = join_exec(&head, &sep);
    let norm = normalize_category_value(&joined);
    lookup_category(&norm)
}

/// Matches a known category at the start of `s`, preferring longer phrases
/// ("code review" over "code").
pub fn match_category_prefix(s: &Vec<char>) -> (r: Option<&'static str>)
    ensures
        label_view(r) == match_prefix(s@),
{
    let ws = split_whitespace(s);
    if ws.len() == 0 {
        return None;
    }
    let whole = normalize_category_value(s);
    let l = lookup_category(&whole);
    if l.is_some() {
        return l;
    }
    if ws.len() >= 3 {
        let l3 = chunk_label_exec(&ws, 3);
        if l3.is_some() {
            return l3;
        }
    }
    if ws.len() >= 2 {
        let l2 = chunk_label_exec(&ws, 2);
        if l2.is_some() {
            return l2;
        }
    }
    chunk_label_exec(&ws, 1)
}

// ---------------------------------------------------------------------------
// Inference from content
// ---------------------------------------------------------------------------

/// The category inferred from keywords in the lowercased model output.
pub open spec fn infer(lower: Seq<char>) -> Seq<char> {
    if contains(lower, "debugger"@) || contains(lower, "breakpoint"@) {
        "Debugging"@
    } else if contains(lower, "pull request"@) || contains(lower, "reviewing code"@) || contains(
        lower,
        "code review"@,
    ) {
        "CodeReview"@
    } else if contains(lower, "running tests"@) || contains(lower, "test results"@) || contains(
        lower,
        "test suite"@,
    ) {
        "Testing"@
    } else if contains(lower, "microsoft excel"@) || contains(lower, "google sheets"@) || contains(
        lower,
        "libreoffice calc"@,
    ) || contains(lower, "spreadsheet"@) || contains(lower, ".xlsx"@) || contains(lower, ".xls"@) {
        "Admin"@
    } else if contains(lower, "writing code"@) || contains(lower, "visual studio code"@)
        || contains(lower, "vs code"@) || contains(lower, "vscode"@) || contains(lower, "intellij"@)
        || contains(lower, "pycharm"@) || contains(lower, "webstorm"@) || contains(lower, "rider"@)
        || contains(lower, "xcode"@) || contains(lower, "android studio"@) || contains(
        lower,
        "neovim"@,
    ) {
        "Coding"@
    } else if contains(lower, "writing docs"@) || contains(lower, "readme"@) {
        "Documentation"@
    } else if contains(lower, "figma"@) || contains(lower, "sketch"@) || contains(
        lower,
        "design tool"@,
    ) {
        "Design"@
    } else if contains(lower, "jira"@) || contains(lower, "trello"@) || contains(lower, "backlog"@) {
        "Planning"@
    } else if contains(lower, "zoom"@) || contains(lower, "google meet"@) || contains(
        lower,
        "teams meeting"@,
    ) {
        "Meeting"@
    } else if contains(lower, "slack"@) || contains(lower, "discord"@) || contains(lower, "email"@) {
        "Communication"@
    } else if contains(lower, "stackoverflow"@) || contains(lower, "searching"@) || contains(
        lower,
        "google search"@,
    ) {
        "Research"@
    } else if contains(lower, "tutorial"@) || contains(lower, "course"@) || contains(
        lower,
        "learning"@,
    ) {
        "Learning"@
    } else if contains(lower, "docker"@) || contains(lower, "kubernetes"@) || contains(
        lower,
        "pipeline"@,
    ) || contains(lower, "ci/cd"@) {
        "DevOps"@
    } else if contains(lower, "sql"@) || contains(lower, "database"@) || contains(
        lower,
        "supabase"@,
    ) {
        "Database"@
    } else if contains(lower, "crm"@) || contains(lower, "hubspot"@) {
        "Sales"@
    } else if contains(lower, "settings"@) || contains(lower, "configuration"@) {
        "Admin"@
    } else if contains(lower, "browser"@) || contains(lower, "chrome"@) || contains(
        lower,
        "firefox"@,
    ) || contains(lower, "linkedin"@) || contains(lower, "github.com"@) {
        "Browsing"@
    } else if contains(lower, "idle"@) || contains(lower, "no activity"@) || contains(
        lower,
        "lock screen"@,
    ) {
        "Idle"@
    } else {
        "General"@
    }
}

/// Fallback: infers the category from keywords in the lowercased content.
pub fn infer_category_from_content(lower: &Vec<char>) -> (r: &'static str)
    ensures
        r@ == infer(lower@),
{
    if contains_str(lower, "debugger") || contains_str(lower, "breakpoint") {
        "Debugging"
    } else if contains_str(lower, "pull request") || contains_str(lower, "reviewing code")
        || contains_str(lower, "code review") {
        "CodeReview"
    } else if contains_str(lower, "running tests") || contains_str(lower, "test results")
        || contains_str(lower, "test suite") {
        "Testing"
    } else if contains_str(lower, "microsoft excel") || contains_str(lower, "google sheets")
        || contains_str(lower, "libreoffice calc") || contains_str(lower, "spreadsheet")
        || contains_str(lower, ".xlsx") || contains_str(lower, ".xls") {
        // Spreadsheets are often miscategorized as "Coding" when the prompt mentions a generic "editor".
        "Admin"
    } else if contains_str(lower, "writing code") || contains_str(lower, "visual studio code")
        || contains_str(lower, "vs code") || contains_str(lower, "vscode") || contains_str(
        lower,
        "intellij",
    ) || contains_str(lower, "pycharm") || contains_str(lower, "webstorm") || contains_str(
        lower,
        "rider",
    ) || contains_str(lower, "xcode") || contains_str(lower, "android studio") || contains_str(
        lower,
        "neovim",
    ) {
        "Coding"
    } else if contains_str(lower, "writing docs") || contains_str(lower, "readme") {
        "Documentation"
    } else if contains_str(lower, "figma") || contains_str(lower, "sketch") || contains_str(
        lower,
        "design tool",
    ) {
        "Design"
    } else if contains_str(lower, "jira") || contains_str(lower, "trello") || contains_str(
        lower,
        "backlog",
    ) {
        "Planning"
    } else if contains_str(lower, "zoom") || contains_str(lower, "google meet") || contains_str(
        lower,
        "teams meeting",
    ) {
        "Meeting"
    } else if contains_str(lower, "slack") || contains_str(lower, "discord") || contains_str(
        lower,
        "email",
    ) {
        "Communication"
    } else if contains_str(lower, "stackoverflow") || contains_str(lower, "searching")
        || contains_str(lower, "google search") {
        "Research"
    } else if contains_str(lower, "tutorial") || contains_str(lower, "course") || contains_str(
        lower,
        "learning",
    ) {
        "Learning"
    } else if contains_str(lower, "docker") || contains_str(lower, "kubernetes") || contains_str(
        lower,
        "pipeline",
    ) || contains_str(lower, "ci/cd") {
        "DevOps"
    } else if contains_str(lower, "sql") || contains_str(lower, "database") || contains_str(
        lower,
        "supabase",
    ) {
        "Database"
    } else if contains_str(lower, "crm") || contains_str(lower, "hubspot") {
        "Sales"
    } else if contains_str(lower, "settings") || contains_str(lower, "configuration") {
        "Admin"
    } else if contains_str(lower, "browser") || contains_str(lower, "chrome") || contains_str(
        lower,
        "firefox",
    ) || contains_str(lower, "linkedin") || contains_str(lower, "github.com") {
        "Browsing"
    } else if contains_str(lower, "idle") || contains_str(lower, "no activity") || contains_str(
        lower,
        "lock screen",
    ) {
        "Idle"
    } else {
        "General"
    }
}


// ---------------------------------------------------------------------------
// The explicit `CATEGORY:` field
// ---------------------------------------------------------------------------

/// The letters of the field name `category`.
pub open spec fn category_key() -> Seq<char> {
    seq!['c', 'a', 't', 'e', 'g', 'o', 'r', 'y']
}

/// Whether a `category` token whose next non-white-space character is `:`
/// starts at index `k` of `s`.
pub open spec fn is_field_at(s: Seq<char>, k: int) -> bool {
    &&& matches_at(s, k, category_key())
    &&& trim_start(s.skip(k + 8)).len() > 0
    &&& trim_start(s.skip(k + 8))[0] == ':'
}

/// The leftmost field position at or after `from`.
pub open spec fn first_field_from(s: Seq<char>, from: int) -> Option<int>
    decreases s.len() - from,
{
    if from < 0 || from + 8 > s.len() {
        None
    } else if is_field_at(s, from) {
        Some(from)
    } else {
        first_field_from(s, from + 1)
    }
}

/// The leftmost field position of `s`.
pub open spec fn first_field(s: Seq<char>) -> Option<int> {
    first_field_from(s, 0)
}

/// The rightmost field position below `end`.
pub open spec fn last_field_before(s: Seq<char>, end: int) -> Option<int>
    decreases end,
{
    if end <= 0 {
        None
    } else if is_field_at(s, end - 1) {
        Some(end - 1)
    } else {
        last_field_before(s, end - 1)
    }
}

/// What follows the colon of the field at `k`, leading white space removed.
pub open spec fn field_value(s: Seq<char>, k: int) -> Seq<char> {
    trim_start(trim_start(s.skip(k + 8)).drop_first())
}

/// The category named by the last `CATEGORY:` field of the lowercased text:
/// the first line of its value, trimmed, matched against the known labels.
pub open spec fn extract_category(lower: Seq<char>) -> Option<Seq<char>> {
    match last_field_before(lower, lower.len() as int) {
        None => None,
        Some(k) => {
            let after = field_value(lower, k);
            if after.len() == 0 {
                None
            } else {
                let first = trim(lines(after)[0]);
                if first.len() == 0 {
                    None
                } else {
                    match_prefix(first)
                }
            }
        }
    }
}

fn category_key_exec() -> (k: Vec<char>)
    ensures
        k@ == category_key(),
{
    let k = chars_of("category");
    proof {
        reveal_strlit("category");
    }
    assert(k@ =~= category_key());
    k
}

/// Where the first non-white-space character after the `category` token at
/// `k` stands, and whether a field starts there.
fn field_colon_at(s: &Vec<char>, k: usize, key: &Vec<char>) -> (r: Option<usize>)
    requires
        key@ == category_key(),
    ensures
        r is Some == is_field_at(s@, k as int),
        r matches Some(c) ==> k + 8 <= c < s.len() && s@[c as int] == ':' && trim_start(
            s@.skip(k + 8),
        ) == s@.skip(c as int),
{
    if !matches_at_exec(s, k, key) {
        return None;
    }
    assert(key@.len() == 8);
    assert(matches_at(s@, k as int, key@));
    let n = s.len();
    assert(k + 8 <= n);
    let c = skip_ws_from(s, k + 8);
    proof {
        lemma_trim_start_from(s@, k + 8, c as int);
    }
    if c < s.len() && s[c] == ':' {
        Some(c)
    } else {
        None
    }
}

/// The character index of the first `category` token followed by `:`.
pub fn find_category_field_index(lower: &Vec<char>) -> (r: Option<usize>)
    ensures
        r matches Some(k) ==> k + 8 <= lower.len(),
        match r {
            Some(k) => first_field(lower@) == Some(k as int),
            None => first_field(lower@) is None,
        },
{
    let key = category_key_exec();
    let mut k: usize = 0;
    while k <= lower.len() && lower.len() - k >= 8
        invariant
            key@ == category_key(),
            first_field(lower@) == first_field_from(lower@, k as int),
        decreases lower.len() - k,
    {
        if field_colon_at(lower, k, &key).is_some() {
            return Some(k);
        }
        k += 1;
    }
    None
}

/// The rightmost field position of `lower` with the index of its colon.
fn find_last_category_field(lower: &Vec<char>) -> (r: Option<(usize, usize)>)
    ensures
        match r {
            Some((k, c)) => {
                &&& last_field_before(lower@, lower.len() as int) == Some(k as int)
                &&& k + 8 <= c < lower.len()
                &&& lower@[c as int] == ':'
                &&& trim_start(lower@.skip(k + 8)) == lower@.skip(c as int)
            },
            None => last_field_before(lower@, lower.len() as int) is None,
        },
{
    let key = category_key_exec();
    let mut end: usize = lower.len();
    while end > 0
        invariant
            key@ == category_key(),
            end <= lower.len(),
            last_field_before(lower@, lower.len() as int) == last_field_before(lower@, end as int),
        decreases end,
    {
        if let Some(colon) = field_colon_at(lower, end - 1, &key) {
            return Some((end - 1, colon));
        }
        end -= 1;
    }
    None
}

/// Extracts the category from the last explicit `CATEGORY:` field of the
/// lowercased model output.
pub fn extract_category_from_field(lower: &Vec<char>) -> (r: Option<&'static str>)
    ensures
        label_view(r) == extract_category(lower@),
{
    let (k, colon) = match find_last_category_field(lower) {
        None => {
            return None;
        },
        Some(p) => p,
    };
    let ghost rest = trim_start(lower@.skip(k + 8));
    assert(rest.drop_first() =~= lower@.skip(colon + 1));
    let a = skip_ws_from(lower, colon + 1);
    proof {
        lemma_trim_start_from(lower@, colon + 1, a as int);
    }
    if a == lower.len() {
        return None;
    }
    let j = find_newline(lower, a);
    proof {
        lemma_lines_step(lower@, a as int, j as int);
    }
    let line = if j < lower.len() {
        line_chars(lower, a, j)
    } else {
        assert(lower@.subrange(a as int, j as int) =~= lower@.skip(a as int));
        slice_chars(lower, a, j)
    };
    let first = trim_vec(&line);
    if first.len() == 0 {
        return None;
    }
    match_category_prefix(&first)
}

// ---------------------------------------------------------------------------
// Removing the field from a line
// ---------------------------------------------------------------------------

/// How many words the category value after a field colon spans: the longest
/// of three, two or one leading words that names a label.
pub open spec fn best_n(ws: Seq<Seq<char>>) -> nat {
    if ws.len() >= 3 && chunk_label(ws, 3) is Some {
        3
    } else if ws.len() >= 2 && chunk_label(ws, 2) is Some {
        2
    } else {
        1
    }
}

/// How many characters of the field value `ac` are dropped: the known label
/// if there is one, else the first word, else nothing.
pub open spec fn skip_count(ac: Seq<char>) -> nat {
    if match_prefix(ac) is Some {
        word_end(ac, best_n(words(ac)))
    } else if words(ac).len() > 0 {
        word_end(ac, 1)
    } else {
        0
    }
}

/// `before` and `rest` joined by one space, either side dropped when empty.
pub open spec fn glue(before: Seq<char>, rest: Seq<char>) -> Seq<char> {
    if before.len() == 0 {
        rest
    } else if rest.len() == 0 {
        before
    } else {
        before + seq![' '] + rest
    }
}

/// One round of field removal on `cur`: `Some(None)` when no field is left
/// (or no colon follows the slice), `Some(Some(next))` with the shortened
/// text, and `None` where slicing `cur` at the byte offsets found in its
/// lowercase form would not fall on character boundaries.
pub open spec fn field_step(cur: Seq<char>) -> Option<Option<Seq<char>>> {
    let lower = lowercase(cur);
    match first_field(lower) {
        None => Some(None),
        Some(k) => {
            let b: int = byte_len(lower.take(k)) as int;
            match char_at_byte(cur, b) {
                None => None,
                Some(jb) => match char_at_byte(cur, b + 8) {
                    None => None,
                    Some(ja) => {
                        let trimmed = trim_start(cur.skip(ja as int));
                        if trimmed.len() > 0 && trimmed[0] == ':' {
                            let ac = trim_start(trimmed.drop_first());
                            let sk = if skip_count(ac) < ac.len() {
                                skip_count(ac)
                            } else {
                                ac.len()
                            };
                            let rest = trim_start(ac.skip(sk as int));
                            Some(Some(glue(trim_end(cur.take(jb as int)), rest)))
                        } else {
                            Some(None)
                        }
                    },
                },
            }
        },
    }
}

pub proof fn lemma_field_step_shrinks(cur: Seq<char>)
    ensures
        field_step(cur) matches Some(Some(next)) ==> next.len() < cur.len(),
{
    let lower = lowercase(cur);
    if let Some(k) = first_field(lower) {
        let b: int = byte_len(lower.take(k)) as int;
        if char_at_byte(cur, b) is Some && char_at_byte(cur, b + 8) is Some {
            let jb = char_at_byte(cur, b)->0;
            let ja = char_at_byte(cur, b + 8)->0;
            lemma_char_at_byte_order(cur, b, b + 8);
            lemma_char_at_byte_sound(cur, b);
            lemma_char_at_byte_sound(cur, b + 8);
            let trimmed = trim_start(cur.skip(ja as int));
            lemma_trim_start_len(cur.skip(ja as int));
            if trimmed.len() > 0 && trimmed[0] == ':' {
                let ac = trim_start(trimmed.drop_first());
                lemma_trim_start_len(trimmed.drop_first());
                let sk = if skip_count(ac) < ac.len() {
                    skip_count(ac)
                } else {
                    ac.len()
                };
                lemma_trim_start_len(ac.skip(sk as int));
                lemma_trim_end_len(cur.take(jb as int));
            }
        }
    }
}

/// `cur` with every `CATEGORY: <value>` field removed, `None` where the
/// byte offsets taken from the lowercase text do not fall on character
/// boundaries of `cur`.
pub open spec fn without_category_field(cur: Seq<char>) -> Option<Seq<char>>
    decreases cur.len(),
{
    match field_step(cur) {
        None => None,
        Some(None) => Some(cur),
        Some(Some(next)) => {
            proof {
                lemma_field_step_shrinks(cur);
            }
            without_category_field(next)
        },
    }
}

/// `skip_count(ac)`.
fn skip_count_exec(ac: &Vec<char>) -> (n: usize)
    ensures
        n == skip_count(ac@),
{
    if match_category_prefix(ac).is_some() {
        let ws = split_whitespace(ac);
        let mut n: usize = 1;
        if ws.len() >= 3 && chunk_label_exec(&ws, 3).is_some() {
            n = 3;
        } else if ws.len() >= 2 && chunk_label_exec(&ws, 2).is_some() {
            n = 2;
        }
        end_of_nth_word(ac, n)
    } else {
        let ws = split_whitespace(ac);
        if ws.len() > 0 {
            end_of_nth_word(ac, 1)
        } else {
            0
        }
    }
}

/// `glue(before, rest)`.
fn glue_exec(before: Vec<char>, rest: Vec<char>) -> (r: Vec<char>)
    ensures
        r@ == glue(before@, rest@),
{
    if before.len() == 0 {
        rest
    } else if rest.len() == 0 {
        before
    } else {
        let mut r = before;
        r.push(' ');
        append_chars(&mut r, &rest);
        r
    }
}

/// Drops `CATEGORY: <value>` (a known label, or the next word if unknown)
/// from a line; `None` where the byte offsets found in the lowercased line do
/// not fall on character boundaries of the line itself.
pub fn remove_category_field(line: &Vec<char>) -> (r: Option<Vec<char>>)
    ensures
        match r {
            Some(v) => without_category_field(line@) == Some(v@),
            None => without_category_field(line@) is None,
        },
{
    let mut current = slice_chars(line, 0, line.len());
    assert(line@.subrange(0, line@.len() as int) =~= line@);
    loop
        invariant
            without_category_field(line@) == without_category_field(current@),
        decreases current.len(),
    {
        let lower = to_lowercase(&current);
        let found = find_category_field_index(&lower);
        let k = match found {
            None => {
                return Some(current);
            },
            Some(k) => k,
        };
        let b = byte_len_prefix(&lower, k);
        let jb = match char_index_at_byte(&current, b) {
            Some(j) => j,
            None => {
                return None;
            },
        };
        let ja = match char_index_at_byte(&current, b + 8) {
            Some(j) => j,
            None => {
                return None;
            },
        };
        proof {
            lemma_char_at_byte_sound(current@, b as int);
            lemma_char_at_byte_sound(current@, b + 8);
            lemma_field_step_shrinks(current@);
        }
        let head = slice_chars(&current, 0, jb);
        assert(current@.subrange(0, jb as int) =~= current@.take(jb as int));
        let before = trim_end_vec(&head);
        let t0 = skip_ws_from(&current, ja);
        proof {
            lemma_trim_start_from(current@, ja as int, t0 as int);
        }
        if t0 < current.len() && current[t0] == ':' {
            let a0 = skip_ws_from(&current, t0 + 1);
            proof {
                assert(current@.skip(t0 as int).drop_first() =~= current@.skip(t0 + 1));
                lemma_trim_start_from(current@, t0 + 1, a0 as int);
            }
            let ac = slice_chars(&current, a0, current.len());
            assert(ac@ =~= current@.skip(a0 as int));
            let sk0 = skip_count_exec(&ac);
            let sk = if sk0 < ac.len() {
                sk0
            } else {
                ac.len()
            };
            let r0 = skip_ws_from(&ac, sk);
            proof {
                lemma_trim_start_from(ac@, sk as int, r0 as int);
            }
            let rest = slice_chars(&ac, r0, ac.len());
            assert(rest@ =~= ac@.skip(r0 as int));
            let next = glue_exec(before, rest);
            current = next;
        } else {
            return Some(current);
        }
    }
}

// ---------------------------------------------------------------------------
// The structured description
// ---------------------------------------------------------------------------

/// `s` without the markdown markers `####`, `###`, `##`, `**`, then trimmed.
pub open spec fn markdown_stripped(s: Seq<char>) -> Seq<char> {
    trim(remove_all(remove_all(remove_all(remove_all(s, "####"@), "###"@), "##"@), "**"@))
}

/// Removes markdown heading and bold markers and trims.
pub fn strip_markdown(s: &Vec<char>) -> (r: Vec<char>)
    ensures
        r@ == markdown_stripped(s@),
{
    let a = remove_all_exec(s, &chars_of("####"));
    let b = remove_all_exec(&a, &chars_of("###"));
    let c = remove_all_exec(&b, &chars_of("##"));
    let d = remove_all_exec(&c, &chars_of("**"));
    trim_vec(&d)
}

/// Whether a cleaned line is boilerplate (`APP:` or `WINDOW TITLE:`), kept
/// only when nothing else is left.
pub open spec fn is_boilerplate(clean: Seq<char>) -> bool {
    starts_with(uppercase(clean), "APP:"@) || starts_with(
        uppercase(clean),
        "WINDOW TITLE:"@,
    )
}

/// What one line contributes: `Some(None)` nothing, `Some(Some((boilerplate,
/// clean)))` a cleaned line, `None` where field removal would panic.
pub open spec fn line_outcome(line: Seq<char>) -> Option<Option<(bool, Seq<char>)>> {
    let t = trim(line);
    if t.len() == 0 {
        Some(None)
    } else {
        match without_category_field(t) {
            None => None,
            Some(w) => {
                let clean = markdown_stripped(w);
                if clean.len() == 0 {
                    Some(None)
                } else {
                    Some(Some((is_boilerplate(clean), clean)))
                }
            },
        }
    }
}

/// `p` and `b` put in front of the parts of `o`.
pub open spec fn add_parts(
    p: Seq<Seq<char>>,
    b: Seq<Seq<char>>,
    o: Option<(Seq<Seq<char>>, Seq<Seq<char>>)>,
) -> Option<(Seq<Seq<char>>, Seq<Seq<char>>)> {
    match o {
        None => None,
        Some((p2, b2)) => Some((p + p2, b + b2)),
    }
}

/// The cleaned lines of `ls`, split into content and boilerplate.
pub open spec fn sorted_lines(ls: Seq<Seq<char>>) -> Option<(Seq<Seq<char>>, Seq<Seq<char>>)>
    decreases ls.len(),
{
    if ls.len() == 0 {
        Some((seq![], seq![]))
    } else {
        match line_outcome(ls[0]) {
            None => None,
            Some(None) => sorted_lines(ls.drop_first()),
            Some(Some((bp, clean))) => if bp {
                add_parts(seq![], seq![clean], sorted_lines(ls.drop_first()))
            } else {
                add_parts(seq![clean], seq![], sorted_lines(ls.drop_first()))
            },
        }
    }
}

/// The structured description of the model output: its cleaned content lines
/// joined by newlines, else its boilerplate lines, else
/// "No analysis available"; `None` where field removal would panic.
pub open spec fn structured_description(raw: Seq<char>) -> Option<Seq<char>> {
    match sorted_lines(lines(raw)) {
        None => None,
        Some((p, b)) => Some(
            if p.len() > 0 {
                join(p, "\n"@)
            } else if b.len() > 0 {
                join(b, "\n"@)
            } else {
                "No analysis available"@
            },
        ),
    }
}

/// Builds the structured description of `raw`.
pub fn build_structured_description(raw: &Vec<char>) -> (r: Option<Vec<char>>)
    ensures
        match r {
            Some(d) => structured_description(raw@) == Some(d@),
            None => structured_description(raw@) is None,
        },
{
    let mut parts: Vec<Vec<char>> = Vec::new();
    let mut boilerplate: Vec<Vec<char>> = Vec::new();
    let mut pos: usize = 0;
    assert(raw@.skip(0) =~= raw@);
    assert(views(parts@) + Seq::<Seq<char>>::empty() =~= views(parts@));
    while pos < raw.len()
        invariant
            pos <= raw.len(),
            sorted_lines(lines(raw@)) == add_parts(
                views(parts@),
                views(boilerplate@),
                sorted_lines(lines(raw@.skip(pos as int))),
            ),
        decreases raw.len() - pos,
    {
        let j = find_newline(raw, pos);
        proof {
            lemma_lines_step(raw@, pos as int, j as int);
        }
        let line = if j < raw.len() {
            line_chars(raw, pos, j)
        } else {
            assert(raw@.subrange(pos as int, j as int) =~= raw@.skip(pos as int));
            slice_chars(raw, pos, j)
        };
        let next: usize = if j < raw.len() {
            j + 1
        } else {
            j
        };
        let ghost ls = lines(raw@.skip(pos as int));
        let ghost tail = lines(raw@.skip(next as int));
        assert(raw@.skip(raw.len() as int) =~= Seq::<char>::empty());
        assert(ls =~= seq![line@] + tail);
        assert(ls[0] == line@);
        assert(ls.drop_first() =~= tail);
        let t = trim_vec(&line);
        if t.len() > 0 {
            let w = match remove_category_field(&t) {
                Some(w) => w,
                None => {
                    return None;
                },
            };
            let clean = strip_markdown(&w);
            if clean.len() > 0 {
                let up = to_uppercase(&clean);
                let ghost p0 = views(parts@);
                let ghost b0 = views(boilerplate@);
                if starts_with_str(&up, "APP:") || starts_with_str(&up, "WINDOW TITLE:") {
                    boilerplate.push(clean);
                    proof {
                        assert(views(boilerplate@) =~= b0 + seq![clean@]);
                        if let Some((p2, b2)) = sorted_lines(tail) {
                            assert(p0 + (Seq::<Seq<char>>::empty() + p2) =~= views(parts@) + p2);
                            assert(b0 + (seq![clean@] + b2) =~= views(boilerplate@) + b2);
                        }
                    }
                } else {
                    parts.push(clean);
                    proof {
                        assert(views(parts@) =~= p0 + seq![clean@]);
                        if let Some((p2, b2)) = sorted_lines(tail) {
                            assert(p0 + (seq![clean@] + p2) =~= views(parts@) + p2);
                            assert(b0 + (Seq::<Seq<char>>::empty() + b2) =~= views(boilerplate@)
                                + b2);
                        }
                    }
                }
            }
        }
        pos = next;
    }
    assert(raw@.skip(pos as int) =~= Seq::<char>::empty());
    assert(views(parts@) + Seq::<Seq<char>>::empty() =~= views(parts@));
    assert(views(boilerplate@) + Seq::<Seq<char>>::empty() =~= views(boilerplate@));
    let nl = chars_of("\n");
    if parts.len() > 0 {
        Some(join_exec(&parts, &nl))
    } else if boilerplate.len() > 0 {
        Some(join_exec(&boilerplate, &nl))
    } else {
        Some(chars_of("No analysis available"))
    }
}

// ---------------------------------------------------------------------------
// The full pipeline
// ---------------------------------------------------------------------------

/// The category that is persisted for `category`: the trimmed text, or
/// "General" when nothing is left.
pub open spec fn persisted_category(category: Seq<char>) -> Seq<char> {
    if trim(category).len() == 0 {
        "General"@
    } else {
        trim(category)
    }
}

/// The category of a model output: the explicit `CATEGORY:` field when it
/// names a known label, else the keyword inference, never blank.
pub open spec fn analysis_category(raw: Seq<char>) -> Seq<char> {
    let lower = lowercase(raw);
    persisted_category(
        match extract_category(lower) {
            Some(c) => c,
            None => infer(lower),
        },
    )
}

/// SQLite / emit gate: never persist a blank category.
pub fn resolve_persisted_category(category: &str) -> (r: String)
    ensures
        r@ == persisted_category(category@),
{
    let chars = chars_of(category);
    let t = trim_vec(&chars);
    if t.len() == 0 {
        "General".to_owned()
    } else {
        string_from_chars(&t)
    }
}

/// The resolved category label of a model output.
fn category_of(chars: &Vec<char>) -> (r: String)
    ensures
        r@ == analysis_category(chars@),
{
    let lower = to_lowercase(chars);
    let label = match extract_category_from_field(&lower) {
        Some(l) => l,
        None => infer_category_from_content(&lower),
    };
    resolve_persisted_category(label)
}

/// Full pipeline: structured description + resolved category label.
/// The category is never empty or white space: an unknown or missing one
/// becomes "General".
pub fn parse_analysis(raw: &str) -> (r: (String, String))
    requires
        structured_description(raw@) is Some,
    ensures
        structured_description(raw@) == Some(r.0@),
        r.1@ == analysis_category(raw@),
{
    let chars = chars_of(raw);
    let category = category_of(&chars);
    match build_structured_description(&chars) {
        Some(d) => (string_from_chars(&d), category),
        None => {
            assert(false);
            (String::new(), category)
        },
    }
}

/// Full pipeline, or `None` on the inputs where removing the category field
/// would slice the text off a character boundary. The description is built
/// once to test for those inputs, and `parse_analysis` runs only past that
/// test.
pub fn try_parse_analysis(raw: &str) -> (r: Option<(String, String)>)
    ensures
        match r {
            Some((d, c)) => structured_description(raw@) == Some(d@) && c@ == analysis_category(
                raw@,
            ),
            None => structured_description(raw@) is None,
        },
{
    let chars = chars_of(raw);
    match build_structured_description(&chars) {
        Some(_) => Some(parse_analysis(raw)),
        None => None,
    }
}


// ---------------------------------------------------------------------------
// Laws
// ---------------------------------------------------------------------------

/// Whether `l` is one of the labels listed in `ALLOWED_CATEGORIES`.
pub open spec fn is_allowed_label(l: Seq<char>) -> bool {
    ||| l == "Coding"@
    ||| l == "Debugging"@
    ||| l == "CodeReview"@
    ||| l == "Testing"@
    ||| l == "Documentation"@
    ||| l == "Design"@
    ||| l == "Planning"@
    ||| l == "Meeting"@
    ||| l == "Communication"@
    ||| l == "Research"@
    ||| l == "Learning"@
    ||| l == "DevOps"@
    ||| l == "Database"@
    ||| l == "Sales"@
    ||| l == "Admin"@
    ||| l == "Browsing"@
    ||| l == "Idle"@
    ||| l == "General"@
}

/// Every label is non-blank and is persisted unchanged.
pub proof fn lemma_allowed_label_persists(l: Seq<char>)
    requires
        is_allowed_label(l),
    ensures
        l.len() > 0,
        trim(l) == l,
        persisted_category(l) == l,
{
    reveal_strlit("Coding");
    reveal_strlit("Debugging");
    reveal_strlit("CodeReview");
    reveal_strlit("Testing");
    reveal_strlit("Documentation");
    reveal_strlit("Design");
    reveal_strlit("Planning");
    reveal_strlit("Meeting");
    reveal_strlit("Communication");
    reveal_strlit("Research");
    reveal_strlit("Learning");
    reveal_strlit("DevOps");
    reveal_strlit("Database");
    reveal_strlit("Sales");
    reveal_strlit("Admin");
    reveal_strlit("Browsing");
    reveal_strlit("Idle");
    reveal_strlit("General");
    lemma_trim_noop(l);
}

/// A matched category phrase is always one of the allowed labels.
pub proof fn lemma_match_prefix_allowed(s: Seq<char>)
    ensures
        match_prefix(s) matches Some(l) ==> is_allowed_label(l),
{
}

/// The explicit field only ever yields allowed labels.
pub proof fn lemma_extract_allowed(lower: Seq<char>)
    ensures
        extract_category(lower) matches Some(l) ==> is_allowed_label(l),
{
    if let Some(k) = last_field_before(lower, lower.len() as int) {
        let after = field_value(lower, k);
        if after.len() > 0 {
            lemma_match_prefix_allowed(trim(lines(after)[0]));
        }
    }
}

/// The category of every model output is one of the labels offered in
/// `ALLOWED_CATEGORIES`; in particular it is never empty or white space.
pub proof fn lemma_category_is_allowed(raw: Seq<char>)
    ensures
        is_allowed_label(analysis_category(raw)),
        analysis_category(raw).len() > 0,
        trim(analysis_category(raw)) == analysis_category(raw),
{
    let lower = lowercase(raw);
    lemma_extract_allowed(lower);
    let c = match extract_category(lower) {
        Some(c) => c,
        None => infer(lower),
    };
    lemma_allowed_label_persists(c);
}

/// An explicit `CATEGORY:` field naming a known label decides the category;
/// only without one is the category inferred from the content.
pub proof fn lemma_explicit_field_wins(raw: Seq<char>)
    ensures
        extract_category(lowercase(raw)) matches Some(l) ==> analysis_category(raw) == l,
        extract_category(lowercase(raw)) is None ==> analysis_category(raw) == infer(
            lowercase(raw),
        ),
{
    let lower = lowercase(raw);
    lemma_extract_allowed(lower);
    let c = match extract_category(lower) {
        Some(c) => c,
        None => infer(lower),
    };
    lemma_allowed_label_persists(c);
}

/// Resolving a category twice gives what resolving it once gives, and the
/// result is never blank: "General" stands for a blank category.
pub proof fn lemma_persisted_category_idempotent(c: Seq<char>)
    ensures
        persisted_category(persisted_category(c)) == persisted_category(c),
        persisted_category(c).len() > 0,
        persisted_category(c) == "General"@ <==> (trim(c).len() == 0 || trim(c) == "General"@),
{
    lemma_trim_idempotent(c);
    lemma_allowed_label_persists("General"@);
    reveal_strlit("General");
}

/// Every line kept by `sorted_lines` is non-empty.
pub proof fn lemma_sorted_lines_non_empty(ls: Seq<Seq<char>>)
    ensures
        sorted_lines(ls) matches Some((p, b)) ==> (forall|i: int|
            0 <= i < p.len() ==> #[trigger] p[i].len() > 0) && (forall|i: int|
            0 <= i < b.len() ==> #[trigger] b[i].len() > 0),
    decreases ls.len(),
{
    if ls.len() > 0 {
        lemma_sorted_lines_non_empty(ls.drop_first());
        if let Some((p, b)) = sorted_lines(ls) {
            if let Some(Some((bp, clean))) = line_outcome(ls[0]) {
                let (p2, b2) = sorted_lines(ls.drop_first())->0;
                if bp {
                    assert forall|i: int| 0 <= i < b.len() implies #[trigger] b[i].len() > 0 by {
                        if i > 0 {
                            assert(b[i] == b2[i - 1]);
                        }
                    }
                } else {
                    assert forall|i: int| 0 <= i < p.len() implies #[trigger] p[i].len() > 0 by {
                        if i > 0 {
                            assert(p[i] == p2[i - 1]);
                        }
                    }
                }
            }
        }
    }
}

proof fn lemma_join_non_empty(ls: Seq<Seq<char>>, sep: Seq<char>)
    requires
        ls.len() > 0,
        ls.last().len() > 0,
    ensures
        join(ls, sep).len() > 0,
{
}

/// The description of a model output is never empty: without any content
/// line it reads "No analysis available".
pub proof fn lemma_description_non_empty(raw: Seq<char>)
    ensures
        structured_description(raw) matches Some(d) ==> d.len() > 0,
{
    reveal_strlit("No analysis available");
    lemma_sorted_lines_non_empty(lines(raw));
    if let Some((p, b)) = sorted_lines(lines(raw)) {
        if p.len() > 0 {
            assert(p.last().len() > 0);
            lemma_join_non_empty(p, "\n"@);
        } else if b.len() > 0 {
            assert(b.last().len() > 0);
            lemma_join_non_empty(b, "\n"@);
        }
    }
}

// ---------------------------------------------------------------------------
// ASCII text
// ---------------------------------------------------------------------------

proof fn lemma_ascii_subrange(s: Seq<char>, lo: int, hi: int)
    requires
        is_ascii(s),
        0 <= lo <= hi <= s.len(),
    ensures
        is_ascii(s.subrange(lo, hi)),
{
    assert forall|i: int| 0 <= i < hi - lo implies (#[trigger] s.subrange(lo, hi)[i] as u32)
        < 128 by {
        assert(s.subrange(lo, hi)[i] == s[lo + i]);
    }
}

proof fn lemma_ascii_char_cases(c: char)
    requires
        (c as u32) < 128,
    ensures
        (ascii_lower_char(c) as u32) < 128,
        (ascii_upper_char(c) as u32) < 128,
        ascii_lower_char(ascii_upper_char(c)) == ascii_lower_char(c),
        ascii_lower_char(ascii_lower_char(c)) == ascii_lower_char(c),
        is_ascii_alnum(ascii_upper_char(c)) == is_ascii_alnum(c),
        is_ascii_alnum(ascii_lower_char(c)) == is_ascii_alnum(c),
        !('A' <= ascii_lower_char(c) && ascii_lower_char(c) <= 'Z'),
        is_ascii_alnum(c) ==> !is_ws(c),
{
}

proof fn lemma_ascii_lower(s: Seq<char>)
    requires
        is_ascii(s),
    ensures
        is_ascii(ascii_lower(s)),
        is_ascii(ascii_upper(s)),
        ascii_lower(s).len() == s.len(),
        ascii_lower(ascii_upper(s)) == ascii_lower(s),
        ascii_lower(ascii_lower(s)) == ascii_lower(s),
{
    assert forall|i: int| 0 <= i < s.len() implies (#[trigger] ascii_lower(s)[i] as u32) < 128
        && (ascii_upper(s)[i] as u32) < 128 && ascii_lower(ascii_upper(s))[i] == ascii_lower(s)[i]
        && ascii_lower(ascii_lower(s))[i] == ascii_lower(s)[i] by {
        lemma_ascii_char_cases(s[i]);
    }
    assert(ascii_lower(ascii_upper(s)) =~= ascii_lower(s));
    assert(ascii_lower(ascii_lower(s)) =~= ascii_lower(s));
}

proof fn lemma_ascii_trim_start(s: Seq<char>)
    requires
        is_ascii(s),
    ensures
        is_ascii(trim_start(s)),
    decreases s.len(),
{
    if s.len() > 0 && is_ws(s[0]) {
        lemma_ascii_subrange(s, 1, s.len() as int);
        assert(s.drop_first() =~= s.subrange(1, s.len() as int));
        lemma_ascii_trim_start(s.drop_first());
    }
}

proof fn lemma_ascii_trim_end(s: Seq<char>)
    requires
        is_ascii(s),
    ensures
        is_ascii(trim_end(s)),
    decreases s.len(),
{
    if s.len() > 0 && is_ws(s.last()) {
        lemma_ascii_subrange(s, 0, s.len() - 1);
        assert(s.drop_last() =~= s.subrange(0, s.len() - 1));
        lemma_ascii_trim_end(s.drop_last());
    }
}

proof fn lemma_ascii_byte_len(s: Seq<char>)
    requires
        is_ascii(s),
    ensures
        byte_len(s) == s.len(),
    decreases s.len(),
{
    if s.len() > 0 {
        assert((s[0] as u32) < 128);
        lemma_ascii_subrange(s, 1, s.len() as int);
        assert(s.drop_first() =~= s.subrange(1, s.len() as int));
        lemma_ascii_byte_len(s.drop_first());
    }
}

proof fn lemma_ascii_char_at_byte(s: Seq<char>, b: int)
    requires
        is_ascii(s),
        0 <= b <= s.len(),
    ensures
        char_at_byte(s, b) == Some(b as nat),
    decreases s.len(),
{
    if b > 0 {
        assert((s[0] as u32) < 128);
        lemma_ascii_subrange(s, 1, s.len() as int);
        assert(s.drop_first() =~= s.subrange(1, s.len() as int));
        lemma_ascii_char_at_byte(s.drop_first(), b - 1);
    }
}

proof fn lemma_first_field_from_bound(s: Seq<char>, from: int)
    ensures
        first_field_from(s, from) matches Some(k) ==> from <= k && k + 8 <= s.len(),
    decreases s.len() - from,
{
    if !(from < 0 || from + 8 > s.len()) && !is_field_at(s, from) {
        lemma_first_field_from_bound(s, from + 1);
    }
}

proof fn lemma_ascii_glue(a: Seq<char>, b: Seq<char>)
    requires
        is_ascii(a),
        is_ascii(b),
    ensures
        is_ascii(glue(a, b)),
{
    if a.len() > 0 && b.len() > 0 {
        let g = a + seq![' '] + b;
        assert forall|i: int| 0 <= i < g.len() implies (#[trigger] g[i] as u32) < 128 by {
            if i < a.len() {
                assert(g[i] == a[i]);
            } else if i == a.len() {
                assert(g[i] == ' ');
            } else {
                assert(g[i] == b[i - a.len() - 1]);
            }
        }
    }
}

proof fn lemma_ascii_field_step(cur: Seq<char>)
    requires
        is_ascii(cur),
    ensures
        field_step(cur) is Some,
        field_step(cur) matches Some(Some(n)) ==> is_ascii(n),
{
    let lower = lowercase(cur);
    lemma_ascii_lower(cur);
    assert(lower == ascii_lower(cur));
    lemma_first_field_from_bound(lower, 0);
    if let Some(k) = first_field(lower) {
        let n = cur.len() as int;
        lemma_ascii_subrange(lower, 0, k);
        assert(lower.take(k) =~= lower.subrange(0, k));
        lemma_ascii_byte_len(lower.take(k));
        lemma_ascii_char_at_byte(cur, k);
        lemma_ascii_char_at_byte(cur, k + 8);
        lemma_ascii_subrange(cur, k + 8, n);
        assert(cur.skip(k + 8) =~= cur.subrange(k + 8, n));
        let trimmed = trim_start(cur.skip(k + 8));
        lemma_ascii_trim_start(cur.skip(k + 8));
        if trimmed.len() > 0 && trimmed[0] == ':' {
            lemma_ascii_subrange(trimmed, 1, trimmed.len() as int);
            assert(trimmed.drop_first() =~= trimmed.subrange(1, trimmed.len() as int));
            let ac = trim_start(trimmed.drop_first());
            lemma_ascii_trim_start(trimmed.drop_first());
            let sk: int = if skip_count(ac) < ac.len() {
                skip_count(ac) as int
            } else {
                ac.len() as int
            };
            lemma_ascii_subrange(ac, sk, ac.len() as int);
            assert(ac.skip(sk) =~= ac.subrange(sk, ac.len() as int));
            lemma_ascii_trim_start(ac.skip(sk));
            lemma_ascii_subrange(cur, 0, k);
            assert(cur.take(k) =~= cur.subrange(0, k));
            lemma_ascii_trim_end(cur.take(k));
            lemma_ascii_glue(trim_end(cur.take(k)), trim_start(ac.skip(sk)));
        }
    }
}

proof fn lemma_ascii_without(cur: Seq<char>)
    requires
        is_ascii(cur),
    ensures
        without_category_field(cur) is Some,
    decreases cur.len(),
{
    lemma_ascii_field_step(cur);
    if let Some(Some(next)) = field_step(cur) {
        lemma_field_step_shrinks(cur);
        lemma_ascii_without(next);
    }
}

proof fn lemma_ascii_sorted_lines(ls: Seq<Seq<char>>)
    requires
        forall|i: int| 0 <= i < ls.len() ==> is_ascii(#[trigger] ls[i]),
    ensures
        sorted_lines(ls) is Some,
    decreases ls.len(),
{
    if ls.len() > 0 {
        lemma_ascii_trim_start(ls[0]);
        lemma_ascii_trim_end(trim_start(ls[0]));
        lemma_ascii_without(trim(ls[0]));
        assert forall|i: int| 0 <= i < ls.len() - 1 implies is_ascii(#[trigger] ls.drop_first()[i]) by {
            assert(ls.drop_first()[i] == ls[i + 1]);
        }
        lemma_ascii_sorted_lines(ls.drop_first());
    }
}

proof fn lemma_line_len_bound(s: Seq<char>)
    ensures
        line_len(s) <= s.len(),
    decreases s.len(),
{
    if s.len() > 0 && s[0] != '\n' {
        lemma_line_len_bound(s.drop_first());
    }
}

proof fn lemma_ascii_lines(s: Seq<char>)
    requires
        is_ascii(s),
    ensures
        forall|i: int| 0 <= i < lines(s).len() ==> is_ascii(#[trigger] lines(s)[i]),
    decreases s.len(),
{
    if s.len() > 0 {
        lemma_line_len_bound(s);
        let ll = line_len(s) as int;
        if ll < s.len() {
            lemma_ascii_subrange(s, 0, ll);
            assert(s.take(ll) =~= s.subrange(0, ll));
            let first = strip_cr(s.take(ll));
            if ll > 0 && s.take(ll).last() == '\r' {
                lemma_ascii_subrange(s.take(ll), 0, ll - 1);
                assert(s.take(ll).drop_last() =~= s.take(ll).subrange(0, ll - 1));
            }
            lemma_ascii_subrange(s, ll + 1, s.len() as int);
            assert(s.skip(ll + 1) =~= s.subrange(ll + 1, s.len() as int));
            lemma_ascii_lines(s.skip(ll + 1));
            let rest = lines(s.skip(ll + 1));
            assert(lines(s) == seq![first] + rest);
            assert forall|i: int| 0 <= i < lines(s).len() implies is_ascii(#[trigger] lines(s)[i]) by {
                if i > 0 {
                    assert(lines(s)[i] == rest[i - 1]);
                }
            }
        }
    }
}

/// Every ASCII text has a structured description: removing category fields
/// never slices an ASCII text off a character boundary.
pub proof fn lemma_ascii_text_parses(raw: Seq<char>)
    requires
        is_ascii(raw),
    ensures
        structured_description(raw) is Some,
{
    lemma_ascii_lines(raw);
    lemma_ascii_sorted_lines(lines(raw));
}

/// On ASCII text the category does not depend on letter case: the text, its
/// ASCII uppercase and its ASCII lowercase get the same category.
pub proof fn lemma_category_ignores_ascii_case(raw: Seq<char>)
    requires
        is_ascii(raw),
    ensures
        analysis_category(ascii_upper(raw)) == analysis_category(raw),
        analysis_category(ascii_lower(raw)) == analysis_category(raw),
{
    lemma_ascii_lower(raw);
    assert(lowercase(ascii_upper(raw)) == lowercase(raw));
    assert(lowercase(ascii_lower(raw)) == lowercase(raw));
}

// ---------------------------------------------------------------------------
// Laws on label matching and keyword inference
// ---------------------------------------------------------------------------

/// Label matching ignores letter case: on ASCII text, the matching key of
/// the text, of its ASCII uppercase and of its ASCII lowercase are the same,
/// and the key holds only ASCII letters and digits, no uppercase letter.
pub proof fn lemma_normalize_ignores_ascii_case(s: Seq<char>)
    requires
        is_ascii(s),
    ensures
        normalize(ascii_upper(s)) == normalize(s),
        normalize(ascii_lower(s)) == normalize(s),
        forall|i: int|
            0 <= i < normalize(s).len() ==> is_ascii_alnum(#[trigger] normalize(s)[i]) && !(
            'A' <= normalize(s)[i] && normalize(s)[i] <= 'Z'),
    decreases s.len(),
{
    if s.len() > 0 {
        let t = s.drop_last();
        let c = s.last();
        lemma_ascii_subrange(s, 0, s.len() - 1);
        assert(t =~= s.subrange(0, s.len() - 1));
        lemma_normalize_ignores_ascii_case(t);
        lemma_ascii_char_cases(c);
        assert(ascii_upper(s).drop_last() =~= ascii_upper(t));
        assert(ascii_lower(s).drop_last() =~= ascii_lower(t));
        assert(ascii_upper(s).last() == ascii_upper_char(c));
        assert(ascii_lower(s).last() == ascii_lower_char(c));
        let a = normalize(t);
        let tail = if alphanumeric(c) {
            char_lowercase(c)
        } else {
            seq![]
        };
        assert(normalize(s) == a + tail);
        assert forall|i: int| 0 <= i < normalize(s).len() implies is_ascii_alnum(
            #[trigger] normalize(s)[i],
        ) && !('A' <= normalize(s)[i] && normalize(s)[i] <= 'Z') by {
            if i < a.len() {
                assert(normalize(s)[i] == a[i]);
            } else {
                assert(normalize(s)[i] == ascii_lower_char(c));
            }
        }
    }
}

proof fn lemma_normalize_alnum(s: Seq<char>)
    requires
        forall|i: int| 0 <= i < s.len() ==> is_ascii_alnum(#[trigger] s[i]),
    ensures
        normalize(s) == ascii_lower(s),
    decreases s.len(),
{
    if s.len() > 0 {
        let t = s.drop_last();
        assert forall|i: int| 0 <= i < t.len() implies is_ascii_alnum(#[trigger] t[i]) by {
            assert(t[i] == s[i]);
        }
        lemma_normalize_alnum(t);
        assert(is_ascii_alnum(s.last()));
        assert(ascii_lower(t) + seq![ascii_lower_char(s.last())] =~= ascii_lower(s));
    }
}

proof fn lemma_label_key(l: Seq<char>, key: Seq<char>)
    requires
        l.len() == key.len(),
        l.len() > 0,
        forall|i: int|
            0 <= i < l.len() ==> is_ascii_alnum(#[trigger] l[i]) && ascii_lower_char(l[i])
                == key[i],
    ensures
        normalize(l) == key,
        is_ascii(l),
        words(l).len() > 0,
        words(ascii_lower(l)).len() > 0,
{
    lemma_normalize_alnum(l);
    assert(ascii_lower(l) =~= key);
    assert forall|i: int| 0 <= i < l.len() implies (#[trigger] l[i] as u32) < 128 by {
        assert(is_ascii_alnum(l[i]));
    }
    lemma_ascii_char_cases(l[0]);
    assert(!is_ws(l[0]));
    assert(!is_ws(ascii_lower(l)[0]));
}

/// Every label offered in `ALLOWED_CATEGORIES` is recognised as itself: its
/// matching key, and that of its ASCII uppercase or lowercase, looks up that
/// very label, and a field value that is the label in any letter case names it.
pub proof fn lemma_allowed_labels_resolve(l: Seq<char>)
    requires
        is_allowed_label(l),
    ensures
        lookup(normalize(l)) == Some(l),
        lookup(normalize(ascii_upper(l))) == Some(l),
        lookup(normalize(ascii_lower(l))) == Some(l),
        match_prefix(l) == Some(l),
        match_prefix(ascii_lower(l)) == Some(l),
{
    reveal_strlit("coding");
    reveal_strlit("debugging");
    reveal_strlit("codereview");
    reveal_strlit("testing");
    reveal_strlit("documentation");
    reveal_strlit("design");
    reveal_strlit("planning");
    reveal_strlit("meeting");
    reveal_strlit("communication");
    reveal_strlit("research");
    reveal_strlit("learning");
    reveal_strlit("devops");
    reveal_strlit("database");
    reveal_strlit("sales");
    reveal_strlit("admin");
    reveal_strlit("browsing");
    reveal_strlit("idle");
    reveal_strlit("general");
    if l == "Coding"@ {
        reveal_strlit("Coding");
        lemma_label_key(l, "coding"@);
        assert(lookup(normalize(l)) == Some(l));
    } else if l == "Debugging"@ {
        reveal_strlit("Debugging");
        lemma_label_key(l, "debugging"@);
        assert(lookup(normalize(l)) == Some(l));
    } else if l == "CodeReview"@ {
        reveal_strlit("CodeReview");
        lemma_label_key(l, "codereview"@);
        assert(lookup(normalize(l)) == Some(l));
    } else if l == "Testing"@ {
        reveal_strlit("Testing");
        lemma_label_key(l, "testing"@);
        assert(lookup(normalize(l)) == Some(l));
    } else if l == "Documentation"@ {
        reveal_strlit("Documentation");
        lemma_label_key(l, "documentation"@);
        assert(lookup(normalize(l)) == Some(l));
    } else if l == "Design"@ {
        reveal_strlit("Design");
        lemma_label_key(l, "design"@);
        assert("design"@[0] != "coding"@[0]);
        assert(lookup(normalize(l)) == Some(l));
    } else if l == "Planning"@ {
        reveal_strlit("Planning");
        lemma_label_key(l, "planning"@);
        assert(lookup(normalize(l)) == Some(l));
    } else if l == "Meeting"@ {
        reveal_strlit("Meeting");
        lemma_label_key(l, "meeting"@);
        assert("meeting"@[0] != "testing"@[0]);
        assert(lookup(normalize(l)) == Some(l));
    } else if l == "Communication"@ {
        reveal_strlit("Communication");
        lemma_label_key(l, "communication"@);
        assert("communication"@[0] != "documentation"@[0]);
        assert(lookup(normalize(l)) == Some(l));
    } else if l == "Research"@ {
        reveal_strlit("Research");
        lemma_label_key(l, "research"@);
        assert("research"@[0] != "planning"@[0]);
        assert(lookup(normalize(l)) == Some(l));
    } else if l == "Learning"@ {
        reveal_strlit("Learning");
        lemma_label_key(l, "learning"@);
        assert("learning"@[0] != "planning"@[0]);
        assert("learning"@[0] != "research"@[0]);
        assert(lookup(normalize(l)) == Some(l));
    } else if l == "DevOps"@ {
        reveal_strlit("DevOps");
        lemma_label_key(l, "devops"@);
        assert("devops"@[0] != "coding"@[0]);
        assert("devops"@[2] != "design"@[2]);
        assert(lookup(normalize(l)) == Some(l));
    } else if l == "Database"@ {
        reveal_strlit("Database");
        lemma_label_key(l, "database"@);
        assert("database"@[0] != "planning"@[0]);
        assert("database"@[0] != "research"@[0]);
        assert("database"@[0] != "learning"@[0]);
        assert(lookup(normalize(l)) == Some(l));
    } else if l == "Sales"@ {
        reveal_strlit("Sales");
        lemma_label_key(l, "sales"@);
        assert(lookup(normalize(l)) == Some(l));
    } else if l == "Admin"@ {
        reveal_strlit("Admin");
        lemma_label_key(l, "admin"@);
        assert("admin"@[0] != "sales"@[0]);
        assert(lookup(normalize(l)) == Some(l));
    } else if l == "Browsing"@ {
        reveal_strlit("Browsing");
        lemma_label_key(l, "browsing"@);
        assert("browsing"@[0] != "planning"@[0]);
        assert("browsing"@[0] != "research"@[0]);
        assert("browsing"@[0] != "learning"@[0]);
        assert("browsing"@[0] != "database"@[0]);
        assert(lookup(normalize(l)) == Some(l));
    } else if l == "Idle"@ {
        reveal_strlit("Idle");
        lemma_label_key(l, "idle"@);
        assert(lookup(normalize(l)) == Some(l));
    } else {
        reveal_strlit("General");
        lemma_label_key(l, "general"@);
        assert("general"@[0] != "testing"@[0]);
        assert("general"@[0] != "meeting"@[0]);
        assert(lookup(normalize(l)) == Some(l));
    }
    lemma_normalize_ignores_ascii_case(l);
}

/// Without an explicit field naming a label, a text that mentions a debugger
/// or a breakpoint is Debugging, whatever other keywords it holds.
pub proof fn lemma_debugger_means_debugging(raw: Seq<char>)
    ensures
        contains(lowercase(raw), "debugger"@) || contains(lowercase(raw), "breakpoint"@) ==> infer(
            lowercase(raw),
        ) == "Debugging"@,
        (contains(lowercase(raw), "debugger"@) || contains(lowercase(raw), "breakpoint"@))
            && extract_category(lowercase(raw)) is None ==> analysis_category(raw)
            == "Debugging"@,
{
    lemma_allowed_label_persists("Debugging"@);
}

} // verus!
