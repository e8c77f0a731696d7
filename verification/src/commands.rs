//! The decisions behind the song-project commands: which names and metadata
//! are accepted, how a model's reply is unwrapped, which generated payloads
//! may be previewed or committed, and which audio files may be read.
use vstd::prelude::*;
use crate::biomechanics::{
    chart_issues, issue_views, make_issue, push_issue, payload_notes, structure_error, validate_chart, GeminiChartSectionPayload,
    IssueView, PlayMode, ValidatedChartSection, ValidationIssue, ValidationIssueType,
    ValidationSeverity,
};
use crate::gemini::{has_extension, name_extension, path_extension, simple_path, GeminiWriteMode};
use crate::corpus::{hex_encode, hex_text, sha256_digest_of, sha256_of_bytes};
use crate::text::{
    ascii_upper, chars_are, chars_of, decimal, ends_with, ends_with_chars, first_index_of,
    find_seq, is_ascii_seq, lemma_first_index, lemma_first_index_none, push_all, push_decimal,
    push_str, result_view, slice_chars, string_from_chars, trim, trim_chars, unit_result_view,
    uppercase_chars, uppercase_of, contains_seq, contains_chars, lowercase_chars, lowercase_of,
    join_with, string_views, push_joined, starts_with, ascii_lower, digit_char,
    lemma_trim_idempotent, lemma_trim_slice, lemma_contains_slice, lemma_trim_ends, is_ws, is_first_occurrence, occurs_at,
};

verus! {

// ---------------------------------------------------------------------------
// Metadata fields and folder names
// ---------------------------------------------------------------------------

/// A character of the Unicode general category `Cc` (`char::is_control`).
pub open spec fn is_control_char(c: char) -> bool {
    (c as u32) <= 0x1F || (0x7F <= (c as u32) && (c as u32) <= 0x9F)
}

pub fn is_control(c: char) -> (b: bool)
    ensures
        b == is_control_char(c),
{
    let u = c as u32;
    u <= 0x1F || (0x7F <= u && u <= 0x9F)
}

pub open spec fn has_control_char(s: Seq<char>) -> bool {
    exists|i: int| 0 <= i < s.len() && is_control_char(#[trigger] s[i])
}

fn any_control(s: &[char]) -> (b: bool)
    ensures
        b == has_control_char(s@),
{
    let mut i: usize = 0;
    while i < s.len()
        invariant
            i <= s@.len(),
            forall|j: int| 0 <= j < i ==> !is_control_char(#[trigger] s@[j]),
        decreases s@.len() - i,
    {
        if is_control(s[i]) {
            return true;
        }
        i = i + 1;
    }
    false
}

fn contains_char(s: &[char], c: char) -> (b: bool)
    ensures
        b == s@.contains(c),
{
    crate::text::has_char(s, c)
}

/// Why a metadata value cannot go into an SSC tag, if it cannot.
pub open spec fn metadata_field_error(value: Seq<char>, field: Seq<char>) -> Option<Seq<char>> {
    if value.contains(';') {
        Some("Field '"@ + field + "' cannot contain semicolons (';')."@)
    } else if value.contains('\n') || value.contains('\r') {
        Some("Field '"@ + field + "' cannot contain newlines."@)
    } else if has_control_char(value) {
        Some("Field '"@ + field + "' cannot contain control characters."@)
    } else {
        None
    }
}

/// Refuses a metadata value holding a semicolon, a line break or another
/// control character, naming the field.
pub fn validate_metadata_field(value: &str, field_name: &str) -> (r: Result<(), String>)
    ensures
        match r {
            Ok(()) => metadata_field_error(value@, field_name@) is None,
            Err(e) => metadata_field_error(value@, field_name@) == Some(e@),
        },
{
    let v = chars_of(value);
    let msg_tail: &str;
    if contains_char(v.as_slice(), ';') {
        msg_tail = "' cannot contain semicolons (';').";
    } else if contains_char(v.as_slice(), '\n') || contains_char(v.as_slice(), '\r') {
        msg_tail = "' cannot contain newlines.";
    } else if any_control(v.as_slice()) {
        msg_tail = "' cannot contain control characters.";
    } else {
        return Ok(());
    }
    let mut m: Vec<char> = Vec::new();
    push_str(&mut m, "Field '");
    push_str(&mut m, field_name);
    push_str(&mut m, msg_tail);
    Err(string_from_chars(m.as_slice()))
}

/// A character that Windows forbids in a folder name.
pub open spec fn is_prohibited_folder_char(c: char) -> bool {
    c == '<' || c == '>' || c == ':' || c == '"' || c == '/' || c == '\\' || c == '|' || c == '?'
        || c == '*'
}

pub open spec fn has_prohibited_folder_char(s: Seq<char>) -> bool {
    exists|i: int| 0 <= i < s.len() && is_prohibited_folder_char(#[trigger] s[i])
}

fn any_prohibited_folder_char(s: &[char]) -> (b: bool)
    ensures
        b == has_prohibited_folder_char(s@),
{
    let mut i: usize = 0;
    while i < s.len()
        invariant
            i <= s@.len(),
            forall|j: int| 0 <= j < i ==> !is_prohibited_folder_char(#[trigger] s@[j]),
        decreases s@.len() - i,
    {
        let c = s[i];
        if c == '<' || c == '>' || c == ':' || c == '"' || c == '/' || c == '\\' || c == '|' || c
            == '?' || c == '*' {
            return true;
        }
        i = i + 1;
    }
    false
}

/// Device names that Windows reserves.
pub open spec fn windows_reserved_names() -> Seq<Seq<char>> {
    seq![
        "CON"@, "PRN"@, "AUX"@, "NUL"@, "COM1"@, "COM2"@, "COM3"@, "COM4"@, "COM5"@, "COM6"@,
        "COM7"@, "COM8"@, "COM9"@, "LPT1"@, "LPT2"@, "LPT3"@, "LPT4"@, "LPT5"@, "LPT6"@, "LPT7"@,
        "LPT8"@, "LPT9"@,
    ]
}

fn is_reserved_name(upper: &[char]) -> (b: bool)
    ensures
        b == windows_reserved_names().contains(upper@),
{
    let names: [&str; 22] = [
        "CON", "PRN", "AUX", "NUL", "COM1", "COM2", "COM3", "COM4", "COM5", "COM6", "COM7",
        "COM8", "COM9", "LPT1", "LPT2", "LPT3", "LPT4", "LPT5", "LPT6", "LPT7", "LPT8", "LPT9",
    ];
    let ghost want = windows_reserved_names();
    assert(names@.map_values(|n: &str| n@) =~= want);
    let mut i: usize = 0;
    while i < 22
        invariant
            i <= 22,
            names@.map_values(|n: &str| n@) == want,
            want == windows_reserved_names(),
            want.len() == 22,
            forall|j: int| 0 <= j < i ==> want[j] != upper@,
        decreases 22 - i,
    {
        assert(want[i as int] == names@[i as int]@);
        if chars_are(upper, names[i]) {
            assert(want[i as int] == upper@);
            return true;
        }
        i = i + 1;
    }
    false
}

pub open spec fn msg_prohibited_folder_chars() -> Seq<char> {
    "Folder name contains invalid characters: < > : \" / \\ | ? *"@
}

/// The checks on a trimmed folder name after those on its characters: its
/// upper-case form must not be a reserved device name, and it must not end
/// with a dot or a space.
pub open spec fn folder_name_tail_check(trimmed: Seq<char>, upper: Seq<char>) -> Result<
    Seq<char>,
    Seq<char>,
> {
    if windows_reserved_names().contains(upper) {
        Err("Folder name '"@ + trimmed + "' is a Windows reserved name."@)
    } else if ends_with(trimmed, "."@) || ends_with(trimmed, " "@) {
        Err("Folder name cannot end with a dot or space."@)
    } else {
        Ok(trimmed)
    }
}

/// What the folder-name rules give for an already trimmed name whose
/// upper-case form is `upper`.
pub open spec fn folder_name_check(trimmed: Seq<char>, upper: Seq<char>) -> Result<
    Seq<char>,
    Seq<char>,
> {
    if trimmed.len() == 0 {
        Err("Folder name cannot be empty."@)
    } else if has_prohibited_folder_char(trimmed) {
        Err(msg_prohibited_folder_chars())
    } else if has_control_char(trimmed) {
        Err("Folder name contains control characters."@)
    } else {
        folder_name_tail_check(trimmed, upper)
    }
}

/// The reserved-name and trailing-character checks, given the name's
/// upper-case form.
pub fn check_folder_name_tail(trimmed: &[char], upper: &[char]) -> (r: Result<String, String>)
    ensures
        result_view(r) == folder_name_tail_check(trimmed@, upper@),
{
    if is_reserved_name(upper) {
        let mut m: Vec<char> = Vec::new();
        push_str(&mut m, "Folder name '");
        push_all(&mut m, trimmed);
        push_str(&mut m, "' is a Windows reserved name.");
        return Err(string_from_chars(m.as_slice()));
    }
    if ends_with_chars(trimmed, chars_of(".").as_slice()) || ends_with_chars(
        trimmed,
        chars_of(" ").as_slice(),
    ) {
        return Err(String::from_str("Folder name cannot end with a dot or space."));
    }
    Ok(string_from_chars(trimmed))
}

/// Checks a folder name against the Windows rules and returns it trimmed:
/// not empty, none of `< > : " / \ | ? *`, no control characters, not a
/// reserved device name in any case, no trailing dot or space.
pub fn validate_folder_name_rules(name: &str) -> (r: Result<String, String>)
    ensures
        result_view(r) == folder_name_check(trim(name@), uppercase_of(trim(name@))),
        is_ascii_seq(trim(name@)) ==> result_view(r) == folder_name_check(
            trim(name@),
            ascii_upper(trim(name@)),
        ),
{
    let cs = chars_of(name);
    let trimmed = trim_chars(cs.as_slice());
    if trimmed.len() == 0 {
        return Err(String::from_str("Folder name cannot be empty."));
    }
    if any_prohibited_folder_char(trimmed.as_slice()) {
        return Err(
            String::from_str("Folder name contains invalid characters: < > : \" / \\ | ? *"),
        );
    }
    if any_control(trimmed.as_slice()) {
        return Err(String::from_str("Folder name contains control characters."));
    }
    let upper = uppercase_chars(trimmed.as_slice());
    check_folder_name_tail(trimmed.as_slice(), upper.as_slice())
}

// ---------------------------------------------------------------------------
// Replies of the model
// ---------------------------------------------------------------------------

/// The text between a fence opening at `i` (of length `open_len`) and the
/// next fence, trimmed; `None` when no fence closes it.
pub open spec fn fenced_body(t: Seq<char>, i: int, open_len: int) -> Option<Seq<char>> {
    let after = t.subrange(i + open_len, t.len() as int);
    let j = first_index_of(after, "```"@);
    if j >= 0 {
        Some(trim(after.subrange(0, j)))
    } else {
        None
    }
}

/// The JSON of a model reply: the body of a ```` ```json ```` fence (or of
/// the first plain fence when there is none), trimmed; otherwise the whole
/// reply, trimmed.
pub open spec fn sanitized_payload(raw: Seq<char>) -> Seq<char> {
    let t = trim(raw);
    let i = first_index_of(t, "```json"@);
    let k = first_index_of(t, "```"@);
    if i >= 0 {
        match fenced_body(t, i, 7) {
            Some(b) => b,
            None => t,
        }
    } else if k >= 0 {
        match fenced_body(t, k, 3) {
            Some(b) => b,
            None => t,
        }
    } else {
        t
    }
}

fn fenced_body_exec(t: &[char], i: usize, open_len: usize) -> (r: Option<Vec<char>>)
    requires
        i + open_len <= t@.len(),
    ensures
        match r {
            Some(b) => fenced_body(t@, i as int, open_len as int) == Some(b@),
            None => fenced_body(t@, i as int, open_len as int) is None,
        },
{
    let n = t.len();
    let after = slice_chars(t, i + open_len, n);
    let fence = chars_of("```");
    match find_seq(after.as_slice(), fence.as_slice()) {
        Some(j) => {
            proof {
                lemma_first_index(after@, fence@, j as int);
            }
            let head = slice_chars(after.as_slice(), 0, j);
            Some(trim_chars(head.as_slice()))
        },
        None => {
            proof {
                lemma_first_index_none(after@, fence@);
            }
            None
        },
    }
}

proof fn lemma_fenced_body_clean(t: Seq<char>, i: int, open_len: int)
    requires
        0 <= i,
        3 <= open_len,
        i + open_len <= t.len(),
        fenced_body(t, i, open_len) is Some,
    ensures
        !contains_seq(fenced_body(t, i, open_len)->0, "```"@),
        trim(fenced_body(t, i, open_len)->0) == fenced_body(t, i, open_len)->0,
        fenced_body(t, i, open_len)->0.len() + 6 <= t.len(),
{
    reveal_strlit("```");
    let p = "```"@;
    let after = t.subrange(i + open_len, t.len() as int);
    let j = first_index_of(after, p);
    assert(is_first_occurrence(after, p, j));
    let pre = after.subrange(0, j);
    if contains_seq(pre, p) {
        let k = choose|k: int| occurs_at(pre, p, k);
        assert(after.subrange(k, k + 3) =~= pre.subrange(k, k + 3));
        assert(occurs_at(after, p, k));
    }
    lemma_trim_slice(pre);
    let (a, b) = choose|a: int, b: int| 0 <= a <= b <= pre.len() && pre.subrange(a, b) == trim(pre);
    if contains_seq(trim(pre), p) {
        lemma_contains_slice(pre, a, b, p);
    }
    lemma_trim_idempotent(pre);
}

proof fn lemma_unfenced_stays(b: Seq<char>)
    requires
        !contains_seq(b, "```"@),
        trim(b) == b,
    ensures
        sanitized_payload(b) == b,
{
    reveal_strlit("```");
    reveal_strlit("```json");
    if contains_seq(b, "```json"@) {
        let i = choose|i: int| occurs_at(b, "```json"@, i);
        assert(b.subrange(i, i + 3) =~= "```json"@.subrange(0, 3));
        assert("```json"@.subrange(0, 3) =~= "```"@);
        assert(occurs_at(b, "```"@, i));
    }
    lemma_first_index_none(b, "```json"@);
    lemma_first_index_none(b, "```"@);
}

/// Unwrapping a reply twice is unwrapping it once; and when the reply came
/// inside a fence, the JSON holds no fence and is at least six characters
/// shorter than the trimmed reply.
pub proof fn lemma_sanitized_payload_stable(raw: Seq<char>)
    ensures
        sanitized_payload(sanitized_payload(raw)) == sanitized_payload(raw),
        sanitized_payload(raw) != trim(raw) ==> !contains_seq(sanitized_payload(raw), "```"@)
            && sanitized_payload(raw).len() + 6 <= trim(raw).len(),
{
    reveal_strlit("```");
    reveal_strlit("```json");
    let t = trim(raw);
    lemma_trim_idempotent(raw);
    let r = sanitized_payload(raw);
    let i = first_index_of(t, "```json"@);
    let k = first_index_of(t, "```"@);
    if r == t {
        assert(sanitized_payload(t) == sanitized_payload(raw));
    } else if i >= 0 {
        assert(is_first_occurrence(t, "```json"@, i));
        lemma_fenced_body_clean(t, i, 7);
        lemma_unfenced_stays(r);
    } else {
        assert(k >= 0);
        assert(is_first_occurrence(t, "```"@, k));
        lemma_fenced_body_clean(t, k, 3);
        lemma_unfenced_stays(r);
    }
}

/// Unwraps a model reply that may come inside a Markdown code fence.
pub fn sanitize_gemini_json_payload(raw: &str) -> (s: String)
    ensures
        s@ == sanitized_payload(raw@),
{
    let cs = chars_of(raw);
    let t = trim_chars(cs.as_slice());
    let json_fence = chars_of("```json");
    let fence = chars_of("```");
    proof {
        reveal_strlit("```json");
        reveal_strlit("```");
        assert(json_fence@.len() == 7);
        assert(fence@.len() == 3);
    }
    let body = match find_seq(t.as_slice(), json_fence.as_slice()) {
        Some(i) => {
            proof {
                lemma_first_index(t@, json_fence@, i as int);
            }
            fenced_body_exec(t.as_slice(), i, 7)
        },
        None => {
            proof {
                lemma_first_index_none(t@, json_fence@);
            }
            match find_seq(t.as_slice(), fence.as_slice()) {
                Some(k) => {
                    proof {
                        lemma_first_index(t@, fence@, k as int);
                    }
                    fenced_body_exec(t.as_slice(), k, 3)
                },
                None => {
                    proof {
                        lemma_first_index_none(t@, fence@);
                    }
                    None
                },
            }
        },
    };
    match body {
        Some(b) => string_from_chars(b.as_slice()),
        None => string_from_chars(t.as_slice()),
    }
}

/// Only `PreviewOnly` may be asked of the preview command.
pub fn validate_preview_write_mode(write_mode: &str) -> (r: Result<GeminiWriteMode, String>)
    ensures
        write_mode@ == "PreviewOnly"@ ==> r == Ok::<GeminiWriteMode, String>(
            GeminiWriteMode::PreviewOnly,
        ),
        write_mode@ != "PreviewOnly"@ ==> r is Err && r->Err_0@
            == "generate_gemini_chart_preview only supports 'PreviewOnly' write mode. Got: "@
            + write_mode@,
{
    let cs = chars_of(write_mode);
    if chars_are(cs.as_slice(), "PreviewOnly") {
        Ok(GeminiWriteMode::PreviewOnly)
    } else {
        let mut m: Vec<char> = Vec::new();
        push_str(&mut m, "generate_gemini_chart_preview only supports 'PreviewOnly' write mode. Got: ");
        push_all(&mut m, cs.as_slice());
        Err(string_from_chars(m.as_slice()))
    }
}


// ---------------------------------------------------------------------------
// Previews of generated sections
// ---------------------------------------------------------------------------

/// Where a section lies in a song, as a song analysis reports it.
#[derive(Debug, Clone)]
pub struct SectionBounds {
    pub section_id: String,
    pub start_measure: u32,
    pub end_measure: u32,
}

/// The index of the first section with the given id.
pub open spec fn find_section(sections: Seq<SectionBounds>, id: Seq<char>) -> Option<int>
    decreases sections.len(),
{
    if sections.len() == 0 {
        None
    } else {
        match find_section(sections.drop_last(), id) {
            Some(i) => Some(i),
            None => if sections.last().section_id@ == id {
                Some(sections.len() - 1)
            } else {
                None
            },
        }
    }
}

proof fn lemma_find_section_prefix(sections: Seq<SectionBounds>, id: Seq<char>, i: int)
    requires
        0 <= i <= sections.len(),
        forall|j: int| 0 <= j < i ==> (#[trigger] sections[j]).section_id@ != id,
    ensures
        find_section(sections.take(i), id) is None,
    decreases i,
{
    if i > 0 {
        assert(sections.take(i).drop_last() =~= sections.take(i - 1));
        lemma_find_section_prefix(sections, id, i - 1);
    }
}

proof fn lemma_find_section_found(sections: Seq<SectionBounds>, id: Seq<char>, i: int, k: int)
    requires
        0 <= i < k <= sections.len(),
        sections[i].section_id@ == id,
        forall|j: int| 0 <= j < i ==> (#[trigger] sections[j]).section_id@ != id,
    ensures
        find_section(sections.take(k), id) == Some(i),
    decreases k,
{
    assert(sections.take(k).drop_last() =~= sections.take(k - 1));
    if k == i + 1 {
        lemma_find_section_prefix(sections, id, i);
    } else {
        lemma_find_section_found(sections, id, i, k - 1);
    }
}

/// The index of the first section with the given id.
pub fn find_section_index(sections: &Vec<SectionBounds>, id: &str) -> (r: Option<usize>)
    ensures
        match r {
            Some(i) => find_section(sections@, id@) == Some(i as int) && i < sections@.len(),
            None => find_section(sections@, id@) is None,
        },
{
    let idc = chars_of(id);
    let mut i: usize = 0;
    while i < sections.len()
        invariant
            i <= sections@.len(),
            idc@ == id@,
            forall|j: int| 0 <= j < i ==> (#[trigger] sections@[j]).section_id@ != id@,
        decreases sections@.len() - i,
    {
        let sid = chars_of(sections[i].section_id.as_str());
        if crate::text::chars_equal(sid.as_slice(), idc.as_slice()) {
            proof {
                lemma_find_section_found(sections@, id@, i as int, sections@.len() as int);
                assert(sections@.take(sections@.len() as int) =~= sections@);
            }
            return Some(i);
        }
        i = i + 1;
    }
    proof {
        lemma_find_section_prefix(sections@, id@, sections@.len() as int);
        assert(sections@.take(sections@.len() as int) =~= sections@);
    }
    None
}

/// The measures a preview covers: those asked for, else the section's own
/// bounds, else 0 to 7; with their count. Refused when the end comes before
/// the start.
pub open spec fn preview_range(
    start: Option<u32>,
    end: Option<u32>,
    section: Option<SectionBounds>,
) -> Result<(u32, u32, u32), Seq<char>> {
    let s = match start {
        Some(v) => v,
        None => match section {
            Some(b) => b.start_measure,
            None => 0,
        },
    };
    let e = match end {
        Some(v) => v,
        None => match section {
            Some(b) => b.end_measure,
            None => 7,
        },
    };
    if e < s {
        Err(
            "El compás de fin ("@ + decimal(e as nat) + ") no puede ser menor que el compás de inicio ("@
                + decimal(s as nat) + ")"@,
        )
    } else if e - s + 1 > u32::MAX {
        Err("Measure range calculation overflowed"@)
    } else {
        Ok((s, e, (e - s + 1) as u32))
    }
}

pub open spec fn section_at(sections: Seq<SectionBounds>, id: Seq<char>) -> Option<SectionBounds> {
    match find_section(sections, id) {
        Some(i) => Some(sections[i]),
        None => None,
    }
}

/// The first and last measure of a preview and how many measures it spans.
pub fn resolve_preview_range(
    start_measure: Option<u32>,
    end_measure: Option<u32>,
    sections: &Vec<SectionBounds>,
    section_id: &str,
) -> (r: Result<(u32, u32, u32), String>)
    ensures
        match r {
            Ok(t) => preview_range(start_measure, end_measure, section_at(sections@, section_id@))
                == Ok::<(u32, u32, u32), Seq<char>>(t),
            Err(e) => preview_range(start_measure, end_measure, section_at(sections@, section_id@))
                == Err::<(u32, u32, u32), Seq<char>>(e@),
        },
{
    let found = find_section_index(sections, section_id);
    let s: u32 = match start_measure {
        Some(v) => v,
        None => match found {
            Some(i) => sections[i].start_measure,
            None => 0,
        },
    };
    let e: u32 = match end_measure {
        Some(v) => v,
        None => match found {
            Some(i) => sections[i].end_measure,
            None => 7,
        },
    };
    if e < s {
        let mut m: Vec<char> = Vec::new();
        push_str(&mut m, "El compás de fin (");
        push_decimal(&mut m, e as u128);
        push_str(&mut m, ") no puede ser menor que el compás de inicio (");
        push_decimal(&mut m, s as u128);
        push_str(&mut m, ")");
        return Err(string_from_chars(m.as_slice()));
    }
    let d = e - s;
    match d.checked_add(1) {
        Some(n) => Ok((s, e, n)),
        None => Err(String::from_str("Measure range calculation overflowed")),
    }
}

pub open spec fn play_mode_name(m: PlayMode) -> Seq<char> {
    match m {
        PlayMode::Single => "Single"@,
        PlayMode::Double => "Double"@,
    }
}

fn play_mode_name_exec(m: PlayMode) -> (s: &'static str)
    ensures
        s@ == play_mode_name(m),
{
    match m {
        PlayMode::Single => "Single",
        PlayMode::Double => "Double",
    }
}

pub open spec fn mismatch_issue(m: usize, message: Seq<char>) -> IssueView {
    make_issue(
        m,
        0,
        ValidationSeverity::Error,
        ValidationIssueType::InvalidGeminiStructure,
        message,
    )
}

/// One issue for each measure whose index is not `start` plus its position.
pub open spec fn measure_index_issues(ms: Seq<crate::biomechanics::GeminiMeasure>, start: u32) -> Seq<
    IssueView,
>
    decreases ms.len(),
{
    if ms.len() == 0 {
        Seq::empty()
    } else {
        let i = ms.len() - 1;
        let expected = start + i;
        let got = ms.last().measure_index;
        measure_index_issues(ms.drop_last(), start) + if got != expected {
            seq![
                mismatch_issue(
                    got as usize,
                    "La medida en la posición "@ + decimal(i as nat) + " tiene un índice de compás incorrecto ("@
                        + decimal(got as nat) + "). Se esperaba el índice absoluto "@ + decimal(
                        expected as nat,
                    ) + "."@,
                ),
            ]
        } else {
            Seq::empty()
        }
    }
}

/// The issues of a generated payload that does not answer the request: other
/// section, mode or level, another number of measures, or measures out of
/// sequence.
pub open spec fn preview_mismatch_issues(
    p: GeminiChartSectionPayload,
    section_id: Seq<char>,
    mode: PlayMode,
    level: u32,
    start: u32,
    end: u32,
    count: u32,
) -> Seq<IssueView> {
    request_mismatch_issues(p, section_id, mode, level, start, end, count) + measure_index_issues(
        p.measures@,
        start,
    )
}

/// The issues of a payload against the requested section, mode, level and
/// measure count (all but the measure sequence).
pub open spec fn request_mismatch_issues(
    p: GeminiChartSectionPayload,
    section_id: Seq<char>,
    mode: PlayMode,
    level: u32,
    start: u32,
    end: u32,
    count: u32,
) -> Seq<IssueView> {
    let a: Seq<IssueView> = if p.section_id@ != section_id {
        seq![
            mismatch_issue(
                0,
                "El ID de sección en la respuesta ("@ + p.section_id@ + ") no coincide con el solicitado ("@
                    + section_id + ")."@,
            ),
        ]
    } else {
        Seq::empty()
    };
    let b: Seq<IssueView> = if p.play_mode != mode {
        seq![
            mismatch_issue(
                0,
                "El modo de juego en la respuesta ("@ + play_mode_name(p.play_mode)
                    + ") no coincide con el solicitado ("@ + play_mode_name(mode) + ")."@,
            ),
        ]
    } else {
        Seq::empty()
    };
    let c: Seq<IssueView> = if p.difficulty_level != level {
        seq![
            mismatch_issue(
                0,
                "El nivel de dificultad en la respuesta ("@ + decimal(p.difficulty_level as nat)
                    + ") no coincide con el solicitado ("@ + decimal(level as nat) + ")."@,
            ),
        ]
    } else {
        Seq::empty()
    };
    let d: Seq<IssueView> = if p.measures@.len() != count {
        seq![
            mismatch_issue(
                0,
                "Gemini returned "@ + decimal(p.measures@.len()) + " measures, expected "@ + decimal(
                    count as nat,
                ) + " for requested range "@ + decimal(start as nat) + "-"@ + decimal(end as nat)
                    + "."@,
            ),
        ]
    } else {
        Seq::empty()
    };
    a + b + c + d
}

fn push_mismatch(issues: &mut Vec<ValidationIssue>, m: usize, v: &Vec<char>)
    ensures
        issue_views(final(issues)@) == issue_views(old(issues)@).push(mismatch_issue(m, v@)),
{
    push_issue(
        issues,
        m,
        0,
        ValidationSeverity::Error,
        ValidationIssueType::InvalidGeminiStructure,
        string_from_chars(v.as_slice()),
    );
}

fn request_mismatches(
    payload: &GeminiChartSectionPayload,
    section_id: &str,
    play_mode: PlayMode,
    target_level: u32,
    start: u32,
    end: u32,
    count: u32,
) -> (issues: Vec<ValidationIssue>)
    ensures
        issue_views(issues@) == request_mismatch_issues(
            *payload,
            section_id@,
            play_mode,
            target_level,
            start,
            end,
            count,
        ),
{
    let mut issues: Vec<ValidationIssue> = Vec::new();
    let sid = chars_of(payload.section_id.as_str());
    let want = chars_of(section_id);
    if !crate::text::chars_equal(sid.as_slice(), want.as_slice()) {
        let mut m: Vec<char> = Vec::new();
        push_str(&mut m, "El ID de sección en la respuesta (");
        push_all(&mut m, sid.as_slice());
        push_str(&mut m, ") no coincide con el solicitado (");
        push_all(&mut m, want.as_slice());
        push_str(&mut m, ").");
        push_mismatch(&mut issues, 0, &m);
    }
    if payload.play_mode != play_mode {
        let mut m: Vec<char> = Vec::new();
        push_str(&mut m, "El modo de juego en la respuesta (");
        push_str(&mut m, play_mode_name_exec(payload.play_mode));
        push_str(&mut m, ") no coincide con el solicitado (");
        push_str(&mut m, play_mode_name_exec(play_mode));
        push_str(&mut m, ").");
        push_mismatch(&mut issues, 0, &m);
    }
    if payload.difficulty_level != target_level {
        let mut m: Vec<char> = Vec::new();
        push_str(&mut m, "El nivel de dificultad en la respuesta (");
        push_decimal(&mut m, payload.difficulty_level as u128);
        push_str(&mut m, ") no coincide con el solicitado (");
        push_decimal(&mut m, target_level as u128);
        push_str(&mut m, ").");
        push_mismatch(&mut issues, 0, &m);
    }
    let n = payload.measures.len();
    if n as u64 != count as u64 {
        let mut m: Vec<char> = Vec::new();
        push_str(&mut m, "Gemini returned ");
        push_decimal(&mut m, n as u128);
        push_str(&mut m, " measures, expected ");
        push_decimal(&mut m, count as u128);
        push_str(&mut m, " for requested range ");
        push_decimal(&mut m, start as u128);
        push_str(&mut m, "-");
        push_decimal(&mut m, end as u128);
        push_str(&mut m, ".");
        push_mismatch(&mut issues, 0, &m);
    }
    assert(issue_views(issues@) =~= request_mismatch_issues(
        *payload,
        section_id@,
        play_mode,
        target_level,
        start,
        end,
        count,
    ));
    issues
}

fn append_index_mismatches(issues: &mut Vec<ValidationIssue>, payload: &GeminiChartSectionPayload, start: u32)
    requires
        start + payload.measures@.len() <= u32::MAX + 1,
    ensures
        issue_views(final(issues)@) == issue_views(old(issues)@) + measure_index_issues(
            payload.measures@,
            start,
        ),
{
    let ghost id = issue_views(issues@);
    let ghost ms = payload.measures@;
    let n = payload.measures.len();
    let mut i: usize = 0;
    proof {
        assert(ms.take(0) =~= Seq::<crate::biomechanics::GeminiMeasure>::empty());
        assert(issue_views(issues@) =~= id + measure_index_issues(ms.take(0), start));
    }
    while i < n
        invariant
            i <= n == ms.len(),
            ms == payload.measures@,
            start + ms.len() <= u32::MAX + 1,
            id == issue_views(old(issues)@),
            issue_views(issues@) == id + measure_index_issues(ms.take(i as int), start),
        decreases n - i,
    {
        let expected: u32 = start + i as u32;
        let got = payload.measures[i].measure_index;
        if got != expected {
            let mut m: Vec<char> = Vec::new();
            push_str(&mut m, "La medida en la posición ");
            push_decimal(&mut m, i as u128);
            push_str(&mut m, " tiene un índice de compás incorrecto (");
            push_decimal(&mut m, got as u128);
            push_str(&mut m, "). Se esperaba el índice absoluto ");
            push_decimal(&mut m, expected as u128);
            push_str(&mut m, ".");
            push_mismatch(issues, got as usize, &m);
        }
        i = i + 1;
        proof {
            assert(ms.take(i as int).drop_last() =~= ms.take(i - 1));
            assert(ms.take(i as int).last() == ms[i - 1]);
            assert(issue_views(issues@) =~= id + measure_index_issues(ms.take(i as int), start));
        }
    }
    proof {
        assert(ms.take(n as int) =~= ms);
    }
}

/// Lists how a generated payload departs from what was requested.
pub fn preview_mismatches(
    payload: &GeminiChartSectionPayload,
    section_id: &str,
    play_mode: PlayMode,
    target_level: u32,
    start: u32,
    end: u32,
    count: u32,
) -> (issues: Vec<ValidationIssue>)
    requires
        start + payload.measures@.len() <= u32::MAX + 1,
    ensures
        issue_views(issues@) == preview_mismatch_issues(
            *payload,
            section_id@,
            play_mode,
            target_level,
            start,
            end,
            count,
        ),
{
    let mut issues = request_mismatches(payload, section_id, play_mode, target_level, start, end, count);
    append_index_mismatches(&mut issues, payload, start);
    issues
}

/// The check of a generated payload that answers the request: its
/// structural fault as one issue, or the chart validation of its notes.
pub open spec fn preview_validation_issues(p: GeminiChartSectionPayload) -> Seq<IssueView> {
    match structure_error(p) {
        Some(e) => seq![mismatch_issue(0, e)],
        None => chart_issues(p.play_mode, p.difficulty_level, payload_notes(p)),
    }
}

/// Validates a generated payload for preview.
pub fn preview_validation(payload: &GeminiChartSectionPayload) -> (v: ValidatedChartSection)
    ensures
        v.play_mode == payload.play_mode,
        v.difficulty_level == payload.difficulty_level,
        issue_views(v.issues@) == preview_validation_issues(*payload),
{
    match payload.validate_structure() {
        Ok(()) => {
            let notes = payload.to_ssc_notes();
            validate_chart(payload.play_mode, payload.difficulty_level, notes.as_str())
        },
        Err(e) => {
            let mut issues: Vec<ValidationIssue> = Vec::new();
            push_issue(
                &mut issues,
                0,
                0,
                ValidationSeverity::Error,
                ValidationIssueType::InvalidGeminiStructure,
                e,
            );
            assert(issue_views(issues@) =~= preview_validation_issues(*payload));
            ValidatedChartSection {
                play_mode: payload.play_mode,
                difficulty_level: payload.difficulty_level,
                issues,
            }
        },
    }
}

pub open spec fn has_severity(issues: Seq<IssueView>, s: ValidationSeverity) -> bool {
    exists|i: int| 0 <= i < issues.len() && (#[trigger] issues[i]).severity == s
}

fn any_severity(issues: &Vec<ValidationIssue>, s: ValidationSeverity) -> (b: bool)
    ensures
        b == has_severity(issue_views(issues@), s),
{
    let mut i: usize = 0;
    while i < issues.len()
        invariant
            i <= issues@.len(),
            forall|j: int| 0 <= j < i ==> (#[trigger] issues@[j]).severity != s,
        decreases issues@.len() - i,
    {
        if issues[i].severity == s {
            assert(issue_views(issues@)[i as int].severity == s);
            return true;
        }
        i = i + 1;
    }
    assert forall|j: int| 0 <= j < issue_views(issues@).len() implies (#[trigger] issue_views(
        issues@,
    )[j]).severity != s by {
        assert(issues@[j].severity != s);
    }
    false
}

/// Whether any issue is an error.
pub fn has_error_issues(issues: &Vec<ValidationIssue>) -> (b: bool)
    ensures
        b == has_severity(issue_views(issues@), ValidationSeverity::Error),
{
    any_severity(issues, ValidationSeverity::Error)
}

/// The message that goes with a preview: invalid, with warnings, or clean.
pub open spec fn preview_message(issues: Seq<IssueView>) -> Seq<char> {
    if has_severity(issues, ValidationSeverity::Error) {
        "preview generado pero inválido; no se escribió en disco"@
    } else if has_severity(issues, ValidationSeverity::Warning) {
        "preview generado con advertencias"@
    } else {
        "Preview content generated and validated successfully without writing to disk."@
    }
}

/// The message that goes with a preview of the given validation.
pub fn preview_message_for(v: &ValidatedChartSection) -> (m: String)
    ensures
        m@ == preview_message(issue_views(v.issues@)),
{
    if any_severity(&v.issues, ValidationSeverity::Error) {
        String::from_str("preview generado pero inválido; no se escribió en disco")
    } else if any_severity(&v.issues, ValidationSeverity::Warning) {
        String::from_str("preview generado con advertencias")
    } else {
        String::from_str(
            "Preview content generated and validated successfully without writing to disk.",
        )
    }
}


// ---------------------------------------------------------------------------
// SSC tags of songs and charts
// ---------------------------------------------------------------------------

/// One `#KEY:value;` entry of an SSC file (or a comment line when `key` is
/// `None`).
#[derive(Debug, Clone)]
pub struct SscTag {
    pub key: Option<String>,
    pub value: String,
    pub is_comment: bool,
}

/// What a chart's tags say of it.
#[derive(Debug, Clone)]
pub struct ChartDetails {
    pub steps_type: String,
    pub difficulty: String,
    pub meter: u32,
    pub description: String,
    pub credit: String,
}

pub open spec fn tag_has_key(t: SscTag, k: Seq<char>) -> bool {
    t.key is Some && t.key->0@ == k
}

/// The value of the last tag with key `k`, if any.
pub open spec fn last_tag_value(tags: Seq<SscTag>, k: Seq<char>) -> Option<Seq<char>>
    decreases tags.len(),
{
    if tags.len() == 0 {
        None
    } else if tag_has_key(tags.last(), k) {
        Some(tags.last().value@)
    } else {
        last_tag_value(tags.drop_last(), k)
    }
}

pub open spec fn tag_text(tags: Seq<SscTag>, k: Seq<char>) -> Seq<char> {
    match last_tag_value(tags, k) {
        Some(v) => v,
        None => Seq::empty(),
    }
}

pub open spec fn is_digit(c: char) -> bool {
    '0' <= c && c <= '9'
}

pub open spec fn all_digits(s: Seq<char>) -> bool {
    forall|i: int| 0 <= i < s.len() ==> is_digit(#[trigger] s[i])
}

/// The number that a string of decimal digits writes.
pub open spec fn digits_value(s: Seq<char>) -> nat
    decreases s.len(),
{
    if s.len() == 0 {
        0
    } else {
        digits_value(s.drop_last()) * 10 + ((s.last() as u32) - ('0' as u32)) as nat
    }
}

/// What `str::parse::<u32>` gives: an optional `+`, then one or more digits
/// writing a number that fits in `u32`.
pub open spec fn parse_u32_text(s: Seq<char>) -> Option<u32> {
    let d = if s.len() > 0 && s[0] == '+' {
        s.drop_first()
    } else {
        s
    };
    if d.len() > 0 && all_digits(d) && digits_value(d) <= u32::MAX {
        Some(digits_value(d) as u32)
    } else {
        None
    }
}

proof fn lemma_digits_value_grows(s: Seq<char>, i: int, j: int)
    requires
        0 <= i <= j <= s.len(),
        all_digits(s),
    ensures
        digits_value(s.take(i)) <= digits_value(s.take(j)),
    decreases j - i,
{
    if i < j {
        lemma_digits_value_grows(s, i, j - 1);
        assert(s.take(j).drop_last() =~= s.take(j - 1));
        assert(is_digit(s[j - 1]));
    }
}

/// Reads a `u32` the way `str::parse::<u32>` does.
pub fn parse_u32(s: &[char]) -> (r: Option<u32>)
    ensures
        r == parse_u32_text(s@),
{
    let start: usize = if s.len() > 0 && s[0] == '+' {
        1
    } else {
        0
    };
    let ghost d = if s@.len() > 0 && s@[0] == '+' {
        s@.drop_first()
    } else {
        s@
    };
    assert(d =~= s@.skip(start as int));
    if start == s.len() {
        return None;
    }
    let mut value: u64 = 0;
    let mut i: usize = start;
    while i < s.len()
        invariant
            start <= i <= s@.len(),
            start < s@.len(),
            d == s@.skip(start as int),
            d == (if s@.len() > 0 && s@[0] == '+' {
                s@.drop_first()
            } else {
                s@
            }),
            all_digits(d.take(i - start)),
            value == digits_value(d.take(i - start)),
            value <= u32::MAX,
        decreases s@.len() - i,
    {
        let c = s[i];
        if !('0' <= c && c <= '9') {
            proof {
                assert(d[i - start] == c);
                assert(!is_digit(d[i - start]));
                assert(!all_digits(d));
            }
            return None;
        }
        let digit = (c as u32 - '0' as u32) as u64;
        let next = value * 10 + digit;
        proof {
            assert(d.take(i - start + 1).drop_last() =~= d.take(i - start));
            assert(d.take(i - start + 1).last() == c);
            assert(all_digits(d.take(i - start + 1))) by {
                assert forall|k: int| 0 <= k < d.take(i - start + 1).len() implies is_digit(
                    #[trigger] d.take(i - start + 1)[k],
                ) by {
                    if k < i - start {
                        assert(d.take(i - start + 1)[k] == d.take(i - start)[k]);
                    }
                }
            }
        }
        if next > 0xFFFF_FFFF {
            proof {
                if all_digits(d) {
                    lemma_digits_value_grows(d, i - start + 1, d.len() as int);
                    assert(d.take(d.len() as int) =~= d);
                }
            }
            return None;
        }
        value = next;
        i = i + 1;
    }
    proof {
        assert(d.take(i - start) =~= d);
    }
    Some(value as u32)
}

/// What `str::parse::<usize>` gives: an optional `+`, then one or more
/// digits writing a number that fits in `usize`.
pub open spec fn parse_usize_text(s: Seq<char>) -> Option<usize> {
    let d = if s.len() > 0 && s[0] == '+' {
        s.drop_first()
    } else {
        s
    };
    if d.len() > 0 && all_digits(d) && digits_value(d) <= usize::MAX {
        Some(digits_value(d) as usize)
    } else {
        None
    }
}

/// Reads a `usize` the way `str::parse::<usize>` does.
pub fn parse_usize(s: &[char]) -> (r: Option<usize>)
    ensures
        r == parse_usize_text(s@),
{
    let start: usize = if s.len() > 0 && s[0] == '+' {
        1
    } else {
        0
    };
    let ghost d = if s@.len() > 0 && s@[0] == '+' {
        s@.drop_first()
    } else {
        s@
    };
    assert(d =~= s@.skip(start as int));
    if start == s.len() {
        return None;
    }
    let mut value: u128 = 0;
    let mut i: usize = start;
    while i < s.len()
        invariant
            start <= i <= s@.len(),
            start < s@.len(),
            d == s@.skip(start as int),
            d == (if s@.len() > 0 && s@[0] == '+' {
                s@.drop_first()
            } else {
                s@
            }),
            all_digits(d.take(i - start)),
            value == digits_value(d.take(i - start)),
            value <= usize::MAX,
        decreases s@.len() - i,
    {
        let c = s[i];
        if !('0' <= c && c <= '9') {
            proof {
                assert(d[i - start] == c);
                assert(!is_digit(d[i - start]));
                assert(!all_digits(d));
            }
            return None;
        }
        let digit = (c as u32 - '0' as u32) as u128;
        let next = value * 10 + digit;
        proof {
            assert(d.take(i - start + 1).drop_last() =~= d.take(i - start));
            assert(d.take(i - start + 1).last() == c);
            assert(all_digits(d.take(i - start + 1))) by {
                assert forall|k: int| 0 <= k < d.take(i - start + 1).len() implies is_digit(
                    #[trigger] d.take(i - start + 1)[k],
                ) by {
                    if k < i - start {
                        assert(d.take(i - start + 1)[k] == d.take(i - start)[k]);
                    }
                }
            }
        }
        if next > usize::MAX as u128 {
            proof {
                if all_digits(d) {
                    lemma_digits_value_grows(d, i - start + 1, d.len() as int);
                    assert(d.take(d.len() as int) =~= d);
                }
            }
            return None;
        }
        value = next;
        i = i + 1;
    }
    proof {
        assert(d.take(i - start) =~= d);
    }
    Some(value as usize)
}

/// The meter of a chart: the last `METER` tag that reads as a number, or 0.
pub open spec fn tag_meter(tags: Seq<SscTag>) -> u32
    decreases tags.len(),
{
    if tags.len() == 0 {
        0
    } else if tag_has_key(tags.last(), "METER"@) && parse_u32_text(tags.last().value@) is Some {
        parse_u32_text(tags.last().value@)->0
    } else {
        tag_meter(tags.drop_last())
    }
}

fn key_is(t: &SscTag, k: &str) -> (b: bool)
    ensures
        b == tag_has_key(*t, k@),
{
    match &t.key {
        Some(key) => chars_are(chars_of(key.as_str()).as_slice(), k),
        None => false,
    }
}

fn copy_string(s: &String) -> (r: String)
    ensures
        r@ == s@,
{
    let cs = chars_of(s.as_str());
    string_from_chars(cs.as_slice())
}

fn text_of(o: Option<String>) -> (r: String)
    ensures
        r@ == match o {
            Some(s) => s@,
            None => Seq::empty(),
        },
{
    match o {
        Some(s) => s,
        None => String::new(),
    }
}

/// The value of the last tag with the given key.
pub fn find_last_tag_value(tags: &Vec<SscTag>, k: &str) -> (r: Option<String>)
    ensures
        match r {
            Some(v) => last_tag_value(tags@, k@) == Some(v@),
            None => last_tag_value(tags@, k@) is None,
        },
{
    let mut found: Option<String> = None;
    let mut i: usize = 0;
    while i < tags.len()
        invariant
            i <= tags@.len(),
            match found {
                Some(v) => last_tag_value(tags@.take(i as int), k@) == Some(v@),
                None => last_tag_value(tags@.take(i as int), k@) is None,
            },
        decreases tags@.len() - i,
    {
        if key_is(&tags[i], k) {
            found = Some(copy_string(&tags[i].value));
        }
        i = i + 1;
        proof {
            assert(tags@.take(i as int).drop_last() =~= tags@.take(i - 1));
            assert(tags@.take(i as int).last() == tags@[i - 1]);
        }
    }
    proof {
        assert(tags@.take(tags@.len() as int) =~= tags@);
    }
    found
}

fn find_meter(tags: &Vec<SscTag>) -> (m: u32)
    ensures
        m == tag_meter(tags@),
{
    let mut meter: u32 = 0;
    let mut i: usize = 0;
    while i < tags.len()
        invariant
            i <= tags@.len(),
            meter == tag_meter(tags@.take(i as int)),
        decreases tags@.len() - i,
    {
        if key_is(&tags[i], "METER") {
            let v = chars_of(tags[i].value.as_str());
            if let Some(n) = parse_u32(v.as_slice()) {
                meter = n;
            }
        }
        i = i + 1;
        proof {
            assert(tags@.take(i as int).drop_last() =~= tags@.take(i - 1));
            assert(tags@.take(i as int).last() == tags@[i - 1]);
        }
    }
    proof {
        assert(tags@.take(tags@.len() as int) =~= tags@);
    }
    meter
}

/// Reads a chart's details from its tags: for each key the last tag counts,
/// a missing text is empty and the meter is 0 unless a `METER` tag reads as
/// a number.
pub fn chart_details_from_tags(tags: &Vec<SscTag>) -> (d: ChartDetails)
    ensures
        d.steps_type@ == tag_text(tags@, "STEPSTYPE"@),
        d.difficulty@ == tag_text(tags@, "DIFFICULTY"@),
        d.description@ == tag_text(tags@, "DESCRIPTION"@),
        d.credit@ == tag_text(tags@, "CREDIT"@),
        d.meter == tag_meter(tags@),
{
    ChartDetails {
        steps_type: text_of(find_last_tag_value(tags, "STEPSTYPE")),
        difficulty: text_of(find_last_tag_value(tags, "DIFFICULTY")),
        meter: find_meter(tags),
        description: text_of(find_last_tag_value(tags, "DESCRIPTION")),
        credit: text_of(find_last_tag_value(tags, "CREDIT")),
    }
}

pub open spec fn steps_type_name(m: PlayMode) -> Seq<char> {
    match m {
        PlayMode::Single => "pump-single"@,
        PlayMode::Double => "pump-double"@,
    }
}

pub open spec fn key_value(k: Seq<char>, v: Seq<char>) -> (Option<Seq<char>>, Seq<char>) {
    (Some(k), v)
}

pub open spec fn tag_views(tags: Seq<SscTag>) -> Seq<(Option<Seq<char>>, Seq<char>)> {
    tags.map_values(
        |t: SscTag|
            (
                match t.key {
                    Some(k) => Some(k@),
                    None => None,
                },
                t.value@,
            ),
    )
}

/// The tags of a new edit chart, in the order they are written.
pub open spec fn new_chart_tag_views(
    mode: PlayMode,
    level: u32,
    description: Seq<char>,
    author: Seq<char>,
) -> Seq<(Option<Seq<char>>, Seq<char>)> {
    seq![
        key_value("NOTEDATA"@, Seq::empty()),
        key_value("STEPSTYPE"@, steps_type_name(mode)),
        key_value("DESCRIPTION"@, description),
        key_value("DIFFICULTY"@, "Edit"@),
        key_value("METER"@, decimal(level as nat)),
        key_value("CREDIT"@, author),
        key_value("NOTES"@, Seq::empty()),
    ]
}

fn tag(k: &str, v: String) -> (t: SscTag)
    ensures
        t.key is Some && t.key->0@ == k@,
        t.value@ == v@,
        !t.is_comment,
{
    SscTag { key: Some(String::from_str(k)), value: v, is_comment: false }
}

fn decimal_string(n: u32) -> (s: String)
    ensures
        s@ == decimal(n as nat),
{
    let mut v: Vec<char> = Vec::new();
    push_decimal(&mut v, n as u128);
    string_from_chars(v.as_slice())
}

/// The tags of a new edit chart (its notes follow them).
pub fn new_chart_tags(play_mode: PlayMode, target_level: u32, description: &str, author: &str) -> (tags: Vec<SscTag>)
    ensures
        tag_views(tags@) == new_chart_tag_views(play_mode, target_level, description@, author@),
        forall|i: int| 0 <= i < tags@.len() ==> !(#[trigger] tags@[i]).is_comment,
{
    let steps = match play_mode {
        PlayMode::Single => "pump-single",
        PlayMode::Double => "pump-double",
    };
    let mut tags: Vec<SscTag> = Vec::new();
    tags.push(tag("NOTEDATA", String::new()));
    tags.push(tag("STEPSTYPE", String::from_str(steps)));
    tags.push(tag("DESCRIPTION", String::from_str(description)));
    tags.push(tag("DIFFICULTY", String::from_str("Edit")));
    tags.push(tag("METER", decimal_string(target_level)));
    tags.push(tag("CREDIT", String::from_str(author)));
    tags.push(tag("NOTES", String::new()));
    assert(tag_views(tags@) =~= new_chart_tag_views(
        play_mode,
        target_level,
        description@,
        author@,
    ));
    tags
}


// ---------------------------------------------------------------------------
// Appending charts
// ---------------------------------------------------------------------------

/// `S` or `D` followed by the level.
pub open spec fn level_label(mode: PlayMode, level: u32) -> Seq<char> {
    match mode {
        PlayMode::Single => "S"@ + decimal(level as nat),
        PlayMode::Double => "D"@ + decimal(level as nat),
    }
}

/// A chart description: the prefix, then the level label.
pub fn chart_description(prefix: &str, play_mode: PlayMode, level: u32) -> (d: String)
    ensures
        d@ == prefix@ + level_label(play_mode, level),
{
    let mut v: Vec<char> = Vec::new();
    push_str(&mut v, prefix);
    match play_mode {
        PlayMode::Single => push_str(&mut v, "S"),
        PlayMode::Double => push_str(&mut v, "D"),
    }
    push_decimal(&mut v, level as u128);
    assert(v@ =~= prefix@ + level_label(play_mode, level));
    string_from_chars(v.as_slice())
}

/// The description of a generated section's chart: `AI <section> S<level>`
/// (with `Mock` after `AI` for a development payload).
pub fn generated_chart_description(payload: &GeminiChartSectionPayload, mock: bool) -> (d: String)
    ensures
        d@ == (if mock {
            "AI Mock "@
        } else {
            "AI "@
        }) + payload.section_id@ + " "@ + level_label(payload.play_mode, payload.difficulty_level),
{
    let mut v: Vec<char> = Vec::new();
    if mock {
        push_str(&mut v, "AI Mock ");
    } else {
        push_str(&mut v, "AI ");
    }
    push_all(&mut v, chars_of(payload.section_id.as_str()).as_slice());
    push_str(&mut v, " ");
    let ghost before = v@;
    let label = chart_description("", payload.play_mode, payload.difficulty_level);
    push_all(&mut v, chars_of(label.as_str()).as_slice());
    proof {
        reveal_strlit("");
        assert(""@ =~= Seq::<char>::empty());
        assert(label@ =~= level_label(payload.play_mode, payload.difficulty_level));
    }
    string_from_chars(v.as_slice())
}

/// The notes of the local test chart: four measures, an empty one, two
/// short runs and another empty one.
pub fn stub_chart_notes(play_mode: PlayMode) -> (n: &'static str)
    ensures
        n@ == match play_mode {
            PlayMode::Single => "00000\n00000\n00000\n00000\n,\n10000\n00100\n00001\n00100\n,\n01000\n00100\n00010\n00100\n,\n00000\n00000\n00000\n00000\n;"@,
            PlayMode::Double => "0000000000\n0000000000\n0000000000\n0000000000\n,\n1000000000\n0010000000\n0000100000\n0000000100\n,\n0000000001\n0000000100\n0000010000\n0000000100\n,\n0000000000\n0000000000\n0000000000\n0000000000\n;"@,
        },
{
    match play_mode {
        PlayMode::Single => "00000\n00000\n00000\n00000\n,\n10000\n00100\n00001\n00100\n,\n01000\n00100\n00010\n00100\n,\n00000\n00000\n00000\n00000\n;",
        PlayMode::Double => "0000000000\n0000000000\n0000000000\n0000000000\n,\n1000000000\n0010000000\n0000100000\n0000000100\n,\n0000000001\n0000000100\n0000010000\n0000000100\n,\n0000000000\n0000000000\n0000000000\n0000000000\n;",
    }
}

/// What appending a chart comes to before the file is touched: refused for
/// unsafe metadata; otherwise the chart's validation, and whether it is free
/// of errors and may be written.
pub open spec fn chart_append_check(
    mode: PlayMode,
    level: u32,
    notes: Seq<char>,
    description: Seq<char>,
    author: Seq<char>,
) -> Result<(Seq<IssueView>, bool), Seq<char>> {
    match metadata_field_error(author, "Author/Credit"@) {
        Some(e) => Err(e),
        None => match metadata_field_error(description, "Description"@) {
            Some(e) => Err(e),
            None => {
                let issues = chart_issues(mode, level, notes);
                Ok((issues, !has_severity(issues, ValidationSeverity::Error)))
            },
        },
    }
}

/// Checks a chart that is about to be appended.
pub fn check_chart_append(
    play_mode: PlayMode,
    target_level: u32,
    notes_raw: &str,
    description: &str,
    author: &str,
) -> (r: Result<(ValidatedChartSection, bool), String>)
    ensures
        match r {
            Ok((v, ok)) => chart_append_check(play_mode, target_level, notes_raw@, description@, author@)
                == Ok::<(Seq<IssueView>, bool), Seq<char>>((issue_views(v.issues@), ok))
                && v.play_mode == play_mode && v.difficulty_level == target_level,
            Err(e) => chart_append_check(play_mode, target_level, notes_raw@, description@, author@)
                == Err::<(Seq<IssueView>, bool), Seq<char>>(e@),
        },
{
    validate_metadata_field(author, "Author/Credit")?;
    validate_metadata_field(description, "Description")?;
    let v = validate_chart(play_mode, target_level, notes_raw);
    let errors = has_error_issues(&v.issues);
    Ok((v, !errors))
}

/// What committing an approved payload comes to before the file is
/// touched: its structural fault, a refusal when its notes hold errors, or
/// its notes and description.
pub open spec fn approved_payload_check(p: GeminiChartSectionPayload) -> Result<
    (Seq<char>, Seq<char>),
    Seq<char>,
> {
    match structure_error(p) {
        Some(e) => Err("Approved payload structural validation failed: "@ + e),
        None => if has_severity(
            chart_issues(p.play_mode, p.difficulty_level, payload_notes(p)),
            ValidationSeverity::Error,
        ) {
            Err("Cannot commit chart: Biomechanical validation detected severe errors."@)
        } else {
            Ok(
                (
                    payload_notes(p),
                    "AI "@ + p.section_id@ + " "@ + level_label(p.play_mode, p.difficulty_level),
                ),
            )
        },
    }
}

/// Checks an approved payload and gives the notes and description to write.
pub fn check_approved_payload(payload: &GeminiChartSectionPayload) -> (r: Result<(String, String), String>)
    ensures
        match r {
            Ok((n, d)) => approved_payload_check(*payload) == Ok::<
                (Seq<char>, Seq<char>),
                Seq<char>,
            >((n@, d@)),
            Err(e) => approved_payload_check(*payload) == Err::<(Seq<char>, Seq<char>), Seq<char>>(
                e@,
            ),
        },
{
    match payload.validate_structure() {
        Err(e) => {
            let mut m: Vec<char> = Vec::new();
            push_str(&mut m, "Approved payload structural validation failed: ");
            push_all(&mut m, chars_of(e.as_str()).as_slice());
            return Err(string_from_chars(m.as_slice()));
        },
        Ok(()) => {},
    }
    let notes = payload.to_ssc_notes();
    let v = validate_chart(payload.play_mode, payload.difficulty_level, notes.as_str());
    if has_error_issues(&v.issues) {
        return Err(
            String::from_str("Cannot commit chart: Biomechanical validation detected severe errors."),
        );
    }
    let d = generated_chart_description(payload, false);
    Ok((notes, d))
}

/// Refuses a commit when the file's fingerprint changed since the preview.
pub fn check_fingerprint(expected_sha256: &str, current_sha256: &str) -> (r: Result<(), String>)
    ensures
        expected_sha256@ == current_sha256@ ==> r is Ok,
        expected_sha256@ != current_sha256@ ==> r is Err && r->Err_0@
            == "El fingerprint del archivo .ssc ha cambiado desde el preview. Esperado: "@
            + expected_sha256@ + ", Actual: "@ + current_sha256@,
{
    let a = chars_of(expected_sha256);
    let b = chars_of(current_sha256);
    if crate::text::chars_equal(a.as_slice(), b.as_slice()) {
        Ok(())
    } else {
        let mut m: Vec<char> = Vec::new();
        push_str(&mut m, "El fingerprint del archivo .ssc ha cambiado desde el preview. Esperado: ");
        push_all(&mut m, a.as_slice());
        push_str(&mut m, ", Actual: ");
        push_all(&mut m, b.as_slice());
        Err(string_from_chars(m.as_slice()))
    }
}

// ---------------------------------------------------------------------------
// Reading audio for the browser
// ---------------------------------------------------------------------------

/// Directories that audio may never be read from (as lower-case path parts).
pub open spec fn blocked_audio_dirs() -> Seq<Seq<char>> {
    seq![
        "\\.ssh\\"@,
        "\\.aws\\"@,
        "\\.git\\"@,
        "\\.gemini\\"@,
        "\\appdata\\"@,
        "\\windows\\"@,
        "\\system32\\"@,
        "\\etc\\"@,
    ]
}

pub open spec fn path_is_blocked(lower: Seq<char>) -> bool {
    exists|i: int| 0 <= i < blocked_audio_dirs().len() && contains_seq(lower, #[trigger] blocked_audio_dirs()[i])
}

/// Whether a lower-cased path lies in a blocked directory.
pub fn audio_path_blocked(lower: &[char]) -> (b: bool)
    ensures
        b == path_is_blocked(lower@),
{
    let dirs: [&str; 8] = [
        "\\.ssh\\",
        "\\.aws\\",
        "\\.git\\",
        "\\.gemini\\",
        "\\appdata\\",
        "\\windows\\",
        "\\system32\\",
        "\\etc\\",
    ];
    let ghost want = blocked_audio_dirs();
    assert(dirs@.map_values(|n: &str| n@) =~= want);
    let mut i: usize = 0;
    while i < 8
        invariant
            i <= 8,
            dirs@.map_values(|n: &str| n@) == want,
            want == blocked_audio_dirs(),
            want.len() == 8,
            forall|j: int| 0 <= j < i ==> !contains_seq(lower@, #[trigger] want[j]),
        decreases 8 - i,
    {
        assert(want[i as int] == dirs@[i as int]@);
        if contains_chars(lower, chars_of(dirs[i]).as_slice()) {
            return true;
        }
        i = i + 1;
    }
    false
}

pub open spec fn is_supported_audio_ext(lower: Seq<char>) -> bool {
    lower == "mp3"@ || lower == "ogg"@ || lower == "flac"@ || lower == "wav"@
}

/// Whether a lower-cased extension is one of mp3, ogg, flac, wav.
pub fn supported_audio_extension(lower: &[char]) -> (b: bool)
    ensures
        b == is_supported_audio_ext(lower@),
{
    chars_are(lower, "mp3") || chars_are(lower, "ogg") || chars_are(lower, "flac") || chars_are(
        lower,
        "wav",
    )
}

/// Largest audio file handed to the browser: 100 MiB.
pub const MAX_BROWSER_AUDIO_BYTES: u64 = 104857600;

/// Whether the first bytes of a file (`read` of them were read, the rest of
/// the 12-byte buffer being zero) look like MP3, OGG, FLAC or WAV.
pub open spec fn audio_magic_ok(h: Seq<u8>, read: nat) -> bool {
    ||| (h[0] == 0x49 && h[1] == 0x44 && h[2] == 0x33)
    ||| (h[0] == 0xFF && (h[1] & 0xE0) == 0xE0)
    ||| (h[0] == 0x4F && h[1] == 0x67 && h[2] == 0x67 && h[3] == 0x53)
    ||| (h[0] == 0x66 && h[1] == 0x4C && h[2] == 0x61 && h[3] == 0x43)
    ||| (h[0] == 0x52 && h[1] == 0x49 && h[2] == 0x46 && h[3] == 0x46 && read >= 12 && h[8] == 0x57
        && h[9] == 0x41 && h[10] == 0x56 && h[11] == 0x45)
}

/// The checks on an audio file's size and header, in order.
pub open spec fn audio_file_check(size: u64, header: Seq<u8>, read: nat) -> Result<(), Seq<char>> {
    if size > MAX_BROWSER_AUDIO_BYTES {
        Err("El tamaño del archivo de audio supera el límite máximo de 100 MB para el análisis en navegador."@)
    } else if read < 4 {
        Err("Archivo demasiado pequeño para ser un archivo de audio válido."@)
    } else if !audio_magic_ok(header, read) {
        Err("Acceso denegado: Los bytes mágicos del archivo no corresponden a un formato de audio soportado (MP3, OGG, FLAC, WAV)."@)
    } else {
        Ok(())
    }
}

/// Checks an audio file's size and its first bytes.
pub fn check_audio_file(size: u64, header: &[u8; 12], bytes_read: usize) -> (r: Result<(), String>)
    ensures
        unit_result_view(r) == audio_file_check(size, header@, bytes_read as nat),
{
    if size > MAX_BROWSER_AUDIO_BYTES {
        return Err(
            String::from_str(
                "El tamaño del archivo de audio supera el límite máximo de 100 MB para el análisis en navegador.",
            ),
        );
    }
    if bytes_read < 4 {
        return Err(
            String::from_str("Archivo demasiado pequeño para ser un archivo de audio válido."),
        );
    }
    let h0 = header[0];
    let h1 = header[1];
    let h2 = header[2];
    let h3 = header[3];
    let valid = if h0 == 0x49 && h1 == 0x44 && h2 == 0x33 {
        true
    } else if h0 == 0xFF && (h1 & 0xE0) == 0xE0 {
        true
    } else if h0 == 0x4F && h1 == 0x67 && h2 == 0x67 && h3 == 0x53 {
        true
    } else if h0 == 0x66 && h1 == 0x4C && h2 == 0x61 && h3 == 0x43 {
        true
    } else if h0 == 0x52 && h1 == 0x49 && h2 == 0x46 && h3 == 0x46 {
        bytes_read >= 12 && header[8] == 0x57 && header[9] == 0x41 && header[10] == 0x56
            && header[11] == 0x45
    } else {
        false
    };
    if !valid {
        return Err(
            String::from_str(
                "Acceso denegado: Los bytes mágicos del archivo no corresponden a un formato de audio soportado (MP3, OGG, FLAC, WAV).",
            ),
        );
    }
    Ok(())
}


// ---------------------------------------------------------------------------
// Song assets
// ---------------------------------------------------------------------------

/// How an asset of a song stands.
#[derive(Debug, Clone)]
pub struct AssetStatus {
    pub key: String,
    pub status_type: String,
    pub file_name: Option<String>,
    pub file_path: Option<String>,
}

#[derive(Debug, Clone)]
pub struct SongAssetsStatus {
    pub audio: AssetStatus,
    pub banner: AssetStatus,
    pub background: AssetStatus,
    pub video: AssetStatus,
}

pub open spec fn is_image_name(n: Seq<char>) -> bool {
    ends_with(n, ".png"@) || ends_with(n, ".jpg"@) || ends_with(n, ".jpeg"@)
}

/// Whether a lower-cased file name could be the asset of the given kind.
pub open spec fn asset_name_matches(kind: Seq<char>, n: Seq<char>) -> bool {
    if kind == "audio"@ {
        ends_with(n, ".mp3"@) || ends_with(n, ".ogg"@) || ends_with(n, ".flac"@) || ends_with(
            n,
            ".wav"@,
        )
    } else if kind == "banner"@ {
        (contains_seq(n, "banner"@) || ends_with(n, "bn.png"@) || ends_with(n, "bn.jpg"@)
            || ends_with(n, "bn.jpeg"@)) && is_image_name(n)
    } else if kind == "background"@ {
        (contains_seq(n, "bg"@) || contains_seq(n, "background"@) || contains_seq(n, "back"@))
            && is_image_name(n)
    } else if kind == "video"@ {
        ends_with(n, ".mp4"@) || ends_with(n, ".mov"@) || ends_with(n, ".avi"@) || ends_with(
            n,
            ".mpg"@,
        ) || ends_with(n, ".mpeg"@)
    } else {
        false
    }
}

fn ends_with_lit(s: &[char], lit: &str) -> (b: bool)
    ensures
        b == ends_with(s@, lit@),
{
    ends_with_chars(s, chars_of(lit).as_slice())
}

fn contains_lit(s: &[char], lit: &str) -> (b: bool)
    ensures
        b == contains_seq(s@, lit@),
{
    contains_chars(s, chars_of(lit).as_slice())
}

fn asset_name_matches_exec(kind: &[char], n: &[char]) -> (b: bool)
    ensures
        b == asset_name_matches(kind@, n@),
{
    let image = ends_with_lit(n, ".png") || ends_with_lit(n, ".jpg") || ends_with_lit(n, ".jpeg");
    if chars_are(kind, "audio") {
        ends_with_lit(n, ".mp3") || ends_with_lit(n, ".ogg") || ends_with_lit(n, ".flac")
            || ends_with_lit(n, ".wav")
    } else if chars_are(kind, "banner") {
        (contains_lit(n, "banner") || ends_with_lit(n, "bn.png") || ends_with_lit(n, "bn.jpg")
            || ends_with_lit(n, "bn.jpeg")) && image
    } else if chars_are(kind, "background") {
        (contains_lit(n, "bg") || contains_lit(n, "background") || contains_lit(n, "back")) && image
    } else if chars_are(kind, "video") {
        ends_with_lit(n, ".mp4") || ends_with_lit(n, ".mov") || ends_with_lit(n, ".avi")
            || ends_with_lit(n, ".mpg") || ends_with_lit(n, ".mpeg")
    } else {
        false
    }
}

/// The first file (by lower-cased name) that could be the asset of a kind.
pub open spec fn first_asset_candidate(kind: Seq<char>, files: Seq<(String, String)>) -> Option<int>
    decreases files.len(),
{
    if files.len() == 0 {
        None
    } else {
        match first_asset_candidate(kind, files.drop_last()) {
            Some(i) => Some(i),
            None => if asset_name_matches(kind, files.last().0@) {
                Some(files.len() - 1)
            } else {
                None
            },
        }
    }
}

/// The index of the first file that could be the asset of the given kind.
pub fn find_asset_candidate(kind: &str, files: &Vec<(String, String)>) -> (r: Option<usize>)
    ensures
        match r {
            Some(i) => first_asset_candidate(kind@, files@) == Some(i as int) && i < files@.len(),
            None => first_asset_candidate(kind@, files@) is None,
        },
{
    let k = chars_of(kind);
    let mut i: usize = 0;
    while i < files.len()
        invariant
            i <= files@.len(),
            k@ == kind@,
            first_asset_candidate(kind@, files@.take(i as int)) is None,
        decreases files@.len() - i,
    {
        let name = chars_of(files[i].0.as_str());
        let hit = asset_name_matches_exec(k.as_slice(), name.as_slice());
        proof {
            assert(files@.take(i + 1).drop_last() =~= files@.take(i as int));
            assert(files@.take(i + 1).last() == files@[i as int]);
        }
        if hit {
            proof {
                lemma_first_candidate_extends(kind@, files@, i as int + 1);
            }
            return Some(i);
        }
        i = i + 1;
    }
    proof {
        assert(files@.take(files@.len() as int) =~= files@);
    }
    None
}

proof fn lemma_first_candidate_extends(kind: Seq<char>, files: Seq<(String, String)>, k: int)
    requires
        0 < k <= files.len(),
        first_asset_candidate(kind, files.take(k)) is Some,
    ensures
        first_asset_candidate(kind, files) == first_asset_candidate(kind, files.take(k)),
    decreases files.len() - k,
{
    if k < files.len() {
        assert(files.take(k + 1).drop_last() =~= files.take(k));
        lemma_first_candidate_extends(kind, files, k + 1);
    } else {
        assert(files.take(k) =~= files);
    }
}

/// The status of an asset. A declared (non-blank) name is found or missing
/// as `declared_path` says (the path it resolved to, inside the song folder,
/// when it is an existing file); an undeclared asset is looked for among the
/// folder's files, given as lower-cased names with their paths.
pub open spec fn asset_status_view(
    kind: Seq<char>,
    declared: Option<Seq<char>>,
    declared_path: Option<Seq<char>>,
    files: Seq<(String, String)>,
) -> (Seq<char>, Seq<char>, Option<Seq<char>>, Option<Seq<char>>) {
    match declared {
        Some(d) => if trim(d).len() > 0 {
            match declared_path {
                Some(p) => (kind, "DeclaredAndFound"@, Some(d), Some(p)),
                None => (kind, "DeclaredButMissing"@, Some(d), None),
            }
        } else {
            undeclared_asset_view(kind, files)
        },
        None => undeclared_asset_view(kind, files),
    }
}

pub open spec fn undeclared_asset_view(kind: Seq<char>, files: Seq<(String, String)>) -> (
    Seq<char>,
    Seq<char>,
    Option<Seq<char>>,
    Option<Seq<char>>,
) {
    match first_asset_candidate(kind, files) {
        Some(i) => (kind, "FoundButNotDeclared"@, Some(files[i].0@), Some(files[i].1@)),
        None => (kind, "NotDeclared"@, None, None),
    }
}

pub open spec fn opt_string_view(o: Option<String>) -> Option<Seq<char>> {
    match o {
        Some(s) => Some(s@),
        None => None,
    }
}

pub open spec fn asset_view(a: AssetStatus) -> (
    Seq<char>,
    Seq<char>,
    Option<Seq<char>>,
    Option<Seq<char>>,
) {
    (a.key@, a.status_type@, opt_string_view(a.file_name), opt_string_view(a.file_path))
}

/// Whether a declared asset name counts (it is not blank).
pub fn declared_name_counts(declared: Option<&str>) -> (b: bool)
    ensures
        b == match declared {
            Some(d) => trim(d@).len() > 0,
            None => false,
        },
{
    match declared {
        Some(d) => trim_chars(chars_of(d).as_slice()).len() > 0,
        None => false,
    }
}

/// The status of one asset of a song.
pub fn determine_asset_status(
    kind: &str,
    declared: Option<&str>,
    declared_path: Option<String>,
    files: &Vec<(String, String)>,
) -> (a: AssetStatus)
    ensures
        asset_view(a) == asset_status_view(
            kind@,
            match declared {
                Some(d) => Some(d@),
                None => None,
            },
            opt_string_view(declared_path),
            files@,
        ),
{
    if declared_name_counts(declared) {
        let d = declared.unwrap();
        match declared_path {
            Some(p) => AssetStatus {
                key: String::from_str(kind),
                status_type: String::from_str("DeclaredAndFound"),
                file_name: Some(String::from_str(d)),
                file_path: Some(p),
            },
            None => AssetStatus {
                key: String::from_str(kind),
                status_type: String::from_str("DeclaredButMissing"),
                file_name: Some(String::from_str(d)),
                file_path: None,
            },
        }
    } else {
        match find_asset_candidate(kind, files) {
            Some(i) => AssetStatus {
                key: String::from_str(kind),
                status_type: String::from_str("FoundButNotDeclared"),
                file_name: Some(copy_string(&files[i].0)),
                file_path: Some(copy_string(&files[i].1)),
            },
            None => AssetStatus {
                key: String::from_str(kind),
                status_type: String::from_str("NotDeclared"),
                file_name: None,
                file_path: None,
            },
        }
    }
}


// ---------------------------------------------------------------------------
// New song projects
// ---------------------------------------------------------------------------

/// What the file system says of a source file.
#[derive(Debug, Clone)]
pub struct SourceFileFacts {
    /// The path names an existing file.
    pub exists_as_file: bool,
    /// Its extension, as `Path::extension` gives it, when that is UTF-8.
    pub extension: Option<String>,
}

/// What a new song project request holds, with what the file system and the
/// BPM check said of it.
#[derive(Debug, Clone)]
pub struct CreateSongFacts {
    /// The last component of the target folder path, when it is UTF-8.
    pub folder_name: Option<String>,
    pub title: String,
    pub artist: String,
    pub genre: String,
    pub credit: String,
    pub display_bpm: String,
    pub song_type: String,
    /// The timing BPM lies between 10 and 1000.
    pub timing_bpm_in_range: bool,
    pub audio: SourceFileFacts,
    pub banner: Option<SourceFileFacts>,
    pub background: Option<SourceFileFacts>,
    pub video: Option<SourceFileFacts>,
}

/// The file names a new song project writes, inside its folder.
#[derive(Debug, Clone)]
pub struct SongFilePlan {
    pub audio_file: String,
    pub banner_file: Option<String>,
    pub background_file: Option<String>,
    pub video_file: Option<String>,
    pub ssc_file: String,
}

pub open spec fn ext_text(o: Option<String>) -> Seq<char> {
    match o {
        Some(e) => e@,
        None => Seq::empty(),
    }
}

pub open spec fn is_image_ext(lower: Seq<char>) -> bool {
    lower == "png"@ || lower == "jpg"@ || lower == "jpeg"@
}

pub open spec fn is_video_ext(lower: Seq<char>) -> bool {
    lower == "mp4"@ || lower == "mov"@ || lower == "avi"@ || lower == "mpg"@ || lower == "mpeg"@
}

pub open spec fn is_song_type(t: Seq<char>) -> bool {
    t == "ARCADE"@ || t == "SHORTCUT"@ || t == "REMIX"@ || t == "FULLSONG"@
}

/// The check of the audio source: missing file, no extension, or one that
/// is not mp3, ogg, flac or wav in any case.
pub open spec fn audio_source_error(a: SourceFileFacts) -> Option<Seq<char>> {
    if !a.exists_as_file {
        Some("Audio file does not exist or is not a file."@)
    } else if a.extension is None {
        Some("Audio file has no extension."@)
    } else if !is_supported_audio_ext(lowercase_of(ext_text(a.extension))) {
        Some("Unsupported audio format. Allowed: .mp3, .ogg, .flac, .wav"@)
    } else {
        None
    }
}

/// The check of an optional image or video source: missing file, then a
/// lower-cased extension outside the allowed ones.
pub open spec fn optional_asset_error(
    f: Option<SourceFileFacts>,
    what: Seq<char>,
    video: bool,
) -> Option<Seq<char>> {
    match f {
        None => None,
        Some(x) => if !x.exists_as_file {
            Some(what + " file does not exist or is not a file."@)
        } else if video && !is_video_ext(lowercase_of(ext_text(x.extension))) {
            Some("Unsupported video format. Allowed: .mp4, .mov, .avi, .mpg, .mpeg"@)
        } else if !video && !is_image_ext(lowercase_of(ext_text(x.extension))) {
            if what == "Banner"@ {
                Some("Unsupported banner format. Allowed: .png, .jpg, .jpeg"@)
            } else {
                Some("Unsupported background format. Allowed: .png, .jpg, .jpeg"@)
            }
        } else {
            None
        },
    }
}

/// The first of two possible faults.
pub open spec fn or_else(a: Option<Seq<char>>, b: Option<Seq<char>>) -> Option<Seq<char>> {
    if a is Some {
        a
    } else {
        b
    }
}

pub open spec fn dest_name(base: Seq<char>, f: Option<SourceFileFacts>) -> Option<Seq<char>> {
    match f {
        Some(x) => Some(base + "."@ + lowercase_of(ext_text(x.extension))),
        None => None,
    }
}

/// What a new song project request comes to: the first check that fails, in
/// the order they are made, or the names of the files to write.
pub open spec fn create_song_check(f: CreateSongFacts) -> Result<
    (Seq<char>, Option<Seq<char>>, Option<Seq<char>>, Option<Seq<char>>, Seq<char>),
    Seq<char>,
> {
    match f.folder_name {
        None => Err("Invalid target folder path"@),
        Some(name) => {
            let folder = folder_name_check(trim(name@), uppercase_of(trim(name@)));
            let audio_lower = lowercase_of(ext_text(f.audio.extension));
            let e = or_else(
                match folder {
                    Err(m) => Some(m),
                    Ok(_) => None,
                },
                or_else(
                    metadata_field_error(f.title@, "Title"@),
                    or_else(
                        metadata_field_error(f.artist@, "Artist"@),
                        or_else(
                            metadata_field_error(f.genre@, "Genre"@),
                            or_else(
                                metadata_field_error(f.credit@, "Credit"@),
                                or_else(
                                    metadata_field_error(f.display_bpm@, "Display BPM"@),
                                    or_else(
                                        audio_source_error(f.audio),
                                        or_else(
                                            optional_asset_error(f.banner, "Banner"@, false),
                                            or_else(
                                                optional_asset_error(
                                                    f.background,
                                                    "Background"@,
                                                    false,
                                                ),
                                                or_else(
                                                    optional_asset_error(f.video, "Video"@, true),
                                                    or_else(
                                                        if !f.timing_bpm_in_range {
                                                            Some(
                                                                "Timing BPM must be a reasonable number between 10.0 and 1000.0."@,
                                                            )
                                                        } else {
                                                            None
                                                        },
                                                        if !is_song_type(f.song_type@) {
                                                            Some(
                                                                "Unsupported song type. Allowed: ARCADE, SHORTCUT, REMIX, FULLSONG"@,
                                                            )
                                                        } else {
                                                            None
                                                        },
                                                    ),
                                                ),
                                            ),
                                        ),
                                    ),
                                ),
                            ),
                        ),
                    ),
                ),
            );
            match e {
                Some(m) => Err(m),
                None => Ok(
                    (
                        "audio"@ + "."@ + audio_lower,
                        dest_name("banner"@, f.banner),
                        dest_name("background"@, f.background),
                        dest_name("video"@, f.video),
                        name@ + ".ssc"@,
                    ),
                ),
            }
        },
    }
}

pub open spec fn plan_view(p: SongFilePlan) -> (
    Seq<char>,
    Option<Seq<char>>,
    Option<Seq<char>>,
    Option<Seq<char>>,
    Seq<char>,
) {
    (
        p.audio_file@,
        opt_string_view(p.banner_file),
        opt_string_view(p.background_file),
        opt_string_view(p.video_file),
        p.ssc_file@,
    )
}

fn lower_ext(o: &Option<String>) -> (r: Vec<char>)
    ensures
        r@ == lowercase_of(ext_text(*o)),
{
    match o {
        Some(e) => lowercase_chars(chars_of(e.as_str()).as_slice()),
        None => lowercase_chars(Vec::<char>::new().as_slice()),
    }
}

fn optional_asset_check(f: &Option<SourceFileFacts>, what: &str, video: bool) -> (r: Result<
    Option<Vec<char>>,
    String,
>)
    requires
        what@ == "Banner"@ || what@ == "Background"@ || what@ == "Video"@,
        video == (what@ == "Video"@),
    ensures
        match r {
            Err(m) => optional_asset_error(*f, what@, video) == Some(m@),
            Ok(l) => optional_asset_error(*f, what@, video) is None && match *f {
                Some(x) => l is Some && l->0@ == lowercase_of(ext_text(x.extension)),
                None => l is None,
            },
        },
{
    match f {
        None => Ok(None),
        Some(x) => {
            if !x.exists_as_file {
                let mut m: Vec<char> = Vec::new();
                push_str(&mut m, what);
                push_str(&mut m, " file does not exist or is not a file.");
                return Err(string_from_chars(m.as_slice()));
            }
            let l = lower_ext(&x.extension);
            if video {
                let ok = chars_are(l.as_slice(), "mp4") || chars_are(l.as_slice(), "mov")
                    || chars_are(l.as_slice(), "avi") || chars_are(l.as_slice(), "mpg")
                    || chars_are(l.as_slice(), "mpeg");
                if !ok {
                    return Err(
                        String::from_str(
                            "Unsupported video format. Allowed: .mp4, .mov, .avi, .mpg, .mpeg",
                        ),
                    );
                }
            } else {
                let ok = chars_are(l.as_slice(), "png") || chars_are(l.as_slice(), "jpg")
                    || chars_are(l.as_slice(), "jpeg");
                if !ok {
                    proof {
                        reveal_strlit("Banner");
                        reveal_strlit("Background");
                    }
                    if chars_are(chars_of(what).as_slice(), "Banner") {
                        return Err(
                            String::from_str("Unsupported banner format. Allowed: .png, .jpg, .jpeg"),
                        );
                    } else {
                        return Err(
                            String::from_str(
                                "Unsupported background format. Allowed: .png, .jpg, .jpeg",
                            ),
                        );
                    }
                }
            }
            Ok(Some(l))
        },
    }
}

fn named_file(base: &str, ext: &[char]) -> (s: String)
    ensures
        s@ == base@ + "."@ + ext@,
{
    let mut v: Vec<char> = Vec::new();
    push_str(&mut v, base);
    push_str(&mut v, ".");
    push_all(&mut v, ext);
    string_from_chars(v.as_slice())
}

/// Checks a new song project request and names the files it will write.
pub fn check_create_song(f: &CreateSongFacts) -> (r: Result<SongFilePlan, String>)
    ensures
        match r {
            Ok(p) => create_song_check(*f) == Ok::<
                (Seq<char>, Option<Seq<char>>, Option<Seq<char>>, Option<Seq<char>>, Seq<char>),
                Seq<char>,
            >(plan_view(p)),
            Err(m) => create_song_check(*f) == Err::<
                (Seq<char>, Option<Seq<char>>, Option<Seq<char>>, Option<Seq<char>>, Seq<char>),
                Seq<char>,
            >(m@),
        },
{
    let name = match &f.folder_name {
        Some(n) => n,
        None => {
            return Err(String::from_str("Invalid target folder path"));
        },
    };
    match validate_folder_name_rules(name.as_str()) {
        Err(m) => {
            return Err(m);
        },
        Ok(_) => {},
    }
    validate_metadata_field(f.title.as_str(), "Title")?;
    validate_metadata_field(f.artist.as_str(), "Artist")?;
    validate_metadata_field(f.genre.as_str(), "Genre")?;
    validate_metadata_field(f.credit.as_str(), "Credit")?;
    validate_metadata_field(f.display_bpm.as_str(), "Display BPM")?;
    if !f.audio.exists_as_file {
        return Err(String::from_str("Audio file does not exist or is not a file."));
    }
    if f.audio.extension.is_none() {
        return Err(String::from_str("Audio file has no extension."));
    }
    let audio_lower = lower_ext(&f.audio.extension);
    if !supported_audio_extension(audio_lower.as_slice()) {
        return Err(String::from_str("Unsupported audio format. Allowed: .mp3, .ogg, .flac, .wav"));
    }
    proof {
        reveal_strlit("Banner");
        reveal_strlit("Background");
        reveal_strlit("Video");
        assert("Banner"@.len() != "Video"@.len());
        assert("Background"@.len() != "Video"@.len());
    }
    let banner = optional_asset_check(&f.banner, "Banner", false)?;
    let background = optional_asset_check(&f.background, "Background", false)?;
    let video = optional_asset_check(&f.video, "Video", true)?;
    if !f.timing_bpm_in_range {
        return Err(
            String::from_str("Timing BPM must be a reasonable number between 10.0 and 1000.0."),
        );
    }
    let st = chars_of(f.song_type.as_str());
    if !(chars_are(st.as_slice(), "ARCADE") || chars_are(st.as_slice(), "SHORTCUT") || chars_are(
        st.as_slice(),
        "REMIX",
    ) || chars_are(st.as_slice(), "FULLSONG")) {
        return Err(
            String::from_str("Unsupported song type. Allowed: ARCADE, SHORTCUT, REMIX, FULLSONG"),
        );
    }
    let banner_file = match banner {
        Some(l) => Some(named_file("banner", l.as_slice())),
        None => None,
    };
    let background_file = match background {
        Some(l) => Some(named_file("background", l.as_slice())),
        None => None,
    };
    let video_file = match video {
        Some(l) => Some(named_file("video", l.as_slice())),
        None => None,
    };
    let mut ssc: Vec<char> = chars_of(name.as_str());
    push_str(&mut ssc, ".ssc");
    let plan = SongFilePlan {
        audio_file: named_file("audio", audio_lower.as_slice()),
        banner_file,
        background_file,
        video_file,
        ssc_file: string_from_chars(ssc.as_slice()),
    };
    Ok(plan)
}


/// The destination files that are already taken, in the order they are
/// checked: audio, banner, background, video, then the SSC file.
pub open spec fn taken_names(
    plan: (Seq<char>, Option<Seq<char>>, Option<Seq<char>>, Option<Seq<char>>, Seq<char>),
    taken: (bool, bool, bool, bool, bool),
) -> Seq<Seq<char>> {
    (if taken.0 {
        seq![plan.0]
    } else {
        Seq::empty()
    }) + (if taken.1 && plan.1 is Some {
        seq![plan.1->0]
    } else {
        Seq::empty()
    }) + (if taken.2 && plan.2 is Some {
        seq![plan.2->0]
    } else {
        Seq::empty()
    }) + (if taken.3 && plan.3 is Some {
        seq![plan.3->0]
    } else {
        Seq::empty()
    }) + (if taken.4 {
        seq![plan.4]
    } else {
        Seq::empty()
    })
}

/// Refuses to overwrite: `taken` says, for the audio, banner, background
/// and video destinations, whether another file already stands there, and
/// for the SSC file whether it exists.
pub fn check_collisions(
    plan: &SongFilePlan,
    audio_taken: bool,
    banner_taken: bool,
    background_taken: bool,
    video_taken: bool,
    ssc_taken: bool,
) -> (r: Result<(), String>)
    ensures
        ({
            let names = taken_names(
                plan_view(*plan),
                (audio_taken, banner_taken, background_taken, video_taken, ssc_taken),
            );
            &&& names.len() == 0 ==> r is Ok
            &&& names.len() > 0 ==> r is Err && r->Err_0@
                == "File collision detected. The following destination files already exist: "@
                + join_with(names, ", "@) + ". Overwrite blocked."@
        }),
{
    let mut names: Vec<String> = Vec::new();
    let ghost pv = plan_view(*plan);
    if audio_taken {
        names.push(copy_string(&plan.audio_file));
    }
    let ghost n1 = string_views(names@);
    match &plan.banner_file {
        Some(b) => if banner_taken {
            names.push(copy_string(b));
        },
        None => {},
    }
    let ghost n2 = string_views(names@);
    match &plan.background_file {
        Some(b) => if background_taken {
            names.push(copy_string(b));
        },
        None => {},
    }
    let ghost n3 = string_views(names@);
    match &plan.video_file {
        Some(b) => if video_taken {
            names.push(copy_string(b));
        },
        None => {},
    }
    let ghost n4 = string_views(names@);
    if ssc_taken {
        names.push(copy_string(&plan.ssc_file));
    }
    assert(string_views(names@) =~= taken_names(
        pv,
        (audio_taken, banner_taken, background_taken, video_taken, ssc_taken),
    ));
    if names.len() == 0 {
        return Ok(());
    }
    let mut m: Vec<char> = Vec::new();
    push_str(&mut m, "File collision detected. The following destination files already exist: ");
    push_joined(&mut m, &names, ", ");
    push_str(&mut m, ". Overwrite blocked.");
    Err(string_from_chars(m.as_slice()))
}

/// The global tags of a new song's SSC file, in order. `offset_text` and
/// `bpm_text` are the offset written with six decimals and the timing BPM
/// with three.
pub open spec fn new_song_tag_views(
    f: CreateSongFacts,
    plan: (Seq<char>, Option<Seq<char>>, Option<Seq<char>>, Option<Seq<char>>, Seq<char>),
    offset_text: Seq<char>,
    bpm_text: Seq<char>,
) -> Seq<(Option<Seq<char>>, Seq<char>)> {
    seq![
        key_value("VERSION"@, "0.81"@),
        key_value("TITLE"@, f.title@),
        key_value("SUBTITLE"@, Seq::empty()),
        key_value("ARTIST"@, f.artist@),
        key_value("TITLETRANSLIT"@, Seq::empty()),
        key_value("SUBTITLETRANSLIT"@, Seq::empty()),
        key_value("ARTISTTRANSLIT"@, Seq::empty()),
        key_value("GENRE"@, f.genre@),
        key_value("ORIGIN"@, "AI_SUITE"@),
        key_value("CREDIT"@, f.credit@),
        key_value("BANNER"@, opt_text(plan.1)),
        key_value("BACKGROUND"@, opt_text(plan.2)),
        key_value("PREVIEWVID"@, opt_text(plan.3)),
        key_value("CDTITLE"@, Seq::empty()),
        key_value("MUSIC"@, plan.0),
        key_value("OFFSET"@, offset_text),
        key_value("SAMPLESTART"@, "30.000000"@),
        key_value("SAMPLELENGTH"@, "10.000000"@),
        key_value("SELECTABLE"@, "YES"@),
        key_value("SONGTYPE"@, f.song_type@),
        key_value("SONGCATEGORY"@, "WORLD MUSIC"@),
        key_value("VOLUME"@, "100"@),
        key_value("DISPLAYBPM"@, f.display_bpm@),
        key_value("BPMS"@, "0.000="@ + bpm_text),
        key_value("TIMESIGNATURES"@, "0.000=4=4"@),
        key_value("TICKCOUNTS"@, "0.000=4"@),
        key_value("COMBOS"@, "0.000=1"@),
        key_value("SPEEDS"@, "0.000=1.000=0.000=0"@),
        key_value("SCROLLS"@, "0.000=1.000"@),
        key_value("LABELS"@, "0.000=Song Start"@),
    ]
}

pub open spec fn opt_text(o: Option<Seq<char>>) -> Seq<char> {
    match o {
        Some(s) => s,
        None => Seq::empty(),
    }
}

fn opt_copy(o: &Option<String>) -> (r: String)
    ensures
        r@ == opt_text(opt_string_view(*o)),
{
    match o {
        Some(s) => copy_string(s),
        None => String::new(),
    }
}

fn push_tag(tags: &mut Vec<SscTag>, k: &str, v: String)
    ensures
        tag_views(final(tags)@) == tag_views(old(tags)@).push(key_value(k@, v@)),
{
    let ghost before = tags@;
    tags.push(tag(k, v));
    assert(tag_views(tags@) =~= tag_views(before).push(key_value(k@, v@)));
}

/// The global tags of a new song's SSC file.
pub fn new_song_tags(f: &CreateSongFacts, plan: &SongFilePlan, offset_text: &str, bpm_text: &str) -> (tags: Vec<SscTag>)
    ensures
        tag_views(tags@) == new_song_tag_views(*f, plan_view(*plan), offset_text@, bpm_text@),
{
    let mut t: Vec<SscTag> = Vec::new();
    push_tag(&mut t, "VERSION", String::from_str("0.81"));
    push_tag(&mut t, "TITLE", copy_string(&f.title));
    push_tag(&mut t, "SUBTITLE", String::new());
    push_tag(&mut t, "ARTIST", copy_string(&f.artist));
    push_tag(&mut t, "TITLETRANSLIT", String::new());
    push_tag(&mut t, "SUBTITLETRANSLIT", String::new());
    push_tag(&mut t, "ARTISTTRANSLIT", String::new());
    push_tag(&mut t, "GENRE", copy_string(&f.genre));
    push_tag(&mut t, "ORIGIN", String::from_str("AI_SUITE"));
    push_tag(&mut t, "CREDIT", copy_string(&f.credit));
    push_tag(&mut t, "BANNER", opt_copy(&plan.banner_file));
    push_tag(&mut t, "BACKGROUND", opt_copy(&plan.background_file));
    push_tag(&mut t, "PREVIEWVID", opt_copy(&plan.video_file));
    push_tag(&mut t, "CDTITLE", String::new());
    push_tag(&mut t, "MUSIC", copy_string(&plan.audio_file));
    push_tag(&mut t, "OFFSET", String::from_str(offset_text));
    push_tag(&mut t, "SAMPLESTART", String::from_str("30.000000"));
    push_tag(&mut t, "SAMPLELENGTH", String::from_str("10.000000"));
    push_tag(&mut t, "SELECTABLE", String::from_str("YES"));
    push_tag(&mut t, "SONGTYPE", copy_string(&f.song_type));
    push_tag(&mut t, "SONGCATEGORY", String::from_str("WORLD MUSIC"));
    push_tag(&mut t, "VOLUME", String::from_str("100"));
    push_tag(&mut t, "DISPLAYBPM", copy_string(&f.display_bpm));
    let mut b: Vec<char> = Vec::new();
    push_str(&mut b, "0.000=");
    push_str(&mut b, bpm_text);
    push_tag(&mut t, "BPMS", string_from_chars(b.as_slice()));
    push_tag(&mut t, "TIMESIGNATURES", String::from_str("0.000=4=4"));
    push_tag(&mut t, "TICKCOUNTS", String::from_str("0.000=4"));
    push_tag(&mut t, "COMBOS", String::from_str("0.000=1"));
    push_tag(&mut t, "SPEEDS", String::from_str("0.000=1.000=0.000=0"));
    push_tag(&mut t, "SCROLLS", String::from_str("0.000=1.000"));
    push_tag(&mut t, "LABELS", String::from_str("0.000=Song Start"));
    assert(tag_views(t@) =~= new_song_tag_views(*f, plan_view(*plan), offset_text@, bpm_text@));
    t
}


// ---------------------------------------------------------------------------
// File fingerprints
// ---------------------------------------------------------------------------

/// The identity of an SSC file's contents: its size, the SHA-256 of its
/// bytes in lower-case hexadecimal, and its modification time in seconds
/// since the epoch.
#[derive(Debug, Clone)]
pub struct FileFingerprint {
    pub file_size: u64,
    pub sha256: String,
    pub modified_time: u64,
}

fn is_ascii_ssc(e: &[char]) -> (b: bool)
    ensures
        b == (ascii_lower(e@) == "ssc"@),
{
    proof {
        reveal_strlit("ssc");
    }
    if e.len() != 3 {
        assert(ascii_lower(e@).len() != 3);
        return false;
    }
    let a = e[0] == 's' || e[0] == 'S';
    let b = e[1] == 's' || e[1] == 'S';
    let c = e[2] == 'c' || e[2] == 'C';
    proof {
        if ascii_lower(e@) == "ssc"@ {
            assert(ascii_lower(e@)[0] == 's' && ascii_lower(e@)[1] == 's' && ascii_lower(e@)[2] == 'c');
        }
        if a && b && c {
            assert(ascii_lower(e@) =~= "ssc"@);
        }
    }
    a && b && c
}

/// The refusal of a file that is not an SSC file.
pub open spec fn ssc_only_message() -> Seq<char> {
    "Solo se permite calcular el fingerprint de archivos con extensión .ssc"@
}

/// Accepts exactly the extension `ssc`, in any ASCII case.
pub fn check_ssc_extension(ext: Option<&str>) -> (r: Result<(), String>)
    ensures
        r is Ok <==> (ext is Some && ascii_lower(ext->0@) == "ssc"@),
        r is Err ==> r->Err_0@ == ssc_only_message(),
{
    match ext {
        Some(e) => {
            let ec = chars_of(e);
            if is_ascii_ssc(ec.as_slice()) {
                Ok(())
            } else {
                Err(String::from_str("Solo se permite calcular el fingerprint de archivos con extensión .ssc"))
            }
        },
        None => Err(String::from_str("Solo se permite calcular el fingerprint de archivos con extensión .ssc")),
    }
}

/// Only `.ssc` files (the extension in any case) are fingerprinted: the
/// path's extension (`Path::extension`) goes to `check_ssc_extension`.
pub fn check_fingerprint_extension(path: &str) -> (r: Result<(), String>)
    ensures
        r is Ok ==> exists|e: Seq<char>| has_extension(path@, e) && ascii_lower(e) == "ssc"@,
        r is Err ==> r->Err_0@ == ssc_only_message(),
        simple_path(path@) ==> (r is Ok <==> name_extension(path@) is Some && ascii_lower(
            name_extension(path@)->0,
        ) == "ssc"@),
{
    let ext = path_extension(path);
    match ext {
        Some(e) => {
            let r = check_ssc_extension(Some(e.as_str()));
            assert(r is Ok ==> has_extension(path@, e@));
            r
        },
        None => check_ssc_extension(None),
    }
}

/// The fingerprint of a file from its bytes, size and modification time.
pub fn file_fingerprint(contents: &[u8], file_size: u64, modified_time: u64) -> (f: FileFingerprint)
    ensures
        f.file_size == file_size,
        f.modified_time == modified_time,
        f.sha256@ == hex_text(sha256_digest_of(contents@)),
{
    let digest = sha256_of_bytes(contents);
    FileFingerprint { file_size, sha256: hex_encode(digest.as_slice()), modified_time }
}


// ---------------------------------------------------------------------------
// Commands over the checks
// ---------------------------------------------------------------------------

/// Checks a song folder name: what `validate_folder_name_rules` says.
pub fn validate_folder_name(name: String) -> (r: Result<String, String>)
    ensures
        result_view(r) == folder_name_check(trim(name@), uppercase_of(trim(name@))),
{
    validate_folder_name_rules(name.as_str())
}

/// Validates a chart's notes for a play mode and level.
pub fn validate_chart_notes(play_mode: PlayMode, difficulty_level: u32, notes_raw: String) -> (res:
    ValidatedChartSection)
    ensures
        res.play_mode == play_mode,
        res.difficulty_level == difficulty_level,
        issue_views(res.issues@) == chart_issues(play_mode, difficulty_level, notes_raw@),
{
    validate_chart(play_mode, difficulty_level, notes_raw.as_str())
}

// ---------------------------------------------------------------------------
// Appending charts
// ---------------------------------------------------------------------------

/// What an append reports: the file's charts afterwards, the validation,
/// whether the file was written, a message, and the backup taken.
#[derive(Debug, Clone)]
pub struct AppendChartResult {
    pub charts: Vec<ChartDetails>,
    pub validation: ValidatedChartSection,
    pub written: bool,
    pub message: String,
    pub generated_notes: Option<String>,
    pub raw_payload: Option<String>,
    pub backup_path: Option<String>,
}

/// The report of an append refused because the chart has validation
/// errors: nothing was written.
pub fn aborted_append(charts: Vec<ChartDetails>, validation: ValidatedChartSection) -> (r: AppendChartResult)
    ensures
        r.charts == charts,
        r.validation == validation,
        !r.written,
        r.message@ == "Se abortó la escritura en disco debido a errores de validación biomecánica."@,
        r.generated_notes is None && r.raw_payload is None && r.backup_path is None,
{
    AppendChartResult {
        charts,
        validation,
        written: false,
        message: String::from_str("Se abortó la escritura en disco debido a errores de validación biomecánica."),
        generated_notes: None,
        raw_payload: None,
        backup_path: None,
    }
}

/// The report of an append that wrote the file.
pub fn completed_append(
    charts: Vec<ChartDetails>,
    validation: ValidatedChartSection,
    backup_path: Option<String>,
) -> (r: AppendChartResult)
    ensures
        r.charts == charts,
        r.validation == validation,
        r.written,
        r.message@ == "Chart añadido y guardado con éxito."@,
        r.generated_notes is None && r.raw_payload is None,
        r.backup_path == backup_path,
{
    AppendChartResult {
        charts,
        validation,
        written: true,
        message: String::from_str("Chart añadido y guardado con éxito."),
        generated_notes: None,
        raw_payload: None,
        backup_path,
    }
}

/// The name of a backup of an SSC file: `{stem}.{timestamp}.bak.ssc`, and
/// for the n-th retry when that name is taken `{stem}.{timestamp}_{n}.bak.ssc`.
pub open spec fn backup_name(stem: Seq<char>, timestamp: u64, attempt: u32) -> Seq<char> {
    if attempt == 0 {
        stem + "."@ + decimal(timestamp as nat) + ".bak.ssc"@
    } else {
        stem + "."@ + decimal(timestamp as nat) + "_"@ + decimal(attempt as nat) + ".bak.ssc"@
    }
}

pub fn backup_file_name(stem: &str, timestamp: u64, attempt: u32) -> (r: String)
    ensures
        r@ == backup_name(stem@, timestamp, attempt),
{
    let mut v: Vec<char> = Vec::new();
    push_str(&mut v, stem);
    push_str(&mut v, ".");
    push_decimal(&mut v, timestamp as u128);
    if attempt > 0 {
        push_str(&mut v, "_");
        push_decimal(&mut v, attempt as u128);
    }
    push_str(&mut v, ".bak.ssc");
    string_from_chars(v.as_slice())
}

/// What a chosen destination folder holds: nothing yet, an empty folder, a
/// folder with an SSC file, or a folder with other files. `listing` is
/// whether the folder is empty, or why it could not be read.
pub fn destination_folder_status(
    exists: bool,
    is_dir: bool,
    listing: Result<bool, String>,
    has_ssc: bool,
) -> (r: Result<String, String>)
    ensures
        !exists ==> r is Ok && r->Ok_0@ == "NotExist"@,
        exists && !is_dir ==> r is Err && r->Err_0@
            == "The specified path exists but is not a directory."@,
        exists && is_dir ==> match listing {
            Err(e) => r is Err && r->Err_0@ == "Failed to read directory: "@ + e@ + ". (Check permissions)"@,
            Ok(true) => r is Ok && r->Ok_0@ == "ExistEmpty"@,
            Ok(false) => r is Ok && r->Ok_0@ == if has_ssc {
                "ExistWithSsc"@
            } else {
                "ExistNotEmpty"@
            },
        },
{
    if !exists {
        return Ok(String::from_str("NotExist"));
    }
    if !is_dir {
        return Err(String::from_str("The specified path exists but is not a directory."));
    }
    match listing {
        Err(e) => {
            let mut v: Vec<char> = Vec::new();
            push_str(&mut v, "Failed to read directory: ");
            push_str(&mut v, e.as_str());
            push_str(&mut v, ". (Check permissions)");
            Err(string_from_chars(v.as_slice()))
        },
        Ok(true) => Ok(String::from_str("ExistEmpty")),
        Ok(false) => if has_ssc {
            Ok(String::from_str("ExistWithSsc"))
        } else {
            Ok(String::from_str("ExistNotEmpty"))
        },
    }
}


/// Calls `Path::file_name` and keeps the name when it is valid UTF-8. The
/// name is the path's last normal component, a slice of the path
/// (`"a/foo.txt/."` gives `foo.txt`), so it occurs in the path and holds no
/// `/`. A path of one component (`simple_path`) is its own name on every
/// platform. For other paths, which component is last and which characters
/// separate components depend on the platform and are not stated.
#[verifier::external_body]
pub(crate) fn path_file_name(path: &str) -> (r: Option<String>)
    ensures
        match r {
            Some(n) => contains_seq(path@, n@) && !n@.contains('/'),
            None => true,
        },
        simple_path(path@) ==> r is Some && r->0@ == path@,
{
    std::path::Path::new(path).file_name().and_then(|n| n.to_str()).map(|n| n.to_string())
}

/// A file's name, extension (empty when it has none) and size.
#[derive(Debug, Clone)]
pub struct FileMetadata {
    pub name: String,
    pub extension: String,
    pub size: u64,
}

/// The metadata of a file from its path and its size on disk.
pub fn file_metadata(path: &str, size: u64) -> (r: Result<FileMetadata, String>)
    ensures
        match r {
            Ok(m) => {
                &&& contains_seq(path@, m.name@) && !m.name@.contains('/')
                &&& m.extension@.len() == 0 || has_extension(path@, m.extension@)
                &&& m.size == size
            },
            Err(e) => e@ == "Failed to get file name."@,
        },
        simple_path(path@) ==> r is Ok && r->Ok_0.name@ == path@ && r->Ok_0.extension@ == match name_extension(
            path@,
        ) {
            Some(e) => e,
            None => Seq::<char>::empty(),
        },
{
    let name = match path_file_name(path) {
        Some(n) => n,
        None => {
            return Err(String::from_str("Failed to get file name."));
        },
    };
    let extension = match path_extension(path) {
        Some(e) => e,
        None => String::new(),
    };
    Ok(FileMetadata { name, extension, size })
}


// ---------------------------------------------------------------------------
// Numbers written and read back
// ---------------------------------------------------------------------------

proof fn lemma_digit_char_value(d: nat)
    requires
        d < 10,
    ensures
        is_digit(digit_char(d)),
        ((digit_char(d) as u32) - ('0' as u32)) as nat == d,
{
}

/// The decimal text of a number is digits that write the number.
pub proof fn lemma_decimal_digits(n: nat)
    ensures
        decimal(n).len() > 0,
        all_digits(decimal(n)),
        digits_value(decimal(n)) == n,
    decreases n,
{
    if n < 10 {
        lemma_digit_char_value(n);
        let d = decimal(n);
        assert(d.drop_last() =~= Seq::<char>::empty());
        assert(d.last() == digit_char(n));
        assert(digits_value(d) == digits_value(d.drop_last()) * 10 + ((d.last() as u32) - ('0' as u32)) as nat);
    } else {
        lemma_decimal_digits(n / 10);
        lemma_digit_char_value(n % 10);
        let d = decimal(n);
        assert(d.drop_last() =~= decimal(n / 10));
        assert(d.last() == digit_char(n % 10));
        assert forall|i: int| 0 <= i < d.len() implies is_digit(#[trigger] d[i]) by {
            if i < d.len() - 1 {
                assert(d[i] == decimal(n / 10)[i]);
            }
        }
        assert(digits_value(d) == digits_value(d.drop_last()) * 10 + ((d.last() as u32) - ('0' as u32)) as nat);
        assert(n == (n / 10) * 10 + n % 10) by (nonlinear_arith);
    }
}

/// Reading back the decimal text of a `u32` gives the number.
pub proof fn lemma_parse_decimal(n: u32)
    ensures
        parse_u32_text(decimal(n as nat)) == Some(n),
{
    lemma_decimal_digits(n as nat);
    assert(is_digit(decimal(n as nat)[0]));
}

proof fn lemma_last_tag_unique(tags: Seq<SscTag>, k: Seq<char>, j: int)
    requires
        0 <= j < tags.len(),
        tag_has_key(tags[j], k),
        forall|i: int| 0 <= i < tags.len() && i != j ==> !tag_has_key(#[trigger] tags[i], k),
    ensures
        last_tag_value(tags, k) == Some(tags[j].value@),
    decreases tags.len(),
{
    if j < tags.len() - 1 {
        let d = tags.drop_last();
        assert forall|i: int| 0 <= i < d.len() && i != j implies !tag_has_key(#[trigger] d[i], k) by {
            assert(d[i] == tags[i]);
        }
        assert(d[j] == tags[j]);
        lemma_last_tag_unique(d, k, j);
    }
}

proof fn lemma_meter_unique(tags: Seq<SscTag>, j: int)
    requires
        0 <= j < tags.len(),
        tag_has_key(tags[j], "METER"@),
        parse_u32_text(tags[j].value@) is Some,
        forall|i: int| 0 <= i < tags.len() && i != j ==> !tag_has_key(#[trigger] tags[i], "METER"@),
    ensures
        tag_meter(tags) == parse_u32_text(tags[j].value@)->0,
    decreases tags.len(),
{
    if j < tags.len() - 1 {
        let d = tags.drop_last();
        assert forall|i: int| 0 <= i < d.len() && i != j implies !tag_has_key(#[trigger] d[i], "METER"@) by {
            assert(d[i] == tags[i]);
        }
        assert(d[j] == tags[j]);
        lemma_meter_unique(d, j);
    }
}

/// A chart's tags as the append writes them read back as the chart was
/// described: its steps type, the `Edit` difficulty, its level as meter,
/// its description and author.
pub proof fn lemma_new_chart_tags_read_back(
    tags: Seq<SscTag>,
    mode: PlayMode,
    level: u32,
    description: Seq<char>,
    author: Seq<char>,
)
    requires
        tag_views(tags) == new_chart_tag_views(mode, level, description, author),
    ensures
        tag_text(tags, "STEPSTYPE"@) == steps_type_name(mode),
        tag_text(tags, "DIFFICULTY"@) == "Edit"@,
        tag_text(tags, "DESCRIPTION"@) == description,
        tag_text(tags, "CREDIT"@) == author,
        tag_meter(tags) == level,
{
    let v = new_chart_tag_views(mode, level, description, author);
    assert(tag_views(tags).len() == tags.len());
    assert forall|i: int| 0 <= i < 7 implies (#[trigger] tags[i]).key is Some && tags[i].key->0@
        == v[i].0->0 && tags[i].value@ == v[i].1 by {
        assert(tag_views(tags)[i] == v[i]);
    }
    reveal_strlit("NOTEDATA");
    reveal_strlit("STEPSTYPE");
    reveal_strlit("DESCRIPTION");
    reveal_strlit("DIFFICULTY");
    reveal_strlit("METER");
    reveal_strlit("CREDIT");
    reveal_strlit("NOTES");
    let keys = seq!["NOTEDATA"@, "STEPSTYPE"@, "DESCRIPTION"@, "DIFFICULTY"@, "METER"@, "CREDIT"@, "NOTES"@];
    assert forall|i: int| 0 <= i < 7 implies (#[trigger] tags[i]).key->0@ == keys[i] by {}
    assert forall|a: int, b: int| 0 <= a < 7 && 0 <= b < 7 && a != b implies keys[a] != keys[b] by {
        if keys[a] == keys[b] {
            assert(keys[a].len() == keys[b].len());
            assert(keys[a][0] == keys[b][0]);
        }
    }
    lemma_last_tag_unique(tags, "STEPSTYPE"@, 1);
    lemma_last_tag_unique(tags, "DESCRIPTION"@, 2);
    lemma_last_tag_unique(tags, "DIFFICULTY"@, 3);
    lemma_last_tag_unique(tags, "CREDIT"@, 5);
    lemma_parse_decimal(level);
    lemma_meter_unique(tags, 4);
}


/// A folder name is accepted exactly when, trimmed, it is not empty, holds
/// none of `< > : " / \\ | ? *` and no control character, is not a Windows
/// reserved name in upper case, and does not end with a dot; an accepted
/// name comes back trimmed, and the rules accept that name again, unchanged.
pub proof fn lemma_folder_name_stable(name: Seq<char>)
    ensures
        ({
            let t = trim(name);
            let r = folder_name_check(t, uppercase_of(t));
            &&& r is Ok <==> (t.len() > 0 && !has_prohibited_folder_char(t) && !has_control_char(t)
                && !windows_reserved_names().contains(uppercase_of(t)) && !ends_with(t, "."@))
            &&& r is Ok ==> r == Ok::<Seq<char>, Seq<char>>(t)
            &&& r is Ok ==> folder_name_check(trim(t), uppercase_of(trim(t))) == r
        }),
{
    lemma_trim_idempotent(name);
    lemma_trim_ends(name);
    reveal_strlit(" ");
    let t = trim(name);
    if t.len() > 0 && ends_with(t, " "@) {
        assert(t.subrange(t.len() - 1, t.len() as int) == " "@);
        assert(t.last() == t.subrange(t.len() - 1, t.len() as int)[0]);
        assert(is_ws(' '));
    }
}

// ---------------------------------------------------------------------------
// The request for one section
// ---------------------------------------------------------------------------

/// How the prompt names a play mode.
pub open spec fn prompt_mode_name(mode: PlayMode) -> Seq<char> {
    match mode {
        PlayMode::Single => "Single (5 flechas)"@,
        PlayMode::Double => "Double (10 flechas)"@,
    }
}

/// The prompt that asks the model for section `section_id` over measures
/// `start` to `end` (`num` of them): the song's details, the intent lines,
/// the JSON contract with a sample measure, and the biomechanical rules.
pub open spec fn preview_prompt(
    section_id: Seq<char>,
    mode: PlayMode,
    level: u32,
    start: u32,
    end: u32,
    num: u32,
    song_type: Seq<char>,
    intent_info: Seq<char>,
) -> Seq<char> {
        "Eres un stepmaker experto de Pump It Up. Genera un chart coreográfico de Pump It Up para la sección '"@
        + section_id
        + "' de la canción. Detalles de la Canción y Sección:\n- Modo de Juego: "@
        + prompt_mode_name(mode)
        + "\n- Nivel de Dificultad Solicitado: "@
        + decimal(level as nat)
        + "\n- Rango de Compases (Measures): "@
        + decimal(start as nat)
        + " a "@
        + decimal(end as nat)
        + " (ambos inclusive)\n- Tipo de Canción: "@
        + song_type
        + "\n"@
        + intent_info
        + "\n[CONTRATO Y FORMATO DE RESPUESTA]\nDebes responder EXCLUSIVAMENTE en formato JSON, sin bloques de código markdown (como ```json) y sin explicaciones. El esquema JSON debe ser exactamente:\n{\n\"section_id\": \""@
        + section_id
        + "\",\n\"difficulty_level\": "@
        + decimal(level as nat)
        + ",\n\"play_mode\": \""@
        + play_mode_name(mode)
        + "\",\n\"biomechanical_state\": {\n\"current_twist_debt\": 0.0,\n\"current_stamina_debt\": 0.0,\n\"last_left_foot_lane\": null,\n\"last_right_foot_lane\": null\n},\n\"measures\": [\n{\n\"measure_index\": "@
        + decimal(start as nat)
        + ",\n\"subdivision\": 4, \n\"rows\": [\"10000\", \"01000\", \"00100\", \"00010\"]\n}\n]\n}\n\n[REGLAS BIOMECÁNICAS Y TÉCNICAS]\n1. Caracteres permitidos: Solo '0' (vacío), '1' (tap), '2' (inicio de hold/congelador), '3' (fin de hold/congelador). Queda ESTRICTAMENTE PROHIBIDO el uso de minas ('M').\n2. Longitud de fila: Para Single, cada fila debe medir exactamente 5 caracteres (esquina inferior-izquierda, esquina superior-izquierda, centro-amarillo, esquina superior-derecha, esquina inferior-derecha). Para Double, debe medir exactamente 10 caracteres.\n3. Subdivisiones: Solo se permiten subdivisiones de 4, 8, 16 o 32 filas por compás. La cantidad de filas en 'rows' debe coincidir EXACTAMENTE con el valor de 'subdivision'.\n4. Jumps (Saltos): Un jump es presionar 2 o más flechas a la vez. No coloques jumps consecutivos a alta velocidad.\n5. Triple Taps: En niveles < 16, evita triples. En niveles 16+ se permiten como Brackets (puntero-talón).\n6. Alternancia de pies: Evita double-steps rápidos (Jack rápido) en la misma flecha consecutivamente en streams de subdivision 16+.\n7. Giros y torso (Twists): Si el chart exige cruces que rotan el torso, asegúrate de proveer un contra-giro (untwist) de retorno inmediato para neutralizar la cadera.\n\nGenera el array de 'measures' de tamaño exactamente "@
        + decimal(num as nat)
        + " (una por cada compás desde "@
        + decimal(start as nat)
        + " hasta "@
        + decimal(end as nat)
        + ")."@
}

/// Writes the prompt for one section; `intent_info` holds the section's
/// choreographic intent lines, or nothing.
pub fn build_preview_prompt(
    section_id: &str,
    mode: PlayMode,
    level: u32,
    start: u32,
    end: u32,
    song_type: &str,
    intent_info: &str,
) -> (p: String)
    requires
        start <= end,
        end - start < u32::MAX,
    ensures
        p@ == preview_prompt(section_id@, mode, level, start, end, (end - start + 1) as u32, song_type@, intent_info@),
{
    let num: u32 = end - start + 1;
    let (mode_name, mode_debug) = match mode {
        PlayMode::Single => ("Single (5 flechas)", "Single"),
        PlayMode::Double => ("Double (10 flechas)", "Double"),
    };
    let mut v: Vec<char> = Vec::new();
    push_str(&mut v, "Eres un stepmaker experto de Pump It Up. Genera un chart coreográfico de Pump It Up para la sección '");
    push_str(&mut v, section_id);
    push_str(&mut v, "' de la canción. Detalles de la Canción y Sección:\n- Modo de Juego: ");
    push_str(&mut v, mode_name);
    push_str(&mut v, "\n- Nivel de Dificultad Solicitado: ");
    push_decimal(&mut v, level as u128);
    push_str(&mut v, "\n- Rango de Compases (Measures): ");
    push_decimal(&mut v, start as u128);
    push_str(&mut v, " a ");
    push_decimal(&mut v, end as u128);
    push_str(&mut v, " (ambos inclusive)\n- Tipo de Canción: ");
    push_str(&mut v, song_type);
    push_str(&mut v, "\n");
    push_str(&mut v, intent_info);
    push_str(&mut v, "\n[CONTRATO Y FORMATO DE RESPUESTA]\nDebes responder EXCLUSIVAMENTE en formato JSON, sin bloques de código markdown (como ```json) y sin explicaciones. El esquema JSON debe ser exactamente:\n{\n\"section_id\": \"");
    push_str(&mut v, section_id);
    push_str(&mut v, "\",\n\"difficulty_level\": ");
    push_decimal(&mut v, level as u128);
    push_str(&mut v, ",\n\"play_mode\": \"");
    push_str(&mut v, mode_debug);
    push_str(&mut v, "\",\n\"biomechanical_state\": {\n\"current_twist_debt\": 0.0,\n\"current_stamina_debt\": 0.0,\n\"last_left_foot_lane\": null,\n\"last_right_foot_lane\": null\n},\n\"measures\": [\n{\n\"measure_index\": ");
    push_decimal(&mut v, start as u128);
    push_str(&mut v, ",\n\"subdivision\": 4, \n\"rows\": [\"10000\", \"01000\", \"00100\", \"00010\"]\n}\n]\n}\n\n[REGLAS BIOMECÁNICAS Y TÉCNICAS]\n1. Caracteres permitidos: Solo '0' (vacío), '1' (tap), '2' (inicio de hold/congelador), '3' (fin de hold/congelador). Queda ESTRICTAMENTE PROHIBIDO el uso de minas ('M').\n2. Longitud de fila: Para Single, cada fila debe medir exactamente 5 caracteres (esquina inferior-izquierda, esquina superior-izquierda, centro-amarillo, esquina superior-derecha, esquina inferior-derecha). Para Double, debe medir exactamente 10 caracteres.\n3. Subdivisiones: Solo se permiten subdivisiones de 4, 8, 16 o 32 filas por compás. La cantidad de filas en 'rows' debe coincidir EXACTAMENTE con el valor de 'subdivision'.\n4. Jumps (Saltos): Un jump es presionar 2 o más flechas a la vez. No coloques jumps consecutivos a alta velocidad.\n5. Triple Taps: En niveles < 16, evita triples. En niveles 16+ se permiten como Brackets (puntero-talón).\n6. Alternancia de pies: Evita double-steps rápidos (Jack rápido) en la misma flecha consecutivamente en streams de subdivision 16+.\n7. Giros y torso (Twists): Si el chart exige cruces que rotan el torso, asegúrate de proveer un contra-giro (untwist) de retorno inmediato para neutralizar la cadera.\n\nGenera el array de 'measures' de tamaño exactamente ");
    push_decimal(&mut v, num as u128);
    push_str(&mut v, " (una por cada compás desde ");
    push_decimal(&mut v, start as u128);
    push_str(&mut v, " hasta ");
    push_decimal(&mut v, end as u128);
    push_str(&mut v, ").");
    string_from_chars(v.as_slice())
}

/// A file of at most 100 MiB passes the audio check exactly when at least
/// four bytes were read and its header is one of: `ID3`, an MPEG frame sync
/// (`0xFF` then a byte with its top three bits set), `OggS`, `fLaC`, or
/// `RIFF` with `WAVE` at bytes 8 to 11 among twelve bytes read.
pub proof fn lemma_audio_headers_accepted(size: u64, h: Seq<u8>, read: nat)
    requires
        h.len() == 12,
    ensures
        audio_file_check(size, h, read) is Ok <==> {
            &&& size <= 100 * 1024 * 1024
            &&& read >= 4
            &&& {
                ||| h.take(3) == seq![0x49u8, 0x44u8, 0x33u8]
                ||| (h[0] == 0xFFu8 && h[1] >= 0xE0u8)
                ||| h.take(4) == seq![0x4Fu8, 0x67u8, 0x67u8, 0x53u8]
                ||| h.take(4) == seq![0x66u8, 0x4Cu8, 0x61u8, 0x43u8]
                ||| (h.take(4) == seq![0x52u8, 0x49u8, 0x46u8, 0x46u8] && read >= 12 && h.subrange(8, 12)
                    == seq![0x57u8, 0x41u8, 0x56u8, 0x45u8])
            }
        },
{
    let b1 = h[1];
    assert(((b1 & 0xE0u8) == 0xE0u8) <==> (b1 >= 0xE0u8)) by (bit_vector);
    if h.take(3) == seq![0x49u8, 0x44u8, 0x33u8] {
        assert(h.take(3)[0] == h[0] && h.take(3)[1] == h[1] && h.take(3)[2] == h[2]);
    }
    if h[0] == 0x49u8 && h[1] == 0x44u8 && h[2] == 0x33u8 {
        assert(h.take(3) =~= seq![0x49u8, 0x44u8, 0x33u8]);
    }
    if h[0] == 0x4Fu8 && h[1] == 0x67u8 && h[2] == 0x67u8 && h[3] == 0x53u8 {
        assert(h.take(4) =~= seq![0x4Fu8, 0x67u8, 0x67u8, 0x53u8]);
    }
    if h[0] == 0x66u8 && h[1] == 0x4Cu8 && h[2] == 0x61u8 && h[3] == 0x43u8 {
        assert(h.take(4) =~= seq![0x66u8, 0x4Cu8, 0x61u8, 0x43u8]);
    }
    if h[0] == 0x52u8 && h[1] == 0x49u8 && h[2] == 0x46u8 && h[3] == 0x46u8 {
        assert(h.take(4) =~= seq![0x52u8, 0x49u8, 0x46u8, 0x46u8]);
    }
    if h[8] == 0x57u8 && h[9] == 0x41u8 && h[10] == 0x56u8 && h[11] == 0x45u8 {
        assert(h.subrange(8, 12) =~= seq![0x57u8, 0x41u8, 0x56u8, 0x45u8]);
    }
    assert(h.take(4)[0] == h[0] && h.take(4)[1] == h[1] && h.take(4)[2] == h[2] && h.take(4)[3] == h[3]);
    assert(h.subrange(8, 12)[0] == h[8] && h.subrange(8, 12)[1] == h[9] && h.subrange(8, 12)[2] == h[10]
        && h.subrange(8, 12)[3] == h[11]);
}

} // verus!
