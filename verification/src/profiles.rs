//! The profile aggregator's integer rules: level ranges and bands, sample
//! confidence, the header check of input records, and the privacy audit of
//! output lines.
use vstd::prelude::*;
use crate::commands::{
    is_digit, lemma_decimal_digits, lemma_parse_decimal, parse_u32, parse_u32_text, parse_usize,
    parse_usize_text,
};
use crate::corpus::{copy_string, message_with, ArgScan};
use crate::guardrail::TypicalLevelRange;
use vstd::relations::{sorted_by, total_ordering};
use vstd::seq_lib::lemma_sorted_unique;
use crate::text::{
    ascii_upper, chars_of, contains_chars, contains_seq, decimal, is_ascii_seq, push_all,
    push_decimal, push_str, split_chars, split_on, string_from_chars, uppercase_chars,
    uppercase_of, views, chars_are, string_views, lemma_split_on_append,
};

verus! {

/// What a `MIN-MAX` level range gives: two numbers around one `-`, the first
/// not above the second.
pub open spec fn level_range(s: Seq<char>) -> Result<(u32, u32), Seq<char>> {
    let parts = split_on(s, '-');
    if parts.len() != 2 {
        Err("Level range must be in format 'MIN-MAX', e.g. '1-26'"@)
    } else if parse_u32_text(parts[0]) is None {
        Err("Invalid min level"@)
    } else if parse_u32_text(parts[1]) is None {
        Err("Invalid max level"@)
    } else if parse_u32_text(parts[0])->0 > parse_u32_text(parts[1])->0 {
        Err("Min level cannot be greater than max level"@)
    } else {
        Ok((parse_u32_text(parts[0])->0, parse_u32_text(parts[1])->0))
    }
}

/// Reads a `MIN-MAX` level range (both ends included).
pub fn parse_level_range(s: &str) -> (r: Result<(u32, u32), String>)
    ensures
        match r {
            Ok(p) => level_range(s@) == Ok::<(u32, u32), Seq<char>>(p),
            Err(e) => level_range(s@) == Err::<(u32, u32), Seq<char>>(e@),
        },
{
    let parts = split_chars(chars_of(s).as_slice(), '-');
    if parts.len() != 2 {
        return Err(String::from_str("Level range must be in format 'MIN-MAX', e.g. '1-26'"));
    }
    assert(views(parts@)[0] == parts@[0]@ && views(parts@)[1] == parts@[1]@);
    let min = match parse_u32(parts[0].as_slice()) {
        Some(v) => v,
        None => {
            return Err(String::from_str("Invalid min level"));
        },
    };
    let max = match parse_u32(parts[1].as_slice()) {
        Some(v) => v,
        None => {
            return Err(String::from_str("Invalid max level"));
        },
    };
    if min > max {
        return Err(String::from_str("Min level cannot be greater than max level"));
    }
    Ok((min, max))
}

/// The band of Single levels a level belongs to; levels outside 1-26 count
/// as S15-S18.
pub open spec fn level_band(level: u32) -> Seq<char> {
    if 1 <= level <= 6 {
        "S1-S6"@
    } else if 7 <= level <= 10 {
        "S7-S10"@
    } else if 11 <= level <= 14 {
        "S11-S14"@
    } else if 15 <= level <= 18 {
        "S15-S18"@
    } else if 19 <= level <= 22 {
        "S19-S22"@
    } else if 23 <= level <= 26 {
        "S23-S26"@
    } else {
        "S15-S18"@
    }
}

pub fn get_level_band(level: u32) -> (b: &'static str)
    ensures
        b@ == level_band(level),
{
    if 1 <= level && level <= 6 {
        "S1-S6"
    } else if 7 <= level && level <= 10 {
        "S7-S10"
    } else if 11 <= level && level <= 14 {
        "S11-S14"
    } else if 15 <= level && level <= 18 {
        "S15-S18"
    } else if 19 <= level && level <= 22 {
        "S19-S22"
    } else if 23 <= level && level <= 26 {
        "S23-S26"
    } else {
        "S15-S18"
    }
}

/// The confidence of a profile built from `n` samples: high from `high`
/// samples, medium from `medium`, low below.
pub open spec fn confidence_label(n: nat, high: nat, medium: nat) -> Seq<char> {
    if n >= high {
        "high"@
    } else if n >= medium {
        "medium"@
    } else {
        "low"@
    }
}

pub fn sample_confidence(n: usize, high: usize, medium: usize) -> (s: String)
    ensures
        s@ == confidence_label(n as nat, high as nat, medium as nat),
{
    if n >= high {
        String::from_str("high")
    } else if n >= medium {
        String::from_str("medium")
    } else {
        String::from_str("low")
    }
}

/// The confidence of a level profile: high from 50 charts, medium from the
/// minimum sample size.
pub fn level_confidence(chart_count: usize, min_sample_size: usize) -> (s: String)
    ensures
        s@ == confidence_label(chart_count as nat, 50, min_sample_size as nat),
{
    sample_confidence(chart_count, 50, min_sample_size)
}

/// The warning for a level with too few charts.
pub fn low_sample_message(level: u32, chart_count: usize) -> (m: String)
    ensures
        m@ == "Level S"@ + decimal(level as nat) + " has only "@ + decimal(chart_count as nat)
            + " charts; profile confidence is low."@,
{
    let mut v: Vec<char> = Vec::new();
    push_str(&mut v, "Level S");
    push_decimal(&mut v, level as u128);
    push_str(&mut v, " has only ");
    push_decimal(&mut v, chart_count as u128);
    push_str(&mut v, " charts; profile confidence is low.");
    string_from_chars(v.as_slice())
}

// ---------------------------------------------------------------------------
// Input record headers
// ---------------------------------------------------------------------------

/// The fields every input record starts with.
#[derive(Debug, Clone)]
pub struct BaseRecordHeader {
    pub schema_version: Option<String>,
    pub publicability_status: Option<String>,
}

/// A diagnostic of the aggregator; `value` is the schema or status found,
/// when the diagnostic is about one.
#[derive(Debug, Clone)]
pub struct ProfileDiagnostic {
    pub severity: String,
    pub code: String,
    pub message: String,
    pub file: String,
    pub line: usize,
    pub value: Option<String>,
}

pub struct DiagnosticView {
    pub severity: Seq<char>,
    pub code: Seq<char>,
    pub message: Seq<char>,
    pub file: Seq<char>,
    pub line: usize,
    pub value: Option<Seq<char>>,
}

pub open spec fn diagnostic_view(d: ProfileDiagnostic) -> DiagnosticView {
    DiagnosticView {
        severity: d.severity@,
        code: d.code@,
        message: d.message@,
        file: d.file@,
        line: d.line,
        value: match d.value {
            Some(v) => Some(v@),
            None => None,
        },
    }
}

/// The finding on one record header: `None` when it is acceptable; else the
/// diagnostic, and whether it counts as a missing field or as a wrong status.
pub open spec fn header_finding(
    line: usize,
    file: Seq<char>,
    schema: Option<Seq<char>>,
    status: Option<Seq<char>>,
    expected_schema: Seq<char>,
    expected_status: Seq<char>,
) -> Option<(DiagnosticView, bool, bool)> {
    let at = " in "@ + file + " at line "@ + decimal(line as nat);
    match schema {
        None => Some(
            (
                DiagnosticView {
                    severity: "error"@,
                    code: "MISSING_SCHEMA_VERSION"@,
                    message: "Missing schema_version"@ + at,
                    file,
                    line,
                    value: None,
                },
                true,
                false,
            ),
        ),
        Some(sc) => if sc != expected_schema {
            Some(
                (
                    DiagnosticView {
                        severity: "warning"@,
                        code: "UNSUPPORTED_SCHEMA_VERSION"@,
                        message: "Incorrect schema_version"@ + at + ": expected "@ + expected_schema
                            + ", got "@ + sc,
                        file,
                        line,
                        value: Some(sc),
                    },
                    false,
                    false,
                ),
            )
        } else {
            match status {
                None => Some(
                    (
                        DiagnosticView {
                            severity: "error"@,
                            code: "MISSING_PUBLICABILITY_STATUS"@,
                            message: "Missing publicability_status"@ + at,
                            file,
                            line,
                            value: None,
                        },
                        true,
                        false,
                    ),
                ),
                Some(st) => if st != expected_status {
                    Some(
                        (
                            DiagnosticView {
                                severity: "warning"@,
                                code: "INVALID_PUBLICABILITY_STATUS"@,
                                message: "Invalid publicability_status"@ + at + ": expected "@
                                    + expected_status + ", got "@ + st,
                                file,
                                line,
                                value: Some(st),
                            },
                            false,
                            true,
                        ),
                    )
                } else {
                    None
                },
            }
        },
    }
}

pub open spec fn opt_view(o: Option<String>) -> Option<Seq<char>> {
    match o {
        Some(s) => Some(s@),
        None => None,
    }
}

fn location_suffix(v: &mut Vec<char>, file: &str, line: usize)
    ensures
        final(v)@ == old(v)@ + " in "@ + file@ + " at line "@ + decimal(line as nat),
{
    push_str(v, " in ");
    push_str(v, file);
    push_str(v, " at line ");
    push_decimal(v, line as u128);
}

fn copy_text(s: &String) -> (r: String)
    ensures
        r@ == s@,
{
    string_from_chars(chars_of(s.as_str()).as_slice())
}

fn diagnostic(severity: &str, code: &str, msg: &Vec<char>, file: &str, line: usize, value: Option<String>) -> (d: ProfileDiagnostic)
    ensures
        diagnostic_view(d) == (DiagnosticView {
            severity: severity@,
            code: code@,
            message: msg@,
            file: file@,
            line,
            value: opt_view(value),
        }),
{
    ProfileDiagnostic {
        severity: String::from_str(severity),
        code: String::from_str(code),
        message: string_from_chars(msg.as_slice()),
        file: String::from_str(file),
        line,
        value,
    }
}

/// The finding on a record header, as a diagnostic to record.
#[verifier::rlimit(40)]
pub fn header_diagnostic(
    line_num: usize,
    filename: &str,
    header: &BaseRecordHeader,
    expected_schema: &str,
    expected_status: &str,
) -> (r: Option<(ProfileDiagnostic, bool, bool)>)
    ensures
        match r {
            None => header_finding(
                line_num,
                filename@,
                opt_view(header.schema_version),
                opt_view(header.publicability_status),
                expected_schema@,
                expected_status@,
            ) is None,
            Some((d, m, i)) => header_finding(
                line_num,
                filename@,
                opt_view(header.schema_version),
                opt_view(header.publicability_status),
                expected_schema@,
                expected_status@,
            ) == Some((diagnostic_view(d), m, i)),
        },
{
    let mut msg: Vec<char> = Vec::new();
    let ghost f = header_finding(
        line_num,
        filename@,
        opt_view(header.schema_version),
        opt_view(header.publicability_status),
        expected_schema@,
        expected_status@,
    );
    let ghost fm = match f {
        Some((d, _, _)) => d.message,
        None => Seq::empty(),
    };
    match &header.schema_version {
        None => {
            push_str(&mut msg, "Missing schema_version");
            location_suffix(&mut msg, filename, line_num);
            assert(msg@ =~= fm);
            let d = diagnostic("error", "MISSING_SCHEMA_VERSION", &msg, filename, line_num, None);
            Some((d, true, false))
        },
        Some(sc) => {
            let scs = chars_of(sc.as_str());
            if !crate::text::chars_equal(scs.as_slice(), chars_of(expected_schema).as_slice()) {
                push_str(&mut msg, "Incorrect schema_version");
                location_suffix(&mut msg, filename, line_num);
                push_str(&mut msg, ": expected ");
                push_str(&mut msg, expected_schema);
                push_str(&mut msg, ", got ");
                push_all(&mut msg, scs.as_slice());
                assert(msg@ =~= fm);
                let d = diagnostic(
                    "warning",
                    "UNSUPPORTED_SCHEMA_VERSION",
                    &msg,
                    filename,
                    line_num,
                    Some(copy_text(sc)),
                );
                Some((d, false, false))
            } else {
                match &header.publicability_status {
                    None => {
                        push_str(&mut msg, "Missing publicability_status");
                        location_suffix(&mut msg, filename, line_num);
                        assert(msg@ =~= fm);
                        let d = diagnostic(
                            "error",
                            "MISSING_PUBLICABILITY_STATUS",
                            &msg,
                            filename,
                            line_num,
                            None,
                        );
                        Some((d, true, false))
                    },
                    Some(st) => {
                        let sts = chars_of(st.as_str());
                        if !crate::text::chars_equal(
                            sts.as_slice(),
                            chars_of(expected_status).as_slice(),
                        ) {
                            push_str(&mut msg, "Invalid publicability_status");
                            location_suffix(&mut msg, filename, line_num);
                            push_str(&mut msg, ": expected ");
                            push_str(&mut msg, expected_status);
                            push_str(&mut msg, ", got ");
                            push_all(&mut msg, sts.as_slice());
                            assert(msg@ =~= fm);
                            let d = diagnostic(
                                "warning",
                                "INVALID_PUBLICABILITY_STATUS",
                                &msg,
                                filename,
                                line_num,
                                Some(copy_text(st)),
                            );
                            Some((d, false, true))
                        } else {
                            assert(opt_view(header.schema_version) == Some(expected_schema@));
                            assert(opt_view(header.publicability_status) == Some(expected_status@));
                            None
                        }
                    },
                }
            }
        },
    }
}

/// Checks a record's header against the schema and status expected of its
/// file. A finding is recorded in `diagnostics`, counted, and makes the
/// record skipped (`Ok(false)`), or fails the run when `fail_fast` is set.
pub fn validate_input_record(
    line_num: usize,
    filename: &str,
    header: &BaseRecordHeader,
    expected_schema: &str,
    expected_status: &str,
    fail_fast: bool,
    diagnostics: &mut Vec<ProfileDiagnostic>,
    missing_required_fields_count: &mut usize,
    invalid_publicability_status_count: &mut usize,
) -> (r: Result<bool, String>)
    requires
        *old(missing_required_fields_count) < usize::MAX,
        *old(invalid_publicability_status_count) < usize::MAX,
    ensures
        ({
            let f = header_finding(
                line_num,
                filename@,
                opt_view(header.schema_version),
                opt_view(header.publicability_status),
                expected_schema@,
                expected_status@,
            );
            match f {
                None => {
                    &&& r == Ok::<bool, String>(true)
                    &&& final(diagnostics)@ == old(diagnostics)@
                    &&& *final(missing_required_fields_count) == *old(missing_required_fields_count)
                    &&& *final(invalid_publicability_status_count) == *old(
                        invalid_publicability_status_count,
                    )
                },
                Some((d, missing, invalid)) => {
                    &&& final(diagnostics)@.len() == old(diagnostics)@.len() + 1
                    &&& final(diagnostics)@.take(old(diagnostics)@.len() as int) == old(diagnostics)@
                    &&& diagnostic_view(final(diagnostics)@.last()) == d
                    &&& *final(missing_required_fields_count) == *old(missing_required_fields_count)
                        + b2u(missing)
                    &&& *final(invalid_publicability_status_count) == *old(
                        invalid_publicability_status_count,
                    ) + b2u(invalid)
                    &&& fail_fast ==> r is Err && r->Err_0@ == d.message
                    &&& !fail_fast ==> r == Ok::<bool, String>(false)
                },
            }
        }),
{
    match header_diagnostic(line_num, filename, header, expected_schema, expected_status) {
        None => Ok(true),
        Some((d, missing, invalid)) => {
            if missing {
                *missing_required_fields_count = *missing_required_fields_count + 1;
            }
            if invalid {
                *invalid_publicability_status_count = *invalid_publicability_status_count + 1;
            }
            let text = copy_text(&d.message);
            let ghost before = diagnostics@;
            diagnostics.push(d);
            assert(diagnostics@.take(before.len() as int) =~= before);
            if fail_fast {
                Err(text)
            } else {
                Ok(false)
            }
        },
    }
}

pub open spec fn b2u(b: bool) -> nat {
    if b {
        1
    } else {
        0
    }
}

// ---------------------------------------------------------------------------
// Privacy audit of outputs
// ---------------------------------------------------------------------------

/// Text that no output file may hold, compared upper-cased.
pub open spec fn forbidden_output_patterns() -> Seq<Seq<char>> {
    seq![
        "#NOTEDATA"@, "#TITLE:"@, "#BPMS:"@, "#OFFSET:"@, "base64"@, "data:audio"@, "C:\\"@,
        "/Users/"@, ".ssc"@, ".mp3"@, ".ogg"@, ".flac"@, ".wav"@, ".mp4"@, ".mpg"@, ".png"@,
        ".jpg"@, ".jpeg"@,
    ]
}

/// The index of the first pattern that an upper-cased output line holds,
/// the patterns being upper-cased too.
pub open spec fn first_forbidden(line_upper: Seq<char>, pats: Seq<Seq<char>>) -> Option<int>
    decreases pats.len(),
{
    if pats.len() == 0 {
        None
    } else {
        match first_forbidden(line_upper, pats.drop_last()) {
            Some(i) => Some(i),
            None => if contains_seq(line_upper, uppercase_of(pats.last())) {
                Some(pats.len() - 1)
            } else {
                None
            },
        }
    }
}

/// The audit of line `line_idx` (counted from 0) of an output file.
pub open spec fn output_line_audit(file: Seq<char>, line_idx: nat, line: Seq<char>) -> Result<
    (),
    Seq<char>,
> {
    match first_forbidden(uppercase_of(line), forbidden_output_patterns()) {
        None => Ok(()),
        Some(i) => Err(
            "PRIVACY VIOLATION: Output file "@ + file + " contains forbidden pattern '"@
                + forbidden_output_patterns()[i] + "' at line "@ + decimal(line_idx + 1) + "!"@,
        ),
    }
}

proof fn lemma_first_forbidden_extends(line: Seq<char>, pats: Seq<Seq<char>>, k: int)
    requires
        0 < k <= pats.len(),
        first_forbidden(line, pats.take(k)) is Some,
    ensures
        first_forbidden(line, pats) == first_forbidden(line, pats.take(k)),
    decreases pats.len() - k,
{
    if k < pats.len() {
        assert(pats.take(k + 1).drop_last() =~= pats.take(k));
        lemma_first_forbidden_extends(line, pats, k + 1);
    } else {
        assert(pats.take(k) =~= pats);
    }
}

/// Audits one line of an output file.
pub fn audit_output_line(filename: &str, line_idx: usize, line: &str) -> (r: Result<(), String>)
    requires
        line_idx < usize::MAX,
    ensures
        match r {
            Ok(()) => output_line_audit(filename@, line_idx as nat, line@) is Ok,
            Err(e) => output_line_audit(filename@, line_idx as nat, line@) == Err::<(), Seq<char>>(
                e@,
            ),
        },
{
    let pats: [&str; 18] = [
        "#NOTEDATA",
        "#TITLE:",
        "#BPMS:",
        "#OFFSET:",
        "base64",
        "data:audio",
        "C:\\",
        "/Users/",
        ".ssc",
        ".mp3",
        ".ogg",
        ".flac",
        ".wav",
        ".mp4",
        ".mpg",
        ".png",
        ".jpg",
        ".jpeg",
    ];
    let ghost want = forbidden_output_patterns();
    assert(pats@.map_values(|p: &str| p@) =~= want);
    let upper = uppercase_chars(chars_of(line).as_slice());
    let mut i: usize = 0;
    while i < 18
        invariant
            i <= 18,
            pats@.map_values(|p: &str| p@) == want,
            want == forbidden_output_patterns(),
            want.len() == 18,
            upper@ == uppercase_of(line@),
            line_idx < usize::MAX,
            first_forbidden(upper@, want.take(i as int)) is None,
        decreases 18 - i,
    {
        let pu = uppercase_chars(chars_of(pats[i]).as_slice());
        proof {
            assert(want[i as int] == pats@[i as int]@);
            assert(want.take(i + 1).drop_last() =~= want.take(i as int));
            assert(want.take(i + 1).last() == want[i as int]);
        }
        if contains_chars(upper.as_slice(), pu.as_slice()) {
            proof {
                lemma_first_forbidden_extends(upper@, want, i + 1);
            }
            let mut v: Vec<char> = Vec::new();
            push_str(&mut v, "PRIVACY VIOLATION: Output file ");
            push_str(&mut v, filename);
            push_str(&mut v, " contains forbidden pattern '");
            push_str(&mut v, pats[i]);
            push_str(&mut v, "' at line ");
            push_decimal(&mut v, (line_idx + 1) as u128);
            push_str(&mut v, "!");
            return Err(string_from_chars(v.as_slice()));
        }
        i = i + 1;
    }
    proof {
        assert(want.take(18) =~= want);
    }
    Ok(())
}


// ---------------------------------------------------------------------------
// Generation guidance
// ---------------------------------------------------------------------------

/// When a pattern family suits a chart, when it does not, and what to keep
/// in mind when writing it.
#[derive(Debug, Clone)]
pub struct GenerationGuidance {
    pub recommended_when: Vec<String>,
    pub avoid_when: Vec<String>,
    pub guardrail_notes: Vec<String>,
}

/// The guidance texts for a family key: recommended uses, uses to avoid,
/// guardrail notes.
pub open spec fn guidance_of(family: Seq<char>) -> (Seq<Seq<char>>, Seq<Seq<char>>, Seq<Seq<char>>) {
    if family == "stream"@ {
        (seq!["Building running streams"@, "Increasing stamina requirements"@], seq!["Low level charts under S7 where players lack physical speed"@], seq!["Keep streams uninterrupted under 16 active rows at lower levels"@])
    } else if family == "jump_accent"@ {
        (seq!["Adding impact on heavy musical beats or downbeats"@], seq!["High-speed streams where consecutive jumps cause exhaustion"@], seq!["Avoid consecutive jumps under level 16"@])
    } else if family == "twist_technical"@ {
        (seq!["Creating directional transitions and flow changes"@], seq!["Very high speeds where player cannot safely rotate hips"@], seq!["Twists require alternating feet to avoid double-stepping"@])
    } else if family == "bracket_technical"@ {
        (seq!["Level 16+ where double steps or multi-panel taps are introduced"@], seq!["Low levels under S12 where players expect single-note panels"@], seq!["Use brackets primarily on corner panels"@])
    } else if family == "hold_control"@ {
        (seq!["Resting sections or slow pacing segments"@], seq!["Intense technical streams where holding a foot locks player mobility"@], seq!["Ensure free foot has accessible patterns"@])
    } else if family == "center_control"@ {
        (seq!["Pacing transitions or low-intensity bridge sections"@], seq!["Technical streams requiring rapid side-to-side transitions"@], seq!["Center panel is a neutral pivot point"@])
    } else if family == "stamina"@ {
        (seq!["Endgame boss sections or high-difficulty stamina tests"@], seq!["Low difficulty levels under S15"@], seq!["Ensure rests are provided before and after stamina burst segments"@])
    } else {
        (seq!["Standard chart progression"@], seq!["Highly specialized technical styles"@], seq!["Maintains average baseline metrics"@])
    }
}

fn texts(ts: &[&str]) -> (v: Vec<String>)
    ensures
        string_views(v@) == ts@.map_values(|t: &str| t@),
{
    let mut v: Vec<String> = Vec::new();
    let mut i: usize = 0;
    while i < ts.len()
        invariant
            i <= ts@.len(),
            string_views(v@) == ts@.take(i as int).map_values(|t: &str| t@),
        decreases ts@.len() - i,
    {
        let ghost before = string_views(v@);
        v.push(String::from_str(ts[i]));
        assert(string_views(v@) =~= before.push(ts@[i as int]@));
        assert(ts@.take(i + 1).map_values(|t: &str| t@) =~= ts@.take(i as int).map_values(
            |t: &str| t@,
        ).push(ts@[i as int]@));
        i = i + 1;
    }
    assert(ts@.take(ts@.len() as int) =~= ts@);
    v
}

fn guidance(r: Vec<String>, a: Vec<String>, n: Vec<String>) -> (g: GenerationGuidance)
    ensures
        g.recommended_when == r,
        g.avoid_when == a,
        g.guardrail_notes == n,
{
    GenerationGuidance { recommended_when: r, avoid_when: a, guardrail_notes: n }
}

/// The guidance profiled for a pattern family, by its key; a key not listed
/// gets the general guidance.
pub fn generation_guidance(family: &str) -> (g: GenerationGuidance)
    ensures
        (string_views(g.recommended_when@), string_views(g.avoid_when@), string_views(g.guardrail_notes@))
            == guidance_of(family@),
{
    let f = chars_of(family);
    if chars_are(f.as_slice(), "stream") {
        guidance(texts(&["Building running streams", "Increasing stamina requirements"]), texts(&["Low level charts under S7 where players lack physical speed"]), texts(&["Keep streams uninterrupted under 16 active rows at lower levels"]))
    } else if chars_are(f.as_slice(), "jump_accent") {
        guidance(texts(&["Adding impact on heavy musical beats or downbeats"]), texts(&["High-speed streams where consecutive jumps cause exhaustion"]), texts(&["Avoid consecutive jumps under level 16"]))
    } else if chars_are(f.as_slice(), "twist_technical") {
        guidance(texts(&["Creating directional transitions and flow changes"]), texts(&["Very high speeds where player cannot safely rotate hips"]), texts(&["Twists require alternating feet to avoid double-stepping"]))
    } else if chars_are(f.as_slice(), "bracket_technical") {
        guidance(texts(&["Level 16+ where double steps or multi-panel taps are introduced"]), texts(&["Low levels under S12 where players expect single-note panels"]), texts(&["Use brackets primarily on corner panels"]))
    } else if chars_are(f.as_slice(), "hold_control") {
        guidance(texts(&["Resting sections or slow pacing segments"]), texts(&["Intense technical streams where holding a foot locks player mobility"]), texts(&["Ensure free foot has accessible patterns"]))
    } else if chars_are(f.as_slice(), "center_control") {
        guidance(texts(&["Pacing transitions or low-intensity bridge sections"]), texts(&["Technical streams requiring rapid side-to-side transitions"]), texts(&["Center panel is a neutral pivot point"]))
    } else if chars_are(f.as_slice(), "stamina") {
        guidance(texts(&["Endgame boss sections or high-difficulty stamina tests"]), texts(&["Low difficulty levels under S15"]), texts(&["Ensure rests are provided before and after stamina burst segments"]))
    } else {
        guidance(texts(&["Standard chart progression"]), texts(&["Highly specialized technical styles"]), texts(&["Maintains average baseline metrics"]))
    }
}


proof fn lemma_decimal_has_no_dash(n: nat)
    ensures
        !decimal(n).contains('-'),
{
    lemma_decimal_digits(n);
    if decimal(n).contains('-') {
        let i = choose|i: int| 0 <= i < decimal(n).len() && decimal(n)[i] == '-';
        assert(is_digit(decimal(n)[i]));
    }
}

/// A range written as `MIN-MAX` in decimal reads back as itself when MIN is
/// not above MAX, and is refused as reversed otherwise.
pub proof fn lemma_level_range_read_back(lo: u32, hi: u32)
    ensures
        level_range(decimal(lo as nat) + "-"@ + decimal(hi as nat)) == if lo <= hi {
            Ok::<(u32, u32), Seq<char>>((lo, hi))
        } else {
            Err::<(u32, u32), Seq<char>>("Min level cannot be greater than max level"@)
        },
{
    reveal_strlit("-");
    let a = decimal(lo as nat);
    let b = decimal(hi as nat);
    lemma_decimal_has_no_dash(lo as nat);
    lemma_decimal_has_no_dash(hi as nat);
    lemma_split_on_append(Seq::empty(), a, '-');
    assert(Seq::<char>::empty() + a =~= a);
    assert(split_on(Seq::<char>::empty(), '-') =~= seq![Seq::<char>::empty()]);
    assert(split_on(a, '-') =~= seq![a]);
    let ad = a + "-"@;
    assert(ad.drop_last() =~= a);
    assert(ad.last() == '-');
    assert(split_on(ad, '-') =~= seq![a, Seq::<char>::empty()]);
    lemma_split_on_append(ad, b, '-');
    assert(seq![a, Seq::<char>::empty()].update(1, Seq::<char>::empty() + b) =~= seq![a, b]);
    assert(split_on(ad + b, '-') =~= seq![a, b]);
    lemma_parse_decimal(lo);
    lemma_parse_decimal(hi);
}

// ---------------------------------------------------------------------------
// Command line
// ---------------------------------------------------------------------------

/// The aggregator's options as read so far from its command line.
pub struct ProfileOptions {
    pub dataset_root: Option<Seq<char>>,
    pub output_root: Option<Seq<char>>,
    pub pretty: bool,
    pub fail_fast: bool,
    pub min_sample_size: usize,
    pub level_range: (u32, u32),
}

/// No option given: samples of 10 and the levels 1 to 26.
pub open spec fn default_profile_options() -> ProfileOptions {
    ProfileOptions {
        dataset_root: None,
        output_root: None,
        pretty: false,
        fail_fast: false,
        min_sample_size: 10,
        level_range: (1, 26),
    }
}

/// Reads the aggregator's arguments from index `i` on, left to right: each
/// flag that takes a value consumes the next argument.
pub open spec fn profile_scan(args: Seq<Seq<char>>, i: int, o: ProfileOptions) -> ArgScan<ProfileOptions>
    decreases args.len() - i,
{
    if i < 0 || i >= args.len() {
        ArgScan::Read(o)
    } else {
        let a = args[i];
        let has_value = i + 1 < args.len();
        if a == "--help"@ || a == "-h"@ {
            ArgScan::Help
        } else if a == "--dataset-root"@ {
            if has_value {
                profile_scan(args, i + 2, ProfileOptions { dataset_root: Some(args[i + 1]), ..o })
            } else {
                ArgScan::Failed("Missing value for --dataset-root"@)
            }
        } else if a == "--output-root"@ {
            if has_value {
                profile_scan(args, i + 2, ProfileOptions { output_root: Some(args[i + 1]), ..o })
            } else {
                ArgScan::Failed("Missing value for --output-root"@)
            }
        } else if a == "--pretty"@ {
            profile_scan(args, i + 1, ProfileOptions { pretty: true, ..o })
        } else if a == "--fail-fast"@ {
            profile_scan(args, i + 1, ProfileOptions { fail_fast: true, ..o })
        } else if a == "--min-sample-size"@ {
            if !has_value {
                ArgScan::Failed("Missing value for --min-sample-size"@)
            } else if parse_usize_text(args[i + 1]) is None {
                ArgScan::Failed("Invalid number for --min-sample-size"@)
            } else {
                profile_scan(
                    args,
                    i + 2,
                    ProfileOptions { min_sample_size: parse_usize_text(args[i + 1])->0, ..o },
                )
            }
        } else if a == "--level-range"@ {
            if !has_value {
                ArgScan::Failed("Missing value for --level-range"@)
            } else {
                match level_range(args[i + 1]) {
                    Ok(r) => profile_scan(args, i + 2, ProfileOptions { level_range: r, ..o }),
                    Err(e) => ArgScan::Failed(e),
                }
            }
        } else {
            ArgScan::Failed("Unknown argument: "@ + a)
        }
    }
}

/// What the aggregator makes of its command line (`args[0]` is the
/// program): `Ok(None)` for help, `Ok(Some(options))` when the dataset root
/// and the output root are given, else the first error.
pub open spec fn profile_command(args: Seq<Seq<char>>) -> Result<Option<ProfileOptions>, Seq<char>> {
    match profile_scan(args, 1, default_profile_options()) {
        ArgScan::Help => Ok(None),
        ArgScan::Failed(e) => Err(e),
        ArgScan::Read(o) => {
            if o.dataset_root is None {
                Err("Missing required flag: --dataset-root. Run with --help for details."@)
            } else if o.output_root is None {
                Err("Missing required flag: --output-root. Run with --help for details."@)
            } else {
                Ok(Some(o))
            }
        },
    }
}

/// The aggregator's settings; `level_range` holds both ends.
#[derive(Debug)]
pub struct AppArgs {
    pub dataset_root: String,
    pub output_root: String,
    pub pretty: bool,
    pub fail_fast: bool,
    pub min_sample_size: usize,
    pub level_range: (u32, u32),
}

/// A command line asks for help or for a run with its settings.
#[derive(Debug)]
pub enum ProfileCommand {
    Help,
    Run(AppArgs),
}

pub open spec fn profile_command_view(r: Result<ProfileCommand, String>) -> Result<Option<ProfileOptions>, Seq<char>> {
    match r {
        Ok(ProfileCommand::Help) => Ok(None),
        Ok(ProfileCommand::Run(a)) => Ok(
            Some(
                ProfileOptions {
                    dataset_root: Some(a.dataset_root@),
                    output_root: Some(a.output_root@),
                    pretty: a.pretty,
                    fail_fast: a.fail_fast,
                    min_sample_size: a.min_sample_size,
                    level_range: a.level_range,
                },
            ),
        ),
        Err(e) => Err(e@),
    }
}

fn profile_err(msg: &str) -> (r: Result<ProfileCommand, String>)
    ensures
        profile_command_view(r) == Err::<Option<ProfileOptions>, Seq<char>>(msg@),
{
    Err(string_from_chars(chars_of(msg).as_slice()))
}

/// Reads the aggregator's command line (`args[0]` is the program name).
pub fn parse_args(args: &Vec<String>) -> (r: Result<ProfileCommand, String>)
    ensures
        profile_command_view(r) == profile_command(string_views(args@)),
{
    let ghost sv = string_views(args@);
    let mut dataset_root: Option<String> = None;
    let mut output_root: Option<String> = None;
    let mut pretty = false;
    let mut fail_fast = false;
    let mut min_sample_size: usize = 10;
    let mut range: (u32, u32) = (1, 26);
    let mut i: usize = 1;
    while i < args.len()
        invariant
            sv == string_views(args@),
            sv.len() == args@.len(),
            1 <= i,
            i <= args@.len() + 1,
            profile_scan(sv, i as int, ProfileOptions {
                dataset_root: opt_view(dataset_root),
                output_root: opt_view(output_root),
                pretty,
                fail_fast,
                min_sample_size,
                level_range: range,
            }) == profile_scan(sv, 1, default_profile_options()),
        decreases args@.len() - i,
    {
        let a = chars_of(args[i].as_str());
        let has_value = i + 1 < args.len();
        proof {
            assert(sv[i as int] == a@);
            if has_value {
                assert(sv[i + 1] == args@[i + 1]@);
            }
        }
        if chars_are(a.as_slice(), "--help") || chars_are(a.as_slice(), "-h") {
            return Ok(ProfileCommand::Help);
        } else if chars_are(a.as_slice(), "--dataset-root") {
            if !has_value {
                return profile_err("Missing value for --dataset-root");
            }
            dataset_root = Some(copy_string(&args[i + 1]));
            i = i + 2;
        } else if chars_are(a.as_slice(), "--output-root") {
            if !has_value {
                return profile_err("Missing value for --output-root");
            }
            output_root = Some(copy_string(&args[i + 1]));
            i = i + 2;
        } else if chars_are(a.as_slice(), "--pretty") {
            pretty = true;
            i = i + 1;
        } else if chars_are(a.as_slice(), "--fail-fast") {
            fail_fast = true;
            i = i + 1;
        } else if chars_are(a.as_slice(), "--min-sample-size") {
            if !has_value {
                return profile_err("Missing value for --min-sample-size");
            }
            let v = chars_of(args[i + 1].as_str());
            match parse_usize(v.as_slice()) {
                Some(n) => {
                    min_sample_size = n;
                    i = i + 2;
                },
                None => {
                    return profile_err("Invalid number for --min-sample-size");
                },
            }
        } else if chars_are(a.as_slice(), "--level-range") {
            if !has_value {
                return profile_err("Missing value for --level-range");
            }
            match parse_level_range(args[i + 1].as_str()) {
                Ok(r) => {
                    range = r;
                    i = i + 2;
                },
                Err(e) => {
                    return Err(e);
                },
            }
        } else {
            proof {
                reveal_strlit("");
                assert("Unknown argument: "@ + a@ + ""@ =~= "Unknown argument: "@ + a@);
            }
            return Err(message_with("Unknown argument: ", a.as_slice(), ""));
        }
    }
    let dataset_root = match dataset_root {
        Some(c) => c,
        None => {
            return profile_err("Missing required flag: --dataset-root. Run with --help for details.");
        },
    };
    let output_root = match output_root {
        Some(c) => c,
        None => {
            return profile_err("Missing required flag: --output-root. Run with --help for details.");
        },
    };
    Ok(ProfileCommand::Run(AppArgs { dataset_root, output_root, pretty, fail_fast, min_sample_size, level_range: range }))
}

// ---------------------------------------------------------------------------
// Grouping by level
// ---------------------------------------------------------------------------

/// The positions in `meters` that hold `level`, in order.
pub open spec fn positions_of(meters: Seq<u32>, level: u32) -> Seq<usize>
    decreases meters.len(),
{
    if meters.len() == 0 {
        Seq::empty()
    } else if meters.last() == level {
        positions_of(meters.drop_last(), level).push((meters.len() - 1) as usize)
    } else {
        positions_of(meters.drop_last(), level)
    }
}

/// For each level from `lo` to `hi`, the positions of the records of that
/// level, in the order the records come.
pub fn group_by_level(meters: &Vec<u32>, lo: u32, hi: u32) -> (g: Vec<Vec<usize>>)
    requires
        lo <= hi,
    ensures
        g@.len() == hi - lo + 1,
        forall|l: int| 0 <= l < g@.len() ==> (#[trigger] g@[l])@ == positions_of(meters@, (lo + l) as u32),
{
    let mut g: Vec<Vec<usize>> = Vec::new();
    let mut level: u32 = lo;
    loop
        invariant
            lo <= level <= hi,
            g@.len() == level - lo,
            forall|l: int| 0 <= l < g@.len() ==> (#[trigger] g@[l])@ == positions_of(meters@, (lo + l) as u32),
        decreases hi - level,
    {
        let mut ps: Vec<usize> = Vec::new();
        let mut i: usize = 0;
        while i < meters.len()
            invariant
                i <= meters@.len(),
                ps@ == positions_of(meters@.take(i as int), level),
            decreases meters@.len() - i,
        {
            proof {
                assert(meters@.take(i + 1).drop_last() =~= meters@.take(i as int));
                assert(meters@.take(i + 1).last() == meters@[i as int]);
            }
            if meters[i] == level {
                ps.push(i);
            }
            i = i + 1;
        }
        proof {
            assert(meters@.take(meters@.len() as int) =~= meters@);
        }
        g.push(ps);
        if level == hi {
            return g;
        }
        level = level + 1;
    }
}

// ---------------------------------------------------------------------------
// The level range of a family
// ---------------------------------------------------------------------------

pub open spec fn level_leq() -> spec_fn(u32, u32) -> bool {
    |a: u32, b: u32| a <= b
}

/// The levels in increasing order.
pub open spec fn sorted_levels(levels: Seq<u32>) -> Seq<u32> {
    levels.sort_by(level_leq())
}

/// The range of the levels at which a family was found: the lowest, the
/// median (the middle level, or the mean of the two middle levels rounded
/// down) and the highest; all zero when there is none.
pub open spec fn family_level_range_of(levels: Seq<u32>) -> TypicalLevelRange {
    let s = sorted_levels(levels);
    let n = s.len();
    if n == 0 {
        TypicalLevelRange { min: 0, median: 0, max: 0 }
    } else {
        TypicalLevelRange {
            min: s[0],
            median: ((s[((n - 1) / 2) as int] + s[(n / 2) as int]) / 2) as u32,
            max: s[n - 1],
        }
    }
}

proof fn lemma_level_leq_total()
    ensures
        total_ordering(level_leq()),
{
}

/// The levels of a family, in increasing order.
fn sort_levels(levels: &Vec<u32>) -> (s: Vec<u32>)
    ensures
        s@ == sorted_levels(levels@),
{
    broadcast use vstd::seq_lib::group_to_multiset_ensures;
    broadcast use vstd::multiset::group_multiset_axioms;

    let mut s: Vec<u32> = Vec::new();
    let mut i: usize = 0;
    while i < levels.len()
        invariant
            i <= levels@.len(),
            sorted_by(s@, level_leq()),
            s@.to_multiset() == levels@.take(i as int).to_multiset(),
        decreases levels@.len() - i,
    {
        let x = levels[i];
        let mut j: usize = 0;
        while j < s.len() && s[j] <= x
            invariant
                j <= s@.len(),
                forall|k: int| 0 <= k < j ==> s@[k] <= x,
            decreases s@.len() - j,
        {
            j = j + 1;
        }
        let ghost old_s = s@;
        s.insert(j, x);
        proof {
            assert(s@ == old_s.insert(j as int, x));
            assert(s@.remove(j as int) =~= old_s);
            assert(s@[j as int] == x);
            s@.to_multiset_ensures();
            levels@.take(i as int).to_multiset_ensures();
            assert(s@.to_multiset().remove(s@[j as int]) == old_s.to_multiset());
            assert(s@.contains(x));
            assert(s@.to_multiset().count(x) > 0);
            assert(s@.to_multiset() =~= old_s.to_multiset().insert(x));
            assert(levels@.take(i + 1) =~= levels@.take(i as int).push(x));
            assert(levels@.take(i + 1).to_multiset() =~= levels@.take(i as int).to_multiset().insert(x));
            assert forall|a: int, b: int| 0 <= a < b < s@.len() implies #[trigger] level_leq()(s@[a], s@[b]) by {
                if b < j {
                    assert(level_leq()(old_s[a], old_s[b]));
                } else if b == j {
                    assert(old_s[a] <= x);
                } else if a < j {
                    assert(s@[b] == old_s[b - 1]);
                    if j < old_s.len() {
                        assert(x < old_s[j as int]);
                        if b - 1 > j {
                            assert(level_leq()(old_s[j as int], old_s[b - 1]));
                        }
                    }
                    assert(old_s[a] <= x);
                } else if a == j {
                    assert(s@[b] == old_s[b - 1]);
                    if b - 1 > j {
                        assert(level_leq()(old_s[j as int], old_s[b - 1]));
                    }
                } else {
                    assert(level_leq()(old_s[a - 1], old_s[b - 1]));
                }
            }
        }
        i = i + 1;
    }
    proof {
        assert(levels@.take(levels@.len() as int) =~= levels@);
        lemma_level_leq_total();
        levels@.lemma_sort_by_ensures(level_leq());
        lemma_sorted_unique(s@, sorted_levels(levels@), level_leq());
    }
    s
}

/// The lowest, median and highest level at which a family was found.
pub fn family_level_range(levels: &Vec<u32>) -> (r: TypicalLevelRange)
    ensures
        r == family_level_range_of(levels@),
{
    broadcast use vstd::seq_lib::group_to_multiset_ensures;

    let s = sort_levels(levels);
    proof {
        lemma_level_leq_total();
        levels@.lemma_sort_by_ensures(level_leq());
        s@.to_multiset_ensures();
        levels@.to_multiset_ensures();
        assert(s@.len() == levels@.len());
    }
    let n = s.len();
    if n == 0 {
        return TypicalLevelRange { min: 0, median: 0, max: 0 };
    }
    let a = s[(n - 1) / 2] as u64;
    let b = s[n / 2] as u64;
    TypicalLevelRange { min: s[0], median: ((a + b) / 2) as u32, max: s[n - 1] }
}

// ---------------------------------------------------------------------------
// Style archetypes
// ---------------------------------------------------------------------------

/// How a style archetype leans, as labels (`low`, `medium`, `high`, ...).
#[derive(Debug, Clone)]
pub struct StyleArchetypeBias {
    pub density_bias: String,
    pub accent_bias: String,
    pub twist_bias: String,
    pub bracket_bias: String,
    pub rest_bias: String,
}

/// The pattern families an archetype's biases point to, in a fixed order:
/// `stream` for high or very high density, `jump_accent`, `twist_technical`
/// and `bracket_technical` for high accent, twist and bracket biases, and
/// `stamina` for a low rest bias.
pub open spec fn archetype_families(
    density: Seq<char>,
    accent: Seq<char>,
    twist: Seq<char>,
    bracket: Seq<char>,
    rest: Seq<char>,
) -> Seq<Seq<char>> {
    (if density == "high"@ || density == "very_high"@ { seq!["stream"@] } else { Seq::empty() })
        + (if accent == "high"@ { seq!["jump_accent"@] } else { Seq::empty() })
        + (if twist == "high"@ { seq!["twist_technical"@] } else { Seq::empty() })
        + (if bracket == "high"@ { seq!["bracket_technical"@] } else { Seq::empty() })
        + (if rest == "low"@ { seq!["stamina"@] } else { Seq::empty() })
}

/// The pattern families of an archetype with these biases.
pub fn archetype_pattern_families(bias: &StyleArchetypeBias) -> (fs: Vec<String>)
    ensures
        string_views(fs@) == archetype_families(
            bias.density_bias@,
            bias.accent_bias@,
            bias.twist_bias@,
            bias.bracket_bias@,
            bias.rest_bias@,
        ),
{
    let mut fs: Vec<String> = Vec::new();
    let d = chars_of(bias.density_bias.as_str());
    if chars_are(d.as_slice(), "high") || chars_are(d.as_slice(), "very_high") {
        fs.push(String::from_str("stream"));
    }
    let ghost a0 = string_views(fs@);
    if chars_are(chars_of(bias.accent_bias.as_str()).as_slice(), "high") {
        fs.push(String::from_str("jump_accent"));
    }
    let ghost a1 = string_views(fs@);
    if chars_are(chars_of(bias.twist_bias.as_str()).as_slice(), "high") {
        fs.push(String::from_str("twist_technical"));
    }
    let ghost a2 = string_views(fs@);
    if chars_are(chars_of(bias.bracket_bias.as_str()).as_slice(), "high") {
        fs.push(String::from_str("bracket_technical"));
    }
    let ghost a3 = string_views(fs@);
    if chars_are(chars_of(bias.rest_bias.as_str()).as_slice(), "low") {
        fs.push(String::from_str("stamina"));
    }
    proof {
        assert(string_views(fs@) =~= archetype_families(
            bias.density_bias@,
            bias.accent_bias@,
            bias.twist_bias@,
            bias.bracket_bias@,
            bias.rest_bias@,
        ));
    }
    fs
}

/// Every Single level from 1 to 26 falls in the band whose name spans it:
/// the band is named `S<a>-S<b>` with `a <= level <= b`.
pub proof fn lemma_level_band_spans_level(level: u32)
    requires
        1 <= level <= 26,
    ensures
        exists|a: nat, b: nat|
            #![trigger decimal(a), decimal(b)]
            a <= level <= b && level_band(level) == "S"@ + decimal(a) + "-S"@ + decimal(b),
{
    reveal_strlit("S");
    reveal_strlit("-S");
    reveal_strlit("S1-S6");
    reveal_strlit("S7-S10");
    reveal_strlit("S11-S14");
    reveal_strlit("S15-S18");
    reveal_strlit("S19-S22");
    reveal_strlit("S23-S26");
    reveal_with_fuel(decimal, 3);
    let (a, b): (nat, nat) = if level <= 6 {
        (1, 6)
    } else if level <= 10 {
        (7, 10)
    } else if level <= 14 {
        (11, 14)
    } else if level <= 18 {
        (15, 18)
    } else if level <= 22 {
        (19, 22)
    } else {
        (23, 26)
    };
    assert(level_band(level) =~= "S"@ + decimal(a) + "-S"@ + decimal(b));
}

} // verus!
