//! Prompt-context building blocks: pattern families and their keys, the
//! reading of a browser BPM reconciliation note, and the privacy audit of a
//! prompt.
use vstd::prelude::*;
use crate::biomechanics::PlayMode;
use crate::guardrail::{family_signal, FamilySignalEntry, SingleGuardrailCalibration};
use crate::text::{
    ascii_lower, chars_are, chars_of, contains_chars, contains_seq, find_seq, first_index_of,
    is_ascii_seq, lemma_first_index, lowercase_chars, lowercase_of, push_all, push_str,
    slice_chars, string_from_chars, to_lowercase, trim, trim_chars, views, decimal, push_decimal,
    string_views,
};

verus! {

/// A family of step patterns that a generated section may focus on.
#[derive(Debug, Clone, Copy, PartialEq, Eq, Structural)]
pub enum PatternFamily {
    Stream,
    JumpAccent,
    TwistTechnical,
    BracketTechnical,
    HoldControl,
    CenterControl,
    Stamina,
    Balanced,
    Unknown,
}

/// The snake-case key of a family.
pub open spec fn family_key(f: PatternFamily) -> Seq<char> {
    match f {
        PatternFamily::Stream => "stream"@,
        PatternFamily::JumpAccent => "jump_accent"@,
        PatternFamily::TwistTechnical => "twist_technical"@,
        PatternFamily::BracketTechnical => "bracket_technical"@,
        PatternFamily::HoldControl => "hold_control"@,
        PatternFamily::CenterControl => "center_control"@,
        PatternFamily::Stamina => "stamina"@,
        PatternFamily::Balanced => "balanced"@,
        PatternFamily::Unknown => "unknown"@,
    }
}

/// The family that a normalised key (lower case, spaces made underscores)
/// names, with the accepted aliases; anything else is `Unknown`.
pub open spec fn family_from_key(k: Seq<char>) -> PatternFamily {
    if k == "stream"@ {
        PatternFamily::Stream
    } else if k == "jump_accent"@ || k == "jump_accents"@ || k == "jump"@ || k == "jumps"@ {
        PatternFamily::JumpAccent
    } else if k == "twist_technical"@ || k == "twist"@ || k == "twists"@ || k == "twist_tech"@ {
        PatternFamily::TwistTechnical
    } else if k == "bracket_technical"@ || k == "bracket"@ || k == "brackets"@ || k
        == "bracket_tech"@ {
        PatternFamily::BracketTechnical
    } else if k == "hold_control"@ || k == "hold"@ || k == "holds"@ || k == "hold_ctrl"@ {
        PatternFamily::HoldControl
    } else if k == "center_control"@ || k == "center"@ || k == "center_ctrl"@ {
        PatternFamily::CenterControl
    } else if k == "stamina"@ {
        PatternFamily::Stamina
    } else if k == "balanced"@ {
        PatternFamily::Balanced
    } else {
        PatternFamily::Unknown
    }
}

/// `s` with every space replaced by an underscore.
pub open spec fn spaces_to_underscores(s: Seq<char>) -> Seq<char> {
    s.map_values(|c: char| if c == ' ' { '_' } else { c })
}

/// The family a free-form name denotes: lower-cased, spaces made underscores.
pub open spec fn family_named(lower: Seq<char>) -> PatternFamily {
    family_from_key(spaces_to_underscores(lower))
}

fn underscore_spaces(cs: &[char]) -> (r: Vec<char>)
    ensures
        r@ == spaces_to_underscores(cs@),
{
    let mut r: Vec<char> = Vec::new();
    let mut i: usize = 0;
    while i < cs.len()
        invariant
            i <= cs@.len(),
            r@ == spaces_to_underscores(cs@.take(i as int)),
        decreases cs@.len() - i,
    {
        let c = cs[i];
        r.push(if c == ' ' { '_' } else { c });
        i = i + 1;
        assert(spaces_to_underscores(cs@.take(i as int)) =~= spaces_to_underscores(
            cs@.take(i - 1),
        ).push(if c == ' ' { '_' } else { c }));
    }
    assert(cs@.take(cs@.len() as int) =~= cs@);
    r
}

fn family_of_key_exec(k: &[char]) -> (f: PatternFamily)
    ensures
        f == family_from_key(k@),
{
    if chars_are(k, "stream") {
        PatternFamily::Stream
    } else if chars_are(k, "jump_accent") || chars_are(k, "jump_accents") || chars_are(k, "jump")
        || chars_are(k, "jumps") {
        PatternFamily::JumpAccent
    } else if chars_are(k, "twist_technical") || chars_are(k, "twist") || chars_are(k, "twists")
        || chars_are(k, "twist_tech") {
        PatternFamily::TwistTechnical
    } else if chars_are(k, "bracket_technical") || chars_are(k, "bracket") || chars_are(
        k,
        "brackets",
    ) || chars_are(k, "bracket_tech") {
        PatternFamily::BracketTechnical
    } else if chars_are(k, "hold_control") || chars_are(k, "hold") || chars_are(k, "holds")
        || chars_are(k, "hold_ctrl") {
        PatternFamily::HoldControl
    } else if chars_are(k, "center_control") || chars_are(k, "center") || chars_are(
        k,
        "center_ctrl",
    ) {
        PatternFamily::CenterControl
    } else if chars_are(k, "stamina") {
        PatternFamily::Stamina
    } else if chars_are(k, "balanced") {
        PatternFamily::Balanced
    } else {
        PatternFamily::Unknown
    }
}

/// The family named by already lower-cased characters.
pub fn family_of_lowered(lower: &[char]) -> (f: PatternFamily)
    ensures
        f == family_named(lower@),
{
    let k = underscore_spaces(lower);
    family_of_key_exec(k.as_slice())
}

impl PatternFamily {
    /// The snake-case key of the family.
    pub fn to_string_key(&self) -> (s: String)
        ensures
            s@ == family_key(*self),
    {
        match self {
            PatternFamily::Stream => String::from_str("stream"),
            PatternFamily::JumpAccent => String::from_str("jump_accent"),
            PatternFamily::TwistTechnical => String::from_str("twist_technical"),
            PatternFamily::BracketTechnical => String::from_str("bracket_technical"),
            PatternFamily::HoldControl => String::from_str("hold_control"),
            PatternFamily::CenterControl => String::from_str("center_control"),
            PatternFamily::Stamina => String::from_str("stamina"),
            PatternFamily::Balanced => String::from_str("balanced"),
            PatternFamily::Unknown => String::from_str("unknown"),
        }
    }

    /// Reads a family name: case is ignored and spaces count as underscores;
    /// aliases such as `jumps` or `twist` are accepted, anything else is
    /// `Unknown`.
    pub fn from_str(s: &str) -> (f: Self)
        ensures
            f == family_named(lowercase_of(s@)),
            is_ascii_seq(s@) ==> f == family_named(ascii_lower(s@)),
    {
        let lower = to_lowercase(s);
        let cs = chars_of(lower.as_str());
        family_of_lowered(cs.as_slice())
    }
}

/// Each family's key is plain lower-case ASCII without spaces, and reading it
/// back gives the family: `from_str(to_string_key(f)) == f`.
pub proof fn lemma_family_key_roundtrip(f: PatternFamily)
    ensures
        is_ascii_seq(family_key(f)),
        family_named(ascii_lower(family_key(f))) == f,
{
    let k = family_key(f);
    reveal_strlit("stream");
    reveal_strlit("jump_accent");
    reveal_strlit("jump_accents");
    reveal_strlit("jump");
    reveal_strlit("jumps");
    reveal_strlit("twist_technical");
    reveal_strlit("twist");
    reveal_strlit("twists");
    reveal_strlit("twist_tech");
    reveal_strlit("bracket_technical");
    reveal_strlit("bracket");
    reveal_strlit("brackets");
    reveal_strlit("bracket_tech");
    reveal_strlit("hold_control");
    reveal_strlit("hold");
    reveal_strlit("holds");
    reveal_strlit("hold_ctrl");
    reveal_strlit("center_control");
    reveal_strlit("center");
    reveal_strlit("center_ctrl");
    reveal_strlit("stamina");
    reveal_strlit("balanced");
    reveal_strlit("unknown");
    assert(ascii_lower(k) =~= k);
    assert(spaces_to_underscores(k) =~= k);
    match f {
        PatternFamily::Stream => {},
        PatternFamily::JumpAccent => {
            assert(k != "stream"@ && k[0] != "stream"@[0]);
        },
        PatternFamily::TwistTechnical => {
            assert(k[0] != "stream"@[0] && k[0] != "jump"@[0]);
        },
        PatternFamily::BracketTechnical => {
            assert(k[0] != "stream"@[0] && k[0] != "jump"@[0] && k[0] != "twist"@[0]);
        },
        PatternFamily::HoldControl => {
            assert(k[0] != "stream"@[0] && k[0] != "jump"@[0] && k[0] != "twist"@[0] && k[0]
                != "bracket"@[0]);
        },
        PatternFamily::CenterControl => {
            assert(k[0] != "stream"@[0] && k[0] != "jump"@[0] && k[0] != "twist"@[0] && k[0]
                != "bracket"@[0] && k[0] != "hold"@[0]);
        },
        PatternFamily::Stamina => {
            assert(k[2] != "stream"@[2]);
            assert(k[0] != "jump"@[0] && k[0] != "twist"@[0] && k[0] != "bracket"@[0] && k[0]
                != "hold"@[0] && k[0] != "center"@[0]);
        },
        PatternFamily::Balanced => {
            assert(k[0] != "stream"@[0] && k[0] != "jump"@[0] && k[0] != "twist"@[0] && k[0]
                != "hold"@[0] && k[0] != "center"@[0]);
            assert(k[1] != "bracket"@[1]);
        },
        PatternFamily::Unknown => {
            assert(k[0] != "stream"@[0] && k[0] != "jump"@[0] && k[0] != "twist"@[0] && k[0]
                != "hold"@[0] && k[0] != "center"@[0] && k[0] != "bracket"@[0] && k[0]
                != "balanced"@[0]);
        },
    }
}

/// Whether a pattern family was asked for by name or left to the resolver.
#[derive(Debug, Clone, PartialEq, Eq, Structural)]
pub enum PatternFamilyTargetMode {
    Auto,
    Specific(PatternFamily),
}

/// The target mode that a name denotes, given its lower-cased characters.
pub open spec fn target_mode_named(lower: Seq<char>) -> PatternFamilyTargetMode {
    if lower == "auto"@ {
        PatternFamilyTargetMode::Auto
    } else {
        PatternFamilyTargetMode::Specific(family_named(lower))
    }
}

impl PatternFamilyTargetMode {
    /// `auto` (any case) is `Auto`; any other name is a specific family.
    pub fn from_str(s: &str) -> (m: Self)
        ensures
            m == target_mode_named(lowercase_of(s@)),
            is_ascii_seq(s@) ==> m == target_mode_named(ascii_lower(s@)),
    {
        let lower = to_lowercase(s);
        let cs = chars_of(lower.as_str());
        if chars_are(cs.as_slice(), "auto") {
            PatternFamilyTargetMode::Auto
        } else {
            PatternFamilyTargetMode::Specific(PatternFamily::from_str(s))
        }
    }
}


// ---------------------------------------------------------------------------
// Browser BPM reconciliation notes
// ---------------------------------------------------------------------------

/// The status word of a lower-cased reconciliation note: what follows
/// `status:` up to the next comma, trimmed; the whole note when it has no
/// `status:`.
pub open spec fn bpm_status_token(lower: Seq<char>) -> Seq<char> {
    let i = first_index_of(lower, "status:"@);
    if i >= 0 {
        let after = lower.subrange(i + 7, lower.len() as int);
        let j = first_index_of(after, ","@);
        if j >= 0 {
            trim(after.subrange(0, j))
        } else {
            trim(after)
        }
    } else {
        lower
    }
}

/// What a status word says: agreement, disagreement or nothing.
pub open spec fn bpm_token_status(t: Seq<char>) -> Option<bool> {
    if t == "agrees"@ || t == "agree"@ || t == "agreed with sheet timing"@ {
        Some(true)
    } else if t == "disagrees"@ || t == "disagree"@ || t == "mismatch"@ || t == "mismatched"@ || t
        == "mismatch or manual review suggested"@ {
        Some(false)
    } else if t == "unsupported"@ || t == "no_browser_evidence"@ || t == "none"@ {
        None
    } else if contains_seq(t, "disagree"@) || contains_seq(t, "mismatch"@) {
        Some(false)
    } else if contains_seq(t, "agree"@) {
        Some(true)
    } else {
        None
    }
}

fn bpm_token_status_exec(t: &[char]) -> (r: Option<bool>)
    ensures
        r == bpm_token_status(t@),
{
    if chars_are(t, "agrees") || chars_are(t, "agree") || chars_are(t, "agreed with sheet timing") {
        Some(true)
    } else if chars_are(t, "disagrees") || chars_are(t, "disagree") || chars_are(t, "mismatch")
        || chars_are(t, "mismatched") || chars_are(t, "mismatch or manual review suggested") {
        Some(false)
    } else if chars_are(t, "unsupported") || chars_are(t, "no_browser_evidence") || chars_are(
        t,
        "none",
    ) {
        None
    } else if contains_chars(t, chars_of("disagree").as_slice()) || contains_chars(
        t,
        chars_of("mismatch").as_slice(),
    ) {
        Some(false)
    } else if contains_chars(t, chars_of("agree").as_slice()) {
        Some(true)
    } else {
        None
    }
}

/// The status that an already lower-cased, trimmed reconciliation note gives.
pub fn bpm_status_from_lowered(lower: &[char]) -> (r: Option<bool>)
    ensures
        r == bpm_token_status(bpm_status_token(lower@)),
{
    let key = chars_of("status:");
    proof {
        reveal_strlit("status:");
        assert(key@.len() == 7);
    }
    match find_seq(lower, key.as_slice()) {
        Some(i) => {
            proof {
                lemma_first_index(lower@, key@, i as int);
                assert(crate::text::occurs_at(lower@, key@, i as int));
                assert(i + 7 <= lower@.len());
            }
            let n = lower.len();
            let after = slice_chars(lower, i + 7, n);
            let comma = chars_of(",");
            let tok = match find_seq(after.as_slice(), comma.as_slice()) {
                Some(j) => {
                    proof {
                        lemma_first_index(after@, comma@, j as int);
                    }
                    let head = slice_chars(after.as_slice(), 0, j);
                    trim_chars(head.as_slice())
                },
                None => {
                    proof {
                        crate::text::lemma_first_index_none(after@, comma@);
                    }
                    trim_chars(after.as_slice())
                },
            };
            bpm_token_status_exec(tok.as_slice())
        },
        None => {
            proof {
                crate::text::lemma_first_index_none(lower@, key@);
            }
            bpm_token_status_exec(lower)
        },
    }
}

/// Reads a browser BPM reconciliation note: `Some(true)` when it says the
/// BPM agrees with the sheet timing, `Some(false)` when it disagrees, `None`
/// when it is empty or says nothing either way. Case is ignored.
pub fn classify_browser_bpm_reconciliation_status(recon: &str) -> (r: Option<bool>)
    ensures
        trim(recon@).len() == 0 ==> r is None,
        trim(recon@).len() > 0 ==> r == bpm_token_status(bpm_status_token(lowercase_of(trim(recon@)))),
{
    let cs = chars_of(recon);
    let trimmed = trim_chars(cs.as_slice());
    if trimmed.len() == 0 {
        return None;
    }
    let lower = lowercase_chars(trimmed.as_slice());
    bpm_status_from_lowered(lower.as_slice())
}

// ---------------------------------------------------------------------------
// Privacy audit of a prompt
// ---------------------------------------------------------------------------

pub open spec fn forbidden_tags() -> Seq<Seq<char>> {
    seq![
        "#notedata"@,
        "#title"@,
        "#artist"@,
        "#bpms"@,
        "#offset"@,
        "#stops"@,
        "#delays"@,
        "#warps"@,
    ]
}

pub open spec fn forbidden_keywords() -> Seq<Seq<char>> {
    seq![
        "base64"@,
        "data:audio"@,
        ".ai-step-gen-private-datasets"@,
        "official_songs"@,
        "canonical bpm"@,
        "browser bpm"@,
        "candidates:"@,
        "duración:"@,
        "segundos"@,
    ]
}

pub open spec fn forbidden_extensions() -> Seq<Seq<char>> {
    seq![
        ".ssc"@,
        ".mp3"@,
        ".ogg"@,
        ".flac"@,
        ".wav"@,
        ".mp4"@,
        ".mpg"@,
        ".png"@,
        ".jpg"@,
        ".jpeg"@,
    ]
}

/// `a:\`, `a:/`, `b:\`, `b:/`, ... `z:/`, in that order.
pub open spec fn drive_prefixes() -> Seq<Seq<char>> {
    Seq::new(
        52,
        |i: int| seq!["abcdefghijklmnopqrstuvwxyz"@[i / 2], ':', if i % 2 == 0 { '\\' } else { '/' }],
    )
}

pub open spec fn forbidden_unix_prefixes() -> Seq<Seq<char>> {
    seq!["/users/"@, "/home/"@, "/var/"@, "/tmp/"@, "/etc/"@, "/opt/"@]
}

/// Each pattern paired with the name of its kind.
pub open spec fn labelled(ps: Seq<Seq<char>>, label: Seq<char>) -> Seq<(Seq<char>, Seq<char>)> {
    ps.map_values(|p: Seq<char>| (p, label))
}

/// The audit's patterns in the order they are checked, each with its kind.
pub open spec fn audit_rules() -> Seq<(Seq<char>, Seq<char>)> {
    labelled(forbidden_tags(), "Forbidden StepMania tag"@) + labelled(
        forbidden_keywords(),
        "Forbidden keyword"@,
    ) + labelled(forbidden_extensions(), "Forbidden extension"@) + labelled(
        drive_prefixes(),
        "Forbidden Windows path prefix"@,
    ) + labelled(forbidden_unix_prefixes(), "Forbidden Unix path prefix"@)
}

/// The first rule whose pattern occurs in `text`.
pub open spec fn first_violation(text: Seq<char>, rules: Seq<(Seq<char>, Seq<char>)>) -> Option<
    (Seq<char>, Seq<char>),
>
    decreases rules.len(),
{
    if rules.len() == 0 {
        None
    } else if contains_seq(text, rules[0].0) {
        Some(rules[0])
    } else {
        first_violation(text, rules.drop_first())
    }
}

pub open spec fn audit_message(rule: (Seq<char>, Seq<char>)) -> Seq<char> {
    "Privacy Violation: "@ + rule.1 + " '"@ + rule.0 + "' detected in prompt context."@
}

/// The audit of a lower-cased prompt: the message for the first forbidden
/// pattern it holds, or `Ok`.
pub open spec fn prompt_audit(lower: Seq<char>) -> Result<(), Seq<char>> {
    match first_violation(lower, audit_rules()) {
        None => Ok(()),
        Some(rule) => Err(audit_message(rule)),
    }
}

proof fn lemma_first_violation_concat(
    text: Seq<char>,
    a: Seq<(Seq<char>, Seq<char>)>,
    b: Seq<(Seq<char>, Seq<char>)>,
)
    ensures
        first_violation(text, a + b) == (match first_violation(text, a) {
            Some(r) => Some(r),
            None => first_violation(text, b),
        }),
    decreases a.len(),
{
    if a.len() > 0 {
        assert((a + b).drop_first() =~= a.drop_first() + b);
        lemma_first_violation_concat(text, a.drop_first(), b);
    } else {
        assert(a + b =~= b);
    }
}

fn patterns_of(lits: &[&str]) -> (v: Vec<Vec<char>>)
    ensures
        views(v@) == lits@.map_values(|l: &str| l@),
{
    let mut v: Vec<Vec<char>> = Vec::new();
    let mut i: usize = 0;
    while i < lits.len()
        invariant
            i <= lits@.len(),
            views(v@) == lits@.take(i as int).map_values(|l: &str| l@),
        decreases lits@.len() - i,
    {
        let ghost before = v@;
        let x = chars_of(lits[i]);
        v.push(x);
        proof {
            assert(views(v@) =~= views(before).push(x@));
            assert(lits@.take(i + 1).map_values(|l: &str| l@) =~= lits@.take(i as int).map_values(
                |l: &str| l@,
            ).push(lits@[i as int]@));
        }
        i = i + 1;
    }
    assert(lits@.take(lits@.len() as int) =~= lits@);
    v
}

fn audit_message_exec(pattern: &[char], label: &str) -> (m: String)
    ensures
        m@ == audit_message((pattern@, label@)),
{
    let mut v: Vec<char> = Vec::new();
    push_str(&mut v, "Privacy Violation: ");
    push_str(&mut v, label);
    push_str(&mut v, " '");
    push_all(&mut v, pattern);
    push_str(&mut v, "' detected in prompt context.");
    assert(v@ =~= audit_message((pattern@, label@)));
    string_from_chars(v.as_slice())
}

/// Checks one kind of pattern, in order.
fn check_patterns(lower: &[char], pats: &Vec<Vec<char>>, label: &str) -> (r: Option<String>)
    ensures
        match r {
            None => first_violation(lower@, labelled(views(pats@), label@)) is None,
            Some(m) => first_violation(lower@, labelled(views(pats@), label@)) is Some && m@
                == audit_message(first_violation(lower@, labelled(views(pats@), label@))->0),
        },
{
    let ghost rules = labelled(views(pats@), label@);
    let mut i: usize = 0;
    assert(rules.skip(0) =~= rules);
    while i < pats.len()
        invariant
            i <= pats@.len(),
            rules == labelled(views(pats@), label@),
            first_violation(lower@, rules) == first_violation(lower@, rules.skip(i as int)),
        decreases pats@.len() - i,
    {
        assert(rules.skip(i as int)[0] == (pats@[i as int]@, label@));
        if contains_chars(lower, pats[i].as_slice()) {
            return Some(audit_message_exec(pats[i].as_slice(), label));
        }
        assert(rules.skip(i as int).drop_first() =~= rules.skip(i + 1));
        i = i + 1;
    }
    assert(rules.skip(pats@.len() as int).len() == 0);
    None
}

fn drive_patterns() -> (v: Vec<Vec<char>>)
    ensures
        views(v@) == drive_prefixes(),
{
    let letters = chars_of("abcdefghijklmnopqrstuvwxyz");
    proof {
        reveal_strlit("abcdefghijklmnopqrstuvwxyz");
    }
    let mut v: Vec<Vec<char>> = Vec::new();
    let mut k: usize = 0;
    while k < 26
        invariant
            k <= 26,
            letters@ == "abcdefghijklmnopqrstuvwxyz"@,
            letters@.len() == 26,
            views(v@) == drive_prefixes().take(2 * k),
        decreases 26 - k,
    {
        let c = letters[k];
        let mut a: Vec<char> = Vec::new();
        a.push(c);
        a.push(':');
        a.push('\\');
        let mut b: Vec<char> = Vec::new();
        b.push(c);
        b.push(':');
        b.push('/');
        let ghost before = v@;
        v.push(a);
        v.push(b);
        proof {
            let d = drive_prefixes();
            assert(views(v@) =~= views(before).push(a@).push(b@));
            assert((2 * k) / 2 == k && (2 * k) % 2 == 0) by (nonlinear_arith);
            assert((2 * k + 1) / 2 == k && (2 * k + 1) % 2 == 1) by (nonlinear_arith);
            assert(d[2 * k] =~= a@);
            assert(d[2 * k + 1] =~= b@);
            assert(views(v@) =~= d.take(2 * k + 2));
        }
        k = k + 1;
    }
    assert(drive_prefixes().take(52) =~= drive_prefixes());
    v
}

/// The privacy audit on an already lower-cased prompt.
pub fn audit_lowered_prompt(lower: &[char]) -> (r: Result<(), String>)
    ensures
        match r {
            Ok(()) => prompt_audit(lower@) is Ok,
            Err(m) => prompt_audit(lower@) == Err::<(), Seq<char>>(m@),
        },
{
    let ghost t = lower@;
    let tags = patterns_of(
        &["#notedata", "#title", "#artist", "#bpms", "#offset", "#stops", "#delays", "#warps"],
    );
    let keywords = patterns_of(
        &[
            "base64",
            "data:audio",
            ".ai-step-gen-private-datasets",
            "official_songs",
            "canonical bpm",
            "browser bpm",
            "candidates:",
            "duración:",
            "segundos",
        ],
    );
    let extensions = patterns_of(
        &[".ssc", ".mp3", ".ogg", ".flac", ".wav", ".mp4", ".mpg", ".png", ".jpg", ".jpeg"],
    );
    let drives = drive_patterns();
    let unix = patterns_of(&["/users/", "/home/", "/var/", "/tmp/", "/etc/", "/opt/"]);
    let ghost g1 = labelled(forbidden_tags(), "Forbidden StepMania tag"@);
    let ghost g2 = labelled(forbidden_keywords(), "Forbidden keyword"@);
    let ghost g3 = labelled(forbidden_extensions(), "Forbidden extension"@);
    let ghost g4 = labelled(drive_prefixes(), "Forbidden Windows path prefix"@);
    let ghost g5 = labelled(forbidden_unix_prefixes(), "Forbidden Unix path prefix"@);
    proof {
        assert(views(tags@) =~= forbidden_tags());
        assert(views(keywords@) =~= forbidden_keywords());
        assert(views(extensions@) =~= forbidden_extensions());
        assert(views(unix@) =~= forbidden_unix_prefixes());
        assert(audit_rules() == g1 + g2 + g3 + g4 + g5);
        lemma_first_violation_concat(t, g1 + g2 + g3 + g4, g5);
        lemma_first_violation_concat(t, g1 + g2 + g3, g4);
        lemma_first_violation_concat(t, g1 + g2, g3);
        lemma_first_violation_concat(t, g1, g2);
    }
    if let Some(m) = check_patterns(lower, &tags, "Forbidden StepMania tag") {
        return Err(m);
    }
    if let Some(m) = check_patterns(lower, &keywords, "Forbidden keyword") {
        return Err(m);
    }
    if let Some(m) = check_patterns(lower, &extensions, "Forbidden extension") {
        return Err(m);
    }
    if let Some(m) = check_patterns(lower, &drives, "Forbidden Windows path prefix") {
        return Err(m);
    }
    if let Some(m) = check_patterns(lower, &unix, "Forbidden Unix path prefix") {
        return Err(m);
    }
    Ok(())
}

/// Refuses a prompt that holds, in any case, a StepMania tag, a private
/// keyword, a media file extension, a drive letter path or a Unix system
/// path, naming the first such pattern found.
pub fn self_audit_prompt_context(prompt: &str) -> (r: Result<(), String>)
    ensures
        match r {
            Ok(()) => prompt_audit(lowercase_of(prompt@)) is Ok,
            Err(m) => prompt_audit(lowercase_of(prompt@)) == Err::<(), Seq<char>>(m@),
        },
{
    let lower = to_lowercase(prompt);
    let cs = chars_of(lower.as_str());
    audit_lowered_prompt(cs.as_slice())
}


// ---------------------------------------------------------------------------
// Pattern-family targeting
// ---------------------------------------------------------------------------

/// What the music analysis intends for one section. The confidence is given
/// as its text with two decimals and as whether it is below one half.
#[derive(Debug, Clone)]
pub struct ChoreographicIntentSignal {
    pub section_id: String,
    pub confidence_text: String,
    pub confidence_below_half: bool,
    pub density_target: String,
    pub recommended_pattern_families: Vec<String>,
    pub avoid_pattern_families: Vec<String>,
}

/// The Pump It Up role the music analysis gave a section.
#[derive(Debug, Clone)]
pub struct SectionRoleSignal {
    pub section_id: String,
    pub piu_role: String,
}

/// What the targeting reads of a song's music analysis.
#[derive(Debug, Clone)]
pub struct MusicAnalysisSignals {
    pub choreographic_intent: Vec<ChoreographicIntentSignal>,
    pub sections: Vec<SectionRoleSignal>,
}

/// One family's standing. Scores are counted in half points.
#[derive(Debug, Clone)]
pub struct PatternFamilyCandidate {
    pub family: PatternFamily,
    pub score_halves: i128,
    pub confidence: String,
    pub evidence: Vec<String>,
    pub warnings: Vec<String>,
}

/// Which pattern families a section should focus on, use, and avoid.
#[derive(Debug, Clone)]
pub struct PatternFamilyTargetingReport {
    pub requested_mode: String,
    pub primary_family: String,
    pub secondary_families: Vec<String>,
    pub avoid_families: Vec<String>,
    pub candidates: Vec<PatternFamilyCandidate>,
    pub confidence: String,
    pub evidence: Vec<String>,
    pub warnings: Vec<String>,
}

/// The eight families that compete, in the order they are ranked and listed.
pub open spec fn candidate_family(i: int) -> PatternFamily {
    if i == 0 {
        PatternFamily::Stream
    } else if i == 1 {
        PatternFamily::JumpAccent
    } else if i == 2 {
        PatternFamily::TwistTechnical
    } else if i == 3 {
        PatternFamily::BracketTechnical
    } else if i == 4 {
        PatternFamily::HoldControl
    } else if i == 5 {
        PatternFamily::CenterControl
    } else if i == 6 {
        PatternFamily::Stamina
    } else {
        PatternFamily::Balanced
    }
}

/// The families that a level keeps away from: on Single, brackets, twists
/// and stamina up to S6, brackets up to S10.
pub open spec fn level_avoided(mode: PlayMode, level: u32, f: PatternFamily) -> bool {
    match mode {
        PlayMode::Single => if level <= 6 {
            f == PatternFamily::BracketTechnical || f == PatternFamily::TwistTechnical || f
                == PatternFamily::Stamina
        } else if level <= 10 {
            f == PatternFamily::BracketTechnical
        } else {
            false
        },
        PlayMode::Double => false,
    }
}

/// The first intent for a section.
pub open spec fn intent_index(intents: Seq<ChoreographicIntentSignal>, id: Seq<char>) -> Option<int>
    decreases intents.len(),
{
    if intents.len() == 0 {
        None
    } else {
        match intent_index(intents.drop_last(), id) {
            Some(i) => Some(i),
            None => if intents.last().section_id@ == id {
                Some(intents.len() - 1)
            } else {
                None
            },
        }
    }
}

/// The first role given to a section.
pub open spec fn role_index(sections: Seq<SectionRoleSignal>, id: Seq<char>) -> Option<int>
    decreases sections.len(),
{
    if sections.len() == 0 {
        None
    } else {
        match role_index(sections.drop_last(), id) {
            Some(i) => Some(i),
            None => if sections.last().section_id@ == id {
                Some(sections.len() - 1)
            } else {
                None
            },
        }
    }
}

pub open spec fn intent_of(ma: MusicAnalysisSignals, id: Seq<char>) -> Option<ChoreographicIntentSignal> {
    match intent_index(ma.choreographic_intent@, id) {
        Some(i) => Some(ma.choreographic_intent@[i]),
        None => None,
    }
}

pub open spec fn role_of(ma: MusicAnalysisSignals, id: Seq<char>) -> Option<Seq<char>> {
    match role_index(ma.sections@, id) {
        Some(i) => Some(ma.sections@[i].piu_role@),
        None => None,
    }
}

/// How many of the names denote `f`.
pub open spec fn named_count(names: Seq<Seq<char>>, f: PatternFamily) -> nat
    decreases names.len(),
{
    if names.len() == 0 {
        0
    } else {
        named_count(names.drop_last(), f) + if family_named(lowercase_of(names.last())) == f {
            1nat
        } else {
            0nat
        }
    }
}

/// `msg` once for each name that denotes `f`.
pub open spec fn named_messages(names: Seq<Seq<char>>, f: PatternFamily, msg: Seq<char>) -> Seq<Seq<char>>
    decreases names.len(),
{
    if names.len() == 0 {
        Seq::empty()
    } else {
        let rest = named_messages(names.drop_last(), f, msg);
        if family_named(lowercase_of(names.last())) == f {
            rest.push(msg)
        } else {
            rest
        }
    }
}

/// Half points from the section's intent: 2.5 for each recommendation of
/// the family, minus 10 for each time it is to be avoided.
pub open spec fn intent_delta(intent: Option<ChoreographicIntentSignal>, f: PatternFamily) -> int {
    match intent {
        Some(it) => 5 * named_count(string_views(it.recommended_pattern_families@), f) - 20
            * named_count(string_views(it.avoid_pattern_families@), f),
        None => 0,
    }
}

pub open spec fn b2i(b: bool, v: int) -> int {
    if b {
        v
    } else {
        0
    }
}

/// Half points from the section's role (already lower-cased).
pub open spec fn role_delta(lr: Seq<char>, level: u32, f: PatternFamily) -> int {
    if lr == "final_burst"@ {
        if level >= 15 {
            b2i(f == PatternFamily::Stamina, 4)
        } else {
            b2i(f == PatternFamily::Stream, 3)
        }
    } else if lr == "climax_run"@ {
        b2i(f == PatternFamily::Stream, 3) + b2i(level >= 15 && f == PatternFamily::Stamina, 3)
            + b2i(level >= 12 && f == PatternFamily::TwistTechnical, 2)
    } else if lr == "crossover_drill"@ || lr == "twist_train"@ {
        b2i(level >= 7 && f == PatternFamily::TwistTechnical, 4)
    } else if lr == "accent_drop"@ {
        b2i(f == PatternFamily::JumpAccent, 4)
    } else if lr == "hold_check"@ {
        b2i(f == PatternFamily::HoldControl, 4)
    } else if lr == "rest_step"@ {
        b2i(level >= 10 && f == PatternFamily::HoldControl, 3) + b2i(f == PatternFamily::Balanced, 2)
    } else {
        0
    }
}

pub open spec fn role_score(role: Option<Seq<char>>, level: u32, f: PatternFamily) -> int {
    match role {
        Some(r) => role_delta(lowercase_of(r), level, f),
        None => 0,
    }
}

/// The calibration's signal for a family.
pub open spec fn cal_signal(cal: Option<SingleGuardrailCalibration>, f: PatternFamily) -> Option<FamilySignalEntry> {
    match cal {
        Some(c) => family_signal(c.pattern_family_thresholds@, family_key(f)),
        None => None,
    }
}

/// Half points from the calibration: 1 inside the typical range, 0.5 above
/// it, minus 1.5 for each level below it.
pub open spec fn cal_delta(cal: Option<SingleGuardrailCalibration>, level: u32, f: PatternFamily) -> int {
    match cal_signal(cal, f) {
        Some(e) => {
            let r = e.typical_level_range;
            if level >= r.min && level <= r.max {
                2
            } else if level < r.min {
                -3 * (r.min - level)
            } else {
                1
            }
        },
        None => 0,
    }
}

/// The score before the level limits and the analysis' confidence weigh in.
pub open spec fn raw_score(
    intent: Option<ChoreographicIntentSignal>,
    role: Option<Seq<char>>,
    cal: Option<SingleGuardrailCalibration>,
    level: u32,
    f: PatternFamily,
) -> int {
    b2i(f == PatternFamily::Balanced, 2) + intent_delta(intent, f) + role_score(role, level, f)
        + cal_delta(cal, level, f)
}

pub open spec fn analysis_low(intent: Option<ChoreographicIntentSignal>) -> bool {
    intent is Some && intent->0.confidence_below_half
}

/// A family's final score: in `Auto` mode a family that the level avoids
/// scores -999, and a weak analysis adds 2 to `balanced` and takes 1.5 from
/// every other family.
pub open spec fn final_score(
    req: PatternFamilyTargetMode,
    mode: PlayMode,
    intent: Option<ChoreographicIntentSignal>,
    role: Option<Seq<char>>,
    cal: Option<SingleGuardrailCalibration>,
    level: u32,
    f: PatternFamily,
) -> int {
    match req {
        PatternFamilyTargetMode::Specific(_) => raw_score(intent, role, cal, level, f),
        PatternFamilyTargetMode::Auto => {
            let s = if level_avoided(mode, level, f) {
                -1998
            } else {
                raw_score(intent, role, cal, level, f)
            };
            if analysis_low(intent) {
                if f == PatternFamily::Balanced {
                    s + 4
                } else {
                    s - 3
                }
            } else {
                s
            }
        },
    }
}

pub open spec fn intent_evidence(intent: Option<ChoreographicIntentSignal>, f: PatternFamily) -> Seq<Seq<char>> {
    match intent {
        Some(it) => named_messages(
            string_views(it.recommended_pattern_families@),
            f,
            "Recomendado por Music Analysis (Intent Density: "@ + it.density_target@ + ")"@,
        ) + named_messages(
            string_views(it.avoid_pattern_families@),
            f,
            "Evitado explícitamente por Music Analysis"@,
        ),
        None => Seq::empty(),
    }
}

pub open spec fn role_evidence(role: Option<Seq<char>>, level: u32, f: PatternFamily) -> Seq<Seq<char>> {
    match role {
        Some(r) => {
            let lr = lowercase_of(r);
            if lr == "final_burst"@ && level >= 15 && f == PatternFamily::Stamina {
                seq!["Sección final burst a nivel alto (S15+), se sugiere resistencia"@]
            } else if (lr == "crossover_drill"@ || lr == "twist_train"@) && level >= 7 && f
                == PatternFamily::TwistTechnical {
                seq!["PIU Role '"@ + r + "' detectado"@]
            } else if lr == "accent_drop"@ && f == PatternFamily::JumpAccent {
                seq!["Sección con acentos musicales marcados"@]
            } else {
                Seq::empty()
            }
        },
        None => Seq::empty(),
    }
}

/// The calibration's note on a family, and whether it is a warning.
pub open spec fn cal_note(cal: Option<SingleGuardrailCalibration>, level: u32, f: PatternFamily) -> Option<(Seq<char>, bool)> {
    match cal_signal(cal, f) {
        Some(e) => {
            let r = e.typical_level_range;
            let l = decimal(level as nat);
            if level >= r.min && level <= r.max {
                Some(
                    (
                        "Nivel solicitado S"@ + l + " está dentro del rango típico de calibración para "@
                            + family_key(f) + " (S"@ + decimal(r.min as nat) + "-S"@ + decimal(
                            r.max as nat,
                        ) + ")"@,
                        false,
                    ),
                )
            } else if level < r.min {
                Some(
                    (
                        "Nivel solicitado S"@ + l + " es menor que el mínimo calibrado (S"@ + decimal(
                            r.min as nat,
                        ) + ") para "@ + family_key(f),
                        true,
                    ),
                )
            } else {
                Some(
                    (
                        "Nivel solicitado S"@ + l + " es mayor que el máximo calibrado (S"@ + decimal(
                            r.max as nat,
                        ) + ") para "@ + family_key(f),
                        false,
                    ),
                )
            }
        },
        None => None,
    }
}

pub open spec fn family_evidence(
    intent: Option<ChoreographicIntentSignal>,
    role: Option<Seq<char>>,
    cal: Option<SingleGuardrailCalibration>,
    level: u32,
    f: PatternFamily,
) -> Seq<Seq<char>> {
    intent_evidence(intent, f) + role_evidence(role, level, f) + match cal_note(cal, level, f) {
        Some(n) => seq![n.0],
        None => Seq::empty(),
    }
}

pub open spec fn family_warnings(
    req: PatternFamilyTargetMode,
    mode: PlayMode,
    cal: Option<SingleGuardrailCalibration>,
    level: u32,
    f: PatternFamily,
) -> Seq<Seq<char>> {
    (match cal_note(cal, level, f) {
        Some(n) => if n.1 {
            seq![n.0]
        } else {
            Seq::empty()
        },
        None => Seq::empty(),
    }) + if req is Auto && level_avoided(mode, level, f) {
        seq!["Evitado para niveles bajos (S1-S6/S10)"@]
    } else {
        Seq::empty()
    }
}

/// The first best score strictly above -99 among the first `n` families,
/// with its index (-1 and -99 when none is).
pub open spec fn best_of(scores: Seq<int>, n: int) -> (int, int)
    decreases n,
{
    if n <= 0 {
        (-1, -198)
    } else {
        let (i, b) = best_of(scores, n - 1);
        if scores[n - 1] > b {
            (n - 1, scores[n - 1])
        } else {
            (i, b)
        }
    }
}

/// Whether a specifically requested family can be honoured: the level does
/// not avoid it, its calibrated range starts no more than three levels
/// above the request, and it is a known family.
pub open spec fn specific_ok(mode: PlayMode, cal: Option<SingleGuardrailCalibration>, level: u32, f: PatternFamily) -> bool {
    &&& !level_avoided(mode, level, f)
    &&& !(cal_signal(cal, f) is Some && level + 3 < cal_signal(cal, f)->0.typical_level_range.min)
    &&& f != PatternFamily::Unknown
}

/// `h` half points with two decimals.
pub open spec fn halves_text(h: nat) -> Seq<char> {
    decimal(h / 2) + if h % 2 == 1 {
        ".50"@
    } else {
        ".00"@
    }
}

/// Each family's final score, in candidate order.
pub open spec fn targeting_scores(
    req: PatternFamilyTargetMode,
    mode: PlayMode,
    intent: Option<ChoreographicIntentSignal>,
    role: Option<Seq<char>>,
    cal: Option<SingleGuardrailCalibration>,
    level: u32,
) -> Seq<int> {
    Seq::new(8, |i: int| final_score(req, mode, intent, role, cal, level, candidate_family(i)))
}

/// The family chosen as the focus.
pub open spec fn primary_of(
    req: PatternFamilyTargetMode,
    mode: PlayMode,
    cal: Option<SingleGuardrailCalibration>,
    level: u32,
    scores: Seq<int>,
) -> PatternFamily {
    match req {
        PatternFamilyTargetMode::Specific(f) => if specific_ok(mode, cal, level, f) {
            f
        } else {
            PatternFamily::Balanced
        },
        PatternFamilyTargetMode::Auto => if best_of(scores, 8).1 > 0 {
            candidate_family(best_of(scores, 8).0)
        } else {
            PatternFamily::Balanced
        },
    }
}

/// The secondary and the avoided families among the first `n` candidates:
/// other than the focus and `balanced`, those scoring above zero are
/// secondary; those scoring below zero, or that the level avoids, are
/// avoided.
pub open spec fn grouped(
    primary: PatternFamily,
    mode: PlayMode,
    level: u32,
    scores: Seq<int>,
    n: int,
) -> (Seq<Seq<char>>, Seq<Seq<char>>)
    decreases n,
{
    if n <= 0 {
        (Seq::empty(), Seq::empty())
    } else {
        let (sec, av) = grouped(primary, mode, level, scores, n - 1);
        let f = candidate_family(n - 1);
        let s = scores[n - 1];
        if f != primary && f != PatternFamily::Balanced {
            if s > 0 {
                (sec.push(family_key(f)), av)
            } else if s < 0 || level_avoided(mode, level, f) {
                (sec, av.push(family_key(f)))
            } else {
                (sec, av)
            }
        } else {
            (sec, av)
        }
    }
}

pub open spec fn report_evidence(
    req: PatternFamilyTargetMode,
    mode: PlayMode,
    intent: Option<ChoreographicIntentSignal>,
    cal: Option<SingleGuardrailCalibration>,
    level: u32,
    section_id: Seq<char>,
    scores: Seq<int>,
) -> Seq<Seq<char>> {
    (match intent {
        Some(it) => seq![
            "Análisis musical disponible con confianza "@ + it.confidence_text@ + " para la sección '"@
                + section_id + "'."@,
        ],
        None => Seq::empty(),
    }) + match req {
        PatternFamilyTargetMode::Specific(f) => if specific_ok(mode, cal, level, f) {
            seq!["Selección manual del usuario para focus: '"@ + family_key(f) + "'."@]
        } else {
            seq!["Fallback a 'balanced' debido a incompatibilidad con '"@ + family_key(f) + "'."@]
        },
        PatternFamilyTargetMode::Auto => {
            let (i, b) = best_of(scores, 8);
            if b > 0 {
                seq![
                    "Auto seleccionó '"@ + family_key(candidate_family(i)) + "' con score "@
                        + halves_text(b as nat) + "."@,
                ]
            } else {
                seq!["Auto usa 'balanced' por falta de señales fuertes."@]
            }
        },
    }
}

pub open spec fn report_warnings(
    req: PatternFamilyTargetMode,
    mode: PlayMode,
    intent: Option<ChoreographicIntentSignal>,
    cal: Option<SingleGuardrailCalibration>,
    level: u32,
) -> Seq<Seq<char>> {
    match req {
        PatternFamilyTargetMode::Specific(f) => if level_avoided(mode, level, f) {
            seq![
                "La familia de patrones requested '"@ + family_key(f)
                    + "' es incompatible con el nivel bajo S"@ + decimal(level as nat)
                    + " y ha sido evitada."@,
            ]
        } else if cal_signal(cal, f) is Some && level + 3 < cal_signal(
            cal,
            f,
        )->0.typical_level_range.min {
            seq![
                "La familia requested '"@ + family_key(f) + "' tiene un rango mínimo calibrado de S"@
                    + decimal(cal_signal(cal, f)->0.typical_level_range.min as nat)
                    + ", lo cual es demasiado alto para S"@ + decimal(level as nat) + "."@,
            ]
        } else {
            Seq::empty()
        },
        PatternFamilyTargetMode::Auto => if analysis_low(intent) {
            seq![
                "La confianza del análisis musical es baja ("@ + intent->0.confidence_text@
                    + "). Se prioriza 'balanced'."@,
            ]
        } else {
            Seq::empty()
        },
    }
}

/// The report's confidence: low without any signal or with a weak analysis
/// in `Auto` mode; medium without calibration or from S25 up; else high.
pub open spec fn report_confidence(
    req: PatternFamilyTargetMode,
    intent: Option<ChoreographicIntentSignal>,
    cal: Option<SingleGuardrailCalibration>,
    level: u32,
) -> Seq<char> {
    if cal is None && intent is None {
        "low"@
    } else if req is Auto && analysis_low(intent) {
        "low"@
    } else if cal is None || level >= 25 {
        "medium"@
    } else {
        "high"@
    }
}

pub open spec fn requested_key(req: PatternFamilyTargetMode) -> Seq<char> {
    match req {
        PatternFamilyTargetMode::Auto => "auto"@,
        PatternFamilyTargetMode::Specific(f) => family_key(f),
    }
}

pub open spec fn candidate_confidence(warnings: Seq<Seq<char>>) -> Seq<char> {
    if warnings.len() == 0 {
        "high"@
    } else {
        "medium"@
    }
}

pub open spec fn opt_intent(o: Option<&ChoreographicIntentSignal>) -> Option<ChoreographicIntentSignal> {
    match o {
        Some(x) => Some(*x),
        None => None,
    }
}

pub open spec fn opt_cal(o: Option<&SingleGuardrailCalibration>) -> Option<SingleGuardrailCalibration> {
    match o {
        Some(x) => Some(*x),
        None => None,
    }
}

pub open spec fn opt_text(o: Option<&str>) -> Option<Seq<char>> {
    match o {
        Some(x) => Some(x@),
        None => None,
    }
}

fn candidate_family_at(i: usize) -> (f: PatternFamily)
    requires
        i < 8,
    ensures
        f == candidate_family(i as int),
{
    if i == 0 {
        PatternFamily::Stream
    } else if i == 1 {
        PatternFamily::JumpAccent
    } else if i == 2 {
        PatternFamily::TwistTechnical
    } else if i == 3 {
        PatternFamily::BracketTechnical
    } else if i == 4 {
        PatternFamily::HoldControl
    } else if i == 5 {
        PatternFamily::CenterControl
    } else if i == 6 {
        PatternFamily::Stamina
    } else {
        PatternFamily::Balanced
    }
}

fn is_level_avoided(mode: PlayMode, level: u32, f: PatternFamily) -> (b: bool)
    ensures
        b == level_avoided(mode, level, f),
{
    match mode {
        PlayMode::Single => if level <= 6 {
            f == PatternFamily::BracketTechnical || f == PatternFamily::TwistTechnical || f
                == PatternFamily::Stamina
        } else if level <= 10 {
            f == PatternFamily::BracketTechnical
        } else {
            false
        },
        PlayMode::Double => false,
    }
}

proof fn lemma_intent_index_extends(s: Seq<ChoreographicIntentSignal>, id: Seq<char>, k: int)
    requires
        0 < k <= s.len(),
        intent_index(s.take(k), id) is Some,
    ensures
        intent_index(s, id) == intent_index(s.take(k), id),
    decreases s.len() - k,
{
    if k < s.len() {
        assert(s.take(k + 1).drop_last() =~= s.take(k));
        lemma_intent_index_extends(s, id, k + 1);
    } else {
        assert(s.take(k) =~= s);
    }
}

fn find_intent(intents: &Vec<ChoreographicIntentSignal>, id: &[char]) -> (r: Option<usize>)
    ensures
        match r {
            Some(i) => i < intents@.len() && intent_index(intents@, id@) == Some(i as int),
            None => intent_index(intents@, id@) is None,
        },
{
    let mut i: usize = 0;
    while i < intents.len()
        invariant
            i <= intents@.len(),
            intent_index(intents@.take(i as int), id@) is None,
        decreases intents@.len() - i,
    {
        proof {
            assert(intents@.take(i + 1).drop_last() =~= intents@.take(i as int));
            assert(intents@.take(i + 1).last() == intents@[i as int]);
        }
        if crate::text::chars_equal(chars_of(intents[i].section_id.as_str()).as_slice(), id) {
            proof {
                lemma_intent_index_extends(intents@, id@, i + 1);
            }
            return Some(i);
        }
        i = i + 1;
    }
    proof {
        assert(intents@.take(intents@.len() as int) =~= intents@);
    }
    None
}

proof fn lemma_role_index_extends(s: Seq<SectionRoleSignal>, id: Seq<char>, k: int)
    requires
        0 < k <= s.len(),
        role_index(s.take(k), id) is Some,
    ensures
        role_index(s, id) == role_index(s.take(k), id),
    decreases s.len() - k,
{
    if k < s.len() {
        assert(s.take(k + 1).drop_last() =~= s.take(k));
        lemma_role_index_extends(s, id, k + 1);
    } else {
        assert(s.take(k) =~= s);
    }
}

fn find_role(sections: &Vec<SectionRoleSignal>, id: &[char]) -> (r: Option<usize>)
    ensures
        match r {
            Some(i) => i < sections@.len() && role_index(sections@, id@) == Some(i as int),
            None => role_index(sections@, id@) is None,
        },
{
    let mut i: usize = 0;
    while i < sections.len()
        invariant
            i <= sections@.len(),
            role_index(sections@.take(i as int), id@) is None,
        decreases sections@.len() - i,
    {
        proof {
            assert(sections@.take(i + 1).drop_last() =~= sections@.take(i as int));
            assert(sections@.take(i + 1).last() == sections@[i as int]);
        }
        if crate::text::chars_equal(chars_of(sections[i].section_id.as_str()).as_slice(), id) {
            proof {
                lemma_role_index_extends(sections@, id@, i + 1);
            }
            return Some(i);
        }
        i = i + 1;
    }
    proof {
        assert(sections@.take(sections@.len() as int) =~= sections@);
    }
    None
}

proof fn lemma_named_count_bound(names: Seq<Seq<char>>, f: PatternFamily)
    ensures
        named_count(names, f) <= names.len(),
    decreases names.len(),
{
    if names.len() > 0 {
        lemma_named_count_bound(names.drop_last(), f);
    }
}

/// Counts the names that denote `f`, appending `msg` to `out` for each.
fn count_named(names: &Vec<String>, f: PatternFamily, msg: &[char], out: &mut Vec<String>) -> (n: usize)
    ensures
        n == named_count(string_views(names@), f),
        string_views(final(out)@) == string_views(old(out)@) + named_messages(
            string_views(names@),
            f,
            msg@,
        ),
{
    let ghost nv = string_views(names@);
    let ghost start = string_views(out@);
    let mut n: usize = 0;
    let mut i: usize = 0;
    while i < names.len()
        invariant
            i <= names@.len(),
            nv == string_views(names@),
            n == named_count(nv.take(i as int), f),
            n <= i,
            string_views(out@) == start + named_messages(nv.take(i as int), f, msg@),
        decreases names@.len() - i,
    {
        proof {
            assert(nv.take(i + 1).drop_last() =~= nv.take(i as int));
            assert(nv.take(i + 1).last() == names@[i as int]@);
        }
        if PatternFamily::from_str(names[i].as_str()) == f {
            let ghost before = string_views(out@);
            out.push(string_from_chars(msg));
            proof {
                assert(string_views(out@) =~= before.push(msg@));
            }
            n = n + 1;
        }
        i = i + 1;
    }
    proof {
        assert(nv.take(names@.len() as int) =~= nv);
    }
    n
}

fn role_delta_exec(lr: &[char], level: u32, f: PatternFamily) -> (d: i128)
    ensures
        d == role_delta(lr@, level, f),
{
    if chars_are(lr, "final_burst") {
        if level >= 15 {
            if f == PatternFamily::Stamina { 4 } else { 0 }
        } else {
            if f == PatternFamily::Stream { 3 } else { 0 }
        }
    } else if chars_are(lr, "climax_run") {
        let a: i128 = if f == PatternFamily::Stream { 3 } else { 0 };
        let b: i128 = if level >= 15 && f == PatternFamily::Stamina { 3 } else { 0 };
        let c: i128 = if level >= 12 && f == PatternFamily::TwistTechnical { 2 } else { 0 };
        a + b + c
    } else if chars_are(lr, "crossover_drill") || chars_are(lr, "twist_train") {
        if level >= 7 && f == PatternFamily::TwistTechnical { 4 } else { 0 }
    } else if chars_are(lr, "accent_drop") {
        if f == PatternFamily::JumpAccent { 4 } else { 0 }
    } else if chars_are(lr, "hold_check") {
        if f == PatternFamily::HoldControl { 4 } else { 0 }
    } else if chars_are(lr, "rest_step") {
        let a: i128 = if level >= 10 && f == PatternFamily::HoldControl { 3 } else { 0 };
        let b: i128 = if f == PatternFamily::Balanced { 2 } else { 0 };
        a + b
    } else {
        0
    }
}

/// The role's half points for `f`, appending its evidence to `out`.
fn role_part(role: Option<&str>, level: u32, f: PatternFamily, out: &mut Vec<String>) -> (d: i128)
    ensures
        d == role_score(opt_text(role), level, f),
        string_views(final(out)@) == string_views(old(out)@) + role_evidence(opt_text(role), level, f),
{
    match role {
        None => {
            assert(string_views(out@) =~= string_views(out@) + Seq::<Seq<char>>::empty());
            0
        },
        Some(r) => {
            let lower = to_lowercase(r);
            let lr = chars_of(lower.as_str());
            let d = role_delta_exec(lr.as_slice(), level, f);
            let ghost before = string_views(out@);
            if chars_are(lr.as_slice(), "final_burst") && level >= 15 && f == PatternFamily::Stamina {
                out.push(
                    String::from_str("Sección final burst a nivel alto (S15+), se sugiere resistencia"),
                );
                assert(string_views(out@) =~= before + seq![
                    "Sección final burst a nivel alto (S15+), se sugiere resistencia"@,
                ]);
            } else if (chars_are(lr.as_slice(), "crossover_drill") || chars_are(
                lr.as_slice(),
                "twist_train",
            )) && level >= 7 && f == PatternFamily::TwistTechnical {
                let mut v: Vec<char> = Vec::new();
                push_str(&mut v, "PIU Role '");
                push_str(&mut v, r);
                push_str(&mut v, "' detectado");
                out.push(string_from_chars(v.as_slice()));
                assert(string_views(out@) =~= before + seq!["PIU Role '"@ + r@ + "' detectado"@]);
            } else if chars_are(lr.as_slice(), "accent_drop") && f == PatternFamily::JumpAccent {
                out.push(String::from_str("Sección con acentos musicales marcados"));
                assert(string_views(out@) =~= before + seq!["Sección con acentos musicales marcados"@]);
            } else {
                assert(string_views(out@) =~= before + Seq::<Seq<char>>::empty());
            }
            d
        },
    }
}

/// The calibration's half points for `f` and its note.
fn cal_part(cal: Option<&SingleGuardrailCalibration>, level: u32, f: PatternFamily) -> (r: (
    i128,
    Option<String>,
    bool,
))
    ensures
        r.0 == cal_delta(opt_cal(cal), level, f),
        match cal_note(opt_cal(cal), level, f) {
            Some(n) => r.1 is Some && r.1->0@ == n.0 && r.2 == n.1,
            None => r.1 is None,
        },
{
    let c = match cal {
        Some(c) => c,
        None => {
            return (0, None, false);
        },
    };
    let key = f.to_string_key();
    let kc = chars_of(key.as_str());
    let es = &c.pattern_family_thresholds;
    match crate::guardrail::find_family_signal(es, kc.as_slice()) {
        None => (0, None, false),
        Some(k) => {
            let r = es[k].typical_level_range;
            let mut v: Vec<char> = Vec::new();
            push_str(&mut v, "Nivel solicitado S");
            push_decimal(&mut v, level as u128);
            if level >= r.min && level <= r.max {
                push_str(&mut v, " está dentro del rango típico de calibración para ");
                push_all(&mut v, kc.as_slice());
                push_str(&mut v, " (S");
                push_decimal(&mut v, r.min as u128);
                push_str(&mut v, "-S");
                push_decimal(&mut v, r.max as u128);
                push_str(&mut v, ")");
                (2, Some(string_from_chars(v.as_slice())), false)
            } else if level < r.min {
                push_str(&mut v, " es menor que el mínimo calibrado (S");
                push_decimal(&mut v, r.min as u128);
                push_str(&mut v, ") para ");
                push_all(&mut v, kc.as_slice());
                let diff: i128 = r.min as i128 - level as i128;
                assert(0 < diff <= 0xFFFF_FFFF);
                let penalty: i128 = 3 * diff;
                (0 - penalty, Some(string_from_chars(v.as_slice())), true)
            } else {
                push_str(&mut v, " es mayor que el máximo calibrado (S");
                push_decimal(&mut v, r.max as u128);
                push_str(&mut v, ") para ");
                push_all(&mut v, kc.as_slice());
                (1, Some(string_from_chars(v.as_slice())), false)
            }
        },
    }
}

/// One family's candidate entry.
fn family_candidate(
    req: &PatternFamilyTargetMode,
    mode: PlayMode,
    level: u32,
    intent: Option<&ChoreographicIntentSignal>,
    role: Option<&str>,
    cal: Option<&SingleGuardrailCalibration>,
    f: PatternFamily,
) -> (c: PatternFamilyCandidate)
    ensures
        c.family == f,
        c.score_halves == final_score(*req, mode, opt_intent(intent), opt_text(role), opt_cal(cal), level, f),
        string_views(c.evidence@) == family_evidence(opt_intent(intent), opt_text(role), opt_cal(cal), level, f),
        string_views(c.warnings@) == family_warnings(*req, mode, opt_cal(cal), level, f),
        c.confidence@ == candidate_confidence(family_warnings(*req, mode, opt_cal(cal), level, f)),
{
    let mut evidence: Vec<String> = Vec::new();
    let mut score: i128 = if f == PatternFamily::Balanced { 2 } else { 0 };
    assert(string_views(evidence@) =~= Seq::<Seq<char>>::empty());
    match intent {
        Some(it) => {
            let mut m: Vec<char> = Vec::new();
            push_str(&mut m, "Recomendado por Music Analysis (Intent Density: ");
            push_str(&mut m, it.density_target.as_str());
            push_str(&mut m, ")");
            let recs = count_named(&it.recommended_pattern_families, f, m.as_slice(), &mut evidence);
            let avoid_msg = chars_of("Evitado explícitamente por Music Analysis");
            let avoids = count_named(&it.avoid_pattern_families, f, avoid_msg.as_slice(), &mut evidence);
            score = score + 5 * (recs as i128) - 20 * (avoids as i128);
        },
        None => {},
    }
    assert(string_views(evidence@) =~= intent_evidence(opt_intent(intent), f));
    let rd = role_part(role, level, f, &mut evidence);
    score = score + rd;
    let (cd, note, is_warning) = cal_part(cal, level, f);
    score = score + cd;
    let mut warnings: Vec<String> = Vec::new();
    let ghost before = string_views(evidence@);
    match note {
        Some(text) => {
            if is_warning {
                warnings.push(string_from_chars(chars_of(text.as_str()).as_slice()));
            }
            evidence.push(text);
        },
        None => {},
    }
    assert(string_views(evidence@) =~= family_evidence(opt_intent(intent), opt_text(role), opt_cal(cal), level, f));
    let avoided = is_level_avoided(mode, level, f);
    let auto = match req {
        PatternFamilyTargetMode::Auto => true,
        PatternFamilyTargetMode::Specific(_) => false,
    };
    if auto && avoided {
        warnings.push(String::from_str("Evitado para niveles bajos (S1-S6/S10)"));
    }
    assert(string_views(warnings@) =~= family_warnings(*req, mode, opt_cal(cal), level, f));
    if auto {
        if avoided {
            score = -1998;
        }
        match intent {
            Some(it) => if it.confidence_below_half {
                if f == PatternFamily::Balanced {
                    score = score + 4;
                } else {
                    score = score - 3;
                }
            },
            None => {},
        }
    }
    let confidence = if warnings.len() == 0 {
        String::from_str("high")
    } else {
        String::from_str("medium")
    };
    PatternFamilyCandidate { family: f, score_halves: score, confidence, evidence, warnings }
}

fn push_halves(v: &mut Vec<char>, h: i128)
    requires
        h > 0,
    ensures
        final(v)@ == old(v)@ + halves_text(h as nat),
{
    push_decimal(v, (h / 2) as u128);
    if h % 2 == 1 {
        push_str(v, ".50");
    } else {
        push_str(v, ".00");
    }
}

/// Chooses which pattern families a section should focus on, use, and
/// avoid. Every family starts from zero (`balanced` from one) and gains or
/// loses points from the section's intent and role in the music analysis
/// and from where the level falls in the calibrated typical range; a level
/// keeps low-level-unsafe families away. A requested family is honoured
/// when the level allows it; in `Auto` mode the best-scoring family is the
/// focus, `balanced` when none scores above zero.
pub fn resolve_pattern_family_targeting(
    target_level: u32,
    play_mode: PlayMode,
    requested_mode: PatternFamilyTargetMode,
    music_analysis: Option<&MusicAnalysisSignals>,
    section_id: &str,
    calibration: Option<&SingleGuardrailCalibration>,
    _browser_bpm_reconciliation: Option<&str>,
) -> (r: PatternFamilyTargetingReport)
    requires
        targeting_level_fits(target_level, play_mode, requested_mode, opt_cal(calibration)),
    ensures
        ({
            let intent = match music_analysis {
                Some(m) => intent_of(*m, section_id@),
                None => None,
            };
            let role = match music_analysis {
                Some(m) => role_of(*m, section_id@),
                None => None,
            };
            let cal = opt_cal(calibration);
            let scores = targeting_scores(requested_mode, play_mode, intent, role, cal, target_level);
            let primary = primary_of(requested_mode, play_mode, cal, target_level, scores);
            let groups = grouped(primary, play_mode, target_level, scores, 8);
            &&& r.requested_mode@ == requested_key(requested_mode)
            &&& r.primary_family@ == family_key(primary)
            &&& string_views(r.secondary_families@) == groups.0
            &&& string_views(r.avoid_families@) == groups.1
            &&& r.candidates@.len() == 8
            &&& forall|i: int| 0 <= i < 8 ==> {
                let c = #[trigger] r.candidates@[i];
                let f = candidate_family(i);
                &&& c.family == f
                &&& c.score_halves == scores[i]
                &&& string_views(c.evidence@) == family_evidence(intent, role, cal, target_level, f)
                &&& string_views(c.warnings@) == family_warnings(requested_mode, play_mode, cal, target_level, f)
                &&& c.confidence@ == candidate_confidence(string_views(c.warnings@))
            }
            &&& r.confidence@ == report_confidence(requested_mode, intent, cal, target_level)
            &&& string_views(r.evidence@) == report_evidence(
                requested_mode,
                play_mode,
                intent,
                cal,
                target_level,
                section_id@,
                scores,
            )
            &&& string_views(r.warnings@) == report_warnings(requested_mode, play_mode, intent, cal, target_level)
        }),
{
    let sid = chars_of(section_id);
    let (intent, role): (Option<&ChoreographicIntentSignal>, Option<&str>) = match music_analysis {
        Some(m) => {
            let i = match find_intent(&m.choreographic_intent, sid.as_slice()) {
                Some(k) => Some(&m.choreographic_intent[k]),
                None => None,
            };
            let s = match find_role(&m.sections, sid.as_slice()) {
                Some(k) => Some(m.sections[k].piu_role.as_str()),
                None => None,
            };
            (i, s)
        },
        None => (None, None),
    };
    let ghost gi = match music_analysis {
        Some(m) => intent_of(*m, section_id@),
        None => None,
    };
    let ghost gr = match music_analysis {
        Some(m) => role_of(*m, section_id@),
        None => None,
    };
    assert(opt_intent(intent) == gi);
    assert(opt_text(role) == gr);
    let ghost cal = opt_cal(calibration);
    let ghost scores = targeting_scores(requested_mode, play_mode, gi, gr, cal, target_level);

    // Every candidate, in order.
    let mut candidates: Vec<PatternFamilyCandidate> = Vec::new();
    let mut i: usize = 0;
    while i < 8
        invariant
            i <= 8,
            candidates@.len() == i,
            opt_intent(intent) == gi,
            opt_text(role) == gr,
            opt_cal(calibration) == cal,
            scores == targeting_scores(requested_mode, play_mode, gi, gr, cal, target_level),
            forall|j: int| 0 <= j < i ==> {
                let c = #[trigger] candidates@[j];
                let f = candidate_family(j);
                &&& c.family == f
                &&& c.score_halves == scores[j]
                &&& string_views(c.evidence@) == family_evidence(gi, gr, cal, target_level, f)
                &&& string_views(c.warnings@) == family_warnings(requested_mode, play_mode, cal, target_level, f)
                &&& c.confidence@ == candidate_confidence(string_views(c.warnings@))
            },
        decreases 8 - i,
    {
        let f = candidate_family_at(i);
        let c = family_candidate(&requested_mode, play_mode, target_level, intent, role, calibration, f);
        candidates.push(c);
        i = i + 1;
    }

    // The focus.
    let mut best_index: usize = 7;
    let mut best_score: i128 = -198;
    let mut found = false;
    let mut k: usize = 0;
    while k < 8
        invariant
            k <= 8,
            candidates@.len() == 8,
            forall|j: int| 0 <= j < 8 ==> (#[trigger] candidates@[j]).score_halves == scores[j],
            best_of(scores, k as int).1 == best_score,
            found == (best_of(scores, k as int).0 >= 0),
            found ==> best_of(scores, k as int).0 == best_index && best_index < 8,
            !found ==> best_of(scores, k as int).0 == -1 && best_score == -198,
            best_of(scores, k as int).0 < k,
        decreases 8 - k,
    {
        if candidates[k].score_halves > best_score {
            best_score = candidates[k].score_halves;
            best_index = k;
            found = true;
        }
        k = k + 1;
    }
    let mut evidence: Vec<String> = Vec::new();
    let mut warnings: Vec<String> = Vec::new();
    match intent {
        Some(it) => {
            let mut v: Vec<char> = Vec::new();
            push_str(&mut v, "Análisis musical disponible con confianza ");
            push_str(&mut v, it.confidence_text.as_str());
            push_str(&mut v, " para la sección '");
            push_all(&mut v, sid.as_slice());
            push_str(&mut v, "'.");
            evidence.push(string_from_chars(v.as_slice()));
        },
        None => {},
    }
    let ghost ev0 = string_views(evidence@);
    assert(ev0 =~= match gi {
        Some(it) => seq![
            "Análisis musical disponible con confianza "@ + it.confidence_text@ + " para la sección '"@
                + section_id@ + "'."@,
        ],
        None => Seq::<Seq<char>>::empty(),
    });
    let primary = match requested_mode {
        PatternFamilyTargetMode::Specific(req) => {
            let key = req.to_string_key();
            let mut valid = true;
            if is_level_avoided(play_mode, target_level, req) {
                valid = false;
                let mut v: Vec<char> = Vec::new();
                push_str(&mut v, "La familia de patrones requested '");
                push_str(&mut v, key.as_str());
                push_str(&mut v, "' es incompatible con el nivel bajo S");
                push_decimal(&mut v, target_level as u128);
                push_str(&mut v, " y ha sido evitada.");
                warnings.push(string_from_chars(v.as_slice()));
            } else {
                match calibration {
                    Some(c) => {
                        let kc = chars_of(key.as_str());
                        match crate::guardrail::find_family_signal(&c.pattern_family_thresholds, kc.as_slice()) {
                            Some(j) => {
                                let min = c.pattern_family_thresholds[j].typical_level_range.min;
                                if target_level + 3 < min {
                                    valid = false;
                                    let mut v: Vec<char> = Vec::new();
                                    push_str(&mut v, "La familia requested '");
                                    push_str(&mut v, key.as_str());
                                    push_str(&mut v, "' tiene un rango mínimo calibrado de S");
                                    push_decimal(&mut v, min as u128);
                                    push_str(&mut v, ", lo cual es demasiado alto para S");
                                    push_decimal(&mut v, target_level as u128);
                                    push_str(&mut v, ".");
                                    warnings.push(string_from_chars(v.as_slice()));
                                }
                            },
                            None => {},
                        }
                    },
                    None => {},
                }
            }
            let mut v: Vec<char> = Vec::new();
            if valid && req != PatternFamily::Unknown {
                push_str(&mut v, "Selección manual del usuario para focus: '");
                push_str(&mut v, key.as_str());
                push_str(&mut v, "'.");
                evidence.push(string_from_chars(v.as_slice()));
                req
            } else {
                push_str(&mut v, "Fallback a 'balanced' debido a incompatibilidad con '");
                push_str(&mut v, key.as_str());
                push_str(&mut v, "'.");
                evidence.push(string_from_chars(v.as_slice()));
                PatternFamily::Balanced
            }
        },
        PatternFamilyTargetMode::Auto => {
            match intent {
                Some(it) => if it.confidence_below_half {
                    let mut v: Vec<char> = Vec::new();
                    push_str(&mut v, "La confianza del análisis musical es baja (");
                    push_str(&mut v, it.confidence_text.as_str());
                    push_str(&mut v, "). Se prioriza 'balanced'.");
                    warnings.push(string_from_chars(v.as_slice()));
                },
                None => {},
            }
            if best_score > 0 {
                let fam = candidate_family_at(best_index);
                let key = fam.to_string_key();
                let mut v: Vec<char> = Vec::new();
                push_str(&mut v, "Auto seleccionó '");
                push_str(&mut v, key.as_str());
                push_str(&mut v, "' con score ");
                push_halves(&mut v, best_score);
                push_str(&mut v, ".");
                evidence.push(string_from_chars(v.as_slice()));
                fam
            } else {
                evidence.push(String::from_str("Auto usa 'balanced' por falta de señales fuertes."));
                PatternFamily::Balanced
            }
        },
    };
    assert(string_views(evidence@) =~= report_evidence(requested_mode, play_mode, gi, cal, target_level, section_id@, scores));
    assert(string_views(warnings@) =~= report_warnings(requested_mode, play_mode, gi, cal, target_level));
    assert(primary == primary_of(requested_mode, play_mode, cal, target_level, scores));

    // Secondary and avoided families.
    let mut secondary: Vec<String> = Vec::new();
    let mut avoid: Vec<String> = Vec::new();
    let mut g: usize = 0;
    while g < 8
        invariant
            g <= 8,
            candidates@.len() == 8,
            forall|j: int| 0 <= j < 8 ==> (#[trigger] candidates@[j]).score_halves == scores[j],
            string_views(secondary@) == grouped(primary, play_mode, target_level, scores, g as int).0,
            string_views(avoid@) == grouped(primary, play_mode, target_level, scores, g as int).1,
        decreases 8 - g,
    {
        let f = candidate_family_at(g);
        let s = candidates[g].score_halves;
        let ghost sb = string_views(secondary@);
        let ghost ab = string_views(avoid@);
        if f != primary && f != PatternFamily::Balanced {
            if s > 0 {
                secondary.push(f.to_string_key());
                assert(string_views(secondary@) =~= sb.push(family_key(f)));
            } else if s < 0 || is_level_avoided(play_mode, target_level, f) {
                avoid.push(f.to_string_key());
                assert(string_views(avoid@) =~= ab.push(family_key(f)));
            }
        }
        g = g + 1;
    }

    let has_cal = calibration.is_some();
    let has_ma = intent.is_some();
    let low_ma = match requested_mode {
        PatternFamilyTargetMode::Auto => match intent {
            Some(it) => it.confidence_below_half,
            None => false,
        },
        PatternFamilyTargetMode::Specific(_) => false,
    };
    let confidence = if !has_cal && !has_ma {
        String::from_str("low")
    } else if low_ma {
        String::from_str("low")
    } else if !has_cal || target_level >= 25 {
        String::from_str("medium")
    } else {
        String::from_str("high")
    };
    let requested = match requested_mode {
        PatternFamilyTargetMode::Auto => String::from_str("auto"),
        PatternFamilyTargetMode::Specific(f) => f.to_string_key(),
    };
    PatternFamilyTargetingReport {
        requested_mode: requested,
        primary_family: primary.to_string_key(),
        secondary_families: secondary,
        avoid_families: avoid,
        candidates,
        confidence,
        evidence,
        warnings,
    }
}

// ---------------------------------------------------------------------------
// Context summaries
// ---------------------------------------------------------------------------

/// The section a generation request is about.
#[derive(Debug, Clone)]
pub struct SectionContextSummary {
    pub section_id: String,
    pub start_measure: u32,
    pub end_measure: u32,
    pub num_measures: u32,
    pub song_type: String,
    pub music_role: Option<String>,
    pub piu_role: Option<String>,
    pub energy_profile: Option<String>,
    pub density_target: Option<String>,
}

/// Whether the browser and offline timings agree, and the timing warnings.
#[derive(Debug, Clone)]
pub struct TimingContextSummary {
    pub has_reconciliation_agreement: Option<bool>,
    pub timing_warnings: Vec<String>,
}

/// Whether a calibration was used for a request, and what its check found.
#[derive(Debug, Clone)]
pub struct CalibrationContextSummary {
    pub available: bool,
    pub target_level: String,
    pub level_confidence: String,
    pub warning_count: usize,
    pub error_count: usize,
}

/// What a song-analysis report may be shared with.
#[derive(Debug, Clone, Copy)]
pub struct Publicability {
    pub contains_original_audio: bool,
    pub contains_full_chart: bool,
    pub exportable: bool,
}

/// The level is small enough for the targeting: in Specific mode, when the
/// level does not keep the family away and the calibration has a signal for
/// it, three levels above it must still be a `u32`.
pub open spec fn targeting_level_fits(
    target_level: u32,
    play_mode: PlayMode,
    requested_mode: PatternFamilyTargetMode,
    cal: Option<SingleGuardrailCalibration>,
) -> bool {
    requested_mode matches PatternFamilyTargetMode::Specific(req) && !level_avoided(play_mode, target_level, req)
        && cal_signal(cal, req) is Some ==> target_level <= u32::MAX - 3
}

/// Whether `resolve_pattern_family_targeting` can take these arguments.
pub fn targeting_level_ok(
    target_level: u32,
    play_mode: PlayMode,
    requested_mode: PatternFamilyTargetMode,
    calibration: Option<&SingleGuardrailCalibration>,
) -> (b: bool)
    ensures
        b == targeting_level_fits(target_level, play_mode, requested_mode, opt_cal(calibration)),
{
    if target_level <= u32::MAX - 3 {
        return true;
    }
    match requested_mode {
        PatternFamilyTargetMode::Auto => true,
        PatternFamilyTargetMode::Specific(req) => {
            if is_level_avoided(play_mode, target_level, req) {
                return true;
            }
            match calibration {
                None => true,
                Some(c) => {
                    let key = req.to_string_key();
                    let kc = chars_of(key.as_str());
                    crate::guardrail::find_family_signal(&c.pattern_family_thresholds, kc.as_slice()).is_none()
                },
            }
        },
    }
}

} // verus!
