//! Guardrail calibrations: which calibration files are looked for and which
//! one is chosen, what a calibration must hold, and the integer side of
//! checking a generated section against one.
use vstd::prelude::*;
use std::cmp::Ordering;
use crate::biomechanics::GeminiChartSectionPayload;
use crate::commands::{lemma_parse_decimal, parse_u32, parse_u32_text};
use crate::corpus::{
    lemma_count_bound, row_is_active, steps_in_exec, active_row, bracket_row, count_of, is_step, row_tally, single_step_panels, step_at, steps_in,
    twist_counts, twist_triples,
};
use crate::text::{
    chars_are, chars_of, contains_chars, contains_seq, decimal, ends_with, push_all, push_decimal,
    push_str, slice_chars, starts_with, string_from_chars, string_views, views, has_char,
};

verus! {

// ---------------------------------------------------------------------------
// Calibration data as the rules read it
// ---------------------------------------------------------------------------

#[derive(Debug, Clone, Copy)]
pub struct TypicalLevelRange {
    pub min: u32,
    pub median: u32,
    pub max: u32,
}

/// The first value of a level's thresholds that is not a finite number: the
/// threshold's name, the value's key and the value as printed.
#[derive(Debug, Clone)]
pub struct NonFiniteValue {
    pub threshold: String,
    pub key: String,
    pub value_text: String,
}

/// A level's thresholds, by the level key (`S1` to `S26`).
#[derive(Debug, Clone)]
pub struct LevelThresholdEntry {
    pub key: String,
    pub non_finite: Option<NonFiniteValue>,
}

/// A pattern family's signal, by family key.
#[derive(Debug, Clone)]
pub struct FamilySignalEntry {
    pub key: String,
    pub typical_level_range: TypicalLevelRange,
}

/// What the rules read of a guardrail calibration. The entries come in
/// key order, each key once, as in the calibration's maps.
#[derive(Debug, Clone)]
pub struct SingleGuardrailCalibration {
    pub schema_version: String,
    pub publicability_status: String,
    pub play_mode: String,
    pub level_thresholds: Vec<LevelThresholdEntry>,
    pub pattern_family_thresholds: Vec<FamilySignalEntry>,
}

pub open spec fn level_keys(c: SingleGuardrailCalibration) -> Seq<Seq<char>> {
    c.level_thresholds@.map_values(|e: LevelThresholdEntry| e.key@)
}

pub open spec fn family_keys(c: SingleGuardrailCalibration) -> Seq<Seq<char>> {
    c.pattern_family_thresholds@.map_values(|e: FamilySignalEntry| e.key@)
}

// ---------------------------------------------------------------------------
// Validation
// ---------------------------------------------------------------------------

/// What a level key must be: `S` and a number from 1 to 26.
pub open spec fn level_key_error(k: Seq<char>) -> Option<Seq<char>> {
    if !starts_with(k, "S"@) {
        Some("Invalid level key format: '"@ + k + "'"@)
    } else if parse_u32_text(k.drop_first()) is None {
        Some("Invalid numeric part in level key: '"@ + k + "'"@)
    } else if parse_u32_text(k.drop_first())->0 < 1 || parse_u32_text(k.drop_first())->0 > 26 {
        Some("Level key '"@ + k + "' is out of range 1..=26"@)
    } else {
        None
    }
}

pub open spec fn level_entry_error(e: LevelThresholdEntry) -> Option<Seq<char>> {
    match level_key_error(e.key@) {
        Some(m) => Some(m),
        None => match e.non_finite {
            Some(v) => Some(
                "Non-finite value found in "@ + v.threshold@ + " threshold for "@ + e.key@ + ": "@
                    + v.key@ + "="@ + v.value_text@,
            ),
            None => None,
        },
    }
}

pub open spec fn first_level_error(es: Seq<LevelThresholdEntry>) -> Option<Seq<char>>
    decreases es.len(),
{
    if es.len() == 0 {
        None
    } else {
        match first_level_error(es.drop_last()) {
            Some(m) => Some(m),
            None => level_entry_error(es.last()),
        }
    }
}

/// Why a calibration cannot be used, if it cannot.
pub open spec fn calibration_error(c: SingleGuardrailCalibration) -> Option<Seq<char>> {
    if c.schema_version@ != "single-guardrail-calibration.v0"@ {
        Some(
            "Invalid schema_version: expected 'single-guardrail-calibration.v0', got '"@
                + c.schema_version@ + "'"@,
        )
    } else if c.publicability_status@ != "private_derived"@ {
        Some(
            "Invalid publicability_status: expected 'private_derived', got '"@
                + c.publicability_status@ + "'"@,
        )
    } else if c.play_mode@ != "Single"@ {
        Some("Invalid play_mode: expected 'Single', got '"@ + c.play_mode@ + "'"@)
    } else {
        first_level_error(c.level_thresholds@)
    }
}

fn quoted(prefix: &str, v: &[char], suffix: &str) -> (s: String)
    ensures
        s@ == prefix@ + v@ + suffix@,
{
    let mut m: Vec<char> = Vec::new();
    push_str(&mut m, prefix);
    push_all(&mut m, v);
    push_str(&mut m, suffix);
    string_from_chars(m.as_slice())
}

fn level_entry_check(e: &LevelThresholdEntry) -> (r: Option<String>)
    ensures
        match r {
            Some(m) => level_entry_error(*e) == Some(m@),
            None => level_entry_error(*e) is None,
        },
{
    let k = chars_of(e.key.as_str());
    if k.len() == 0 || k[0] != 'S' {
        proof {
            reveal_strlit("S");
            if k@.len() > 0 {
                assert(k@.subrange(0, 1)[0] == k@[0]);
            }
            assert(!starts_with(k@, "S"@));
        }
        return Some(quoted("Invalid level key format: '", k.as_slice(), "'"));
    }
    proof {
        reveal_strlit("S");
        assert(k@.subrange(0, 1) =~= "S"@);
    }
    let rest = slice_chars(k.as_slice(), 1, k.len());
    assert(rest@ =~= k@.drop_first());
    match parse_u32(rest.as_slice()) {
        None => Some(quoted("Invalid numeric part in level key: '", k.as_slice(), "'")),
        Some(n) => {
            if n < 1 || n > 26 {
                return Some(quoted("Level key '", k.as_slice(), "' is out of range 1..=26"));
            }
            match &e.non_finite {
                Some(v) => {
                    let mut m: Vec<char> = Vec::new();
                    push_str(&mut m, "Non-finite value found in ");
                    push_str(&mut m, v.threshold.as_str());
                    push_str(&mut m, " threshold for ");
                    push_all(&mut m, k.as_slice());
                    push_str(&mut m, ": ");
                    push_str(&mut m, v.key.as_str());
                    push_str(&mut m, "=");
                    push_str(&mut m, v.value_text.as_str());
                    Some(string_from_chars(m.as_slice()))
                },
                None => None,
            }
        },
    }
}

/// Checks that a calibration is a private Single calibration of the known
/// schema, whose level keys are `S1` to `S26` with finite thresholds.
pub fn validate_single_guardrail_calibration(calibration: &SingleGuardrailCalibration) -> (r: Result<
    (),
    String,
>)
    ensures
        match r {
            Ok(()) => calibration_error(*calibration) is None,
            Err(m) => calibration_error(*calibration) == Some(m@),
        },
{
    let sv = chars_of(calibration.schema_version.as_str());
    if !chars_are(sv.as_slice(), "single-guardrail-calibration.v0") {
        return Err(
            quoted(
                "Invalid schema_version: expected 'single-guardrail-calibration.v0', got '",
                sv.as_slice(),
                "'",
            ),
        );
    }
    let ps = chars_of(calibration.publicability_status.as_str());
    if !chars_are(ps.as_slice(), "private_derived") {
        return Err(
            quoted(
                "Invalid publicability_status: expected 'private_derived', got '",
                ps.as_slice(),
                "'",
            ),
        );
    }
    let pm = chars_of(calibration.play_mode.as_str());
    if !chars_are(pm.as_slice(), "Single") {
        return Err(quoted("Invalid play_mode: expected 'Single', got '", pm.as_slice(), "'"));
    }
    let es = &calibration.level_thresholds;
    assert(calibration_error(*calibration) == first_level_error(es@));
    let mut i: usize = 0;
    while i < es.len()
        invariant
            i <= es@.len(),
            es@ == calibration.level_thresholds@,
            calibration_error(*calibration) == first_level_error(es@),
            first_level_error(es@.take(i as int)) is None,
        decreases es@.len() - i,
    {
        proof {
            assert(es@.take(i + 1).drop_last() =~= es@.take(i as int));
            assert(es@.take(i + 1).last() == es@[i as int]);
        }
        match level_entry_check(&es[i]) {
            Some(m) => {
                proof {
                    lemma_level_error_extends(es@, i + 1);
                }
                return Err(m);
            },
            None => {},
        }
        i = i + 1;
    }
    proof {
        assert(es@.take(es@.len() as int) =~= es@);
    }
    Ok(())
}

proof fn lemma_level_error_extends(es: Seq<LevelThresholdEntry>, k: int)
    requires
        0 < k <= es.len(),
        first_level_error(es.take(k)) is Some,
    ensures
        first_level_error(es) == first_level_error(es.take(k)),
    decreases es.len() - k,
{
    if k < es.len() {
        assert(es.take(k + 1).drop_last() =~= es.take(k));
        lemma_level_error_extends(es, k + 1);
    } else {
        assert(es.take(k) =~= es);
    }
}

/// Text that a calibration file may never hold.
pub open spec fn forbidden_calibration_strings() -> Seq<Seq<char>> {
    seq![
        "#NOTEDATA"@, "#TITLE:"@, "#BPMS:"@, "#OFFSET:"@, "base64"@, "data:audio"@, "C:\\"@,
        "/Users/"@, ".ssc"@, ".mp3"@, ".ogg"@, ".flac"@, ".wav"@, ".mp4"@, ".mpg"@, ".png"@,
        ".jpg"@, ".jpeg"@,
    ]
}

pub open spec fn first_forbidden_in(text: Seq<char>, pats: Seq<Seq<char>>) -> Option<Seq<char>>
    decreases pats.len(),
{
    if pats.len() == 0 {
        None
    } else {
        match first_forbidden_in(text, pats.drop_last()) {
            Some(p) => Some(p),
            None => if contains_seq(text, pats.last()) {
                Some(pats.last())
            } else {
                None
            },
        }
    }
}

proof fn lemma_forbidden_extends(text: Seq<char>, pats: Seq<Seq<char>>, k: int)
    requires
        0 < k <= pats.len(),
        first_forbidden_in(text, pats.take(k)) is Some,
    ensures
        first_forbidden_in(text, pats) == first_forbidden_in(text, pats.take(k)),
    decreases pats.len() - k,
{
    if k < pats.len() {
        assert(pats.take(k + 1).drop_last() =~= pats.take(k));
        lemma_forbidden_extends(text, pats, k + 1);
    } else {
        assert(pats.take(k) =~= pats);
    }
}

/// Refuses the raw text of a calibration file that holds a forbidden
/// pattern (case matters), naming the first of them.
pub fn check_calibration_text(content: &str) -> (r: Result<(), String>)
    ensures
        match r {
            Ok(()) => first_forbidden_in(content@, forbidden_calibration_strings()) is None,
            Err(m) => first_forbidden_in(content@, forbidden_calibration_strings()) is Some && m@
                == "Privacy Violation: Forbidden pattern '"@ + first_forbidden_in(
                content@,
                forbidden_calibration_strings(),
            )->0 + "' detected in calibration JSON file."@,
        },
{
    let pats: [&str; 18] = [
        "#NOTEDATA",
        "#TITLE:",
        "#BPMS:",
        "#OFFSET:",
        "base64",
        "data:audio",
        "C:\\",
        "/Users/",
        ".ssc",
        ".mp3",
        ".ogg",
        ".flac",
        ".wav",
        ".mp4",
        ".mpg",
        ".png",
        ".jpg",
        ".jpeg",
    ];
    let ghost want = forbidden_calibration_strings();
    assert(pats@.map_values(|p: &str| p@) =~= want);
    let text = chars_of(content);
    let mut i: usize = 0;
    while i < 18
        invariant
            i <= 18,
            pats@.map_values(|p: &str| p@) == want,
            want == forbidden_calibration_strings(),
            want.len() == 18,
            text@ == content@,
            first_forbidden_in(text@, want.take(i as int)) is None,
        decreases 18 - i,
    {
        proof {
            assert(want[i as int] == pats@[i as int]@);
            assert(want.take(i + 1).drop_last() =~= want.take(i as int));
            assert(want.take(i + 1).last() == want[i as int]);
        }
        if contains_chars(text.as_slice(), chars_of(pats[i]).as_slice()) {
            proof {
                lemma_forbidden_extends(text@, want, i + 1);
            }
            let mut m: Vec<char> = Vec::new();
            push_str(&mut m, "Privacy Violation: Forbidden pattern '");
            push_str(&mut m, pats[i]);
            push_str(&mut m, "' detected in calibration JSON file.");
            return Err(string_from_chars(m.as_slice()));
        }
        i = i + 1;
    }
    proof {
        assert(want.take(18) =~= want);
    }
    Ok(())
}


// ---------------------------------------------------------------------------
// Choosing among calibration files
// ---------------------------------------------------------------------------

/// How complete a calibration is, for choosing among candidates.
#[derive(Debug, Clone, Copy, PartialEq, Eq)]
pub struct CalibrationCandidateScore {
    pub has_all_single_levels: bool,
    pub known_family_count: usize,
    pub level_count: usize,
    pub unknown_family_count: usize,
}

/// A family key that the resolver knows.
pub open spec fn known_family_key(k: Seq<char>) -> bool {
    k == "stream"@ || k == "jump_accent"@ || k == "twist_technical"@ || k == "bracket_technical"@
        || k == "hold_control"@ || k == "center_control"@ || k == "stamina"@ || k == "balanced"@
        || k == "unknown"@
}

pub open spec fn count_known(keys: Seq<Seq<char>>) -> nat
    decreases keys.len(),
{
    if keys.len() == 0 {
        0
    } else {
        count_known(keys.drop_last()) + if known_family_key(keys.last()) {
            1nat
        } else {
            0nat
        }
    }
}

/// Every level from `S1` to `S26` has thresholds.
pub open spec fn has_all_levels(keys: Seq<Seq<char>>) -> bool {
    forall|l: nat| 1 <= l <= 26 ==> keys.contains(#[trigger] ("S"@ + decimal(l)))
}

pub open spec fn candidate_score(c: SingleGuardrailCalibration) -> CalibrationCandidateScore {
    CalibrationCandidateScore {
        has_all_single_levels: has_all_levels(level_keys(c)),
        known_family_count: count_known(family_keys(c)) as usize,
        level_count: level_keys(c).len() as usize,
        unknown_family_count: (family_keys(c).len() - count_known(family_keys(c))) as usize,
    }
}

proof fn lemma_count_known_bound(keys: Seq<Seq<char>>)
    ensures
        count_known(keys) <= keys.len(),
    decreases keys.len(),
{
    if keys.len() > 0 {
        lemma_count_known_bound(keys.drop_last());
    }
}

fn level_key_present(es: &Vec<LevelThresholdEntry>, key: &[char]) -> (b: bool)
    ensures
        b == es@.map_values(|e: LevelThresholdEntry| e.key@).contains(key@),
{
    let ghost ks = es@.map_values(|e: LevelThresholdEntry| e.key@);
    let mut i: usize = 0;
    while i < es.len()
        invariant
            i <= es@.len(),
            ks == es@.map_values(|e: LevelThresholdEntry| e.key@),
            forall|j: int| 0 <= j < i ==> ks[j] != key@,
        decreases es@.len() - i,
    {
        if crate::text::chars_equal(chars_of(es[i].key.as_str()).as_slice(), key) {
            assert(ks[i as int] == key@);
            return true;
        }
        i = i + 1;
    }
    false
}

fn is_known_family(k: &[char]) -> (b: bool)
    ensures
        b == known_family_key(k@),
{
    chars_are(k, "stream") || chars_are(k, "jump_accent") || chars_are(k, "twist_technical")
        || chars_are(k, "bracket_technical") || chars_are(k, "hold_control") || chars_are(
        k,
        "center_control",
    ) || chars_are(k, "stamina") || chars_are(k, "balanced") || chars_are(k, "unknown")
}

/// Scores a calibration: whether it covers all 26 Single levels, how many of
/// its families are known, how many levels it has, how many families are not
/// known.
pub fn score_calibration_candidate(calibration: &SingleGuardrailCalibration) -> (s:
    CalibrationCandidateScore)
    ensures
        s == candidate_score(*calibration),
{
    let es = &calibration.level_thresholds;
    let mut has_all = true;
    let mut l: u32 = 1;
    while l <= 26
        invariant
            1 <= l <= 27,
            es@ == calibration.level_thresholds@,
            has_all == forall|m: nat| 1 <= m < l ==> level_keys(*calibration).contains(
                #[trigger] ("S"@ + decimal(m)),
            ),
        decreases 27 - l,
    {
        let mut key: Vec<char> = Vec::new();
        push_str(&mut key, "S");
        push_decimal(&mut key, l as u128);
        if !level_key_present(es, key.as_slice()) {
            proof {
                assert(!level_keys(*calibration).contains("S"@ + decimal(l as nat)));
            }
            has_all = false;
        }
        l = l + 1;
    }
    let fs = &calibration.pattern_family_thresholds;
    let ghost fk = family_keys(*calibration);
    let mut known: usize = 0;
    let mut i: usize = 0;
    while i < fs.len()
        invariant
            i <= fs@.len(),
            fs@ == calibration.pattern_family_thresholds@,
            fk == family_keys(*calibration),
            known == count_known(fk.take(i as int)),
            known <= i,
        decreases fs@.len() - i,
    {
        proof {
            assert(fk.take(i + 1).drop_last() =~= fk.take(i as int));
            assert(fk.take(i + 1).last() == fs@[i as int].key@);
        }
        if is_known_family(chars_of(fs[i].key.as_str()).as_slice()) {
            known = known + 1;
        }
        i = i + 1;
    }
    proof {
        assert(fk.take(fs@.len() as int) =~= fk);
        lemma_count_known_bound(fk);
    }
    CalibrationCandidateScore {
        has_all_single_levels: has_all,
        known_family_count: known,
        level_count: es.len(),
        unknown_family_count: fs.len() - known,
    }
}

/// The order of scores: full level coverage first, then more known
/// families, then more levels, then fewer unknown families. Positive when
/// `a` ranks above `b`, negative below, 0 when equal.
pub open spec fn score_order(a: CalibrationCandidateScore, b: CalibrationCandidateScore) -> int {
    if a.has_all_single_levels != b.has_all_single_levels {
        if a.has_all_single_levels {
            1
        } else {
            -1
        }
    } else if a.known_family_count != b.known_family_count {
        if a.known_family_count > b.known_family_count {
            1
        } else {
            -1
        }
    } else if a.level_count != b.level_count {
        if a.level_count > b.level_count {
            1
        } else {
            -1
        }
    } else if a.unknown_family_count != b.unknown_family_count {
        if a.unknown_family_count < b.unknown_family_count {
            1
        } else {
            -1
        }
    } else {
        0
    }
}

pub open spec fn ranks_above(a: CalibrationCandidateScore, b: CalibrationCandidateScore) -> bool {
    score_order(a, b) > 0
}

/// Whether `a` ranks strictly above `b`.
pub fn score_ranks_above(a: &CalibrationCandidateScore, b: &CalibrationCandidateScore) -> (r: bool)
    ensures
        r == ranks_above(*a, *b),
{
    if a.has_all_single_levels != b.has_all_single_levels {
        a.has_all_single_levels
    } else if a.known_family_count != b.known_family_count {
        a.known_family_count > b.known_family_count
    } else if a.level_count != b.level_count {
        a.level_count > b.level_count
    } else {
        a.unknown_family_count < b.unknown_family_count
    }
}

/// Compares two scores in the resolver's order.
pub fn compare_scores(a: &CalibrationCandidateScore, b: &CalibrationCandidateScore) -> (o: Ordering)
    ensures
        match o {
            Ordering::Greater => score_order(*a, *b) > 0,
            Ordering::Less => score_order(*a, *b) < 0,
            Ordering::Equal => score_order(*a, *b) == 0,
        },
{
    if score_ranks_above(a, b) {
        Ordering::Greater
    } else if score_ranks_above(b, a) {
        Ordering::Less
    } else {
        Ordering::Equal
    }
}

/// The order on scores is antisymmetric and transitive: it ranks candidates.
pub proof fn lemma_score_order_is_total_order(
    a: CalibrationCandidateScore,
    b: CalibrationCandidateScore,
    c: CalibrationCandidateScore,
)
    ensures
        score_order(a, b) == -score_order(b, a),
        score_order(a, b) == 0 ==> a == b,
        ranks_above(a, b) && ranks_above(b, c) ==> ranks_above(a, c),
{
}

/// Index `i` holds the first best-ranked score among the loaded candidates
/// (`None` marks a candidate that was missing or did not load).
pub open spec fn is_first_best(scores: Seq<Option<CalibrationCandidateScore>>, i: int) -> bool {
    &&& 0 <= i < scores.len()
    &&& scores[i] is Some
    &&& forall|j: int|
        0 <= j < scores.len() && (#[trigger] scores[j]) is Some ==> !ranks_above(
            scores[j]->0,
            scores[i]->0,
        )
    &&& forall|j: int|
        0 <= j < i && (#[trigger] scores[j]) is Some ==> ranks_above(scores[i]->0, scores[j]->0)
}

/// Chooses among candidates in priority order: the best-ranked one, and
/// among equals the earliest.
pub fn select_best_candidate(scores: &Vec<Option<CalibrationCandidateScore>>) -> (r: Option<usize>)
    ensures
        match r {
            Some(i) => is_first_best(scores@, i as int),
            None => forall|j: int| 0 <= j < scores@.len() ==> (#[trigger] scores@[j]) is None,
        },
{
    let mut best: Option<usize> = None;
    let mut i: usize = 0;
    while i < scores.len()
        invariant
            i <= scores@.len(),
            match best {
                Some(b) => is_first_best(scores@.take(i as int), b as int),
                None => forall|j: int| 0 <= j < i ==> (#[trigger] scores@[j]) is None,
            },
        decreases scores@.len() - i,
    {
        match &scores[i] {
            Some(s) => match best {
                None => {
                    best = Some(i);
                    proof {
                        let t = scores@.take(i + 1);
                        assert forall|j: int| 0 <= j < t.len() && (#[trigger] t[j]) is Some implies !ranks_above(
                            t[j]->0,
                            t[i as int]->0,
                        ) by {
                            if j < i {
                                assert(t[j] == scores@[j]);
                            }
                        }
                    }
                },
                Some(b) => {
                    if score_ranks_above(s, scores[b].as_ref().unwrap()) {
                        best = Some(i);
                        proof {
                            let t = scores@.take(i + 1);
                            let p = scores@.take(i as int);
                            assert forall|j: int| 0 <= j < t.len() && (#[trigger] t[j]) is Some implies !ranks_above(
                                t[j]->0,
                                t[i as int]->0,
                            ) by {
                                if j < i {
                                    assert(t[j] == p[j]);
                                    assert(p[b as int] == scores@[b as int]);
                                }
                            }
                            assert forall|j: int| 0 <= j < i && (#[trigger] t[j]) is Some implies ranks_above(
                                t[i as int]->0,
                                t[j]->0,
                            ) by {
                                assert(t[j] == p[j]);
                                assert(p[b as int] == scores@[b as int]);
                                if j != b {
                                    assert(!ranks_above(p[j]->0, p[b as int]->0));
                                }
                            }
                        }
                    } else {
                        proof {
                            let t = scores@.take(i + 1);
                            let p = scores@.take(i as int);
                            assert(p[b as int] == scores@[b as int]);
                            assert forall|j: int| 0 <= j < t.len() && (#[trigger] t[j]) is Some implies !ranks_above(
                                t[j]->0,
                                t[b as int]->0,
                            ) by {
                                if j < i {
                                    assert(t[j] == p[j]);
                                }
                            }
                            assert forall|j: int| 0 <= j < b && (#[trigger] t[j]) is Some implies ranks_above(
                                t[b as int]->0,
                                t[j]->0,
                            ) by {
                                assert(t[j] == p[j]);
                            }
                        }
                    }
                },
            },
            None => {
                proof {
                    match best {
                        Some(b) => {
                            let t = scores@.take(i + 1);
                            let p = scores@.take(i as int);
                            assert(p[b as int] == t[b as int]);
                            assert forall|j: int| 0 <= j < t.len() && (#[trigger] t[j]) is Some implies !ranks_above(
                                t[j]->0,
                                t[b as int]->0,
                            ) by {
                                if j < i {
                                    assert(t[j] == p[j]);
                                }
                            }
                            assert forall|j: int| 0 <= j < b && (#[trigger] t[j]) is Some implies ranks_above(
                                t[b as int]->0,
                                t[j]->0,
                            ) by {
                                assert(t[j] == p[j]);
                            }
                        },
                        None => {},
                    }
                }
            },
        }
        i = i + 1;
    }
    proof {
        assert(scores@.take(scores@.len() as int) =~= scores@);
    }
    best
}

// ---------------------------------------------------------------------------
// Where calibration files are looked for
// ---------------------------------------------------------------------------

/// Where a calibration file may lie, relative to a root, in priority order.
pub open spec fn calibration_relatives() -> Seq<Seq<char>> {
    seq![
        ".ai-step-gen-private-datasets/official-corpus-profiles-v0-runtime-check/single-guardrail-calibration.v0.json"@,
        ".ai-step-gen-private-datasets/official-corpus-profiles-v0/single-guardrail-calibration.v0.json"@,
        ".ai-step-gen-private-datasets/official-corpus-profiles-v0-fixes-audit/single-guardrail-calibration.v0.json"@,
    ]
}

/// A Windows verbatim path (`\\?\...`), which `Path::join` rebuilds
/// component by component.
pub open spec fn verbatim_root(root: Seq<char>) -> bool {
    starts_with(root, seq!['\\', '\\', '?', '\\'])
}

/// `r` is `root`, then nothing, `/` or `\\`, then `rel`.
pub open spec fn joined_path(root: Seq<char>, rel: Seq<char>, r: Seq<char>) -> bool {
    r == root + rel || r == root + seq!['/'] + rel || r == root + seq!['\\'] + rel
}

/// Calls `Path::join` and gives the result as text. For a relative path
/// without a drive or root, and a root that is not a verbatim path, the
/// result is `root`, then at most one separator (`/`, or `\\` on Windows),
/// then `rel`, on every platform; the contract states that. On a
/// verbatim root Windows drops `.` and `..` components and re-joins the parts
/// with `\\`, and the contract then states nothing.
#[verifier::external_body]
fn join_path(root: &str, rel: &str) -> (r: String)
    requires
        rel@.len() > 0,
        rel@[0] != '/' && rel@[0] != '\\',
        !rel@.contains(':'),
    ensures
        !verbatim_root(root@) ==> joined_path(root@, rel@, r@),
{
    std::path::Path::new(root).join(rel).to_string_lossy().to_string()
}

/// The calibration files to try, in priority order: the explicit path
/// alone when one is given; otherwise each root joined with each of the
/// three known relative paths, then the three relative paths themselves.
pub fn build_calibration_candidate_paths(explicit_path: Option<&str>, roots: &Vec<String>) -> (paths:
    Vec<String>)
    ensures
        match explicit_path {
            Some(p) => string_views(paths@) == seq![p@],
            None => {
                &&& paths@.len() == 3 * roots@.len() + 3
                &&& forall|i: int, j: int|
                    0 <= i < roots@.len() && 0 <= j < 3 && !verbatim_root(roots@[i]@) ==> joined_path(
                        roots@[i]@,
                        calibration_relatives()[j],
                        #[trigger] paths@[3 * i + j]@,
                    )
                &&& forall|j: int|
                    0 <= j < 3 ==> #[trigger] paths@[3 * roots@.len() + j]@
                        == calibration_relatives()[j]
            },
        },
{
    let mut paths: Vec<String> = Vec::new();
    match explicit_path {
        Some(p) => {
            paths.push(String::from_str(p));
            assert(string_views(paths@) =~= seq![p@]);
            return paths;
        },
        None => {},
    }
    let rels: [&str; 3] = [
        ".ai-step-gen-private-datasets/official-corpus-profiles-v0-runtime-check/single-guardrail-calibration.v0.json",
        ".ai-step-gen-private-datasets/official-corpus-profiles-v0/single-guardrail-calibration.v0.json",
        ".ai-step-gen-private-datasets/official-corpus-profiles-v0-fixes-audit/single-guardrail-calibration.v0.json",
    ];
    let ghost want = calibration_relatives();
    proof {
        assert(rels@.map_values(|r: &str| r@) =~= want);
        reveal_strlit(
            ".ai-step-gen-private-datasets/official-corpus-profiles-v0-runtime-check/single-guardrail-calibration.v0.json",
        );
        reveal_strlit(
            ".ai-step-gen-private-datasets/official-corpus-profiles-v0/single-guardrail-calibration.v0.json",
        );
        reveal_strlit(
            ".ai-step-gen-private-datasets/official-corpus-profiles-v0-fixes-audit/single-guardrail-calibration.v0.json",
        );
    }
    let mut i: usize = 0;
    while i < roots.len()
        invariant
            i <= roots@.len(),
            rels@.map_values(|r: &str| r@) == want,
            want == calibration_relatives(),
            forall|j: int| 0 <= j < 3 ==> (#[trigger] want[j]).len() > 0 && want[j][0] == '.' && !want[j].contains(':'),
            paths@.len() == 3 * i,
            forall|a: int, j: int|
                0 <= a < i && 0 <= j < 3 && !verbatim_root(roots@[a]@) ==> joined_path(roots@[a]@, want[j], #[trigger] paths@[3 * a + j]@),
        decreases roots@.len() - i,
    {
        let mut j: usize = 0;
        while j < 3
            invariant
                i < roots@.len(),
                j <= 3,
                rels@.map_values(|r: &str| r@) == want,
                forall|k: int| 0 <= k < 3 ==> (#[trigger] want[k]).len() > 0 && want[k][0] == '.' && !want[k].contains(':'),
                paths@.len() == 3 * i + j,
                forall|a: int, k: int|
                    0 <= a < i && 0 <= k < 3 && !verbatim_root(roots@[a]@) ==> joined_path(roots@[a]@, want[k], #[trigger] paths@[3 * a + k]@),
                forall|k: int|
                    0 <= k < j && !verbatim_root(roots@[i as int]@) ==> joined_path(roots@[i as int]@, want[k], #[trigger] paths@[3 * i + k]@),
            decreases 3 - j,
        {
            assert(want[j as int] == rels@[j as int]@);
            let q = join_path(roots[i].as_str(), rels[j]);
            paths.push(q);
            j = j + 1;
        }
        i = i + 1;
    }
    let mut j: usize = 0;
    while j < 3
        invariant
            j <= 3,
            rels@.map_values(|r: &str| r@) == want,
            paths@.len() == 3 * roots@.len() + j,
            forall|a: int, k: int|
                0 <= a < roots@.len() && 0 <= k < 3 && !verbatim_root(roots@[a]@) ==> joined_path(roots@[a]@, want[k], #[trigger] paths@[3 * a + k]@),
            forall|k: int| 0 <= k < j ==> #[trigger] paths@[3 * roots@.len() + k]@ == want[k],
        decreases 3 - j,
    {
        assert(want[j as int] == rels@[j as int]@);
        paths.push(String::from_str(rels[j]));
        j = j + 1;
    }
    paths
}


// ---------------------------------------------------------------------------
// Checking a generated section
// ---------------------------------------------------------------------------

/// The characters in all rows.
pub open spec fn total_chars(rows: Seq<Seq<char>>) -> nat
    decreases rows.len(),
{
    if rows.len() == 0 {
        0
    } else {
        total_chars(rows.drop_last()) + rows.last().len()
    }
}

/// All rows of a payload's measures, in order.
pub open spec fn payload_rows(p: GeminiChartSectionPayload) -> Seq<Seq<char>>
    decreases p.measures@.len(),
{
    section_rows_of(p.measures@)
}

pub open spec fn section_rows_of(ms: Seq<crate::biomechanics::GeminiMeasure>) -> Seq<Seq<char>>
    decreases ms.len(),
{
    if ms.len() == 0 {
        Seq::empty()
    } else {
        section_rows_of(ms.drop_last()) + string_views(ms.last().rows@)
    }
}

/// The rows of a payload as character vectors.
pub fn payload_row_chars(p: &GeminiChartSectionPayload) -> (rows: Vec<Vec<char>>)
    ensures
        views(rows@) == payload_rows(*p),
{
    let ms = &p.measures;
    let mut rows: Vec<Vec<char>> = Vec::new();
    let mut m: usize = 0;
    while m < ms.len()
        invariant
            m <= ms@.len(),
            views(rows@) == section_rows_of(ms@.take(m as int)),
        decreases ms@.len() - m,
    {
        let ghost before = views(rows@);
        let rs = &ms[m].rows;
        let mut r: usize = 0;
        while r < rs.len()
            invariant
                r <= rs@.len(),
                views(rows@) == before + string_views(rs@).take(r as int),
            decreases rs@.len() - r,
        {
            let cs = chars_of(rs[r].as_str());
            let ghost b2 = views(rows@);
            rows.push(cs);
            proof {
                assert(views(rows@) =~= b2.push(cs@));
                assert(string_views(rs@).take(r + 1) =~= string_views(rs@).take(r as int).push(
                    rs@[r as int]@,
                ));
            }
            r = r + 1;
        }
        proof {
            assert(string_views(rs@).take(rs@.len() as int) =~= string_views(rs@));
            assert(ms@.take(m + 1).drop_last() =~= ms@.take(m as int));
        }
        m = m + 1;
    }
    proof {
        assert(ms@.take(ms@.len() as int) =~= ms@);
    }
    rows
}

/// The integer features of a generated section.
#[derive(Debug, Clone, Copy)]
pub struct SectionCounts {
    pub row_count: usize,
    pub active_row_count: usize,
    pub tap_count: usize,
    pub hold_start_count: usize,
    pub jump_count: usize,
    pub center_note_count: usize,
    pub bracket_candidate_count: usize,
    pub twist_candidates: usize,
    pub total_triplets: usize,
}

proof fn lemma_total_chars_prefix(rows: Seq<Seq<char>>, i: int)
    requires
        0 <= i <= rows.len(),
    ensures
        total_chars(rows.take(i)) <= total_chars(rows),
    decreases rows.len() - i,
{
    if i < rows.len() {
        lemma_total_chars_prefix(rows, i + 1);
        assert(rows.take(i + 1).drop_last() =~= rows.take(i));
    } else {
        assert(rows.take(i) =~= rows);
    }
}

fn step_at_exec(row: &[char], p: usize) -> (b: bool)
    ensures
        b == step_at(row@, p as int),
{
    p < row.len() && (row[p] == '1' || row[p] == '2')
}

fn count_char(row: &[char], c: char) -> (n: usize)
    ensures
        n == count_of(row@, c),
{
    let mut n: usize = 0;
    let mut i: usize = 0;
    while i < row.len()
        invariant
            i <= row@.len(),
            n == count_of(row@.take(i as int), c),
            n <= i,
        decreases row@.len() - i,
    {
        proof {
            assert(row@.take(i + 1).drop_last() =~= row@.take(i as int));
            assert(row@.take(i + 1).last() == row@[i as int]);
        }
        if row[i] == c {
            n = n + 1;
        }
        i = i + 1;
    }
    proof {
        assert(row@.take(row@.len() as int) =~= row@);
    }
    n
}

/// Counts what the calibration check reads of a section's rows.
pub fn section_counts(p: &GeminiChartSectionPayload) -> (c: SectionCounts)
    requires
        total_chars(payload_rows(*p)) <= usize::MAX,
    ensures
        ({
            let t = row_tally(payload_rows(*p));
            let s = single_step_panels(payload_rows(*p));
            &&& c.row_count == t.rows
            &&& c.active_row_count == t.active_rows
            &&& c.tap_count == t.taps
            &&& c.hold_start_count == t.hold_starts
            &&& c.jump_count == t.jumps
            &&& c.center_note_count == t.center_notes
            &&& c.bracket_candidate_count == t.brackets
            &&& c.twist_candidates == twist_triples(s)
            &&& c.total_triplets == if s.len() >= 2 {
                (s.len() - 2) as nat
            } else {
                0nat
            }
        }),
{
    let rows = payload_row_chars(p);
    let ghost rv = views(rows@);
    let mut c = SectionCounts {
        row_count: 0,
        active_row_count: 0,
        tap_count: 0,
        hold_start_count: 0,
        jump_count: 0,
        center_note_count: 0,
        bracket_candidate_count: 0,
        twist_candidates: 0,
        total_triplets: 0,
    };
    let mut i: usize = 0;
    while i < rows.len()
        invariant
            i <= rows@.len(),
            rv == views(rows@),
            total_chars(rv) <= usize::MAX,
            ({
                let t = row_tally(rv.take(i as int));
                &&& c.row_count == t.rows
                &&& c.active_row_count == t.active_rows
                &&& c.tap_count == t.taps
                &&& c.hold_start_count == t.hold_starts
                &&& c.jump_count == t.jumps
                &&& c.center_note_count == t.center_notes
                &&& c.bracket_candidate_count == t.brackets
            }),
            c.row_count == i,
            c.active_row_count <= i && c.jump_count <= i && c.center_note_count <= i
                && c.bracket_candidate_count <= i,
            c.tap_count + c.hold_start_count <= total_chars(rv.take(i as int)),
        decreases rows@.len() - i,
    {
        let row = rows[i].as_slice();
        let ghost r = rv[i as int];
        assert(row@ == r);
        proof {
            assert(rv.take(i + 1).drop_last() =~= rv.take(i as int));
            assert(rv.take(i + 1).last() == r);
            lemma_total_chars_prefix(rv, i + 1);
            lemma_count_bound(r, '1');
            lemma_count_bound(r, '2');
            crate::corpus::lemma_steps_bound(r);
        }
        let taps = count_char(row, '1');
        let holds = count_char(row, '2');
        let k = taps + holds;
        let active = row_is_active(row);
        let center = step_at_exec(row, 2);
        let diag = step_at_exec(row, 0) || step_at_exec(row, 1) || step_at_exec(row, 3)
            || step_at_exec(row, 4);
        let bracket = (k == 2 && center && diag) || k >= 3;
        c.row_count = c.row_count + 1;
        if active {
            c.active_row_count = c.active_row_count + 1;
        }
        c.tap_count = c.tap_count + taps;
        c.hold_start_count = c.hold_start_count + holds;
        if k == 2 {
            c.jump_count = c.jump_count + 1;
        }
        if center {
            c.center_note_count = c.center_note_count + 1;
        }
        if bracket {
            c.bracket_candidate_count = c.bracket_candidate_count + 1;
        }
        i = i + 1;
    }
    proof {
        assert(rv.take(rows@.len() as int) =~= rv);
    }
    let (tw, tr) = twist_counts(&rows);
    c.twist_candidates = tw;
    c.total_triplets = tr;
    c
}

/// The key of a level in a calibration: `S` and the level.
pub fn level_key(target_level: u32) -> (k: String)
    ensures
        k@ == "S"@ + decimal(target_level as nat),
{
    let mut v: Vec<char> = Vec::new();
    push_str(&mut v, "S");
    push_decimal(&mut v, target_level as u128);
    string_from_chars(v.as_slice())
}

/// Whether the calibration has thresholds for the level; without them the
/// section is only warned that calibration is missing.
pub fn has_level_thresholds(calibration: &SingleGuardrailCalibration, target_level: u32) -> (b: bool)
    ensures
        b == level_keys(*calibration).contains("S"@ + decimal(target_level as nat)),
{
    let k = level_key(target_level);
    let kc = chars_of(k.as_str());
    level_key_present(&calibration.level_thresholds, kc.as_slice())
}

/// How far the calibration of a level is trusted: low from S25 up.
pub fn calibration_level_confidence(target_level: u32) -> (s: String)
    ensures
        s@ == if target_level >= 25 {
            "low"@
        } else {
            "high"@
        },
{
    if target_level >= 25 {
        String::from_str("low")
    } else {
        String::from_str("high")
    }
}

/// A finding of the calibration check that lets the section through.
#[derive(Debug, Clone)]
pub struct CalibrationWarning {
    pub issue_type: String,
    pub message: String,
}

/// A finding of the calibration check that stops the section.
#[derive(Debug, Clone)]
pub struct CalibrationError {
    pub issue_type: String,
    pub message: String,
}

/// Where a metric stands against its level's calibrated limits.
#[derive(Debug, Clone, Copy, PartialEq, Eq, Structural)]
pub enum LimitExceedance {
    /// At or below the p90 warning threshold.
    Within,
    /// Above the p90 warning threshold, at or below the p95 hard limit.
    OverWarning,
    /// Above the p95 hard limit.
    OverHardLimit,
}

/// A finding about one metric.
#[derive(Debug, Clone)]
pub enum CalibrationFinding {
    Warning(CalibrationWarning),
    Error(CalibrationError),
}

/// What a metric's finding says: its kind (`true` for an error), issue type
/// and message. Past the hard limit it is an error, but only a warning from
/// S25 up, where the calibration is trusted less; past the warning
/// threshold it is a warning.
pub open spec fn metric_finding_of(
    name: Seq<char>,
    label: Seq<char>,
    value_text: Seq<char>,
    warning_text: Seq<char>,
    hard_text: Seq<char>,
    level: u32,
    e: LimitExceedance,
) -> Option<(bool, Seq<char>, Seq<char>)> {
    match e {
        LimitExceedance::Within => None,
        LimitExceedance::OverHardLimit => {
            let base = "La "@ + label + " ("@ + value_text + ") excede el límite estricto p95 ("@
                + hard_text + ") para S"@ + decimal(level as nat);
            if level >= 25 {
                Some(
                    (
                        false,
                        name + "LimitExceeded"@,
                        base + ". Se reporta como advertencia por confianza baja."@,
                    ),
                )
            } else {
                Some((true, name + "LimitExceeded"@, base + "."@))
            }
        },
        LimitExceedance::OverWarning => Some(
            (
                false,
                name + "WarningExceeded"@,
                "La "@ + label + " ("@ + value_text + ") excede el umbral de advertencia p90 ("@
                    + warning_text + ") para S"@ + decimal(level as nat) + "."@,
            ),
        ),
    }
}

/// The same for the bracket count, scaled to a hundred measures.
pub open spec fn bracket_finding_of(
    value_text: Seq<char>,
    warning_text: Seq<char>,
    hard_text: Seq<char>,
    level: u32,
    e: LimitExceedance,
) -> Option<(bool, Seq<char>, Seq<char>)> {
    match e {
        LimitExceedance::Within => None,
        LimitExceedance::OverHardLimit => {
            let base = "La cantidad de brackets (equiv. "@ + value_text
                + " en 100 compases) excede el límite estricto p95 ("@ + hard_text + ") para S"@
                + decimal(level as nat);
            if level >= 25 {
                Some(
                    (
                        false,
                        "BracketLimitExceeded"@,
                        base + ". Se reporta como advertencia por confianza baja."@,
                    ),
                )
            } else {
                Some((true, "BracketLimitExceeded"@, base + "."@))
            }
        },
        LimitExceedance::OverWarning => Some(
            (
                false,
                "BracketWarningExceeded"@,
                "La cantidad de brackets (equiv. "@ + value_text
                    + " en 100 compases) excede el umbral de advertencia p90 ("@ + warning_text
                    + ") para S"@ + decimal(level as nat) + "."@,
            ),
        ),
    }
}

pub open spec fn finding_view(f: CalibrationFinding) -> (bool, Seq<char>, Seq<char>) {
    match f {
        CalibrationFinding::Warning(w) => (false, w.issue_type@, w.message@),
        CalibrationFinding::Error(e) => (true, e.issue_type@, e.message@),
    }
}

fn finding_from(
    is_error: bool,
    issue_type: Vec<char>,
    message: Vec<char>,
) -> (f: CalibrationFinding)
    ensures
        finding_view(f) == (is_error, issue_type@, message@),
{
    let issue_type = string_from_chars(issue_type.as_slice());
    let message = string_from_chars(message.as_slice());
    if is_error {
        CalibrationFinding::Error(CalibrationError { issue_type, message })
    } else {
        CalibrationFinding::Warning(CalibrationWarning { issue_type, message })
    }
}

/// The finding for a metric of a section (density, jump rate, twist rate),
/// given where its value stands against the level's limits and the value
/// and limits as printed with two decimals.
pub fn metric_finding(
    name: &str,
    label: &str,
    value_text: &str,
    warning_text: &str,
    hard_text: &str,
    target_level: u32,
    exceedance: LimitExceedance,
) -> (r: Option<CalibrationFinding>)
    ensures
        match metric_finding_of(name@, label@, value_text@, warning_text@, hard_text@, target_level, exceedance) {
            Some(v) => r is Some && finding_view(r->0) == v,
            None => r is None,
        },
{
    match exceedance {
        LimitExceedance::Within => None,
        LimitExceedance::OverHardLimit => {
            let mut kind: Vec<char> = Vec::new();
            push_str(&mut kind, name);
            push_str(&mut kind, "LimitExceeded");
            let mut m: Vec<char> = Vec::new();
            push_str(&mut m, "La ");
            push_str(&mut m, label);
            push_str(&mut m, " (");
            push_str(&mut m, value_text);
            push_str(&mut m, ") excede el límite estricto p95 (");
            push_str(&mut m, hard_text);
            push_str(&mut m, ") para S");
            push_decimal(&mut m, target_level as u128);
            if target_level >= 25 {
                push_str(&mut m, ". Se reporta como advertencia por confianza baja.");
                Some(finding_from(false, kind, m))
            } else {
                push_str(&mut m, ".");
                Some(finding_from(true, kind, m))
            }
        },
        LimitExceedance::OverWarning => {
            let mut kind: Vec<char> = Vec::new();
            push_str(&mut kind, name);
            push_str(&mut kind, "WarningExceeded");
            let mut m: Vec<char> = Vec::new();
            push_str(&mut m, "La ");
            push_str(&mut m, label);
            push_str(&mut m, " (");
            push_str(&mut m, value_text);
            push_str(&mut m, ") excede el umbral de advertencia p90 (");
            push_str(&mut m, warning_text);
            push_str(&mut m, ") para S");
            push_decimal(&mut m, target_level as u128);
            push_str(&mut m, ".");
            Some(finding_from(false, kind, m))
        },
    }
}

/// The finding for a section's bracket count scaled to a hundred measures,
/// the value and limits printed with one decimal.
pub fn bracket_finding(
    value_text: &str,
    warning_text: &str,
    hard_text: &str,
    target_level: u32,
    exceedance: LimitExceedance,
) -> (r: Option<CalibrationFinding>)
    ensures
        match bracket_finding_of(value_text@, warning_text@, hard_text@, target_level, exceedance) {
            Some(v) => r is Some && finding_view(r->0) == v,
            None => r is None,
        },
{
    match exceedance {
        LimitExceedance::Within => None,
        LimitExceedance::OverHardLimit => {
            let mut kind: Vec<char> = Vec::new();
            push_str(&mut kind, "BracketLimitExceeded");
            let mut m: Vec<char> = Vec::new();
            push_str(&mut m, "La cantidad de brackets (equiv. ");
            push_str(&mut m, value_text);
            push_str(&mut m, " en 100 compases) excede el límite estricto p95 (");
            push_str(&mut m, hard_text);
            push_str(&mut m, ") para S");
            push_decimal(&mut m, target_level as u128);
            if target_level >= 25 {
                push_str(&mut m, ". Se reporta como advertencia por confianza baja.");
                Some(finding_from(false, kind, m))
            } else {
                push_str(&mut m, ".");
                Some(finding_from(true, kind, m))
            }
        },
        LimitExceedance::OverWarning => {
            let mut kind: Vec<char> = Vec::new();
            push_str(&mut kind, "BracketWarningExceeded");
            let mut m: Vec<char> = Vec::new();
            push_str(&mut m, "La cantidad de brackets (equiv. ");
            push_str(&mut m, value_text);
            push_str(&mut m, " en 100 compases) excede el umbral de advertencia p90 (");
            push_str(&mut m, warning_text);
            push_str(&mut m, ") para S");
            push_decimal(&mut m, target_level as u128);
            push_str(&mut m, ".");
            Some(finding_from(false, kind, m))
        },
    }
}

/// The warning for a level without calibration.
pub fn calibration_missing_warning(target_level: u32) -> (w: CalibrationWarning)
    ensures
        w.issue_type@ == "CalibrationMissing"@,
        w.message@ == "La calibración para el nivel S"@ + decimal(target_level as nat)
            + " no está disponible."@,
{
    let mut v: Vec<char> = Vec::new();
    push_str(&mut v, "La calibración para el nivel S");
    push_decimal(&mut v, target_level as u128);
    push_str(&mut v, " no está disponible.");
    CalibrationWarning {
        issue_type: String::from_str("CalibrationMissing"),
        message: string_from_chars(v.as_slice()),
    }
}

/// The signal of a family in the calibration, if it has one.
pub open spec fn family_signal(es: Seq<FamilySignalEntry>, k: Seq<char>) -> Option<FamilySignalEntry>
    decreases es.len(),
{
    if es.len() == 0 {
        None
    } else {
        match family_signal(es.drop_last(), k) {
            Some(e) => Some(e),
            None => if es.last().key@ == k {
                Some(es.last())
            } else {
                None
            },
        }
    }
}

pub(crate) fn find_family_signal(es: &Vec<FamilySignalEntry>, k: &[char]) -> (r: Option<usize>)
    ensures
        match r {
            Some(i) => i < es@.len() && family_signal(es@, k@) == Some(es@[i as int]),
            None => family_signal(es@, k@) is None,
        },
{
    let mut i: usize = 0;
    while i < es.len()
        invariant
            i <= es@.len(),
            family_signal(es@.take(i as int), k@) is None,
        decreases es@.len() - i,
    {
        proof {
            assert(es@.take(i + 1).drop_last() =~= es@.take(i as int));
            assert(es@.take(i + 1).last() == es@[i as int]);
        }
        if crate::text::chars_equal(chars_of(es[i].key.as_str()).as_slice(), k) {
            proof {
                lemma_family_signal_extends(es@, k@, i + 1);
            }
            return Some(i);
        }
        i = i + 1;
    }
    proof {
        assert(es@.take(es@.len() as int) =~= es@);
    }
    None
}

proof fn lemma_family_signal_extends(es: Seq<FamilySignalEntry>, k: Seq<char>, n: int)
    requires
        0 < n <= es.len(),
        family_signal(es.take(n), k) is Some,
    ensures
        family_signal(es, k) == family_signal(es.take(n), k),
    decreases es.len() - n,
{
    if n < es.len() {
        assert(es.take(n + 1).drop_last() =~= es.take(n));
        lemma_family_signal_extends(es, k, n + 1);
    } else {
        assert(es.take(n) =~= es);
    }
}

/// The warning for each detected family whose calibrated typical levels
/// leave out the requested level, in the order the families were detected.
pub open spec fn family_mismatch_messages(
    families: Seq<Seq<char>>,
    es: Seq<FamilySignalEntry>,
    level: u32,
) -> Seq<Seq<char>>
    decreases families.len(),
{
    if families.len() == 0 {
        Seq::empty()
    } else {
        let rest = family_mismatch_messages(families.drop_last(), es, level);
        let f = families.last();
        match family_signal(es, f) {
            Some(e) => if level < e.typical_level_range.min || level > e.typical_level_range.max {
                rest.push(
                    "La familia de patrones '"@ + f + "' se detectó en el preview, pero típicamente se usa en niveles del "@
                        + decimal(e.typical_level_range.min as nat) + " al "@ + decimal(
                        e.typical_level_range.max as nat,
                    ) + " (Nivel solicitado: S"@ + decimal(level as nat) + ")."@,
                )
            } else {
                rest
            },
            None => rest,
        }
    }
}

/// The `PatternFamilyLevelMismatch` warnings for the families detected in a
/// section.
pub fn family_level_mismatches(
    families: &Vec<String>,
    calibration: &SingleGuardrailCalibration,
    target_level: u32,
) -> (ws: Vec<CalibrationWarning>)
    ensures
        ws@.map_values(|w: CalibrationWarning| w.message@) == family_mismatch_messages(
            string_views(families@),
            calibration.pattern_family_thresholds@,
            target_level,
        ),
        forall|i: int| 0 <= i < ws@.len() ==> (#[trigger] ws@[i]).issue_type@
            == "PatternFamilyLevelMismatch"@,
{
    let es = &calibration.pattern_family_thresholds;
    let ghost fv = string_views(families@);
    let mut ws: Vec<CalibrationWarning> = Vec::new();
    let mut i: usize = 0;
    while i < families.len()
        invariant
            i <= families@.len(),
            fv == string_views(families@),
            es@ == calibration.pattern_family_thresholds@,
            ws@.map_values(|w: CalibrationWarning| w.message@) == family_mismatch_messages(
                fv.take(i as int),
                es@,
                target_level,
            ),
            forall|j: int| 0 <= j < ws@.len() ==> (#[trigger] ws@[j]).issue_type@
                == "PatternFamilyLevelMismatch"@,
        decreases families@.len() - i,
    {
        let f = chars_of(families[i].as_str());
        proof {
            assert(fv.take(i + 1).drop_last() =~= fv.take(i as int));
            assert(fv.take(i + 1).last() == f@);
        }
        match find_family_signal(es, f.as_slice()) {
            Some(k) => {
                let r = es[k].typical_level_range;
                if target_level < r.min || target_level > r.max {
                    let mut v: Vec<char> = Vec::new();
                    push_str(&mut v, "La familia de patrones '");
                    push_all(&mut v, f.as_slice());
                    push_str(
                        &mut v,
                        "' se detectó en el preview, pero típicamente se usa en niveles del ",
                    );
                    push_decimal(&mut v, r.min as u128);
                    push_str(&mut v, " al ");
                    push_decimal(&mut v, r.max as u128);
                    push_str(&mut v, " (Nivel solicitado: S");
                    push_decimal(&mut v, target_level as u128);
                    push_str(&mut v, ").");
                    let ghost before = ws@;
                    ws.push(
                        CalibrationWarning {
                            issue_type: String::from_str("PatternFamilyLevelMismatch"),
                            message: string_from_chars(v.as_slice()),
                        },
                    );
                    proof {
                        assert(ws@.map_values(|w: CalibrationWarning| w.message@) =~= before.map_values(
                            |w: CalibrationWarning| w.message@,
                        ).push(v@));
                    }
                }
            },
            None => {},
        }
        i = i + 1;
    }
    proof {
        assert(fv.take(families@.len() as int) =~= fv);
    }
    ws
}

/// The summary of a calibration check that found something.
pub fn findings_summary(warning_count: usize, error_count: usize, target_level: u32) -> (s: String)
    ensures
        s@ == "Se encontraron "@ + decimal(warning_count as nat) + " advertencias y "@ + decimal(
            error_count as nat,
        ) + " errores estadísticos de calibración para S"@ + decimal(target_level as nat) + "."@,
{
    let mut v: Vec<char> = Vec::new();
    push_str(&mut v, "Se encontraron ");
    push_decimal(&mut v, warning_count as u128);
    push_str(&mut v, " advertencias y ");
    push_decimal(&mut v, error_count as u128);
    push_str(&mut v, " errores estadísticos de calibración para S");
    push_decimal(&mut v, target_level as u128);
    push_str(&mut v, ".");
    string_from_chars(v.as_slice())
}


/// The key written for a level is accepted by calibration validation
/// exactly for the Single levels S1 to S26.
pub proof fn lemma_level_key_accepted(level: u32)
    ensures
        level_key_error("S"@ + decimal(level as nat)) is None <==> 1 <= level <= 26,
{
    reveal_strlit("S");
    let k = "S"@ + decimal(level as nat);
    assert(k.drop_first() =~= decimal(level as nat));
    assert(k.subrange(0, 1) =~= "S"@);
    lemma_parse_decimal(level);
}

} // verus!
