//! The corpus factory's reading of official charts: SSC tag lookups, note
//! blocks, which charts are left out, row and window counts, and the
//! identifiers derived from content hashes.
use vstd::prelude::*;
use sha2::Digest;
use crate::biomechanics::{clean_line_exec, clean_note_line};
use crate::commands::{opt_string_view, parse_u32_text, parse_usize, parse_usize_text, tag_has_key, SscTag};
use crate::text::{
    chars_are, chars_of, contains_chars, contains_seq, ends_with, ends_with_chars, has_char,
    nonempty_only, push_all, slice_chars, split_chars, split_on, string_from_chars, string_views,
    trim, trim_chars, uppercase_chars, uppercase_of, views, join_with, push_joined, utf8_len,
    utf8_len_of, decimal, push_decimal, push_str, utf8_encode, text_bytes,
};

verus! {

// ---------------------------------------------------------------------------
// Tags
// ---------------------------------------------------------------------------

/// A timing tag value that holds more than separators.
pub open spec fn gimmick_content(v: Seq<char>) -> bool {
    let t = trim(v);
    t.len() > 0 && t != ","@ && t != ";"@
}

/// Whether a timing tag (stops, delays, warps, ...) says anything.
pub fn has_gimmick_content(val: &str) -> (b: bool)
    ensures
        b == gimmick_content(val@),
{
    let t = trim_chars(chars_of(val).as_slice());
    t.len() > 0 && !chars_are(t.as_slice(), ",") && !chars_are(t.as_slice(), ";")
}

/// The value of the first tag with key `k`.
pub open spec fn first_tag_value(tags: Seq<SscTag>, k: Seq<char>) -> Option<Seq<char>>
    decreases tags.len(),
{
    if tags.len() == 0 {
        None
    } else {
        match first_tag_value(tags.drop_last(), k) {
            Some(v) => Some(v),
            None => if tag_has_key(tags.last(), k) {
                Some(tags.last().value@)
            } else {
                None
            },
        }
    }
}

fn key_is(t: &SscTag, k: &str) -> (b: bool)
    ensures
        b == tag_has_key(*t, k@),
{
    match &t.key {
        Some(key) => chars_are(chars_of(key.as_str()).as_slice(), k),
        None => false,
    }
}

proof fn lemma_first_tag_found(tags: Seq<SscTag>, k: Seq<char>, i: int, n: int)
    requires
        0 <= i < n <= tags.len(),
        first_tag_value(tags.take(i + 1), k) is Some,
    ensures
        first_tag_value(tags.take(n), k) == first_tag_value(tags.take(i + 1), k),
    decreases n - i,
{
    if n > i + 1 {
        lemma_first_tag_found(tags, k, i, n - 1);
        assert(tags.take(n).drop_last() =~= tags.take(n - 1));
    }
}

/// The value of the first tag with the given key.
pub fn get_tag_value(tags: &Vec<SscTag>, key: &str) -> (r: Option<String>)
    ensures
        match r {
            Some(v) => first_tag_value(tags@, key@) == Some(v@),
            None => first_tag_value(tags@, key@) is None,
        },
{
    let mut i: usize = 0;
    while i < tags.len()
        invariant
            i <= tags@.len(),
            first_tag_value(tags@.take(i as int), key@) is None,
        decreases tags@.len() - i,
    {
        proof {
            assert(tags@.take(i + 1).drop_last() =~= tags@.take(i as int));
            assert(tags@.take(i + 1).last() == tags@[i as int]);
        }
        if key_is(&tags[i], key) {
            proof {
                lemma_first_tag_found(tags@, key@, i as int, tags@.len() as int);
                assert(tags@.take(tags@.len() as int) =~= tags@);
            }
            let v = chars_of(tags[i].value.as_str());
            return Some(string_from_chars(v.as_slice()));
        }
        i = i + 1;
    }
    proof {
        assert(tags@.take(tags@.len() as int) =~= tags@);
    }
    None
}

// ---------------------------------------------------------------------------
// Note blocks
// ---------------------------------------------------------------------------

/// A note line cleaned as the factory does: trimmed, any `//` comment
/// removed, then one trailing `;` removed, trimmed again.
pub open spec fn corpus_line(line: Seq<char>) -> Seq<char> {
    let t = clean_note_line(line);
    if ends_with(t, ";"@) {
        trim(t.drop_last())
    } else {
        t
    }
}

/// The rows of one measure: its cleaned lines that are not empty.
pub open spec fn corpus_measure_rows(m: Seq<char>) -> Seq<Seq<char>> {
    nonempty_only(split_on(m, '\n').map_values(|l: Seq<char>| corpus_line(l)))
}

/// The measures of a note block: its `,`-separated pieces reduced to rows,
/// without a last measure that has none.
pub open spec fn notes_block_measures(notes: Seq<char>) -> Seq<Seq<Seq<char>>> {
    let ms = split_on(notes, ',').map_values(|m: Seq<char>| corpus_measure_rows(m));
    if ms.len() > 0 && ms.last().len() == 0 {
        ms.drop_last()
    } else {
        ms
    }
}

pub open spec fn measures_view(v: Seq<Vec<String>>) -> Seq<Seq<Seq<char>>> {
    v.map_values(|m: Vec<String>| string_views(m@))
}

fn corpus_line_exec(line: &[char]) -> (r: Vec<char>)
    ensures
        r@ == corpus_line(line@),
{
    let t = clean_line_exec(line);
    proof {
        reveal_strlit(";");
    }
    if ends_with_chars(t.as_slice(), chars_of(";").as_slice()) {
        let n = t.len();
        let head = slice_chars(t.as_slice(), 0, n - 1);
        assert(head@ =~= t@.drop_last());
        trim_chars(head.as_slice())
    } else {
        t
    }
}

fn corpus_measure_rows_exec(m: &[char]) -> (rows: Vec<String>)
    ensures
        string_views(rows@) == corpus_measure_rows(m@),
{
    let lines = split_chars(m, '\n');
    let ghost cleaned = views(lines@).map_values(|l: Seq<char>| corpus_line(l));
    let mut rows: Vec<String> = Vec::new();
    let mut i: usize = 0;
    while i < lines.len()
        invariant
            i <= lines@.len(),
            cleaned == views(lines@).map_values(|l: Seq<char>| corpus_line(l)),
            string_views(rows@) == nonempty_only(cleaned.take(i as int)),
        decreases lines@.len() - i,
    {
        let c = corpus_line_exec(lines[i].as_slice());
        let ghost before = rows@;
        if c.len() > 0 {
            let s = string_from_chars(c.as_slice());
            rows.push(s);
            proof {
                assert(string_views(rows@) =~= string_views(before).push(c@));
            }
        }
        i = i + 1;
        proof {
            assert(cleaned.take(i as int).drop_last() =~= cleaned.take(i - 1));
            assert(cleaned.take(i as int).last() == c@);
        }
    }
    proof {
        assert(cleaned.take(lines@.len() as int) =~= cleaned);
    }
    rows
}

/// Splits a chart's note block into measures of rows; refused when no
/// measure is left once an empty last one is dropped.
pub fn parse_notes_block(notes_raw: &str) -> (r: Result<Vec<Vec<String>>, String>)
    ensures
        match r {
            Ok(ms) => notes_block_measures(notes_raw@).len() > 0 && measures_view(ms@)
                == notes_block_measures(notes_raw@),
            Err(e) => notes_block_measures(notes_raw@).len() == 0 && e@
                == "No measures found in notes block"@,
        },
{
    let cs = chars_of(notes_raw);
    let pieces = split_chars(cs.as_slice(), ',');
    let ghost target = views(pieces@).map_values(|m: Seq<char>| corpus_measure_rows(m));
    let mut ms: Vec<Vec<String>> = Vec::new();
    let mut i: usize = 0;
    while i < pieces.len()
        invariant
            i <= pieces@.len(),
            target == views(pieces@).map_values(|m: Seq<char>| corpus_measure_rows(m)),
            measures_view(ms@) == target.take(i as int),
        decreases pieces@.len() - i,
    {
        let rows = corpus_measure_rows_exec(pieces[i].as_slice());
        let ghost before = ms@;
        ms.push(rows);
        i = i + 1;
        proof {
            assert(measures_view(ms@) =~= measures_view(before).push(string_views(rows@)));
            assert(target.take(i as int) =~= target.take(i - 1).push(target[i - 1]));
        }
    }
    proof {
        assert(target.take(pieces@.len() as int) =~= target);
    }
    let n = ms.len();
    if n > 0 && ms[n - 1].len() == 0 {
        let ghost before = ms@;
        ms.pop();
        proof {
            assert(measures_view(ms@) =~= measures_view(before).drop_last());
        }
    }
    if ms.len() == 0 {
        return Err(String::from_str("No measures found in notes block"));
    }
    Ok(ms)
}

/// A row that starts a step: it holds a tap (`1`) or a hold head (`2`).
pub open spec fn active_row(row: Seq<char>) -> bool {
    row.contains('1') || row.contains('2')
}

/// Whether a row starts a step.
pub fn is_active_row(row: &str) -> (b: bool)
    ensures
        b == active_row(row@),
{
    let cs = chars_of(row);
    has_char(cs.as_slice(), '1') || has_char(cs.as_slice(), '2')
}

// ---------------------------------------------------------------------------
// Charts left out of the corpus
// ---------------------------------------------------------------------------

/// Keys whose values are not searched for excluded chart kinds.
pub open spec fn unsearched_tag_key(upper: Seq<char>) -> bool {
    upper == "NOTES"@ || upper == "BPMS"@ || upper == "STOPS"@ || upper == "DELAYS"@ || upper
        == "WARPS"@ || upper == "SPEEDS"@ || upper == "SCROLLS"@ || upper == "FAKES"@
}

/// What an upper-cased tag value says of the chart's kind.
pub open spec fn excluded_kind(value_upper: Seq<char>) -> Option<Seq<char>> {
    if contains_seq(value_upper, "UCS"@) {
        Some("Excluded UCS chart"@)
    } else if contains_seq(value_upper, "COOP"@) || contains_seq(value_upper, "CO-OP"@)
        || contains_seq(value_upper, "CO OP"@) {
        Some("Excluded COOP chart"@)
    } else if contains_seq(value_upper, "QUEST"@) {
        Some("Excluded QUEST chart"@)
    } else if contains_seq(value_upper, "TRAIN"@) {
        Some("Excluded TRAIN chart"@)
    } else {
        None
    }
}

/// Why one tag excludes its chart, if it does: comments, keyless tags and
/// note or timing tags are not searched; the key and value are compared
/// upper-cased.
pub open spec fn tag_exclusion(t: SscTag) -> Option<Seq<char>> {
    if t.is_comment || t.key is None {
        None
    } else if unsearched_tag_key(uppercase_of(t.key->0@)) {
        None
    } else {
        excluded_kind(uppercase_of(t.value@))
    }
}

/// The first tag that excludes the chart.
pub open spec fn first_tag_exclusion(tags: Seq<SscTag>) -> Option<Seq<char>>
    decreases tags.len(),
{
    if tags.len() == 0 {
        None
    } else {
        match first_tag_exclusion(tags.drop_last()) {
            Some(e) => Some(e),
            None => tag_exclusion(tags.last()),
        }
    }
}

/// Why a chart is left out of the corpus: not pump-single, an excluded kind
/// named in its tags, or no usable meter.
pub open spec fn chart_exclusion(stepstype: Seq<char>, meter: Option<u32>, tags: Seq<SscTag>) -> Option<
    Seq<char>,
> {
    if stepstype != "pump-single"@ {
        Some("Only pump-single is supported in feature extraction v0"@)
    } else {
        match first_tag_exclusion(tags) {
            Some(e) => Some(e),
            None => if meter is None || meter->0 == 0 {
                Some("Meter missing or unparseable"@)
            } else {
                None
            },
        }
    }
}

/// The kind check on a tag, given its key and value already upper-cased.
pub fn tag_exclusion_from_upper(key_upper: &[char], value_upper: &[char]) -> (r: Option<String>)
    ensures
        match r {
            Some(e) => !unsearched_tag_key(key_upper@) && excluded_kind(value_upper@) == Some(e@),
            None => unsearched_tag_key(key_upper@) || excluded_kind(value_upper@) is None,
        },
{
    if chars_are(key_upper, "NOTES") || chars_are(key_upper, "BPMS") || chars_are(key_upper, "STOPS")
        || chars_are(key_upper, "DELAYS") || chars_are(key_upper, "WARPS") || chars_are(
        key_upper,
        "SPEEDS",
    ) || chars_are(key_upper, "SCROLLS") || chars_are(key_upper, "FAKES") {
        return None;
    }
    if contains_chars(value_upper, chars_of("UCS").as_slice()) {
        Some(String::from_str("Excluded UCS chart"))
    } else if contains_chars(value_upper, chars_of("COOP").as_slice()) || contains_chars(
        value_upper,
        chars_of("CO-OP").as_slice(),
    ) || contains_chars(value_upper, chars_of("CO OP").as_slice()) {
        Some(String::from_str("Excluded COOP chart"))
    } else if contains_chars(value_upper, chars_of("QUEST").as_slice()) {
        Some(String::from_str("Excluded QUEST chart"))
    } else if contains_chars(value_upper, chars_of("TRAIN").as_slice()) {
        Some(String::from_str("Excluded TRAIN chart"))
    } else {
        None
    }
}

proof fn lemma_first_exclusion_found(tags: Seq<SscTag>, i: int, n: int)
    requires
        0 <= i < n <= tags.len(),
        first_tag_exclusion(tags.take(i + 1)) is Some,
    ensures
        first_tag_exclusion(tags.take(n)) == first_tag_exclusion(tags.take(i + 1)),
    decreases n - i,
{
    if n > i + 1 {
        lemma_first_exclusion_found(tags, i, n - 1);
        assert(tags.take(n).drop_last() =~= tags.take(n - 1));
    }
}

/// Why a chart is left out of the corpus, if it is.
pub fn classify_chart_exclusion(stepstype: &str, meter: Option<u32>, chart_tags: &Vec<SscTag>) -> (r:
    Option<String>)
    ensures
        match r {
            Some(e) => chart_exclusion(stepstype@, meter, chart_tags@) == Some(e@),
            None => chart_exclusion(stepstype@, meter, chart_tags@) is None,
        },
{
    if !chars_are(chars_of(stepstype).as_slice(), "pump-single") {
        return Some(String::from_str("Only pump-single is supported in feature extraction v0"));
    }
    let mut i: usize = 0;
    while i < chart_tags.len()
        invariant
            i <= chart_tags@.len(),
            stepstype@ == "pump-single"@,
            first_tag_exclusion(chart_tags@.take(i as int)) is None,
        decreases chart_tags@.len() - i,
    {
        proof {
            assert(chart_tags@.take(i + 1).drop_last() =~= chart_tags@.take(i as int));
            assert(chart_tags@.take(i + 1).last() == chart_tags@[i as int]);
        }
        let t = &chart_tags[i];
        if !t.is_comment {
            match &t.key {
                Some(k) => {
                    let ku = uppercase_chars(chars_of(k.as_str()).as_slice());
                    let vu = uppercase_chars(chars_of(t.value.as_str()).as_slice());
                    match tag_exclusion_from_upper(ku.as_slice(), vu.as_slice()) {
                        Some(e) => {
                            proof {
                                lemma_first_exclusion_found(
                                    chart_tags@,
                                    i as int,
                                    chart_tags@.len() as int,
                                );
                                assert(chart_tags@.take(chart_tags@.len() as int) =~= chart_tags@);
                            }
                            return Some(e);
                        },
                        None => {},
                    }
                },
                None => {},
            }
        }
        i = i + 1;
    }
    proof {
        assert(chart_tags@.take(chart_tags@.len() as int) =~= chart_tags@);
    }
    match meter {
        None => Some(String::from_str("Meter missing or unparseable")),
        Some(m) => if m == 0 {
            Some(String::from_str("Meter missing or unparseable"))
        } else {
            None
        },
    }
}


// ---------------------------------------------------------------------------
// Content hashes
// ---------------------------------------------------------------------------

/// The SHA-256 digest of some bytes.
pub uninterp spec fn sha256_digest_of(bytes: Seq<u8>) -> Seq<u8>;

/// Calls `sha2::Sha256` (`new`, `update` with the bytes, `finalize`). The
/// contract names the digest and states its length, 32 bytes, as the
/// crate's output size gives it.
#[verifier::external_body]
pub(crate) fn sha256_of_bytes(bytes: &[u8]) -> (r: Vec<u8>)
    ensures
        r@ == sha256_digest_of(bytes@),
        r@.len() == 32,
{
    let mut hasher = sha2::Sha256::new();
    hasher.update(bytes);
    hasher.finalize().to_vec()
}

/// The SHA-256 digest of the UTF-8 bytes of a text.
pub open spec fn sha256_text_of(s: Seq<char>) -> Seq<u8> {
    sha256_digest_of(utf8_encode(s))
}

fn sha256_of_text(s: &str) -> (r: Vec<u8>)
    ensures
        r@ == sha256_text_of(s@),
        r@.len() == 32,
{
    let bytes = text_bytes(s);
    sha256_of_bytes(bytes.as_slice())
}

/// The lower-case hexadecimal digit for `n` in 0..16.
pub open spec fn hex_digit(n: int) -> char {
    if n < 10 {
        (48 + n) as char
    } else {
        (87 + n) as char
    }
}

/// Two lower-case hexadecimal digits per byte, high nibble first.
pub open spec fn hex_text(b: Seq<u8>) -> Seq<char>
    decreases b.len(),
{
    if b.len() == 0 {
        Seq::empty()
    } else {
        hex_text(b.drop_last()) + seq![hex_digit(b.last() as int / 16), hex_digit(b.last() as int % 16)]
    }
}

/// Calls `hex::encode`, which writes each byte as two lower-case hexadecimal
/// digits, high nibble first.
#[verifier::external_body]
pub(crate) fn hex_encode(data: &[u8]) -> (r: String)
    ensures
        r@ == hex_text(data@),
{
    hex::encode(data)
}

/// The SHA-256 of a text's UTF-8 bytes, in lower-case hexadecimal.
pub fn compute_sha256_hex(s: &str) -> (h: String)
    ensures
        h@ == hex_text(sha256_text_of(s@)),
{
    let d = sha256_of_text(s);
    hex_encode(d.as_slice())
}

/// The first 8 bytes of a text's SHA-256, as 16 hexadecimal digits.
pub fn compute_hash(s: &str) -> (h: String)
    ensures
        h@ == hex_text(sha256_text_of(s@).take(8)),
        h@.len() == 16,
{
    let d = sha256_of_text(s);
    let head = vstd::slice::slice_subrange(d.as_slice(), 0, 8);
    proof {
        lemma_hex_text_len(d@.take(8));
    }
    hex_encode(head)
}

proof fn lemma_hex_text_len(b: Seq<u8>)
    ensures
        hex_text(b).len() == 2 * b.len(),
    decreases b.len(),
{
    if b.len() > 0 {
        lemma_hex_text_len(b.drop_last());
    }
}


// ---------------------------------------------------------------------------
// Row counts
// ---------------------------------------------------------------------------

/// A step character: a tap (`1`) or a hold head (`2`).
pub open spec fn is_step(c: char) -> bool {
    c == '1' || c == '2'
}

/// How many characters of `row` are `c`.
pub open spec fn count_of(row: Seq<char>, c: char) -> nat
    decreases row.len(),
{
    if row.len() == 0 {
        0
    } else {
        count_of(row.drop_last(), c) + if row.last() == c {
            1nat
        } else {
            0nat
        }
    }
}

/// How many steps start in a row.
pub open spec fn steps_in(row: Seq<char>) -> nat {
    count_of(row, '1') + count_of(row, '2')
}

pub open spec fn step_at(row: Seq<char>, p: int) -> bool {
    0 <= p < row.len() && is_step(row[p])
}

/// A row that a bracket (toe and heel on two panels) or a hand could take:
/// the centre with one corner, or three or more steps.
pub open spec fn bracket_row(row: Seq<char>) -> bool {
    (steps_in(row) == 2 && step_at(row, 2) && (step_at(row, 0) || step_at(row, 1) || step_at(row, 3)
        || step_at(row, 4))) || steps_in(row) >= 3
}

pub open spec fn is_known_note_char(c: char) -> bool {
    c == '0' || c == '1' || c == '2' || c == '3' || c == '4' || c == 'M'
}

/// The counts over a sequence of rows.
pub struct RowTally {
    pub rows: nat,
    pub active_rows: nat,
    pub taps: nat,
    pub hold_starts: nat,
    pub hold_ends: nat,
    pub jumps: nat,
    pub triples: nat,
    pub quads: nat,
    pub center_notes: nat,
    pub panels: (nat, nat, nat, nat, nat),
    pub brackets: nat,
    pub has_mines: bool,
    pub has_unsupported: bool,
}

pub open spec fn b2n(b: bool) -> nat {
    if b {
        1
    } else {
        0
    }
}

/// The counts over `rows`.
pub open spec fn row_tally(rows: Seq<Seq<char>>) -> RowTally
    decreases rows.len(),
{
    if rows.len() == 0 {
        RowTally {
            rows: 0,
            active_rows: 0,
            taps: 0,
            hold_starts: 0,
            hold_ends: 0,
            jumps: 0,
            triples: 0,
            quads: 0,
            center_notes: 0,
            panels: (0, 0, 0, 0, 0),
            brackets: 0,
            has_mines: false,
            has_unsupported: false,
        }
    } else {
        let t = row_tally(rows.drop_last());
        let r = rows.last();
        let k = steps_in(r);
        RowTally {
            rows: t.rows + 1,
            active_rows: t.active_rows + b2n(active_row(r)),
            taps: t.taps + count_of(r, '1'),
            hold_starts: t.hold_starts + count_of(r, '2'),
            hold_ends: t.hold_ends + count_of(r, '3'),
            jumps: t.jumps + b2n(k == 2),
            triples: t.triples + b2n(k == 3),
            quads: t.quads + b2n(k >= 4),
            center_notes: t.center_notes + b2n(step_at(r, 2)),
            panels: (
                t.panels.0 + b2n(step_at(r, 0)),
                t.panels.1 + b2n(step_at(r, 1)),
                t.panels.2 + b2n(step_at(r, 2)),
                t.panels.3 + b2n(step_at(r, 3)),
                t.panels.4 + b2n(step_at(r, 4)),
            ),
            brackets: t.brackets + b2n(bracket_row(r)),
            has_mines: t.has_mines || r.contains('M'),
            has_unsupported: t.has_unsupported || exists|i: int|
                0 <= i < r.len() && !is_known_note_char(#[trigger] r[i]),
        }
    }
}

/// The counts of one chart or window, as integers.
#[derive(Debug, Clone, Copy)]
pub struct RowCounts {
    pub row_count: usize,
    pub active_row_count: usize,
    pub tap_count: usize,
    pub hold_start_count: usize,
    pub hold_end_count: usize,
    pub jump_count: usize,
    pub triple_count: usize,
    pub quad_or_more_count: usize,
    pub center_note_count: usize,
    pub panel_counts: [usize; 5],
    pub bracket_candidate_count: usize,
    pub has_mines: bool,
    pub has_unsupported_rows: bool,
}

pub open spec fn counts_view(c: RowCounts) -> RowTally {
    RowTally {
        rows: c.row_count as nat,
        active_rows: c.active_row_count as nat,
        taps: c.tap_count as nat,
        hold_starts: c.hold_start_count as nat,
        hold_ends: c.hold_end_count as nat,
        jumps: c.jump_count as nat,
        triples: c.triple_count as nat,
        quads: c.quad_or_more_count as nat,
        center_notes: c.center_note_count as nat,
        panels: (
            c.panel_counts@[0] as nat,
            c.panel_counts@[1] as nat,
            c.panel_counts@[2] as nat,
            c.panel_counts@[3] as nat,
            c.panel_counts@[4] as nat,
        ),
        brackets: c.bracket_candidate_count as nat,
        has_mines: c.has_mines,
        has_unsupported: c.has_unsupported_rows,
    }
}

/// What one row adds, computed on its characters.
struct RowScan {
    taps: usize,
    holds: usize,
    ends: usize,
    mine: bool,
    unsupported: bool,
    at: [bool; 5],
}

pub(crate) proof fn lemma_count_bound(row: Seq<char>, c: char)
    ensures
        count_of(row, c) <= row.len(),
    decreases row.len(),
{
    if row.len() > 0 {
        lemma_count_bound(row.drop_last(), c);
    }
}

pub(crate) proof fn lemma_steps_bound(row: Seq<char>)
    ensures
        steps_in(row) <= row.len(),
    decreases row.len(),
{
    if row.len() > 0 {
        lemma_steps_bound(row.drop_last());
    }
}

fn scan_row(row: &[char]) -> (s: RowScan)
    requires
        row@.len() <= 5,
    ensures
        s.taps == count_of(row@, '1'),
        s.holds == count_of(row@, '2'),
        s.ends == count_of(row@, '3'),
        s.mine == row@.contains('M'),
        s.unsupported == exists|i: int| 0 <= i < row@.len() && !is_known_note_char(#[trigger] row@[i]),
        forall|p: int| 0 <= p < 5 ==> s.at@[p] == step_at(row@, p),
{
    let mut s = RowScan {
        taps: 0,
        holds: 0,
        ends: 0,
        mine: false,
        unsupported: false,
        at: [false, false, false, false, false],
    };
    let mut i: usize = 0;
    while i < row.len()
        invariant
            i <= row@.len() <= 5,
            s.taps == count_of(row@.take(i as int), '1'),
            s.holds == count_of(row@.take(i as int), '2'),
            s.ends == count_of(row@.take(i as int), '3'),
            s.taps <= i && s.holds <= i && s.ends <= i,
            s.mine == row@.take(i as int).contains('M'),
            s.unsupported == exists|j: int|
                0 <= j < i && !is_known_note_char(#[trigger] row@[j]),
            forall|p: int| 0 <= p < 5 ==> s.at@[p] == (p < i && is_step(row@[p])),
        decreases row@.len() - i,
    {
        let c = row[i];
        proof {
            assert(row@.take(i + 1).drop_last() =~= row@.take(i as int));
            assert(row@.take(i + 1).last() == c);
            lemma_count_bound(row@.take(i as int), '1');
        }
        if c == '1' {
            s.taps = s.taps + 1;
        } else if c == '2' {
            s.holds = s.holds + 1;
        } else if c == '3' {
            s.ends = s.ends + 1;
        }
        if c == 'M' {
            s.mine = true;
        }
        if !(c == '0' || c == '1' || c == '2' || c == '3' || c == '4' || c == 'M') {
            s.unsupported = true;
        }
        if c == '1' || c == '2' {
            s.at[i] = true;
        }
        i = i + 1;
        proof {
            assert(row@.take(i as int).contains('M') == (row@.take(i - 1).contains('M') || c == 'M')) by {
                if c == 'M' {
                    assert(row@.take(i as int)[i - 1] == 'M');
                }
                if row@.take(i - 1).contains('M') {
                    let j = choose|j: int| #![trigger row@.take(i - 1)[j]] 0 <= j < i - 1 && row@.take(i - 1)[j] == 'M';
                    assert(row@.take(i as int)[j] == 'M');
                }
                if row@.take(i as int).contains('M') {
                    let j = choose|j: int| #![trigger row@.take(i as int)[j]] 0 <= j < i && row@.take(i as int)[j] == 'M';
                    if j < i - 1 {
                        assert(row@.take(i - 1)[j] == 'M');
                    }
                }
            }
        }
    }
    proof {
        assert(row@.take(row@.len() as int) =~= row@);
    }
    s
}

fn add_flag(n: usize, b: bool) -> (r: usize)
    requires
        n < usize::MAX,
    ensures
        r == n + b2n(b),
{
    if b {
        n + 1
    } else {
        n
    }
}

/// The counts over a sequence of rows of at most five characters each.
#[verifier::rlimit(40)]
pub fn count_rows(rows: &Vec<Vec<char>>) -> (c: RowCounts)
    requires
        rows@.len() <= usize::MAX / 5,
        forall|i: int| 0 <= i < rows@.len() ==> (#[trigger] rows@[i])@.len() <= 5,
    ensures
        counts_view(c) == row_tally(views(rows@)),
{
    let mut c = RowCounts {
        row_count: 0,
        active_row_count: 0,
        tap_count: 0,
        hold_start_count: 0,
        hold_end_count: 0,
        jump_count: 0,
        triple_count: 0,
        quad_or_more_count: 0,
        center_note_count: 0,
        panel_counts: [0, 0, 0, 0, 0],
        bracket_candidate_count: 0,
        has_mines: false,
        has_unsupported_rows: false,
    };
    let ghost rv = views(rows@);
    let mut i: usize = 0;
    proof {
        assert(rv.take(0) =~= Seq::<Seq<char>>::empty());
    }
    while i < rows.len()
        invariant
            i <= rows@.len() <= usize::MAX / 5,
            rv == views(rows@),
            forall|j: int| 0 <= j < rows@.len() ==> (#[trigger] rows@[j])@.len() <= 5,
            counts_view(c) == row_tally(rv.take(i as int)),
            c.row_count == i,
            c.active_row_count <= i && c.jump_count <= i && c.triple_count <= i
                && c.quad_or_more_count <= i && c.center_note_count <= i
                && c.bracket_candidate_count <= i,
            c.tap_count <= 5 * i && c.hold_start_count <= 5 * i && c.hold_end_count <= 5 * i,
            forall|p: int| 0 <= p < 5 ==> c.panel_counts@[p] <= i,
        decreases rows@.len() - i,
    {
        let row = rows[i].as_slice();
        let ghost r = rv[i as int];
        assert(row@ == r);
        let sc = scan_row(row);
        proof {
            assert(rv.take(i + 1).drop_last() =~= rv.take(i as int));
            assert(rv.take(i + 1).last() == r);
            lemma_count_bound(r, '1');
            lemma_count_bound(r, '2');
            lemma_count_bound(r, '3');
            assert(5 * i + 5 <= usize::MAX) by (nonlinear_arith)
                requires
                    i < usize::MAX / 5,
            ;
        }
        let k = sc.taps + sc.holds;
        let active = k > 0;
        proof {
            assert(active_row(r) == (k > 0)) by {
                if r.contains('1') {
                    let j = choose|j: int| #![trigger r[j]] 0 <= j < r.len() && r[j] == '1';
                    lemma_count_positive(r, '1', j);
                }
                if r.contains('2') {
                    let j = choose|j: int| #![trigger r[j]] 0 <= j < r.len() && r[j] == '2';
                    lemma_count_positive(r, '2', j);
                }
                if count_of(r, '1') > 0 {
                    lemma_count_witness(r, '1');
                }
                if count_of(r, '2') > 0 {
                    lemma_count_witness(r, '2');
                }
            }
        }
        let diag = sc.at[0] || sc.at[1] || sc.at[3] || sc.at[4];
        let bracket = (k == 2 && sc.at[2] && diag) || k >= 3;
        c.row_count = c.row_count + 1;
        c.active_row_count = add_flag(c.active_row_count, active);
        c.tap_count = c.tap_count + sc.taps;
        c.hold_start_count = c.hold_start_count + sc.holds;
        c.hold_end_count = c.hold_end_count + sc.ends;
        c.jump_count = add_flag(c.jump_count, k == 2);
        c.triple_count = add_flag(c.triple_count, k == 3);
        c.quad_or_more_count = add_flag(c.quad_or_more_count, k >= 4);
        c.center_note_count = add_flag(c.center_note_count, sc.at[2]);
        let p0 = add_flag(c.panel_counts[0], sc.at[0]);
        c.panel_counts[0] = p0;
        let p1 = add_flag(c.panel_counts[1], sc.at[1]);
        c.panel_counts[1] = p1;
        let p2 = add_flag(c.panel_counts[2], sc.at[2]);
        c.panel_counts[2] = p2;
        let p3 = add_flag(c.panel_counts[3], sc.at[3]);
        c.panel_counts[3] = p3;
        let p4 = add_flag(c.panel_counts[4], sc.at[4]);
        c.panel_counts[4] = p4;
        c.bracket_candidate_count = add_flag(c.bracket_candidate_count, bracket);
        c.has_mines = c.has_mines || sc.mine;
        c.has_unsupported_rows = c.has_unsupported_rows || sc.unsupported;
        i = i + 1;
        proof {
            assert(counts_view(c) =~= row_tally(rv.take(i as int)));
        }
    }
    proof {
        assert(rv.take(rows@.len() as int) =~= rv);
    }
    c
}

proof fn lemma_count_positive(row: Seq<char>, c: char, j: int)
    requires
        0 <= j < row.len(),
        row[j] == c,
    ensures
        count_of(row, c) > 0,
    decreases row.len(),
{
    if j < row.len() - 1 {
        lemma_count_positive(row.drop_last(), c, j);
    }
}

proof fn lemma_count_witness(row: Seq<char>, c: char)
    requires
        count_of(row, c) > 0,
    ensures
        row.contains(c),
    decreases row.len(),
{
    if row.last() != c {
        lemma_count_witness(row.drop_last(), c);
        let j = choose|j: int| #![trigger row.drop_last()[j]] 0 <= j < row.len() - 1 && row.drop_last()[j] == c;
        assert(row[j] == c);
    } else {
        assert(row[row.len() - 1] == c);
    }
}


// ---------------------------------------------------------------------------
// Runs, twists and measures
// ---------------------------------------------------------------------------

/// The length of the run of active rows that ends the sequence.
pub open spec fn active_run(rows: Seq<Seq<char>>) -> nat
    decreases rows.len(),
{
    if rows.len() == 0 {
        0
    } else if active_row(rows.last()) {
        active_run(rows.drop_last()) + 1
    } else {
        0
    }
}

/// The longest run of consecutive active rows.
pub open spec fn max_active_run(rows: Seq<Seq<char>>) -> nat
    decreases rows.len(),
{
    if rows.len() == 0 {
        0
    } else {
        let m = max_active_run(rows.drop_last());
        let r = active_run(rows);
        if r > m {
            r
        } else {
            m
        }
    }
}

proof fn lemma_run_bound(rows: Seq<Seq<char>>)
    ensures
        active_run(rows) <= rows.len(),
        max_active_run(rows) <= rows.len(),
    decreases rows.len(),
{
    if rows.len() > 0 {
        lemma_run_bound(rows.drop_last());
    }
}

pub(crate) fn row_is_active(row: &[char]) -> (b: bool)
    ensures
        b == active_row(row@),
{
    has_char(row, '1') || has_char(row, '2')
}

/// The longest run of consecutive active rows.
pub fn max_consecutive_active_rows(rows: &Vec<Vec<char>>) -> (n: usize)
    ensures
        n == max_active_run(views(rows@)),
{
    let ghost rv = views(rows@);
    let mut best: usize = 0;
    let mut cur: usize = 0;
    let mut i: usize = 0;
    while i < rows.len()
        invariant
            i <= rows@.len(),
            rv == views(rows@),
            cur == active_run(rv.take(i as int)),
            best == max_active_run(rv.take(i as int)),
            cur <= i,
        decreases rows@.len() - i,
    {
        proof {
            assert(rv.take(i + 1).drop_last() =~= rv.take(i as int));
            assert(rv.take(i + 1).last() == rows@[i as int]@);
        }
        if row_is_active(rows[i].as_slice()) {
            cur = cur + 1;
            if cur > best {
                best = cur;
            }
        } else {
            cur = 0;
        }
        i = i + 1;
    }
    proof {
        assert(rv.take(rows@.len() as int) =~= rv);
    }
    best
}

/// The panel of the one step of a row that has exactly one.
pub open spec fn single_step_panel(row: Seq<char>) -> int {
    choose|p: int| step_at(row, p)
}

/// The panels of the rows that hold a single step, in order.
pub open spec fn single_step_panels(rows: Seq<Seq<char>>) -> Seq<int>
    decreases rows.len(),
{
    if rows.len() == 0 {
        Seq::empty()
    } else if steps_in(rows.last()) == 1 {
        single_step_panels(rows.drop_last()).push(single_step_panel(rows.last()))
    } else {
        single_step_panels(rows.drop_last())
    }
}

/// Three single steps that turn the body: a left corner, the centre, a right
/// corner, or the reverse.
pub open spec fn is_twist(a: int, b: int, c: int) -> bool {
    ((a == 0 || a == 1) && b == 2 && (c == 3 || c == 4)) || ((a == 3 || a == 4) && b == 2 && (c
        == 0 || c == 1))
}

/// How many windows of three consecutive single steps turn the body.
pub open spec fn twist_triples(s: Seq<int>) -> nat
    decreases s.len(),
{
    if s.len() < 3 {
        0
    } else {
        twist_triples(s.drop_last()) + b2n(is_twist(s[s.len() - 3], s[s.len() - 2], s.last()))
    }
}

proof fn lemma_single_step(row: Seq<char>, p: int)
    requires
        steps_in(row) == 1,
        0 <= p < row.len(),
        is_step(row[p]),
    ensures
        single_step_panel(row) == p,
{
    let q = choose|q: int| step_at(row, q);
    assert(step_at(row, p));
    if q != p {
        lemma_two_steps(row, p, q);
    }
}

proof fn lemma_two_steps(row: Seq<char>, p: int, q: int)
    requires
        step_at(row, p),
        step_at(row, q),
        p != q,
    ensures
        steps_in(row) >= 2,
    decreases row.len(),
{
    let n = row.len() - 1;
    if p != n && q != n {
        lemma_two_steps(row.drop_last(), p, q);
    } else if p == n {
        lemma_one_step(row.drop_last(), q);
    } else {
        lemma_one_step(row.drop_last(), p);
    }
}

proof fn lemma_one_step(row: Seq<char>, p: int)
    requires
        step_at(row, p),
    ensures
        steps_in(row) >= 1,
    decreases row.len(),
{
    if p < row.len() - 1 {
        lemma_one_step(row.drop_last(), p);
    }
}

fn first_step_panel(row: &[char]) -> (p: usize)
    requires
        steps_in(row@) == 1,
    ensures
        p < row@.len(),
        p as int == single_step_panel(row@),
{
    let mut i: usize = 0;
    while i < row.len()
        invariant
            i <= row@.len(),
            steps_in(row@) == 1,
            forall|j: int| 0 <= j < i ==> !is_step(#[trigger] row@[j]),
        decreases row@.len() - i,
    {
        if row[i] == '1' || row[i] == '2' {
            proof {
                lemma_single_step(row@, i as int);
            }
            return i;
        }
        i = i + 1;
    }
    proof {
        lemma_no_steps(row@);
    }
    0
}

proof fn lemma_no_steps(row: Seq<char>)
    requires
        forall|j: int| 0 <= j < row.len() ==> !is_step(#[trigger] row[j]),
    ensures
        steps_in(row) == 0,
    decreases row.len(),
{
    if row.len() > 0 {
        assert forall|j: int| 0 <= j < row.drop_last().len() implies !is_step(
            #[trigger] row.drop_last()[j],
        ) by {
            assert(row.drop_last()[j] == row[j]);
        }
        lemma_no_steps(row.drop_last());
        assert(!is_step(row[row.len() - 1]));
    }
}

pub(crate) fn steps_in_exec(row: &[char]) -> (n: usize)
    ensures
        n == steps_in(row@),
{
    let mut a: usize = 0;
    let mut b: usize = 0;
    let mut i: usize = 0;
    while i < row.len()
        invariant
            i <= row@.len(),
            a == count_of(row@.take(i as int), '1'),
            b == count_of(row@.take(i as int), '2'),
            a + b <= i,
        decreases row@.len() - i,
    {
        proof {
            assert(row@.take(i + 1).drop_last() =~= row@.take(i as int));
            assert(row@.take(i + 1).last() == row@[i as int]);
        }
        if row[i] == '1' {
            a = a + 1;
        } else if row[i] == '2' {
            b = b + 1;
        }
        i = i + 1;
    }
    proof {
        assert(row@.take(row@.len() as int) =~= row@);
    }
    a + b
}

/// The panels of single-step rows, in order.
pub fn single_step_panels_of(rows: &Vec<Vec<char>>) -> (ps: Vec<usize>)
    ensures
        ps@.map_values(|p: usize| p as int) == single_step_panels(views(rows@)),
        ps@.len() <= rows@.len(),
{
    let ghost rv = views(rows@);
    let mut ps: Vec<usize> = Vec::new();
    let mut i: usize = 0;
    while i < rows.len()
        invariant
            i <= rows@.len(),
            rv == views(rows@),
            ps@.map_values(|p: usize| p as int) == single_step_panels(rv.take(i as int)),
            ps@.len() <= i,
        decreases rows@.len() - i,
    {
        proof {
            assert(rv.take(i + 1).drop_last() =~= rv.take(i as int));
            assert(rv.take(i + 1).last() == rows@[i as int]@);
        }
        let row = rows[i].as_slice();
        if steps_in_exec(row) == 1 {
            let p = first_step_panel(row);
            let ghost before = ps@;
            ps.push(p);
            proof {
                assert(ps@.map_values(|p: usize| p as int) =~= before.map_values(|p: usize| p as int).push(
                    p as int,
                ));
            }
        }
        i = i + 1;
    }
    proof {
        assert(rv.take(rows@.len() as int) =~= rv);
    }
    ps
}

/// Twist candidates among consecutive single steps, and how many triples of
/// single steps there are.
pub fn twist_counts(rows: &Vec<Vec<char>>) -> (r: (usize, usize))
    ensures
        r.0 == twist_triples(single_step_panels(views(rows@))),
        r.1 == if single_step_panels(views(rows@)).len() >= 2 {
            (single_step_panels(views(rows@)).len() - 2) as nat
        } else {
            0nat
        },
{
    let ps = single_step_panels_of(rows);
    let ghost s = ps@.map_values(|p: usize| p as int);
    let mut twists: usize = 0;
    let mut triplets: usize = 0;
    let mut idx: usize = 2;
    if ps.len() < 2 {
        assert(twist_triples(s) == 0);
        return (0, 0);
    }
    proof {
        assert(s.take(2).len() < 3);
    }
    while idx < ps.len()
        invariant
            2 <= idx <= ps@.len(),
            s == ps@.map_values(|p: usize| p as int),
            twists == twist_triples(s.take(idx as int)),
            twists <= idx,
            triplets == idx - 2,
        decreases ps@.len() - idx,
    {
        let a = ps[idx - 2];
        let b = ps[idx - 1];
        let c = ps[idx];
        let t = ((a == 0 || a == 1) && b == 2 && (c == 3 || c == 4)) || ((a == 3 || a == 4) && b == 2
            && (c == 0 || c == 1));
        proof {
            let k = s.take(idx + 1);
            assert(k.drop_last() =~= s.take(idx as int));
            assert(k[k.len() - 3] == a as int && k[k.len() - 2] == b as int && k.last() == c as int);
        }
        if t {
            twists = twists + 1;
        }
        triplets = triplets + 1;
        idx = idx + 1;
    }
    proof {
        assert(s.take(ps@.len() as int) =~= s);
    }
    (twists, triplets)
}

/// All rows of the measures, in order.
pub open spec fn flat_rows(ms: Seq<Seq<Seq<char>>>) -> Seq<Seq<char>>
    decreases ms.len(),
{
    if ms.len() == 0 {
        Seq::empty()
    } else {
        flat_rows(ms.drop_last()) + ms.last()
    }
}

/// The rows of the measures as character vectors, in order.
pub fn flatten_rows(ms: &Vec<Vec<String>>, from: usize, to: usize) -> (rows: Vec<Vec<char>>)
    requires
        from <= to <= ms@.len(),
    ensures
        views(rows@) == flat_rows(measures_view(ms@).subrange(from as int, to as int)),
{
    let ghost mv = measures_view(ms@).subrange(from as int, to as int);
    let mut rows: Vec<Vec<char>> = Vec::new();
    let mut m: usize = from;
    proof {
        assert(mv.take(0) =~= Seq::<Seq<Seq<char>>>::empty());
    }
    while m < to
        invariant
            from <= m <= to <= ms@.len(),
            mv == measures_view(ms@).subrange(from as int, to as int),
            views(rows@) == flat_rows(mv.take(m - from)),
        decreases to - m,
    {
        let ghost before = views(rows@);
        let meas = &ms[m];
        let mut r: usize = 0;
        while r < meas.len()
            invariant
                r <= meas@.len(),
                views(rows@) == before + string_views(meas@).take(r as int),
            decreases meas@.len() - r,
        {
            let cs = chars_of(meas[r].as_str());
            let ghost b2 = views(rows@);
            rows.push(cs);
            proof {
                assert(views(rows@) =~= b2.push(cs@));
                assert(string_views(meas@).take(r + 1) =~= string_views(meas@).take(r as int).push(
                    meas@[r as int]@,
                ));
            }
            r = r + 1;
        }
        proof {
            assert(string_views(meas@).take(meas@.len() as int) =~= string_views(meas@));
            let k = mv.take(m - from + 1);
            assert(k.drop_last() =~= mv.take(m - from));
            assert(k.last() == string_views(meas@));
        }
        m = m + 1;
    }
    proof {
        assert(mv.take(to - from) =~= mv);
    }
    rows
}

/// A measure without an active row.
pub open spec fn empty_measure(m: Seq<Seq<char>>) -> bool {
    forall|i: int| 0 <= i < m.len() ==> !active_row(#[trigger] m[i])
}

pub open spec fn count_empty_measures(ms: Seq<Seq<Seq<char>>>) -> nat
    decreases ms.len(),
{
    if ms.len() == 0 {
        0
    } else {
        count_empty_measures(ms.drop_last()) + b2n(empty_measure(ms.last()))
    }
}

pub open spec fn empty_run(ms: Seq<Seq<Seq<char>>>) -> nat
    decreases ms.len(),
{
    if ms.len() == 0 {
        0
    } else if empty_measure(ms.last()) {
        empty_run(ms.drop_last()) + 1
    } else {
        0
    }
}

/// The longest run of consecutive empty measures.
pub open spec fn max_empty_run(ms: Seq<Seq<Seq<char>>>) -> nat
    decreases ms.len(),
{
    if ms.len() == 0 {
        0
    } else {
        let m = max_empty_run(ms.drop_last());
        let r = empty_run(ms);
        if r > m {
            r
        } else {
            m
        }
    }
}

fn measure_is_empty(m: &Vec<String>) -> (b: bool)
    ensures
        b == empty_measure(string_views(m@)),
{
    let mut i: usize = 0;
    while i < m.len()
        invariant
            i <= m@.len(),
            forall|j: int| 0 <= j < i ==> !active_row(#[trigger] string_views(m@)[j]),
        decreases m@.len() - i,
    {
        if is_active_row(m[i].as_str()) {
            assert(active_row(string_views(m@)[i as int]));
            return false;
        }
        i = i + 1;
    }
    true
}

/// How many measures are empty, and the longest run of them.
pub fn empty_measure_stats(ms: &Vec<Vec<String>>) -> (r: (usize, usize))
    ensures
        r.0 == count_empty_measures(measures_view(ms@)),
        r.1 == max_empty_run(measures_view(ms@)),
{
    let ghost mv = measures_view(ms@);
    let mut count: usize = 0;
    let mut cur: usize = 0;
    let mut best: usize = 0;
    let mut i: usize = 0;
    while i < ms.len()
        invariant
            i <= ms@.len(),
            mv == measures_view(ms@),
            count == count_empty_measures(mv.take(i as int)),
            cur == empty_run(mv.take(i as int)),
            best == max_empty_run(mv.take(i as int)),
            count <= i && cur <= i,
        decreases ms@.len() - i,
    {
        proof {
            assert(mv.take(i + 1).drop_last() =~= mv.take(i as int));
            assert(mv.take(i + 1).last() == string_views(ms@[i as int]@));
        }
        if measure_is_empty(&ms[i]) {
            count = count + 1;
            cur = cur + 1;
            if cur > best {
                best = cur;
            }
        } else {
            cur = 0;
        }
        i = i + 1;
    }
    proof {
        assert(mv.take(ms@.len() as int) =~= mv);
    }
    (count, best)
}


// ---------------------------------------------------------------------------
// Row lengths, windows and pattern signatures
// ---------------------------------------------------------------------------

/// The position of the first row whose UTF-8 length is not 5, measure by
/// measure.
pub open spec fn first_bad_row(ms: Seq<Seq<Seq<char>>>) -> Option<(int, int)>
    decreases ms.len(),
{
    if ms.len() == 0 {
        None
    } else {
        match first_bad_row(ms.drop_last()) {
            Some(p) => Some(p),
            None => match first_bad_in_measure(ms.last()) {
                Some(r) => Some((ms.len() - 1, r)),
                None => None,
            },
        }
    }
}

pub open spec fn first_bad_in_measure(m: Seq<Seq<char>>) -> Option<int>
    decreases m.len(),
{
    if m.len() == 0 {
        None
    } else {
        match first_bad_in_measure(m.drop_last()) {
            Some(r) => Some(r),
            None => if utf8_len(m.last()) != 5 {
                Some(m.len() - 1)
            } else {
                None
            },
        }
    }
}

proof fn lemma_bad_in_measure_extends(m: Seq<Seq<char>>, k: int)
    requires
        0 < k <= m.len(),
        first_bad_in_measure(m.take(k)) is Some,
    ensures
        first_bad_in_measure(m) == first_bad_in_measure(m.take(k)),
    decreases m.len() - k,
{
    if k < m.len() {
        assert(m.take(k + 1).drop_last() =~= m.take(k));
        lemma_bad_in_measure_extends(m, k + 1);
    } else {
        assert(m.take(k) =~= m);
    }
}

proof fn lemma_bad_row_extends(ms: Seq<Seq<Seq<char>>>, k: int)
    requires
        0 < k <= ms.len(),
        first_bad_row(ms.take(k)) is Some,
    ensures
        first_bad_row(ms) == first_bad_row(ms.take(k)),
    decreases ms.len() - k,
{
    if k < ms.len() {
        assert(ms.take(k + 1).drop_last() =~= ms.take(k));
        lemma_bad_row_extends(ms, k + 1);
    } else {
        assert(ms.take(k) =~= ms);
    }
}

/// The message for a chart left out because of a row's length.
pub open spec fn msg_bad_row_length(m: nat, r: nat, len: nat) -> Seq<char> {
    "Invalid row length at measure "@ + decimal(m) + ", row "@ + decimal(r) + ": expected 5, got "@
        + decimal(len)
}

/// The warning for a row whose length is not 5.
pub fn bad_row_length_message(m: usize, r: usize, len: u128) -> (s: String)
    ensures
        s@ == msg_bad_row_length(m as nat, r as nat, len as nat),
{
    let mut v: Vec<char> = Vec::new();
    push_str(&mut v, "Invalid row length at measure ");
    push_decimal(&mut v, m as u128);
    push_str(&mut v, ", row ");
    push_decimal(&mut v, r as u128);
    push_str(&mut v, ": expected 5, got ");
    push_decimal(&mut v, len);
    string_from_chars(v.as_slice())
}

/// The first row whose length in bytes is not 5, with that length.
pub fn find_bad_row_length(ms: &Vec<Vec<String>>) -> (r: Option<(usize, usize, u128)>)
    ensures
        match r {
            Some((m, k, len)) => first_bad_row(measures_view(ms@)) == Some((m as int, k as int))
                && m < ms@.len() && k < ms@[m as int]@.len() && len == utf8_len(
                ms@[m as int]@[k as int]@,
            ),
            None => first_bad_row(measures_view(ms@)) is None,
        },
{
    let ghost mv = measures_view(ms@);
    let mut m: usize = 0;
    while m < ms.len()
        invariant
            m <= ms@.len(),
            mv == measures_view(ms@),
            first_bad_row(mv.take(m as int)) is None,
        decreases ms@.len() - m,
    {
        let meas = &ms[m];
        let ghost mm = string_views(meas@);
        let mut k: usize = 0;
        while k < meas.len()
            invariant
                k <= meas@.len(),
                mm == string_views(meas@),
                m < ms@.len(),
                mv == measures_view(ms@),
                mv[m as int] == mm,
                first_bad_row(mv.take(m as int)) is None,
                first_bad_in_measure(mm.take(k as int)) is None,
            decreases meas@.len() - k,
        {
            let cs = chars_of(meas[k].as_str());
            let len = utf8_len_of(cs.as_slice());
            proof {
                assert(mm.take(k + 1).drop_last() =~= mm.take(k as int));
                assert(mm.take(k + 1).last() == cs@);
            }
            if len != 5 {
                proof {
                    lemma_bad_in_measure_extends(mm, k + 1);
                    assert(mv.take(m + 1).drop_last() =~= mv.take(m as int));
                    assert(mv.take(m + 1).last() == mm);
                    lemma_bad_row_extends(mv, m + 1);
                }
                return Some((m, k, len));
            }
            k = k + 1;
        }
        proof {
            assert(mm.take(meas@.len() as int) =~= mm);
            assert(mv.take(m + 1).drop_last() =~= mv.take(m as int));
            assert(mv.take(m + 1).last() == mm);
        }
        m = m + 1;
    }
    proof {
        assert(mv.take(ms@.len() as int) =~= mv);
    }
    None
}

pub open spec fn normalized_char(c: char) -> char {
    if c == '1' || c == '2' || c == '4' {
        '1'
    } else {
        '0'
    }
}

/// A row with every step, hold head or roll head as `1` and all else `0`.
pub open spec fn normalized_row(row: Seq<char>) -> Seq<char> {
    row.map_values(|c: char| normalized_char(c))
}

/// The normalized row of the left-right mirror image.
pub open spec fn mirrored_row(row: Seq<char>) -> Seq<char> {
    row.reverse().map_values(|c: char| normalized_char(c))
}

/// The normalized and mirrored rows of a window, each joined with `|`.
pub open spec fn pattern_texts(rows: Seq<Seq<char>>) -> (Seq<char>, Seq<char>) {
    (
        join_with(rows.map_values(|r: Seq<char>| normalized_row(r)), "|"@),
        join_with(rows.map_values(|r: Seq<char>| mirrored_row(r)), "|"@),
    )
}

fn normalize_row(row: &[char], mirror: bool) -> (s: String)
    ensures
        s@ == if mirror {
            mirrored_row(row@)
        } else {
            normalized_row(row@)
        },
{
    let mut v: Vec<char> = Vec::new();
    let n = row.len();
    let mut i: usize = 0;
    let ghost src = if mirror {
        row@.reverse()
    } else {
        row@
    };
    while i < n
        invariant
            i <= n == row@.len(),
            src == if mirror {
                row@.reverse()
            } else {
                row@
            },
            v@ == src.take(i as int).map_values(|c: char| normalized_char(c)),
        decreases n - i,
    {
        let c = if mirror {
            row[n - 1 - i]
        } else {
            row[i]
        };
        proof {
            assert(src[i as int] == c);
        }
        v.push(if c == '1' || c == '2' || c == '4' {
            '1'
        } else {
            '0'
        });
        i = i + 1;
        proof {
            assert(v@ =~= src.take(i as int).map_values(|c: char| normalized_char(c)));
        }
    }
    proof {
        assert(src.take(n as int) =~= src);
    }
    string_from_chars(v.as_slice())
}

/// The normalized and mirrored pattern texts of a window's rows.
pub fn window_pattern_texts(rows: &Vec<Vec<char>>) -> (r: (String, String))
    ensures
        (r.0@, r.1@) == pattern_texts(views(rows@)),
{
    let ghost rv = views(rows@);
    let mut norm: Vec<String> = Vec::new();
    let mut mirr: Vec<String> = Vec::new();
    let mut i: usize = 0;
    while i < rows.len()
        invariant
            i <= rows@.len(),
            rv == views(rows@),
            string_views(norm@) == rv.take(i as int).map_values(|r: Seq<char>| normalized_row(r)),
            string_views(mirr@) == rv.take(i as int).map_values(|r: Seq<char>| mirrored_row(r)),
        decreases rows@.len() - i,
    {
        let a = normalize_row(rows[i].as_slice(), false);
        let b = normalize_row(rows[i].as_slice(), true);
        let ghost (n0, m0) = (norm@, mirr@);
        norm.push(a);
        mirr.push(b);
        proof {
            assert(rv[i as int] == rows@[i as int]@);
            assert(string_views(norm@) =~= string_views(n0).push(a@));
            assert(string_views(mirr@) =~= string_views(m0).push(b@));
            assert(rv.take(i + 1).map_values(|r: Seq<char>| normalized_row(r)) =~= rv.take(
                i as int,
            ).map_values(|r: Seq<char>| normalized_row(r)).push(normalized_row(rv[i as int])));
            assert(rv.take(i + 1).map_values(|r: Seq<char>| mirrored_row(r)) =~= rv.take(
                i as int,
            ).map_values(|r: Seq<char>| mirrored_row(r)).push(mirrored_row(rv[i as int])));
        }
        i = i + 1;
    }
    proof {
        assert(rv.take(rows@.len() as int) =~= rv);
    }
    let mut x: Vec<char> = Vec::new();
    push_joined(&mut x, &norm, "|");
    let mut y: Vec<char> = Vec::new();
    push_joined(&mut y, &mirr, "|");
    assert(x@ =~= pattern_texts(rv).0);
    assert(y@ =~= pattern_texts(rv).1);
    (string_from_chars(x.as_slice()), string_from_chars(y.as_slice()))
}

/// `a` comes before `b` in code point order (the order of `String`s, since
/// UTF-8 keeps it).
pub open spec fn text_less(a: Seq<char>, b: Seq<char>) -> bool
    decreases a.len(),
{
    if a.len() == 0 {
        b.len() > 0
    } else if b.len() == 0 {
        false
    } else if a[0] != b[0] {
        (a[0] as int) < (b[0] as int)
    } else {
        text_less(a.drop_first(), b.drop_first())
    }
}

/// The smaller of two texts in string order.
pub fn smaller_text(a: &str, b: &str) -> (r: String)
    ensures
        r@ == if text_less(a@, b@) {
            a@
        } else {
            b@
        },
{
    let x = chars_of(a);
    let y = chars_of(b);
    let mut i: usize = 0;
    let mut less = false;
    let mut decided = false;
    assert(x@.skip(0) =~= x@);
    assert(y@.skip(0) =~= y@);
    while i < x.len() && i < y.len() && !decided
        invariant
            i <= x@.len() && i <= y@.len(),
            x@ == a@ && y@ == b@,
            !decided ==> (forall|j: int| 0 <= j < i ==> x@[j] == y@[j]),
            !decided ==> text_less(a@, b@) == text_less(x@.skip(i as int), y@.skip(i as int)),
            decided ==> less == text_less(a@, b@),
        decreases x@.len() - i, (if decided { 0int } else { 1int }),
    {
        proof {
            let xs = x@.skip(i as int);
            let ys = y@.skip(i as int);
            assert(xs[0] == x@[i as int] && ys[0] == y@[i as int]);
            assert(xs.drop_first() =~= x@.skip(i + 1));
            assert(ys.drop_first() =~= y@.skip(i + 1));
        }
        if x[i] != y[i] {
            less = x[i] < y[i];
            decided = true;
        } else {
            i = i + 1;
        }
    }
    if !decided {
        proof {
            let xs = x@.skip(i as int);
            let ys = y@.skip(i as int);
            assert(xs.len() == 0 || ys.len() == 0);
        }
        less = i < y.len();
    }
    if less {
        string_from_chars(x.as_slice())
    } else {
        string_from_chars(y.as_slice())
    }
}

/// How many different active rows there are.
pub open spec fn distinct_active_rows(rows: Seq<Seq<char>>) -> nat {
    rows.filter(|r: Seq<char>| active_row(r)).to_set().len()
}

fn contains_row(uniq: &Vec<Vec<char>>, row: &[char]) -> (b: bool)
    ensures
        b == views(uniq@).contains(row@),
{
    let mut i: usize = 0;
    while i < uniq.len()
        invariant
            i <= uniq@.len(),
            forall|j: int| 0 <= j < i ==> (#[trigger] uniq@[j])@ != row@,
        decreases uniq@.len() - i,
    {
        if crate::text::chars_equal(uniq[i].as_slice(), row) {
            assert(views(uniq@)[i as int] == row@);
            return true;
        }
        i = i + 1;
    }
    proof {
        if views(uniq@).contains(row@) {
            let j = choose|j: int| #![trigger views(uniq@)[j]] 0 <= j < views(uniq@).len() && views(uniq@)[j] == row@;
            assert(uniq@[j]@ == row@);
        }
    }
    false
}

/// The number of different active rows.
pub fn count_distinct_active_rows(rows: &Vec<Vec<char>>) -> (n: usize)
    ensures
        n == distinct_active_rows(views(rows@)),
{
    let ghost rv = views(rows@);
    let ghost act = |r: Seq<char>| active_row(r);
    let mut uniq: Vec<Vec<char>> = Vec::new();
    let mut i: usize = 0;
    proof {
        reveal(Seq::filter);
        assert(rv.take(0).filter(act) =~= Seq::<Seq<char>>::empty());
        assert(views(uniq@).to_set() =~= rv.take(0).filter(act).to_set());
    }
    while i < rows.len()
        invariant
            i <= rows@.len(),
            rv == views(rows@),
            act == (|r: Seq<char>| active_row(r)),
            views(uniq@).no_duplicates(),
            views(uniq@).to_set() == rv.take(i as int).filter(act).to_set(),
            uniq@.len() <= i,
        decreases rows@.len() - i,
    {
        let row = rows[i].as_slice();
        let ghost prev = rv.take(i as int).filter(act);
        proof {
            broadcast use vstd::seq_lib::group_seq_properties;
            reveal(Seq::filter);
            assert(act(row@) == active_row(row@));
            assert(rv.take(i + 1).drop_last() =~= rv.take(i as int));
            assert(rv.take(i + 1).last() == row@);
        }
        if row_is_active(row) {
            if !contains_row(&uniq, row) {
                let ghost before = views(uniq@);
                let v = slice_chars(row, 0, row.len());
                assert(v@ =~= row@);
                uniq.push(v);
                proof {
                    broadcast use vstd::seq_lib::group_seq_properties;
                    assert(views(uniq@) =~= before.push(row@));
                    assert(views(uniq@).to_set() =~= before.to_set().insert(row@));
                }
            } else {
                proof {
                    assert(views(uniq@).to_set().contains(row@));
                }
            }
            proof {
                broadcast use vstd::seq_lib::group_seq_properties;
                reveal(Seq::filter);
                assert(rv.take(i + 1).filter(act) == prev.push(row@));
                assert(prev.push(row@).to_set() =~= prev.to_set().insert(row@));
                assert(views(uniq@).to_set() =~= rv.take(i + 1).filter(act).to_set());
            }
        } else {
            proof {
                reveal(Seq::filter);
                assert(rv.take(i + 1).filter(act) == prev);
            }
        }
        i = i + 1;
    }
    proof {
        assert(rv.take(rows@.len() as int) =~= rv);
        views(uniq@).unique_seq_to_set();
    }
    uniq.len()
}


// ---------------------------------------------------------------------------
// Chart and window counts
// ---------------------------------------------------------------------------

/// Every row of the measures has at most five characters.
pub open spec fn rows_fit_panels(ms: Seq<Seq<Seq<char>>>) -> bool {
    forall|m: int, r: int| 0 <= m < ms.len() && 0 <= r < ms[m].len() ==> (#[trigger] ms[m][r]).len() <= 5
}

proof fn lemma_flat_rows_fit(ms: Seq<Seq<Seq<char>>>)
    requires
        rows_fit_panels(ms),
    ensures
        forall|i: int| 0 <= i < flat_rows(ms).len() ==> (#[trigger] flat_rows(ms)[i]).len() <= 5,
    decreases ms.len(),
{
    if ms.len() > 0 {
        let d = ms.drop_last();
        assert(rows_fit_panels(d)) by {
            assert forall|m: int, r: int| 0 <= m < d.len() && 0 <= r < d[m].len() implies (
            #[trigger] d[m][r]).len() <= 5 by {
                assert(d[m] == ms[m]);
            }
        }
        lemma_flat_rows_fit(d);
        let f = flat_rows(ms);
        assert forall|i: int| 0 <= i < f.len() implies (#[trigger] f[i]).len() <= 5 by {
            if i < flat_rows(d).len() {
                assert(f[i] == flat_rows(d)[i]);
            } else {
                let r = i - flat_rows(d).len();
                assert(f[i] == ms[ms.len() - 1][r]);
            }
        }
    }
}

proof fn lemma_flat_rows_concat(x: Seq<Seq<Seq<char>>>, y: Seq<Seq<Seq<char>>>)
    ensures
        flat_rows(x + y) == flat_rows(x) + flat_rows(y),
    decreases y.len(),
{
    if y.len() == 0 {
        assert(x + y =~= x);
        assert(flat_rows(x) + flat_rows(y) =~= flat_rows(x));
    } else {
        assert((x + y).drop_last() =~= x + y.drop_last());
        lemma_flat_rows_concat(x, y.drop_last());
        assert(flat_rows(x + y) =~= flat_rows(x) + flat_rows(y));
    }
}

proof fn lemma_window_fits(ms: Seq<Seq<Seq<char>>>, a: int, b: int)
    requires
        0 <= a <= b <= ms.len(),
        rows_fit_panels(ms),
    ensures
        flat_rows(ms.subrange(a, b)).len() <= flat_rows(ms).len(),
        forall|i: int| 0 <= i < flat_rows(ms.subrange(a, b)).len() ==> (#[trigger] flat_rows(
            ms.subrange(a, b),
        )[i]).len() <= 5,
{
    let sub = ms.subrange(a, b);
    assert(ms =~= ms.take(a) + sub + ms.skip(b));
    lemma_flat_rows_concat(ms.take(a) + sub, ms.skip(b));
    lemma_flat_rows_concat(ms.take(a), sub);
    assert(rows_fit_panels(sub)) by {
        assert forall|m: int, r: int| 0 <= m < sub.len() && 0 <= r < sub[m].len() implies (
        #[trigger] sub[m][r]).len() <= 5 by {
            assert(sub[m] == ms[a + m]);
        }
    }
    lemma_flat_rows_fit(sub);
}

/// The integer features of one chart.
#[derive(Debug, Clone, Copy)]
pub struct ChartCounts {
    pub measure_count: usize,
    pub rows: RowCounts,
    pub max_consecutive_active_rows: usize,
    pub empty_measure_count: usize,
    pub max_consecutive_empty_measures: usize,
    pub twist_candidates: usize,
    pub total_triplets: usize,
}

/// The integer features of one chart, from its measures of rows (each of at
/// most five characters).
pub fn chart_counts(ms: &Vec<Vec<String>>) -> (c: ChartCounts)
    requires
        rows_fit_panels(measures_view(ms@)),
        flat_rows(measures_view(ms@)).len() <= usize::MAX / 5,
    ensures
        c.measure_count == ms@.len(),
        counts_view(c.rows) == row_tally(flat_rows(measures_view(ms@))),
        c.max_consecutive_active_rows == max_active_run(flat_rows(measures_view(ms@))),
        c.empty_measure_count == count_empty_measures(measures_view(ms@)),
        c.max_consecutive_empty_measures == max_empty_run(measures_view(ms@)),
        c.twist_candidates == twist_triples(single_step_panels(flat_rows(measures_view(ms@)))),
        c.total_triplets == if single_step_panels(flat_rows(measures_view(ms@))).len() >= 2 {
            (single_step_panels(flat_rows(measures_view(ms@))).len() - 2) as nat
        } else {
            0nat
        },
{
    let ghost mv = measures_view(ms@);
    let all = flatten_rows(ms, 0, ms.len());
    proof {
        assert(mv.subrange(0, ms@.len() as int) =~= mv);
        lemma_flat_rows_fit(mv);
        assert forall|i: int| 0 <= i < all@.len() implies (#[trigger] all@[i])@.len() <= 5 by {
            assert(views(all@)[i] == all@[i]@);
        }
    }
    let rows = count_rows(&all);
    let run = max_consecutive_active_rows(&all);
    let (empty, empty_run) = empty_measure_stats(ms);
    let (twists, triplets) = twist_counts(&all);
    ChartCounts {
        measure_count: ms.len(),
        rows,
        max_consecutive_active_rows: run,
        empty_measure_count: empty,
        max_consecutive_empty_measures: empty_run,
        twist_candidates: twists,
        total_triplets: triplets,
    }
}

/// The features of one four-measure window.
#[derive(Debug, Clone)]
pub struct WindowCounts {
    pub start_measure: usize,
    pub end_measure: usize,
    pub rows: RowCounts,
    pub twist_candidates: usize,
    pub total_triplets: usize,
    pub distinct_active_rows: usize,
    pub normalized_text: String,
    pub mirrored_text: String,
}

/// The rows of window `k`: measures `4k` to `4k + 3`.
pub open spec fn window_rows(ms: Seq<Seq<Seq<char>>>, k: int) -> Seq<Seq<char>> {
    flat_rows(ms.subrange(4 * k, 4 * k + 4))
}

/// The features of window `k` of a chart.
pub fn window_counts(ms: &Vec<Vec<String>>, k: usize) -> (w: WindowCounts)
    requires
        4 * k + 4 <= ms@.len(),
        rows_fit_panels(measures_view(ms@)),
        flat_rows(measures_view(ms@)).len() <= usize::MAX / 5,
    ensures
        w.start_measure == 4 * k,
        w.end_measure == 4 * k + 3,
        counts_view(w.rows) == row_tally(window_rows(measures_view(ms@), k as int)),
        w.twist_candidates == twist_triples(single_step_panels(window_rows(measures_view(ms@), k as int))),
        w.total_triplets == if single_step_panels(window_rows(measures_view(ms@), k as int)).len() >= 2 {
            (single_step_panels(window_rows(measures_view(ms@), k as int)).len() - 2) as nat
        } else {
            0nat
        },
        w.distinct_active_rows == distinct_active_rows(window_rows(measures_view(ms@), k as int)),
        (w.normalized_text@, w.mirrored_text@) == pattern_texts(window_rows(measures_view(ms@), k as int)),
{
    let ghost mv = measures_view(ms@);
    let n = ms.len();
    assert(4 * k + 4 <= n);
    let start = 4 * k;
    let rows = flatten_rows(ms, start, start + 4);
    proof {
        lemma_window_fits(mv, start as int, start + 4);
        assert forall|i: int| 0 <= i < rows@.len() implies (#[trigger] rows@[i])@.len() <= 5 by {
            assert(views(rows@)[i] == rows@[i]@);
        }
    }
    let counts = count_rows(&rows);
    let (twists, triplets) = twist_counts(&rows);
    let distinct = count_distinct_active_rows(&rows);
    let (norm, mirr) = window_pattern_texts(&rows);
    WindowCounts {
        start_measure: start,
        end_measure: start + 3,
        rows: counts,
        twist_candidates: twists,
        total_triplets: triplets,
        distinct_active_rows: distinct,
        normalized_text: norm,
        mirrored_text: mirr,
    }
}

/// The mirror-invariant signature of a window: the smaller of the hashes
/// of its normalized and mirrored pattern texts.
pub fn mirror_invariant_signature(normalized_text: &str, mirrored_text: &str) -> (r: (String, String))
    ensures
        r.0@ == hex_text(sha256_text_of(normalized_text@).take(8)),
        r.1@ == window_signature((normalized_text@, mirrored_text@)),
{
    let h1 = compute_hash(normalized_text);
    let h2 = compute_hash(mirrored_text);
    let m = smaller_text(h1.as_str(), h2.as_str());
    (h1, m)
}


// ---------------------------------------------------------------------------
// Stream and flag metrics
// ---------------------------------------------------------------------------

/// A chart's longest run of active rows and its stream windows.
#[derive(Debug, Clone, Copy)]
pub struct StreamMetrics {
    pub max_consecutive_active_rows: usize,
    pub estimated_stream_windows: usize,
}

/// What makes a chart unusual: mines, unknown note characters, timing
/// gimmicks.
#[derive(Debug, Clone, Copy)]
pub struct FlagMetrics {
    pub has_mines: bool,
    pub has_unsupported_rows: bool,
    pub has_timing_gimmicks: bool,
}

/// How many of the first `n` four-measure windows hold at least 24 active
/// rows.
pub open spec fn stream_window_count(ms: Seq<Seq<Seq<char>>>, n: int) -> nat
    decreases n,
{
    if n <= 0 {
        0
    } else {
        stream_window_count(ms, n - 1) + b2n(row_tally(window_rows(ms, n - 1)).active_rows >= 24)
    }
}

/// The longest run of active rows, and how many whole four-measure windows
/// hold at least 24 active rows.
pub fn stream_metrics(ms: &Vec<Vec<String>>) -> (s: StreamMetrics)
    requires
        rows_fit_panels(measures_view(ms@)),
        flat_rows(measures_view(ms@)).len() <= usize::MAX / 5,
    ensures
        s.max_consecutive_active_rows == max_active_run(flat_rows(measures_view(ms@))),
        s.estimated_stream_windows == stream_window_count(measures_view(ms@), (ms@.len() / 4) as int),
{
    let c = chart_counts(ms);
    let windows = ms.len() / 4;
    let mut streams: usize = 0;
    let mut k: usize = 0;
    while k < windows
        invariant
            k <= windows == ms@.len() / 4,
            rows_fit_panels(measures_view(ms@)),
            flat_rows(measures_view(ms@)).len() <= usize::MAX / 5,
            streams == stream_window_count(measures_view(ms@), k as int),
            streams <= k,
        decreases windows - k,
    {
        let w = window_counts(ms, k);
        if w.rows.active_row_count >= 24 {
            streams = streams + 1;
        }
        k = k + 1;
    }
    StreamMetrics {
        max_consecutive_active_rows: c.max_consecutive_active_rows,
        estimated_stream_windows: streams,
    }
}

/// Whether a global timing tag holds gimmick content.
pub open spec fn tag_gimmick(tags: Seq<SscTag>, key: Seq<char>) -> bool {
    match first_tag_value(tags, key) {
        Some(v) => gimmick_content(v),
        None => false,
    }
}

/// Stops, delays, warps, speeds, scrolls or fakes in the song's tags, or
/// more than one BPM.
pub open spec fn timing_gimmicks(tags: Seq<SscTag>, bpm_count: nat) -> bool {
    tag_gimmick(tags, "STOPS"@) || tag_gimmick(tags, "DELAYS"@) || tag_gimmick(tags, "WARPS"@)
        || tag_gimmick(tags, "SPEEDS"@) || tag_gimmick(tags, "SCROLLS"@) || tag_gimmick(tags, "FAKES"@)
        || bpm_count > 1
}

fn has_tag_gimmick(tags: &Vec<SscTag>, key: &str) -> (b: bool)
    ensures
        b == tag_gimmick(tags@, key@),
{
    match get_tag_value(tags, key) {
        Some(v) => has_gimmick_content(v.as_str()),
        None => false,
    }
}

/// A chart's flags: mines and unknown note characters from its rows, timing
/// gimmicks from the song's global tags and its number of BPM entries.
pub fn flag_metrics(ms: &Vec<Vec<String>>, global_tags: &Vec<SscTag>, bpm_count: usize) -> (f: FlagMetrics)
    requires
        rows_fit_panels(measures_view(ms@)),
        flat_rows(measures_view(ms@)).len() <= usize::MAX / 5,
    ensures
        f.has_mines == row_tally(flat_rows(measures_view(ms@))).has_mines,
        f.has_unsupported_rows == row_tally(flat_rows(measures_view(ms@))).has_unsupported,
        f.has_timing_gimmicks == timing_gimmicks(global_tags@, bpm_count as nat),
{
    let c = chart_counts(ms);
    let gimmicks = has_tag_gimmick(global_tags, "STOPS") || has_tag_gimmick(global_tags, "DELAYS")
        || has_tag_gimmick(global_tags, "WARPS") || has_tag_gimmick(global_tags, "SPEEDS")
        || has_tag_gimmick(global_tags, "SCROLLS") || has_tag_gimmick(global_tags, "FAKES")
        || bpm_count > 1;
    FlagMetrics {
        has_mines: c.rows.has_mines,
        has_unsupported_rows: c.rows.has_unsupported_rows,
        has_timing_gimmicks: gimmicks,
    }
}


// ---------------------------------------------------------------------------
// Mirror invariance
// ---------------------------------------------------------------------------

/// The left-right mirror image of a window: each row reversed.
pub open spec fn mirrored_window(rows: Seq<Seq<char>>) -> Seq<Seq<char>> {
    rows.map_values(|r: Seq<char>| r.reverse())
}

/// The smaller of two texts in string order.
pub open spec fn smaller_of(a: Seq<char>, b: Seq<char>) -> Seq<char> {
    if text_less(a, b) {
        a
    } else {
        b
    }
}

/// The signature of a window from its pattern texts.
pub open spec fn window_signature(texts: (Seq<char>, Seq<char>)) -> Seq<char> {
    smaller_of(
        hex_text(sha256_text_of(texts.0).take(8)),
        hex_text(sha256_text_of(texts.1).take(8)),
    )
}

proof fn lemma_text_less_order(a: Seq<char>, b: Seq<char>)
    ensures
        !(text_less(a, b) && text_less(b, a)),
        a != b ==> text_less(a, b) || text_less(b, a),
    decreases a.len(),
{
    if a.len() > 0 && b.len() > 0 && a[0] == b[0] {
        lemma_text_less_order(a.drop_first(), b.drop_first());
        if a != b {
            assert(a.drop_first() != b.drop_first()) by {
                if a.drop_first() == b.drop_first() {
                    assert(a =~= seq![a[0]] + a.drop_first());
                    assert(b =~= seq![b[0]] + b.drop_first());
                }
            }
        }
    } else if a.len() == 0 && b.len() == 0 {
        assert(a =~= b);
    } else if a.len() > 0 && b.len() > 0 {
        assert((a[0] as int) != (b[0] as int));
    }
}

/// The smaller of two texts does not depend on their order.
proof fn lemma_smaller_of_symmetric(a: Seq<char>, b: Seq<char>)
    ensures
        smaller_of(a, b) == smaller_of(b, a),
{
    lemma_text_less_order(a, b);
}

/// Mirroring a window swaps its normalized and mirrored pattern texts, so
/// a window and its mirror image have the same signature.
pub proof fn lemma_signature_mirror_invariant(rows: Seq<Seq<char>>)
    ensures
        pattern_texts(mirrored_window(rows)) == (pattern_texts(rows).1, pattern_texts(rows).0),
        window_signature(pattern_texts(mirrored_window(rows))) == window_signature(pattern_texts(rows)),
{
    let m = mirrored_window(rows);
    assert(m.map_values(|r: Seq<char>| normalized_row(r)) =~= rows.map_values(
        |r: Seq<char>| mirrored_row(r),
    ));
    assert forall|i: int| 0 <= i < rows.len() implies mirrored_row(#[trigger] m[i]) == normalized_row(rows[i]) by {
        assert(m[i].reverse() =~= rows[i]);
    }
    assert(m.map_values(|r: Seq<char>| mirrored_row(r)) =~= rows.map_values(
        |r: Seq<char>| normalized_row(r),
    ));
    let t = pattern_texts(rows);
    lemma_smaller_of_symmetric(
        hex_text(sha256_text_of(t.0).take(8)),
        hex_text(sha256_text_of(t.1).take(8)),
    );
}


// ---------------------------------------------------------------------------
// Catalog entries
// ---------------------------------------------------------------------------

/// A chart's entry in the corpus catalog.
#[derive(Debug, Clone)]
pub struct ChartCatalogInfo {
    pub chart_id: String,
    pub stepstype: String,
    pub mode: String,
    pub meter: u32,
    pub description: String,
    pub credit: String,
    pub stepmaker_candidate: String,
    pub measure_count: usize,
    pub is_excluded: bool,
    pub exclusion_reason: Option<String>,
}

/// A tag's value, empty when the chart does not have the tag.
pub open spec fn tag_or_empty(tags: Seq<SscTag>, k: Seq<char>) -> Seq<char> {
    match first_tag_value(tags, k) {
        Some(v) => v,
        None => Seq::empty(),
    }
}

/// The chart's meter, when its `METER` tag reads as a number.
pub open spec fn chart_meter(tags: Seq<SscTag>) -> Option<u32> {
    parse_u32_text(trim(tag_or_empty(tags, "METER"@)))
}

pub open spec fn chart_mode(stepstype: Seq<char>) -> Seq<char> {
    if stepstype == "pump-single"@ {
        "Single"@
    } else if stepstype == "pump-double"@ {
        "Double"@
    } else {
        "Other"@
    }
}

/// What a chart's id is the hash of: song, steps type, description and
/// meter (0 when it has none), joined with `:`.
pub open spec fn chart_id_text(song_id: Seq<char>, tags: Seq<SscTag>) -> Seq<char> {
    song_id + ":"@ + tag_or_empty(tags, "STEPSTYPE"@) + ":"@ + tag_or_empty(tags, "DESCRIPTION"@)
        + ":"@ + decimal(
        match chart_meter(tags) {
            Some(m) => m as nat,
            None => 0,
        },
    )
}

/// The measures a chart was found to have, and why it is left out, if it
/// is: its metadata, a notes block without measures, or a row of the wrong
/// length.
pub open spec fn catalog_outcome(tags: Seq<SscTag>, notes_raw: Seq<char>) -> (nat, Option<Seq<char>>) {
    match chart_exclusion(tag_or_empty(tags, "STEPSTYPE"@), chart_meter(tags), tags) {
        Some(e) => (0, Some(e)),
        None => {
            let ms = notes_block_measures(notes_raw);
            if ms.len() == 0 {
                (0, Some("Parsing notes block failed: "@ + "No measures found in notes block"@))
            } else {
                match first_bad_row(ms) {
                    Some((m, k)) => (
                        ms.len(),
                        Some(msg_bad_row_length(m as nat, k as nat, utf8_len(ms[m][k]))),
                    ),
                    None => (ms.len(), None),
                }
            }
        },
    }
}

fn tag_value_or_empty(tags: &Vec<SscTag>, key: &str) -> (v: String)
    ensures
        v@ == tag_or_empty(tags@, key@),
{
    match get_tag_value(tags, key) {
        Some(v) => v,
        None => String::new(),
    }
}

/// A chart's catalog entry from its song's id, its tags and its notes.
pub fn catalog_chart_info(song_id: &str, chart_tags: &Vec<SscTag>, notes_raw: &str) -> (c: ChartCatalogInfo)
    ensures
        c.stepstype@ == tag_or_empty(chart_tags@, "STEPSTYPE"@),
        c.credit@ == tag_or_empty(chart_tags@, "CREDIT"@),
        c.description@ == tag_or_empty(chart_tags@, "DESCRIPTION"@),
        c.mode@ == chart_mode(c.stepstype@),
        c.meter == match chart_meter(chart_tags@) {
            Some(m) => m,
            None => 0,
        },
        c.chart_id@ == hex_text(sha256_text_of(chart_id_text(song_id@, chart_tags@))),
        c.stepmaker_candidate@.len() == 0,
        c.measure_count == catalog_outcome(chart_tags@, notes_raw@).0,
        c.exclusion_reason is Some == c.is_excluded,
        match catalog_outcome(chart_tags@, notes_raw@).1 {
            Some(e) => c.exclusion_reason is Some && c.exclusion_reason->0@ == e,
            None => c.exclusion_reason is None,
        },
{
    let stepstype = tag_value_or_empty(chart_tags, "STEPSTYPE");
    let credit = tag_value_or_empty(chart_tags, "CREDIT");
    let description = tag_value_or_empty(chart_tags, "DESCRIPTION");
    let meter_text = tag_value_or_empty(chart_tags, "METER");
    let meter_chars = trim_chars(chars_of(meter_text.as_str()).as_slice());
    let meter = crate::commands::parse_u32(meter_chars.as_slice());
    let sc = chars_of(stepstype.as_str());
    let mode = if chars_are(sc.as_slice(), "pump-single") {
        String::from_str("Single")
    } else if chars_are(sc.as_slice(), "pump-double") {
        String::from_str("Double")
    } else {
        String::from_str("Other")
    };
    let meter_value: u32 = match meter {
        Some(m) => m,
        None => 0,
    };
    let mut key: Vec<char> = Vec::new();
    push_str(&mut key, song_id);
    push_str(&mut key, ":");
    push_all(&mut key, sc.as_slice());
    push_str(&mut key, ":");
    push_str(&mut key, description.as_str());
    push_str(&mut key, ":");
    push_decimal(&mut key, meter_value as u128);
    let key_text = string_from_chars(key.as_slice());
    let chart_id = compute_sha256_hex(key_text.as_str());
    let mut measure_count: usize = 0;
    let reason = match classify_chart_exclusion(stepstype.as_str(), meter, chart_tags) {
        Some(e) => Some(e),
        None => match parse_notes_block(notes_raw) {
            Err(e) => {
                let mut v: Vec<char> = Vec::new();
                push_str(&mut v, "Parsing notes block failed: ");
                push_str(&mut v, e.as_str());
                Some(string_from_chars(v.as_slice()))
            },
            Ok(measures) => {
                measure_count = measures.len();
                match find_bad_row_length(&measures) {
                    Some((m, k, len)) => {
                        proof {
                            assert(measures_view(measures@)[m as int][k as int] == measures@[m as int]@[k as int]@);
                        }
                        Some(bad_row_length_message(m, k, len))
                    },
                    None => None,
                }
            },
        },
    };
    ChartCatalogInfo {
        chart_id,
        stepstype,
        mode,
        meter: meter_value,
        description,
        credit,
        stepmaker_candidate: String::new(),
        measure_count,
        is_excluded: reason.is_some(),
        exclusion_reason: reason,
    }
}

// ---------------------------------------------------------------------------
// Command line
// ---------------------------------------------------------------------------

/// The factory's options as read so far from its command line.
pub struct FactoryOptions {
    pub corpus_root: Option<Seq<char>>,
    pub output_root: Option<Seq<char>>,
    pub mode: Option<Seq<char>>,
    pub pretty: bool,
    pub limit_songs: Option<usize>,
    pub pack_filter: Option<Seq<char>>,
    pub fail_fast: bool,
}

pub open spec fn no_factory_options() -> FactoryOptions {
    FactoryOptions {
        corpus_root: None,
        output_root: None,
        mode: None,
        pretty: false,
        limit_songs: None,
        pack_filter: None,
        fail_fast: false,
    }
}

/// Where reading a command line ends: at a request for help, at an error,
/// or at the end of the arguments with the options read.
pub enum ArgScan<T> {
    Help,
    Failed(Seq<char>),
    Read(T),
}

/// Reads the factory's arguments from index `i` on, left to right: each
/// flag that takes a value consumes the next argument.
pub open spec fn factory_scan(args: Seq<Seq<char>>, i: int, o: FactoryOptions) -> ArgScan<FactoryOptions>
    decreases args.len() - i,
{
    if i < 0 || i >= args.len() {
        ArgScan::Read(o)
    } else {
        let a = args[i];
        let has_value = i + 1 < args.len();
        if a == "--help"@ || a == "-h"@ {
            ArgScan::Help
        } else if a == "--corpus-root"@ {
            if has_value {
                factory_scan(args, i + 2, FactoryOptions { corpus_root: Some(args[i + 1]), ..o })
            } else {
                ArgScan::Failed("Missing value for --corpus-root"@)
            }
        } else if a == "--output-root"@ {
            if has_value {
                factory_scan(args, i + 2, FactoryOptions { output_root: Some(args[i + 1]), ..o })
            } else {
                ArgScan::Failed("Missing value for --output-root"@)
            }
        } else if a == "--mode"@ {
            if has_value {
                factory_scan(args, i + 2, FactoryOptions { mode: Some(args[i + 1]), ..o })
            } else {
                ArgScan::Failed("Missing value for --mode"@)
            }
        } else if a == "--pretty"@ {
            factory_scan(args, i + 1, FactoryOptions { pretty: true, ..o })
        } else if a == "--limit-songs"@ {
            if !has_value {
                ArgScan::Failed("Missing value for --limit-songs"@)
            } else if parse_usize_text(args[i + 1]) is None {
                ArgScan::Failed("Invalid number for --limit-songs"@)
            } else {
                factory_scan(
                    args,
                    i + 2,
                    FactoryOptions { limit_songs: parse_usize_text(args[i + 1]), ..o },
                )
            }
        } else if a == "--pack-filter"@ {
            if has_value {
                factory_scan(args, i + 2, FactoryOptions { pack_filter: Some(args[i + 1]), ..o })
            } else {
                ArgScan::Failed("Missing value for --pack-filter"@)
            }
        } else if a == "--fail-fast"@ {
            factory_scan(args, i + 1, FactoryOptions { fail_fast: true, ..o })
        } else {
            ArgScan::Failed("Unknown argument: "@ + a)
        }
    }
}

/// What the factory makes of its command line (`args[0]` is the program):
/// `Ok(None)` for help, `Ok(Some(options))` when the corpus root, the output
/// root and the mode `single-v0` are given, else the first error.
pub open spec fn factory_command(args: Seq<Seq<char>>) -> Result<Option<FactoryOptions>, Seq<char>> {
    match factory_scan(args, 1, no_factory_options()) {
        ArgScan::Help => Ok(None),
        ArgScan::Failed(e) => Err(e),
        ArgScan::Read(o) => {
            if o.corpus_root is None {
                Err("Missing required flag: --corpus-root. Run with --help for details."@)
            } else if o.output_root is None {
                Err("Missing required flag: --output-root. Run with --help for details."@)
            } else if o.mode is None {
                Err("Missing required flag: --mode. Run with --help for details."@)
            } else if o.mode->0 != "single-v0"@ {
                Err("Unsupported mode: "@ + o.mode->0 + ". Only 'single-v0' is supported."@)
            } else {
                Ok(Some(o))
            }
        },
    }
}

/// The factory's settings.
#[derive(Debug, Clone)]
pub struct AppArgs {
    pub corpus_root: String,
    pub output_root: String,
    pub mode: String,
    pub pretty: bool,
    pub limit_songs: Option<usize>,
    pub pack_filter: Option<String>,
    pub fail_fast: bool,
}

/// A command line asks for help or for a run with its settings.
#[derive(Debug, Clone)]
pub enum FactoryCommand {
    Help,
    Run(AppArgs),
}

pub open spec fn factory_command_view(r: Result<FactoryCommand, String>) -> Result<Option<FactoryOptions>, Seq<char>> {
    match r {
        Ok(FactoryCommand::Help) => Ok(None),
        Ok(FactoryCommand::Run(a)) => Ok(
            Some(
                FactoryOptions {
                    corpus_root: Some(a.corpus_root@),
                    output_root: Some(a.output_root@),
                    mode: Some(a.mode@),
                    pretty: a.pretty,
                    limit_songs: a.limit_songs,
                    pack_filter: opt_string_view(a.pack_filter),
                    fail_fast: a.fail_fast,
                },
            ),
        ),
        Err(e) => Err(e@),
    }
}

pub(crate) fn message_with(prefix: &str, middle: &[char], suffix: &str) -> (s: String)
    ensures
        s@ == prefix@ + middle@ + suffix@,
{
    let mut v: Vec<char> = Vec::new();
    push_str(&mut v, prefix);
    push_all(&mut v, middle);
    push_str(&mut v, suffix);
    string_from_chars(v.as_slice())
}

fn err_text(msg: &str) -> (r: Result<FactoryCommand, String>)
    ensures
        factory_command_view(r) == Err::<Option<FactoryOptions>, Seq<char>>(msg@),
{
    Err(string_from_chars(chars_of(msg).as_slice()))
}

pub(crate) fn copy_string(s: &String) -> (r: String)
    ensures
        r@ == s@,
{
    string_from_chars(chars_of(s.as_str()).as_slice())
}

/// Reads the factory's command line (`args[0]` is the program name).
pub fn parse_args(args: &Vec<String>) -> (r: Result<FactoryCommand, String>)
    ensures
        factory_command_view(r) == factory_command(string_views(args@)),
{
    let ghost sv = string_views(args@);
    let mut corpus_root: Option<String> = None;
    let mut output_root: Option<String> = None;
    let mut mode: Option<String> = None;
    let mut pretty = false;
    let mut limit_songs: Option<usize> = None;
    let mut pack_filter: Option<String> = None;
    let mut fail_fast = false;
    let mut i: usize = 1;
    while i < args.len()
        invariant
            sv == string_views(args@),
            sv.len() == args@.len(),
            1 <= i,
            i <= args@.len() + 1,
            factory_scan(sv, i as int, FactoryOptions {
                corpus_root: opt_string_view(corpus_root),
                output_root: opt_string_view(output_root),
                mode: opt_string_view(mode),
                pretty,
                limit_songs,
                pack_filter: opt_string_view(pack_filter),
                fail_fast,
            }) == factory_scan(sv, 1, no_factory_options()),
        decreases args@.len() - i,
    {
        let ghost o = FactoryOptions {
            corpus_root: opt_string_view(corpus_root),
            output_root: opt_string_view(output_root),
            mode: opt_string_view(mode),
            pretty,
            limit_songs,
            pack_filter: opt_string_view(pack_filter),
            fail_fast,
        };
        let a = chars_of(args[i].as_str());
        let has_value = i + 1 < args.len();
        proof {
            assert(sv[i as int] == a@);
            if has_value {
                assert(sv[i + 1] == args@[i + 1]@);
            }
        }
        if chars_are(a.as_slice(), "--help") || chars_are(a.as_slice(), "-h") {
            return Ok(FactoryCommand::Help);
        } else if chars_are(a.as_slice(), "--corpus-root") {
            if !has_value {
                return err_text("Missing value for --corpus-root");
            }
            corpus_root = Some(copy_string(&args[i + 1]));
            i = i + 2;
        } else if chars_are(a.as_slice(), "--output-root") {
            if !has_value {
                return err_text("Missing value for --output-root");
            }
            output_root = Some(copy_string(&args[i + 1]));
            i = i + 2;
        } else if chars_are(a.as_slice(), "--mode") {
            if !has_value {
                return err_text("Missing value for --mode");
            }
            mode = Some(copy_string(&args[i + 1]));
            i = i + 2;
        } else if chars_are(a.as_slice(), "--pretty") {
            pretty = true;
            i = i + 1;
        } else if chars_are(a.as_slice(), "--limit-songs") {
            if !has_value {
                return err_text("Missing value for --limit-songs");
            }
            let v = chars_of(args[i + 1].as_str());
            match parse_usize(v.as_slice()) {
                Some(n) => {
                    limit_songs = Some(n);
                    i = i + 2;
                },
                None => {
                    return err_text("Invalid number for --limit-songs");
                },
            }
        } else if chars_are(a.as_slice(), "--pack-filter") {
            if !has_value {
                return err_text("Missing value for --pack-filter");
            }
            pack_filter = Some(copy_string(&args[i + 1]));
            i = i + 2;
        } else if chars_are(a.as_slice(), "--fail-fast") {
            fail_fast = true;
            i = i + 1;
        } else {
            proof {
                reveal_strlit("");
                assert("Unknown argument: "@ + a@ + ""@ =~= "Unknown argument: "@ + a@);
            }
            return Err(message_with("Unknown argument: ", a.as_slice(), ""));
        }
    }
    let ghost o = FactoryOptions {
        corpus_root: opt_string_view(corpus_root),
        output_root: opt_string_view(output_root),
        mode: opt_string_view(mode),
        pretty,
        limit_songs,
        pack_filter: opt_string_view(pack_filter),
        fail_fast,
    };
    assert(factory_scan(sv, i as int, o) == ArgScan::Read(o));
    let corpus_root = match corpus_root {
        Some(c) => c,
        None => {
            return err_text("Missing required flag: --corpus-root. Run with --help for details.");
        },
    };
    let output_root = match output_root {
        Some(c) => c,
        None => {
            return err_text("Missing required flag: --output-root. Run with --help for details.");
        },
    };
    let mode = match mode {
        Some(c) => c,
        None => {
            return err_text("Missing required flag: --mode. Run with --help for details.");
        },
    };
    let m = chars_of(mode.as_str());
    if !chars_are(m.as_slice(), "single-v0") {
        return Err(message_with("Unsupported mode: ", m.as_slice(), ". Only 'single-v0' is supported."));
    }
    Ok(FactoryCommand::Run(AppArgs { corpus_root, output_root, mode, pretty, limit_songs, pack_filter, fail_fast }))
}

// ---------------------------------------------------------------------------
// Output schemas
// ---------------------------------------------------------------------------

/// The schema version of each output of the factory.
#[derive(Debug, Clone)]
pub struct SchemaVersions {
    pub catalog: String,
    pub chart_features: String,
    pub window_features: String,
    pub error: String,
}

/// The schema versions the factory writes.
pub fn factory_schema_versions() -> (v: SchemaVersions)
    ensures
        v.catalog@ == "official-corpus-catalog.v0"@,
        v.chart_features@ == "single-chart-features.v0"@,
        v.window_features@ == "single-window-features.v0"@,
        v.error@ == "official-corpus-error.v0"@,
{
    SchemaVersions {
        catalog: String::from_str("official-corpus-catalog.v0"),
        chart_features: String::from_str("single-chart-features.v0"),
        window_features: String::from_str("single-window-features.v0"),
        error: String::from_str("official-corpus-error.v0"),
    }
}

/// The measures from `a` up to `b` (excluded) are all empty.
pub open spec fn all_empty_between(ms: Seq<Seq<Seq<char>>>, a: int, b: int) -> bool {
    forall|k: int| a <= k < b ==> empty_measure(#[trigger] ms[k])
}

proof fn lemma_trailing_empty_block(ms: Seq<Seq<Seq<char>>>)
    ensures
        empty_run(ms) <= ms.len(),
        all_empty_between(ms, ms.len() - empty_run(ms), ms.len() as int),
        empty_run(ms) < ms.len() ==> !empty_measure(ms[ms.len() - 1 - empty_run(ms)]),
    decreases ms.len(),
{
    if ms.len() > 0 {
        let p = ms.drop_last();
        lemma_trailing_empty_block(p);
        if empty_measure(ms.last()) {
            assert forall|k: int| ms.len() - empty_run(ms) <= k < ms.len() implies empty_measure(
                #[trigger] ms[k],
            ) by {
                if k < ms.len() - 1 {
                    assert(ms[k] == p[k]);
                }
            }
            if empty_run(ms) < ms.len() {
                assert(ms[ms.len() - 1 - empty_run(ms)] == p[p.len() - 1 - empty_run(p)]);
            }
        }
    }
}

/// The longest run of consecutive empty measures is a run that occurs, and
/// no block of adjacent empty measures is longer; so a measure with an
/// active row between two empty measures caps the run, and the run is never
/// longer than the measures that are empty.
pub proof fn lemma_max_empty_run_is_longest_block(ms: Seq<Seq<Seq<char>>>)
    ensures
        exists|a: int|
            0 <= a && a + max_empty_run(ms) <= ms.len() && #[trigger] all_empty_between(
                ms,
                a,
                a + max_empty_run(ms),
            ),
        forall|a: int, b: int|
            0 <= a <= b <= ms.len() && #[trigger] all_empty_between(ms, a, b) ==> b - a <= max_empty_run(ms),
        max_empty_run(ms) <= count_empty_measures(ms),
    decreases ms.len(),
{
    if ms.len() == 0 {
        assert(max_empty_run(ms) == 0);
        assert(all_empty_between(ms, 0int, 0int + max_empty_run(ms)));
    } else {
        let p = ms.drop_last();
        lemma_max_empty_run_is_longest_block(p);
        lemma_trailing_empty_block(ms);
        lemma_empty_run_counted(ms);
        let r = empty_run(ms);
        let m = max_empty_run(p);
        if r > m {
            assert(max_empty_run(ms) == r);
            let a = ms.len() - r;
            assert(all_empty_between(ms, a, a + r));
            assert(0 <= a && a + max_empty_run(ms) <= ms.len() && all_empty_between(ms, a, a + max_empty_run(ms)));
        } else {
            assert(max_empty_run(ms) == m);
            let a = choose|a: int| 0 <= a && a + m <= p.len() && #[trigger] all_empty_between(p, a, a + m);
            assert forall|k: int| a <= k < a + m implies empty_measure(#[trigger] ms[k]) by {
                assert(p[k] == ms[k]);
                assert(empty_measure(p[k]));
            }
            assert(all_empty_between(ms, a, a + m));
            assert(0 <= a && a + max_empty_run(ms) <= ms.len() && all_empty_between(ms, a, a + max_empty_run(ms)));
        }
        assert forall|a: int, b: int|
            0 <= a <= b <= ms.len() && #[trigger] all_empty_between(ms, a, b) implies b - a <= max_empty_run(ms) by {
            if b == ms.len() {
                if b - a > r {
                    let k = ms.len() - 1 - r;
                    assert(a <= k < b);
                    assert(empty_measure(ms[k]));
                }
            } else {
                assert forall|k: int| a <= k < b implies empty_measure(#[trigger] p[k]) by {
                    assert(p[k] == ms[k]);
                    assert(empty_measure(ms[k]));
                }
                assert(all_empty_between(p, a, b));
            }
        }
        if r > m {
            assert(count_empty_measures(ms) >= r);
        }
    }
}

proof fn lemma_empty_run_counted(ms: Seq<Seq<Seq<char>>>)
    ensures
        empty_run(ms) <= count_empty_measures(ms),
    decreases ms.len(),
{
    if ms.len() > 0 {
        lemma_empty_run_counted(ms.drop_last());
    }
}

} // verus!
