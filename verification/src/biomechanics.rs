//! Biomechanical validation of Pump It Up note data and structural checks on
//! section payloads.
use vstd::prelude::*;
use crate::text::{
    join_with, push_joined, string_views, has_char, chars_of, contains_seq, decimal, find_seq, first_index_of, lemma_first_index,
    lemma_first_index_none, nonempty_only, push_decimal, push_str, slice_chars, split_chars,
    split_on, string_from_chars, strip_trailing, strip_trailing_len, trim, trim_bounds, trim_chars,
    utf8_len, utf8_len_of, views, is_ws, ltrim, rtrim, occurs_at, lemma_split_on_join,
    lemma_split_on_concat, lemma_split_on_append, lemma_nonempty_only_concat, lemma_nonempty_only_keeps,
};

verus! {

// ---------------------------------------------------------------------------
// Beat arithmetic
// ---------------------------------------------------------------------------

/// Row `r` of a measure with `n` rows in measure `m` sits at beat `4m + 4r/n`.
/// This holds when the row `(m1, r1, n1)` comes at most `0.2501` beats after
/// the row `(m0, r0, n0)`, with the comparison done on exact rationals.
pub open spec fn beats_close(m0: int, r0: int, n0: int, m1: int, r1: int, n1: int) -> bool {
    10000 * (4 * (m1 * n1 + r1) * n0 - 4 * (m0 * n0 + r0) * n1) <= 2501 * n0 * n1
}

proof fn lemma_beats_same_measure(m: int, r0: int, r1: int, n: int)
    requires
        n > 0,
        0 <= r0 < r1 < n,
    ensures
        beats_close(m, r0, n, m, r1, n) <==> 40000 * (r1 - r0) <= 2501 * n,
{
    assert(4 * (m * n + r1) * n - 4 * (m * n + r0) * n == 4 * n * (r1 - r0)) by (nonlinear_arith);
    assert(10000 * (4 * n * (r1 - r0)) == n * (40000 * (r1 - r0))) by (nonlinear_arith);
    assert(2501 * n * n == n * (2501 * n)) by (nonlinear_arith);
    if 40000 * (r1 - r0) <= 2501 * n {
        assert(n * (40000 * (r1 - r0)) <= n * (2501 * n)) by (nonlinear_arith)
            requires
                n > 0,
                40000 * (r1 - r0) <= 2501 * n,
        ;
    } else {
        assert(n * (40000 * (r1 - r0)) > n * (2501 * n)) by (nonlinear_arith)
            requires
                n > 0,
                40000 * (r1 - r0) > 2501 * n,
        ;
    }
}

proof fn lemma_beats_far_measures(m0: int, r0: int, n0: int, m1: int, r1: int, n1: int)
    requires
        n0 > 0,
        n1 > 0,
        0 <= r0 < n0,
        0 <= r1 < n1,
        m1 >= m0 + 2,
    ensures
        !beats_close(m0, r0, n0, m1, r1, n1),
{
    let pp = n0 * n1;
    let k = m1 - m0;
    assert(4 * (m1 * n1 + r1) * n0 - 4 * (m0 * n0 + r0) * n1 == 4 * (k * pp + r1 * n0 - r0 * n1))
        by (nonlinear_arith)
        requires
            pp == n0 * n1,
            k == m1 - m0,
    ;
    assert(pp > 0) by (nonlinear_arith)
        requires
            pp == n0 * n1,
            n0 > 0,
            n1 > 0,
    ;
    assert(k * pp >= 2 * pp) by (nonlinear_arith)
        requires
            k >= 2,
            pp > 0,
    ;
    assert(r1 * n0 >= 0) by (nonlinear_arith)
        requires
            r1 >= 0,
            n0 > 0,
    ;
    assert(r0 * n1 < pp) by (nonlinear_arith)
        requires
            r0 < n0,
            n1 > 0,
            pp == n0 * n1,
    ;
    assert(2501 * n0 * n1 == 2501 * pp) by (nonlinear_arith)
        requires
            pp == n0 * n1,
    ;
}

proof fn lemma_beats_next_measure(m0: int, r0: int, n0: int, r1: int, n1: int)
    requires
        n0 > 0,
        n1 > 0,
        0 <= r0 < n0,
        0 <= r1 < n1,
    ensures
        beats_close(m0, r0, n0, m0 + 1, r1, n1) <==> 40000 * ((n0 - r0) * n1 + r1 * n0) <= 2501
            * n0 * n1,
{
    assert(4 * ((m0 + 1) * n1 + r1) * n0 - 4 * (m0 * n0 + r0) * n1 == 4 * ((n0 - r0) * n1 + r1
        * n0)) by (nonlinear_arith);
}

proof fn lemma_term_too_large(x: int, y: int, n0: int, n1: int)
    requires
        n0 > 0,
        n1 > 0,
        x >= 0,
        y >= 0,
        40000 * x > 2501 * n0 || 40000 * y > 2501 * n1,
    ensures
        40000 * (x * n1 + y * n0) > 2501 * n0 * n1,
{
    if 40000 * x > 2501 * n0 {
        assert(40000 * x * n1 > 2501 * n0 * n1) by (nonlinear_arith)
            requires
                40000 * x > 2501 * n0,
                n1 > 0,
        ;
        assert(y * n0 >= 0) by (nonlinear_arith)
            requires
                y >= 0,
                n0 > 0,
        ;
        assert(40000 * (x * n1 + y * n0) == 40000 * x * n1 + 40000 * (y * n0)) by (nonlinear_arith);
    } else {
        assert(40000 * y * n0 > 2501 * n1 * n0) by (nonlinear_arith)
            requires
                40000 * y > 2501 * n1,
                n0 > 0,
        ;
        assert(x * n1 >= 0) by (nonlinear_arith)
            requires
                x >= 0,
                n1 > 0,
        ;
        assert(40000 * (x * n1 + y * n0) == 40000 * (x * n1) + 40000 * y * n0) by (nonlinear_arith);
        assert(2501 * n1 * n0 == 2501 * n0 * n1) by (nonlinear_arith);
    }
}

proof fn lemma_small_terms_bound(x: int, y: int, n0: int, n1: int)
    requires
        n0 > 0,
        n1 > 0,
        x >= 0,
        y >= 0,
        40000 * x <= 2501 * n0,
        40000 * y <= 2501 * n1,
    ensures
        7 * (x * n1 + y * n0) <= n0 * n1,
{
    assert(40000 * x * n1 <= 2501 * n0 * n1) by (nonlinear_arith)
        requires
            40000 * x <= 2501 * n0,
            n1 > 0,
    ;
    assert(40000 * y * n0 <= 2501 * n1 * n0) by (nonlinear_arith)
        requires
            40000 * y <= 2501 * n1,
            n0 > 0,
    ;
    let aa = x * n1;
    let bb = y * n0;
    let rr = n0 * n1;
    assert(40000 * aa <= 2501 * rr) by (nonlinear_arith)
        requires
            40000 * x * n1 <= 2501 * n0 * n1,
            aa == x * n1,
            rr == n0 * n1,
    ;
    assert(40000 * bb <= 2501 * rr) by (nonlinear_arith)
        requires
            40000 * y * n0 <= 2501 * n1 * n0,
            bb == y * n0,
            rr == n0 * n1,
    ;
    assert(7 * (aa + bb) <= rr);
}

proof fn lemma_div_compare(s: int, rr: int)
    requires
        s >= 0,
        rr >= 0,
    ensures
        40000 * s <= 2501 * rr <==> s <= 2501 * (rr / 40000) + (2501 * (rr % 40000)) / 40000,
{
    let a = rr / 40000;
    let b = rr % 40000;
    assert(rr == 40000 * a + b);
    assert(2501 * rr == 40000 * (2501 * a) + 2501 * b);
    let t = (2501 * b) / 40000;
    let u = (2501 * b) % 40000;
    assert(2501 * b == 40000 * t + u);
    assert(0 <= u < 40000);
    if s <= 2501 * a + t {
        assert(40000 * s <= 40000 * (2501 * a + t));
    } else {
        assert(s >= 2501 * a + t + 1);
        assert(40000 * s >= 40000 * (2501 * a + t + 1));
    }
}

/// Whether the tap at row `r1` of measure `m1` (of `n1` rows) follows the tap
/// at row `r0` of measure `m0` (of `n0` rows) within a quarter beat
/// (`0.2501` beats).
pub fn quick_succession(m0: usize, r0: usize, n0: usize, m1: usize, r1: usize, n1: usize) -> (b:
    bool)
    requires
        r0 < n0,
        r1 < n1,
        m0 < m1 || (m0 == m1 && r0 < r1 && n0 == n1),
    ensures
        b == beats_close(m0 as int, r0 as int, n0 as int, m1 as int, r1 as int, n1 as int),
{
    if m1 == m0 {
        proof {
            lemma_beats_same_measure(m0 as int, r0 as int, r1 as int, n0 as int);
        }
        let lhs: u128 = 40000 * ((r1 - r0) as u128);
        let rhs: u128 = 2501 * (n1 as u128);
        lhs <= rhs
    } else if m1 - m0 >= 2 {
        proof {
            lemma_beats_far_measures(
                m0 as int,
                r0 as int,
                n0 as int,
                m1 as int,
                r1 as int,
                n1 as int,
            );
        }
        false
    } else {
        proof {
            lemma_beats_next_measure(m0 as int, r0 as int, n0 as int, r1 as int, n1 as int);
        }
        let x: u128 = (n0 - r0) as u128;
        let y: u128 = r1 as u128;
        let a0: u128 = n0 as u128;
        let a1: u128 = n1 as u128;
        if 40000 * x > 2501 * a0 || 40000 * y > 2501 * a1 {
            proof {
                lemma_term_too_large(x as int, y as int, a0 as int, a1 as int);
            }
            false
        } else {
            proof {
                lemma_small_terms_bound(x as int, y as int, a0 as int, a1 as int);
                assert(x * a1 <= a0 * a1) by (nonlinear_arith)
                    requires
                        x <= a0,
                        a1 > 0,
                ;
                assert(y * a0 <= a1 * a0) by (nonlinear_arith)
                    requires
                        y <= a1,
                        a0 > 0,
                ;
                assert(a0 * a1 <= 0xffff_ffff_ffff_ffffu128 * 0xffff_ffff_ffff_ffffu128)
                    by (nonlinear_arith)
                    requires
                        a0 <= 0xffff_ffff_ffff_ffffu128,
                        a1 <= 0xffff_ffff_ffff_ffffu128,
                ;
                assert(a1 * a0 == a0 * a1) by (nonlinear_arith);
            }
            let rr: u128 = a0 * a1;
            let p: u128 = x * a1;
            let q: u128 = y * a0;
            let s: u128 = p + q;
            let a: u128 = rr / 40000;
            let t: u128 = (2501 * (rr % 40000)) / 40000;
            proof {
                lemma_div_compare(s as int, rr as int);
                assert(s as int == (n0 - r0) * n1 + r1 * n0);
                assert(rr as int == n0 * n1);
                assert(2501 * n0 * n1 == 2501 * (n0 * n1)) by (nonlinear_arith);
            }
            s <= 2501 * a + t
        }
    }
}


// ---------------------------------------------------------------------------
// Types
// ---------------------------------------------------------------------------

#[derive(Debug, Clone, Copy, PartialEq, Eq, Structural)]
pub enum PlayMode {
    Single,
    Double,
}

#[derive(Debug, Clone, Copy, PartialEq, Eq, Structural)]
pub enum ValidationSeverity {
    Warning,
    Error,
}

#[derive(Debug, Clone, Copy, PartialEq, Eq, Structural)]
pub enum ValidationIssueType {
    InvalidLength,
    MinaDetected,
    InvalidChar,
    TripleTap,
    DoubleStep,
    ConsecutiveJumps,
    InvalidGeminiStructure,
}

#[derive(Debug, Clone)]
pub struct ValidationIssue {
    pub measure_index: usize,
    /// 0-indexed row within the measure.
    pub row_index: usize,
    pub severity: ValidationSeverity,
    pub issue_type: ValidationIssueType,
    pub message: String,
}

/// What an issue says, with its message as a character sequence.
pub struct IssueView {
    pub measure_index: usize,
    pub row_index: usize,
    pub severity: ValidationSeverity,
    pub issue_type: ValidationIssueType,
    pub message: Seq<char>,
}

impl View for ValidationIssue {
    type V = IssueView;

    open spec fn view(&self) -> IssueView {
        IssueView {
            measure_index: self.measure_index,
            row_index: self.row_index,
            severity: self.severity,
            issue_type: self.issue_type,
            message: self.message@,
        }
    }
}

#[derive(Debug, Clone)]
pub struct ValidatedChartSection {
    pub play_mode: PlayMode,
    pub difficulty_level: u32,
    pub issues: Vec<ValidationIssue>,
}

/// The views of a sequence of issues.
pub open spec fn issue_views(v: Seq<ValidationIssue>) -> Seq<IssueView> {
    v.map_values(|i: ValidationIssue| i@)
}

pub open spec fn make_issue(
    m: usize,
    r: usize,
    severity: ValidationSeverity,
    issue_type: ValidationIssueType,
    message: Seq<char>,
) -> IssueView {
    IssueView { measure_index: m, row_index: r, severity, issue_type, message }
}

// ---------------------------------------------------------------------------
// Reading note data into measures and rows
// ---------------------------------------------------------------------------

/// A note line with surrounding whitespace and any `//` comment removed.
pub open spec fn clean_note_line(line: Seq<char>) -> Seq<char> {
    let t = trim(line);
    let k = first_index_of(t, "//"@);
    if k >= 0 {
        trim(t.take(k))
    } else {
        t
    }
}

/// The note rows of one measure: its cleaned lines that are not empty.
///
/// Splitting at `'\n'` gives the same rows as `str::lines`, since a line's
/// trailing `'\r'` and a final empty line disappear in the trimming and the
/// filtering.
pub open spec fn measure_rows(measure: Seq<char>) -> Seq<Seq<char>> {
    nonempty_only(split_on(measure, '\n').map_values(|l: Seq<char>| clean_note_line(l)))
}

/// The measures of a note block: the text, trimmed and stripped of trailing
/// `;`, split at `,`, each reduced to its rows.
pub open spec fn chart_measures(notes: Seq<char>) -> Seq<Seq<Seq<char>>> {
    split_on(strip_trailing(trim(notes), ';'), ',').map_values(|m: Seq<char>| measure_rows(m))
}

pub open spec fn rows_view(v: Seq<Vec<Vec<char>>>) -> Seq<Seq<Seq<char>>> {
    v.map_values(|m: Vec<Vec<char>>| views(m@))
}

pub(crate) fn clean_line_exec(line: &[char]) -> (r: Vec<char>)
    ensures
        r@ == clean_note_line(line@),
{
    let t = trim_chars(line);
    let marker = chars_of("//");
    match find_seq(t.as_slice(), marker.as_slice()) {
        Some(k) => {
            proof {
                lemma_first_index(t@, "//"@, k as int);
            }
            let head = slice_chars(t.as_slice(), 0, k);
            assert(head@ == t@.take(k as int));
            trim_chars(head.as_slice())
        },
        None => {
            proof {
                lemma_first_index_none(t@, "//"@);
            }
            t
        },
    }
}

fn measure_rows_exec(measure: &[char]) -> (rows: Vec<Vec<char>>)
    ensures
        views(rows@) == measure_rows(measure@),
{
    let lines = split_chars(measure, '\n');
    let ghost cleaned = views(lines@).map_values(|l: Seq<char>| clean_note_line(l));
    let mut rows: Vec<Vec<char>> = Vec::new();
    let mut i: usize = 0;
    while i < lines.len()
        invariant
            i <= lines@.len(),
            cleaned == views(lines@).map_values(|l: Seq<char>| clean_note_line(l)),
            views(rows@) == nonempty_only(cleaned.take(i as int)),
        decreases lines@.len() - i,
    {
        let c = clean_line_exec(lines[i].as_slice());
        let ghost before = rows@;
        if c.len() > 0 {
            rows.push(c);
            proof {
                assert(views(rows@) =~= views(before).push(c@));
            }
        }
        i = i + 1;
        proof {
            assert(cleaned.take(i as int).drop_last() =~= cleaned.take(i - 1));
            assert(cleaned.take(i as int).last() == c@);
        }
    }
    proof {
        assert(cleaned.take(lines@.len() as int) =~= cleaned);
    }
    rows
}

/// Reads a note block into measures of rows (see `chart_measures`).
pub fn read_chart_measures(notes: &[char]) -> (ms: Vec<Vec<Vec<char>>>)
    ensures
        rows_view(ms@) == chart_measures(notes@),
{
    let (a, b) = trim_bounds(notes);
    let trimmed = slice_chars(notes, a, b);
    let n = strip_trailing_len(trimmed.as_slice(), ';');
    let clean = slice_chars(trimmed.as_slice(), 0, n);
    assert(clean@ == trimmed@.take(n as int));
    let pieces = split_chars(clean.as_slice(), ',');
    let ghost target = views(pieces@).map_values(|m: Seq<char>| measure_rows(m));
    let mut ms: Vec<Vec<Vec<char>>> = Vec::new();
    let mut i: usize = 0;
    while i < pieces.len()
        invariant
            i <= pieces@.len(),
            target == views(pieces@).map_values(|m: Seq<char>| measure_rows(m)),
            rows_view(ms@) == target.take(i as int),
        decreases pieces@.len() - i,
    {
        let rows = measure_rows_exec(pieces[i].as_slice());
        let ghost before = ms@;
        ms.push(rows);
        i = i + 1;
        proof {
            assert(rows_view(ms@) =~= rows_view(before).push(views(rows@)));
            assert(target.take(i as int) =~= target.take(i - 1).push(target[i - 1]));
        }
    }
    proof {
        assert(target.take(pieces@.len() as int) =~= target);
    }
    ms
}


// ---------------------------------------------------------------------------
// Row scan
// ---------------------------------------------------------------------------

pub open spec fn expected_row_len(mode: PlayMode) -> nat {
    match mode {
        PlayMode::Single => 5,
        PlayMode::Double => 10,
    }
}

/// `'1'` (tap) and `'2'` (hold start) put a foot on a panel.
pub open spec fn is_tap_char(c: char) -> bool {
    c == '1' || c == '2'
}

/// The characters a row of note data may hold.
pub open spec fn is_note_char(c: char) -> bool {
    c == '0' || c == '1' || c == '2' || c == '3'
}

/// The panels tapped in a row, left to right.
pub open spec fn taps_of(row: Seq<char>) -> Seq<usize>
    decreases row.len(),
{
    if row.len() == 0 {
        Seq::empty()
    } else if is_tap_char(row.last()) {
        taps_of(row.drop_last()).push((row.len() - 1) as usize)
    } else {
        taps_of(row.drop_last())
    }
}

/// The row holds a character other than `0`, `1`, `2`, `3` and `M`.
pub open spec fn has_invalid_char(row: Seq<char>) -> bool {
    exists|i: int| 0 <= i < row.len() && row[i] != 'M' && !is_note_char(row[i])
}

pub open spec fn msg_invalid_length(len: nat, expected: nat) -> Seq<char> {
    "La fila mide "@ + decimal(len) + " caracteres; debe medir exactamente "@ + decimal(expected)
        + "."@
}

pub open spec fn msg_mina() -> Seq<char> {
    "Se detectó una mina ('M'), lo cual está prohibido en StepF2."@
}

pub open spec fn msg_invalid_char() -> Seq<char> {
    "Fila contiene caracteres inválidos. Solo se permite 0/1/2/3."@
}

pub open spec fn msg_triple_tap(level: nat, taps: nat) -> Seq<char> {
    "Nivel "@ + decimal(level) + " (menor a 16) contiene "@ + decimal(taps)
        + " pulsaciones simultáneas."@
}

pub open spec fn msg_consecutive_jumps(count: nat) -> Seq<char> {
    "Se detectaron "@ + decimal(count) + " saltos (jumps) consecutivos."@
}

pub open spec fn msg_jack(panel: nat) -> Seq<char> {
    "Double-step (Jack rápido) en panel "@ + decimal(panel)
        + ": pulsaciones consecutivas sin alternar pies."@
}

pub open spec fn msg_side(prefix: Seq<char>, prev: nat, curr: nat) -> Seq<char> {
    prefix + decimal(prev) + " -> "@ + decimal(curr) + ")."@
}

pub open spec fn is_left_panel(p: usize) -> bool {
    p == 0 || p == 1
}

pub open spec fn is_right_panel(p: usize) -> bool {
    p == 3 || p == 4
}

/// The message opening for a quick same-side pair of single steps on panels
/// `prev` then `curr`, if they fall on the same side.
pub open spec fn same_side_prefix(mode: PlayMode, prev: usize, curr: usize) -> Option<Seq<char>> {
    match mode {
        PlayMode::Single => {
            if is_left_panel(curr) && is_left_panel(prev) {
                Some(
                    "Posible double-step: pulsaciones rápidas consecutivas en el lado izquierdo (paneles "@,
                )
            } else if is_right_panel(curr) && is_right_panel(prev) {
                Some(
                    "Posible double-step: pulsaciones rápidas consecutivas en el lado derecho (paneles "@,
                )
            } else {
                None
            }
        },
        PlayMode::Double => {
            if is_left_panel(curr) && is_left_panel(prev) {
                Some(
                    "Posible double-step: pulsaciones rápidas en lado izquierdo de pad izquierdo (paneles "@,
                )
            } else if is_right_panel(curr) && is_right_panel(prev) {
                Some(
                    "Posible double-step: pulsaciones rápidas en lado derecho de pad izquierdo (paneles "@,
                )
            } else if (curr == 5 || curr == 6) && (prev == 5 || prev == 6) {
                Some(
                    "Posible double-step: pulsaciones rápidas en lado izquierdo de pad derecho (paneles "@,
                )
            } else if (curr == 8 || curr == 9) && (prev == 8 || prev == 9) {
                Some(
                    "Posible double-step: pulsaciones rápidas en lado derecho de pad derecho (paneles "@,
                )
            } else {
                None
            }
        },
    }
}

/// The last row that tapped a panel.
pub struct TapEventView {
    pub measure: usize,
    pub row: usize,
    pub rows_in_measure: usize,
    pub taps: Seq<usize>,
    pub sixteen_plus: bool,
}

/// What the scan carries from row to row.
pub struct ScanState {
    pub last_tap: Option<TapEventView>,
    pub jumps: int,
}

pub open spec fn initial_scan_state() -> ScanState {
    ScanState { last_tap: None, jumps: 0 }
}

/// Double-step warnings for a single tap on panel `taps[0]` at row `r` of
/// measure `m` (of `n` rows), after the previous tapping row `last`.
pub open spec fn double_step_issues(
    mode: PlayMode,
    last: Option<TapEventView>,
    m: usize,
    r: usize,
    n: usize,
    taps: Seq<usize>,
) -> Seq<IssueView> {
    match last {
        Some(e) => {
            if n >= 16 && e.sixteen_plus && beats_close(
                e.measure as int,
                e.row as int,
                e.rows_in_measure as int,
                m as int,
                r as int,
                n as int,
            ) && taps.len() == 1 && e.taps.len() == 1 {
                let curr = taps[0];
                let prev = e.taps[0];
                if curr == prev {
                    seq![
                        make_issue(
                            m,
                            r,
                            ValidationSeverity::Warning,
                            ValidationIssueType::DoubleStep,
                            msg_jack(curr as nat),
                        ),
                    ]
                } else {
                    match same_side_prefix(mode, prev, curr) {
                        Some(prefix) => seq![
                            make_issue(
                                m,
                                r,
                                ValidationSeverity::Warning,
                                ValidationIssueType::DoubleStep,
                                msg_side(prefix, prev as nat, curr as nat),
                            ),
                        ],
                        None => Seq::empty(),
                    }
                }
            } else {
                Seq::empty()
            }
        },
        None => Seq::empty(),
    }
}

/// One row of the scan: the state after row `r` of measure `m` (which has `n`
/// rows) and the issues that row raises, in the order they are reported.
pub open spec fn scan_row(
    mode: PlayMode,
    level: u32,
    st: ScanState,
    m: usize,
    r: usize,
    n: usize,
    row: Seq<char>,
) -> (ScanState, Seq<IssueView>) {
    let expected = expected_row_len(mode);
    if utf8_len(row) != expected {
        (
            st,
            seq![
                make_issue(
                    m,
                    r,
                    ValidationSeverity::Error,
                    ValidationIssueType::InvalidLength,
                    msg_invalid_length(utf8_len(row), expected),
                ),
            ],
        )
    } else {
        let mina: Seq<IssueView> = if row.contains('M') {
            seq![
                make_issue(
                    m,
                    r,
                    ValidationSeverity::Error,
                    ValidationIssueType::MinaDetected,
                    msg_mina(),
                ),
            ]
        } else {
            Seq::empty()
        };
        let invalid: Seq<IssueView> = if has_invalid_char(row) {
            seq![
                make_issue(
                    m,
                    r,
                    ValidationSeverity::Error,
                    ValidationIssueType::InvalidChar,
                    msg_invalid_char(),
                ),
            ]
        } else {
            Seq::empty()
        };
        let taps = taps_of(row);
        if taps.len() == 0 {
            (ScanState { last_tap: None, jumps: 0 }, mina + invalid)
        } else {
            let triple: Seq<IssueView> = if level < 16 && taps.len() >= 3 {
                seq![
                    make_issue(
                        m,
                        r,
                        ValidationSeverity::Warning,
                        ValidationIssueType::TripleTap,
                        msg_triple_tap(level as nat, taps.len()),
                    ),
                ]
            } else {
                Seq::empty()
            };
            let jumps = if taps.len() >= 2 {
                st.jumps + 1
            } else {
                0
            };
            let jump_issue: Seq<IssueView> = if taps.len() >= 2 && jumps >= 3 {
                seq![
                    make_issue(
                        m,
                        r,
                        ValidationSeverity::Warning,
                        ValidationIssueType::ConsecutiveJumps,
                        msg_consecutive_jumps(jumps as nat),
                    ),
                ]
            } else {
                Seq::empty()
            };
            let ds = double_step_issues(mode, st.last_tap, m, r, n, taps);
            (
                ScanState {
                    last_tap: Some(
                        TapEventView {
                            measure: m,
                            row: r,
                            rows_in_measure: n,
                            taps,
                            sixteen_plus: n >= 16,
                        },
                    ),
                    jumps,
                },
                mina + invalid + triple + jump_issue + ds,
            )
        }
    }
}

/// The scan over the first rows of measure `m`, which has `n` rows.
pub open spec fn scan_rows(
    mode: PlayMode,
    level: u32,
    st: ScanState,
    m: usize,
    n: usize,
    rows: Seq<Seq<char>>,
) -> (ScanState, Seq<IssueView>)
    decreases rows.len(),
{
    if rows.len() == 0 {
        (st, Seq::empty())
    } else {
        let before = scan_rows(mode, level, st, m, n, rows.drop_last());
        let after = scan_row(mode, level, before.0, m, (rows.len() - 1) as usize, n, rows.last());
        (after.0, before.1 + after.1)
    }
}

/// The scan over measures, in order.
pub open spec fn scan_measures(
    mode: PlayMode,
    level: u32,
    st: ScanState,
    ms: Seq<Seq<Seq<char>>>,
) -> (ScanState, Seq<IssueView>)
    decreases ms.len(),
{
    if ms.len() == 0 {
        (st, Seq::empty())
    } else {
        let before = scan_measures(mode, level, st, ms.drop_last());
        let after = scan_rows(
            mode,
            level,
            before.0,
            (ms.len() - 1) as usize,
            ms.last().len() as usize,
            ms.last(),
        );
        (after.0, before.1 + after.1)
    }
}

/// The issues that the biomechanical validation reports for a note block.
pub open spec fn chart_issues(mode: PlayMode, level: u32, notes: Seq<char>) -> Seq<IssueView> {
    scan_measures(mode, level, initial_scan_state(), chart_measures(notes)).1
}


// ---------------------------------------------------------------------------
// Row scan, executable
// ---------------------------------------------------------------------------

struct TapEvent {
    measure: usize,
    row: usize,
    rows_in_measure: usize,
    taps: Vec<usize>,
    sixteen_plus: bool,
}

impl View for TapEvent {
    type V = TapEventView;

    closed spec fn view(&self) -> TapEventView {
        TapEventView {
            measure: self.measure,
            row: self.row,
            rows_in_measure: self.rows_in_measure,
            taps: self.taps@,
            sixteen_plus: self.sixteen_plus,
        }
    }
}

spec fn last_tap_view(last: Option<TapEvent>) -> Option<TapEventView> {
    match last {
        Some(e) => Some(e@),
        None => None,
    }
}

spec fn scan_state_view(last: Option<TapEvent>, jumps: u128) -> ScanState {
    ScanState { last_tap: last_tap_view(last), jumps: jumps as int }
}

/// The last tapping row lies before row `r` of measure `m` (of `n` rows).
spec fn precedes(last: Option<TapEvent>, m: usize, r: usize, n: usize) -> bool {
    match last {
        Some(e) => e.row < e.rows_in_measure && (e.measure < m || (e.measure == m && e.row < r
            && e.rows_in_measure == n)),
        None => true,
    }
}

spec fn jump_bound(m: usize, r: int) -> int {
    m as int * (usize::MAX as int + 1) + r
}

fn taps_exec(row: &[char]) -> (t: Vec<usize>)
    ensures
        t@ == taps_of(row@),
{
    let mut t: Vec<usize> = Vec::new();
    let mut i: usize = 0;
    while i < row.len()
        invariant
            i <= row@.len(),
            t@ == taps_of(row@.take(i as int)),
        decreases row@.len() - i,
    {
        let c = row[i];
        if c == '1' || c == '2' {
            t.push(i);
        }
        i = i + 1;
        proof {
            assert(row@.take(i as int).drop_last() =~= row@.take(i - 1));
            assert(row@.take(i as int).last() == c);
        }
    }
    proof {
        assert(row@.take(row@.len() as int) =~= row@);
    }
    t
}

fn has_invalid_char_exec(row: &[char]) -> (b: bool)
    ensures
        b == has_invalid_char(row@),
{
    let mut i: usize = 0;
    while i < row.len()
        invariant
            i <= row@.len(),
            forall|j: int| 0 <= j < i ==> !(row@[j] != 'M' && !is_note_char(row@[j])),
        decreases row@.len() - i,
    {
        let c = row[i];
        if c != 'M' && c != '0' && c != '1' && c != '2' && c != '3' {
            return true;
        }
        i = i + 1;
    }
    false
}

fn build_msg_invalid_length(len: u128, expected: usize) -> (s: String)
    ensures
        s@ == msg_invalid_length(len as nat, expected as nat),
{
    let mut v: Vec<char> = Vec::new();
    push_str(&mut v, "La fila mide ");
    push_decimal(&mut v, len);
    push_str(&mut v, " caracteres; debe medir exactamente ");
    push_decimal(&mut v, expected as u128);
    push_str(&mut v, ".");
    assert(v@ =~= msg_invalid_length(len as nat, expected as nat));
    string_from_chars(v.as_slice())
}

fn build_msg_triple_tap(level: u32, taps: usize) -> (s: String)
    ensures
        s@ == msg_triple_tap(level as nat, taps as nat),
{
    let mut v: Vec<char> = Vec::new();
    push_str(&mut v, "Nivel ");
    push_decimal(&mut v, level as u128);
    push_str(&mut v, " (menor a 16) contiene ");
    push_decimal(&mut v, taps as u128);
    push_str(&mut v, " pulsaciones simultáneas.");
    assert(v@ =~= msg_triple_tap(level as nat, taps as nat));
    string_from_chars(v.as_slice())
}

fn build_msg_consecutive_jumps(count: u128) -> (s: String)
    ensures
        s@ == msg_consecutive_jumps(count as nat),
{
    let mut v: Vec<char> = Vec::new();
    push_str(&mut v, "Se detectaron ");
    push_decimal(&mut v, count);
    push_str(&mut v, " saltos (jumps) consecutivos.");
    assert(v@ =~= msg_consecutive_jumps(count as nat));
    string_from_chars(v.as_slice())
}

fn build_msg_jack(panel: usize) -> (s: String)
    ensures
        s@ == msg_jack(panel as nat),
{
    let mut v: Vec<char> = Vec::new();
    push_str(&mut v, "Double-step (Jack rápido) en panel ");
    push_decimal(&mut v, panel as u128);
    push_str(&mut v, ": pulsaciones consecutivas sin alternar pies.");
    assert(v@ =~= msg_jack(panel as nat));
    string_from_chars(v.as_slice())
}

fn same_side_prefix_exec(mode: PlayMode, prev: usize, curr: usize) -> (r: Option<&'static str>)
    ensures
        match r {
            Some(p) => same_side_prefix(mode, prev, curr) == Some(p@),
            None => same_side_prefix(mode, prev, curr) is None,
        },
{
    match mode {
        PlayMode::Single => {
            if (curr == 0 || curr == 1) && (prev == 0 || prev == 1) {
                Some(
                    "Posible double-step: pulsaciones rápidas consecutivas en el lado izquierdo (paneles ",
                )
            } else if (curr == 3 || curr == 4) && (prev == 3 || prev == 4) {
                Some(
                    "Posible double-step: pulsaciones rápidas consecutivas en el lado derecho (paneles ",
                )
            } else {
                None
            }
        },
        PlayMode::Double => {
            if (curr == 0 || curr == 1) && (prev == 0 || prev == 1) {
                Some(
                    "Posible double-step: pulsaciones rápidas en lado izquierdo de pad izquierdo (paneles ",
                )
            } else if (curr == 3 || curr == 4) && (prev == 3 || prev == 4) {
                Some(
                    "Posible double-step: pulsaciones rápidas en lado derecho de pad izquierdo (paneles ",
                )
            } else if (curr == 5 || curr == 6) && (prev == 5 || prev == 6) {
                Some(
                    "Posible double-step: pulsaciones rápidas en lado izquierdo de pad derecho (paneles ",
                )
            } else if (curr == 8 || curr == 9) && (prev == 8 || prev == 9) {
                Some(
                    "Posible double-step: pulsaciones rápidas en lado derecho de pad derecho (paneles ",
                )
            } else {
                None
            }
        },
    }
}

fn build_msg_side(prefix: &str, prev: usize, curr: usize) -> (s: String)
    ensures
        s@ == msg_side(prefix@, prev as nat, curr as nat),
{
    let mut v: Vec<char> = Vec::new();
    push_str(&mut v, prefix);
    push_decimal(&mut v, prev as u128);
    push_str(&mut v, " -> ");
    push_decimal(&mut v, curr as u128);
    push_str(&mut v, ").");
    assert(v@ =~= msg_side(prefix@, prev as nat, curr as nat));
    string_from_chars(v.as_slice())
}

fn double_step_exec(
    mode: PlayMode,
    last: &Option<TapEvent>,
    m: usize,
    r: usize,
    n: usize,
    taps: &Vec<usize>,
) -> (res: Option<ValidationIssue>)
    requires
        r < n,
        precedes(*last, m, r, n),
    ensures
        match res {
            Some(i) => seq![i@],
            None => Seq::<IssueView>::empty(),
        } == double_step_issues(mode, last_tap_view(*last), m, r, n, taps@),
{
    match last {
        Some(e) => {
            if n >= 16 && e.sixteen_plus && quick_succession(
                e.measure,
                e.row,
                e.rows_in_measure,
                m,
                r,
                n,
            ) && taps.len() == 1 && e.taps.len() == 1 {
                let curr = taps[0];
                let prev = e.taps[0];
                if curr == prev {
                    let msg = build_msg_jack(curr);
                    Some(
                        ValidationIssue {
                            measure_index: m,
                            row_index: r,
                            severity: ValidationSeverity::Warning,
                            issue_type: ValidationIssueType::DoubleStep,
                            message: msg,
                        },
                    )
                } else {
                    match same_side_prefix_exec(mode, prev, curr) {
                        Some(prefix) => {
                            let msg = build_msg_side(prefix, prev, curr);
                            Some(
                                ValidationIssue {
                                    measure_index: m,
                                    row_index: r,
                                    severity: ValidationSeverity::Warning,
                                    issue_type: ValidationIssueType::DoubleStep,
                                    message: msg,
                                },
                            )
                        },
                        None => None,
                    }
                }
            } else {
                None
            }
        },
        None => None,
    }
}

pub(crate) fn push_issue(
    issues: &mut Vec<ValidationIssue>,
    m: usize,
    r: usize,
    severity: ValidationSeverity,
    issue_type: ValidationIssueType,
    message: String,
)
    ensures
        issue_views(final(issues)@) == issue_views(old(issues)@).push(
            make_issue(m, r, severity, issue_type, message@),
        ),
{
    let ghost before = issues@;
    issues.push(ValidationIssue { measure_index: m, row_index: r, severity, issue_type, message });
    assert(issue_views(issues@) =~= issue_views(before).push(
        make_issue(m, r, severity, issue_type, message@),
    ));
}

proof fn lemma_jump_bound(m: usize, r: usize)
    requires
        r < usize::MAX,
    ensures
        jump_bound(m, r as int) + 1 <= u128::MAX,
{
    let k = usize::MAX as int + 1;
    assert(m as int * k <= (usize::MAX as int) * k) by (nonlinear_arith)
        requires
            m <= usize::MAX,
            k > 0,
    ;
    assert(k <= 0x1_0000_0000_0000_0000int);
    assert(k * k <= 0x1_0000_0000_0000_0000int * 0x1_0000_0000_0000_0000int) by (nonlinear_arith)
        requires
            0 < k <= 0x1_0000_0000_0000_0000int,
    ;
    assert((usize::MAX as int) * k == k * k - k) by (nonlinear_arith)
        requires
            k == usize::MAX as int + 1,
    ;
}

fn scan_row_exec(
    mode: PlayMode,
    level: u32,
    last_tap: &mut Option<TapEvent>,
    jumps: &mut u128,
    m: usize,
    r: usize,
    n: usize,
    row: &[char],
    issues: &mut Vec<ValidationIssue>,
)
    requires
        r < n,
        precedes(*old(last_tap), m, r, n),
        *old(jumps) <= jump_bound(m, r as int),
    ensures
        scan_state_view(*final(last_tap), *final(jumps)) == scan_row(
            mode,
            level,
            scan_state_view(*old(last_tap), *old(jumps)),
            m,
            r,
            n,
            row@,
        ).0,
        issue_views(final(issues)@) == issue_views(old(issues)@) + scan_row(
            mode,
            level,
            scan_state_view(*old(last_tap), *old(jumps)),
            m,
            r,
            n,
            row@,
        ).1,
        precedes(*final(last_tap), m, (r + 1) as usize, n),
        *final(jumps) <= jump_bound(m, r + 1),
{
    let ghost st0 = scan_state_view(*last_tap, *jumps);
    let ghost iss0 = issue_views(issues@);
    let ghost out = scan_row(mode, level, st0, m, r, n, row@);
    let expected: usize = match mode {
        PlayMode::Single => 5,
        PlayMode::Double => 10,
    };
    let len = utf8_len_of(row);
    if len != expected as u128 {
        let msg = build_msg_invalid_length(len, expected);
        push_issue(
            issues,
            m,
            r,
            ValidationSeverity::Error,
            ValidationIssueType::InvalidLength,
            msg,
        );
        assert(issue_views(issues@) =~= iss0 + out.1);
        return ;
    }
    let ghost mina: Seq<IssueView> = if row@.contains('M') {
        seq![
            make_issue(m, r, ValidationSeverity::Error, ValidationIssueType::MinaDetected, msg_mina()),
        ]
    } else {
        Seq::empty()
    };
    let ghost invalid: Seq<IssueView> = if has_invalid_char(row@) {
        seq![
            make_issue(
                m,
                r,
                ValidationSeverity::Error,
                ValidationIssueType::InvalidChar,
                msg_invalid_char(),
            ),
        ]
    } else {
        Seq::empty()
    };
    if has_char(row, 'M') {
        let msg = String::from_str("Se detectó una mina ('M'), lo cual está prohibido en StepF2.");
        push_issue(issues, m, r, ValidationSeverity::Error, ValidationIssueType::MinaDetected, msg);
    }
    assert(issue_views(issues@) =~= iss0 + mina);
    if has_invalid_char_exec(row) {
        let msg = String::from_str("Fila contiene caracteres inválidos. Solo se permite 0/1/2/3.");
        push_issue(issues, m, r, ValidationSeverity::Error, ValidationIssueType::InvalidChar, msg);
    }
    assert(issue_views(issues@) =~= iss0 + mina + invalid);
    let taps = taps_exec(row);
    if taps.len() == 0 {
        *last_tap = None;
        *jumps = 0;
        return ;
    }
    let ghost triple: Seq<IssueView> = if level < 16 && taps@.len() >= 3 {
        seq![
            make_issue(
                m,
                r,
                ValidationSeverity::Warning,
                ValidationIssueType::TripleTap,
                msg_triple_tap(level as nat, taps@.len()),
            ),
        ]
    } else {
        Seq::empty()
    };
    if level < 16 && taps.len() >= 3 {
        let msg = build_msg_triple_tap(level, taps.len());
        push_issue(issues, m, r, ValidationSeverity::Warning, ValidationIssueType::TripleTap, msg);
    }
    assert(issue_views(issues@) =~= iss0 + mina + invalid + triple);
    let ghost new_jumps: int = if taps@.len() >= 2 {
        st0.jumps + 1
    } else {
        0
    };
    let ghost jump_issue: Seq<IssueView> = if taps@.len() >= 2 && new_jumps >= 3 {
        seq![
            make_issue(
                m,
                r,
                ValidationSeverity::Warning,
                ValidationIssueType::ConsecutiveJumps,
                msg_consecutive_jumps(new_jumps as nat),
            ),
        ]
    } else {
        Seq::empty()
    };
    if taps.len() >= 2 {
        proof {
            lemma_jump_bound(m, r);
        }
        *jumps = *jumps + 1;
        if *jumps >= 3 {
            let msg = build_msg_consecutive_jumps(*jumps);
            push_issue(
                issues,
                m,
                r,
                ValidationSeverity::Warning,
                ValidationIssueType::ConsecutiveJumps,
                msg,
            );
        }
    } else {
        *jumps = 0;
    }
    assert(issue_views(issues@) =~= iss0 + mina + invalid + triple + jump_issue);
    let ds = double_step_exec(mode, &*last_tap, m, r, n, &taps);
    match ds {
        Some(issue) => {
            let ghost before = issues@;
            issues.push(issue);
            assert(issue_views(issues@) =~= issue_views(before).push(issue@));
        },
        None => {},
    }
    *last_tap = Some(
        TapEvent { measure: m, row: r, rows_in_measure: n, taps, sixteen_plus: n >= 16 },
    );
    assert(issue_views(issues@) =~= iss0 + out.1);
}


spec fn before_measure(last: Option<TapEvent>, m: usize) -> bool {
    match last {
        Some(e) => e.row < e.rows_in_measure && e.measure < m,
        None => true,
    }
}

proof fn lemma_jump_bound_next_measure(m: usize, n: usize)
    requires
        m < usize::MAX,
    ensures
        jump_bound(m, n as int) <= jump_bound((m + 1) as usize, 0),
{
    let k = usize::MAX as int + 1;
    assert((m as int + 1) * k == m as int * k + k) by (nonlinear_arith);
}

/// Biomechanical validation of a note block.
///
/// The notes are trimmed, stripped of trailing `;` and split at `,` into
/// measures; each measure's lines are trimmed, cut at `//` and the empty ones
/// dropped (`chart_measures`). Every row is then checked in order
/// (`scan_row`): its length in bytes (5 for Single, 10 for Double), mines and
/// foreign characters, triple taps below level 16, runs of three or more jumps,
/// and quick same-panel or same-side single steps in measures of 16 or more
/// rows.
pub fn validate_chart(play_mode: PlayMode, difficulty_level: u32, notes_raw: &str) -> (res:
    ValidatedChartSection)
    ensures
        res.play_mode == play_mode,
        res.difficulty_level == difficulty_level,
        issue_views(res.issues@) == chart_issues(play_mode, difficulty_level, notes_raw@),
{
    let notes = chars_of(notes_raw);
    let measures = read_chart_measures(notes.as_slice());
    let ghost ms = rows_view(measures@);
    let mut issues: Vec<ValidationIssue> = Vec::new();
    let mut last_tap: Option<TapEvent> = None;
    let mut jumps: u128 = 0;
    let mut m: usize = 0;
    proof {
        assert(ms.take(0) =~= Seq::<Seq<Seq<char>>>::empty());
        assert(issue_views(issues@) =~= Seq::<IssueView>::empty());
    }
    while m < measures.len()
        invariant
            m <= measures@.len(),
            ms == rows_view(measures@),
            scan_state_view(last_tap, jumps) == scan_measures(
                play_mode,
                difficulty_level,
                initial_scan_state(),
                ms.take(m as int),
            ).0,
            issue_views(issues@) == scan_measures(
                play_mode,
                difficulty_level,
                initial_scan_state(),
                ms.take(m as int),
            ).1,
            before_measure(last_tap, m),
            jumps <= jump_bound(m, 0),
        decreases measures@.len() - m,
    {
        let rows = &measures[m];
        let n = rows.len();
        let ghost st_m = scan_state_view(last_tap, jumps);
        let ghost iss_m = issue_views(issues@);
        let ghost rv = views(rows@);
        let mut r: usize = 0;
        proof {
            assert(rv.take(0) =~= Seq::<Seq<char>>::empty());
            assert(iss_m + Seq::<IssueView>::empty() =~= iss_m);
        }
        while r < n
            invariant
                r <= n == rows@.len(),
                rv == views(rows@),
                m < measures@.len(),
                scan_state_view(last_tap, jumps) == scan_rows(
                    play_mode,
                    difficulty_level,
                    st_m,
                    m,
                    n,
                    rv.take(r as int),
                ).0,
                issue_views(issues@) == iss_m + scan_rows(
                    play_mode,
                    difficulty_level,
                    st_m,
                    m,
                    n,
                    rv.take(r as int),
                ).1,
                precedes(last_tap, m, r, n),
                jumps <= jump_bound(m, r as int),
            decreases n - r,
        {
            let ghost iss_before = issue_views(issues@);
            scan_row_exec(
                play_mode,
                difficulty_level,
                &mut last_tap,
                &mut jumps,
                m,
                r,
                n,
                rows[r].as_slice(),
                &mut issues,
            );
            r = r + 1;
            proof {
                assert(rv.take(r as int).drop_last() =~= rv.take(r - 1));
                assert(rv.take(r as int).last() == rv[r - 1]);
                let prev = scan_rows(play_mode, difficulty_level, st_m, m, n, rv.take(r - 1));
                let step = scan_row(play_mode, difficulty_level, prev.0, m, (r - 1) as usize, n, rv[r - 1]);
                assert(issue_views(issues@) =~= iss_m + (prev.1 + step.1));
            }
        }
        m = m + 1;
        proof {
            assert(rv.take(n as int) =~= rv);
            assert(ms.take(m as int).drop_last() =~= ms.take(m - 1));
            assert(ms.take(m as int).last() == ms[m - 1]);
            assert(ms[m - 1] == rv);
            let prev = scan_measures(play_mode, difficulty_level, initial_scan_state(), ms.take(m - 1));
            let step = scan_rows(play_mode, difficulty_level, prev.0, (m - 1) as usize, n, rv);
            assert(issue_views(issues@) =~= prev.1 + step.1);
            lemma_jump_bound_next_measure((m - 1) as usize, n);
        }
    }
    proof {
        assert(ms.take(measures@.len() as int) =~= ms);
    }
    ValidatedChartSection { play_mode, difficulty_level, issues }
}

/// Validation of a Single chart.
pub fn validate_single_chart(notes_raw: &str, difficulty_level: u32) -> (res: ValidatedChartSection)
    ensures
        res.play_mode == PlayMode::Single,
        res.difficulty_level == difficulty_level,
        issue_views(res.issues@) == chart_issues(PlayMode::Single, difficulty_level, notes_raw@),
{
    validate_chart(PlayMode::Single, difficulty_level, notes_raw)
}


// ---------------------------------------------------------------------------
// Section payloads
// ---------------------------------------------------------------------------

/// Upper bound on the measures of one generated section.
pub const MAX_SECTION_MEASURES: usize = 16;

/// Biomechanical state reported with a section. The two debts are carried as
/// the bit patterns of their `f64` values (`f64::to_bits`); nothing here reads
/// them.
#[derive(Debug, Clone, Copy)]
pub struct GeminiBiomechanicalState {
    pub current_twist_debt: u64,
    pub current_stamina_debt: u64,
    pub last_left_foot_lane: Option<u32>,
    pub last_right_foot_lane: Option<u32>,
}

#[derive(Debug, Clone)]
pub struct GeminiMeasure {
    pub measure_index: u32,
    pub subdivision: u32,
    pub rows: Vec<String>,
}

#[derive(Debug, Clone)]
pub struct GeminiChartSectionPayload {
    pub section_id: String,
    pub difficulty_level: u32,
    pub play_mode: PlayMode,
    pub biomechanical_state: GeminiBiomechanicalState,
    pub measures: Vec<GeminiMeasure>,
}

pub open spec fn msg_level_out_of_range(level: nat) -> Seq<char> {
    "Nivel de dificultad Single ("@ + decimal(level) + ") fuera de rango (1-26)."@
}

pub open spec fn msg_double_unsupported() -> Seq<char> {
    "Play mode Double is not supported in this phase."@
}

pub open spec fn msg_no_measures() -> Seq<char> {
    "El payload de Gemini no contiene medidas (measures está vacío)."@
}

pub open spec fn msg_too_many_measures(max: nat, got: nat) -> Seq<char> {
    "El payload de Gemini supera el límite máximo de "@ + decimal(max) + " medidas (recibidas: "@
        + decimal(got) + ")."@
}

pub open spec fn msg_bad_subdivision(m: nat, sub: nat) -> Seq<char> {
    "Medida "@ + decimal(m) + ": subdivisión "@ + decimal(sub)
        + " no es válida. Solo se permiten 4, 8, 16 o 32."@
}

pub open spec fn msg_row_count(m: nat, rows: nat, sub: nat) -> Seq<char> {
    "Medida "@ + decimal(m) + ": el número de filas ("@ + decimal(rows)
        + ") no coincide con la subdivisión ("@ + decimal(sub) + ")."@
}

pub open spec fn msg_row_length(m: nat, r: nat, len: nat, expected: nat) -> Seq<char> {
    "Medida "@ + decimal(m) + ", fila "@ + decimal(r) + ": longitud incorrecta ("@ + decimal(len)
        + "). Debe ser "@ + decimal(expected) + "."@
}

pub open spec fn msg_bad_char(m: nat, r: nat, c: char) -> Seq<char> {
    "Medida "@ + decimal(m) + ", fila "@ + decimal(r) + ": carácter inválido '"@ + seq![c]
        + "' en payload Gemini. Solo se permiten '0', '1', '2', '3'."@
}

/// The first character of `row` that is not `0`-`3`.
pub open spec fn first_non_note_char(row: Seq<char>) -> Option<char>
    decreases row.len(),
{
    if row.len() == 0 {
        None
    } else {
        match first_non_note_char(row.drop_last()) {
            Some(c) => Some(c),
            None => if is_note_char(row.last()) {
                None
            } else {
                Some(row.last())
            },
        }
    }
}

/// What is wrong with row `r` of measure `m`, if anything.
pub open spec fn row_structure_error(m: nat, r: nat, row: Seq<char>, expected: nat) -> Option<
    Seq<char>,
> {
    if utf8_len(row) != expected {
        Some(msg_row_length(m, r, utf8_len(row), expected))
    } else {
        match first_non_note_char(row) {
            Some(c) => Some(msg_bad_char(m, r, c)),
            None => None,
        }
    }
}

/// The first faulty row among `rows` of measure `m`.
pub open spec fn rows_structure_error(m: nat, rows: Seq<Seq<char>>, expected: nat) -> Option<
    Seq<char>,
>
    decreases rows.len(),
{
    if rows.len() == 0 {
        None
    } else {
        match rows_structure_error(m, rows.drop_last(), expected) {
            Some(e) => Some(e),
            None => row_structure_error(m, (rows.len() - 1) as nat, rows.last(), expected),
        }
    }
}

pub open spec fn measure_rows_view(measure: GeminiMeasure) -> Seq<Seq<char>> {
    string_views(measure.rows@)
}

pub open spec fn is_allowed_subdivision(sub: u32) -> bool {
    sub == 4 || sub == 8 || sub == 16 || sub == 32
}

/// What is wrong with measure `m`, if anything.
pub open spec fn measure_structure_error(m: nat, measure: GeminiMeasure, expected: nat) -> Option<
    Seq<char>,
> {
    let sub = measure.subdivision;
    if !is_allowed_subdivision(sub) {
        Some(msg_bad_subdivision(m, sub as nat))
    } else if measure.rows@.len() % 0x1_0000_0000 != sub as nat {
        Some(msg_row_count(m, measure.rows@.len(), sub as nat))
    } else {
        rows_structure_error(m, measure_rows_view(measure), expected)
    }
}

/// The first faulty measure among `ms`.
pub open spec fn measures_structure_error(ms: Seq<GeminiMeasure>, expected: nat) -> Option<
    Seq<char>,
>
    decreases ms.len(),
{
    if ms.len() == 0 {
        None
    } else {
        match measures_structure_error(ms.drop_last(), expected) {
            Some(e) => Some(e),
            None => measure_structure_error((ms.len() - 1) as nat, ms.last(), expected),
        }
    }
}

/// The message for the first structural fault of a payload, in the order the
/// checks are made, or `None` when the payload is well formed.
pub open spec fn structure_error(p: GeminiChartSectionPayload) -> Option<Seq<char>> {
    match p.play_mode {
        PlayMode::Double => Some(msg_double_unsupported()),
        PlayMode::Single => {
            if p.difficulty_level < 1 || p.difficulty_level > 26 {
                Some(msg_level_out_of_range(p.difficulty_level as nat))
            } else if p.measures@.len() == 0 {
                Some(msg_no_measures())
            } else if p.measures@.len() > MAX_SECTION_MEASURES {
                Some(msg_too_many_measures(MAX_SECTION_MEASURES as nat, p.measures@.len()))
            } else {
                measures_structure_error(p.measures@, expected_row_len(p.play_mode))
            }
        },
    }
}

/// The note text of a payload: each measure's rows joined by newlines, the
/// measures joined by `",\n"`, closed by `"\n;"`.
pub open spec fn payload_notes(p: GeminiChartSectionPayload) -> Seq<char> {
    join_with(
        p.measures@.map_values(|m: GeminiMeasure| join_with(measure_rows_view(m), "\n"@)),
        ",\n"@,
    ) + "\n;"@
}

fn message_string(v: Vec<char>) -> (s: String)
    ensures
        s@ == v@,
{
    string_from_chars(v.as_slice())
}

fn first_non_note_char_exec(row: &[char]) -> (r: Option<char>)
    ensures
        r == first_non_note_char(row@),
{
    let mut i: usize = 0;
    while i < row.len()
        invariant
            i <= row@.len(),
            first_non_note_char(row@.take(i as int)) is None,
        decreases row@.len() - i,
    {
        let c = row[i];
        i = i + 1;
        proof {
            assert(row@.take(i as int).drop_last() =~= row@.take(i - 1));
            assert(row@.take(i as int).last() == c);
        }
        if !(c == '0' || c == '1' || c == '2' || c == '3') {
            proof {
                lemma_first_non_note_prefix(row@, i as int);
            }
            return Some(c);
        }
    }
    proof {
        assert(row@.take(row@.len() as int) =~= row@);
    }
    None
}

proof fn lemma_first_non_note_prefix(row: Seq<char>, i: int)
    requires
        0 < i <= row.len(),
        first_non_note_char(row.take(i)) is Some,
    ensures
        first_non_note_char(row) == first_non_note_char(row.take(i)),
    decreases row.len() - i,
{
    if i < row.len() {
        assert(row.take(i + 1).drop_last() =~= row.take(i));
        lemma_first_non_note_prefix(row, i + 1);
    } else {
        assert(row.take(i) =~= row);
    }
}

fn row_structure_error_exec(m: usize, r: usize, row: &[char], expected: usize) -> (e: Option<
    String,
>)
    ensures
        match e {
            Some(s) => row_structure_error(m as nat, r as nat, row@, expected as nat) == Some(s@),
            None => row_structure_error(m as nat, r as nat, row@, expected as nat) is None,
        },
{
    let len = utf8_len_of(row);
    if len != expected as u128 {
        let mut v: Vec<char> = Vec::new();
        push_str(&mut v, "Medida ");
        push_decimal(&mut v, m as u128);
        push_str(&mut v, ", fila ");
        push_decimal(&mut v, r as u128);
        push_str(&mut v, ": longitud incorrecta (");
        push_decimal(&mut v, len);
        push_str(&mut v, "). Debe ser ");
        push_decimal(&mut v, expected as u128);
        push_str(&mut v, ".");
        assert(v@ =~= msg_row_length(m as nat, r as nat, len as nat, expected as nat));
        return Some(message_string(v));
    }
    match first_non_note_char_exec(row) {
        Some(c) => {
            let mut v: Vec<char> = Vec::new();
            push_str(&mut v, "Medida ");
            push_decimal(&mut v, m as u128);
            push_str(&mut v, ", fila ");
            push_decimal(&mut v, r as u128);
            push_str(&mut v, ": carácter inválido '");
            v.push(c);
            push_str(&mut v, "' en payload Gemini. Solo se permiten '0', '1', '2', '3'.");
            assert(v@ =~= msg_bad_char(m as nat, r as nat, c));
            Some(message_string(v))
        },
        None => None,
    }
}

fn measure_structure_error_exec(m: usize, measure: &GeminiMeasure, expected: usize) -> (e: Option<
    String,
>)
    ensures
        match e {
            Some(s) => measure_structure_error(m as nat, *measure, expected as nat) == Some(s@),
            None => measure_structure_error(m as nat, *measure, expected as nat) is None,
        },
{
    let sub = measure.subdivision;
    if sub != 4 && sub != 8 && sub != 16 && sub != 32 {
        let mut v: Vec<char> = Vec::new();
        push_str(&mut v, "Medida ");
        push_decimal(&mut v, m as u128);
        push_str(&mut v, ": subdivisión ");
        push_decimal(&mut v, sub as u128);
        push_str(&mut v, " no es válida. Solo se permiten 4, 8, 16 o 32.");
        assert(v@ =~= msg_bad_subdivision(m as nat, sub as nat));
        return Some(message_string(v));
    }
    let count = measure.rows.len();
    let count_low: u64 = (count as u64) % 0x1_0000_0000;
    assert(count_low == measure.rows@.len() % 0x1_0000_0000);
    if count_low != sub as u64 {
        let mut v: Vec<char> = Vec::new();
        push_str(&mut v, "Medida ");
        push_decimal(&mut v, m as u128);
        push_str(&mut v, ": el número de filas (");
        push_decimal(&mut v, count as u128);
        push_str(&mut v, ") no coincide con la subdivisión (");
        push_decimal(&mut v, sub as u128);
        push_str(&mut v, ").");
        assert(v@ =~= msg_row_count(m as nat, count as nat, sub as nat));
        return Some(message_string(v));
    }
    let ghost rows = measure_rows_view(*measure);
    let mut r: usize = 0;
    while r < count
        invariant
            r <= count == measure.rows@.len(),
            rows == measure_rows_view(*measure),
            is_allowed_subdivision(measure.subdivision),
            measure.rows@.len() % 0x1_0000_0000 == measure.subdivision as nat,
            rows_structure_error(m as nat, rows.take(r as int), expected as nat) is None,
        decreases count - r,
    {
        let cs = chars_of(measure.rows[r].as_str());
        let e = row_structure_error_exec(m, r, cs.as_slice(), expected);
        r = r + 1;
        proof {
            assert(rows.take(r as int).drop_last() =~= rows.take(r - 1));
            assert(rows.take(r as int).last() == rows[r - 1]);
        }
        if e.is_some() {
            proof {
                assert(rows[r - 1] == cs@);
                assert(rows_structure_error(m as nat, rows.take(r as int), expected as nat)
                    == row_structure_error(m as nat, (r - 1) as nat, cs@, expected as nat));
                lemma_rows_error_prefix(m as nat, rows, r as int, expected as nat);
            }
            return e;
        }
    }
    proof {
        assert(rows.take(count as int) =~= rows);
    }
    None
}

proof fn lemma_rows_error_prefix(m: nat, rows: Seq<Seq<char>>, i: int, expected: nat)
    requires
        0 < i <= rows.len(),
        rows_structure_error(m, rows.take(i), expected) is Some,
    ensures
        rows_structure_error(m, rows, expected) == rows_structure_error(m, rows.take(i), expected),
    decreases rows.len() - i,
{
    if i < rows.len() {
        assert(rows.take(i + 1).drop_last() =~= rows.take(i));
        lemma_rows_error_prefix(m, rows, i + 1, expected);
    } else {
        assert(rows.take(i) =~= rows);
    }
}

proof fn lemma_measures_error_prefix(ms: Seq<GeminiMeasure>, i: int, expected: nat)
    requires
        0 < i <= ms.len(),
        measures_structure_error(ms.take(i), expected) is Some,
    ensures
        measures_structure_error(ms, expected) == measures_structure_error(ms.take(i), expected),
    decreases ms.len() - i,
{
    if i < ms.len() {
        assert(ms.take(i + 1).drop_last() =~= ms.take(i));
        lemma_measures_error_prefix(ms, i + 1, expected);
    } else {
        assert(ms.take(i) =~= ms);
    }
}

impl GeminiChartSectionPayload {
    /// Structural validation: Single only, level 1 to 26, 1 to 16 measures,
    /// subdivisions 4, 8, 16 or 32 with as many rows, rows of 5 bytes made of
    /// `0`-`3`. The first fault found is reported.
    pub fn validate_structure(&self) -> (res: Result<(), String>)
        ensures
            match res {
                Ok(()) => structure_error(*self) is None,
                Err(e) => structure_error(*self) == Some(e@),
            },
    {
        match self.play_mode {
            PlayMode::Single => {
                if self.difficulty_level < 1 || self.difficulty_level > 26 {
                    let mut v: Vec<char> = Vec::new();
                    push_str(&mut v, "Nivel de dificultad Single (");
                    push_decimal(&mut v, self.difficulty_level as u128);
                    push_str(&mut v, ") fuera de rango (1-26).");
                    assert(v@ =~= msg_level_out_of_range(self.difficulty_level as nat));
                    return Err(message_string(v));
                }
            },
            PlayMode::Double => {
                return Err(String::from_str("Play mode Double is not supported in this phase."));
            },
        }
        if self.measures.len() == 0 {
            return Err(
                String::from_str("El payload de Gemini no contiene medidas (measures está vacío)."),
            );
        }
        if self.measures.len() > MAX_SECTION_MEASURES {
            let mut v: Vec<char> = Vec::new();
            push_str(&mut v, "El payload de Gemini supera el límite máximo de ");
            push_decimal(&mut v, MAX_SECTION_MEASURES as u128);
            push_str(&mut v, " medidas (recibidas: ");
            push_decimal(&mut v, self.measures.len() as u128);
            push_str(&mut v, ").");
            assert(v@ =~= msg_too_many_measures(
                MAX_SECTION_MEASURES as nat,
                self.measures@.len(),
            ));
            return Err(message_string(v));
        }
        let expected: usize = 5;
        let mut i: usize = 0;
        while i < self.measures.len()
            invariant
                i <= self.measures@.len(),
                self.play_mode == PlayMode::Single,
                expected == 5,
                1 <= self.difficulty_level <= 26,
                0 < self.measures@.len() <= MAX_SECTION_MEASURES,
                measures_structure_error(self.measures@.take(i as int), 5) is None,
            decreases self.measures@.len() - i,
        {
            let e = measure_structure_error_exec(i, &self.measures[i], expected);
            i = i + 1;
            proof {
                assert(self.measures@.take(i as int).drop_last() =~= self.measures@.take(i - 1));
                assert(self.measures@.take(i as int).last() == self.measures@[i - 1]);
            }
            match e {
                Some(msg) => {
                    proof {
                        lemma_measures_error_prefix(self.measures@, i as int, 5);
                    }
                    return Err(msg);
                },
                None => {
                    assert(measures_structure_error(self.measures@.take(i as int), 5) is None);
                },
            }
        }
        proof {
            assert(self.measures@.take(self.measures@.len() as int) =~= self.measures@);
        }
        Ok(())
    }

    /// The note text of the payload (see `payload_notes`).
    pub fn to_ssc_notes(&self) -> (notes: String)
        ensures
            notes@ == payload_notes(*self),
    {
        let ghost parts = self.measures@.map_values(
            |m: GeminiMeasure| join_with(measure_rows_view(m), "\n"@),
        );
        let mut measure_texts: Vec<String> = Vec::new();
        let mut i: usize = 0;
        while i < self.measures.len()
            invariant
                i <= self.measures@.len(),
                parts == self.measures@.map_values(
                    |m: GeminiMeasure| join_with(measure_rows_view(m), "\n"@),
                ),
                string_views(measure_texts@) == parts.take(i as int),
            decreases self.measures@.len() - i,
        {
            let mut v: Vec<char> = Vec::new();
            push_joined(&mut v, &self.measures[i].rows, "\n");
            let text = string_from_chars(v.as_slice());
            let ghost before = measure_texts@;
            measure_texts.push(text);
            i = i + 1;
            proof {
                assert(string_views(measure_texts@) =~= string_views(before).push(text@));
                assert(parts.take(i as int) =~= parts.take(i - 1).push(parts[i - 1]));
            }
        }
        proof {
            assert(parts.take(self.measures@.len() as int) =~= parts);
        }
        let mut out: Vec<char> = Vec::new();
        push_joined(&mut out, &measure_texts, ",\n");
        push_str(&mut out, "\n;");
        assert(out@ =~= payload_notes(*self));
        string_from_chars(out.as_slice())
    }
}


// ---------------------------------------------------------------------------
// Note text written and read back
// ---------------------------------------------------------------------------

/// A row that reads back unchanged from note text: not empty, and without
/// whitespace, commas or slashes.
pub open spec fn plain_row(r: Seq<char>) -> bool {
    r.len() > 0 && forall|i: int|
        0 <= i < r.len() ==> !is_ws(#[trigger] r[i]) && r[i] != ',' && r[i] != '/'
}

proof fn lemma_plain_row_clean(r: Seq<char>)
    requires
        plain_row(r),
    ensures
        clean_note_line(r) == r,
        !r.contains('\n'),
        !r.contains(','),
{
    assert(is_ws('\n'));
    assert(ltrim(r) == r);
    assert(rtrim(r) == r) by {
        assert(r.last() == r[r.len() - 1]);
    }
    reveal_strlit("//");
    if contains_seq(r, "//"@) {
        let i = choose|i: int| occurs_at(r, "//"@, i);
        assert(r.subrange(i, i + 2)[0] == '/');
        assert(r[i] == '/');
    }
    lemma_first_index_none(r, "//"@);
    if r.contains('\n') {
        let i = choose|i: int| 0 <= i < r.len() && r[i] == '\n';
        assert(!is_ws(r[i]));
    }
    if r.contains(',') {
        let i = choose|i: int| 0 <= i < r.len() && r[i] == ',';
        assert(r[i] != ',');
    }
}

proof fn lemma_clean_empty_line()
    ensures
        clean_note_line(Seq::empty()) == Seq::<char>::empty(),
{
    let e = Seq::<char>::empty();
    reveal_strlit("//");
    assert(trim(e) =~= e);
    if contains_seq(e, "//"@) {
        let i = choose|i: int| occurs_at(e, "//"@, i);
    }
    lemma_first_index_none(e, "//"@);
}

proof fn lemma_join_avoids(parts: Seq<Seq<char>>, sep: Seq<char>, c: char)
    requires
        !sep.contains(c),
        forall|i: int| 0 <= i < parts.len() ==> !(#[trigger] parts[i]).contains(c),
    ensures
        !join_with(parts, sep).contains(c),
    decreases parts.len(),
{
    if parts.len() == 1 {
        assert(!parts[0].contains(c));
    } else if parts.len() > 1 {
        let p0 = parts.drop_last();
        assert forall|i: int| 0 <= i < p0.len() implies !(#[trigger] p0[i]).contains(c) by {
            assert(p0[i] == parts[i]);
        }
        lemma_join_avoids(p0, sep, c);
        let j = join_with(p0, sep) + sep + parts.last();
        assert(!parts.last().contains(c)) by {
            assert(parts.last() == parts[parts.len() - 1]);
        }
        if j.contains(c) {
            let i = choose|i: int| 0 <= i < j.len() && j[i] == c;
            let a = join_with(p0, sep).len();
            if i < a {
                assert(join_with(p0, sep)[i] == c);
            } else if i < a + sep.len() {
                assert(sep[i - a] == c);
            } else {
                assert(parts.last()[i - a - sep.len()] == c);
            }
        }
    }
}

proof fn lemma_join_first(parts: Seq<Seq<char>>, sep: Seq<char>)
    requires
        parts.len() > 0,
        parts[0].len() > 0,
    ensures
        join_with(parts, sep).len() > 0,
        join_with(parts, sep)[0] == parts[0][0],
    decreases parts.len(),
{
    if parts.len() > 1 {
        let p0 = parts.drop_last();
        assert(p0[0] == parts[0]);
        lemma_join_first(p0, sep);
    }
}

/// The rows of one measure's text, with an optional line break before and
/// after it, are its rows.
proof fn lemma_measure_piece_rows(rows: Seq<Seq<char>>, before: bool, after: bool)
    requires
        rows.len() > 0,
        forall|i: int| 0 <= i < rows.len() ==> plain_row(#[trigger] rows[i]),
    ensures
        measure_rows(
            (if before { "\n"@ } else { Seq::<char>::empty() }) + join_with(rows, "\n"@) + (if after {
                "\n"@
            } else {
                Seq::<char>::empty()
            }),
        ) == rows,
{
    reveal_strlit("\n");
    let nl = "\n"@;
    assert(nl =~= seq!['\n'] + Seq::<char>::empty());
    assert forall|i: int| 0 <= i < rows.len() implies !(#[trigger] rows[i]).contains('\n') by {
        lemma_plain_row_clean(rows[i]);
    }
    lemma_split_on_join(rows, Seq::empty(), '\n');
    assert(seq![rows[0]] + rows.drop_first().map_values(|q: Seq<char>| Seq::<char>::empty() + q) =~= rows);
    let j = join_with(rows, nl);
    assert(split_on(j, '\n') == rows);
    let e = Seq::<char>::empty();
    let pre = if before { nl } else { e };
    let post = if after { nl } else { e };
    let blank = seq![e];
    assert(split_on(e, '\n') =~= blank);
    let mid = if before { blank + rows } else { rows };
    if before {
        lemma_split_on_concat(e, j, '\n');
        assert(e + seq!['\n'] + j =~= pre + j);
    } else {
        assert(pre + j =~= j);
    }
    assert(split_on(pre + j, '\n') == mid);
    let all = if after { mid + blank } else { mid };
    if after {
        lemma_split_on_concat(pre + j, e, '\n');
        assert(pre + j + seq!['\n'] + e =~= pre + j + post);
    } else {
        assert(pre + j + post =~= pre + j);
    }
    assert(split_on(pre + j + post, '\n') == all);
    lemma_clean_empty_line();
    let cleaned = all.map_values(|l: Seq<char>| clean_note_line(l));
    let crows = rows.map_values(|l: Seq<char>| clean_note_line(l));
    assert forall|i: int| 0 <= i < rows.len() implies crows[i] == rows[i] by {
        lemma_plain_row_clean(rows[i]);
    }
    assert(crows =~= rows);
    assert(blank.map_values(|l: Seq<char>| clean_note_line(l)) =~= blank);
    assert(nonempty_only(blank) =~= Seq::<Seq<char>>::empty()) by {
        assert(blank.last() == e);
        assert(blank.drop_last() =~= Seq::<Seq<char>>::empty());
        reveal_with_fuel(nonempty_only, 2);
    }
    lemma_nonempty_only_keeps(rows);
    if before {
        assert((blank + rows).map_values(|l: Seq<char>| clean_note_line(l)) =~= blank + rows);
        lemma_nonempty_only_concat(blank, rows);
        assert(Seq::<Seq<char>>::empty() + rows =~= rows);
    } else {
        assert(rows.map_values(|l: Seq<char>| clean_note_line(l)) =~= rows);
    }
    if after {
        assert(cleaned =~= mid + blank);
        lemma_nonempty_only_concat(mid, blank);
        assert(rows + Seq::<Seq<char>>::empty() =~= rows);
    } else {
        assert(cleaned =~= mid);
    }
}

/// The note text written for a payload reads back as the payload's rows,
/// measure by measure, when it has measures, each measure has rows, and
/// every row is plain.
pub proof fn lemma_payload_notes_read_back(p: GeminiChartSectionPayload)
    requires
        p.measures@.len() > 0,
        forall|m: int| 0 <= m < p.measures@.len() ==> (#[trigger] p.measures@[m]).rows@.len() > 0,
        forall|m: int, r: int|
            0 <= m < p.measures@.len() && 0 <= r < p.measures@[m].rows@.len() ==> plain_row(
                #[trigger] p.measures@[m].rows@[r]@,
            ),
    ensures
        chart_measures(payload_notes(p)) == p.measures@.map_values(|m: GeminiMeasure| measure_rows_view(m)),
{
    reveal_strlit("\n");
    reveal_strlit(",\n");
    reveal_strlit("\n;");
    let ms = p.measures@;
    let k = ms.len();
    let rv = ms.map_values(|m: GeminiMeasure| measure_rows_view(m));
    let parts = ms.map_values(|m: GeminiMeasure| join_with(measure_rows_view(m), "\n"@));
    assert forall|m: int| 0 <= m < k implies {
        &&& (#[trigger] rv[m]).len() > 0
        &&& forall|r: int| 0 <= r < rv[m].len() ==> plain_row(#[trigger] rv[m][r])
    } by {
        assert(rv[m] == string_views(ms[m].rows@));
        assert forall|r: int| 0 <= r < rv[m].len() implies plain_row(#[trigger] rv[m][r]) by {
            assert(rv[m][r] == ms[m].rows@[r]@);
        }
    }
    assert forall|m: int| 0 <= m < k implies !(#[trigger] parts[m]).contains(',') by {
        assert(parts[m] == join_with(rv[m], "\n"@));
        assert forall|r: int| 0 <= r < rv[m].len() implies !(#[trigger] rv[m][r]).contains(',') by {
            lemma_plain_row_clean(rv[m][r]);
        }
        assert(!"\n"@.contains(','));
        lemma_join_avoids(rv[m], "\n"@, ',');
    }
    let j = join_with(parts, ",\n"@);
    let notes = j + "\n;"@;
    assert(notes == payload_notes(p));
    // The text starts with the first row and ends with ';': trimming keeps it.
    assert(parts[0] == join_with(rv[0], "\n"@));
    assert(rv[0][0].len() > 0 && !is_ws(rv[0][0][0]));
    lemma_join_first(rv[0], "\n"@);
    lemma_join_first(parts, ",\n"@);
    assert(notes[0] == j[0]);
    assert(ltrim(notes) == notes);
    assert(notes.last() == ';');
    assert(rtrim(notes) == notes);
    assert(trim(notes) == notes);
    assert(notes.drop_last() =~= j + "\n"@);
    assert(strip_trailing(notes, ';') == strip_trailing(j + "\n"@, ';'));
    assert((j + "\n"@).last() == '\n');
    assert(strip_trailing(j + "\n"@, ';') == j + "\n"@);
    // Split at the commas: the first measure, then each later one behind its line break.
    assert(",\n"@ =~= seq![','] + "\n"@);
    lemma_split_on_join(parts, "\n"@, ',');
    let sj = seq![parts[0]] + parts.drop_first().map_values(|q: Seq<char>| "\n"@ + q);
    assert(split_on(j, ',') == sj);
    assert(!"\n"@.contains(','));
    lemma_split_on_append(j, "\n"@, ',');
    let pieces = sj.update(sj.len() - 1, sj.last() + "\n"@);
    assert(split_on(j + "\n"@, ',') == pieces);
    assert(pieces.len() == k);
    assert forall|m: int| 0 <= m < k implies measure_rows(#[trigger] pieces[m]) == rv[m] by {
        let before = m > 0;
        let after = m == k - 1;
        let pre = if before { "\n"@ } else { Seq::<char>::empty() };
        let post = if after { "\n"@ } else { Seq::<char>::empty() };
        if m > 0 {
            assert(sj[m] == "\n"@ + parts[m]);
        } else {
            assert(sj[m] == parts[m]);
        }
        assert(pieces[m] =~= pre + join_with(rv[m], "\n"@) + post);
        lemma_measure_piece_rows(rv[m], before, after);
    }
    assert(chart_measures(notes) =~= rv);
}

// ---------------------------------------------------------------------------
// What a well-formed section's notes raise
// ---------------------------------------------------------------------------

/// A row of the right length made of note characters only.
pub open spec fn good_row(row: Seq<char>, expected: nat) -> bool {
    utf8_len(row) == expected && forall|i: int| 0 <= i < row.len() ==> is_note_char(#[trigger] row[i])
}

proof fn lemma_note_chars_only(row: Seq<char>)
    requires
        first_non_note_char(row) is None,
    ensures
        forall|i: int| 0 <= i < row.len() ==> is_note_char(#[trigger] row[i]),
    decreases row.len(),
{
    if row.len() > 0 {
        lemma_note_chars_only(row.drop_last());
        assert forall|i: int| 0 <= i < row.len() implies is_note_char(#[trigger] row[i]) by {
            if i < row.len() - 1 {
                assert(row.drop_last()[i] == row[i]);
            }
        }
    }
}

proof fn lemma_rows_good(m: nat, rows: Seq<Seq<char>>, expected: nat)
    requires
        rows_structure_error(m, rows, expected) is None,
    ensures
        forall|r: int| 0 <= r < rows.len() ==> good_row(#[trigger] rows[r], expected),
    decreases rows.len(),
{
    if rows.len() > 0 {
        lemma_rows_good(m, rows.drop_last(), expected);
        lemma_note_chars_only(rows.last());
        assert forall|r: int| 0 <= r < rows.len() implies good_row(#[trigger] rows[r], expected) by {
            if r < rows.len() - 1 {
                assert(rows.drop_last()[r] == rows[r]);
            }
        }
    }
}

proof fn lemma_measures_good(ms: Seq<GeminiMeasure>, expected: nat)
    requires
        measures_structure_error(ms, expected) is None,
    ensures
        forall|m: int| 0 <= m < ms.len() ==> measure_structure_error(m as nat, #[trigger] ms[m], expected) is None,
    decreases ms.len(),
{
    if ms.len() > 0 {
        lemma_measures_good(ms.drop_last(), expected);
        assert forall|m: int| 0 <= m < ms.len() implies measure_structure_error(m as nat, #[trigger] ms[m], expected) is None by {
            if m < ms.len() - 1 {
                assert(ms.drop_last()[m] == ms[m]);
            }
        }
    }
}

proof fn lemma_scan_row_warns(level: u32, st: ScanState, m: usize, r: usize, n: usize, row: Seq<char>)
    requires
        good_row(row, 5),
    ensures
        forall|i: int| 0 <= i < scan_row(PlayMode::Single, level, st, m, r, n, row).1.len() ==> {
            let iv = #[trigger] scan_row(PlayMode::Single, level, st, m, r, n, row).1[i];
            iv.severity == ValidationSeverity::Warning && iv.measure_index == m && iv.row_index == r
        },
{
    if row.contains('M') {
        let i = choose|i: int| 0 <= i < row.len() && row[i] == 'M';
        assert(is_note_char(row[i]));
    }
    if has_invalid_char(row) {
        let i = choose|i: int| 0 <= i < row.len() && row[i] != 'M' && !is_note_char(row[i]);
        assert(is_note_char(row[i]));
    }
}

proof fn lemma_scan_rows_warn(level: u32, st: ScanState, m: usize, n: usize, rows: Seq<Seq<char>>)
    requires
        forall|r: int| 0 <= r < rows.len() ==> good_row(#[trigger] rows[r], 5),
    ensures
        forall|i: int| 0 <= i < scan_rows(PlayMode::Single, level, st, m, n, rows).1.len() ==> {
            let iv = #[trigger] scan_rows(PlayMode::Single, level, st, m, n, rows).1[i];
            iv.severity == ValidationSeverity::Warning && iv.measure_index == m && iv.row_index < rows.len()
        },
    decreases rows.len(),
{
    if rows.len() > 0 {
        let p = rows.drop_last();
        assert forall|r: int| 0 <= r < p.len() implies good_row(#[trigger] p[r], 5) by {
            assert(p[r] == rows[r]);
        }
        lemma_scan_rows_warn(level, st, m, n, p);
        let before = scan_rows(PlayMode::Single, level, st, m, n, p);
        let r = (rows.len() - 1) as usize;
        assert(good_row(rows[rows.len() - 1], 5));
        lemma_scan_row_warns(level, before.0, m, r, n, rows.last());
        let after = scan_row(PlayMode::Single, level, before.0, m, r, n, rows.last());
        let all = scan_rows(PlayMode::Single, level, st, m, n, rows).1;
        assert(all == before.1 + after.1);
        assert forall|i: int| 0 <= i < all.len() implies {
            let iv = #[trigger] all[i];
            iv.severity == ValidationSeverity::Warning && iv.measure_index == m && iv.row_index < rows.len()
        } by {
            if i < before.1.len() {
                assert(all[i] == before.1[i]);
            } else {
                assert(all[i] == after.1[i - before.1.len()]);
            }
        }
    }
}

proof fn lemma_scan_measures_warn(level: u32, st: ScanState, ms: Seq<Seq<Seq<char>>>)
    requires
        ms.len() <= usize::MAX,
        forall|m: int, r: int| 0 <= m < ms.len() && 0 <= r < ms[m].len() ==> good_row(#[trigger] ms[m][r], 5),
    ensures
        forall|i: int| 0 <= i < scan_measures(PlayMode::Single, level, st, ms).1.len() ==> {
            let iv = #[trigger] scan_measures(PlayMode::Single, level, st, ms).1[i];
            &&& iv.severity == ValidationSeverity::Warning
            &&& iv.measure_index < ms.len()
            &&& iv.row_index < ms[iv.measure_index as int].len()
        },
    decreases ms.len(),
{
    if ms.len() > 0 {
        let p = ms.drop_last();
        assert forall|m: int, r: int| 0 <= m < p.len() && 0 <= r < p[m].len() implies good_row(#[trigger] p[m][r], 5) by {
            assert(p[m] == ms[m]);
        }
        lemma_scan_measures_warn(level, st, p);
        let before = scan_measures(PlayMode::Single, level, st, p);
        let last = ms.last();
        let m = (ms.len() - 1) as usize;
        assert forall|r: int| 0 <= r < last.len() implies good_row(#[trigger] last[r], 5) by {
            assert(last == ms[ms.len() - 1]);
        }
        lemma_scan_rows_warn(level, before.0, m, last.len() as usize, last);
        let after = scan_rows(PlayMode::Single, level, before.0, m, last.len() as usize, last);
        let all = scan_measures(PlayMode::Single, level, st, ms).1;
        assert(all == before.1 + after.1);
        assert forall|i: int| 0 <= i < all.len() implies {
            let iv = #[trigger] all[i];
            &&& iv.severity == ValidationSeverity::Warning
            &&& iv.measure_index < ms.len()
            &&& iv.row_index < ms[iv.measure_index as int].len()
        } by {
            if i < before.1.len() {
                assert(all[i] == before.1[i]);
                assert(p[all[i].measure_index as int] == ms[all[i].measure_index as int]);
            } else {
                assert(all[i] == after.1[i - before.1.len()]);
            }
        }
    }
}

/// The note text of a well-formed section raises warnings only (no length,
/// mine or character errors), each at a row of the section.
pub proof fn lemma_well_formed_notes_warn_only(p: GeminiChartSectionPayload)
    requires
        structure_error(p) is None,
    ensures
        forall|i: int| 0 <= i < chart_issues(p.play_mode, p.difficulty_level, payload_notes(p)).len() ==> {
            let iv = #[trigger] chart_issues(p.play_mode, p.difficulty_level, payload_notes(p))[i];
            &&& iv.severity == ValidationSeverity::Warning
            &&& iv.measure_index < p.measures@.len()
            &&& iv.row_index < p.measures@[iv.measure_index as int].rows@.len()
        },
{
    let ms = p.measures@;
    assert(p.play_mode == PlayMode::Single);
    lemma_measures_good(ms, 5);
    let rv = ms.map_values(|m: GeminiMeasure| measure_rows_view(m));
    assert forall|m: int, r: int| 0 <= m < ms.len() && 0 <= r < rv[m].len() implies good_row(#[trigger] rv[m][r], 5) by {
        assert(measure_structure_error(m as nat, ms[m], 5) is None);
        lemma_rows_good(m as nat, measure_rows_view(ms[m]), 5);
        assert(rv[m] == measure_rows_view(ms[m]));
    }
    assert forall|m: int| 0 <= m < ms.len() implies (#[trigger] ms[m]).rows@.len() > 0 by {
        assert(measure_structure_error(m as nat, ms[m], 5) is None);
        assert(is_allowed_subdivision(ms[m].subdivision));
    }
    assert forall|m: int, r: int|
        0 <= m < ms.len() && 0 <= r < ms[m].rows@.len() implies plain_row(#[trigger] ms[m].rows@[r]@) by {
        assert(rv[m] == measure_rows_view(ms[m]));
        assert(rv[m][r] == ms[m].rows@[r]@);
        let row = rv[m][r];
        assert(good_row(row, 5));
        if row.len() == 0 {
            assert(utf8_len(row) == 0);
        }
        assert forall|i: int| 0 <= i < row.len() implies !is_ws(#[trigger] row[i]) && row[i] != ',' && row[i] != '/' by {
            assert(is_note_char(row[i]));
        }
    }
    lemma_payload_notes_read_back(p);
    lemma_scan_measures_warn(p.difficulty_level, initial_scan_state(), rv);
    assert forall|m: int| 0 <= m < ms.len() implies (#[trigger] rv[m]).len() == ms[m].rows@.len() by {
        assert(rv[m] == measure_rows_view(ms[m]));
    }
}

// ---------------------------------------------------------------------------
// Quick single steps on one side
// ---------------------------------------------------------------------------

/// A Single row that taps panel `c` alone.
pub open spec fn single_tap_row(c: int) -> Seq<char> {
    Seq::new(5, |i: int| if i == c { '1' } else { '0' })
}

/// Panels `p` and `c` of a Single pad are the same panel or on the same side
/// (down-left and up-left, or up-right and down-right).
pub open spec fn same_foot_side(p: int, c: int) -> bool {
    p == c || ((p == 0 || p == 1) && (c == 0 || c == 1)) || ((p == 3 || p == 4) && (c == 3 || c == 4))
}

proof fn lemma_single_tap_row(c: int)
    requires
        0 <= c < 5,
    ensures
        utf8_len(single_tap_row(c)) == 5,
        taps_of(single_tap_row(c)) == seq![c as usize],
        !single_tap_row(c).contains('M'),
        !has_invalid_char(single_tap_row(c)),
{
    let row = single_tap_row(c);
    let r4 = row.drop_last();
    let r3 = r4.drop_last();
    let r2 = r3.drop_last();
    let r1 = r2.drop_last();
    let r0 = r1.drop_last();
    assert(r0.len() == 0);
    assert(row.last() == row[4] && r4.last() == row[3] && r3.last() == row[2] && r2.last() == row[1]
        && r1.last() == row[0]);
    assert(utf8_len(r0) == 0);
    assert(crate::text::utf8_width('0') == 1 && crate::text::utf8_width('1') == 1);
    assert(utf8_len(r1) == 1);
    assert(utf8_len(r2) == 2);
    assert(utf8_len(r3) == 3);
    assert(utf8_len(r4) == 4);
    assert(taps_of(r0) =~= Seq::<usize>::empty());
    if c == 0 {
        assert(taps_of(r1) =~= seq![0usize]);
    } else {
        assert(taps_of(r1) =~= Seq::<usize>::empty());
    }
    if c <= 1 {
        assert(taps_of(r2) =~= seq![c as usize]);
    } else {
        assert(taps_of(r2) =~= Seq::<usize>::empty());
    }
    if c <= 2 {
        assert(taps_of(r3) =~= seq![c as usize]);
    } else {
        assert(taps_of(r3) =~= Seq::<usize>::empty());
    }
    if c <= 3 {
        assert(taps_of(r4) =~= seq![c as usize]);
    } else {
        assert(taps_of(r4) =~= Seq::<usize>::empty());
    }
    assert(taps_of(row) =~= seq![c as usize]);
    if row.contains('M') {
        let i = choose|i: int| 0 <= i < row.len() && row[i] == 'M';
    }
    if has_invalid_char(row) {
        let i = choose|i: int| 0 <= i < row.len() && row[i] != 'M' && !is_note_char(row[i]);
    }
}

/// In Single mode, a row tapping panel `p` alone and, on the next row of a
/// measure of 16 or more rows (a sixteenth later), a row tapping panel `c`
/// alone: the second row raises exactly one issue, a double-step warning at
/// that row, when the two panels are the same or on the same side, and none
/// otherwise, whatever came before. Mirroring the pad (panel `q` to `4 - q`)
/// therefore changes neither the number nor the kind of the issues.
pub proof fn lemma_quick_same_side_steps(level: u32, st: ScanState, m: usize, r: usize, n: usize, p: int, c: int)
    requires
        0 <= p < 5,
        0 <= c < 5,
        n >= 16,
        r + 1 < n,
    ensures
        ({
            let a = scan_row(PlayMode::Single, level, st, m, r, n, single_tap_row(p));
            let b = scan_row(PlayMode::Single, level, a.0, m, (r + 1) as usize, n, single_tap_row(c));
            let am = scan_row(PlayMode::Single, level, st, m, r, n, single_tap_row(4 - p));
            let bm = scan_row(PlayMode::Single, level, am.0, m, (r + 1) as usize, n, single_tap_row(4 - c));
            &&& b.1.len() == (if same_foot_side(p, c) { 1int } else { 0int })
            &&& same_foot_side(p, c) ==> {
                &&& b.1[0].issue_type == ValidationIssueType::DoubleStep
                &&& b.1[0].severity == ValidationSeverity::Warning
                &&& b.1[0].measure_index == m
                &&& b.1[0].row_index == r + 1
            }
            &&& bm.1.len() == b.1.len()
            &&& bm.1.len() > 0 ==> bm.1[0].issue_type == b.1[0].issue_type
        }),
{
    lemma_single_tap_row(p);
    lemma_single_tap_row(c);
    lemma_single_tap_row(4 - p);
    lemma_single_tap_row(4 - c);
    lemma_beats_same_measure(m as int, r as int, r + 1, n as int);
    assert(beats_close(m as int, r as int, n as int, m as int, r + 1, n as int));
    let a = scan_row(PlayMode::Single, level, st, m, r, n, single_tap_row(p));
    assert(a.0.last_tap == Some(TapEventView { measure: m, row: r, rows_in_measure: n, taps: seq![p as usize], sixteen_plus: true }));
    let b = scan_row(PlayMode::Single, level, a.0, m, (r + 1) as usize, n, single_tap_row(c));
    let ds = double_step_issues(PlayMode::Single, a.0.last_tap, m, (r + 1) as usize, n, seq![c as usize]);
    assert(b.1 =~= ds);
    assert(ds.len() == (if same_foot_side(p, c) { 1int } else { 0int }));
    let am = scan_row(PlayMode::Single, level, st, m, r, n, single_tap_row(4 - p));
    let bm = scan_row(PlayMode::Single, level, am.0, m, (r + 1) as usize, n, single_tap_row(4 - c));
    assert(am.0.last_tap == Some(TapEventView { measure: m, row: r, rows_in_measure: n, taps: seq![(4 - p) as usize], sixteen_plus: true }));
    let dsm = double_step_issues(PlayMode::Single, am.0.last_tap, m, (r + 1) as usize, n, seq![(4 - c) as usize]);
    assert(bm.1 =~= dsm);
    assert(same_foot_side(4 - p, 4 - c) == same_foot_side(p, c));
}

} // verus!
