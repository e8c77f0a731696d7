//! The multi-section preview queue: which requests and sections are
//! accepted, how each queued section ends, and the session's status.
use vstd::prelude::*;
use crate::biomechanics::{
    issue_views, GeminiChartSectionPayload, IssueView, ValidationIssue, ValidationSeverity,
};
use crate::commands::FileFingerprint;
use crate::corpus::row_tally;
use crate::guardrail::{payload_rows, section_counts, total_chars};
use crate::text::{
    chars_of, decimal, push_all, push_decimal, push_str, string_from_chars, string_views, views,
};

verus! {

pub const MAX_SECTIONS_PER_BATCH: usize = 4;

pub const MAX_MEASURES_PER_SECTION: i32 = 16;

pub const MAX_TOTAL_MEASURES_PER_BATCH: i32 = 64;

// ---------------------------------------------------------------------------
// Requests
// ---------------------------------------------------------------------------

/// Some section id occurs twice.
pub open spec fn has_duplicate(ids: Seq<Seq<char>>) -> bool {
    exists|i: int, j: int| 0 <= i < j < ids.len() && ids[i] == ids[j]
}

/// Why a selection of sections is refused, before any file is read.
pub open spec fn request_error(ids: Seq<Seq<char>>, max_sections: Option<usize>) -> Option<Seq<char>> {
    if ids.len() == 0 {
        Some("La selección de secciones no puede estar vacía."@)
    } else if ids.len() > MAX_SECTIONS_PER_BATCH {
        Some(
            "Se ha excedido el límite máximo de secciones permitidas por lote (Límite: "@ + decimal(
                MAX_SECTIONS_PER_BATCH as nat,
            ) + ", Solicitadas: "@ + decimal(ids.len()) + ")."@,
        )
    } else if max_sections is Some && max_sections->0 > MAX_SECTIONS_PER_BATCH {
        Some(
            "El parámetro max_sections ("@ + decimal(max_sections->0 as nat)
                + ") supera el límite estricto permitido de "@ + decimal(
                MAX_SECTIONS_PER_BATCH as nat,
            ) + "."@,
        )
    } else if has_duplicate(ids) {
        Some("No se permiten secciones duplicadas en una solicitud."@)
    } else {
        None
    }
}

fn any_duplicate(ids: &Vec<String>) -> (b: bool)
    ensures
        b == has_duplicate(string_views(ids@)),
{
    let ghost v = string_views(ids@);
    let mut j: usize = 0;
    while j < ids.len()
        invariant
            j <= ids@.len(),
            v == string_views(ids@),
            forall|a: int, b: int| 0 <= a < b < j ==> v[a] != v[b],
        decreases ids@.len() - j,
    {
        let cj = chars_of(ids[j].as_str());
        let mut i: usize = 0;
        while i < j
            invariant
                i <= j < ids@.len(),
                v == string_views(ids@),
                cj@ == v[j as int],
                forall|a: int| 0 <= a < i ==> v[a] != v[j as int],
            decreases j - i,
        {
            if crate::text::chars_equal(chars_of(ids[i].as_str()).as_slice(), cj.as_slice()) {
                assert(v[i as int] == v[j as int]);
                return true;
            }
            i = i + 1;
        }
        j = j + 1;
    }
    false
}

/// Checks a multi-section request: one to four distinct sections, and a
/// `max_sections` (when given) within the limit.
pub fn validate_section_request(selected_section_ids: &Vec<String>, max_sections: Option<usize>) -> (r:
    Result<(), String>)
    ensures
        match r {
            Ok(()) => request_error(string_views(selected_section_ids@), max_sections) is None,
            Err(m) => request_error(string_views(selected_section_ids@), max_sections) == Some(m@),
        },
{
    let n = selected_section_ids.len();
    if n == 0 {
        return Err(String::from_str("La selección de secciones no puede estar vacía."));
    }
    if n > MAX_SECTIONS_PER_BATCH {
        let mut m: Vec<char> = Vec::new();
        push_str(&mut m, "Se ha excedido el límite máximo de secciones permitidas por lote (Límite: ");
        push_decimal(&mut m, MAX_SECTIONS_PER_BATCH as u128);
        push_str(&mut m, ", Solicitadas: ");
        push_decimal(&mut m, n as u128);
        push_str(&mut m, ").");
        return Err(string_from_chars(m.as_slice()));
    }
    match max_sections {
        Some(ms) => if ms > MAX_SECTIONS_PER_BATCH {
            let mut m: Vec<char> = Vec::new();
            push_str(&mut m, "El parámetro max_sections (");
            push_decimal(&mut m, ms as u128);
            push_str(&mut m, ") supera el límite estricto permitido de ");
            push_decimal(&mut m, MAX_SECTIONS_PER_BATCH as u128);
            push_str(&mut m, ".");
            return Err(string_from_chars(m.as_slice()));
        },
        None => {},
    }
    if any_duplicate(selected_section_ids) {
        return Err(String::from_str("No se permiten secciones duplicadas en una solicitud."));
    }
    Ok(())
}

// ---------------------------------------------------------------------------
// Sections of the plan
// ---------------------------------------------------------------------------

/// A section of the song's plan, as the queue reads it.
#[derive(Debug, Clone)]
pub struct SectionNode {
    pub section_id: String,
    pub section_index: usize,
    pub enabled: bool,
    pub start_measure: i32,
    pub end_measure: i32,
}

/// The index of the first plan section with the given id.
pub open spec fn find_node(plan: Seq<SectionNode>, id: Seq<char>) -> Option<int>
    decreases plan.len(),
{
    if plan.len() == 0 {
        None
    } else {
        match find_node(plan.drop_last(), id) {
            Some(i) => Some(i),
            None => if plan.last().section_id@ == id {
                Some(plan.len() - 1)
            } else {
                None
            },
        }
    }
}

/// Why a selected section cannot be generated, if it cannot.
pub open spec fn node_error(plan: Seq<SectionNode>, id: Seq<char>) -> Option<Seq<char>> {
    match find_node(plan, id) {
        None => Some("La sección seleccionada '"@ + id + "' no se encuentra en el plan."@),
        Some(i) => {
            let n = plan[i];
            if !n.enabled {
                Some("La sección seleccionada '"@ + id + "' está deshabilitada."@)
            } else if n.start_measure < 0 || n.end_measure < 0 {
                Some("La sección '"@ + id + "' tiene límites de compás inválidos (valores negativos)."@)
            } else if n.start_measure >= n.end_measure {
                Some("La sección '"@ + id + "' tiene límites de compás inválidos (inicio >= fin)."@)
            } else if n.end_measure - n.start_measure + 1 > MAX_MEASURES_PER_SECTION {
                Some(
                    "La sección '"@ + id + "' supera el límite máximo de "@ + decimal(
                        MAX_MEASURES_PER_SECTION as nat,
                    ) + " compases (longitud: "@ + decimal(
                        (n.end_measure - n.start_measure + 1) as nat,
                    ) + ")."@,
                )
            } else {
                None
            }
        },
    }
}

/// The first selected section that cannot be generated.
pub open spec fn first_node_error(plan: Seq<SectionNode>, ids: Seq<Seq<char>>) -> Option<Seq<char>>
    decreases ids.len(),
{
    if ids.len() == 0 {
        None
    } else {
        match first_node_error(plan, ids.drop_last()) {
            Some(e) => Some(e),
            None => node_error(plan, ids.last()),
        }
    }
}

/// The plan sections chosen, in the order selected.
pub open spec fn chosen_nodes(plan: Seq<SectionNode>, ids: Seq<Seq<char>>) -> Seq<SectionNode> {
    ids.map_values(|id: Seq<char>| plan[find_node(plan, id)->0])
}

pub open spec fn chronological(ns: Seq<SectionNode>) -> bool {
    forall|i: int| 0 < i < ns.len() ==> (#[trigger] ns[i]).start_measure >= ns[i - 1].start_measure
}

pub open spec fn total_measures(ns: Seq<SectionNode>) -> int
    decreases ns.len(),
{
    if ns.len() == 0 {
        0
    } else {
        total_measures(ns.drop_last()) + (ns.last().end_measure - ns.last().start_measure + 1)
    }
}

/// The sections to generate, or why the selection cannot be generated.
pub open spec fn selection_result(plan: Seq<SectionNode>, ids: Seq<Seq<char>>) -> Result<
    Seq<SectionNode>,
    Seq<char>,
> {
    match first_node_error(plan, ids) {
        Some(e) => Err(e),
        None => {
            let ns = chosen_nodes(plan, ids);
            if !chronological(ns) {
                Err("Las secciones seleccionadas deben estar ordenadas cronológicamente por compás."@)
            } else if total_measures(ns) > MAX_TOTAL_MEASURES_PER_BATCH {
                Err(
                    "El total de compases solicitado en el lote ("@ + decimal(total_measures(ns) as nat)
                        + ") supera el límite máximo de "@ + decimal(
                        MAX_TOTAL_MEASURES_PER_BATCH as nat,
                    ) + "."@,
                )
            } else {
                Ok(ns)
            }
        },
    }
}

proof fn lemma_find_node_prefix(plan: Seq<SectionNode>, id: Seq<char>, i: int)
    requires
        0 <= i <= plan.len(),
        forall|j: int| 0 <= j < i ==> (#[trigger] plan[j]).section_id@ != id,
    ensures
        find_node(plan.take(i), id) is None,
    decreases i,
{
    if i > 0 {
        assert(plan.take(i).drop_last() =~= plan.take(i - 1));
        lemma_find_node_prefix(plan, id, i - 1);
    }
}

proof fn lemma_find_node_found(plan: Seq<SectionNode>, id: Seq<char>, i: int, k: int)
    requires
        0 <= i < k <= plan.len(),
        plan[i].section_id@ == id,
        forall|j: int| 0 <= j < i ==> (#[trigger] plan[j]).section_id@ != id,
    ensures
        find_node(plan.take(k), id) == Some(i),
    decreases k,
{
    assert(plan.take(k).drop_last() =~= plan.take(k - 1));
    if k == i + 1 {
        lemma_find_node_prefix(plan, id, i);
    } else {
        lemma_find_node_found(plan, id, i, k - 1);
    }
}

fn find_node_index(plan: &Vec<SectionNode>, id: &[char]) -> (r: Option<usize>)
    ensures
        match r {
            Some(i) => find_node(plan@, id@) == Some(i as int) && i < plan@.len(),
            None => find_node(plan@, id@) is None,
        },
{
    let mut i: usize = 0;
    while i < plan.len()
        invariant
            i <= plan@.len(),
            forall|j: int| 0 <= j < i ==> (#[trigger] plan@[j]).section_id@ != id@,
        decreases plan@.len() - i,
    {
        if crate::text::chars_equal(chars_of(plan[i].section_id.as_str()).as_slice(), id) {
            proof {
                lemma_find_node_found(plan@, id@, i as int, plan@.len() as int);
                assert(plan@.take(plan@.len() as int) =~= plan@);
            }
            return Some(i);
        }
        i = i + 1;
    }
    proof {
        lemma_find_node_prefix(plan@, id@, plan@.len() as int);
        assert(plan@.take(plan@.len() as int) =~= plan@);
    }
    None
}

fn quoted_id(prefix: &str, id: &[char], suffix: &str) -> (s: String)
    ensures
        s@ == prefix@ + id@ + suffix@,
{
    let mut m: Vec<char> = Vec::new();
    push_str(&mut m, prefix);
    push_all(&mut m, id);
    push_str(&mut m, suffix);
    string_from_chars(m.as_slice())
}

fn copy_node(n: &SectionNode) -> (r: SectionNode)
    ensures
        r.section_id@ == n.section_id@ && r.section_index == n.section_index && r.enabled
            == n.enabled && r.start_measure == n.start_measure && r.end_measure == n.end_measure,
{
    SectionNode {
        section_id: string_from_chars(chars_of(n.section_id.as_str()).as_slice()),
        section_index: n.section_index,
        enabled: n.enabled,
        start_measure: n.start_measure,
        end_measure: n.end_measure,
    }
}

pub open spec fn node_fields(n: SectionNode) -> (Seq<char>, usize, bool, i32, i32) {
    (n.section_id@, n.section_index, n.enabled, n.start_measure, n.end_measure)
}

fn check_node(plan: &Vec<SectionNode>, id: &[char]) -> (r: Result<usize, String>)
    ensures
        match r {
            Ok(i) => node_error(plan@, id@) is None && find_node(plan@, id@) == Some(i as int) && i
                < plan@.len(),
            Err(m) => node_error(plan@, id@) == Some(m@),
        },
{
    let idx = match find_node_index(plan, id) {
        Some(i) => i,
        None => {
            return Err(quoted_id("La sección seleccionada '", id, "' no se encuentra en el plan."));
        },
    };
    let n = &plan[idx];
    if !n.enabled {
        return Err(quoted_id("La sección seleccionada '", id, "' está deshabilitada."));
    }
    if n.start_measure < 0 || n.end_measure < 0 {
        return Err(
            quoted_id(
                "La sección '",
                id,
                "' tiene límites de compás inválidos (valores negativos).",
            ),
        );
    }
    if n.start_measure >= n.end_measure {
        return Err(
            quoted_id("La sección '", id, "' tiene límites de compás inválidos (inicio >= fin)."),
        );
    }
    let len: i64 = n.end_measure as i64 - n.start_measure as i64 + 1;
    if len > MAX_MEASURES_PER_SECTION as i64 {
        let mut m: Vec<char> = Vec::new();
        push_str(&mut m, "La sección '");
        push_all(&mut m, id);
        push_str(&mut m, "' supera el límite máximo de ");
        push_decimal(&mut m, MAX_MEASURES_PER_SECTION as u128);
        push_str(&mut m, " compases (longitud: ");
        push_decimal(&mut m, len as u128);
        push_str(&mut m, ").");
        return Err(string_from_chars(m.as_slice()));
    }
    Ok(idx)
}

/// The sections chosen by id, in the order selected, when each can be
/// generated.
fn chosen_plan_nodes(plan: &Vec<SectionNode>, selected_section_ids: &Vec<String>) -> (r: Result<
    Vec<SectionNode>,
    String,
>)
    ensures
        match r {
            Ok(ns) => first_node_error(plan@, string_views(selected_section_ids@)) is None
                && ns@.map_values(|n: SectionNode| node_fields(n)) == chosen_nodes(
                plan@,
                string_views(selected_section_ids@),
            ).map_values(|n: SectionNode| node_fields(n)),
            Err(m) => first_node_error(plan@, string_views(selected_section_ids@)) == Some(m@),
        },
{
    let ghost ids = string_views(selected_section_ids@);
    let mut nodes: Vec<SectionNode> = Vec::new();
    let mut k: usize = 0;
    while k < selected_section_ids.len()
        invariant
            k <= selected_section_ids@.len(),
            ids == string_views(selected_section_ids@),
            first_node_error(plan@, ids.take(k as int)) is None,
            nodes@.map_values(|n: SectionNode| node_fields(n)) == chosen_nodes(
                plan@,
                ids.take(k as int),
            ).map_values(|n: SectionNode| node_fields(n)),
        decreases selected_section_ids@.len() - k,
    {
        let id = chars_of(selected_section_ids[k].as_str());
        proof {
            assert(ids.take(k + 1).drop_last() =~= ids.take(k as int));
            assert(ids.take(k + 1).last() == id@);
        }
        match check_node(plan, id.as_slice()) {
            Err(e) => {
                proof {
                    lemma_node_error_extends(plan@, ids, k + 1);
                }
                return Err(e);
            },
            Ok(idx) => {
                let ghost before = nodes@;
                nodes.push(copy_node(&plan[idx]));
                proof {
                    assert(nodes@.map_values(|n: SectionNode| node_fields(n)) =~= before.map_values(
                        |n: SectionNode| node_fields(n),
                    ).push(node_fields(plan@[idx as int])));
                    assert(chosen_nodes(plan@, ids.take(k + 1)) =~= chosen_nodes(
                        plan@,
                        ids.take(k as int),
                    ).push(plan@[idx as int]));
                }
            },
        }
        k = k + 1;
    }
    proof {
        assert(ids.take(selected_section_ids@.len() as int) =~= ids);
    }
    Ok(nodes)
}

pub open spec fn same_nodes(a: Seq<SectionNode>, b: Seq<SectionNode>) -> bool {
    a.len() == b.len() && forall|j: int| 0 <= j < a.len() ==> node_fields(#[trigger] a[j]) == node_fields(b[j])
}

proof fn lemma_same_nodes_total(a: Seq<SectionNode>, b: Seq<SectionNode>)
    requires
        same_nodes(a, b),
    ensures
        total_measures(a) == total_measures(b),
        chronological(a) == chronological(b),
    decreases a.len(),
{
    if a.len() > 0 {
        assert(node_fields(a[a.len() - 1]) == node_fields(b[b.len() - 1]));
        assert(same_nodes(a.drop_last(), b.drop_last())) by {
            assert forall|j: int| 0 <= j < a.drop_last().len() implies node_fields(
                #[trigger] a.drop_last()[j],
            ) == node_fields(b.drop_last()[j]) by {
                assert(node_fields(a[j]) == node_fields(b[j]));
            }
        }
        lemma_same_nodes_total(a.drop_last(), b.drop_last());
        if chronological(a) != chronological(b) {
            if chronological(a) {
                let j = choose|j: int| 0 < j < b.len() && !((#[trigger] b[j]).start_measure >= b[j - 1].start_measure);
                assert(node_fields(a[j]) == node_fields(b[j]));
                assert(node_fields(a[j - 1]) == node_fields(b[j - 1]));
            } else {
                let j = choose|j: int| 0 < j < a.len() && !((#[trigger] a[j]).start_measure >= a[j - 1].start_measure);
                assert(node_fields(a[j]) == node_fields(b[j]));
                assert(node_fields(a[j - 1]) == node_fields(b[j - 1]));
            }
        }
    }
}

fn in_measure_order(nodes: &Vec<SectionNode>) -> (b: bool)
    ensures
        b == chronological(nodes@),
{
    let mut i: usize = 1;
    while i < nodes.len()
        invariant
            1 <= i,
            forall|j: int| 0 < j < i && j < nodes@.len() ==> (#[trigger] nodes@[j]).start_measure
                >= nodes@[j - 1].start_measure,
        decreases nodes@.len() - i,
    {
        if nodes[i].start_measure < nodes[i - 1].start_measure {
            return false;
        }
        i = i + 1;
    }
    true
}

fn sum_measures(nodes: &Vec<SectionNode>) -> (t: i32)
    requires
        nodes@.len() <= MAX_SECTIONS_PER_BATCH,
        forall|a: int| 0 <= a < nodes@.len() ==> {
            let n = #[trigger] nodes@[a];
            &&& 0 <= n.start_measure < n.end_measure
            &&& n.end_measure - n.start_measure + 1 <= MAX_MEASURES_PER_SECTION
        },
    ensures
        t == total_measures(nodes@),
{
    let mut total: i32 = 0;
    let mut j: usize = 0;
    while j < nodes.len()
        invariant
            j <= nodes@.len() <= MAX_SECTIONS_PER_BATCH,
            forall|a: int| 0 <= a < nodes@.len() ==> {
                let n = #[trigger] nodes@[a];
                &&& 0 <= n.start_measure < n.end_measure
                &&& n.end_measure - n.start_measure + 1 <= MAX_MEASURES_PER_SECTION
            },
            total == total_measures(nodes@.take(j as int)),
            0 <= total <= 16 * j,
        decreases nodes@.len() - j,
    {
        proof {
            assert(nodes@.take(j + 1).drop_last() =~= nodes@.take(j as int));
        }
        total = total + (nodes[j].end_measure - nodes[j].start_measure + 1);
        j = j + 1;
    }
    proof {
        assert(nodes@.take(nodes@.len() as int) =~= nodes@);
    }
    total
}

/// Finds the selected sections in the plan and checks them: each must exist,
/// be enabled, span 2 to 16 measures with non-negative bounds; together they
/// must come in measure order and span at most 64 measures.
pub fn select_section_nodes(plan: &Vec<SectionNode>, selected_section_ids: &Vec<String>) -> (r:
    Result<Vec<SectionNode>, String>)
    requires
        selected_section_ids@.len() <= MAX_SECTIONS_PER_BATCH,
    ensures
        match r {
            Ok(ns) => selection_result(plan@, string_views(selected_section_ids@)) is Ok
                && same_nodes(ns@, selection_result(plan@, string_views(selected_section_ids@))->Ok_0),
            Err(m) => selection_result(plan@, string_views(selected_section_ids@)) == Err::<
                Seq<SectionNode>,
                Seq<char>,
            >(m@),
        },
{
    let ghost ids = string_views(selected_section_ids@);
    let nodes = match chosen_plan_nodes(plan, selected_section_ids) {
        Ok(v) => v,
        Err(e) => {
            return Err(e);
        },
    };
    let ghost ns = chosen_nodes(plan@, ids);
    proof {
        assert(nodes@.map_values(|n: SectionNode| node_fields(n)).len() == nodes@.len());
        assert(ns.map_values(|n: SectionNode| node_fields(n)).len() == ns.len());
        assert forall|j: int| 0 <= j < nodes@.len() implies node_fields(#[trigger] nodes@[j])
            == node_fields(ns[j]) by {
            assert(nodes@.map_values(|n: SectionNode| node_fields(n))[j] == ns.map_values(
                |n: SectionNode| node_fields(n),
            )[j]);
        }
        assert(same_nodes(nodes@, ns));
        lemma_same_nodes_total(nodes@, ns);
        lemma_chosen_nodes_sizes(plan@, ids);
        assert forall|a: int| 0 <= a < nodes@.len() implies {
            let n = #[trigger] nodes@[a];
            &&& 0 <= n.start_measure < n.end_measure
            &&& n.end_measure - n.start_measure + 1 <= MAX_MEASURES_PER_SECTION
        } by {
            assert(node_fields(nodes@[a]) == node_fields(ns[a]));
        }
    }
    if !in_measure_order(&nodes) {
        return Err(
            String::from_str(
                "Las secciones seleccionadas deben estar ordenadas cronológicamente por compás.",
            ),
        );
    }
    let total = sum_measures(&nodes);
    if total > MAX_TOTAL_MEASURES_PER_BATCH {
        let mut m: Vec<char> = Vec::new();
        push_str(&mut m, "El total de compases solicitado en el lote (");
        push_decimal(&mut m, total as u128);
        push_str(&mut m, ") supera el límite máximo de ");
        push_decimal(&mut m, MAX_TOTAL_MEASURES_PER_BATCH as u128);
        push_str(&mut m, ".");
        return Err(string_from_chars(m.as_slice()));
    }
    Ok(nodes)
}

proof fn lemma_chosen_nodes_sizes(plan: Seq<SectionNode>, ids: Seq<Seq<char>>)
    requires
        first_node_error(plan, ids) is None,
    ensures
        forall|a: int| 0 <= a < ids.len() ==> {
            let n = #[trigger] chosen_nodes(plan, ids)[a];
            &&& 0 <= n.start_measure < n.end_measure
            &&& n.end_measure - n.start_measure + 1 <= MAX_MEASURES_PER_SECTION
        },
    decreases ids.len(),
{
    if ids.len() > 0 {
        lemma_chosen_nodes_sizes(plan, ids.drop_last());
        assert forall|a: int| 0 <= a < ids.len() implies {
            let n = #[trigger] chosen_nodes(plan, ids)[a];
            &&& 0 <= n.start_measure < n.end_measure
            &&& n.end_measure - n.start_measure + 1 <= MAX_MEASURES_PER_SECTION
        } by {
            if a < ids.len() - 1 {
                assert(chosen_nodes(plan, ids)[a] == chosen_nodes(plan, ids.drop_last())[a]);
            }
        }
    }
}

proof fn lemma_node_error_extends(plan: Seq<SectionNode>, ids: Seq<Seq<char>>, k: int)
    requires
        0 < k <= ids.len(),
        first_node_error(plan, ids.take(k)) is Some,
    ensures
        first_node_error(plan, ids) == first_node_error(plan, ids.take(k)),
    decreases ids.len() - k,
{
    if k < ids.len() {
        assert(ids.take(k + 1).drop_last() =~= ids.take(k));
        lemma_node_error_extends(plan, ids, k + 1);
    } else {
        assert(ids.take(k) =~= ids);
    }
}


// ---------------------------------------------------------------------------
// The queue
// ---------------------------------------------------------------------------

/// What the queue knows between sections.
#[derive(Debug, Clone, Copy, PartialEq, Eq, Structural)]
pub struct QueueState {
    pub stopped_early: bool,
    pub fingerprint_match: bool,
    pub unsafe_to_append: bool,
    pub sections_generated: usize,
    pub sections_failed: usize,
}

/// The state before the first section.
pub fn initial_queue_state() -> (s: QueueState)
    ensures
        s == (QueueState {
            stopped_early: false,
            fingerprint_match: true,
            unsafe_to_append: false,
            sections_generated: 0,
            sections_failed: 0,
        }),
{
    QueueState {
        stopped_early: false,
        fingerprint_match: true,
        unsafe_to_append: false,
        sections_generated: 0,
        sections_failed: 0,
    }
}

/// What the check of the SSC file's fingerprint found.
#[derive(Debug, Clone)]
pub enum FingerprintCheck {
    Unchanged,
    Changed,
    Failed(String),
}

/// The queue's record of one section.
#[derive(Debug, Clone)]
pub struct QueueItemSummary {
    pub section_id: String,
    pub section_index: usize,
    pub status: String,
    pub range_summary: String,
    pub validation_errors: Vec<String>,
    pub validation_warnings: Vec<String>,
    pub error_message: Option<String>,
}

/// `start-end`.
pub open spec fn range_text(n: SectionNode) -> Seq<char> {
    decimal(n.start_measure as nat) + "-"@ + decimal(n.end_measure as nat)
}

fn range_summary(n: &SectionNode) -> (s: String)
    requires
        n.start_measure >= 0 && n.end_measure >= 0,
    ensures
        s@ == range_text(*n),
{
    let mut v: Vec<char> = Vec::new();
    push_decimal(&mut v, n.start_measure as u128);
    push_str(&mut v, "-");
    push_decimal(&mut v, n.end_measure as u128);
    string_from_chars(v.as_slice())
}

fn skipped_item(n: &SectionNode, message: String) -> (it: QueueItemSummary)
    requires
        n.start_measure >= 0 && n.end_measure >= 0,
    ensures
        it.section_id@ == n.section_id@,
        it.section_index == n.section_index,
        it.status@ == "skipped"@,
        it.range_summary@ == range_text(*n),
        it.validation_errors@.len() == 0,
        it.validation_warnings@.len() == 0,
        it.error_message is Some && it.error_message->0@ == message@,
{
    QueueItemSummary {
        section_id: string_from_chars(chars_of(n.section_id.as_str()).as_slice()),
        section_index: n.section_index,
        status: String::from_str("skipped"),
        range_summary: range_summary(n),
        validation_errors: Vec::new(),
        validation_warnings: Vec::new(),
        error_message: Some(message),
    }
}

/// The message of a section skipped after the file changed.
pub open spec fn skip_message(s: QueueState, check: Option<FingerprintCheck>) -> Seq<char> {
    if s.stopped_early {
        "Cancelado debido a un cambio en el fingerprint del archivo .ssc durante la sesión."@
    } else {
        match check {
            Some(FingerprintCheck::Changed) => "Fingerprint mismatch detected. Skipping remaining sections."@,
            Some(FingerprintCheck::Failed(e)) => "Failed to calculate fingerprint: "@ + e@
                + ". Skipping remaining sections."@,
            _ => Seq::empty(),
        }
    }
}

/// Before a section: once the queue has stopped, every section is skipped
/// (and the file is not checked again, `check` being `None`); otherwise a
/// changed or unreadable fingerprint stops the queue and skips the section;
/// an unchanged one lets it be generated (`None` item).
pub fn queue_before_section(state: QueueState, node: &SectionNode, check: Option<FingerprintCheck>) -> (r: (QueueState, Option<QueueItemSummary>))
    requires
        node.start_measure >= 0 && node.end_measure >= 0,
        !state.stopped_early ==> check is Some,
    ensures
        r.0 == state_before(state, check),
        state.stopped_early ==> r.0 == state && r.1 is Some,
        !state.stopped_early && check == Some(FingerprintCheck::Unchanged) ==> r.0 == state && r.1 is None,
        !state.stopped_early && check != Some(FingerprintCheck::Unchanged) ==> r.0 == (QueueState {
            stopped_early: true,
            fingerprint_match: false,
            unsafe_to_append: true,
            ..state
        }) && r.1 is Some,
        r.1 is Some ==> r.1->0.status@ == "skipped"@ && r.1->0.section_id@ == node.section_id@
            && r.1->0.section_index == node.section_index && r.1->0.range_summary@ == range_text(*node)
            && r.1->0.error_message == Some(r.1->0.error_message->0) && r.1->0.error_message->0@
            == skip_message(state, check),
{
    if state.stopped_early {
        let m = String::from_str(
            "Cancelado debido a un cambio en el fingerprint del archivo .ssc durante la sesión.",
        );
        return (state, Some(skipped_item(node, m)));
    }
    let stopped = QueueState {
        stopped_early: true,
        fingerprint_match: false,
        unsafe_to_append: true,
        ..state
    };
    match check {
        Some(FingerprintCheck::Unchanged) => (state, None),
        Some(FingerprintCheck::Changed) => {
            let m = String::from_str("Fingerprint mismatch detected. Skipping remaining sections.");
            (stopped, Some(skipped_item(node, m)))
        },
        Some(FingerprintCheck::Failed(e)) => {
            let mut v: Vec<char> = Vec::new();
            push_str(&mut v, "Failed to calculate fingerprint: ");
            push_all(&mut v, chars_of(e.as_str()).as_slice());
            push_str(&mut v, ". Skipping remaining sections.");
            (stopped, Some(skipped_item(node, string_from_chars(v.as_slice()))))
        },
        None => (stopped, Some(skipped_item(node, String::new()))),
    }
}

/// How the file's fingerprint, taken again before a section, compares with
/// the one taken when the session began: by the SHA-256 alone.
pub fn compare_fingerprint(before: &FileFingerprint, current: Result<FileFingerprint, String>) -> (c: FingerprintCheck)
    ensures
        match current {
            Ok(f) => if f.sha256@ == before.sha256@ {
                c == FingerprintCheck::Unchanged
            } else {
                c == FingerprintCheck::Changed
            },
            Err(e) => c == FingerprintCheck::Failed(e),
        },
{
    match current {
        Ok(f) => {
            if crate::text::chars_equal(chars_of(f.sha256.as_str()).as_slice(), chars_of(before.sha256.as_str()).as_slice()) {
                FingerprintCheck::Unchanged
            } else {
                FingerprintCheck::Changed
            }
        },
        Err(e) => FingerprintCheck::Failed(e),
    }
}

/// Whether the file still has its first fingerprint after the last section;
/// a fingerprint that cannot be taken does not match.
pub fn final_fingerprint_matches(before: &FileFingerprint, after: &Result<FileFingerprint, String>) -> (b: bool)
    ensures
        b == (after is Ok && after->Ok_0.sha256@ == before.sha256@),
{
    match after {
        Ok(f) => crate::text::chars_equal(chars_of(f.sha256.as_str()).as_slice(), chars_of(before.sha256.as_str()).as_slice()),
        Err(_) => false,
    }
}

/// An issue as a line of the queue's report: `[Compás m] message`.
pub open spec fn issue_line(i: IssueView) -> Seq<char> {
    "[Compás "@ + decimal(i.measure_index as nat) + "] "@ + i.message
}

pub open spec fn issue_lines_of(issues: Seq<IssueView>, sev: ValidationSeverity) -> Seq<Seq<char>>
    decreases issues.len(),
{
    if issues.len() == 0 {
        Seq::empty()
    } else {
        let rest = issue_lines_of(issues.drop_last(), sev);
        if issues.last().severity == sev {
            rest.push(issue_line(issues.last()))
        } else {
            rest
        }
    }
}

/// The status of a generated section: failed with errors, warning with
/// warnings, succeeded otherwise.
pub open spec fn generated_status(errors: nat, warnings: nat) -> Seq<char> {
    if errors > 0 {
        "failed"@
    } else if warnings > 0 {
        "warning"@
    } else {
        "succeeded"@
    }
}

/// After a section was sent for generation. `outcome` is the generator's
/// error, or the validation issues of its preview together with the error
/// from reading the returned payload back, if that failed.
pub fn queue_after_section(
    state: QueueState,
    node: &SectionNode,
    outcome: Result<(&Vec<ValidationIssue>, Option<String>), String>,
) -> (r: (QueueState, QueueItemSummary))
    requires
        node.start_measure >= 0 && node.end_measure >= 0,
        state.sections_generated < usize::MAX,
        state.sections_failed < usize::MAX,
    ensures
        r.0 == state_after(state, r.1.status@ == "failed"@),
        r.1.section_id@ == node.section_id@,
        r.1.section_index == node.section_index,
        r.1.range_summary@ == range_text(*node),
        match outcome {
            Err(e) => {
                &&& r.0 == (QueueState { sections_failed: (state.sections_failed + 1) as usize, ..state })
                &&& r.1.status@ == "failed"@
                &&& r.1.validation_errors@.len() == 0 && r.1.validation_warnings@.len() == 0
                &&& r.1.error_message is Some && r.1.error_message->0@ == e@
            },
            Ok((issues, parse_error)) => {
                let errs = issue_lines_of(issue_views(issues@), ValidationSeverity::Error);
                let warns = issue_lines_of(issue_views(issues@), ValidationSeverity::Warning);
                &&& string_views(r.1.validation_errors@) == errs
                &&& string_views(r.1.validation_warnings@) == warns
                &&& r.1.status@ == generated_status(errs.len(), warns.len())
                &&& errs.len() > 0 ==> r.0 == (QueueState {
                    sections_failed: (state.sections_failed + 1) as usize,
                    ..state
                })
                &&& errs.len() == 0 ==> r.0 == (QueueState {
                    sections_generated: (state.sections_generated + 1) as usize,
                    ..state
                })
                &&& match parse_error {
                    Some(p) => r.1.error_message is Some && r.1.error_message->0@ == p@,
                    None => if errs.len() > 0 {
                        r.1.error_message is Some && r.1.error_message->0@
                            == "Biomechanical validation detected errors."@
                    } else {
                        r.1.error_message is None
                    },
                }
            },
        },
{
    let section_id = string_from_chars(chars_of(node.section_id.as_str()).as_slice());
    let range = range_summary(node);
    match outcome {
        Err(e) => {
            let s = QueueState { sections_failed: state.sections_failed + 1, ..state };
            (
                s,
                QueueItemSummary {
                    section_id,
                    section_index: node.section_index,
                    status: String::from_str("failed"),
                    range_summary: range,
                    validation_errors: Vec::new(),
                    validation_warnings: Vec::new(),
                    error_message: Some(e),
                },
            )
        },
        Ok((issues, parse_error)) => {
            let errors = issue_lines(issues, ValidationSeverity::Error);
            let warnings = issue_lines(issues, ValidationSeverity::Warning);
            let has_errors = errors.len() > 0;
            let status = if has_errors {
                String::from_str("failed")
            } else if warnings.len() > 0 {
                String::from_str("warning")
            } else {
                String::from_str("succeeded")
            };
            let s = if has_errors {
                QueueState { sections_failed: state.sections_failed + 1, ..state }
            } else {
                QueueState { sections_generated: state.sections_generated + 1, ..state }
            };
            assert(has_errors <==> status@ == "failed"@) by {
                reveal_strlit("failed");
                reveal_strlit("warning");
                reveal_strlit("succeeded");
                assert("warning"@.len() == 7);
                assert("succeeded"@.len() == 9);
                assert("failed"@.len() == 6);
            }
            let item_err = match parse_error {
                Some(p) => Some(p),
                None => if has_errors {
                    Some(String::from_str("Biomechanical validation detected errors."))
                } else {
                    None
                },
            };
            (
                s,
                QueueItemSummary {
                    section_id,
                    section_index: node.section_index,
                    status,
                    range_summary: range,
                    validation_errors: errors,
                    validation_warnings: warnings,
                    error_message: item_err,
                },
            )
        },
    }
}

fn issue_lines(issues: &Vec<ValidationIssue>, sev: ValidationSeverity) -> (ls: Vec<String>)
    ensures
        string_views(ls@) == issue_lines_of(issue_views(issues@), sev),
{
    let ghost iv = issue_views(issues@);
    let mut ls: Vec<String> = Vec::new();
    let mut i: usize = 0;
    while i < issues.len()
        invariant
            i <= issues@.len(),
            iv == issue_views(issues@),
            string_views(ls@) == issue_lines_of(iv.take(i as int), sev),
        decreases issues@.len() - i,
    {
        proof {
            assert(iv.take(i + 1).drop_last() =~= iv.take(i as int));
            assert(iv.take(i + 1).last() == issues@[i as int]@);
        }
        if issues[i].severity == sev {
            let mut v: Vec<char> = Vec::new();
            push_str(&mut v, "[Compás ");
            push_decimal(&mut v, issues[i].measure_index as u128);
            push_str(&mut v, "] ");
            push_all(&mut v, chars_of(issues[i].message.as_str()).as_slice());
            let ghost before = ls@;
            ls.push(string_from_chars(v.as_slice()));
            proof {
                assert(string_views(ls@) =~= string_views(before).push(v@));
            }
        }
        i = i + 1;
    }
    proof {
        assert(iv.take(issues@.len() as int) =~= iv);
    }
    ls
}

/// After the last section: the file's final fingerprint must still match.
pub fn queue_finish(state: QueueState, final_matches: bool) -> (s: QueueState)
    ensures
        s == state_finish(state, final_matches),
        final_matches ==> s == state,
        !final_matches ==> s == (QueueState {
            fingerprint_match: false,
            unsafe_to_append: true,
            ..state
        }),
{
    if final_matches {
        state
    } else {
        QueueState { fingerprint_match: false, unsafe_to_append: true, ..state }
    }
}

/// The status of a whole session.
pub open spec fn session_status(
    unsafe_to_append: bool,
    fingerprint_match: bool,
    failed: nat,
    generated: nat,
    statuses: Seq<Seq<char>>,
) -> Seq<char> {
    if unsafe_to_append || !fingerprint_match {
        "unsafe_to_append"@
    } else if failed > 0 {
        if generated > 0 {
            "partial_success"@
        } else {
            "failed"@
        }
    } else if statuses.contains("warning"@) {
        "warning"@
    } else {
        "succeeded"@
    }
}

/// The status of a session from its final state and the statuses of its
/// items.
pub fn derive_multi_section_session_status(
    unsafe_to_append: bool,
    fingerprint_match: bool,
    sections_failed: usize,
    sections_generated: usize,
    item_statuses: &Vec<String>,
) -> (s: String)
    ensures
        s@ == session_status(
            unsafe_to_append,
            fingerprint_match,
            sections_failed as nat,
            sections_generated as nat,
            string_views(item_statuses@),
        ),
{
    if unsafe_to_append || !fingerprint_match {
        return String::from_str("unsafe_to_append");
    }
    if sections_failed > 0 {
        if sections_generated > 0 {
            return String::from_str("partial_success");
        } else {
            return String::from_str("failed");
        }
    }
    let ghost sv = string_views(item_statuses@);
    let mut i: usize = 0;
    while i < item_statuses.len()
        invariant
            i <= item_statuses@.len(),
            sv == string_views(item_statuses@),
            !unsafe_to_append && fingerprint_match && sections_failed == 0,
            forall|j: int| 0 <= j < i ==> sv[j] != "warning"@,
        decreases item_statuses@.len() - i,
    {
        if crate::text::chars_are(chars_of(item_statuses[i].as_str()).as_slice(), "warning") {
            assert(sv[i as int] == "warning"@);
            return String::from_str("warning");
        }
        i = i + 1;
    }
    String::from_str("succeeded")
}


// ---------------------------------------------------------------------------
// What a generated section looked like
// ---------------------------------------------------------------------------

/// What a generated section looked like, without its notes.
#[derive(Debug, Clone)]
pub struct GeneratedSectionAbstractSummary {
    pub row_count: usize,
    pub non_empty_row_count: usize,
    pub approximate_density_band: String,
    pub jump_like_event_count: usize,
    pub hold_like_event_count: usize,
    pub bracket_like_event_count: usize,
    pub primary_family: String,
    pub issue_count: usize,
}

/// Summarises a generated section: its rows, active rows, jumps, hold heads
/// and bracket candidates, and its validation issues, with the density band
/// and the first pattern family found for it (both measured in floating
/// point by the caller).
pub fn compute_abstract_summary(
    payload: &GeminiChartSectionPayload,
    validation_issues: &Vec<ValidationIssue>,
    approximate_density_band: String,
    primary_family: String,
) -> (c: GeneratedSectionAbstractSummary)
    requires
        total_chars(payload_rows(*payload)) <= usize::MAX,
    ensures
        ({
            let t = row_tally(payload_rows(*payload));
            &&& c.row_count == t.rows
            &&& c.non_empty_row_count == t.active_rows
            &&& c.jump_like_event_count == t.jumps
            &&& c.hold_like_event_count == t.hold_starts
            &&& c.bracket_like_event_count == t.brackets
            &&& c.issue_count == validation_issues@.len()
            &&& c.approximate_density_band == approximate_density_band
            &&& c.primary_family == primary_family
        }),
{
    let s = section_counts(payload);
    GeneratedSectionAbstractSummary {
        row_count: s.row_count,
        non_empty_row_count: s.active_row_count,
        approximate_density_band,
        jump_like_event_count: s.jump_count,
        hold_like_event_count: s.hold_start_count,
        bracket_like_event_count: s.bracket_candidate_count,
        primary_family,
        issue_count: validation_issues.len(),
    }
}

// ---------------------------------------------------------------------------
// What the queue keeps
// ---------------------------------------------------------------------------

/// The state after the check before a section.
pub open spec fn state_before(s: QueueState, check: Option<FingerprintCheck>) -> QueueState {
    if s.stopped_early || check == Some(FingerprintCheck::Unchanged) {
        s
    } else {
        QueueState { stopped_early: true, fingerprint_match: false, unsafe_to_append: true, ..s }
    }
}

/// The state after a section was sent, as it failed or not.
pub open spec fn state_after(s: QueueState, failed: bool) -> QueueState {
    if failed {
        QueueState { sections_failed: (s.sections_failed + 1) as usize, ..s }
    } else {
        QueueState { sections_generated: (s.sections_generated + 1) as usize, ..s }
    }
}

/// The state after the final fingerprint check.
pub open spec fn state_finish(s: QueueState, final_matches: bool) -> QueueState {
    if final_matches {
        s
    } else {
        QueueState { fingerprint_match: false, unsafe_to_append: true, ..s }
    }
}

/// A stopped queue has lost the file's fingerprint and is unsafe to
/// append; and the fingerprint is lost exactly when appending is unsafe.
pub open spec fn queue_inv(s: QueueState) -> bool {
    &&& s.stopped_early ==> s.unsafe_to_append
    &&& s.unsafe_to_append <==> !s.fingerprint_match
}

/// The queue's invariant holds at the start and every step keeps it; a
/// stopped queue stays stopped, and every section checked after it stopped
/// leaves it unchanged; once appending is unsafe it stays unsafe, and the
/// session then reports `unsafe_to_append` whatever its items say.
pub proof fn lemma_queue_keeps_stop(
    s: QueueState,
    check: Option<FingerprintCheck>,
    failed: bool,
    final_matches: bool,
    failed_count: nat,
    generated_count: nat,
    statuses: Seq<Seq<char>>,
)
    requires
        queue_inv(s),
    ensures
        queue_inv(QueueState {
            stopped_early: false,
            fingerprint_match: true,
            unsafe_to_append: false,
            sections_generated: 0,
            sections_failed: 0,
        }),
        queue_inv(state_before(s, check)),
        queue_inv(state_after(s, failed)),
        queue_inv(state_finish(s, final_matches)),
        s.stopped_early ==> state_before(s, check) == s,
        s.stopped_early ==> state_after(s, failed).stopped_early,
        s.stopped_early ==> state_finish(s, final_matches).stopped_early,
        s.unsafe_to_append ==> state_before(s, check).unsafe_to_append && state_after(
            s,
            failed,
        ).unsafe_to_append && state_finish(s, final_matches).unsafe_to_append,
        s.unsafe_to_append ==> session_status(
            s.unsafe_to_append,
            s.fingerprint_match,
            failed_count,
            generated_count,
            statuses,
        ) == "unsafe_to_append"@,
{
}

// ---------------------------------------------------------------------------
// A whole run of the queue
// ---------------------------------------------------------------------------

/// Whether a section is skipped: the queue has stopped, or the file's
/// fingerprint is not known to be unchanged.
pub open spec fn step_skips(s: QueueState, check: Option<FingerprintCheck>) -> bool {
    s.stopped_early || check != Some(FingerprintCheck::Unchanged)
}

/// One section of a run: `queue_before_section`, then, when the section is
/// not skipped, `queue_after_section` with whether the section failed.
pub open spec fn queue_step(s: QueueState, check: Option<FingerprintCheck>, failed: bool) -> QueueState {
    if step_skips(s, check) {
        state_before(s, check)
    } else {
        state_after(state_before(s, check), failed)
    }
}

/// The state after a run over sections, each given by its fingerprint
/// check and whether its generation failed.
pub open spec fn queue_run(s: QueueState, steps: Seq<(Option<FingerprintCheck>, bool)>) -> QueueState
    decreases steps.len(),
{
    if steps.len() == 0 {
        s
    } else {
        let p = queue_run(s, steps.drop_last());
        queue_step(p, steps.last().0, steps.last().1)
    }
}

/// The sections of a run that are sent for generation.
pub open spec fn generated_steps(s: QueueState, steps: Seq<(Option<FingerprintCheck>, bool)>) -> nat
    decreases steps.len(),
{
    if steps.len() == 0 {
        0
    } else {
        generated_steps(s, steps.drop_last()) + if step_skips(queue_run(s, steps.drop_last()), steps.last().0) {
            0nat
        } else {
            1nat
        }
    }
}

proof fn lemma_generated_steps_bound(s: QueueState, steps: Seq<(Option<FingerprintCheck>, bool)>)
    ensures
        generated_steps(s, steps) <= steps.len(),
    decreases steps.len(),
{
    if steps.len() > 0 {
        lemma_generated_steps_bound(s, steps.drop_last());
    }
}

/// Over a whole run from a state that meets the queue's invariant: every
/// state of the run meets it; the sections generated and failed grow by
/// exactly the sections sent for generation; and once the queue has
/// stopped, every later section is skipped and the state no longer changes.
pub proof fn lemma_queue_run(s: QueueState, steps: Seq<(Option<FingerprintCheck>, bool)>, i: int)
    requires
        queue_inv(s),
        0 <= i <= steps.len(),
        s.sections_generated + s.sections_failed + steps.len() <= usize::MAX,
    ensures
        queue_inv(queue_run(s, steps)),
        queue_run(s, steps).sections_generated + queue_run(s, steps).sections_failed == s.sections_generated
            + s.sections_failed + generated_steps(s, steps),
        queue_run(s, steps.take(i)).stopped_early ==> {
            &&& queue_run(s, steps) == queue_run(s, steps.take(i))
            &&& forall|k: int| i <= k < steps.len() ==> #[trigger] step_skips(queue_run(s, steps.take(k)), steps[k].0)
        },
    decreases steps.len(),
{
    if steps.len() == 0 {
        assert(steps.take(i) =~= steps);
    } else {
        let p = steps.drop_last();
        let n = steps.len() - 1;
        if i <= n {
            lemma_queue_run(s, p, i);
            assert(p.take(i) =~= steps.take(i));
            assert forall|k: int|
                i <= k < steps.len() && queue_run(s, steps.take(i)).stopped_early implies #[trigger] step_skips(
                queue_run(s, steps.take(k)),
                steps[k].0,
            ) by {
                if k < n {
                    assert(p.take(k) =~= steps.take(k));
                    assert(p[k] == steps[k]);
                } else {
                    assert(steps.take(k) =~= p);
                }
            }
        } else {
            lemma_queue_run(s, p, n);
            assert(steps.take(i) =~= steps);
        }
        let q = queue_run(s, p);
        assert(generated_steps(s, p) <= p.len()) by {
            lemma_generated_steps_bound(s, p);
        }
        lemma_queue_keeps_stop(q, steps.last().0, steps.last().1, true, 0, 0, Seq::empty());
        lemma_queue_keeps_stop(state_before(q, steps.last().0), steps.last().0, steps.last().1, true, 0, 0, Seq::empty());
    }
}

/// A multi-section preview request. Section plan overrides, which the song
/// plan's planner reads, are not part of it here.
#[derive(Debug, Clone)]
pub struct MultiSectionGenerationRequest {
    pub ssc_path: String,
    pub audio_path: Option<String>,
    pub target_level: u8,
    pub selected_section_ids: Vec<String>,
    pub use_calibrated_prompt_context: bool,
    pub use_continuity_planning: bool,
    pub pattern_family_target: Option<String>,
    pub max_sections: Option<usize>,
}

/// Whether a section's measure bounds are both non-negative, as the queue's
/// steps require.
pub fn node_has_valid_bounds(node: &SectionNode) -> (b: bool)
    ensures
        b == (node.start_measure >= 0 && node.end_measure >= 0),
{
    node.start_measure >= 0 && node.end_measure >= 0
}

/// For a session that is safe to append, whose fingerprint still matches
/// and where no section failed, the status is `warning` exactly when some
/// item's status is `warning`, and `succeeded` otherwise.
pub proof fn lemma_clean_session_status(generated: nat, statuses: Seq<Seq<char>>)
    ensures
        (session_status(false, true, 0, generated, statuses) == "warning"@) <==> (exists|i: int|
            0 <= i < statuses.len() && #[trigger] statuses[i] == "warning"@),
        (session_status(false, true, 0, generated, statuses) == "succeeded"@) <==> !(exists|i: int|
            0 <= i < statuses.len() && #[trigger] statuses[i] == "warning"@),
{
    reveal_strlit("warning");
    reveal_strlit("succeeded");
    assert("warning"@ != "succeeded"@) by {
        assert("warning"@[0] != "succeeded"@[0]);
    }
    if exists|i: int| 0 <= i < statuses.len() && #[trigger] statuses[i] == "warning"@ {
        let i = choose|i: int| 0 <= i < statuses.len() && #[trigger] statuses[i] == "warning"@;
        assert(statuses.contains("warning"@));
    }
}

} // verus!
