//! Typed extended-markdown components: the specs a renderer draws from, and
//! the bounds every component tree is held to before it is drawn.
//!
//! Components arrive as fenced JSON. Decoding the JSON is the host's; this
//! module owns what a decoded tree must satisfy (a supported version, at most
//! `MAX_COMPONENTS` nodes, grids of one to four columns, plots of one to
//! `MAX_SERIES` series and at most `MAX_POINTS` points, tables whose rows
//! match their columns, and evidence that names every field) and which error
//! is reported when it does not: the first failure in document order.

use vstd::prelude::*;
use vstd::string::*;
use crate::unicode::{is_white_space, char_is_whitespace, chars_of};
use crate::text::{decimal, push_decimal, owned};

verus! {

broadcast use vstd::seq::group_seq_axioms, vstd::seq_lib::group_seq_properties;

pub const COMPONENT_VERSION: u16 = 1;
pub const MAX_COMPONENTS: usize = 64;
pub const MAX_SERIES: usize = 16;
pub const MAX_POINTS: usize = 2048;
pub const MAX_TABLE_ROWS: usize = 500;
/// The largest component source accepted, in bytes (256 KiB).
pub const MAX_SOURCE_BYTES: usize = 262144;

/// The version a document without one is read as.
pub fn component_version() -> (r: u16)
    ensures
        r == COMPONENT_VERSION,
{
    COMPONENT_VERSION
}

/// A grid's column count when the document names none.
pub fn default_columns() -> (r: u8)
    ensures
        r == 2,
{
    2
}

/// A grid's gap in pixels when the document names none.
pub fn default_gap() -> (r: u16)
    ensures
        r == 12,
{
    12
}

/// A plot's height in pixels when the document names none.
pub fn default_plot_height() -> (r: u16)
    ensures
        r == 300,
{
    300
}

/// A flag that is on unless the document turns it off.
pub fn default_true() -> (r: bool)
    ensures
        r,
{
    true
}

#[derive(Debug, Clone, PartialEq)]
pub struct ControlSpec {
    pub label: String,
    /// Opaque action name. A document-only host shows the control disabled;
    /// an app host may route it through its normal pane-action channel.
    pub action: Option<String>,
    pub value: Option<String>,
    pub primary: bool,
}

#[derive(Debug, Clone, PartialEq)]
pub struct EvidenceSpec {
    /// The operational question this component exists to answer.
    pub question: String,
    /// The probe, file, stream, or query that produced the reading.
    pub source: String,
    /// The aggregation or observation window, such as `last 15 min`.
    pub window: String,
    /// A human-readable age or refresh contract, such as `4 s`.
    pub freshness: String,
    /// Unit of every numeric value unless a series overrides it.
    pub units: String,
    pub state: EvidenceState,
    /// A command or declarative query that reproduces the result.
    pub reproduction: String,
    pub observed_at: Option<String>,
}

#[derive(Debug, Clone, Copy, PartialEq, Eq, Structural)]
pub enum EvidenceState {
    Observed,
    Collecting,
    Silent,
    Unavailable,
    Stale,
    Uninstrumented,
}

#[derive(Debug, Clone, Copy, PartialEq, Eq, Structural)]
pub enum PlotMark {
    Line,
    Area,
    Bar,
    Point,
    Step,
}

impl Default for PlotMark {
    fn default() -> (r: Self)
        ensures
            r == PlotMark::Line,
    {
        PlotMark::Line
    }
}

#[derive(Debug, Clone, PartialEq)]
pub struct MetricSpec {
    pub label: String,
    pub value: String,
    pub detail: Option<String>,
    pub delta: Option<String>,
    pub tone: MetricTone,
    pub evidence: EvidenceSpec,
}

#[derive(Debug, Clone, Copy, PartialEq, Eq, Structural)]
pub enum MetricTone {
    Neutral,
    Good,
    Warning,
    Critical,
}

impl Default for MetricTone {
    fn default() -> (r: Self)
        ensures
            r == MetricTone::Neutral,
    {
        MetricTone::Neutral
    }
}

#[derive(Debug, Clone, PartialEq)]
pub struct QuerySpec {
    pub title: String,
    pub language: String,
    pub source: String,
    pub status: Option<String>,
    pub controls: Vec<ControlSpec>,
    pub evidence: EvidenceSpec,
}

#[derive(Debug, Clone, PartialEq)]
pub struct DataGridSpec {
    pub title: String,
    pub columns: Vec<String>,
    pub rows: Vec<Vec<String>>,
    pub compact: bool,
    pub evidence: EvidenceSpec,
}

#[derive(Debug, Clone, PartialEq)]
pub struct AgentFindingSpec {
    pub title: String,
    pub summary: String,
    pub findings: Vec<String>,
    pub next_question: Option<String>,
    pub status: Option<String>,
    pub evidence: EvidenceSpec,
}

/// What the bounds read of a component tree. Grids and panels keep their
/// children; a plot keeps its evidence, height and the point count of each
/// series; a sparkline its evidence and point count; the other components are
/// held whole.
#[derive(Debug)]
pub enum ComponentShape {
    Grid { columns: u8, children: Vec<ComponentShape> },
    Panel { children: Vec<ComponentShape> },
    Plot { evidence: EvidenceSpec, height: u16, series_points: Vec<usize> },
    Sparkline { evidence: EvidenceSpec, points: usize },
    Metric(MetricSpec),
    Query(QuerySpec),
    DataGrid(DataGridSpec),
    AgentFinding(AgentFindingSpec),
}

/// The evidence fields that must not be blank, in the order they are checked.
#[derive(Debug, Clone, Copy, PartialEq, Eq, Structural)]
pub enum EvidenceField {
    Question,
    Source,
    Window,
    Freshness,
    Units,
    Reproduction,
}

/// Why a component source or tree is refused.
#[derive(Debug, Clone, Copy, PartialEq, Eq, Structural)]
pub enum ComponentError {
    SourceTooLarge,
    UnsupportedVersion(u16),
    TooManyComponents,
    GridColumns,
    EmptyEvidence(EvidenceField),
    NoSeries,
    TooManySeries,
    PlotHeight,
    TooManyPlotPoints,
    TooManySparklinePoints,
    TooManyRows,
    RowWidth,
}

// ----- what the bounds say ----------------------------------------------------

/// Nothing but white space (what `str::trim` leaves empty).
pub open spec fn blank(s: Seq<char>) -> bool {
    forall|i: int| 0 <= i < s.len() ==> #[trigger] is_white_space(s[i])
}

/// The first blank evidence field, in checking order.
pub open spec fn blank_evidence(e: EvidenceSpec) -> Option<EvidenceField> {
    if blank(e.question@) {
        Some(EvidenceField::Question)
    } else if blank(e.source@) {
        Some(EvidenceField::Source)
    } else if blank(e.window@) {
        Some(EvidenceField::Window)
    } else if blank(e.freshness@) {
        Some(EvidenceField::Freshness)
    } else if blank(e.units@) {
        Some(EvidenceField::Units)
    } else if blank(e.reproduction@) {
        Some(EvidenceField::Reproduction)
    } else {
        None
    }
}

pub open spec fn evidence_result(e: EvidenceSpec) -> Result<(), ComponentError> {
    match blank_evidence(e) {
        Some(f) => Err(ComponentError::EmptyEvidence(f)),
        None => Ok(()),
    }
}

/// The sum of a sequence of counts.
pub open spec fn total(s: Seq<usize>) -> nat
    decreases s.len(),
{
    if s.len() == 0 {
        0
    } else {
        total(s.drop_last()) + s.last() as nat
    }
}

/// Whether some row's width differs from the column count.
pub open spec fn ragged(rows: Seq<Vec<String>>, columns: nat) -> bool {
    exists|k: int| 0 <= k < rows.len() && #[trigger] rows[k]@.len() != columns
}

/// The checks of one component after its own count is taken, children aside.
pub open spec fn own_check(c: ComponentShape) -> Result<(), ComponentError> {
    match c {
        ComponentShape::Grid { columns, children } => if 1 <= columns <= 4 {
            Ok(())
        } else {
            Err(ComponentError::GridColumns)
        },
        ComponentShape::Panel { children } => Ok(()),
        ComponentShape::Plot { evidence, height, series_points } => match evidence_result(evidence) {
            Err(e) => Err(e),
            Ok(_) => if series_points@.len() == 0 {
                Err(ComponentError::NoSeries)
            } else if series_points@.len() > MAX_SERIES {
                Err(ComponentError::TooManySeries)
            } else if !(120 <= height <= 720) {
                Err(ComponentError::PlotHeight)
            } else if total(series_points@) > MAX_POINTS {
                Err(ComponentError::TooManyPlotPoints)
            } else {
                Ok(())
            },
        },
        ComponentShape::Sparkline { evidence, points } => match evidence_result(evidence) {
            Err(e) => Err(e),
            Ok(_) => if points > MAX_POINTS {
                Err(ComponentError::TooManySparklinePoints)
            } else {
                Ok(())
            },
        },
        ComponentShape::Metric(m) => evidence_result(m.evidence),
        ComponentShape::Query(q) => evidence_result(q.evidence),
        ComponentShape::DataGrid(d) => match evidence_result(d.evidence) {
            Err(e) => Err(e),
            Ok(_) => if d.rows@.len() > MAX_TABLE_ROWS {
                Err(ComponentError::TooManyRows)
            } else if ragged(d.rows@, d.columns@.len()) {
                Err(ComponentError::RowWidth)
            } else {
                Ok(())
            },
        },
        ComponentShape::AgentFinding(a) => evidence_result(a.evidence),
    }
}

/// Checking component `c` when `count` components came before it, depth-first:
/// the count after its subtree, or the first failure.
pub open spec fn node_check(c: ComponentShape, count: int) -> Result<int, ComponentError>
    decreases c,
{
    if count + 1 > MAX_COMPONENTS {
        Err(ComponentError::TooManyComponents)
    } else {
        match own_check(c) {
            Err(e) => Err(e),
            Ok(_) => match c {
                ComponentShape::Grid { columns, children } => forest_check(children@, count + 1),
                ComponentShape::Panel { children } => forest_check(children@, count + 1),
                _ => Ok(count + 1),
            },
        }
    }
}

/// Checking the components of `s` in order, `count` components before them.
pub open spec fn forest_check(s: Seq<ComponentShape>, count: int) -> Result<int, ComponentError>
    decreases s,
{
    if s.len() == 0 {
        Ok(count)
    } else {
        match node_check(s[0], count) {
            Err(e) => Err(e),
            Ok(n) => forest_check(s.subrange(1, s.len() as int), n),
        }
    }
}

/// The verdict on a decoded document: its version, then its tree.
pub open spec fn document_check(version: u16, c: ComponentShape) -> Result<(), ComponentError> {
    if version != COMPONENT_VERSION {
        Err(ComponentError::UnsupportedVersion(version))
    } else {
        match node_check(c, 0) {
            Ok(_) => Ok(()),
            Err(e) => Err(e),
        }
    }
}

// ----- the checks ---------------------------------------------------------------

/// Whether a str is blank: nothing is left once white space is trimmed.
pub fn is_blank(s: &str) -> (r: bool)
    ensures
        r == blank(s@),
{
    let cs = chars_of(s);
    let mut k: usize = 0;
    while k < cs.len()
        invariant
            cs@ == s@,
            k <= cs@.len(),
            forall|i: int| 0 <= i < k ==> #[trigger] is_white_space(cs@[i]),
        decreases cs@.len() - k,
    {
        if !char_is_whitespace(cs[k]) {
            return false;
        }
        k = k + 1;
    }
    true
}

/// Every evidence field a reader needs to trust the reading must be filled.
pub fn validate_evidence(evidence: &EvidenceSpec) -> (r: Result<(), ComponentError>)
    ensures
        r == evidence_result(*evidence),
{
    if is_blank(evidence.question.as_str()) {
        return Err(ComponentError::EmptyEvidence(EvidenceField::Question));
    }
    if is_blank(evidence.source.as_str()) {
        return Err(ComponentError::EmptyEvidence(EvidenceField::Source));
    }
    if is_blank(evidence.window.as_str()) {
        return Err(ComponentError::EmptyEvidence(EvidenceField::Window));
    }
    if is_blank(evidence.freshness.as_str()) {
        return Err(ComponentError::EmptyEvidence(EvidenceField::Freshness));
    }
    if is_blank(evidence.units.as_str()) {
        return Err(ComponentError::EmptyEvidence(EvidenceField::Units));
    }
    if is_blank(evidence.reproduction.as_str()) {
        return Err(ComponentError::EmptyEvidence(EvidenceField::Reproduction));
    }
    Ok(())
}

proof fn lemma_total_prefix(s: Seq<usize>, k: int)
    requires
        0 <= k < s.len(),
    ensures
        total(s.subrange(0, k + 1)) == total(s.subrange(0, k)) + s[k],
{
    assert(s.subrange(0, k + 1).drop_last() =~= s.subrange(0, k));
}

proof fn lemma_total_mono(s: Seq<usize>, k: int)
    requires
        0 <= k <= s.len(),
    ensures
        total(s.subrange(0, k)) <= total(s),
    decreases s.len() - k,
{
    if k < s.len() {
        lemma_total_prefix(s, k);
        lemma_total_mono(s, k + 1);
    } else {
        assert(s.subrange(0, k) =~= s);
    }
}

/// Whether the counts of `s` add up to more than `limit`, without overflow.
fn total_exceeds(s: &Vec<usize>, limit: usize) -> (r: bool)
    ensures
        r == (total(s@) > limit),
{
    let mut sum: usize = 0;
    let mut k: usize = 0;
    proof {
        assert(s@.subrange(0, 0) =~= Seq::<usize>::empty());
    }
    while k < s.len()
        invariant
            k <= s@.len(),
            sum == total(s@.subrange(0, k as int)),
            sum <= limit,
        decreases s@.len() - k,
    {
        proof {
            lemma_total_prefix(s@, k as int);
        }
        if s[k] > limit - sum {
            proof {
                lemma_total_mono(s@, k + 1);
            }
            return true;
        }
        sum = sum + s[k];
        k = k + 1;
    }
    proof {
        assert(s@.subrange(0, s@.len() as int) =~= s@);
    }
    false
}

/// Whether some row's width differs from the column count.
fn is_ragged(rows: &Vec<Vec<String>>, columns: usize) -> (r: bool)
    ensures
        r == ragged(rows@, columns as nat),
{
    let mut k: usize = 0;
    while k < rows.len()
        invariant
            k <= rows@.len(),
            forall|m: int| 0 <= m < k ==> #[trigger] rows@[m]@.len() == columns,
        decreases rows@.len() - k,
    {
        if rows[k].len() != columns {
            proof {
                assert(rows@[k as int]@.len() != columns);
            }
            return true;
        }
        k = k + 1;
    }
    false
}

/// The checks of one component, its children aside.
fn check_own(component: &ComponentShape) -> (r: Result<(), ComponentError>)
    ensures
        r == own_check(*component),
{
    match component {
        ComponentShape::Grid { columns, children } => {
            if 1 <= *columns && *columns <= 4 {
                Ok(())
            } else {
                Err(ComponentError::GridColumns)
            }
        },
        ComponentShape::Panel { children } => Ok(()),
        ComponentShape::Plot { evidence, height, series_points } => {
            if let Err(e) = validate_evidence(evidence) {
                return Err(e);
            }
            if series_points.len() == 0 {
                return Err(ComponentError::NoSeries);
            }
            if series_points.len() > MAX_SERIES {
                return Err(ComponentError::TooManySeries);
            }
            if !(120 <= *height && *height <= 720) {
                return Err(ComponentError::PlotHeight);
            }
            if total_exceeds(series_points, MAX_POINTS) {
                return Err(ComponentError::TooManyPlotPoints);
            }
            Ok(())
        },
        ComponentShape::Sparkline { evidence, points } => {
            if let Err(e) = validate_evidence(evidence) {
                return Err(e);
            }
            if *points > MAX_POINTS {
                return Err(ComponentError::TooManySparklinePoints);
            }
            Ok(())
        },
        ComponentShape::Metric(spec) => validate_evidence(&spec.evidence),
        ComponentShape::Query(spec) => validate_evidence(&spec.evidence),
        ComponentShape::DataGrid(spec) => {
            if let Err(e) = validate_evidence(&spec.evidence) {
                return Err(e);
            }
            if spec.rows.len() > MAX_TABLE_ROWS {
                return Err(ComponentError::TooManyRows);
            }
            if is_ragged(&spec.rows, spec.columns.len()) {
                return Err(ComponentError::RowWidth);
            }
            Ok(())
        },
        ComponentShape::AgentFinding(spec) => validate_evidence(&spec.evidence),
    }
}

/// Count `component` and its subtree into `count`, checking each node in
/// document order; the first failure is returned.
fn validate_component(component: &ComponentShape, count: &mut usize) -> (r: Result<(), ComponentError>)
    requires
        *old(count) <= MAX_COMPONENTS,
    ensures
        match node_check(*component, *old(count) as int) {
            Ok(n) => r is Ok && *final(count) as int == n && *final(count) <= MAX_COMPONENTS,
            Err(e) => r == Err::<(), ComponentError>(e),
        },
    decreases component,
{
    if *count + 1 > MAX_COMPONENTS {
        return Err(ComponentError::TooManyComponents);
    }
    *count = *count + 1;
    if let Err(e) = check_own(component) {
        return Err(e);
    }
    match component {
        ComponentShape::Grid { columns, children } => validate_children(children, count),
        ComponentShape::Panel { children } => validate_children(children, count),
        _ => Ok(()),
    }
}

fn validate_children(children: &Vec<ComponentShape>, count: &mut usize) -> (r: Result<(), ComponentError>)
    requires
        *old(count) <= MAX_COMPONENTS,
    ensures
        match forest_check(children@, *old(count) as int) {
            Ok(n) => r is Ok && *final(count) as int == n && *final(count) <= MAX_COMPONENTS,
            Err(e) => r == Err::<(), ComponentError>(e),
        },
    decreases children,
{
    let ghost s = children@;
    let ghost c0 = *count as int;
    let mut k: usize = 0;
    proof {
        assert(s.subrange(0, s.len() as int) =~= s);
    }
    while k < children.len()
        invariant
            s == children@,
            c0 == *old(count) as int,
            k <= s.len(),
            *count <= MAX_COMPONENTS,
            forest_check(s, c0) == forest_check(s.subrange(k as int, s.len() as int), *count as int),
        decreases s.len() - k,
    {
        let ghost t = s.subrange(k as int, s.len() as int);
        let ghost before = *count as int;
        proof {
            assert(t[0] == s[k as int]);
            assert(t.subrange(1, t.len() as int) =~= s.subrange(k + 1, s.len() as int));
        }
        if let Err(e) = validate_component(&children[k], count) {
            proof {
                assert(node_check(s[k as int], before) == Err::<int, ComponentError>(e));
                assert(forest_check(t, before) == Err::<int, ComponentError>(e));
            }
            return Err(e);
        }
        k = k + 1;
    }
    proof {
        assert(s.subrange(k as int, s.len() as int) =~= Seq::<ComponentShape>::empty());
    }
    Ok(())
}

/// Check a decoded document: its version must be the supported one, and its
/// tree must meet every bound. The first failure in document order is returned.
pub fn validate_document(version: u16, component: &ComponentShape) -> (r: Result<(), ComponentError>)
    ensures
        r == document_check(version, *component),
{
    if version != COMPONENT_VERSION {
        return Err(ComponentError::UnsupportedVersion(version));
    }
    let mut count: usize = 0;
    match validate_component(component, &mut count) {
        Ok(()) => Ok(()),
        Err(e) => Err(e),
    }
}

/// A component source larger than `MAX_SOURCE_BYTES` is refused before it is
/// decoded.
pub fn check_source_size(source: &str) -> (r: Result<(), ComponentError>)
    ensures
        r is Err <==> source.spec_bytes().len() > MAX_SOURCE_BYTES,
        r is Err ==> r == Err::<(), ComponentError>(ComponentError::SourceTooLarge),
{
    if source.as_bytes().len() > MAX_SOURCE_BYTES {
        Err(ComponentError::SourceTooLarge)
    } else {
        Ok(())
    }
}

// ----- the bound on a tree's size -------------------------------------------------

/// How many components a tree holds, itself included.
pub open spec fn node_size(c: ComponentShape) -> nat
    decreases c,
{
    match c {
        ComponentShape::Grid { columns, children } => 1 + forest_size(children@),
        ComponentShape::Panel { children } => 1 + forest_size(children@),
        _ => 1,
    }
}

pub open spec fn forest_size(s: Seq<ComponentShape>) -> nat
    decreases s,
{
    if s.len() == 0 {
        0
    } else {
        node_size(s[0]) + forest_size(s.subrange(1, s.len() as int))
    }
}

proof fn lemma_node_count(c: ComponentShape, k: int)
    requires
        0 <= k <= MAX_COMPONENTS,
    ensures
        node_check(c, k) matches Ok(n) ==> n == k + node_size(c) && n <= MAX_COMPONENTS,
    decreases c,
{
    if k + 1 <= MAX_COMPONENTS {
        match c {
            ComponentShape::Grid { columns, children } => {
                lemma_forest_count(children@, k + 1);
            },
            ComponentShape::Panel { children } => {
                lemma_forest_count(children@, k + 1);
            },
            _ => {},
        }
    }
}

proof fn lemma_forest_count(s: Seq<ComponentShape>, k: int)
    requires
        0 <= k <= MAX_COMPONENTS,
    ensures
        forest_check(s, k) matches Ok(n) ==> n == k + forest_size(s) && n <= MAX_COMPONENTS,
    decreases s,
{
    if s.len() > 0 {
        lemma_node_count(s[0], k);
        match node_check(s[0], k) {
            Ok(n) => {
                lemma_forest_count(s.subrange(1, s.len() as int), n);
            },
            Err(_) => {},
        }
    }
}

/// Every accepted document is bounded and versioned: it carries the supported
/// version, and its tree holds at most `MAX_COMPONENTS` components.
pub proof fn lemma_accepted_documents_are_bounded(version: u16, c: ComponentShape)
    ensures
        document_check(version, c) is Ok ==> version == COMPONENT_VERSION && node_size(c)
            <= MAX_COMPONENTS,
{
    lemma_node_count(c, 0);
}

// ----- the bounds each accepted component meets -------------------------------------

/// Every evidence field holds something besides white space.
pub open spec fn evidence_filled(e: EvidenceSpec) -> bool {
    &&& !blank(e.question@)
    &&& !blank(e.source@)
    &&& !blank(e.window@)
    &&& !blank(e.freshness@)
    &&& !blank(e.units@)
    &&& !blank(e.reproduction@)
}

/// The bounds the component itself is held to, its children aside.
pub open spec fn meets_own_bounds(c: ComponentShape) -> bool {
    match c {
        ComponentShape::Grid { columns, children } => 1 <= columns && columns <= 4,
        ComponentShape::Panel { children } => true,
        ComponentShape::Plot { evidence, height, series_points } => {
            &&& evidence_filled(evidence)
            &&& 1 <= series_points@.len() <= MAX_SERIES
            &&& 120 <= height && height <= 720
            &&& total(series_points@) <= MAX_POINTS
        },
        ComponentShape::Sparkline { evidence, points } => evidence_filled(evidence) && points
            <= MAX_POINTS,
        ComponentShape::Metric(m) => evidence_filled(m.evidence),
        ComponentShape::Query(q) => evidence_filled(q.evidence),
        ComponentShape::DataGrid(d) => {
            &&& evidence_filled(d.evidence)
            &&& d.rows@.len() <= MAX_TABLE_ROWS
            &&& forall|k: int| 0 <= k < d.rows@.len() ==> #[trigger] d.rows@[k]@.len()
                == d.columns@.len()
        },
        ComponentShape::AgentFinding(a) => evidence_filled(a.evidence),
    }
}

/// Every component of the tree meets its own bounds.
pub open spec fn tree_meets_bounds(c: ComponentShape) -> bool
    decreases c,
{
    meets_own_bounds(c) && match c {
        ComponentShape::Grid { columns, children } => forest_meets_bounds(children@),
        ComponentShape::Panel { children } => forest_meets_bounds(children@),
        _ => true,
    }
}

pub open spec fn forest_meets_bounds(s: Seq<ComponentShape>) -> bool
    decreases s,
{
    s.len() == 0 || (tree_meets_bounds(s[0]) && forest_meets_bounds(s.subrange(1, s.len() as int)))
}

proof fn lemma_own_check_bounds(c: ComponentShape)
    ensures
        own_check(c) is Ok ==> meets_own_bounds(c),
{
    match c {
        ComponentShape::DataGrid(d) => {
            if own_check(c) is Ok {
                assert forall|k: int| 0 <= k < d.rows@.len() implies #[trigger] d.rows@[k]@.len()
                    == d.columns@.len() by {
                    if d.rows@[k]@.len() != d.columns@.len() {
                        assert(ragged(d.rows@, d.columns@.len()));
                    }
                }
            }
        },
        _ => {},
    }
}

proof fn lemma_node_bounds(c: ComponentShape, k: int)
    ensures
        node_check(c, k) is Ok ==> tree_meets_bounds(c),
    decreases c,
{
    lemma_own_check_bounds(c);
    match c {
        ComponentShape::Grid { columns, children } => {
            lemma_forest_bounds(children@, k + 1);
        },
        ComponentShape::Panel { children } => {
            lemma_forest_bounds(children@, k + 1);
        },
        _ => {},
    }
}

proof fn lemma_forest_bounds(s: Seq<ComponentShape>, k: int)
    ensures
        forest_check(s, k) is Ok ==> forest_meets_bounds(s),
    decreases s,
{
    if s.len() > 0 {
        lemma_node_bounds(s[0], k);
        match node_check(s[0], k) {
            Ok(n) => {
                lemma_forest_bounds(s.subrange(1, s.len() as int), n);
            },
            Err(_) => {},
        }
    }
}

/// Every component of an accepted document meets every bound: grids have one
/// to four columns; plots have one to `MAX_SERIES` series, a height between
/// 120 and 720 pixels and at most `MAX_POINTS` points; sparklines have at most
/// `MAX_POINTS` points; tables have at most `MAX_TABLE_ROWS` rows, each as wide
/// as the column list; and every evidence block is filled in.
pub proof fn lemma_accepted_documents_meet_every_bound(version: u16, c: ComponentShape)
    ensures
        document_check(version, c) is Ok ==> tree_meets_bounds(c),
{
    lemma_node_bounds(c, 0);
}

// ----- messages -------------------------------------------------------------------

pub open spec fn field_name(f: EvidenceField) -> Seq<char> {
    match f {
        EvidenceField::Question => "question"@,
        EvidenceField::Source => "source"@,
        EvidenceField::Window => "window"@,
        EvidenceField::Freshness => "freshness"@,
        EvidenceField::Units => "units"@,
        EvidenceField::Reproduction => "reproduction"@,
    }
}

/// The sentence a host shows for an error.
pub open spec fn error_message(e: ComponentError) -> Seq<char> {
    match e {
        ComponentError::SourceTooLarge => "EMD component exceeds the 256 KiB source limit"@,
        ComponentError::UnsupportedVersion(v) => "unsupported EMD component version "@ + decimal(
            v as nat,
        ) + "; this renderer supports 1"@,
        ComponentError::TooManyComponents => "EMD tree exceeds 64 components"@,
        ComponentError::GridColumns => "EMD grid columns must be between 1 and 4"@,
        ComponentError::EmptyEvidence(f) => "EMD evidence `"@ + field_name(f) + "` must not be empty"@,
        ComponentError::NoSeries => "EMD plot needs at least one series"@,
        ComponentError::TooManySeries => "EMD plot exceeds 16 series"@,
        ComponentError::PlotHeight => "EMD plot height must be between 120 and 720 px"@,
        ComponentError::TooManyPlotPoints => "EMD plot exceeds 2048 points"@,
        ComponentError::TooManySparklinePoints => "EMD sparkline exceeds 2048 points"@,
        ComponentError::TooManyRows => "EMD data grid exceeds 500 rows"@,
        ComponentError::RowWidth => "every EMD data-grid row must match its column count"@,
    }
}

fn field_text(f: EvidenceField) -> (r: &'static str)
    ensures
        r@ == field_name(f),
{
    match f {
        EvidenceField::Question => "question",
        EvidenceField::Source => "source",
        EvidenceField::Window => "window",
        EvidenceField::Freshness => "freshness",
        EvidenceField::Units => "units",
        EvidenceField::Reproduction => "reproduction",
    }
}

impl ComponentError {
    /// The sentence a host shows for this error.
    pub fn message(&self) -> (r: String)
        ensures
            r@ == error_message(*self),
    {
        match self {
            ComponentError::SourceTooLarge => owned("EMD component exceeds the 256 KiB source limit"),
            ComponentError::UnsupportedVersion(v) => {
                let mut out = owned("unsupported EMD component version ");
                push_decimal(&mut out, *v as usize);
                out.append("; this renderer supports 1");
                out
            },
            ComponentError::TooManyComponents => owned("EMD tree exceeds 64 components"),
            ComponentError::GridColumns => owned("EMD grid columns must be between 1 and 4"),
            ComponentError::EmptyEvidence(f) => {
                let mut out = owned("EMD evidence `");
                out.append(field_text(*f));
                out.append("` must not be empty");
                out
            },
            ComponentError::NoSeries => owned("EMD plot needs at least one series"),
            ComponentError::TooManySeries => owned("EMD plot exceeds 16 series"),
            ComponentError::PlotHeight => owned("EMD plot height must be between 120 and 720 px"),
            ComponentError::TooManyPlotPoints => owned("EMD plot exceeds 2048 points"),
            ComponentError::TooManySparklinePoints => owned("EMD sparkline exceeds 2048 points"),
            ComponentError::TooManyRows => owned("EMD data grid exceeds 500 rows"),
            ComponentError::RowWidth => owned("every EMD data-grid row must match its column count"),
        }
    }
}

} // verus!
