use libyggterm::components::{
    check_source_size, component_version, default_columns, default_gap, default_plot_height,
    default_true, is_blank, validate_document, validate_evidence, AgentFindingSpec,
    ComponentError, ComponentShape, DataGridSpec, EvidenceField, EvidenceSpec, EvidenceState,
    MetricSpec, MetricTone, PlotMark, QuerySpec, COMPONENT_VERSION, MAX_COMPONENTS,
};

fn evidence() -> EvidenceSpec {
    EvidenceSpec {
        question: "Is latency rising?".to_string(),
        source: "histogram/http_request_seconds".to_string(),
        window: "last 5 min".to_string(),
        freshness: "4 s".to_string(),
        units: "ms".to_string(),
        state: EvidenceState::Observed,
        reproduction: "ytrace query http-latency".to_string(),
        observed_at: None,
    }
}

fn metric() -> ComponentShape {
    ComponentShape::Metric(MetricSpec {
        label: "p95".to_string(),
        value: "42 ms".to_string(),
        detail: None,
        delta: None,
        tone: MetricTone::default(),
        evidence: evidence(),
    })
}

fn plot(height: u16, series_points: Vec<usize>) -> ComponentShape {
    ComponentShape::Plot {
        evidence: evidence(),
        height,
        series_points,
    }
}

#[test]
fn a_sparkline_with_full_evidence_is_accepted() {
    let shape = ComponentShape::Sparkline {
        evidence: evidence(),
        points: 3,
    };
    assert_eq!(validate_document(1, &shape), Ok(()));
}

#[test]
fn an_unsupported_version_is_refused_and_named() {
    let err = validate_document(99, &metric()).unwrap_err();
    assert_eq!(err, ComponentError::UnsupportedVersion(99));
    assert!(err.message().contains("version 99"));
    assert_eq!(
        err.message(),
        "unsupported EMD component version 99; this renderer supports 1"
    );
}

#[test]
fn blank_evidence_names_the_first_blank_field() {
    let mut e = evidence();
    e.window = "   ".to_string();
    e.units = String::new();
    assert_eq!(
        validate_evidence(&e),
        Err(ComponentError::EmptyEvidence(EvidenceField::Window))
    );
    assert_eq!(
        ComponentError::EmptyEvidence(EvidenceField::Window).message(),
        "EMD evidence `window` must not be empty"
    );
    assert!(is_blank(" \t\u{3000}"));
    assert!(!is_blank(" x "));
}

#[test]
fn grid_columns_are_one_to_four() {
    let grid = |columns: u8| ComponentShape::Grid {
        columns,
        children: vec![metric()],
    };
    assert_eq!(validate_document(1, &grid(4)), Ok(()));
    assert_eq!(
        validate_document(1, &grid(5)),
        Err(ComponentError::GridColumns)
    );
    assert_eq!(
        validate_document(1, &grid(0)),
        Err(ComponentError::GridColumns)
    );
}

#[test]
fn plots_are_bounded() {
    assert_eq!(validate_document(1, &plot(300, vec![3])), Ok(()));
    assert_eq!(
        validate_document(1, &plot(300, vec![])),
        Err(ComponentError::NoSeries)
    );
    assert_eq!(
        validate_document(1, &plot(300, vec![1; 17])),
        Err(ComponentError::TooManySeries)
    );
    assert_eq!(
        validate_document(1, &plot(100, vec![1])),
        Err(ComponentError::PlotHeight)
    );
    assert_eq!(
        validate_document(1, &plot(300, vec![1024, 1024])),
        Ok(())
    );
    assert_eq!(
        validate_document(1, &plot(300, vec![1024, 1025])),
        Err(ComponentError::TooManyPlotPoints)
    );
    assert_eq!(
        validate_document(1, &plot(300, vec![usize::MAX, 1])),
        Err(ComponentError::TooManyPlotPoints)
    );
    assert_eq!(
        ComponentError::TooManyPlotPoints.message(),
        "EMD plot exceeds 2048 points"
    );
}

#[test]
fn sparklines_are_bounded() {
    let shape = ComponentShape::Sparkline {
        evidence: evidence(),
        points: 2049,
    };
    assert_eq!(
        validate_document(1, &shape),
        Err(ComponentError::TooManySparklinePoints)
    );
}

#[test]
fn data_grid_rows_match_their_columns() {
    let grid = |rows: Vec<Vec<String>>| {
        ComponentShape::DataGrid(DataGridSpec {
            title: "t".to_string(),
            columns: vec!["a".to_string(), "b".to_string()],
            rows,
            compact: false,
            evidence: evidence(),
        })
    };
    let row = |n: usize| vec!["x".to_string(); n];
    assert_eq!(validate_document(1, &grid(vec![row(2), row(2)])), Ok(()));
    assert_eq!(
        validate_document(1, &grid(vec![row(2), row(3)])),
        Err(ComponentError::RowWidth)
    );
    assert_eq!(
        validate_document(1, &grid(vec![row(2); 501])),
        Err(ComponentError::TooManyRows)
    );
}

#[test]
fn a_tree_of_more_than_sixty_four_components_is_refused() {
    let children: Vec<ComponentShape> = (0..63).map(|_| metric()).collect();
    let panel = ComponentShape::Panel { children };
    assert_eq!(validate_document(1, &panel), Ok(()));
    let too_many = ComponentShape::Panel {
        children: (0..MAX_COMPONENTS).map(|_| metric()).collect(),
    };
    let err = validate_document(1, &too_many).unwrap_err();
    assert_eq!(err, ComponentError::TooManyComponents);
    assert_eq!(err.message(), "EMD tree exceeds 64 components");
}

#[test]
fn the_first_failure_in_document_order_is_reported() {
    let mut bad_evidence = evidence();
    bad_evidence.question = String::new();
    let first = ComponentShape::Query(QuerySpec {
        title: "q".to_string(),
        language: "sql".to_string(),
        source: "select 1".to_string(),
        status: None,
        controls: Vec::new(),
        evidence: bad_evidence,
    });
    let second = ComponentShape::Grid {
        columns: 9,
        children: Vec::new(),
    };
    let panel = ComponentShape::Panel {
        children: vec![first, second],
    };
    assert_eq!(
        validate_document(1, &panel),
        Err(ComponentError::EmptyEvidence(EvidenceField::Question))
    );
}

#[test]
fn agent_findings_need_evidence_too() {
    let mut e = evidence();
    e.reproduction = " ".to_string();
    let shape = ComponentShape::AgentFinding(AgentFindingSpec {
        title: "t".to_string(),
        summary: "s".to_string(),
        findings: Vec::new(),
        next_question: None,
        status: None,
        evidence: e,
    });
    assert_eq!(
        validate_document(1, &shape),
        Err(ComponentError::EmptyEvidence(EvidenceField::Reproduction))
    );
}

#[test]
fn an_oversized_source_is_refused_before_decoding() {
    let big = "x".repeat(262_145);
    assert_eq!(check_source_size(&big), Err(ComponentError::SourceTooLarge));
    assert_eq!(check_source_size(&big[..262_144]), Ok(()));
    assert_eq!(
        ComponentError::SourceTooLarge.message(),
        "EMD component exceeds the 256 KiB source limit"
    );
}

#[test]
fn the_serde_defaults() {
    assert_eq!(component_version(), COMPONENT_VERSION);
    assert_eq!(default_columns(), 2);
    assert_eq!(default_gap(), 12);
    assert_eq!(default_plot_height(), 300);
    assert!(default_true());
    assert_eq!(PlotMark::default(), PlotMark::Line);
    assert_eq!(MetricTone::default(), MetricTone::Neutral);
}
