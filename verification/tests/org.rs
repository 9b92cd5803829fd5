use libyggterm::org::{
    cycle_todo, next_todo_keyword, parse_org, splice, toggle_checkbox, CheckboxItem, OrgNode,
};

/// The lock: leaf ranges tile the source exactly, contiguous, ordered, no
/// gaps, no overlaps.
#[test]
fn leaf_ranges_tile_the_source_exactly() {
    let source = "* Top :core:\nintro text\n** Nested\n- [ ] box one\n- [X] box two\n#+begin_src rust\nfn main() {}\n#+end_src\n:PROPERTIES:\n:prop: 1\n:END:\n| a | b |\n|---+---|\n| 1 | 2 |\ntrailing words\n";
    let doc = parse_org(source);
    let ranges = doc.leaf_ranges();
    let mut at = 0usize;
    for r in &ranges {
        assert_eq!(r.start, at, "gap or overlap at byte {at}: {ranges:?}");
        at = r.end;
    }
    assert_eq!(at, source.len(), "ranges must reach the end");
}

#[test]
fn headings_carry_todo_priority_tags_and_the_keyword_range() {
    let source = "* TODO [#A] Write the engine :rust:core:\n";
    let doc = parse_org(source);
    let headings = doc.headings();
    assert_eq!(headings.len(), 1);
    let h = headings[0];
    assert_eq!(h.level, 1);
    assert_eq!(h.todo.as_deref(), Some("TODO"));
    assert_eq!(h.priority, Some('A'));
    assert_eq!(h.title, "Write the engine");
    assert_eq!(h.tags, vec!["rust", "core"]);
    let kr = h.keyword_range.clone().unwrap();
    assert_eq!(&source[kr], "TODO");
}

#[test]
fn subtrees_nest_by_stars() {
    let source = "* A\n** B\n*** C\n* D\n";
    let doc = parse_org(source);
    let top: Vec<&str> = doc
        .nodes
        .iter()
        .filter_map(|n| match n {
            OrgNode::Heading(h) => Some(h.title.as_str()),
            _ => None,
        })
        .collect();
    assert_eq!(top, vec!["A", "D"]);
    let a = match &doc.nodes[0] {
        OrgNode::Heading(h) => h,
        _ => unreachable!(),
    };
    let b = match a.body[0] {
        OrgNode::Heading(ref h) => h,
        _ => unreachable!(),
    };
    assert_eq!(b.title, "B");
    assert!(matches!(b.body[0], OrgNode::Heading(ref h) if h.title == "C"));
}

#[test]
fn todo_cycle_splices_are_byte_exact() {
    let source = "* TODO write it\nbody line\n* DONE other :x:\n";
    let doc = parse_org(source);
    let h0 = doc.headings()[0].clone();
    let step1 = cycle_todo(source, &h0);
    assert_eq!(step1, "* DONE write it\nbody line\n* DONE other :x:\n");
    let doc1 = parse_org(&step1);
    let step2 = cycle_todo(&step1, doc1.headings()[0]);
    assert_eq!(step2, "* write it\nbody line\n* DONE other :x:\n");
    // Cycling a keyword-less heading inserts the slot.
    let doc2 = parse_org(&step2);
    let step3 = cycle_todo(&step2, doc2.headings()[0]);
    assert_eq!(step3, "* TODO write it\nbody line\n* DONE other :x:\n");
}

#[test]
fn checkbox_toggle_is_byte_exact_and_marks_uppercase() {
    let source = "- [ ] unchecked\n- [x] lowercase checked\n";
    let doc = parse_org(source);
    let items: Vec<CheckboxItem> = doc
        .nodes
        .iter()
        .filter_map(|n| match n {
            OrgNode::CheckboxItem(c) => Some(c.clone()),
            _ => None,
        })
        .collect();
    assert_eq!(items.len(), 2);
    assert!(!items[0].checked);
    assert!(items[1].checked);
    assert_eq!(items[0].text, "unchecked");
    assert_eq!(
        toggle_checkbox(source, &items[0]),
        "- [X] unchecked\n- [x] lowercase checked\n"
    );
    assert_eq!(
        toggle_checkbox(source, &items[1]),
        "- [ ] unchecked\n- [ ] lowercase checked\n"
    );
}

#[test]
fn src_blocks_and_drawers_are_typed_with_exact_bodies() {
    let source = "#+begin_src rust\nfn main() {}\nlet x = 1;\n#+end_src\n:PROPERTIES:\n:prop: 1\n:END:\n";
    let doc = parse_org(source);
    match (&doc.nodes[0], &doc.nodes[1]) {
        (OrgNode::SrcBlock(b), OrgNode::Drawer(d)) => {
            assert_eq!(b.language.as_deref(), Some("rust"));
            assert_eq!(b.body, "fn main() {}\nlet x = 1;\n");
            assert_eq!(
                &source[b.range.clone()],
                "#+begin_src rust\nfn main() {}\nlet x = 1;\n#+end_src\n"
            );
            assert_eq!(d.name, "PROPERTIES");
            assert_eq!(d.body, ":prop: 1\n");
        }
        other => panic!("expected src block + drawer, got {other:?}"),
    }
}

#[test]
fn tables_are_typed_whole() {
    let source = "| a | b |\n|---+---|\n| 1 | 2 |\nafter\n";
    let doc = parse_org(source);
    match &doc.nodes[0] {
        OrgNode::Table(t) => {
            assert_eq!(t.lines, vec!["| a | b |", "|---+---|", "| 1 | 2 |"]);
            assert_eq!(t.lines.len(), 3);
        }
        other => panic!("expected table, got {other:?}"),
    }
}

#[test]
fn unknown_constructs_stay_visible_as_text() {
    let source = "#+begin_quote\nquoted prose\n#+end_quote\n#+RESULTS: noise\n***\n";
    let doc = parse_org(source);
    let flat = format!("{doc:?}");
    // Nothing vanished: every line is present in the tree's ranges.
    let mut at = 0usize;
    for r in doc.leaf_ranges() {
        assert_eq!(r.start, at);
        at = r.end;
    }
    assert_eq!(at, source.len());
    // And none of them became anything other than Text.
    assert!(
        doc.headings().is_empty(),
        "stars-only line is not a headline"
    );
    assert!(flat.contains("Text"), "unknown constructs must be Text");
}

#[test]
fn unterminated_blocks_degrade_to_visible_text_not_swallowed_regions() {
    let source = "#+begin_src rust\nfn main() {}\n";
    let doc = parse_org(source);
    assert!(
        doc.nodes.iter().all(|n| matches!(n, OrgNode::Text { .. })),
        "unterminated src stays visible text: {doc:?}"
    );
    let mut at = 0;
    for r in doc.leaf_ranges() {
        assert_eq!(r.start, at);
        at = r.end;
    }
    assert_eq!(at, source.len());
}

#[test]
fn crlf_and_multibyte_titles_round_trip() {
    let source = "* TODO 写作 :中文:\r\n正文 héllo\r\n- [ ] 检查\r\n";
    let doc = parse_org(source);
    let mut at = 0usize;
    for r in doc.leaf_ranges() {
        assert_eq!(r.start, at);
        at = r.end;
    }
    assert_eq!(at, source.len());
    let h = doc.headings()[0];
    assert_eq!(h.todo.as_deref(), Some("TODO"));
    assert_eq!(h.tags, vec!["中文"]);
    let spliced = cycle_todo(source, h);
    assert!(spliced.starts_with("* DONE 写作 :中文:\r\n"), "{spliced:?}");
    let mut items: Vec<&CheckboxItem> = Vec::new();
    fn walk<'a>(nodes: &'a [OrgNode], out: &mut Vec<&'a CheckboxItem>) {
        for n in nodes {
            match n {
                OrgNode::CheckboxItem(c) => out.push(c),
                OrgNode::Heading(h) => walk(&h.body, out),
                _ => {}
            }
        }
    }
    walk(&doc.nodes, &mut items);
    assert_eq!(items.len(), 1);
    assert_eq!(
        toggle_checkbox(source, items[0]),
        "* TODO 写作 :中文:\r\n正文 héllo\r\n- [X] 检查\r\n"
    );
}

// ----- further cases -------------------------------------------------------

#[test]
fn an_empty_source_is_one_empty_text_leaf() {
    let doc = parse_org("");
    let ranges = doc.leaf_ranges();
    assert_eq!(ranges, vec![0..0]);
    assert!(matches!(doc.nodes[0], OrgNode::Text { .. }));
}

#[test]
fn a_sibling_headline_closes_the_subtree() {
    let source = "** deep\ntext\n* shallow\n";
    let doc = parse_org(source);
    assert_eq!(doc.nodes.len(), 2);
    match &doc.nodes[0] {
        OrgNode::Heading(h) => {
            assert_eq!(h.level, 2);
            assert_eq!(h.range, 0..8);
            assert!(matches!(h.body[0], OrgNode::Text { ref range } if *range == (8..13)));
        }
        other => panic!("expected a heading, got {other:?}"),
    }
    let levels: Vec<u8> = doc.headings().iter().map(|h| h.level).collect();
    assert_eq!(levels, vec![2, 1]);
}

#[test]
fn a_single_capital_stays_title_text() {
    let doc = parse_org("* A note\n");
    let h = doc.headings()[0];
    assert_eq!(h.todo, None);
    assert_eq!(h.keyword_range, None);
    assert_eq!(h.title, "A note");
}

#[test]
fn a_lone_colon_run_is_not_a_tag_cookie() {
    let doc = parse_org("* Title ends with :\n");
    let h = doc.headings()[0];
    assert!(h.tags.is_empty());
    assert_eq!(h.title, "Title ends with :");
}

#[test]
fn the_keyword_slot_is_inserted_after_the_stars() {
    let source = "*** plain\n";
    let doc = parse_org(source);
    let out = cycle_todo(source, doc.headings()[0]);
    assert_eq!(out, "*** TODO plain\n");
}

#[test]
fn a_foreign_keyword_is_removed_with_its_space() {
    let source = "* WAIT later\n";
    let doc = parse_org(source);
    let h = doc.headings()[0];
    assert_eq!(h.todo.as_deref(), Some("WAIT"));
    assert_eq!(cycle_todo(source, h), "* later\n");
}

#[test]
fn the_stock_cycle_has_three_states() {
    assert_eq!(next_todo_keyword(None).as_deref(), Some("TODO"));
    assert_eq!(next_todo_keyword(Some("TODO")).as_deref(), Some("DONE"));
    assert_eq!(next_todo_keyword(Some("DONE")), None);
    assert_eq!(next_todo_keyword(Some("todo")), None);
}

#[test]
fn splice_replaces_exactly_the_range() {
    assert_eq!(splice("héllo world", 7..12, "there"), "héllo there");
    assert_eq!(splice("abc", 1..1, "XY"), "aXYbc");
}

#[test]
fn an_uppercase_begin_and_indented_checkbox_are_typed() {
    let source = "#+BEGIN_SRC\nx\n  #+END_SRC\n  + [X] done\n";
    let doc = parse_org(source);
    match &doc.nodes[0] {
        OrgNode::SrcBlock(b) => {
            assert_eq!(b.language, None);
            assert_eq!(b.body, "x\n");
        }
        other => panic!("expected a src block, got {other:?}"),
    }
    match &doc.nodes[1] {
        OrgNode::CheckboxItem(c) => {
            assert!(c.checked);
            assert_eq!(c.text, "done");
            assert_eq!(&source[c.state_range.clone()], "X");
        }
        other => panic!("expected a checkbox, got {other:?}"),
    }
}

#[test]
fn node_range_matches_the_leaf() {
    let source = "| x |\nplain\n";
    let doc = parse_org(source);
    assert_eq!(doc.nodes[0].range(), 0..6);
    assert_eq!(doc.nodes[1].range(), 6..12);
}

fn first_checkbox(source: &str) -> CheckboxItem {
    let doc = parse_org(source);
    fn walk(nodes: &[OrgNode]) -> Option<CheckboxItem> {
        for n in nodes {
            match n {
                OrgNode::CheckboxItem(c) => return Some(c.clone()),
                OrgNode::Heading(h) => {
                    if let Some(c) = walk(&h.body) {
                        return Some(c);
                    }
                }
                _ => {}
            }
        }
        None
    }
    walk(&doc.nodes).expect("a checkbox item")
}

#[test]
fn toggling_twice_restores_the_bytes() {
    for source in ["* Tasks\n  - [ ] café au lait\nafter\n", "- [X] done\r\n"] {
        let item = first_checkbox(source);
        let once = toggle_checkbox(source, &item);
        let again = first_checkbox(&once);
        assert_eq!(again.state_range, item.state_range);
        assert_eq!(again.checked, !item.checked);
        assert_eq!(toggle_checkbox(&once, &again), source);
    }
    // A lowercase mark is normalised instead: x, then a space, then X.
    let source = "- [x] done\n";
    let once = toggle_checkbox(source, &first_checkbox(source));
    assert_eq!(toggle_checkbox(&once, &first_checkbox(&once)), "- [X] done\n");
}

#[test]
fn three_todo_cycles_restore_the_bytes() {
    let source = "intro\n** TODO [#B] ship it :work:\r\nbody\n";
    let step1 = cycle_todo(source, parse_org(source).headings()[0]);
    let step2 = cycle_todo(&step1, parse_org(&step1).headings()[0]);
    let step3 = cycle_todo(&step2, parse_org(&step2).headings()[0]);
    assert_eq!(step2, "intro\n** [#B] ship it :work:\r\nbody\n");
    assert_eq!(step3, source);
    // A title that starts with an ALL-CAPS word becomes the keyword once the
    // keyword goes, so the cycle does not come back.
    let source = "* TODO API docs\n";
    let step1 = cycle_todo(source, parse_org(source).headings()[0]);
    let step2 = cycle_todo(&step1, parse_org(&step1).headings()[0]);
    assert_eq!(step2, "* API docs\n");
    assert_eq!(parse_org(&step2).headings()[0].todo.as_deref(), Some("API"));
}
