use deja_vu::clone::{Clone as CloneInstance, CloneGroup, CloneType};
use deja_vu::report::{
    duplicated_lines, primary_location, related_locations, result_rule_id, sarif_location,
    sarif_results, sarif_rules, sarif_schema, sarif_tool, sarif_version, summary_counts, SarifMessage,
    ToolMetadata,
};

fn group_of(instances: Vec<CloneInstance>) -> CloneGroup {
    let mut g = CloneGroup::new(CloneType::Type1, "abc".to_string());
    for c in instances {
        g.add_instance(c);
    }
    g
}

#[test]
fn test_sarif_location_format() {
    let mut group = CloneGroup::new(CloneType::Type2, "test-hash".to_string());
    group.add_instance(CloneInstance::new("src/main.py".to_string(), 10, 20, 5, 10, "code".to_string()));
    let location = primary_location(&group).unwrap();

    // Verify physical location structure
    assert_eq!(location.physical_location.artifact_location.uri, "src/main.py");
    assert_eq!(
        location.physical_location.artifact_location.uri_base_id,
        Some("%SRCROOT%".to_string())
    );

    // Verify region (should be 1-based)
    assert_eq!(location.physical_location.region.start_line, 10);
    assert_eq!(location.physical_location.region.start_column, Some(6)); // 5 + 1
    assert_eq!(location.physical_location.region.end_line, 20);
    assert_eq!(location.physical_location.region.end_column, Some(11)); // 10 + 1
}

#[test]
fn sarif_location_columns_shift() {
    // Columns become 1-based, lines stay as they are.
    let clone = CloneInstance::new("src/test.py".to_string(), 10, 15, 4, 20, "code".to_string());
    let loc = sarif_location(&clone, None);
    let region = &loc.physical_location.region;
    assert_eq!(region.start_line, 10);
    assert_eq!(region.end_line, 15);
    assert_eq!(region.start_column, Some(5));
    assert_eq!(region.end_column, Some(21));
    assert!(loc.message.is_none());
}

#[test]
fn related_locations_number_the_group() {
    let g = group_of(vec![
        CloneInstance::new("a.py".to_string(), 1, 3, 0, 5, String::new()),
        CloneInstance::new("b.py".to_string(), 7, 9, 2, 6, String::new()),
        CloneInstance::new("c.py".to_string(), 4, 4, 0, 0, String::new()),
    ]);
    let primary = primary_location(&g).unwrap();
    assert_eq!(primary.physical_location.artifact_location.uri, "a.py");
    assert!(primary.message.is_none());
    let related = related_locations(&g, 4);
    assert_eq!(related.len(), 2);
    assert_eq!(related[0].physical_location.artifact_location.uri, "b.py");
    assert_eq!(related[0].physical_location.region.start_column, Some(3));
    assert_eq!(related[1].physical_location.artifact_location.uri, "c.py");
    assert_eq!(related[0].message.as_ref().unwrap().text, "Duplicate code instance 5");

    let empty = group_of(Vec::new());
    assert!(primary_location(&empty).is_none());
    assert_eq!(related_locations(&empty, 0).len(), 0);
}

#[test]
fn rules_and_tool() {
    let rules = sarif_rules();
    assert_eq!(rules.len(), 3);
    assert_eq!(rules[0].id, "code-duplication/Type1");
    assert_eq!(rules[1].short_description.text, "Type-2 clone: Structurally identical code");
    assert_eq!(rules[2].default_configuration.as_ref().unwrap().level, "note");
    assert_eq!(rules[0].default_configuration.as_ref().unwrap().level, "warning");

    let tool = sarif_tool("0.1.0".to_string());
    assert_eq!(tool.driver.name, "Deja-vu");
    assert_eq!(tool.driver.version, "0.1.0");
    assert_eq!(tool.driver.semantic_version, Some("0.1.0".to_string()));
    assert_eq!(tool.driver.rules.len(), 3);

    assert_eq!(result_rule_id(CloneType::Type3), "code-duplication/Type-3");

    let meta = ToolMetadata::new("1.2.3".to_string(), "2024-01-01T00:00:00+00:00".to_string());
    assert_eq!(meta.name, "Deja-vu");
    assert_eq!(meta.version, "1.2.3");
}

#[test]
fn test_json_summary_statistics() {
    // The groups of the JSON summary example: 2 and 3 instances.
    let mut group1 = CloneGroup::new(CloneType::Type1, "hash1".to_string());
    group1.add_instance(CloneInstance::new("test1.py".to_string(), 1, 10, 0, 50, "content".to_string()));
    group1.add_instance(CloneInstance::new("test2.py".to_string(), 1, 10, 0, 50, "content".to_string()));
    let mut group2 = CloneGroup::new(CloneType::Type2, "hash2".to_string());
    for f in ["test3.py", "test4.py", "test5.py"] {
        group2.add_instance(CloneInstance::new(f.to_string(), 5, 15, 0, 50, "content".to_string()));
    }
    let counts = summary_counts(&[group1, group2], 5);
    assert_eq!(counts.clone_groups_count, 2);
    assert_eq!(counts.total_clone_instances, 5); // 2 + 3
    assert_eq!(counts.duplicated_lines, 53); // (10*2) + (11*3)
    assert_eq!(counts.files_analyzed, 5);
    // The duplication percentage is computed from these counts.
    let dup_pct = counts.duplicated_lines as f64 / 1000.0 * 100.0;
    assert!((dup_pct - 5.3).abs() < 0.1); // 53/1000 * 100 = 5.3%
    assert_eq!(duplicated_lines(&[]), 0);
    assert_eq!(summary_counts(&[], 0).total_clone_instances, 0);
}

#[test]
fn message_struct() {
    let m = SarifMessage { text: "hi".to_string() };
    let clone = CloneInstance::new("x.py".to_string(), 1, 1, 0, 0, String::new());
    let loc = sarif_location(&clone, Some(m));
    assert_eq!(loc.message.unwrap().text, "hi");
}

#[test]
fn sarif_results_skip_empty_groups() {
    let g0 = group_of(vec![
        CloneInstance::new("a.py".to_string(), 1, 3, 0, 5, String::new()),
        CloneInstance::new("b.py".to_string(), 7, 9, 2, 6, String::new()),
    ]);
    let empty = group_of(Vec::new());
    let mut g2 = CloneGroup::new(CloneType::Type3, "x".to_string());
    g2.add_instance(CloneInstance::new("c.py".to_string(), 4, 4, 1, 1, String::new()));
    let results = sarif_results(&[g0, empty, g2]);
    assert_eq!(results.len(), 2);
    assert_eq!(results[0].group_index, 0);
    assert_eq!(results[0].rule_id, "code-duplication/Type-1");
    assert_eq!(results[0].level, "warning");
    assert_eq!(results[0].locations.len(), 1);
    assert_eq!(results[0].related_locations.len(), 1);
    assert_eq!(results[0].related_locations[0].message.as_ref().unwrap().text, "Duplicate code instance 1");
    assert_eq!(results[1].group_index, 2);
    assert_eq!(results[1].rule_id, "code-duplication/Type-3");
    assert_eq!(results[1].locations[0].physical_location.region.start_column, Some(2));
    assert_eq!(sarif_version(), "2.1.0");
    assert_eq!(sarif_schema(), "https://json.schemastore.org/sarif-2.1.0.json");
}

#[test]
fn test_sarif_output_structure() {
    let mut group = CloneGroup::new(CloneType::Type1, "test-hash".to_string());
    group.add_instance(CloneInstance::new("test1.py".to_string(), 10, 20, 0, 50, "test content".to_string()));
    group.add_instance(CloneInstance::new("test2.py".to_string(), 15, 25, 0, 50, "test content".to_string()));

    // Verify SARIF structure
    assert_eq!(sarif_version(), "2.1.0");
    assert_eq!(sarif_schema(), "https://json.schemastore.org/sarif-2.1.0.json");

    let tool = sarif_tool("0.1.0".to_string());
    assert_eq!(tool.driver.name, "Deja-vu");
    assert!(!tool.driver.version.is_empty());

    // Verify rule definitions
    assert_eq!(tool.driver.rules.len(), 3); // Type1, Type2, Type3
    assert_eq!(tool.driver.rules[0].id, "code-duplication/Type1");
    assert_eq!(tool.driver.rules[1].id, "code-duplication/Type2");
    assert_eq!(tool.driver.rules[2].id, "code-duplication/Type3");

    let results = sarif_results(&[group]);
    assert_eq!(results.len(), 1);

    // Verify result structure
    let result = &results[0];
    assert_eq!(result.rule_id, "code-duplication/Type-1");
    assert_eq!(result.level, "warning");
    assert_eq!(result.locations.len(), 1);
    assert_eq!(result.related_locations.len(), 1);
}

#[test]
fn test_sarif_output_with_no_clones() {
    let results = sarif_results(&[]);
    assert_eq!(results.len(), 0);
    assert_eq!(sarif_version(), "2.1.0");
}
