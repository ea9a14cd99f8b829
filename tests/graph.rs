use std::collections::{HashMap, HashSet};

use loan_graph::{LoanGraph, LoanRecord};

fn record(education: &str, intent: &str) -> LoanRecord {
    LoanRecord {
        person_age: None,
        person_gender: String::new(),
        person_education: education.to_string(),
        person_home_ownership: String::new(),
        loan_intent: intent.to_string(),
        cb_person_cred_hist_length: None,
        credit_score: None,
        previous_loan_defaults_on_file: None,
        loan_status: None,
    }
}

fn set_of(items: &[u32]) -> HashSet<u32> {
    items.iter().cloned().collect()
}

#[test]
fn test_build_graph() {
    let records = vec![
        LoanRecord {
            person_age: Some(25),
            person_gender: "M".into(),
            person_education: "Bachelors".into(),
            person_home_ownership: "RENT".into(),
            loan_intent: "DEBTCONSOLIDATION".into(),
            cb_person_cred_hist_length: Some(4),
            credit_score: Some(730),
            previous_loan_defaults_on_file: Some(0),
            loan_status: Some(0),
        },
        LoanRecord {
            person_age: Some(32),
            person_gender: "F".into(),
            person_education: "Bachelors".into(),
            person_home_ownership: "RENT".into(),
            loan_intent: "EDUCATION".into(),
            cb_person_cred_hist_length: Some(5),
            credit_score: Some(690),
            previous_loan_defaults_on_file: Some(0),
            loan_status: Some(1),
        },
    ];

    let graph = LoanGraph::build_from_data(&records);
    assert_eq!(graph.adjacency_list.len(), 2);
    assert_eq!(graph.adjacency_list[&0].contains(&1), true);
    assert_eq!(graph.adjacency_list[&1].contains(&0), true);
}

#[test]
fn test_degree_distribution() {
    let mut graph = LoanGraph::new();
    graph.adjacency_list.insert(0, [1, 2].iter().cloned().collect());
    graph.adjacency_list.insert(1, [0, 2].iter().cloned().collect());
    graph.adjacency_list.insert(2, [0, 1].iter().cloned().collect());

    let dist = graph.compute_degree_distribution();
    assert_eq!(dist.len(), 1);
    assert_eq!(dist[&2], 3);
}

#[test]
fn new_graph_is_empty() {
    let graph = LoanGraph::new();
    assert!(graph.adjacency_list.is_empty());
    assert!(graph.compute_degree_distribution().is_empty());
}

#[test]
fn shared_education_links_pair() {
    let records = vec![record("Master", "VENTURE"), record("Master", "MEDICAL")];
    let graph = LoanGraph::build_from_data(&records);
    let mut expected = HashMap::new();
    expected.insert(0u32, set_of(&[1]));
    expected.insert(1u32, set_of(&[0]));
    assert_eq!(graph.adjacency_list, expected);
    let dist = graph.compute_degree_distribution();
    let mut hist = HashMap::new();
    hist.insert(1usize, 2usize);
    assert_eq!(dist, hist);
}

#[test]
fn triangle_gives_degree_two() {
    let records = vec![
        record("Bachelor", "PERSONAL"),
        record("Bachelor", "EDUCATION"),
        record("Master", "PERSONAL"),
    ];
    // 0-1 share education, 0-2 share intent, 1-2 share nothing.
    let graph = LoanGraph::build_from_data(&records);
    assert_eq!(graph.adjacency_list[&0], set_of(&[1, 2]));
    assert_eq!(graph.adjacency_list[&1], set_of(&[0]));
    assert_eq!(graph.adjacency_list[&2], set_of(&[0]));

    let records = vec![
        record("Bachelor", "PERSONAL"),
        record("Bachelor", "EDUCATION"),
        record("Bachelor", "PERSONAL"),
    ];
    let graph = LoanGraph::build_from_data(&records);
    assert_eq!(graph.adjacency_list.len(), 3);
    for k in 0u32..3 {
        assert_eq!(graph.adjacency_list[&k].len(), 2);
        assert!(!graph.adjacency_list[&k].contains(&k));
    }
    let dist = graph.compute_degree_distribution();
    let mut hist = HashMap::new();
    hist.insert(2usize, 3usize);
    assert_eq!(dist, hist);
}

#[test]
fn isolated_record_is_absent() {
    let records = vec![
        record("HighSchool", "HOMEIMPROVEMENT"),
        record("HighSchool", "VENTURE"),
        record("Doctorate", "MEDICAL"),
    ];
    let graph = LoanGraph::build_from_data(&records);
    let mut expected = HashMap::new();
    expected.insert(0u32, set_of(&[1]));
    expected.insert(1u32, set_of(&[0]));
    assert_eq!(graph.adjacency_list, expected);
    assert!(!graph.adjacency_list.contains_key(&2));
    let dist = graph.compute_degree_distribution();
    let mut hist = HashMap::new();
    hist.insert(1usize, 2usize);
    assert_eq!(dist, hist);
}

#[test]
fn single_record_gives_empty_graph() {
    let records = vec![record("Associate", "PERSONAL")];
    let graph = LoanGraph::build_from_data(&records);
    assert!(graph.adjacency_list.is_empty());
    assert!(graph.compute_degree_distribution().is_empty());
}

#[test]
fn no_records_give_empty_graph() {
    let graph = LoanGraph::build_from_data(&[]);
    assert!(graph.adjacency_list.is_empty());
    assert!(graph.compute_degree_distribution().is_empty());
}

#[test]
fn two_separate_pairs() {
    let records = vec![
        record("Bachelor", "VENTURE"),
        record("Bachelor", "MEDICAL"),
        record("Master", "EDUCATION"),
        record("Doctorate", "EDUCATION"),
    ];
    let graph = LoanGraph::build_from_data(&records);
    let mut expected = HashMap::new();
    expected.insert(0u32, set_of(&[1]));
    expected.insert(1u32, set_of(&[0]));
    expected.insert(2u32, set_of(&[3]));
    expected.insert(3u32, set_of(&[2]));
    assert_eq!(graph.adjacency_list, expected);
    let dist = graph.compute_degree_distribution();
    let mut hist = HashMap::new();
    hist.insert(1usize, 4usize);
    assert_eq!(dist, hist);
}

#[test]
fn comparison_is_case_sensitive() {
    let records = vec![record("Bachelor", "VENTURE"), record("bachelor", "venture")];
    let graph = LoanGraph::build_from_data(&records);
    assert!(graph.adjacency_list.is_empty());
}

#[test]
fn empty_categories_compare_equal() {
    let records = vec![record("", "VENTURE"), record("", "MEDICAL")];
    let graph = LoanGraph::build_from_data(&records);
    assert_eq!(graph.adjacency_list[&0], set_of(&[1]));
    assert_eq!(graph.adjacency_list[&1], set_of(&[0]));
}

#[test]
fn graph_properties_hold_on_mixed_input() {
    let records = vec![
        record("A", "X"),
        record("B", "Y"),
        record("A", "Z"),
        record("C", "Y"),
        record("D", "W"),
        record("B", "Z"),
    ];
    let graph = LoanGraph::build_from_data(&records);
    let n = records.len() as u32;
    for i in 0..n {
        for j in 0..n {
            let a = &records[i as usize];
            let b = &records[j as usize];
            let similar = i != j
                && (a.person_education == b.person_education || a.loan_intent == b.loan_intent);
            let stored = graph.adjacency_list.get(&i).map_or(false, |s| s.contains(&j));
            assert_eq!(stored, similar);
            let back = graph.adjacency_list.get(&j).map_or(false, |s| s.contains(&i));
            assert_eq!(stored, back);
        }
    }
    // record 4 shares nothing with anyone
    assert!(!graph.adjacency_list.contains_key(&4));
    assert_eq!(graph.adjacency_list.len(), 5);

    let dist = graph.compute_degree_distribution();
    let total: usize = dist.values().sum();
    assert_eq!(total, graph.adjacency_list.len());
    for (d, c) in &dist {
        let nodes = graph.adjacency_list.values().filter(|s| s.len() == *d).count();
        assert_eq!(*c, nodes);
    }
    let mut hist = HashMap::new();
    hist.insert(1usize, 2usize);
    hist.insert(2usize, 3usize);
    assert_eq!(dist, hist);

    let again = LoanGraph::build_from_data(&records);
    assert_eq!(again.adjacency_list, graph.adjacency_list);
}
