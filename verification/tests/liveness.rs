use fdkg_tally::errors::SampleError;
use fdkg_tally::graph::{build_adjacency_list, generate_barabasi_albert_graph,
    generate_full_graph, generate_random_graph};
use fdkg_tally::sampler::{binary_search_cumulative, build_cumulative_degrees,
    select_nodes_by_degree, select_nodes_by_degree_subset};
use fdkg_tally::sweep::build_configurations;
use fdkg_tally::trial::{run_trial, NetworkModel, NetworkSimulation};

#[test]
fn full_graph_adjacency() {
    let (adj, degrees) = generate_full_graph(10);
    assert_eq!(adj.len(), 10);
    assert_eq!(degrees, vec![9usize; 10]);
    for v in 0..10usize {
        let expected: Vec<usize> = (0..10).filter(|&u| u != v).collect();
        assert_eq!(adj[v], expected);
    }
}

#[test]
fn dkg_simulation_adjacency() {
    let sim = NetworkSimulation::new(6, 5, 2, NetworkModel::Dkg);
    assert_eq!(sim.number_of_nodes, 6);
    assert_eq!(sim.threshold, 2);
    for v in 0..6usize {
        let expected: Vec<usize> = (0..6).filter(|&u| u != v).collect();
        assert_eq!(sim.adjacency_list[v], expected);
    }
}

#[test]
fn random_graph_out_regular() {
    let (adj, degrees) = generate_random_graph(50, 7);
    assert_eq!(adj.len(), 50);
    assert_eq!(degrees, vec![7usize; 50]);
    for v in 0..50usize {
        assert_eq!(adj[v].len(), 7);
        let mut seen = vec![false; 50];
        for &t in &adj[v] {
            assert!(t < 50);
            assert_ne!(t, v);
            assert!(!seen[t], "duplicate guardian");
            seen[t] = true;
        }
    }
}

#[test]
fn barabasi_albert_shape() {
    let (adj, degrees) = generate_barabasi_albert_graph(100, 3);
    assert_eq!(adj.len(), 100);
    assert_eq!(degrees.len(), 100);
    let mut total: usize = 0;
    for v in 0..100usize {
        assert_eq!(adj[v].len(), 3);
        let mut seen = vec![false; 100];
        for &t in &adj[v] {
            assert!(t < 100);
            assert_ne!(t, v);
            assert!(!seen[t], "duplicate guardian");
            seen[t] = true;
        }
        assert!(degrees[v] >= 1);
        total += degrees[v];
    }
    assert!(total <= 2 * 100 * 3 + 2);
}

#[test]
fn barabasi_albert_heavy_tail() {
    // The out-degree is a constant k, so the preferential-attachment tail
    // shows in the in-degrees: popularity minus out-degree.
    let (adj, degrees) = generate_barabasi_albert_graph(1000, 5);
    let mut in_degrees: Vec<usize> = (0..1000).map(|v| degrees[v] - adj[v].len()).collect();
    in_degrees.sort();
    let median = in_degrees[500];
    let top_decile = in_degrees[900];
    assert!(
        top_decile >= 3 * median,
        "top decile {} vs median {}",
        top_decile,
        median
    );
}

#[test]
fn cumulative_degrees_values() {
    let (c, total) = build_cumulative_degrees(&vec![3usize, 0, 2]);
    assert_eq!(c, vec![3usize, 3, 5]);
    assert_eq!(total, 5);
}

#[test]
fn binary_search_cases() {
    let c = vec![2usize, 5, 5, 9];
    assert_eq!(binary_search_cumulative(&c, 0), 0);
    assert_eq!(binary_search_cumulative(&c, 1), 0);
    assert_eq!(binary_search_cumulative(&c, 2), 1);
    assert_eq!(binary_search_cumulative(&c, 4), 1);
    assert_eq!(binary_search_cumulative(&c, 5), 3);
    assert_eq!(binary_search_cumulative(&c, 8), 3);
}

#[test]
fn sampler_insufficient_mass() {
    let r = select_nodes_by_degree(&vec![0usize, 0, 0], 1);
    assert_eq!(r, Err(SampleError::InsufficientMass));
    let ok = select_nodes_by_degree(&vec![0usize, 0, 0], 0).unwrap();
    assert_eq!(ok, Vec::<usize>::new());
}

#[test]
fn sampler_skips_zero_weight() {
    for _ in 0..100 {
        let r = select_nodes_by_degree(&vec![5usize, 0], 1).unwrap();
        assert_eq!(r, vec![0usize]);
    }
}

#[test]
fn sampler_uniform_frequency() {
    let weights = vec![5usize; 5];
    let mut counts = [0usize; 5];
    for _ in 0..5000 {
        let r = select_nodes_by_degree(&weights, 1).unwrap();
        counts[r[0]] += 1;
    }
    for &c in &counts {
        assert!(c > 800 && c < 1200, "count {} is not near uniform", c);
    }
}

#[test]
fn sampler_heavy_weight_frequency() {
    let weights = vec![1usize, 1, 1, 1, 96];
    let mut heavy: usize = 0;
    for _ in 0..2000 {
        let r = select_nodes_by_degree(&weights, 1).unwrap();
        if r[0] == 4 {
            heavy += 1;
        }
    }
    let rate = heavy as f64 / 2000.0;
    assert!(rate > 0.93 && rate < 0.99, "heavy rate {}", rate);
}

#[test]
fn subset_sampler_selects_within_subset() {
    let degrees = vec![9usize, 1, 9, 1];
    let subset = vec![1usize, 3];
    let r = select_nodes_by_degree_subset(&subset, &degrees, 2).unwrap();
    let mut sorted = r.clone();
    sorted.sort();
    assert_eq!(sorted, vec![1usize, 3]);
    let too_many = select_nodes_by_degree_subset(&subset, &degrees, 3);
    assert_eq!(too_many, Err(SampleError::InsufficientMass));
}

#[test]
fn trial_all_retained_succeeds() {
    for _ in 0..50 {
        let r = run_trial(8, 7, 3, NetworkModel::Dkg, 8, 8, 0);
        assert_eq!(r, Ok(true));
    }
}

#[test]
fn trial_no_talliers() {
    for _ in 0..50 {
        assert_eq!(run_trial(8, 7, 3, NetworkModel::Dkg, 3, 0, 0), Ok(false));
        assert_eq!(run_trial(8, 7, 3, NetworkModel::Dkg, 0, 0, 0), Ok(true));
    }
}

#[test]
fn trial_zero_threshold_fails() {
    let r = run_trial(8, 7, 0, NetworkModel::Dkg, 8, 8, 0);
    assert_eq!(r, Ok(false));
}

#[test]
fn trial_insufficient_retention() {
    let r = run_trial(5, 4, 2, NetworkModel::Dkg, 2, 3, 0);
    assert_eq!(r, Err(SampleError::InsufficientMass));
}

#[test]
fn complete_graph_success_rate() {
    let n: usize = 10;
    let fdkg_size = (n as f64 * 1.0).floor() as usize;
    let ret_size = (fdkg_size as f64 * 0.6).floor() as usize;
    let mut successes: usize = 0;
    for _ in 0..1000 {
        if run_trial(n, n - 1, 5, NetworkModel::Dkg, fdkg_size, ret_size, 0) == Ok(true) {
            successes += 1;
        }
    }
    assert!(successes >= 950, "successes {}", successes);
}

#[test]
fn random_graph_all_guardians_needed() {
    let n: usize = 200;
    let fdkg_size = n;
    let ret_size = (n as f64 * 0.5).floor() as usize;
    let mut successes: usize = 0;
    for _ in 0..100 {
        if run_trial(n, 10, 10, NetworkModel::RandomGraph, fdkg_size, ret_size, 0) == Ok(true) {
            successes += 1;
        }
    }
    assert!(successes <= 2, "successes {}", successes);
}

#[test]
fn configurations_dkg_grid() {
    let cfgs = build_configurations(4, NetworkModel::Dkg);
    assert_eq!(cfgs.len(), 3 * 11 * 11);
    for c in &cfgs {
        assert_eq!(c.nodes, 4);
        assert_eq!(c.guardians, 3);
        assert!(1 <= c.threshold && c.threshold <= 3);
        assert!(c.fdkg_pct_tenths <= 10);
        assert!(c.tallier_ret_pct_tenths <= 10);
        assert_eq!(c.tallier_new_pct_tenths, 0);
    }
    assert_eq!(cfgs[0].threshold, 1);
    assert_eq!(cfgs[0].fdkg_pct_tenths, 0);
    assert_eq!(cfgs[0].tallier_ret_pct_tenths, 0);
}

#[test]
fn configurations_stepped_grid() {
    let cfgs = build_configurations(200, NetworkModel::RandomGraph);
    assert!(!cfgs.is_empty());
    let mut guardian_values: Vec<usize> = cfgs.iter().map(|c| c.guardians).collect();
    guardian_values.dedup();
    // guardians start at 2 and step by max(5, 199 / 20) = 9
    assert_eq!(guardian_values[0], 2);
    assert_eq!(guardian_values[1], 11);
    for c in &cfgs {
        assert_eq!(c.nodes, 200);
        assert!(1 <= c.threshold && c.threshold <= c.guardians);
        assert!(c.guardians < 200);
    }
}

#[test]
fn adjacency_from_edges() {
    let edges = vec![(0usize, 1usize), (1, 0), (0, 2)];
    let adj = build_adjacency_list(&edges, 3);
    assert_eq!(adj, vec![vec![1usize, 2], vec![0], vec![]]);
}
