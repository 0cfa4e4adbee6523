use tael_server::grouping::assigned_to;
use tael_server::similarity::{best_centroid, nearest, reassign, report_clusters, seeds, Candidate, Cluster, ClusterError, Clustering, Neighbor};

struct Embedding {
    trace_id: String,
    vector: Vec<f32>,
}

fn e(id: &str, v: &[f32]) -> Embedding {
    Embedding {
        trace_id: id.into(),
        vector: v.to_vec(),
    }
}

fn cosine(a: &[f32], b: &[f32]) -> Option<f32> {
    if a.len() != b.len() || a.is_empty() {
        return None;
    }
    let dot: f32 = a.iter().zip(b).map(|(x, y)| x * y).sum();
    let na: f32 = a.iter().map(|x| x * x).sum::<f32>().sqrt();
    let nb: f32 = b.iter().map(|x| x * x).sum::<f32>().sqrt();
    if na == 0.0 || nb == 0.0 {
        return None;
    }
    Some(dot / (na * nb))
}

fn neighbours(query: &Embedding, candidates: &[Embedding], limit: usize, floor: f32) -> Vec<Neighbor> {
    let candidates = candidates
        .iter()
        .map(|c| Candidate {
            trace_id: c.trace_id.clone(),
            similarity: cosine(&query.vector, &c.vector).map(f32::to_bits),
        })
        .collect();
    nearest(&query.trace_id, &candidates, limit, floor.to_bits())
}

fn cluster(embeddings: &[Embedding], k: usize, rounds: usize) -> Result<Vec<Cluster>, ClusterError> {
    let dims = embeddings.iter().map(|x| x.vector.len()).collect();
    let mut centroids: Vec<Vec<f32>> = seeds(&dims, k)?
        .into_iter()
        .map(|i| embeddings[i].vector.clone())
        .collect();
    let mut run = Clustering::new(embeddings.len(), rounds);
    while run.goes_on() {
        let similarities = embeddings
            .iter()
            .map(|x| centroids.iter().map(|c| cosine(&x.vector, c).map(f32::to_bits)).collect())
            .collect();
        if run.round(&similarities) {
            for (c, centroid) in centroids.iter_mut().enumerate() {
                let members = assigned_to(&run.assignments, c);
                for (d, slot) in centroid.iter_mut().enumerate() {
                    let sum: f32 = members.iter().map(|m| embeddings[*m].vector[d]).sum();
                    if !members.is_empty() {
                        *slot = sum / members.len() as f32;
                    }
                }
            }
        }
    }
    let assignments = run.assignments;
    let similarities: Vec<Vec<u32>> = centroids
        .iter()
        .enumerate()
        .map(|(c, centroid)| {
            assigned_to(&assignments, c)
                .into_iter()
                .map(|m| cosine(&embeddings[m].vector, centroid).unwrap_or(0.0).to_bits())
                .collect()
        })
        .collect();
    let cohesion = similarities
        .iter()
        .map(|s: &Vec<u32>| {
            let sum: f32 = s.iter().map(|b| f32::from_bits(*b)).sum();
            (sum / s.len() as f32).to_bits()
        })
        .collect();
    let ids = embeddings.iter().map(|x| x.trace_id.clone()).collect();
    Ok(report_clusters(&ids, &assignments, &similarities, &cohesion))
}

#[test]
fn nearest_excludes_the_query_and_respects_the_floor() {
    let query = e("q", &[1.0, 0.0]);
    let candidates = vec![
        e("q", &[1.0, 0.0]),
        e("close", &[0.9, 0.1]),
        e("orthogonal", &[0.0, 1.0]),
        e("opposite", &[-1.0, 0.0]),
    ];

    let hits = neighbours(&query, &candidates, 10, 0.5);
    let ids: Vec<&str> = hits.iter().map(|n| n.trace_id.as_str()).collect();
    assert_eq!(ids, vec!["close"], "only `close` clears a 0.5 floor");

    let all = neighbours(&query, &candidates, 10, -1.0);
    assert!(
        !all.iter().any(|n| n.trace_id == "q"),
        "a trace is trivially its own neighbor and must not fill a slot"
    );
    assert_eq!(all[0].trace_id, "close");
    assert_eq!(all.last().unwrap().trace_id, "opposite");
}

#[test]
fn nearest_honors_the_limit() {
    let query = e("q", &[1.0, 0.0]);
    let candidates: Vec<Embedding> = (0..20)
        .map(|i| e(&format!("t{i}"), &[1.0, i as f32 * 0.01]))
        .collect();
    assert_eq!(neighbours(&query, &candidates, 5, -1.0).len(), 5);
}

#[test]
fn what_cannot_be_compared_is_no_neighbour() {
    let query = e("q", &[1.0, 0.0]);
    let candidates = vec![e("short", &[1.0]), e("zero", &[0.0, 0.0])];
    assert!(neighbours(&query, &candidates, 10, -1.0).is_empty());
}

#[test]
fn clustering_separates_two_obvious_groups() {
    let mut embeddings = Vec::new();
    for i in 0..10 {
        embeddings.push(e(&format!("a{i}"), &[1.0, i as f32 * 0.01]));
    }
    for i in 0..6 {
        embeddings.push(e(&format!("b{i}"), &[i as f32 * 0.01, 1.0]));
    }

    let clusters = cluster(&embeddings, 2, 50).unwrap();
    assert_eq!(clusters.len(), 2);
    assert_eq!(clusters[0].size, 10);
    assert_eq!(clusters[1].size, 6);
    assert!(clusters[0].members.iter().all(|m| m.starts_with('a')));
    assert!(clusters[1].members.iter().all(|m| m.starts_with('b')));
    assert!(f32::from_bits(clusters[0].cohesion) > 0.9);
    assert!(clusters[0].members.contains(&clusters[0].exemplar));
    assert_eq!((clusters[0].id, clusters[1].id), (0, 1));
}

#[test]
fn clustering_is_deterministic() {
    let embeddings: Vec<Embedding> = (0..30)
        .map(|i| e(&format!("t{i}"), &[(i % 3) as f32, (i % 5) as f32, 1.0]))
        .collect();
    let first = cluster(&embeddings, 3, 50).unwrap();
    let second = cluster(&embeddings, 3, 50).unwrap();
    assert_eq!(
        first.iter().map(|c| c.members.clone()).collect::<Vec<_>>(),
        second.iter().map(|c| c.members.clone()).collect::<Vec<_>>()
    );
}

#[test]
fn clustering_handles_degenerate_input() {
    assert!(cluster(&[], 3, 10).unwrap().is_empty());
    assert!(matches!(cluster(&[e("a", &[1.0])], 0, 10), Err(ClusterError::NoClusters)));
    assert!(matches!(cluster(&[e("a", &[])], 1, 10), Err(ClusterError::NoDimensions)));
    let clusters = cluster(&[e("a", &[1.0, 0.0]), e("b", &[0.0, 1.0])], 10, 10).unwrap();
    assert_eq!(clusters.len(), 2);
}

#[test]
fn mismatched_dimensions_are_refused() {
    let err = cluster(&[e("a", &[1.0, 0.0]), e("b", &[1.0, 0.0, 0.0])], 2, 10)
        .unwrap_err()
        .message();
    assert!(err.contains("inconsistent dimensions"), "{err}");
}

#[test]
fn seeds_are_evenly_spaced() {
    assert_eq!(seeds(&vec![2; 9], 3).unwrap(), vec![0, 3, 6]);
    assert_eq!(seeds(&vec![2; 2], 5).unwrap(), vec![0, 1]);
    assert_eq!(best_centroid(&vec![None, Some(0.5f32.to_bits()), Some(0.25f32.to_bits())]), 1);
    assert_eq!(best_centroid(&vec![None]), 0);
}

#[test]
fn a_clustering_settles_or_runs_out_of_rounds() {
    let near = |a: f32, b: f32| vec![Some(a.to_bits()), Some(b.to_bits())];
    let mut run = Clustering::new(2, 2);
    assert_eq!(run.assignments, vec![0, 0]);
    assert!(run.round(&vec![near(0.9, 0.1), near(0.1, 0.9)]));
    assert_eq!(run.assignments, vec![0, 1]);
    assert!(run.goes_on());
    assert!(!run.round(&vec![near(0.9, 0.1), near(0.1, 0.9)]));
    assert!(run.settled && !run.goes_on());
    assert!(!Clustering::new(2, 0).goes_on());
    let mut assignments = vec![0, 1];
    assert!(reassign(&mut assignments, vec![1, 1]));
    assert!(!reassign(&mut assignments, vec![1, 1]));
}

#[test]
fn every_trace_stands_in_one_cluster() {
    let embeddings: Vec<Embedding> = (0..20)
        .map(|i| e(&format!("t{i}"), &[(i % 4) as f32, (i % 3) as f32, 1.0]))
        .collect();
    let clusters = cluster(&embeddings, 5, 50).unwrap();
    assert!(clusters.len() <= 5);
    assert!(clusters.windows(2).all(|w| w[0].size >= w[1].size));
    let mut members: Vec<String> = clusters.into_iter().flat_map(|c| c.members).collect();
    members.sort();
    let mut ids: Vec<String> = embeddings.into_iter().map(|x| x.trace_id).collect();
    ids.sort();
    assert_eq!(members, ids);
}
