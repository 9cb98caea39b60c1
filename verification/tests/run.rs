use kmeans::engine::KMeansError;
use kmeans::point::Point;
use kmeans::run::{kmeans_alg, kmeans_with_centroids, ResultKMeans};
use kmeans::sampling::{create_data, forgy_centroids};

fn pt(x: i32, y: i32) -> Point {
    Point { x, y }
}

fn sorted(mut points: Vec<Point>) -> Vec<(i32, i32)> {
    let mut pairs: Vec<(i32, i32)> = points.drain(..).map(|p| (p.x, p.y)).collect();
    pairs.sort();
    pairs
}

fn assert_partition(result: &ResultKMeans, data: &[Point], k: usize) {
    assert_eq!(result.centroids.len(), k);
    assert_eq!(result.clusters.len(), k);
    let together: Vec<Point> = result.clusters.iter().flatten().copied().collect();
    assert_eq!(sorted(together), sorted(data.to_vec()));
}

#[test]
fn single_point_is_its_own_centroid() {
    let result = kmeans_alg(vec![pt(0, 0)], 1, 100).unwrap();
    assert_eq!(result.centroids, vec![pt(0, 0)]);
    assert_eq!(result.clusters, vec![vec![pt(0, 0)]]);
    assert!(result.converged);
    assert_eq!(result.iterations, 1);
}

#[test]
fn two_points_that_start_as_centroids_converge_at_once() {
    let data = vec![pt(0, 0), pt(10, 0)];
    let result = kmeans_with_centroids(data.clone(), data.clone(), 100).unwrap();
    assert!(result.converged);
    assert_eq!(result.iterations, 1);
    assert_eq!(result.centroids, vec![pt(0, 0), pt(10, 0)]);
    assert_eq!(result.clusters, vec![vec![pt(0, 0)], vec![pt(10, 0)]]);
}

#[test]
fn three_tight_groups_are_found() {
    let centers = [pt(7000, 5000), pt(2000, 2000), pt(3000, 8000)];
    let ranges = [1000, 2000, 1000];
    let mut data: Vec<Point> = Vec::new();
    let mut init: Vec<Point> = Vec::new();
    for g in 0..3 {
        let group = create_data(centers[g], ranges[g], 150);
        assert_eq!(group.len(), 150);
        init.push(group[0]);
        data.extend(group);
    }
    let result = kmeans_with_centroids(data.clone(), init, 100).unwrap();
    assert!(result.converged);
    assert!(result.iterations <= 2);
    assert_partition(&result, &data, 3);
    for g in 0..3 {
        let half = ranges[g] / 2;
        let centroid = result.centroids[g];
        assert!((centroid.x - centers[g].x).abs() <= half);
        assert!((centroid.y - centers[g].y).abs() <= half);
        assert_eq!(result.clusters[g], data[150 * g..150 * (g + 1)].to_vec());
        for p in &result.clusters[g] {
            assert!(centers[g].x - half <= p.x && p.x < centers[g].x + half);
            assert!(centers[g].y - half <= p.y && p.y < centers[g].y + half);
        }
    }
}

#[test]
fn as_many_clusters_as_points_makes_singletons() {
    let data = vec![pt(0, 0), pt(10, 0), pt(0, 10), pt(-7, -7), pt(3, 4)];
    let result = kmeans_with_centroids(data.clone(), data.clone(), 100).unwrap();
    assert!(result.converged);
    assert_eq!(result.iterations, 1);
    assert_eq!(result.centroids, data);
    let singletons: Vec<Vec<Point>> = data.iter().map(|p| vec![*p]).collect();
    assert_eq!(result.clusters, singletons);
}

#[test]
fn centroids_move_to_the_means_until_they_stay() {
    let data = vec![pt(0, 0), pt(10, 0), pt(20, 0)];
    let result = kmeans_with_centroids(data.clone(), vec![pt(0, 0), pt(1, 0)], 100).unwrap();
    assert!(result.converged);
    assert_eq!(result.iterations, 2);
    assert_eq!(result.centroids, vec![pt(0, 0), pt(15, 0)]);
    assert_eq!(result.clusters, vec![vec![pt(0, 0)], vec![pt(10, 0), pt(20, 0)]]);
}

#[test]
fn a_run_stops_when_its_rounds_are_used_up() {
    let data = vec![pt(0, 0), pt(10, 0), pt(20, 0)];
    let init = vec![pt(0, 0), pt(1, 0)];
    let one = kmeans_with_centroids(data.clone(), init.clone(), 1).unwrap();
    assert!(!one.converged);
    assert_eq!(one.iterations, 1);
    assert_eq!(one.centroids, vec![pt(0, 0), pt(15, 0)]);
    assert_eq!(one.clusters, vec![vec![pt(0, 0)], vec![pt(10, 0), pt(20, 0)]]);
    let none = kmeans_with_centroids(data.clone(), init.clone(), 0).unwrap();
    assert!(!none.converged);
    assert_eq!(none.iterations, 0);
    assert_eq!(none.centroids, init);
    assert_eq!(none.clusters, vec![vec![pt(0, 0)], vec![pt(10, 0), pt(20, 0)]]);
    let two = kmeans_with_centroids(data.clone(), init.clone(), 2).unwrap();
    assert!(two.converged);
    assert_eq!(two.iterations, 2);
}

#[test]
fn a_run_fails_on_an_empty_cluster() {
    let data = vec![pt(0, 0), pt(10, 0)];
    let twice = vec![pt(0, 0), pt(0, 0)];
    let r = kmeans_with_centroids(data.clone(), twice, 100);
    assert_eq!(r.unwrap_err(), KMeansError::EmptyCluster);
    let far = vec![pt(5, 0), pt(1000, 1000)];
    let r = kmeans_with_centroids(data.clone(), far, 100);
    assert_eq!(r.unwrap_err(), KMeansError::EmptyCluster);
}

#[test]
fn an_empty_cluster_in_a_later_round_fails_the_run() {
    let data = vec![pt(-1, 0), pt(0, 0), pt(100, 0), pt(101, 0)];
    let init = vec![pt(-51, 0), pt(50, 0), pt(151, 0)];
    let first = kmeans_with_centroids(data.clone(), init.clone(), 1).unwrap();
    assert!(!first.converged);
    assert_eq!(first.iterations, 1);
    assert_eq!(first.centroids, vec![pt(-1, 0), pt(50, 0), pt(101, 0)]);
    assert_eq!(
        first.clusters,
        vec![vec![pt(-1, 0), pt(0, 0)], vec![], vec![pt(100, 0), pt(101, 0)]]
    );
    for cap in 2..5 {
        let r = kmeans_with_centroids(data.clone(), init.clone(), cap);
        assert_eq!(r.unwrap_err(), KMeansError::EmptyCluster);
    }
}

#[test]
fn no_clusters_or_too_many_is_refused() {
    let data = vec![pt(0, 0), pt(10, 0)];
    assert_eq!(kmeans_alg(data.clone(), 0, 100).unwrap_err(), KMeansError::InvalidK);
    assert_eq!(kmeans_alg(data.clone(), 3, 100).unwrap_err(), KMeansError::InvalidK);
    assert_eq!(kmeans_alg(vec![], 1, 100).unwrap_err(), KMeansError::InvalidK);
    assert_eq!(kmeans_alg(vec![], 0, 100).unwrap_err(), KMeansError::InvalidK);
    assert_eq!(
        kmeans_with_centroids(data.clone(), vec![], 100).unwrap_err(),
        KMeansError::InvalidK
    );
    assert_eq!(
        kmeans_with_centroids(data.clone(), vec![pt(0, 0); 3], 100).unwrap_err(),
        KMeansError::InvalidK
    );
    assert_eq!(forgy_centroids(&data, 0), Err(KMeansError::InvalidK));
    assert_eq!(forgy_centroids(&data, 3), Err(KMeansError::InvalidK));
}

#[test]
fn a_run_from_random_centroids_returns_a_partition() {
    let mut data = create_data(pt(7000, 5000), 1000, 60);
    data.extend(create_data(pt(2000, 2000), 2000, 60));
    data.extend(create_data(pt(3000, 8000), 1000, 60));
    for _ in 0..20 {
        match kmeans_alg(data.clone(), 3, 200) {
            Ok(result) => assert_partition(&result, &data, 3),
            Err(e) => assert_eq!(e, KMeansError::EmptyCluster),
        }
    }
}

#[test]
fn clusters_group_each_point_with_its_nearest_centroid() {
    let data: Vec<Point> = (0..40).map(|i| pt((i * 37) % 101, (i * 53) % 89)).collect();
    let init = vec![data[0], data[1], data[2], data[3]];
    let result = kmeans_with_centroids(data.clone(), init, 500).unwrap();
    assert_partition(&result, &data, 4);
    for (c, cluster) in result.clusters.iter().enumerate() {
        for p in cluster {
            let own = kmeans::point::squared_distance(*p, result.centroids[c]);
            for (other, centroid) in result.centroids.iter().enumerate() {
                let d = kmeans::point::squared_distance(*p, *centroid);
                assert!(own <= d);
                if other < c {
                    assert!(own < d);
                }
            }
        }
    }
    if result.converged {
        for (c, cluster) in result.clusters.iter().enumerate() {
            let n = cluster.len() as i64;
            let sx: i64 = cluster.iter().map(|p| p.x as i64).sum();
            let sy: i64 = cluster.iter().map(|p| p.y as i64).sum();
            assert_eq!(result.centroids[c].x as i64, sx.div_euclid(n));
            assert_eq!(result.centroids[c].y as i64, sy.div_euclid(n));
        }
    }
}
