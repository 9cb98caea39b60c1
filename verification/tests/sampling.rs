use kmeans::point::Point;
use kmeans::sampling::{create_data, forgy_centroids};

fn pt(x: i32, y: i32) -> Point {
    Point { x, y }
}

#[test]
fn create_data_makes_as_many_points_as_asked() {
    assert_eq!(create_data(pt(0, 0), 10, 0).len(), 0);
    assert_eq!(create_data(pt(0, 0), 10, 1).len(), 1);
    assert_eq!(create_data(pt(7000, 5000), 1000, 150).len(), 150);
}

#[test]
fn create_data_stays_in_the_box() {
    for p in create_data(pt(7000, 5000), 1000, 500) {
        assert!(6500 <= p.x && p.x < 7500);
        assert!(4500 <= p.y && p.y < 5500);
    }
    for p in create_data(pt(-3, 8), 5, 500) {
        assert!(-5 <= p.x && p.x < 0);
        assert!(6 <= p.y && p.y < 11);
    }
}

#[test]
fn create_data_of_side_one_is_the_center() {
    for p in create_data(pt(12, -34), 1, 20) {
        assert_eq!(p, pt(12, -34));
    }
}

#[test]
fn create_data_at_the_ends_of_the_range() {
    for p in create_data(pt(i32::MAX, i32::MAX), 1, 5) {
        assert_eq!(p, pt(i32::MAX, i32::MAX));
    }
    for p in create_data(pt(i32::MIN + 1, i32::MIN + 1), 3, 50) {
        assert!(p.x <= i32::MIN + 2 && p.y <= i32::MIN + 2);
    }
    for p in create_data(pt(0, 0), i32::MAX, 50) {
        assert!(-(i32::MAX / 2) <= p.x && p.x <= i32::MAX / 2 + 1);
    }
}

#[test]
fn create_data_varies() {
    let data = create_data(pt(0, 0), 1000, 400);
    let first = data[0];
    assert!(data.iter().any(|p| p.x != first.x));
    assert!(data.iter().any(|p| p.y != first.y));
    assert!(data.iter().any(|p| p.x != -500));
    assert!(data.iter().any(|p| p.x != p.y));
}

#[test]
fn forgy_centroids_are_points_of_the_dataset() {
    let data: Vec<Point> = (0..30).map(|i| pt(i, 2 * i)).collect();
    for k in 1..=30 {
        let centroids = forgy_centroids(&data, k).unwrap();
        assert_eq!(centroids.len(), k);
        for c in &centroids {
            assert!(data.contains(c));
        }
    }
}

#[test]
fn forgy_centroids_vary() {
    let data: Vec<Point> = (0..200).map(|i| pt(i, -i)).collect();
    let centroids = forgy_centroids(&data, 200).unwrap();
    let first = centroids[0];
    assert!(centroids.iter().any(|c| *c != first));
}
