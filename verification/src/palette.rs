//! The display color of each cluster.

use vstd::prelude::*;

verus! {

/// A display color.
#[derive(Clone, Copy, Debug, PartialEq, Eq, Structural)]
pub enum ClusterColor {
    Blue,
    Red,
    Green,
    Yellow,
    Magenta,
    Cyan,
    Black,
}

/// The colors of the first clusters, in the order of the clusters.
pub open spec fn palette() -> Seq<ClusterColor> {
    seq![
        ClusterColor::Blue,
        ClusterColor::Red,
        ClusterColor::Green,
        ClusterColor::Yellow,
        ClusterColor::Magenta,
        ClusterColor::Cyan,
    ]
}

/// The color in which the points of a cluster are drawn: that of the palette
/// for the clusters that it covers, black for every cluster after them.
pub fn cluster_color(cluster: usize) -> (color: ClusterColor)
    ensures
        cluster < palette().len() ==> color == palette()[cluster as int],
        cluster >= palette().len() ==> color == ClusterColor::Black,
{
    if cluster == 0 {
        ClusterColor::Blue
    } else if cluster == 1 {
        ClusterColor::Red
    } else if cluster == 2 {
        ClusterColor::Green
    } else if cluster == 3 {
        ClusterColor::Yellow
    } else if cluster == 4 {
        ClusterColor::Magenta
    } else if cluster == 5 {
        ClusterColor::Cyan
    } else {
        ClusterColor::Black
    }
}

/// The color in which the centroids are drawn, whatever their cluster.
pub fn centroid_color() -> (color: ClusterColor)
    ensures
        color == ClusterColor::Black,
{
    ClusterColor::Black
}

} // verus!
