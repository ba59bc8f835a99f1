use dbscan::Model;
use fileman::cluster::{build_clusters, Classification};
use fileman::features::select_clusterable;
use fileman::plan::plan_symlinks;

fn convert(c: dbscan::Classification) -> Classification {
    match c {
        dbscan::Classification::Core(id) => Classification::Core(id),
        dbscan::Classification::Edge(id) => Classification::Edge(id),
        dbscan::Classification::Noise => Classification::Noise,
    }
}

#[test]
fn five_files_cluster_by_creation_time() {
    let paths: Vec<String> = (0..5).map(|i| format!("/in/f{i}")).collect();
    let times: Vec<Option<u64>> =
        vec![Some(0), Some(100), Some(200), Some(10000), Some(10100)];
    let (kept, feats) = select_clusterable(&paths, &times);
    assert_eq!(kept, paths);

    let inputs: Vec<Vec<f64>> = feats.iter().map(|&t| vec![t as f64, 0.0]).collect();
    let output = Model::new(600.0, 3).run(&inputs);
    let cls: Vec<Classification> = output.into_iter().map(convert).collect();

    // The three early files form one cluster; the late pair is noise.
    let map = build_clusters(&kept, &cls);
    assert_eq!(map.len(), 1);
    assert_eq!(map.members[0], vec!["/in/f0", "/in/f1", "/in/f2"]);

    // One output subdirectory with exactly three symlinks; the two noise
    // files produce no output.
    let plan = plan_symlinks(&map, "/out", "cluster");
    assert_eq!(plan.dirs.len(), 1);
    assert_eq!(plan.dirs[0].links.len(), 3);
    for dir in &plan.dirs {
        for link in &dir.links {
            assert_ne!(link.target_path, "/in/f3");
            assert_ne!(link.target_path, "/in/f4");
        }
    }
}
