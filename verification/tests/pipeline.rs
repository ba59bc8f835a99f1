use fileman::cluster::{build_clusters, ClusterMap, Classification};
use fileman::digits::dec_string;
use fileman::features::select_clusterable;
use fileman::paths::{base_name, join_path};
use fileman::plan::{cluster_label_string, plan_symlinks, plan_tags, tagging_enabled};

fn strings(v: &[&str]) -> Vec<String> {
    v.iter().map(|s| s.to_string()).collect()
}

#[test]
fn dec_string_exact_values() {
    assert_eq!(dec_string(0), "0");
    assert_eq!(dec_string(7), "7");
    assert_eq!(dec_string(10), "10");
    assert_eq!(dec_string(905), "905");
    assert_eq!(dec_string(usize::MAX), usize::MAX.to_string());
}

#[test]
fn base_name_cases() {
    assert_eq!(base_name("/in/a.txt"), "a.txt");
    assert_eq!(base_name("plain"), "plain");
    assert_eq!(base_name("/deep/er/x"), "x");
    assert_eq!(base_name("/trailing/"), "");
    assert_eq!(base_name(""), "");
}

#[test]
fn join_path_concatenates() {
    assert_eq!(join_path("/out", "cluster_0"), "/out/cluster_0");
    assert_eq!(join_path("", "x"), "/x");
}

#[test]
fn cluster_label_joins_prefix_and_id() {
    assert_eq!(cluster_label_string("cluster", 0), "cluster_0");
    assert_eq!(cluster_label_string("", 12), "_12");
}

#[test]
fn tagging_enabled_only_for_nonempty_prefix() {
    assert!(tagging_enabled("cluster"));
    assert!(!tagging_enabled(""));
}

#[test]
fn aggregator_groups_by_id_and_drops_noise() {
    let paths = strings(&["/in/a", "/in/b", "/in/c", "/in/d", "/in/e"]);
    let cls = vec![
        Classification::Core(1),
        Classification::Noise,
        Classification::Edge(1),
        Classification::Core(0),
        Classification::Edge(0),
    ];
    let map = build_clusters(&paths, &cls);
    assert_eq!(map.ids, vec![1, 0]);
    assert_eq!(map.members[0], strings(&["/in/a", "/in/c"]));
    assert_eq!(map.members[1], strings(&["/in/d", "/in/e"]));
}

#[test]
fn aggregator_empty_for_all_noise() {
    let paths = strings(&["/in/a", "/in/b"]);
    let cls = vec![Classification::Noise, Classification::Noise];
    let map = build_clusters(&paths, &cls);
    assert_eq!(map.len(), 0);
}

#[test]
fn aggregator_empty_for_empty_input() {
    let map = build_clusters(&Vec::new(), &Vec::new());
    assert_eq!(map.len(), 0);
}

#[test]
fn unreadable_files_are_dropped_before_clustering() {
    let paths = strings(&["/in/a", "/in/b", "/in/c"]);
    let times = vec![Some(5u64), None, Some(7u64)];
    let (kept, feats) = select_clusterable(&paths, &times);
    assert_eq!(kept, strings(&["/in/a", "/in/c"]));
    assert_eq!(feats, vec![5, 7]);
}

#[test]
fn unreadable_file_reaches_no_cluster_or_symlink() {
    let paths = strings(&["/in/a", "/in/bad", "/in/c"]);
    let times = vec![Some(5u64), None, Some(7u64)];
    let (kept, _feats) = select_clusterable(&paths, &times);
    let cls = vec![Classification::Core(0), Classification::Core(0)];
    let map = build_clusters(&kept, &cls);
    let plan = plan_symlinks(&map, "/out", "cluster");
    for members in &map.members {
        assert!(!members.contains(&"/in/bad".to_string()));
    }
    for dir in &plan.dirs {
        for link in &dir.links {
            assert_ne!(link.target_path, "/in/bad");
        }
    }
}

#[test]
fn symlink_plan_round_trip() {
    let map = ClusterMap {
        ids: vec![0, 2],
        members: vec![strings(&["/in/a.txt", "/in/b.txt"]), strings(&["/in/c.txt"])],
    };
    let plan = plan_symlinks(&map, "/out", "cluster");
    assert_eq!(plan.root, "/out");
    assert_eq!(plan.dirs.len(), 2);
    assert_eq!(plan.dirs[0].dir_path, "/out/cluster_0");
    assert_eq!(plan.dirs[1].dir_path, "/out/cluster_2");
    assert_eq!(plan.dirs[0].links.len(), 2);
    assert_eq!(plan.dirs[0].links[0].link_path, "/out/cluster_0/a.txt");
    assert_eq!(plan.dirs[0].links[0].target_path, "/in/a.txt");
    assert_eq!(plan.dirs[0].links[1].link_path, "/out/cluster_0/b.txt");
    assert_eq!(plan.dirs[0].links[1].target_path, "/in/b.txt");
    assert_eq!(plan.dirs[1].links.len(), 1);
    assert_eq!(plan.dirs[1].links[0].link_path, "/out/cluster_2/c.txt");
    assert_eq!(plan.dirs[1].links[0].target_path, "/in/c.txt");
    // Each mapping entry is planned exactly once.
    let mut all_links: Vec<&str> = Vec::new();
    for dir in &plan.dirs {
        for link in &dir.links {
            all_links.push(link.link_path.as_str());
        }
    }
    for i in 0..all_links.len() {
        for j in (i + 1)..all_links.len() {
            assert_ne!(all_links[i], all_links[j]);
        }
    }
}

#[test]
fn materialization_plan_is_idempotent() {
    let map = ClusterMap {
        ids: vec![3, 1],
        members: vec![strings(&["/in/x", "/in/y"]), strings(&["/in/z"])],
    };
    let first = plan_symlinks(&map, "/out", "p");
    let second = plan_symlinks(&map, "/out", "p");
    assert_eq!(first.root, second.root);
    assert_eq!(first.dirs.len(), second.dirs.len());
    for (d1, d2) in first.dirs.iter().zip(second.dirs.iter()) {
        assert_eq!(d1.dir_path, d2.dir_path);
        assert_eq!(d1.links.len(), d2.links.len());
        for (l1, l2) in d1.links.iter().zip(d2.links.iter()) {
            assert_eq!(l1.link_path, l2.link_path);
            assert_eq!(l1.target_path, l2.target_path);
        }
    }
}

#[test]
fn tag_plan_uses_prefix_and_cluster_id() {
    let map = ClusterMap {
        ids: vec![2],
        members: vec![strings(&["/pics/img1.jpg", "/pics/img2.jpg"])],
    };
    let tags = plan_tags(&map, "shoot");
    assert_eq!(tags.len(), 1);
    assert_eq!(tags[0].tag, "shoot_2");
    assert_eq!(tags[0].paths, strings(&["/pics/img1.jpg", "/pics/img2.jpg"]));
}
