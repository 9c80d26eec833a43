use std::collections::HashSet;

use dir_indexer::get_ab2rl_dir_paths_map;
use dir_indexer::get_ab2rl_file_paths_map;
use dir_indexer::get_absolute_dir_paths_set;
use dir_indexer::get_absolute_file_paths_set;
use dir_indexer::get_relative_dir_paths_set;
use dir_indexer::get_relative_file_paths_set;
use dir_indexer::get_rl2ab_dir_paths_map;
use dir_indexer::get_rl2ab_file_paths_map;
use dir_indexer::AbsPath;
use dir_indexer::DirIndexerErr;
use dir_indexer::DirNode;
use dir_indexer::DirTree;
use dir_indexer::FsChild;
use dir_indexer::FsProbe;
use dir_indexer::RelPath;

fn seg(name: &[u8]) -> Vec<u8> {
    name.to_vec()
}

fn child(name: &[u8], probe: FsProbe) -> FsChild {
    FsChild { name: seg(name), probe }
}

fn small_probe() -> FsProbe {
    FsProbe::Dir(vec![
        child(b"f", FsProbe::File),
        child(b"d", FsProbe::Dir(vec![child(b"g", FsProbe::File)])),
    ])
}

fn root() -> AbsPath {
    AbsPath::from_segments(vec![seg(b"r")])
}

fn rel_set(paths: &[RelPath]) -> HashSet<Vec<Vec<u8>>> {
    paths.iter().map(|p| p.segments.clone()).collect()
}

#[test]
fn rel_path_join_appends_one_segment() {
    let empty = RelPath::empty();
    assert!(empty.segments.is_empty());
    let one = empty.join(&seg(b"a"));
    assert_eq!(one.segments, vec![seg(b"a")]);
    let two = one.join(&seg(b"b"));
    assert_eq!(two.segments, vec![seg(b"a"), seg(b"b")]);
    assert_eq!(one.clone().segments, one.segments);
}

#[test]
fn abs_path_join_rel_concatenates_segments() {
    let base = AbsPath::from_segments(vec![seg(b"x"), seg(b"y")]);
    let rel = RelPath::from_segments(vec![seg(b"z")]);
    let joined = base.join_rel(&rel);
    assert_eq!(joined.segments, vec![seg(b"x"), seg(b"y"), seg(b"z")]);
    assert_eq!(base.clone().segments, base.segments);
}

#[test]
fn node_from_missing_entry_reports_not_file_and_dir() {
    let r = DirNode::from(&root(), &RelPath::empty(), &FsProbe::Missing);
    assert!(matches!(r, Err(DirIndexerErr::NotFileAndDir)));
}

#[test]
fn node_from_denied_directory_reports_lack_permission() {
    let rl = RelPath::from_segments(vec![seg(b"locked")]);
    let r = DirNode::from(&root(), &rl, &FsProbe::DirDenied);
    match r {
        Err(DirIndexerErr::LackPermission(p)) => {
            assert_eq!(p.segments, vec![seg(b"r"), seg(b"locked")]);
        }
        other => panic!("expected LackPermission, got {:?}", other),
    }
}

#[test]
fn node_entry_names_resolve_against_root() {
    let rl = RelPath::from_segments(vec![seg(b"a")]);
    let node = DirNode::from(&root(), &rl, &FsProbe::File).unwrap();
    let abs = node.absolute_entry_name(root());
    assert_eq!(abs.segments, vec![seg(b"r"), seg(b"a")]);
    let node2 = DirNode::from(&root(), &rl, &FsProbe::File).unwrap();
    assert_eq!(node2.relative_entry_name().segments, vec![seg(b"a")]);
}

#[test]
fn tree_views_match_indexer_views() {
    let tree = DirTree::from(&root(), &small_probe());
    let files = rel_set(&tree.get_relative_file_paths(&root()));
    let mut expected = HashSet::new();
    expected.insert(vec![seg(b"f")]);
    expected.insert(vec![seg(b"d"), seg(b"g")]);
    assert_eq!(files, expected);

    let dirs = rel_set(&tree.get_relative_dir_paths(&root()));
    let mut expected_dirs = HashSet::new();
    expected_dirs.insert(vec![seg(b"d")]);
    assert_eq!(dirs, expected_dirs);

    let abs_files = tree.get_absolute_file_paths(&root());
    assert_eq!(abs_files.len(), 2);
    let abs_dirs = tree.get_absolute_dir_paths(&root());
    assert_eq!(abs_dirs.len(), 1);
    assert_eq!(abs_dirs[0].segments, vec![seg(b"r"), seg(b"d")]);

    assert_eq!(tree.get_rl2ab_file_paths(&root()).len(), 2);
    assert_eq!(tree.get_rl2ab_dir_paths(&root()).len(), 1);
    assert_eq!(tree.get_ab2rl_file_paths(&root()).len(), 2);
    assert_eq!(tree.get_ab2rl_dir_paths(&root()).len(), 1);
}

#[test]
fn one_shot_helpers_agree_with_the_indexer() {
    let files = rel_set(&get_relative_file_paths_set(root(), &small_probe()));
    let mut expected = HashSet::new();
    expected.insert(vec![seg(b"f")]);
    expected.insert(vec![seg(b"d"), seg(b"g")]);
    assert_eq!(files, expected);

    let dirs = rel_set(&get_relative_dir_paths_set(root(), &small_probe()));
    assert_eq!(dirs.len(), 1);

    assert_eq!(get_absolute_file_paths_set(root(), &small_probe()).len(), 2);
    let abs_dirs = get_absolute_dir_paths_set(root(), &small_probe());
    assert_eq!(abs_dirs.len(), 1);
    assert_eq!(abs_dirs[0].segments, vec![seg(b"r"), seg(b"d")]);

    let rl2ab = get_rl2ab_file_paths_map(root(), &small_probe());
    assert_eq!(rl2ab.len(), 2);
    for pair in &rl2ab {
        assert_eq!(pair.1.segments[0], seg(b"r"));
    }
    assert_eq!(get_rl2ab_dir_paths_map(root(), &small_probe()).len(), 1);
    let ab2rl = get_ab2rl_file_paths_map(root(), &small_probe());
    assert_eq!(ab2rl.len(), 2);
    assert_eq!(get_ab2rl_dir_paths_map(root(), &small_probe()).len(), 1);
}

#[test]
fn error_messages_name_each_failure() {
    let p = AbsPath::from_segments(vec![seg(b"p")]);
    let rl = RelPath::from_segments(vec![seg(b"p")]);
    assert_eq!(
        DirIndexerErr::CanonicalizeFail(rl).message(),
        "unable to canonicalize the path"
    );
    assert_eq!(
        DirIndexerErr::NotDirNorExist(p.clone()).message(),
        "path does not exist or is not a directory"
    );
    assert_eq!(
        DirIndexerErr::LackPermission(p).message(),
        "lacking permission over the directory"
    );
    assert_eq!(
        DirIndexerErr::NotFileAndDir.message(),
        "the path is neither a file nor a directory"
    );
    assert_eq!(
        DirIndexerErr::ToStrFail.message(),
        "failed to convert path to string"
    );
    assert_eq!(
        DirIndexerErr::TreeConstructFailed.message(),
        "failed to construct directory tree"
    );
}

#[test]
fn duplicate_free_listing_has_no_repeated_paths() {
    let idx = dir_indexer::DirIndexer::from(root(), &small_probe()).unwrap();
    let files = idx.get_relative_file_paths_set();
    let as_set = rel_set(&files);
    assert_eq!(files.len(), as_set.len());
    let dirs = idx.get_relative_dir_paths_set();
    let dir_set = rel_set(&dirs);
    assert_eq!(dirs.len(), dir_set.len());
}
