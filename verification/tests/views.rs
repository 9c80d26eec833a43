use std::collections::HashSet;

use dir_indexer::AbsPath;
use dir_indexer::DirIndexer;
use dir_indexer::FsChild;
use dir_indexer::FsProbe;
use dir_indexer::RelPath;

fn seg(name: &[u8]) -> Vec<u8> {
    name.to_vec()
}

fn child(name: &[u8], probe: FsProbe) -> FsChild {
    FsChild { name: seg(name), probe }
}

/// The probe of a root `/tmp/t` holding `a.txt` and `sub/b.txt`.
fn sample_probe() -> FsProbe {
    FsProbe::Dir(vec![
        child(b"a.txt", FsProbe::File),
        child(b"sub", FsProbe::Dir(vec![child(b"b.txt", FsProbe::File)])),
    ])
}

fn sample_root() -> AbsPath {
    AbsPath::from_segments(vec![seg(b"tmp"), seg(b"t")])
}

fn rel_set(paths: &[RelPath]) -> HashSet<Vec<Vec<u8>>> {
    paths.iter().map(|p| p.segments.clone()).collect()
}

fn abs_set(paths: &[AbsPath]) -> HashSet<Vec<Vec<u8>>> {
    paths.iter().map(|p| p.segments.clone()).collect()
}

#[test]
fn valid_directory_succeeds_and_missing_fails() {
    let ok = DirIndexer::from(sample_root(), &sample_probe());
    assert!(ok.is_ok());
    let missing = DirIndexer::from(sample_root(), &FsProbe::Missing);
    assert!(missing.is_err());
}

#[test]
fn file_root_fails_with_not_directory() {
    let r = DirIndexer::from(sample_root(), &FsProbe::File);
    assert!(matches!(
        r,
        Err(dir_indexer::DirIndexerErr::NotDirNorExist(_))
    ));
}

#[test]
fn missing_root_fails_with_not_directory() {
    let r = DirIndexer::from(sample_root(), &FsProbe::Missing);
    assert!(matches!(
        r,
        Err(dir_indexer::DirIndexerErr::NotDirNorExist(_))
    ));
}

#[test]
fn scenario_two_files_one_subdirectory() {
    let idx = DirIndexer::from(sample_root(), &sample_probe()).unwrap();

    let files = rel_set(&idx.get_relative_file_paths_set());
    let mut expected_files = HashSet::new();
    expected_files.insert(vec![seg(b"a.txt")]);
    expected_files.insert(vec![seg(b"sub"), seg(b"b.txt")]);
    assert_eq!(files, expected_files);

    let dirs = rel_set(&idx.get_relative_dir_paths_set());
    let mut expected_dirs = HashSet::new();
    expected_dirs.insert(vec![seg(b"sub")]);
    assert_eq!(dirs, expected_dirs);

    let rl2ab = idx.get_rl2ab_file_paths_map();
    let a_txt: Vec<Vec<u8>> = vec![seg(b"a.txt")];
    let bound = rl2ab
        .iter()
        .find(|pair| pair.0.segments == a_txt)
        .expect("a.txt is mapped");
    assert_eq!(
        bound.1.segments,
        vec![seg(b"tmp"), seg(b"t"), seg(b"a.txt")]
    );
}

#[test]
fn absolute_views_join_root_and_relative_path() {
    let idx = DirIndexer::from(sample_root(), &sample_probe()).unwrap();
    let abs_files = abs_set(&idx.get_absolute_file_paths_set());
    let mut expected = HashSet::new();
    expected.insert(vec![seg(b"tmp"), seg(b"t"), seg(b"a.txt")]);
    expected.insert(vec![seg(b"tmp"), seg(b"t"), seg(b"sub"), seg(b"b.txt")]);
    assert_eq!(abs_files, expected);

    let abs_dirs = abs_set(&idx.get_absolute_dir_paths_set());
    let mut expected_dirs = HashSet::new();
    expected_dirs.insert(vec![seg(b"tmp"), seg(b"t"), seg(b"sub")]);
    assert_eq!(abs_dirs, expected_dirs);
}

#[test]
fn round_trip_between_relative_and_absolute() {
    let idx = DirIndexer::from(sample_root(), &sample_probe()).unwrap();
    let rels = idx.get_relative_file_paths_set();
    let abs = abs_set(&idx.get_absolute_file_paths_set());
    let rl2ab = idx.get_rl2ab_file_paths_map();
    let ab2rl = idx.get_ab2rl_file_paths_map();

    for r in &rels {
        let pair = rl2ab
            .iter()
            .find(|pair| pair.0.segments == r.segments)
            .expect("every relative path is a key");
        // The mapped absolute path is the root joined with the
        // relative path, and stands in the absolute view.
        let mut joined = sample_root().segments;
        joined.extend(r.segments.iter().cloned());
        assert_eq!(pair.1.segments, joined);
        assert!(abs.contains(&pair.1.segments));
        // Mapping the absolute path back yields the relative one.
        let back = ab2rl
            .iter()
            .find(|pair2| pair2.0.segments == pair.1.segments)
            .expect("every absolute path is a key");
        assert_eq!(back.1.segments, r.segments);
    }
}

#[test]
fn views_are_idempotent_without_mutation() {
    let idx = DirIndexer::from(sample_root(), &sample_probe()).unwrap();
    assert_eq!(
        rel_set(&idx.get_relative_file_paths_set()),
        rel_set(&idx.get_relative_file_paths_set())
    );
    assert_eq!(
        rel_set(&idx.get_relative_dir_paths_set()),
        rel_set(&idx.get_relative_dir_paths_set())
    );
    let m1: Vec<(Vec<Vec<u8>>, Vec<Vec<u8>>)> = idx
        .get_rl2ab_file_paths_map()
        .iter()
        .map(|p| (p.0.segments.clone(), p.1.segments.clone()))
        .collect();
    let m2: Vec<(Vec<Vec<u8>>, Vec<Vec<u8>>)> = idx
        .get_rl2ab_file_paths_map()
        .iter()
        .map(|p| (p.0.segments.clone(), p.1.segments.clone()))
        .collect();
    assert_eq!(m1, m2);
}

#[test]
fn file_and_directory_views_partition_the_listing() {
    let idx = DirIndexer::from(sample_root(), &sample_probe()).unwrap();
    let files = rel_set(&idx.get_relative_file_paths_set());
    let dirs = rel_set(&idx.get_relative_dir_paths_set());
    assert!(files.is_disjoint(&dirs));
    let union: HashSet<Vec<Vec<u8>>> = files.union(&dirs).cloned().collect();
    // The full recursive listing of the tree, the root itself aside.
    let mut all = HashSet::new();
    all.insert(vec![seg(b"a.txt")]);
    all.insert(vec![seg(b"sub")]);
    all.insert(vec![seg(b"sub"), seg(b"b.txt")]);
    assert_eq!(union, all);
}

#[test]
fn empty_directory_yields_empty_views() {
    // Convention under test: the root is excluded from its own
    // directory views, so an empty directory has only empty views.
    let idx = DirIndexer::from(sample_root(), &FsProbe::Dir(vec![])).unwrap();
    assert!(idx.get_relative_file_paths_set().is_empty());
    assert!(idx.get_absolute_file_paths_set().is_empty());
    assert!(idx.get_relative_dir_paths_set().is_empty());
    assert!(idx.get_absolute_dir_paths_set().is_empty());
    assert!(idx.get_rl2ab_file_paths_map().is_empty());
    assert!(idx.get_rl2ab_dir_paths_map().is_empty());
    assert!(idx.get_ab2rl_file_paths_map().is_empty());
    assert!(idx.get_ab2rl_dir_paths_map().is_empty());
}

#[test]
fn denied_subdirectory_is_absent_but_index_builds() {
    let probe = FsProbe::Dir(vec![
        child(b"ok.txt", FsProbe::File),
        child(b"secret", FsProbe::DirDenied),
        child(b"gone", FsProbe::Missing),
    ]);
    let idx = DirIndexer::from(sample_root(), &probe).unwrap();
    let files = rel_set(&idx.get_relative_file_paths_set());
    let mut expected = HashSet::new();
    expected.insert(vec![seg(b"ok.txt")]);
    assert_eq!(files, expected);
    assert!(idx.get_relative_dir_paths_set().is_empty());
}

#[test]
fn denied_root_fails_with_permission_error() {
    let r = DirIndexer::from(sample_root(), &FsProbe::DirDenied);
    assert!(matches!(
        r,
        Err(dir_indexer::DirIndexerErr::LackPermission(_))
    ));
}
