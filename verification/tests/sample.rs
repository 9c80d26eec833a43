use dir_indexer::AbsPath;
use dir_indexer::DirIndexer;
use dir_indexer::FsProbe;

#[test]
fn test_creating_dir_indexer_obj() {
    // The path "source" names nothing on the filesystem, so the probe
    // of it reports a missing entry and indexing it must fail.
    let root = AbsPath::from_segments(vec![b"source".to_vec()]);
    let a = DirIndexer::from(root, &FsProbe::Missing);
    assert_ne!(a.is_ok(), true);
}
