use commitgrid::config::{Config, GridError};
use commitgrid::consts::GRID_SIZE;
use commitgrid::date::Date;
use commitgrid::git::GeneratedRepository;
use commitgrid::state::StateMap;
use std::time::{SystemTime, UNIX_EPOCH};

fn scratch_dir(tag: &str) -> String {
    let nanos = SystemTime::now().duration_since(UNIX_EPOCH).unwrap().as_nanos();
    format!("/tmp/commitgrid_{}_{}", tag, nanos)
}

fn grid_with(intensities: &[(usize, u8)]) -> StateMap {
    let anchor = Date::from_ymd(2024, 1, 1).unwrap();
    let mut m = vec![0u8; GRID_SIZE];
    for &(i, n) in intensities {
        m[i] = n;
    }
    Config(m).to_grid(Some(anchor)).unwrap()
}

/// The non-root chain from `HEAD` downwards: (timestamp, tree id) pairs,
/// newest first.  Asserts that the chain is linear and ends in a
/// parentless root, and returns the root's commit summary data too.
fn walk_chain(path: &str) -> (Vec<(i64, git2::Oid)>, i64) {
    let repo = git2::Repository::open(path).unwrap();
    let mut commit = repo.head().unwrap().peel_to_commit().unwrap();
    let mut chain = Vec::new();
    loop {
        if commit.parent_count() == 0 {
            break;
        }
        assert_eq!(commit.parent_count(), 1);
        chain.push((commit.time().seconds(), commit.tree_id()));
        commit = commit.parent(0).unwrap();
    }
    (chain, commit.time().seconds())
}

#[test]
fn three_commits_on_one_cell() {
    let path = scratch_dir("p7");
    let map = grid_with(&[(0, 3)]);
    let mut repo = GeneratedRepository::new(path.clone(), map);
    repo.init_repository().unwrap();
    repo.run().unwrap();

    let (chain, root_ts) = walk_chain(&path);
    assert_eq!(chain.len(), 3);
    for &(ts, _) in &chain {
        assert_eq!(ts, 1_704_067_200);
    }
    assert!(chain[0].1 != chain[1].1);
    assert!(chain[0].1 != chain[2].1);
    assert!(chain[1].1 != chain[2].1);
    assert_eq!(root_ts, 0);
}

#[test]
fn all_zero_grid_makes_no_commits() {
    let path = scratch_dir("zeros");
    let map = grid_with(&[]);
    let mut repo = GeneratedRepository::new(path.clone(), map);
    repo.init_repository().unwrap();
    repo.run().unwrap();
    let (chain, _) = walk_chain(&path);
    assert_eq!(chain.len(), 0);
}

#[test]
fn commit_count_equals_total_intensity() {
    let path = scratch_dir("sum");
    let map = grid_with(&[(1, 2), (10, 5), (370, 1)]);
    let mut repo = GeneratedRepository::new(path.clone(), map);
    repo.init_repository().unwrap();
    repo.run().unwrap();
    let (chain, _) = walk_chain(&path);
    assert_eq!(chain.len(), 8);
}

#[test]
fn timestamps_follow_cell_dates() {
    let path = scratch_dir("dates");
    // Cell 1 is 2024-01-02, cell 8 is 2024-01-09.
    let map = grid_with(&[(1, 1), (8, 2)]);
    let mut repo = GeneratedRepository::new(path.clone(), map);
    repo.init_repository().unwrap();
    repo.run().unwrap();
    let (chain, _) = walk_chain(&path);
    assert_eq!(chain.len(), 3);
    // walk_chain returns newest first; cells replay in date order.
    assert_eq!(chain[2].0, 1_704_067_200 + 86_400);
    assert_eq!(chain[1].0, 1_704_067_200 + 8 * 86_400);
    assert_eq!(chain[0].0, 1_704_067_200 + 8 * 86_400);
}

#[test]
fn run_without_repository_fails() {
    let map = grid_with(&[]);
    let mut repo = GeneratedRepository::new(scratch_dir("norepo"), map);
    assert!(matches!(repo.run(), Err(GridError::NoRepository)));
}

#[test]
fn open_missing_repository_fails() {
    let map = grid_with(&[]);
    let mut repo = GeneratedRepository::new(scratch_dir("missing"), map);
    assert!(matches!(repo.open_repository(), Err(GridError::RepositoryOpenFailure)));
}

#[test]
fn init_on_impossible_path_fails() {
    let map = grid_with(&[]);
    let mut repo = GeneratedRepository::new("/dev/null/nested/repo".to_string(), map);
    assert!(matches!(repo.init_repository(), Err(GridError::RepositoryInitFailure)));
}

#[test]
fn default_signature_and_message() {
    let path = scratch_dir("defaults");
    let map = grid_with(&[(0, 1)]);
    let mut repo = GeneratedRepository::new(path.clone(), map);
    repo.init_repository().unwrap();
    repo.run().unwrap();

    let opened = git2::Repository::open(&path).unwrap();
    let head = opened.head().unwrap().peel_to_commit().unwrap();
    assert_eq!(head.author().name().unwrap(), "Anonymous");
    assert_eq!(head.author().email().unwrap(), "wearelegion@example.org");
    assert_eq!(head.message().unwrap(), "I am a work of art");
}

#[test]
fn configured_signature_and_message() {
    let path = scratch_dir("custom");
    let map = grid_with(&[(0, 1)]);
    let mut repo = GeneratedRepository::new(path.clone(), map);
    repo.set_author("Tester".to_string());
    repo.set_email("tester@example.org".to_string());
    repo.set_message("hello grid".to_string());
    repo.init_repository().unwrap();
    repo.run().unwrap();

    let opened = git2::Repository::open(&path).unwrap();
    let head = opened.head().unwrap().peel_to_commit().unwrap();
    assert_eq!(head.author().name().unwrap(), "Tester");
    assert_eq!(head.author().email().unwrap(), "tester@example.org");
    assert_eq!(head.message().unwrap(), "hello grid");
}

#[test]
fn rerun_appends_a_fresh_chain() {
    let path = scratch_dir("rerun");
    let map = grid_with(&[(0, 2)]);
    let mut repo = GeneratedRepository::new(path.clone(), map);
    repo.init_repository().unwrap();
    repo.run().unwrap();
    repo.run().unwrap();
    let (chain, _) = walk_chain(&path);
    assert_eq!(chain.len(), 4);
}

#[test]
fn open_after_init_allows_synthesis() {
    let path = scratch_dir("reopen");
    let map = grid_with(&[(0, 1)]);
    let mut repo = GeneratedRepository::new(path.clone(), map);
    repo.init_repository().unwrap();

    let map2 = grid_with(&[(0, 2)]);
    let mut second = GeneratedRepository::new(path.clone(), map2);
    second.open_repository().unwrap();
    second.run().unwrap();
    let (chain, _) = walk_chain(&path);
    assert_eq!(chain.len(), 2);
}

#[test]
fn size_mismatch_touches_no_repository() {
    let path = scratch_dir("untouched");
    let anchor = Date::from_ymd(2024, 1, 1).unwrap();
    let bad = Config(vec![0u8; GRID_SIZE - 1]);
    assert!(matches!(bad.to_grid(Some(anchor)), Err(GridError::SizeMismatch)));
    // Nothing was ever created at the target path.
    assert!(git2::Repository::open(&path).is_err());
}

#[test]
fn run_on_unborn_head_fails_without_commits() {
    let path = scratch_dir("unborn");
    // A repository that exists but has no commit at all.
    git2::Repository::init(&path).unwrap();
    let map = grid_with(&[(0, 2)]);
    let mut repo = GeneratedRepository::new(path.clone(), map);
    repo.open_repository().unwrap();
    assert!(matches!(repo.run(), Err(GridError::ObjectWriteFailure)));
    // The failure appended nothing: `HEAD` still has no commit.
    let opened = git2::Repository::open(&path).unwrap();
    assert!(opened.head().is_err());
}
