use lance_index::cache::IndexCache;
use lance_index::index::{default_index_name, position_of_text, IndexError, IndexManager, OptimizeOptions};
use lance_index::metadata::{IndexMetadata, IndexType};

fn strings(v: &[&str]) -> Vec<String> {
    v.iter().map(|s| s.to_string()).collect()
}

fn record(uuid: u128, name: &str, col: &str, kind: IndexType, frags: &[u32]) -> IndexMetadata {
    IndexMetadata {
        uuid,
        name: name.to_string(),
        columns: strings(&[col]),
        index_type: kind,
        dataset_version: 1,
        fragments: frags.to_vec(),
    }
}

#[test]
fn create_then_load_by_name() {
    let mut m = IndexManager::new(1, Vec::new());
    let r = m.create_index(&strings(&["emb"]), IndexType::Vector, Some("idx1".to_string()), false, 7, vec![0, 1]);
    assert_eq!(r, Ok(()));
    assert_eq!(m.current_version(), 2);
    let found = m.load_indices_by_name("idx1");
    assert_eq!(found.len(), 1);
    assert_eq!(found[0].columns, strings(&["emb"]));
    assert_eq!(found[0].dataset_version, 2);
    assert_eq!(found[0].fragments, vec![0, 1]);
}

#[test]
fn drop_missing_name_is_not_found() {
    let mut m = IndexManager::new(1, vec![record(1, "a", "x", IndexType::BTree, &[0])]);
    assert_eq!(m.drop_index("nope"), Err(IndexError::NotFound));
    assert_eq!(m.current_version(), 1);
    assert_eq!(m.load_indices().len(), 1);
}

#[test]
fn drop_removes_all_deltas() {
    let mut m = IndexManager::new(
        1,
        vec![
            record(1, "a", "x", IndexType::BTree, &[0]),
            record(2, "b", "y", IndexType::Bitmap, &[0]),
            record(1, "a", "x", IndexType::BTree, &[1]),
        ],
    );
    assert_eq!(m.drop_index("a"), Ok(()));
    assert_eq!(m.current_version(), 2);
    let rest = m.load_indices();
    assert_eq!(rest.len(), 1);
    assert_eq!(rest[0].name, "b");
}

#[test]
fn load_by_absent_name_is_empty() {
    let mut m = IndexManager::new(1, vec![record(1, "a", "x", IndexType::BTree, &[0])]);
    assert!(m.load_indices_by_name("zzz").is_empty());
}

#[test]
fn load_index_by_id_text() {
    let id: u128 = 0xa1a2a3a4b1b2c1c2d1d2d3d4d5d6d7d8;
    let mut m = IndexManager::new(
        1,
        vec![record(5, "a", "x", IndexType::BTree, &[0]), record(id, "b", "y", IndexType::Vector, &[2])],
    );
    let found = m.load_index("a1a2a3a4-b1b2-c1c2-d1d2-d3d4d5d6d7d8").expect("present");
    assert_eq!(found.name, "b");
    assert_eq!(found.uuid, id);
    assert!(m.load_index(&id.to_string()).is_none());
}

#[test]
fn load_index_absent_is_none() {
    let mut m = IndexManager::new(1, vec![record(5, "a", "x", IndexType::BTree, &[0])]);
    assert!(m.load_index("00000000-0000-0000-0000-000000000009").is_none());
}

#[test]
fn create_conflict_and_replace() {
    let mut m = IndexManager::new(1, vec![record(1, "idx", "x", IndexType::BTree, &[0])]);
    let r = m.create_index(&strings(&["x"]), IndexType::Bitmap, Some("idx".to_string()), false, 2, vec![0]);
    assert_eq!(r, Err(IndexError::Conflict));
    assert_eq!(m.current_version(), 1);
    let r = m.create_index(&strings(&["x"]), IndexType::Bitmap, Some("idx".to_string()), true, 2, vec![0, 1]);
    assert_eq!(r, Ok(()));
    let found = m.load_indices_by_name("idx");
    assert_eq!(found.len(), 1);
    assert_eq!(found[0].uuid, 2);
    assert_eq!(found[0].index_type, IndexType::Bitmap);
}

#[test]
fn create_without_columns_is_invalid() {
    let mut m = IndexManager::new(1, Vec::new());
    let r = m.create_index(&Vec::new(), IndexType::BTree, None, false, 1, vec![0]);
    assert_eq!(r, Err(IndexError::InvalidParameters));
    assert_eq!(m.current_version(), 1);
}

#[test]
fn create_without_name_uses_default() {
    let mut m = IndexManager::new(3, Vec::new());
    assert_eq!(m.create_index(&strings(&["a", "b"]), IndexType::BTree, None, false, 1, vec![]), Ok(()));
    assert_eq!(m.load_indices_by_name("a_b_idx").len(), 1);
    assert_eq!(default_index_name(&strings(&["emb"])), "emb_idx");
    let r = m.create_index(&strings(&["a", "b"]), IndexType::BTree, None, false, 2, vec![]);
    assert_eq!(r, Err(IndexError::Conflict));
}

#[test]
fn optimize_merges_deltas_and_keeps_coverage() {
    let mut m = IndexManager::new(
        4,
        vec![
            record(1, "a", "x", IndexType::BTree, &[0, 1]),
            record(2, "b", "y", IndexType::Vector, &[0]),
            record(1, "a", "x", IndexType::BTree, &[2]),
            record(1, "a", "x", IndexType::BTree, &[3]),
        ],
    );
    m.optimize_indices(&OptimizeOptions { num_indices_to_merge: 1 });
    assert_eq!(m.current_version(), 5);
    let all = m.load_indices();
    assert_eq!(all.len(), 2);
    assert_eq!(all[0].uuid, 1);
    assert_eq!(all[0].fragments, vec![0, 1, 2, 3]);
    assert_eq!(all[0].dataset_version, 5);
    assert_eq!(all[1].uuid, 2);
    assert_eq!(all[1].fragments, vec![0]);
}

#[test]
fn optimize_without_deltas_is_noop() {
    let mut m = IndexManager::new(4, vec![record(1, "a", "x", IndexType::BTree, &[0])]);
    m.optimize_indices(&OptimizeOptions { num_indices_to_merge: 1 });
    assert_eq!(m.current_version(), 4);
    let mut d = IndexManager::new(
        4,
        vec![record(1, "a", "x", IndexType::BTree, &[0]), record(1, "a", "x", IndexType::BTree, &[1])],
    );
    d.optimize_indices(&OptimizeOptions { num_indices_to_merge: 0 });
    assert_eq!(d.current_version(), 4);
    assert_eq!(d.load_indices().len(), 2);
}

#[test]
fn statistics_count_deltas() {
    let mut m = IndexManager::new(
        1,
        vec![record(1, "a", "x", IndexType::Inverted, &[0]), record(1, "a", "x", IndexType::Inverted, &[1])],
    );
    let st = m.index_statistics("a").expect("present");
    assert_eq!(st.num_indices, 2);
    assert_eq!(st.index_type, IndexType::Inverted);
    assert_eq!(m.index_statistics("b"), Err(IndexError::NotFound));
}

#[test]
fn scalar_index_for_column() {
    let mut m = IndexManager::new(
        1,
        vec![
            record(1, "v", "emb", IndexType::Vector, &[0]),
            record(2, "s", "emb", IndexType::BTree, &[0]),
            record(3, "t", "tag", IndexType::LabelList, &[0]),
        ],
    );
    assert_eq!(m.load_scalar_index_for_column("emb").expect("present").uuid, 2);
    assert_eq!(m.load_scalar_index_for_column("tag").expect("present").uuid, 3);
    assert!(m.load_scalar_index_for_column("other").is_none());
}

#[test]
fn load_indices_is_stable_across_calls() {
    let mut m = IndexManager::new(1, vec![record(1, "a", "x", IndexType::BTree, &[0])]);
    let first = m.load_indices();
    let second = m.load_indices();
    assert_eq!(first.len(), 1);
    assert_eq!(second.len(), 1);
    assert_eq!(second[0].name, first[0].name);
    m.drop_index("a").unwrap();
    assert!(m.load_indices().is_empty());
}

#[test]
fn position_of_first_matching_text() {
    let t = strings(&["x", "y", "y"]);
    assert_eq!(position_of_text(&t, "y"), Some(1));
    assert_eq!(position_of_text(&t, "z"), None);
}

#[test]
fn commit_existing_index_rules() {
    let mut m = IndexManager::new(1, vec![record(9, "a", "x", IndexType::BTree, &[0])]);
    assert_eq!(m.commit_existing_index("b", "y", 9, IndexType::BTree, vec![1]), Err(IndexError::Incompatible));
    assert_eq!(m.commit_existing_index("b", "x", 9, IndexType::Bitmap, vec![1]), Err(IndexError::Incompatible));
    assert_eq!(m.commit_existing_index("a", "z", 4, IndexType::BTree, vec![1]), Err(IndexError::Conflict));
    assert_eq!(m.current_version(), 1);
    assert_eq!(m.commit_existing_index("b", "z", 4, IndexType::BTree, vec![1]), Ok(()));
    assert_eq!(m.current_version(), 2);
    let found = m.load_indices_by_name("b");
    assert_eq!(found.len(), 1);
    assert_eq!(found[0].columns, strings(&["z"]));
    assert_eq!(found[0].fragments, vec![1]);
}

#[test]
fn prewarm_requires_registered_name() {
    let mut m = IndexManager::new(1, vec![record(1, "a", "x", IndexType::BTree, &[0])]);
    assert_eq!(m.prewarm_index("a"), Ok(()));
    assert_eq!(m.prewarm_index("b"), Err(IndexError::NotFound));
    assert_eq!(m.current_version(), 1);
}

#[test]
fn cache_keeps_first_snapshot_and_evicts_old_versions() {
    let mut c = IndexCache::new();
    assert!(c.get(1).is_none());
    c.insert(1, vec![record(1, "a", "x", IndexType::BTree, &[0])]);
    c.insert(1, Vec::new());
    assert_eq!(c.get(1).expect("cached").len(), 1);
    c.insert(3, Vec::new());
    c.evict_older_than(2);
    assert!(c.get(1).is_none());
    assert_eq!(c.get(3).expect("cached").len(), 0);
}

#[test]
fn stale_cache_eviction_keeps_current_version() {
    let mut m = IndexManager::new(1, vec![record(1, "a", "x", IndexType::BTree, &[0])]);
    assert_eq!(m.load_indices().len(), 1);
    m.drop_index("a").unwrap();
    assert!(m.load_indices().is_empty());
    m.evict_stale_cache();
    assert!(m.load_indices().is_empty());
    assert_eq!(m.current_version(), 2);
}
