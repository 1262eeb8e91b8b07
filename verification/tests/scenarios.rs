use crdt::columns::Columns;
use crdt::replica::CRDT;
use std::fmt::Debug;
use std::hash::Hash;
use uuid::Uuid;

/// Helper function to create a unique UUID string.
fn new_uuid() -> String {
  Uuid::new_v4().to_string()
}

#[test]
fn test_basic_insert_and_merge() {
  // Initialize two nodes
  let mut node1: CRDT<String, String> = CRDT::new(1);
  let mut node2: CRDT<String, String> = CRDT::new(2);

  // Node1 inserts a record
  let record_id = new_uuid();
  let mut fields1 = Columns::new();
  fields1.insert("id".to_string(), record_id.clone());
  fields1.insert("form_id".to_string(), new_uuid());
  fields1.insert("tag".to_string(), "Node1Tag".to_string());
  fields1.insert("created_at".to_string(), "2023-10-01T12:00:00Z".to_string());
  fields1.insert("created_by".to_string(), "User1".to_string());

  node1.insert(record_id.clone(), fields1);

  // Node2 inserts the same record with different data
  let mut fields2 = Columns::new();
  fields2.insert("id".to_string(), record_id.clone());
  fields2.insert(
    "form_id".to_string(),
    node1
      .data
      .get(&record_id)
      .unwrap()
      .fields
      .get("form_id")
      .unwrap()
      .clone(),
  );
  fields2.insert("tag".to_string(), "Node2Tag".to_string());
  fields2.insert("created_at".to_string(), "2023-10-01T12:05:00Z".to_string());
  fields2.insert("created_by".to_string(), "User2".to_string());

  node2.insert(record_id.clone(), fields2);

  // Merge node2 into node1
  let changes_from_node2 = node2.get_changes_since(0);
  node1.merge_changes(&changes_from_node2);

  // Merge node1 into node2
  let changes_from_node1 = node1.get_changes_since(0);
  node2.merge_changes(&changes_from_node1);

  // Both nodes should resolve the conflict and have the same data
  assert_eq!(node1.data, node2.data);
  assert_eq!(
    node1
      .data
      .get(&record_id)
      .unwrap()
      .fields
      .get("tag")
      .unwrap(),
    "Node2Tag"
  );
  assert_eq!(
    node1
      .data
      .get(&record_id)
      .unwrap()
      .fields
      .get("created_by")
      .unwrap(),
    "User2"
  );
}

#[test]
fn test_updates_with_conflicts() {
  // Initialize two nodes
  let mut node1: CRDT<String, String> = CRDT::new(1);
  let mut node2: CRDT<String, String> = CRDT::new(2);

  // Insert a shared record
  let record_id = new_uuid();
  let mut fields = Columns::new();
  fields.insert("id".to_string(), record_id.clone());
  fields.insert("tag".to_string(), "InitialTag".to_string());

  node1.insert(record_id.clone(), fields.clone());
  node2.insert(record_id.clone(), fields.clone());

  // Node1 updates 'tag'
  let mut updates1 = Columns::new();
  updates1.insert("tag".to_string(), "Node1UpdatedTag".to_string());
  node1.update(&record_id, updates1);

  // Node2 updates 'tag'
  let mut updates2 = Columns::new();
  updates2.insert("tag".to_string(), "Node2UpdatedTag".to_string());
  node2.update(&record_id, updates2);

  // Merge changes
  let changes_from_node1 = node1.get_changes_since(0);
  node2.merge_changes(&changes_from_node1);
  let changes_from_node2 = node2.get_changes_since(0);
  node1.merge_changes(&changes_from_node2);

  // Conflict resolved
  // Since col_versions are equal, tie-breaker is site_id (Node2 has higher site_id)
  let expected_tag = if node2.node_id > node1.node_id {
    "Node2UpdatedTag"
  } else {
    "Node1UpdatedTag"
  };

  assert_eq!(
    node1
      .data
      .get(&record_id)
      .unwrap()
      .fields
      .get("tag")
      .unwrap(),
    expected_tag
  );
  assert_eq!(node1.data, node2.data);
}

#[test]
fn test_delete_and_merge() {
  // Initialize two nodes
  let mut node1: CRDT<String, String> = CRDT::new(1);
  let mut node2: CRDT<String, String> = CRDT::new(2);

  // Insert and sync a record
  let record_id = new_uuid();
  let mut fields = Columns::new();
  fields.insert("id".to_string(), record_id.clone());
  fields.insert("tag".to_string(), "ToBeDeleted".to_string());

  node1.insert(record_id.clone(), fields.clone());

  // Merge to node2
  let changes = node1.get_changes_since(0);
  node2.merge_changes(&changes);

  // Node1 deletes the record
  node1.delete(&record_id);

  // Merge the deletion to node2
  let deletion_changes = node1.get_changes_since(0);
  node2.merge_changes(&deletion_changes);

  // Both nodes should reflect the deletion
  assert!(node1.data.get(&record_id).unwrap().fields.is_empty());
  assert!(node2.data.get(&record_id).unwrap().fields.is_empty());
  assert!(node1.tombstones.contains(&record_id));
  assert!(node2.tombstones.contains(&record_id));
}

#[test]
fn test_tombstone_handling() {
  // Initialize two nodes
  let mut node1: CRDT<String, String> = CRDT::new(1);
  let mut node2: CRDT<String, String> = CRDT::new(2);

  // Insert a record and delete it on node1
  let record_id = new_uuid();
  let mut fields = Columns::new();
  fields.insert("id".to_string(), record_id.clone());
  fields.insert("tag".to_string(), "Temporary".to_string());

  node1.insert(record_id.clone(), fields.clone());
  node1.delete(&record_id);

  // Node2 inserts the same record
  node2.insert(record_id.clone(), fields.clone());

  // Merge changes
  let changes_from_node1 = node1.get_changes_since(0);
  node2.merge_changes(&changes_from_node1);

  // Node2 should respect the tombstone
  assert!(node2.data.get(&record_id).unwrap().fields.is_empty());
  assert!(node2.tombstones.contains(&record_id));
}

#[test]
fn test_conflict_resolution_with_site_id_and_seq() {
  // Initialize two nodes
  let mut node1: CRDT<String, String> = CRDT::new(1);
  let mut node2: CRDT<String, String> = CRDT::new(2);

  // Both nodes insert a record with the same id
  let record_id = new_uuid();
  let mut fields1 = Columns::new();
  fields1.insert("id".to_string(), record_id.clone());
  fields1.insert("tag".to_string(), "Node1Tag".to_string());

  let mut fields2 = Columns::new();
  fields2.insert("id".to_string(), record_id.clone());
  fields2.insert("tag".to_string(), "Node2Tag".to_string());

  node1.insert(record_id.clone(), fields1.clone());
  node2.insert(record_id.clone(), fields2.clone());

  // Both nodes update the 'tag' field multiple times
  let mut updates1 = Columns::new();
  updates1.insert("tag".to_string(), "Node1Tag1".to_string());
  node1.update(&record_id, updates1.clone());

  updates1.insert("tag".to_string(), "Node1Tag2".to_string());
  node1.update(&record_id, updates1.clone());

  let mut updates2 = Columns::new();
  updates2.insert("tag".to_string(), "Node2Tag1".to_string());
  node2.update(&record_id, updates2.clone());

  updates2.insert("tag".to_string(), "Node2Tag2".to_string());
  node2.update(&record_id, updates2.clone());

  // Merge changes
  let changes_from_node1 = node1.get_changes_since(0);
  node2.merge_changes(&changes_from_node1);
  let changes_from_node2 = node2.get_changes_since(0);
  node1.merge_changes(&changes_from_node2);

  // The node with the higher site_id and seq should win
  let expected_tag = if node2.node_id > node1.node_id {
    "Node2Tag2"
  } else {
    "Node1Tag2"
  };

  assert_eq!(
    node1
      .data
      .get(&record_id)
      .unwrap()
      .fields
      .get("tag")
      .unwrap(),
    expected_tag
  );
  assert_eq!(node1.data, node2.data);
}

#[test]
fn test_logical_clock_update() {
  // Initialize two nodes
  let mut node1: CRDT<String, String> = CRDT::new(1);
  let mut node2: CRDT<String, String> = CRDT::new(2);

  // Node1 inserts a record
  let record_id = new_uuid();
  let mut fields = Columns::new();
  fields.insert("id".to_string(), record_id.clone());
  fields.insert("tag".to_string(), "Node1Tag".to_string());

  node1.insert(record_id.clone(), fields.clone());

  // Node2 receives the change
  let changes = node1.get_changes_since(0);
  node2.merge_changes(&changes);

  // Node2's clock should be updated
  assert!(node2.clock.current_time() > 0);
  assert!(node2.clock.current_time() >= node1.clock.current_time());
}

#[test]
fn test_merge_without_conflicts() {
  // Initialize two nodes
  let mut node1: CRDT<String, String> = CRDT::new(1);
  let mut node2: CRDT<String, String> = CRDT::new(2);

  // Node1 inserts a record
  let record_id1 = new_uuid();
  let mut fields1 = Columns::new();
  fields1.insert("id".to_string(), record_id1.clone());
  fields1.insert("tag".to_string(), "Node1Record".to_string());

  node1.insert(record_id1.clone(), fields1.clone());

  // Node2 inserts a different record
  let record_id2 = new_uuid();
  let mut fields2 = Columns::new();
  fields2.insert("id".to_string(), record_id2.clone());
  fields2.insert("tag".to_string(), "Node2Record".to_string());

  node2.insert(record_id2.clone(), fields2.clone());

  // Merge changes
  let changes_from_node1 = node1.get_changes_since(0);
  node2.merge_changes(&changes_from_node1);

  let changes_from_node2 = node2.get_changes_since(0);
  node1.merge_changes(&changes_from_node2);

  // Both nodes should have both records
  assert!(node1.data.contains_key(&record_id1));
  assert!(node1.data.contains_key(&record_id2));
  assert!(node2.data.contains_key(&record_id1));
  assert!(node2.data.contains_key(&record_id2));
  assert_eq!(node1.data, node2.data);
}

#[test]
fn test_multiple_merges() {
  // Initialize two nodes
  let mut node1: CRDT<String, String> = CRDT::new(1);
  let mut node2: CRDT<String, String> = CRDT::new(2);

  // Node1 inserts a record
  let record_id = new_uuid();
  let mut fields = Columns::new();
  fields.insert("id".to_string(), record_id.clone());
  fields.insert("tag".to_string(), "InitialTag".to_string());

  node1.insert(record_id.clone(), fields.clone());

  // Merge to node2
  let changes = node1.get_changes_since(0);
  node2.merge_changes(&changes);

  // Node2 updates the record
  let mut updates2 = Columns::new();
  updates2.insert("tag".to_string(), "UpdatedByNode2".to_string());
  node2.update(&record_id, updates2.clone());

  // Node1 updates the record
  let mut updates1 = Columns::new();
  updates1.insert("tag".to_string(), "UpdatedByNode1".to_string());
  node1.update(&record_id, updates1.clone());

  // Merge changes
  let changes_from_node2 = node2.get_changes_since(0);
  node1.merge_changes(&changes_from_node2);
  let changes_from_node1 = node1.get_changes_since(0);
  node2.merge_changes(&changes_from_node1);

  // Conflict resolved
  let expected_tag = if node2.node_id > node1.node_id {
    "UpdatedByNode2"
  } else {
    "UpdatedByNode1"
  };

  assert_eq!(
    node1
      .data
      .get(&record_id)
      .unwrap()
      .fields
      .get("tag")
      .unwrap(),
    expected_tag
  );
  assert_eq!(node1.data, node2.data);
}

#[test]
fn test_inserting_after_deletion() {
  // Initialize two nodes
  let mut node1: CRDT<String, String> = CRDT::new(1);
  let mut node2: CRDT<String, String> = CRDT::new(2);

  // Node1 inserts and deletes a record
  let record_id = new_uuid();
  let mut fields = Columns::new();
  fields.insert("id".to_string(), record_id.clone());
  fields.insert("tag".to_string(), "Temporary".to_string());

  node1.insert(record_id.clone(), fields.clone());
  node1.delete(&record_id);

  // Merge deletion to node2
  let changes_from_node1 = node1.get_changes_since(0);
  node2.merge_changes(&changes_from_node1);

  // Node2 tries to insert the same record
  node2.insert(record_id.clone(), fields.clone());

  // Merge changes
  let changes_from_node2 = node2.get_changes_since(0);
  node1.merge_changes(&changes_from_node2);

  // The deletion should prevail
  assert!(node1.data.get(&record_id).unwrap().fields.is_empty());
  assert!(node2.data.get(&record_id).unwrap().fields.is_empty());
  assert!(node1.tombstones.contains(&record_id));
  assert!(node2.tombstones.contains(&record_id));
}

/// Helper function to synchronize two nodes and update their last_db_version.
fn sync_nodes<K, V>(source: &CRDT<K, V>, target: &mut CRDT<K, V>, last_db_version: &mut u64)
where
  K: Eq + Hash + Clone + Debug,
  V: Clone + Debug,
{
  let changes = source.get_changes_since(*last_db_version);
  target.merge_changes(&changes);
  // Update last_db_version to the current max db_version in source
  if let Some(max_version) = source.max_db_version() {
    *last_db_version = max_version;
  }
}

#[test]
fn test_offline_changes_then_merge() {
  // Initialize two nodes
  let mut node1: CRDT<String, String> = CRDT::new(1);
  let mut node2: CRDT<String, String> = CRDT::new(2);

  // Both nodes start with an empty state

  // Node1 inserts a record
  let record_id1 = new_uuid();
  let mut fields1 = Columns::new();
  fields1.insert("id".to_string(), record_id1.clone());
  fields1.insert("tag".to_string(), "Node1Tag".to_string());
  node1.insert(record_id1.clone(), fields1.clone());

  // Node2 is offline and inserts a different record
  let record_id2 = new_uuid();
  let mut fields2 = Columns::new();
  fields2.insert("id".to_string(), record_id2.clone());
  fields2.insert("tag".to_string(), "Node2Tag".to_string());
  node2.insert(record_id2.clone(), fields2.clone());

  // Now, node2 comes online and merges changes from node1
  let mut last_db_version_node2 = 0;
  sync_nodes(&node1, &mut node2, &mut last_db_version_node2);

  // Similarly, node1 merges changes from node2
  let mut last_db_version_node1 = 0;
  sync_nodes(&node2, &mut node1, &mut last_db_version_node1);

  // Both nodes should now have both records
  assert!(node1.data.contains_key(&record_id1));
  assert!(node1.data.contains_key(&record_id2));
  assert!(node2.data.contains_key(&record_id1));
  assert!(node2.data.contains_key(&record_id2));
  assert_eq!(node1.data, node2.data);
}

#[test]
fn test_multiple_offline_merges() {
  // Initialize two nodes
  let mut node1: CRDT<String, String> = CRDT::new(1);
  let mut node2: CRDT<String, String> = CRDT::new(2);

  // Track last_db_version for each node
  let mut last_db_version_node1 = 0;
  let mut last_db_version_node2 = 0;

  // Node1 inserts two records
  let record_id1 = new_uuid();
  let mut fields1 = Columns::new();
  fields1.insert("id".to_string(), record_id1.clone());
  fields1.insert("tag".to_string(), "Node1Tag1".to_string());
  node1.insert(record_id1.clone(), fields1.clone());

  let record_id2 = new_uuid();
  let mut fields2 = Columns::new();
  fields2.insert("id".to_string(), record_id2.clone());
  fields2.insert("tag".to_string(), "Node1Tag2".to_string());
  node1.insert(record_id2.clone(), fields2.clone());

  // Node2 is offline and inserts one record
  let record_id3 = new_uuid();
  let mut fields3 = Columns::new();
  fields3.insert("id".to_string(), record_id3.clone());
  fields3.insert("tag".to_string(), "Node2Tag1".to_string());
  node2.insert(record_id3.clone(), fields3.clone());

  // Node2 performs an update on its record
  let mut updates_node2 = Columns::new();
  updates_node2.insert("tag".to_string(), "Node2Tag1Updated".to_string());
  node2.update(&record_id3, updates_node2.clone());

  // Node1 performs an update on record_id1
  let mut updates_node1 = Columns::new();
  updates_node1.insert("tag".to_string(), "Node1Tag1Updated".to_string());
  node1.update(&record_id1, updates_node1.clone());

  // First merge: node1 merges changes from node2
  sync_nodes(&node2, &mut node1, &mut last_db_version_node1);

  // Second merge: node2 merges changes from node1
  sync_nodes(&node1, &mut node2, &mut last_db_version_node2);

  // Third merge: node1 merges any new changes from node2
  sync_nodes(&node2, &mut node1, &mut last_db_version_node1);

  // Both nodes should now have all three records
  assert!(node1.data.contains_key(&record_id1));
  assert!(node1.data.contains_key(&record_id2));
  assert!(node1.data.contains_key(&record_id3));
  assert!(node2.data.contains_key(&record_id1));
  assert!(node2.data.contains_key(&record_id2));
  assert!(node2.data.contains_key(&record_id3));

  // Verify updates
  assert_eq!(
    node1
      .data
      .get(&record_id1)
      .unwrap()
      .fields
      .get("tag")
      .unwrap(),
    "Node1Tag1Updated"
  );
  assert_eq!(
    node1
      .data
      .get(&record_id3)
      .unwrap()
      .fields
      .get("tag")
      .unwrap(),
    "Node2Tag1Updated"
  );
  assert_eq!(node1.data, node2.data);
}

#[test]
fn test_deletion_and_reinsertion_with_different_versions() {
  // Initialize two nodes
  let mut node1: CRDT<String, String> = CRDT::new(1);
  let mut node2: CRDT<String, String> = CRDT::new(2);

  // Track last_db_version for each node
  let mut last_db_version_node1 = 0;
  let mut last_db_version_node2 = 0;

  // Node1 inserts a record
  let record_id = new_uuid();
  let mut fields = Columns::new();
  fields.insert("id".to_string(), record_id.clone());
  fields.insert("tag".to_string(), "InitialTag".to_string());
  node1.insert(record_id.clone(), fields.clone());

  // Merge Node1's insertion into Node2
  sync_nodes(&node1, &mut node2, &mut last_db_version_node2);

  // Node1 deletes the record
  node1.delete(&record_id);

  // Node2 updates the record while offline
  let mut updates_node2 = Columns::new();
  updates_node2.insert("tag".to_string(), "Node2UpdatedTag".to_string());
  node2.update(&record_id, updates_node2.clone());

  // Merge Node1's deletion into Node2
  sync_nodes(&node1, &mut node2, &mut last_db_version_node2);

  // Merge Node2's update into Node1
  sync_nodes(&node2, &mut node1, &mut last_db_version_node1);

  // The deletion should prevail since it has a higher db_version
  assert!(node1.data.get(&record_id).unwrap().fields.is_empty());
  assert!(node2.data.get(&record_id).unwrap().fields.is_empty());
  assert!(node1.tombstones.contains(&record_id));
  assert!(node2.tombstones.contains(&record_id));
}

#[test]
fn test_conflicting_updates_with_different_last_db_versions() {
  // Initialize two nodes
  let mut node1: CRDT<String, String> = CRDT::new(1);
  let mut node2: CRDT<String, String> = CRDT::new(2);

  // Track last_db_version for each node
  let mut last_db_version_node1 = 0;
  let mut last_db_version_node2 = 0;

  // Both nodes insert the same record
  let record_id = new_uuid();
  let mut fields1 = Columns::new();
  fields1.insert("id".to_string(), record_id.clone());
  fields1.insert("tag".to_string(), "InitialTag".to_string());
  node1.insert(record_id.clone(), fields1.clone());

  let mut fields2 = Columns::new();
  fields2.insert("id".to_string(), record_id.clone());
  fields2.insert("tag".to_string(), "InitialTag".to_string());
  node2.insert(record_id.clone(), fields2.clone());

  // Merge initial inserts
  sync_nodes(&node1, &mut node2, &mut last_db_version_node2);
  sync_nodes(&node2, &mut node1, &mut last_db_version_node1);

  // Node1 updates 'tag' twice
  let mut updates_node1 = Columns::new();
  updates_node1.insert("tag".to_string(), "Node1Tag1".to_string());
  node1.update(&record_id, updates_node1.clone());

  updates_node1.insert("tag".to_string(), "Node1Tag2".to_string());
  node1.update(&record_id, updates_node1.clone());

  // Node2 updates 'tag' once
  let mut updates_node2 = Columns::new();
  updates_node2.insert("tag".to_string(), "Node2Tag1".to_string());
  node2.update(&record_id, updates_node2.clone());

  // Merge node1's changes into node2
  sync_nodes(&node1, &mut node2, &mut last_db_version_node2);

  // Merge node2's changes into node1
  sync_nodes(&node2, &mut node1, &mut last_db_version_node1);

  // The 'tag' should reflect the latest update based on db_version and site_id
  // Assuming node1 has a higher db_version due to two updates
  let final_tag = "Node1Tag2";

  assert_eq!(
    node1
      .data
      .get(&record_id)
      .unwrap()
      .fields
      .get("tag")
      .unwrap(),
    final_tag
  );
  assert_eq!(
    node2
      .data
      .get(&record_id)
      .unwrap()
      .fields
      .get("tag")
      .unwrap(),
    final_tag
  );
  assert_eq!(node1.data, node2.data);
}

#[test]
fn test_clock_synchronization_after_merges() {
  // Initialize three nodes
  let mut node1: CRDT<String, String> = CRDT::new(1);
  let mut node2: CRDT<String, String> = CRDT::new(2);
  let mut node3: CRDT<String, String> = CRDT::new(3);

  // Track last_db_version for each node
  let mut last_db_version_node1 = 0;
  let mut last_db_version_node2 = 0;
  let mut last_db_version_node3 = 0;

  // Node1 inserts a record
  let record_id1 = new_uuid();
  let mut fields1 = Columns::new();
  fields1.insert("id".to_string(), record_id1.clone());
  fields1.insert("tag".to_string(), "Node1Tag".to_string());
  node1.insert(record_id1.clone(), fields1.clone());

  // Node2 inserts another record
  let record_id2 = new_uuid();
  let mut fields2 = Columns::new();
  fields2.insert("id".to_string(), record_id2.clone());
  fields2.insert("tag".to_string(), "Node2Tag".to_string());
  node2.insert(record_id2.clone(), fields2.clone());

  // Node3 inserts a third record
  let record_id3 = new_uuid();
  let mut fields3 = Columns::new();
  fields3.insert("id".to_string(), record_id3.clone());
  fields3.insert("tag".to_string(), "Node3Tag".to_string());
  node3.insert(record_id3.clone(), fields3.clone());

  // First round of merges
  // Merge node1's changes into node2 and node3
  sync_nodes(&node1, &mut node2, &mut last_db_version_node2);
  sync_nodes(&node1, &mut node3, &mut last_db_version_node3);

  // Merge node2's changes into node1 and node3
  sync_nodes(&node2, &mut node1, &mut last_db_version_node1);
  sync_nodes(&node2, &mut node3, &mut last_db_version_node3);

  // Merge node3's changes into node1 and node2
  sync_nodes(&node3, &mut node1, &mut last_db_version_node1);
  sync_nodes(&node3, &mut node2, &mut last_db_version_node2);

  // All nodes should have all three records
  assert_eq!(node1.data, node2.data);
  assert_eq!(node2.data, node3.data);
  assert_eq!(node1.data, node3.data);

  // Check that logical clocks are properly updated
  // The clock values may differ between nodes, but should be at least as high as the number of operations
  let min_expected_clock_value = 3; // At least 3 inserts happened
  assert!(node1.clock.current_time() >= min_expected_clock_value);
  assert!(node2.clock.current_time() >= min_expected_clock_value);
  assert!(node3.clock.current_time() >= min_expected_clock_value);

  // Verify that merging updates the clocks
  let max_clock_before_merge = node1
    .clock
    .current_time()
    .max(node2.clock.current_time())
    .max(node3.clock.current_time());

  // Perform another round of merges
  sync_nodes(&node1, &mut node2, &mut last_db_version_node2);
  sync_nodes(&node2, &mut node3, &mut last_db_version_node3);
  sync_nodes(&node3, &mut node1, &mut last_db_version_node1);

  // Check that clocks have been updated after merges
  assert!(node1.clock.current_time() > max_clock_before_merge);
  assert!(node2.clock.current_time() > max_clock_before_merge);
  assert!(node3.clock.current_time() > max_clock_before_merge);

  // Instead of asserting identical clock values, verify that each node's clock
  // is at least as large as the number of operations performed.
  let min_expected_clock_value = 3; // At least 3 inserts happened
  assert!(node1.clock.current_time() >= min_expected_clock_value);
  assert!(node2.clock.current_time() >= min_expected_clock_value);
  assert!(node3.clock.current_time() >= min_expected_clock_value);

  // Optionally, print clock values for manual inspection
  println!(
    "Final Clocks - Node1: {}, Node2: {}, Node3: {}",
    node1.clock.current_time(),
    node2.clock.current_time(),
    node3.clock.current_time()
  );
}

#[test]
fn test_atomic_sync_per_transaction() {
  // Initialize two nodes
  let mut node1: CRDT<String, String> = CRDT::new(1);
  let mut node2: CRDT<String, String> = CRDT::new(2);

  // Node1 inserts a record
  let record_id = new_uuid();
  let mut fields = Columns::new();
  fields.insert("id".to_string(), record_id.clone());
  fields.insert("tag".to_string(), "InitialTag".to_string());
  node1.insert(record_id.clone(), fields.clone());

  // Sync immediately after the transaction
  let changes_node1 = node1.get_changes_since(0);
  node2.merge_changes(&changes_node1);

  // Verify synchronization
  assert!(node2.data.contains_key(&record_id));
  assert_eq!(
    node2
      .data
      .get(&record_id)
      .unwrap()
      .fields
      .get("tag")
      .unwrap(),
    "InitialTag"
  );
}

#[test]
fn test_concurrent_updates() {
  // Initialize two nodes
  let mut node1: CRDT<String, String> = CRDT::new(1);
  let mut node2: CRDT<String, String> = CRDT::new(2);

  // Insert a record on node1
  let record_id = new_uuid();
  let mut fields = Columns::new();
  fields.insert("id".to_string(), record_id.clone());
  fields.insert("tag".to_string(), "InitialTag".to_string());
  node1.insert(record_id.clone(), fields.clone());

  // Merge to node2
  let changes_node1 = node1.get_changes_since(0);
  node2.merge_changes(&changes_node1);

  // Concurrently update 'tag' on both nodes
  let mut updates_node1 = Columns::new();
  updates_node1.insert("tag".to_string(), "Node1TagUpdate".to_string());
  node1.update(&record_id, updates_node1.clone());

  let mut updates_node2 = Columns::new();
  updates_node2.insert("tag".to_string(), "Node2TagUpdate".to_string());
  node2.update(&record_id, updates_node2.clone());

  // Merge changes
  let changes_from_node1 = node1.get_changes_since(0);
  node2.merge_changes(&changes_from_node1);

  let changes_from_node2 = node2.get_changes_since(0);
  node1.merge_changes(&changes_from_node2);

  // Conflict resolution based on site_id
  let expected_tag = "Node2TagUpdate";

  assert_eq!(
    node1
      .data
      .get(&record_id)
      .unwrap()
      .fields
      .get("tag")
      .unwrap(),
    expected_tag
  );
  assert_eq!(
    node2
      .data
      .get(&record_id)
      .unwrap()
      .fields
      .get("tag")
      .unwrap(),
    expected_tag
  );
}
