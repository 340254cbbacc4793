use addon_sync::library::{
    Auth, DatastoreClient, DatastoreCmd, DatastoreResponse, LibItem, SyncError, COLL_NAME,
};

fn item(id: &str, mtime: i64) -> LibItem {
    LibItem { id: String::from(id), mtime, payload: format!("payload-of-{}", id) }
}

fn auth(items: Vec<LibItem>) -> Auth {
    Auth { key: String::from("test-session-key"), lib: items }
}

/// A remote store holding full records; `Put` really applies its changes.
struct StoreClient {
    remote: Vec<LibItem>,
    log: Vec<String>,
    fail_get: bool,
    fail_put: bool,
}

impl StoreClient {
    fn new(remote: Vec<LibItem>) -> StoreClient {
        StoreClient { remote, log: Vec::new(), fail_get: false, fail_put: false }
    }

    fn upsert(&mut self, change: LibItem) {
        match self.remote.iter().position(|it| it.id == change.id) {
            Some(at) => self.remote[at] = change,
            None => self.remote.push(change),
        }
    }
}

impl DatastoreClient for StoreClient {
    fn fetch(
        &mut self,
        _key: &str,
        collection: &str,
        cmd: DatastoreCmd,
    ) -> Result<DatastoreResponse, SyncError> {
        assert_eq!(collection, COLL_NAME);
        match cmd {
            DatastoreCmd::Meta => {
                self.log.push(String::from("meta"));
                Ok(DatastoreResponse::MTimes {
                    mtimes: self.remote.iter().map(|it| (it.id.clone(), it.mtime)).collect(),
                })
            },
            DatastoreCmd::Get { ids, all } => {
                assert!(!all);
                let mut wanted: Vec<String> = ids.clone();
                wanted.sort();
                self.log.push(format!("get:{}", wanted.join(",")));
                if self.fail_get {
                    return Err(SyncError::NetworkFailure);
                }
                Ok(DatastoreResponse::Items {
                    items: self
                        .remote
                        .iter()
                        .filter(|it| ids.contains(&it.id))
                        .cloned()
                        .collect(),
                })
            },
            DatastoreCmd::Put { changes } => {
                let mut sent: Vec<String> = changes.iter().map(|it| it.id.clone()).collect();
                sent.sort();
                self.log.push(format!("put:{}", sent.join(",")));
                if self.fail_put {
                    return Err(SyncError::DatastoreFailure);
                }
                for change in changes {
                    self.upsert(change);
                }
                Ok(DatastoreResponse::Success)
            },
        }
    }

    fn fetch_pair(
        &mut self,
        key: &str,
        collection: &str,
        first: DatastoreCmd,
        second: DatastoreCmd,
    ) -> (Result<DatastoreResponse, SyncError>, Result<DatastoreResponse, SyncError>) {
        let a = self.fetch(key, collection, first);
        let b = self.fetch(key, collection, second);
        (a, b)
    }
}

#[test]
fn sync_scenario_tie_pulls_only_newer() {
    // local = {X: 5}, remote = {X: 5, Y: 7}: the tie on X triggers neither
    // direction; only Y is pulled, nothing is pushed.
    let local = auth(vec![item("X", 5)]);
    let mut client = StoreClient::new(vec![item("X", 5), item("Y", 7)]);
    let pulled = local.lib_sync(&mut client).expect("sync succeeds");
    assert_eq!(pulled.len(), 1);
    assert_eq!(pulled[0].id, "Y");
    assert_eq!(pulled[0].mtime, 7);
    assert_eq!(client.log, vec![String::from("meta"), String::from("get:Y")]);
}

#[test]
fn sync_scenario_newer_local_pushes_only() {
    // local = {X: 10}, remote = {X: 3}: X is pushed, nothing is pulled.
    let local = auth(vec![item("X", 10)]);
    let mut client = StoreClient::new(vec![item("X", 3)]);
    let pulled = local.lib_sync(&mut client).expect("sync succeeds");
    assert!(pulled.is_empty());
    assert_eq!(client.log, vec![String::from("meta"), String::from("put:X")]);
    assert_eq!(client.remote[0].mtime, 10);
}

#[test]
fn sync_scenario_both_empty_issues_only_meta() {
    let local = auth(vec![]);
    let mut client = StoreClient::new(vec![]);
    let pulled = local.lib_sync(&mut client).expect("sync succeeds");
    assert!(pulled.is_empty());
    assert_eq!(client.log, vec![String::from("meta")]);
}

#[test]
fn sync_twice_with_merge_converges() {
    // First pass pulls B and C, pushes A; after merging the pulled records,
    // the second pass finds nothing to do.
    let mut local = auth(vec![item("A", 10), item("B", 2)]);
    let mut client = StoreClient::new(vec![item("B", 5), item("C", 7)]);
    let pulled = local.lib_sync(&mut client).expect("first pass succeeds");
    let mut pulled_ids: Vec<String> = pulled.iter().map(|it| it.id.clone()).collect();
    pulled_ids.sort();
    assert_eq!(pulled_ids, vec![String::from("B"), String::from("C")]);
    assert_eq!(
        client.log,
        vec![String::from("meta"), String::from("get:B,C"), String::from("put:A")]
    );
    local.lib_update(&pulled);
    client.log.clear();
    let pulled_again = local.lib_sync(&mut client).expect("second pass succeeds");
    assert!(pulled_again.is_empty());
    assert_eq!(client.log, vec![String::from("meta")]);
}

#[test]
fn sync_fails_when_put_fails() {
    let mut client = StoreClient::new(vec![item("B", 5)]);
    client.fail_put = true;
    let local = auth(vec![item("A", 10), item("B", 2)]);
    match local.lib_sync(&mut client) {
        Err(SyncError::DatastoreFailure) => {},
        _ => panic!("a failed put must fail the pass"),
    }
    // the succeeding get's effects are not rolled back; no assertion on them
}

#[test]
fn sync_fails_when_get_fails() {
    let mut client = StoreClient::new(vec![item("B", 5)]);
    client.fail_get = true;
    let local = auth(vec![item("A", 10), item("B", 2)]);
    match local.lib_sync(&mut client) {
        Err(SyncError::NetworkFailure) => {},
        _ => panic!("a failed get must fail the pass"),
    }
}

#[test]
fn sync_duplicate_meta_entries_last_wins() {
    // A repeated id in the meta answer reads as a mapping built by
    // insertion: the later time wins, so X at 9 beats X at 3.
    struct DupClient {
        log: Vec<String>,
    }
    impl DatastoreClient for DupClient {
        fn fetch(
            &mut self,
            _key: &str,
            _collection: &str,
            cmd: DatastoreCmd,
        ) -> Result<DatastoreResponse, SyncError> {
            match cmd {
                DatastoreCmd::Meta => {
                    self.log.push(String::from("meta"));
                    Ok(DatastoreResponse::MTimes {
                        mtimes: vec![(String::from("X"), 3), (String::from("X"), 9)],
                    })
                },
                DatastoreCmd::Get { ids, .. } => {
                    self.log.push(format!("get:{}", ids.join(",")));
                    Ok(DatastoreResponse::Items { items: vec![item("X", 9)] })
                },
                DatastoreCmd::Put { .. } => {
                    self.log.push(String::from("put"));
                    Ok(DatastoreResponse::Success)
                },
            }
        }

        fn fetch_pair(
            &mut self,
            key: &str,
            collection: &str,
            first: DatastoreCmd,
            second: DatastoreCmd,
        ) -> (Result<DatastoreResponse, SyncError>, Result<DatastoreResponse, SyncError>) {
            let a = self.fetch(key, collection, first);
            let b = self.fetch(key, collection, second);
            (a, b)
        }
    }
    let local = auth(vec![item("X", 5)]);
    let mut client = DupClient { log: Vec::new() };
    let pulled = local.lib_sync(&mut client).expect("sync succeeds");
    assert_eq!(pulled.len(), 1);
    assert_eq!(pulled[0].mtime, 9);
    assert_eq!(client.log, vec![String::from("meta"), String::from("get:X")]);
}

#[test]
fn sync_wrong_meta_shape_is_decode_failure() {
    struct WrongShape;
    impl DatastoreClient for WrongShape {
        fn fetch(
            &mut self,
            _key: &str,
            _collection: &str,
            _cmd: DatastoreCmd,
        ) -> Result<DatastoreResponse, SyncError> {
            Ok(DatastoreResponse::Success)
        }

        fn fetch_pair(
            &mut self,
            _key: &str,
            _collection: &str,
            _first: DatastoreCmd,
            _second: DatastoreCmd,
        ) -> (Result<DatastoreResponse, SyncError>, Result<DatastoreResponse, SyncError>) {
            (Ok(DatastoreResponse::Success), Ok(DatastoreResponse::Success))
        }
    }
    let local = auth(vec![]);
    match local.lib_sync(&mut WrongShape) {
        Err(SyncError::DecodeFailure) => {},
        _ => panic!("a meta answer of the wrong shape must fail decoding"),
    }
}

#[test]
fn sync_wrong_get_shape_is_decode_failure() {
    struct OddGet;
    impl DatastoreClient for OddGet {
        fn fetch(
            &mut self,
            _key: &str,
            _collection: &str,
            cmd: DatastoreCmd,
        ) -> Result<DatastoreResponse, SyncError> {
            match cmd {
                DatastoreCmd::Meta => Ok(DatastoreResponse::MTimes {
                    mtimes: vec![(String::from("X"), 9)],
                }),
                // a Get answered by a bare acknowledgment
                DatastoreCmd::Get { .. } => Ok(DatastoreResponse::Success),
                DatastoreCmd::Put { .. } => Ok(DatastoreResponse::Success),
            }
        }

        fn fetch_pair(
            &mut self,
            key: &str,
            collection: &str,
            first: DatastoreCmd,
            second: DatastoreCmd,
        ) -> (Result<DatastoreResponse, SyncError>, Result<DatastoreResponse, SyncError>) {
            let a = self.fetch(key, collection, first);
            let b = self.fetch(key, collection, second);
            (a, b)
        }
    }
    let local = auth(vec![]);
    match local.lib_sync(&mut OddGet) {
        Err(SyncError::DecodeFailure) => {},
        _ => panic!("a get answer of the wrong shape must fail decoding"),
    }
}

#[test]
fn sync_wrong_put_shape_is_decode_failure() {
    struct OddPut;
    impl DatastoreClient for OddPut {
        fn fetch(
            &mut self,
            _key: &str,
            _collection: &str,
            cmd: DatastoreCmd,
        ) -> Result<DatastoreResponse, SyncError> {
            match cmd {
                DatastoreCmd::Meta => Ok(DatastoreResponse::MTimes { mtimes: vec![] }),
                DatastoreCmd::Get { .. } => Ok(DatastoreResponse::Items { items: vec![] }),
                // a Put answered by records instead of an acknowledgment
                DatastoreCmd::Put { .. } => Ok(DatastoreResponse::Items { items: vec![] }),
            }
        }

        fn fetch_pair(
            &mut self,
            key: &str,
            collection: &str,
            first: DatastoreCmd,
            second: DatastoreCmd,
        ) -> (Result<DatastoreResponse, SyncError>, Result<DatastoreResponse, SyncError>) {
            let a = self.fetch(key, collection, first);
            let b = self.fetch(key, collection, second);
            (a, b)
        }
    }
    let local = auth(vec![item("A", 3)]);
    match local.lib_sync(&mut OddPut) {
        Err(SyncError::DecodeFailure) => {},
        _ => panic!("a put answer of the wrong shape must fail decoding"),
    }
}

#[test]
fn lib_update_inserts_and_replaces() {
    let mut local = auth(vec![item("A", 1), item("B", 2)]);
    local.lib_update(&[item("B", 9), item("C", 3)]);
    let mut ids: Vec<(String, i64)> =
        local.lib.iter().map(|it| (it.id.clone(), it.mtime)).collect();
    ids.sort();
    assert_eq!(
        ids,
        vec![(String::from("A"), 1), (String::from("B"), 9), (String::from("C"), 3)]
    );
}

#[test]
fn lib_update_last_record_wins() {
    let mut local = auth(vec![]);
    local.lib_update(&[item("A", 1), item("A", 7)]);
    assert_eq!(local.lib.len(), 1);
    assert_eq!(local.lib[0].mtime, 7);
}

#[test]
fn lib_push_is_not_implemented() {
    let local = auth(vec![]);
    match local.lib_push(&item("A", 1)) {
        Err(SyncError::NotImplemented) => {},
        _ => panic!("single-item push must fail explicitly"),
    }
}

#[test]
fn lib_pull_is_not_implemented() {
    let local = auth(vec![]);
    match local.lib_pull("A") {
        Err(SyncError::NotImplemented) => {},
        _ => panic!("single-item pull must fail explicitly"),
    }
}

#[test]
fn lib_plan_tie_is_converged() {
    let local = auth(vec![item("X", 5)]);
    let plan = local.lib_plan(&vec![(String::from("X"), 5), (String::from("Y"), 7)]);
    assert_eq!(plan.to_pull_ids, vec![String::from("Y")]);
    assert!(plan.to_push.is_empty());
}

#[test]
fn lib_plan_pushes_missing_and_newer() {
    let local = auth(vec![item("A", 10), item("B", 2), item("C", 4)]);
    let plan = local.lib_plan(&vec![(String::from("B"), 5), (String::from("C"), 4)]);
    assert_eq!(plan.to_pull_ids, vec![String::from("B")]);
    assert_eq!(plan.to_push.len(), 1);
    assert_eq!(plan.to_push[0].id, "A");
}
