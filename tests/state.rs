use fremkit::protocol::{Answer, Command, Query, Response};
use fremkit::snapshot::Snapshot;
use fremkit::state::State;

fn s(x: &str) -> String {
    String::from(x)
}

#[test]
fn state_put_and_get() {
    let mut st = State::new();

    assert_eq!(st.put(&s("a"), s("1")), 0);
    assert_eq!(st.put(&s("a"), s("2")), 1);
    assert_eq!(st.put(&s("b"), s("3")), 0);

    assert_eq!(st.get(&s("a"), 0), Some(s("1")));
    assert_eq!(st.get(&s("a"), 1), Some(s("2")));
    assert_eq!(st.get(&s("a"), 2), None);
    assert_eq!(st.get(&s("b"), 0), Some(s("3")));
    assert_eq!(st.get(&s("c"), 0), None);
    assert_eq!(st.checksum(), "v3");
}

#[test]
fn command_apply_answers() {
    let mut st = State::new();

    match (Command::Put { key: s("k"), val: s("x") }).apply(&mut st) {
        Response::NewArtefact { key, idx } => {
            assert_eq!(key, "k");
            assert_eq!(idx, 0);
        }
        _ => panic!("a put was not answered with its index"),
    }
    match (Command::Put { key: s("k"), val: s("y") }).apply(&mut st) {
        Response::NewArtefact { idx, .. } => assert_eq!(idx, 1),
        _ => panic!("a put was not answered with its index"),
    }
    match (Command::Get { key: s("k"), idx: 1 }).apply(&mut st) {
        Response::Artefact { key, val } => {
            assert_eq!(key, "k");
            assert_eq!(val, "y");
        }
        _ => panic!("a stored value was not found"),
    }
    match (Command::Get { key: s("k"), idx: 2 }).apply(&mut st) {
        Response::MissingArtefact { key, idx } => {
            assert_eq!(key, "k");
            assert_eq!(idx, 2);
        }
        _ => panic!("a missing value was found"),
    }
    assert_eq!(st.checksum(), "v2");
}

#[test]
fn query_apply_checksum() {
    let mut st = State::new();
    st.put(&s("k"), s("x"));

    assert!(matches!(Query::Checksum(s("v1")).apply(&st), Answer::ChecksumOk));
    assert!(matches!(Query::Checksum(s("v0")).apply(&st), Answer::ChecksumFailed));
    assert!(matches!(Query::Checksum(s("1")).apply(&st), Answer::ChecksumFailed));
}

#[test]
fn query_apply_snapshot_keeps_last_values() {
    let mut st = State::new();
    st.put(&s("a"), s("1"));
    st.put(&s("a"), s("2"));
    st.put(&s("b"), s("3"));

    match Query::Snapshot.apply(&st) {
        Answer::Snapshot(snap) => {
            assert_eq!(snap.version(), 3);
            assert_eq!(snap.get(&s("a")), Some(&s("2")));
            assert_eq!(snap.get(&s("b")), Some(&s("3")));
            assert_eq!(snap.entries().len(), 2);
        }
        _ => panic!("a snapshot query was not answered with a snapshot"),
    }
}

#[test]
fn state_from_snapshot() {
    let mut snap = Snapshot::new();
    snap.update(&Command::Put { key: s("a"), val: s("1") });
    snap.update(&Command::Put { key: s("b"), val: s("2") });
    snap.update(&Command::Put { key: s("a"), val: s("3") });

    let st = State::from_snapshot(&snap);

    assert_eq!(st.get(&s("a"), 0), Some(s("3")));
    assert_eq!(st.get(&s("a"), 1), None);
    assert_eq!(st.get(&s("b"), 0), Some(s("2")));
    assert_eq!(st.checksum(), "v3");
    assert_eq!(st.snapshot().get(&s("a")), Some(&s("3")));
}
