use filesync::bromberg_hash::{get_folder_hash, hash_file, make_proof, HashMatrixEx};
use filesync::client::{client_step, ClientAction};
use filesync::merkletree::{MTNode, MerkleTree};
use filesync::protocol::{Aggregate, FileHash, MembershipProof, Message};
use filesync::server::{
    delete_file, dispatch, read_file, refresh, save_file, server_step, ServerAction, ServerEvent,
};
use filesync::store::{copy_rows, IntegrityStore, Scheme};

/// A folder in memory, listed in the order of the names.
struct Folder {
    files: Vec<(String, Vec<u8>)>,
}

impl Folder {
    fn new() -> Folder {
        Folder { files: Vec::new() }
    }

    fn write(&mut self, name: &str, data: &[u8]) {
        self.files.retain(|(n, _)| n != name);
        self.files.push((name.to_string(), data.to_vec()));
        self.files.sort();
    }

    fn remove(&mut self, name: &str) -> bool {
        let before = self.files.len();
        self.files.retain(|(n, _)| n != name);
        self.files.len() < before
    }

    fn read(&self, name: &str) -> Option<Vec<u8>> {
        self.files.iter().find(|(n, _)| n == name).map(|(_, d)| d.clone())
    }

    fn scan(&self) -> Option<Vec<Vec<u8>>> {
        Some(self.files.iter().map(|(_, d)| d.clone()).collect())
    }
}

/// Runs one message through the server until it replies or drops.
fn serve(store: &mut IntegrityStore, folder: &mut Folder, msg: Message) -> Option<Message> {
    let mut action = server_step(store, ServerEvent::Received(msg));
    loop {
        let event = match action {
            ServerAction::Write { filename, data } => {
                folder.write(&filename, &data);
                ServerEvent::Written { filename, data, saved: true, scan: folder.scan() }
            }
            ServerAction::Remove { filename } => {
                let removed = folder.remove(&filename);
                ServerEvent::Removed { filename, removed, scan: folder.scan() }
            }
            ServerAction::Read { filename } => {
                let content = folder.read(&filename);
                ServerEvent::Loaded { filename, content }
            }
            ServerAction::Reply(reply) => return Some(reply),
            ServerAction::Drop(_) => return None,
        };
        action = server_step(store, event);
    }
}

fn upload(name: &str, data: &[u8]) -> Message {
    Message::FileUpload { filename: name.to_string(), data: data.to_vec() }
}

fn request(name: &str) -> Message {
    Message::FileRequest { filename: name.to_string() }
}

fn delete(name: &str) -> Message {
    Message::DeleteFileRequest { filename: name.to_string() }
}

fn round_trip(scheme: Scheme) {
    let data = b"Hello, world! This is a.txt".to_vec();
    let mut store = IntegrityStore::new(scheme);
    let mut folder = Folder::new();

    let ack = serve(&mut store, &mut folder, upload("a.txt", &data));
    assert_eq!(
        ack,
        Some(Message::FileAck { filename: "a.txt".to_string(), hash: store.file_hash(&data) })
    );
    let captured = store.aggregate();
    assert_eq!(captured, Aggregate::capture(scheme, &vec![data.clone()]));

    let reply = serve(&mut store, &mut folder, request("a.txt")).unwrap();
    match &reply {
        Message::File { filename, data: sent, proof } => {
            assert_eq!(filename, "a.txt");
            assert_eq!(sent, &data);
            assert!(captured.verify(sent, proof));
        }
        other => panic!("unexpected reply {:?}", other),
    }
    match client_step(&captured, reply) {
        ClientAction::Save { filename, data: saved } => {
            assert_eq!(filename, "a.txt");
            assert_eq!(saved, data);
        }
        other => panic!("unexpected action {:?}", other),
    }

    let gone = serve(&mut store, &mut folder, delete("a.txt"));
    assert_eq!(
        gone,
        Some(Message::DeleteFileAck { filename: "a.txt".to_string(), deleted: true })
    );
    let reply = serve(&mut store, &mut folder, request("a.txt"));
    assert_eq!(reply, Some(Message::FileNotFound { filename: "a.txt".to_string() }));
    assert_eq!(store.aggregate(), IntegrityStore::new(scheme).aggregate());
}

#[test]
fn round_trip_with_the_additive_scheme() {
    round_trip(Scheme::Algebraic);
}

#[test]
fn round_trip_with_the_tree_scheme() {
    round_trip(Scheme::Tree);
}

fn five_files(scheme: Scheme) {
    let names: Vec<String> = (1..=5).map(|i| format!("file{}.txt", i)).collect();
    let contents: Vec<Vec<u8>> = names
        .iter()
        .map(|n| format!("Hello, world! This is {}", n).into_bytes())
        .collect();
    let captured = Aggregate::capture(scheme, &contents);
    let mut store = IntegrityStore::new(scheme);
    let mut folder = Folder::new();
    for (name, data) in names.iter().zip(contents.iter()) {
        let ack = serve(&mut store, &mut folder, upload(name, data));
        assert!(matches!(ack, Some(Message::FileAck { .. })));
    }
    assert_eq!(store.aggregate(), captured);
    for (name, data) in names.iter().zip(contents.iter()) {
        let reply = serve(&mut store, &mut folder, request(name)).unwrap();
        match client_step(&captured, reply) {
            ClientAction::Save { filename, data: saved } => {
                assert_eq!(&filename, name);
                assert_eq!(&saved, data);
            }
            other => panic!("unexpected action {:?}", other),
        }
    }
}

#[test]
fn five_files_come_back_verified_with_the_additive_scheme() {
    five_files(Scheme::Algebraic);
}

#[test]
fn five_files_come_back_verified_with_the_tree_scheme() {
    five_files(Scheme::Tree);
}

#[test]
fn delete_of_a_missing_file_says_false_and_changes_nothing() {
    for scheme in [Scheme::Tree, Scheme::Algebraic] {
        let mut store = IntegrityStore::new(scheme);
        let mut folder = Folder::new();
        serve(&mut store, &mut folder, upload("kept.txt", b"kept"));
        let before = store.aggregate();
        for _ in 0..3 {
            let reply = serve(&mut store, &mut folder, delete("missing.txt"));
            assert_eq!(
                reply,
                Some(Message::DeleteFileAck {
                    filename: "missing.txt".to_string(),
                    deleted: false
                })
            );
            assert_eq!(store.aggregate(), before);
        }
    }
}

#[test]
fn failed_delete_ignores_the_listing() {
    let mut store = IntegrityStore::new(Scheme::Algebraic);
    let reply = delete_file(&mut store, "x".to_string(), false, &Some(vec![b"other".to_vec()]));
    assert_eq!(reply, Message::DeleteFileAck { filename: "x".to_string(), deleted: false });
    assert_eq!(store.aggregate(), Aggregate::Algebraic(HashMatrixEx(0, 0, 0, 0)));
}

#[test]
fn heartbeat_is_answered_and_changes_nothing() {
    let mut store = IntegrityStore::new(Scheme::Algebraic);
    let mut folder = Folder::new();
    serve(&mut store, &mut folder, upload("a", b"a"));
    let before = store.aggregate();
    let reply = serve(&mut store, &mut folder, Message::Heartbeat);
    assert_eq!(reply, Some(Message::HeartbeatAck));
    assert_eq!(store.aggregate(), before);
}

#[test]
fn server_drops_what_it_does_not_answer() {
    let strays = vec![
        Message::HeartbeatAck,
        Message::FileNotFound { filename: "a".to_string() },
        Message::DeleteFileAck { filename: "a".to_string(), deleted: true },
        Message::FileAck {
            filename: "a".to_string(),
            hash: FileHash::Algebraic(HashMatrixEx(1, 2, 3, 4)),
        },
        Message::File {
            filename: "a".to_string(),
            data: vec![1],
            proof: MembershipProof::Tree(vec![]),
        },
    ];
    for stray in strays {
        let mut store = IntegrityStore::new(Scheme::Tree);
        match server_step(&mut store, ServerEvent::Received(stray.clone())) {
            ServerAction::Drop(Some(dropped)) => assert_eq!(dropped, stray),
            other => panic!("unexpected action {:?}", other),
        }
        assert_eq!(store.aggregate(), Aggregate::Tree(None));
    }
}

#[test]
fn dispatch_sorts_the_requests() {
    match dispatch(upload("u", b"data")) {
        ServerAction::Write { filename, data } => {
            assert_eq!(filename, "u");
            assert_eq!(data, b"data".to_vec());
        }
        other => panic!("unexpected action {:?}", other),
    }
    match dispatch(request("r")) {
        ServerAction::Read { filename } => assert_eq!(filename, "r"),
        other => panic!("unexpected action {:?}", other),
    }
    match dispatch(delete("d")) {
        ServerAction::Remove { filename } => assert_eq!(filename, "d"),
        other => panic!("unexpected action {:?}", other),
    }
    match dispatch(Message::Heartbeat) {
        ServerAction::Reply(reply) => assert_eq!(reply, Message::HeartbeatAck),
        other => panic!("unexpected action {:?}", other),
    }
}

#[test]
fn failed_write_is_not_acknowledged() {
    let mut store = IntegrityStore::new(Scheme::Algebraic);
    let event = ServerEvent::Written {
        filename: "a".to_string(),
        data: b"a".to_vec(),
        saved: false,
        scan: Some(vec![b"a".to_vec()]),
    };
    match server_step(&mut store, event) {
        ServerAction::Drop(None) => {}
        other => panic!("unexpected action {:?}", other),
    }
    assert_eq!(store.aggregate(), Aggregate::Algebraic(HashMatrixEx(0, 0, 0, 0)));
}

#[test]
fn failed_scan_keeps_the_last_aggregate() {
    for scheme in [Scheme::Tree, Scheme::Algebraic] {
        let mut store = IntegrityStore::new(scheme);
        store.rebuild(&vec![b"one".to_vec(), b"two".to_vec()]);
        let before = store.aggregate();
        let reply = save_file(&mut store, "three".to_string(), b"three".to_vec(), &None);
        assert_eq!(
            reply,
            Message::FileAck { filename: "three".to_string(), hash: store.file_hash(b"three") }
        );
        assert_eq!(store.aggregate(), before);
        let reply = delete_file(&mut store, "one".to_string(), true, &None);
        assert_eq!(reply, Message::DeleteFileAck { filename: "one".to_string(), deleted: true });
        assert_eq!(store.aggregate(), before);
        refresh(&mut store, &None);
        assert_eq!(store.aggregate(), before);
        refresh(&mut store, &Some(vec![]));
        assert_eq!(store.aggregate(), IntegrityStore::new(scheme).aggregate());
    }
}

#[test]
fn save_file_acknowledges_with_the_hash_of_the_scheme() {
    let data = b"payload".to_vec();
    let mut store = IntegrityStore::new(Scheme::Algebraic);
    let reply = save_file(&mut store, "p".to_string(), data.clone(), &Some(vec![data.clone()]));
    assert_eq!(
        reply,
        Message::FileAck { filename: "p".to_string(), hash: FileHash::Algebraic(hash_file(&data)) }
    );
    assert_eq!(store.aggregate(), Aggregate::Algebraic(hash_file(&data)));

    let mut store = IntegrityStore::new(Scheme::Tree);
    let reply = save_file(&mut store, "p".to_string(), data.clone(), &Some(vec![data.clone()]));
    assert_eq!(
        reply,
        Message::FileAck { filename: "p".to_string(), hash: FileHash::Tree(MTNode::leaf(&data).hash) }
    );
    assert_eq!(store.aggregate(), Aggregate::Tree(Some(MTNode::leaf(&data).hash)));
}

#[test]
fn read_file_answers_with_the_proof_of_the_store() {
    let files = vec![b"one".to_vec(), b"two".to_vec(), b"three".to_vec()];
    let mut store = IntegrityStore::new(Scheme::Algebraic);
    store.rebuild(&files);
    let root = get_folder_hash(&files);
    assert_eq!(
        read_file(&store, "two".to_string(), Some(files[1].clone())),
        Message::File {
            filename: "two".to_string(),
            data: files[1].clone(),
            proof: MembershipProof::Algebraic(make_proof(root, &files[1])),
        }
    );
    assert_eq!(
        read_file(&store, "none".to_string(), None),
        Message::FileNotFound { filename: "none".to_string() }
    );

    let mut store = IntegrityStore::new(Scheme::Tree);
    store.rebuild(&files);
    let tree = MerkleTree::from_folder(&files);
    assert_eq!(
        read_file(&store, "two".to_string(), Some(files[1].clone())),
        Message::File {
            filename: "two".to_string(),
            data: files[1].clone(),
            proof: MembershipProof::Tree(tree.get_proof(&files[1]).unwrap()),
        }
    );
}

#[test]
fn tree_store_gives_an_empty_proof_for_a_file_it_does_not_cover() {
    let mut store = IntegrityStore::new(Scheme::Tree);
    store.rebuild(&vec![b"one".to_vec(), b"two".to_vec()]);
    let stray = b"stray".to_vec();
    let reply = read_file(&store, "stray".to_string(), Some(stray.clone()));
    assert_eq!(
        reply,
        Message::File {
            filename: "stray".to_string(),
            data: stray,
            proof: MembershipProof::Tree(vec![]),
        }
    );
    match client_step(&store.aggregate(), reply) {
        ClientAction::Reject { filename } => assert_eq!(filename, "stray"),
        other => panic!("unexpected action {:?}", other),
    }
}

#[test]
fn client_rejects_tampered_data() {
    for scheme in [Scheme::Tree, Scheme::Algebraic] {
        let files = vec![b"one".to_vec(), b"two".to_vec()];
        let captured = Aggregate::capture(scheme, &files);
        let mut store = IntegrityStore::new(scheme);
        store.rebuild(&files);
        let honest = read_file(&store, "one".to_string(), Some(files[0].clone()));
        let evidence = match honest {
            Message::File { proof, .. } => proof,
            other => panic!("unexpected reply {:?}", other),
        };
        let forged = Message::File {
            filename: "one".to_string(),
            data: b"0ne".to_vec(),
            proof: evidence.clone(),
        };
        match client_step(&captured, forged) {
            ClientAction::Reject { filename } => assert_eq!(filename, "one"),
            other => panic!("unexpected action {:?}", other),
        }
        assert!(captured.verify(&files[0], &evidence));
        assert!(!captured.verify(&b"0ne".to_vec(), &evidence));
    }
}

#[test]
fn client_rejects_a_proof_of_the_other_scheme() {
    let files = vec![b"one".to_vec()];
    let tree_root = Aggregate::capture(Scheme::Tree, &files);
    let sum_root = Aggregate::capture(Scheme::Algebraic, &files);
    let tree_proof = MembershipProof::Tree(vec![]);
    let sum_proof = MembershipProof::Algebraic(HashMatrixEx(0, 0, 0, 0));
    assert!(tree_root.verify(&files[0], &tree_proof));
    assert!(sum_root.verify(&files[0], &sum_proof));
    assert!(!tree_root.verify(&files[0], &sum_proof));
    assert!(!sum_root.verify(&files[0], &tree_proof));
}

#[test]
fn empty_tree_aggregate_accepts_nothing() {
    let root = Aggregate::capture(Scheme::Tree, &vec![]);
    assert_eq!(root, Aggregate::Tree(None));
    assert!(!root.verify(&b"x".to_vec(), &MembershipProof::Tree(vec![])));
}

#[test]
fn client_reports_the_other_replies() {
    let root = Aggregate::Algebraic(HashMatrixEx(0, 0, 0, 0));
    let hash = FileHash::Algebraic(HashMatrixEx(1, 2, 3, 4));
    match client_step(&root, Message::FileAck { filename: "a".to_string(), hash: hash.clone() }) {
        ClientAction::Uploaded { filename, hash: got } => {
            assert_eq!(filename, "a");
            assert_eq!(got, hash);
        }
        other => panic!("unexpected action {:?}", other),
    }
    match client_step(&root, Message::FileNotFound { filename: "b".to_string() }) {
        ClientAction::Missing { filename } => assert_eq!(filename, "b"),
        other => panic!("unexpected action {:?}", other),
    }
    match client_step(&root, Message::DeleteFileAck { filename: "c".to_string(), deleted: false }) {
        ClientAction::Deleted { filename, deleted } => {
            assert_eq!(filename, "c");
            assert!(!deleted);
        }
        other => panic!("unexpected action {:?}", other),
    }
    assert!(matches!(client_step(&root, Message::HeartbeatAck), ClientAction::Alive));
}

#[test]
fn client_sets_aside_what_it_does_not_act_on() {
    let root = Aggregate::Tree(None);
    let strays = vec![
        Message::Heartbeat,
        Message::FileRequest { filename: "a".to_string() },
        Message::DeleteFileRequest { filename: "a".to_string() },
        Message::FileUpload { filename: "a".to_string(), data: vec![1, 2] },
    ];
    for stray in strays {
        match client_step(&root, stray.clone()) {
            ClientAction::Unexpected(msg) => assert_eq!(msg, stray),
            other => panic!("unexpected action {:?}", other),
        }
    }
}

#[test]
fn store_knows_its_scheme() {
    assert_eq!(IntegrityStore::new(Scheme::Tree).scheme(), Scheme::Tree);
    assert_eq!(IntegrityStore::new(Scheme::Algebraic).scheme(), Scheme::Algebraic);
    let mut store = IntegrityStore::new(Scheme::Tree);
    store.rebuild(&vec![b"x".to_vec()]);
    assert_eq!(store.scheme(), Scheme::Tree);
}

#[test]
fn copy_rows_copies_every_row() {
    let rows = vec![vec![1u8, 2], vec![], vec![3]];
    assert_eq!(copy_rows(&rows), rows);
}

#[test]
fn update_in_place_agrees_with_a_rescan() {
    let kept = b"kept".to_vec();
    let gone = b"gone".to_vec();
    let new = b"new".to_vec();
    let mut store = IntegrityStore::new(Scheme::Algebraic);
    store.rebuild(&vec![kept.clone(), gone.clone()]);
    assert!(store.update(&vec![new.clone()], &vec![gone.clone()]));
    assert_eq!(store.aggregate(), Aggregate::capture(Scheme::Algebraic, &vec![kept, new]));
}

#[test]
fn tree_store_is_not_updated_in_place() {
    let mut store = IntegrityStore::new(Scheme::Tree);
    store.rebuild(&vec![b"kept".to_vec(), b"gone".to_vec()]);
    let before = store.aggregate();
    assert!(!store.update(&vec![b"new".to_vec()], &vec![b"gone".to_vec()]));
    assert_eq!(store.aggregate(), before);
}
