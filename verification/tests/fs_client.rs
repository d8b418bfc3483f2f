//! The native client against the server, over a loop in the same process.
use classic::ad::schema::{CpuInfo, LoadSample, MemInfo, NodeAd};
use classic::ad::store::AdStore;
use classic::cap::broker::CapBroker;
use classic::fs::client::{
    on_attach, on_clunk, on_getattr, on_open, on_read, on_readdir, on_readlink, on_version,
    on_walk, parse_readdir_payload, response, RemoteClient, RemoteError,
};
use classic::fs::codec::{RMessage, TMessage, MAX_MSIZE};
use classic::fs::errno::{EBADF, EIO, ENOENT, ENOTDIR, EROFS};
use classic::fs::server::LocalServer;
use classic::fs::show::show_reply;
use classic::fs::synthetic::{NodeView, Service, SyntheticTree};
use classic::fs::tree::{EmptyTree, StubTree, Tree};
use classic::fs::types::{DirEntry, Fid, Qid, Stat, Tag};
use classic::ident::{Frame, FrameKind, NodeId};

/// Loopback: every request that the client sends is handed to the server, and
/// the server's reply to the client.
struct Loopback<T: Tree> {
    server: LocalServer<T>,
    client: RemoteClient<u32>,
}

impl<T: Tree> Loopback<T> {
    fn new(tree: T) -> Loopback<T> {
        Loopback { server: LocalServer::new(tree), client: RemoteClient::new() }
    }

    fn call(&mut self, msg: TMessage) -> Result<RMessage, RemoteError> {
        let (frame, replaced) = self.client.request(&msg, 7);
        assert_eq!(replaced, None);
        let frame = frame?;
        assert_eq!(frame.kind, FrameKind::NineReq.code());
        let (kind, body) = self
            .server
            .handle(FrameKind::NineReq, &frame.payload)
            .ok_or_else(|| RemoteError::Protocol("server closed connection".into()))?;
        match self.client.deliver_response(&Frame::new(kind.code(), body)) {
            Some((waiter, reply)) => {
                assert_eq!(waiter, 7);
                response(Some(reply))
            }
            None => response(None),
        }
    }

    fn version(&mut self) -> Result<u32, RemoteError> {
        let m = self.client.version();
        on_version(self.call(m)?)
    }

    fn attach(&mut self, aname: &str) -> Result<Fid, RemoteError> {
        let (m, fid) = self.client.attach(aname);
        on_attach(self.call(m)?, fid)
    }

    fn walk(&mut self, fid: Fid, names: &[&str]) -> Result<Fid, RemoteError> {
        let (m, newfid) = self.client.walk(fid, names.iter().map(|s| s.to_string()).collect());
        on_walk(self.call(m)?, newfid)
    }

    fn open(&mut self, fid: Fid, flags: u32) -> Result<Qid, RemoteError> {
        let m = self.client.open(fid, flags);
        on_open(self.call(m)?)
    }

    fn read(&mut self, fid: Fid, offset: u64, count: u32) -> Result<Vec<u8>, RemoteError> {
        let m = self.client.read(fid, offset, count);
        on_read(self.call(m)?)
    }

    fn readdir(&mut self, fid: Fid, offset: u64, count: u32) -> Result<Vec<DirEntry>, RemoteError> {
        let m = self.client.readdir(fid, offset, count);
        on_readdir(self.call(m)?)
    }

    fn getattr(&mut self, fid: Fid) -> Result<Stat, RemoteError> {
        let m = self.client.getattr(fid);
        on_getattr(self.call(m)?)
    }

    fn readlink(&mut self, fid: Fid) -> Result<String, RemoteError> {
        let m = self.client.readlink(fid);
        on_readlink(self.call(m)?)
    }

    fn clunk(&mut self, fid: Fid) -> Result<(), RemoteError> {
        let m = self.client.clunk(fid);
        on_clunk(self.call(m)?)
    }
}

#[test]
fn version_negotiates_msize_clamp() {
    let mut c = Loopback::new(EmptyTree);
    let msize = c.version().unwrap();
    assert_eq!(msize, MAX_MSIZE);
}

#[test]
fn attach_clunk_roundtrip() {
    let mut c = Loopback::new(EmptyTree);
    let fid = c.attach("").unwrap();
    assert_eq!(fid.0, 1);
    c.clunk(fid).unwrap();
    // Double clunk: EBADF from the server.
    let err = c.clunk(fid).unwrap_err();
    assert_eq!(err.errno(), EBADF);
}

#[test]
fn walk_unknown_returns_enoent() {
    let mut c = Loopback::new(EmptyTree);
    let root = c.attach("").unwrap();
    let err = c.walk(root, &["nope"]).unwrap_err();
    assert_eq!(err.errno(), ENOENT);
}

#[test]
fn read_after_walk_open_returns_content() {
    let mut c = Loopback::new(StubTree::file("greeting", b"hi from remote"));
    let root = c.attach("").unwrap();
    let file = c.walk(root, &["greeting"]).unwrap();
    c.open(file, 0).unwrap();
    let data = c.read(file, 0, 4096).unwrap();
    assert_eq!(&data, b"hi from remote");
}

#[test]
fn fail_all_in_flight_yields_eio() {
    let mut client: RemoteClient<&str> = RemoteClient::new();
    // A request that is never answered; then the connection is lost.
    let m = client.version();
    client.request(&m, "waiter").0.unwrap();
    let failed = client.fail_all_in_flight();
    assert_eq!(failed.len(), 1);
    assert_eq!(failed[0].0, "waiter");
    match &failed[0].1 {
        RMessage::Lerror { ecode, .. } => assert_eq!(*ecode, EIO),
        other => panic!("expected Rlerror, got {other:?}"),
    }
    assert!(client.fail_all_in_flight().is_empty());
}

#[test]
fn readdir_payload_parses_one_entry() {
    // A Rreaddir body the server would emit: qid(13) + offset(8) + ty(1) +
    // name-string.
    let mut buf = Vec::new();
    buf.push(Qid::TYPE_FILE);
    buf.extend_from_slice(&0u32.to_le_bytes());
    buf.extend_from_slice(&1u64.to_le_bytes());
    buf.extend_from_slice(&1u64.to_le_bytes());
    buf.push(8); // DT_REG
    let name = b"foo";
    buf.extend_from_slice(&(name.len() as u16).to_le_bytes());
    buf.extend_from_slice(name);

    let entries = parse_readdir_payload(&buf).unwrap();
    assert_eq!(entries.len(), 1);
    assert_eq!(entries[0].name, "foo");
    assert_eq!(entries[0].qid.type_, Qid::TYPE_FILE);
    assert_eq!(entries[0].ty, 8);
}

#[test]
fn readdir_payload_rejects_truncated_input() {
    let buf = vec![0u8; 5]; // way too short
    let err = parse_readdir_payload(&buf).unwrap_err();
    assert!(matches!(err, RemoteError::Protocol(_)));
}

#[test]
fn full_attach_walk_open_read_clunk_round_trip() {
    let mut c = Loopback::new(StubTree::file("answer", b"forty-two\n"));
    c.version().unwrap();
    let root = c.attach("").unwrap();
    let file = c.walk(root, &["answer"]).unwrap();
    let qid = c.open(file, 0).unwrap();
    assert_eq!(qid.type_, Qid::TYPE_FILE);

    let data = c.read(file, 0, 64).unwrap();
    assert_eq!(&data, b"forty-two\n");

    // getattr reports the size.
    let stat = c.getattr(file).unwrap();
    assert_eq!(stat.size, b"forty-two\n".len() as u64);

    c.clunk(file).unwrap();
    c.clunk(root).unwrap();
}

fn own_ad() -> NodeAd {
    NodeAd {
        node_id: NodeId::from_bytes([1; 16]),
        hostname: "h".into(),
        proto_version: 1,
        generation: 1,
        boot_time: 0,
        cpu: CpuInfo {
            cores_online: 1,
            cores_physical: 1,
            sockets: 1,
            model: "m".into(),
            vendor: "v".into(),
            arch: "x86_64".into(),
            mhz: 1,
        },
        mem: MemInfo { total_mb: 1, available_mb: 1 },
        gpus: vec![],
        pci: vec![],
        numa: vec![],
        load: LoadSample {
            loadavg_1m: 0,
            loadavg_5m: 0,
            loadavg_15m: 0,
            cpu_pct: 0,
            mem_pct: 0,
            task_count: 0,
        },
    }
}

/// A tree with three entries under `/svc`, given out of order.
fn three_entries() -> SyntheticTree {
    let ad = own_ad();
    let mut view = NodeView::new(ad.node_id, AdStore::new(ad), CapBroker::new());
    for name in ["gamma", "alpha", "beta"] {
        view.services.push(Service { name: name.into(), net_ids: vec![] });
    }
    SyntheticTree::new(view)
}

#[test]
fn readdir_returns_lex_sorted_entries() {
    let mut c = Loopback::new(three_entries());
    let root = c.attach("").unwrap();
    let dir = c.walk(root, &["svc"]).unwrap();
    let entries = c.readdir(dir, 0, 4096).unwrap();
    let names: Vec<String> = entries.iter().map(|e| e.name.clone()).collect();
    assert_eq!(names, vec!["alpha", "beta", "gamma"]);
}

#[test]
fn a_file_is_not_listed() {
    let mut c = Loopback::new(StubTree::file("f", b"x"));
    let root = c.attach("").unwrap();
    let file = c.walk(root, &["f"]).unwrap();
    assert_eq!(c.readdir(file, 0, 4096).unwrap_err().errno(), ENOTDIR);
}

#[test]
fn write_op_rejected_with_erofs() {
    let mut c = Loopback::new(StubTree::file("x", b"y"));
    let root = c.attach("").unwrap();
    let file = c.walk(root, &["x"]).unwrap();
    // O_RDWR=2: the server should reject with EROFS on Tlopen.
    let err = c.open(file, 2).unwrap_err();
    assert_eq!(err.errno(), EROFS);
}

#[test]
fn a_link_is_read_through_the_client() {
    let mut c = Loopback::new(StubTree::symlink("l", "/somewhere"));
    let root = c.attach("").unwrap();
    let link = c.walk(root, &["l"]).unwrap();
    assert_eq!(c.readlink(link).unwrap(), "/somewhere");
}

#[test]
fn tags_and_fids_are_handed_out_in_turn() {
    let mut client: RemoteClient<()> = RemoteClient::new();
    assert_eq!(client.alloc_tag(), Tag(1));
    assert_eq!(client.alloc_tag(), Tag(2));
    assert_eq!(client.alloc_fid(), Fid(1));
    assert_eq!(client.alloc_fid(), Fid(2));
    client.next_tag = 0xffff;
    assert_eq!(client.alloc_tag(), Tag(0));
    assert_eq!(client.alloc_tag(), Tag(1));
}

#[test]
fn another_reply_than_the_expected_is_a_complaint() {
    match on_version(RMessage::Flush { tag: Tag(1) }).unwrap_err() {
        RemoteError::Protocol(m) => {
            assert!(m.starts_with("expected "));
            assert!(m.contains("got Flush"), "message: {m}");
        }
        other => panic!("expected Protocol, got {other:?}"),
    }
}

#[test]
fn an_error_reply_is_the_error() {
    let r = response(Some(RMessage::Lerror { tag: Tag(1), ecode: 99 }));
    assert_eq!(r, Err(RemoteError::Errno(99)));
    assert_eq!(RemoteError::Errno(99).errno(), 99);
    assert_eq!(response(None).unwrap_err().errno(), EIO);
}

#[test]
fn replies_are_shown_as_debug_shows_them() {
    let tag = Tag(513);
    let qid = Qid { type_: 128, version: 7, path: u64::MAX };
    let stat = Stat { qid, mode: 0o40555, size: 4096, data_version: 9, ..Stat::default() };
    let replies = vec![
        RMessage::Lerror { tag, ecode: 2 },
        RMessage::Version { tag, msize: 8192, version: "9P2000.L".to_string() },
        RMessage::Attach { tag, qid },
        RMessage::Flush { tag },
        RMessage::Walk { tag, wqids: vec![] },
        RMessage::Walk { tag, wqids: vec![qid, Qid::default()] },
        RMessage::Lopen { tag, qid, iounit: 0 },
        RMessage::Readlink { tag, target: "a \"b\"\n\u{e9}".to_string() },
        RMessage::Getattr { tag, valid: 0x7ff, stat },
        RMessage::Readdir { tag, data: vec![0, 1, 255] },
        RMessage::Fsync { tag },
        RMessage::Read { tag, data: vec![42] },
        RMessage::Clunk { tag },
    ];
    for m in &replies {
        assert_eq!(show_reply(m), format!("{:?}", m));
    }
}
