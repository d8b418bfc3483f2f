//! The 9P server: requests in, replies out.
use classic::fs::codec::{decode_r, encode_t, RMessage, TMessage, MAX_MSIZE};
use classic::fs::errno::{EBADF, EIO, ENOENT, EOPNOTSUPP, EROFS};
use classic::fs::server::LocalServer;
use classic::fs::tcode;
use classic::fs::tree::{EmptyTree, StubTree, Tree};
use classic::fs::types::{Fid, Qid, Tag};
use classic::ident::FrameKind;

fn round_trip<T: Tree>(server: &mut LocalServer<T>, t: TMessage) -> RMessage {
    let bytes = encode_t(&t).unwrap();
    let (kind, resp) = server
        .handle(FrameKind::NineReq, &bytes)
        .expect("handle returned None: connection should not close on valid frame");
    assert_eq!(kind, FrameKind::NineRsp);
    decode_r(&resp).unwrap()
}

#[test]
fn version_clamps_msize_and_echoes_protocol() {
    let mut server = LocalServer::new(EmptyTree);
    let r = round_trip(
        &mut server,
        TMessage::Version {
            tag: Tag(0xFFFF),
            msize: 1024 * 1024,
            version: "9P2000.L".into(),
        },
    );
    match r {
        RMessage::Version { tag, msize, version } => {
            assert_eq!(tag, Tag(0xFFFF));
            assert_eq!(msize, MAX_MSIZE);
            assert_eq!(version, "9P2000.L");
        }
        other => panic!("expected Rversion, got {other:?}"),
    }
}

#[test]
fn attach_installs_root_fid() {
    let mut server = LocalServer::new(EmptyTree);
    let r = round_trip(
        &mut server,
        TMessage::Attach {
            tag: Tag(1),
            fid: Fid(0),
            afid: Fid(u32::MAX),
            uname: "user".into(),
            aname: "".into(),
            n_uname: 1000,
        },
    );
    match r {
        RMessage::Attach { qid, .. } => assert_eq!(qid.type_, Qid::TYPE_DIR),
        other => panic!("expected Rattach, got {other:?}"),
    }
}

#[test]
fn walk_zero_names_clones_fid() {
    let mut server = LocalServer::new(EmptyTree);
    round_trip(
        &mut server,
        TMessage::Attach {
            tag: Tag(1),
            fid: Fid(0),
            afid: Fid(u32::MAX),
            uname: "u".into(),
            aname: "".into(),
            n_uname: 0,
        },
    );
    let r = round_trip(
        &mut server,
        TMessage::Walk { tag: Tag(2), fid: Fid(0), newfid: Fid(1), wnames: vec![] },
    );
    match r {
        RMessage::Walk { wqids, .. } => assert!(wqids.is_empty()),
        other => panic!("expected Rwalk, got {other:?}"),
    }
}

#[test]
fn walk_unknown_child_returns_enoent() {
    let mut server = LocalServer::new(EmptyTree);
    round_trip(
        &mut server,
        TMessage::Attach {
            tag: Tag(1),
            fid: Fid(0),
            afid: Fid(u32::MAX),
            uname: "u".into(),
            aname: "".into(),
            n_uname: 0,
        },
    );
    let r = round_trip(
        &mut server,
        TMessage::Walk {
            tag: Tag(2),
            fid: Fid(0),
            newfid: Fid(1),
            wnames: vec!["nope".into()],
        },
    );
    match r {
        RMessage::Lerror { ecode, .. } => assert_eq!(ecode, ENOENT),
        other => panic!("expected Rlerror, got {other:?}"),
    }
}

#[test]
fn read_after_open_returns_file_content() {
    let mut server = LocalServer::new(StubTree::file("greeting", b"hello classic"));
    round_trip(
        &mut server,
        TMessage::Attach {
            tag: Tag(1),
            fid: Fid(0),
            afid: Fid(u32::MAX),
            uname: "u".into(),
            aname: "".into(),
            n_uname: 0,
        },
    );
    round_trip(
        &mut server,
        TMessage::Walk {
            tag: Tag(2),
            fid: Fid(0),
            newfid: Fid(1),
            wnames: vec!["greeting".into()],
        },
    );
    round_trip(
        &mut server,
        TMessage::Lopen { tag: Tag(3), fid: Fid(1), flags: 0 },
    );
    let r = round_trip(
        &mut server,
        TMessage::Read { tag: Tag(4), fid: Fid(1), offset: 0, count: 4096 },
    );
    match r {
        RMessage::Read { data, .. } => assert_eq!(&data, b"hello classic"),
        other => panic!("expected Rread, got {other:?}"),
    }
}

#[test]
fn read_past_eof_returns_zero_bytes() {
    let mut server = LocalServer::new(StubTree::file("g", b"hi"));
    round_trip(
        &mut server,
        TMessage::Attach {
            tag: Tag(1),
            fid: Fid(0),
            afid: Fid(u32::MAX),
            uname: "u".into(),
            aname: "".into(),
            n_uname: 0,
        },
    );
    round_trip(
        &mut server,
        TMessage::Walk { tag: Tag(2), fid: Fid(0), newfid: Fid(1), wnames: vec!["g".into()] },
    );
    round_trip(
        &mut server,
        TMessage::Lopen { tag: Tag(3), fid: Fid(1), flags: 0 },
    );
    let r = round_trip(
        &mut server,
        TMessage::Read { tag: Tag(4), fid: Fid(1), offset: 100, count: 4096 },
    );
    match r {
        RMessage::Read { data, .. } => assert!(data.is_empty()),
        other => panic!("expected Rread, got {other:?}"),
    }
}

#[test]
fn read_without_open_returns_ebadf() {
    let mut server = LocalServer::new(StubTree::file("g", b"x"));
    round_trip(
        &mut server,
        TMessage::Attach {
            tag: Tag(1),
            fid: Fid(0),
            afid: Fid(u32::MAX),
            uname: "u".into(),
            aname: "".into(),
            n_uname: 0,
        },
    );
    round_trip(
        &mut server,
        TMessage::Walk { tag: Tag(2), fid: Fid(0), newfid: Fid(1), wnames: vec!["g".into()] },
    );
    // Skip Tlopen.
    let r = round_trip(
        &mut server,
        TMessage::Read { tag: Tag(3), fid: Fid(1), offset: 0, count: 1 },
    );
    match r {
        RMessage::Lerror { ecode, .. } => assert_eq!(ecode, EBADF),
        other => panic!("expected Rlerror EBADF, got {other:?}"),
    }
}

#[test]
fn clunk_releases_fid_and_double_clunk_is_ebadf() {
    let mut server = LocalServer::new(EmptyTree);
    round_trip(
        &mut server,
        TMessage::Attach {
            tag: Tag(1),
            fid: Fid(0),
            afid: Fid(u32::MAX),
            uname: "u".into(),
            aname: "".into(),
            n_uname: 0,
        },
    );
    let r1 = round_trip(&mut server, TMessage::Clunk { tag: Tag(2), fid: Fid(0) });
    assert!(matches!(r1, RMessage::Clunk { .. }));
    let r2 = round_trip(&mut server, TMessage::Clunk { tag: Tag(3), fid: Fid(0) });
    match r2 {
        RMessage::Lerror { ecode, .. } => assert_eq!(ecode, EBADF),
        other => panic!("expected Rlerror EBADF, got {other:?}"),
    }
}

#[test]
fn rejected_writes_return_erofs() {
    let mut server = LocalServer::new(EmptyTree);
    for code in [
        tcode::TLCREATE,
        tcode::TSYMLINK,
        tcode::TMKNOD,
        tcode::TRENAME,
        tcode::TSETATTR,
        tcode::TLINK,
        tcode::TMKDIR,
        tcode::TRENAMEAT,
        tcode::TUNLINKAT,
        tcode::TWRITE,
        tcode::TREMOVE,
    ] {
        let t = TMessage::Rejected { tag: Tag(1), code };
        let r = round_trip(&mut server, t);
        match r {
            RMessage::Lerror { ecode, .. } => {
                assert_eq!(ecode, EROFS, "code {code} should map to EROFS");
            }
            other => panic!("expected Rlerror, got {other:?}"),
        }
    }
}

#[test]
fn rejected_auth_xattr_lock_legacy_return_eopnotsupp() {
    let mut server = LocalServer::new(EmptyTree);
    for code in [
        tcode::TAUTH,
        tcode::TXATTRWALK,
        tcode::TXATTRCREATE,
        tcode::TLOCK,
        tcode::TGETLOCK,
        tcode::TSTAT,
        tcode::TWSTAT,
    ] {
        let r = round_trip(&mut server, TMessage::Rejected { tag: Tag(1), code });
        match r {
            RMessage::Lerror { ecode, .. } => {
                assert_eq!(
                    ecode, EOPNOTSUPP,
                    "code {code} should map to EOPNOTSUPP"
                );
            }
            other => panic!("expected Rlerror, got {other:?}"),
        }
    }
}

#[test]
fn open_with_write_mode_returns_erofs() {
    let mut server = LocalServer::new(StubTree::file("g", b"x"));
    round_trip(
        &mut server,
        TMessage::Attach {
            tag: Tag(1),
            fid: Fid(0),
            afid: Fid(u32::MAX),
            uname: "u".into(),
            aname: "".into(),
            n_uname: 0,
        },
    );
    round_trip(
        &mut server,
        TMessage::Walk { tag: Tag(2), fid: Fid(0), newfid: Fid(1), wnames: vec!["g".into()] },
    );
    let r = round_trip(
        &mut server,
        TMessage::Lopen { tag: Tag(3), fid: Fid(1), flags: 2 /* O_RDWR */ },
    );
    match r {
        RMessage::Lerror { ecode, .. } => assert_eq!(ecode, EROFS),
        other => panic!("expected EROFS, got {other:?}"),
    }
}

#[test]
fn readlink_on_symlink_returns_target() {
    let mut server = LocalServer::new(StubTree::symlink("linkme", "/target/path/here"));
    round_trip(
        &mut server,
        TMessage::Attach {
            tag: Tag(1),
            fid: Fid(0),
            afid: Fid(u32::MAX),
            uname: "u".into(),
            aname: "".into(),
            n_uname: 0,
        },
    );
    round_trip(
        &mut server,
        TMessage::Walk {
            tag: Tag(2),
            fid: Fid(0),
            newfid: Fid(1),
            wnames: vec!["linkme".into()],
        },
    );
    let r = round_trip(&mut server, TMessage::Readlink { tag: Tag(3), fid: Fid(1) });
    match r {
        RMessage::Readlink { target, .. } => assert_eq!(target, "/target/path/here"),
        other => panic!("expected Rreadlink, got {other:?}"),
    }
}

#[test]
fn getattr_emits_stat_for_fid() {
    let mut server = LocalServer::new(StubTree::file("g", b"hello"));
    round_trip(
        &mut server,
        TMessage::Attach {
            tag: Tag(1),
            fid: Fid(0),
            afid: Fid(u32::MAX),
            uname: "u".into(),
            aname: "".into(),
            n_uname: 0,
        },
    );
    round_trip(
        &mut server,
        TMessage::Walk { tag: Tag(2), fid: Fid(0), newfid: Fid(1), wnames: vec!["g".into()] },
    );
    let r = round_trip(
        &mut server,
        TMessage::Getattr { tag: Tag(3), fid: Fid(1), request_mask: 0x7FF },
    );
    match r {
        RMessage::Getattr { stat, .. } => {
            assert_eq!(stat.size, 5);
            assert_eq!(stat.qid.type_, Qid::TYPE_FILE);
        }
        other => panic!("expected Rgetattr, got {other:?}"),
    }
}

#[test]
fn unparseable_frame_signals_close() {
    let mut server = LocalServer::new(EmptyTree);
    // Empty body: decode_t reads u8 then fails at u16.
    let result = server.handle(FrameKind::NineReq, &[]);
    assert!(result.is_none());
}

#[test]
fn wrong_frame_kind_returns_none() {
    let mut server = LocalServer::new(EmptyTree);
    // Pass a NineRsp body to the server's handle: it expects NineReq.
    let result = server.handle(FrameKind::NineRsp, &[100, 0, 0, 0, 0, 0, 0]);
    assert!(result.is_none());
}

#[test]
fn flush_and_fsync_are_noops() {
    let mut server = LocalServer::new(EmptyTree);
    match round_trip(&mut server, TMessage::Flush { tag: Tag(1), oldtag: Tag(2) }) {
        RMessage::Flush { tag } => assert_eq!(tag, Tag(1)),
        other => panic!("{other:?}"),
    }
    // Fsync requires a valid fid in our impl since fsync(no-fid) is weird;
    // but our handler treats it as a no-op regardless. Just confirm
    // it doesn't error.
    round_trip(
        &mut server,
        TMessage::Attach {
            tag: Tag(2),
            fid: Fid(0),
            afid: Fid(u32::MAX),
            uname: "u".into(),
            aname: "".into(),
            n_uname: 0,
        },
    );
    match round_trip(&mut server, TMessage::Fsync { tag: Tag(3), fid: Fid(0) }) {
        RMessage::Fsync { tag } => assert_eq!(tag, Tag(3)),
        other => panic!("{other:?}"),
    }
}

fn attach<T: Tree>(server: &mut LocalServer<T>) {
    round_trip(
        server,
        TMessage::Attach {
            tag: Tag(1),
            fid: Fid(0),
            afid: Fid(u32::MAX),
            uname: "u".into(),
            aname: "".into(),
            n_uname: 0,
        },
    );
}

/// Every request that can be read is answered: where the link's target does not
/// fit a reply, with an I/O error under the request's tag.
#[test]
fn a_reply_that_cannot_be_written_is_an_io_error() {
    let mut server = LocalServer::new(StubTree::symlink("l", &"x".repeat(65536)));
    attach(&mut server);
    round_trip(
        &mut server,
        TMessage::Walk { tag: Tag(2), fid: Fid(0), newfid: Fid(1), wnames: vec!["l".into()] },
    );
    let r = round_trip(&mut server, TMessage::Readlink { tag: Tag(9), fid: Fid(1) });
    assert_eq!(r, RMessage::Lerror { tag: Tag(9), ecode: EIO });
}

#[test]
fn an_error_leaves_the_fids_alone() {
    let mut server = LocalServer::new(StubTree::file("g", b"x"));
    attach(&mut server);
    let r = round_trip(
        &mut server,
        TMessage::Walk {
            tag: Tag(2),
            fid: Fid(0),
            newfid: Fid(1),
            wnames: vec!["g".into(), "h".into()],
        },
    );
    assert_eq!(r, RMessage::Lerror { tag: Tag(2), ecode: ENOENT });
    let r = round_trip(&mut server, TMessage::Clunk { tag: Tag(3), fid: Fid(1) });
    assert_eq!(r, RMessage::Lerror { tag: Tag(3), ecode: EBADF });
    let r = round_trip(&mut server, TMessage::Clunk { tag: Tag(4), fid: Fid(0) });
    assert_eq!(r, RMessage::Clunk { tag: Tag(4) });
}

#[test]
fn a_walk_reports_each_step() {
    let mut server = LocalServer::new(StubTree::file("g", b"x"));
    attach(&mut server);
    let r = round_trip(
        &mut server,
        TMessage::Walk { tag: Tag(2), fid: Fid(0), newfid: Fid(1), wnames: vec!["g".into()] },
    );
    let file = Qid { type_: Qid::TYPE_FILE, version: 0, path: 1 };
    assert_eq!(r, RMessage::Walk { tag: Tag(2), wqids: vec![file] });
}

#[test]
fn a_smaller_msize_is_kept() {
    let mut server = LocalServer::new(EmptyTree);
    let r = round_trip(
        &mut server,
        TMessage::Version { tag: Tag(0xffff), msize: 512, version: "9P2000.L".into() },
    );
    assert_eq!(
        r,
        RMessage::Version { tag: Tag(0xffff), msize: 512, version: "9P2000.L".into() }
    );
}
