//! 9P2000.L messages, byte for byte.
use classic::fs::codec::{decode_r, decode_t, encode_r, encode_t, rlerror, RMessage, TMessage, MAX_MSIZE};
use classic::fs::errno::{EIO, ENOENT, EOPNOTSUPP, EROFS};
use classic::fs::tcode;
use classic::fs::types::{Fid, Qid, Stat, Tag};
use classic::fs::wire::{NineError, W};

fn rt_t(msg: TMessage) {
    let bytes = encode_t(&msg).unwrap();
    let back = decode_t(&bytes).unwrap();
    assert_eq!(back, msg);
}
fn rt_r(msg: RMessage) {
    let bytes = encode_r(&msg).unwrap();
    let back = decode_r(&bytes).unwrap();
    assert_eq!(back, msg);
}

#[test]
fn version_roundtrip() {
    rt_t(TMessage::Version { tag: Tag(1), msize: MAX_MSIZE, version: "9P2000.L".into() });
    rt_r(RMessage::Version { tag: Tag(1), msize: MAX_MSIZE, version: "9P2000.L".into() });
}

#[test]
fn attach_roundtrip() {
    rt_t(TMessage::Attach {
        tag: Tag(2),
        fid: Fid(0),
        afid: Fid(u32::MAX),
        uname: "user".into(),
        aname: "tree".into(),
        n_uname: 1000,
    });
}

#[test]
fn walk_roundtrip_all_sizes() {
    for n in 0..=16usize {
        let names: Vec<String> = (0..n).map(|i| format!("seg{i}")).collect();
        rt_t(TMessage::Walk {
            tag: Tag(3),
            fid: Fid(1),
            newfid: Fid(2),
            wnames: names.clone(),
        });
        let qids: Vec<Qid> = (0..n)
            .map(|i| Qid { type_: Qid::TYPE_DIR, version: i as u32, path: i as u64 })
            .collect();
        rt_r(RMessage::Walk { tag: Tag(3), wqids: qids });
    }
}

#[test]
fn walk_too_many_names_errors_on_decode() {
    let mut w = W::new();
    w.u8(tcode::TWALK);
    w.u16(0);
    w.u32(0); // fid
    w.u32(1); // newfid
    w.u16(17); // 17 names, too many
    for i in 0..17 {
        w.string(&format!("seg{i}")).unwrap();
    }
    let err = decode_t(&w.into_vec()).unwrap_err();
    assert!(matches!(err, NineError::TwalkTooManyNames(17)));
}

#[test]
fn lopen_readlink_getattr_readdir_roundtrip() {
    rt_t(TMessage::Lopen { tag: Tag(1), fid: Fid(5), flags: 0 });
    rt_t(TMessage::Readlink { tag: Tag(1), fid: Fid(7) });
    rt_t(TMessage::Getattr { tag: Tag(1), fid: Fid(7), request_mask: 0x7FF });
    rt_t(TMessage::Readdir { tag: Tag(1), fid: Fid(7), offset: 0, count: 8192 });
    rt_r(RMessage::Lopen {
        tag: Tag(1),
        qid: Qid { type_: Qid::TYPE_FILE, version: 1, path: 42 },
        iounit: 4096,
    });
    rt_r(RMessage::Readlink { tag: Tag(1), target: "/run/classic/ns/0/dev/gpu/0".into() });
    rt_r(RMessage::Getattr {
        tag: Tag(1),
        valid: 0x7FF,
        stat: Stat {
            qid: Qid { type_: Qid::TYPE_FILE, version: 1, path: 99 },
            mode: 0o444,
            uid: 1000,
            gid: 1000,
            nlink: 1,
            size: 16,
            ..Stat::default()
        },
    });
    rt_r(RMessage::Readdir { tag: Tag(1), data: vec![0xAA; 256] });
}

#[test]
fn read_fsync_clunk_flush_roundtrip() {
    rt_t(TMessage::Read { tag: Tag(1), fid: Fid(3), offset: 100, count: 4096 });
    rt_t(TMessage::Fsync { tag: Tag(1), fid: Fid(3) });
    rt_t(TMessage::Clunk { tag: Tag(1), fid: Fid(3) });
    rt_t(TMessage::Flush { tag: Tag(1), oldtag: Tag(99) });
    rt_r(RMessage::Read { tag: Tag(1), data: b"hello".to_vec() });
    rt_r(RMessage::Fsync { tag: Tag(1) });
    rt_r(RMessage::Clunk { tag: Tag(1) });
    rt_r(RMessage::Flush { tag: Tag(1) });
}

#[test]
fn rlerror_roundtrip() {
    rt_r(RMessage::Lerror { tag: Tag(1), ecode: EROFS });
    rt_r(RMessage::Lerror { tag: Tag(2), ecode: EOPNOTSUPP });
    rt_r(RMessage::Lerror { tag: Tag(3), ecode: ENOENT });
}

#[test]
fn rejected_ops_decode_with_code() {
    for code in [
        tcode::TLCREATE,
        tcode::TSYMLINK,
        tcode::TMKNOD,
        tcode::TRENAME,
        tcode::TSETATTR,
        tcode::TLINK,
        tcode::TMKDIR,
        tcode::TRENAMEAT,
        tcode::TUNLINKAT,
        tcode::TWRITE,
        tcode::TREMOVE,
        tcode::TAUTH,
        tcode::TXATTRWALK,
        tcode::TXATTRCREATE,
        tcode::TLOCK,
        tcode::TGETLOCK,
        tcode::TSTAT,
        tcode::TWSTAT,
    ] {
        let mut w = W::new();
        w.u8(code);
        w.u16(7);
        // Trailing junk: a rejected message body. The decoder
        // shouldn't care: we just want the type code + tag.
        w.u32(0xDEADBEEF);
        let msg = decode_t(&w.into_vec()).unwrap();
        match msg {
            TMessage::Rejected { tag, code: c } => {
                assert_eq!(tag, Tag(7));
                assert_eq!(c, code);
            }
            other => panic!("expected Rejected, got {other:?}"),
        }
    }
}

#[test]
fn unknown_op_errors() {
    let mut w = W::new();
    w.u8(200); // not a real op
    w.u16(0);
    let err = decode_t(&w.into_vec()).unwrap_err();
    assert!(matches!(err, NineError::UnknownType(200)));
}

#[test]
fn truncated_message_errors() {
    let err = decode_t(&[tcode::TVERSION, 0x01]).unwrap_err();
    assert!(matches!(err, NineError::Eom));
}

#[test]
fn version_bytes() {
    let m = TMessage::Version { tag: Tag(0xffff), msize: 0x0001_0203, version: "9P".into() };
    let bytes = encode_t(&m).unwrap();
    assert_eq!(bytes, vec![100, 0xff, 0xff, 3, 2, 1, 0, 2, 0, b'9', b'P']);
    assert_eq!(m.tag(), Tag(0xffff));
}

#[test]
fn rlerror_bytes() {
    let m = rlerror(Tag(5), EIO);
    assert_eq!(encode_r(&m).unwrap(), vec![7, 5, 0, 5, 0, 0, 0]);
    assert_eq!(m.tag(), Tag(5));
}

#[test]
fn bytes_behind_a_message_are_ignored() {
    let mut bytes = encode_t(&TMessage::Clunk { tag: Tag(1), fid: Fid(3) }).unwrap();
    bytes.extend([1, 2, 3]);
    assert_eq!(decode_t(&bytes).unwrap(), TMessage::Clunk { tag: Tag(1), fid: Fid(3) });
}

#[test]
fn a_text_too_long_is_not_written() {
    let m = TMessage::Version { tag: Tag(1), msize: 1, version: "x".repeat(65536) };
    assert_eq!(encode_t(&m), Err(NineError::StringTooLong(65536)));
    let m = TMessage::Version { tag: Tag(1), msize: 1, version: "x".repeat(65535) };
    rt_t(m);
}

#[test]
fn a_text_that_is_not_utf8_is_refused() {
    let mut bytes =
        encode_t(&TMessage::Version { tag: Tag(1), msize: 1, version: "ab".into() }).unwrap();
    let last = bytes.len() - 1;
    bytes[last] = 0xff;
    assert_eq!(decode_t(&bytes), Err(NineError::Utf8));
}

#[test]
fn too_many_names_or_qids_are_refused() {
    let names: Vec<String> = (0..17).map(|i| format!("s{i}")).collect();
    let t = TMessage::Walk { tag: Tag(1), fid: Fid(1), newfid: Fid(2), wnames: names };
    assert_eq!(encode_t(&t), Err(NineError::TwalkTooManyNames(17)));
    let r = RMessage::Walk { tag: Tag(1), wqids: vec![Qid::default(); 17] };
    assert_eq!(encode_r(&r), Err(NineError::RwalkTooManyQids(17)));
}

#[test]
fn nine_errors_in_words() {
    assert_eq!(NineError::Eom.to_string(), "unexpected end of message");
    assert_eq!(NineError::UnknownType(200).to_string(), "unknown message type 200");
}

#[test]
fn every_cut_of_a_message_ends_early() {
    let requests = vec![
        TMessage::Version { tag: Tag(1), msize: 8192, version: "9P2000.L".into() },
        TMessage::Walk {
            tag: Tag(3),
            fid: Fid(1),
            newfid: Fid(2),
            wnames: vec!["a".into(), "b\u{e9}".into()],
        },
        TMessage::Read { tag: Tag(4), fid: Fid(1), offset: 9, count: 5 },
    ];
    for m in &requests {
        let bytes = encode_t(m).unwrap();
        for k in 0..bytes.len() {
            assert_eq!(decode_t(&bytes[..k]), Err(NineError::Eom));
        }
    }
    let replies = vec![
        RMessage::Getattr { tag: Tag(5), valid: 1, stat: Stat::default() },
        RMessage::Walk { tag: Tag(6), wqids: vec![Qid::default(), Qid::default()] },
        RMessage::Read { tag: Tag(7), data: vec![1, 2, 3] },
    ];
    for m in &replies {
        let bytes = encode_r(m).unwrap();
        for k in 0..bytes.len() {
            assert_eq!(decode_r(&bytes[..k]), Err(NineError::Eom));
        }
    }
}
