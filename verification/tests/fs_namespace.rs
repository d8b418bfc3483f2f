//! Mount tables of spawned tasks.
use classic::fs::namespace::{
    Attach, BindRemote, Namespace, NamespaceError, SpawnSpec,
};
use classic::fs::tree::EmptyTree;
use classic::ident::{MboxId, NodeId};

/// The client side of a remote tree.
#[derive(Debug, PartialEq)]
struct OkRemote;

type Table = Namespace<EmptyTree, OkRemote>;

fn nid(n: u8) -> NodeId {
    let mut b = [0u8; 16];
    b[0] = n;
    NodeId::from_bytes(b)
}

fn bind(n: u8, at: &str) -> BindRemote {
    BindRemote { node: nid(n), at: at.to_string() }
}

fn build(spec: &SpawnSpec) -> Result<Table, NamespaceError> {
    Namespace::build_for_spawn(spec, EmptyTree, nid(1), |_| Attach::Attached(OkRemote))
}

fn refused(spec: &SpawnSpec) -> NamespaceError {
    match build(spec) {
        Ok(_) => panic!("expected an error"),
        Err(e) => e,
    }
}

#[test]
fn local_only_namespace_has_just_root_mount() {
    let ns = match build(&SpawnSpec { mbox: MboxId(1), bind_remote: vec![] }) {
        Ok(ns) => ns,
        Err(e) => panic!("{e:?}"),
    };
    assert_eq!(ns.mounts.len(), 1);
    assert_eq!(ns.mounts[0].at, "/");
    assert_eq!(ns.fuse_mountpoint, "/run/classic/ns/1");
}

fn built(spec: &SpawnSpec) -> Table {
    match build(spec) {
        Ok(ns) => ns,
        Err(e) => panic!("{e:?}"),
    }
}

#[test]
fn bind_remote_appended_and_attach_validated() {
    let spec = SpawnSpec { mbox: MboxId(2), bind_remote: vec![bind(2, "/cluster/B")] };
    let ns = built(&spec);
    assert_eq!(ns.mounts.len(), 2);
    // Longest-prefix-first ordering: /cluster/B comes before /.
    assert_eq!(ns.mounts[0].at, "/cluster/B");
    assert_eq!(ns.mounts[1].at, "/");
}

#[test]
fn self_bind_rejected() {
    let spec = SpawnSpec {
        mbox: MboxId(3),
        bind_remote: vec![bind(1, "/cluster/me")], // same as local
    };
    assert!(matches!(refused(&spec), NamespaceError::SelfBind(_)));
}

#[test]
fn root_mount_point_rejected() {
    let spec = SpawnSpec { mbox: MboxId(4), bind_remote: vec![bind(2, "/")] };
    assert!(matches!(refused(&spec), NamespaceError::BadMountPoint));
}

#[test]
fn relative_mount_point_rejected() {
    let spec = SpawnSpec { mbox: MboxId(5), bind_remote: vec![bind(2, "relative/path")] };
    assert!(matches!(refused(&spec), NamespaceError::BadMountPoint));
}

#[test]
fn duplicate_mount_point_rejected() {
    let spec = SpawnSpec {
        mbox: MboxId(6),
        bind_remote: vec![bind(2, "/cluster/x"), bind(3, "/cluster/x")],
    };
    assert!(matches!(refused(&spec), NamespaceError::DuplicateMountPoint(_)));
}

#[test]
fn remote_attach_failure_surfaces() {
    let spec = SpawnSpec { mbox: MboxId(7), bind_remote: vec![bind(2, "/cluster/B")] };
    let r: Result<Table, NamespaceError> =
        Namespace::build_for_spawn(&spec, EmptyTree, nid(1), |_| Attach::Refused);
    match r {
        Ok(_) => panic!("expected an error"),
        Err(e) => assert!(matches!(e, NamespaceError::RemoteAttachFailed(_))),
    }
}

#[test]
fn an_unresolved_node_is_reported_as_it_came() {
    let spec = SpawnSpec { mbox: MboxId(7), bind_remote: vec![bind(2, "/cluster/B")] };
    let r: Result<Table, NamespaceError> =
        Namespace::build_for_spawn(&spec, EmptyTree, nid(1), |n| {
            Attach::Unresolved(NamespaceError::RemoteAttachFailed(n))
        });
    match r {
        Ok(_) => panic!("expected an error"),
        Err(e) => assert!(matches!(e, NamespaceError::RemoteAttachFailed(n) if n == nid(2))),
    }
}

#[test]
fn route_picks_longest_prefix() {
    let spec = SpawnSpec {
        mbox: MboxId(8),
        bind_remote: vec![bind(2, "/cluster"), bind(3, "/cluster/B")],
    };
    let ns = built(&spec);
    let (mount, residual) = ns.route("/cluster/B/dev/gpu/0").unwrap();
    assert_eq!(mount.at, "/cluster/B");
    assert_eq!(residual, "/dev/gpu/0");
    let (mount, _) = ns.route("/etc/hostname").unwrap();
    // No bind on /etc: falls through to /.
    assert_eq!(mount.at, "/");
}

#[test]
fn a_name_that_only_starts_alike_is_not_below() {
    let spec = SpawnSpec { mbox: MboxId(8), bind_remote: vec![bind(2, "/cluster")] };
    let ns = built(&spec);
    assert_eq!(ns.route("/clusters/x").unwrap().0.at, "/");
    assert_eq!(ns.route("/cluster").unwrap().0.at, "/cluster");
    assert!(ns.route("relative").is_none());
}

#[test]
fn mount_fuse_default_creates_dir_returns_unmounted_handle() {
    let ns = built(&SpawnSpec { mbox: MboxId(99), bind_remote: vec![] });
    let handle = ns.mount_fuse();
    assert!(!handle.mounted);
    assert_eq!(handle.mountpoint, "/run/classic/ns/99");
    // The empty mount point is what is left to remove.
    assert_eq!(Table::unmount(handle), Some("/run/classic/ns/99".to_string()));
}
