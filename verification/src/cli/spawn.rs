//! `classic spawn`: the request, and what is made of the daemon's replies.
use crate::cli::args::SpawnArgs;
use crate::cli::error::{CliErr, CliErrView};
use crate::text::{copy_texts, texts};
use vstd::arithmetic::div_mod::{lemma_fundamental_div_mod, lemma_fundamental_div_mod_converse};
use vstd::prelude::*;

verus! {

/// What the daemon is asked for. Standard input is not streamed yet, so the
/// request says nothing of it.
#[derive(Debug)]
pub struct SpawnRequest {
    pub req_id: u64,
    pub requires: String,
    /// Empty for the daemon's own ranking.
    pub rank: String,
    pub argv: Vec<String>,
    pub env: Vec<String>,
    pub exclusive_device: bool,
    /// How often the request was passed on.
    pub hop: u8,
}

/// The rank expression, or an empty one.
pub open spec fn rank_text(rank: Option<String>) -> Seq<char> {
    match rank {
        Some(r) => r@,
        None => ""@,
    }
}

/// The request for validated arguments.
pub fn spawn_request(args: &SpawnArgs, req_id: u64) -> (r: SpawnRequest)
    ensures
        r.req_id == req_id,
        r.requires@ == args.requires@,
        r.rank@ == rank_text(args.rank),
        texts(r.argv@) == texts(args.argv@),
        texts(r.env@) == texts(args.env@),
        r.exclusive_device == args.exclusive_device,
        r.hop == 0,
{
    let rank = match &args.rank {
        Some(r) => r.clone(),
        None => "".to_owned(),
    };
    SpawnRequest {
        req_id,
        requires: args.requires.clone(),
        rank,
        argv: copy_texts(&args.argv),
        env: copy_texts(&args.env),
        exclusive_device: args.exclusive_device,
        hop: 0,
    }
}

/// A standard stream of the child.
#[derive(Copy, Clone, Debug, PartialEq, Eq, Structural)]
pub enum StdioStream {
    Stdin,
    Stdout,
    Stderr,
}

/// A reply of the daemon.
#[derive(Debug)]
pub enum Reply {
    /// The request was taken.
    Ack,
    /// The request was refused, for the reason given.
    Deny(String),
    /// The child wrote something.
    Stdio { stream: StdioStream, data: Vec<u8> },
    /// The child is gone: its exit code, or the signal that ended it.
    Exit { code: Option<i32>, signal: Option<i32> },
    /// A reply of a known kind that cannot be read.
    Malformed(String),
    /// A reply of another kind.
    Unknown,
}

/// What to print.
#[derive(Debug)]
pub struct Output {
    /// To standard error rather than standard output.
    pub to_stderr: bool,
    pub data: Vec<u8>,
}

/// The exit code for a child that ended so: its own, cut to a byte, or
/// `128 + signum`.
pub open spec fn status(code: Option<i32>, signal: Option<i32>) -> int {
    match (code, signal) {
        (Some(c), _) => c as int % 256,
        (None, Some(s)) => 128 + s as int % 128,
        (None, None) => 1,
    }
}

/// The exit code for a child that ended so.
pub fn child_status(code: Option<i32>, signal: Option<i32>) -> (r: u8)
    ensures
        r == status(code, signal),
{
    match (code, signal) {
        (Some(c), _) => low_bits(c, 256) as u8,
        (None, Some(s)) => 128 + low_bits(s, 128) as u8,
        (None, None) => 1,
    }
}

/// The remainder that is not negative.
fn low_bits(n: i32, m: u32) -> (r: u32)
    requires
        0 < m <= 256,
    ensures
        r == n as int % m as int,
{
    if n >= 0 {
        return n as u32 % m;
    }
    let p: u32 = (0 - n as i64) as u32;
    let k: u32 = p % m;
    let r: u32 = if k == 0 {
        0
    } else {
        m - k
    };
    proof {
        let q: int = if k == 0 {
            0 - p as int / m as int
        } else {
            0 - p as int / m as int - 1
        };
        lemma_fundamental_div_mod(p as int, m as int);
        assert(n as int == q * (m as int) + r as int) by (nonlinear_arith)
            requires
                p as int == 0 - n as int,
                p as int == (m as int) * (p as int / m as int) + k as int,
                k == 0 ==> q == 0 - p as int / m as int && r == 0,
                k != 0 ==> q == 0 - p as int / m as int - 1 && r == m - k,
        ;
        lemma_fundamental_div_mod_converse(n as int, m as int, q, r as int);
    }
    r
}

/// How one spawned child is followed.
#[derive(Debug)]
pub struct Session {
    pub exit_code: Option<u8>,
}

/// The exit code known after the replies.
pub open spec fn known(replies: Seq<Reply>) -> Option<u8>
    decreases replies.len(),
{
    if replies.len() == 0 {
        None
    } else {
        match replies.last() {
            Reply::Exit { code, signal } => Some(status(code, signal) as u8),
            _ => known(replies.drop_last()),
        }
    }
}

/// How the command ends when the daemon closes the connection.
pub open spec fn closing(exit_code: Option<u8>) -> CliErrView {
    match exit_code {
        Some(c) => CliErrView::Exit(c),
        None => CliErrView::Other("daemon closed connection without ChildExit"@),
    }
}

impl Session {
    /// Nothing known yet.
    pub fn new() -> (s: Self)
        ensures
            s.exit_code is None,
    {
        Session { exit_code: None }
    }

    /// Take one reply: what to print, or how the command ends.
    pub fn on_reply(&mut self, reply: Reply) -> (r: Result<Option<Output>, CliErr>)
        ensures
            final(self).exit_code == (match reply {
                Reply::Exit { code, signal } => Some(status(code, signal) as u8),
                _ => old(self).exit_code,
            }),
            match reply {
                Reply::Deny(m) => r is Err && r->Err_0@ == CliErrView::Spawn(m@),
                Reply::Malformed(m) => r is Err && r->Err_0@ == CliErrView::Other(m@),
                Reply::Stdio { stream: StdioStream::Stdout, data } => r matches Ok(Some(o))
                    && !o.to_stderr && o.data@ == data@,
                Reply::Stdio { stream: StdioStream::Stderr, data } => r matches Ok(Some(o))
                    && o.to_stderr && o.data@ == data@,
                _ => r matches Ok(None),
            },
    {
        match reply {
            Reply::Deny(m) => Err(CliErr::Spawn(m)),
            Reply::Malformed(m) => Err(CliErr::Other(m)),
            Reply::Stdio { stream, data } => match stream {
                StdioStream::Stdout => Ok(Some(Output { to_stderr: false, data })),
                StdioStream::Stderr => Ok(Some(Output { to_stderr: true, data })),
                StdioStream::Stdin => Ok(None),
            },
            Reply::Exit { code, signal } => {
                self.exit_code = Some(child_status(code, signal));
                Ok(None)
            },
            Reply::Ack => Ok(None),
            Reply::Unknown => Ok(None),
        }
    }

    /// The daemon closed the connection: how the command ends.
    pub fn on_close(&self) -> (e: CliErr)
        ensures
            e@ == closing(self.exit_code),
    {
        match self.exit_code {
            Some(c) => CliErr::Exit(c),
            None => CliErr::Other("daemon closed connection without ChildExit".to_owned()),
        }
    }
}

/// The exit code of the child is the exit code of the command, whatever came
/// before the child's end, and whatever output came after it.
pub proof fn law_child_exit_propagated(
    before: Seq<Reply>,
    code: Option<i32>,
    signal: Option<i32>,
    after: Seq<Reply>,
)
    requires
        forall|i: int| 0 <= i < after.len() ==> !((#[trigger] after[i]) is Exit),
    ensures
        closing(known(before.push(Reply::Exit { code, signal }) + after)) == CliErrView::Exit(
            status(code, signal) as u8,
        ),
    decreases after.len(),
{
    let all = before.push(Reply::Exit { code, signal }) + after;
    if after.len() == 0 {
        assert(all =~= before.push(Reply::Exit { code, signal }));
    } else {
        assert(all.drop_last() =~= before.push(Reply::Exit { code, signal }) + after.drop_last());
        assert(all.last() == after.last());
        assert forall|i: int| 0 <= i < after.drop_last().len() implies !((
        #[trigger] after.drop_last()[i]) is Exit) by {
            assert(after.drop_last()[i] == after[i]);
        }
        law_child_exit_propagated(before, code, signal, after.drop_last());
    }
}

/// A child that ended by itself is told from one ended by a signal whenever its
/// own code is below 128, and every code fits the byte that the system takes.
pub proof fn law_status_range(code: Option<i32>, signal: Option<i32>)
    ensures
        0 <= status(code, signal) < 256,
        code is None && signal is Some ==> 128 <= status(code, signal),
        code is Some && 0 <= code->Some_0 < 256 ==> status(code, signal) == code->Some_0,
        code is None && signal is Some && 0 <= signal->Some_0 < 128 ==> status(code, signal) == 128
            + signal->Some_0,
{
}

} // verus!
