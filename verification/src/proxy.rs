//! The remote-method proxy: forwards a locally mounted path into an event's
//! own subtree without static knowledge of that subtree's method set. Every
//! call is validated against the remote table a `dir` round trip decoded.
use vstd::prelude::*;
use crate::config::Config;
use crate::error::RpcError;
use crate::error::RpcErrorCode;
use crate::method::MetaMethod;
use crate::method::spec_metamethod_from;
use crate::method::spec_table_has;
use crate::rpcvalue::RpcValue;
use crate::rpcvalue::spec_as_str;

verus! {

/// The first index at or after `pos` whose character is not a slash.
pub open spec fn first_non_slash(s: Seq<char>, pos: int) -> int
    decreases s.len() - pos,
{
    if pos < 0 || pos >= s.len() || s[pos] != '/' {
        pos
    } else {
        first_non_slash(s, pos + 1)
    }
}

/// One past the last index whose character is not a slash.
pub open spec fn last_non_slash(s: Seq<char>) -> int
    decreases s.len(),
{
    if s.len() == 0 {
        0
    } else if s[s.len() - 1] == '/' {
        last_non_slash(s.drop_last())
    } else {
        s.len() as int
    }
}

/// The string without its leading and trailing slashes.
pub open spec fn spec_trim_slashes(s: Seq<char>) -> Seq<char> {
    let a = first_non_slash(s, 0);
    let b = last_non_slash(s);
    if a >= b {
        Seq::empty()
    } else {
        s.subrange(a, b)
    }
}

pub proof fn lemma_first_non_slash(s: Seq<char>, pos: int)
    requires
        0 <= pos <= s.len(),
    ensures
        pos <= first_non_slash(s, pos) <= s.len(),
        forall|j: int| pos <= j < first_non_slash(s, pos) ==> s[j] == '/',
        first_non_slash(s, pos) == s.len() || s[first_non_slash(s, pos)] != '/',
    decreases s.len() - pos,
{
    if pos < s.len() && s[pos] == '/' {
        lemma_first_non_slash(s, pos + 1);
    }
}

pub proof fn lemma_last_non_slash(s: Seq<char>)
    ensures
        0 <= last_non_slash(s) <= s.len(),
        forall|j: int| last_non_slash(s) <= j < s.len() ==> s[j] == '/',
        last_non_slash(s) == 0 || s[last_non_slash(s) - 1] != '/',
    decreases s.len(),
{
    if s.len() > 0 && s[s.len() - 1] == '/' {
        lemma_last_non_slash(s.drop_last());
        let d = s.drop_last();
        assert forall|j: int| last_non_slash(s) <= j < s.len() implies s[j] == '/' by {
            if j < s.len() - 1 {
                assert(d[j] == s[j]);
            }
        }
        if last_non_slash(s) > 0 {
            assert(d[last_non_slash(d) - 1] == s[last_non_slash(s) - 1]);
        }
    }
}

/// Strips leading and trailing slashes.
fn trim_slashes(s: &str) -> (r: Vec<char>)
    ensures
        r@ == spec_trim_slashes(s@),
{
    let v = crate::text::str_to_chars(s);
    proof {
        lemma_first_non_slash(v@, 0);
        lemma_last_non_slash(v@);
    }
    let mut a: usize = 0;
    while a < v.len() && v[a] == '/'
        invariant
            a <= v@.len(),
            v@ == s@,
            forall|j: int| 0 <= j < a ==> v@[j] == '/',
        decreases v@.len() - a,
    {
        a = a + 1;
    }
    proof {
        lemma_first_non_slash(v@, 0);
        assert forall|j: int| 0 <= j < a implies v@[j] == '/' by {}
        if a < v@.len() {
            assert(v@[a as int] != '/');
        }
        lemma_first_at(v@, a as int);
    }
    let mut b: usize = v.len();
    while b > 0 && v[b - 1] == '/'
        invariant
            b <= v@.len(),
            v@ == s@,
            forall|j: int| b <= j < v@.len() ==> v@[j] == '/',
        decreases b,
    {
        b = b - 1;
    }
    proof {
        if b > 0 {
            assert(v@[b - 1] != '/');
        }
        lemma_last_at(v@, b as int);
    }
    if a >= b {
        let r: Vec<char> = Vec::new();
        assert(r@ =~= spec_trim_slashes(s@));
        return r;
    }
    let mut r: Vec<char> = Vec::new();
    let mut i: usize = a;
    while i < b
        invariant
            a <= i <= b <= v@.len(),
            v@ == s@,
            r@ == v@.subrange(a as int, i as int),
        decreases b - i,
    {
        r.push(v[i]);
        assert(r@ =~= v@.subrange(a as int, i + 1));
        i = i + 1;
    }
    proof {
        assert(r@ == spec_trim_slashes(s@));
    }
    r
}

/// A prefix of slashes ending at a non-slash (or the end) pins
/// `first_non_slash`.
proof fn lemma_first_at(s: Seq<char>, a: int)
    requires
        0 <= a <= s.len(),
        forall|j: int| 0 <= j < a ==> s[j] == '/',
        a == s.len() || s[a] != '/',
    ensures
        first_non_slash(s, 0) == a,
{
    lemma_first_at_from(s, 0, a);
}

proof fn lemma_first_at_from(s: Seq<char>, pos: int, a: int)
    requires
        0 <= pos <= a <= s.len(),
        forall|j: int| pos <= j < a ==> s[j] == '/',
        a == s.len() || s[a] != '/',
    ensures
        first_non_slash(s, pos) == a,
    decreases a - pos,
{
    if pos < a {
        lemma_first_at_from(s, pos + 1, a);
    }
}

/// A suffix of slashes starting after a non-slash pins `last_non_slash`.
proof fn lemma_last_at(s: Seq<char>, b: int)
    requires
        0 <= b <= s.len(),
        forall|j: int| b <= j < s.len() ==> s[j] == '/',
        b == 0 || s[b - 1] != '/',
    ensures
        last_non_slash(s) == b,
    decreases s.len(),
{
    if s.len() > 0 && s[s.len() - 1] == '/' {
        let d = s.drop_last();
        assert forall|j: int| b <= j < d.len() implies d[j] == '/' by {
            assert(d[j] == s[j]);
        }
        if b > 0 {
            assert(d[b - 1] == s[b - 1]);
        }
        lemma_last_at(d, b);
    }
}

/// Two path fragments joined with a single slash, each first stripped of
/// leading and trailing slashes; an empty side contributes nothing.
pub open spec fn spec_join_path(p1: Seq<char>, p2: Seq<char>) -> Seq<char> {
    if p1.len() == 0 && p2.len() == 0 {
        Seq::empty()
    } else if p1.len() == 0 {
        spec_trim_slashes(p2)
    } else if p2.len() == 0 {
        spec_trim_slashes(p1)
    } else {
        spec_trim_slashes(p1) + seq!['/'] + spec_trim_slashes(p2)
    }
}

/// Joins two path fragments.
pub fn join_path(p1: &str, p2: &str) -> (r: String)
    ensures
        r@ == spec_join_path(p1@, p2@),
{
    let l1 = vstd::string::StrSliceExecFns::unicode_len(p1);
    let l2 = vstd::string::StrSliceExecFns::unicode_len(p2);
    if l1 == 0 && l2 == 0 {
        let r = String::new();
        return r;
    }
    if l1 == 0 {
        let t = trim_slashes(p2);
        return crate::text::chars_to_string(&t);
    }
    if l2 == 0 {
        let t = trim_slashes(p1);
        return crate::text::chars_to_string(&t);
    }
    let mut out = trim_slashes(p1);
    out.push('/');
    let mut t2 = trim_slashes(p2);
    let ghost t2v = t2@;
    out.append(&mut t2);
    assert(out@ =~= spec_join_path(p1@, p2@));
    crate::text::chars_to_string(&out)
}

/// A proxy bound to one event: requests against it are reissued under the
/// event's externally visible mount point.
#[derive(Debug)]
pub struct EventRpcProxy {
    pub event_id: i64,
    pub event_mount_point: String,
}

/// What the proxy decides for one request, after the remote method table
/// was decoded: serve introspection locally, forward a method the remote
/// table lists, and reject anything else without reaching the remote side.
#[derive(Debug, PartialEq, Eq, Structural, Clone, Copy)]
pub enum ProxyDecision {
    Unresolved,
    Dir,
    Ls,
    Forward,
}

impl EventRpcProxy {
    /// Binds a proxy to an event under the configured mount root.
    pub fn new(cfg: &Config, event_id: i64) -> (p: EventRpcProxy)
        ensures
            p.event_id == event_id,
            p.event_mount_point@ == crate::router::spec_mount_point(
                cfg.events_mount_point@,
                event_id,
            ),
    {
        EventRpcProxy {
            event_id,
            event_mount_point: crate::router::event_mount_point(cfg, event_id),
        }
    }

    /// The fully qualified remote path for a residual local path.
    pub fn target_path(&self, residual: &str) -> (r: String)
        ensures
            r@ == spec_join_path(self.event_mount_point@, residual@),
    {
        join_path(self.event_mount_point.as_str(), residual)
    }

    /// Decides one request against the decoded remote method table: `dir`
    /// and `ls` are served from the table and the remote listing; any other
    /// method is forwarded only when the remote table lists it, and is
    /// otherwise unresolved without ever reaching the remote process.
    pub fn request_handler(&self, method: &str, remote_methods: &Vec<MetaMethod>) -> (d:
        ProxyDecision)
        ensures
            d == spec_proxy_decision(method@, remote_methods@),
    {
        if crate::text::str_eq(method, "dir") {
            ProxyDecision::Dir
        } else if crate::text::str_eq(method, "ls") {
            ProxyDecision::Ls
        } else if crate::method::table_has_method(remote_methods, method) {
            ProxyDecision::Forward
        } else {
            ProxyDecision::Unresolved
        }
    }
}

pub open spec fn spec_proxy_decision(method: Seq<char>, remote: Seq<MetaMethod>) -> ProxyDecision {
    if method == "dir"@ {
        ProxyDecision::Dir
    } else if method == "ls"@ {
        ProxyDecision::Ls
    } else if spec_table_has(remote, method) {
        ProxyDecision::Forward
    } else {
        ProxyDecision::Unresolved
    }
}

/// Decodes a remote `dir` result into the local method-table form: each
/// list element one descriptor; any other shape an empty table.
pub fn methods_from_dir_result(v: &RpcValue) -> (ms: Vec<MetaMethod>)
    ensures
        match v {
            RpcValue::List(items) => ms@.len() == items@.len() && forall|i: int|
                0 <= i < ms@.len() ==> (#[trigger] ms@[i])@ == spec_metamethod_from(items@[i]),
            _ => ms@.len() == 0,
        },
{
    match v {
        RpcValue::List(items) => {
            let mut ms: Vec<MetaMethod> = Vec::new();
            let mut i: usize = 0;
            while i < items.len()
                invariant
                    i <= items@.len(),
                    ms@.len() == i,
                    forall|j: int|
                        0 <= j < i ==> (#[trigger] ms@[j])@ == spec_metamethod_from(items@[j]),
                decreases items@.len() - i,
            {
                ms.push(crate::method::metamethod_from_rpcvalue(&items[i]));
                i = i + 1;
            }
            ms
        },
        _ => Vec::new(),
    }
}

/// Passes a remote `ls` result through verbatim: each list element read as
/// its string; any other shape an empty listing.
pub fn children_from_ls_result(v: &RpcValue) -> (cs: Vec<String>)
    ensures
        match v {
            RpcValue::List(items) => cs@.len() == items@.len() && forall|i: int|
                0 <= i < cs@.len() ==> (#[trigger] cs@[i])@ == spec_as_str(items@[i]),
            _ => cs@.len() == 0,
        },
{
    match v {
        RpcValue::List(items) => {
            let mut cs: Vec<String> = Vec::new();
            let mut i: usize = 0;
            while i < items.len()
                invariant
                    i <= items@.len(),
                    cs@.len() == i,
                    forall|j: int| 0 <= j < i ==> (#[trigger] cs@[j])@ == spec_as_str(items@[j]),
                decreases items@.len() - i,
            {
                cs.push(<String as vstd::string::StringExecFns>::from_str(items[i].as_str()));
                i = i + 1;
            }
            cs
        },
        _ => Vec::new(),
    }
}

/// How a remote call can fail, as the transport reports it.
#[derive(Debug)]
pub enum CallError {
    ConnectionClosed,
    InvalidMessage(String),
    Remote(RpcError),
    ResultTypeMismatch(String),
}

/// Translates a remote-call failure into the local error answered to the
/// caller: a closed connection or malformed traffic becomes a cancelled
/// call, while a remote-reported error passes through unchanged so the
/// original failure reason survives end to end.
pub fn map_call_error(e: &CallError) -> (r: RpcError)
    ensures
        match e {
            CallError::ConnectionClosed => r.code == RpcErrorCode::MethodCallCancelled
                && r.message@ == "ConnectionClosed"@,
            CallError::InvalidMessage(m) => r.code == RpcErrorCode::MethodCallCancelled
                && r.message@ == m@,
            CallError::Remote(err) => r.code == err.code && r.message@ == err.message@,
            CallError::ResultTypeMismatch(m) => r.code == RpcErrorCode::MethodCallCancelled
                && r.message@ == m@,
        },
{
    match e {
        CallError::ConnectionClosed => RpcError::new(
            RpcErrorCode::MethodCallCancelled,
            <String as vstd::string::StringExecFns>::from_str("ConnectionClosed"),
        ),
        CallError::InvalidMessage(m) => RpcError::new(
            RpcErrorCode::MethodCallCancelled,
            m.clone(),
        ),
        CallError::Remote(err) => RpcError::new(err.code, err.message.clone()),
        CallError::ResultTypeMismatch(m) => RpcError::new(
            RpcErrorCode::MethodCallCancelled,
            m.clone(),
        ),
    }
}

} // verus!
