//! The path router: classifies a request's shv path and method into the
//! root-level, event-level, or proxied cases, and builds the local answers.
use vstd::prelude::*;
use crate::codec::EventDataV;
use crate::config::Config;
use crate::error::Error;
use crate::error::RpcError;
use crate::method::AccessLevel;
use crate::method::MetaMethod;
use crate::numtext::dec_int;
use crate::numtext::spec_parse_i64;
use crate::rpcvalue::RpcValue;
use crate::rpcvalue::spec_as_i64;
use crate::rpcvalue::spec_as_str;
use crate::state::State;
use crate::state::find_open;
use crate::text::spec_find_char;

verus! {

/// Where a path points: the root node, one event's node, or a spot inside
/// an event's forwarded subtree.
#[derive(Debug)]
pub enum NodeType {
    Root,
    Event(i64),
    EventSubtree(i64, String),
}

/// The mathematical model of a classified path.
#[verifier::ext_equal]
pub enum NodeTypeV {
    Root,
    Event(i64),
    EventSubtree(i64, Seq<char>),
}

impl View for NodeType {
    type V = NodeTypeV;

    open spec fn view(&self) -> NodeTypeV {
        match self {
            NodeType::Root => NodeTypeV::Root,
            NodeType::Event(id) => NodeTypeV::Event(*id),
            NodeType::EventSubtree(id, rest) => NodeTypeV::EventSubtree(*id, rest@),
        }
    }
}

/// How a path classifies: empty means the root; otherwise the first segment
/// must spell an event id; a remainder is forwarded only under a literal
/// `db` segment; everything else is not this subsystem's to resolve.
pub open spec fn spec_from_path(p: Seq<char>) -> Option<NodeTypeV> {
    if p.len() == 0 {
        Some(NodeTypeV::Root)
    } else {
        match spec_find_char(p, '/', 0) {
            None => match spec_parse_i64(p) {
                Some(id) => Some(NodeTypeV::Event(id)),
                None => None,
            },
            Some(k) => {
                let first = p.subrange(0, k);
                let rest = p.subrange(k + 1, p.len() as int);
                match spec_parse_i64(first) {
                    None => None,
                    Some(id) => if rest == "db"@ {
                        Some(NodeTypeV::EventSubtree(id, Seq::empty()))
                    } else if rest.len() >= 3 && rest.subrange(0, 3) == "db/"@ {
                        Some(NodeTypeV::EventSubtree(id, rest.subrange(3, rest.len() as int)))
                    } else {
                        None
                    },
                }
            },
        }
    }
}

impl NodeType {
    /// Classifies a path; a shape this subsystem does not serve yields
    /// nothing, so an outer dispatcher can try other mount points.
    pub fn from_path(path: &str) -> (r: Option<NodeType>)
        ensures
            match r {
                Some(nt) => spec_from_path(path@) == Some(nt@),
                None => spec_from_path(path@) is None,
            },
    {
        proof {
            reveal_strlit("");
        }
        let pv = crate::text::str_to_chars(path);
        if pv.len() == 0 {
            return Some(NodeType::Root);
        }
        match crate::text::find_char(&pv, '/') {
            None => {
                match crate::numtext::parse_i64_chars(&pv) {
                    Some(id) => Some(NodeType::Event(id)),
                    None => None,
                }
            },
            Some(k) => {
                proof {
                    crate::text::lemma_find_char(pv@, '/', 0);
                }
                let first = vec_slice(&pv, 0, k);
                let rest = vec_slice(&pv, k + 1, pv.len());
                match crate::numtext::parse_i64_chars(&first) {
                    None => None,
                    Some(id) => {
                        if crate::text::chars_eq_str(&rest, "db") {
                            Some(
                                NodeType::EventSubtree(
                                    id,
                                    <String as vstd::string::StringExecFns>::from_str(""),
                                ),
                            )
                        } else if rest.len() >= 3 && starts_with_db_slash(&rest) {
                            let rem = vec_slice(&rest, 3, rest.len());
                            Some(
                                NodeType::EventSubtree(id, crate::text::chars_to_string(&rem)),
                            )
                        } else {
                            None
                        }
                    },
                }
            },
        }
    }
}

/// Whether the characters begin with the literal `db/`.
fn starts_with_db_slash(v: &Vec<char>) -> (b: bool)
    ensures
        b == (v@.len() >= 3 && v@.subrange(0, 3) == "db/"@),
{
    proof {
        reveal_strlit("db/");
    }
    if v.len() < 3 {
        return false;
    }
    let b = v[0] == 'd' && v[1] == 'b' && v[2] == '/';
    proof {
        if b {
            assert(v@.subrange(0, 3) =~= "db/"@);
        } else {
            assert(v@.subrange(0, 3)[0] == v@[0]);
            assert(v@.subrange(0, 3)[1] == v@[1]);
            assert(v@.subrange(0, 3)[2] == v@[2]);
        }
    }
    b
}

/// A copy of `v[from..to]`.
fn vec_slice(v: &Vec<char>, from: usize, to: usize) -> (r: Vec<char>)
    requires
        from <= to <= v@.len(),
    ensures
        r@ == v@.subrange(from as int, to as int),
{
    let mut r: Vec<char> = Vec::new();
    let mut i: usize = from;
    while i < to
        invariant
            from <= i <= to <= v@.len(),
            r@ == v@.subrange(from as int, i as int),
        decreases to - i,
    {
        r.push(v[i]);
        assert(r@ =~= v@.subrange(from as int, i + 1));
        i = i + 1;
    }
    r
}

/// A root-level operation, with its parameter already extracted.
#[derive(Debug)]
pub enum RootMethod {
    Dir,
    Ls,
    CreateEvent(String),
    OpenEvent(i64),
    OpenEventApiKey(String),
    DeleteEvent(String),
}

/// An event-level operation.
#[derive(Debug, PartialEq, Eq, Structural, Clone, Copy)]
pub enum EventMethod {
    Dir,
    Ls,
    Info,
    Close,
}

/// Where a request goes after classification.
#[derive(Debug)]
pub enum Routed {
    Unresolved,
    Root(RootMethod),
    Event(i64, EventMethod),
    Subtree(i64, String),
}

/// The model of a routing decision.
#[verifier::ext_equal]
pub enum RoutedV {
    Unresolved,
    Root(RootMethodV),
    Event(i64, EventMethod),
    Subtree(i64, Seq<char>),
}

#[verifier::ext_equal]
pub enum RootMethodV {
    Dir,
    Ls,
    CreateEvent(Seq<char>),
    OpenEvent(i64),
    OpenEventApiKey(Seq<char>),
    DeleteEvent(Seq<char>),
}

impl View for Routed {
    type V = RoutedV;

    open spec fn view(&self) -> RoutedV {
        match self {
            Routed::Unresolved => RoutedV::Unresolved,
            Routed::Root(m) => RoutedV::Root(
                match m {
                    RootMethod::Dir => RootMethodV::Dir,
                    RootMethod::Ls => RootMethodV::Ls,
                    RootMethod::CreateEvent(s) => RootMethodV::CreateEvent(s@),
                    RootMethod::OpenEvent(id) => RootMethodV::OpenEvent(*id),
                    RootMethod::OpenEventApiKey(s) => RootMethodV::OpenEventApiKey(s@),
                    RootMethod::DeleteEvent(s) => RootMethodV::DeleteEvent(s@),
                },
            ),
            Routed::Event(id, m) => RoutedV::Event(*id, *m),
            Routed::Subtree(id, rest) => RoutedV::Subtree(*id, rest@),
        }
    }
}

/// How a classified path and a method name resolve: the standard
/// introspection methods and each node's own table, with the parameter
/// read the way each method expects it; an unknown method at a resolved
/// node stays unresolved so an outer dispatcher may serve it.
pub open spec fn spec_route(p: Seq<char>, m: Seq<char>, v: RpcValue) -> RoutedV {
    match spec_from_path(p) {
        None => RoutedV::Unresolved,
        Some(NodeTypeV::Root) => if m == "dir"@ {
            RoutedV::Root(RootMethodV::Dir)
        } else if m == "ls"@ {
            RoutedV::Root(RootMethodV::Ls)
        } else if m == "createEvent"@ {
            RoutedV::Root(RootMethodV::CreateEvent(spec_as_str(v)))
        } else if m == "openEvent"@ {
            RoutedV::Root(RootMethodV::OpenEvent(spec_as_i64(v)))
        } else if m == "openEventApiKey"@ {
            RoutedV::Root(RootMethodV::OpenEventApiKey(spec_as_str(v)))
        } else if m == "deleteEvent"@ {
            RoutedV::Root(RootMethodV::DeleteEvent(spec_as_str(v)))
        } else {
            RoutedV::Unresolved
        },
        Some(NodeTypeV::Event(id)) => if m == "dir"@ {
            RoutedV::Event(id, EventMethod::Dir)
        } else if m == "ls"@ {
            RoutedV::Event(id, EventMethod::Ls)
        } else if m == "info"@ {
            RoutedV::Event(id, EventMethod::Info)
        } else if m == "close"@ {
            RoutedV::Event(id, EventMethod::Close)
        } else {
            RoutedV::Unresolved
        },
        Some(NodeTypeV::EventSubtree(id, rest)) => RoutedV::Subtree(id, rest),
    }
}

/// Classifies one inbound request.
pub fn route(path: &str, method: &str, param: &RpcValue) -> (r: Routed)
    ensures
        r@ == spec_route(path@, method@, *param),
{
    let nt = match NodeType::from_path(path) {
        Some(nt) => nt,
        None => {
            return Routed::Unresolved;
        },
    };
    match nt {
        NodeType::Root => {
            if crate::text::str_eq(method, "dir") {
                Routed::Root(RootMethod::Dir)
            } else if crate::text::str_eq(method, "ls") {
                Routed::Root(RootMethod::Ls)
            } else if crate::text::str_eq(method, "createEvent") {
                Routed::Root(
                    RootMethod::CreateEvent(
                        <String as vstd::string::StringExecFns>::from_str(param.as_str()),
                    ),
                )
            } else if crate::text::str_eq(method, "openEvent") {
                Routed::Root(RootMethod::OpenEvent(param.as_i64()))
            } else if crate::text::str_eq(method, "openEventApiKey") {
                Routed::Root(
                    RootMethod::OpenEventApiKey(
                        <String as vstd::string::StringExecFns>::from_str(param.as_str()),
                    ),
                )
            } else if crate::text::str_eq(method, "deleteEvent") {
                Routed::Root(
                    RootMethod::DeleteEvent(
                        <String as vstd::string::StringExecFns>::from_str(param.as_str()),
                    ),
                )
            } else {
                Routed::Unresolved
            }
        },
        NodeType::Event(id) => {
            if crate::text::str_eq(method, "dir") {
                Routed::Event(id, EventMethod::Dir)
            } else if crate::text::str_eq(method, "ls") {
                Routed::Event(id, EventMethod::Ls)
            } else if crate::text::str_eq(method, "info") {
                Routed::Event(id, EventMethod::Info)
            } else if crate::text::str_eq(method, "close") {
                Routed::Event(id, EventMethod::Close)
            } else {
                Routed::Unresolved
            }
        },
        NodeType::EventSubtree(id, rest) => Routed::Subtree(id, rest),
    }
}

/// The root node's method table: each entry's access level and signatures
/// are fixed here, since they feed the broker's access control.
pub fn root_methods() -> (ms: Vec<MetaMethod>)
    ensures
        ms@.len() == 6,
        forall|i: int| 0 <= i < ms@.len() ==> (#[trigger] ms@[i])@.flags == 0,
        ms@[0]@.name == "dir"@ && ms@[0]@.access == AccessLevel::Browse && ms@[0]@.param
            == "idir"@ && ms@[0]@.result == "odir"@,
        ms@[1]@.name == "ls"@ && ms@[1]@.access == AccessLevel::Browse && ms@[1]@.param == "ils"@
            && ms@[1]@.result == "ols"@,
        ms@[2]@.name == "createEvent"@ && ms@[2]@.access == AccessLevel::Write && ms@[2]@.param
            == "s"@ && ms@[2]@.result == "[i:event_id,s:api_token]"@,
        ms@[3]@.name == "openEvent"@ && ms@[3]@.access == AccessLevel::Read && ms@[3]@.param
            == "i"@ && ms@[3]@.result == "s"@,
        ms@[4]@.name == "openEventApiKey"@ && ms@[4]@.access == AccessLevel::Read && ms@[4]@.param
            == "s"@ && ms@[4]@.result == "[i,s]"@,
        ms@[5]@.name == "deleteEvent"@ && ms@[5]@.access == AccessLevel::Write && ms@[5]@.param
            == "s"@ && ms@[5]@.result == "b"@,
{
    let mut ms: Vec<MetaMethod> = Vec::new();
    ms.push(MetaMethod::new_static("dir", 0, AccessLevel::Browse, "idir", "odir"));
    ms.push(MetaMethod::new_static("ls", 0, AccessLevel::Browse, "ils", "ols"));
    ms.push(
        MetaMethod::new_static(
            "createEvent",
            0,
            AccessLevel::Write,
            "s",
            "[i:event_id,s:api_token]",
        ),
    );
    ms.push(MetaMethod::new_static("openEvent", 0, AccessLevel::Read, "i", "s"));
    ms.push(MetaMethod::new_static("openEventApiKey", 0, AccessLevel::Read, "s", "[i,s]"));
    ms.push(MetaMethod::new_static("deleteEvent", 0, AccessLevel::Write, "s", "b"));
    ms
}

/// An event node's method table: each entry's access level and signatures
/// are fixed here, since they feed the broker's access control.
pub fn event_methods() -> (ms: Vec<MetaMethod>)
    ensures
        ms@.len() == 4,
        forall|i: int| 0 <= i < ms@.len() ==> (#[trigger] ms@[i])@.flags == 0,
        ms@[0]@.name == "dir"@ && ms@[0]@.access == AccessLevel::Browse && ms@[0]@.param
            == "idir"@ && ms@[0]@.result == "odir"@,
        ms@[1]@.name == "ls"@ && ms@[1]@.access == AccessLevel::Browse && ms@[1]@.param == "ils"@
            && ms@[1]@.result == "ols"@,
        ms@[2]@.name == "info"@ && ms@[2]@.access == AccessLevel::Read && ms@[2]@.param == "n"@
            && ms@[2]@.result == "{}"@,
        ms@[3]@.name == "close"@ && ms@[3]@.access == AccessLevel::Read && ms@[3]@.param == ""@
            && ms@[3]@.result == ""@,
{
    let mut ms: Vec<MetaMethod> = Vec::new();
    ms.push(MetaMethod::new_static("dir", 0, AccessLevel::Browse, "idir", "odir"));
    ms.push(MetaMethod::new_static("ls", 0, AccessLevel::Browse, "ils", "ols"));
    ms.push(MetaMethod::new_static("info", 0, AccessLevel::Read, "n", "{}"));
    ms.push(MetaMethod::new_static("close", 0, AccessLevel::Read, "", ""));
    ms
}

/// The open events, as decimal strings in ascending numeric id order.
pub fn list_events(state: &State) -> (r: Vec<String>)
    requires
        state.wf(),
    ensures
        r@.len() == state.open_events@.len(),
        forall|i: int|
            0 <= i < r@.len() ==> (#[trigger] r@[i])@ == dec_int(state.open_events@[i].0 as int),
{
    let mut r: Vec<String> = Vec::new();
    let mut i: usize = 0;
    while i < state.open_events.len()
        invariant
            i <= state.open_events@.len(),
            r@.len() == i,
            forall|j: int|
                0 <= j < i ==> (#[trigger] r@[j])@ == dec_int(state.open_events@[j].0 as int),
        decreases state.open_events@.len() - i,
    {
        let mut digits: Vec<char> = Vec::new();
        crate::numtext::push_dec_i64(&mut digits, state.open_events[i].0);
        r.push(crate::text::chars_to_string(&digits));
        i = i + 1;
    }
    r
}

/// The mount point under which an event is reachable:
/// `<events_mount_point>/<id>`.
pub open spec fn spec_mount_point(base: Seq<char>, id: i64) -> Seq<char> {
    base + seq!['/'] + dec_int(id as int)
}

/// Builds an event's externally visible mount point.
pub fn event_mount_point(cfg: &Config, event_id: i64) -> (r: String)
    ensures
        r@ == spec_mount_point(cfg.events_mount_point@, event_id),
{
    let mut out: Vec<char> = Vec::new();
    crate::text::push_str_chars(&mut out, cfg.events_mount_point.as_str());
    out.push('/');
    crate::numtext::push_dec_i64(&mut out, event_id);
    assert(out@ =~= spec_mount_point(cfg.events_mount_point@, event_id));
    crate::text::chars_to_string(&out)
}

/// What `info` answers for an open event: its fields as a map, with the
/// api token masked to the empty string.
pub open spec fn info_matches(v: RpcValue, d: EventDataV) -> bool {
    match v {
        RpcValue::StrMap(m) => {
            &&& m@.len() == 5
            &&& m@[0].0@ == "name"@
            &&& (m@[0].1 matches RpcValue::Str(s) && s@ == d.name)
            &&& m@[1].0@ == "date"@
            &&& (m@[1].1 matches RpcValue::DateTime(dt) && dt == d.date)
            &&& m@[2].0@ == "owner"@
            &&& (m@[2].1 matches RpcValue::Str(s) && s@ == d.owner)
            &&& m@[3].0@ == "api_token"@
            &&& (m@[3].1 matches RpcValue::Str(s) && s@.len() == 0)
            &&& m@[4].0@ == "is_local"@
            &&& (m@[4].1 matches RpcValue::Bool(b) && b == d.is_local)
        },
        _ => false,
    }
}

/// Answers `info` for an event: its metadata with the api token masked to
/// an empty string, never the real token; an id that is not open is a
/// reported error, not a crash.
pub fn event_info(state: &State, event_id: i64) -> (r: Result<RpcValue, RpcError>)
    requires
        state.wf(),
    ensures
        match r {
            Ok(v) => {
                &&& find_open(state.open_events@, event_id) matches Some(i)
                &&& info_matches(
                    v,
                    state.open_events@[find_open(state.open_events@, event_id)->Some_0].1.data@,
                )
            },
            Err(e) => {
                &&& !state.open_contains(event_id)
                &&& e.code == crate::error::RpcErrorCode::MethodCallException
                &&& e.message@ == "Error: "@ + crate::error::spec_error_message(
                    Error::EventNotFound(event_id),
                )
            },
        },
{
    let mut i: usize = 0;
    while i < state.open_events.len()
        invariant
            i <= state.open_events@.len(),
            forall|j: int| 0 <= j < i ==> state.open_events@[j].0 != event_id,
        decreases state.open_events@.len() - i,
    {
        if state.open_events[i].0 == event_id {
            proof {
                crate::state::lemma_find_open(state.open_events@, event_id);
            }
            let d = &state.open_events[i].1.data;
            let mut m: Vec<(String, RpcValue)> = Vec::new();
            m.push(
                (
                    <String as vstd::string::StringExecFns>::from_str("name"),
                    RpcValue::Str(d.name.clone()),
                ),
            );
            m.push(
                (
                    <String as vstd::string::StringExecFns>::from_str("date"),
                    RpcValue::DateTime(d.date),
                ),
            );
            m.push(
                (
                    <String as vstd::string::StringExecFns>::from_str("owner"),
                    RpcValue::Str(d.owner.clone()),
                ),
            );
            m.push(
                (
                    <String as vstd::string::StringExecFns>::from_str("api_token"),
                    RpcValue::Str(String::new()),
                ),
            );
            m.push(
                (
                    <String as vstd::string::StringExecFns>::from_str("is_local"),
                    RpcValue::Bool(d.is_local),
                ),
            );
            return Ok(RpcValue::StrMap(m));
        }
        i = i + 1;
    }
    proof {
        crate::state::lemma_find_open(state.open_events@, event_id);
    }
    Err(RpcError::from_error(&Error::EventNotFound(event_id)))
}

/// The result `createEvent` answers: the new id and its api token.
pub fn create_event_result(event_id: i64, api_token: String) -> (r: RpcValue)
    ensures
        ({
            &&& r matches RpcValue::List(l)
            &&& l@.len() == 2
            &&& l@[0] matches RpcValue::Int(i)
            &&& i == event_id
            &&& l@[1] matches RpcValue::Str(s)
            &&& s@ == api_token@
        }),
{
    let mut l: Vec<RpcValue> = Vec::new();
    l.push(RpcValue::Int(event_id));
    l.push(RpcValue::Str(api_token));
    RpcValue::List(l)
}

} // verus!
