//! Method descriptors: the metadata describing one callable operation on a
//! node, and their decoding from the dynamic values a remote `dir` returns.
use vstd::prelude::*;
use crate::rpcvalue::RpcValue;
use crate::rpcvalue::spec_as_i64;
use crate::rpcvalue::spec_as_str;
use crate::rpcvalue::spec_get_ikey;

verus! {

/// The access level a caller needs for a method.
#[derive(Debug, Clone, Copy, PartialEq, Eq, Structural)]
pub enum AccessLevel {
    Browse,
    Read,
    Write,
    Command,
    Config,
    Service,
    SuperService,
    Developer,
    Superuser,
}

pub open spec fn spec_level_num(a: AccessLevel) -> u8 {
    match a {
        AccessLevel::Browse => 1,
        AccessLevel::Read => 8,
        AccessLevel::Write => 16,
        AccessLevel::Command => 24,
        AccessLevel::Config => 32,
        AccessLevel::Service => 40,
        AccessLevel::SuperService => 48,
        AccessLevel::Developer => 56,
        AccessLevel::Superuser => 63,
    }
}

/// The level a wire integer denotes; an unknown number reads as Browse.
pub open spec fn spec_level_from(i: i64) -> AccessLevel {
    if i == 1 {
        AccessLevel::Browse
    } else if i == 8 {
        AccessLevel::Read
    } else if i == 16 {
        AccessLevel::Write
    } else if i == 24 {
        AccessLevel::Command
    } else if i == 32 {
        AccessLevel::Config
    } else if i == 40 {
        AccessLevel::Service
    } else if i == 48 {
        AccessLevel::SuperService
    } else if i == 56 {
        AccessLevel::Developer
    } else if i == 63 {
        AccessLevel::Superuser
    } else {
        AccessLevel::Browse
    }
}

impl AccessLevel {
    /// The numeric level of the wire protocol.
    pub fn level_num(&self) -> (n: u8)
        ensures
            n == spec_level_num(*self),
    {
        match self {
            AccessLevel::Browse => 1,
            AccessLevel::Read => 8,
            AccessLevel::Write => 16,
            AccessLevel::Command => 24,
            AccessLevel::Config => 32,
            AccessLevel::Service => 40,
            AccessLevel::SuperService => 48,
            AccessLevel::Developer => 56,
            AccessLevel::Superuser => 63,
        }
    }

    /// Reads a wire integer back as a level, Browse when unknown.
    pub fn from_num(i: i64) -> (a: AccessLevel)
        ensures
            a == spec_level_from(i),
    {
        if i == 1 {
            AccessLevel::Browse
        } else if i == 8 {
            AccessLevel::Read
        } else if i == 16 {
            AccessLevel::Write
        } else if i == 24 {
            AccessLevel::Command
        } else if i == 32 {
            AccessLevel::Config
        } else if i == 40 {
            AccessLevel::Service
        } else if i == 48 {
            AccessLevel::SuperService
        } else if i == 56 {
            AccessLevel::Developer
        } else if i == 63 {
            AccessLevel::Superuser
        } else {
            AccessLevel::Browse
        }
    }
}

/// One method's metadata: name, flags, needed access level, parameter and
/// result signatures, and its signal definitions.
#[derive(Debug)]
pub struct MetaMethod {
    pub name: String,
    pub flags: u32,
    pub access: AccessLevel,
    pub param: String,
    pub result: String,
    pub signals: Vec<(String, Option<String>)>,
}

/// The mathematical model of a method descriptor.
#[verifier::ext_equal]
pub struct MetaMethodV {
    pub name: Seq<char>,
    pub flags: u32,
    pub access: AccessLevel,
    pub param: Seq<char>,
    pub result: Seq<char>,
    pub signals: Seq<(Seq<char>, Option<Seq<char>>)>,
}

impl View for MetaMethod {
    type V = MetaMethodV;

    open spec fn view(&self) -> MetaMethodV {
        MetaMethodV {
            name: self.name@,
            flags: self.flags,
            access: self.access,
            param: self.param@,
            result: self.result@,
            signals: signals_view(self.signals@),
        }
    }
}

/// The models of a descriptor's signal list.
pub open spec fn signals_view(s: Seq<(String, Option<String>)>) -> Seq<
    (Seq<char>, Option<Seq<char>>),
> {
    s.map_values(
        |p: (String, Option<String>)|
            (
                p.0@,
                match p.1 {
                    Some(t) => Some(t@),
                    None => None,
                },
            ),
    )
}

/// The models of a signal map as the wire carries it.
pub open spec fn spec_signals_of(entries: Seq<(String, RpcValue)>) -> Seq<
    (Seq<char>, Option<Seq<char>>),
> {
    entries.map_values(|p: (String, RpcValue)| spec_signal_entry(p))
}

impl MetaMethod {
    /// A descriptor with no signals, as the static method tables use.
    pub fn new_static(name: &str, flags: u32, access: AccessLevel, param: &str, result: &str) -> (
        m: MetaMethod)
        ensures
            m@.name == name@,
            m@.flags == flags,
            m@.access == access,
            m@.param == param@,
            m@.result == result@,
            m@.signals.len() == 0,
    {
        let m = MetaMethod {
            name: <String as vstd::string::StringExecFns>::from_str(name),
            flags,
            access,
            param: <String as vstd::string::StringExecFns>::from_str(param),
            result: <String as vstd::string::StringExecFns>::from_str(result),
            signals: Vec::new(),
        };
        assert(m@.signals =~= Seq::<(Seq<char>, Option<Seq<char>>)>::empty());
        m
    }
}

/// The wire indices of the attributes a `dir` result lists for a method.
pub open spec fn attr_or_null(v: RpcValue, key: i64) -> RpcValue {
    match spec_get_ikey(v, key) {
        Some(x) => x,
        None => RpcValue::Null,
    }
}

/// A wire integer read as a flag word: in range it is itself, else zero.
pub open spec fn spec_as_u32(v: RpcValue) -> u32 {
    if 0 <= spec_as_i64(v) <= u32::MAX {
        spec_as_i64(v) as u32
    } else {
        0
    }
}

/// A signal map entry: a string value is kept, any other shape reads as a
/// signal without a parameter type.
pub open spec fn spec_signal_entry(p: (String, RpcValue)) -> (Seq<char>, Option<Seq<char>>) {
    (
        p.0@,
        match p.1 {
            RpcValue::Str(s) => Some(s@),
            _ => None,
        },
    )
}

/// How a method descriptor reads out of one element of a remote `dir`
/// result: name at attribute 1, flags at 2, parameter and result signatures
/// at 3 and 4, access level at 5, signal definitions at 6.
pub open spec fn spec_metamethod_from(v: RpcValue) -> MetaMethodV {
    MetaMethodV {
        name: spec_as_str(attr_or_null(v, 1)),
        flags: spec_as_u32(attr_or_null(v, 2)),
        access: spec_level_from(spec_as_i64(attr_or_null(v, 5))),
        param: spec_as_str(attr_or_null(v, 3)),
        result: spec_as_str(attr_or_null(v, 4)),
        signals: match attr_or_null(v, 6) {
            RpcValue::StrMap(entries) => spec_signals_of(entries@),
            _ => Seq::empty(),
        },
    }
}

/// Decodes one method descriptor from a remote `dir` result element.
pub fn metamethod_from_rpcvalue(value: &RpcValue) -> (m: MetaMethod)
    ensures
        m@ == spec_metamethod_from(*value),
{
    proof {
        reveal_strlit("");
    }
    let name = match value.get_ikey(1) {
        Some(v) => <String as vstd::string::StringExecFns>::from_str(v.as_str()),
        None => String::new(),
    };
    let flags = match value.get_ikey(2) {
        Some(v) => {
            let i = v.as_i64();
            if 0 <= i && i <= u32::MAX as i64 {
                i as u32
            } else {
                0
            }
        },
        None => 0,
    };
    let access = match value.get_ikey(5) {
        Some(v) => AccessLevel::from_num(v.as_i64()),
        None => AccessLevel::from_num(0),
    };
    let param = match value.get_ikey(3) {
        Some(v) => <String as vstd::string::StringExecFns>::from_str(v.as_str()),
        None => String::new(),
    };
    let result = match value.get_ikey(4) {
        Some(v) => <String as vstd::string::StringExecFns>::from_str(v.as_str()),
        None => String::new(),
    };
    let mut signals: Vec<(String, Option<String>)> = Vec::new();
    match value.get_ikey(6) {
        Some(sig) => {
            match sig {
                RpcValue::StrMap(entries) => {
                    let ghost es = entries@;
                    let mut i: usize = 0;
                    while i < entries.len()
                        invariant
                            i <= entries@.len(),
                            es == entries@,
                            signals@.len() == i,
                            signals_view(signals@) == spec_signals_of(es.take(i as int)),
                        decreases entries@.len() - i,
                    {
                        let ghost sig_before = signals@;
                        let pv: Option<String> = match &entries[i].1 {
                            RpcValue::Str(s) => Some(s.clone()),
                            _ => None,
                        };
                        signals.push((entries[i].0.clone(), pv));
                        proof {
                            assert forall|j: int|
                                0 <= j < signals@.len() implies signals_view(signals@)[j]
                                == spec_signals_of(es.take(i + 1))[j] by {
                                if j < i {
                                    assert(signals@[j] == sig_before[j]);
                                    assert(signals_view(sig_before)[j] == spec_signals_of(
                                        es.take(i as int),
                                    )[j]);
                                    assert(es.take(i as int)[j] == es[j]);
                                    assert(es.take(i + 1)[j] == es[j]);
                                } else {
                                    assert(es.take(i + 1)[j] == es[j]);
                                }
                            }
                            assert(signals_view(signals@) =~= spec_signals_of(es.take(i + 1)));
                        }
                        i = i + 1;
                    }
                    proof {
                        assert(es.take(es.len() as int) =~= es);
                    }
                },
                _ => {},
            }
        },
        None => {},
    }
    let m = MetaMethod { name, flags, access, param, result, signals };
    proof {
        assert(m@ =~= spec_metamethod_from(*value));
    }
    m
}

/// Whether a method table lists a method under `name`.
pub fn table_has_method(methods: &Vec<MetaMethod>, name: &str) -> (b: bool)
    ensures
        b == spec_table_has(methods@, name@),
{
    let mut i: usize = 0;
    while i < methods.len()
        invariant
            i <= methods@.len(),
            forall|j: int| 0 <= j < i ==> (#[trigger] methods@[j])@.name != name@,
        decreases methods@.len() - i,
    {
        if crate::text::str_eq(methods[i].name.as_str(), name) {
            assert((#[trigger] methods@[i as int])@.name == name@);
            return true;
        }
        i = i + 1;
    }
    false
}

/// Whether some descriptor in the table carries `name`.
pub open spec fn spec_table_has(methods: Seq<MetaMethod>, name: Seq<char>) -> bool {
    exists|j: int| 0 <= j < methods.len() && (#[trigger] methods[j])@.name == name
}

} // verus!
