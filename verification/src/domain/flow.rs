//! Flow nodes of the root surface: port identifiers, node signatures with
//! their validation, and the default signatures of transforms, flow-control
//! nodes and outputs.

use vstd::prelude::*;

use super::program::ContainerId;
use super::rational::{spec_integer, Rational};
use crate::collections::{OrderedKey, SortedMap};
use crate::text::{
    compare_str, lemma_seq_lt_irreflexive, lemma_seq_lt_total, lemma_seq_lt_transitive, owned,
    seq_lt,
};

verus! {

/// A side of a node tile.
#[derive(Debug, Clone, Copy, PartialEq, Eq, PartialOrd, Ord, Hash, Structural)]
pub enum Side {
    Top,
    Right,
    Bottom,
    Left,
}

/// The time transforms a root node can apply.
#[derive(Debug, Clone, Copy, PartialEq, Eq, Structural)]
pub enum TransformKind {
    Slow,
    Fast,
    Rev,
    Transpose,
    Gain,
    Attack,
    Degrade,
}

/// The flow-control nodes that combine or split streams.
#[derive(Debug, Clone, Copy, PartialEq, Eq, Structural)]
pub enum FlowControlKind {
    Layer,
    Merge,
    Mix,
    Split,
    Mask,
    Switch,
    Route,
    Choice,
}

/// What an input contributes to its node.
#[derive(Debug, Clone, Copy, PartialEq, Eq, Structural)]
pub enum NodeInputRole {
    Main,
    Aux,
    Control,
    Mask,
    Mix,
    Choice,
    Route,
    Sidechain,
}

/// Whether an input socket must be connected.
#[derive(Debug, Clone, Copy, PartialEq, Eq, Structural)]
pub enum ConnectionRule {
    Required,
    Optional,
}

/// How many members a port group may have.
#[derive(Debug, Clone, Copy, PartialEq, Eq, Structural)]
pub enum PortCountRule {
    ZeroOrMore,
    OneOrMore,
    Exactly(u32),
    Range { min: u32, max: u32 },
}

impl PortCountRule {
    /// A count range; refused when `min > max`.
    pub fn range(min: u32, max: u32) -> (r: Result<Self, String>)
        ensures
            min <= max ==> r == Ok::<PortCountRule, String>(PortCountRule::Range { min, max }),
            min > max ==> (r matches Err(e) && e@ == "port count range requires min <= max"@),
    {
        if min > max {
            Err(owned("port count range requires min <= max"))
        } else {
            Ok(PortCountRule::Range { min, max })
        }
    }
}

/// The kind of stream a port carries.
#[derive(Debug, Clone, Copy, PartialEq, Eq, Structural)]
pub enum StreamShape {
    Any,
    NotePattern,
    ScalarPattern,
    ControlPattern,
    EventPattern,
}

/// The name of an input socket.
#[derive(Debug, PartialEq, Eq, PartialOrd, Ord, Hash)]
pub struct InputPort(pub String);

/// The name of an output socket.
#[derive(Debug, PartialEq, Eq, PartialOrd, Ord, Hash)]
pub struct OutputPort(pub String);

/// The name of a port group.
#[derive(Debug, PartialEq, Eq, PartialOrd, Ord, Hash)]
pub struct PortGroupId(pub String);

/// The name of a member of a port group.
#[derive(Debug, PartialEq, Eq, PartialOrd, Ord, Hash)]
pub struct PortMemberId(pub String);

impl View for InputPort {
    type V = Seq<char>;

    open spec fn view(&self) -> Seq<char> {
        self.0@
    }
}

impl View for OutputPort {
    type V = Seq<char>;

    open spec fn view(&self) -> Seq<char> {
        self.0@
    }
}

impl View for PortGroupId {
    type V = Seq<char>;

    open spec fn view(&self) -> Seq<char> {
        self.0@
    }
}

impl View for PortMemberId {
    type V = Seq<char>;

    open spec fn view(&self) -> Seq<char> {
        self.0@
    }
}

impl Clone for InputPort {
    fn clone(&self) -> (r: Self)
        ensures
            r == *self,
    {
        InputPort(self.0.clone())
    }
}

impl Clone for OutputPort {
    fn clone(&self) -> (r: Self)
        ensures
            r == *self,
    {
        OutputPort(self.0.clone())
    }
}

impl Clone for PortGroupId {
    fn clone(&self) -> (r: Self)
        ensures
            r == *self,
    {
        PortGroupId(self.0.clone())
    }
}

impl Clone for PortMemberId {
    fn clone(&self) -> (r: Self)
        ensures
            r == *self,
    {
        PortMemberId(self.0.clone())
    }
}

impl InputPort {
    pub fn new(value: &str) -> (r: Self)
        ensures
            r@ == value@,
    {
        InputPort(owned(value))
    }
}

impl OutputPort {
    pub fn new(value: &str) -> (r: Self)
        ensures
            r@ == value@,
    {
        OutputPort(owned(value))
    }
}

impl PortGroupId {
    pub fn new(value: &str) -> (r: Self)
        ensures
            r@ == value@,
    {
        PortGroupId(owned(value))
    }
}

impl PortMemberId {
    pub fn new(value: &str) -> (r: Self)
        ensures
            r@ == value@,
    {
        PortMemberId(owned(value))
    }
}

impl OrderedKey for PortGroupId {
    open spec fn key_lt(a: Seq<char>, b: Seq<char>) -> bool {
        seq_lt(a, b)
    }

    proof fn lemma_key_lt_irreflexive(a: Seq<char>) {
        lemma_seq_lt_irreflexive(a);
    }

    proof fn lemma_key_lt_transitive(a: Seq<char>, b: Seq<char>, c: Seq<char>) {
        lemma_seq_lt_transitive(a, b, c);
    }

    proof fn lemma_key_lt_total(a: Seq<char>, b: Seq<char>) {
        lemma_seq_lt_total(a, b);
    }

    fn compare_key(&self, other: &Self) -> (r: i8) {
        compare_str(self.0.as_str(), other.0.as_str())
    }

    fn clone_key(&self) -> (r: Self) {
        self.clone()
    }
}

/// What an unconnected input socket plays instead.
#[derive(Debug, Clone, Copy, PartialEq, Eq, Structural)]
pub enum DefaultStreamBehavior {
    ConstantScalar { value: Rational },
}

impl DefaultStreamBehavior {
    pub fn shape(&self) -> (r: StreamShape)
        ensures
            r == StreamShape::ScalarPattern,
    {
        match self {
            DefaultStreamBehavior::ConstantScalar { .. } => StreamShape::ScalarPattern,
        }
    }
}

#[derive(Debug, Clone, PartialEq, Eq)]
pub struct InputSocketSpec {
    pub port: InputPort,
    pub role: NodeInputRole,
    pub shape: StreamShape,
    pub connection: ConnectionRule,
    pub side: Option<Side>,
    pub default: Option<DefaultStreamBehavior>,
}

#[derive(Debug, Clone, PartialEq, Eq)]
pub struct InputGroupSpec {
    pub group: PortGroupId,
    pub role: NodeInputRole,
    pub shape: StreamShape,
    pub count: PortCountRule,
}

#[derive(Debug, Clone, PartialEq, Eq)]
pub struct OutputSocketSpec {
    pub port: OutputPort,
    pub shape: StreamShape,
    pub side: Option<Side>,
}

#[derive(Debug, Clone, PartialEq, Eq)]
pub struct OutputGroupSpec {
    pub group: PortGroupId,
    pub shape: StreamShape,
    pub count: PortCountRule,
}

/// The ports a node exposes.
#[derive(Debug, Clone, PartialEq, Eq, Default)]
pub struct NodeSignature {
    pub input_sockets: Vec<InputSocketSpec>,
    pub input_groups: Vec<InputGroupSpec>,
    pub output_sockets: Vec<OutputSocketSpec>,
    pub output_groups: Vec<OutputGroupSpec>,
}

/// The socket declares a default stream whose shape differs from its own.
pub open spec fn bad_default(s: InputSocketSpec) -> bool {
    s.default matches Some(d) && StreamShape::ScalarPattern != s.shape
}

/// No two ids are equal.
pub open spec fn ids_unique(ids: Seq<Seq<char>>) -> bool {
    forall|i: int, j: int| 0 <= i < j < ids.len() ==> ids[i] != ids[j]
}

/// No id of `a` is an id of `b`.
pub open spec fn ids_disjoint(a: Seq<Seq<char>>, b: Seq<Seq<char>>) -> bool {
    forall|i: int, j: int| 0 <= i < a.len() && 0 <= j < b.len() ==> a[i] != b[j]
}

pub open spec fn input_socket_ids(v: Seq<InputSocketSpec>) -> Seq<Seq<char>> {
    v.map_values(|s: InputSocketSpec| s.port@)
}

pub open spec fn input_group_ids(v: Seq<InputGroupSpec>) -> Seq<Seq<char>> {
    v.map_values(|s: InputGroupSpec| s.group@)
}

pub open spec fn output_socket_ids(v: Seq<OutputSocketSpec>) -> Seq<Seq<char>> {
    v.map_values(|s: OutputSocketSpec| s.port@)
}

pub open spec fn output_group_ids(v: Seq<OutputGroupSpec>) -> Seq<Seq<char>> {
    v.map_values(|s: OutputGroupSpec| s.group@)
}

/// The message for a socket whose default stream has the wrong shape.
pub open spec fn default_shape_message(port: Seq<char>) -> Seq<char> {
    "default stream for socket '"@ + port + "' does not match declared shape"@
}

/// The index of the first socket with a mismatched default stream.
pub open spec fn first_bad_default(v: Seq<InputSocketSpec>) -> int {
    choose|i: int| 0 <= i < v.len() && bad_default(v[i]) && forall|j: int| 0 <= j < i ==> !bad_default(#[trigger] v[j])
}

/// The first problem `NodeSignature::new` reports, in the order it checks:
/// default-stream shapes, duplicate ids in each of the four lists, then
/// socket/group id collisions on the input side and on the output side.
pub open spec fn spec_signature_error(
    is: Seq<InputSocketSpec>,
    ig: Seq<InputGroupSpec>,
    os: Seq<OutputSocketSpec>,
    og: Seq<OutputGroupSpec>,
) -> Option<Seq<char>> {
    if exists|i: int| 0 <= i < is.len() && bad_default(#[trigger] is[i]) {
        Some(default_shape_message(is[first_bad_default(is)].port@))
    } else if !ids_unique(input_socket_ids(is)) {
        Some("duplicate input socket id"@)
    } else if !ids_unique(input_group_ids(ig)) {
        Some("duplicate input group id"@)
    } else if !ids_unique(output_socket_ids(os)) {
        Some("duplicate output socket id"@)
    } else if !ids_unique(output_group_ids(og)) {
        Some("duplicate output group id"@)
    } else if !ids_disjoint(input_socket_ids(is), input_group_ids(ig)) {
        Some("input socket id collides with input group id"@)
    } else if !ids_disjoint(output_socket_ids(os), output_group_ids(og)) {
        Some("output socket id collides with output group id"@)
    } else {
        None
    }
}

/// Whether the ids hold a repeat.
fn has_duplicate(ids: &Vec<&str>) -> (r: bool)
    ensures
        r == !ids_unique(ids@.map_values(|s: &str| s@)),
{
    let ghost v = ids@.map_values(|s: &str| s@);
    let n = ids.len();
    let mut i: usize = 0;
    while i < n
        invariant
            n == ids@.len(),
            v == ids@.map_values(|s: &str| s@),
            i <= n,
            forall|a: int, b: int| 0 <= a < b < n && a < i ==> v[a] != v[b],
        decreases n - i,
    {
        let mut j: usize = i + 1;
        while j < n
            invariant
                n == ids@.len(),
                v == ids@.map_values(|s: &str| s@),
                i < n,
                i + 1 <= j <= n,
                forall|a: int, b: int| 0 <= a < b < n && a < i ==> v[a] != v[b],
                forall|b: int| i < b < j ==> v[i as int] != v[b],
            decreases n - j,
        {
            if crate::text::str_eq(ids[i], ids[j]) {
                proof {
                    assert(v[i as int] == v[j as int]);
                }
                return true;
            }
            j = j + 1;
        }
        i = i + 1;
    }
    false
}

/// Whether some id appears in both lists.
fn has_collision(a: &Vec<&str>, b: &Vec<&str>) -> (r: bool)
    ensures
        r == !ids_disjoint(a@.map_values(|s: &str| s@), b@.map_values(|s: &str| s@)),
{
    let ghost va = a@.map_values(|s: &str| s@);
    let ghost vb = b@.map_values(|s: &str| s@);
    let mut i: usize = 0;
    while i < a.len()
        invariant
            va == a@.map_values(|s: &str| s@),
            vb == b@.map_values(|s: &str| s@),
            i <= a@.len(),
            forall|x: int, y: int| 0 <= x < i && 0 <= y < vb.len() ==> va[x] != vb[y],
        decreases a@.len() - i,
    {
        let mut j: usize = 0;
        while j < b.len()
            invariant
                va == a@.map_values(|s: &str| s@),
                vb == b@.map_values(|s: &str| s@),
                i < a@.len(),
                j <= b@.len(),
                forall|x: int, y: int| 0 <= x < i && 0 <= y < vb.len() ==> va[x] != vb[y],
                forall|y: int| 0 <= y < j ==> va[i as int] != vb[y],
            decreases b@.len() - j,
        {
            if crate::text::str_eq(a[i], b[j]) {
                proof {
                    assert(va[i as int] == vb[j as int]);
                }
                return true;
            }
            j = j + 1;
        }
        i = i + 1;
    }
    false
}

fn input_socket_id_list(v: &Vec<InputSocketSpec>) -> (r: Vec<&str>)
    ensures
        r@.map_values(|s: &str| s@) == input_socket_ids(v@),
{
    let mut r: Vec<&str> = Vec::new();
    let mut i: usize = 0;
    while i < v.len()
        invariant
            i <= v@.len(),
            r@.map_values(|s: &str| s@) == input_socket_ids(v@).take(i as int),
        decreases v@.len() - i,
    {
        let ghost before = r@;
        let id = v[i].port.0.as_str();
        r.push(id);
        proof {
            assert(r@.map_values(|s: &str| s@) =~= before.map_values(|s: &str| s@).push(id@));
            assert(input_socket_ids(v@).take(i + 1) =~= input_socket_ids(v@).take(i as int).push(v@[i as int].port@));
        }
        i = i + 1;
    }
    proof {
        assert(input_socket_ids(v@).take(i as int) =~= input_socket_ids(v@));
    }
    r
}

fn input_group_id_list(v: &Vec<InputGroupSpec>) -> (r: Vec<&str>)
    ensures
        r@.map_values(|s: &str| s@) == input_group_ids(v@),
{
    let mut r: Vec<&str> = Vec::new();
    let mut i: usize = 0;
    while i < v.len()
        invariant
            i <= v@.len(),
            r@.map_values(|s: &str| s@) == input_group_ids(v@).take(i as int),
        decreases v@.len() - i,
    {
        let ghost before = r@;
        let id = v[i].group.0.as_str();
        r.push(id);
        proof {
            assert(r@.map_values(|s: &str| s@) =~= before.map_values(|s: &str| s@).push(id@));
            assert(input_group_ids(v@).take(i + 1) =~= input_group_ids(v@).take(i as int).push(v@[i as int].group@));
        }
        i = i + 1;
    }
    proof {
        assert(input_group_ids(v@).take(i as int) =~= input_group_ids(v@));
    }
    r
}

fn output_socket_id_list(v: &Vec<OutputSocketSpec>) -> (r: Vec<&str>)
    ensures
        r@.map_values(|s: &str| s@) == output_socket_ids(v@),
{
    let mut r: Vec<&str> = Vec::new();
    let mut i: usize = 0;
    while i < v.len()
        invariant
            i <= v@.len(),
            r@.map_values(|s: &str| s@) == output_socket_ids(v@).take(i as int),
        decreases v@.len() - i,
    {
        let ghost before = r@;
        let id = v[i].port.0.as_str();
        r.push(id);
        proof {
            assert(r@.map_values(|s: &str| s@) =~= before.map_values(|s: &str| s@).push(id@));
            assert(output_socket_ids(v@).take(i + 1) =~= output_socket_ids(v@).take(i as int).push(v@[i as int].port@));
        }
        i = i + 1;
    }
    proof {
        assert(output_socket_ids(v@).take(i as int) =~= output_socket_ids(v@));
    }
    r
}

fn output_group_id_list(v: &Vec<OutputGroupSpec>) -> (r: Vec<&str>)
    ensures
        r@.map_values(|s: &str| s@) == output_group_ids(v@),
{
    let mut r: Vec<&str> = Vec::new();
    let mut i: usize = 0;
    while i < v.len()
        invariant
            i <= v@.len(),
            r@.map_values(|s: &str| s@) == output_group_ids(v@).take(i as int),
        decreases v@.len() - i,
    {
        let ghost before = r@;
        let id = v[i].group.0.as_str();
        r.push(id);
        proof {
            assert(r@.map_values(|s: &str| s@) =~= before.map_values(|s: &str| s@).push(id@));
            assert(output_group_ids(v@).take(i + 1) =~= output_group_ids(v@).take(i as int).push(v@[i as int].group@));
        }
        i = i + 1;
    }
    proof {
        assert(output_group_ids(v@).take(i as int) =~= output_group_ids(v@));
    }
    r
}

/// The first socket whose default stream has the wrong shape, if any.
fn validate_socket_defaults(sockets: &Vec<InputSocketSpec>) -> (r: Result<(), String>)
    ensures
        match r {
            Ok(()) => forall|i: int| 0 <= i < sockets@.len() ==> !bad_default(#[trigger] sockets@[i]),
            Err(e) => (exists|i: int| 0 <= i < sockets@.len() && bad_default(#[trigger] sockets@[i]))
                && e@ == default_shape_message(sockets@[first_bad_default(sockets@)].port@),
        },
{
    let mut i: usize = 0;
    while i < sockets.len()
        invariant
            i <= sockets@.len(),
            forall|j: int| 0 <= j < i ==> !bad_default(#[trigger] sockets@[j]),
        decreases sockets@.len() - i,
    {
        let socket = &sockets[i];
        match &socket.default {
            Some(default) => {
                if default.shape() != socket.shape {
                    proof {
                        let f = first_bad_default(sockets@);
                        assert(bad_default(sockets@[i as int]));
                        assert(f == i) by {
                            if f < i {
                                assert(!bad_default(sockets@[f]));
                            }
                            if f > i {
                                assert(!bad_default(sockets@[i as int]));
                            }
                        }
                    }
                    let mut message = owned("default stream for socket '");
                    message.append(socket.port.0.as_str());
                    message.append("' does not match declared shape");
                    return Err(message);
                }
            },
            None => {},
        }
        i = i + 1;
    }
    Ok(())
}

impl NodeSignature {
    /// A signature from its four port lists, refused with the first problem
    /// found (see `spec_signature_error`).
    pub fn new(
        input_sockets: Vec<InputSocketSpec>,
        input_groups: Vec<InputGroupSpec>,
        output_sockets: Vec<OutputSocketSpec>,
        output_groups: Vec<OutputGroupSpec>,
    ) -> (r: Result<Self, String>)
        ensures
            match spec_signature_error(
                input_sockets@,
                input_groups@,
                output_sockets@,
                output_groups@,
            ) {
                None => r matches Ok(sig) && sig.input_sockets == input_sockets && sig.input_groups
                    == input_groups && sig.output_sockets == output_sockets && sig.output_groups
                    == output_groups,
                Some(m) => r matches Err(e) && e@ == m,
            },
    {
        match validate_socket_defaults(&input_sockets) {
            Ok(()) => {},
            Err(e) => {
                return Err(e);
            },
        }
        let is_ids = input_socket_id_list(&input_sockets);
        let ig_ids = input_group_id_list(&input_groups);
        let os_ids = output_socket_id_list(&output_sockets);
        let og_ids = output_group_id_list(&output_groups);
        if has_duplicate(&is_ids) {
            return Err(owned("duplicate input socket id"));
        }
        if has_duplicate(&ig_ids) {
            return Err(owned("duplicate input group id"));
        }
        if has_duplicate(&os_ids) {
            return Err(owned("duplicate output socket id"));
        }
        if has_duplicate(&og_ids) {
            return Err(owned("duplicate output group id"));
        }
        if has_collision(&is_ids, &ig_ids) {
            return Err(owned("input socket id collides with input group id"));
        }
        if has_collision(&os_ids, &og_ids) {
            return Err(owned("output socket id collides with output group id"));
        }
        Ok(NodeSignature { input_sockets, input_groups, output_sockets, output_groups })
    }

    /// The first input socket named `port`.
    pub fn input_socket(&self, port: &InputPort) -> (r: Option<&InputSocketSpec>)
        ensures
            match r {
                Some(s) => exists|i: int|
                    0 <= i < self.input_sockets@.len() && self.input_sockets@[i] == *s && s.port@
                        == port@ && forall|j: int|
                        0 <= j < i ==> #[trigger] self.input_sockets@[j].port@ != port@,
                None => forall|i: int|
                    0 <= i < self.input_sockets@.len() ==> #[trigger] self.input_sockets@[i].port@
                        != port@,
            },
    {
        let mut i: usize = 0;
        while i < self.input_sockets.len()
            invariant
                i <= self.input_sockets@.len(),
                forall|j: int| 0 <= j < i ==> #[trigger] self.input_sockets@[j].port@ != port@,
            decreases self.input_sockets@.len() - i,
        {
            if crate::text::str_eq(self.input_sockets[i].port.0.as_str(), port.0.as_str()) {
                return Some(&self.input_sockets[i]);
            }
            i = i + 1;
        }
        None
    }

    /// The first input group named `group`.
    pub fn input_group(&self, group: &PortGroupId) -> (r: Option<&InputGroupSpec>)
        ensures
            match r {
                Some(s) => exists|i: int|
                    0 <= i < self.input_groups@.len() && self.input_groups@[i] == *s && s.group@
                        == group@ && forall|j: int|
                        0 <= j < i ==> #[trigger] self.input_groups@[j].group@ != group@,
                None => forall|i: int|
                    0 <= i < self.input_groups@.len() ==> #[trigger] self.input_groups@[i].group@
                        != group@,
            },
    {
        let mut i: usize = 0;
        while i < self.input_groups.len()
            invariant
                i <= self.input_groups@.len(),
                forall|j: int| 0 <= j < i ==> #[trigger] self.input_groups@[j].group@ != group@,
            decreases self.input_groups@.len() - i,
        {
            if crate::text::str_eq(self.input_groups[i].group.0.as_str(), group.0.as_str()) {
                return Some(&self.input_groups[i]);
            }
            i = i + 1;
        }
        None
    }

    /// The first output socket named `port`.
    pub fn output_socket(&self, port: &OutputPort) -> (r: Option<&OutputSocketSpec>)
        ensures
            match r {
                Some(s) => exists|i: int|
                    0 <= i < self.output_sockets@.len() && self.output_sockets@[i] == *s && s.port@
                        == port@ && forall|j: int|
                        0 <= j < i ==> #[trigger] self.output_sockets@[j].port@ != port@,
                None => forall|i: int|
                    0 <= i < self.output_sockets@.len() ==> #[trigger] self.output_sockets@[i].port@
                        != port@,
            },
    {
        let mut i: usize = 0;
        while i < self.output_sockets.len()
            invariant
                i <= self.output_sockets@.len(),
                forall|j: int| 0 <= j < i ==> #[trigger] self.output_sockets@[j].port@ != port@,
            decreases self.output_sockets@.len() - i,
        {
            if crate::text::str_eq(self.output_sockets[i].port.0.as_str(), port.0.as_str()) {
                return Some(&self.output_sockets[i]);
            }
            i = i + 1;
        }
        None
    }

    /// The first output group named `group`.
    pub fn output_group(&self, group: &PortGroupId) -> (r: Option<&OutputGroupSpec>)
        ensures
            match r {
                Some(s) => exists|i: int|
                    0 <= i < self.output_groups@.len() && self.output_groups@[i] == *s && s.group@
                        == group@ && forall|j: int|
                        0 <= j < i ==> #[trigger] self.output_groups@[j].group@ != group@,
                None => forall|i: int|
                    0 <= i < self.output_groups@.len() ==> #[trigger] self.output_groups@[i].group@
                        != group@,
            },
    {
        let mut i: usize = 0;
        while i < self.output_groups.len()
            invariant
                i <= self.output_groups@.len(),
                forall|j: int| 0 <= j < i ==> #[trigger] self.output_groups@[j].group@ != group@,
            decreases self.output_groups@.len() - i,
        {
            if crate::text::str_eq(self.output_groups[i].group.0.as_str(), group.0.as_str()) {
                return Some(&self.output_groups[i]);
            }
            i = i + 1;
        }
        None
    }
}

/// How a flow-control node combines, splits or selects streams.
#[derive(Debug, Clone, Copy, PartialEq, Eq, Structural)]
pub enum FlowControlPolicy {
    Layer,
    MergeAppend,
    MergeInterleave,
    MergePriority,
    MergeDeduplicate,
    MixFieldBlend,
    MixWeighted,
    MixGainAverage,
    SplitCopyToAll,
    SplitByIndexModulo,
    SplitByEventField,
    SplitByPitchRange { threshold_octave: i64 },
    MaskGate,
    MaskScale,
    MaskClip,
    MaskInvertGate,
    SwitchCycleIndex,
    SwitchControlValue,
    SwitchSeededRandom,
    RouteByEventField,
    RouteByIndexModulo,
    RouteByControlValue,
    RouteByLabel,
    ChoiceCycle,
    ChoiceSeededRandom,
    ChoiceWeighted,
}

/// The declared members of each input and output port group.
#[derive(Debug, Clone, PartialEq, Eq)]
pub struct GroupMembers {
    pub inputs: SortedMap<PortGroupId, Vec<PortMemberId>>,
    pub outputs: SortedMap<PortGroupId, Vec<PortMemberId>>,
}

impl Default for GroupMembers {
    fn default() -> (r: Self)
        ensures
            r.inputs.as_map() == Map::<Seq<char>, Vec<PortMemberId>>::empty(),
            r.outputs.as_map() == Map::<Seq<char>, Vec<PortMemberId>>::empty(),
            r.inputs.key_seq().len() == 0,
            r.outputs.key_seq().len() == 0,
    {
        GroupMembers { inputs: SortedMap::new(), outputs: SortedMap::new() }
    }
}

/// The member names of a group.
pub open spec fn member_ids(v: Vec<PortMemberId>) -> Seq<Seq<char>> {
    v@.map_values(|m: PortMemberId| m@)
}

/// Every group of the map lists each member name once.
pub open spec fn groups_valid(groups: Map<Seq<char>, Vec<PortMemberId>>) -> bool {
    forall|g: Seq<char>| #[trigger] groups.contains_key(g) ==> ids_unique(member_ids(groups[g]))
}

/// Every input and output group of `m` lists each member name once.
pub open spec fn group_members_valid(m: GroupMembers) -> bool {
    groups_valid(m.inputs.as_map()) && groups_valid(m.outputs.as_map())
}

fn members_have_duplicate(members: &Vec<PortMemberId>) -> (r: bool)
    ensures
        r == !ids_unique(member_ids(*members)),
{
    let ghost v = member_ids(*members);
    let n = members.len();
    let mut i: usize = 0;
    while i < n
        invariant
            n == members@.len(),
            v == member_ids(*members),
            i <= n,
            forall|a: int, b: int| 0 <= a < b < n && a < i ==> v[a] != v[b],
        decreases n - i,
    {
        let mut j: usize = i + 1;
        while j < n
            invariant
                n == members@.len(),
                v == member_ids(*members),
                i < n,
                i + 1 <= j <= n,
                forall|a: int, b: int| 0 <= a < b < n && a < i ==> v[a] != v[b],
                forall|b: int| i < b < j ==> v[i as int] != v[b],
            decreases n - j,
        {
            if crate::text::str_eq(members[i].0.as_str(), members[j].0.as_str()) {
                proof {
                    assert(v[i as int] == v[j as int]);
                }
                return true;
            }
            j = j + 1;
        }
        i = i + 1;
    }
    false
}

fn groups_have_duplicate(groups: &SortedMap<PortGroupId, Vec<PortMemberId>>) -> (r: bool)
    ensures
        r == !groups_valid(groups.as_map()),
{
    let n = groups.len();
    let mut i: usize = 0;
    while i < n
        invariant
            n == groups.value_seq().len(),
            n == groups.key_seq().len(),
            forall|k: int|
                #![trigger groups.key_seq()[k]]
                0 <= k < groups.key_seq().len() ==> groups.as_map().contains_key(groups.key_seq()[k])
                    && groups.as_map()[groups.key_seq()[k]] == groups.value_seq()[k],
            forall|g: Seq<char>|
                #[trigger] groups.as_map().contains_key(g) ==> exists|k: int|
                    0 <= k < groups.key_seq().len() && groups.key_seq()[k] == g,
            i <= n,
            forall|k: int| 0 <= k < i ==> ids_unique(member_ids(#[trigger] groups.value_seq()[k])),
        decreases n - i,
    {
        if members_have_duplicate(groups.value_at(i)) {
            proof {
                let k = groups.key_seq()[i as int];
                assert(groups.as_map().contains_key(k));
            }
            return true;
        }
        i = i + 1;
    }
    proof {
        assert forall|g: Seq<char>| #[trigger] groups.as_map().contains_key(g) implies ids_unique(
            member_ids(groups.as_map()[g]),
        ) by {
            let k = choose|k: int| 0 <= k < groups.key_seq().len() && groups.key_seq()[k] == g;
            assert(ids_unique(member_ids(groups.value_seq()[k])));
        }
    }
    false
}

impl GroupMembers {
    /// Refuses a group that lists the same member twice.
    pub fn validate(&self) -> (r: Result<(), String>)
        ensures
            r is Ok == group_members_valid(*self),
            r matches Err(e) ==> e@ == "duplicate declared group member"@,
    {
        if groups_have_duplicate(&self.inputs) || groups_have_duplicate(&self.outputs) {
            return Err(owned("duplicate declared group member"));
        }
        Ok(())
    }
}

pub open spec fn in_socket_is(
    s: InputSocketSpec,
    port: Seq<char>,
    role: NodeInputRole,
    shape: StreamShape,
    connection: ConnectionRule,
    side: Option<Side>,
    default: Option<DefaultStreamBehavior>,
) -> bool {
    &&& s.port@ == port
    &&& s.role == role
    &&& s.shape == shape
    &&& s.connection == connection
    &&& s.side == side
    &&& s.default == default
}

pub open spec fn out_socket_is(s: OutputSocketSpec, port: Seq<char>, shape: StreamShape, side: Option<Side>) -> bool {
    &&& s.port@ == port
    &&& s.shape == shape
    &&& s.side == side
}

pub open spec fn in_group_is(
    g: InputGroupSpec,
    group: Seq<char>,
    role: NodeInputRole,
    shape: StreamShape,
    count: PortCountRule,
) -> bool {
    &&& g.group@ == group
    &&& g.role == role
    &&& g.shape == shape
    &&& g.count == count
}

pub open spec fn out_group_is(g: OutputGroupSpec, group: Seq<char>, shape: StreamShape, count: PortCountRule) -> bool {
    &&& g.group@ == group
    &&& g.shape == shape
    &&& g.count == count
}

fn in_socket(
    port: &str,
    role: NodeInputRole,
    shape: StreamShape,
    connection: ConnectionRule,
    side: Option<Side>,
    default: Option<DefaultStreamBehavior>,
) -> (r: InputSocketSpec)
    ensures
        in_socket_is(r, port@, role, shape, connection, side, default),
{
    InputSocketSpec { port: InputPort::new(port), role, shape, connection, side, default }
}

fn out_socket(port: &str, shape: StreamShape, side: Option<Side>) -> (r: OutputSocketSpec)
    ensures
        out_socket_is(r, port@, shape, side),
{
    OutputSocketSpec { port: OutputPort::new(port), shape, side }
}

fn in_group(group: &str, role: NodeInputRole, shape: StreamShape, count: PortCountRule) -> (r:
    InputGroupSpec)
    ensures
        in_group_is(r, group@, role, shape, count),
{
    InputGroupSpec { group: PortGroupId::new(group), role, shape, count }
}

fn out_group(group: &str, shape: StreamShape, count: PortCountRule) -> (r: OutputGroupSpec)
    ensures
        out_group_is(r, group@, shape, count),
{
    OutputGroupSpec { group: PortGroupId::new(group), shape, count }
}

/// The constant scalar `v` as a default stream.
pub open spec fn constant_default(v: int) -> Option<DefaultStreamBehavior> {
    Some(DefaultStreamBehavior::ConstantScalar { value: spec_integer(v) })
}

/// The standard event output on the right.
pub open spec fn has_single_event_out(sig: NodeSignature) -> bool {
    &&& sig.output_sockets@.len() == 1
    &&& out_socket_is(sig.output_sockets@[0], "out"@, StreamShape::EventPattern, Some(Side::Right))
    &&& sig.output_groups@.len() == 0
}

/// The required event `main` input on the left.
pub open spec fn is_main_socket(s: InputSocketSpec) -> bool {
    in_socket_is(
        s,
        "main"@,
        NodeInputRole::Main,
        StreamShape::EventPattern,
        ConnectionRule::Required,
        Some(Side::Left),
        None,
    )
}

/// The signature each transform kind gets: a `main` event input on the left,
/// an optional scalar `factor` (default 2, for slow/fast) or `amount`
/// (default 1, for transpose/gain/attack/degrade) on top, and an event `out`
/// on the right; `rev` has no auxiliary input.
pub open spec fn transform_signature_is(sig: NodeSignature, kind: TransformKind) -> bool {
    &&& has_single_event_out(sig)
    &&& sig.input_groups@.len() == 0
    &&& match kind {
        TransformKind::Slow | TransformKind::Fast => {
            &&& sig.input_sockets@.len() == 2
            &&& is_main_socket(sig.input_sockets@[0])
            &&& in_socket_is(
                sig.input_sockets@[1],
                "factor"@,
                NodeInputRole::Aux,
                StreamShape::ScalarPattern,
                ConnectionRule::Optional,
                Some(Side::Top),
                constant_default(2),
            )
        },
        TransformKind::Rev => {
            &&& sig.input_sockets@.len() == 1
            &&& is_main_socket(sig.input_sockets@[0])
        },
        _ => {
            &&& sig.input_sockets@.len() == 2
            &&& is_main_socket(sig.input_sockets@[0])
            &&& in_socket_is(
                sig.input_sockets@[1],
                "amount"@,
                NodeInputRole::Aux,
                StreamShape::ScalarPattern,
                ConnectionRule::Optional,
                Some(Side::Top),
                constant_default(1),
            )
        },
    }
}

fn default_transform_signature(kind: TransformKind) -> (r: NodeSignature)
    ensures
        transform_signature_is(r, kind),
        spec_signature_error(r.input_sockets@, r.input_groups@, r.output_sockets@, r.output_groups@)
            is None,
{
    let mut input_sockets: Vec<InputSocketSpec> = Vec::new();
    input_sockets.push(
        in_socket(
            "main",
            NodeInputRole::Main,
            StreamShape::EventPattern,
            ConnectionRule::Required,
            Some(Side::Left),
            None,
        ),
    );
    match kind {
        TransformKind::Slow | TransformKind::Fast => {
            input_sockets.push(
                in_socket(
                    "factor",
                    NodeInputRole::Aux,
                    StreamShape::ScalarPattern,
                    ConnectionRule::Optional,
                    Some(Side::Top),
                    Some(
                        DefaultStreamBehavior::ConstantScalar { value: Rational::from_integer(2) },
                    ),
                ),
            );
        },
        TransformKind::Rev => {},
        TransformKind::Transpose | TransformKind::Gain | TransformKind::Attack
        | TransformKind::Degrade => {
            input_sockets.push(
                in_socket(
                    "amount",
                    NodeInputRole::Aux,
                    StreamShape::ScalarPattern,
                    ConnectionRule::Optional,
                    Some(Side::Top),
                    Some(
                        DefaultStreamBehavior::ConstantScalar { value: Rational::from_integer(1) },
                    ),
                ),
            );
        },
    }
    let mut output_sockets: Vec<OutputSocketSpec> = Vec::new();
    output_sockets.push(out_socket("out", StreamShape::EventPattern, Some(Side::Right)));
    let r = NodeSignature {
        input_sockets,
        input_groups: Vec::new(),
        output_sockets,
        output_groups: Vec::new(),
    };
    proof {
        reveal_strlit("main");
        reveal_strlit("factor");
        reveal_strlit("amount");
        let is = r.input_sockets@;
        assert(forall|i: int| 0 <= i < is.len() ==> !bad_default(#[trigger] is[i]));
        assert(input_socket_ids(is).len() == is.len());
        assert("main"@.len() == 4);
        assert("factor"@.len() == 6);
        assert("amount"@.len() == 6);
        if is.len() == 2 {
            assert(input_socket_ids(is)[0].len() != input_socket_ids(is)[1].len());
        }
        assert(ids_unique(input_socket_ids(is)));
        assert(ids_unique(input_group_ids(r.input_groups@)));
        assert(ids_unique(output_socket_ids(r.output_sockets@)));
        assert(ids_unique(output_group_ids(r.output_groups@)));
        assert(ids_disjoint(input_socket_ids(is), input_group_ids(r.input_groups@)));
        assert(ids_disjoint(output_socket_ids(r.output_sockets@), output_group_ids(r.output_groups@)));
    }
    r
}

/// A transform node with its kind's default signature.
#[derive(Debug, Clone, PartialEq, Eq)]
pub struct TransformNode {
    pub kind: TransformKind,
    pub signature: NodeSignature,
}

impl TransformNode {
    pub fn new(kind: TransformKind) -> (r: Self)
        ensures
            r.kind == kind,
            transform_signature_is(r.signature, kind),
    {
        TransformNode { kind, signature: default_transform_signature(kind) }
    }
}

pub open spec fn spec_default_policy(kind: FlowControlKind) -> FlowControlPolicy {
    match kind {
        FlowControlKind::Layer => FlowControlPolicy::Layer,
        FlowControlKind::Merge => FlowControlPolicy::MergeAppend,
        FlowControlKind::Mix => FlowControlPolicy::MixFieldBlend,
        FlowControlKind::Split => FlowControlPolicy::SplitByIndexModulo,
        FlowControlKind::Mask => FlowControlPolicy::MaskGate,
        FlowControlKind::Switch => FlowControlPolicy::SwitchCycleIndex,
        FlowControlKind::Route => FlowControlPolicy::RouteByIndexModulo,
        FlowControlKind::Choice => FlowControlPolicy::ChoiceCycle,
    }
}

fn default_flow_control_policy(kind: FlowControlKind) -> (r: FlowControlPolicy)
    ensures
        r == spec_default_policy(kind),
{
    match kind {
        FlowControlKind::Layer => FlowControlPolicy::Layer,
        FlowControlKind::Merge => FlowControlPolicy::MergeAppend,
        FlowControlKind::Mix => FlowControlPolicy::MixFieldBlend,
        FlowControlKind::Split => FlowControlPolicy::SplitByIndexModulo,
        FlowControlKind::Mask => FlowControlPolicy::MaskGate,
        FlowControlKind::Switch => FlowControlPolicy::SwitchCycleIndex,
        FlowControlKind::Route => FlowControlPolicy::RouteByIndexModulo,
        FlowControlKind::Choice => FlowControlPolicy::ChoiceCycle,
    }
}

/// The map holds exactly one group, `group`, listing `members`.
pub open spec fn single_group(m: Map<Seq<char>, Vec<PortMemberId>>, group: Seq<char>, members: Seq<Seq<char>>) -> bool {
    &&& m.dom() == set![group]
    &&& member_ids(m[group]) == members
}

/// The default group members of each flow-control kind: two stream inputs
/// (`a`, `b`) for layer/merge/mix (`streams`), switch (`candidates`) and choice
/// (`options`); two outputs for split (`even`, `odd` in `branches`) and route
/// (`left`, `right` in `routes`); none for mask.
pub open spec fn flow_members_is(m: GroupMembers, kind: FlowControlKind) -> bool {
    match kind {
        FlowControlKind::Layer | FlowControlKind::Merge | FlowControlKind::Mix => single_group(
            m.inputs.as_map(),
            "streams"@,
            seq!["a"@, "b"@],
        ) && m.outputs.as_map().dom().is_empty(),
        FlowControlKind::Split => m.inputs.as_map().dom().is_empty() && single_group(
            m.outputs.as_map(),
            "branches"@,
            seq!["even"@, "odd"@],
        ),
        FlowControlKind::Switch => single_group(
            m.inputs.as_map(),
            "candidates"@,
            seq!["a"@, "b"@],
        ) && m.outputs.as_map().dom().is_empty(),
        FlowControlKind::Route => m.inputs.as_map().dom().is_empty() && single_group(
            m.outputs.as_map(),
            "routes"@,
            seq!["left"@, "right"@],
        ),
        FlowControlKind::Choice => single_group(
            m.inputs.as_map(),
            "options"@,
            seq!["a"@, "b"@],
        ) && m.outputs.as_map().dom().is_empty(),
        FlowControlKind::Mask => m.inputs.as_map().dom().is_empty()
            && m.outputs.as_map().dom().is_empty(),
    }
}

fn two_members(a: &str, b: &str) -> (r: Vec<PortMemberId>)
    ensures
        member_ids(r) == seq![a@, b@],
{
    let mut v: Vec<PortMemberId> = Vec::new();
    v.push(PortMemberId::new(a));
    v.push(PortMemberId::new(b));
    proof {
        assert(member_ids(v) =~= seq![a@, b@]);
    }
    v
}

fn default_flow_control_members(kind: FlowControlKind) -> (r: GroupMembers)
    ensures
        flow_members_is(r, kind),
        group_members_valid(r),
{
    let mut members = GroupMembers::default();
    proof {
        reveal_strlit("a");
        reveal_strlit("b");
        reveal_strlit("even");
        reveal_strlit("odd");
        reveal_strlit("left");
        reveal_strlit("right");
        assert("a"@.len() == 1 && "b"@.len() == 1 && "a"@[0] != "b"@[0]);
        assert("even"@.len() != "odd"@.len());
        assert("left"@.len() != "right"@.len());
    }
    match kind {
        FlowControlKind::Layer | FlowControlKind::Merge | FlowControlKind::Mix => {
            members.inputs.insert(PortGroupId::new("streams"), two_members("a", "b"));
        },
        FlowControlKind::Split => {
            members.outputs.insert(PortGroupId::new("branches"), two_members("even", "odd"));
        },
        FlowControlKind::Switch => {
            members.inputs.insert(PortGroupId::new("candidates"), two_members("a", "b"));
        },
        FlowControlKind::Route => {
            members.outputs.insert(PortGroupId::new("routes"), two_members("left", "right"));
        },
        FlowControlKind::Choice => {
            members.inputs.insert(PortGroupId::new("options"), two_members("a", "b"));
        },
        FlowControlKind::Mask => {},
    }
    proof {
        assert(members.inputs.as_map().dom() =~= members.inputs.as_map().dom());
        if members.inputs.as_map().dom().len() == 0 {
        }
        assert(members.inputs.as_map().dom() =~= set!["streams"@] || members.inputs.as_map().dom()
            =~= set!["candidates"@] || members.inputs.as_map().dom() =~= set!["options"@]
            || members.inputs.as_map().dom() =~= Set::<Seq<char>>::empty());
        assert(members.outputs.as_map().dom() =~= set!["branches"@] || members.outputs.as_map().dom()
            =~= set!["routes"@] || members.outputs.as_map().dom() =~= Set::<Seq<char>>::empty());
    }
    members
}

/// The signature each flow-control kind gets (see the match arms below).
pub open spec fn flow_signature_is(sig: NodeSignature, kind: FlowControlKind) -> bool {
    match kind {
        FlowControlKind::Layer | FlowControlKind::Merge => {
            &&& sig.input_sockets@.len() == 0
            &&& sig.input_groups@.len() == 1
            &&& in_group_is(
                sig.input_groups@[0],
                "streams"@,
                NodeInputRole::Main,
                StreamShape::EventPattern,
                PortCountRule::OneOrMore,
            )
            &&& has_single_event_out(sig)
        },
        FlowControlKind::Mix => {
            &&& sig.input_groups@.len() == 1
            &&& in_group_is(
                sig.input_groups@[0],
                "streams"@,
                NodeInputRole::Mix,
                StreamShape::EventPattern,
                PortCountRule::OneOrMore,
            )
            &&& sig.input_sockets@.len() == 1
            &&& in_socket_is(
                sig.input_sockets@[0],
                "amount"@,
                NodeInputRole::Control,
                StreamShape::ScalarPattern,
                ConnectionRule::Optional,
                Some(Side::Top),
                None,
            )
            &&& has_single_event_out(sig)
        },
        FlowControlKind::Split => {
            &&& sig.input_sockets@.len() == 1
            &&& is_main_socket(sig.input_sockets@[0])
            &&& sig.input_groups@.len() == 0
            &&& sig.output_sockets@.len() == 0
            &&& sig.output_groups@.len() == 1
            &&& out_group_is(
                sig.output_groups@[0],
                "branches"@,
                StreamShape::EventPattern,
                PortCountRule::OneOrMore,
            )
        },
        FlowControlKind::Mask => {
            &&& sig.input_sockets@.len() == 2
            &&& is_main_socket(sig.input_sockets@[0])
            &&& in_socket_is(
                sig.input_sockets@[1],
                "mask"@,
                NodeInputRole::Mask,
                StreamShape::ControlPattern,
                ConnectionRule::Required,
                Some(Side::Top),
                None,
            )
            &&& sig.input_groups@.len() == 0
            &&& has_single_event_out(sig)
        },
        FlowControlKind::Switch => {
            &&& sig.input_groups@.len() == 1
            &&& in_group_is(
                sig.input_groups@[0],
                "candidates"@,
                NodeInputRole::Choice,
                StreamShape::EventPattern,
                PortCountRule::OneOrMore,
            )
            &&& sig.input_sockets@.len() == 1
            &&& in_socket_is(
                sig.input_sockets@[0],
                "control"@,
                NodeInputRole::Control,
                StreamShape::ScalarPattern,
                ConnectionRule::Optional,
                Some(Side::Top),
                None,
            )
            &&& has_single_event_out(sig)
        },
        FlowControlKind::Route => {
            &&& sig.input_sockets@.len() == 2
            &&& is_main_socket(sig.input_sockets@[0])
            &&& in_socket_is(
                sig.input_sockets@[1],
                "control"@,
                NodeInputRole::Control,
                StreamShape::ControlPattern,
                ConnectionRule::Optional,
                Some(Side::Top),
                None,
            )
            &&& sig.input_groups@.len() == 0
            &&& sig.output_sockets@.len() == 0
            &&& sig.output_groups@.len() == 1
            &&& out_group_is(
                sig.output_groups@[0],
                "routes"@,
                StreamShape::EventPattern,
                PortCountRule::OneOrMore,
            )
        },
        FlowControlKind::Choice => {
            &&& sig.input_groups@.len() == 1
            &&& in_group_is(
                sig.input_groups@[0],
                "options"@,
                NodeInputRole::Choice,
                StreamShape::EventPattern,
                PortCountRule::OneOrMore,
            )
            &&& sig.input_sockets@.len() == 1
            &&& in_socket_is(
                sig.input_sockets@[0],
                "control"@,
                NodeInputRole::Control,
                StreamShape::ScalarPattern,
                ConnectionRule::Optional,
                Some(Side::Top),
                None,
            )
            &&& has_single_event_out(sig)
        },
    }
}

fn main_socket() -> (r: InputSocketSpec)
    ensures
        is_main_socket(r),
{
    in_socket(
        "main",
        NodeInputRole::Main,
        StreamShape::EventPattern,
        ConnectionRule::Required,
        Some(Side::Left),
        None,
    )
}

fn event_out() -> (r: Vec<OutputSocketSpec>)
    ensures
        r@.len() == 1,
        out_socket_is(r@[0], "out"@, StreamShape::EventPattern, Some(Side::Right)),
{
    let mut v: Vec<OutputSocketSpec> = Vec::new();
    v.push(out_socket("out", StreamShape::EventPattern, Some(Side::Right)));
    v
}

fn default_flow_control_signature(kind: FlowControlKind) -> (r: NodeSignature)
    ensures
        flow_signature_is(r, kind),
        spec_signature_error(r.input_sockets@, r.input_groups@, r.output_sockets@, r.output_groups@)
            is None,
{
    let mut input_sockets: Vec<InputSocketSpec> = Vec::new();
    let mut input_groups: Vec<InputGroupSpec> = Vec::new();
    let mut output_sockets: Vec<OutputSocketSpec> = Vec::new();
    let mut output_groups: Vec<OutputGroupSpec> = Vec::new();
    match kind {
        FlowControlKind::Layer | FlowControlKind::Merge => {
            input_groups.push(
                in_group(
                    "streams",
                    NodeInputRole::Main,
                    StreamShape::EventPattern,
                    PortCountRule::OneOrMore,
                ),
            );
            output_sockets = event_out();
        },
        FlowControlKind::Mix => {
            input_groups.push(
                in_group(
                    "streams",
                    NodeInputRole::Mix,
                    StreamShape::EventPattern,
                    PortCountRule::OneOrMore,
                ),
            );
            input_sockets.push(
                in_socket(
                    "amount",
                    NodeInputRole::Control,
                    StreamShape::ScalarPattern,
                    ConnectionRule::Optional,
                    Some(Side::Top),
                    None,
                ),
            );
            output_sockets = event_out();
        },
        FlowControlKind::Split => {
            input_sockets.push(main_socket());
            output_groups.push(
                out_group("branches", StreamShape::EventPattern, PortCountRule::OneOrMore),
            );
        },
        FlowControlKind::Mask => {
            input_sockets.push(main_socket());
            input_sockets.push(
                in_socket(
                    "mask",
                    NodeInputRole::Mask,
                    StreamShape::ControlPattern,
                    ConnectionRule::Required,
                    Some(Side::Top),
                    None,
                ),
            );
            output_sockets = event_out();
        },
        FlowControlKind::Switch => {
            input_groups.push(
                in_group(
                    "candidates",
                    NodeInputRole::Choice,
                    StreamShape::EventPattern,
                    PortCountRule::OneOrMore,
                ),
            );
            input_sockets.push(
                in_socket(
                    "control",
                    NodeInputRole::Control,
                    StreamShape::ScalarPattern,
                    ConnectionRule::Optional,
                    Some(Side::Top),
                    None,
                ),
            );
            output_sockets = event_out();
        },
        FlowControlKind::Route => {
            input_sockets.push(main_socket());
            input_sockets.push(
                in_socket(
                    "control",
                    NodeInputRole::Control,
                    StreamShape::ControlPattern,
                    ConnectionRule::Optional,
                    Some(Side::Top),
                    None,
                ),
            );
            output_groups.push(
                out_group("routes", StreamShape::EventPattern, PortCountRule::OneOrMore),
            );
        },
        FlowControlKind::Choice => {
            input_groups.push(
                in_group(
                    "options",
                    NodeInputRole::Choice,
                    StreamShape::EventPattern,
                    PortCountRule::OneOrMore,
                ),
            );
            input_sockets.push(
                in_socket(
                    "control",
                    NodeInputRole::Control,
                    StreamShape::ScalarPattern,
                    ConnectionRule::Optional,
                    Some(Side::Top),
                    None,
                ),
            );
            output_sockets = event_out();
        },
    }
    let r = NodeSignature { input_sockets, input_groups, output_sockets, output_groups };
    proof {
        reveal_strlit("main");
        reveal_strlit("mask");
        reveal_strlit("control");
        reveal_strlit("amount");
        reveal_strlit("streams");
        reveal_strlit("candidates");
        reveal_strlit("options");
        reveal_strlit("out");
        reveal_strlit("branches");
        reveal_strlit("routes");
        assert("main"@.len() == 4 && "mask"@.len() == 4 && "main"@[2] != "mask"@[2]);
        assert("main"@.len() != "control"@.len());
        let is = r.input_sockets@;
        assert(forall|i: int| 0 <= i < is.len() ==> !bad_default(#[trigger] is[i]));
        if is.len() == 2 {
            assert(input_socket_ids(is)[0] != input_socket_ids(is)[1]);
        }
        assert(ids_unique(input_socket_ids(is)));
        assert(ids_unique(input_group_ids(r.input_groups@)));
        assert(ids_unique(output_socket_ids(r.output_sockets@)));
        assert(ids_unique(output_group_ids(r.output_groups@)));
        assert("amount"@.len() != "streams"@.len());
        assert("control"@.len() != "candidates"@.len());
        assert("control"@.len() == "options"@.len() && "control"@[0] != "options"@[0]);
        assert(ids_disjoint(input_socket_ids(is), input_group_ids(r.input_groups@)));
        assert(ids_disjoint(output_socket_ids(r.output_sockets@), output_group_ids(r.output_groups@)));
    }
    r
}

/// A flow-control node: its kind, signature, policy and declared group members.
#[derive(Debug, Clone, PartialEq, Eq)]
pub struct FlowControlNode {
    pub kind: FlowControlKind,
    pub signature: NodeSignature,
    pub policy: FlowControlPolicy,
    pub members: GroupMembers,
}

impl FlowControlNode {
    /// A node of `kind` with the kind's default signature, policy and members.
    pub fn new(kind: FlowControlKind) -> (r: Self)
        ensures
            r.kind == kind,
            flow_signature_is(r.signature, kind),
            r.policy == spec_default_policy(kind),
            flow_members_is(r.members, kind),
            group_members_valid(r.members),
    {
        let signature = default_flow_control_signature(kind);
        let members = default_flow_control_members(kind);
        let checked = members.validate();
        proof {
            assert(checked is Ok);
        }
        let policy = default_flow_control_policy(kind);
        FlowControlNode { kind, signature, policy, members }
    }

    /// The same node with another policy.
    pub fn with_policy(self, policy: FlowControlPolicy) -> (r: Self)
        ensures
            r.kind == self.kind,
            r.signature == self.signature,
            r.policy == policy,
            r.members == self.members,
    {
        let mut node = self;
        node.policy = policy;
        node
    }
}

/// An output node: an optional label and its signature.
#[derive(Debug, Clone, PartialEq, Eq)]
pub struct OutputNode {
    pub label: Option<String>,
    pub signature: NodeSignature,
}

/// The output signature: one `inputs` event group of one or more main members.
pub open spec fn output_signature_is(sig: NodeSignature) -> bool {
    &&& sig.input_sockets@.len() == 0
    &&& sig.input_groups@.len() == 1
    &&& in_group_is(
        sig.input_groups@[0],
        "inputs"@,
        NodeInputRole::Main,
        StreamShape::EventPattern,
        PortCountRule::OneOrMore,
    )
    &&& sig.output_sockets@.len() == 0
    &&& sig.output_groups@.len() == 0
}

impl Default for OutputNode {
    fn default() -> (r: Self)
        ensures
            r.label is None,
            output_signature_is(r.signature),
    {
        let mut groups: Vec<InputGroupSpec> = Vec::new();
        groups.push(
            in_group("inputs", NodeInputRole::Main, StreamShape::EventPattern, PortCountRule::OneOrMore),
        );
        let ghost g = groups@;
        proof {
            assert(ids_unique(input_group_ids(g)));
            assert(ids_unique(input_socket_ids(Seq::<InputSocketSpec>::empty())));
            assert(ids_unique(output_socket_ids(Seq::<OutputSocketSpec>::empty())));
            assert(ids_unique(output_group_ids(Seq::<OutputGroupSpec>::empty())));
            assert(ids_disjoint(input_socket_ids(Seq::<InputSocketSpec>::empty()), input_group_ids(g)));
            assert(ids_disjoint(
                output_socket_ids(Seq::<OutputSocketSpec>::empty()),
                output_group_ids(Seq::<OutputGroupSpec>::empty()),
            ));
        }
        let signature = match NodeSignature::new(Vec::new(), groups, Vec::new(), Vec::new()) {
            Ok(sig) => sig,
            Err(_) => {
                proof {
                    assert(false);
                }
                NodeSignature {
                    input_sockets: Vec::new(),
                    input_groups: Vec::new(),
                    output_sockets: Vec::new(),
                    output_groups: Vec::new(),
                }
            },
        };
        OutputNode { label: None, signature }
    }
}

/// A node of the root surface.
#[derive(Debug, Clone, PartialEq, Eq)]
pub enum RootSurfaceNodeKind {
    Container { container: ContainerId },
    Transform(TransformNode),
    FlowControl(FlowControlNode),
    Output(OutputNode),
}

} // verus!
