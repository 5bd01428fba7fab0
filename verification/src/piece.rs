//! Parameter vocabulary of pieces: value kinds, inline modes, text
//! semantics, and the identifiers that inline parameters may name.

use vstd::prelude::*;

use crate::json::{json_as_bool, json_as_str, json_flag, json_is_number, json_number, json_text};
use crate::text::{chars_of, owned, str_eq};
use crate::types::{
    PieceCategory, PieceSemanticKind, PortRole, PortType, PortTypeConnection,
    PortTypeConnectionError, Rational, TileSide, DELAY_PIECE_ID, rational_parts, spec_rational_parts, ExecutionDomain,
};

verus! {

/// The kind of value a custom parameter holds.
#[derive(Debug, Clone, Copy, PartialEq, Eq, Structural)]
pub enum ParamValueKind {
    Number,
    Text,
    Bool,
    Rational,
    Json,
    NoValue,
}

/// How an inline parameter value is read: as a literal or as an identifier.
#[derive(Debug, Clone, Copy, PartialEq, Eq, Structural)]
pub enum ParamInlineMode {
    Literal,
    Ident,
}

/// How a piece runs.
#[derive(Debug, Clone, Copy, PartialEq, Eq, Structural)]
pub enum PieceExecutionKind {
    Pure,
    State,
    Connector,
    Boundary,
}

/// The name of how a text parameter is interpreted (`plain`, `mini`, `rhythm`, ...).
#[derive(Debug, PartialEq, Eq, PartialOrd, Ord, Hash)]
pub struct ParamTextSemantics(String);

impl View for ParamTextSemantics {
    type V = Seq<char>;

    closed spec fn view(&self) -> Seq<char> {
        self.0@
    }
}

impl Clone for ParamTextSemantics {
    fn clone(&self) -> (r: Self)
        ensures
            r == *self,
    {
        ParamTextSemantics(self.0.clone())
    }
}

impl Default for ParamTextSemantics {
    fn default() -> (r: Self)
        ensures
            r@ == "plain"@,
    {
        ParamTextSemantics::plain()
    }
}

impl ParamTextSemantics {
    pub fn new(value: &str) -> (r: Self)
        ensures
            r@ == value@,
    {
        ParamTextSemantics(owned(value))
    }

    pub fn plain() -> (r: Self)
        ensures
            r@ == "plain"@,
    {
        ParamTextSemantics::new("plain")
    }

    pub fn mini() -> (r: Self)
        ensures
            r@ == "mini"@,
    {
        ParamTextSemantics::new("mini")
    }

    pub fn rhythm() -> (r: Self)
        ensures
            r@ == "rhythm"@,
    {
        ParamTextSemantics::new("rhythm")
    }

    pub fn as_str(&self) -> (r: &str)
        ensures
            r@ == self@,
    {
        self.0.as_str()
    }

    /// Whether this is the `plain` semantics.
    pub fn is_plain(&self) -> (r: bool)
        ensures
            r == (self@ == "plain"@),
    {
        str_eq(self.0.as_str(), "plain")
    }
}

/// An ASCII letter or `_`.
pub open spec fn is_ident_start(c: char) -> bool {
    c == '_' || ('a' <= c && c <= 'z') || ('A' <= c && c <= 'Z')
}

/// An ASCII letter, digit or `_`.
pub open spec fn is_ident_continue(c: char) -> bool {
    is_ident_start(c) || ('0' <= c && c <= '9')
}

/// A non-empty identifier: a letter or `_`, then letters, digits or `_`.
pub open spec fn spec_ident_segment(s: Seq<char>) -> bool {
    &&& s.len() > 0
    &&& is_ident_start(s[0])
    &&& forall|i: int| 1 <= i < s.len() ==> is_ident_continue(#[trigger] s[i])
}

/// Character `i` of a path: a dot or an identifier character, and a letter
/// or `_` where a segment starts (at the front or after a dot).
pub open spec fn path_char_ok(s: Seq<char>, i: int) -> bool {
    &&& (s[i] == '.' || is_ident_continue(s[i]))
    &&& (i == 0 || s[i - 1] == '.') ==> is_ident_start(s[i])
}

/// Identifiers joined by single dots: every character fits its place, and
/// the path neither is empty nor ends with a dot (so no segment is empty).
pub open spec fn spec_ident_path(s: Seq<char>) -> bool {
    &&& s.len() > 0
    &&& forall|i: int| 0 <= i < s.len() ==> #[trigger] path_char_ok(s, i)
    &&& s.last() != '.'
}

fn char_is_ident_start(c: char) -> (r: bool)
    ensures
        r == is_ident_start(c),
{
    c == '_' || ('a' <= c && c <= 'z') || ('A' <= c && c <= 'Z')
}

fn char_is_ident_continue(c: char) -> (r: bool)
    ensures
        r == is_ident_continue(c),
{
    char_is_ident_start(c) || ('0' <= c && c <= '9')
}

/// Whether `segment` is a single identifier.
pub fn is_valid_ident_segment(segment: &str) -> (r: bool)
    ensures
        r == spec_ident_segment(segment@),
{
    let chars = chars_of(segment);
    let n = chars.len();
    if n == 0 {
        return false;
    }
    if !char_is_ident_start(chars[0]) {
        return false;
    }
    let mut i: usize = 1;
    while i < n
        invariant
            chars@ == segment@,
            n == chars@.len(),
            1 <= i <= n,
            forall|j: int| 1 <= j < i ==> is_ident_continue(#[trigger] chars@[j]),
        decreases n - i,
    {
        if !char_is_ident_continue(chars[i]) {
            return false;
        }
        i = i + 1;
    }
    true
}

/// Whether `path` is one or more identifiers separated by single dots.
pub fn is_valid_ident_path(path: &str) -> (r: bool)
    ensures
        r == spec_ident_path(path@),
{
    let chars = chars_of(path);
    let n = chars.len();
    if n == 0 {
        return false;
    }
    let mut i: usize = 0;
    while i < n
        invariant
            chars@ == path@,
            n == chars@.len(),
            0 <= i <= n,
            forall|j: int| 0 <= j < i ==> #[trigger] path_char_ok(chars@, j),
        decreases n - i,
    {
        let c = chars[i];
        let at_start = i == 0 || chars[i - 1] == '.';
        if at_start {
            if !char_is_ident_start(c) {
                proof {
                    assert(!path_char_ok(chars@, i as int));
                }
                return false;
            }
        } else if !(c == '.' || char_is_ident_continue(c)) {
            proof {
                assert(!path_char_ok(chars@, i as int));
            }
            return false;
        }
        proof {
            assert(path_char_ok(chars@, i as int));
        }
        i = i + 1;
    }
    chars[n - 1] != '.'
}

/// The type and inline rules of a parameter. Numeric bounds and defaults,
/// which are floating-point numbers, are held by the host alongside; the
/// rules here read none of them. A custom parameter may carry a JSON default.
#[derive(Debug)]
pub enum ParamSchema {
    Number { can_inline: bool },
    Text { default: String, can_inline: bool },
    Enum { options: Vec<String>, default: String, can_inline: bool },
    Bool { default: bool, can_inline: bool },
    Rational { default: Rational, can_inline: bool },
    Custom {
        port_type: PortType,
        value_kind: ParamValueKind,
        default: Option<serde_json::Value>,
        can_inline: bool,
        inline_mode: ParamInlineMode,
    },
}

/// Two schemas hold the same rules.
pub open spec fn schema_same(a: ParamSchema, b: ParamSchema) -> bool {
    match (a, b) {
        (ParamSchema::Number { can_inline: x }, ParamSchema::Number { can_inline: y }) => x == y,
        (ParamSchema::Text { default: d1, can_inline: x }, ParamSchema::Text { default: d2, can_inline: y }) => d1
            == d2 && x == y,
        (
            ParamSchema::Enum { options: o1, default: d1, can_inline: x },
            ParamSchema::Enum { options: o2, default: d2, can_inline: y },
        ) => o1@ == o2@ && d1 == d2 && x == y,
        (ParamSchema::Bool { default: d1, can_inline: x }, ParamSchema::Bool { default: d2, can_inline: y }) => d1
            == d2 && x == y,
        (
            ParamSchema::Rational { default: d1, can_inline: x },
            ParamSchema::Rational { default: d2, can_inline: y },
        ) => d1 == d2 && x == y,
        (
            ParamSchema::Custom { port_type: p1, value_kind: v1, default: f1, can_inline: x, inline_mode: m1 },
            ParamSchema::Custom { port_type: p2, value_kind: v2, default: f2, can_inline: y, inline_mode: m2 },
        ) => p1 == p2 && v1 == v2 && f1 == f2 && x == y && m1 == m2,
        _ => false,
    }
}

fn clone_strings(v: &Vec<String>) -> (r: Vec<String>)
    ensures
        r@ == v@,
{
    let mut out: Vec<String> = Vec::new();
    let mut i: usize = 0;
    while i < v.len()
        invariant
            i <= v@.len(),
            out@ == v@.subrange(0, i as int),
        decreases v@.len() - i,
    {
        out.push(v[i].clone());
        i = i + 1;
    }
    proof {
        assert(v@.subrange(0, v@.len() as int) =~= v@);
    }
    out
}

impl Clone for ParamSchema {
    fn clone(&self) -> (r: Self)
        ensures
            schema_same(r, *self),
    {
        match self {
            ParamSchema::Number { can_inline } => ParamSchema::Number { can_inline: *can_inline },
            ParamSchema::Text { default, can_inline } => ParamSchema::Text {
                default: default.clone(),
                can_inline: *can_inline,
            },
            ParamSchema::Enum { options, default, can_inline } => ParamSchema::Enum {
                options: clone_strings(options),
                default: default.clone(),
                can_inline: *can_inline,
            },
            ParamSchema::Bool { default, can_inline } => ParamSchema::Bool {
                default: *default,
                can_inline: *can_inline,
            },
            ParamSchema::Rational { default, can_inline } => ParamSchema::Rational {
                default: *default,
                can_inline: *can_inline,
            },
            ParamSchema::Custom { port_type, value_kind, default, can_inline, inline_mode } => ParamSchema::Custom {
                port_type: port_type.clone(),
                value_kind: *value_kind,
                default: match default {
                    Some(v) => Some(v.clone()),
                    None => None,
                },
                can_inline: *can_inline,
                inline_mode: *inline_mode,
            },
        }
    }
}

/// The value kind and domain a schema expects: `number`, `text` (for text
/// and enum), `bool` and `rational` in the control domain, or a custom type.
pub open spec fn schema_kind(s: ParamSchema) -> Seq<char> {
    match s {
        ParamSchema::Number { .. } => "number"@,
        ParamSchema::Text { .. } | ParamSchema::Enum { .. } => "text"@,
        ParamSchema::Bool { .. } => "bool"@,
        ParamSchema::Rational { .. } => "rational"@,
        ParamSchema::Custom { port_type, .. } => port_type.kind_view(),
    }
}

/// The domain of the type a schema expects.
pub open spec fn schema_domain(s: ParamSchema) -> Option<crate::types::ExecutionDomain> {
    match s {
        ParamSchema::Custom { port_type, .. } => port_type.domain_view(),
        _ => Some(crate::types::ExecutionDomain::Control),
    }
}

/// Whether inline values are allowed.
pub open spec fn schema_can_inline(s: ParamSchema) -> bool {
    match s {
        ParamSchema::Number { can_inline } => can_inline,
        ParamSchema::Text { can_inline, .. } => can_inline,
        ParamSchema::Enum { can_inline, .. } => can_inline,
        ParamSchema::Bool { can_inline, .. } => can_inline,
        ParamSchema::Rational { can_inline, .. } => can_inline,
        ParamSchema::Custom { can_inline, .. } => can_inline,
    }
}

impl ParamSchema {
    /// The port type this parameter expects.
    pub fn expected_port_type(&self) -> (r: PortType)
        ensures
            r.kind_view() == schema_kind(*self),
            r.domain_view() == schema_domain(*self),
    {
        match self {
            ParamSchema::Number { .. } => PortType::number(),
            ParamSchema::Text { .. } | ParamSchema::Enum { .. } => PortType::text(),
            ParamSchema::Bool { .. } => PortType::bool(),
            ParamSchema::Rational { .. } => PortType::rational(),
            ParamSchema::Custom { port_type, .. } => port_type.clone(),
        }
    }

    /// Whether the parameter accepts an inline value.
    pub fn can_inline(&self) -> (r: bool)
        ensures
            r == schema_can_inline(*self),
    {
        match self {
            ParamSchema::Number { can_inline } => *can_inline,
            ParamSchema::Text { can_inline, .. } => *can_inline,
            ParamSchema::Enum { can_inline, .. } => *can_inline,
            ParamSchema::Bool { can_inline, .. } => *can_inline,
            ParamSchema::Rational { can_inline, .. } => *can_inline,
            ParamSchema::Custom { can_inline, .. } => *can_inline,
        }
    }

    /// Connects a source of type `port_type` to this parameter, as the
    /// expected port type would.
    pub fn resolve_connection(&self, port_type: &PortType) -> (r: Result<PortTypeConnection, PortTypeConnectionError>)
        ensures
            (r is Ok) == crate::types::spec_connects(
                schema_kind(*self),
                schema_domain(*self),
                port_type.kind_view(),
                port_type.domain_view(),
            ),
    {
        let expected = self.expected_port_type();
        expected.resolve_connection(port_type)
    }

    /// Whether a source of type `port_type` can feed this parameter.
    pub fn accepts(&self, port_type: &PortType) -> (r: bool)
        ensures
            r == crate::types::spec_connects(
                schema_kind(*self),
                schema_domain(*self),
                port_type.kind_view(),
                port_type.domain_view(),
            ),
    {
        self.resolve_connection(port_type).is_ok()
    }
}

/// One parameter of a piece.
#[derive(Debug)]
pub struct ParamDef {
    pub id: String,
    pub label: String,
    pub side: TileSide,
    pub schema: ParamSchema,
    pub text_semantics: ParamTextSemantics,
    pub variadic_group: Option<String>,
    pub required: bool,
    pub role: PortRole,
}

/// Two parameter definitions say the same.
pub open spec fn param_same(a: ParamDef, b: ParamDef) -> bool {
    &&& a.id == b.id
    &&& a.label == b.label
    &&& a.side == b.side
    &&& schema_same(a.schema, b.schema)
    &&& a.text_semantics == b.text_semantics
    &&& a.variadic_group == b.variadic_group
    &&& a.required == b.required
    &&& a.role == b.role
}

fn clone_opt_string(v: &Option<String>) -> (r: Option<String>)
    ensures
        r == *v,
{
    match v {
        Some(s) => Some(s.clone()),
        None => None,
    }
}

impl Clone for ParamDef {
    fn clone(&self) -> (r: Self)
        ensures
            param_same(r, *self),
    {
        ParamDef {
            id: self.id.clone(),
            label: self.label.clone(),
            side: self.side,
            schema: self.schema.clone(),
            text_semantics: self.text_semantics.clone(),
            variadic_group: clone_opt_string(&self.variadic_group),
            required: self.required,
            role: self.role.clone(),
        }
    }
}

/// What a registered piece declares: identity, family, parameters and output.
#[derive(Debug)]
pub struct PieceDef {
    pub id: String,
    pub label: String,
    pub category: PieceCategory,
    pub semantic_kind: PieceSemanticKind,
    pub namespace: String,
    pub params: Vec<ParamDef>,
    pub output_type: Option<PortType>,
    pub output_side: Option<TileSide>,
    pub output_role: PortRole,
    pub description: Option<String>,
    pub tags: Vec<String>,
}

/// Two piece definitions say the same.
pub open spec fn def_same(a: PieceDef, b: PieceDef) -> bool {
    &&& a.id == b.id
    &&& a.label == b.label
    &&& a.category == b.category
    &&& a.semantic_kind == b.semantic_kind
    &&& a.namespace == b.namespace
    &&& a.params@.len() == b.params@.len()
    &&& forall|i: int| 0 <= i < a.params@.len() ==> param_same(#[trigger] a.params@[i], b.params@[i])
    &&& a.output_type == b.output_type
    &&& a.output_side == b.output_side
    &&& a.output_role == b.output_role
    &&& a.description == b.description
    &&& a.tags@ == b.tags@
}

impl Clone for PieceDef {
    fn clone(&self) -> (r: Self)
        ensures
            def_same(r, *self),
    {
        let mut params: Vec<ParamDef> = Vec::new();
        let mut i: usize = 0;
        while i < self.params.len()
            invariant
                i <= self.params@.len(),
                params@.len() == i,
                forall|j: int| 0 <= j < i ==> param_same(#[trigger] params@[j], self.params@[j]),
            decreases self.params@.len() - i,
        {
            params.push(self.params[i].clone());
            i = i + 1;
        }
        let output_type = match &self.output_type {
            Some(t) => Some(t.clone()),
            None => None,
        };
        PieceDef {
            id: self.id.clone(),
            label: self.label.clone(),
            category: self.category,
            semantic_kind: self.semantic_kind,
            namespace: self.namespace.clone(),
            params,
            output_type,
            output_side: self.output_side,
            output_role: self.output_role.clone(),
            description: clone_opt_string(&self.description),
            tags: clone_strings(&self.tags),
        }
    }
}

/// The piece is an output.
pub open spec fn spec_is_output(d: PieceDef) -> bool {
    d.semantic_kind == PieceSemanticKind::Output
}

/// The piece is a connector, by category or by meaning.
pub open spec fn spec_is_connector(d: PieceDef) -> bool {
    d.category == PieceCategory::Connector || d.semantic_kind == PieceSemanticKind::Connector
}

/// The piece produces a value: it declares an output type or is a connector.
pub open spec fn spec_has_output(d: PieceDef) -> bool {
    d.output_type is Some || spec_is_connector(d)
}

/// How a piece runs: connectors connect, outputs bound the graph, the delay
/// piece holds state, everything else is pure.
pub open spec fn spec_execution_kind(d: PieceDef) -> PieceExecutionKind {
    if spec_is_connector(d) {
        PieceExecutionKind::Connector
    } else if spec_is_output(d) {
        PieceExecutionKind::Boundary
    } else if d.id@ == DELAY_PIECE_ID@ {
        PieceExecutionKind::State
    } else {
        PieceExecutionKind::Pure
    }
}

impl PieceDef {
    pub fn is_output(&self) -> (r: bool)
        ensures
            r == spec_is_output(*self),
    {
        match self.semantic_kind {
            PieceSemanticKind::Output => true,
            _ => false,
        }
    }

    pub fn is_connector(&self) -> (r: bool)
        ensures
            r == spec_is_connector(*self),
    {
        (match self.category {
            PieceCategory::Connector => true,
            _ => false,
        }) || (match self.semantic_kind {
            PieceSemanticKind::Connector => true,
            _ => false,
        })
    }

    pub fn has_output(&self) -> (r: bool)
        ensures
            r == spec_has_output(*self),
    {
        self.output_type.is_some() || self.is_connector()
    }

    pub fn execution_kind(&self) -> (r: PieceExecutionKind)
        ensures
            r == spec_execution_kind(*self),
    {
        if self.is_connector() {
            PieceExecutionKind::Connector
        } else if self.is_output() {
            PieceExecutionKind::Boundary
        } else if str_eq(self.id.as_str(), DELAY_PIECE_ID) {
            PieceExecutionKind::State
        } else {
            PieceExecutionKind::Pure
        }
    }

    /// The single input parameter of a connector; `None` for other pieces or
    /// a connector without exactly one parameter.
    pub fn connector_param(&self) -> (r: Option<&ParamDef>)
        ensures
            match r {
                Some(p) => spec_is_connector(*self) && self.params@.len() == 1 && *p == self.params@[0],
                None => !spec_is_connector(*self) || self.params@.len() != 1,
            },
    {
        if !self.is_connector() {
            return None;
        }
        if self.params.len() == 1 {
            Some(&self.params[0])
        } else {
            None
        }
    }

    /// Core pieces and tricks are visible everywhere; others only in their namespace.
    pub fn is_visible_in_namespace(&self, namespace: &str) -> (r: bool)
        ensures
            r == (self.namespace@ == "core"@ || self.namespace@ == namespace@ || self.semantic_kind
                == PieceSemanticKind::Trick),
    {
        str_eq(self.namespace.as_str(), "core") || str_eq(self.namespace.as_str(), namespace)
            || (match self.semantic_kind {
            PieceSemanticKind::Trick => true,
            _ => false,
        })
    }
}

// ---------------------------------------------------------------------------
// Inline values: which ones a schema accepts and what type they give
// ---------------------------------------------------------------------------

/// The text is a rational literal with a nonzero denominator.
pub open spec fn rational_text(t: Seq<char>) -> bool {
    spec_rational_parts(t) matches Some((n, d)) && d != 0
}

/// The value is a string holding a rational literal.
pub open spec fn rational_value(v: serde_json::Value) -> bool {
    json_text(v) matches Some(t) && rational_text(t)
}

/// The schema accepts the inline value `v`; `number_in_bounds` is whether a
/// numeric value lies within the numeric bounds the host holds.
pub open spec fn spec_inline_ok(s: ParamSchema, v: serde_json::Value, number_in_bounds: bool) -> bool {
    match s {
        ParamSchema::Number { .. } => number_in_bounds,
        ParamSchema::Text { .. } => json_text(v) is Some,
        ParamSchema::Enum { options, .. } => json_text(v) matches Some(t) && options@.map_values(|o: String| o@).contains(t),
        ParamSchema::Bool { .. } => json_flag(v) is Some,
        ParamSchema::Rational { .. } => rational_value(v),
        ParamSchema::Custom { value_kind, inline_mode, .. } => if inline_mode == ParamInlineMode::Ident {
            json_text(v) matches Some(t) && spec_ident_path(t)
        } else {
            match value_kind {
                ParamValueKind::Number => number_in_bounds,
                ParamValueKind::Text => json_text(v) is Some,
                ParamValueKind::Bool => json_flag(v) is Some,
                ParamValueKind::Rational => rational_value(v),
                ParamValueKind::Json => true,
                ParamValueKind::NoValue => false,
            }
        },
    }
}

/// A port type of kind `k` in the control domain.
pub open spec fn control_type(k: Seq<char>) -> (Seq<char>, Option<ExecutionDomain>) {
    (k, Some(ExecutionDomain::Control))
}

/// The kind a JSON value suggests: a number, rational text, other text, or a
/// boolean; nothing for other values.
pub open spec fn json_value_kind(v: serde_json::Value) -> Option<Seq<char>> {
    if json_number(v) {
        Some("number"@)
    } else {
        match json_text(v) {
            Some(t) => if rational_text(t) {
                Some("rational"@)
            } else {
                Some("text"@)
            },
            None => if json_flag(v) is Some {
                Some("bool"@)
            } else {
                None
            },
        }
    }
}

/// The type an accepted inline value gives the parameter: the schema's own
/// kind, the declared type for identifiers and value-less parameters, and
/// for JSON parameters the kind the value suggests (else the declared type).
pub open spec fn spec_accepted_type(s: ParamSchema, v: serde_json::Value) -> (Seq<char>, Option<ExecutionDomain>) {
    match s {
        ParamSchema::Number { .. } => control_type("number"@),
        ParamSchema::Text { .. } => control_type("text"@),
        ParamSchema::Enum { .. } => control_type("text"@),
        ParamSchema::Bool { .. } => control_type("bool"@),
        ParamSchema::Rational { .. } => control_type("rational"@),
        ParamSchema::Custom { port_type, value_kind, inline_mode, .. } => if inline_mode == ParamInlineMode::Ident {
            port_type@
        } else {
            match value_kind {
                ParamValueKind::Number => control_type("number"@),
                ParamValueKind::Text => control_type("text"@),
                ParamValueKind::Bool => control_type("bool"@),
                ParamValueKind::Rational => control_type("rational"@),
                ParamValueKind::Json => match json_value_kind(v) {
                    Some(k) => control_type(k),
                    None => port_type@,
                },
                ParamValueKind::NoValue => port_type@,
            }
        },
    }
}

/// The type an inline value gives the parameter, when the schema accepts it.
pub open spec fn spec_inline_port_type(s: ParamSchema, v: serde_json::Value, number_in_bounds: bool) -> Option<
    (Seq<char>, Option<ExecutionDomain>),
> {
    if !spec_inline_ok(s, v, number_in_bounds) {
        None
    } else {
        Some(spec_accepted_type(s, v))
    }
}

/// The type a parameter takes without an edge: that of its inline value
/// when it has one, else its schema's kind; a custom parameter takes that
/// of its default value, and none without one.
pub open spec fn spec_resolved_port_type(
    s: ParamSchema,
    inline: Option<serde_json::Value>,
    number_in_bounds: bool,
) -> Option<(Seq<char>, Option<ExecutionDomain>)> {
    match inline {
        Some(v) => spec_inline_port_type(s, v, number_in_bounds),
        None => match s {
            ParamSchema::Number { .. } => Some(control_type("number"@)),
            ParamSchema::Text { .. } => Some(control_type("text"@)),
            ParamSchema::Enum { .. } => Some(control_type("text"@)),
            ParamSchema::Bool { .. } => Some(control_type("bool"@)),
            ParamSchema::Rational { .. } => Some(control_type("rational"@)),
            ParamSchema::Custom { default, .. } => match default {
                Some(d) => spec_inline_port_type(s, d, number_in_bounds),
                None => None,
            },
        },
    }
}

/// Whether the value is a string holding a rational literal.
fn is_rational_value(v: &serde_json::Value) -> (r: bool)
    ensures
        r == rational_value(*v),
{
    match json_as_str(v) {
        Some(t) => match rational_parts(t.as_str()) {
            Some((_, d)) => d != 0,
            None => false,
        },
        None => false,
    }
}

/// Whether `t` is one of `options`.
fn option_listed(options: &Vec<String>, t: &str) -> (r: bool)
    ensures
        r == options@.map_values(|o: String| o@).contains(t@),
{
    let ghost ov = options@.map_values(|o: String| o@);
    let mut i: usize = 0;
    while i < options.len()
        invariant
            ov == options@.map_values(|o: String| o@),
            i <= options@.len(),
            forall|j: int| 0 <= j < i ==> ov[j] != t@,
        decreases options@.len() - i,
    {
        if str_eq(options[i].as_str(), t) {
            proof {
                assert(ov[i as int] == t@);
            }
            return true;
        }
        i = i + 1;
    }
    proof {
        if ov.contains(t@) {
            let j = choose|j: int| 0 <= j < ov.len() && ov[j] == t@;
            assert(ov[j] != t@);
        }
    }
    false
}

/// Whether the schema accepts the inline value `value`; `number_in_bounds`
/// is the host's verdict on a numeric value's bounds.
pub fn validate_inline_value(schema: &ParamSchema, value: &serde_json::Value, number_in_bounds: bool) -> (r: bool)
    ensures
        r == spec_inline_ok(*schema, *value, number_in_bounds),
{
    match schema {
        ParamSchema::Number { .. } => number_in_bounds,
        ParamSchema::Text { .. } => json_as_str(value).is_some(),
        ParamSchema::Enum { options, .. } => match json_as_str(value) {
            Some(t) => option_listed(options, t.as_str()),
            None => false,
        },
        ParamSchema::Bool { .. } => json_as_bool(value).is_some(),
        ParamSchema::Rational { .. } => is_rational_value(value),
        ParamSchema::Custom { value_kind, inline_mode, .. } => {
            if *inline_mode == ParamInlineMode::Ident {
                match json_as_str(value) {
                    Some(t) => is_valid_ident_path(t.as_str()),
                    None => false,
                }
            } else {
                match value_kind {
                    ParamValueKind::Number => number_in_bounds,
                    ParamValueKind::Text => json_as_str(value).is_some(),
                    ParamValueKind::Bool => json_as_bool(value).is_some(),
                    ParamValueKind::Rational => is_rational_value(value),
                    ParamValueKind::Json => true,
                    ParamValueKind::NoValue => false,
                }
            }
        },
    }
}

/// The kind a JSON value suggests.
fn json_kind_type(value: &serde_json::Value) -> (r: Option<PortType>)
    ensures
        match json_value_kind(*value) {
            Some(k) => r matches Some(t) && t@ == control_type(k),
            None => r is None,
        },
{
    if json_is_number(value) {
        Some(PortType::new("number"))
    } else {
        match json_as_str(value) {
            Some(t) => match rational_parts(t.as_str()) {
                Some((_, d)) => if d != 0 {
                    Some(PortType::new("rational"))
                } else {
                    Some(PortType::new("text"))
                },
                None => Some(PortType::new("text")),
            },
            None => if json_as_bool(value).is_some() {
                Some(PortType::new("bool"))
            } else {
                None
            },
        }
    }
}

/// The type an inline value gives a parameter of this schema once the
/// schema accepts it.
pub fn accepted_port_type(schema: &ParamSchema, value: &serde_json::Value) -> (r: PortType)
    ensures
        r@ == spec_accepted_type(*schema, *value),
{
    match schema {
        ParamSchema::Number { .. } => PortType::new("number"),
        ParamSchema::Text { .. } => PortType::new("text"),
        ParamSchema::Enum { .. } => PortType::new("text"),
        ParamSchema::Bool { .. } => PortType::new("bool"),
        ParamSchema::Rational { .. } => PortType::new("rational"),
        ParamSchema::Custom { port_type, value_kind, inline_mode, .. } => {
            if *inline_mode == ParamInlineMode::Ident {
                return port_type.clone();
            }
            match value_kind {
                ParamValueKind::Number => PortType::new("number"),
                ParamValueKind::Text => PortType::new("text"),
                ParamValueKind::Bool => PortType::new("bool"),
                ParamValueKind::Rational => PortType::new("rational"),
                ParamValueKind::Json => match json_kind_type(value) {
                    Some(t) => t,
                    None => port_type.clone(),
                },
                ParamValueKind::NoValue => port_type.clone(),
            }
        },
    }
}

/// The type the inline value `value` gives a parameter of this schema, or
/// none when the schema does not accept it.
pub fn inline_port_type(schema: &ParamSchema, value: &serde_json::Value, number_in_bounds: bool) -> (r: Option<PortType>)
    ensures
        match spec_inline_port_type(*schema, *value, number_in_bounds) {
            Some(t) => r matches Some(p) && p@ == t,
            None => r is None,
        },
{
    if !validate_inline_value(schema, value, number_in_bounds) {
        return None;
    }
    Some(accepted_port_type(schema, value))
}

/// The type a parameter takes without an edge: from its inline value when
/// it has one, else from its schema, a custom parameter from its default
/// value. `number_in_bounds` is the host's verdict on the bounds of the
/// numeric value inspected.
pub fn resolved_port_type(schema: &ParamSchema, inline: Option<&serde_json::Value>, number_in_bounds: bool) -> (r: Option<
    PortType,
>)
    ensures
        match spec_resolved_port_type(
            *schema,
            match inline {
                Some(v) => Some(*v),
                None => None,
            },
            number_in_bounds,
        ) {
            Some(t) => r matches Some(p) && p@ == t,
            None => r is None,
        },
{
    match inline {
        Some(v) => inline_port_type(schema, v, number_in_bounds),
        None => match schema {
            ParamSchema::Number { .. } => Some(PortType::new("number")),
            ParamSchema::Text { .. } => Some(PortType::new("text")),
            ParamSchema::Enum { .. } => Some(PortType::new("text")),
            ParamSchema::Bool { .. } => Some(PortType::new("bool")),
            ParamSchema::Rational { .. } => Some(PortType::new("rational")),
            ParamSchema::Custom { default, .. } => match default {
                Some(d) => inline_port_type(schema, d, number_in_bounds),
                None => None,
            },
        },
    }
}


/// What an inline value must be for each kind of schema, as
/// `validate_inline_value` decides: a number parameter takes a value inside
/// its bounds; a text parameter exactly a JSON string; a choice exactly a
/// JSON string naming one of its options; a bool parameter exactly a JSON
/// boolean; a custom parameter of no value kind nothing at all; a custom
/// text or bool literal exactly a JSON string or boolean; and an identifier
/// exactly a JSON string that is a dotted identifier path.
pub proof fn lemma_inline_value_kinds(s: ParamSchema, v: serde_json::Value, number_in_bounds: bool)
    ensures
        s is Number ==> (spec_inline_ok(s, v, number_in_bounds) <==> number_in_bounds),
        s is Text ==> (spec_inline_ok(s, v, number_in_bounds) <==> json_text(v) is Some),
        s is Bool ==> (spec_inline_ok(s, v, number_in_bounds) <==> json_flag(v) is Some),
        s is Enum ==> (spec_inline_ok(s, v, number_in_bounds) <==> (json_text(v) is Some && exists|i: int|
            0 <= i < s->Enum_options@.len() && #[trigger] s->Enum_options@[i]@ == json_text(v)->Some_0)),
        s matches ParamSchema::Custom { value_kind, inline_mode, .. } ==> {
            &&& inline_mode == ParamInlineMode::Ident ==> (spec_inline_ok(s, v, number_in_bounds) <==> (json_text(
                v,
            ) is Some && spec_ident_path(json_text(v)->Some_0)))
            &&& inline_mode != ParamInlineMode::Ident && value_kind == ParamValueKind::NoValue ==> !spec_inline_ok(
                s,
                v,
                number_in_bounds,
            )
            &&& inline_mode != ParamInlineMode::Ident && value_kind == ParamValueKind::Text ==> (spec_inline_ok(
                s,
                v,
                number_in_bounds,
            ) <==> json_text(v) is Some)
            &&& inline_mode != ParamInlineMode::Ident && value_kind == ParamValueKind::Bool ==> (spec_inline_ok(
                s,
                v,
                number_in_bounds,
            ) <==> json_flag(v) is Some)
            &&& inline_mode != ParamInlineMode::Ident && value_kind == ParamValueKind::Number ==> (spec_inline_ok(
                s,
                v,
                number_in_bounds,
            ) <==> number_in_bounds)
        },
{
    if s is Enum {
        let opts = s->Enum_options@;
        if let Some(t) = json_text(v) {
            let views = opts.map_values(|o: String| o@);
            if views.contains(t) {
                let i = choose|i: int| 0 <= i < views.len() && views[i] == t;
                assert(opts[i]@ == t);
            }
            if exists|i: int| 0 <= i < opts.len() && #[trigger] opts[i]@ == t {
                let i = choose|i: int| 0 <= i < opts.len() && #[trigger] opts[i]@ == t;
                assert(views[i] == t);
            }
        }
    }
}

} // verus!
