//! Shared grid, side, domain and port-type vocabulary of the graph engine.

use vstd::prelude::*;

use crate::collections::OrderedKey;
use crate::text::{
    append_decimal, append_str, decimal, lemma_decimal_chars, lemma_parse_decimal, lemma_trim_unchanged,
    string_of_chars, is_digit, is_white_space,
    chars_of, find_char, first_index_of, parse_i64, slice_chars, spec_parse_i64, str_eq,
    trim_chars, trim_seq,
};

verus! {

/// Identifier of the built-in delay piece that breaks feedback cycles.
pub const DELAY_PIECE_ID: &'static str = "tessera.delay";

/// A cell on the editor grid. Ordering is column-first, then row, which is
/// the order `derive(Ord)` gives for the field order below.
#[derive(Debug, Clone, Copy, PartialEq, Eq, PartialOrd, Ord, Hash, Structural)]
pub struct GridPos {
    pub col: i32,
    pub row: i32,
}

impl View for GridPos {
    type V = GridPos;

    open spec fn view(&self) -> GridPos {
        *self
    }
}

/// Column first, then row.
pub open spec fn grid_lt(a: GridPos, b: GridPos) -> bool {
    a.col < b.col || (a.col == b.col && a.row < b.row)
}

impl OrderedKey for GridPos {
    open spec fn key_lt(a: GridPos, b: GridPos) -> bool {
        grid_lt(a, b)
    }

    proof fn lemma_key_lt_irreflexive(a: GridPos) {
    }

    proof fn lemma_key_lt_transitive(a: GridPos, b: GridPos, c: GridPos) {
    }

    proof fn lemma_key_lt_total(a: GridPos, b: GridPos) {
    }

    fn compare_key(&self, other: &Self) -> (r: i8) {
        if self.col < other.col {
            -1
        } else if self.col > other.col {
            1
        } else if self.row < other.row {
            -1
        } else if self.row > other.row {
            1
        } else {
            0
        }
    }

    fn clone_key(&self) -> (r: Self) {
        *self
    }
}

/// One of the four sides of a grid tile.
#[derive(Debug, Clone, Copy, PartialEq, Eq, PartialOrd, Ord, Hash, Structural)]
pub enum TileSide {
    TOP,
    BOTTOM,
    RIGHT,
    LEFT,
}

/// The cell reached from `pos` by one step towards `side`; `None` stays put.
pub open spec fn spec_adjacent(pos: GridPos, side: Option<TileSide>) -> GridPos {
    match side {
        Some(TileSide::TOP) => GridPos { col: pos.col, row: (pos.row - 1) as i32 },
        Some(TileSide::BOTTOM) => GridPos { col: pos.col, row: (pos.row + 1) as i32 },
        Some(TileSide::RIGHT) => GridPos { col: (pos.col + 1) as i32, row: pos.row },
        Some(TileSide::LEFT) => GridPos { col: (pos.col - 1) as i32, row: pos.row },
        None => pos,
    }
}

/// The step towards `side` stays inside the `i32` range.
pub open spec fn adjacent_fits(pos: GridPos, side: Option<TileSide>) -> bool {
    match side {
        Some(TileSide::TOP) => pos.row > i32::MIN,
        Some(TileSide::BOTTOM) => pos.row < i32::MAX,
        Some(TileSide::RIGHT) => pos.col < i32::MAX,
        Some(TileSide::LEFT) => pos.col > i32::MIN,
        None => true,
    }
}

impl GridPos {
    /// The neighbouring cell in direction `side`.
    pub fn adjacent_in_direction(&self, side: Option<TileSide>) -> (r: Self)
        requires
            adjacent_fits(*self, side),
        ensures
            r == spec_adjacent(*self, side),
    {
        match side {
            Some(TileSide::TOP) => GridPos { col: self.col, row: self.row - 1 },
            Some(TileSide::BOTTOM) => GridPos { col: self.col, row: self.row + 1 },
            Some(TileSide::RIGHT) => GridPos { col: self.col + 1, row: self.row },
            Some(TileSide::LEFT) => GridPos { col: self.col - 1, row: self.row },
            None => *self,
        }
    }
}

/// The neighbouring cell of `pos` in direction `side`.
pub fn adjacent_in_direction(pos: &GridPos, side: Option<TileSide>) -> (r: GridPos)
    requires
        adjacent_fits(*pos, side),
    ensures
        r == spec_adjacent(*pos, side),
{
    pos.adjacent_in_direction(side)
}

/// The side that faces `s` across a shared tile edge.
pub open spec fn spec_opposite(s: TileSide) -> TileSide {
    match s {
        TileSide::TOP => TileSide::BOTTOM,
        TileSide::BOTTOM => TileSide::TOP,
        TileSide::LEFT => TileSide::RIGHT,
        TileSide::RIGHT => TileSide::LEFT,
    }
}

impl TileSide {
    /// Whether an output on side `self` meets an input on side `other`.
    pub fn faces(self, other: TileSide) -> (r: bool)
        ensures
            r == (other == spec_opposite(self)),
    {
        match (self, other) {
            (TileSide::RIGHT, TileSide::LEFT) => true,
            (TileSide::LEFT, TileSide::RIGHT) => true,
            (TileSide::TOP, TileSide::BOTTOM) => true,
            (TileSide::BOTTOM, TileSide::TOP) => true,
            _ => false,
        }
    }

    /// The opposite side.
    pub fn opposite(self) -> (r: TileSide)
        ensures
            r == spec_opposite(self),
    {
        match self {
            TileSide::TOP => TileSide::BOTTOM,
            TileSide::BOTTOM => TileSide::TOP,
            TileSide::LEFT => TileSide::RIGHT,
            TileSide::RIGHT => TileSide::LEFT,
        }
    }
}

/// Taking the opposite side twice gives the side back, and two sides face
/// each other exactly when each is the other's opposite.
pub proof fn lemma_tile_side_opposite_involution(s: TileSide, t: TileSide)
    ensures
        spec_opposite(spec_opposite(s)) == s,
        spec_opposite(s) != s,
        (t == spec_opposite(s)) == (s == spec_opposite(t)),
{
}

/// Where a port's values are evaluated.
#[derive(Debug, Clone, Copy, PartialEq, Eq, PartialOrd, Ord, Hash, Structural)]
pub enum ExecutionDomain {
    Audio,
    Control,
    Event,
}

impl Default for ExecutionDomain {
    fn default() -> (r: Self)
        ensures
            r == ExecutionDomain::Control,
    {
        ExecutionDomain::Control
    }
}

/// A supported conversion between two execution domains.
#[derive(Debug, Clone, Copy, PartialEq, Eq, PartialOrd, Ord, Hash, Structural)]
pub enum DomainBridgeKind {
    ControlToAudio,
    AudioToControl,
    EventToControl,
}

/// The bridge that converts `source` values for a `target` port, if any.
pub open spec fn spec_bridge_from_domains(source: ExecutionDomain, target: ExecutionDomain) -> Option<
    DomainBridgeKind,
> {
    match (source, target) {
        (ExecutionDomain::Control, ExecutionDomain::Audio) => Some(DomainBridgeKind::ControlToAudio),
        (ExecutionDomain::Audio, ExecutionDomain::Control) => Some(DomainBridgeKind::AudioToControl),
        (ExecutionDomain::Event, ExecutionDomain::Control) => Some(DomainBridgeKind::EventToControl),
        _ => None,
    }
}

/// The domain a bridge reads from.
pub open spec fn spec_bridge_source(k: DomainBridgeKind) -> ExecutionDomain {
    match k {
        DomainBridgeKind::ControlToAudio => ExecutionDomain::Control,
        DomainBridgeKind::AudioToControl => ExecutionDomain::Audio,
        DomainBridgeKind::EventToControl => ExecutionDomain::Event,
    }
}

/// The domain a bridge writes to.
pub open spec fn spec_bridge_target(k: DomainBridgeKind) -> ExecutionDomain {
    match k {
        DomainBridgeKind::ControlToAudio => ExecutionDomain::Audio,
        DomainBridgeKind::AudioToControl => ExecutionDomain::Control,
        DomainBridgeKind::EventToControl => ExecutionDomain::Control,
    }
}

impl DomainBridgeKind {
    /// The bridge from `source` to `target`, or `None` when the crossing is unsupported.
    pub fn from_domains(source: ExecutionDomain, target: ExecutionDomain) -> (r: Option<
        DomainBridgeKind,
    >)
        ensures
            r == spec_bridge_from_domains(source, target),
    {
        match (source, target) {
            (ExecutionDomain::Control, ExecutionDomain::Audio) => Some(
                DomainBridgeKind::ControlToAudio,
            ),
            (ExecutionDomain::Audio, ExecutionDomain::Control) => Some(
                DomainBridgeKind::AudioToControl,
            ),
            (ExecutionDomain::Event, ExecutionDomain::Control) => Some(
                DomainBridgeKind::EventToControl,
            ),
            _ => None,
        }
    }

    pub fn source_domain(self) -> (r: ExecutionDomain)
        ensures
            r == spec_bridge_source(self),
    {
        match self {
            DomainBridgeKind::ControlToAudio => ExecutionDomain::Control,
            DomainBridgeKind::AudioToControl => ExecutionDomain::Audio,
            DomainBridgeKind::EventToControl => ExecutionDomain::Event,
        }
    }

    pub fn target_domain(self) -> (r: ExecutionDomain)
        ensures
            r == spec_bridge_target(self),
    {
        match self {
            DomainBridgeKind::ControlToAudio => ExecutionDomain::Audio,
            DomainBridgeKind::AudioToControl | DomainBridgeKind::EventToControl => {
                ExecutionDomain::Control
            },
        }
    }

    /// The snake-case name of the bridge.
    pub fn as_str(self) -> (r: &'static str)
        ensures
            r@ == spec_bridge_name(self),
    {
        match self {
            DomainBridgeKind::ControlToAudio => "control_to_audio",
            DomainBridgeKind::AudioToControl => "audio_to_control",
            DomainBridgeKind::EventToControl => "event_to_control",
        }
    }
}

/// The snake-case name of a bridge kind.
pub open spec fn spec_bridge_name(k: DomainBridgeKind) -> Seq<char> {
    match k {
        DomainBridgeKind::ControlToAudio => "control_to_audio"@,
        DomainBridgeKind::AudioToControl => "audio_to_control"@,
        DomainBridgeKind::EventToControl => "event_to_control"@,
    }
}

/// A bridge found between two domains reads from the first and writes to
/// the second; every bridge is found again from its own two domains; and no
/// bridge joins a domain to itself.
pub proof fn lemma_bridge_round_trip(source: ExecutionDomain, target: ExecutionDomain, k: DomainBridgeKind)
    ensures
        spec_bridge_from_domains(source, target) == Some(k) ==> spec_bridge_source(k) == source
            && spec_bridge_target(k) == target,
        spec_bridge_from_domains(spec_bridge_source(k), spec_bridge_target(k)) == Some(k),
        spec_bridge_from_domains(source, source) is None,
{
}

// ---------------------------------------------------------------------------
// Rational literals
// ---------------------------------------------------------------------------

/// Greatest common divisor by Euclid's algorithm (`gcd(0, 0) == 0`).
pub open spec fn spec_gcd(a: nat, b: nat) -> nat
    decreases b,
{
    if b == 0 {
        a
    } else {
        spec_gcd(b, a % b)
    }
}

/// The absolute value.
pub open spec fn spec_abs(x: int) -> nat {
    if x < 0 {
        (-x) as nat
    } else {
        x as nat
    }
}

/// The divisor used to reduce `n/d`: their gcd, or 1 when both are zero.
pub open spec fn reduce_divisor(n: int, d: int) -> nat {
    let g = spec_gcd(spec_abs(n), spec_abs(d));
    if g == 0 {
        1
    } else {
        g
    }
}

/// Numerator of `n/d` in lowest terms with a positive denominator.
pub open spec fn reduced_numerator(n: int, d: int) -> int {
    let q = (spec_abs(n) / reduce_divisor(n, d)) as int;
    if (n < 0) != (d < 0) {
        -q
    } else {
        q
    }
}

/// Denominator of `n/d` in lowest terms, made positive.
pub open spec fn reduced_denominator(n: int, d: int) -> int {
    (spec_abs(d) / reduce_divisor(n, d)) as int
}

/// The integer pair a rational literal parses to before reduction, as
/// `spec_rational_parts` describes it.
pub fn rational_parts(value: &str) -> (r: Option<(i64, i64)>)
    ensures
        r == spec_rational_parts(value@),
{
    let chars = chars_of(value);
    let t = trim_chars(&chars);
    if t.len() == 0 {
        return None;
    }
    match find_char(&t, '/') {
        Some(i) => {
            proof {
                let j = choose|j: int|
                    0 <= j < t@.len() && t@[j] == '/' && forall|k: int|
                        0 <= k < j ==> t@[k] != '/';
                assert(j == i as int) by {
                    if j < i {
                        assert(t@[j] != '/');
                    }
                    if j > i {
                        assert(t@[i as int] != '/');
                    }
                }
            }
            let left = slice_chars(&t, 0, i);
            let right = slice_chars(&t, i + 1, t.len());
            let left_t = trim_chars(&left);
            let right_t = trim_chars(&right);
            let n = parse_i64(&left_t);
            let d = parse_i64(&right_t);
            match (n, d) {
                (Some(n), Some(d)) => Some((n, d)),
                _ => None,
            }
        },
        None => {
            let v = parse_i64(&t);
            match v {
                Some(v) => Some((v, 1i64)),
                None => None,
            }
        },
    }
}

/// An exact rational literal as written on a param (for example `1/4`).
#[derive(Debug, Clone, Copy, PartialEq, Eq, PartialOrd, Ord, Hash)]
pub struct Rational {
    numerator: i64,
    denominator: i64,
}

/// The integer pair a rational literal parses to before reduction:
/// `n/d` (each side trimmed) or a bare integer `n` (denominator 1).
pub open spec fn spec_rational_parts(s: Seq<char>) -> Option<(i64, i64)> {
    let t = trim_seq(s);
    if t.len() == 0 {
        None
    } else {
        match first_index_of(t, '/') {
            Some(i) => match (
                spec_parse_i64(trim_seq(t.subrange(0, i))),
                spec_parse_i64(trim_seq(t.subrange(i + 1, t.len() as int))),
            ) {
                (Some(n), Some(d)) => Some((n, d)),
                _ => None,
            },
            None => match spec_parse_i64(t) {
                Some(v) => Some((v, 1i64)),
                None => None,
            },
        }
    }
}

/// The parts that `Rational::new` can reduce without leaving the `i64` range.
pub open spec fn reducible(n: i64, d: i64) -> bool {
    d != 0 ==> n > i64::MIN && d > i64::MIN
}

impl Rational {
    pub closed spec fn spec_numerator(self) -> int {
        self.numerator as int
    }

    pub closed spec fn spec_denominator(self) -> int {
        self.denominator as int
    }

    /// Two rationals with the same numerator and denominator are the same value.
    pub proof fn lemma_ext(a: Rational, b: Rational)
        requires
            a.spec_numerator() == b.spec_numerator(),
            a.spec_denominator() == b.spec_denominator(),
        ensures
            a == b,
    {
    }

    /// The zero literal `0/1`.
    pub fn zero() -> (r: Self)
        ensures
            r.spec_numerator() == 0,
            r.spec_denominator() == 1,
    {
        Rational { numerator: 0, denominator: 1 }
    }

    /// The unit literal `1/1`.
    pub fn one() -> (r: Self)
        ensures
            r.spec_numerator() == 1,
            r.spec_denominator() == 1,
    {
        Rational { numerator: 1, denominator: 1 }
    }

    /// `numerator/denominator` in lowest terms with a positive denominator,
    /// or `None` when the denominator is zero.
    pub fn new(numerator: i64, denominator: i64) -> (r: Option<Self>)
        requires
            reducible(numerator, denominator),
        ensures
            denominator == 0 ==> r is None,
            denominator != 0 ==> (r matches Some(q) && q.spec_numerator() == reduced_numerator(
                numerator as int,
                denominator as int,
            ) && q.spec_denominator() == reduced_denominator(
                numerator as int,
                denominator as int,
            )),
    {
        if denominator == 0 {
            return None;
        }
        let an: i64 = if numerator < 0 {
            -numerator
        } else {
            numerator
        };
        let ad: i64 = if denominator < 0 {
            -denominator
        } else {
            denominator
        };
        let g = gcd(an, ad);
        let q: i64 = an / g;
        let den: i64 = ad / g;
        let num: i64 = if (numerator < 0) != (denominator < 0) {
            -q
        } else {
            q
        };
        Some(Rational { numerator: num, denominator: den })
    }

    /// Parses `n/d` or `n` (surrounding white space allowed on each part) and
    /// reduces it; `None` for anything else or a zero denominator.
    pub fn parse(value: &str) -> (r: Option<Self>)
        requires
            spec_rational_parts(value@) matches Some((n, d)) ==> reducible(n, d),
        ensures
            match spec_rational_parts(value@) {
                Some((n, d)) => if d == 0 {
                    r is None
                } else {
                    r matches Some(q) && q.spec_numerator() == reduced_numerator(n as int, d as int)
                        && q.spec_denominator() == reduced_denominator(n as int, d as int)
                },
                None => r is None,
            },
    {
        match rational_parts(value) {
            Some((n, d)) => Self::new(n, d),
            None => None,
        }
    }

    pub fn numerator(self) -> (r: i64)
        ensures
            r == self.spec_numerator(),
    {
        self.numerator
    }

    pub fn denominator(self) -> (r: i64)
        ensures
            r == self.spec_denominator(),
    {
        self.denominator
    }
}

/// A rational in lowest terms with a positive denominator, as every
/// constructor makes it.
pub open spec fn normalized(q: Rational) -> bool {
    &&& q.spec_denominator() > 0
    &&& q.spec_numerator() > i64::MIN
    &&& spec_gcd(spec_abs(q.spec_numerator()), q.spec_denominator() as nat) == 1
}

/// How a rational is written: `n` when the denominator is 1, else `n/d`.
pub open spec fn rational_text(q: Rational) -> Seq<char> {
    if q.spec_denominator() == 1 {
        decimal(q.spec_numerator())
    } else {
        decimal(q.spec_numerator()) + "/"@ + decimal(q.spec_denominator())
    }
}

impl Rational {
    /// The literal for this value: `n`, or `n/d` when the denominator is not 1.
    pub fn to_string(&self) -> (r: String)
        ensures
            r@ == rational_text(*self),
    {
        let mut buf: Vec<char> = Vec::new();
        append_decimal(&mut buf, self.numerator);
        if self.denominator != 1 {
            append_str(&mut buf, "/");
            append_decimal(&mut buf, self.denominator);
        }
        proof {
            reveal_strlit("/");
            assert(buf@ =~= rational_text(*self));
        }
        string_of_chars(buf.as_slice())
    }
}

/// Reading back the literal of a rational in lowest terms gives that
/// rational: the parts parse to its numerator and denominator, which are
/// already reduced.
pub proof fn lemma_rational_text_round_trip(q: Rational)
    requires
        normalized(q),
    ensures
        spec_rational_parts(rational_text(q)) matches Some((n, d)) && d != 0 && reducible(n, d)
            && reduced_numerator(n as int, d as int) == q.spec_numerator() && reduced_denominator(n as int, d as int)
            == q.spec_denominator(),
{
    let n = q.spec_numerator();
    let d = q.spec_denominator();
    lemma_decimal_chars(n);
    lemma_decimal_chars(d);
    lemma_parse_decimal(n);
    lemma_parse_decimal(d);
    let dn = decimal(n);
    let dd = decimal(d);
    assert(!is_white_space(dn[0]));
    assert(!is_white_space(dn.last()));
    assert(!is_white_space(dd.last()));
    lemma_trim_unchanged(dn);
    lemma_trim_unchanged(dd);
    assert(reduce_divisor(n, d) == 1);
    if d == 1 {
        assert(rational_text(q) == dn);
        assert(first_index_of(dn, '/') is None) by {
            if exists|i: int| 0 <= i < dn.len() && dn[i] == '/' {
                let i = choose|i: int| 0 <= i < dn.len() && dn[i] == '/';
                assert(is_digit(dn[i]) || dn[i] == '-');
            }
        }
    } else {
        reveal_strlit("/");
        let t = dn + "/"@ + dd;
        assert(rational_text(q) == t);
        assert(t[0] == dn[0]);
        assert(t.last() == dd.last());
        lemma_trim_unchanged(t);
        let k = dn.len() as int;
        assert(t[k] == '/');
        assert(first_index_of(t, '/') == Some(k)) by {
            let i = choose|i: int| 0 <= i < t.len() && t[i] == '/' && forall|j: int| 0 <= j < i ==> t[j] != '/';
            if i < k {
                assert(t[i] == dn[i]);
                assert(is_digit(dn[i]) || dn[i] == '-');
            }
            if i > k {
                assert(t[k] != '/');
            }
            assert forall|j: int| 0 <= j < k implies t[j] != '/' by {
                assert(t[j] == dn[j]);
                assert(is_digit(dn[j]) || dn[j] == '-');
            }
        }
        assert(t.subrange(0, k) =~= dn);
        assert(t.subrange(k + 1, t.len() as int) =~= dd);
    }
}

/// Euclid's algorithm on non-negative values; at least 1.
fn gcd(lhs: i64, rhs: i64) -> (r: i64)
    requires
        lhs >= 0,
        rhs >= 0,
    ensures
        r == (if spec_gcd(lhs as nat, rhs as nat) == 0 {
            1
        } else {
            spec_gcd(lhs as nat, rhs as nat)
        }),
        r >= 1,
{
    let mut a = lhs;
    let mut b = rhs;
    while b != 0
        invariant
            a >= 0,
            b >= 0,
            spec_gcd(a as nat, b as nat) == spec_gcd(lhs as nat, rhs as nat),
        decreases b,
    {
        let remainder = a % b;
        a = b;
        b = remainder;
    }
    if a > 1 {
        a
    } else {
        proof {
            if spec_gcd(lhs as nat, rhs as nat) != 0 {
                assert(spec_gcd(a as nat, 0) == a);
            }
        }
        1
    }
}

// ---------------------------------------------------------------------------
// Port types
// ---------------------------------------------------------------------------

/// A value kind (`number`, `text`, `any`, ...) with an optional execution domain.
#[derive(Debug, PartialEq, Eq, PartialOrd, Ord, Hash)]
pub struct PortType {
    kind: String,
    domain: Option<ExecutionDomain>,
}

impl View for PortType {
    type V = (Seq<char>, Option<ExecutionDomain>);

    open spec fn view(&self) -> (Seq<char>, Option<ExecutionDomain>) {
        (self.kind_view(), self.domain_view())
    }
}

impl Clone for PortType {
    fn clone(&self) -> (r: Self)
        ensures
            r == *self,
    {
        PortType { kind: self.kind.clone(), domain: self.domain }
    }
}

/// The value kind two port types share, if any: equal kinds, or the other
/// kind when one side is `any`.
pub open spec fn spec_common_kind(a: Seq<char>, b: Seq<char>) -> Option<Seq<char>> {
    if a == b {
        Some(a)
    } else if a == "any"@ {
        Some(b)
    } else if b == "any"@ {
        Some(a)
    } else {
        None
    }
}

/// The domain two port types share: equal or one-sided; `Err` on a conflict.
pub open spec fn spec_common_domain(a: Option<ExecutionDomain>, b: Option<ExecutionDomain>) -> Result<
    Option<ExecutionDomain>,
    (),
> {
    match (a, b) {
        (Some(l), Some(r)) => if l == r {
            Ok(Some(l))
        } else {
            Err(())
        },
        (Some(l), None) => Ok(Some(l)),
        (None, Some(r)) => Ok(Some(r)),
        (None, None) => Ok(None),
    }
}

/// The result of connecting a source type into a target port.
#[derive(Debug, Clone, PartialEq, Eq)]
pub struct PortTypeConnection {
    pub effective_type: PortType,
    pub bridge_kind: Option<DomainBridgeKind>,
}

/// Why a source type cannot feed a target port.
#[derive(Debug, Clone, PartialEq, Eq)]
pub enum PortTypeConnectionError {
    ValueMismatch { expected: PortType, got: PortType },
    UnsupportedDomain { expected: PortType, got: PortType },
}

impl PortType {
    pub closed spec fn kind_view(&self) -> Seq<char> {
        self.kind@
    }

    pub closed spec fn domain_view(&self) -> Option<ExecutionDomain> {
        self.domain
    }

    /// A port type of kind `id` in the control domain.
    pub fn new(id: &str) -> (r: Self)
        ensures
            r.kind_view() == id@,
            r.domain_view() == Some(ExecutionDomain::Control),
    {
        PortType { kind: String::from_str(id), domain: Some(ExecutionDomain::Control) }
    }

    pub fn number() -> (r: Self)
        ensures
            r.kind_view() == "number"@,
            r.domain_view() == Some(ExecutionDomain::Control),
    {
        Self::new("number")
    }

    pub fn text() -> (r: Self)
        ensures
            r.kind_view() == "text"@,
            r.domain_view() == Some(ExecutionDomain::Control),
    {
        Self::new("text")
    }

    pub fn bool() -> (r: Self)
        ensures
            r.kind_view() == "bool"@,
            r.domain_view() == Some(ExecutionDomain::Control),
    {
        Self::new("bool")
    }

    pub fn rational() -> (r: Self)
        ensures
            r.kind_view() == "rational"@,
            r.domain_view() == Some(ExecutionDomain::Control),
    {
        Self::new("rational")
    }

    pub fn any() -> (r: Self)
        ensures
            r.kind_view() == "any"@,
            r.domain_view() == Some(ExecutionDomain::Control),
    {
        Self::new("any")
    }

    /// The same kind in `domain`.
    pub fn with_domain(self, domain: ExecutionDomain) -> (r: Self)
        ensures
            r.kind_view() == self.kind_view(),
            r.domain_view() == Some(domain),
    {
        let mut s = self;
        s.domain = Some(domain);
        s
    }

    /// The same kind with no domain.
    pub fn with_unspecified_domain(self) -> (r: Self)
        ensures
            r.kind_view() == self.kind_view(),
            r.domain_view() is None,
    {
        let mut s = self;
        s.domain = None;
        s
    }

    pub fn as_str(&self) -> (r: &str)
        ensures
            r@ == self.kind_view(),
    {
        self.kind.as_str()
    }

    pub fn domain(&self) -> (r: Option<ExecutionDomain>)
        ensures
            r == self.domain_view(),
    {
        self.domain
    }

    pub fn is_any(&self) -> (r: bool)
        ensures
            r == (self.kind_view() == "any"@),
    {
        str_eq(self.kind.as_str(), "any")
    }

    /// Whether values of `other` can flow into `self` (ignoring domains).
    pub fn accepts(&self, other: &PortType) -> (r: bool)
        ensures
            r == (self.kind_view() == "any"@ || other.kind_view() == "any"@ || self.kind_view()
                == other.kind_view()),
    {
        self.accepts_value(other)
    }

    fn accepts_value(&self, other: &PortType) -> (r: bool)
        ensures
            r == (self.kind_view() == "any"@ || other.kind_view() == "any"@ || self.kind_view()
                == other.kind_view()),
    {
        self.is_any() || other.is_any() || self.kind == other.kind
    }

    fn common_value_type(&self, other: &PortType) -> (r: Option<PortType>)
        ensures
            match spec_common_kind(self.kind_view(), other.kind_view()) {
                Some(k) => r matches Some(t) && t.kind_view() == k && t.domain_view() is None,
                None => r is None,
            },
    {
        if self.kind == other.kind {
            Some(PortType { kind: self.kind.clone(), domain: None })
        } else if self.is_any() {
            Some(PortType { kind: other.kind.clone(), domain: None })
        } else if other.is_any() || self.accepts_value(other) {
            Some(PortType { kind: self.kind.clone(), domain: None })
        } else if other.accepts_value(self) {
            Some(PortType { kind: other.kind.clone(), domain: None })
        } else {
            None
        }
    }

    /// The type both `self` and `other` can be read as: shared kind (with
    /// `any` giving way to the other kind) and shared domain.
    pub fn common_type(&self, other: &PortType) -> (r: Option<PortType>)
        ensures
            match (
                spec_common_kind(self.kind_view(), other.kind_view()),
                spec_common_domain(self.domain_view(), other.domain_view()),
            ) {
                (Some(k), Ok(d)) => r matches Some(t) && t.kind_view() == k && t.domain_view()
                    == d,
                _ => r is None,
            },
    {
        let mut common = match self.common_value_type(other) {
            Some(c) => c,
            None => return None,
        };
        common.domain = match (self.domain, other.domain) {
            (Some(lhs), Some(rhs)) => {
                if lhs == rhs {
                    Some(lhs)
                } else {
                    return None;
                }
            },
            (Some(domain), None) => Some(domain),
            (None, Some(domain)) => Some(domain),
            (None, None) => None,
        };
        Some(common)
    }

    /// Connects a `source` output into a port of type `self`: the effective
    /// type has the shared kind and the target's domain (the source's when the
    /// target has none); a bridge is reported when the domains differ.
    pub fn resolve_connection(&self, source: &PortType) -> (r: Result<
        PortTypeConnection,
        PortTypeConnectionError,
    >)
        ensures
            ({
                let target_domain = match self.domain_view() {
                    Some(d) => Some(d),
                    None => source.domain_view(),
                };
                match spec_common_kind(self.kind_view(), source.kind_view()) {
                    None => r == Err::<PortTypeConnection, PortTypeConnectionError>(
                        PortTypeConnectionError::ValueMismatch { expected: *self, got: *source },
                    ),
                    Some(k) => match (source.domain_view(), target_domain) {
                        (Some(s), Some(t)) => if s != t {
                            match spec_bridge_from_domains(s, t) {
                                None => r == Err::<PortTypeConnection, PortTypeConnectionError>(
                                    PortTypeConnectionError::UnsupportedDomain {
                                        expected: *self,
                                        got: *source,
                                    },
                                ),
                                Some(b) => r matches Ok(c) && c.effective_type.kind_view() == k
                                    && c.effective_type.domain_view() == Some(t) && c.bridge_kind
                                    == Some(b),
                            }
                        } else {
                            r matches Ok(c) && c.effective_type.kind_view() == k
                                && c.effective_type.domain_view() == Some(t) && c.bridge_kind is None
                        },
                        _ => r matches Ok(c) && c.effective_type.kind_view() == k
                            && c.effective_type.domain_view() == target_domain
                            && c.bridge_kind is None,
                    },
                }
            }),
    {
        let mut effective_type = match self.common_value_type(source) {
            Some(t) => t,
            None => {
                return Err(
                    PortTypeConnectionError::ValueMismatch {
                        expected: self.clone(),
                        got: source.clone(),
                    },
                );
            },
        };
        let target_domain = match self.domain {
            Some(d) => Some(d),
            None => source.domain,
        };
        let bridge_kind = match (source.domain, target_domain) {
            (Some(source_domain), Some(target)) => {
                if source_domain != target {
                    match DomainBridgeKind::from_domains(source_domain, target) {
                        Some(kind) => {
                            effective_type.domain = Some(target);
                            Some(kind)
                        },
                        None => {
                            return Err(
                                PortTypeConnectionError::UnsupportedDomain {
                                    expected: self.clone(),
                                    got: source.clone(),
                                },
                            );
                        },
                    }
                } else {
                    effective_type.domain = Some(source_domain);
                    None
                }
            },
            (Some(source_domain), None) => {
                effective_type.domain = Some(source_domain);
                None
            },
            (None, Some(target)) => {
                effective_type.domain = Some(target);
                None
            },
            (None, None) => {
                effective_type.domain = None;
                None
            },
        };
        Ok(PortTypeConnection { effective_type, bridge_kind })
    }
}

/// A source of kind `sk` in domain `sd` can feed a port of kind `tk` in
/// domain `td`: the kinds meet, and where both domains are known and differ,
/// a bridge between them exists (a port without a domain takes the source's).
pub open spec fn spec_connects(
    tk: Seq<char>,
    td: Option<ExecutionDomain>,
    sk: Seq<char>,
    sd: Option<ExecutionDomain>,
) -> bool {
    let target_domain = match td {
        Some(d) => Some(d),
        None => sd,
    };
    &&& spec_common_kind(tk, sk) is Some
    &&& match (sd, target_domain) {
        (Some(s), Some(t)) => s == t || spec_bridge_from_domains(s, t) is Some,
        _ => true,
    }
}

/// Reading two port types as one does not depend on their order.
pub proof fn lemma_common_type_symmetric(a: PortType, b: PortType)
    ensures
        spec_common_kind(a.kind_view(), b.kind_view()) == spec_common_kind(
            b.kind_view(),
            a.kind_view(),
        ),
        spec_common_domain(a.domain_view(), b.domain_view()) == spec_common_domain(
            b.domain_view(),
            a.domain_view(),
        ),
{
}

/// Broad family of a registered piece.
#[derive(Debug, Clone, Copy, PartialEq, Eq, Structural)]
pub enum PieceCategory {
    Generator,
    Transform,
    Trick,
    Constant,
    Output,
    Control,
    Connector,
}

/// What a piece means to the compiler.
#[derive(Debug, Clone, Copy, PartialEq, Eq, Structural)]
pub enum PieceSemanticKind {
    Literal,
    Operator,
    Construct,
    Intrinsic,
    Trick,
    Output,
    Connector,
}

/// The role a port plays in a piece's evaluation.
#[derive(Debug, PartialEq, Eq, Default)]
pub enum PortRole {
    #[default]
    Value,
    Gate,
    Signal,
    Callback,
    Sequence,
    Field { name: String },
}

impl Clone for PortRole {
    fn clone(&self) -> (r: Self)
        ensures
            r == *self,
    {
        match self {
            PortRole::Value => PortRole::Value,
            PortRole::Gate => PortRole::Gate,
            PortRole::Signal => PortRole::Signal,
            PortRole::Callback => PortRole::Callback,
            PortRole::Sequence => PortRole::Sequence,
            PortRole::Field { name } => PortRole::Field { name: name.clone() },
        }
    }
}

impl PortRole {
    pub fn is_value(&self) -> (r: bool)
        ensures
            r == (*self is Value),
    {
        match self {
            PortRole::Value => true,
            _ => false,
        }
    }
}

// Edge identifiers
// ---------------------------------------------------------------------------

/// `uuid::Uuid`, carried as an opaque value.
#[verifier::external_type_specification]
#[verifier::external_body]
pub struct OpaqueUuid(uuid::Uuid);

/// The 128 bits of an id, most significant byte first (`Uuid::as_u128`).
pub uninterp spec fn uuid_bits(u: uuid::Uuid) -> u128;

/// `Uuid::as_u128`: the id's bytes read as one big-endian number. Stated:
/// the result is `uuid_bits` of the id, a function of the id alone.
#[verifier::external_body]
fn uuid_as_u128(u: &uuid::Uuid) -> (r: u128)
    ensures
        r == uuid_bits(*u),
{
    u.as_u128()
}

/// `Uuid::new_v4`: a fresh random id. Nothing is stated of it.
#[verifier::external_body]
fn uuid_new_v4() -> uuid::Uuid {
    uuid::Uuid::new_v4()
}

/// The lower-case hexadecimal digit for `d` in `0..16`.
pub open spec fn hex_char(d: int) -> char {
    if d < 10 {
        (('0' as int) + d) as char
    } else {
        (('a' as int) + d - 10) as char
    }
}

/// The last `count` hexadecimal digits of `n`, most significant first.
pub open spec fn hex_digits(n: nat, count: nat) -> Seq<char>
    decreases count,
{
    if count == 0 {
        Seq::empty()
    } else {
        hex_digits(n / 16, (count - 1) as nat).push(hex_char((n % 16) as int))
    }
}

/// An id's text: its 32 lower-case hexadecimal digits in groups of 8, 4,
/// 4, 4 and 12, joined by hyphens.
pub open spec fn uuid_text(bits: u128) -> Seq<char> {
    let h = hex_digits(bits as nat, 32);
    h.subrange(0, 8) + seq!['-'] + h.subrange(8, 12) + seq!['-'] + h.subrange(12, 16) + seq!['-'] + h.subrange(
        16,
        20,
    ) + seq!['-'] + h.subrange(20, 32)
}

/// `Uuid`'s `Display`, which writes the hyphenated lower-case form. Stated:
/// the text is `uuid_text` of the id's bits.
#[verifier::external_body]
fn uuid_to_text(u: &uuid::Uuid) -> (r: String)
    ensures
        r@ == uuid_text(uuid_bits(*u)),
{
    format!("{}", u)
}

/// The stable identity of a graph edge. Edges are ordered as `Uuid` orders
/// them, byte by byte, which is the order of their 128-bit values.
#[derive(Debug, Copy, PartialEq, Eq, PartialOrd, Ord, Hash)]
pub struct EdgeId(pub uuid::Uuid);

impl View for EdgeId {
    type V = u128;

    open spec fn view(&self) -> u128 {
        uuid_bits(self.0)
    }
}

impl Clone for EdgeId {
    fn clone(&self) -> (r: Self)
        ensures
            r == *self,
    {
        EdgeId(self.0)
    }
}

impl EdgeId {
    /// A fresh random id.
    pub fn new() -> (r: Self) {
        EdgeId(uuid_new_v4())
    }

    /// The id's 128-bit value.
    pub fn bits(&self) -> (r: u128)
        ensures
            r == self@,
    {
        uuid_as_u128(&self.0)
    }

    /// The id in its hyphenated text form.
    pub fn text(&self) -> (r: String)
        ensures
            r@ == uuid_text(self@),
    {
        uuid_to_text(&self.0)
    }
}

/// A connection that crosses execution domains through a bridge.
#[derive(Debug, Clone, PartialEq, Eq)]
pub struct DomainBridge {
    pub edge_id: EdgeId,
    pub source_pos: GridPos,
    pub target_pos: GridPos,
    pub param: String,
    pub kind: DomainBridgeKind,
}

impl Default for EdgeId {
    fn default() -> (r: Self) {
        EdgeId::new()
    }
}

impl OrderedKey for EdgeId {
    open spec fn key_lt(a: u128, b: u128) -> bool {
        a < b
    }

    proof fn lemma_key_lt_irreflexive(a: u128) {
    }

    proof fn lemma_key_lt_transitive(a: u128, b: u128, c: u128) {
    }

    proof fn lemma_key_lt_total(a: u128, b: u128) {
    }

    fn compare_key(&self, other: &Self) -> (r: i8) {
        let a = self.bits();
        let b = other.bits();
        if a < b {
            -1
        } else if a == b {
            0
        } else {
            1
        }
    }

    fn clone_key(&self) -> (r: Self) {
        self.clone()
    }
}

} // verus!
