//! Circuit intermediate representation used by the compiler transforms.
//!
//! Operations carry their operands in `SmallVec` buffers (held in the
//! library's own [`QubitList`] and [`ParamList`] wrappers), and fixed angles
//! are kept as exact dyadic multiples of either `pi` or a caller-supplied
//! literal, so that halving and negation never lose information.
use smallvec::SmallVec;
use vstd::prelude::*;

verus! {

/// Handle of one qubit in a circuit.
#[derive(Clone, Copy, Debug, PartialEq, Eq, Hash, Structural)]
pub struct Qubit {
    pub id: u32,
}

impl Qubit {
    /// Creates a qubit handle with the given identifier.
    pub fn new(id: u32) -> (q: Qubit)
        ensures
            q.id == id,
    {
        Qubit { id }
    }

    /// Returns the qubit identifier.
    pub fn id(&self) -> (r: u32)
        ensures
            r == self.id,
    {
        self.id
    }

    /// Returns the qubit identifier as an index.
    pub fn index(&self) -> (r: usize)
        ensures
            r == self.id,
    {
        self.id as usize
    }
}

/// Standard gates known to the compiler.
#[derive(Clone, Copy, Debug, PartialEq, Eq, Hash, Structural)]
pub enum StandardGate {
    I,
    X,
    Y,
    Z,
    H,
    S,
    SDG,
    T,
    TDG,
    X2P,
    X2M,
    Y2P,
    Y2M,
    RX,
    RY,
    RZ,
    Phase,
    U,
    RXY,
    XY,
    XY2P,
    XY2M,
    GPhase,
    CX,
    CY,
    CZ,
    CRX,
    CRY,
    CRZ,
    SWAP,
    FSIM,
    RXX,
    RYY,
    RZZ,
    RZX,
    CCX,
}

/// Number of qubits a standard gate acts on.
pub open spec fn gate_qubit_count(gate: StandardGate) -> nat {
    match gate {
        StandardGate::GPhase => 0,
        StandardGate::CX | StandardGate::CY | StandardGate::CZ | StandardGate::CRX
        | StandardGate::CRY | StandardGate::CRZ | StandardGate::SWAP | StandardGate::FSIM
        | StandardGate::RXX | StandardGate::RYY | StandardGate::RZZ | StandardGate::RZX => 2,
        StandardGate::CCX => 3,
        _ => 1,
    }
}

/// Number of leading control operands of a standard gate.
pub open spec fn gate_control_count(gate: StandardGate) -> nat {
    match gate {
        StandardGate::CX | StandardGate::CY | StandardGate::CZ | StandardGate::CRX
        | StandardGate::CRY | StandardGate::CRZ => 1,
        StandardGate::CCX => 2,
        _ => 0,
    }
}

/// Number of angle parameters of a standard gate.
pub open spec fn gate_param_count(gate: StandardGate) -> nat {
    match gate {
        StandardGate::RX | StandardGate::RY | StandardGate::RZ | StandardGate::Phase
        | StandardGate::XY | StandardGate::XY2P | StandardGate::XY2M | StandardGate::GPhase
        | StandardGate::CRX | StandardGate::CRY | StandardGate::CRZ | StandardGate::RXX
        | StandardGate::RYY | StandardGate::RZZ | StandardGate::RZX => 1,
        StandardGate::RXY | StandardGate::FSIM => 2,
        StandardGate::U => 3,
        _ => 0,
    }
}

/// Inverse of a parameter-free standard gate, when it is again parameter-free.
pub open spec fn parameter_free_inverse(gate: StandardGate) -> Option<StandardGate> {
    match gate {
        StandardGate::I => Some(StandardGate::I),
        StandardGate::X => Some(StandardGate::X),
        StandardGate::Y => Some(StandardGate::Y),
        StandardGate::Z => Some(StandardGate::Z),
        StandardGate::H => Some(StandardGate::H),
        StandardGate::S => Some(StandardGate::SDG),
        StandardGate::SDG => Some(StandardGate::S),
        StandardGate::T => Some(StandardGate::TDG),
        StandardGate::TDG => Some(StandardGate::T),
        StandardGate::X2P => Some(StandardGate::X2M),
        StandardGate::X2M => Some(StandardGate::X2P),
        StandardGate::Y2P => Some(StandardGate::Y2M),
        StandardGate::Y2M => Some(StandardGate::Y2P),
        StandardGate::CX => Some(StandardGate::CX),
        StandardGate::CY => Some(StandardGate::CY),
        StandardGate::CZ => Some(StandardGate::CZ),
        StandardGate::SWAP => Some(StandardGate::SWAP),
        StandardGate::CCX => Some(StandardGate::CCX),
        _ => None,
    }
}

impl StandardGate {
    /// Returns the number of qubits this gate acts on.
    pub fn num_qubits(&self) -> (r: usize)
        ensures
            r == gate_qubit_count(*self),
    {
        match self {
            StandardGate::GPhase => 0,
            StandardGate::CX | StandardGate::CY | StandardGate::CZ | StandardGate::CRX
            | StandardGate::CRY | StandardGate::CRZ | StandardGate::SWAP | StandardGate::FSIM
            | StandardGate::RXX | StandardGate::RYY | StandardGate::RZZ | StandardGate::RZX => 2,
            StandardGate::CCX => 3,
            _ => 1,
        }
    }

    /// Returns the number of leading control operands.
    pub fn num_ctrl_qubits(&self) -> (r: usize)
        ensures
            r == gate_control_count(*self),
    {
        match self {
            StandardGate::CX | StandardGate::CY | StandardGate::CZ | StandardGate::CRX
            | StandardGate::CRY | StandardGate::CRZ => 1,
            StandardGate::CCX => 2,
            _ => 0,
        }
    }

    /// Returns the number of angle parameters.
    pub fn num_params(&self) -> (r: usize)
        ensures
            r == gate_param_count(*self),
    {
        match self {
            StandardGate::RX | StandardGate::RY | StandardGate::RZ | StandardGate::Phase
            | StandardGate::XY | StandardGate::XY2P | StandardGate::XY2M | StandardGate::GPhase
            | StandardGate::CRX | StandardGate::CRY | StandardGate::CRZ | StandardGate::RXX
            | StandardGate::RYY | StandardGate::RZZ | StandardGate::RZX => 1,
            StandardGate::RXY | StandardGate::FSIM => 2,
            StandardGate::U => 3,
            _ => 0,
        }
    }

    /// Returns the inverse of a parameter-free gate, if it is parameter-free.
    pub fn parameter_free_inverse(&self) -> (r: Option<StandardGate>)
        ensures
            r == parameter_free_inverse(*self),
    {
        match self {
            StandardGate::I => Some(StandardGate::I),
            StandardGate::X => Some(StandardGate::X),
            StandardGate::Y => Some(StandardGate::Y),
            StandardGate::Z => Some(StandardGate::Z),
            StandardGate::H => Some(StandardGate::H),
            StandardGate::S => Some(StandardGate::SDG),
            StandardGate::SDG => Some(StandardGate::S),
            StandardGate::T => Some(StandardGate::TDG),
            StandardGate::TDG => Some(StandardGate::T),
            StandardGate::X2P => Some(StandardGate::X2M),
            StandardGate::X2M => Some(StandardGate::X2P),
            StandardGate::Y2P => Some(StandardGate::Y2M),
            StandardGate::Y2M => Some(StandardGate::Y2P),
            StandardGate::CX => Some(StandardGate::CX),
            StandardGate::CY => Some(StandardGate::CY),
            StandardGate::CZ => Some(StandardGate::CZ),
            StandardGate::SWAP => Some(StandardGate::SWAP),
            StandardGate::CCX => Some(StandardGate::CCX),
            _ => None,
        }
    }
}

/// A standard gate wrapped with additional leading control qubits.
#[derive(Clone, Copy, Debug, PartialEq, Eq, Hash, Structural)]
pub struct McGate {
    pub added_controls: u8,
    pub base: StandardGate,
}

impl McGate {
    /// Creates a multi-controlled wrapper with `added_controls` extra controls.
    pub fn new(added_controls: u8, base: StandardGate) -> (g: McGate)
        ensures
            g.added_controls == added_controls,
            g.base == base,
    {
        McGate { added_controls, base }
    }

    /// Returns the wrapped base gate.
    pub fn base_gate(&self) -> (r: StandardGate)
        ensures
            r == self.base,
    {
        self.base
    }

    /// Returns the operand count: added controls plus base operands.
    pub fn num_qubits(&self) -> (r: usize)
        ensures
            r == self.added_controls + gate_qubit_count(self.base),
    {
        self.added_controls as usize + self.base.num_qubits()
    }

    /// Returns the parameter count of the wrapped base gate.
    pub fn num_params(&self) -> (r: usize)
        ensures
            r == gate_param_count(self.base),
    {
        self.base.num_params()
    }

    /// Returns the total number of controls: added plus inherent.
    pub fn num_ctrl_qubits(&self) -> (r: usize)
        ensures
            r == self.added_controls + gate_control_count(self.base),
    {
        self.added_controls as usize + self.base.num_ctrl_qubits()
    }
}

/// Compiler directives.
#[derive(Clone, Copy, Debug, PartialEq, Eq, Hash, Structural)]
pub enum Directive {
    Barrier,
}

/// Instruction carried by an operation.
#[derive(Clone, Copy, Debug, PartialEq, Eq, Hash, Structural)]
pub enum Instruction {
    Standard(StandardGate),
    McGate(McGate),
    Directive(Directive),
    Delay,
}

/// What an angle coefficient multiplies.
#[derive(Clone, Copy, Debug, PartialEq, Eq, Hash, Structural)]
pub enum AngleBase {
    /// The constant `pi`.
    Pi,
    /// A caller-supplied value, held as its IEEE-754 bit pattern.
    Literal(u64),
}

/// Exact fixed angle `numerator / 2^log2_denominator * base`.
#[derive(Clone, Copy, Debug, PartialEq, Eq, Hash, Structural)]
pub struct Angle {
    pub numerator: i64,
    pub log2_denominator: u32,
    pub base: AngleBase,
}

/// Largest denominator exponent an angle may reach by halving.
pub const MAX_ANGLE_LOG2_DENOMINATOR: u32 = 1024;

/// Spec of a fixed angle scaled by `factor / 2^extra_log2`, when representable.
pub open spec fn scaled_angle(angle: Angle, factor: int, extra_log2: nat) -> Option<Angle> {
    let numerator = angle.numerator * factor;
    let log2 = angle.log2_denominator + extra_log2;
    if i64::MIN < numerator <= i64::MAX && log2 <= MAX_ANGLE_LOG2_DENOMINATOR {
        Some(Angle { numerator: numerator as i64, log2_denominator: log2 as u32, base: angle.base })
    } else {
        None
    }
}

/// Whether a fixed angle is exactly zero (`0.0` or `-0.0` for literals).
pub open spec fn angle_is_zero(angle: Angle) -> bool {
    angle.numerator == 0 || match angle.base {
        AngleBase::Pi => false,
        AngleBase::Literal(bits) => bits == 0 || bits == 0x8000_0000_0000_0000u64,
    }
}

impl Angle {
    /// Spec form of [`Angle::pi_fraction`].
    pub open spec fn pi_fraction_spec(numerator: i64, log2_denominator: u32) -> Angle {
        Angle { numerator, log2_denominator, base: AngleBase::Pi }
    }

    /// An angle equal to the caller-supplied value with the given bit pattern.
    pub fn literal(bits: u64) -> (a: Angle)
        ensures
            a == (Angle { numerator: 1, log2_denominator: 0, base: AngleBase::Literal(bits) }),
    {
        Angle { numerator: 1, log2_denominator: 0, base: AngleBase::Literal(bits) }
    }

    /// The angle `numerator / 2^log2_denominator * pi`.
    pub fn pi_fraction(numerator: i64, log2_denominator: u32) -> (a: Angle)
        ensures
            a == (Angle { numerator, log2_denominator, base: AngleBase::Pi }),
    {
        Angle { numerator, log2_denominator, base: AngleBase::Pi }
    }

    /// Scales the angle by `factor / 2^extra_log2`, failing when the exact
    /// result leaves the representable range.
    pub fn scaled(&self, factor: i64, extra_log2: u32) -> (r: Option<Angle>)
        ensures
            r == scaled_angle(*self, factor as int, extra_log2 as nat),
    {
        let a = self.numerator as i128;
        let b = factor as i128;
        proof {
            assert(-0x8000_0000_0000_0000 <= a <= 0x7fff_ffff_ffff_ffff);
            assert(-0x8000_0000_0000_0000 <= b <= 0x7fff_ffff_ffff_ffff);
            assert(-0x4000_0000_0000_0000_0000_0000_0000_0000 <= a * b <= 0x4000_0000_0000_0000_0000_0000_0000_0000)
                by (nonlinear_arith)
                requires
                    -0x8000_0000_0000_0000 <= a <= 0x7fff_ffff_ffff_ffff,
                    -0x8000_0000_0000_0000 <= b <= 0x7fff_ffff_ffff_ffff;
        }
        let numerator = a * b;
        let log2 = self.log2_denominator as u64 + extra_log2 as u64;
        let low: i128 = i64::MIN as i128;
        let high: i128 = i64::MAX as i128;
        let limit: u64 = MAX_ANGLE_LOG2_DENOMINATOR as u64;
        if low < numerator && numerator <= high && log2 <= limit {
            Some(Angle { numerator: numerator as i64, log2_denominator: log2 as u32, base: self.base })
        } else {
            None
        }
    }

    /// Whether the angle is exactly zero.
    pub fn is_zero(&self) -> (r: bool)
        ensures
            r == angle_is_zero(*self),
    {
        self.numerator == 0 || match self.base {
            AngleBase::Pi => false,
            AngleBase::Literal(bits) => bits == 0 || bits == 0x8000_0000_0000_0000u64,
        }
    }
}

/// Operation parameter: a fixed angle or an index into the circuit parameter table.
#[derive(Clone, Copy, Debug, PartialEq, Eq, Hash, Structural)]
pub enum CircuitParam {
    Fixed(Angle),
    Index(u32),
}

/// Qubit operands of one operation, kept in a `SmallVec` buffer.
#[verifier::external_body]
#[derive(Debug, PartialEq, Eq)]
pub struct QubitList {
    items: SmallVec<[Qubit; 3]>,
}

/// Parameters of one operation, kept in a `SmallVec` buffer.
#[verifier::external_body]
#[derive(Debug, PartialEq, Eq)]
pub struct ParamList {
    items: SmallVec<[CircuitParam; 3]>,
}

/// The qubits held by a qubit list, in order.
pub uninterp spec fn qubit_items(list: QubitList) -> Seq<Qubit>;

/// The parameters held by a parameter list, in order.
pub uninterp spec fn param_items(list: ParamList) -> Seq<CircuitParam>;

impl QubitList {
    /// Builds the list by copying a slice (`SmallVec::from_slice`).
    #[verifier::external_body]
    pub(crate) fn from_slice(items: &[Qubit]) -> (r: QubitList)
        ensures
            qubit_items(r) == items@,
    {
        QubitList { items: SmallVec::from_slice(items) }
    }

    /// Number of qubits in the list (`SmallVec::len`).
    #[verifier::external_body]
    pub(crate) fn len(&self) -> (r: usize)
        ensures
            r == qubit_items(*self).len(),
    {
        self.items.len()
    }

    /// Views the list as a slice (`SmallVec::as_slice`).
    #[verifier::external_body]
    pub(crate) fn as_slice(&self) -> (r: &[Qubit])
        ensures
            r@ == qubit_items(*self),
    {
        self.items.as_slice()
    }

    /// Copies the list (`SmallVec::clone`).
    #[verifier::external_body]
    pub(crate) fn duplicate(&self) -> (r: QubitList)
        ensures
            qubit_items(r) == qubit_items(*self),
    {
        QubitList { items: self.items.clone() }
    }

    /// The qubits of the list, in order.
    pub fn to_vec(&self) -> (r: Vec<Qubit>)
        ensures
            r@ == qubit_items(*self),
    {
        let items = self.as_slice();
        let mut r: Vec<Qubit> = Vec::new();
        let mut i: usize = 0;
        while i < items.len()
            invariant
                i <= items@.len(),
                items@ == qubit_items(*self),
                r@ == items@.subrange(0, i as int),
            decreases items@.len() - i,
        {
            r.push(items[i]);
            i = i + 1;
            proof {
                assert(r@ =~= items@.subrange(0, i as int));
            }
        }
        proof {
            assert(items@.subrange(0, items@.len() as int) =~= items@);
        }
        r
    }
}

impl ParamList {
    /// Builds the list by copying a slice (`SmallVec::from_slice`).
    #[verifier::external_body]
    pub(crate) fn from_slice(items: &[CircuitParam]) -> (r: ParamList)
        ensures
            param_items(r) == items@,
    {
        ParamList { items: SmallVec::from_slice(items) }
    }

    /// Number of parameters in the list (`SmallVec::len`).
    #[verifier::external_body]
    pub(crate) fn len(&self) -> (r: usize)
        ensures
            r == param_items(*self).len(),
    {
        self.items.len()
    }

    /// Views the list as a slice (`SmallVec::as_slice`).
    #[verifier::external_body]
    pub(crate) fn as_slice(&self) -> (r: &[CircuitParam])
        ensures
            r@ == param_items(*self),
    {
        self.items.as_slice()
    }

    /// Copies the list (`SmallVec::clone`).
    #[verifier::external_body]
    pub(crate) fn duplicate(&self) -> (r: ParamList)
        ensures
            param_items(r) == param_items(*self),
    {
        ParamList { items: self.items.clone() }
    }

    /// The parameters of the list, in order.
    pub fn to_vec(&self) -> (r: Vec<CircuitParam>)
        ensures
            r@ == param_items(*self),
    {
        let items = self.as_slice();
        let mut r: Vec<CircuitParam> = Vec::new();
        let mut i: usize = 0;
        while i < items.len()
            invariant
                i <= items@.len(),
                items@ == param_items(*self),
                r@ == items@.subrange(0, i as int),
            decreases items@.len() - i,
        {
            r.push(items[i]);
            i = i + 1;
            proof {
                assert(r@ =~= items@.subrange(0, i as int));
            }
        }
        proof {
            assert(items@.subrange(0, items@.len() as int) =~= items@);
        }
        r
    }
}

/// One circuit operation.
#[derive(Debug, PartialEq, Eq)]
pub struct Operation {
    pub instruction: Instruction,
    pub qubits: QubitList,
    pub params: ParamList,
    pub label: Option<String>,
}

/// Operations whose parameters are self-contained values.
pub type ValueOperation = Operation;

/// Abstract content of an operation.
pub struct OpView {
    pub instruction: Instruction,
    pub qubits: Seq<Qubit>,
    pub params: Seq<CircuitParam>,
    pub label: Option<Seq<char>>,
}

/// The abstract content of an operation.
pub open spec fn op_view(op: Operation) -> OpView {
    OpView {
        instruction: op.instruction,
        qubits: qubit_items(op.qubits),
        params: param_items(op.params),
        label: match op.label {
            Some(s) => Some(s@),
            None => None,
        },
    }
}

/// The abstract contents of a sequence of operations.
pub open spec fn ops_view(ops: Seq<Operation>) -> Seq<OpView> {
    ops.map_values(|op: Operation| op_view(op))
}

/// An unlabeled standard-gate operation without parameters.
pub open spec fn plain(gate: StandardGate, qubits: Seq<Qubit>) -> OpView {
    OpView { instruction: Instruction::Standard(gate), qubits, params: seq![], label: None }
}

/// An unlabeled standard-gate operation with parameters.
pub open spec fn with_params(gate: StandardGate, qubits: Seq<Qubit>, params: Seq<CircuitParam>) -> OpView {
    OpView { instruction: Instruction::Standard(gate), qubits, params, label: None }
}

/// Builds an unlabeled operation from its parts.
pub fn make_operation(instruction: Instruction, qubits: &[Qubit], params: &[CircuitParam]) -> (r: Operation)
    ensures
        op_view(r) == (OpView { instruction, qubits: qubits@, params: params@, label: None }),
{
    Operation {
        instruction,
        qubits: QubitList::from_slice(qubits),
        params: ParamList::from_slice(params),
        label: None,
    }
}

/// Builds an unlabeled parameter-free standard-gate operation.
pub fn standard_operation(gate: StandardGate, qubits: &[Qubit]) -> (r: Operation)
    ensures
        op_view(r) == plain(gate, qubits@),
{
    let empty: [CircuitParam; 0] = [];
    proof {
        assert(empty@ =~= Seq::<CircuitParam>::empty());
    }
    make_operation(Instruction::Standard(gate), qubits, &empty)
}

/// Appends an unlabeled parameter-free standard-gate operation.
pub fn push_standard_gate(operations: &mut Vec<Operation>, gate: StandardGate, qubits: &[Qubit])
    ensures
        ops_view(final(operations)@) == ops_view(old(operations)@).push(plain(gate, qubits@)),
{
    let op = standard_operation(gate, qubits);
    operations.push(op);
    proof {
        assert(ops_view(operations@) =~= ops_view(old(operations)@).push(plain(gate, qubits@)));
    }
}

/// Copies an operation field by field.
pub fn copy_operation(op: &Operation) -> (r: Operation)
    ensures
        op_view(r) == op_view(*op),
{
    let label = match &op.label {
        Some(s) => Some(s.clone()),
        None => None,
    };
    Operation {
        instruction: op.instruction,
        qubits: op.qubits.duplicate(),
        params: op.params.duplicate(),
        label,
    }
}

/// Appends copies of `source[from..to]` to `out`.
pub fn extend_with_copies(out: &mut Vec<Operation>, source: &Vec<Operation>, from: usize, to: usize)
    requires
        from <= to <= source.len(),
    ensures
        ops_view(final(out)@) == ops_view(old(out)@) + ops_view(source@.subrange(from as int, to as int)),
{
    let mut i = from;
    while i < to
        invariant
            from <= i <= to <= source.len(),
            ops_view(out@) == ops_view(old(out)@) + ops_view(source@.subrange(from as int, i as int)),
        decreases to - i,
    {
        let op = copy_operation(&source[i]);
        let ghost before = out@;
        out.push(op);
        proof {
            assert(ops_view(out@) =~= ops_view(before).push(op_view(op)));
            assert(ops_view(source@.subrange(from as int, i + 1)) =~= ops_view(
                source@.subrange(from as int, i as int),
            ).push(op_view(source@[i as int])));
        }
        i = i + 1;
    }
    proof {
        assert(ops_view(out@) =~= ops_view(old(out)@) + ops_view(source@.subrange(from as int, to as int)));
    }
}

/// Appends `source` to `out`, consuming it.
pub fn append_all(out: &mut Vec<Operation>, source: Vec<Operation>)
    ensures
        ops_view(final(out)@) == ops_view(old(out)@) + ops_view(source@),
{
    let ghost original = source@;
    let mut source = source;
    out.append(&mut source);
    proof {
        assert(ops_view(out@) =~= ops_view(old(out)@) + ops_view(original));
    }
}

/// Appends an unlabeled parameter-free one-qubit gate.
pub fn push_gate1(operations: &mut Vec<Operation>, gate: StandardGate, q: Qubit)
    ensures
        ops_view(final(operations)@) == ops_view(old(operations)@).push(plain(gate, seq![q])),
{
    let qs = [q];
    proof {
        assert(qs@ =~= seq![q]);
    }
    push_standard_gate(operations, gate, &qs);
}

/// Appends an unlabeled parameter-free two-qubit gate.
pub fn push_gate2(operations: &mut Vec<Operation>, gate: StandardGate, a: Qubit, b: Qubit)
    ensures
        ops_view(final(operations)@) == ops_view(old(operations)@).push(plain(gate, seq![a, b])),
{
    let qs = [a, b];
    proof {
        assert(qs@ =~= seq![a, b]);
    }
    push_standard_gate(operations, gate, &qs);
}

/// Appends an unlabeled parameter-free three-qubit gate.
pub fn push_gate3(operations: &mut Vec<Operation>, gate: StandardGate, a: Qubit, b: Qubit, c: Qubit)
    ensures
        ops_view(final(operations)@) == ops_view(old(operations)@).push(plain(gate, seq![a, b, c])),
{
    let qs = [a, b, c];
    proof {
        assert(qs@ =~= seq![a, b, c]);
    }
    push_standard_gate(operations, gate, &qs);
}

/// Appends an unlabeled one-qubit gate with one parameter.
pub fn push_param_gate1(operations: &mut Vec<Operation>, gate: StandardGate, q: Qubit, param: CircuitParam)
    ensures
        ops_view(final(operations)@) == ops_view(old(operations)@).push(with_params(gate, seq![q], seq![param])),
{
    let qs = [q];
    let ps = [param];
    proof {
        assert(qs@ =~= seq![q]);
        assert(ps@ =~= seq![param]);
    }
    let op = make_operation(Instruction::Standard(gate), &qs, &ps);
    let ghost before = ops_view(operations@);
    operations.push(op);
    proof {
        assert(ops_view(operations@) =~= before.push(with_params(gate, seq![q], seq![param])));
    }
}

/// A quantum circuit: qubit count, symbolic parameter table, operation
/// sequence, and global phase.
///
/// `CircuitParam::Index(i)` operands refer to `parameters[i]`; the table's
/// entries are symbolic expressions the library carries without reading.
#[derive(Debug, PartialEq, Eq)]
pub struct Circuit {
    pub num_qubits: u32,
    pub parameters: Vec<String>,
    pub operations: Vec<Operation>,
    pub global_phase: Angle,
}

impl Circuit {
    /// An empty circuit over `num_qubits` qubits.
    pub fn new(num_qubits: u32) -> (r: Circuit)
        ensures
            r.num_qubits == num_qubits,
            r.parameters@.len() == 0,
            r.operations@.len() == 0,
            r.global_phase == Angle::pi_fraction_spec(0, 0),
    {
        Circuit {
            num_qubits,
            parameters: Vec::new(),
            operations: Vec::new(),
            global_phase: Angle::pi_fraction(0, 0),
        }
    }

    /// The operation sequence.
    pub fn operations(&self) -> (r: &Vec<Operation>)
        ensures
            r == &self.operations,
    {
        &self.operations
    }

    /// The symbolic parameter table.
    pub fn parameters(&self) -> (r: &Vec<String>)
        ensures
            r == &self.parameters,
    {
        &self.parameters
    }
}

/// Copies a list of strings.
pub fn copy_strings(items: &Vec<String>) -> (r: Vec<String>)
    ensures
        r@.len() == items@.len(),
        forall|i: int| 0 <= i < items@.len() ==> r@[i]@ == items@[i]@,
{
    let mut r: Vec<String> = Vec::new();
    let mut i: usize = 0;
    while i < items.len()
        invariant
            i <= items.len(),
            r@.len() == i,
            forall|j: int| 0 <= j < i ==> r@[j]@ == items@[j]@,
        decreases items.len() - i,
    {
        r.push(items[i].clone());
        i = i + 1;
    }
    r
}

/// Abstract content of a circuit.
pub struct CircuitView {
    pub num_qubits: u32,
    pub parameters: Seq<Seq<char>>,
    pub ops: Seq<OpView>,
    pub global_phase: Angle,
}

/// The abstract content of a circuit.
pub open spec fn circuit_view(c: Circuit) -> CircuitView {
    CircuitView {
        num_qubits: c.num_qubits,
        parameters: c.parameters@.map_values(|s: String| s@),
        ops: ops_view(c.operations@),
        global_phase: c.global_phase,
    }
}

/// Copies a circuit.
pub fn copy_circuit(c: &Circuit) -> (r: Circuit)
    ensures
        circuit_view(r) == circuit_view(*c),
{
    let parameters = copy_strings(&c.parameters);
    let mut operations: Vec<Operation> = Vec::new();
    extend_with_copies(&mut operations, &c.operations, 0, c.operations.len());
    proof {
        assert(c.operations@.subrange(0, c.operations@.len() as int) =~= c.operations@);
        assert(ops_view(operations@) =~= ops_view(c.operations@));
        assert(parameters@.map_values(|s: String| s@) =~= c.parameters@.map_values(|s: String| s@));
    }
    Circuit { num_qubits: c.num_qubits, parameters, operations, global_phase: c.global_phase }
}

} // verus!
