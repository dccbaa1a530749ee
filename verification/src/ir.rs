//! Bytecode: opcodes, their byte encoding, and chunks of emitted code.
use vstd::prelude::*;


verus! {

/// Bytecode opcodes of the virtual machine. An operand is a 16-bit number that
/// follows the opcode byte in little-endian order.
#[derive(Debug, Clone, Copy, PartialEq, Eq, Structural)]
pub enum Opcode {
    LoadConst(u16),
    LoadLocal(u16),
    StoreLocal(u16),
    LoadGlobal(u16),
    StoreGlobal(u16),
    Pop,
    Dup,
    And,
    Or,
    Add,
    Sub,
    Mul,
    Div,
    Mod,
    Neg,
    Eq,
    Ne,
    Lt,
    Le,
    Gt,
    Ge,
    Not,
    Jump(u16),
    JumpIfFalse(u16),
    Loop(u16),
    Call(u16),
    CallMethod(u16, u16),
    Return,
    MakeStruct(u16),
    MakeArray(u16),
    MakeEnum(u16, u16),
    LoadField(u16),
    StoreField(u16),
    LoadIndex,
    StoreIndex,
    NewClosure(u16, u16),
    Len,
    BitAnd,
    BitOr,
    BitXor,
    Shl,
    Shr,
    BitNot,
    Halt,
}

impl Opcode {
    /// The byte that encodes this opcode's kind.
    pub open spec fn byte_of(self) -> u8 {
        match self {
            Opcode::LoadConst(_) => 0,
            Opcode::LoadLocal(_) => 1,
            Opcode::StoreLocal(_) => 2,
            Opcode::LoadGlobal(_) => 3,
            Opcode::StoreGlobal(_) => 4,
            Opcode::Pop => 5,
            Opcode::Dup => 6,
            Opcode::And => 7,
            Opcode::Or => 8,
            Opcode::Add => 9,
            Opcode::Sub => 10,
            Opcode::Mul => 11,
            Opcode::Div => 12,
            Opcode::Mod => 13,
            Opcode::Neg => 14,
            Opcode::Eq => 15,
            Opcode::Ne => 16,
            Opcode::Lt => 17,
            Opcode::Le => 18,
            Opcode::Gt => 19,
            Opcode::Ge => 20,
            Opcode::Not => 21,
            Opcode::Jump(_) => 22,
            Opcode::JumpIfFalse(_) => 23,
            Opcode::Loop(_) => 24,
            Opcode::Call(_) => 25,
            Opcode::CallMethod(_, _) => 26,
            Opcode::Return => 27,
            Opcode::MakeStruct(_) => 28,
            Opcode::MakeArray(_) => 29,
            Opcode::MakeEnum(_, _) => 30,
            Opcode::LoadField(_) => 31,
            Opcode::StoreField(_) => 32,
            Opcode::LoadIndex => 33,
            Opcode::StoreIndex => 34,
            Opcode::NewClosure(_, _) => 35,
            Opcode::Len => 36,
            Opcode::BitAnd => 37,
            Opcode::BitOr => 38,
            Opcode::BitXor => 39,
            Opcode::Shl => 40,
            Opcode::Shr => 41,
            Opcode::BitNot => 42,
            Opcode::Halt => 43,
        }
    }

    /// The opcode a byte decodes to, with its operands zero; `None` for a byte
    /// that encodes no opcode.
    pub open spec fn of_byte(b: u8) -> Option<Opcode> {
        match b {
            0u8 => Some(Opcode::LoadConst(0)),
            1u8 => Some(Opcode::LoadLocal(0)),
            2u8 => Some(Opcode::StoreLocal(0)),
            3u8 => Some(Opcode::LoadGlobal(0)),
            4u8 => Some(Opcode::StoreGlobal(0)),
            5u8 => Some(Opcode::Pop),
            6u8 => Some(Opcode::Dup),
            7u8 => Some(Opcode::And),
            8u8 => Some(Opcode::Or),
            9u8 => Some(Opcode::Add),
            10u8 => Some(Opcode::Sub),
            11u8 => Some(Opcode::Mul),
            12u8 => Some(Opcode::Div),
            13u8 => Some(Opcode::Mod),
            14u8 => Some(Opcode::Neg),
            15u8 => Some(Opcode::Eq),
            16u8 => Some(Opcode::Ne),
            17u8 => Some(Opcode::Lt),
            18u8 => Some(Opcode::Le),
            19u8 => Some(Opcode::Gt),
            20u8 => Some(Opcode::Ge),
            21u8 => Some(Opcode::Not),
            22u8 => Some(Opcode::Jump(0)),
            23u8 => Some(Opcode::JumpIfFalse(0)),
            24u8 => Some(Opcode::Loop(0)),
            25u8 => Some(Opcode::Call(0)),
            26u8 => Some(Opcode::CallMethod(0, 0)),
            27u8 => Some(Opcode::Return),
            28u8 => Some(Opcode::MakeStruct(0)),
            29u8 => Some(Opcode::MakeArray(0)),
            30u8 => Some(Opcode::MakeEnum(0, 0)),
            31u8 => Some(Opcode::LoadField(0)),
            32u8 => Some(Opcode::StoreField(0)),
            33u8 => Some(Opcode::LoadIndex),
            34u8 => Some(Opcode::StoreIndex),
            35u8 => Some(Opcode::NewClosure(0, 0)),
            36u8 => Some(Opcode::Len),
            37u8 => Some(Opcode::BitAnd),
            38u8 => Some(Opcode::BitOr),
            39u8 => Some(Opcode::BitXor),
            40u8 => Some(Opcode::Shl),
            41u8 => Some(Opcode::Shr),
            42u8 => Some(Opcode::BitNot),
            43u8 => Some(Opcode::Halt),
            _ => None,
        }
    }

    /// The opcode with the same kind and zero operands.
    pub open spec fn zeroed(self) -> Opcode {
        match self {
            Opcode::LoadConst(_) => Opcode::LoadConst(0),
            Opcode::LoadLocal(_) => Opcode::LoadLocal(0),
            Opcode::StoreLocal(_) => Opcode::StoreLocal(0),
            Opcode::LoadGlobal(_) => Opcode::LoadGlobal(0),
            Opcode::StoreGlobal(_) => Opcode::StoreGlobal(0),
            Opcode::Pop => Opcode::Pop,
            Opcode::Dup => Opcode::Dup,
            Opcode::And => Opcode::And,
            Opcode::Or => Opcode::Or,
            Opcode::Add => Opcode::Add,
            Opcode::Sub => Opcode::Sub,
            Opcode::Mul => Opcode::Mul,
            Opcode::Div => Opcode::Div,
            Opcode::Mod => Opcode::Mod,
            Opcode::Neg => Opcode::Neg,
            Opcode::Eq => Opcode::Eq,
            Opcode::Ne => Opcode::Ne,
            Opcode::Lt => Opcode::Lt,
            Opcode::Le => Opcode::Le,
            Opcode::Gt => Opcode::Gt,
            Opcode::Ge => Opcode::Ge,
            Opcode::Not => Opcode::Not,
            Opcode::Jump(_) => Opcode::Jump(0),
            Opcode::JumpIfFalse(_) => Opcode::JumpIfFalse(0),
            Opcode::Loop(_) => Opcode::Loop(0),
            Opcode::Call(_) => Opcode::Call(0),
            Opcode::CallMethod(_, _) => Opcode::CallMethod(0, 0),
            Opcode::Return => Opcode::Return,
            Opcode::MakeStruct(_) => Opcode::MakeStruct(0),
            Opcode::MakeArray(_) => Opcode::MakeArray(0),
            Opcode::MakeEnum(_, _) => Opcode::MakeEnum(0, 0),
            Opcode::LoadField(_) => Opcode::LoadField(0),
            Opcode::StoreField(_) => Opcode::StoreField(0),
            Opcode::LoadIndex => Opcode::LoadIndex,
            Opcode::StoreIndex => Opcode::StoreIndex,
            Opcode::NewClosure(_, _) => Opcode::NewClosure(0, 0),
            Opcode::Len => Opcode::Len,
            Opcode::BitAnd => Opcode::BitAnd,
            Opcode::BitOr => Opcode::BitOr,
            Opcode::BitXor => Opcode::BitXor,
            Opcode::Shl => Opcode::Shl,
            Opcode::Shr => Opcode::Shr,
            Opcode::BitNot => Opcode::BitNot,
            Opcode::Halt => Opcode::Halt,
        }
    }

    /// The operands this opcode carries, in order.
    pub open spec fn operands(self) -> Seq<u16> {
        match self {
            Opcode::LoadConst(a) => seq![a],
            Opcode::LoadLocal(a) => seq![a],
            Opcode::StoreLocal(a) => seq![a],
            Opcode::LoadGlobal(a) => seq![a],
            Opcode::StoreGlobal(a) => seq![a],
            Opcode::Jump(a) => seq![a],
            Opcode::JumpIfFalse(a) => seq![a],
            Opcode::Loop(a) => seq![a],
            Opcode::Call(a) => seq![a],
            Opcode::CallMethod(a, b) => seq![a, b],
            Opcode::MakeStruct(a) => seq![a],
            Opcode::MakeArray(a) => seq![a],
            Opcode::MakeEnum(a, b) => seq![a, b],
            Opcode::LoadField(a) => seq![a],
            Opcode::StoreField(a) => seq![a],
            Opcode::NewClosure(a, b) => seq![a, b],
            _ => Seq::empty(),
        }
    }

    /// The number that `operand_count` reports for this opcode.
    pub open spec fn operand_count_of(self) -> usize {
        match self {
            Opcode::LoadConst(_) => 1,
            Opcode::LoadLocal(_) => 1,
            Opcode::StoreLocal(_) => 1,
            Opcode::LoadGlobal(_) => 1,
            Opcode::StoreGlobal(_) => 1,
            Opcode::Jump(_) => 1,
            Opcode::JumpIfFalse(_) => 1,
            Opcode::Loop(_) => 1,
            Opcode::Call(_) => 1,
            Opcode::CallMethod(_, _) => 2,
            Opcode::MakeStruct(_) => 1,
            Opcode::MakeArray(_) => 1,
            Opcode::MakeEnum(_, _) => 2,
            Opcode::LoadField(_) => 1,
            Opcode::StoreField(_) => 1,
            Opcode::NewClosure(_, _) => 1,
            _ => 0,
        }
    }

    pub fn to_byte(&self) -> (b: u8)
        ensures
            b == self.byte_of(),
    {
        match self {
            Opcode::LoadConst(_) => 0,
            Opcode::LoadLocal(_) => 1,
            Opcode::StoreLocal(_) => 2,
            Opcode::LoadGlobal(_) => 3,
            Opcode::StoreGlobal(_) => 4,
            Opcode::Pop => 5,
            Opcode::Dup => 6,
            Opcode::And => 7,
            Opcode::Or => 8,
            Opcode::Add => 9,
            Opcode::Sub => 10,
            Opcode::Mul => 11,
            Opcode::Div => 12,
            Opcode::Mod => 13,
            Opcode::Neg => 14,
            Opcode::Eq => 15,
            Opcode::Ne => 16,
            Opcode::Lt => 17,
            Opcode::Le => 18,
            Opcode::Gt => 19,
            Opcode::Ge => 20,
            Opcode::Not => 21,
            Opcode::Jump(_) => 22,
            Opcode::JumpIfFalse(_) => 23,
            Opcode::Loop(_) => 24,
            Opcode::Call(_) => 25,
            Opcode::CallMethod(_, _) => 26,
            Opcode::Return => 27,
            Opcode::MakeStruct(_) => 28,
            Opcode::MakeArray(_) => 29,
            Opcode::MakeEnum(_, _) => 30,
            Opcode::LoadField(_) => 31,
            Opcode::StoreField(_) => 32,
            Opcode::LoadIndex => 33,
            Opcode::StoreIndex => 34,
            Opcode::NewClosure(_, _) => 35,
            Opcode::Len => 36,
            Opcode::BitAnd => 37,
            Opcode::BitOr => 38,
            Opcode::BitXor => 39,
            Opcode::Shl => 40,
            Opcode::Shr => 41,
            Opcode::BitNot => 42,
            Opcode::Halt => 43,
        }
    }

    pub fn from_byte(b: u8) -> (r: Option<Opcode>)
        ensures
            r == Opcode::of_byte(b),
    {
        match b {
            0 => Some(Opcode::LoadConst(0)),
            1 => Some(Opcode::LoadLocal(0)),
            2 => Some(Opcode::StoreLocal(0)),
            3 => Some(Opcode::LoadGlobal(0)),
            4 => Some(Opcode::StoreGlobal(0)),
            5 => Some(Opcode::Pop),
            6 => Some(Opcode::Dup),
            7 => Some(Opcode::And),
            8 => Some(Opcode::Or),
            9 => Some(Opcode::Add),
            10 => Some(Opcode::Sub),
            11 => Some(Opcode::Mul),
            12 => Some(Opcode::Div),
            13 => Some(Opcode::Mod),
            14 => Some(Opcode::Neg),
            15 => Some(Opcode::Eq),
            16 => Some(Opcode::Ne),
            17 => Some(Opcode::Lt),
            18 => Some(Opcode::Le),
            19 => Some(Opcode::Gt),
            20 => Some(Opcode::Ge),
            21 => Some(Opcode::Not),
            22 => Some(Opcode::Jump(0)),
            23 => Some(Opcode::JumpIfFalse(0)),
            24 => Some(Opcode::Loop(0)),
            25 => Some(Opcode::Call(0)),
            26 => Some(Opcode::CallMethod(0, 0)),
            27 => Some(Opcode::Return),
            28 => Some(Opcode::MakeStruct(0)),
            29 => Some(Opcode::MakeArray(0)),
            30 => Some(Opcode::MakeEnum(0, 0)),
            31 => Some(Opcode::LoadField(0)),
            32 => Some(Opcode::StoreField(0)),
            33 => Some(Opcode::LoadIndex),
            34 => Some(Opcode::StoreIndex),
            35 => Some(Opcode::NewClosure(0, 0)),
            36 => Some(Opcode::Len),
            37 => Some(Opcode::BitAnd),
            38 => Some(Opcode::BitOr),
            39 => Some(Opcode::BitXor),
            40 => Some(Opcode::Shl),
            41 => Some(Opcode::Shr),
            42 => Some(Opcode::BitNot),
            43 => Some(Opcode::Halt),
            _ => None,
        }
    }

    pub fn operand_count(&self) -> (n: usize)
        ensures
            n == self.operand_count_of(),
    {
        match self {
            Opcode::LoadConst(_) => 1,
            Opcode::LoadLocal(_) => 1,
            Opcode::StoreLocal(_) => 1,
            Opcode::LoadGlobal(_) => 1,
            Opcode::StoreGlobal(_) => 1,
            Opcode::Jump(_) => 1,
            Opcode::JumpIfFalse(_) => 1,
            Opcode::Loop(_) => 1,
            Opcode::Call(_) => 1,
            Opcode::CallMethod(_, _) => 2,
            Opcode::MakeStruct(_) => 1,
            Opcode::MakeArray(_) => 1,
            Opcode::MakeEnum(_, _) => 2,
            Opcode::LoadField(_) => 1,
            Opcode::StoreField(_) => 1,
            Opcode::NewClosure(_, _) => 1,
            _ => 0,
        }
    }
}
/// The two bytes of `v`, low byte first.
pub open spec fn le_bytes(v: u16) -> Seq<u8> {
    seq![(v % 256) as u8, (v / 256) as u8]
}

/// The number two little-endian bytes encode.
pub open spec fn le_value(lo: u8, hi: u8) -> u16 {
    (lo + 256 * hi) as u16
}

/// The operands of an instruction, each as two little-endian bytes.
pub open spec fn operand_bytes(ops: Seq<u16>) -> Seq<u8>
    decreases ops.len(),
{
    if ops.len() == 0 {
        Seq::empty()
    } else {
        le_bytes(ops[0]) + operand_bytes(ops.drop_first())
    }
}

/// The bytes that encode one instruction: the opcode's byte, then its operands.
pub open spec fn encode(op: Opcode) -> Seq<u8> {
    seq![op.byte_of()] + operand_bytes(op.operands())
}

/// The number of operand bytes that follow an opcode byte.
pub open spec fn operand_width(op: Opcode) -> int {
    2 * (op.operands().len() as int)
}

/// The instruction at `offset`, with zero operands, and the offset just past
/// it; `None` past the end or at a byte that encodes no opcode.
pub open spec fn decode_spec(code: Seq<u8>, offset: int) -> Option<(Opcode, int)> {
    if 0 <= offset < code.len() {
        match Opcode::of_byte(code[offset]) {
            Some(op) => Some((op, offset + 1 + operand_width(op))),
            None => None,
        }
    } else {
        None
    }
}

pub proof fn lemma_le_roundtrip(v: u16)
    ensures
        le_value(le_bytes(v)[0], le_bytes(v)[1]) == v,
{
}

pub proof fn lemma_operand_bytes_len(ops: Seq<u16>)
    ensures
        operand_bytes(ops).len() == 2 * ops.len(),
    decreases ops.len(),
{
    if ops.len() > 0 {
        lemma_operand_bytes_len(ops.drop_first());
    }
}

/// A chunk of bytecode with its constant pool, the names its field and method
/// instructions refer to, and the source line of each code byte.
#[derive(Debug, Clone)]
pub struct Chunk<K> {
    pub code: Vec<u8>,
    pub constants: Vec<K>,
    pub locals: u32,
    pub field_names: Vec<String>,
    pub method_names: Vec<String>,
    /// Line number for each byte of code (parallel to `code`).
    pub lines: Vec<usize>,
}

/// The index of the first name in `names` equal to `name`, if any.
pub open spec fn first_index_of(names: Seq<Seq<char>>, name: Seq<char>) -> Option<int> {
    if exists|i: int| 0 <= i < names.len() && names[i] == name {
        Some(choose|i: int| 0 <= i < names.len() && names[i] == name
            && forall|j: int| 0 <= j < i ==> names[j] != name)
    } else {
        None
    }
}

/// When `name` occurs in `names`, `first_index_of` finds a place that holds it.
pub proof fn lemma_first_index_found(names: Seq<Seq<char>>, name: Seq<char>, k: int)
    requires
        0 <= k < names.len(),
        names[k] == name,
    ensures
        first_index_of(names, name) matches Some(i) && 0 <= i < names.len() && names[i] == name,
    decreases k,
{
    if exists|j: int| 0 <= j < k && names[j] == name {
        let j = choose|j: int| 0 <= j < k && names[j] == name;
        lemma_first_index_found(names, name, j);
    } else {
        assert(exists|i: int| 0 <= i < names.len() && names[i] == name
            && forall|j: int| 0 <= j < i ==> names[j] != name) by {
            assert(forall|j: int| 0 <= j < k ==> names[j] != name);
        }
    }
}

pub open spec fn string_views(v: Seq<String>) -> Seq<Seq<char>> {
    v.map_values(|s: String| s@)
}

impl<K> Chunk<K> {
    /// An empty chunk.
    pub fn new() -> (c: Chunk<K>)
        ensures
            c.code@ == Seq::<u8>::empty(),
            c.constants@ == Seq::<K>::empty(),
            c.locals == 0,
            c.field_names@ == Seq::<String>::empty(),
            c.method_names@ == Seq::<String>::empty(),
            c.lines@ == Seq::<usize>::empty(),
    {
        Chunk {
            code: Vec::new(),
            constants: Vec::new(),
            locals: 0,
            field_names: Vec::new(),
            method_names: Vec::new(),
            lines: Vec::new(),
        }
    }

    /// Append a constant; its index is the pool's former length, cut to 16 bits.
    pub fn add_constant(&mut self, val: K) -> (idx: u16)
        ensures
            final(self).constants@ == old(self).constants@.push(val),
            idx == old(self).constants@.len() as u16,
            final(self).code@ == old(self).code@,
            final(self).lines@ == old(self).lines@,
            final(self).field_names@ == old(self).field_names@,
            final(self).method_names@ == old(self).method_names@,
            final(self).locals == old(self).locals,
    {
        #[verifier::truncate]
        let idx = self.constants.len() as u16;
        self.constants.push(val);
        idx
    }

    /// Intern `name` in `names`: the index of its first occurrence, or of a new
    /// entry at the end; the index is cut to 16 bits.
    fn intern(names: &mut Vec<String>, name: &str) -> (idx: u16)
        ensures
            match first_index_of(string_views(old(names)@), name@) {
                Some(i) => idx == i as u16 && final(names)@ == old(names)@,
                None => idx == old(names)@.len() as u16 && string_views(final(names)@)
                    == string_views(old(names)@).push(name@),
            },
    {
        let key = name.to_string();
        let mut i: usize = 0;
        while i < names.len()
            invariant
                key@ == name@,
                names@ == old(names)@,
                i <= names.len(),
                forall|j: int| 0 <= j < i ==> names@[j]@ != name@,
            decreases names.len() - i,
        {
            if names[i] == key {
                proof {
                    let v = string_views(names@);
                    assert(v[i as int] == name@);
                    let w = choose|w: int| 0 <= w < v.len() && v[w] == name@
                        && forall|j: int| 0 <= j < w ==> v[j] != name@;
                    if w < i {
                        assert(names@[w]@ != name@);
                    }
                    if i < w {
                        assert(v[i as int] != name@);
                    }
                }
                #[verifier::truncate]
                let r = i as u16;
                return r;
            }
            i = i + 1;
        }
        #[verifier::truncate]
        let idx = names.len() as u16;
        names.push(key);
        proof {
            let v = string_views(old(names)@);
            assert forall|j: int| 0 <= j < v.len() implies v[j] != name@ by {
                assert(old(names)@[j]@ != name@);
            }
            assert(string_views(names@) =~= v.push(name@));
        }
        idx
    }

    /// The index of field name `name`, added at the end when it is new.
    pub fn add_field_name(&mut self, name: &str) -> (idx: u16)
        ensures
            match first_index_of(string_views(old(self).field_names@), name@) {
                Some(i) => idx == i as u16 && final(self).field_names@ == old(self).field_names@,
                None => idx == old(self).field_names@.len() as u16 && string_views(
                    final(self).field_names@,
                ) == string_views(old(self).field_names@).push(name@),
            },
            final(self).code@ == old(self).code@,
            final(self).lines@ == old(self).lines@,
            final(self).constants@ == old(self).constants@,
            final(self).method_names@ == old(self).method_names@,
    {
        Self::intern(&mut self.field_names, name)
    }

    /// The index of method name `name`, added at the end when it is new.
    pub fn add_method_name(&mut self, name: &str) -> (idx: u16)
        ensures
            match first_index_of(string_views(old(self).method_names@), name@) {
                Some(i) => idx == i as u16 && final(self).method_names@ == old(self).method_names@,
                None => idx == old(self).method_names@.len() as u16 && string_views(
                    final(self).method_names@,
                ) == string_views(old(self).method_names@).push(name@),
            },
            final(self).code@ == old(self).code@,
            final(self).lines@ == old(self).lines@,
            final(self).constants@ == old(self).constants@,
            final(self).field_names@ == old(self).field_names@,
    {
        Self::intern(&mut self.method_names, name)
    }

    pub fn emit_byte(&mut self, byte: u8, line: usize)
        ensures
            final(self).code@ == old(self).code@.push(byte),
            final(self).lines@ == old(self).lines@.push(line),
            final(self).constants@ == old(self).constants@,
            final(self).field_names@ == old(self).field_names@,
            final(self).method_names@ == old(self).method_names@,
            final(self).locals == old(self).locals,
    {
        self.code.push(byte);
        self.lines.push(line);
    }

    /// Append `val` as two little-endian bytes, both on `line`.
    pub fn emit_u16(&mut self, val: u16, line: usize)
        ensures
            final(self).code@ == old(self).code@ + le_bytes(val),
            final(self).lines@ == old(self).lines@ + seq![line, line],
            final(self).constants@ == old(self).constants@,
            final(self).field_names@ == old(self).field_names@,
            final(self).method_names@ == old(self).method_names@,
            final(self).locals == old(self).locals,
    {
        let lo = (val % 256) as u8;
        let hi = (val / 256) as u8;
        self.code.push(lo);
        self.code.push(hi);
        self.lines.push(line);
        self.lines.push(line);
        proof {
            assert(self.code@ =~= old(self).code@ + le_bytes(val));
            assert(self.lines@ =~= old(self).lines@ + seq![line, line]);
        }
    }

    /// Append the encoding of `op`, every byte of it on `line`.
    pub fn emit_op(&mut self, op: Opcode, line: usize)
        ensures
            final(self).code@ == old(self).code@ + encode(op),
            final(self).lines@ == old(self).lines@ + Seq::new(encode(op).len(), |i: int| line),
            final(self).constants@ == old(self).constants@,
            final(self).field_names@ == old(self).field_names@,
            final(self).method_names@ == old(self).method_names@,
            final(self).locals == old(self).locals,
    {
        self.emit_byte(op.to_byte(), line);
        match op {
            Opcode::LoadConst(v) | Opcode::LoadLocal(v) | Opcode::StoreLocal(v)
            | Opcode::LoadGlobal(v) | Opcode::StoreGlobal(v) | Opcode::Jump(v)
            | Opcode::JumpIfFalse(v) | Opcode::Loop(v) | Opcode::Call(v) | Opcode::MakeArray(v)
            | Opcode::LoadField(v) | Opcode::StoreField(v) | Opcode::MakeStruct(v) => {
                self.emit_u16(v, line);
            },
            Opcode::MakeEnum(t, f) => {
                self.emit_u16(t, line);
                self.emit_u16(f, line);
            },
            Opcode::CallMethod(m, a) => {
                self.emit_u16(m, line);
                self.emit_u16(a, line);
            },
            Opcode::NewClosure(f, n) => {
                self.emit_u16(f, line);
                self.emit_u16(n, line);
            },
            _ => {},
        }
        proof {
            let ops = op.operands();
            reveal_with_fuel(operand_bytes, 3);
            assert(ops.len() == 2 ==> ops.drop_first().drop_first() =~= Seq::<u16>::empty());
            assert(ops.len() == 1 ==> ops.drop_first() =~= Seq::<u16>::empty());
            assert(self.code@ =~= old(self).code@ + encode(op));
            assert(self.lines@ =~= old(self).lines@ + Seq::new(encode(op).len(), |i: int| line));
        }
    }

    /// The source line of the code byte at `offset`; 0 past the end.
    pub fn get_line(&self, offset: usize) -> (line: usize)
        ensures
            line == (if offset < self.lines@.len() { self.lines@[offset as int] } else { 0 }),
    {
        if offset < self.lines.len() {
            self.lines[offset]
        } else {
            0
        }
    }

    /// Overwrite the two bytes at `offset` with `val`, low byte first.
    pub fn patch_u16(&mut self, offset: usize, val: u16)
        requires
            offset + 1 < old(self).code.len(),
        ensures
            final(self).code@ == old(self).code@.update(offset as int, le_bytes(val)[0]).update(
                offset + 1,
                le_bytes(val)[1],
            ),
            final(self).lines@ == old(self).lines@,
            final(self).constants@ == old(self).constants@,
            final(self).field_names@ == old(self).field_names@,
            final(self).method_names@ == old(self).method_names@,
            final(self).locals == old(self).locals,
    {
        let next = offset + 1;
        self.code.set(offset, (val % 256) as u8);
        self.code.set(next, (val / 256) as u8);
    }

    /// The 16-bit operand stored little-endian at `offset`.
    pub fn read_u16(&self, offset: usize) -> (v: u16)
        requires
            offset + 1 < self.code@.len(),
        ensures
            v == le_value(self.code@[offset as int], self.code@[offset + 1]),
    {
        Self::read_u16_static(self.code.as_slice(), offset)
    }

    /// The 16-bit number stored little-endian at `offset` of `code`.
    pub fn read_u16_static(code: &[u8], offset: usize) -> (v: u16)
        requires
            offset + 1 < code@.len(),
        ensures
            v == le_value(code@[offset as int], code@[offset + 1]),
    {
        let lo = code[offset] as u16;
        let hi = code[offset + 1] as u16;
        lo + 256 * hi
    }

    /// Total size of the chunk's bytecode in bytes.
    pub fn len(&self) -> (n: usize)
        ensures
            n == self.code@.len(),
    {
        self.code.len()
    }

    /// The instruction at `offset` (its operands read as zero) and the offset of
    /// the next one.
    pub fn decode_at(&self, offset: usize) -> (r: Option<(Opcode, usize)>)
        requires
            offset + 5 <= usize::MAX,
        ensures
            match decode_spec(self.code@, offset as int) {
                Some((op, next)) => r == Some((op, next as usize)),
                None => r is None,
            },
    {
        if offset >= self.code.len() {
            return None;
        }
        let byte = self.code[offset];
        let op = match Opcode::from_byte(byte) {
            Some(op) => op,
            None => return None,
        };
        let mut off = offset + 1;
        match op {
            Opcode::MakeEnum(_, _) | Opcode::CallMethod(_, _) | Opcode::NewClosure(_, _) => {
                off = off + 4;
            },
            Opcode::LoadConst(_) | Opcode::LoadLocal(_) | Opcode::StoreLocal(_)
            | Opcode::LoadGlobal(_) | Opcode::StoreGlobal(_) | Opcode::Jump(_)
            | Opcode::JumpIfFalse(_) | Opcode::Loop(_) | Opcode::Call(_) | Opcode::MakeArray(_)
            | Opcode::LoadField(_) | Opcode::StoreField(_) | Opcode::MakeStruct(_) => {
                off = off + 2;
            },
            _ => {},
        }
        Some((op, off))
    }
}

/// Reading the operand that `emit_u16` or `patch_u16` stored gives it back.
pub proof fn lemma_u16_roundtrip(code: Seq<u8>, offset: int, val: u16)
    requires
        0 <= offset,
        offset + 1 < code.len(),
        code[offset] == le_bytes(val)[0],
        code[offset + 1] == le_bytes(val)[1],
    ensures
        le_value(code[offset], code[offset + 1]) == val,
{
}

/// Each byte that encodes an opcode decodes to that opcode's kind, and each
/// byte that decodes encodes back to itself.
pub proof fn lemma_opcode_byte_roundtrip(op: Opcode, b: u8)
    ensures
        Opcode::of_byte(op.byte_of()) == Some(op.zeroed()),
        Opcode::of_byte(b) is Some <==> b < 44,
        Opcode::of_byte(b) is Some ==> Opcode::of_byte(b).unwrap().byte_of() == b,
{
}

/// Decoding at the start of an emitted instruction gives its kind and the
/// offset just past its encoding.
pub proof fn lemma_decode_emitted(prefix: Seq<u8>, op: Opcode, rest: Seq<u8>)
    ensures
        decode_spec(prefix + encode(op) + rest, prefix.len() as int) == Some(
            (op.zeroed(), (prefix.len() + encode(op).len()) as int),
        ),
{
    lemma_operand_bytes_len(op.operands());
    lemma_opcode_byte_roundtrip(op, 0);
    let code = prefix + encode(op) + rest;
    assert(code[prefix.len() as int] == op.byte_of());
}

/// Description of an upvalue (captured variable from enclosing scope).
#[derive(Debug, Clone)]
pub struct UpvalueDesc {
    pub is_local: bool,
    pub index: u32,
}

/// A compiled function.
#[derive(Debug, Clone)]
pub struct BytecodeFn<K> {
    pub chunk: Chunk<K>,
    pub upvalues: Vec<UpvalueDesc>,
    pub name: String,
    pub arity: u32,
}

impl<K> BytecodeFn<K> {
    pub fn new(name: String, arity: u32) -> (f: BytecodeFn<K>)
        ensures
            f.name == name,
            f.arity == arity,
            f.upvalues@ == Seq::<UpvalueDesc>::empty(),
            f.chunk.code@ == Seq::<u8>::empty(),
            f.chunk.constants@ == Seq::<K>::empty(),
            f.chunk.lines@ == Seq::<usize>::empty(),
            f.chunk.field_names@ == Seq::<String>::empty(),
            f.chunk.method_names@ == Seq::<String>::empty(),
            f.chunk.locals == 0,
    {
        BytecodeFn { chunk: Chunk::new(), upvalues: Vec::new(), name, arity }
    }
}

} // verus!
